[package]
name = "llama_desktop"
version = "0.1.0"
edition = "2021"
publish = false

[dependencies]
chrono = "*"
comrak = { version = "*", default-features = false }
eyre = "*"
reqwest = { version = "*", default-features = false, features = ["json"] }
serde = { version = "*", features = ["derive"] }
serde_json = "*"
tokio = { version = "*", features = ["rt-multi-thread", "macros", "time", "sync"] }
url = "*"
