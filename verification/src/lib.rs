//! Conversation session engine for a desktop client of a local
//! text-generation service.
//!
//! The library holds the verified core: the session record and its
//! invariant, the streamed question/answer turn as a step-by-step state
//! machine, and the transcript persistence formats (native save/load and
//! the legacy migration that replays old questions to rebuild continuation
//! state). Network transport, file dialogs and rendering are left to the
//! surrounding application, which drives the state machines defined here.

pub mod errors;
pub mod numbers;
pub mod ollama;
pub mod protocol;
pub mod sender;
pub mod storage;
pub mod helpers;
pub mod legacy;
pub mod state;
pub mod text;
pub mod timeouts;
