use llama_desktop::errors::EngineError;
use llama_desktop::numbers::{decimal_chars, parse_context, parse_decimal};
use llama_desktop::ollama::path;
use llama_desktop::state::{set_model, update_cwd, State};
use llama_desktop::storage::{begin_load, kind_of_path, load_native, save_context, save_html, FileKind};
use llama_desktop::timeouts::{timeout_index_of, timeout_secs, timeouts};

fn session_with_models(models: Vec<&str>, selected: usize) -> State {
    let mut s = State::new();
    s.models = models.into_iter().map(|m| m.to_string()).collect();
    s.selected_model = selected;
    s
}

#[test]
fn save_renders_header_and_transcript() {
    let mut s = session_with_models(vec!["m1", "m2"], 1);
    s.context = vec![5, 10, 42];
    let text = save_context(&s, "hello\nworld").unwrap();
    assert_eq!(text, "model: m2\ncontext: 5,10,42\n-----\nhello\nworld");
}

#[test]
fn save_without_context_is_refused() {
    let s = session_with_models(vec!["m1"], 0);
    let r = save_context(&s, "anything");
    assert!(matches!(r, Err(EngineError::NoContext)));
}

#[test]
fn save_then_load_restores_selection_and_context() {
    let mut s = session_with_models(vec!["m1", "m2"], 1);
    s.context = vec![5, 10, 42];
    s.output = "hello\nworld".to_string();
    let text = save_context(&s, "hello\nworld").unwrap();

    let mut fresh = session_with_models(vec!["m1", "m2"], 0);
    load_native(&mut fresh, &text).unwrap();
    assert_eq!(fresh.selected_model, 1);
    assert_eq!(fresh.context, vec![5, 10, 42]);
    assert_eq!(fresh.output, "hello\nworld\n");
    assert!(!fresh.retrieving);
    assert!(!fresh.escape);
    assert!(fresh.reload);
}

#[test]
fn load_with_unknown_model_keeps_selection() {
    let mut s = session_with_models(vec!["m1", "m2"], 1);
    load_native(&mut s, "model: missing\ncontext: 3\n-----\nbody").unwrap();
    assert_eq!(s.selected_model, 1);
    assert_eq!(s.context, vec![3]);
    assert_eq!(s.output, "body\n");
}

#[test]
fn load_with_bad_integer_fails_with_parse_error() {
    let mut s = session_with_models(vec!["m1"], 0);
    s.output = "kept".to_string();
    let r = load_native(&mut s, "context: 1,x,3\n-----\nnever reached");
    match r {
        Err(EngineError::Parse(seg)) => assert_eq!(seg, "x"),
        other => panic!("expected a parse failure, got {:?}", other),
    }
    assert_eq!(s.context, Vec::<u32>::new());
    assert_eq!(s.output, "kept");
    assert!(!s.retrieving);
    assert!(s.reload);
}

#[test]
fn load_with_oversized_integer_fails() {
    let mut s = session_with_models(vec!["m1"], 0);
    let r = load_native(&mut s, "context: 4294967296\n-----\n");
    match r {
        Err(EngineError::Parse(seg)) => {
            assert_eq!(seg, "4294967296");
            assert_eq!(r"invalid context number: 4294967296".to_string(), {
                let e = EngineError::Parse(seg);
                e.message()
            });
        }
        other => panic!("expected a parse failure, got {:?}", other),
    }
}

#[test]
fn header_lines_after_separator_are_transcript() {
    let mut s = session_with_models(vec!["m1"], 0);
    load_native(&mut s, "context: 8\n-----\nmodel: m1\ncontext: 9\n-----").unwrap();
    assert_eq!(s.context, vec![8]);
    assert_eq!(s.output, "model: m1\ncontext: 9\n-----\n");
}

#[test]
fn decimal_round_trip() {
    assert_eq!(decimal_chars(0), vec!['0']);
    assert_eq!(decimal_chars(407), vec!['4', '0', '7']);
    assert_eq!(parse_decimal(&vec!['4', '0', '7']), Some(407));
    assert_eq!(parse_decimal(&decimal_chars(u32::MAX)), Some(u32::MAX));
    assert_eq!(parse_decimal(&vec![]), None);
    assert_eq!(parse_decimal(&vec!['4', 'x']), None);
    assert_eq!(
        parse_decimal(&vec!['4', '2', '9', '4', '9', '6', '7', '2', '9', '6']),
        None
    );
}

#[test]
fn context_list_parsing() {
    let ok = parse_context(&"1,22,333".chars().collect()).unwrap();
    assert_eq!(ok, vec![1, 22, 333]);
    let bad = parse_context(&"1,,3".chars().collect()).unwrap_err();
    assert_eq!(bad, Vec::<char>::new());
}

#[test]
fn file_kind_by_extension() {
    assert_eq!(kind_of_path("chat.ctx"), FileKind::Context);
    assert_eq!(kind_of_path("chat.html"), FileKind::Html);
    assert_eq!(kind_of_path("ctx"), FileKind::Html);
    assert_eq!(kind_of_path("archive.ctx.htm"), FileKind::Html);
}

#[test]
fn html_export_embeds_title_and_renders_markdown() {
    let mut s = session_with_models(vec!["m1"], 0);
    s.title = "My chat".to_string();
    let doc = save_html(&s, "# Heading\n\nplain");
    assert!(doc.starts_with("<!DOCTYPE html>\n<html>\n  <head>\n    <title>My chat</title>\n  </head>\n  <body>\n"));
    assert!(doc.ends_with("  </body>\n</html>\n"));
    assert!(doc.contains("<h1>"));
    assert!(doc.contains("Heading"));
}

#[test]
fn endpoint_path_joins_host_and_route() {
    assert_eq!(
        path("http://localhost:11434", "/api/generate"),
        "http://localhost:11434/api/generate"
    );
    assert_eq!(path("http://host:1/", "/api/tags"), "http://host:1/api/tags");
}

#[test]
fn endpoint_path_replaces_an_existing_path() {
    assert_eq!(path("http://host:1/x", "/api/generate"), "http://host:1/api/generate");
    assert_eq!(path("http://host:1/x/y?q=1", "/api/tags"), "http://host:1/api/tags");
    assert_eq!(path("localhost", "/api/tags"), "localhost/api/tags");
}

#[test]
fn load_is_marked_in_flight_and_cleared() {
    let mut s = session_with_models(vec!["m1"], 0);
    begin_load(&mut s);
    assert!(s.retrieving);
    load_native(&mut s, "context: 4\n-----\n").unwrap();
    assert!(!s.retrieving);
    assert_eq!(s.context, vec![4]);
}

#[test]
fn timeout_list_and_lookups() {
    assert_eq!(timeouts(), vec![10, 20, 30, 60, 120, 180, 300]);
    assert_eq!(timeout_secs(1), Some(20));
    assert_eq!(timeout_secs(6), Some(300));
    assert_eq!(timeout_secs(7), None);
    assert_eq!(timeout_index_of(20), Some(1));
    assert_eq!(timeout_index_of(15), None);
}

#[test]
fn set_model_picks_first_match() {
    let mut s = session_with_models(vec!["a", "b", "a"], 2);
    assert!(set_model(&mut s, &"a".to_string()));
    assert_eq!(s.selected_model, 0);
    assert!(!set_model(&mut s, &"zzz".to_string()));
    assert_eq!(s.selected_model, 0);
}

#[test]
fn reset_clears_conversation_but_keeps_settings() {
    let mut s = session_with_models(vec!["a"], 0);
    s.title = "t".to_string();
    s.output = "text".to_string();
    s.context = vec![1];
    s.timeout_idx = 3;
    s.cwd = "/tmp".to_string();
    s.reset();
    assert_eq!(s.title, "");
    assert_eq!(s.output, "");
    assert_eq!(s.input, "Why the sky is blue?");
    assert_eq!(s.context, Vec::<u32>::new());
    assert!(!s.retrieving);
    assert!(s.reload);
    assert_eq!(s.timeout_idx, 3);
    assert_eq!(s.cwd, "/tmp");
}

#[test]
fn update_cwd_records_directory_and_reload() {
    let mut s = State::new();
    s.reload = false;
    update_cwd(&mut s, "/home/user/chats".to_string());
    assert_eq!(s.cwd, "/home/user/chats");
    assert!(s.reload);
}
