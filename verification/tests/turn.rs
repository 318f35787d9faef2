use llama_desktop::errors::EngineError;
use llama_desktop::protocol::{AdditionalParams, Response};
use llama_desktop::sender::{
    begin_turn, check_escape, finish_turn, process_chunk, server_failed_error, timeout_with_error,
    ChunkOutcome,
};
use llama_desktop::state::State;

fn session_with(models: Vec<&str>, selected: usize, input: &str) -> State {
    let mut s = State::new();
    s.models = models.into_iter().map(|m| m.to_string()).collect();
    s.selected_model = selected;
    s.input = input.to_string();
    s
}

#[test]
fn example_turn_streams_two_chunks() {
    let mut s = session_with(vec!["llama"], 0, "Why is the sky blue?");
    let req = begin_turn(&mut s, 42).unwrap();
    assert_eq!(req.model, "llama");
    assert_eq!(req.prompt, "Why is the sky blue?");
    assert!(req.stream);
    assert!(req.context.is_none());
    assert_eq!(req.options.seed, 42);
    assert_eq!(req.options.num_ctx, 8192);
    assert_eq!(req.options.repeat_last_n, -1);
    assert!(s.retrieving);
    assert_eq!(s.title, "Why is the sky blue?");
    assert_eq!(s.input, "");

    let c1 = Response { response: "Because".to_string(), context: None, done: false };
    assert_eq!(process_chunk(&mut s, &c1), ChunkOutcome::Continue);
    let c2 = Response {
        response: " of Rayleigh scattering.".to_string(),
        context: Some(vec![7, 9]),
        done: true,
    };
    assert_eq!(process_chunk(&mut s, &c2), ChunkOutcome::Done);
    finish_turn(&mut s, &None);

    assert!(s.output.ends_with("Because of Rayleigh scattering.\n\n-----\n"));
    assert_eq!(
        s.output,
        "> Why is the sky blue?\n\n\nBecause of Rayleigh scattering.\n\n-----\n"
    );
    assert_eq!(s.context, vec![7, 9]);
    assert!(!s.retrieving);
    assert!(!s.escape);
    assert!(s.reload);
}

#[test]
fn completed_stream_output_is_echo_fragments_separator() {
    let mut s = session_with(vec!["m"], 0, "hi");
    let _ = begin_turn(&mut s, 1).unwrap();
    for (text, done) in [("a", false), ("b", false), ("c", true)] {
        let chunk = Response { response: text.to_string(), context: None, done };
        process_chunk(&mut s, &chunk);
    }
    finish_turn(&mut s, &None);
    assert_eq!(s.output, "> hi\n\n\nabc\n\n-----\n");
}

#[test]
fn context_replacement_is_last_write_wins() {
    let mut s = session_with(vec!["m"], 0, "q");
    s.context = vec![99];
    let req = begin_turn(&mut s, 7).unwrap();
    assert_eq!(req.context, Some(vec![99]));
    let c1 = Response { response: "x".to_string(), context: Some(vec![1, 2]), done: false };
    let c2 = Response { response: "y".to_string(), context: None, done: true };
    process_chunk(&mut s, &c1);
    process_chunk(&mut s, &c2);
    finish_turn(&mut s, &None);
    assert_eq!(s.context, vec![1, 2]);
}

#[test]
fn cancellation_between_chunks_keeps_prefix() {
    let mut s = session_with(vec!["m"], 0, "q");
    let _ = begin_turn(&mut s, 7).unwrap();
    let c1 = Response { response: "Because".to_string(), context: None, done: false };
    assert_eq!(process_chunk(&mut s, &c1), ChunkOutcome::Continue);
    s.escape = true;
    assert!(check_escape(&s));
    let c2 = Response { response: " never seen".to_string(), context: Some(vec![5]), done: true };
    assert_eq!(process_chunk(&mut s, &c2), ChunkOutcome::Cancelled);
    finish_turn(&mut s, &Some(EngineError::Cancelled));
    assert_eq!(
        s.output,
        "> q\n\n\nBecause\n## ERROR:\nEscape key pressed.\n\n-----\n"
    );
    assert_eq!(s.context, Vec::<u32>::new());
    assert!(!s.escape);
    assert!(!s.retrieving);
    assert!(s.reload);
}

#[test]
fn empty_input_starts_nothing() {
    let mut s = session_with(vec!["m"], 0, "");
    assert!(!s.retrieving);
    let r = begin_turn(&mut s, 3);
    assert!(matches!(r, Err(EngineError::EmptyInput)));
    assert!(!s.retrieving);
    assert_eq!(s.output, "");
    assert_eq!(s.title, "");
}

#[test]
fn title_is_set_only_once() {
    let mut s = session_with(vec!["m"], 0, "first");
    let _ = begin_turn(&mut s, 1).unwrap();
    finish_turn(&mut s, &None);
    s.input = "second".to_string();
    let _ = begin_turn(&mut s, 2).unwrap();
    assert_eq!(s.title, "first");
}

#[test]
fn failed_turn_shows_error_block() {
    let mut s = session_with(vec!["m"], 0, "q");
    let _ = begin_turn(&mut s, 1).unwrap();
    let e = server_failed_error();
    assert_eq!(e.message(), "Ollama Server failed to respond");
    finish_turn(&mut s, &Some(e));
    assert_eq!(
        s.output,
        "> q\n\n\n\n## ERROR:\nOllama Server failed to respond\n\n-----\n"
    );
}

#[test]
fn timeout_error_names_the_cause() {
    let e = timeout_with_error("connection timed out".to_string());
    assert_eq!(
        e.message(),
        "Timeout waiting for Ollama Server:\n\nconnection timed out"
    );
    assert!(matches!(e, EngineError::Timeout(_)));
}

#[test]
fn network_and_protocol_messages_pass_through() {
    assert_eq!(EngineError::Network("no route".to_string()).message(), "no route");
    assert_eq!(EngineError::Protocol("status 500".to_string()).message(), "status 500");
}

#[test]
fn default_params_are_fixed_except_seed() {
    let p = AdditionalParams::default();
    assert_eq!(p.num_ctx, 8192);
    assert_eq!(p.repeat_last_n, -1);
    let q = AdditionalParams::with_seed(11);
    assert_eq!(q.seed, 11);
}
