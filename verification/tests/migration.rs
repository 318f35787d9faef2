use llama_desktop::legacy::{
    decode_entities, legacy_apply, legacy_finish, legacy_step, LegacyLoader, LegacyStep,
};
use llama_desktop::protocol::{AIModel, ModelList, Response, model_names, sort_models};
use llama_desktop::state::State;
use llama_desktop::storage::begin_load;

fn session_with_models(models: Vec<&str>, selected: usize) -> State {
    let mut s = State::new();
    s.models = models.into_iter().map(|m| m.to_string()).collect();
    s.selected_model = selected;
    s
}

#[test]
fn entity_decoding() {
    let decode = |t: &str| -> String {
        decode_entities(&t.chars().collect()).into_iter().collect()
    };
    assert_eq!(decode("a &lt; b &amp;&amp; c &gt; d"), "a < b && c > d");
    assert_eq!(decode("&amp;lt;"), "&lt;");
    assert_eq!(decode("plain"), "plain");
    assert_eq!(decode(""), "");
}

#[test]
fn legacy_replay_rebuilds_context_in_order() {
    let mut s = session_with_models(vec!["m1", "m2"], 0);
    begin_load(&mut s);
    assert!(s.retrieving);
    let mut ld = LegacyLoader::new();
    assert_eq!(ld.step, LegacyStep::ReadingHTML);

    assert!(legacy_step(&mut s, &mut ld, "<!DOCTYPE html>").is_none());
    assert!(legacy_step(&mut s, &mut ld, "  <body>").is_none());
    assert_eq!(ld.step, LegacyStep::ReadingHeader);
    assert!(legacy_step(&mut s, &mut ld, "model: m2").is_none());
    assert_eq!(s.selected_model, 1);
    assert!(legacy_step(&mut s, &mut ld, "-----").is_none());
    assert!(legacy_step(&mut s, &mut ld, "-----").is_none());
    assert_eq!(ld.step, LegacyStep::ReadingQuestion);

    assert!(legacy_step(&mut s, &mut ld, "> What is 2+2?").is_none());
    let call1 = legacy_step(&mut s, &mut ld, "The answer is 4.").unwrap();
    assert_eq!(call1.prompt, "What is 2+2?");
    assert_eq!(call1.context, Vec::<u32>::new());
    assert_eq!(ld.step, LegacyStep::ReadingAnswer);
    legacy_apply(
        &mut ld,
        &Response { response: "4".to_string(), context: Some(vec![1, 2]), done: true },
    );

    assert!(legacy_step(&mut s, &mut ld, "> Next &lt;question&gt;").is_none());
    assert_eq!(ld.step, LegacyStep::ReadingQuestion);
    let call2 = legacy_step(&mut s, &mut ld, "  </body>").unwrap();
    assert_eq!(call2.prompt, "Next <question>");
    assert_eq!(call2.context, vec![1, 2]);
    assert_eq!(ld.step, LegacyStep::Done);
    legacy_apply(
        &mut ld,
        &Response { response: "ok".to_string(), context: Some(vec![3, 4]), done: true },
    );

    legacy_finish(&mut s, &ld);
    assert_eq!(s.context, vec![3, 4]);
    assert!(!s.retrieving);
    assert!(s.reload);
    assert_eq!(
        s.output,
        "> What is 2+2?\nThe answer is 4.\n> Next <question>\n"
    );
}

#[test]
fn legacy_multiline_question_accumulates() {
    let mut s = session_with_models(vec!["m"], 0);
    let mut ld = LegacyLoader::new();
    legacy_step(&mut s, &mut ld, "  <body>");
    legacy_step(&mut s, &mut ld, "-----");
    legacy_step(&mut s, &mut ld, "-----");
    legacy_step(&mut s, &mut ld, "> line one");
    legacy_step(&mut s, &mut ld, "> line two");
    let call = legacy_step(&mut s, &mut ld, "answer").unwrap();
    assert_eq!(call.prompt, "line one\nline two");
}

#[test]
fn legacy_failure_keeps_partial_output() {
    let mut s = session_with_models(vec!["m"], 0);
    s.context = vec![9];
    let mut ld = LegacyLoader::new();
    legacy_step(&mut s, &mut ld, "  <body>");
    legacy_step(&mut s, &mut ld, "-----");
    legacy_step(&mut s, &mut ld, "-----");
    legacy_step(&mut s, &mut ld, "> q");
    let _call = legacy_step(&mut s, &mut ld, "a").unwrap();
    // the replay call fails: the load aborts, what was echoed stays
    legacy_finish(&mut s, &ld);
    assert_eq!(s.output, "> q\na\n");
    assert_eq!(s.context, vec![9]);
    assert!(!s.retrieving);
}

#[test]
fn catalogue_is_sorted_newest_first() {
    let list = ModelList {
        models: vec![
            AIModel { name: "old".to_string(), modified_at: "2023-12-31T10:00:00Z".to_string() },
            AIModel { name: "new".to_string(), modified_at: "2025-03-04T10:00:00Z".to_string() },
            AIModel { name: "mid".to_string(), modified_at: "2024-01-01T10:00:00Z".to_string() },
        ],
    };
    let sorted = sort_models(list.models);
    let names = model_names(&sorted);
    assert_eq!(names, vec!["new", "mid", "old"]);
}
