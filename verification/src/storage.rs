//! Transcript persistence: the native context format, and the HTML
//! export.
//!
//! The native format is a short header — the selected model, the
//! continuation tokens as comma-joined decimals, a separator line —
//! followed by the raw transcript text. Saving renders that text;
//! loading scans it line by line with a two-phase state machine. The
//! application owns the file dialogs and the actual reads and writes.

use vstd::prelude::*;
use vstd::string::*;
use crate::errors::EngineError;
use crate::numbers::{
    copy_tokens, first_bad_seg, join_context, lemma_decimal_val, lemma_first_bad_seg,
    lemma_joined_chars, lemma_split_joined, parse_context, spec_decimal, spec_joined,
    is_digit, spec_token_values, valid_token_seg,
};
use crate::state::{first_model, set_model, spec_set_model, State, StateModel};
use crate::text::{
    chars_of, eq_str, has_prefix, lemma_split_step, lines_of, push_char, spec_lines, spec_split,
    string_from_chars, tail_from,
};

verus! {

/// What the two loaders read: the native context format, or an HTML
/// export (which cannot be reloaded). Chosen by file name:
/// a name ending in `".ctx"` is a context file.
#[derive(Debug, Clone, Copy, PartialEq, Eq, Structural)]
pub enum FileKind {
    Context,
    Html,
}

/// Classifies a file name by its extension.
pub fn kind_of_path(name: &str) -> (r: FileKind)
    ensures
        r is Context <==> (name@.len() >= 4 && name@.skip(name@.len() - 4) == ".ctx"@),
{
    let v = chars_of(name);
    if v.len() < 4 {
        return FileKind::Html;
    }
    let suffix = tail_from(&v, v.len() - 4);
    if eq_str(&suffix, ".ctx") {
        FileKind::Context
    } else {
        FileKind::Html
    }
}

/// The native file for a session and its transcript text: the header
/// names the model and the continuation tokens, a separator line ends
/// the header, and the raw transcript follows.
pub open spec fn spec_native_file(m: StateModel, content: Seq<char>) -> Seq<char> {
    "model: "@ + m.models[m.selected_model] + "\ncontext: "@ + spec_joined(m.context)
        + "\n-----\n"@ + content
}

/// Renders the native file for the session. Fails with `NoContext`
/// when there are no continuation tokens: without them the transcript
/// cannot be resumed, so there is nothing meaningful to save.
pub fn save_context(state: &State, content: &str) -> (r: Result<String, EngineError>)
    requires
        state@.context.len() > 0 ==> state@.has_model(),
    ensures
        match r {
            Ok(text) => state@.context.len() > 0 && text@ == spec_native_file(
                state@,
                content@,
            ),
            Err(e) => state@.context.len() == 0 && e is NoContext,
        },
{
    if state.context.len() == 0 {
        return Err(EngineError::NoContext);
    }
    let model = state.models[state.selected_model].clone();
    let joined = string_from_chars(&join_context(&state.context));
    let text = String::from_str("model: ").concat(model.as_str()).concat("\ncontext: ").concat(
        joined.as_str(),
    ).concat("\n-----\n").concat(content);
    proof {
        assert(text@ =~= spec_native_file(state@, content@));
    }
    Ok(text)
}

/// What the Markdown renderer produces for a transcript. The rendering
/// is a fixed function of the text alone; its definition belongs to the
/// renderer.
pub uninterp spec fn html_of(md: Seq<char>) -> Seq<char>;

/// Relies on `comrak::markdown_to_html` with default options: renders
/// Markdown to HTML, a function of the text alone.
#[verifier::external_body]
fn markdown_html(content: &str) -> (r: String)
    ensures
        r@ == html_of(content@),
{
    comrak::markdown_to_html(content, &comrak::Options::default())
}

/// The HTML export: a minimal document with the session title in its
/// head and the rendered transcript in its body.
pub open spec fn spec_html_file(title: Seq<char>, content: Seq<char>) -> Seq<char> {
    "<!DOCTYPE html>\n<html>\n  <head>\n    <title>"@ + title + "</title>\n  </head>\n  <body>\n"@
        + html_of(content) + "  </body>\n</html>\n"@
}

/// Renders the HTML export of the transcript, with the session title
/// embedded. This export is for reading elsewhere; it cannot be loaded
/// back.
pub fn save_html(state: &State, content: &str) -> (r: String)
    ensures
        r@ == spec_html_file(state@.title, content@),
{
    let html = markdown_html(content);
    let text = String::from_str("<!DOCTYPE html>\n<html>\n  <head>\n    <title>").concat(
        state.title.as_str(),
    ).concat("</title>\n  </head>\n  <body>\n").concat(html.as_str()).concat(
        "  </body>\n</html>\n",
    );
    proof {
        assert(text@ =~= spec_html_file(state@.title, content@));
    }
    text
}

/// The native loader's phase: scanning the header, or echoing the
/// transcript body.
pub ghost enum Step {
    ReadingHeader,
    ReadingQuestion,
}

/// The native loader's full state: the session as mutated so far, the
/// pending continuation tokens, the phase, and the first parse failure
/// (the offending segment), if any.
#[verifier::ext_equal]
pub ghost struct LoadState {
    pub m: StateModel,
    pub pending: Seq<u32>,
    pub step: Step,
    pub error: Option<Seq<char>>,
}

/// The loader's starting state for a session.
pub open spec fn spec_load_start(m: StateModel) -> LoadState {
    LoadState { m: m, pending: Seq::empty(), step: Step::ReadingHeader, error: None }
}

/// What one line does to the loader. In the header phase, a
/// `"model: "` line selects the named model (an unknown name leaves
/// the selection as it is), a `"context: "` line replaces the pending
/// tokens — a malformed list fails the load —, the separator line ends
/// the header, and any other line is ignored. In the body phase every
/// line is appended verbatim to the transcript.
pub open spec fn spec_load_line(ls: LoadState, line: Seq<char>) -> LoadState {
    match ls.step {
        Step::ReadingHeader => {
            if line.len() >= "model: "@.len() && line.take("model: "@.len() as int)
                == "model: "@ {
                LoadState { m: spec_set_model(ls.m, line.skip("model: "@.len() as int)), ..ls }
            } else if line.len() >= "context: "@.len() && line.take("context: "@.len() as int)
                == "context: "@ {
                let segs = spec_split(line.skip("context: "@.len() as int), ',');
                if first_bad_seg(segs) < 0 {
                    LoadState { pending: spec_token_values(segs), ..ls }
                } else {
                    LoadState { error: Some(segs[first_bad_seg(segs)]), ..ls }
                }
            } else if line == "-----"@ {
                LoadState { step: Step::ReadingQuestion, ..ls }
            } else {
                ls
            }
        },
        Step::ReadingQuestion => LoadState {
            m: StateModel { output: ls.m.output + line + seq!['\n'], ..ls.m },
            ..ls
        },
    }
}

/// The lines of a file applied in order; the first failure stops the
/// scan.
pub open spec fn spec_load_lines(ls: LoadState, lines: Seq<Seq<char>>) -> LoadState
    decreases lines.len(),
{
    if lines.len() == 0 || ls.error is Some {
        ls
    } else {
        spec_load_lines(spec_load_line(ls, lines[0]), lines.drop_first())
    }
}

/// How a load ends, on success and on failure alike: the pending
/// tokens — if any line supplied some — replace the session's
/// wholesale, and the flags are reset as at the end of a turn.
pub open spec fn spec_finish_load(ls: LoadState) -> StateModel {
    StateModel {
        retrieving: false,
        escape: false,
        reload: true,
        context: if ls.pending.len() > 0 {
            ls.pending
        } else {
            ls.m.context
        },
        ..ls.m
    }
}

/// Marks the session in flight for a load dispatched as background
/// work: the collaborator's gate polls this flag while a loader runs.
/// Every load path ends by clearing it again ([`spec_finish_load`]).
pub fn begin_load(state: &mut State)
    ensures
        final(state)@ == (StateModel { retrieving: true, ..old(state)@ }),
{
    state.retrieving = true;
    proof {
        assert(state@ =~= (StateModel { retrieving: true, ..old(state)@ }));
    }
}

/// Commits a finished load: pending tokens replace the session's, and
/// the flags are reset exactly as at the end of a turn.
fn commit_load(state: &mut State, pending: &Vec<u32>)
    ensures
        final(state)@ == (StateModel {
            retrieving: false,
            escape: false,
            reload: true,
            context: if pending@.len() > 0 {
                pending@
            } else {
                old(state)@.context
            },
            ..old(state)@
        }),
{
    state.retrieving = false;
    state.escape = false;
    state.reload = true;
    if pending.len() > 0 {
        state.context = copy_tokens(pending);
    }
    proof {
        assert(state@ =~= (StateModel {
            retrieving: false,
            escape: false,
            reload: true,
            context: if pending@.len() > 0 {
                pending@
            } else {
                old(state)@.context
            },
            ..old(state)@
        }));
    }
}

/// Loads a native context file into the session: scans the text line
/// by line ([`spec_load_line`]), then commits ([`spec_finish_load`]).
///
/// A malformed integer list fails the whole load with `Parse`, naming
/// the offending segment; the transcript text echoed before the
/// failure is kept, and the load still commits what it had — this is a
/// best-effort recovery for a human-supervised tool, not a rollback.
pub fn load_native(state: &mut State, content: &str) -> (r: Result<(), EngineError>)
    ensures
        ({
            let end = spec_load_lines(spec_load_start(old(state)@), spec_lines(content@));
            &&& final(state)@ == spec_finish_load(end)
            &&& match r {
                Ok(()) => end.error is None,
                Err(e) => end.error is Some && (e matches EngineError::Parse(b) && b@
                    == end.error.unwrap()),
            }
        }),
{
    let chars = chars_of(content);
    let lines = lines_of(&chars);
    let ghost lv = spec_lines(content@);
    let ghost start = spec_load_start(old(state)@);
    let mut pending: Vec<u32> = Vec::new();
    let mut in_header = true;
    let mut i: usize = 0;
    proof {
        assert(lv.skip(0) =~= lv);
    }
    while i < lines.len()
        invariant
            i <= lines@.len(),
            start == spec_load_start(old(state)@),
            lv == spec_lines(content@),
            lines@.map_values(|seg: Vec<char>| seg@) == lv,
            spec_load_lines(start, lv) == spec_load_lines(
                LoadState {
                    m: state@,
                    pending: pending@,
                    step: if in_header {
                        Step::ReadingHeader
                    } else {
                        Step::ReadingQuestion
                    },
                    error: None,
                },
                lv.skip(i as int),
            ),
        decreases lines@.len() - i,
    {
        let ghost cur = LoadState {
            m: state@,
            pending: pending@,
            step: if in_header {
                Step::ReadingHeader
            } else {
                Step::ReadingQuestion
            },
            error: None,
        };
        proof {
            assert(lv.skip(i as int)[0] == lv[i as int]);
            assert(lv.skip(i as int).drop_first() =~= lv.skip(i + 1));
            assert(lv[i as int] == lines@[i as int]@);
        }
        let line = &lines[i];
        if in_header {
            if has_prefix(line, "model: ") {
                proof {
                    reveal_strlit("model: ");
                }
                let name = string_from_chars(&tail_from(line, 7));
                let _ = set_model(state, &name);
                proof {
                    assert(spec_load_line(cur, lv[i as int]) =~= (LoadState {
                        m: spec_set_model(cur.m, lv[i as int].skip(7)),
                        ..cur
                    }));
                }
            } else if has_prefix(line, "context: ") {
                proof {
                    reveal_strlit("context: ");
                }
                let rest = tail_from(line, 9);
                match parse_context(&rest) {
                    Ok(ctx) => {
                        pending = ctx;
                        proof {
                            assert(spec_load_line(cur, lv[i as int]) =~= (LoadState {
                                pending: pending@,
                                ..cur
                            }));
                        }
                    },
                    Err(seg) => {
                        let ghost stopped = spec_load_line(cur, lv[i as int]);
                        proof {
                            assert(stopped =~= (LoadState { error: Some(seg@), ..cur }));
                            assert(spec_load_lines(stopped, lv.skip(i + 1)) == stopped);
                            assert(spec_load_lines(start, lv) == stopped);
                        }
                        commit_load(state, &pending);
                        proof {
                            assert(state@ =~= spec_finish_load(stopped));
                        }
                        let bad = string_from_chars(&seg);
                        return Err(EngineError::Parse(bad));
                    },
                }
            } else if eq_str(line, "-----") {
                in_header = false;
                proof {
                    assert(spec_load_line(cur, lv[i as int]) =~= (LoadState {
                        step: Step::ReadingQuestion,
                        ..cur
                    }));
                }
            } else {
                proof {
                    assert(spec_load_line(cur, lv[i as int]) =~= cur);
                }
            }
        } else {
            let text = string_from_chars(line);
            state.output.append(text.as_str());
            push_char(&mut state.output, '\n');
            proof {
                assert(state@ =~= (StateModel {
                    output: cur.m.output + lv[i as int] + seq!['\n'],
                    ..cur.m
                }));
                assert(spec_load_line(cur, lv[i as int]) =~= (LoadState {
                    m: StateModel { output: cur.m.output + lv[i as int] + seq!['\n'], ..cur.m },
                    ..cur
                }));
            }
        }
        i = i + 1;
    }
    proof {
        assert(lv.skip(i as int).len() == 0);
    }
    commit_load(state, &pending);
    Ok(())
}

/// Body lines only grow the transcript: the scan's phase, its pending
/// tokens, the selection and the session's tokens all stay put.
proof fn lemma_load_body_frame(ls: LoadState, lines: Seq<Seq<char>>)
    requires
        ls.step is ReadingQuestion,
        ls.error is None,
    ensures
        spec_load_lines(ls, lines).pending == ls.pending,
        spec_load_lines(ls, lines).error is None,
        spec_load_lines(ls, lines).m.selected_model == ls.m.selected_model,
        spec_load_lines(ls, lines).m.context == ls.m.context,
    decreases lines.len(),
{
    if lines.len() > 0 {
        lemma_load_body_frame(spec_load_line(ls, lines[0]), lines.drop_first());
    }
}

/// Law: the native format round-trips. Saving a session and loading
/// the file back — into a session holding the same model catalogue —
/// succeeds and restores the selection and the continuation tokens to
/// their values at save time. This needs the saved identifier to be
/// single-line and to first occur in the catalogue at the selected
/// index; a duplicated identifier would select its first occurrence.
pub proof fn lemma_native_round_trip(m: StateModel, m2: StateModel, content: Seq<char>)
    requires
        m.context.len() > 0,
        m.has_model(),
        m2.models == m.models,
        first_model(m.models, m.models[m.selected_model]) == m.selected_model,
        forall|k: int|
            0 <= k < m.models[m.selected_model].len() ==> m.models[m.selected_model][k] != '\n',
    ensures
        ({
            let end = spec_load_lines(
                spec_load_start(m2),
                spec_lines(spec_native_file(m, content)),
            );
            &&& end.error is None
            &&& spec_finish_load(end).selected_model == m.selected_model
            &&& spec_finish_load(end).context == m.context
        }),
{
    reveal_strlit("model: ");
    reveal_strlit("\ncontext: ");
    reveal_strlit("context: ");
    reveal_strlit("\n-----\n");
    reveal_strlit("-----");
    let name = m.models[m.selected_model];
    let joined = spec_joined(m.context);
    let l1 = "model: "@ + name;
    let l2 = "context: "@ + joined;
    let l3 = "-----"@;
    let file = spec_native_file(m, content);
    let rest1 = l2 + seq!['\n'] + (l3 + seq!['\n'] + content);
    let rest2 = l3 + seq!['\n'] + content;
    assert(file =~= l1 + seq!['\n'] + rest1);
    assert(rest1 =~= l2 + seq!['\n'] + rest2);
    lemma_joined_chars(m.context);
    assert(forall|k: int| 0 <= k < l1.len() ==> l1[k] != '\n');
    assert(forall|k: int| 0 <= k < l2.len() ==> #[trigger] l2[k] != '\n') by {
        assert(forall|k: int| 0 <= k < 9 ==> "context: "@[k] != '\n');
        assert(forall|k: int|
            9 <= k < l2.len() ==> (is_digit(#[trigger] l2[k]) || l2[k] == ','));
    }
    assert(forall|k: int| 0 <= k < l3.len() ==> l3[k] != '\n');
    lemma_split_step(l1, rest1, '\n');
    lemma_split_step(l2, rest2, '\n');
    lemma_split_step(l3, content, '\n');
    assert(spec_split(file, '\n') == seq![l1] + (seq![l2] + (seq![l3] + spec_split(
        content,
        '\n',
    ))));
    let lines = spec_lines(file);
    assert(file.len() > 0);
    let split = spec_split(file, '\n');
    assert(split.len() == 3 + spec_split(content, '\n').len());
    assert(spec_split(content, '\n').len() >= 1) by {
        crate::text::lemma_first_sep(content, '\n');
    }
    assert(split.len() >= 4);
    assert(split[0] == l1 && split[1] == l2 && split[2] == l3);
    assert(lines.len() >= 3 && lines[0] == l1 && lines[1] == l2 && lines[2] == l3) by {
        if file.last() == '\n' {
            assert(lines == split.drop_last());
            assert(split.len() >= 4);
        } else {
            assert(lines == split);
        }
    }
    let body = lines.skip(3);
    let ls0 = spec_load_start(m2);
    let ls1 = spec_load_line(ls0, l1);
    let ls2 = spec_load_line(ls1, l2);
    let ls3 = spec_load_line(ls2, l3);
    // line one selects the saved model
    assert(l1.len() >= "model: "@.len());
    assert(l1.take("model: "@.len() as int) =~= "model: "@);
    assert(l1.skip("model: "@.len() as int) =~= name);
    assert(ls1 == (LoadState { m: spec_set_model(m2, name), ..ls0 }));
    assert(spec_set_model(m2, name).selected_model == m.selected_model) by {
        assert(first_model(m2.models, name) == m.selected_model);
    }
    // line two parses back exactly the saved tokens
    assert(!(l2.len() >= "model: "@.len() && l2.take("model: "@.len() as int)
        == "model: "@)) by {
        if l2.len() >= 7 && l2.take(7) == "model: "@ {
            assert(l2[0] == "context: "@[0]);
            assert(l2.take(7)[0] == 'm');
            assert(false);
        }
    }
    assert(l2.len() >= "context: "@.len());
    assert(l2.take("context: "@.len() as int) =~= "context: "@);
    assert(l2.skip("context: "@.len() as int) =~= joined);
    lemma_split_joined(m.context);
    let segs = spec_split(joined, ',');
    assert(segs == m.context.map_values(|t: u32| spec_decimal(t as int)));
    assert(forall|j: int| 0 <= j < segs.len() ==> valid_token_seg(#[trigger] segs[j])) by {
        assert forall|j: int| 0 <= j < segs.len() implies valid_token_seg(
            #[trigger] segs[j],
        ) by {
            lemma_decimal_val(m.context[j] as int);
            assert(segs[j] == spec_decimal(m.context[j] as int));
        }
    }
    lemma_first_bad_seg(segs);
    assert(first_bad_seg(segs) < 0) by {
        if first_bad_seg(segs) >= 0 {
            assert(valid_token_seg(segs[first_bad_seg(segs)]));
        }
    }
    assert(spec_token_values(segs) =~= m.context) by {
        assert forall|j: int| 0 <= j < segs.len() implies spec_token_values(segs)[j]
            == m.context[j] by {
            lemma_decimal_val(m.context[j] as int);
        }
    }
    assert(ls2 == (LoadState { pending: m.context, ..ls1 }));
    // line three ends the header
    assert(l3.len() < "model: "@.len());
    assert(l3.len() < "context: "@.len());
    assert(ls3 == (LoadState { step: Step::ReadingQuestion, ..ls2 }));
    // the body only grows the transcript
    lemma_load_body_frame(ls3, body);
    let rest_a = lines.drop_first();
    let rest_b = rest_a.drop_first();
    assert(lines[0] == l1 && rest_a[0] == l2 && rest_b[0] == l3);
    assert(lines.len() >= 3 && rest_a.len() >= 2 && rest_b.len() >= 1);
    assert(ls1.error is None && ls2.error is None && ls3.error is None);
    assert(spec_load_lines(ls0, lines) == spec_load_lines(ls1, rest_a));
    assert(spec_load_lines(ls1, rest_a) == spec_load_lines(ls2, rest_b));
    assert(rest_b.drop_first() =~= body);
    assert(spec_load_lines(ls2, rest_b) == spec_load_lines(ls3, body));
    let end = spec_load_lines(ls0, lines);
    assert(end.pending == m.context && end.error is None);
    assert(end.m.selected_model == m.selected_model);
}

} // verus!
