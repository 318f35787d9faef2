//! The legacy transcript format and its migration.
//!
//! Old exports are HTML documents with the conversation embedded as
//! HTML-escaped question and answer blocks. They carry no continuation
//! tokens, so loading one must rebuild that state: every question is
//! replayed, in original order, through the endpoint's non-streaming
//! call, and each reply's tokens become the baseline for the next
//! replay. The scanner here is a four-phase line machine; the
//! application performs the replay calls it asks for and hands the
//! replies back.

use vstd::prelude::*;
use vstd::string::*;
use crate::numbers::copy_tokens;
use crate::protocol::{Response, ResponseModel};
use crate::state::{set_model, spec_set_model, State, StateModel};
use crate::text::{eq_str, has_prefix, push_char, string_from_chars, tail_from};

verus! {

/// The scanner's phase: skipping HTML boilerplate, reading the header,
/// accumulating a question, echoing an answer, or past the end marker.
#[derive(Debug, Clone, Copy, PartialEq, Eq, Structural)]
pub enum LegacyStep {
    ReadingHTML,
    ReadingHeader,
    ReadingQuestion,
    ReadingAnswer,
    Done,
}

/// The scanner's state across lines: the phase, whether the first of
/// the two header separator lines has been seen, the decoded question
/// being accumulated, and the continuation tokens rebuilt by the
/// replays so far (empty meaning none yet).
#[derive(Debug)]
pub struct LegacyLoader {
    pub step: LegacyStep,
    pub second_sep: bool,
    pub question: Vec<char>,
    pub baseline: Vec<u32>,
}

/// Mathematical model of a [`LegacyLoader`].
#[verifier::ext_equal]
pub ghost struct LegacyModel {
    pub step: LegacyStep,
    pub second_sep: bool,
    pub question: Seq<char>,
    pub baseline: Seq<u32>,
}

impl View for LegacyLoader {
    type V = LegacyModel;

    open spec fn view(&self) -> LegacyModel {
        LegacyModel {
            step: self.step,
            second_sep: self.second_sep,
            question: self.question@,
            baseline: self.baseline@,
        }
    }
}

/// One replay the scanner asks for: the accumulated question and the
/// tokens rebuilt so far (empty meaning the call carries none).
#[derive(Debug)]
pub struct ReplayCall {
    pub prompt: String,
    pub context: Vec<u32>,
}

/// Mathematical model of a [`ReplayCall`].
#[verifier::ext_equal]
pub ghost struct ReplayModel {
    pub prompt: Seq<char>,
    pub context: Seq<u32>,
}

impl View for ReplayCall {
    type V = ReplayModel;

    open spec fn view(&self) -> ReplayModel {
        ReplayModel { prompt: self.prompt@, context: self.context@ }
    }
}

/// The sentinel line that ends the HTML boilerplate.
pub open spec fn spec_sentinel() -> Seq<char> {
    "  <body>"@
}

/// The marker line that ends the transcript data.
pub open spec fn spec_end_marker() -> Seq<char> {
    "  </body>"@
}

/// The HTML-safe encoding reversed: `&lt;`, `&gt;` and `&amp;` become
/// `<`, `>` and `&`; everything else passes through.
pub open spec fn spec_decode(s: Seq<char>) -> Seq<char>
    decreases s.len(),
{
    if s.len() == 0 {
        Seq::empty()
    } else if s.len() >= 4 && s.take(4) == "&lt;"@ {
        seq!['<'] + spec_decode(s.skip(4))
    } else if s.len() >= 4 && s.take(4) == "&gt;"@ {
        seq!['>'] + spec_decode(s.skip(4))
    } else if s.len() >= 5 && s.take(5) == "&amp;"@ {
        seq!['&'] + spec_decode(s.skip(5))
    } else {
        seq![s[0]] + spec_decode(s.drop_first())
    }
}

/// Decodes the HTML-safe escapes in a line.
pub fn decode_entities(v: &Vec<char>) -> (r: Vec<char>)
    ensures
        r@ == spec_decode(v@),
{
    let mut out: Vec<char> = Vec::new();
    let mut i: usize = 0;
    proof {
        assert(v@.skip(0) =~= v@);
        assert(out@ + spec_decode(v@.skip(0)) =~= spec_decode(v@));
    }
    while i < v.len()
        invariant
            i <= v@.len(),
            spec_decode(v@) == out@ + spec_decode(v@.skip(i as int)),
        decreases v@.len() - i,
    {
        let ghost rest = v@.skip(i as int);
        let ghost out0 = out@;
        proof {
            reveal_strlit("&lt;");
            reveal_strlit("&gt;");
            reveal_strlit("&amp;");
            assert(rest[0] == v@[i as int]);
        }
        if v.len() - i >= 4 && v[i] == '&' && v[i + 1] == 'l' && v[i + 2] == 't' && v[i + 3]
            == ';' {
            out.push('<');
            i = i + 4;
            proof {
                assert(rest.take(4) =~= "&lt;"@);
                assert(spec_decode(rest) == seq!['<'] + spec_decode(rest.skip(4)));
                assert(rest.skip(4) =~= v@.skip(i as int));
                assert(out@ + spec_decode(v@.skip(i as int)) =~= out0 + spec_decode(rest));
            }
        } else if v.len() - i >= 4 && v[i] == '&' && v[i + 1] == 'g' && v[i + 2] == 't' && v[i
            + 3] == ';' {
            out.push('>');
            i = i + 4;
            proof {
                assert(rest.take(4) =~= "&gt;"@);
                assert(rest.take(4) != "&lt;"@) by {
                    assert(rest.take(4)[1] == 'g');
                    assert("&lt;"@[1] == 'l');
                }
                assert(spec_decode(rest) == seq!['>'] + spec_decode(rest.skip(4)));
                assert(rest.skip(4) =~= v@.skip(i as int));
                assert(out@ + spec_decode(v@.skip(i as int)) =~= out0 + spec_decode(rest));
            }
        } else if v.len() - i >= 5 && v[i] == '&' && v[i + 1] == 'a' && v[i + 2] == 'm' && v[i
            + 3] == 'p' && v[i + 4] == ';' {
            out.push('&');
            i = i + 5;
            proof {
                assert(rest.take(5) =~= "&amp;"@);
                assert(rest.len() >= 4);
                assert(rest.take(4) != "&lt;"@) by {
                    assert(rest.take(4)[1] == 'a');
                    assert("&lt;"@[1] == 'l');
                }
                assert(rest.take(4) != "&gt;"@) by {
                    assert(rest.take(4)[1] == 'a');
                    assert("&gt;"@[1] == 'g');
                }
                assert(spec_decode(rest) == seq!['&'] + spec_decode(rest.skip(5)));
                assert(rest.skip(5) =~= v@.skip(i as int));
                assert(out@ + spec_decode(v@.skip(i as int)) =~= out0 + spec_decode(rest));
            }
        } else {
            proof {
                if rest.len() >= 4 && rest.take(4) == "&lt;"@ {
                    assert(v@[i as int] == rest.take(4)[0] && v@[i + 1] == rest.take(4)[1]
                        && v@[i + 2] == rest.take(4)[2] && v@[i + 3] == rest.take(4)[3]);
                    assert(false);
                }
                if rest.len() >= 4 && rest.take(4) == "&gt;"@ {
                    assert(v@[i as int] == rest.take(4)[0] && v@[i + 1] == rest.take(4)[1]
                        && v@[i + 2] == rest.take(4)[2] && v@[i + 3] == rest.take(4)[3]);
                    assert(false);
                }
                if rest.len() >= 5 && rest.take(5) == "&amp;"@ {
                    assert(v@[i as int] == rest.take(5)[0] && v@[i + 1] == rest.take(5)[1]
                        && v@[i + 2] == rest.take(5)[2] && v@[i + 3] == rest.take(5)[3] && v@[i
                        + 4] == rest.take(5)[4]);
                    assert(false);
                }
            }
            out.push(v[i]);
            i = i + 1;
            proof {
                assert(spec_decode(rest) == seq![rest[0]] + spec_decode(rest.drop_first()));
                assert(rest.drop_first() =~= v@.skip(i as int));
                assert(out@ + spec_decode(v@.skip(i as int)) =~= out0 + spec_decode(rest));
            }
        }
    }
    proof {
        assert(v@.skip(i as int).len() == 0);
        assert(spec_decode(v@.skip(i as int)) =~= Seq::<char>::empty());
        assert(out@ =~= spec_decode(v@));
    }
    out
}

/// What the scanner does with one line: the loader and session
/// afterwards, and the replay it asks for, if any.
#[verifier::ext_equal]
pub ghost struct LegacyOutcome {
    pub ld: LegacyModel,
    pub m: StateModel,
    pub replay: Option<ReplayModel>,
}

/// A line echoed into the transcript, decoded, closed by a newline.
pub open spec fn spec_echo(m: StateModel, line: Seq<char>) -> StateModel {
    StateModel { output: m.output + spec_decode(line) + seq!['\n'], ..m }
}

/// What one line does to the legacy scanner.
///
/// `ReadingHTML` skips everything until the sentinel. `ReadingHeader`
/// selects models from `"model: "` lines and leaves for the question
/// phase after the second separator line. In `ReadingQuestion`, quoted
/// lines accumulate the question and are echoed; any other line ends
/// the question — a replay is requested if one was accumulated — and
/// the end marker finishes the scan, while an ordinary line starts the
/// answer and is echoed. `ReadingAnswer` echoes lines until the next
/// quoted line starts a new question or the end marker finishes the
/// scan. After `Done` nothing changes.
pub open spec fn spec_legacy_line(ld: LegacyModel, m: StateModel, line: Seq<char>) -> LegacyOutcome {
    match ld.step {
        LegacyStep::ReadingHTML => {
            if line == spec_sentinel() {
                LegacyOutcome {
                    ld: LegacyModel { step: LegacyStep::ReadingHeader, ..ld },
                    m: m,
                    replay: None,
                }
            } else {
                LegacyOutcome { ld: ld, m: m, replay: None }
            }
        },
        LegacyStep::ReadingHeader => {
            if line.len() >= "model: "@.len() && line.take("model: "@.len() as int)
                == "model: "@ {
                LegacyOutcome {
                    ld: ld,
                    m: spec_set_model(m, line.skip("model: "@.len() as int)),
                    replay: None,
                }
            } else if line == "-----"@ {
                if ld.second_sep {
                    LegacyOutcome {
                        ld: LegacyModel { step: LegacyStep::ReadingQuestion, ..ld },
                        m: m,
                        replay: None,
                    }
                } else {
                    LegacyOutcome { ld: LegacyModel { second_sep: true, ..ld }, m: m, replay: None }
                }
            } else {
                LegacyOutcome { ld: ld, m: m, replay: None }
            }
        },
        LegacyStep::ReadingQuestion => {
            if line.len() >= 2 && line.take(2) == "> "@ {
                let part = spec_decode(line.skip(2));
                LegacyOutcome {
                    ld: LegacyModel {
                        question: if ld.question.len() == 0 {
                            part
                        } else {
                            ld.question + seq!['\n'] + part
                        },
                        ..ld
                    },
                    m: StateModel {
                        output: m.output + seq!['>', ' '] + part + seq!['\n'],
                        ..m
                    },
                    replay: None,
                }
            } else if line == spec_end_marker() {
                LegacyOutcome {
                    ld: LegacyModel {
                        step: LegacyStep::Done,
                        question: Seq::empty(),
                        ..ld
                    },
                    m: m,
                    replay: if ld.question.len() > 0 {
                        Some(ReplayModel { prompt: ld.question, context: ld.baseline })
                    } else {
                        None
                    },
                }
            } else {
                LegacyOutcome {
                    ld: LegacyModel {
                        step: LegacyStep::ReadingAnswer,
                        question: Seq::empty(),
                        ..ld
                    },
                    m: spec_echo(m, line),
                    replay: if ld.question.len() > 0 {
                        Some(ReplayModel { prompt: ld.question, context: ld.baseline })
                    } else {
                        None
                    },
                }
            }
        },
        LegacyStep::ReadingAnswer => {
            if line.len() >= 2 && line.take(2) == "> "@ {
                let part = spec_decode(line.skip(2));
                LegacyOutcome {
                    ld: LegacyModel { step: LegacyStep::ReadingQuestion, question: part, ..ld },
                    m: StateModel {
                        output: m.output + seq!['>', ' '] + part + seq!['\n'],
                        ..m
                    },
                    replay: None,
                }
            } else if line == spec_end_marker() {
                LegacyOutcome {
                    ld: LegacyModel { step: LegacyStep::Done, ..ld },
                    m: m,
                    replay: None,
                }
            } else {
                LegacyOutcome { ld: ld, m: spec_echo(m, line), replay: None }
            }
        },
        LegacyStep::Done => LegacyOutcome { ld: ld, m: m, replay: None },
    }
}

impl LegacyLoader {
    /// A scanner at the start of a legacy file.
    pub fn new() -> (r: LegacyLoader)
        ensures
            r@ == (LegacyModel {
                step: LegacyStep::ReadingHTML,
                second_sep: false,
                question: Seq::empty(),
                baseline: Seq::empty(),
            }),
    {
        let r = LegacyLoader {
            step: LegacyStep::ReadingHTML,
            second_sep: false,
            question: Vec::new(),
            baseline: Vec::new(),
        };
        proof {
            assert(r@ =~= (LegacyModel {
                step: LegacyStep::ReadingHTML,
                second_sep: false,
                question: Seq::empty(),
                baseline: Seq::empty(),
            }));
        }
        r
    }
}

/// Feeds one line to the scanner ([`spec_legacy_line`]). When the
/// result carries a replay, the caller must send the question through
/// the endpoint's non-streaming call — with the tokens carried here,
/// none when empty — and hand the reply to [`legacy_apply`] before
/// feeding further lines. A replay failure aborts the rest of the
/// load; what was echoed stays.
pub fn legacy_step(state: &mut State, ld: &mut LegacyLoader, line: &str) -> (r: Option<ReplayCall>)
    ensures
        ({
            let out = spec_legacy_line(old(ld)@, old(state)@, line@);
            &&& final(ld)@ == out.ld
            &&& final(state)@ == out.m
            &&& match r {
                Some(call) => out.replay is Some && call@ == out.replay.unwrap(),
                None => out.replay is None,
            }
        }),
{
    let chars = crate::text::chars_of(line);
    let ghost out = spec_legacy_line(old(ld)@, old(state)@, line@);
    match ld.step {
        LegacyStep::ReadingHTML => {
            if eq_str(&chars, "  <body>") {
                ld.step = LegacyStep::ReadingHeader;
            }
            proof {
                assert(ld@ =~= out.ld);
                assert(state@ =~= out.m);
            }
            None
        },
        LegacyStep::ReadingHeader => {
            if has_prefix(&chars, "model: ") {
                proof {
                    reveal_strlit("model: ");
                }
                let name = string_from_chars(&tail_from(&chars, 7));
                let _ = set_model(state, &name);
            } else if eq_str(&chars, "-----") {
                if ld.second_sep {
                    ld.step = LegacyStep::ReadingQuestion;
                } else {
                    ld.second_sep = true;
                }
            }
            proof {
                assert(ld@ =~= out.ld);
                assert(state@ =~= out.m);
            }
            None
        },
        LegacyStep::ReadingQuestion => {
            proof {
                reveal_strlit("> ");
            }
            if has_prefix(&chars, "> ") {
                let part = decode_entities(&tail_from(&chars, 2));
                state.output.append("> ");
                state.output.append(string_from_chars(&part).as_str());
                push_char(&mut state.output, '\n');
                if ld.question.len() == 0 {
                    ld.question = part;
                } else {
                    ld.question.push('\n');
                    let mut part = part;
                    ld.question.append(&mut part);
                }
                proof {
                    assert("> "@ =~= seq!['>', ' ']);
                    assert(ld@ =~= out.ld);
                    assert(state@ =~= out.m);
                }
                None
            } else {
                let replay: Option<ReplayCall> = if ld.question.len() > 0 {
                    Some(
                        ReplayCall {
                            prompt: string_from_chars(&ld.question),
                            context: copy_tokens(&ld.baseline),
                        },
                    )
                } else {
                    None
                };
                ld.question = Vec::new();
                if eq_str(&chars, "  </body>") {
                    ld.step = LegacyStep::Done;
                } else {
                    ld.step = LegacyStep::ReadingAnswer;
                    let dec = decode_entities(&chars);
                    state.output.append(string_from_chars(&dec).as_str());
                    push_char(&mut state.output, '\n');
                }
                proof {
                    assert(ld@ =~= out.ld);
                    assert(state@ =~= out.m);
                    if let Some(c) = &replay {
                        assert(c@ =~= out.replay.unwrap());
                    }
                }
                replay
            }
        },
        LegacyStep::ReadingAnswer => {
            proof {
                reveal_strlit("> ");
            }
            if has_prefix(&chars, "> ") {
                let part = decode_entities(&tail_from(&chars, 2));
                state.output.append("> ");
                state.output.append(string_from_chars(&part).as_str());
                push_char(&mut state.output, '\n');
                ld.step = LegacyStep::ReadingQuestion;
                ld.question = part;
                proof {
                    assert("> "@ =~= seq!['>', ' ']);
                    assert(ld@ =~= out.ld);
                    assert(state@ =~= out.m);
                }
            } else if eq_str(&chars, "  </body>") {
                ld.step = LegacyStep::Done;
                proof {
                    assert(ld@ =~= out.ld);
                    assert(state@ =~= out.m);
                }
            } else {
                let dec = decode_entities(&chars);
                state.output.append(string_from_chars(&dec).as_str());
                push_char(&mut state.output, '\n');
                proof {
                    assert(ld@ =~= out.ld);
                    assert(state@ =~= out.m);
                }
            }
            None
        },
        LegacyStep::Done => {
            proof {
                assert(ld@ =~= out.ld);
                assert(state@ =~= out.m);
            }
            None
        },
    }
}

/// What one replay reply does to the scanner: its tokens become the
/// baseline for the next replay; a reply without tokens changes
/// nothing.
pub open spec fn spec_legacy_apply(ld: LegacyModel, r: ResponseModel) -> LegacyModel {
    LegacyModel {
        baseline: match r.context {
            Some(c) => c,
            None => ld.baseline,
        },
        ..ld
    }
}

/// Records a replay reply ([`spec_legacy_apply`]).
pub fn legacy_apply(ld: &mut LegacyLoader, resp: &Response)
    ensures
        final(ld)@ == spec_legacy_apply(old(ld)@, resp@),
{
    match &resp.context {
        Some(ctx) => {
            ld.baseline = copy_tokens(ctx);
        },
        None => {},
    }
    proof {
        assert(ld@ =~= spec_legacy_apply(old(ld)@, resp@));
    }
}

/// The replay replies applied in order.
pub open spec fn spec_legacy_applies(ld: LegacyModel, rs: Seq<ResponseModel>) -> LegacyModel
    decreases rs.len(),
{
    if rs.len() == 0 {
        ld
    } else {
        spec_legacy_applies(spec_legacy_apply(ld, rs[0]), rs.drop_first())
    }
}

/// Law: replay rebuilds the continuation deterministically. Feeding
/// the scanner any sequence of replies that all carry tokens leaves
/// the baseline equal to the last reply's tokens — for replies
/// `ctx_1 .. ctx_N`, the final baseline is `ctx_N`.
pub proof fn lemma_replay_rebuilds_context(ld: LegacyModel, rs: Seq<ResponseModel>)
    requires
        rs.len() > 0,
        forall|j: int| 0 <= j < rs.len() ==> (#[trigger] rs[j]).context is Some,
    ensures
        spec_legacy_applies(ld, rs).baseline == rs.last().context.unwrap(),
    decreases rs.len(),
{
    assert(rs[0].context is Some);
    if rs.len() == 1 {
        assert(spec_legacy_applies(ld, rs) == spec_legacy_applies(
            spec_legacy_apply(ld, rs[0]),
            rs.drop_first(),
        ));
        assert(rs.drop_first().len() == 0);
        assert(spec_legacy_applies(spec_legacy_apply(ld, rs[0]), rs.drop_first())
            == spec_legacy_apply(ld, rs[0]));
        assert(rs.last() == rs[0]);
    } else {
        assert(forall|j: int|
            0 <= j < rs.drop_first().len() ==> (#[trigger] rs.drop_first()[j]).context is Some);
        lemma_replay_rebuilds_context(spec_legacy_apply(ld, rs[0]), rs.drop_first());
        assert(rs.drop_first().last() == rs.last());
    }
}

/// Commits a finished legacy load: the rebuilt tokens — if any replay
/// produced some — replace the session's, and the flags are reset
/// exactly as at the end of a turn. Runs on the failure path too; the
/// transcript echoed so far is kept.
pub fn legacy_finish(state: &mut State, ld: &LegacyLoader)
    ensures
        final(state)@ == (StateModel {
            retrieving: false,
            escape: false,
            reload: true,
            context: if ld@.baseline.len() > 0 {
                ld@.baseline
            } else {
                old(state)@.context
            },
            ..old(state)@
        }),
{
    state.retrieving = false;
    state.escape = false;
    state.reload = true;
    if ld.baseline.len() > 0 {
        state.context = copy_tokens(&ld.baseline);
    }
    proof {
        assert(state@ =~= (StateModel {
            retrieving: false,
            escape: false,
            reload: true,
            context: if ld@.baseline.len() > 0 {
                ld@.baseline
            } else {
                old(state)@.context
            },
            ..old(state)@
        }));
    }
}

} // verus!
