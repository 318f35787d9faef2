//! The streaming send operation: one user turn as a step-by-step state
//! machine.
//!
//! The application drives the machine: it calls [`begin_turn`] to start
//! a turn and obtain the request to send, [`process_chunk`] for every
//! streamed chunk it receives, and [`finish_turn`] exactly once on every
//! exit path. The network itself — connecting, awaiting chunks, and the
//! per-wait timeout — stays outside; the contracts here say what each
//! step does to the session whatever the network did.

use vstd::prelude::*;
use vstd::string::*;
use crate::errors::{spec_error_block, EngineError, error_block};
use crate::helpers::{format_input_to_output, hr, spec_hr, spec_quoted_prompt};
use crate::numbers::copy_tokens;
use crate::protocol::{AdditionalParams, Request, RequestModel, Response, ResponseModel};
use crate::state::{State, StateModel};

verus! {

/// What one submitted prompt adds to the transcript: its quoted
/// rendering and a blank line.
pub open spec fn spec_prompt_echo(p: Seq<char>) -> Seq<char> {
    spec_quoted_prompt(p) + seq!['\n', '\n']
}

/// What entering a turn does to the session: the turn is marked in
/// flight, the title is set from the prompt if still empty, the prompt
/// echo is appended to the transcript, and the input buffer is cleared.
pub open spec fn spec_begin_turn(m: StateModel) -> StateModel {
    StateModel {
        retrieving: true,
        title: if m.title.len() == 0 {
            m.input
        } else {
            m.title
        },
        output: m.output + spec_prompt_echo(m.input),
        input: Seq::empty(),
        ..m
    }
}

/// The request a turn submits: the selected model, the prompt, a
/// streamed response, the fixed generation parameters with the given
/// seed, and the session's continuation tokens (omitted when there are
/// none).
pub open spec fn spec_request(m: StateModel, seed: u32) -> RequestModel {
    RequestModel {
        model: m.models[m.selected_model],
        prompt: m.input,
        stream: true,
        num_ctx: 8192,
        repeat_last_n: -1,
        seed: seed,
        context: if m.context.len() == 0 {
            None
        } else {
            Some(m.context)
        },
    }
}

/// What one chunk does to the session: its fragment is appended to the
/// transcript, and a chunk that carries continuation tokens replaces
/// the session's wholesale.
pub open spec fn spec_chunk_step(m: StateModel, c: ResponseModel) -> StateModel {
    StateModel {
        output: m.output + c.response,
        context: match c.context {
            Some(ctx) => ctx,
            None => m.context,
        },
        ..m
    }
}

/// The chunks of a stream applied in order.
pub open spec fn spec_run_chunks(m: StateModel, cs: Seq<ResponseModel>) -> StateModel
    decreases cs.len(),
{
    if cs.len() == 0 {
        m
    } else {
        spec_run_chunks(spec_chunk_step(m, cs[0]), cs.drop_first())
    }
}

/// What leaving a turn does to the session, on every exit path: on a
/// failure the error block is appended, then the separator; the turn is
/// no longer in flight, the cancellation request is cleared, and the
/// collaborator is told to reclaim focus.
pub open spec fn spec_finish(m: StateModel, failure: Option<EngineError>) -> StateModel {
    StateModel {
        output: m.output + (match failure {
            Some(e) => spec_error_block(e),
            None => Seq::empty(),
        }) + spec_hr(),
        retrieving: false,
        escape: false,
        reload: true,
        ..m
    }
}

/// How a turn starts. With a blank input buffer it fails at once with
/// `EmptyInput` and touches nothing — in particular no request is built
/// and the session is not marked in flight. Otherwise it performs the
/// entry step ([`spec_begin_turn`]) and returns the request to submit
/// ([`spec_request`]), carrying the caller's freshly drawn seed.
pub fn begin_turn(state: &mut State, seed: u32) -> (r: Result<Request, EngineError>)
    requires
        old(state)@.input.len() > 0 ==> old(state)@.has_model(),
    ensures
        match r {
            Ok(req) => {
                &&& old(state)@.input.len() > 0
                &&& final(state)@ == spec_begin_turn(old(state)@)
                &&& req@ == spec_request(old(state)@, seed)
            },
            Err(e) => {
                &&& old(state)@.input.len() == 0
                &&& e is EmptyInput
                &&& final(state)@ == old(state)@
            },
        },
{
    if state.input.as_str().is_empty() {
        return Err(EngineError::EmptyInput);
    }
    let prompt = state.input.clone();
    state.retrieving = true;
    if state.title.as_str().is_empty() {
        state.title = prompt.clone();
    }
    let echo = format_input_to_output(prompt.as_str());
    state.output.append(echo.as_str());
    state.output.append("\n\n");
    state.input = String::new();
    let context: Option<Vec<u32>> = if state.context.len() == 0 {
        None
    } else {
        Some(copy_tokens(&state.context))
    };
    let model = state.models[state.selected_model].clone();
    let req = Request {
        model,
        prompt,
        stream: true,
        options: AdditionalParams::with_seed(seed),
        context,
    };
    proof {
        reveal_strlit("\n\n");
        assert("\n\n"@ =~= seq!['\n', '\n']);
        assert(state@.output =~= old(state)@.output + spec_prompt_echo(old(state)@.input));
        assert(state@ =~= spec_begin_turn(old(state)@));
        assert(req@ =~= spec_request(old(state)@, seed));
    }
    Ok(req)
}

/// What [`process_chunk`] reports: the turn was cancelled before the
/// chunk was consumed, the stream goes on, or this chunk completed the
/// turn.
#[derive(Debug, Clone, Copy, PartialEq, Eq, Structural)]
pub enum ChunkOutcome {
    Cancelled,
    Continue,
    Done,
}

/// Consumes one streamed chunk. A pending cancellation request wins:
/// the chunk is not consumed and the session is untouched. Otherwise
/// the chunk is applied ([`spec_chunk_step`]) and the outcome reports
/// whether the chunk completed the turn.
pub fn process_chunk(state: &mut State, chunk: &Response) -> (r: ChunkOutcome)
    ensures
        old(state)@.escape ==> r is Cancelled && final(state)@ == old(state)@,
        !old(state)@.escape ==> final(state)@ == spec_chunk_step(old(state)@, chunk@),
        !old(state)@.escape ==> (r is Done <==> chunk@.done),
        !old(state)@.escape ==> (r is Continue <==> !chunk@.done),
{
    if state.escape {
        return ChunkOutcome::Cancelled;
    }
    state.output.append(chunk.response.as_str());
    match &chunk.context {
        Some(ctx) => {
            state.context = copy_tokens(ctx);
        },
        None => {},
    }
    proof {
        assert(state@ =~= spec_chunk_step(old(state)@, chunk@));
    }
    if chunk.done {
        ChunkOutcome::Done
    } else {
        ChunkOutcome::Continue
    }
}

/// Whether cancellation has been requested.
pub fn check_escape(state: &State) -> (r: bool)
    ensures
        r == state@.escape,
{
    state.escape
}

/// The failure reported when the chunk stream ends before a completing
/// chunk.
pub fn server_failed_error() -> (e: EngineError)
    ensures
        e matches EngineError::Protocol(m) && m@ == "Ollama Server failed to respond"@,
{
    EngineError::Protocol(String::from_str("Ollama Server failed to respond"))
}

/// The failure reported when a single wait exceeded the configured
/// budget, with the underlying cause as detail.
pub fn timeout_with_error(detail: String) -> (e: EngineError)
    ensures
        e matches EngineError::Timeout(m) && m@ == detail@,
{
    EngineError::Timeout(detail)
}

/// Leaves a turn, exactly once on every exit path ([`spec_finish`]): a
/// failure is surfaced into the transcript as an error block, the
/// separator follows, and the flags are reset.
pub fn finish_turn(state: &mut State, failure: &Option<EngineError>)
    ensures
        final(state)@ == spec_finish(old(state)@, *failure),
{
    match failure {
        Some(e) => {
            let block = error_block(e);
            state.output.append(block.as_str());
        },
        None => {},
    }
    state.output.append(hr());
    state.retrieving = false;
    state.escape = false;
    state.reload = true;
    proof {
        assert(state@ =~= spec_finish(old(state)@, *failure));
    }
}

/// The fragments of a stream of chunks, concatenated in order.
pub open spec fn spec_concat_responses(cs: Seq<ResponseModel>) -> Seq<char>
    decreases cs.len(),
{
    if cs.len() == 0 {
        Seq::empty()
    } else {
        cs[0].response + spec_concat_responses(cs.drop_first())
    }
}

/// Running a stream of chunks appends exactly the concatenated
/// fragments to the transcript, leaves every field but the transcript
/// and the continuation tokens untouched, and never shortens the
/// transcript.
pub proof fn lemma_run_chunks_frame(m: StateModel, cs: Seq<ResponseModel>)
    ensures
        spec_run_chunks(m, cs).output == m.output + spec_concat_responses(cs),
        spec_run_chunks(m, cs) == (StateModel {
            output: spec_run_chunks(m, cs).output,
            context: spec_run_chunks(m, cs).context,
            ..m
        }),
    decreases cs.len(),
{
    if cs.len() == 0 {
        assert(m.output + spec_concat_responses(cs) =~= m.output);
        assert(spec_run_chunks(m, cs) =~= (StateModel {
            output: spec_run_chunks(m, cs).output,
            context: spec_run_chunks(m, cs).context,
            ..m
        }));
    } else {
        let m1 = spec_chunk_step(m, cs[0]);
        lemma_run_chunks_frame(m1, cs.drop_first());
        assert(m1.output + spec_concat_responses(cs.drop_first()) =~= m.output
            + spec_concat_responses(cs));
        assert(spec_run_chunks(m, cs) =~= (StateModel {
            output: spec_run_chunks(m, cs).output,
            context: spec_run_chunks(m, cs).context,
            ..m
        }));
    }
}

/// Law: a turn whose chunks all arrive, uninterrupted and ending in a
/// completing chunk, leaves the transcript equal to what it held,
/// followed by the prompt echo, the fragments in order, and the
/// separator — and the turn is no longer in flight.
pub proof fn lemma_completed_turn_output(m: StateModel, cs: Seq<ResponseModel>)
    ensures
        spec_finish(spec_run_chunks(spec_begin_turn(m), cs), None).output == m.output
            + spec_prompt_echo(m.input) + spec_concat_responses(cs) + spec_hr(),
        !spec_finish(spec_run_chunks(spec_begin_turn(m), cs), None).retrieving,
{
    let m1 = spec_begin_turn(m);
    lemma_run_chunks_frame(m1, cs);
    let m2 = spec_run_chunks(m1, cs);
    assert(spec_finish(m2, None).output =~= m2.output + spec_hr());
    assert(m2.output + spec_hr() =~= m.output + spec_prompt_echo(m.input)
        + spec_concat_responses(cs) + spec_hr());
}

/// No chunk without continuation tokens changes the session's.
proof fn lemma_run_chunks_context_none(m: StateModel, cs: Seq<ResponseModel>)
    requires
        forall|j: int| 0 <= j < cs.len() ==> (#[trigger] cs[j]).context is None,
    ensures
        spec_run_chunks(m, cs).context == m.context,
    decreases cs.len(),
{
    if cs.len() > 0 {
        assert(cs[0].context is None);
        lemma_run_chunks_context_none(spec_chunk_step(m, cs[0]), cs.drop_first());
    }
}

/// Law: continuation tokens are replaced wholesale, last write wins. If
/// chunk `k` carries tokens and no later chunk does, the session ends
/// the stream with exactly chunk `k`'s tokens — never a merge.
pub proof fn lemma_context_last_write(m: StateModel, cs: Seq<ResponseModel>, k: int)
    requires
        0 <= k < cs.len(),
        cs[k].context is Some,
        forall|j: int| k < j < cs.len() ==> (#[trigger] cs[j]).context is None,
    ensures
        spec_run_chunks(m, cs).context == cs[k].context.unwrap(),
    decreases cs.len(),
{
    let m1 = spec_chunk_step(m, cs[0]);
    if k == 0 {
        assert(m1.context == cs[0].context.unwrap());
        assert(forall|j: int|
            0 <= j < cs.drop_first().len() ==> (#[trigger] cs.drop_first()[j]).context is None);
        lemma_run_chunks_context_none(m1, cs.drop_first());
    } else {
        assert(forall|j: int|
            k - 1 < j < cs.drop_first().len() ==> (#[trigger] cs.drop_first()[j]).context
                is None);
        assert(cs.drop_first()[k - 1] == cs[k]);
        lemma_context_last_write(m1, cs.drop_first(), k - 1);
    }
}

/// Law: a cancellation requested between two chunks ends the turn with
/// a `Cancelled` failure and a transcript holding exactly the fragments
/// up to and including the last consumed chunk, then the error block
/// and the separator. The pending request itself is cleared on exit.
pub proof fn lemma_cancelled_turn_output(m: StateModel, cs: Seq<ResponseModel>, i: int)
    requires
        0 <= i < cs.len(),
    ensures
        ({
            let consumed = spec_run_chunks(spec_begin_turn(m), cs.take(i + 1));
            let stopped = StateModel { escape: true, ..consumed };
            let done = spec_finish(stopped, Some(EngineError::Cancelled));
            &&& done.output == m.output + spec_prompt_echo(m.input) + spec_concat_responses(
                cs.take(i + 1),
            ) + spec_error_block(EngineError::Cancelled) + spec_hr()
            &&& !done.retrieving
            &&& !done.escape
        }),
{
    let m1 = spec_begin_turn(m);
    lemma_run_chunks_frame(m1, cs.take(i + 1));
    let consumed = spec_run_chunks(m1, cs.take(i + 1));
    let stopped = StateModel { escape: true, ..consumed };
    assert(spec_finish(stopped, Some(EngineError::Cancelled)).output =~= m.output
        + spec_prompt_echo(m.input) + spec_concat_responses(cs.take(i + 1)) + spec_error_block(
        EngineError::Cancelled,
    ) + spec_hr());
}

} // verus!
