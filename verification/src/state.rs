//! The session record: the single source of truth for the current
//! conversation.
//!
//! Every other component takes the session by reference and mutates it
//! under the caller's lock; the library itself holds no global state.

use vstd::prelude::*;
use vstd::string::*;

verus! {

/// Mathematical model of a session: the same fields, abstracted to
/// character sequences and unbounded integers. All contracts and laws in
/// this crate speak of this model.
#[verifier::ext_equal]
pub ghost struct StateModel {
    pub title: Seq<char>,
    pub models: Seq<Seq<char>>,
    pub selected_model: int,
    pub input: Seq<char>,
    pub output: Seq<char>,
    pub retrieving: bool,
    pub reload: bool,
    pub timeout_idx: int,
    pub escape: bool,
    pub context: Seq<u32>,
    pub cwd: Seq<char>,
}

/// The shared session record.
///
/// `title` is set once, from the first submitted prompt. `models` is the
/// list of available model identifiers and `selected_model` an index into
/// it. `input` is the pending prompt buffer and `output` the append-only
/// rendered transcript. `retrieving` is true while a turn is in flight,
/// `escape` requests cooperative cancellation, and `reload` tells the
/// collaborator to reclaim input focus. `context` holds the continuation
/// tokens of the most recent successful turn, and `cwd` the last
/// directory used for load/save.
#[derive(Debug)]
pub struct State {
    pub title: String,
    pub models: Vec<String>,
    pub selected_model: usize,
    pub input: String,
    pub output: String,
    pub retrieving: bool,
    pub reload: bool,
    pub timeout_idx: usize,
    pub escape: bool,
    pub context: Vec<u32>,
    pub cwd: String,
}

impl View for State {
    type V = StateModel;

    open spec fn view(&self) -> StateModel {
        StateModel {
            title: self.title@,
            models: self.models@.map_values(|m: String| m@),
            selected_model: self.selected_model as int,
            input: self.input@,
            output: self.output@,
            retrieving: self.retrieving,
            reload: self.reload,
            timeout_idx: self.timeout_idx as int,
            escape: self.escape,
            context: self.context@,
            cwd: self.cwd@,
        }
    }
}

impl StateModel {
    /// The selection invariant: the selected index points at an actual
    /// model identifier. Operations that build a request demand it;
    /// [`crate::state::set_model`] preserves it whenever the catalogue
    /// is non-empty.
    pub open spec fn has_model(self) -> bool {
        0 <= self.selected_model < self.models.len()
    }
}

/// The prompt the input buffer is primed with on startup and on reset.
pub open spec fn spec_default_prompt() -> Seq<char> {
    "Why the sky is blue?"@
}

/// Executable counterpart of [`spec_default_prompt`].
pub fn default_prompt() -> (r: &'static str)
    ensures
        r@ == spec_default_prompt(),
{
    "Why the sky is blue?"
}

/// What [`State::reset`] does to the session: the transcript, the title
/// and the continuation tokens are dropped, the input buffer is primed
/// with the default prompt, and the collaborator is told to reclaim
/// focus. Everything else is kept.
pub open spec fn spec_reset(m: StateModel) -> StateModel {
    StateModel {
        title: Seq::empty(),
        input: spec_default_prompt(),
        output: Seq::empty(),
        retrieving: false,
        reload: true,
        context: Seq::empty(),
        ..m
    }
}

impl State {
    /// A fresh session: empty everywhere, input primed with the default
    /// prompt, sentinel indices for the not-yet-made selections.
    pub fn new() -> (r: State)
        ensures
            r@ == (StateModel {
                title: Seq::empty(),
                models: Seq::empty(),
                selected_model: usize::MAX as int,
                input: spec_default_prompt(),
                output: Seq::empty(),
                retrieving: false,
                reload: true,
                timeout_idx: usize::MAX as int,
                escape: false,
                context: Seq::empty(),
                cwd: Seq::empty(),
            }),
    {
        let r = State {
            title: String::new(),
            models: Vec::new(),
            selected_model: usize::MAX,
            input: String::from_str(default_prompt()),
            output: String::new(),
            retrieving: false,
            reload: true,
            timeout_idx: usize::MAX,
            escape: false,
            context: Vec::new(),
            cwd: String::new(),
        };
        proof {
            assert(r@.models =~= Seq::<Seq<char>>::empty());
            assert(r@ =~= (StateModel {
                title: Seq::empty(),
                models: Seq::empty(),
                selected_model: usize::MAX as int,
                input: spec_default_prompt(),
                output: Seq::empty(),
                retrieving: false,
                reload: true,
                timeout_idx: usize::MAX as int,
                escape: false,
                context: Seq::empty(),
                cwd: Seq::empty(),
            }));
        }
        r
    }

    /// Explicit user reset: start a new conversation while keeping the
    /// model list, the selections and the working directory.
    pub fn reset(&mut self)
        ensures
            final(self)@ == spec_reset(old(self)@),
    {
        self.input = String::from_str(default_prompt());
        self.title = String::new();
        self.output = String::new();
        self.retrieving = false;
        self.reload = true;
        self.context = Vec::new();
        proof {
            assert(self@ =~= spec_reset(old(self)@));
        }
    }
}

/// Position of the first catalogue entry whose identifier is `name`,
/// or `-1` when no entry has it.
pub open spec fn first_model(models: Seq<Seq<char>>, name: Seq<char>) -> int
    decreases models.len(),
{
    if models.len() == 0 {
        -1
    } else if models[0] == name {
        0
    } else {
        let r = first_model(models.drop_first(), name);
        if r < 0 {
            -1
        } else {
            r + 1
        }
    }
}

/// What [`first_model`] means: a non-negative result is the position of
/// the first entry with the identifier; a negative one says there is
/// none.
pub proof fn lemma_first_model(models: Seq<Seq<char>>, name: Seq<char>)
    ensures
        -1 <= first_model(models, name) < models.len(),
        first_model(models, name) >= 0 ==> models[first_model(models, name)] == name,
        forall|j: int|
            0 <= j < models.len() && (first_model(models, name) < 0 || j < first_model(
                models,
                name,
            )) ==> models[j] != name,
    decreases models.len(),
{
    if models.len() > 0 && models[0] != name {
        lemma_first_model(models.drop_first(), name);
        assert forall|j: int|
            0 <= j < models.len() && (first_model(models, name) < 0 || j < first_model(
                models,
                name,
            )) implies models[j] != name by {
            if j > 0 {
                assert(models.drop_first()[j - 1] == models[j]);
            }
        }
    }
}

/// What selecting a model by identifier does to the session: the first
/// entry with that identifier becomes the selection; without one the
/// session is left as it is.
pub open spec fn spec_set_model(m: StateModel, name: Seq<char>) -> StateModel {
    if first_model(m.models, name) >= 0 {
        StateModel { selected_model: first_model(m.models, name), ..m }
    } else {
        m
    }
}

/// Selects the model whose identifier equals `model`, if the list holds
/// one; the first such entry wins ([`spec_set_model`]). Returns whether
/// a match was found; without a match the session is left untouched and
/// the current selection stands.
pub fn set_model(state: &mut State, model: &String) -> (found: bool)
    ensures
        found == (first_model(old(state)@.models, model@) >= 0),
        final(state)@ == spec_set_model(old(state)@, model@),
{
    let n = state.models.len();
    let mut idx: usize = 0;
    while idx < n
        invariant
            n == state@.models.len(),
            idx <= n,
            state@ == old(state)@,
            forall|j: int| 0 <= j < idx ==> old(state)@.models[j] != model@,
        decreases n - idx,
    {
        if state.models[idx].eq(model) {
            state.selected_model = idx;
            proof {
                assert(old(state)@.models[idx as int] == model@);
                lemma_first_model(old(state)@.models, model@);
                let fm = first_model(old(state)@.models, model@);
                assert(fm == idx as int) by {
                    if fm < idx as int {
                        assert(old(state)@.models[fm] != model@);
                    }
                }
                assert(state@ =~= (StateModel { selected_model: idx as int, ..old(state)@ }));
            }
            return true;
        }
        idx = idx + 1;
    }
    proof {
        lemma_first_model(old(state)@.models, model@);
        let fm = first_model(old(state)@.models, model@);
        if fm >= 0 {
            assert(old(state)@.models[fm] != model@);
        }
    }
    false
}

/// Records the directory a load or save dialog ended in, and tells the
/// collaborator to reclaim input focus.
pub fn update_cwd(state: &mut State, dir: String)
    ensures
        final(state)@ == (StateModel { cwd: dir@, reload: true, ..old(state)@ }),
{
    state.cwd = dir;
    state.reload = true;
    proof {
        assert(state@ =~= (StateModel { cwd: state@.cwd, reload: true, ..old(state)@ }));
    }
}

} // verus!
