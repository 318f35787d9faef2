//! The request and response records of the generation endpoint, the
//! model catalogue, and the per-request seed.
//!
//! The surrounding application owns the JSON encoding of these records;
//! the engine works on the plain values and proves what it does with
//! them.

use vstd::prelude::*;
use vstd::multiset::Multiset;
use vstd::seq_lib::{to_multiset_insert, to_multiset_remove};
use crate::text::{lex_le, lemma_lex_le_total, lemma_lex_le_trans, str_le};

verus! {

/// One entry of the model catalogue: an identifier and its modification
/// timestamp, as the endpoint reports them.
#[derive(Debug)]
pub struct AIModel {
    pub name: String,
    pub modified_at: String,
}

/// The model catalogue as the endpoint reports it.
#[derive(Debug)]
pub struct ModelList {
    pub models: Vec<AIModel>,
}

/// Generation parameters sent with every request. The seed varies per
/// request so that repeating a prompt is not deterministic.
#[derive(Debug)]
pub struct AdditionalParams {
    pub num_ctx: usize,
    pub repeat_last_n: i32,
    pub seed: u32,
}

/// One generation request: the model to use, the prompt, whether the
/// response is streamed, the generation parameters, and the
/// continuation tokens of the conversation so far (absent on a first
/// turn).
#[derive(Debug)]
pub struct Request {
    pub model: String,
    pub prompt: String,
    pub stream: bool,
    pub options: AdditionalParams,
    pub context: Option<Vec<u32>>,
}

/// One unit of a response: a token fragment, optionally a full
/// replacement for the continuation tokens, and the completion flag.
/// A non-streaming call yields exactly one such record.
#[derive(Debug)]
pub struct Response {
    pub response: String,
    pub context: Option<Vec<u32>>,
    pub done: bool,
}

/// Mathematical model of a [`Response`].
#[verifier::ext_equal]
pub ghost struct ResponseModel {
    pub response: Seq<char>,
    pub context: Option<Seq<u32>>,
    pub done: bool,
}

impl View for Response {
    type V = ResponseModel;

    open spec fn view(&self) -> ResponseModel {
        ResponseModel {
            response: self.response@,
            context: match self.context {
                Some(c) => Some(c@),
                None => None,
            },
            done: self.done,
        }
    }
}

/// Mathematical model of a [`Request`].
#[verifier::ext_equal]
pub ghost struct RequestModel {
    pub model: Seq<char>,
    pub prompt: Seq<char>,
    pub stream: bool,
    pub num_ctx: int,
    pub repeat_last_n: int,
    pub seed: u32,
    pub context: Option<Seq<u32>>,
}

impl View for Request {
    type V = RequestModel;

    open spec fn view(&self) -> RequestModel {
        RequestModel {
            model: self.model@,
            prompt: self.prompt@,
            stream: self.stream,
            num_ctx: self.options.num_ctx as int,
            repeat_last_n: self.options.repeat_last_n as int,
            seed: self.options.seed,
            context: match self.context {
                Some(c) => Some(c@),
                None => None,
            },
        }
    }
}

impl AdditionalParams {
    /// The fixed generation parameters with an explicit seed.
    pub fn with_seed(seed: u32) -> (r: AdditionalParams)
        ensures
            r.num_ctx == 8192,
            r.repeat_last_n == -1i32,
            r.seed == seed,
    {
        AdditionalParams { num_ctx: 8192, repeat_last_n: -1, seed }
    }
}

impl Default for AdditionalParams {
    /// The fixed generation parameters with a freshly drawn seed.
    fn default() -> (r: AdditionalParams)
        ensures
            r.num_ctx == 8192,
            r.repeat_last_n == -1i32,
    {
        AdditionalParams::with_seed(get_seed())
    }
}

/// Relies on `std::time::SystemTime`: `now`, `duration_since` the Unix
/// epoch, and `as_millis`. Returns the milliseconds since the epoch, or
/// zero on a clock set before it. Nothing can be promised of the
/// current time, so this has no contract.
#[verifier::external_body]
fn now_unix_millis() -> u128 {
    std::time::SystemTime::now()
        .duration_since(std::time::UNIX_EPOCH)
        .map(|since| since.as_millis())
        .unwrap_or(0)
}

/// The seed a given clock reading yields: the reading taken modulo the
/// numeric range of the seed field.
pub fn seed_from_millis(ms: u128) -> (r: u32)
    ensures
        r as int == ms as int % 0x1_0000_0000,
{
    (ms % 0x1_0000_0000) as u32
}

/// Draws the seed for one request from the current time. The value
/// depends on the clock; [`seed_from_millis`] carries the verified part.
pub fn get_seed() -> u32 {
    seed_from_millis(now_unix_millis())
}

/// Catalogue order: `a` is no newer than `b`.
pub open spec fn model_le(a: AIModel, b: AIModel) -> bool {
    lex_le(a.modified_at@, b.modified_at@)
}

/// Newest first: every later entry is no newer than every earlier one.
pub open spec fn sorted_desc(s: Seq<AIModel>) -> bool {
    forall|i: int, j: int| 0 <= i < j < s.len() ==> model_le(#[trigger] s[j], #[trigger] s[i])
}

/// Where a new entry belongs in a descending catalogue: after every
/// strictly newer entry.
fn insert_position(sorted: &Vec<AIModel>, m: &AIModel) -> (p: usize)
    requires
        sorted_desc(sorted@),
    ensures
        p <= sorted@.len(),
        forall|j: int| 0 <= j < p ==> !model_le(#[trigger] sorted@[j], *m),
        p < sorted@.len() ==> model_le(sorted@[p as int], *m),
{
    let mut p: usize = 0;
    while p < sorted.len()
        invariant
            p <= sorted@.len(),
            forall|j: int| 0 <= j < p ==> !model_le(#[trigger] sorted@[j], *m),
        decreases sorted@.len() - p,
    {
        if str_le(sorted[p].modified_at.as_str(), m.modified_at.as_str()) {
            return p;
        }
        p = p + 1;
    }
    p
}

/// Inserting an entry at its position keeps the catalogue descending.
proof fn lemma_insert_sorted(s: Seq<AIModel>, m: AIModel, p: int)
    requires
        sorted_desc(s),
        0 <= p <= s.len(),
        forall|j: int| 0 <= j < p ==> !model_le(#[trigger] s[j], m),
        p < s.len() ==> model_le(s[p], m),
    ensures
        sorted_desc(s.insert(p, m)),
{
    let t = s.insert(p, m);
    s.insert_ensures(p, m);
    assert forall|j: int| 0 <= j < p implies model_le(m, #[trigger] s[j]) by {
        lemma_lex_le_total(m.modified_at@, s[j].modified_at@);
    }
    assert forall|j: int| p <= j < s.len() implies model_le(#[trigger] s[j], m) by {
        if j > p {
            lemma_lex_le_trans(s[j].modified_at@, s[p].modified_at@, m.modified_at@);
        }
    }
    assert forall|i: int, j: int| 0 <= i < j < t.len() implies model_le(
        #[trigger] t[j],
        #[trigger] t[i],
    ) by {
        if i < p && j < p {
            assert(t[i] == s[i] && t[j] == s[j]);
        } else if i < p && j == p {
            assert(t[i] == s[i] && t[j] == m);
        } else if i < p && j > p {
            assert(t[i] == s[i] && t[j] == s[j - 1]);
            if j - 1 >= p {
                lemma_lex_le_trans(s[j - 1].modified_at@, m.modified_at@, s[i].modified_at@);
            }
        } else if i == p {
            assert(t[i] == m && t[j] == s[j - 1]);
        } else {
            assert(t[i] == s[i - 1] && t[j] == s[j - 1]);
        }
    }
}

/// Sorts the catalogue newest first, by modification time. The result
/// holds exactly the given entries.
pub fn sort_models(models: Vec<AIModel>) -> (r: Vec<AIModel>)
    ensures
        sorted_desc(r@),
        r@.to_multiset() == models@.to_multiset(),
        r@.len() == models@.len(),
{
    let ghost orig = models@;
    let mut rest = models;
    let mut sorted: Vec<AIModel> = Vec::new();
    proof {
        broadcast use vstd::multiset::group_multiset_axioms;

        vstd::seq_lib::to_multiset_len(sorted@);
        vstd::multiset::lemma_multiset_empty_len(sorted@.to_multiset());
        assert(sorted@.to_multiset() =~= Multiset::<AIModel>::empty());
        assert(sorted@.to_multiset().add(rest@.to_multiset()) =~= orig.to_multiset());
    }
    while rest.len() > 0
        invariant
            sorted_desc(sorted@),
            sorted@.to_multiset().add(rest@.to_multiset()) == orig.to_multiset(),
            sorted@.len() + rest@.len() == orig.len(),
        decreases rest@.len(),
    {
        let ghost rest0 = rest@;
        let ghost sorted0 = sorted@;
        let m = rest.pop().unwrap();
        let p = insert_position(&sorted, &m);
        proof {
            broadcast use vstd::multiset::group_multiset_axioms;

            lemma_insert_sorted(sorted@, m, p as int);
            assert(rest@ =~= rest0.remove(rest0.len() - 1));
            to_multiset_remove(rest0, rest0.len() - 1);
            to_multiset_insert(sorted0, p as int, m);
            assert(rest0.to_multiset().count(m) > 0) by {
                vstd::seq_lib::to_multiset_contains(rest0, m);
                assert(rest0[rest0.len() - 1] == m);
            }
        }
        sorted.insert(p, m);
        proof {
            broadcast use vstd::multiset::group_multiset_axioms;

            assert(sorted@.to_multiset().add(rest@.to_multiset()) =~= sorted0.to_multiset().add(
                rest0.to_multiset(),
            ));
            vstd::seq_lib::to_multiset_len(rest@);
            vstd::seq_lib::to_multiset_len(sorted@);
        }
    }
    proof {
        broadcast use vstd::multiset::group_multiset_axioms;

        vstd::seq_lib::to_multiset_len(rest@);
        vstd::multiset::lemma_multiset_empty_len(rest@.to_multiset());
        assert(rest@.to_multiset() =~= Multiset::<AIModel>::empty());
        assert(sorted@.to_multiset() =~= orig.to_multiset());
    }
    sorted
}

/// The identifiers of the catalogue entries, in catalogue order.
pub fn model_names(models: &Vec<AIModel>) -> (r: Vec<String>)
    ensures
        r@ == models@.map_values(|m: AIModel| m.name),
{
    let mut r: Vec<String> = Vec::new();
    let mut i: usize = 0;
    while i < models.len()
        invariant
            i <= models@.len(),
            r@ == models@.map_values(|m: AIModel| m.name).take(i as int),
        decreases models@.len() - i,
    {
        r.push(models[i].name.clone());
        i = i + 1;
        proof {
            assert(r@ =~= models@.map_values(|m: AIModel| m.name).take(i as int));
        }
    }
    proof {
        assert(r@ =~= models@.map_values(|m: AIModel| m.name));
    }
    r
}

} // verus!
