//! The fixed list of selectable per-wait timeouts, in seconds.
//!
//! The session stores a timeout as an index into this list.

use vstd::prelude::*;

verus! {

/// The selectable timeouts, in seconds.
pub open spec fn spec_timeouts() -> Seq<u64> {
    seq![10u64, 20u64, 30u64, 60u64, 120u64, 180u64, 300u64]
}

/// The selectable timeouts as a vector.
pub fn timeouts() -> (r: Vec<u64>)
    ensures
        r@ == spec_timeouts(),
{
    let mut r: Vec<u64> = Vec::new();
    r.push(10);
    r.push(20);
    r.push(30);
    r.push(60);
    r.push(120);
    r.push(180);
    r.push(300);
    proof {
        assert(r@ =~= spec_timeouts());
    }
    r
}

/// The timeout selected by an index into the list, if the index is
/// valid.
pub fn timeout_secs(idx: usize) -> (r: Option<u64>)
    ensures
        idx < spec_timeouts().len() ==> r == Some(spec_timeouts()[idx as int]),
        idx >= spec_timeouts().len() ==> r is None,
{
    let list = timeouts();
    if idx < list.len() {
        Some(list[idx])
    } else {
        None
    }
}

/// The index of a timeout value in the list, if the value is one of the
/// selectable ones.
pub fn timeout_index_of(secs: u64) -> (r: Option<usize>)
    ensures
        match r {
            Some(i) => i < spec_timeouts().len() && spec_timeouts()[i as int] == secs,
            None => forall|i: int| 0 <= i < spec_timeouts().len() ==> spec_timeouts()[i] != secs,
        },
{
    let list = timeouts();
    let mut i: usize = 0;
    while i < list.len()
        invariant
            list@ == spec_timeouts(),
            i <= list@.len(),
            forall|j: int| 0 <= j < i ==> spec_timeouts()[j] != secs,
        decreases list@.len() - i,
    {
        if list[i] == secs {
            return Some(i);
        }
        i = i + 1;
    }
    None
}

} // verus!
