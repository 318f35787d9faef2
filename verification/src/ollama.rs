//! Endpoint locations: joining the service's base address with a call's
//! route.
//!
//! Resolving the base address itself (environment, defaults, ports) is
//! the application's concern; the engine only builds the full location
//! from a resolved base. The route replaces the base's path: the
//! address is kept through the end of its authority — everything
//! before the first slash after the scheme separator — and whatever
//! followed is dropped in favour of the route.

use vstd::prelude::*;
use vstd::string::*;
use crate::text::{chars_of, first_sep, head_to, lemma_first_sep, string_from_chars};

verus! {

/// Position of the first scheme separator `"://"` in `h`, or `-1` when
/// `h` holds none.
pub open spec fn scheme_sep(h: Seq<char>) -> int
    decreases h.len(),
{
    if h.len() < 3 {
        -1
    } else if h[0] == ':' && h[1] == '/' && h[2] == '/' {
        0
    } else {
        let r = scheme_sep(h.drop_first());
        if r < 0 {
            -1
        } else {
            r + 1
        }
    }
}

/// What [`scheme_sep`] means: a non-negative result is the position of
/// the first `"://"`; a negative one says there is none.
pub proof fn lemma_scheme_sep(h: Seq<char>)
    ensures
        -1 <= scheme_sep(h),
        scheme_sep(h) >= 0 ==> scheme_sep(h) + 3 <= h.len(),
        scheme_sep(h) >= 0 ==> h[scheme_sep(h)] == ':' && h[scheme_sep(h) + 1] == '/' && h[
            scheme_sep(h) + 2] == '/',
        forall|j: int|
            0 <= j && j + 3 <= h.len() && (scheme_sep(h) < 0 || j < scheme_sep(h)) ==> !((
            #[trigger] h[j]) == ':' && h[j + 1] == '/' && h[j + 2] == '/'),
    decreases h.len(),
{
    if h.len() >= 3 && !(h[0] == ':' && h[1] == '/' && h[2] == '/') {
        lemma_scheme_sep(h.drop_first());
        assert forall|j: int|
            0 <= j && j + 3 <= h.len() && (scheme_sep(h) < 0 || j < scheme_sep(h)) implies !((
            #[trigger] h[j]) == ':' && h[j + 1] == '/' && h[j + 2] == '/') by {
            if j > 0 {
                assert(h.drop_first()[j - 1] == h[j] && h.drop_first()[j] == h[j + 1]
                    && h.drop_first()[j + 1] == h[j + 2]);
            }
        }
    }
}

/// Where the base address's path begins: the position of the first
/// slash after the scheme separator, or the end of the address when it
/// has no path (or no scheme).
pub open spec fn spec_path_start(h: Seq<char>) -> int {
    if scheme_sep(h) < 0 {
        h.len() as int
    } else {
        let after = scheme_sep(h) + 3;
        if first_sep(h.skip(after), '/') < 0 {
            h.len() as int
        } else {
            after + first_sep(h.skip(after), '/')
        }
    }
}

/// The location of a call: the base address with its path component
/// replaced by the route.
pub open spec fn spec_path(host: Seq<char>, route: Seq<char>) -> Seq<char> {
    host.take(spec_path_start(host)) + route
}

/// Position of the first scheme separator in `h`, if any.
fn find_scheme_sep(h: &Vec<char>) -> (r: Option<usize>)
    ensures
        match r {
            Some(i) => scheme_sep(h@) == i as int && i + 3 <= h@.len(),
            None => scheme_sep(h@) < 0,
        },
{
    proof {
        lemma_scheme_sep(h@);
    }
    if h.len() < 3 {
        return None;
    }
    let last = h.len() - 3;
    let mut i: usize = 0;
    while i <= last
        invariant
            h@.len() <= usize::MAX,
            last == h@.len() - 3,
            i <= last + 1,
            forall|j: int|
                0 <= j < i ==> !((#[trigger] h@[j]) == ':' && h@[j + 1] == '/' && h@[j + 2]
                    == '/'),
        decreases last + 1 - i,
    {
        if h[i] == ':' && h[i + 1] == '/' && h[i + 2] == '/' {
            proof {
                lemma_scheme_sep(h@);
                let sep = scheme_sep(h@);
                assert(sep == i as int) by {
                    if 0 <= sep < i as int {
                        assert(!(h@[sep] == ':' && h@[sep + 1] == '/' && h@[sep + 2] == '/'));
                    }
                }
            }
            return Some(i);
        }
        i = i + 1;
    }
    proof {
        lemma_scheme_sep(h@);
        if scheme_sep(h@) >= 0 {
            let sep = scheme_sep(h@);
            assert(!(h@[sep] == ':' && h@[sep + 1] == '/' && h@[sep + 2] == '/'));
        }
    }
    None
}

/// Position of the first occurrence of `c` in `h` at or after `from`,
/// if any.
fn find_char_from(h: &Vec<char>, from: usize, c: char) -> (r: Option<usize>)
    requires
        from <= h@.len(),
    ensures
        match r {
            Some(q) => from <= q < h@.len() && first_sep(h@.skip(from as int), c) == q - from,
            None => first_sep(h@.skip(from as int), c) < 0,
        },
{
    let ghost rest = h@.skip(from as int);
    proof {
        lemma_first_sep(rest, c);
    }
    let mut q: usize = from;
    while q < h.len()
        invariant
            from <= q <= h@.len(),
            rest == h@.skip(from as int),
            forall|j: int| 0 <= j < q - from ==> rest[j] != c,
        decreases h@.len() - q,
    {
        if h[q] == c {
            proof {
                lemma_first_sep(rest, c);
                assert(rest[q - from] == c);
                let fs = first_sep(rest, c);
                assert(fs == q - from) by {
                    if 0 <= fs < q - from {
                        assert(rest[fs] != c);
                    }
                    if fs < 0 || fs > q - from {
                        assert(rest[q - from] != c);
                    }
                }
            }
            return Some(q);
        }
        q = q + 1;
    }
    proof {
        lemma_first_sep(rest, c);
        if first_sep(rest, c) >= 0 {
            assert(rest[first_sep(rest, c)] != c);
        }
    }
    None
}

/// Joins the resolved base address of the service with a route such as
/// `"/api/generate"`: the route replaces whatever path the base
/// carried.
pub fn path(host: &str, route: &str) -> (r: String)
    ensures
        r@ == spec_path(host@, route@),
{
    let h = chars_of(host);
    let n = h.len();
    let cut: usize = match find_scheme_sep(&h) {
        None => n,
        Some(sep) => {
            match find_char_from(&h, sep + 3, '/') {
                None => n,
                Some(q) => q,
            }
        },
    };
    proof {
        assert(cut as int == spec_path_start(host@));
    }
    let base = string_from_chars(&head_to(&h, cut));
    base.concat(route)
}

} // verus!
