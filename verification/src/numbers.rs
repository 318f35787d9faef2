//! Decimal rendering and parsing of the continuation tokens.
//!
//! The native transcript header stores the context as a comma-joined
//! list of decimal integers; this module defines what that text is and
//! proves that parsing is the inverse of rendering.

use vstd::prelude::*;
use crate::text::{spec_split, split_char};

verus! {

/// Whether `c` is a decimal digit.
pub open spec fn is_digit(c: char) -> bool {
    48 <= c as u32 <= 57
}

/// The numeric value of a digit character.
pub open spec fn digit_val(c: char) -> int {
    c as u32 - 48
}

/// The digit character for a value below ten.
pub open spec fn spec_digit_char(d: int) -> char {
    if d == 0 {
        '0'
    } else if d == 1 {
        '1'
    } else if d == 2 {
        '2'
    } else if d == 3 {
        '3'
    } else if d == 4 {
        '4'
    } else if d == 5 {
        '5'
    } else if d == 6 {
        '6'
    } else if d == 7 {
        '7'
    } else if d == 8 {
        '8'
    } else {
        '9'
    }
}

/// Whether every character of `s` is a decimal digit.
pub open spec fn all_digits(s: Seq<char>) -> bool {
    forall|i: int| 0 <= i < s.len() ==> is_digit(s[i])
}

/// The number a digit string denotes, most significant digit first.
pub open spec fn digits_val(s: Seq<char>) -> int
    decreases s.len(),
{
    if s.len() == 0 {
        0
    } else {
        digits_val(s.drop_last()) * 10 + digit_val(s.last())
    }
}

/// The canonical decimal rendering of a non-negative number: no sign,
/// no leading zeros, `"0"` for zero.
pub open spec fn spec_decimal(n: int) -> Seq<char>
    decreases n,
{
    if n < 10 {
        seq![spec_digit_char(n)]
    } else {
        spec_decimal(n / 10) + seq![spec_digit_char(n % 10)]
    }
}

/// The rendering of a number consists of digits and denotes the number
/// itself.
pub proof fn lemma_decimal_val(n: int)
    requires
        n >= 0,
    ensures
        spec_decimal(n).len() >= 1,
        all_digits(spec_decimal(n)),
        digits_val(spec_decimal(n)) == n,
    decreases n,
{
    if n < 10 {
        let s = spec_decimal(n);
        assert(s =~= seq![spec_digit_char(n)]);
        assert(s.drop_last() =~= Seq::<char>::empty());
        assert(s.last() == spec_digit_char(n));
        assert(digits_val(Seq::<char>::empty()) == 0);
        assert(digits_val(s) == digit_val(spec_digit_char(n)));
    } else {
        lemma_decimal_val(n / 10);
        let s = spec_decimal(n);
        assert(s =~= spec_decimal(n / 10) + seq![spec_digit_char(n % 10)]);
        assert(s.drop_last() =~= spec_decimal(n / 10));
        assert(s.last() == spec_digit_char(n % 10));
        assert(0 <= n % 10 < 10);
        assert(digit_val(spec_digit_char(n % 10)) == n % 10);
        assert(digits_val(s) == (n / 10) * 10 + n % 10);
        assert((n / 10) * 10 + n % 10 == n) by (nonlinear_arith);
        assert(forall|i: int|
            0 <= i < s.len() ==> is_digit(
                #[trigger] s[i],
            )) by {
            assert(forall|i: int|
                0 <= i < s.len() - 1 ==> s[i] == spec_decimal(n / 10)[i]);
        }
    }
}

/// The exec counterpart of [`spec_digit_char`].
fn digit_char(d: u32) -> (c: char)
    requires
        d < 10,
    ensures
        c == spec_digit_char(d as int),
{
    if d == 0 {
        '0'
    } else if d == 1 {
        '1'
    } else if d == 2 {
        '2'
    } else if d == 3 {
        '3'
    } else if d == 4 {
        '4'
    } else if d == 5 {
        '5'
    } else if d == 6 {
        '6'
    } else if d == 7 {
        '7'
    } else if d == 8 {
        '8'
    } else {
        '9'
    }
}

/// Renders a number in decimal, as a character vector.
pub fn decimal_chars(n: u32) -> (r: Vec<char>)
    ensures
        r@ == spec_decimal(n as int),
{
    let mut r: Vec<char> = Vec::new();
    if n == 0 {
        r.push('0');
        proof {
            assert(r@ =~= spec_decimal(0));
        }
        return r;
    }
    let mut m: u32 = n;
    proof {
        assert(spec_decimal(n as int) =~= spec_decimal(m as int) + r@);
    }
    while m > 0
        invariant
            m > 0 ==> spec_decimal(n as int) == spec_decimal(m as int) + r@,
            m == 0 ==> spec_decimal(n as int) == r@,
        decreases m,
    {
        let ghost r0 = r@;
        let ghost m0 = m as int;
        r.insert(0, digit_char(m % 10));
        proof {
            assert(r@ =~= seq![spec_digit_char(m0 % 10)] + r0);
        }
        m = m / 10;
        proof {
            if m > 0 {
                assert(spec_decimal(m0) == spec_decimal(m0 / 10) + seq![
                    spec_digit_char(m0 % 10),
                ]);
                assert(spec_decimal(m as int) + r@ =~= spec_decimal(m0) + r0);
            } else {
                assert(m0 < 10);
                assert(m0 % 10 == m0);
                assert(spec_decimal(m0) == seq![spec_digit_char(m0)]);
                assert(r@ =~= spec_decimal(m0) + r0);
            }
        }
    }
    r
}

/// Parses a digit vector as a decimal number.
///
/// Succeeds exactly on a non-empty string of digits whose value fits in
/// the token type, and then returns that value.
pub fn parse_decimal(s: &Vec<char>) -> (r: Option<u32>)
    ensures
        match r {
            Some(v) => s@.len() > 0 && all_digits(s@) && digits_val(s@) == v as int,
            None => s@.len() == 0 || !all_digits(s@) || digits_val(s@) > u32::MAX as int,
        },
{
    if s.len() == 0 {
        return None;
    }
    let mut acc: u64 = 0;
    let mut i: usize = 0;
    while i < s.len()
        invariant
            i <= s@.len(),
            forall|j: int| 0 <= j < i ==> is_digit(s@[j]),
            acc as int == digits_val(s@.take(i as int)),
            acc <= u32::MAX,
        decreases s@.len() - i,
    {
        let c = s[i];
        let code = c as u32;
        if code < 48 || code > 57 {
            return None;
        }
        let d: u64 = (code - 48) as u64;
        let next: u64 = acc * 10 + d;
        proof {
            assert(s@.take(i + 1).drop_last() =~= s@.take(i as int));
            assert(s@.take(i + 1).last() == s@[i as int]);
        }
        if next > u32::MAX as u64 {
            proof {
                if all_digits(s@) {
                    lemma_digits_over(s@, i + 1);
                }
            }
            return None;
        }
        acc = next;
        i = i + 1;
    }
    proof {
        assert(s@.take(s@.len() as int) =~= s@);
    }
    Some(acc as u32)
}

/// Once a prefix of a digit string exceeds the token range, so does the
/// whole string.
proof fn lemma_digits_over(s: Seq<char>, i: int)
    requires
        0 < i <= s.len(),
        all_digits(s),
        digits_val(s.take(i)) > u32::MAX as int,
    ensures
        digits_val(s) > u32::MAX as int,
    decreases s.len() - i,
{
    if i == s.len() {
        assert(s.take(i) =~= s);
    } else {
        assert(s.take(i + 1).drop_last() =~= s.take(i));
        assert(s.take(i + 1).last() == s[i]);
        assert(is_digit(s[i]));
        assert(digits_val(s.take(i + 1)) == digits_val(s.take(i)) * 10 + digit_val(s[i]));
        assert(digits_val(s.take(i)) * 10 >= digits_val(s.take(i))) by (nonlinear_arith)
            requires
                digits_val(s.take(i)) > 0,
        ;
        lemma_digits_over(s, i + 1);
    }
}

/// The comma-joined decimal rendering of a token list: the renderings
/// of the tokens in order, separated by single commas.
pub open spec fn spec_joined(s: Seq<u32>) -> Seq<char>
    decreases s.len(),
{
    if s.len() == 0 {
        Seq::empty()
    } else if s.len() == 1 {
        spec_decimal(s[0] as int)
    } else {
        spec_joined(s.drop_last()) + seq![','] + spec_decimal(s.last() as int)
    }
}

/// Renders a token list as comma-joined decimals.
pub fn join_context(s: &Vec<u32>) -> (r: Vec<char>)
    ensures
        r@ == spec_joined(s@),
{
    let mut r: Vec<char> = Vec::new();
    if s.len() == 0 {
        proof {
            assert(r@ =~= spec_joined(s@));
        }
        return r;
    }
    let mut first = decimal_chars(s[0]);
    r.append(&mut first);
    proof {
        assert(r@ =~= spec_joined(s@.take(1)));
    }
    let mut i: usize = 1;
    while i < s.len()
        invariant
            1 <= i <= s@.len(),
            r@ == spec_joined(s@.take(i as int)),
        decreases s@.len() - i,
    {
        let ghost r0 = r@;
        r.push(',');
        let mut piece = decimal_chars(s[i]);
        r.append(&mut piece);
        i = i + 1;
        proof {
            assert(s@.take(i as int).drop_last() =~= s@.take(i - 1));
            assert(s@.take(i as int).last() == s@[i - 1]);
            assert(r@ =~= spec_joined(s@.take(i as int)));
        }
    }
    proof {
        assert(s@.take(s@.len() as int) =~= s@);
    }
    r
}

/// Whether a comma-separated segment is a well-formed token: a
/// non-empty digit string whose value fits in the token type.
pub open spec fn valid_token_seg(seg: Seq<char>) -> bool {
    seg.len() > 0 && all_digits(seg) && digits_val(seg) <= u32::MAX as int
}

/// Position of the first ill-formed segment, or `-1` when all segments
/// are well-formed.
pub open spec fn first_bad_seg(segs: Seq<Seq<char>>) -> int
    decreases segs.len(),
{
    if segs.len() == 0 {
        -1
    } else if !valid_token_seg(segs[0]) {
        0
    } else {
        let r = first_bad_seg(segs.drop_first());
        if r < 0 {
            -1
        } else {
            r + 1
        }
    }
}

/// What [`first_bad_seg`] means.
pub proof fn lemma_first_bad_seg(segs: Seq<Seq<char>>)
    ensures
        -1 <= first_bad_seg(segs) < segs.len(),
        first_bad_seg(segs) >= 0 ==> !valid_token_seg(segs[first_bad_seg(segs)]),
        forall|j: int|
            0 <= j < segs.len() && (first_bad_seg(segs) < 0 || j < first_bad_seg(segs))
                ==> valid_token_seg(#[trigger] segs[j]),
    decreases segs.len(),
{
    if segs.len() > 0 && valid_token_seg(segs[0]) {
        lemma_first_bad_seg(segs.drop_first());
        assert forall|j: int|
            0 <= j < segs.len() && (first_bad_seg(segs) < 0 || j < first_bad_seg(segs))
                implies valid_token_seg(#[trigger] segs[j]) by {
            if j > 0 {
                assert(segs.drop_first()[j - 1] == segs[j]);
            }
        }
    }
}

/// The token values of a list of well-formed segments.
pub open spec fn spec_token_values(segs: Seq<Seq<char>>) -> Seq<u32> {
    segs.map_values(|seg: Seq<char>| digits_val(seg) as u32)
}

/// Every character of a comma-joined rendering is a digit or a comma.
pub proof fn lemma_joined_chars(s: Seq<u32>)
    ensures
        forall|k: int|
            0 <= k < spec_joined(s).len() ==> is_digit(#[trigger] spec_joined(s)[k])
                || spec_joined(s)[k] == ',',
    decreases s.len(),
{
    if s.len() == 1 {
        lemma_decimal_val(s[0] as int);
    } else if s.len() > 1 {
        lemma_joined_chars(s.drop_last());
        lemma_decimal_val(s.last() as int);
        let j = spec_joined(s);
        let head = spec_joined(s.drop_last());
        let tail = spec_decimal(s.last() as int);
        assert forall|k: int|
            0 <= k < j.len() implies is_digit(#[trigger] j[k]) || j[k] == ',' by {
            if k < head.len() {
                assert(j[k] == head[k]);
            } else if k == head.len() {
                assert(j[k] == ',');
            } else {
                assert(j[k] == tail[k - head.len() - 1]);
            }
        }
    }
}

/// Splitting a comma-joined rendering at the commas gives back the
/// renderings of the tokens, in order.
pub proof fn lemma_split_joined(s: Seq<u32>)
    requires
        s.len() >= 1,
    ensures
        spec_split(spec_joined(s), ',') == s.map_values(|t: u32| spec_decimal(t as int)),
    decreases s.len(),
{
    if s.len() == 1 {
        lemma_decimal_val(s[0] as int);
        assert(forall|k: int|
            0 <= k < spec_decimal(s[0] as int).len() ==> #[trigger] spec_decimal(
                s[0] as int,
            )[k] != ',');
        crate::text::lemma_split_whole(spec_decimal(s[0] as int), ',');
        assert(spec_joined(s) == spec_decimal(s[0] as int));
        assert(seq![spec_decimal(s[0] as int)] =~= s.map_values(
            |t: u32| spec_decimal(t as int),
        ));
    } else {
        let dl = s.drop_last();
        let last = spec_decimal(s.last() as int);
        lemma_split_joined(dl);
        lemma_decimal_val(s.last() as int);
        assert(spec_joined(s) == spec_joined(dl) + seq![','] + last);
        crate::text::lemma_split_append(spec_joined(dl), last, ',');
        assert(forall|k: int| 0 <= k < last.len() ==> #[trigger] last[k] != ',');
        crate::text::lemma_split_whole(last, ',');
        assert(spec_split(spec_joined(s), ',') =~= s.map_values(
            |t: u32| spec_decimal(t as int),
        )) by {
            assert(spec_split(spec_joined(s), ',') == dl.map_values(
                |t: u32| spec_decimal(t as int),
            ) + seq![last]);
        }
    }
}

/// Parses a comma-joined list of decimal numbers.
///
/// Succeeds exactly when every comma-separated segment is a non-empty
/// digit string whose value fits in the token type; the values come
/// back in order. The offending segment is reported otherwise.
pub fn parse_context(v: &Vec<char>) -> (r: Result<Vec<u32>, Vec<char>>)
    ensures
        match r {
            Ok(ctx) => first_bad_seg(spec_split(v@, ',')) < 0 && ctx@ == spec_token_values(
                spec_split(v@, ','),
            ),
            Err(seg) => first_bad_seg(spec_split(v@, ',')) >= 0 && seg@ == spec_split(v@, ',')[
                first_bad_seg(spec_split(v@, ','))],
        },
{
    let segs = split_char(v, ',');
    let ghost segviews = segs@.map_values(|seg: Vec<char>| seg@);
    let mut ctx: Vec<u32> = Vec::new();
    let mut i: usize = 0;
    while i < segs.len()
        invariant
            i <= segs@.len(),
            segviews == segs@.map_values(|seg: Vec<char>| seg@),
            segviews == spec_split(v@, ','),
            ctx@.len() == i,
            forall|j: int|
                0 <= j < i ==> valid_token_seg(#[trigger] segviews[j]) && digits_val(segviews[j])
                    == ctx@[j] as int,
        decreases segs@.len() - i,
    {
        proof {
            assert(segviews[i as int] == segs@[i as int]@);
        }
        match parse_decimal(&segs[i]) {
            Some(val) => {
                ctx.push(val);
            },
            None => {
                proof {
                    assert(segviews[i as int] == segs@[i as int]@);
                    lemma_first_bad_seg(segviews);
                    assert(!valid_token_seg(segviews[i as int]));
                    assert(first_bad_seg(segviews) == i as int) by {
                        if first_bad_seg(segviews) < i as int {
                            lemma_first_bad_seg(segviews);
                        }
                    }
                }
                let mut rest = segs;
                let bad = rest.remove(i);
                proof {
                    assert(bad@ == segviews[i as int]);
                }
                return Err(bad);
            },
        }
        i = i + 1;
    }
    proof {
        lemma_first_bad_seg(segviews);
        assert(first_bad_seg(segviews) < 0) by {
            if first_bad_seg(segviews) >= 0 {
                assert(valid_token_seg(segviews[first_bad_seg(segviews)]));
            }
        }
        assert(ctx@ =~= spec_token_values(segviews));
    }
    Ok(ctx)
}

/// Copies a token list.
pub fn copy_tokens(v: &Vec<u32>) -> (r: Vec<u32>)
    ensures
        r@ == v@,
{
    let mut r: Vec<u32> = Vec::new();
    let mut i: usize = 0;
    while i < v.len()
        invariant
            i <= v@.len(),
            r@ == v@.take(i as int),
        decreases v@.len() - i,
    {
        r.push(v[i]);
        i = i + 1;
        proof {
            assert(r@ =~= v@.take(i as int));
        }
    }
    proof {
        assert(r@ =~= v@);
    }
    r
}

} // verus!
