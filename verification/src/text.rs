//! Character-level helpers shared by the transcript formats.
//!
//! All text handled by the engine is modelled as a `Seq<char>`. The
//! executable code walks strings with the character accessors from `vstd`
//! and builds results one character at a time, so every function here has
//! an exact contract over the character sequences involved.

use vstd::prelude::*;
use vstd::string::*;

verus! {

/// Relies on `String::push`: appends the given character to the end of
/// the string.
#[verifier::external_body]
pub fn push_char(s: &mut String, c: char)
    ensures
        final(s)@ == old(s)@.push(c),
{
    s.push(c);
}

/// Collects the characters of a string slice into a vector.
pub fn chars_of(s: &str) -> (r: Vec<char>)
    ensures
        r@ == s@,
{
    let n: usize = s.unicode_len();
    let mut r: Vec<char> = Vec::new();
    let mut i: usize = 0;
    while i < n
        invariant
            n == s@.len(),
            i <= n,
            r@ == s@.take(i as int),
        decreases n - i,
    {
        let c = s.get_char(i);
        r.push(c);
        i = i + 1;
        proof {
            assert(r@ =~= s@.take(i as int));
        }
    }
    proof {
        assert(r@ =~= s@);
    }
    r
}

/// Builds a string out of a vector of characters.
pub fn string_from_chars(v: &Vec<char>) -> (r: String)
    ensures
        r@ == v@,
{
    let mut r = String::new();
    let mut i: usize = 0;
    while i < v.len()
        invariant
            i <= v@.len(),
            r@ == v@.take(i as int),
        decreases v@.len() - i,
    {
        push_char(&mut r, v[i]);
        i = i + 1;
        proof {
            assert(r@ =~= v@.take(i as int));
        }
    }
    proof {
        assert(r@ =~= v@);
    }
    r
}

/// Whether the characters of `v` are exactly the characters of `p`.
pub fn eq_str(v: &Vec<char>, p: &str) -> (r: bool)
    ensures
        r == (v@ == p@),
{
    let n: usize = p.unicode_len();
    if v.len() != n {
        proof {
            assert(v@ != p@);
        }
        return false;
    }
    let mut i: usize = 0;
    while i < n
        invariant
            n == p@.len(),
            v@.len() == n,
            i <= n,
            forall|j: int| 0 <= j < i ==> v@[j] == p@[j],
        decreases n - i,
    {
        if v[i] != p.get_char(i) {
            return false;
        }
        i = i + 1;
    }
    proof {
        assert(v@ =~= p@);
    }
    true
}

/// Whether `v` starts with the characters of `p`.
pub fn has_prefix(v: &Vec<char>, p: &str) -> (r: bool)
    ensures
        r == (v@.len() >= p@.len() && v@.take(p@.len() as int) == p@),
{
    let n: usize = p.unicode_len();
    if v.len() < n {
        return false;
    }
    let mut i: usize = 0;
    while i < n
        invariant
            n == p@.len(),
            v@.len() >= n,
            i <= n,
            forall|j: int| 0 <= j < i ==> v@[j] == p@[j],
        decreases n - i,
    {
        if v[i] != p.get_char(i) {
            proof {
                assert(v@.take(n as int)[i as int] != p@[i as int]);
            }
            return false;
        }
        i = i + 1;
    }
    proof {
        assert(v@.take(n as int) =~= p@);
    }
    true
}

/// The characters of `v` from position `from` on.
pub fn tail_from(v: &Vec<char>, from: usize) -> (r: Vec<char>)
    requires
        from <= v@.len(),
    ensures
        r@ == v@.skip(from as int),
{
    let mut r: Vec<char> = Vec::new();
    let mut i: usize = from;
    while i < v.len()
        invariant
            from <= i <= v@.len(),
            r@ == v@.subrange(from as int, i as int),
        decreases v@.len() - i,
    {
        r.push(v[i]);
        i = i + 1;
        proof {
            assert(r@ =~= v@.subrange(from as int, i as int));
        }
    }
    proof {
        assert(r@ =~= v@.skip(from as int));
    }
    r
}

/// The first `to` characters of `v`.
pub fn head_to(v: &Vec<char>, to: usize) -> (r: Vec<char>)
    requires
        to <= v@.len(),
    ensures
        r@ == v@.take(to as int),
{
    let mut r: Vec<char> = Vec::new();
    let mut i: usize = 0;
    while i < to
        invariant
            i <= to <= v@.len(),
            r@ == v@.take(i as int),
        decreases to - i,
    {
        r.push(v[i]);
        i = i + 1;
        proof {
            assert(r@ =~= v@.take(i as int));
        }
    }
    r
}

/// Position of the first occurrence of `sep` in `s`, or `-1` when `s`
/// does not contain it.
pub open spec fn first_sep(s: Seq<char>, sep: char) -> int
    decreases s.len(),
{
    if s.len() == 0 {
        -1
    } else if s[0] == sep {
        0
    } else {
        let r = first_sep(s.drop_first(), sep);
        if r < 0 {
            -1
        } else {
            r + 1
        }
    }
}

/// What [`first_sep`] means: a non-negative result is the position of
/// the first occurrence; a negative one says there is none.
pub proof fn lemma_first_sep(s: Seq<char>, sep: char)
    ensures
        -1 <= first_sep(s, sep) < s.len(),
        first_sep(s, sep) >= 0 ==> s[first_sep(s, sep)] == sep,
        forall|j: int|
            0 <= j < s.len() && (first_sep(s, sep) < 0 || j < first_sep(s, sep)) ==> s[j] != sep,
    decreases s.len(),
{
    if s.len() > 0 && s[0] != sep {
        lemma_first_sep(s.drop_first(), sep);
        assert forall|j: int|
            0 <= j < s.len() && (first_sep(s, sep) < 0 || j < first_sep(s, sep)) implies s[j]
            != sep by {
            if j > 0 {
                assert(s.drop_first()[j - 1] == s[j]);
            }
        }
    }
}

/// The segments of `s` between occurrences of `sep`, in order. The
/// separator itself appears in no segment; `n` separators yield `n + 1`
/// segments, so an empty input yields one empty segment.
pub open spec fn spec_split(s: Seq<char>, sep: char) -> Seq<Seq<char>>
    decreases s.len(),
    via spec_split_decreases
{
    let k = first_sep(s, sep);
    if k < 0 {
        seq![s]
    } else {
        seq![s.take(k)] + spec_split(s.skip(k + 1), sep)
    }
}

#[via_fn]
proof fn spec_split_decreases(s: Seq<char>, sep: char) {
    lemma_first_sep(s, sep);
}

/// Splitting a sequence that starts with a separator-free segment
/// followed by a separator peels that segment off.
pub proof fn lemma_split_step(a: Seq<char>, b: Seq<char>, sep: char)
    requires
        forall|j: int| 0 <= j < a.len() ==> a[j] != sep,
    ensures
        spec_split(a + seq![sep] + b, sep) == seq![a] + spec_split(b, sep),
{
    let s = a + seq![sep] + b;
    lemma_first_sep(s, sep);
    assert(s[a.len() as int] == sep);
    assert(forall|j: int| 0 <= j < a.len() ==> s[j] == a[j] && s[j] != sep);
    let k = first_sep(s, sep);
    assert(k >= 0) by {
        if k < 0 {
            assert(s[a.len() as int] != sep);
        }
    }
    assert(k == a.len() as int) by {
        if k < a.len() as int {
            assert(s[k] == sep);
            assert(s[k] != sep);
        }
        if k > a.len() as int {
            assert(s[a.len() as int] != sep);
        }
    }
    assert(s.take(k) =~= a);
    assert(s.skip(k + 1) =~= b);
}

/// A sequence without the separator is a single segment.
pub proof fn lemma_split_whole(a: Seq<char>, sep: char)
    requires
        forall|j: int| 0 <= j < a.len() ==> a[j] != sep,
    ensures
        spec_split(a, sep) == seq![a],
{
    lemma_first_sep(a, sep);
    if first_sep(a, sep) >= 0 {
        assert(a[first_sep(a, sep)] != sep);
    }
}

/// Splitting around an explicit separator splits the two sides
/// independently.
pub proof fn lemma_split_append(a: Seq<char>, b: Seq<char>, sep: char)
    ensures
        spec_split(a + seq![sep] + b, sep) == spec_split(a, sep) + spec_split(b, sep),
    decreases a.len(),
{
    let k = first_sep(a, sep);
    lemma_first_sep(a, sep);
    if k < 0 {
        lemma_split_step(a, b, sep);
        lemma_split_whole(a, sep);
        assert(seq![a] + spec_split(b, sep) =~= spec_split(a, sep) + spec_split(b, sep));
    } else {
        let s = a + seq![sep] + b;
        lemma_first_sep(s, sep);
        assert(s[k] == a[k]);
        assert(forall|j: int| 0 <= j < k ==> s[j] == a[j] && s[j] != sep);
        let ks = first_sep(s, sep);
        assert(ks >= 0) by {
            if ks < 0 {
                assert(s[k] != sep);
            }
        }
        assert(ks == k) by {
            if ks < k {
                assert(s[ks] == sep);
                assert(s[ks] != sep);
            }
            if ks > k {
                assert(s[k] != sep);
            }
        }
        assert(s.take(ks) =~= a.take(k));
        assert(s.skip(ks + 1) =~= a.skip(k + 1) + seq![sep] + b);
        lemma_split_append(a.skip(k + 1), b, sep);
        assert(spec_split(s, sep) =~= spec_split(a, sep) + spec_split(b, sep));
    }
}

/// Splits `v` at every occurrence of `sep`.
pub fn split_char(v: &Vec<char>, sep: char) -> (r: Vec<Vec<char>>)
    ensures
        r@.map_values(|seg: Vec<char>| seg@) == spec_split(v@, sep),
        r@.len() >= 1,
{
    let ghost full = v@;
    let mut segs: Vec<Vec<char>> = Vec::new();
    let mut cur: Vec<char> = Vec::new();
    let mut i: usize = 0;
    proof {
        assert(segs@.map_values(|seg: Vec<char>| seg@) =~= Seq::<Seq<char>>::empty());
        assert(cur@ + full.skip(0) =~= full);
    }
    while i < v.len()
        invariant
            i <= full.len(),
            v@ == full,
            forall|j: int| 0 <= j < cur@.len() ==> cur@[j] != sep,
            spec_split(full, sep) == segs@.map_values(|seg: Vec<char>| seg@) + spec_split(
                cur@ + full.skip(i as int),
                sep,
            ),
        decreases full.len() - i,
    {
        let c = v[i];
        if c == sep {
            proof {
                assert(cur@ + full.skip(i as int) =~= cur@ + seq![sep] + full.skip(i + 1));
                lemma_split_step(cur@, full.skip(i + 1), sep);
            }
            let ghost segs0 = segs@.map_values(|seg: Vec<char>| seg@);
            let ghost cur0 = cur@;
            segs.push(cur);
            cur = Vec::new();
            proof {
                assert(segs@.map_values(|seg: Vec<char>| seg@) =~= segs0.push(cur0));
                assert(segs0.push(cur0) =~= segs0 + seq![cur0]);
                assert(cur@ + full.skip(i + 1) =~= full.skip(i + 1));
            }
        } else {
            let ghost cur0 = cur@;
            cur.push(c);
            proof {
                assert(cur@ + full.skip(i + 1) =~= cur0 + full.skip(i as int));
            }
        }
        i = i + 1;
    }
    proof {
        assert(cur@ + full.skip(i as int) =~= cur@);
        lemma_split_whole(cur@, sep);
    }
    let ghost segs0 = segs@.map_values(|seg: Vec<char>| seg@);
    let ghost cur0 = cur@;
    segs.push(cur);
    proof {
        assert(segs@.map_values(|seg: Vec<char>| seg@) =~= segs0.push(cur0));
        assert(segs0.push(cur0) =~= segs0 + seq![cur0]);
    }
    segs
}

/// The lines of a text, separated by newline characters; a final
/// newline closes the last line rather than opening an empty one.
pub open spec fn spec_lines(s: Seq<char>) -> Seq<Seq<char>> {
    if s.len() == 0 {
        Seq::empty()
    } else if s.last() == '\n' {
        spec_split(s, '\n').drop_last()
    } else {
        spec_split(s, '\n')
    }
}

/// Splits a text into its lines.
pub fn lines_of(v: &Vec<char>) -> (r: Vec<Vec<char>>)
    ensures
        r@.map_values(|seg: Vec<char>| seg@) == spec_lines(v@),
{
    if v.len() == 0 {
        let r: Vec<Vec<char>> = Vec::new();
        proof {
            assert(r@.map_values(|seg: Vec<char>| seg@) =~= spec_lines(v@));
        }
        return r;
    }
    let mut segs = split_char(v, '\n');
    if v[v.len() - 1] == '\n' {
        let _ = segs.pop();
        proof {
            assert(segs@.map_values(|seg: Vec<char>| seg@) =~= spec_split(
                v@,
                '\n',
            ).drop_last());
        }
    }
    segs
}

/// Code-point order on character sequences: the usual lexicographic
/// "less than or equal".
pub open spec fn lex_le(a: Seq<char>, b: Seq<char>) -> bool
    decreases a.len(),
{
    if a.len() == 0 {
        true
    } else if b.len() == 0 {
        false
    } else if a[0] as u32 == b[0] as u32 {
        lex_le(a.drop_first(), b.drop_first())
    } else {
        (a[0] as u32) < (b[0] as u32)
    }
}

/// The lexicographic order relates any two sequences.
pub proof fn lemma_lex_le_total(a: Seq<char>, b: Seq<char>)
    ensures
        lex_le(a, b) || lex_le(b, a),
    decreases a.len(),
{
    if a.len() > 0 && b.len() > 0 && a[0] as u32 == b[0] as u32 {
        lemma_lex_le_total(a.drop_first(), b.drop_first());
    }
}

/// The lexicographic order is transitive.
pub proof fn lemma_lex_le_trans(a: Seq<char>, b: Seq<char>, c: Seq<char>)
    requires
        lex_le(a, b),
        lex_le(b, c),
    ensures
        lex_le(a, c),
    decreases a.len(),
{
    if a.len() > 0 {
        if b.len() > 0 && c.len() > 0 && a[0] as u32 == b[0] as u32 && b[0] as u32 == c[0] as u32 {
            lemma_lex_le_trans(a.drop_first(), b.drop_first(), c.drop_first());
        }
    }
}

/// Dropping an equal prefix does not change the lexicographic order.
proof fn lemma_lex_le_skip(a: Seq<char>, b: Seq<char>, i: int)
    requires
        0 <= i <= a.len(),
        i <= b.len(),
        forall|j: int| 0 <= j < i ==> a[j] == b[j],
    ensures
        lex_le(a, b) == lex_le(a.skip(i), b.skip(i)),
    decreases i,
{
    if i == 0 {
        assert(a.skip(0) =~= a);
        assert(b.skip(0) =~= b);
    } else {
        assert(a[0] == b[0]);
        assert(a.drop_first().skip(i - 1) =~= a.skip(i));
        assert(b.drop_first().skip(i - 1) =~= b.skip(i));
        assert(forall|j: int| 0 <= j < i - 1 ==> a.drop_first()[j] == b.drop_first()[j]);
        lemma_lex_le_skip(a.drop_first(), b.drop_first(), i - 1);
    }
}

/// Compares two string slices in code-point order.
pub fn str_le(a: &str, b: &str) -> (r: bool)
    ensures
        r == lex_le(a@, b@),
{
    let la: usize = a.unicode_len();
    let lb: usize = b.unicode_len();
    let n: usize = if la < lb {
        la
    } else {
        lb
    };
    let mut i: usize = 0;
    while i < n
        invariant
            la == a@.len(),
            lb == b@.len(),
            n == if la < lb { la } else { lb },
            i <= n,
            forall|j: int| 0 <= j < i ==> a@[j] == b@[j],
        decreases n - i,
    {
        let ca = a.get_char(i);
        let cb = b.get_char(i);
        if ca as u32 != cb as u32 {
            proof {
                lemma_lex_le_skip(a@, b@, i as int);
                assert(a@.skip(i as int)[0] == a@[i as int]);
                assert(b@.skip(i as int)[0] == b@[i as int]);
            }
            return (ca as u32) < (cb as u32);
        }
        i = i + 1;
    }
    proof {
        lemma_lex_le_skip(a@, b@, n as int);
        if la <= lb {
            assert(a@.skip(n as int).len() == 0);
        } else {
            assert(b@.skip(n as int).len() == 0);
            assert(a@.skip(n as int).len() > 0);
        }
    }
    la <= lb
}

} // verus!
