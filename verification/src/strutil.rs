//! Conversions between `&str` / `String` and `Vec<char>`.
//!
//! The text-processing code of this crate works over `Vec<char>`, whose view
//! is the same `Seq<char>` as the view of the string it came from; these
//! helpers cross that boundary.

use vstd::prelude::*;
use vstd::string::StrSliceExecFns;

verus! {

/// Relies on `String::push`: appends the given `char` to the end of the string.
#[verifier::external_body]
pub fn push_char(s: &mut String, c: char)
    ensures
        final(s)@ == old(s)@.push(c),
{
    s.push(c);
}

/// The characters of `s`, in order, as a vector.
pub fn chars_of(s: &str) -> (r: Vec<char>)
    ensures
        r@ == s@,
{
    let n = s.unicode_len();
    let mut r: Vec<char> = Vec::new();
    let mut i: usize = 0;
    while i < n
        invariant
            i <= n,
            n == s@.len(),
            r@ == s@.take(i as int),
        decreases n - i,
    {
        r.push(s.get_char(i));
        i = i + 1;
        assert(r@ =~= s@.take(i as int));
    }
    assert(r@ =~= s@);
    r
}

/// Index of the first occurrence of `pat` in `s` at or after `from`, if any.
pub open spec fn find_at(s: Seq<char>, from: int, pat: Seq<char>) -> Option<int>
    decreases s.len() - from,
{
    if from < 0 || from + pat.len() > s.len() {
        None
    } else if pat.len() == 0 {
        Some(from)
    } else if s.subrange(from, from + pat.len() as int) == pat {
        Some(from)
    } else {
        find_at(s, from + 1, pat)
    }
}

/// What a successful or failed find means, spelled out.
pub proof fn lemma_find_at(s: Seq<char>, from: int, pat: Seq<char>)
    requires
        0 <= from,
    ensures
        find_at(s, from, pat) matches Some(j) ==> {
            &&& from <= j
            &&& j + pat.len() <= s.len()
            &&& s.subrange(j, j + pat.len() as int) == pat
            &&& forall|k: int| from <= k < j ==> #[trigger] s.subrange(k, k + pat.len() as int) != pat
        },
        find_at(s, from, pat) is None ==> forall|k: int|
            from <= k && k + pat.len() <= s.len() ==> #[trigger] s.subrange(k, k + pat.len() as int) != pat,
    decreases s.len() - from,
{
    if from + pat.len() <= s.len() && pat.len() > 0 && s.subrange(from, from + pat.len() as int)
        != pat {
        lemma_find_at(s, from + 1, pat);
    }
}

/// True when `pat` occurs in `v` starting exactly at `at`.
pub fn matches_at(v: &Vec<char>, at: usize, pat: &Vec<char>) -> (r: bool)
    requires
        at + pat@.len() <= v@.len(),
    ensures
        r == (v@.subrange(at as int, at + pat@.len() as int) == pat@),
{
    let n = v.len();
    let mut k: usize = 0;
    while k < pat.len()
        invariant
            k <= pat@.len(),
            n == v@.len(),
            at + pat@.len() <= n,
            forall|m: int| 0 <= m < k ==> v@[at + m] == pat@[m],
        decreases pat@.len() - k,
    {
        assert(at + k < v@.len());
        let idx = at + k;
        if v[idx] != pat[k] {
            assert(v@.subrange(at as int, at + pat@.len() as int)[k as int] != pat@[k as int]);
            return false;
        }
        k = k + 1;
    }
    assert(v@.subrange(at as int, at + pat@.len() as int) =~= pat@);
    true
}

/// First occurrence of `pat` in `v` at or after `from`.
pub fn find_pat(v: &Vec<char>, from: usize, pat: &Vec<char>) -> (r: Option<usize>)
    ensures
        match r {
            Some(j) => Some(j as int) == find_at(v@, from as int, pat@),
            None => find_at(v@, from as int, pat@) is None,
        },
{
    if from > v.len() {
        return None;
    }
    if pat.len() == 0 {
        return Some(from);
    }
    if pat.len() > v.len() - from {
        return None;
    }
    let n = v.len();
    let bound = n - pat.len();
    let mut i: usize = from;
    while i <= bound
        invariant
            from <= i,
            n == v@.len(),
            1 <= pat@.len() <= n,
            bound == n - pat@.len(),
            i <= bound + 1,
            find_at(v@, from as int, pat@) == find_at(v@, i as int, pat@),
        decreases bound + 1 - i,
    {
        if matches_at(v, i, pat) {
            return Some(i);
        }
        i = i + 1;
    }
    None
}

/// Index of the first character at or after `from` that is not a space
/// (`s.len()` if all of the rest are spaces).
pub open spec fn skip_spaces(s: Seq<char>, from: int) -> int
    decreases s.len() - from,
{
    if from < 0 || from >= s.len() {
        from
    } else if s[from] == ' ' {
        skip_spaces(s, from + 1)
    } else {
        from
    }
}

/// A space skip stays inside the string and lands on a non-space.
pub proof fn lemma_skip_spaces(s: Seq<char>, from: int)
    requires
        0 <= from <= s.len(),
    ensures
        from <= skip_spaces(s, from) <= s.len(),
        skip_spaces(s, from) < s.len() ==> s[skip_spaces(s, from)] != ' ',
    decreases s.len() - from,
{
    if from < s.len() && s[from] == ' ' {
        lemma_skip_spaces(s, from + 1);
    }
}

/// Executable space skip.
pub fn skip_spaces_exec(v: &Vec<char>, from: usize) -> (r: usize)
    requires
        from <= v@.len(),
    ensures
        r as int == skip_spaces(v@, from as int),
        from <= r <= v@.len(),
{
    let mut i: usize = from;
    while i < v.len() && v[i] == ' '
        invariant
            from <= i <= v@.len(),
            skip_spaces(v@, from as int) == skip_spaces(v@, i as int),
        decreases v@.len() - i,
    {
        i = i + 1;
    }
    i
}

/// Copy of the characters `v[a..b]`.
pub fn copy_range(v: &Vec<char>, a: usize, b: usize) -> (r: Vec<char>)
    requires
        a <= b <= v@.len(),
    ensures
        r@ == v@.subrange(a as int, b as int),
{
    let mut r: Vec<char> = Vec::new();
    let mut i: usize = a;
    while i < b
        invariant
            a <= i <= b <= v@.len(),
            r@ == v@.subrange(a as int, i as int),
        decreases b - i,
    {
        r.push(v[i]);
        i = i + 1;
        assert(r@ =~= v@.subrange(a as int, i as int));
    }
    r
}

/// Append the characters `v[a..b]` to `out`.
pub fn append_range(out: &mut Vec<char>, v: &Vec<char>, a: usize, b: usize)
    requires
        a <= b <= v@.len(),
    ensures
        final(out)@ == old(out)@ + v@.subrange(a as int, b as int),
{
    let mut i: usize = a;
    while i < b
        invariant
            a <= i <= b <= v@.len(),
            out@ == old(out)@ + v@.subrange(a as int, i as int),
        decreases b - i,
    {
        out.push(v[i]);
        i = i + 1;
        assert(out@ =~= old(out)@ + v@.subrange(a as int, i as int));
    }
    assert(out@ =~= old(out)@ + v@.subrange(a as int, b as int));
}

/// Whether `c` occurs among the characters `v[a..b]`.
pub fn contains_char_range(v: &Vec<char>, a: usize, b: usize, c: char) -> (r: bool)
    requires
        a <= b <= v@.len(),
    ensures
        r == v@.subrange(a as int, b as int).contains(c),
{
    let ghost sub = v@.subrange(a as int, b as int);
    let mut i: usize = a;
    while i < b
        invariant
            a <= i <= b <= v@.len(),
            sub == v@.subrange(a as int, b as int),
            forall|k: int| 0 <= k < i - a ==> sub[k] != c,
        decreases b - i,
    {
        if v[i] == c {
            assert(sub[i - a] == c);
            return true;
        }
        i = i + 1;
    }
    assert(!sub.contains(c));
    false
}

/// A `String` holding exactly the characters of `v`, in order.
pub fn string_from_chars(v: &Vec<char>) -> (r: String)
    ensures
        r@ == v@,
{
    let mut r = String::new();
    let mut i: usize = 0;
    while i < v.len()
        invariant
            i <= v.len(),
            r@ == v@.take(i as int),
        decreases v.len() - i,
    {
        push_char(&mut r, v[i]);
        i = i + 1;
        assert(r@ =~= v@.take(i as int));
    }
    assert(r@ =~= v@);
    r
}

} // verus!
