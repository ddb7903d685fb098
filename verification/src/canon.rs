//! Text canonicalizer.
//!
//! `process_text` turns an utterance or a query into its lookup key: letters
//! are lowercased, every character that is not a lowercase ASCII letter or a
//! digit becomes a separator, runs of separators collapse to one space, and
//! leading and trailing separators vanish. Both ingestion and query use this
//! one function, so equal keys mean equal canonical text.

use vstd::prelude::*;
use crate::strutil::{chars_of, string_from_chars};

verus! {

/// A character that may appear in a canonical key besides the space.
pub open spec fn is_lower_alnum(c: char) -> bool {
    ('a' as u32) <= (c as u32) && (c as u32) <= ('z' as u32)
        || ('0' as u32) <= (c as u32) && (c as u32) <= ('9' as u32)
}

/// ASCII lowercasing; other characters are unchanged.
pub open spec fn to_lower(c: char) -> char {
    if ('A' as u32) <= (c as u32) && (c as u32) <= ('Z' as u32) {
        ((c as u32) + 32) as char
    } else {
        c
    }
}

/// Per-character canonicalization: keep lowercase alphanumerics (lowercasing
/// letters first), turn everything else into a space.
pub open spec fn canon_char(c: char) -> char {
    let l = to_lower(c);
    if is_lower_alnum(l) {
        l
    } else {
        ' '
    }
}

/// `s` with every character canonicalized, before space collapsing.
pub open spec fn mapped(s: Seq<char>) -> Seq<char> {
    s.map_values(|c: char| canon_char(c))
}

/// The first `i` characters of `s` with runs of spaces collapsed to one and
/// leading spaces dropped; at most one trailing space remains.
pub open spec fn collapse_pre(s: Seq<char>, i: int) -> Seq<char>
    decreases i,
{
    if i <= 0 {
        Seq::empty()
    } else {
        let prev = collapse_pre(s, i - 1);
        let c = s[i - 1];
        if c != ' ' {
            prev.push(c)
        } else if prev.len() == 0 || prev.last() == ' ' {
            prev
        } else {
            prev.push(' ')
        }
    }
}

/// `s` with space runs collapsed and leading/trailing spaces removed.
pub open spec fn norm_spaces(s: Seq<char>) -> Seq<char> {
    let c = collapse_pre(s, s.len() as int);
    if c.len() > 0 && c.last() == ' ' {
        c.drop_last()
    } else {
        c
    }
}

/// The canonical key of `s`.
pub open spec fn canon_spec(s: Seq<char>) -> Seq<char> {
    norm_spaces(mapped(s))
}

/// Shape of a canonical key: only lowercase alphanumerics and single interior
/// spaces, no leading or trailing space.
pub open spec fn is_canonical(s: Seq<char>) -> bool {
    &&& forall|i: int| 0 <= i < s.len() ==> is_lower_alnum(#[trigger] s[i]) || s[i] == ' '
    &&& s.len() > 0 ==> s[0] != ' ' && s.last() != ' '
    &&& forall|i: int| 0 <= i < s.len() - 1 ==> !(#[trigger] s[i] == ' ' && s[i + 1] == ' ')
}

/// Executable form of `to_lower`.
pub fn to_lower_exec(c: char) -> (r: char)
    ensures
        r == to_lower(c),
{
    let u = c as u32;
    if 65 <= u && u <= 90 {
        let b = c as u8;
        let l = (b + 32) as char;
        assert(l == to_lower(c));
        l
    } else {
        c
    }
}

/// Executable form of `canon_char`.
fn canon_char_exec(c: char) -> (r: char)
    ensures
        r == canon_char(c),
{
    let u = c as u32;
    if 65 <= u && u <= 90 {
        // uppercase ASCII letter
        let b = c as u8;
        let l = (b + 32) as char;
        assert(l == to_lower(c));
        l
    } else if 97 <= u && u <= 122 || 48 <= u && u <= 57 {
        c
    } else {
        ' '
    }
}

/// Canonicalize `text` into its lookup key: lowercase the letters, keep
/// alphanumerics, replace every other character with a space, collapse runs of
/// spaces, and trim the ends.
pub fn process_text(text: &str) -> (r: String)
    ensures
        r@ == canon_spec(text@),
        is_canonical(r@),
{
    let chars = chars_of(text);
    let ghost m = mapped(text@);
    proof {
        assert(m.len() == text@.len());
    }
    let mut out: Vec<char> = Vec::new();
    let mut i: usize = 0;
    while i < chars.len()
        invariant
            i <= chars.len(),
            chars@ == text@,
            m == mapped(text@),
            out@ == collapse_pre(m, i as int),
        decreases chars.len() - i,
    {
        let k = canon_char_exec(chars[i]);
        proof {
            assert(m[i as int] == canon_char(text@[i as int]));
        }
        if k != ' ' {
            out.push(k);
        } else if out.len() > 0 && out[out.len() - 1] != ' ' {
            out.push(' ');
        }
        i = i + 1;
    }
    proof {
        assert(out@ == collapse_pre(m, m.len() as int));
    }
    if out.len() > 0 && out[out.len() - 1] == ' ' {
        out.pop();
        proof {
            assert(out@ =~= canon_spec(text@));
        }
    } else {
        proof {
            assert(out@ =~= canon_spec(text@));
        }
    }
    proof {
        lemma_mapped_chars(text@);
        lemma_collapse_canonical(m, m.len() as int);
    }
    string_from_chars(&out)
}

/// Every character of `mapped(s)` is a lowercase alphanumeric or a space.
proof fn lemma_mapped_chars(s: Seq<char>)
    ensures
        forall|i: int| 0 <= i < mapped(s).len() ==> is_lower_alnum(#[trigger] mapped(s)[i]) || mapped(s)[i] == ' ',
{
}

/// If every character of `s` is alphanumeric-or-space, `norm_spaces(s)` is
/// canonical. Proved by showing the collapse never emits a bad character,
/// never starts with a space, and never doubles a space.
proof fn lemma_collapse_canonical(s: Seq<char>, i: int)
    requires
        0 <= i <= s.len(),
        forall|j: int| 0 <= j < s.len() ==> is_lower_alnum(#[trigger] s[j]) || s[j] == ' ',
    ensures
        forall|j: int| 0 <= j < collapse_pre(s, i).len()
            ==> is_lower_alnum(#[trigger] collapse_pre(s, i)[j]) || collapse_pre(s, i)[j] == ' ',
        collapse_pre(s, i).len() > 0 ==> collapse_pre(s, i)[0] != ' ',
        forall|j: int| 0 <= j < collapse_pre(s, i).len() - 1
            ==> !(#[trigger] collapse_pre(s, i)[j] == ' ' && collapse_pre(s, i)[j + 1] == ' '),
        i == s.len() ==> is_canonical(norm_spaces(s)),
    decreases i,
{
    if i > 0 {
        lemma_collapse_canonical(s, i - 1);
    }
}

/// Canonical keys are canonical in shape.
pub proof fn lemma_canon_shape(s: Seq<char>)
    ensures
        is_canonical(canon_spec(s)),
{
    lemma_mapped_chars(s);
    lemma_collapse_canonical(mapped(s), mapped(s).len() as int);
}

/// Canonicalizing a canonical string changes nothing in the per-character pass.
proof fn lemma_mapped_id(s: Seq<char>)
    requires
        is_canonical(s),
    ensures
        mapped(s) =~= s,
{
    assert forall|i: int| 0 <= i < s.len() implies mapped(s)[i] == s[i] by {
        assert(is_lower_alnum(s[i]) || s[i] == ' ');
    }
}

/// Collapsing spaces in an already-canonical string changes nothing.
proof fn lemma_collapse_id(s: Seq<char>, i: int)
    requires
        is_canonical(s),
        0 <= i <= s.len(),
    ensures
        collapse_pre(s, i) =~= s.take(i),
    decreases i,
{
    if i > 0 {
        lemma_collapse_id(s, i - 1);
        if s[i - 1] == ' ' {
            assert(s[0] != ' ');
            assert(i - 1 >= 1);
            assert(!(s[i - 2] == ' ' && s[i - 1] == ' '));
            assert(s.take(i - 1).last() == s[i - 2]);
        }
    }
}

/// The canonicalizer is idempotent: canonicalizing a canonical key returns it
/// unchanged, so `canon_spec(canon_spec(x)) == canon_spec(x)` for every input.
pub proof fn lemma_canon_idempotent(s: Seq<char>)
    ensures
        canon_spec(canon_spec(s)) == canon_spec(s),
{
    let y = canon_spec(s);
    lemma_canon_shape(s);
    lemma_mapped_id(y);
    lemma_collapse_id(y, y.len() as int);
    assert(collapse_pre(mapped(y), mapped(y).len() as int) =~= y);
    if y.len() > 0 {
        assert(y.last() != ' ');
    }
    assert(canon_spec(y) =~= y);
}

} // verus!
