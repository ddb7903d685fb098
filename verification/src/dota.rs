//! Game-level state: the current source version, the downloaded patch notes,
//! and the response store, with the version arithmetic used to probe for
//! newer patches.

use vstd::prelude::*;
use vstd::string::StrSliceExecFns;
use crate::patch_notes::Version;
use crate::response::ResponseDatabase;
use crate::strutil::{append_range, chars_of, find_at, find_pat, string_from_chars};

verus! {

/// An ASCII decimal digit.
pub open spec fn is_digit_char(c: char) -> bool {
    48 <= (c as u32) <= 57
}

/// Numeric value of one digit character.
pub open spec fn digit_val(c: char) -> int {
    (c as u32) - 48
}

/// Numeric value of a digit string.
pub open spec fn digits_val(s: Seq<char>) -> int
    decreases s.len(),
{
    if s.len() == 0 {
        0
    } else {
        digits_val(s.drop_last()) * 10 + digit_val(s.last())
    }
}

/// The digit character of one value below ten.
pub open spec fn digit_of(d: int) -> char {
    ((48 + d) as u32) as char
}

/// Decimal digits of `n`, most significant first.
pub open spec fn dec_digits(n: int) -> Seq<char>
    decreases n,
    when n >= 0
{
    if n < 10 {
        seq![digit_of(n)]
    } else {
        dec_digits(n / 10).push(digit_of(n % 10))
    }
}

/// Ten to the `n`.
pub open spec fn pow10(n: nat) -> int
    decreases n,
{
    if n == 0 {
        1
    } else {
        10 * pow10((n - 1) as nat)
    }
}

/// A digit string's value is bounded by ten to its length.
proof fn lemma_digits_val_bound(s: Seq<char>)
    requires
        forall|k: int| 0 <= k < s.len() ==> is_digit_char(#[trigger] s[k]),
    ensures
        0 <= digits_val(s) < pow10(s.len()),
    decreases s.len(),
{
    if s.len() > 0 {
        lemma_digits_val_bound(s.drop_last());
    }
}

/// Code point of one character.
fn char_code(c: char) -> (r: u32)
    ensures
        r == c as u32,
{
    c as u32
}

fn digit_val_exec(c: char) -> (r: u32)
    requires
        is_digit_char(c),
    ensures
        r == digit_val(c),
{
    (c as u32) - 48
}

fn digit_char_exec(d: u32) -> (r: char)
    requires
        d < 10,
    ensures
        r == digit_of(d as int),
{
    let b = d as u8;
    proof {
        assert(b == d);
    }
    let r = (b + 48) as char;
    proof {
        assert(r == digit_of(d as int));
    }
    r
}

/// Numeric value of the digit characters `v[a..b]`.
fn parse_digits(v: &Vec<char>, a: usize, b: usize) -> (r: u32)
    requires
        a <= b <= v@.len(),
        b - a <= 9,
        forall|k: int| a <= k < b ==> is_digit_char(#[trigger] v@[k]),
    ensures
        r as int == digits_val(v@.subrange(a as int, b as int)),
{
    let mut val: u32 = 0;
    let mut i: usize = a;
    proof {
        assert(v@.subrange(a as int, a as int) =~= Seq::<char>::empty());
        assert(pow10((i - a) as nat) == 1);
    }
    while i < b
        invariant
            a <= i <= b <= v@.len(),
            b - a <= 9,
            forall|k: int| a <= k < b ==> is_digit_char(#[trigger] v@[k]),
            val as int == digits_val(v@.subrange(a as int, i as int)),
            val < pow10((i - a) as nat),
        decreases b - i,
    {
        proof {
            lemma_pow10_bound((i - a) as nat);
        }
        let d = digit_val_exec(v[i]);
        val = val * 10 + d;
        i = i + 1;
        proof {
            assert(v@.subrange(a as int, i as int).drop_last() =~= v@.subrange(a as int, i - 1));
            assert(v@.subrange(a as int, i as int).last() == v@[i - 1]);
        }
    }
    val
}

/// Ten to anything is positive.
proof fn lemma_pow10_pos(n: nat)
    ensures
        pow10(n) >= 1,
    decreases n,
{
    if n > 0 {
        lemma_pow10_pos((n - 1) as nat);
    }
}

/// Ten to a power grows with the power.
proof fn lemma_pow10_le(n: nat, m: nat)
    requires
        n <= m,
    ensures
        pow10(n) <= pow10(m),
    decreases m,
{
    if n < m {
        lemma_pow10_le(n, (m - 1) as nat);
        lemma_pow10_pos((m - 1) as nat);
    }
}

/// The two powers of ten the digit bounds rest on.
proof fn lemma_pow10_values()
    ensures
        pow10(8) == 100000000,
        pow10(9) == 1000000000,
{
    reveal_with_fuel(pow10, 10);
}

/// Ten to any count of digits that fits one value is below the type's limit.
proof fn lemma_pow10_bound(n: nat)
    requires
        n <= 8,
    ensures
        1 <= pow10(n) <= 100000000,
{
    lemma_pow10_pos(n);
    lemma_pow10_le(n, 8);
    lemma_pow10_values();
}

/// Append the decimal digits of `n` to `out`.
fn push_dec_digits(out: &mut Vec<char>, n: u32)
    ensures
        final(out)@ == old(out)@ + dec_digits(n as int),
    decreases n,
{
    if n < 10 {
        out.push(digit_char_exec(n));
        proof {
            assert(out@ =~= old(out)@ + dec_digits(n as int));
        }
    } else {
        push_dec_digits(out, n / 10);
        out.push(digit_char_exec(n % 10));
        proof {
            assert(out@ =~= old(out)@ + dec_digits(n as int));
        }
    }
}

/// Shape of a version string the probes understand: decimal digits (the major
/// version), an underscore, a digit (the minor version), and at least one
/// more character whose first is plain ASCII (the patch letter).
pub open spec fn version_parts_ok(s: Seq<char>) -> bool {
    match find_at(s, 0, seq!['_']) {
        None => false,
        Some(i) => {
            &&& 1 <= i <= 9
            &&& forall|k: int| 0 <= k < i ==> is_digit_char(#[trigger] s[k])
            &&& i + 3 <= s.len()
            &&& is_digit_char(s[i + 1])
            &&& (s[i + 2] as u32) < 127
        },
    }
}

/// Whether a version string has the shape `possible_next_versions` asks for.
pub fn version_is_well_formed(s: &str) -> (r: bool)
    ensures
        r == version_parts_ok(s@),
{
    let v = chars_of(s);
    let underscore: Vec<char> = vec!['_'];
    proof {
        assert(underscore@ =~= seq!['_']);
    }
    let i = match find_pat(&v, 0, &underscore) {
        Some(i) => i,
        None => {
            return false;
        },
    };
    proof {
        crate::strutil::lemma_find_at(v@, 0, seq!['_']);
    }
    if i < 1 || i > 9 || v.len() < i + 3 {
        return false;
    }
    let mut k: usize = 0;
    while k < i
        invariant
            v@ == s@,
            find_at(s@, 0, seq!['_']) == Some(i as int),
            1 <= i <= 9,
            i + 3 <= v@.len(),
            k <= i < v@.len(),
            forall|m: int| 0 <= m < k ==> is_digit_char(#[trigger] v@[m]),
        decreases i - k,
    {
        let u = char_code(v[k]);
        if u < 48 || u > 57 {
            return false;
        }
        k = k + 1;
    }
    let minor = char_code(v[i + 1]);
    if minor < 48 || minor > 57 {
        return false;
    }
    char_code(v[i + 2]) < 127
}

/// The version with the major number incremented.
pub open spec fn next_major_version(s: Seq<char>) -> Seq<char>
    recommends
        version_parts_ok(s),
{
    let i = find_at(s, 0, seq!['_'])->0;
    dec_digits(digits_val(s.take(i)) + 1) + seq!['_'] + s.skip(i + 1)
}

/// The version with the minor digit incremented.
pub open spec fn next_minor_version(s: Seq<char>) -> Seq<char>
    recommends
        version_parts_ok(s),
{
    let i = find_at(s, 0, seq!['_'])->0;
    s.take(i) + seq!['_'] + dec_digits(digit_val(s[i + 1]) + 1) + s.skip(i + 2)
}

/// The version with the patch letter stepped to its successor; what follows
/// the letter is dropped.
pub open spec fn next_patch_version(s: Seq<char>) -> Seq<char>
    recommends
        version_parts_ok(s),
{
    let i = find_at(s, 0, seq!['_'])->0;
    s.take(i + 2) + seq![(((s[i + 2] as u32) + 1) as char)]
}

fn next_char_exec(c: char) -> (r: char)
    requires
        (c as u32) < 127,
    ensures
        r == (((c as u32) + 1) as char),
{
    let b = c as u8;
    proof {
        assert(b == c as u32);
    }
    let r = (b + 1) as char;
    proof {
        assert(r == (((c as u32) + 1) as char));
    }
    r
}

/// One game's state: its current source version, the downloaded patch notes,
/// and the response store built from that source.
#[derive(Debug)]
pub struct Dota {
    pub version: String,
    pub patch_notes: Vec<(String, Version)>,
    pub responses: ResponseDatabase,
}

impl Dota {
    /// The three version strings that could name the next patch: the major
    /// number, the minor digit, or the patch letter stepped by one.
    pub fn possible_next_versions(&self) -> (r: (String, String, String))
        requires
            version_parts_ok(self.version@),
        ensures
            r.0@ == next_major_version(self.version@),
            r.1@ == next_minor_version(self.version@),
            r.2@ == next_patch_version(self.version@),
    {
        let v = chars_of(self.version.as_str());
        let underscore: Vec<char> = vec!['_'];
        proof {
            assert(underscore@ =~= seq!['_']);
        }
        let i = match find_pat(&v, 0, &underscore) {
            Some(i) => i,
            None => {
                proof {
                    assert(false);
                }
                0
            },
        };
        proof {
            crate::strutil::lemma_find_at(v@, 0, seq!['_']);
            assert(v@.take(i as int) =~= v@.subrange(0, i as int));
        }
        let major_val = parse_digits(&v, 0, i);
        proof {
            lemma_digits_val_bound(v@.subrange(0, i as int));
            lemma_pow10_le(v@.subrange(0, i as int).len() as nat, 9);
            lemma_pow10_values();
        }
        // major bumped: new major digits, underscore, the rest unchanged
        let mut c0: Vec<char> = Vec::new();
        push_dec_digits(&mut c0, major_val + 1);
        c0.push('_');
        append_range(&mut c0, &v, i + 1, v.len());
        proof {
            assert(v@.subrange(i + 1, v@.len() as int) =~= v@.skip(i + 1));
            assert(c0@ =~= next_major_version(self.version@));
        }
        // minor bumped: prefix, underscore, new minor digits, the rest
        let minor = digit_val_exec(v[i + 1]);
        let mut c1: Vec<char> = Vec::new();
        append_range(&mut c1, &v, 0, i);
        c1.push('_');
        push_dec_digits(&mut c1, minor + 1);
        append_range(&mut c1, &v, i + 2, v.len());
        proof {
            assert(v@.subrange(0, i as int) =~= v@.take(i as int));
            assert(v@.subrange(i + 2, v@.len() as int) =~= v@.skip(i + 2));
            assert(c1@ =~= next_minor_version(self.version@));
        }
        // patch letter bumped: everything through the minor digit, then the
        // successor of the patch letter
        let mut c2: Vec<char> = Vec::new();
        append_range(&mut c2, &v, 0, i + 2);
        c2.push(next_char_exec(v[i + 2]));
        proof {
            assert(v@.subrange(0, i + 2) =~= v@.take(i + 2));
            assert(c2@ =~= next_patch_version(self.version@));
        }
        (string_from_chars(&c0), string_from_chars(&c1), string_from_chars(&c2))
    }

    /// Take a freshly fetched latest version and its patch notes: when the
    /// version differs from the current one, adopt both and drop all stored
    /// responses and heroes so the store can be rebuilt; otherwise change
    /// nothing.
    pub fn apply_update(&mut self, latest_version: String, notes: Vec<(String, Version)>)
        requires
            old(self).responses.wf(),
        ensures
            latest_version@ == old(self).version@ ==> *final(self) == *old(self),
            latest_version@ != old(self).version@ ==> {
                &&& final(self).version == latest_version
                &&& final(self).patch_notes == notes
                &&& final(self).responses.responses@.len() == 0
                &&& final(self).responses.heroes@.len() == 0
                &&& final(self).responses.icons == old(self).responses.icons
                &&& final(self).responses.next_hero_id == old(self).responses.next_hero_id
                &&& final(self).responses.next_response_id == old(self).responses.next_response_id
                &&& final(self).responses.wf()
            },
    {
        if !(self.version == latest_version) {
            self.version = latest_version;
            self.patch_notes = notes;
            self.responses.clear_for_rebuild();
        }
    }
}

} // verus!
