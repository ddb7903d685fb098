//! Patch notes and their version keys.
//!
//! The upstream feed maps version numbers to change lists; the newest version
//! is the lexicographically largest key.

use vstd::prelude::*;
use vstd::string::StrSliceExecFns;
use crate::strutil::chars_of;

verus! {

/// Changes to one hero: either per-ability lists or one flat list.
#[derive(Debug)]
pub enum Hero {
    Hero(Vec<(String, Vec<String>)>),
    Misc(Vec<String>),
}

/// The changes of one version.
#[derive(Debug)]
pub struct Version {
    pub general: Vec<String>,
    pub items: Vec<(String, Vec<String>)>,
    pub heroes: Vec<(String, Hero)>,
}

/// All downloaded patch notes, keyed by version number.
#[derive(Debug)]
pub struct PatchNotes {
    pub versions: Vec<(String, Version)>,
}

/// Lexicographic order on text, by code point, with a prefix before its
/// extensions.
pub open spec fn str_le(a: Seq<char>, b: Seq<char>) -> bool
    decreases a.len(),
{
    if a.len() == 0 {
        true
    } else if b.len() == 0 {
        false
    } else if a[0] == b[0] {
        str_le(a.drop_first(), b.drop_first())
    } else {
        (a[0] as u32) < (b[0] as u32)
    }
}

/// Any two texts are ordered one way or the other.
pub proof fn lemma_str_le_total(a: Seq<char>, b: Seq<char>)
    ensures
        str_le(a, b) || str_le(b, a),
    decreases a.len(),
{
    if a.len() > 0 && b.len() > 0 {
        if a[0] == b[0] {
            lemma_str_le_total(a.drop_first(), b.drop_first());
        } else {
            assert((a[0] as u32) != (b[0] as u32)) by {
                vstd::utf8::char_u32_cast(a[0], a[0] as u32);
                vstd::utf8::char_u32_cast(b[0], b[0] as u32);
            }
        }
    }
}

/// The order chains.
pub proof fn lemma_str_le_trans(a: Seq<char>, b: Seq<char>, c: Seq<char>)
    requires
        str_le(a, b),
        str_le(b, c),
    ensures
        str_le(a, c),
    decreases a.len(),
{
    if a.len() > 0 && b.len() > 0 && c.len() > 0 {
        if a[0] == b[0] && b[0] == c[0] {
            lemma_str_le_trans(a.drop_first(), b.drop_first(), c.drop_first());
        }
    }
}

/// Whether `a` comes no later than `b`.
fn str_le_exec(a: &String, b: &String) -> (r: bool)
    ensures
        r == str_le(a@, b@),
{
    let av = chars_of(a.as_str());
    let bv = chars_of(b.as_str());
    let mut i: usize = 0;
    proof {
        assert(av@.skip(0) =~= av@);
        assert(bv@.skip(0) =~= bv@);
    }
    while i < av.len() && i < bv.len()
        invariant
            i <= av@.len(),
            i <= bv@.len(),
            av@ == a@,
            bv@ == b@,
            str_le(a@, b@) == str_le(av@.skip(i as int), bv@.skip(i as int)),
        decreases av@.len() - i,
    {
        let x = av[i];
        let y = bv[i];
        if x != y {
            proof {
                assert(av@.skip(i as int)[0] == x);
                assert(bv@.skip(i as int)[0] == y);
            }
            return (x as u32) < (y as u32);
        }
        i = i + 1;
        proof {
            assert(av@.skip(i - 1).drop_first() =~= av@.skip(i as int));
            assert(bv@.skip(i - 1).drop_first() =~= bv@.skip(i as int));
            assert(av@.skip(i - 1)[0] == bv@.skip(i - 1)[0]);
        }
    }
    let r = i >= av.len();
    proof {
        if i >= av@.len() {
            assert(av@.skip(i as int).len() == 0);
        } else {
            assert(bv@.skip(i as int).len() == 0);
            assert(av@.skip(i as int).len() > 0);
        }
    }
    r
}

impl PatchNotes {
    /// The latest version among the downloaded patch notes: the largest key,
    /// or nothing when no notes are held.
    pub fn get_latest_version(&self) -> (r: Option<String>)
        ensures
            r is Some <==> self.versions@.len() > 0,
            r matches Some(v) ==> {
                &&& exists|i: int|
                    0 <= i < self.versions@.len() && (#[trigger] self.versions@[i]).0@ == v@
                &&& forall|j: int|
                    0 <= j < self.versions@.len() ==> str_le((#[trigger] self.versions@[j]).0@, v@)
            },
    {
        if self.versions.len() == 0 {
            return None;
        }
        let mut best = self.versions[0].0.clone();
        proof {
            assert(self.versions@[0].0@ == best@);
            lemma_str_le_total(best@, best@);
        }
        let mut i: usize = 1;
        while i < self.versions.len()
            invariant
                1 <= i <= self.versions@.len(),
                exists|k: int|
                    0 <= k < self.versions@.len() && (#[trigger] self.versions@[k]).0@ == best@,
                forall|j: int| 0 <= j < i ==> str_le((#[trigger] self.versions@[j]).0@, best@),
            decreases self.versions@.len() - i,
        {
            let cand = &self.versions[i].0;
            if str_le_exec(&best, cand) {
                let ghost old_best = best@;
                best = cand.clone();
                proof {
                    assert forall|j: int| 0 <= j < i + 1 implies str_le(
                        (#[trigger] self.versions@[j]).0@,
                        best@,
                    ) by {
                        if j < i {
                            lemma_str_le_trans(self.versions@[j].0@, old_best, best@);
                        } else {
                            lemma_str_le_total(best@, best@);
                        }
                    }
                }
            } else {
                proof {
                    lemma_str_le_total(best@, cand@);
                }
            }
            i = i + 1;
        }
        Some(best)
    }
}

} // verus!
