//! The response store.
//!
//! Materialized responses and their owners live here. Ids come from two
//! counters owned by the store itself; the store invariant says that every id
//! is unique and that every response belongs to a stored hero. Lookups match
//! the canonical text exactly; when several responses match, one of them is
//! returned at random.

use vstd::prelude::*;
use vstd::string::{StrSliceExecFns, StringExecFns};
use crate::canon::canon_spec;
use crate::random::random_below;
use crate::strutil::{chars_of, copy_range, find_at, find_pat, matches_at, string_from_chars};

verus! {

/// One materialized response: the canonical lookup key, the original text,
/// the resolved audio URL, and the owning hero.
#[derive(Debug, Clone, PartialEq)]
pub struct Response {
    pub id: i32,
    pub processed_text: String,
    pub original_text: String,
    pub response_link: String,
    pub hero_id: i32,
}

impl Response {
    /// A copy with equal fields.
    pub fn duplicate(&self) -> (r: Response)
        ensures
            r == *self,
    {
        Response {
            id: self.id,
            processed_text: self.processed_text.clone(),
            original_text: self.original_text.clone(),
            response_link: self.response_link.clone(),
            hero_id: self.hero_id,
        }
    }
}

/// One owner of responses.
#[derive(Debug)]
pub struct Hero {
    pub id: i32,
    pub hero_name: String,
    pub img_path: String,
}

/// Which game's wiki a page or request belongs to.
#[derive(Debug, Clone, Copy)]
pub enum Game {
    Dota,
    Smite,
}

/// The store: responses, heroes, the icon side table, and the two id
/// counters.
#[derive(Debug)]
pub struct ResponseDatabase {
    pub responses: Vec<Response>,
    pub heroes: Vec<Hero>,
    pub icons: Vec<(String, String)>,
    pub next_hero_id: i32,
    pub next_response_id: i32,
}

/// The image path a hero's record is created with.
pub open spec fn img_path_of(name: Seq<char>) -> Seq<char> {
    "/media/dota2/images/"@ + name + ".png"@
}

/// Whether a stored response answers the given lookup.
pub open spec fn response_matches(r: Response, text: Seq<char>, hero_id: Option<i32>) -> bool {
    &&& r.processed_text@ == text
    &&& match hero_id {
        Some(h) => r.hero_id == h,
        None => true,
    }
}

/// What a lookup returns: a stored matching response when one exists, nothing
/// when none does.
pub open spec fn lookup_post(
    db: ResponseDatabase,
    text: Seq<char>,
    hero_id: Option<i32>,
    r: Option<Response>,
) -> bool {
    match r {
        Some(resp) => {
            &&& exists|i: int| 0 <= i < db.responses@.len() && #[trigger] db.responses@[i] == resp
            &&& response_matches(resp, text, hero_id)
        },
        None => forall|i: int|
            0 <= i < db.responses@.len() ==> !response_matches(
                #[trigger] db.responses@[i],
                text,
                hero_id,
            ),
    }
}

/// A stored response's lookup key is the canonicalizer's output on its
/// original text, and is never empty.
pub open spec fn entry_canonical(r: Response) -> bool {
    r.processed_text@ == canon_spec(r.original_text@) && r.processed_text@.len() > 0
}

/// Whether some stored hero carries the given id.
pub open spec fn hero_id_stored(heroes: Seq<Hero>, hid: i32) -> bool {
    exists|h: int| 0 <= h < heroes.len() && (#[trigger] heroes[h]).id == hid
}

/// First value stored under `key`, if any.
pub open spec fn assoc_lookup(m: Seq<(String, String)>, key: Seq<char>) -> Option<Seq<char>>
    decreases m.len(),
{
    if m.len() == 0 {
        None
    } else if m[0].0@ == key {
        Some(m[0].1@)
    } else {
        assoc_lookup(m.drop_first(), key)
    }
}

impl ResponseDatabase {
    /// The store invariant: both counters bound every stored id, ids are
    /// unique, and every response's `hero_id` names a stored hero.
    pub open spec fn wf(self) -> bool {
        &&& 0 <= self.next_hero_id
        &&& 0 <= self.next_response_id
        &&& forall|i: int|
            0 <= i < self.heroes@.len() ==> 0 <= (#[trigger] self.heroes@[i]).id
                < self.next_hero_id
        &&& forall|i: int, j: int|
            0 <= i < j < self.heroes@.len() ==> (#[trigger] self.heroes@[i]).id != (
            #[trigger] self.heroes@[j]).id
        &&& forall|i: int|
            0 <= i < self.responses@.len() ==> 0 <= (#[trigger] self.responses@[i]).id
                < self.next_response_id
        &&& forall|i: int, j: int|
            0 <= i < j < self.responses@.len() ==> (#[trigger] self.responses@[i]).id != (
            #[trigger] self.responses@[j]).id
        &&& forall|i: int|
            0 <= i < self.responses@.len() ==> hero_id_stored(
                self.heroes@,
                (#[trigger] self.responses@[i]).hero_id,
            )
        &&& forall|i: int|
            0 <= i < self.responses@.len() ==> entry_canonical(#[trigger] self.responses@[i])
    }

    /// An empty store.
    pub fn new() -> (r: ResponseDatabase)
        ensures
            r.wf(),
            r.responses@.len() == 0,
            r.heroes@.len() == 0,
            r.icons@.len() == 0,
            r.next_hero_id == 0,
            r.next_response_id == 0,
    {
        ResponseDatabase {
            responses: Vec::new(),
            heroes: Vec::new(),
            icons: Vec::new(),
            next_hero_id: 0,
            next_response_id: 0,
        }
    }

    /// Insert one hero and all of its responses. The hero takes the next hero
    /// id; its responses take consecutive response ids, each carrying the
    /// hero's id and the given (original text, canonical text, URL) triple.
    /// Each triple's canonical text must be the canonical form of its original
    /// text and non-empty, as `materialize_responses` produces them.
    pub fn add_hero_and_responses(
        &mut self,
        hero_name: String,
        responses: Vec<(String, String, String)>,
    )
        requires
            old(self).wf(),
            old(self).next_hero_id < i32::MAX,
            old(self).next_response_id + responses@.len() <= i32::MAX,
            forall|k: int|
                0 <= k < responses@.len() ==> ((#[trigger] responses@[k]).1@ == canon_spec(
                    responses@[k].0@,
                ) && responses@[k].1@.len() > 0),
        ensures
            final(self).wf(),
            final(self).heroes@.len() == old(self).heroes@.len() + 1,
            final(self).heroes@.take(old(self).heroes@.len() as int) == old(self).heroes@,
            final(self).heroes@.last().id == old(self).next_hero_id,
            final(self).heroes@.last().hero_name == hero_name,
            final(self).heroes@.last().img_path@ == img_path_of(hero_name@),
            final(self).responses@.len() == old(self).responses@.len() + responses@.len(),
            final(self).responses@.take(old(self).responses@.len() as int) == old(
                self,
            ).responses@,
            forall|k: int|
                0 <= k < responses@.len() ==> final(self).responses@[old(self).responses@.len()
                    + k] == (Response {
                    id: (old(self).next_response_id + k) as i32,
                    original_text: responses@[k].0,
                    processed_text: responses@[k].1,
                    response_link: responses@[k].2,
                    hero_id: old(self).next_hero_id,
                }),
            final(self).next_hero_id == old(self).next_hero_id + 1,
            final(self).next_response_id == old(self).next_response_id + responses@.len(),
            final(self).icons == old(self).icons,
    {
        let hero_id = self.next_hero_id;
        let img_path = String::from_str("/media/dota2/images/").concat(hero_name.as_str()).concat(
            ".png",
        );
        proof {
            assert(img_path@ =~= img_path_of(hero_name@));
        }
        let hero = Hero { id: hero_id, hero_name, img_path };
        self.heroes.push(hero);
        let ghost heroes_after = self.heroes@;
        proof {
            assert(heroes_after.take(old(self).heroes@.len() as int) =~= old(self).heroes@);
        }
        let mut k: usize = 0;
        let ghost old_responses = self.responses@;
        let ghost base_id = self.next_response_id as int;
        while k < responses.len()
            invariant
                k <= responses@.len(),
                base_id + responses@.len() <= i32::MAX,
                0 <= base_id,
                self.next_response_id == base_id + k,
                self.heroes@ == heroes_after,
                self.icons == old(self).icons,
                self.next_hero_id == old(self).next_hero_id,
                old(self).next_hero_id < i32::MAX,
                hero_id == old(self).next_hero_id,
                self.responses@.len() == old_responses.len() + k,
                self.responses@.take(old_responses.len() as int) == old_responses,
                forall|m: int|
                    0 <= m < k ==> self.responses@[old_responses.len() + m] == (Response {
                        id: (base_id + m) as i32,
                        original_text: responses@[m].0,
                        processed_text: responses@[m].1,
                        response_link: responses@[m].2,
                        hero_id: hero_id,
                    }),
            decreases responses@.len() - k,
        {
            let original_text = responses[k].0.clone();
            let processed_text = responses[k].1.clone();
            let response_link = responses[k].2.clone();
            let resp = Response {
                id: self.next_response_id,
                processed_text,
                original_text,
                response_link,
                hero_id,
            };
            self.responses.push(resp);
            self.next_response_id = self.next_response_id + 1;
            k = k + 1;
            proof {
                assert(self.responses@.take(old_responses.len() as int) =~= old_responses);
            }
        }
        self.next_hero_id = self.next_hero_id + 1;
        proof {
            assert forall|k: int| 0 <= k < responses@.len() implies (
            #[trigger] self.responses@[old(self).responses@.len() + k]).id == old(
                self,
            ).next_response_id + k && self.responses@[old(self).responses@.len() + k].hero_id
                == old(self).next_hero_id by {
                assert(self.responses@[old_responses.len() + k] == (Response {
                    id: (base_id + k) as i32,
                    original_text: responses@[k].0,
                    processed_text: responses@[k].1,
                    response_link: responses@[k].2,
                    hero_id: hero_id,
                }));
            }
            assert forall|k: int| 0 <= k < responses@.len() implies entry_canonical(
                #[trigger] self.responses@[old(self).responses@.len() + k],
            ) by {
                assert(self.responses@[old_responses.len() + k] == (Response {
                    id: (base_id + k) as i32,
                    original_text: responses@[k].0,
                    processed_text: responses@[k].1,
                    response_link: responses@[k].2,
                    hero_id: hero_id,
                }));
                assert(responses@[k].1@ == canon_spec(responses@[k].0@));
            }
            lemma_add_preserves_wf(*old(self), *self, responses@.len() as int);
        }
    }

    /// The id of some hero with the given name, if one is stored.
    pub fn get_hero_id(&self, name: &str) -> (r: Option<i32>)
        ensures
            match r {
                Some(id) => exists|i: int|
                    0 <= i < self.heroes@.len() && (#[trigger] self.heroes@[i]).hero_name@ == name@
                        && self.heroes@[i].id == id,
                None => forall|i: int|
                    0 <= i < self.heroes@.len() ==> (#[trigger] self.heroes@[i]).hero_name@
                        != name@,
            },
    {
        let q = String::from_str(name);
        let mut i: usize = 0;
        while i < self.heroes.len()
            invariant
                i <= self.heroes@.len(),
                q@ == name@,
                forall|j: int|
                    0 <= j < i ==> (#[trigger] self.heroes@[j]).hero_name@ != name@,
            decreases self.heroes@.len() - i,
        {
            if self.heroes[i].hero_name == q {
                return Some(self.heroes[i].id);
            }
            i = i + 1;
        }
        None
    }

    /// The name of the hero with the given id, if one is stored.
    pub fn get_hero_name(&self, id: i32) -> (r: Option<String>)
        ensures
            match r {
                Some(n) => exists|i: int|
                    0 <= i < self.heroes@.len() && (#[trigger] self.heroes@[i]).id == id
                        && self.heroes@[i].hero_name@ == n@,
                None => forall|i: int|
                    0 <= i < self.heroes@.len() ==> (#[trigger] self.heroes@[i]).id != id,
            },
    {
        let mut i: usize = 0;
        while i < self.heroes.len()
            invariant
                i <= self.heroes@.len(),
                forall|j: int| 0 <= j < i ==> (#[trigger] self.heroes@[j]).id != id,
            decreases self.heroes@.len() - i,
        {
            if self.heroes[i].id == id {
                return Some(self.heroes[i].hero_name.clone());
            }
            i = i + 1;
        }
        None
    }

    /// The image path of the hero with the given id, if one is stored.
    pub fn get_img_dir(&self, id: i32) -> (r: Option<String>)
        ensures
            match r {
                Some(p) => exists|i: int|
                    0 <= i < self.heroes@.len() && (#[trigger] self.heroes@[i]).id == id
                        && self.heroes@[i].img_path@ == p@,
                None => forall|i: int|
                    0 <= i < self.heroes@.len() ==> (#[trigger] self.heroes@[i]).id != id,
            },
    {
        let mut i: usize = 0;
        while i < self.heroes.len()
            invariant
                i <= self.heroes@.len(),
                forall|j: int| 0 <= j < i ==> (#[trigger] self.heroes@[j]).id != id,
            decreases self.heroes@.len() - i,
        {
            if self.heroes[i].id == id {
                return Some(self.heroes[i].img_path.clone());
            }
            i = i + 1;
        }
        None
    }

    /// The names of all stored heroes, in insertion order.
    pub fn get_all_hero_names(&self) -> (r: Vec<String>)
        ensures
            r@.map_values(|s: String| s@) == self.heroes@.map_values(|h: Hero| h.hero_name@),
    {
        let mut r: Vec<String> = Vec::new();
        let mut i: usize = 0;
        while i < self.heroes.len()
            invariant
                i <= self.heroes@.len(),
                r@.map_values(|s: String| s@) == self.heroes@.take(i as int).map_values(
                    |h: Hero| h.hero_name@,
                ),
            decreases self.heroes@.len() - i,
        {
            let ghost prev = r@;
            let n = self.heroes[i].hero_name.clone();
            let ghost nv = n@;
            r.push(n);
            i = i + 1;
            proof {
                let f = |s: String| s@;
                let g = |h: Hero| h.hero_name@;
                assert(r@.map_values(f) =~= prev.map_values(f).push(nv));
                assert(self.heroes@.take(i as int).map_values(g) =~= self.heroes@.take(
                    i - 1,
                ).map_values(g).push(self.heroes@[i - 1].hero_name@));
                assert(r@.map_values(f) =~= self.heroes@.take(i as int).map_values(g));
            }
        }
        proof {
            assert(self.heroes@.take(self.heroes@.len() as int) =~= self.heroes@);
        }
        r
    }

    /// One stored response whose canonical text equals `processed_text` and,
    /// when `hero_id` is given, whose owner matches too; chosen at random
    /// among all such responses, or nothing when none matches.
    pub fn get_response(&self, processed_text: &str, hero_id: Option<i32>) -> (r: Option<
        Response,
    >)
        ensures
            lookup_post(*self, processed_text@, hero_id, r),
    {
        let q = String::from_str(processed_text);
        let mut idxs: Vec<usize> = Vec::new();
        let mut i: usize = 0;
        while i < self.responses.len()
            invariant
                i <= self.responses@.len(),
                q@ == processed_text@,
                forall|k: int|
                    0 <= k < idxs@.len() ==> (#[trigger] idxs@[k]) < self.responses@.len()
                        && response_matches(
                        self.responses@[idxs@[k] as int],
                        processed_text@,
                        hero_id,
                    ),
                idxs@.len() == 0 ==> forall|j: int|
                    0 <= j < i ==> !response_matches(
                        #[trigger] self.responses@[j],
                        processed_text@,
                        hero_id,
                    ),
            decreases self.responses@.len() - i,
    {
            let matches_text = self.responses[i].processed_text == q;
            let matches_hero = match hero_id {
                Some(h) => self.responses[i].hero_id == h,
                None => true,
            };
            if matches_text && matches_hero {
                idxs.push(i);
            }
            i = i + 1;
        }
        if idxs.len() == 0 {
            None
        } else {
            let pick = random_below(idxs.len());
            let idx = idxs[pick];
            Some(self.responses[idx].duplicate())
        }
    }

    /// The icon URL stored under the given normalized name, if any.
    pub fn get_icon_url(&self, name: &str) -> (r: Option<String>)
        ensures
            match r {
                Some(u) => assoc_lookup(self.icons@, name@) == Some(u@),
                None => assoc_lookup(self.icons@, name@) is None,
            },
    {
        let q = String::from_str(name);
        let mut i: usize = 0;
        proof {
            assert(self.icons@.skip(0) =~= self.icons@);
        }
        while i < self.icons.len()
            invariant
                i <= self.icons@.len(),
                q@ == name@,
                assoc_lookup(self.icons@, name@) == assoc_lookup(
                    self.icons@.skip(i as int),
                    name@,
                ),
            decreases self.icons@.len() - i,
        {
            if self.icons[i].0 == q {
                proof {
                    assert(self.icons@.skip(i as int)[0] == self.icons@[i as int]);
                }
                return Some(self.icons[i].1.clone());
            }
            i = i + 1;
            proof {
                assert(self.icons@.skip(i - 1).drop_first() =~= self.icons@.skip(i as int));
            }
        }
        proof {
            assert(self.icons@.skip(i as int).len() == 0);
        }
        None
    }

    /// Whether any stored response has the given canonical text.
    pub fn is_hero_response(&self, processed_text: &str) -> (r: bool)
        ensures
            r == exists|i: int|
                0 <= i < self.responses@.len() && (#[trigger] self.responses@[i]).processed_text@
                    == processed_text@,
    {
        let q = String::from_str(processed_text);
        let mut i: usize = 0;
        while i < self.responses.len()
            invariant
                i <= self.responses@.len(),
                q@ == processed_text@,
                forall|j: int|
                    0 <= j < i ==> (#[trigger] self.responses@[j]).processed_text@
                        != processed_text@,
            decreases self.responses@.len() - i,
        {
            if self.responses[i].processed_text == q {
                return true;
            }
            i = i + 1;
        }
        false
    }

    /// Replace the icon side table wholesale.
    pub fn set_icons(&mut self, icons: Vec<(String, String)>)
        requires
            old(self).wf(),
        ensures
            final(self).wf(),
            final(self).icons == icons,
            final(self).responses == old(self).responses,
            final(self).heroes == old(self).heroes,
            final(self).next_hero_id == old(self).next_hero_id,
            final(self).next_response_id == old(self).next_response_id,
    {
        self.icons = icons;
        proof {
            lemma_wf_same_entries(*old(self), *self);
        }
    }

    /// Drop all responses and heroes for a full rebuild; the icon table and
    /// the id counters survive, so rebuilt entries get fresh ids.
    pub fn clear_for_rebuild(&mut self)
        requires
            old(self).wf(),
        ensures
            final(self).wf(),
            final(self).responses@.len() == 0,
            final(self).heroes@.len() == 0,
            final(self).icons == old(self).icons,
            final(self).next_hero_id == old(self).next_hero_id,
            final(self).next_response_id == old(self).next_response_id,
    {
        self.responses = Vec::new();
        self.heroes = Vec::new();
    }
}

/// Inserting a hero and its responses preserves the store invariant.
proof fn lemma_add_preserves_wf(pre: ResponseDatabase, post: ResponseDatabase, n: int)
    requires
        pre.wf(),
        0 <= n,
        pre.next_hero_id < i32::MAX,
        pre.next_response_id + n <= i32::MAX,
        post.heroes@.len() == pre.heroes@.len() + 1,
        post.heroes@.take(pre.heroes@.len() as int) == pre.heroes@,
        post.heroes@.last().id == pre.next_hero_id,
        post.responses@.len() == pre.responses@.len() + n,
        post.responses@.take(pre.responses@.len() as int) == pre.responses@,
        forall|k: int|
            0 <= k < n ==> (#[trigger] post.responses@[pre.responses@.len() + k]).id
                == pre.next_response_id + k && post.responses@[pre.responses@.len() + k].hero_id
                == pre.next_hero_id,
        forall|k: int|
            0 <= k < n ==> entry_canonical(#[trigger] post.responses@[pre.responses@.len() + k]),
        post.next_hero_id == pre.next_hero_id + 1,
        post.next_response_id == pre.next_response_id + n,
    ensures
        post.wf(),
{
    assert forall|i: int| 0 <= i < post.responses@.len() implies entry_canonical(
        #[trigger] post.responses@[i],
    ) by {
        if i < pre.responses@.len() {
            assert(post.responses@.take(pre.responses@.len() as int)[i] == post.responses@[i]);
            assert(post.responses@[i] == pre.responses@[i]);
        } else {
            let k = i - pre.responses@.len();
            assert(entry_canonical(post.responses@[pre.responses@.len() + k]));
        }
    }
    assert forall|i: int| 0 <= i < pre.heroes@.len() implies post.heroes@[i] == pre.heroes@[i] by {
        assert(post.heroes@.take(pre.heroes@.len() as int)[i] == post.heroes@[i]);
    }
    assert forall|i: int| 0 <= i < pre.responses@.len() implies post.responses@[i]
        == pre.responses@[i] by {
        assert(post.responses@.take(pre.responses@.len() as int)[i] == post.responses@[i]);
    }
    assert forall|i: int| 0 <= i < post.heroes@.len() implies 0 <= (#[trigger] post.heroes@[i]).id
        < post.next_hero_id by {
        if i < pre.heroes@.len() {
            assert(post.heroes@[i] == pre.heroes@[i]);
        } else {
            assert(post.heroes@[i] == post.heroes@.last());
        }
    }
    assert forall|i: int, j: int| 0 <= i < j < post.heroes@.len() implies (
    #[trigger] post.heroes@[i]).id != (#[trigger] post.heroes@[j]).id by {
        if j < pre.heroes@.len() {
            assert(post.heroes@[i] == pre.heroes@[i]);
            assert(post.heroes@[j] == pre.heroes@[j]);
        } else {
            assert(post.heroes@[i] == pre.heroes@[i]);
            assert(post.heroes@[j] == post.heroes@.last());
            assert(post.heroes@[i].id < pre.next_hero_id);
        }
    }
    assert forall|i: int| 0 <= i < post.responses@.len() implies 0 <= (
    #[trigger] post.responses@[i]).id < post.next_response_id by {
        if i < pre.responses@.len() {
            assert(post.responses@[i] == pre.responses@[i]);
        } else {
            let k = i - pre.responses@.len();
            assert(post.responses@[pre.responses@.len() + k].id == pre.next_response_id + k);
        }
    }
    assert forall|i: int, j: int| 0 <= i < j < post.responses@.len() implies (
    #[trigger] post.responses@[i]).id != (#[trigger] post.responses@[j]).id by {
        if j < pre.responses@.len() {
            assert(post.responses@[i] == pre.responses@[i]);
            assert(post.responses@[j] == pre.responses@[j]);
        } else {
            let kj = j - pre.responses@.len();
            assert(post.responses@[pre.responses@.len() + kj].id == pre.next_response_id + kj);
            if i < pre.responses@.len() {
                assert(post.responses@[i] == pre.responses@[i]);
                assert(post.responses@[i].id < pre.next_response_id);
            } else {
                let ki = i - pre.responses@.len();
                assert(post.responses@[pre.responses@.len() + ki].id == pre.next_response_id
                    + ki);
            }
        }
    }
    assert forall|i: int| 0 <= i < post.responses@.len() implies hero_id_stored(
        post.heroes@,
        (#[trigger] post.responses@[i]).hero_id,
    ) by {
        if i < pre.responses@.len() {
            assert(post.responses@[i] == pre.responses@[i]);
            let h = choose|h: int|
                0 <= h < pre.heroes@.len() && (#[trigger] pre.heroes@[h]).id
                    == pre.responses@[i].hero_id;
            assert(post.heroes@[h] == pre.heroes@[h]);
            assert(post.heroes@[h].id == post.responses@[i].hero_id);
        } else {
            let k = i - pre.responses@.len();
            assert(post.responses@[pre.responses@.len() + k].hero_id == pre.next_hero_id);
            let h = post.heroes@.len() - 1;
            assert(post.heroes@[h] == post.heroes@.last());
            assert(post.heroes@[h].id == post.responses@[i].hero_id);
        }
    }
}

/// A store with the same entries and counters as a well-formed one is
/// well-formed.
proof fn lemma_wf_same_entries(pre: ResponseDatabase, post: ResponseDatabase)
    requires
        pre.wf(),
        post.responses == pre.responses,
        post.heroes == pre.heroes,
        post.next_hero_id == pre.next_hero_id,
        post.next_response_id == pre.next_response_id,
    ensures
        post.wf(),
{
    assert(post.responses@ == pre.responses@);
    assert(post.heroes@ == pre.heroes@);
    assert forall|i: int| 0 <= i < post.heroes@.len() implies 0 <= (#[trigger] post.heroes@[i]).id
        < post.next_hero_id by {
        assert(pre.heroes@[i] == post.heroes@[i]);
    }
    assert forall|i: int, j: int| 0 <= i < j < post.heroes@.len() implies (
    #[trigger] post.heroes@[i]).id != (#[trigger] post.heroes@[j]).id by {
        assert(pre.heroes@[i] == post.heroes@[i]);
        assert(pre.heroes@[j] == post.heroes@[j]);
    }
    assert forall|i: int| 0 <= i < post.responses@.len() implies 0 <= (
    #[trigger] post.responses@[i]).id < post.next_response_id by {
        assert(pre.responses@[i] == post.responses@[i]);
    }
    assert forall|i: int, j: int| 0 <= i < j < post.responses@.len() implies (
    #[trigger] post.responses@[i]).id != (#[trigger] post.responses@[j]).id by {
        assert(pre.responses@[i] == post.responses@[i]);
        assert(pre.responses@[j] == post.responses@[j]);
    }
    assert forall|i: int| 0 <= i < post.responses@.len() implies hero_id_stored(
        post.heroes@,
        (#[trigger] post.responses@[i]).hero_id,
    ) by {
        assert(pre.responses@[i] == post.responses@[i]);
        assert(hero_id_stored(pre.heroes@, pre.responses@[i].hero_id));
    }
    assert forall|i: int| 0 <= i < post.responses@.len() implies entry_canonical(
        #[trigger] post.responses@[i],
    ) by {
        assert(pre.responses@[i] == post.responses@[i]);
        assert(entry_canonical(pre.responses@[i]));
    }
}

/// If exactly one stored response matches a lookup, the lookup returns it.
pub proof fn lemma_lookup_unique_match(
    db: ResponseDatabase,
    text: Seq<char>,
    hero_id: Option<i32>,
    unique: Response,
    got: Option<Response>,
)
    requires
        exists|i: int| 0 <= i < db.responses@.len() && #[trigger] db.responses@[i] == unique,
        response_matches(unique, text, hero_id),
        forall|i: int|
            0 <= i < db.responses@.len() && response_matches(
                #[trigger] db.responses@[i],
                text,
                hero_id,
            ) ==> db.responses@[i] == unique,
        lookup_post(db, text, hero_id, got),
    ensures
        got == Some(unique),
{
}

/// A lookup with a canonical text that no stored response carries returns no
/// match.
pub proof fn lemma_lookup_no_match(
    db: ResponseDatabase,
    text: Seq<char>,
    hero_id: Option<i32>,
    got: Option<Response>,
)
    requires
        forall|i: int|
            0 <= i < db.responses@.len() ==> !response_matches(
                #[trigger] db.responses@[i],
                text,
                hero_id,
            ),
        lookup_post(db, text, hero_id, got),
    ensures
        got is None,
{
    if let Some(resp) = got {
        let i = choose|i: int|
            0 <= i < db.responses@.len() && #[trigger] db.responses@[i] == resp;
        assert(!response_matches(db.responses@[i], text, hero_id));
    }
}

/// Whether a category page title names a hero's own response page.
pub fn is_hero_type(page: &str) -> (r: bool)
    ensures
        r == (page@.len() >= 10 && page@.skip(page@.len() - 10) =~= seq![
            '/', 'R', 'e', 's', 'p', 'o', 'n', 's', 'e', 's',
        ]),
{
    let v = chars_of(page);
    if v.len() < 10 {
        return false;
    }
    let pat: Vec<char> = vec!['/', 'R', 'e', 's', 'p', 'o', 'n', 's', 'e', 's'];
    let at = v.len() - 10;
    let r = matches_at(&v, at, &pat);
    proof {
        assert(v@.subrange(at as int, at + pat@.len() as int) =~= page@.skip(page@.len() - 10));
    }
    r
}

/// The hero name of a page title: everything before the first slash, or the
/// whole title when it has none.
pub fn get_hero_name(page: &str) -> (r: String)
    ensures
        r@ == (match find_at(page@, 0, seq!['/']) {
            None => page@,
            Some(j) => page@.take(j),
        }),
{
    let v = chars_of(page);
    let slash: Vec<char> = vec!['/'];
    proof {
        assert(slash@ =~= seq!['/']);
    }
    match find_pat(&v, 0, &slash) {
        None => string_from_chars(&v),
        Some(j) => {
            proof {
                crate::strutil::lemma_find_at(v@, 0, seq!['/']);
            }
            let pre = copy_range(&v, 0, j);
            proof {
                assert(pre@ =~= page@.take(j as int));
            }
            string_from_chars(&pre)
        },
    }
}

/// The (original text, canonical text, URL) triples that a page's parsed
/// records materialize into, given the resolved link mapping: a record whose
/// canonical text is empty, or whose file reference has no link, is dropped.
pub open spec fn materialize_one(
    rec: crate::parsing::Response,
    links: Seq<(String, String)>,
) -> Option<(Seq<char>, Seq<char>, Seq<char>)> {
    let canon = canon_spec(rec.response@);
    if canon.len() == 0 {
        None
    } else {
        match assoc_lookup(links, rec.file@) {
            None => None,
            Some(url) => Some((rec.response@, canon, url)),
        }
    }
}

/// The views of materialized triples.
pub open spec fn triple_views(ts: Seq<(String, String, String)>) -> Seq<
    (Seq<char>, Seq<char>, Seq<char>),
> {
    ts.map_values(|t: (String, String, String)| (t.0@, t.1@, t.2@))
}

/// Turn parsed records and the resolved link mapping into the triples the
/// store inserts: original text, canonical text, and URL, one per record that
/// canonicalizes to a non-empty key and has a resolved link.
pub fn materialize_responses(
    records: &Vec<crate::parsing::Response>,
    links: &Vec<(String, String)>,
) -> (r: Vec<(String, String, String)>)
    ensures
        triple_views(r@) == records@.filter_map(
            |rec: crate::parsing::Response| materialize_one(rec, links@),
        ),
{
    let mut r: Vec<(String, String, String)> = Vec::new();
    let mut i: usize = 0;
    proof {
        assert(triple_views(r@) =~= records@.take(0).filter_map(
            |rec: crate::parsing::Response| materialize_one(rec, links@),
        ));
    }
    while i < records.len()
        invariant
            i <= records@.len(),
            triple_views(r@) == records@.take(i as int).filter_map(
                |rec: crate::parsing::Response| materialize_one(rec, links@),
            ),
        decreases records@.len() - i,
    {
        let rec = &records[i];
        let processed = crate::canon::process_text(rec.response.as_str());
        if processed.as_str().unicode_len() > 0 {
            if let Some(url) = lookup_link(links, rec.file.as_str()) {
                let original = rec.response.clone();
                r.push((original, processed, url));
            }
        }
        i = i + 1;
        proof {
            let f = |rec: crate::parsing::Response| materialize_one(rec, links@);
            assert(records@.take(i as int).drop_last() =~= records@.take(i - 1));
            assert(records@.take(i as int).last() == records@[i - 1]);
            assert(triple_views(r@) =~= records@.take(i as int).filter_map(f));
        }
    }
    proof {
        assert(records@.take(records@.len() as int) =~= records@);
    }
    r
}

/// The icon-table key of an owner name: spaces removed, letters lowercased.
pub open spec fn icon_key(s: Seq<char>) -> Seq<char>
    decreases s.len(),
{
    if s.len() == 0 {
        Seq::empty()
    } else {
        let rest = icon_key(s.drop_last());
        if s.last() == ' ' {
            rest
        } else {
            rest.push(crate::canon::to_lower(s.last()))
        }
    }
}

/// The suffix that announcer-pack owners carry in their icon key.
pub open spec fn announcer_pack() -> Seq<char> {
    seq!['a', 'n', 'n', 'o', 'u', 'n', 'c', 'e', 'r', 'p', 'a', 'c', 'k']
}

/// `s` with every occurrence of `pat` removed, left to right.
pub open spec fn remove_all(s: Seq<char>, pat: Seq<char>) -> Seq<char>
    decreases s.len(),
    when pat.len() > 0
{
    match find_at(s, 0, pat) {
        None => s,
        Some(j) => {
            proof {
                crate::strutil::lemma_find_at(s, 0, pat);
            }
            s.take(j) + remove_all(s.skip(j + pat.len() as int), pat)
        },
    }
}

/// The icon URL an owner name resolves to: looked up under the name's icon
/// key, and failing that under the key with the announcer-pack suffix
/// removed.
pub open spec fn icon_for_name(icons: Seq<(String, String)>, name: Seq<char>) -> Option<
    Seq<char>,
> {
    let k = icon_key(name);
    match assoc_lookup(icons, k) {
        Some(u) => Some(u),
        None => assoc_lookup(icons, remove_all(k, announcer_pack())),
    }
}

fn icon_key_exec(name: &str) -> (r: Vec<char>)
    ensures
        r@ == icon_key(name@),
{
    let v = chars_of(name);
    let mut out: Vec<char> = Vec::new();
    let mut i: usize = 0;
    proof {
        assert(name@.take(0) =~= Seq::<char>::empty());
    }
    while i < v.len()
        invariant
            i <= v@.len(),
            v@ == name@,
            out@ == icon_key(name@.take(i as int)),
        decreases v@.len() - i,
    {
        let c = v[i];
        if c != ' ' {
            out.push(crate::canon::to_lower_exec(c));
        }
        i = i + 1;
        proof {
            assert(name@.take(i as int).drop_last() =~= name@.take(i - 1));
            assert(name@.take(i as int).last() == name@[i - 1]);
        }
    }
    proof {
        assert(name@.take(name@.len() as int) =~= name@);
    }
    out
}

fn remove_all_exec(v: &Vec<char>, pat: &Vec<char>) -> (r: Vec<char>)
    requires
        pat@.len() > 0,
    ensures
        r@ == remove_all(v@, pat@),
    decreases v@.len(),
{
    match find_pat(v, 0, pat) {
        None => copy_range(v, 0, v.len()),
        Some(j) => {
            proof {
                crate::strutil::lemma_find_at(v@, 0, pat@);
                assert(j + pat@.len() <= v@.len());
            }
            let n = v.len();
            let rest = copy_range(v, j + pat.len(), n);
            proof {
                assert(rest@ =~= v@.skip(j + pat@.len() as int));
            }
            let tail = remove_all_exec(&rest, pat);
            let mut out = copy_range(v, 0, j);
            append_all(&mut out, &tail);
            proof {
                assert(out@ =~= remove_all(v@, pat@));
            }
            out
        },
    }
}

/// Append all of `src` to `out`.
fn append_all(out: &mut Vec<char>, src: &Vec<char>)
    ensures
        final(out)@ == old(out)@ + src@,
{
    crate::strutil::append_range(out, src, 0, src.len());
    proof {
        assert(src@.subrange(0, src@.len() as int) =~= src@);
    }
}

impl ResponseDatabase {
    /// The icon URL shown beside a hero's responses: the hero's name is
    /// normalized into an icon key and looked up, then looked up again with
    /// the announcer-pack suffix removed when the first lookup finds nothing.
    pub fn get_icon_for_hero(&self, hero_id: i32) -> (r: Option<String>)
        ensures
            r matches Some(u) ==> exists|i: int|
                0 <= i < self.heroes@.len() && (#[trigger] self.heroes@[i]).id == hero_id
                    && icon_for_name(self.icons@, self.heroes@[i].hero_name@) == Some(u@),
            r is None ==> (forall|i: int|
                0 <= i < self.heroes@.len() ==> (#[trigger] self.heroes@[i]).id != hero_id)
                || exists|i: int|
                0 <= i < self.heroes@.len() && (#[trigger] self.heroes@[i]).id == hero_id
                    && icon_for_name(self.icons@, self.heroes@[i].hero_name@) is None,
    {
        let name = match self.get_hero_name(hero_id) {
            Some(n) => n,
            None => {
                return None;
            },
        };
        let key = icon_key_exec(name.as_str());
        let key_str = string_from_chars(&key);
        match self.get_icon_url(key_str.as_str()) {
            Some(u) => Some(u),
            None => {
                let pat: Vec<char> = vec![
                    'a', 'n', 'n', 'o', 'u', 'n', 'c', 'e', 'r', 'p', 'a', 'c', 'k',
                ];
                proof {
                    assert(pat@ =~= announcer_pack());
                }
                let stripped = remove_all_exec(&key, &pat);
                let stripped_str = string_from_chars(&stripped);
                self.get_icon_url(stripped_str.as_str())
            },
        }
    }
}

/// First URL stored under `key` in the link mapping, if any.
pub fn lookup_link(links: &Vec<(String, String)>, key: &str) -> (r: Option<String>)
    ensures
        match r {
            Some(u) => assoc_lookup(links@, key@) == Some(u@),
            None => assoc_lookup(links@, key@) is None,
        },
{
    let q = String::from_str(key);
    let mut i: usize = 0;
    proof {
        assert(links@.skip(0) =~= links@);
    }
    while i < links.len()
        invariant
            i <= links@.len(),
            q@ == key@,
            assoc_lookup(links@, key@) == assoc_lookup(links@.skip(i as int), key@),
        decreases links@.len() - i,
    {
        if links[i].0 == q {
            proof {
                assert(links@.skip(i as int)[0] == links@[i as int]);
            }
            return Some(links[i].1.clone());
        }
        i = i + 1;
        proof {
            assert(links@.skip(i - 1).drop_first() =~= links@.skip(i as int));
        }
    }
    proof {
        assert(links@.skip(i as int).len() == 0);
    }
    None
}

} // verus!
