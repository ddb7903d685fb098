//! Link batch resolver: the request-planning half.
//!
//! Every file reference must be looked up through a remote query whose URL
//! length is bounded. `batch_file_references` groups the references into
//! batches so that each batch fits the length budget and the per-request item
//! cap; the caller issues one request per batch and resolves the answers with
//! `collect_link_mapping`.

use vstd::prelude::*;
use vstd::utf8::encode_utf8;
use vstd::string::{StrSliceExecFns, StringExecFns};
use crate::serde_response::BatchPage;
use crate::strutil::{chars_of, find_at, find_pat};

verus! {

/// Most file references one batched request may carry.
pub const MAX_BATCH_ITEMS: usize = 50;

/// URL-encoded length of the separator and namespace prefix written before
/// each file title in a request.
pub const ENCODED_ITEM_PREFIX_LEN: usize = 10;

/// Longest request URL the remote end accepts.
pub const MAX_HEADER_LEN: usize = 1960;

/// The views of a batch's file references.
pub open spec fn title_views(b: Seq<String>) -> Seq<Seq<char>> {
    b.map_values(|s: String| s@)
}

/// The views of all batches.
pub open spec fn batch_views(bs: Seq<Vec<String>>) -> Seq<Seq<Seq<char>>> {
    bs.map_values(|b: Vec<String>| title_views(b@))
}

/// Encoded-length contribution of one file reference: the fixed per-item
/// prefix plus the reference's UTF-8 byte length.
pub open spec fn item_weight(f: Seq<char>) -> int {
    ENCODED_ITEM_PREFIX_LEN + encode_utf8(f).len()
}

/// Encoded-length contribution of a whole batch.
pub open spec fn batch_weight(b: Seq<Seq<char>>) -> int
    decreases b.len(),
{
    if b.len() == 0 {
        0
    } else {
        batch_weight(b.drop_last()) + item_weight(b.last())
    }
}

/// Whether a batch had to end before the reference that starts the next one:
/// it is full, or taking that reference would have broken the length budget.
pub open spec fn batch_boundary_forced(b: Seq<Seq<char>>, next_first: Seq<char>, budget: int) -> bool {
    b.len() == MAX_BATCH_ITEMS || batch_weight(b) + item_weight(next_first) >= budget
}

/// Group `files` into request batches. `empty_request_len` is the URL length
/// of a request that carries no titles; what remains of `MAX_HEADER_LEN` is
/// the budget for the titles themselves.
///
/// The batches partition the input exactly — concatenated in order they give
/// back every reference exactly once — every batch is non-empty, holds at
/// most `MAX_BATCH_ITEMS` references, and fits the encoded-length budget, and
/// every batch but the last is as full as the budget and the item cap allow,
/// which pins the grouping completely.
pub fn batch_file_references(files: &Vec<String>, empty_request_len: usize) -> (batches: Vec<
    Vec<String>,
>)
    requires
        empty_request_len < MAX_HEADER_LEN,
        forall|i: int|
            0 <= i < files@.len() ==> item_weight(#[trigger] files@[i]@) < MAX_HEADER_LEN
                - empty_request_len,
    ensures
        batch_views(batches@).flatten() == title_views(files@),
        forall|b: int|
            0 <= b < batches@.len() ==> 1 <= (#[trigger] batches@[b])@.len() <= MAX_BATCH_ITEMS,
        forall|b: int|
            0 <= b < batches@.len() ==> batch_weight(title_views((#[trigger] batches@[b])@))
                < MAX_HEADER_LEN - empty_request_len,
        forall|b: int|
            0 <= b < batches@.len() - 1 ==> batch_boundary_forced(
                title_views((#[trigger] batches@[b])@),
                (batches@[b + 1]@[0])@,
                MAX_HEADER_LEN - empty_request_len,
            ),
{
    let budget = MAX_HEADER_LEN - empty_request_len;
    let mut batches: Vec<Vec<String>> = Vec::new();
    let mut cur: Vec<String> = Vec::new();
    let mut cur_weight: usize = 0;
    let mut i: usize = 0;
    proof {
        assert(batch_views(batches@).flatten() + title_views(cur@) =~= title_views(
            files@.take(0),
        ));
    }
    while i < files.len()
        invariant
            i <= files@.len(),
            0 < budget <= MAX_HEADER_LEN,
            budget == MAX_HEADER_LEN - empty_request_len,
            forall|k: int| 0 <= k < files@.len() ==> item_weight(#[trigger] files@[k]@) < budget,
            cur_weight == batch_weight(title_views(cur@)),
            cur_weight < budget,
            cur@.len() <= MAX_BATCH_ITEMS,
            forall|b: int|
                0 <= b < batches@.len() ==> 1 <= (#[trigger] batches@[b])@.len()
                    <= MAX_BATCH_ITEMS,
            forall|b: int|
                0 <= b < batches@.len() ==> batch_weight(title_views((#[trigger] batches@[b])@))
                    < budget,
            batch_views(batches@).flatten() + title_views(cur@) == title_views(files@.take(i as int)),
            cur@.len() == 0 ==> batches@.len() == 0,
            forall|b: int|
                0 <= b < batches@.len() - 1 ==> batch_boundary_forced(
                    title_views((#[trigger] batches@[b])@),
                    (batches@[b + 1]@[0])@,
                    budget as int,
                ),
            batches@.len() > 0 && cur@.len() > 0 ==> batch_boundary_forced(
                title_views(batches@.last()@),
                (cur@[0])@,
                budget as int,
            ),
        decreases files@.len() - i,
    {
        let ghost old_batches = batches@;
        let flen = files[i].as_str().len();
        proof {
            assert(files@[i as int]@ == files[i as int]@);
            assert(item_weight(files@[i as int]@) < budget);
        }
        let w = ENCODED_ITEM_PREFIX_LEN + flen;
        if w + cur_weight >= budget || cur.len() >= MAX_BATCH_ITEMS {
            proof {
                flush_flatten(batches@, cur);
                assert(batch_boundary_forced(title_views(cur@), files@[i as int]@, budget as int));
            }
            batches.push(cur);
            cur = Vec::new();
            cur_weight = 0;
            proof {
                assert(title_views(cur@) =~= Seq::<Seq<char>>::empty());
                assert(batch_views(batches@).flatten() + title_views(cur@) =~= batch_views(
                    batches@,
                ).flatten());
                assert forall|b: int| 0 <= b < batches@.len() - 1 implies batch_boundary_forced(
                    title_views((#[trigger] batches@[b])@),
                    (batches@[b + 1]@[0])@,
                    budget as int,
                ) by {
                    if b < old_batches.len() - 1 {
                        assert(batches@[b] == old_batches[b]);
                        assert(batches@[b + 1] == old_batches[b + 1]);
                    } else {
                        assert(batches@[b] == old_batches.last());
                    }
                }
            }
        }
        let ghost prev_cur = cur@;
        cur.push(files[i].clone());
        cur_weight = cur_weight + w;
        proof {
            assert(w == item_weight(files@[i as int]@));
            assert(cur@.last() == files@[i as int]);
            assert(title_views(cur@) =~= title_views(prev_cur).push(files@[i as int]@));
            assert(title_views(cur@).drop_last() =~= title_views(prev_cur));
            assert(batch_weight(title_views(cur@)) == batch_weight(title_views(prev_cur))
                + item_weight(files@[i as int]@));
            assert(title_views(files@.take(i + 1)) =~~= title_views(files@.take(i as int)).push(
                files@[i as int]@,
            ));
            assert(batch_views(batches@).flatten() + title_views(cur@) =~~= title_views(
                files@.take(i + 1),
            ));
        }
        i = i + 1;
    }
    if cur.len() > 0 {
        proof {
            flush_flatten(batches@, cur);
        }
        batches.push(cur);
        proof {
            assert(batch_views(batches@).flatten() =~= title_views(files@.take(files@.len() as int)));
        }
    }
    proof {
        assert(files@.take(files@.len() as int) =~= files@);
        assert(batch_views(batches@).flatten() =~= title_views(files@));
    }
    batches
}

/// The audio-file extension marker the canonical URL is truncated at.
pub open spec fn mp3_marker() -> Seq<char> {
    seq!['.', 'm', 'p', '3']
}

/// A returned page title with its namespace prefix (five characters) removed.
pub open spec fn strip_title_prefix(t: Seq<char>) -> Seq<char> {
    if t.len() >= 5 {
        t.skip(5)
    } else {
        Seq::empty()
    }
}

/// The mapping entry one answered page contributes: its title without the
/// namespace prefix, mapped to its canonical URL cut off right after the first
/// extension marker. A page without image info or without the marker in its
/// URL is malformed and contributes nothing.
pub open spec fn link_entry(p: BatchPage) -> Option<(Seq<char>, Seq<char>)> {
    if p.imageinfo@.len() == 0 {
        None
    } else {
        match find_at(p.imageinfo@[0].url@, 0, mp3_marker()) {
            None => None,
            Some(j) => Some(
                (strip_title_prefix(p.title@), p.imageinfo@[0].url@.take(j) + mp3_marker()),
            ),
        }
    }
}

/// The views of a reference-to-URL mapping.
pub open spec fn entry_views(m: Seq<(String, String)>) -> Seq<(Seq<char>, Seq<char>)> {
    m.map_values(|e: (String, String)| (e.0@, e.1@))
}

/// Turn the pages of the answered batch requests into the reference-to-URL
/// mapping: one entry per well-formed page, in page order.
pub fn collect_link_mapping(pages: &Vec<BatchPage>) -> (m: Vec<(String, String)>)
    ensures
        entry_views(m@) == pages@.filter_map(|p: BatchPage| link_entry(p)),
{
    let mut m: Vec<(String, String)> = Vec::new();
    let mut i: usize = 0;
    proof {
        assert(entry_views(m@) =~= pages@.take(0).filter_map(|p: BatchPage| link_entry(p)));
    }
    while i < pages.len()
        invariant
            i <= pages@.len(),
            entry_views(m@) == pages@.take(i as int).filter_map(|p: BatchPage| link_entry(p)),
        decreases pages@.len() - i,
    {
        let page = &pages[i];
        if page.imageinfo.len() > 0 {
            let url = &page.imageinfo[0].url;
            let url_chars = chars_of(url.as_str());
            let marker: Vec<char> = vec!['.', 'm', 'p', '3'];
            proof {
                assert(marker@ =~= mp3_marker());
            }
            if let Some(j) = find_pat(&url_chars, 0, &marker) {
                proof {
                    crate::strutil::lemma_find_at(url@, 0, mp3_marker());
                }
                let title = &page.title;
                let tn = title.as_str().unicode_len();
                let key = if tn >= 5 {
                    String::from_str(title.as_str().substring_char(5, tn))
                } else {
                    String::new()
                };
                let value = String::from_str(url.as_str().substring_char(0, j)).concat(".mp3");
                proof {
                    reveal_strlit(".mp3");
                    assert(key@ =~= strip_title_prefix(page.title@));
                    assert(value@ =~= url@.take(j as int) + mp3_marker());
                }
                m.push((key, value));
                proof {
                    assert(link_entry(pages@[i as int]) == Some((key@, value@)));
                }
            }
        }
        i = i + 1;
        proof {
            let f = |p: BatchPage| link_entry(p);
            assert(pages@.take(i as int).drop_last() =~= pages@.take(i - 1));
            assert(pages@.take(i as int).last() == pages@[i - 1]);
            assert(entry_views(m@) =~= pages@.take(i as int).filter_map(f));
        }
    }
    proof {
        assert(pages@.take(pages@.len() as int) =~= pages@);
    }
    m
}

/// Appending one more batch appends its titles to the flattened whole.
proof fn flush_flatten(bs: Seq<Vec<String>>, b: Vec<String>)
    ensures
        batch_views(bs.push(b)).flatten() == batch_views(bs).flatten() + title_views(b@),
{
    assert(batch_views(bs.push(b)) =~= batch_views(bs).push(title_views(b@)));
    batch_views(bs).lemma_flatten_push(title_views(b@));
}

} // verus!
