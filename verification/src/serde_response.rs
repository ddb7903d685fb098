//! Shapes of the remote API answers, as plain data.
//!
//! The unverified shell decodes the JSON wire format into these structs (its
//! own copies carry the decoder derives and convert into these); the verified
//! code only reads them.

use vstd::prelude::*;
use vstd::string::StrSliceExecFns;

verus! {

/// One page title in a category listing.
pub struct ResponseCategoryMember {
    pub title: String,
}

/// Body of a category-listing answer.
pub struct Query {
    pub categorymembers: Vec<ResponseCategoryMember>,
}

/// A category-listing answer.
pub struct PagesResponse {
    pub query: Query,
}

/// One resolved image variant of a page.
pub struct ImageInfo {
    pub url: String,
}

/// One page of a batched image-info answer.
pub struct BatchPage {
    pub title: String,
    pub imageinfo: Vec<ImageInfo>,
}

/// Body of a batched image-info answer. The wire format keys pages by an
/// opaque id; only the pages themselves matter here.
pub struct BatchQuery {
    pub pages: Vec<BatchPage>,
}

/// A batched image-info answer.
pub struct BatchResponse {
    pub query: BatchQuery,
}

/// The externally supplied table of normalized owner name to icon URL.
pub struct IconUrls(pub Vec<(String, String)>);

/// The titles of all category members of a listing answer, in order.
pub fn category_titles(resp: &PagesResponse) -> (r: Vec<String>)
    ensures
        r@.map_values(|s: String| s@) == resp.query.categorymembers@.map_values(
            |m: ResponseCategoryMember| m.title@,
        ),
{
    let mut r: Vec<String> = Vec::new();
    let mut i: usize = 0;
    let members = &resp.query.categorymembers;
    while i < members.len()
        invariant
            i <= members@.len(),
            r@.map_values(|s: String| s@) == members@.take(i as int).map_values(
                |m: ResponseCategoryMember| m.title@,
            ),
        decreases members@.len() - i,
    {
        let ghost prev = r@;
        let t = members[i].title.clone();
        let ghost tv = t@;
        proof {
            assert(tv == members@[i as int].title@);
        }
        r.push(t);
        i = i + 1;
        proof {
            let f = |s: String| s@;
            let g = |m: ResponseCategoryMember| m.title@;
            assert(r@.map_values(f) =~= prev.map_values(f).push(tv));
            assert(members@.take(i as int).map_values(g) =~= members@.take(i - 1).map_values(
                g,
            ).push(members@[i - 1].title@));
            assert(r@.map_values(f) =~= members@.take(i as int).map_values(g));
        }
    }
    proof {
        assert(members@.take(members@.len() as int) =~= members@);
    }
    r
}

/// Whether a listed title names a sub-category rather than a page.
pub fn is_category_page(title: &str) -> (r: bool)
    ensures
        r == (title@.len() >= 8 && title@.take(8) =~= seq!['C', 'a', 't', 'e', 'g', 'o', 'r', 'y']),
{
    let n = title.unicode_len();
    if n < 8 {
        return false;
    }
    let r = title.get_char(0) == 'C' && title.get_char(1) == 'a' && title.get_char(2) == 't'
        && title.get_char(3) == 'e' && title.get_char(4) == 'g' && title.get_char(5) == 'o'
        && title.get_char(6) == 'r' && title.get_char(7) == 'y';
    proof {
        if r {
            assert(title@.take(8) =~= seq!['C', 'a', 't', 'e', 'g', 'o', 'r', 'y']);
        } else {
            assert(!(title@.take(8) =~= seq!['C', 'a', 't', 'e', 'g', 'o', 'r', 'y']));
        }
    }
    r
}

} // verus!
