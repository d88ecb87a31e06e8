//! Inline queries: what is searched for, which results are offered, and the
//! answer when there is nothing to offer.

use vstd::prelude::*;
use crate::image_search::{first_n, string_views, MAX_RESULTS};
use crate::pattern::{url_is_valid, url_parses};
use crate::text::{chars_of, concat3, ends_with, seq_ends_with, seq_trim, slice_chars, str_trim, string_of, trim};
use crate::unicode::{str_lowercase, to_lowercase};

verus! {

/// How long Telegram may cache an answer, in seconds.
pub const CACHE_TIME_SECONDS: u32 = 300;

/// The title of the answer offered when nothing was found.
pub const NO_RESULTS_TITLE: &'static str = "No images found";

/// The description of the answer offered when nothing was found.
pub const NO_RESULTS_DESCRIPTION: &'static str = "Try another search term";

/// What an inline query asks for.
#[derive(Debug)]
pub struct InlineSearch {
    /// The query, trimmed.
    pub query: String,
    /// The text handed to the image search.
    pub search_query: String,
    /// Whether GIFs are wanted.
    pub is_gif: bool,
}

/// GIFs are wanted when the query ends in `.gif`, in any case.
pub open spec fn spec_wants_gif(query: Seq<char>) -> bool {
    seq_ends_with(str_lowercase(query), ".gif"@)
}

/// `s` ends with the extension spelled by `lower`, each letter in either the
/// case of `lower` or that of `upper`.
pub open spec fn ends_with_any_case(s: Seq<char>, lower: Seq<char>, upper: Seq<char>) -> bool {
    &&& lower.len() == upper.len()
    &&& lower.len() <= s.len()
    &&& forall|i: int|
        0 <= i < lower.len() ==> (#[trigger] s[s.len() - lower.len() + i] == lower[i] || s[s.len()
            - lower.len() + i] == upper[i])
}

/// `s` without one trailing `.gif`, `.jpg`, `.jpeg` or `.png` (in any case),
/// if it has one.
pub open spec fn strip_image_extension(s: Seq<char>) -> Seq<char> {
    if ends_with_any_case(s, ".gif"@, ".GIF"@) {
        s.take(s.len() - 4)
    } else if ends_with_any_case(s, ".jpg"@, ".JPG"@) {
        s.take(s.len() - 4)
    } else if ends_with_any_case(s, ".jpeg"@, ".JPEG"@) {
        s.take(s.len() - 5)
    } else if ends_with_any_case(s, ".png"@, ".PNG"@) {
        s.take(s.len() - 4)
    } else {
        s
    }
}

/// The text searched for: the (trimmed) query without its image extension,
/// trimmed again; the query itself if nothing is left.
pub open spec fn spec_search_query(query: Seq<char>) -> Seq<char> {
    let s = seq_trim(strip_image_extension(query));
    if s.len() == 0 {
        query
    } else {
        s
    }
}

/// Does `s` end with the extension spelled by `lower`/`upper`, in any case?
pub fn ends_with_ext(s: &[char], lower: &[char], upper: &[char]) -> (r: bool)
    ensures
        r == ends_with_any_case(s@, lower@, upper@),
{
    if lower.len() != upper.len() || lower.len() > s.len() {
        return false;
    }
    let off = s.len() - lower.len();
    let mut i: usize = 0;
    while i < lower.len()
        invariant
            lower@.len() == upper@.len(),
            off + lower@.len() == s@.len(),
            off + lower.len() == s.len(),
            i <= lower@.len(),
            forall|k: int| 0 <= k < i ==> (#[trigger] s@[off + k] == lower@[k] || s@[off + k] == upper@[k]),
        decreases lower.len() - i,
    {
        if s[off + i] != lower[i] && s[off + i] != upper[i] {
            assert(s@[s@.len() - lower@.len() + i] == s@[off + i]);
            assert(!(s@[s@.len() - lower@.len() + i] == lower@[i as int] || s@[s@.len() - lower@.len() + i] == upper@[i as int]));
            return false;
        }
        i += 1;
    }
    true
}

/// `s` without one trailing image extension, if it has one.
pub fn strip_extension(s: &[char]) -> (r: Vec<char>)
    ensures
        r@ == strip_image_extension(s@),
{
    let gif_lo = chars_of(".gif");
    let gif_up = chars_of(".GIF");
    let jpg_lo = chars_of(".jpg");
    let jpg_up = chars_of(".JPG");
    let jpeg_lo = chars_of(".jpeg");
    let jpeg_up = chars_of(".JPEG");
    let png_lo = chars_of(".png");
    let png_up = chars_of(".PNG");
    proof {
        reveal_strlit(".gif");
        reveal_strlit(".jpg");
        reveal_strlit(".jpeg");
        reveal_strlit(".png");
    }
    let cut = if ends_with_ext(s, gif_lo.as_slice(), gif_up.as_slice()) {
        4
    } else if ends_with_ext(s, jpg_lo.as_slice(), jpg_up.as_slice()) {
        4
    } else if ends_with_ext(s, jpeg_lo.as_slice(), jpeg_up.as_slice()) {
        5
    } else if ends_with_ext(s, png_lo.as_slice(), png_up.as_slice()) {
        4
    } else {
        0
    };
    slice_chars(s, 0, s.len() - cut)
}

/// The inline search for a raw query, or `None` when the query is blank.
pub fn prepare_inline_query(raw: &str) -> (r: Option<InlineSearch>)
    ensures
        match r {
            None => seq_trim(raw@).len() == 0,
            Some(s) => {
                let q = seq_trim(raw@);
                &&& q.len() > 0
                &&& s.query@ == q
                &&& s.is_gif == spec_wants_gif(q)
                &&& s.search_query@ == spec_search_query(q)
            },
        },
{
    let qv = str_trim(raw);
    if qv.len() == 0 {
        return None;
    }
    let query = string_of(qv.as_slice());
    let lower = to_lowercase(query.as_str());
    let lv = chars_of(lower.as_str());
    let gif_ext = chars_of(".gif");
    let is_gif = ends_with(lv.as_slice(), gif_ext.as_slice());
    let stripped = strip_extension(qv.as_slice());
    let s = trim(stripped.as_slice());
    let search_query = if s.len() == 0 {
        string_of(qv.as_slice())
    } else {
        string_of(s.as_slice())
    };
    Some(InlineSearch { query, search_query, is_gif })
}

/// The URLs offered as results: those among the first ten that parse as URLs.
pub open spec fn spec_result_urls(urls: Seq<Seq<char>>) -> Seq<Seq<char>> {
    first_n(urls, 10).filter(|u: Seq<char>| url_parses(u))
}

/// The URLs offered as results, in order.
pub fn inline_result_urls(urls: &Vec<String>) -> (r: Vec<String>)
    ensures
        string_views(r@) == spec_result_urls(string_views(urls@)),
{
    let ghost all = string_views(urls@);
    let n = if urls.len() < MAX_RESULTS {
        urls.len()
    } else {
        MAX_RESULTS
    };
    let ghost firsts = first_n(all, 10);
    assert(firsts =~= all.take(n as int));
    let mut out: Vec<String> = Vec::new();
    let mut i: usize = 0;
    assert(all.take(0) =~= Seq::<Seq<char>>::empty());
    while i < n
        invariant
            all == string_views(urls@),
            n <= all.len(),
            i <= n,
            string_views(out@) == all.take(i as int).filter(|u: Seq<char>| url_parses(u)),
        decreases n - i,
    {
        assert(all.take(i + 1).drop_last() =~= all.take(i as int));
        assert(all.take(i + 1).last() == urls@[i as int]@);
        reveal_with_fuel(Seq::filter, 1);
        if url_is_valid(urls[i].as_str()) {
            let ghost before = string_views(out@);
            out.push(urls[i].clone());
            assert(string_views(out@) =~= before.push(urls@[i as int]@));
        }
        i += 1;
    }
    out
}

/// The text of the message sent when nothing was found.
pub fn no_results_message(query: &str) -> (r: String)
    ensures
        r@ == "No images found for \""@ + query@ + "\""@,
{
    concat3("No images found for \"", query, "\"")
}

} // verus!
