//! Google image search: request parameters and extraction of image URLs from
//! the result page.

use vstd::prelude::*;
use crate::image_search::{
    first_n, lemma_first_n_prefix, param, param_views, string_views, unescape_string, SearchError,
    MAX_RESULTS,
};
use crate::pattern::{find_matches, group, group_of, matches_or_none, regex_captures};
use crate::text::{lemma_unescape_contains_back, seq_contains, str_contains, unescape_seq};

verus! {

/// Image URLs in the JSON arrays of the mobile result page:
/// `["https://...jpg", width, height]`.
pub const JSON_IMAGE_PATTERN: &'static str =
    r#"\["(https?://[^"]+\.(?:jpg|jpeg|png|gif)[^"]*)"\s*,\s*\d+\s*,\s*\d+\]"#;

/// Any quoted image URL.
pub const QUOTED_IMAGE_PATTERN: &'static str = r#""(https?://[^"]+\.(?:jpg|jpeg|png|gif)[^"]*)""#;

/// The `data-ou` attribute of older result pages.
pub const DATA_OU_PATTERN: &'static str = r#"data-ou="(.*?)""#;

/// The message of the error for a page without image URLs.
pub const EMPTY_RESULT_DETAILS: &'static str =
    "Img array is empty. It might be because Google changed the search html format.";

/// The query parameters of a Google image search.
pub open spec fn spec_request_params(query: Seq<char>, is_gif: bool) -> Seq<(Seq<char>, Seq<char>)> {
    seq![
        ("q"@, query),
        ("tbs"@, if is_gif { "ift:gif"@ } else { "ift:jpg"@ }),
        ("tbm"@, "isch"@),
        ("hl"@, "zh-TW"@),
    ]
}

/// The query parameters of a Google image search.
pub fn request_params(query: &str, is_gif: bool) -> (r: Vec<(String, String)>)
    ensures
        param_views(r@) == spec_request_params(query@, is_gif),
        r@.len() == 4,
        r@[1].0@ == "tbs"@,
        is_gif ==> r@[1].1@ == "ift:gif"@,
        !is_gif ==> r@[1].1@ == "ift:jpg"@,
{
    let tbs = if is_gif {
        "ift:gif"
    } else {
        "ift:jpg"
    };
    let r = vec![param("q", query), param("tbs", tbs), param("tbm", "isch"), param("hl", "zh-TW")];
    assert(param_views(r@) =~= spec_request_params(query@, is_gif));
    assert(param_views(r@)[1] == (r@[1].0@, r@[1].1@));
    r
}

/// A URL that is neither a thumbnail nor one of Google's own images.
pub open spec fn keep_url(u: Seq<char>) -> bool {
    !seq_contains(u, "encrypted-tbn"@) && !seq_contains(u, "gstatic"@) && !seq_contains(
        u,
        "googlelogo"@,
    )
}

/// The kept URLs of capture group 1 of the matches, unescaped, in order.
pub open spec fn kept_urls(ms: Seq<Seq<Option<Seq<char>>>>) -> Seq<Seq<char>>
    decreases ms.len(),
{
    if ms.len() == 0 {
        seq![]
    } else {
        let rest = kept_urls(ms.drop_first());
        match group_of(ms[0], 1) {
            Some(u) => if keep_url(u) {
                seq![unescape_seq(u)] + rest
            } else {
                rest
            },
            None => rest,
        }
    }
}

/// None of Google's thumbnail, static-content or logo markers occurs in `u`.
pub open spec fn free_of_google_images(u: Seq<char>) -> bool {
    &&& !seq_contains(u, "encrypted-tbn"@)
    &&& !seq_contains(u, "gstatic"@)
    &&& !seq_contains(u, "googlelogo"@)
}

/// Neither `&` nor `=` occurs in any of the three markers.
proof fn lemma_markers_plain()
    ensures
        forall|i: int| 0 <= i < "encrypted-tbn"@.len() ==> #[trigger] "encrypted-tbn"@[i] != '&'
            && "encrypted-tbn"@[i] != '=',
        forall|i: int| 0 <= i < "gstatic"@.len() ==> #[trigger] "gstatic"@[i] != '&' && "gstatic"@[i] != '=',
        forall|i: int| 0 <= i < "googlelogo"@.len() ==> #[trigger] "googlelogo"@[i] != '&'
            && "googlelogo"@[i] != '=',
{
    reveal_strlit("encrypted-tbn");
    reveal_strlit("gstatic");
    reveal_strlit("googlelogo");
}

/// Undoing the escapes of a URL that carries no marker adds none.
pub proof fn lemma_unescape_free(u: Seq<char>)
    requires
        !seq_contains(u, "encrypted-tbn"@),
        !seq_contains(u, "gstatic"@),
        !seq_contains(u, "googlelogo"@),
    ensures
        free_of_google_images(unescape_seq(u)),
{
    lemma_markers_plain();
    if seq_contains(unescape_seq(u), "encrypted-tbn"@) {
        lemma_unescape_contains_back(u, "encrypted-tbn"@);
    }
    if seq_contains(unescape_seq(u), "gstatic"@) {
        lemma_unescape_contains_back(u, "gstatic"@);
    }
    if seq_contains(unescape_seq(u), "googlelogo"@) {
        lemma_unescape_contains_back(u, "googlelogo"@);
    }
}

/// No kept URL carries a thumbnail, static-content or logo marker.
pub proof fn lemma_kept_urls_free(ms: Seq<Seq<Option<Seq<char>>>>)
    ensures
        forall|k: int| 0 <= k < kept_urls(ms).len() ==> free_of_google_images(#[trigger] kept_urls(ms)[k]),
    decreases ms.len(),
{
    if ms.len() > 0 {
        let rest = kept_urls(ms.drop_first());
        lemma_kept_urls_free(ms.drop_first());
        if let Some(u) = group_of(ms[0], 1) {
            if keep_url(u) {
                lemma_unescape_free(u);
                let all = seq![unescape_seq(u)] + rest;
                assert forall|k: int| 0 <= k < all.len() implies free_of_google_images(#[trigger] all[k]) by {
                    if k > 0 {
                        assert(all[k] == rest[k - 1]);
                    }
                }
            }
        }
    }
}

/// Capture group 1 of each of the first ten matches, in order.
pub open spec fn data_ou_urls(ms: Seq<Seq<Option<Seq<char>>>>) -> Seq<Seq<char>>
    decreases ms.len(),
{
    if ms.len() == 0 {
        seq![]
    } else {
        let rest = data_ou_urls(ms.drop_last());
        match group_of(ms.last(), 1) {
            Some(u) => rest.push(u),
            None => rest,
        }
    }
}

/// The image URLs of a result page: the first ten kept URLs of the JSON
/// arrays, or failing that of the quoted URLs, or failing that the `data-ou`
/// attributes of the first ten elements carrying one.
pub open spec fn spec_extract_image_urls(text: Seq<char>) -> Seq<Seq<char>> {
    let m1 = first_n(kept_urls(matches_or_none(regex_captures(JSON_IMAGE_PATTERN@, text))), 10);
    let m2 = first_n(kept_urls(matches_or_none(regex_captures(QUOTED_IMAGE_PATTERN@, text))), 10);
    if m1.len() > 0 {
        m1
    } else if m2.len() > 0 {
        m2
    } else {
        data_ou_urls(first_n(matches_or_none(regex_captures(DATA_OU_PATTERN@, text)), 10))
    }
}

/// The first ten kept, unescaped URLs of capture group 1 of the matches.
pub fn kept_image_urls(ms: &Vec<Vec<Option<String>>>) -> (r: Vec<String>)
    ensures
        string_views(r@) == first_n(kept_urls(ms.deep_view()), 10),
        forall|k: int|
            0 <= k < r@.len() ==> !seq_contains(#[trigger] r@[k]@, "encrypted-tbn"@) && !seq_contains(
                r@[k]@,
                "gstatic"@,
            ) && !seq_contains(r@[k]@, "googlelogo"@),
{
    let ghost all = ms.deep_view();
    let mut urls: Vec<String> = Vec::new();
    let mut i: usize = 0;
    assert(all.skip(0) =~= all);
    assert(string_views(urls@) + kept_urls(all) =~= kept_urls(all));
    while i < ms.len()
        invariant_except_break
            all == ms.deep_view(),
            i <= all.len(),
            string_views(urls@).len() <= 10,
            first_n(kept_urls(all), 10) == first_n(
                string_views(urls@) + kept_urls(all.skip(i as int)),
                10,
            ),
        ensures
            string_views(urls@) == first_n(kept_urls(all), 10),
        decreases ms.len() - i,
    {
        if urls.len() >= MAX_RESULTS {
            proof {
                lemma_first_n_prefix(string_views(urls@), kept_urls(all.skip(i as int)), 10);
            }
            break;
        }
        let ghost rest = all.skip(i as int);
        assert(rest[0] == ms[i as int].deep_view());
        assert(rest.drop_first() =~= all.skip(i + 1));
        if let Some(url) = group(&ms[i], 1) {
            if !str_contains(url.as_str(), "encrypted-tbn") && !str_contains(url.as_str(), "gstatic")
                && !str_contains(url.as_str(), "googlelogo") {
                let u = unescape_string(url.as_str());
                let ghost before = string_views(urls@);
                urls.push(u);
                assert(string_views(urls@) =~= before.push(u@));
                assert(before + kept_urls(rest) =~= string_views(urls@) + kept_urls(all.skip(i + 1)));
            }
        }
        i += 1;
    }
    proof {
        if i == all.len() {
            assert(all.skip(i as int) =~= Seq::<Seq<Option<Seq<char>>>>::empty());
            assert(string_views(urls@) + kept_urls(all.skip(i as int)) =~= string_views(urls@));
        }
        lemma_kept_urls_free(all);
        let kept = kept_urls(all);
        assert forall|k: int| 0 <= k < urls@.len() implies free_of_google_images(#[trigger] urls@[k]@) by {
            assert(string_views(urls@)[k] == urls@[k]@);
            assert(first_n(kept, 10)[k] == kept[k]);
        }
    }
    urls
}

/// Capture group 1 of each of the first ten matches.
pub fn data_ou_image_urls(ms: &Vec<Vec<Option<String>>>) -> (r: Vec<String>)
    ensures
        string_views(r@) == data_ou_urls(first_n(ms.deep_view(), 10)),
{
    let ghost all = ms.deep_view();
    let n = if ms.len() < MAX_RESULTS {
        ms.len()
    } else {
        MAX_RESULTS
    };
    let ghost firsts = first_n(all, 10);
    assert(firsts =~= all.take(n as int));
    let mut urls: Vec<String> = Vec::new();
    let mut i: usize = 0;
    assert(all.take(0) =~= Seq::<Seq<Option<Seq<char>>>>::empty());
    while i < n
        invariant
            all == ms.deep_view(),
            n <= all.len(),
            i <= n,
            string_views(urls@) == data_ou_urls(all.take(i as int)),
        decreases n - i,
    {
        assert(all.take(i + 1).drop_last() =~= all.take(i as int));
        assert(all.take(i + 1).last() == ms[i as int].deep_view());
        if let Some(url) = group(&ms[i], 1) {
            let ghost before = string_views(urls@);
            urls.push(url);
            assert(string_views(urls@) =~= before.push(url@));
        }
        i += 1;
    }
    urls
}

/// Extract image URLs from Google search results HTML.
pub fn extract_image_urls(text: &str) -> (r: Vec<String>)
    ensures
        string_views(r@) == spec_extract_image_urls(text@),
{
    let m1 = find_matches(JSON_IMAGE_PATTERN, text);
    let urls = kept_image_urls(&m1);
    if urls.len() > 0 {
        return urls;
    }
    let m2 = find_matches(QUOTED_IMAGE_PATTERN, text);
    let urls = kept_image_urls(&m2);
    if urls.len() > 0 {
        return urls;
    }
    let m3 = find_matches(DATA_OU_PATTERN, text);
    data_ou_image_urls(&m3)
}

/// The outcome of a Google search given the result page: its image URLs, or
/// a parse failure when there are none.
pub fn search_outcome(html: &str) -> (r: Result<Vec<String>, SearchError>)
    ensures
        match r {
            Ok(urls) => string_views(urls@) == spec_extract_image_urls(html@) && urls@.len() > 0,
            Err(e) => spec_extract_image_urls(html@).len() == 0 && (e matches SearchError::ParseFailed {
                engine,
                details,
            } && engine@ == "Google"@ && details@ == EMPTY_RESULT_DETAILS@),
        },
{
    let urls = extract_image_urls(html);
    if urls.len() == 0 {
        return Err(SearchError::ParseFailed { engine: "Google", details: String::from_str(EMPTY_RESULT_DETAILS) });
    }
    Ok(urls)
}

} // verus!
