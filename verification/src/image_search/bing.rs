//! Bing image search: request parameters, block detection and extraction of
//! image URLs from the result page.

use vstd::prelude::*;
use crate::image_search::{
    blocked_status, collect_unique, merge_unique, param, param_views, status_details,
    string_views, unescape_string, SearchError, MAX_RESULTS,
};
use crate::pattern::{find_matches, group, group_of, matches_or_none, regex_captures};
use crate::text::{
    chars_of, find_from, index_from, occurs_at, lemma_index_from_finds, replace, replace_seq, seq_contains,
    seq_starts_with, slice_chars, starts_with, str_contains, string_of, unescape, unescape_seq,
};

verus! {

/// The `m` attribute of the `iusc` anchors, which holds HTML-encoded JSON.
pub const IUSC_PATTERN: &'static str = r#"<a[^>]+class="iusc"[^>]+m="(\{[^"]+\})"[^>]*>"#;

/// A `murl` member of a raw JSON blob.
pub const MURL_PATTERN: &'static str = r#""murl"\s*:\s*"(https?://[^"]+)""#;

/// Below this many URLs from the anchors, the raw JSON blobs are searched too.
pub const FALLBACK_THRESHOLD: usize = 5;

/// The query parameters of a Bing image search.
pub open spec fn spec_request_params(query: Seq<char>, is_gif: bool) -> Seq<(Seq<char>, Seq<char>)> {
    seq![
        ("q"@, query),
        ("form"@, "HDRSC2"@),
        ("first"@, "1"@),
        ("qft"@, if is_gif { "+filterui:photo-animatedgif"@ } else { "+filterui:photo-photo"@ }),
    ]
}

/// The query parameters of a Bing image search.
pub fn request_params(query: &str, is_gif: bool) -> (r: Vec<(String, String)>)
    ensures
        param_views(r@) == spec_request_params(query@, is_gif),
        r@.len() == 4,
        r@[3].0@ == "qft"@,
        is_gif ==> r@[3].1@ == "+filterui:photo-animatedgif"@,
        !is_gif ==> r@[3].1@ == "+filterui:photo-photo"@,
{
    let qft = if is_gif {
        "+filterui:photo-animatedgif"
    } else {
        "+filterui:photo-photo"
    };
    let r = vec![param("q", query), param("form", "HDRSC2"), param("first", "1"), param("qft", qft)];
    assert(param_views(r@) =~= spec_request_params(query@, is_gif));
    assert(param_views(r@)[3] == (r@[3].0@, r@[3].1@));
    r
}

/// The `murl` member of a JSON text: the characters between `"murl":"` and
/// the next quote, unescaped, provided they start with `http`.
pub open spec fn spec_extract_murl(s: Seq<char>) -> Option<Seq<char>> {
    let key = "\"murl\":\""@;
    match index_from(s, key, 0) {
        None => None,
        Some(i) => match index_from(s, "\""@, i + key.len()) {
            None => None,
            Some(j) => {
                let url = s.subrange(i + key.len(), j);
                if seq_starts_with(url, "http"@) {
                    Some(unescape_seq(url))
                } else {
                    None
                }
            },
        },
    }
}

/// The `murl` member of the JSON text of an anchor's `m` attribute.
pub fn extract_murl(json_str: &str) -> (r: Option<String>)
    ensures
        match r {
            Some(u) => spec_extract_murl(json_str@) == Some(u@),
            None => spec_extract_murl(json_str@) is None,
        },
{
    let s = chars_of(json_str);
    let key = chars_of("\"murl\":\"");
    let quote = chars_of("\"");
    let http = chars_of("http");
    proof {
        lemma_index_from_finds(s@, key@, 0);
    }
    let i = match find_from(s.as_slice(), key.as_slice(), 0) {
        Some(i) => i,
        None => return None,
    };
    assert(index_from(s@, key@, 0) == Some(i as int));
    assert(occurs_at(s@, key@, i as int));
    assert(i + key@.len() <= s@.len());
    assert(s@.len() == s.len());
    assert(key@.len() == key.len());
    let start = i + key.len();
    proof {
        lemma_index_from_finds(s@, quote@, start as int);
    }
    let end = match find_from(s.as_slice(), quote.as_slice(), start) {
        Some(j) => j,
        None => return None,
    };
    let url = slice_chars(s.as_slice(), start, end);
    if starts_with(url.as_slice(), http.as_slice()) {
        let u = unescape(url.as_slice());
        Some(string_of(u.as_slice()))
    } else {
        None
    }
}

/// The `murl` of each anchor's `m` attribute (with `&quot;` decoded), in order.
pub open spec fn iusc_candidates(ms: Seq<Seq<Option<Seq<char>>>>) -> Seq<Seq<char>>
    decreases ms.len(),
{
    if ms.len() == 0 {
        seq![]
    } else {
        let rest = iusc_candidates(ms.drop_first());
        match group_of(ms[0], 1) {
            Some(m) => match spec_extract_murl(replace_seq(m, "&quot;"@, "\""@)) {
                Some(u) => seq![u] + rest,
                None => rest,
            },
            None => rest,
        }
    }
}

/// Capture group 1 of each match, unescaped, in order.
pub open spec fn murl_candidates(ms: Seq<Seq<Option<Seq<char>>>>) -> Seq<Seq<char>>
    decreases ms.len(),
{
    if ms.len() == 0 {
        seq![]
    } else {
        let rest = murl_candidates(ms.drop_first());
        match group_of(ms[0], 1) {
            Some(u) => seq![unescape_seq(u)] + rest,
            None => rest,
        }
    }
}

/// The image URLs of a result page: the distinct `murl`s of the anchors, up
/// to ten; with fewer than five, topped up from the raw `murl` members.
pub open spec fn spec_extract_image_urls(text: Seq<char>) -> Seq<Seq<char>> {
    let first = merge_unique(
        seq![],
        iusc_candidates(matches_or_none(regex_captures(IUSC_PATTERN@, text))),
        10,
    );
    if first.len() < 5 {
        merge_unique(first, murl_candidates(matches_or_none(regex_captures(MURL_PATTERN@, text))), 10)
    } else {
        first
    }
}

/// The `murl`s of the anchors' `m` attributes, in order.
pub fn iusc_urls(ms: &Vec<Vec<Option<String>>>) -> (r: Vec<String>)
    ensures
        string_views(r@) == iusc_candidates(ms.deep_view()),
{
    let ghost all = ms.deep_view();
    let mut out: Vec<String> = Vec::new();
    let quot = chars_of("&quot;");
    let dq = chars_of("\"");
    proof {
        reveal_strlit("&quot;");
    }
    let mut i: usize = ms.len();
    assert(all.skip(i as int) =~= Seq::<Seq<Option<Seq<char>>>>::empty());
    while i > 0
        invariant
            all == ms.deep_view(),
            i <= all.len(),
            quot@ == "&quot;"@,
            quot@.len() > 0,
            dq@ == "\""@,
            string_views(out@) == iusc_candidates(all.skip(i as int)),
        decreases i,
    {
        i -= 1;
        let ghost rest = all.skip(i as int);
        assert(rest[0] == ms[i as int].deep_view());
        assert(rest.drop_first() =~= all.skip(i + 1));
        if let Some(m) = group(&ms[i], 1) {
            let mv = chars_of(m.as_str());
            let decoded = replace(mv.as_slice(), quot.as_slice(), dq.as_slice());
            let ds = string_of(decoded.as_slice());
            if let Some(u) = extract_murl(ds.as_str()) {
                let ghost before = string_views(out@);
                out.insert(0, u);
                assert(string_views(out@) =~= seq![u@] + before);
            }
        }
    }
    assert(all.skip(0) =~= all);
    out
}

/// Capture group 1 of each match, unescaped, in order.
pub fn murl_urls(ms: &Vec<Vec<Option<String>>>) -> (r: Vec<String>)
    ensures
        string_views(r@) == murl_candidates(ms.deep_view()),
{
    let ghost all = ms.deep_view();
    let mut out: Vec<String> = Vec::new();
    let mut i: usize = ms.len();
    assert(all.skip(i as int) =~= Seq::<Seq<Option<Seq<char>>>>::empty());
    while i > 0
        invariant
            all == ms.deep_view(),
            i <= all.len(),
            string_views(out@) == murl_candidates(all.skip(i as int)),
        decreases i,
    {
        i -= 1;
        let ghost rest = all.skip(i as int);
        assert(rest[0] == ms[i as int].deep_view());
        assert(rest.drop_first() =~= all.skip(i + 1));
        if let Some(u) = group(&ms[i], 1) {
            let ghost before = string_views(out@);
            out.insert(0, unescape_string(u.as_str()));
            assert(string_views(out@) =~= seq![unescape_seq(u@)] + before);
        }
    }
    assert(all.skip(0) =~= all);
    out
}

/// Extract image URLs from a Bing image search result page.
pub fn extract_image_urls(text: &str) -> (r: Vec<String>)
    ensures
        string_views(r@) == spec_extract_image_urls(text@),
{
    let mut urls: Vec<String> = Vec::new();
    assert(string_views(urls@) =~= Seq::<Seq<char>>::empty());
    let m1 = find_matches(IUSC_PATTERN, text);
    collect_unique(&mut urls, iusc_urls(&m1), MAX_RESULTS);
    if urls.len() < FALLBACK_THRESHOLD {
        let m2 = find_matches(MURL_PATTERN, text);
        collect_unique(&mut urls, murl_urls(&m2), MAX_RESULTS);
    }
    urls
}

/// A result page that Bing served instead of results: a rate-limit or
/// forbidden status, or a human-verification page.
pub open spec fn spec_is_blocked(status_code: u16, html: Seq<char>) -> bool {
    blocked_status(status_code) || seq_contains(html, "Please verify you are a human"@)
        || seq_contains(html, "captcha"@)
}

/// Was the search blocked or challenged?
pub fn is_blocked(status_code: u16, html: &str) -> (r: bool)
    ensures
        r == spec_is_blocked(status_code, html@),
{
    status_code == 429 || status_code == 403 || str_contains(html, "Please verify you are a human")
        || str_contains(html, "captcha")
}

/// The message of the error for a page without image URLs.
pub const NO_URLS_DETAILS: &'static str = "No image URLs extracted from HTML";

/// The outcome of a Bing search given the response status (its code and its
/// text) and the result page.
pub fn search_outcome(status_code: u16, status_text: &str, html: &str) -> (r: Result<
    Vec<String>,
    SearchError,
>)
    ensures
        spec_is_blocked(status_code, html@) ==> (r matches Err(SearchError::Blocked { engine, details })
            && engine@ == "Bing"@ && details@ == "status="@ + status_text@),
        !spec_is_blocked(status_code, html@) && spec_extract_image_urls(html@).len() == 0 ==> (r matches Err(
            SearchError::ParseFailed { engine, details },
        ) && engine@ == "Bing"@ && details@ == NO_URLS_DETAILS@),
        !spec_is_blocked(status_code, html@) && spec_extract_image_urls(html@).len() > 0 ==> (r matches Ok(
            urls,
        ) && string_views(urls@) == spec_extract_image_urls(html@)),
{
    if is_blocked(status_code, html) {
        return Err(SearchError::Blocked { engine: "Bing", details: status_details(status_text) });
    }
    let urls = extract_image_urls(html);
    if urls.len() == 0 {
        return Err(
            SearchError::ParseFailed { engine: "Bing", details: String::from_str(NO_URLS_DETAILS) },
        );
    }
    Ok(urls)
}

} // verus!
