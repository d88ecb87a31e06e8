//! DuckDuckGo image search: the `vqd` token of the search page and the image
//! URLs of the `i.js` JSON answer.
//!
//! DuckDuckGo needs two requests: the search page, whose HTML carries a
//! `vqd` token, then `i.js` with that token, which answers with JSON.

use vstd::prelude::*;
use crate::image_search::{
    blocked_status, collect_unique, merge_unique, param, param_views, status_details,
    string_views, unescape_string, error_engine, error_view, SearchError, MAX_RESULTS,
};
use crate::json::{as_str_opt, spec_as_array, spec_as_str, spec_get, JsonValue};
use crate::pattern::{find_matches, group, group_of, matches_or_none, regex_captures};
use crate::text::{concat2, concat3, seq_contains, str_contains, unescape_seq};

verus! {

/// The token as `vqd="..."` or `vqd='...'`.
pub const VQD_PATTERN: &'static str = r#"vqd=["']([^"']+)["']"#;

/// The token as `vqd:...`, without quotes.
pub const VQD_FALLBACK_PATTERN: &'static str = r#"vqd:([0-9a-zA-Z\-]+)"#;

/// The query parameters of the search page request.
pub open spec fn spec_page_params(query: Seq<char>) -> Seq<(Seq<char>, Seq<char>)> {
    seq![("q"@, query), ("iax"@, "images"@), ("ia"@, "images"@)]
}

/// The query parameters of the search page request.
pub fn page_params(query: &str) -> (r: Vec<(String, String)>)
    ensures
        param_views(r@) == spec_page_params(query@),
{
    let r = vec![param("q", query), param("iax", "images"), param("ia", "images")];
    assert(param_views(r@) =~= spec_page_params(query@));
    r
}

/// The query parameters of the `i.js` request.
pub open spec fn spec_results_params(query: Seq<char>, vqd: Seq<char>, is_gif: bool) -> Seq<
    (Seq<char>, Seq<char>),
> {
    seq![
        ("q"@, query),
        ("o"@, "json"@),
        ("vqd"@, vqd),
        ("f"@, if is_gif { "type:gif"@ } else { "type:photo"@ }),
        ("p"@, "1"@),
    ]
}

/// The query parameters of the `i.js` request.
pub fn results_params(query: &str, vqd: &str, is_gif: bool) -> (r: Vec<(String, String)>)
    ensures
        param_views(r@) == spec_results_params(query@, vqd@, is_gif),
        r@.len() == 5,
        r@[3].0@ == "f"@,
        is_gif ==> r@[3].1@ == "type:gif"@,
        !is_gif ==> r@[3].1@ == "type:photo"@,
{
    let type_filter = if is_gif {
        "type:gif"
    } else {
        "type:photo"
    };
    let r = vec![
        param("q", query),
        param("o", "json"),
        param("vqd", vqd),
        param("f", type_filter),
        param("p", "1"),
    ];
    assert(param_views(r@) =~= spec_results_params(query@, vqd@, is_gif));
    assert(param_views(r@)[3] == (r@[3].0@, r@[3].1@));
    r
}

/// A search page that DuckDuckGo served instead of results.
pub open spec fn spec_is_blocked_search_page(status_code: u16, html: Seq<char>) -> bool {
    blocked_status(status_code) || seq_contains(html, "ops@duckduckgo.com"@) || seq_contains(
        html,
        "anomaly"@,
    )
}

/// Was the search page blocked?
pub fn is_blocked_search_page(status_code: u16, html: &str) -> (r: bool)
    ensures
        r == spec_is_blocked_search_page(status_code, html@),
{
    status_code == 429 || status_code == 403 || str_contains(html, "ops@duckduckgo.com")
        || str_contains(html, "anomaly")
}

/// An `i.js` answer that DuckDuckGo served instead of results.
pub open spec fn spec_is_blocked_i_js(status_code: u16, body: Seq<char>) -> bool {
    blocked_status(status_code) || seq_contains(body, "ops@duckduckgo.com"@)
}

/// Was the `i.js` request blocked?
pub fn is_blocked_i_js(status_code: u16, body: &str) -> (r: bool)
    ensures
        r == spec_is_blocked_i_js(status_code, body@),
{
    status_code == 429 || status_code == 403 || str_contains(body, "ops@duckduckgo.com")
}

/// Capture group 1 of the first match, if any.
pub open spec fn first_group_one(ms: Seq<Seq<Option<Seq<char>>>>) -> Option<Seq<char>> {
    if ms.len() > 0 {
        group_of(ms[0], 1)
    } else {
        None
    }
}

/// Capture group 1 of the first match, if any.
pub fn first_group_one_of(ms: &Vec<Vec<Option<String>>>) -> (r: Option<String>)
    ensures
        r.deep_view() == first_group_one(ms.deep_view()),
{
    if ms.len() > 0 {
        group(&ms[0], 1)
    } else {
        None
    }
}

/// The message of the error for a page without token.
pub const NO_TOKEN_DETAILS: &'static str = "Could not extract vqd token from search page";

/// The `vqd` token of a search page, or why there is none: the page was
/// blocked, or neither form of the token occurs in it.
pub open spec fn spec_extract_vqd(status_code: u16, status_text: Seq<char>, html: Seq<char>) -> Result<
    Seq<char>,
    (Seq<char>, Seq<char>),
> {
    if spec_is_blocked_search_page(status_code, html) {
        Err(("blocked"@, "status="@ + status_text + ", vqd page blocked"@))
    } else {
        match first_group_one(matches_or_none(regex_captures(VQD_PATTERN@, html))) {
            Some(t) => Ok(t),
            None => match first_group_one(
                matches_or_none(regex_captures(VQD_FALLBACK_PATTERN@, html)),
            ) {
                Some(t) => Ok(t),
                None => Err(("parse"@, NO_TOKEN_DETAILS@)),
            },
        }
    }
}

/// Extract the `vqd` token from the search page, given its status (code and
/// text).
pub fn extract_vqd(status_code: u16, status_text: &str, html: &str) -> (r: Result<String, SearchError>)
    ensures
        match (r, spec_extract_vqd(status_code, status_text@, html@)) {
            (Ok(t), Ok(s)) => t@ == s,
            (Err(e), Err(s)) => error_view(e) == s && error_engine(e) == "DDG"@,
            _ => false,
        },
{
    if is_blocked_search_page(status_code, html) {
        return Err(
            SearchError::Blocked {
                engine: "DDG",
                details: concat3("status=", status_text, ", vqd page blocked"),
            },
        );
    }
    let m1 = find_matches(VQD_PATTERN, html);
    if let Some(t) = first_group_one_of(&m1) {
        return Ok(t);
    }
    let m2 = find_matches(VQD_FALLBACK_PATTERN, html);
    if let Some(t) = first_group_one_of(&m2) {
        return Ok(t);
    }
    Err(SearchError::ParseFailed { engine: "DDG", details: String::from_str(NO_TOKEN_DETAILS) })
}

/// The `image` member of each result, unescaped, in order.
pub open spec fn image_candidates(items: Seq<JsonValue>) -> Seq<Seq<char>>
    decreases items.len(),
{
    if items.len() == 0 {
        seq![]
    } else {
        let rest = image_candidates(items.drop_first());
        match spec_as_str(spec_get(items[0], "image"@)) {
            Some(u) => seq![unescape_seq(u)] + rest,
            None => rest,
        }
    }
}

/// The image URLs of an `i.js` document: the distinct `image` members of its
/// `results`, up to ten.
pub open spec fn spec_document_urls(doc: JsonValue) -> Seq<Seq<char>> {
    match spec_as_array(spec_get(doc, "results"@)) {
        Some(items) => merge_unique(seq![], image_candidates(items), 10),
        None => seq![],
    }
}

/// The `image` members of the results, unescaped, in order.
pub fn image_urls(items: &Vec<JsonValue>) -> (r: Vec<String>)
    ensures
        string_views(r@) == image_candidates(items@),
{
    let mut out: Vec<String> = Vec::new();
    let mut i: usize = items.len();
    assert(items@.skip(i as int) =~= Seq::<JsonValue>::empty());
    while i > 0
        invariant
            i <= items@.len(),
            string_views(out@) == image_candidates(items@.skip(i as int)),
        decreases i,
    {
        i -= 1;
        let ghost rest = items@.skip(i as int);
        assert(rest[0] == items@[i as int]);
        assert(rest.drop_first() =~= items@.skip(i + 1));
        if let Some(u) = as_str_opt(items[i].get("image")) {
            let ghost before = string_views(out@);
            out.insert(0, unescape_string(u));
            assert(string_views(out@) =~= seq![unescape_seq(u@)] + before);
        }
    }
    assert(items@.skip(0) =~= items@);
    out
}

/// Extract image URLs from the `i.js` answer, given its parse (the document,
/// or the parser's error message).
pub fn extract_image_urls(parsed: &Result<JsonValue, String>) -> (r: Result<Vec<String>, SearchError>)
    ensures
        match parsed {
            Ok(doc) => r matches Ok(urls) && string_views(urls@) == spec_document_urls(*doc),
            Err(msg) => r matches Err(SearchError::ParseFailed { engine, details }) && engine@
                == "DDG"@ && details@ == "Invalid i.js JSON: "@ + msg@,
        },
{
    match parsed {
        Err(msg) => Err(
            SearchError::ParseFailed {
                engine: "DDG",
                details: concat2("Invalid i.js JSON: ", msg.as_str()),
            },
        ),
        Ok(doc) => {
            let mut urls: Vec<String> = Vec::new();
            assert(string_views(urls@) =~= Seq::<Seq<char>>::empty());
            match doc.get("results") {
                Some(results) => match results.as_array() {
                    Some(items) => {
                        collect_unique(&mut urls, image_urls(items), MAX_RESULTS);
                    },
                    None => {},
                },
                None => {},
            }
            Ok(urls)
        },
    }
}

/// The outcome of the `i.js` request given its status (code and text), its
/// body and the parse of the body.
pub open spec fn spec_results_outcome(
    status_code: u16,
    status_text: Seq<char>,
    body: Seq<char>,
    parsed: Result<JsonValue, String>,
) -> Result<Seq<Seq<char>>, (Seq<char>, Seq<char>)> {
    if spec_is_blocked_i_js(status_code, body) {
        Err(("blocked"@, "status="@ + status_text + ", body matched block page"@))
    } else {
        match parsed {
            Err(msg) => Err(("parse"@, "Invalid i.js JSON: "@ + msg@)),
            Ok(doc) => if spec_document_urls(doc).len() == 0 {
                Err(("no results"@, seq![]))
            } else {
                Ok(spec_document_urls(doc))
            },
        }
    }
}

/// The outcome of the `i.js` request.
pub fn results_outcome(
    status_code: u16,
    status_text: &str,
    body: &str,
    parsed: &Result<JsonValue, String>,
) -> (r: Result<Vec<String>, SearchError>)
    ensures
        match (r, spec_results_outcome(status_code, status_text@, body@, *parsed)) {
            (Ok(urls), Ok(s)) => string_views(urls@) == s,
            (Err(e), Err(s)) => error_view(e) == s && error_engine(e) == "DDG"@,
            _ => false,
        },
{
    if is_blocked_i_js(status_code, body) {
        return Err(
            SearchError::Blocked {
                engine: "DDG",
                details: concat3("status=", status_text, ", body matched block page"),
            },
        );
    }
    let urls = extract_image_urls(parsed)?;
    if urls.len() == 0 {
        return Err(SearchError::NoResults { engine: "DDG" });
    }
    Ok(urls)
}

} // verus!
