//! SerpAPI's Google Images API: request parameters and reading its JSON
//! answer.

use vstd::prelude::*;
use crate::image_search::{collect_unique, merge_unique, param, param_views, string_views, SearchError, MAX_RESULTS};
use crate::json::{
    as_str_opt, get_opt, member_candidates, member_strings, spec_as_array, spec_as_str, spec_get,
    spec_get_opt, JsonValue,
};
use crate::text::{concat2, concat3, str_eq};

verus! {

/// The engine's name in errors.
pub const ENGINE_NAME: &'static str = "SerpAPI";

/// The environment variable that holds the API key.
pub const API_KEY_VAR: &'static str = "SERP_API";

/// The query parameters of a search.
pub open spec fn spec_request_params(query: Seq<char>, api_key: Seq<char>, is_gif: bool) -> Seq<
    (Seq<char>, Seq<char>),
> {
    seq![
        ("engine"@, "google_images"@),
        ("q"@, query),
        ("api_key"@, api_key),
        ("hl"@, "zh-tw"@),
        ("gl"@, "tw"@),
        ("google_domain"@, "google.com"@),
        ("image_type"@, if is_gif { "animated"@ } else { "photo"@ }),
    ]
}

/// The query parameters of a search.
pub fn request_params(query: &str, api_key: &str, is_gif: bool) -> (r: Vec<(String, String)>)
    ensures
        param_views(r@) == spec_request_params(query@, api_key@, is_gif),
        r@.len() == 7,
        r@[6].0@ == "image_type"@,
        is_gif ==> r@[6].1@ == "animated"@,
        !is_gif ==> r@[6].1@ == "photo"@,
{
    let image_type = if is_gif {
        "animated"
    } else {
        "photo"
    };
    let r = vec![
        param("engine", "google_images"),
        param("q", query),
        param("api_key", api_key),
        param("hl", "zh-tw"),
        param("gl", "tw"),
        param("google_domain", "google.com"),
        param("image_type", image_type),
    ];
    assert(param_views(r@) =~= spec_request_params(query@, api_key@, is_gif));
    assert(param_views(r@)[6] == (r@[6].0@, r@[6].1@));
    r
}

/// The error reported when no API key is set.
pub fn missing_key_error() -> (e: SearchError)
    ensures
        e matches SearchError::NetworkFailed { engine, details } && engine@ == ENGINE_NAME@
            && details@ == "SERP_API is not configured"@,
{
    SearchError::NetworkFailed { engine: ENGINE_NAME, details: String::from_str("SERP_API is not configured") }
}

/// The outcome of a search given the response status text and the parse of
/// the body, as the kind of error and its details, or the URLs.
pub open spec fn spec_results_outcome(status_text: Seq<char>, parsed: Result<JsonValue, String>) -> Result<
    Seq<Seq<char>>,
    (Seq<char>, Seq<char>),
> {
    match parsed {
        Err(msg) => Err(("parse"@, "Invalid JSON: "@ + msg@)),
        Ok(doc) => match spec_as_str(spec_get(doc, "error"@)) {
            Some(m) => Err(("blocked"@, "status="@ + status_text + ", error="@ + m)),
            None => if spec_as_str(spec_get_opt(spec_get(doc, "search_metadata"@), "status"@))
                == Some("Error"@) {
                Err(("blocked"@, "status="@ + status_text + ", search_metadata.status=Error"@))
            } else {
                let urls = match spec_as_array(spec_get(doc, "images_results"@)) {
                    Some(items) => merge_unique(
                        seq![],
                        member_candidates(items, "original"@, "thumbnail"@),
                        10,
                    ),
                    None => seq![],
                };
                if urls.len() == 0 {
                    Err(("no results"@, seq![]))
                } else {
                    Ok(urls)
                }
            },
        },
    }
}

/// The outcome of a search given the response status text and the parse of
/// the body (the document, or the parser's error message).
pub fn results_outcome(status_text: &str, parsed: &Result<JsonValue, String>) -> (r: Result<
    Vec<String>,
    SearchError,
>)
    ensures
        match (r, spec_results_outcome(status_text@, *parsed)) {
            (Ok(urls), Ok(s)) => string_views(urls@) == s,
            (Err(e), Err(s)) => crate::image_search::error_view(e) == s
                && crate::image_search::error_engine(e) == ENGINE_NAME@,
            _ => false,
        },
{
    let doc = match parsed {
        Err(msg) => {
            return Err(
                SearchError::ParseFailed {
                    engine: ENGINE_NAME,
                    details: concat2("Invalid JSON: ", msg.as_str()),
                },
            );
        },
        Ok(doc) => doc,
    };
    if let Some(m) = as_str_opt(doc.get("error")) {
        let mut details = concat3("status=", status_text, ", error=");
        details.append(m);
        return Err(SearchError::Blocked { engine: ENGINE_NAME, details });
    }
    let status = as_str_opt(get_opt(doc.get("search_metadata"), "status"));
    if let Some(st) = status {
        if str_eq(st, "Error") {
            return Err(
                SearchError::Blocked {
                    engine: ENGINE_NAME,
                    details: concat3("status=", status_text, ", search_metadata.status=Error"),
                },
            );
        }
    }
    let mut urls: Vec<String> = Vec::new();
    assert(string_views(urls@) =~= Seq::<Seq<char>>::empty());
    match doc.get("images_results") {
        Some(results) => match results.as_array() {
            Some(items) => {
                let candidates = member_strings(items, "original", "thumbnail");
                assert(string_views(candidates@) == crate::json::text_views(candidates@));
                collect_unique(&mut urls, candidates, MAX_RESULTS);
            },
            None => {},
        },
        None => {},
    }
    if urls.len() == 0 {
        return Err(SearchError::NoResults { engine: ENGINE_NAME });
    }
    Ok(urls)
}

} // verus!
