//! Serper's image API: the request payload and reading its JSON answer.

use vstd::prelude::*;
use crate::image_search::{collect_unique, merge_unique, param, param_views, string_views, SearchError, MAX_RESULTS};
use crate::image_search::{error_engine, error_view};
use crate::json::{as_str_opt, member_candidates, member_strings, spec_as_array, spec_as_str, spec_get, JsonValue};
use crate::text::{concat2, concat3};

verus! {

/// The engine's name in errors.
pub const ENGINE_NAME: &'static str = "Serper";

/// The environment variable that holds the API key.
pub const API_KEY_VAR: &'static str = "SERPER_API";

/// The members of the JSON request body, in order.
pub open spec fn spec_payload_fields(query: Seq<char>, is_gif: bool) -> Seq<(Seq<char>, Seq<char>)> {
    seq![
        ("q"@, query),
        ("gl"@, "tw"@),
        ("hl"@, "zh-tw"@),
        ("type"@, if is_gif { "gif"@ } else { "images"@ }),
    ]
}

/// The members of the JSON request body, in order.
pub fn payload_fields(query: &str, is_gif: bool) -> (r: Vec<(String, String)>)
    ensures
        param_views(r@) == spec_payload_fields(query@, is_gif),
        r@.len() == 4,
        r@[3].0@ == "type"@,
        is_gif ==> r@[3].1@ == "gif"@,
        !is_gif ==> r@[3].1@ == "images"@,
{
    let kind = if is_gif {
        "gif"
    } else {
        "images"
    };
    let r = vec![param("q", query), param("gl", "tw"), param("hl", "zh-tw"), param("type", kind)];
    assert(param_views(r@) =~= spec_payload_fields(query@, is_gif));
    assert(param_views(r@)[3] == (r@[3].0@, r@[3].1@));
    r
}

/// The error reported when no API key is set.
pub fn missing_key_error() -> (e: SearchError)
    ensures
        e matches SearchError::NetworkFailed { engine, details } && engine@ == ENGINE_NAME@
            && details@ == "SERPER_API is not configured"@,
{
    SearchError::NetworkFailed { engine: ENGINE_NAME, details: String::from_str("SERPER_API is not configured") }
}

/// The outcome of a search given the response status text and the parse of
/// the body, as the kind of error and its details, or the URLs.
pub open spec fn spec_results_outcome(status_text: Seq<char>, parsed: Result<JsonValue, String>) -> Result<
    Seq<Seq<char>>,
    (Seq<char>, Seq<char>),
> {
    match parsed {
        Err(msg) => Err(("parse"@, "Invalid JSON: "@ + msg@)),
        Ok(doc) => match spec_as_str(spec_get(doc, "message"@)) {
            Some(m) => Err(("blocked"@, "status="@ + status_text + ", message="@ + m)),
            None => match spec_as_str(spec_get(doc, "error"@)) {
                Some(m) => Err(("blocked"@, "status="@ + status_text + ", error="@ + m)),
                None => {
                    let urls = match spec_as_array(spec_get(doc, "images"@)) {
                        Some(items) => merge_unique(
                            seq![],
                            member_candidates(items, "imageUrl"@, "thumbnailUrl"@),
                            10,
                        ),
                        None => seq![],
                    };
                    if urls.len() == 0 {
                        Err(("no results"@, seq![]))
                    } else {
                        Ok(urls)
                    }
                },
            },
        },
    }
}

/// The outcome of a search given the response status text and the parse of
/// the body (the document, or the parser's error message).
pub fn results_outcome(status_text: &str, parsed: &Result<JsonValue, String>) -> (r: Result<
    Vec<String>,
    SearchError,
>)
    ensures
        match (r, spec_results_outcome(status_text@, *parsed)) {
            (Ok(urls), Ok(s)) => string_views(urls@) == s,
            (Err(e), Err(s)) => error_view(e) == s && error_engine(e) == ENGINE_NAME@,
            _ => false,
        },
{
    let doc = match parsed {
        Err(msg) => {
            return Err(
                SearchError::ParseFailed {
                    engine: ENGINE_NAME,
                    details: concat2("Invalid JSON: ", msg.as_str()),
                },
            );
        },
        Ok(doc) => doc,
    };
    if let Some(m) = as_str_opt(doc.get("message")) {
        let mut details = concat3("status=", status_text, ", message=");
        details.append(m);
        return Err(SearchError::Blocked { engine: ENGINE_NAME, details });
    }
    if let Some(m) = as_str_opt(doc.get("error")) {
        let mut details = concat3("status=", status_text, ", error=");
        details.append(m);
        return Err(SearchError::Blocked { engine: ENGINE_NAME, details });
    }
    let mut urls: Vec<String> = Vec::new();
    assert(string_views(urls@) =~= Seq::<Seq<char>>::empty());
    match doc.get("images") {
        Some(results) => match results.as_array() {
            Some(items) => {
                let candidates = member_strings(items, "imageUrl", "thumbnailUrl");
                assert(string_views(candidates@) == crate::json::text_views(candidates@));
                collect_unique(&mut urls, candidates, MAX_RESULTS);
            },
            None => {},
        },
        None => {},
    }
    if urls.len() == 0 {
        return Err(SearchError::NoResults { engine: ENGINE_NAME });
    }
    Ok(urls)
}

} // verus!
