//! Recognising links that point at imgur.

use vstd::prelude::*;
use crate::text::{concat2, seq_contains, str_contains};

verus! {

/// Whether a URL points at imgur.
pub open spec fn spec_is_imgur_url(url: Seq<char>) -> bool {
    seq_contains(url, "imgur.com"@) || seq_contains(url, "i.imgur.com"@)
}

/// Check if the URL is from imgur.
pub fn is_imgur_url(url: &str) -> (b: bool)
    ensures
        b == spec_is_imgur_url(url@),
{
    str_contains(url, "imgur.com") || str_contains(url, "i.imgur.com")
}


/// A successful HTTP status: 200 to 299.
pub open spec fn spec_status_success(status_code: u16) -> bool {
    200 <= status_code < 300
}

/// The error message for a download answered with an unsuccessful status,
/// or `None` when the status is a success.
pub fn download_failure(status_code: u16, status_text: &str) -> (r: Option<String>)
    ensures
        match r {
            Some(msg) => !spec_status_success(status_code) && msg@ == "HTTP error: "@ + status_text@,
            None => spec_status_success(status_code),
        },
{
    if 200 <= status_code && status_code < 300 {
        None
    } else {
        Some(concat2("HTTP error: ", status_text))
    }
}
} // verus!
