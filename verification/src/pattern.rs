//! Regular-expression captures and URL validity, computed by the `regex` and
//! `url` crates.

use vstd::prelude::*;

verus! {

/// For a pattern and a text: `None` if the pattern does not compile,
/// otherwise, for each successive non-overlapping match, the text of every
/// capture group (group 0 being the whole match; `None` for a group that did
/// not take part in the match), as `regex::Regex::captures_iter` finds them.
pub uninterp spec fn regex_captures(pattern: Seq<char>, text: Seq<char>) -> Option<
    Seq<Seq<Option<Seq<char>>>>,
>;

/// Whether `url::Url::parse` accepts the text as an absolute URL.
pub uninterp spec fn url_parses(text: Seq<char>) -> bool;

/// Compiles `pattern` with `regex::Regex::new` and collects the capture
/// groups of every match that `Regex::captures_iter` yields on `text`. The
/// result depends on the pattern and the text alone; nothing more is claimed
/// of it here.
#[verifier::external_body]
pub(crate) fn captures_all(pattern: &str, text: &str) -> (r: Option<Vec<Vec<Option<String>>>>)
    ensures
        r.deep_view() == regex_captures(pattern@, text@),
{
    regex::Regex::new(pattern).ok().map(
        |re|
            re.captures_iter(text).map(
                |caps| caps.iter().map(|m| m.map(|m| m.as_str().to_string())).collect(),
            ).collect(),
    )
}

/// Calls `url::Url::parse` and reports whether it succeeded; the outcome
/// depends on the text alone.
#[verifier::external_body]
pub(crate) fn url_is_valid(text: &str) -> (r: bool)
    ensures
        r == url_parses(text@),
{
    url::Url::parse(text).is_ok()
}

/// Capture group `g` of one match, if it took part.
pub open spec fn group_of(caps: Seq<Option<Seq<char>>>, g: int) -> Option<Seq<char>> {
    if 0 <= g < caps.len() {
        caps[g]
    } else {
        None
    }
}

/// The matches of a capture result, none when the pattern did not compile.
pub open spec fn matches_or_none(r: Option<Seq<Seq<Option<Seq<char>>>>>) -> Seq<Seq<Option<Seq<char>>>> {
    match r {
        Some(m) => m,
        None => seq![],
    }
}

/// Capture group `g` of one match, as a string.
pub fn group(caps: &Vec<Option<String>>, g: usize) -> (r: Option<String>)
    ensures
        r.deep_view() == group_of(caps.deep_view(), g as int),
{
    if g < caps.len() {
        match &caps[g] {
            Some(s) => Some(s.clone()),
            None => None,
        }
    } else {
        None
    }
}

/// The successive matches of `pattern` in `text` (none if the pattern does
/// not compile).
pub fn find_matches(pattern: &str, text: &str) -> (r: Vec<Vec<Option<String>>>)
    ensures
        r.deep_view() == matches_or_none(regex_captures(pattern@, text@)),
{
    match captures_all(pattern, text) {
        Some(m) => m,
        None => {
            let v: Vec<Vec<Option<String>>> = Vec::new();
            assert(v.deep_view() =~= Seq::<Seq<Option<Seq<char>>>>::empty());
            v
        },
    }
}

} // verus!
