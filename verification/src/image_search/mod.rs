//! Combining several image search engines: which engines run, how their
//! results are merged, and what is reported when none of them delivers.
//!
//! The HTTP requests themselves are made by the caller; this module receives
//! each engine's outcome as a plain value.

use vstd::prelude::*;
use crate::text::{concat2, concat3, seq_trim, str_trim, chars_of, join, views};

pub mod bing;
pub mod ddg;
pub mod serpapi;
pub mod serper;

verus! {

/// The most URLs any engine, and the combined search, hands back.
pub const MAX_RESULTS: usize = 10;

/// The query that the startup health check searches for.
pub const HEALTH_CHECK_QUERY: &'static str = "cat";

/// The image search engines, in the order in which their results are merged.
#[derive(Clone, Copy, Debug, PartialEq, Eq, Structural)]
pub enum SearchEngine {
    Serper,
    Google,
    SerpApi,
    Ddg,
    Bing,
}

/// The display name of an engine.
pub open spec fn spec_label(engine: SearchEngine) -> Seq<char> {
    match engine {
        SearchEngine::Serper => "Serper"@,
        SearchEngine::Google => "Google"@,
        SearchEngine::SerpApi => "SerpAPI"@,
        SearchEngine::Ddg => "DDG"@,
        SearchEngine::Bing => "Bing"@,
    }
}

impl SearchEngine {
    /// The display name of the engine.
    pub fn label(self) -> (r: &'static str)
        ensures
            r@ == spec_label(self),
    {
        match self {
            SearchEngine::Serper => "Serper",
            SearchEngine::Google => "Google",
            SearchEngine::SerpApi => "SerpAPI",
            SearchEngine::Ddg => "DDG",
            SearchEngine::Bing => "Bing",
        }
    }
}

/// How a single engine's search failed.
#[derive(Clone, Debug, PartialEq, Eq)]
pub enum SearchError {
    Blocked { engine: &'static str, details: String },
    NoResults { engine: &'static str },
    ParseFailed { engine: &'static str, details: String },
    NetworkFailed { engine: &'static str, details: String },
}

/// The human-readable text of a search error.
pub open spec fn spec_error_text(e: SearchError) -> Seq<char> {
    match e {
        SearchError::Blocked { engine, details } => engine@ + " blocked: "@ + details@,
        SearchError::NoResults { engine } => engine@ + " returned no results"@,
        SearchError::ParseFailed { engine, details } => engine@ + " parse failed: "@ + details@,
        SearchError::NetworkFailed { engine, details } => engine@ + " network failed: "@ + details@,
    }
}

impl SearchError {
    /// The human-readable text of the error.
    pub fn message(&self) -> (r: String)
        ensures
            r@ == spec_error_text(*self),
    {
        match self {
            SearchError::Blocked { engine, details } => concat3(
                engine,
                " blocked: ",
                details.as_str(),
            ),
            SearchError::NoResults { engine } => concat2(engine, " returned no results"),
            SearchError::ParseFailed { engine, details } => concat3(
                engine,
                " parse failed: ",
                details.as_str(),
            ),
            SearchError::NetworkFailed { engine, details } => concat3(
                engine,
                " network failed: ",
                details.as_str(),
            ),
        }
    }
}

// ---------------------------------------------------------------------------
// Deduplicated, capped lists of URLs
// ---------------------------------------------------------------------------

/// The character sequences of a list of strings.
pub open spec fn string_views(v: Seq<String>) -> Seq<Seq<char>> {
    v.map_values(|s: String| s@)
}

/// `acc` extended by the items of `items`, in order, skipping any already
/// present and stopping once `cap` entries are reached.
pub open spec fn merge_unique(acc: Seq<Seq<char>>, items: Seq<Seq<char>>, cap: nat) -> Seq<Seq<char>>
    decreases items.len(),
{
    if items.len() == 0 || acc.len() >= cap {
        acc
    } else if acc.contains(items[0]) {
        merge_unique(acc, items.drop_first(), cap)
    } else {
        merge_unique(acc.push(items[0]), items.drop_first(), cap)
    }
}

/// No entry occurs twice.
pub open spec fn no_duplicates(s: Seq<Seq<char>>) -> bool {
    forall|i: int, j: int| 0 <= i < j < s.len() ==> s[i] != s[j]
}

/// Is `u` among the strings of `v`?
pub fn contains_string(v: &Vec<String>, u: &String) -> (r: bool)
    ensures
        r == string_views(v@).contains(u@),
{
    let mut i: usize = 0;
    while i < v.len()
        invariant
            i <= v@.len(),
            forall|j: int| 0 <= j < i ==> v@[j]@ != u@,
        decreases v.len() - i,
    {
        if v[i] == *u {
            assert(string_views(v@)[i as int] == u@);
            return true;
        }
        i += 1;
    }
    proof {
        if string_views(v@).contains(u@) {
            let j = choose|j: int| 0 <= j < string_views(v@).len() && string_views(v@)[j] == u@;
            assert(v@[j]@ == u@);
        }
    }
    false
}

/// Append the items to `acc` as `merge_unique` describes.
pub fn collect_unique(acc: &mut Vec<String>, items: Vec<String>, cap: usize)
    ensures
        string_views(final(acc)@) == merge_unique(string_views(old(acc)@), string_views(items@), cap as nat),
{
    let ghost target = merge_unique(string_views(acc@), string_views(items@), cap as nat);
    let ghost all = string_views(items@);
    assert(all.skip(0) =~= all);
    for url in it: items
        invariant
            all == string_views(it.seq()),
            target == merge_unique(string_views(acc@), all.skip(it.index() as int), cap as nat),
    {
        let ghost i = it.index();
        let ghost rest = all.skip(i as int);
        assert(rest[0] == url@);
        assert(rest.drop_first() =~= all.skip(i + 1));
        if acc.len() >= cap {
            assert(merge_unique(string_views(acc@), rest, cap as nat) == string_views(acc@));
            proof {
                lemma_merge_unique_full(string_views(acc@), all.skip(i + 1), cap as nat);
            }
        } else if !contains_string(acc, &url) {
            let ghost before = string_views(acc@);
            acc.push(url);
            assert(string_views(acc@) =~= before.push(rest[0]));
        }
    }
    assert(all.skip(all.len() as int) =~= Seq::<Seq<char>>::empty());
}

/// Once `acc` is full, merging changes nothing.
pub proof fn lemma_merge_unique_full(acc: Seq<Seq<char>>, items: Seq<Seq<char>>, cap: nat)
    requires
        acc.len() >= cap,
    ensures
        merge_unique(acc, items, cap) == acc,
{
}

/// Merging keeps `acc` as a prefix, never duplicates an entry, never grows
/// past `cap` (or past `acc` if that was already longer), and only adds items.
pub proof fn lemma_merge_unique_properties(acc: Seq<Seq<char>>, items: Seq<Seq<char>>, cap: nat)
    ensures
        merge_unique(acc, items, cap).len() >= acc.len(),
        merge_unique(acc, items, cap).take(acc.len() as int) == acc,
        merge_unique(acc, items, cap).len() <= if acc.len() > cap {
            acc.len()
        } else {
            cap
        },
        no_duplicates(acc) ==> no_duplicates(merge_unique(acc, items, cap)),
        forall|x: Seq<char>| #[trigger]
            merge_unique(acc, items, cap).contains(x) ==> acc.contains(x) || items.contains(x),
        merge_unique(acc, items, cap).len() < cap ==> forall|x: Seq<char>|
            #[trigger] items.contains(x) ==> merge_unique(acc, items, cap).contains(x),
    decreases items.len(),
{
    let r = merge_unique(acc, items, cap);
    if items.len() == 0 || acc.len() >= cap {
        assert(acc.take(acc.len() as int) =~= acc);
    } else {
        let rest = items.drop_first();
        let next = if acc.contains(items[0]) {
            acc
        } else {
            acc.push(items[0])
        };
        lemma_merge_unique_properties(next, rest, cap);
        assert(r == merge_unique(next, rest, cap));
        assert(r.take(next.len() as int).take(acc.len() as int) =~= r.take(acc.len() as int));
        assert(next.take(acc.len() as int) =~= acc);
        if no_duplicates(acc) && !acc.contains(items[0]) {
            assert forall|i: int, j: int| 0 <= i < j < next.len() implies next[i] != next[j] by {
                if j == acc.len() {
                    assert(acc[i] == next[i]);
                }
            }
        }
        assert forall|x: Seq<char>| #[trigger] r.contains(x) implies acc.contains(x) || items.contains(x) by {
            if next.contains(x) && !acc.contains(x) {
                assert(x == items[0]);
                assert(items[0] == items[0]);
            }
            if rest.contains(x) {
                let k = choose|k: int| 0 <= k < rest.len() && rest[k] == x;
                assert(items[k + 1] == x);
            }
        }
        if r.len() < cap {
            assert forall|x: Seq<char>| #[trigger] items.contains(x) implies r.contains(x) by {
                let k = choose|k: int| 0 <= k < items.len() && items[k] == x;
                if k == 0 {
                    assert(next.contains(x)) by {
                        if !acc.contains(items[0]) {
                            assert(next[acc.len() as int] == x);
                        }
                    }
                    let m = choose|m: int| 0 <= m < next.len() && next[m] == x;
                    assert(r.take(next.len() as int)[m] == x);
                    assert(r[m] == x);
                } else {
                    assert(rest[k - 1] == x);
                    assert(rest.contains(x));
                }
            }
        }
    }
}

// ---------------------------------------------------------------------------
// Merging engine outcomes
// ---------------------------------------------------------------------------

/// What the merge has gathered so far: the URLs, whether any engine
/// succeeded, and the error lines of the engines that failed.
pub struct MergeState {
    pub urls: Seq<Seq<char>>,
    pub had_success: bool,
    pub errors: Seq<Seq<char>>,
}

/// The merge state after one engine's outcome, reported under `source`.
pub open spec fn merge_step(
    st: MergeState,
    source: Seq<char>,
    result: Option<Result<Vec<String>, SearchError>>,
) -> MergeState {
    match result {
        None => st,
        Some(Ok(urls)) => MergeState {
            urls: merge_unique(st.urls, string_views(urls@), MAX_RESULTS as nat),
            had_success: true,
            errors: st.errors,
        },
        Some(Err(e)) => MergeState {
            urls: st.urls,
            had_success: st.had_success,
            errors: st.errors.push(source + ": "@ + spec_error_text(e)),
        },
    }
}

/// Merge one engine's outcome: its URLs join the combined list (without
/// duplicates, up to `MAX_RESULTS`), or its error joins the error lines.
pub fn merge_results(
    source: &str,
    result: Option<Result<Vec<String>, SearchError>>,
    combined: &mut Vec<String>,
    had_success: &mut bool,
    errors: &mut Vec<String>,
)
    ensures
        ({
            let st = merge_step(
                MergeState {
                    urls: string_views(old(combined)@),
                    had_success: *old(had_success),
                    errors: string_views(old(errors)@),
                },
                source@,
                result,
            );
            &&& string_views(final(combined)@) == st.urls
            &&& *final(had_success) == st.had_success
            &&& string_views(final(errors)@) == st.errors
        }),
{
    let result = match result {
        Some(result) => result,
        None => return ,
    };
    match result {
        Ok(urls) => {
            *had_success = true;
            collect_unique(combined, urls, MAX_RESULTS);
        },
        Err(err) => {
            let ghost before = string_views(errors@);
            let text = err.message();
            let line = concat3(source, ": ", text.as_str());
            errors.push(line);
            assert(string_views(errors@) =~= before.push(source@ + ": "@ + spec_error_text(err)));
        },
    }
}

/// The merge state after the outcomes, in order.
pub open spec fn merge_all_spec(
    outcomes: Seq<(SearchEngine, Option<Result<Vec<String>, SearchError>>)>,
) -> MergeState
    decreases outcomes.len(),
{
    if outcomes.len() == 0 {
        MergeState { urls: seq![], had_success: false, errors: seq![] }
    } else {
        merge_step(
            merge_all_spec(outcomes.drop_last()),
            spec_label(outcomes.last().0),
            outcomes.last().1,
        )
    }
}

/// Why the combined search delivered no URL.
#[derive(Clone, Debug, PartialEq, Eq)]
pub enum CombinedSearchError {
    /// Some engine answered, but no engine produced a URL.
    NoImageUrls,
    /// Every enabled engine failed; one line per failure.
    AllFailed { errors: Vec<String> },
}

/// The human-readable text of a combined search error.
pub open spec fn spec_combined_error_text(e: CombinedSearchError) -> Seq<char> {
    match e {
        CombinedSearchError::NoImageUrls =>
            "All enabled search engines completed but returned no image URLs."@,
        CombinedSearchError::AllFailed { errors } => "All enabled search engines failed: "@ + join(
            string_views(errors@),
            " | "@,
        ),
    }
}

impl CombinedSearchError {
    /// The human-readable text of the error.
    pub fn message(&self) -> (r: String)
        ensures
            r@ == spec_combined_error_text(*self),
    {
        match self {
            CombinedSearchError::NoImageUrls => String::from_str(
                "All enabled search engines completed but returned no image URLs.",
            ),
            CombinedSearchError::AllFailed { errors } => {
                let mut r = String::from_str("All enabled search engines failed: ");
                let ghost head = r@;
                let ghost parts = string_views(errors@);
                let mut i: usize = 0;
                assert(parts.take(0) =~= Seq::<Seq<char>>::empty());
                while i < errors.len()
                    invariant
                        parts == string_views(errors@),
                        i <= errors@.len(),
                        r@ == head + join(parts.take(i as int), " | "@),
                    decreases errors.len() - i,
                {
                    let ghost t = parts.take(i + 1);
                    assert(t.drop_last() =~= parts.take(i as int));
                    assert(t.last() == errors@[i as int]@);
                    if i > 0 {
                        r.append(" | ");
                    }
                    r.append(errors[i].as_str());
                    proof {
                        if i == 0 {
                            assert(join(t, " | "@) == t[0]);
                        }
                    }
                    i += 1;
                }
                assert(parts.take(parts.len() as int) =~= parts);
                r
            },
        }
    }
}

/// The outcome of the combined search for the merge state: the URLs if there
/// are any, otherwise which of the two failures occurred.
pub open spec fn spec_combined_outcome(st: MergeState, r: Result<Vec<String>, CombinedSearchError>) -> bool {
    if st.urls.len() > 0 {
        r matches Ok(urls) && string_views(urls@) == st.urls
    } else if st.had_success {
        r == Err::<Vec<String>, CombinedSearchError>(CombinedSearchError::NoImageUrls)
    } else {
        r matches Err(CombinedSearchError::AllFailed { errors }) && string_views(errors@) == st.errors
    }
}

/// Merge the outcomes of the engines in the given order and decide the
/// combined outcome.
pub fn merge_all(outcomes: Vec<(SearchEngine, Option<Result<Vec<String>, SearchError>>)>) -> (r: Result<
    Vec<String>,
    CombinedSearchError,
>)
    ensures
        spec_combined_outcome(merge_all_spec(outcomes@), r),
{
    let mut combined: Vec<String> = Vec::new();
    let mut had_success = false;
    let mut errors: Vec<String> = Vec::new();
    let ghost all = outcomes@;
    assert(all.take(0) =~= Seq::<(SearchEngine, Option<Result<Vec<String>, SearchError>>)>::empty());
    for item in it: outcomes
        invariant
            all == it.seq(),
            ({
                let st = merge_all_spec(all.take(it.index() as int));
                &&& string_views(combined@) == st.urls
                &&& had_success == st.had_success
                &&& string_views(errors@) == st.errors
            }),
    {
        let ghost i = it.index();
        assert(all.take(i + 1).drop_last() =~= all.take(i as int));
        assert(all.take(i + 1).last() == item);
        let (engine, result) = item;
        merge_results(engine.label(), result, &mut combined, &mut had_success, &mut errors);
    }
    assert(all.take(all.len() as int) =~= all);
    if combined.len() > 0 {
        return Ok(combined);
    }
    if had_success {
        return Err(CombinedSearchError::NoImageUrls);
    }
    Err(CombinedSearchError::AllFailed { errors })
}

/// The five engine outcomes in merge order.
pub open spec fn outcome_order(
    serper: Option<Result<Vec<String>, SearchError>>,
    google: Option<Result<Vec<String>, SearchError>>,
    serpapi: Option<Result<Vec<String>, SearchError>>,
    ddg: Option<Result<Vec<String>, SearchError>>,
    bing: Option<Result<Vec<String>, SearchError>>,
) -> Seq<(SearchEngine, Option<Result<Vec<String>, SearchError>>)> {
    seq![
        (SearchEngine::Serper, serper),
        (SearchEngine::Google, google),
        (SearchEngine::SerpApi, serpapi),
        (SearchEngine::Ddg, ddg),
        (SearchEngine::Bing, bing),
    ]
}

/// Combine the outcomes of the engines (`None` for an engine that did not
/// run) in the order Serper, Google, SerpAPI, DDG, Bing.
pub fn combine_results(
    serper: Option<Result<Vec<String>, SearchError>>,
    google: Option<Result<Vec<String>, SearchError>>,
    serpapi: Option<Result<Vec<String>, SearchError>>,
    ddg: Option<Result<Vec<String>, SearchError>>,
    bing: Option<Result<Vec<String>, SearchError>>,
) -> (r: Result<Vec<String>, CombinedSearchError>)
    ensures
        spec_combined_outcome(
            merge_all_spec(
                seq![
                    (SearchEngine::Serper, serper),
                    (SearchEngine::Google, google),
                    (SearchEngine::SerpApi, serpapi),
                    (SearchEngine::Ddg, ddg),
                    (SearchEngine::Bing, bing),
                ],
            ),
            r,
        ),
        match serper {
            Some(Ok(u)) => u@.len() > 0 ==> (r matches Ok(v) && v@.len() > 0 && v@[0]@ == u@[0]@),
            _ => true,
        },
{
    proof {
        crate::laws::law_search_priority(serper, google, serpapi, ddg, bing);
    }
    let ghost order = outcome_order(serper, google, serpapi, ddg, bing);
    let mut v: Vec<(SearchEngine, Option<Result<Vec<String>, SearchError>>)> = Vec::new();
    v.push((SearchEngine::Serper, serper));
    v.push((SearchEngine::Google, google));
    v.push((SearchEngine::SerpApi, serpapi));
    v.push((SearchEngine::Ddg, ddg));
    v.push((SearchEngine::Bing, bing));
    assert(v@ =~= order);
    merge_all(v)
}

// ---------------------------------------------------------------------------
// Which engines run
// ---------------------------------------------------------------------------

/// Is the engine among the enabled ones?
pub fn engine_enabled(enabled: &Vec<SearchEngine>, engine: SearchEngine) -> (r: bool)
    ensures
        r == enabled@.contains(engine),
{
    let mut i: usize = 0;
    while i < enabled.len()
        invariant
            i <= enabled@.len(),
            forall|j: int| 0 <= j < i ==> enabled@[j] != engine,
        decreases enabled.len() - i,
    {
        if enabled[i] == engine {
            return true;
        }
        i += 1;
    }
    false
}

/// The engines used when no health check has run: Google, DDG and Bing, with
/// Serper first when it is configured and SerpAPI after Google when it is.
pub open spec fn spec_default_engines(serper_configured: bool, serpapi_configured: bool) -> Seq<SearchEngine> {
    if serper_configured && serpapi_configured {
        seq![
            SearchEngine::Serper,
            SearchEngine::Google,
            SearchEngine::SerpApi,
            SearchEngine::Ddg,
            SearchEngine::Bing,
        ]
    } else if serper_configured {
        seq![SearchEngine::Serper, SearchEngine::Google, SearchEngine::Ddg, SearchEngine::Bing]
    } else if serpapi_configured {
        seq![SearchEngine::Google, SearchEngine::SerpApi, SearchEngine::Ddg, SearchEngine::Bing]
    } else {
        seq![SearchEngine::Google, SearchEngine::Ddg, SearchEngine::Bing]
    }
}

/// The engines used when no health check has run.
pub fn default_engines(serper_configured: bool, serpapi_configured: bool) -> (r: Vec<SearchEngine>)
    ensures
        r@ == spec_default_engines(serper_configured, serpapi_configured),
{
    let mut engines = vec![SearchEngine::Google, SearchEngine::Ddg, SearchEngine::Bing];
    if serper_configured {
        engines.insert(0, SearchEngine::Serper);
    }
    if serpapi_configured {
        let insert_index = if serper_configured {
            2
        } else {
            1
        };
        engines.insert(insert_index, SearchEngine::SerpApi);
    }
    assert(engines@ =~= spec_default_engines(serper_configured, serpapi_configured));
    engines
}

/// A health check passes when the engine returned at least one URL.
pub open spec fn health_passed(result: Result<Vec<String>, SearchError>) -> bool {
    result matches Ok(urls) && urls@.len() > 0
}

/// Enable the engine if its health check passed.
pub fn update_health(
    enabled: &mut Vec<SearchEngine>,
    engine: SearchEngine,
    result: Result<Vec<String>, SearchError>,
)
    ensures
        final(enabled)@ == if health_passed(result) {
            old(enabled)@.push(engine)
        } else {
            old(enabled)@
        },
{
    match result {
        Ok(urls) => {
            if urls.len() > 0 {
                enabled.push(engine);
            }
        },
        Err(_) => {},
    }
}

/// Enable the engine if it was checked and its health check passed.
pub fn update_health_optional(
    enabled: &mut Vec<SearchEngine>,
    engine: SearchEngine,
    result: Option<Result<Vec<String>, SearchError>>,
)
    ensures
        final(enabled)@ == if result matches Some(r) && health_passed(r) {
            old(enabled)@.push(engine)
        } else {
            old(enabled)@
        },
{
    if let Some(result) = result {
        update_health(enabled, engine, result);
    }
}

/// The engine, as a one-element list if it passed its health check.
pub open spec fn if_passed(engine: SearchEngine, passed: bool) -> Seq<SearchEngine> {
    if passed {
        seq![engine]
    } else {
        seq![]
    }
}

/// The engines enabled by the startup health check, in merge order.
pub open spec fn spec_enabled_after_health_check(
    serper: Option<Result<Vec<String>, SearchError>>,
    google: Result<Vec<String>, SearchError>,
    serpapi: Option<Result<Vec<String>, SearchError>>,
    ddg: Result<Vec<String>, SearchError>,
    bing: Result<Vec<String>, SearchError>,
) -> Seq<SearchEngine> {
    if_passed(SearchEngine::Serper, serper matches Some(r) && health_passed(r)) + if_passed(
        SearchEngine::Google,
        health_passed(google),
    ) + if_passed(SearchEngine::SerpApi, serpapi matches Some(r) && health_passed(r)) + if_passed(
        SearchEngine::Ddg,
        health_passed(ddg),
    ) + if_passed(SearchEngine::Bing, health_passed(bing))
}

/// The engines that pass the startup health check (`None` for an optional
/// engine that is not configured).
pub fn enabled_after_health_check(
    serper: Option<Result<Vec<String>, SearchError>>,
    google: Result<Vec<String>, SearchError>,
    serpapi: Option<Result<Vec<String>, SearchError>>,
    ddg: Result<Vec<String>, SearchError>,
    bing: Result<Vec<String>, SearchError>,
) -> (r: Vec<SearchEngine>)
    ensures
        r@ == spec_enabled_after_health_check(serper, google, serpapi, ddg, bing),
{
    let ghost expected = spec_enabled_after_health_check(serper, google, serpapi, ddg, bing);
    let mut enabled: Vec<SearchEngine> = Vec::new();
    update_health_optional(&mut enabled, SearchEngine::Serper, serper);
    update_health(&mut enabled, SearchEngine::Google, google);
    update_health_optional(&mut enabled, SearchEngine::SerpApi, serpapi);
    update_health(&mut enabled, SearchEngine::Ddg, ddg);
    update_health(&mut enabled, SearchEngine::Bing, bing);
    assert(enabled@ =~= expected);
    enabled
}

/// An API key counts as configured when it is set and not blank.
pub open spec fn spec_key_configured(value: Option<Seq<char>>) -> bool {
    value matches Some(v) && seq_trim(v).len() > 0
}

/// Whether an API key read from the environment counts as configured.
pub fn api_key_configured(value: Option<&str>) -> (r: bool)
    ensures
        r == spec_key_configured(
            match value {
                Some(v) => Some(v@),
                None => None,
            },
        ),
{
    match value {
        Some(v) => str_trim(v).len() > 0,
        None => false,
    }
}


// ---------------------------------------------------------------------------
// Helpers shared by the engines
// ---------------------------------------------------------------------------

/// The query parameters of a request as plain values.
pub open spec fn param_views(s: Seq<(String, String)>) -> Seq<(Seq<char>, Seq<char>)> {
    s.map_values(|p: (String, String)| (p.0@, p.1@))
}

/// A query parameter.
pub fn param(name: &str, value: &str) -> (r: (String, String))
    ensures
        r.0@ == name@,
        r.1@ == value@,
{
    (String::from_str(name), String::from_str(value))
}

/// The first `n` entries of `s` (all of them if there are fewer).
pub open spec fn first_n<A>(s: Seq<A>, n: nat) -> Seq<A> {
    if s.len() <= n {
        s
    } else {
        s.take(n as int)
    }
}

/// Taking the first `n` of a sequence that starts with `n` given entries.
pub proof fn lemma_first_n_prefix<A>(a: Seq<A>, b: Seq<A>, n: nat)
    requires
        a.len() == n,
    ensures
        first_n(a + b, n) == a,
{
    assert((a + b).take(n as int) =~= a);
    if b.len() == 0 {
        assert(a + b =~= a);
    }
}

/// The error status codes that every engine treats as a block.
pub open spec fn blocked_status(status_code: u16) -> bool {
    status_code == 429 || status_code == 403
}

/// Text describing the HTTP status, as `status=<status>`.
pub fn status_details(status_text: &str) -> (r: String)
    ensures
        r@ == "status="@ + status_text@,
{
    concat2("status=", status_text)
}

/// A string value of a JSON document with the JSON escapes for `&` and `=`
/// undone.
pub fn unescape_string(s: &str) -> (r: String)
    ensures
        r@ == crate::text::unescape_seq(s@),
{
    let v = chars_of(s);
    let u = crate::text::unescape(v.as_slice());
    crate::text::string_of(u.as_slice())
}

/// A search error as plain values: its kind and its details.
pub open spec fn error_view(e: SearchError) -> (Seq<char>, Seq<char>) {
    match e {
        SearchError::Blocked { engine, details } => ("blocked"@, details@),
        SearchError::NoResults { engine } => ("no results"@, seq![]),
        SearchError::ParseFailed { engine, details } => ("parse"@, details@),
        SearchError::NetworkFailed { engine, details } => ("network"@, details@),
    }
}

/// The engine a search error names.
pub open spec fn error_engine(e: SearchError) -> Seq<char> {
    match e {
        SearchError::Blocked { engine, details } => engine@,
        SearchError::NoResults { engine } => engine@,
        SearchError::ParseFailed { engine, details } => engine@,
        SearchError::NetworkFailed { engine, details } => engine@,
    }
}

} // verus!
