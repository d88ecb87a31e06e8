//! Properties of the library as a whole, proved over the models that the
//! functions' contracts use.

use vstd::prelude::*;
use crate::image_search::{
    lemma_merge_unique_properties, merge_all_spec, merge_step, merge_unique, no_duplicates, spec_label,
    spec_default_engines, spec_enabled_after_health_check, health_passed, if_passed, string_views,
    MergeState, SearchEngine, SearchError, MAX_RESULTS, first_n,
};
use crate::google_image_searcher::{
    data_ou_urls, free_of_google_images, kept_urls, lemma_kept_urls_free, spec_extract_image_urls as google_spec_extract,
    DATA_OU_PATTERN, JSON_IMAGE_PATTERN, QUOTED_IMAGE_PATTERN,
};
use crate::imgur_handler::spec_is_imgur_url;
use crate::inline_query_handler::{ends_with_any_case, spec_result_urls, spec_search_query, strip_image_extension};
use crate::message_handler::{spec_delivery, spec_next_attempt, Delivery};
use crate::pattern::{group_of, matches_or_none, regex_captures, url_parses};
use crate::json::JsonValue;
use crate::local_image_finder::{
    keep_char, keep_chars, lemma_word_hits_bound, spec_file_score, spec_match_score,
    spec_normalize_text, utf8_len, word_hit, word_hits,
};
use crate::text::{index_from, join, lemma_words_len, replace_seq, seq_starts_with, unescape_seq, words};
use crate::image_search::bing::{
    iusc_candidates, murl_candidates, spec_extract_image_urls as bing_spec_extract, spec_extract_murl,
    IUSC_PATTERN, MURL_PATTERN,
};
use crate::unicode::{char_is_alphanumeric, char_is_whitespace, str_lowercase};
use crate::text::{occurs_at, seq_contains};

verus! {

/// An engine outcome that delivered URLs contributed `x`.
pub open spec fn delivered(outcomes: Seq<(SearchEngine, Option<Result<Vec<String>, SearchError>>)>, x: Seq<char>) -> bool {
    exists|i: int|
        #![trigger outcomes[i]]
        0 <= i < outcomes.len() && (outcomes[i].1 matches Some(Ok(v)) && string_views(v@).contains(x))
}

/// Some engine outcome is a success.
pub open spec fn some_success(outcomes: Seq<(SearchEngine, Option<Result<Vec<String>, SearchError>>)>) -> bool {
    exists|i: int| #![trigger outcomes[i]] 0 <= i < outcomes.len() && outcomes[i].1 matches Some(Ok(_))
}

/// How many engine outcomes are failures.
pub open spec fn failure_count(outcomes: Seq<(SearchEngine, Option<Result<Vec<String>, SearchError>>)>) -> nat
    decreases outcomes.len(),
{
    if outcomes.len() == 0 {
        0
    } else {
        failure_count(outcomes.drop_last()) + if outcomes.last().1 matches Some(Err(_)) {
            1nat
        } else {
            0nat
        }
    }
}

/// The combined search never returns a URL twice, never more than
/// ten of them, and only URLs that some engine delivered; it
/// succeeded overall exactly when some engine succeeded, and it reports one
/// error line per failed engine.
pub proof fn law_merged_results(outcomes: Seq<(SearchEngine, Option<Result<Vec<String>, SearchError>>)>)
    ensures
        no_duplicates(merge_all_spec(outcomes).urls),
        merge_all_spec(outcomes).urls.len() <= 10,
        forall|x: Seq<char>| #[trigger]
            merge_all_spec(outcomes).urls.contains(x) ==> delivered(outcomes, x),
        merge_all_spec(outcomes).had_success == some_success(outcomes),
        merge_all_spec(outcomes).errors.len() == failure_count(outcomes),
    decreases outcomes.len(),
{
    if outcomes.len() > 0 {
        let d = outcomes.drop_last();
        law_merged_results(d);
        let st = merge_all_spec(d);
        let last = outcomes.last();
        assert forall|i: int| 0 <= i < d.len() implies d[i] == outcomes[i] by {}
        match last.1 {
            Some(Ok(v)) => {
                lemma_merge_unique_properties(st.urls, string_views(v@), MAX_RESULTS as nat);
                assert forall|x: Seq<char>| #[trigger]
                    merge_all_spec(outcomes).urls.contains(x) implies delivered(outcomes, x) by {
                    if st.urls.contains(x) {
                        assert(delivered(d, x));
                        let i = choose|i: int|
                            #![trigger d[i]]
                            0 <= i < d.len() && (d[i].1 matches Some(Ok(v)) && string_views(v@).contains(x));
                        assert(outcomes[i] == d[i]);
                    } else {
                        assert(outcomes[outcomes.len() - 1] == last);
                    }
                }
                assert(outcomes[outcomes.len() - 1] == last);
            },
            _ => {
                assert forall|x: Seq<char>| #[trigger]
                    merge_all_spec(outcomes).urls.contains(x) implies delivered(outcomes, x) by {
                    let i = choose|i: int|
                        #![trigger d[i]]
                        0 <= i < d.len() && (d[i].1 matches Some(Ok(v)) && string_views(v@).contains(x));
                    assert(outcomes[i] == d[i]);
                }
                if some_success(outcomes) {
                    let i = choose|i: int| #![trigger outcomes[i]] 0 <= i < outcomes.len() && outcomes[i].1 matches Some(Ok(_));
                    assert(i < d.len());
                    assert(d[i] == outcomes[i]);
                }
                if some_success(d) {
                    let i = choose|i: int| #![trigger d[i]] 0 <= i < d.len() && d[i].1 matches Some(Ok(_));
                    assert(outcomes[i] == d[i]);
                }
            },
        }
        if let Some(Ok(v)) = last.1 {
            if some_success(d) {
                let i = choose|i: int| #![trigger d[i]] 0 <= i < d.len() && d[i].1 matches Some(Ok(_));
                assert(outcomes[i] == d[i]);
            }
        }
    }
}

/// The URLs of the earlier engines come first: merging more outcomes only
/// appends to what the earlier ones gave.
pub proof fn law_earlier_engines_first(
    outcomes: Seq<(SearchEngine, Option<Result<Vec<String>, SearchError>>)>,
    k: int,
)
    requires
        0 <= k <= outcomes.len(),
    ensures
        merge_all_spec(outcomes.take(k)).urls.len() <= merge_all_spec(outcomes).urls.len(),
        merge_all_spec(outcomes).urls.take(merge_all_spec(outcomes.take(k)).urls.len() as int)
            == merge_all_spec(outcomes.take(k)).urls,
    decreases outcomes.len() - k,
{
    if k == outcomes.len() {
        assert(outcomes.take(k) =~= outcomes);
        let u = merge_all_spec(outcomes).urls;
        assert(u.take(u.len() as int) =~= u);
    } else {
        law_earlier_engines_first(outcomes, k + 1);
        let t = outcomes.take(k + 1);
        assert(t.drop_last() =~= outcomes.take(k));
        let a = merge_all_spec(outcomes.take(k)).urls;
        let b = merge_all_spec(t).urls;
        let c = merge_all_spec(outcomes).urls;
        match t.last().1 {
            Some(Ok(v)) => {
                lemma_merge_unique_properties(a, string_views(v@), MAX_RESULTS as nat);
            },
            _ => {},
        }
        assert(b.len() >= a.len());
        assert(b.take(a.len() as int) == a);
        assert(c.take(b.len() as int).take(a.len() as int) =~= c.take(a.len() as int));
    }
}

/// The combined list is cut only at ten URLs: while it holds fewer, every URL
/// that some engine delivered is in it.
pub proof fn law_merged_covers(outcomes: Seq<(SearchEngine, Option<Result<Vec<String>, SearchError>>)>)
    ensures
        merge_all_spec(outcomes).urls.len() < 10 ==> forall|x: Seq<char>|
            delivered(outcomes, x) ==> #[trigger] merge_all_spec(outcomes).urls.contains(x),
    decreases outcomes.len(),
{
    if outcomes.len() > 0 {
        let d = outcomes.drop_last();
        law_merged_covers(d);
        let st = merge_all_spec(d).urls;
        let fin = merge_all_spec(outcomes).urls;
        let last = outcomes.last();
        if let Some(Ok(v)) = last.1 {
            lemma_merge_unique_properties(st, string_views(v@), MAX_RESULTS as nat);
        }
        assert(fin.len() >= st.len() && fin.take(st.len() as int) == st);
        if fin.len() < MAX_RESULTS {
            assert forall|x: Seq<char>| delivered(outcomes, x) implies #[trigger] fin.contains(x) by {
                let i = choose|i: int|
                    #![trigger outcomes[i]]
                    0 <= i < outcomes.len() && (outcomes[i].1 matches Some(Ok(v)) && string_views(v@).contains(x));
                if i < d.len() {
                    assert(d[i] == outcomes[i]);
                    assert(delivered(d, x));
                    assert(st.len() < MAX_RESULTS);
                    assert(merge_all_spec(d).urls.contains(x));
                    let m = choose|m: int| 0 <= m < st.len() && st[m] == x;
                    assert(fin.take(st.len() as int)[m] == x);
                    assert(fin[m] == x);
                } else {
                    assert(outcomes[i] == last);
                }
            }
        }
    }
}

/// Engine priority: a merged URL that one of the first `k` engines delivered
/// comes before every merged URL that none of them delivered.
pub proof fn law_engine_priority(
    outcomes: Seq<(SearchEngine, Option<Result<Vec<String>, SearchError>>)>,
    k: int,
    i: int,
    j: int,
)
    requires
        0 <= k <= outcomes.len(),
        0 <= i < merge_all_spec(outcomes).urls.len(),
        0 <= j < merge_all_spec(outcomes).urls.len(),
        delivered(outcomes.take(k), merge_all_spec(outcomes).urls[i]),
        !delivered(outcomes.take(k), merge_all_spec(outcomes).urls[j]),
    ensures
        i < j,
{
    let full = merge_all_spec(outcomes).urls;
    let p = merge_all_spec(outcomes.take(k)).urls;
    law_earlier_engines_first(outcomes, k);
    law_merged_results(outcomes.take(k));
    law_merged_results(outcomes);
    law_merged_covers(outcomes.take(k));
    if j < p.len() {
        assert(full.take(p.len() as int)[j] == full[j]);
        assert(p.contains(full[j]));
    }
    assert(p.contains(full[i]));
    let m = choose|m: int| 0 <= m < p.len() && p[m] == full[i];
    assert(full.take(p.len() as int)[m] == full[m]);
}

/// The outcome `o` delivered the URL `x`.
pub open spec fn delivers(o: Option<Result<Vec<String>, SearchError>>, x: Seq<char>) -> bool {
    o matches Some(Ok(v)) && string_views(v@).contains(x)
}

/// The combined search merges in the order Serper, Google, SerpAPI, DDG,
/// Bing: Serper's first URL, when it delivered any, leads the list; Serper's
/// URLs precede all others; Serper's and Google's precede those of the
/// remaining engines; and those of the first three precede those that only
/// DDG or Bing delivered.
pub proof fn law_search_priority(
    serper: Option<Result<Vec<String>, SearchError>>,
    google: Option<Result<Vec<String>, SearchError>>,
    serpapi: Option<Result<Vec<String>, SearchError>>,
    ddg: Option<Result<Vec<String>, SearchError>>,
    bing: Option<Result<Vec<String>, SearchError>>,
)
    ensures
        ({
            let urls = merge_all_spec(
                seq![
                    (SearchEngine::Serper, serper),
                    (SearchEngine::Google, google),
                    (SearchEngine::SerpApi, serpapi),
                    (SearchEngine::Ddg, ddg),
                    (SearchEngine::Bing, bing),
                ],
            ).urls;
            &&& match serper {
                Some(Ok(u)) => u@.len() > 0 ==> urls.len() > 0 && urls[0] == u@[0]@,
                _ => true,
            }
            &&& forall|i: int, j: int|
                0 <= i < urls.len() && 0 <= j < urls.len() && delivers(serper, #[trigger] urls[i])
                    && !delivers(serper, #[trigger] urls[j]) ==> i < j
            &&& forall|i: int, j: int|
                0 <= i < urls.len() && 0 <= j < urls.len() && (delivers(serper, #[trigger] urls[i])
                    || delivers(google, urls[i])) && !delivers(serper, #[trigger] urls[j]) && !delivers(
                    google,
                    urls[j],
                ) ==> i < j
            &&& forall|i: int, j: int|
                0 <= i < urls.len() && 0 <= j < urls.len() && (delivers(serper, #[trigger] urls[i])
                    || delivers(google, urls[i]) || delivers(serpapi, urls[i])) && !delivers(
                    serper,
                    #[trigger] urls[j],
                ) && !delivers(google, urls[j]) && !delivers(serpapi, urls[j]) ==> i < j
        }),
{
    let o = seq![
        (SearchEngine::Serper, serper),
        (SearchEngine::Google, google),
        (SearchEngine::SerpApi, serpapi),
        (SearchEngine::Ddg, ddg),
        (SearchEngine::Bing, bing),
    ];
    let urls = merge_all_spec(o).urls;
    assert forall|k: int, x: Seq<char>| 1 <= k <= 3 implies #[trigger] delivered(o.take(k), x) == (
    delivers(serper, x) || (k >= 2 && delivers(google, x)) || (k >= 3 && delivers(serpapi, x))) by {
        let t = o.take(k);
        assert(t[0] == o[0]);
        if k >= 2 {
            assert(t[1] == o[1]);
        }
        if k >= 3 {
            assert(t[2] == o[2]);
        }
        if delivered(t, x) {
            let i = choose|i: int|
                #![trigger t[i]]
                0 <= i < t.len() && (t[i].1 matches Some(Ok(v)) && string_views(v@).contains(x));
            assert(t[i] == o[i]);
        }
    }
    assert forall|i: int, j: int|
        0 <= i < urls.len() && 0 <= j < urls.len() && delivers(serper, #[trigger] urls[i])
            && !delivers(serper, #[trigger] urls[j]) implies i < j by {
        assert(delivered(o.take(1), urls[i]));
        assert(!delivered(o.take(1), urls[j]));
        law_engine_priority(o, 1, i, j);
    }
    assert forall|i: int, j: int|
        0 <= i < urls.len() && 0 <= j < urls.len() && (delivers(serper, #[trigger] urls[i]) || delivers(
            google,
            urls[i],
        )) && !delivers(serper, #[trigger] urls[j]) && !delivers(google, urls[j]) implies i < j by {
        assert(delivered(o.take(2), urls[i]));
        assert(!delivered(o.take(2), urls[j]));
        law_engine_priority(o, 2, i, j);
    }
    assert forall|i: int, j: int|
        0 <= i < urls.len() && 0 <= j < urls.len() && (delivers(serper, #[trigger] urls[i]) || delivers(
            google,
            urls[i],
        ) || delivers(serpapi, urls[i])) && !delivers(serper, #[trigger] urls[j]) && !delivers(
            google,
            urls[j],
        ) && !delivers(serpapi, urls[j]) implies i < j by {
        assert(delivered(o.take(3), urls[i]));
        assert(!delivered(o.take(3), urls[j]));
        law_engine_priority(o, 3, i, j);
    }
    if let Some(Ok(u)) = serper {
        if u@.len() > 0 {
            let first = o.take(1);
            assert(first.drop_last() =~= Seq::<(SearchEngine, Option<Result<Vec<String>, SearchError>>)>::empty());
            assert(first.last() == o[0]);
            let items = string_views(u@);
            let p = merge_all_spec(first).urls;
            let st0 = merge_all_spec(first.drop_last());
            assert(st0.urls == Seq::<Seq<char>>::empty());
            assert(merge_all_spec(first) == merge_step(st0, spec_label(SearchEngine::Serper), serper));
            assert(p == merge_unique(Seq::<Seq<char>>::empty(), items, MAX_RESULTS as nat));
            assert(!Seq::<Seq<char>>::empty().contains(items[0]));
            assert(Seq::<Seq<char>>::empty().push(items[0]) =~= seq![items[0]]);
            assert(p == merge_unique(seq![items[0]], items.drop_first(), MAX_RESULTS as nat));
            lemma_merge_unique_properties(seq![items[0]], items.drop_first(), MAX_RESULTS as nat);
            law_earlier_engines_first(o, 1);
            assert(p.take(1)[0] == items[0]);
            assert(urls.take(p.len() as int)[0] == urls[0]);
        }
    }
}

/// An engine is enabled after the health check exactly when it returned at
/// least one URL (and, for the optional engines, was checked at all); the
/// enabled engines are listed once each, in merge order.
pub proof fn law_health_check(
    serper: Option<Result<Vec<String>, SearchError>>,
    google: Result<Vec<String>, SearchError>,
    serpapi: Option<Result<Vec<String>, SearchError>>,
    ddg: Result<Vec<String>, SearchError>,
    bing: Result<Vec<String>, SearchError>,
)
    ensures
        ({
            let e = spec_enabled_after_health_check(serper, google, serpapi, ddg, bing);
            &&& e.contains(SearchEngine::Serper) == (serper matches Some(Ok(urls)) && urls@.len() > 0)
            &&& e.contains(SearchEngine::Google) == (google matches Ok(urls) && urls@.len() > 0)
            &&& e.contains(SearchEngine::SerpApi) == (serpapi matches Some(Ok(urls)) && urls@.len() > 0)
            &&& e.contains(SearchEngine::Ddg) == (ddg matches Ok(urls) && urls@.len() > 0)
            &&& e.contains(SearchEngine::Bing) == (bing matches Ok(urls) && urls@.len() > 0)
            &&& in_merge_order(e)
        }),
{
    let p0 = if_passed(SearchEngine::Serper, serper matches Some(r) && health_passed(r));
    let p1 = if_passed(SearchEngine::Google, health_passed(google));
    let p2 = if_passed(SearchEngine::SerpApi, serpapi matches Some(r) && health_passed(r));
    let p3 = if_passed(SearchEngine::Ddg, health_passed(ddg));
    let p4 = if_passed(SearchEngine::Bing, health_passed(bing));
    assert forall|x: SearchEngine| #[trigger]
        spec_enabled_after_health_check(serper, google, serpapi, ddg, bing).contains(x) == (
        p0.contains(x) || p1.contains(x) || p2.contains(x) || p3.contains(x) || p4.contains(x)) by {
        lemma_contains_concat(p0, p1, x);
        lemma_contains_concat(p0 + p1, p2, x);
        lemma_contains_concat(p0 + p1 + p2, p3, x);
        lemma_contains_concat(p0 + p1 + p2 + p3, p4, x);
    }
    assert forall|x: SearchEngine, e: SearchEngine, p: bool| #[trigger] if_passed(e, p).contains(x) == (p && x == e) by {
        if p {
            assert(if_passed(e, p)[0] == e);
        }
    }
    assert(in_merge_order(Seq::<SearchEngine>::empty()));
    lemma_append_in_order(Seq::<SearchEngine>::empty(), SearchEngine::Serper, serper matches Some(r) && health_passed(r));
    assert(Seq::<SearchEngine>::empty() + p0 =~= p0);
    lemma_append_in_order(p0, SearchEngine::Google, health_passed(google));
    lemma_append_in_order(p0 + p1, SearchEngine::SerpApi, serpapi matches Some(r) && health_passed(r));
    lemma_append_in_order(p0 + p1 + p2, SearchEngine::Ddg, health_passed(ddg));
    lemma_append_in_order(p0 + p1 + p2 + p3, SearchEngine::Bing, health_passed(bing));
}

/// The position of an engine in the merge order.
pub open spec fn merge_rank(e: SearchEngine) -> int {
    match e {
        SearchEngine::Serper => 0,
        SearchEngine::Google => 1,
        SearchEngine::SerpApi => 2,
        SearchEngine::Ddg => 3,
        SearchEngine::Bing => 4,
    }
}

/// The engines are listed in merge order, each at most once.
pub open spec fn in_merge_order(s: Seq<SearchEngine>) -> bool {
    forall|i: int, j: int| 0 <= i < j < s.len() ==> merge_rank(#[trigger] s[i]) < merge_rank(#[trigger] s[j])
}

/// Appending an engine that ranks after all of an ordered list keeps it
/// ordered.
proof fn lemma_append_in_order(a: Seq<SearchEngine>, e: SearchEngine, p: bool)
    requires
        in_merge_order(a),
        forall|k: int| 0 <= k < a.len() ==> merge_rank(#[trigger] a[k]) < merge_rank(e),
    ensures
        in_merge_order(a + if_passed(e, p)),
        forall|k: int| 0 <= k < (a + if_passed(e, p)).len() ==> merge_rank(#[trigger] (a + if_passed(e, p))[k]) <= merge_rank(e),
{
    let b = a + if_passed(e, p);
    assert forall|k: int| 0 <= k < b.len() implies merge_rank(#[trigger] b[k]) <= merge_rank(e) by {
        if k < a.len() {
            assert(b[k] == a[k]);
        }
    }
    assert forall|i: int, j: int| 0 <= i < j < b.len() implies merge_rank(#[trigger] b[i]) < merge_rank(#[trigger] b[j]) by {
        assert(b[i] == a[i]);
        if j < a.len() {
            assert(b[j] == a[j]);
        }
    }
}

/// Membership in a concatenation.
proof fn lemma_contains_concat<A>(a: Seq<A>, b: Seq<A>, x: A)
    ensures
        (a + b).contains(x) == (a.contains(x) || b.contains(x)),
{
    if a.contains(x) {
        let i = choose|i: int| 0 <= i < a.len() && a[i] == x;
        assert((a + b)[i] == x);
    }
    if b.contains(x) {
        let i = choose|i: int| 0 <= i < b.len() && b[i] == x;
        assert((a + b)[a.len() + i] == x);
    }
    if (a + b).contains(x) {
        let i = choose|i: int| 0 <= i < (a + b).len() && (a + b)[i] == x;
        if i < a.len() {
            assert(a[i] == x);
        } else {
            assert(b[i - a.len()] == x);
        }
    }
}

/// Without a health check, Google, DDG and Bing are always used, Serper and
/// SerpAPI exactly when configured, each once and in merge order, so that
/// Serper, when used, comes first.
pub proof fn law_default_engines(serper_configured: bool, serpapi_configured: bool)
    ensures
        ({
            let e = spec_default_engines(serper_configured, serpapi_configured);
            &&& e.contains(SearchEngine::Google)
            &&& e.contains(SearchEngine::Ddg)
            &&& e.contains(SearchEngine::Bing)
            &&& e.contains(SearchEngine::Serper) == serper_configured
            &&& e.contains(SearchEngine::SerpApi) == serpapi_configured
            &&& serper_configured ==> e[0] == SearchEngine::Serper
            &&& e.last() == SearchEngine::Bing
            &&& in_merge_order(e)
        }),
{
    let e = spec_default_engines(serper_configured, serpapi_configured);
    if serper_configured && serpapi_configured {
        assert(e[1] == SearchEngine::Google && e[3] == SearchEngine::Ddg && e[4] == SearchEngine::Bing);
        assert(e[0] == SearchEngine::Serper && e[2] == SearchEngine::SerpApi);
    } else if serper_configured {
        assert(e[1] == SearchEngine::Google && e[2] == SearchEngine::Ddg && e[3] == SearchEngine::Bing);
        assert(e[0] == SearchEngine::Serper);
        assert(!e.contains(SearchEngine::SerpApi)) by {
            if e.contains(SearchEngine::SerpApi) {
                let j = choose|j: int| 0 <= j < e.len() && e[j] == SearchEngine::SerpApi;
            }
        }
    } else if serpapi_configured {
        assert(e[0] == SearchEngine::Google && e[2] == SearchEngine::Ddg && e[3] == SearchEngine::Bing);
        assert(e[1] == SearchEngine::SerpApi);
        assert(!e.contains(SearchEngine::Serper)) by {
            if e.contains(SearchEngine::Serper) {
                let j = choose|j: int| 0 <= j < e.len() && e[j] == SearchEngine::Serper;
            }
        }
    } else {
        assert(e[0] == SearchEngine::Google && e[1] == SearchEngine::Ddg && e[2] == SearchEngine::Bing);
        assert(!e.contains(SearchEngine::Serper)) by {
            if e.contains(SearchEngine::Serper) {
                let j = choose|j: int| 0 <= j < e.len() && e[j] == SearchEngine::Serper;
            }
        }
        assert(!e.contains(SearchEngine::SerpApi)) by {
            if e.contains(SearchEngine::SerpApi) {
                let j = choose|j: int| 0 <= j < e.len() && e[j] == SearchEngine::SerpApi;
            }
        }
    }
}

/// A URL is an imgur URL exactly when it contains `imgur.com`: every
/// `i.imgur.com` URL contains `imgur.com` too.
pub proof fn law_imgur_url(url: Seq<char>)
    ensures
        spec_is_imgur_url(url) == seq_contains(url, "imgur.com"@),
{
    reveal_strlit("imgur.com");
    reveal_strlit("i.imgur.com");
    if seq_contains(url, "i.imgur.com"@) {
        let i = choose|i: int| occurs_at(url, "i.imgur.com"@, i);
        let long = "i.imgur.com"@;
        let short = "imgur.com"@;
        assert(url.subrange(i + 2, i + 2 + short.len()) =~= long.subrange(2, long.len() as int));
        assert(long.subrange(2, long.len() as int) =~= short);
        assert(occurs_at(url, short, i + 2));
    }
}

/// A non-blank inline query is never searched as the empty text.
pub proof fn law_search_query_nonempty(query: Seq<char>)
    requires
        query.len() > 0,
    ensures
        spec_search_query(query).len() > 0,
{
}

/// At most ten URLs are offered for an inline query, each of which parses,
/// and in their given order.
pub proof fn law_inline_results(urls: Seq<Seq<char>>)
    ensures
        spec_result_urls(urls).len() <= 10,
        forall|i: int| 0 <= i < spec_result_urls(urls).len() ==> url_parses(#[trigger] spec_result_urls(urls)[i]),
{
    let f = first_n(urls, 10);
    f.lemma_filter_len(|u: Seq<char>| url_parses(u));
    assert forall|i: int| 0 <= i < spec_result_urls(urls).len() implies url_parses(#[trigger] spec_result_urls(urls)[i]) by {
        f.lemma_filter_pred(|u: Seq<char>| url_parses(u), i);
    }
}

/// Images are tried in order: the next attempt from `from` is the first
/// image at or after it that can be sent at all.
pub proof fn law_next_attempt(urls: Seq<Seq<char>>, from: int)
    requires
        0 <= from,
    ensures
        match spec_next_attempt(urls, from) {
            Some((i, d)) => from <= i < urls.len() && d == spec_delivery(urls[i]) && d != Delivery::Skip
                && forall|j: int| from <= j < i ==> spec_delivery(urls[j]) == Delivery::Skip,
            None => forall|j: int| from <= j < urls.len() ==> spec_delivery(urls[j]) == Delivery::Skip,
        },
    decreases urls.len() - from,
{
    if from < urls.len() && spec_delivery(urls[from]) == Delivery::Skip {
        law_next_attempt(urls, from + 1);
    }
}


/// Each engine hands back at most ten URLs, and the engines that
/// deduplicate (Bing, DDG, SerpAPI, Serper) never hand back one twice.
pub proof fn law_engine_results_capped(text: Seq<char>, status_text: Seq<char>, parsed: Result<JsonValue, String>)
    ensures
        crate::google_image_searcher::spec_extract_image_urls(text).len() <= 10,
        crate::image_search::bing::spec_extract_image_urls(text).len() <= 10,
        no_duplicates(crate::image_search::bing::spec_extract_image_urls(text)),
        parsed matches Ok(doc) ==> crate::image_search::ddg::spec_document_urls(doc).len() <= 10
            && no_duplicates(crate::image_search::ddg::spec_document_urls(doc)),
        crate::image_search::serpapi::spec_results_outcome(status_text, parsed) matches Ok(u) ==> u.len()
            <= 10 && no_duplicates(u),
        crate::image_search::serper::spec_results_outcome(status_text, parsed) matches Ok(u) ==> u.len()
            <= 10 && no_duplicates(u),
{
    let empty = Seq::<Seq<char>>::empty();
    assert(no_duplicates(empty));
    let m3 = first_n(matches_or_none(regex_captures(crate::google_image_searcher::DATA_OU_PATTERN@, text)), 10);
    lemma_data_ou_len(m3);
    let first = merge_unique(
        empty,
        crate::image_search::bing::iusc_candidates(
            matches_or_none(regex_captures(crate::image_search::bing::IUSC_PATTERN@, text)),
        ),
        10,
    );
    lemma_merge_unique_properties(
        empty,
        crate::image_search::bing::iusc_candidates(
            matches_or_none(regex_captures(crate::image_search::bing::IUSC_PATTERN@, text)),
        ),
        10,
    );
    lemma_merge_unique_properties(
        first,
        crate::image_search::bing::murl_candidates(
            matches_or_none(regex_captures(crate::image_search::bing::MURL_PATTERN@, text)),
        ),
        10,
    );
    if let Ok(doc) = parsed {
        if let Some(items) = crate::json::spec_as_array(crate::json::spec_get(doc, "results"@)) {
            lemma_merge_unique_properties(empty, crate::image_search::ddg::image_candidates(items), 10);
        }
        if let Some(items) = crate::json::spec_as_array(crate::json::spec_get(doc, "images_results"@)) {
            lemma_merge_unique_properties(
                empty,
                crate::json::member_candidates(items, "original"@, "thumbnail"@),
                10,
            );
        }
        if let Some(items) = crate::json::spec_as_array(crate::json::spec_get(doc, "images"@)) {
            lemma_merge_unique_properties(
                empty,
                crate::json::member_candidates(items, "imageUrl"@, "thumbnailUrl"@),
                10,
            );
        }
    }
}

/// There are no more `data-ou` URLs than matches.
proof fn lemma_data_ou_len(ms: Seq<Seq<Option<Seq<char>>>>)
    ensures
        crate::google_image_searcher::data_ou_urls(ms).len() <= ms.len(),
    decreases ms.len(),
{
    if ms.len() > 0 {
        lemma_data_ou_len(ms.drop_last());
    }
}

/// Exactly the one trailing image extension of a query (in any case) is
/// removed from the search text, and nothing else.
pub proof fn law_extension_removed(q: Seq<char>)
    ensures
        ends_with_any_case(q, ".gif"@, ".GIF"@) ==> strip_image_extension(q) == q.take(q.len() - 4),
        ends_with_any_case(q, ".jpg"@, ".JPG"@) ==> strip_image_extension(q) == q.take(q.len() - 4),
        ends_with_any_case(q, ".jpeg"@, ".JPEG"@) ==> strip_image_extension(q) == q.take(q.len() - 5),
        ends_with_any_case(q, ".png"@, ".PNG"@) ==> strip_image_extension(q) == q.take(q.len() - 4),
        !ends_with_any_case(q, ".gif"@, ".GIF"@) && !ends_with_any_case(q, ".jpg"@, ".JPG"@)
            && !ends_with_any_case(q, ".jpeg"@, ".JPEG"@) && !ends_with_any_case(q, ".png"@, ".PNG"@)
            ==> strip_image_extension(q) == q,
{
    reveal_strlit(".gif");
    reveal_strlit(".GIF");
    reveal_strlit(".jpg");
    reveal_strlit(".JPG");
    reveal_strlit(".jpeg");
    reveal_strlit(".JPEG");
    reveal_strlit(".png");
    reveal_strlit(".PNG");
    let n = q.len() as int;
    if ends_with_any_case(q, ".jpg"@, ".JPG"@) {
        assert(q[n - 4 + 3] == ".jpg"@[3] || q[n - 4 + 3] == ".JPG"@[3]);
        assert(!ends_with_any_case(q, ".gif"@, ".GIF"@)) by {
            assert(!(q[n - 4 + 3] == ".gif"@[3] || q[n - 4 + 3] == ".GIF"@[3]));
        }
    }
    if ends_with_any_case(q, ".jpeg"@, ".JPEG"@) {
        assert(q[n - 5 + 4] == ".jpeg"@[4] || q[n - 5 + 4] == ".JPEG"@[4]);
        assert(q[n - 5 + 3] == ".jpeg"@[3] || q[n - 5 + 3] == ".JPEG"@[3]);
        assert(!ends_with_any_case(q, ".gif"@, ".GIF"@)) by {
            assert(n - 4 + 3 == n - 5 + 4);
            assert(!(q[n - 4 + 3] == ".gif"@[3] || q[n - 4 + 3] == ".GIF"@[3]));
        }
        assert(!ends_with_any_case(q, ".jpg"@, ".JPG"@)) by {
            assert(n - 4 + 2 == n - 5 + 3);
            assert(!(q[n - 4 + 2] == ".jpg"@[2] || q[n - 4 + 2] == ".JPG"@[2]));
        }
    }
    if ends_with_any_case(q, ".png"@, ".PNG"@) {
        assert(q[n - 4 + 3] == ".png"@[3] || q[n - 4 + 3] == ".PNG"@[3]);
        assert(q[n - 4 + 2] == ".png"@[2] || q[n - 4 + 2] == ".PNG"@[2]);
        assert(!ends_with_any_case(q, ".gif"@, ".GIF"@)) by {
            assert(!(q[n - 4 + 3] == ".gif"@[3] || q[n - 4 + 3] == ".GIF"@[3]));
        }
        assert(!ends_with_any_case(q, ".jpg"@, ".JPG"@)) by {
            assert(!(q[n - 4 + 2] == ".jpg"@[2] || q[n - 4 + 2] == ".JPG"@[2]));
        }
        assert(!ends_with_any_case(q, ".jpeg"@, ".JPEG"@)) by {
            if n >= 5 {
                assert(n - 5 + 3 == n - 4 + 2);
                assert(!(q[n - 5 + 3] == ".jpeg"@[3] || q[n - 5 + 3] == ".JPEG"@[3]));
            }
        }
    }
}

// ---------------------------------------------------------------------------
// Local image matching
// ---------------------------------------------------------------------------

/// A character that survives normalisation other than the separating space.
pub open spec fn word_char(c: char) -> bool {
    char_is_alphanumeric(c) && !char_is_whitespace(c)
}

/// The shape of a normalised text: letters and digits in words separated by
/// single spaces, with no space at either end.
pub open spec fn normalized_shape(r: Seq<char>) -> bool {
    &&& forall|i: int| 0 <= i < r.len() ==> #[trigger] r[i] == ' ' || word_char(r[i])
    &&& r.len() > 0 ==> r[0] != ' ' && r.last() != ' '
    &&& forall|i: int| 0 <= i < r.len() - 1 ==> !(#[trigger] r[i] == ' ' && r[i + 1] == ' ')
}

/// Every character that normalisation keeps is a letter, a digit or
/// whitespace.
proof fn lemma_keep_chars(s: Seq<char>)
    ensures
        forall|i: int| 0 <= i < keep_chars(s).len() ==> keep_char(#[trigger] keep_chars(s)[i]),
    decreases s.len(),
{
    if s.len() > 0 {
        let d = s.drop_last();
        lemma_keep_chars(d);
        let r = keep_chars(s);
        let kd = keep_chars(d);
        assert forall|i: int| 0 <= i < r.len() implies keep_char(#[trigger] r[i]) by {
            if i < kd.len() {
                assert(r[i] == kd[i]);
            }
        }
    }
}

/// Words are non-empty and made of non-whitespace characters of `s`.
proof fn lemma_words_chars(s: Seq<char>)
    requires
        forall|i: int| 0 <= i < s.len() ==> keep_char(#[trigger] s[i]),
    ensures
        forall|k: int| 0 <= k < words(s).len() ==> (#[trigger] words(s)[k]).len() > 0 && forall|m: int|
            0 <= m < words(s)[k].len() ==> word_char(#[trigger] words(s)[k][m]),
    decreases s.len(),
{
    if s.len() > 0 {
        let d = s.drop_last();
        assert forall|i: int| 0 <= i < d.len() implies keep_char(#[trigger] d[i]) by {
            assert(d[i] == s[i]);
        }
        lemma_words_chars(d);
        lemma_words_len(d);
        let w = words(d);
        let c = s.last();
        assert(keep_char(s[s.len() - 1]));
        if char_is_whitespace(c) {
        } else if s.len() >= 2 && !char_is_whitespace(s[s.len() - 2]) {
            assert(d.last() == s[s.len() - 2]);
            let r = words(s);
            assert(r == w.update(w.len() - 1, w.last().push(c)));
            assert forall|k: int| 0 <= k < r.len() implies (#[trigger] r[k]).len() > 0 && forall|m: int|
                0 <= m < r[k].len() ==> word_char(#[trigger] r[k][m]) by {
                if k == w.len() - 1 {
                    assert forall|m: int| 0 <= m < r[k].len() implies word_char(#[trigger] r[k][m]) by {
                        if m < w.last().len() {
                            assert(r[k][m] == w[k][m]);
                        }
                    }
                } else {
                    assert(r[k] == w[k]);
                }
            }
        } else {
            let r = words(s);
            assert(r == w.push(seq![c]));
            assert forall|k: int| 0 <= k < r.len() implies (#[trigger] r[k]).len() > 0 && forall|m: int|
                0 <= m < r[k].len() ==> word_char(#[trigger] r[k][m]) by {
                if k < w.len() {
                    assert(r[k] == w[k]);
                } else {
                    assert(r[k] == seq![c]);
                }
            }
        }
    }
}

/// Joining non-empty words of word characters with single spaces gives a
/// normalised shape that starts with the first word and ends with the last.
proof fn lemma_join_shape(parts: Seq<Seq<char>>)
    requires
        forall|k: int| 0 <= k < parts.len() ==> (#[trigger] parts[k]).len() > 0 && forall|m: int|
            0 <= m < parts[k].len() ==> word_char(#[trigger] parts[k][m]),
    ensures
        normalized_shape(join(parts, seq![' '])),
        parts.len() > 0 ==> join(parts, seq![' ']).len() > 0 && join(parts, seq![' '])[0]
            == parts[0][0] && join(parts, seq![' ']).last() == parts.last().last(),
    decreases parts.len(),
{
    assert(char_is_whitespace(' '));
    let r = join(parts, seq![' ']);
    if parts.len() == 1 {
        let p = parts[0];
        assert(r == p);
        assert forall|i: int| 0 <= i < r.len() implies #[trigger] r[i] == ' ' || word_char(r[i]) by {
            assert(word_char(p[i]));
        }
        assert(word_char(p[0]));
        assert(word_char(p[p.len() - 1]));
        assert forall|i: int| 0 <= i < r.len() - 1 implies !(#[trigger] r[i] == ' ' && r[i + 1] == ' ') by {
            assert(word_char(p[i]));
        }
    } else if parts.len() > 1 {
        let d = parts.drop_last();
        assert forall|k: int| 0 <= k < d.len() implies (#[trigger] d[k]).len() > 0 && forall|m: int|
            0 <= m < d[k].len() ==> word_char(#[trigger] d[k][m]) by {
            assert(d[k] == parts[k]);
        }
        lemma_join_shape(d);
        let j = join(d, seq![' ']);
        let l = parts.last();
        assert(parts[parts.len() - 1] == l);
        assert(r == j + seq![' '] + l);
        assert(d[0] == parts[0]);
        assert(word_char(j[0])) by { assert(word_char(d[0][0])); }
        assert(word_char(j.last())) by { assert(word_char(d.last()[d.last().len() - 1])); }
        assert(word_char(l[0]));
        assert(word_char(l[l.len() - 1]));
        assert forall|i: int| 0 <= i < r.len() implies #[trigger] r[i] == ' ' || word_char(r[i]) by {
            if i < j.len() {
                assert(r[i] == j[i]);
            } else if i > j.len() {
                assert(r[i] == l[i - j.len() - 1]);
                assert(word_char(l[i - j.len() - 1]));
            }
        }
        assert(r[0] == j[0]);
        assert(r.last() == l[l.len() - 1]);
        assert forall|i: int| 0 <= i < r.len() - 1 implies !(#[trigger] r[i] == ' ' && r[i + 1] == ' ') by {
            if i + 1 < j.len() {
                assert(r[i] == j[i] && r[i + 1] == j[i + 1]);
            } else if i + 1 == j.len() {
                assert(r[i] == j.last());
            } else if i == j.len() {
                assert(r[i + 1] == l[0]);
            } else {
                assert(r[i] == l[i - j.len() - 1]);
                assert(word_char(l[i - j.len() - 1]));
            }
        }
    }
}

/// A normalised text is made of letters and digits in words separated by
/// single spaces, with no space at either end; the space is its only
/// whitespace.
pub proof fn law_normalize_shape(text: Seq<char>)
    ensures
        normalized_shape(spec_normalize_text(text)),
{
    let k = keep_chars(str_lowercase(text));
    lemma_keep_chars(str_lowercase(text));
    lemma_words_chars(k);
    lemma_join_shape(words(k));
}

/// How many hits there are is positive exactly when some file word hits.
proof fn lemma_word_hits_positive(fws: Seq<Seq<char>>, tws: Seq<Seq<char>>)
    ensures
        (word_hits(fws, tws) > 0) == exists|i: int| 0 <= i < fws.len() && word_hit(#[trigger] fws[i], tws),
    decreases fws.len(),
{
    if fws.len() > 0 {
        let d = fws.drop_last();
        lemma_word_hits_positive(d, tws);
        if exists|i: int| 0 <= i < d.len() && word_hit(#[trigger] d[i], tws) {
            let i = choose|i: int| 0 <= i < d.len() && word_hit(#[trigger] d[i], tws);
            assert(fws[i] == d[i]);
        }
        if exists|i: int| 0 <= i < fws.len() && word_hit(#[trigger] fws[i], tws) {
            let i = choose|i: int| 0 <= i < fws.len() && word_hit(#[trigger] fws[i], tws);
            if i < d.len() {
                assert(d[i] == fws[i]);
            }
        }
    }
}

/// A file name of three or more characters matches exactly when it and the
/// text contain one another, or some word of it is contained in or contains
/// some word of the text; by containment it scores the match score, by words
/// at most 100.
pub proof fn law_normal_filename(text: Seq<char>, stem: Seq<char>)
    requires
        stem.len() >= 3,
    ensures
        spec_file_score(text, stem) is Some == (seq_contains(text, stem) || seq_contains(stem, text)
            || exists|i: int, j: int|
            0 <= i < words(stem).len() && 0 <= j < words(text).len() && (seq_contains(
                #[trigger] words(text)[j],
                #[trigger] words(stem)[i],
            ) || seq_contains(words(stem)[i], words(text)[j]))),
        seq_contains(text, stem) || seq_contains(stem, text) ==> spec_file_score(text, stem) == Some(
            spec_match_score(text, stem),
        ),
        !(seq_contains(text, stem) || seq_contains(stem, text)) && spec_file_score(text, stem) is Some
            ==> spec_file_score(text, stem)->0 <= 100,
{
    lemma_word_hits_positive(words(stem), words(text));
    lemma_word_hits_bound(words(stem), words(text));
    let h = word_hits(words(stem), words(text));
    let n = words(stem).len();
    if h > 0 {
        let d: nat = if n > 0 { n } else { 1 };
        assert(h * 100 / d <= 100) by (nonlinear_arith)
            requires
                h <= d,
                d > 0,
        ;
    }
}

/// A file word is a hit both when some text word contains it and when it
/// contains some text word; the hit count is the number of file words that
/// are hits.
pub proof fn law_word_hits(fws: Seq<Seq<char>>, tws: Seq<Seq<char>>)
    ensures
        word_hits(fws, tws) == fws.filter(
            |f: Seq<char>|
                exists|j: int|
                    0 <= j < tws.len() && (seq_contains(#[trigger] tws[j], f) || seq_contains(f, tws[j])),
        ).len(),
    decreases fws.len(),
{
    let pred = |f: Seq<char>|
        exists|j: int| 0 <= j < tws.len() && (seq_contains(#[trigger] tws[j], f) || seq_contains(f, tws[j]));
    if fws.len() > 0 {
        law_word_hits(fws.drop_last(), tws);
        let f = fws.last();
        if word_hit(f, tws) {
            let i = choose|i: int| 0 <= i < tws.len() && (seq_contains(tws[i], f) || seq_contains(f, tws[i]));
            assert(seq_contains(tws[i], f) || seq_contains(f, tws[i]));
            assert(pred(f));
        }
        if pred(f) {
            let j = choose|j: int| 0 <= j < tws.len() && (seq_contains(#[trigger] tws[j], f) || seq_contains(f, tws[j]));
            assert(0 <= j < tws.len() && (seq_contains(tws[j], f) || seq_contains(f, tws[j])));
        }
        assert(word_hit(f, tws) == pred(f));
        reveal(Seq::filter);
        assert(fws.filter(pred) == if pred(f) {
            fws.drop_last().filter(pred).push(f)
        } else {
            fws.drop_last().filter(pred)
        });
    }
}

/// A file word that contains a text word, or is contained in one, makes the
/// hit count positive.
pub proof fn law_word_overlap(fws: Seq<Seq<char>>, tws: Seq<Seq<char>>, i: int, j: int)
    requires
        0 <= i < fws.len(),
        0 <= j < tws.len(),
        seq_contains(fws[i], tws[j]) || seq_contains(tws[j], fws[i]),
    ensures
        word_hits(fws, tws) > 0,
{
    lemma_word_hits_positive(fws, tws);
    assert(word_hit(fws[i], tws));
}

/// Google's thumbnails, static content and logos are dropped: no URL kept
/// from the JSON arrays or the quoted URLs carries `encrypted-tbn`, `gstatic`
/// or `googlelogo`.
pub proof fn law_google_kept_urls(ms: Seq<Seq<Option<Seq<char>>>>)
    ensures
        forall|k: int|
            0 <= k < kept_urls(ms).len() ==> !seq_contains(#[trigger] kept_urls(ms)[k], "encrypted-tbn"@)
                && !seq_contains(kept_urls(ms)[k], "gstatic"@) && !seq_contains(kept_urls(ms)[k], "googlelogo"@),
{
    lemma_kept_urls_free(ms);
    assert forall|k: int| 0 <= k < kept_urls(ms).len() implies free_of_google_images(#[trigger] kept_urls(ms)[k]) by {}
}

/// A URL of a Google result page that carries `encrypted-tbn`, `gstatic` or
/// `googlelogo` is handed back only by the `data-ou` fallback, which runs when
/// neither the JSON arrays nor the quoted URLs yield a kept URL.
pub proof fn law_google_own_images_dropped(text: Seq<char>)
    ensures
        forall|k: int|
            0 <= k < google_spec_extract(text).len() && (seq_contains(
                #[trigger] google_spec_extract(text)[k],
                "encrypted-tbn"@,
            ) || seq_contains(google_spec_extract(text)[k], "gstatic"@) || seq_contains(
                google_spec_extract(text)[k],
                "googlelogo"@,
            )) ==> google_spec_extract(text) == data_ou_urls(
                first_n(matches_or_none(regex_captures(DATA_OU_PATTERN@, text)), 10),
            ),
{
    let k1 = kept_urls(matches_or_none(regex_captures(JSON_IMAGE_PATTERN@, text)));
    let k2 = kept_urls(matches_or_none(regex_captures(QUOTED_IMAGE_PATTERN@, text)));
    law_google_kept_urls(matches_or_none(regex_captures(JSON_IMAGE_PATTERN@, text)));
    law_google_kept_urls(matches_or_none(regex_captures(QUOTED_IMAGE_PATTERN@, text)));
    let r = google_spec_extract(text);
    assert forall|k: int|
        0 <= k < r.len() && (seq_contains(#[trigger] r[k], "encrypted-tbn"@) || seq_contains(r[k], "gstatic"@)
            || seq_contains(r[k], "googlelogo"@)) implies r == data_ou_urls(
        first_n(matches_or_none(regex_captures(DATA_OU_PATTERN@, text)), 10),
    ) by {
        let m1 = first_n(k1, 10);
        let m2 = first_n(k2, 10);
        if m1.len() > 0 {
            assert(r[k] == k1[k]);
        } else if m2.len() > 0 {
            assert(r[k] == k2[k]);
        }
    }
}

/// A GIF request asks every engine for animated images and any other request
/// for still photos, through one parameter; the other parameters are the
/// same either way.
pub proof fn law_gif_filters(query: Seq<char>, vqd: Seq<char>, api_key: Seq<char>)
    ensures
        crate::image_search::bing::spec_request_params(query, true)[3] == ("qft"@, "+filterui:photo-animatedgif"@),
        crate::image_search::bing::spec_request_params(query, false)[3] == ("qft"@, "+filterui:photo-photo"@),
        crate::image_search::bing::spec_request_params(query, true).take(3)
            == crate::image_search::bing::spec_request_params(query, false).take(3),
        crate::image_search::ddg::spec_results_params(query, vqd, true)[3] == ("f"@, "type:gif"@),
        crate::image_search::ddg::spec_results_params(query, vqd, false)[3] == ("f"@, "type:photo"@),
        crate::image_search::ddg::spec_results_params(query, vqd, true).update(3, ("f"@, "type:photo"@))
            == crate::image_search::ddg::spec_results_params(query, vqd, false),
        crate::google_image_searcher::spec_request_params(query, true)[1] == ("tbs"@, "ift:gif"@),
        crate::google_image_searcher::spec_request_params(query, false)[1] == ("tbs"@, "ift:jpg"@),
        crate::google_image_searcher::spec_request_params(query, true).update(1, ("tbs"@, "ift:jpg"@))
            == crate::google_image_searcher::spec_request_params(query, false),
        crate::image_search::serpapi::spec_request_params(query, api_key, true)[6] == ("image_type"@, "animated"@),
        crate::image_search::serpapi::spec_request_params(query, api_key, false)[6] == ("image_type"@, "photo"@),
        crate::image_search::serpapi::spec_request_params(query, api_key, true).take(6)
            == crate::image_search::serpapi::spec_request_params(query, api_key, false).take(6),
        crate::image_search::serper::spec_payload_fields(query, true)[3] == ("type"@, "gif"@),
        crate::image_search::serper::spec_payload_fields(query, false)[3] == ("type"@, "images"@),
        crate::image_search::serper::spec_payload_fields(query, true).take(3)
            == crate::image_search::serper::spec_payload_fields(query, false).take(3),
{
    assert(crate::image_search::bing::spec_request_params(query, true).take(3)
        =~= crate::image_search::bing::spec_request_params(query, false).take(3));
    assert(crate::image_search::ddg::spec_results_params(query, vqd, true).update(3, ("f"@, "type:photo"@))
        =~= crate::image_search::ddg::spec_results_params(query, vqd, false));
    assert(crate::google_image_searcher::spec_request_params(query, true).update(1, ("tbs"@, "ift:jpg"@))
        =~= crate::google_image_searcher::spec_request_params(query, false));
    assert(crate::image_search::serpapi::spec_request_params(query, api_key, true).take(6)
        =~= crate::image_search::serpapi::spec_request_params(query, api_key, false).take(6));
    assert(crate::image_search::serper::spec_payload_fields(query, true).take(3)
        =~= crate::image_search::serper::spec_payload_fields(query, false).take(3));
}

/// Every engine treats the statuses 429 and 403 as a block; Bing also a
/// page asking to verify a human or mentioning a captcha, DuckDuckGo a page naming its support
/// address (or, for the search page, mentioning an anomaly). A download
/// succeeds exactly on a 2xx status.
pub proof fn law_block_detection(status_code: u16, page: Seq<char>)
    ensures
        crate::image_search::bing::spec_is_blocked(status_code, page) == (status_code == 429 || status_code == 403
            || seq_contains(page, "Please verify you are a human"@) || seq_contains(page, "captcha"@)),
        crate::image_search::ddg::spec_is_blocked_search_page(status_code, page) == (status_code == 429
            || status_code == 403 || seq_contains(page, "ops@duckduckgo.com"@) || seq_contains(page, "anomaly"@)),
        crate::image_search::ddg::spec_is_blocked_i_js(status_code, page) == (status_code == 429 || status_code
            == 403 || seq_contains(page, "ops@duckduckgo.com"@)),
        crate::imgur_handler::spec_status_success(status_code) == (200 <= status_code <= 299),
{
}

/// A name matched against itself scores 1000 plus its length in bytes.
pub proof fn law_self_match(s: Seq<char>)
    ensures
        spec_match_score(s, s) == 1000 + utf8_len(s),
{
    assert(s.subrange(0, s.len() as int) =~= s);
    assert(occurs_at(s, s, 0));
}

// ---------------------------------------------------------------------------
// Bing URLs
// ---------------------------------------------------------------------------

/// Replacing a pattern whose first character occurs nowhere in the prefix `p`
/// keeps the prefix.
pub proof fn lemma_replace_keeps_prefix(s: Seq<char>, f: Seq<char>, t: Seq<char>, p: Seq<char>)
    requires
        seq_starts_with(s, p),
        f.len() > 0,
        forall|i: int| 0 <= i < p.len() ==> #[trigger] p[i] != f[0],
    ensures
        seq_starts_with(replace_seq(s, f, t), p),
    decreases p.len(),
{
    let r = replace_seq(s, f, t);
    if p.len() == 0 {
        assert(r.take(0) =~= p);
    } else if s.len() < f.len() {
    } else {
        assert(s[0] == p[0]);
        assert(s.take(f.len() as int)[0] != f[0]);
        let rest = s.skip(1);
        assert(rest.take(p.len() - 1) =~= p.drop_first());
        assert forall|i: int| 0 <= i < p.drop_first().len() implies #[trigger] p.drop_first()[i] != f[0] by {
            assert(p.drop_first()[i] == p[i + 1]);
        }
        lemma_replace_keeps_prefix(rest, f, t, p.drop_first());
        let rr = replace_seq(rest, f, t);
        assert(r == seq![s[0]] + rr);
        assert(r.take(p.len() as int) =~= seq![s[0]] + rr.take(p.len() - 1));
        assert(seq![s[0]] + p.drop_first() =~= p);
    }
}

/// Undoing the JSON escapes keeps an `http` prefix.
pub proof fn lemma_unescape_keeps_http(u: Seq<char>)
    requires
        seq_starts_with(u, "http"@),
    ensures
        seq_starts_with(unescape_seq(u), "http"@),
{
    reveal_strlit("http");
    reveal_strlit("\\u0026");
    reveal_strlit("\\u003d");
    lemma_replace_keeps_prefix(u, "\\u0026"@, "&"@, "http"@);
    lemma_replace_keeps_prefix(replace_seq(u, "\\u0026"@, "&"@), "\\u003d"@, "="@, "http"@);
}

/// Every anchor `murl` starts with `http`.
proof fn lemma_iusc_http(ms: Seq<Seq<Option<Seq<char>>>>)
    ensures
        forall|k: int| 0 <= k < iusc_candidates(ms).len() ==> seq_starts_with(#[trigger] iusc_candidates(ms)[k], "http"@),
    decreases ms.len(),
{
    if ms.len() > 0 {
        lemma_iusc_http(ms.drop_first());
        let rest = iusc_candidates(ms.drop_first());
        let r = iusc_candidates(ms);
        if let Some(m) = group_of(ms[0], 1) {
            let d = replace_seq(m, "&quot;"@, "\""@);
            if let Some(u) = spec_extract_murl(d) {
                let key = "\"murl\":\""@;
                let i = index_from(d, key, 0)->0;
                let j = index_from(d, "\""@, i + key.len())->0;
                lemma_unescape_keeps_http(d.subrange(i + key.len(), j));
                assert forall|k: int| 0 <= k < r.len() implies seq_starts_with(#[trigger] r[k], "http"@) by {
                    if k > 0 {
                        assert(r[k] == rest[k - 1]);
                    }
                }
            }
        }
    }
}

/// The raw `murl`s start with `http` when their capture groups do.
proof fn lemma_murl_http(ms: Seq<Seq<Option<Seq<char>>>>)
    requires
        forall|k: int| 0 <= k < ms.len() ==> (group_of(#[trigger] ms[k], 1) matches Some(u) ==> seq_starts_with(u, "http"@)),
    ensures
        forall|k: int| 0 <= k < murl_candidates(ms).len() ==> seq_starts_with(#[trigger] murl_candidates(ms)[k], "http"@),
    decreases ms.len(),
{
    if ms.len() > 0 {
        let d = ms.drop_first();
        assert forall|k: int| 0 <= k < d.len() implies (group_of(#[trigger] d[k], 1) matches Some(u) ==> seq_starts_with(u, "http"@)) by {
            assert(d[k] == ms[k + 1]);
        }
        lemma_murl_http(d);
        let rest = murl_candidates(d);
        let r = murl_candidates(ms);
        assert(group_of(ms[0], 1) matches Some(u) ==> seq_starts_with(u, "http"@));
        if let Some(u) = group_of(ms[0], 1) {
            lemma_unescape_keeps_http(u);
            assert forall|k: int| 0 <= k < r.len() implies seq_starts_with(#[trigger] r[k], "http"@) by {
                if k > 0 {
                    assert(r[k] == rest[k - 1]);
                }
            }
        }
    }
}

/// Every URL Bing extraction hands back starts with `http`: the anchor
/// `murl`s are checked for it, and the raw `murl` members match a pattern
/// that requires it (which is what the hypothesis says of the regular
/// expression's captures).
pub proof fn law_bing_urls_http(text: Seq<char>)
    requires
        forall|k: int|
            0 <= k < matches_or_none(regex_captures(MURL_PATTERN@, text)).len() ==> (group_of(
                #[trigger] matches_or_none(regex_captures(MURL_PATTERN@, text))[k],
                1,
            ) matches Some(u) ==> seq_starts_with(u, "http"@)),
    ensures
        forall|k: int|
            0 <= k < bing_spec_extract(text).len() ==> seq_starts_with(#[trigger] bing_spec_extract(text)[k], "http"@),
{
    let m1 = matches_or_none(regex_captures(IUSC_PATTERN@, text));
    let m2 = matches_or_none(regex_captures(MURL_PATTERN@, text));
    lemma_iusc_http(m1);
    lemma_murl_http(m2);
    let empty = Seq::<Seq<char>>::empty();
    let c1 = iusc_candidates(m1);
    let c2 = murl_candidates(m2);
    lemma_merge_unique_properties(empty, c1, 10);
    let first = merge_unique(empty, c1, 10);
    lemma_merge_unique_properties(first, c2, 10);
    let r = bing_spec_extract(text);
    assert forall|k: int| 0 <= k < r.len() implies seq_starts_with(#[trigger] r[k], "http"@) by {
        assert(r.contains(r[k]));
        if first.contains(r[k]) {
            assert(empty.contains(r[k]) || c1.contains(r[k]));
            let j = choose|j: int| 0 <= j < c1.len() && c1[j] == r[k];
        } else {
            assert(c2.contains(r[k]));
            let j = choose|j: int| 0 <= j < c2.len() && c2[j] == r[k];
        }
    }
}
} // verus!
