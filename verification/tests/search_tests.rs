use tgjpg_rs::image_search::{
    api_key_configured, combine_results, default_engines, enabled_after_health_check,
    engine_enabled, merge_results, update_health, update_health_optional, CombinedSearchError,
    SearchEngine, SearchError, MAX_RESULTS,
};

fn urls(v: &[&str]) -> Vec<String> {
    v.iter().map(|x| x.to_string()).collect()
}

#[test]
fn engine_labels() {
    assert_eq!(SearchEngine::Serper.label(), "Serper");
    assert_eq!(SearchEngine::Google.label(), "Google");
    assert_eq!(SearchEngine::SerpApi.label(), "SerpAPI");
    assert_eq!(SearchEngine::Ddg.label(), "DDG");
    assert_eq!(SearchEngine::Bing.label(), "Bing");
}

#[test]
fn search_error_messages() {
    let e = SearchError::Blocked { engine: "Bing", details: "status=429 Too Many Requests".to_string() };
    assert_eq!(e.message(), "Bing blocked: status=429 Too Many Requests");
    assert_eq!(SearchError::NoResults { engine: "DDG" }.message(), "DDG returned no results");
    let e = SearchError::ParseFailed { engine: "DDG", details: "bad".to_string() };
    assert_eq!(e.message(), "DDG parse failed: bad");
    let e = SearchError::NetworkFailed { engine: "Serper", details: "timeout".to_string() };
    assert_eq!(e.message(), "Serper network failed: timeout");
}

#[test]
fn merge_results_dedups_and_caps() {
    let mut combined = urls(&["a", "b"]);
    let mut had_success = false;
    let mut errors = Vec::new();
    let many: Vec<String> = (0..20).map(|i| format!("u{}", i)).collect();
    let mut incoming = urls(&["b", "c"]);
    incoming.extend(many);
    merge_results("Google", Some(Ok(incoming)), &mut combined, &mut had_success, &mut errors);
    assert!(had_success);
    assert!(errors.is_empty());
    assert_eq!(combined.len(), MAX_RESULTS);
    assert_eq!(&combined[..4], &["a", "b", "c", "u0"]);
}

#[test]
fn merge_results_records_errors_and_ignores_skipped_engines() {
    let mut combined = Vec::new();
    let mut had_success = false;
    let mut errors = Vec::new();
    merge_results("DDG", None, &mut combined, &mut had_success, &mut errors);
    assert!(combined.is_empty() && !had_success && errors.is_empty());
    let err = SearchError::NoResults { engine: "DDG" };
    merge_results("DDG", Some(Err(err)), &mut combined, &mut had_success, &mut errors);
    assert_eq!(errors, vec!["DDG: DDG returned no results".to_string()]);
    assert!(!had_success);
}

#[test]
fn combine_results_keeps_engine_order() {
    let r = combine_results(
        Some(Ok(urls(&["s1", "g1"]))),
        Some(Ok(urls(&["g1", "g2"]))),
        None,
        Some(Err(SearchError::NoResults { engine: "DDG" })),
        Some(Ok(urls(&["b1"]))),
    );
    assert_eq!(r.unwrap(), urls(&["s1", "g1", "g2", "b1"]));
}

#[test]
fn combine_results_reports_empty_success() {
    let r = combine_results(None, Some(Ok(Vec::new())), None, None, None);
    let e = r.unwrap_err();
    assert_eq!(e, CombinedSearchError::NoImageUrls);
    assert_eq!(e.message(), "All enabled search engines completed but returned no image URLs.");
}

#[test]
fn combine_results_reports_all_failures() {
    let r = combine_results(
        None,
        Some(Err(SearchError::ParseFailed { engine: "Google", details: "x".to_string() })),
        None,
        Some(Err(SearchError::NoResults { engine: "DDG" })),
        None,
    );
    let e = r.unwrap_err();
    assert_eq!(
        e.message(),
        "All enabled search engines failed: Google: Google parse failed: x | DDG: DDG returned no results"
    );
}

#[test]
fn default_engine_orders() {
    assert_eq!(default_engines(false, false), vec![SearchEngine::Google, SearchEngine::Ddg, SearchEngine::Bing]);
    assert_eq!(default_engines(true, false), vec![SearchEngine::Serper, SearchEngine::Google, SearchEngine::Ddg, SearchEngine::Bing]);
    assert_eq!(default_engines(false, true), vec![SearchEngine::Google, SearchEngine::SerpApi, SearchEngine::Ddg, SearchEngine::Bing]);
    assert_eq!(default_engines(true, true), vec![SearchEngine::Serper, SearchEngine::Google, SearchEngine::SerpApi, SearchEngine::Ddg, SearchEngine::Bing]);
}

#[test]
fn health_check_enables_engines_with_urls() {
    let mut enabled = Vec::new();
    update_health(&mut enabled, SearchEngine::Google, Ok(urls(&["x"])));
    update_health(&mut enabled, SearchEngine::Ddg, Ok(Vec::new()));
    update_health(&mut enabled, SearchEngine::Bing, Err(SearchError::NoResults { engine: "Bing" }));
    update_health_optional(&mut enabled, SearchEngine::Serper, None);
    update_health_optional(&mut enabled, SearchEngine::SerpApi, Some(Ok(urls(&["y"]))));
    assert_eq!(enabled, vec![SearchEngine::Google, SearchEngine::SerpApi]);
    let e = enabled_after_health_check(
        Some(Ok(urls(&["a"]))),
        Err(SearchError::NoResults { engine: "Google" }),
        None,
        Ok(urls(&["b"])),
        Ok(Vec::new()),
    );
    assert_eq!(e, vec![SearchEngine::Serper, SearchEngine::Ddg]);
    assert!(engine_enabled(&e, SearchEngine::Ddg));
    assert!(!engine_enabled(&e, SearchEngine::Google));
}

#[test]
fn api_keys() {
    assert!(api_key_configured(Some("abc")));
    assert!(!api_key_configured(Some("  \t")));
    assert!(!api_key_configured(None));
}
