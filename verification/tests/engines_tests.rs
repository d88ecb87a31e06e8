use tgjpg_rs::google_image_searcher;
use tgjpg_rs::image_search::{bing, ddg, serpapi, serper, SearchError};
use tgjpg_rs::json::JsonValue;

fn obj(entries: Vec<(&str, JsonValue)>) -> JsonValue {
    JsonValue::Object(entries.into_iter().map(|(k, v)| (k.to_string(), v)).collect())
}

fn st(s: &str) -> JsonValue {
    JsonValue::Str(s.to_string())
}

#[test]
fn google_params() {
    let p = google_image_searcher::request_params("cat", true);
    assert_eq!(p[1], ("tbs".to_string(), "ift:gif".to_string()));
    assert_eq!(p.len(), 4);
}

#[test]
fn google_json_arrays_are_filtered_and_unescaped() {
    let html = r#"x ["https://a.com/1.jpg?x\u003d1\u0026y", 10, 20] ["https://encrypted-tbn0.gstatic.com/t.jpg",1,1] ["http://b.org/2.png", 3 , 4]"#;
    let urls = google_image_searcher::extract_image_urls(html);
    assert_eq!(urls, vec!["https://a.com/1.jpg?x=1&y".to_string(), "http://b.org/2.png".to_string()]);
}

#[test]
fn google_falls_back_to_quoted_then_data_ou() {
    let html = r#"<img src="https://c.net/p.gif">"#;
    assert_eq!(google_image_searcher::extract_image_urls(html), vec!["https://c.net/p.gif".to_string()]);
    let html = r#"<div data-ou="https://d.io/q"></div><div data-ou="x"></div>"#;
    assert_eq!(google_image_searcher::extract_image_urls(html), vec!["https://d.io/q".to_string(), "x".to_string()]);
    let r = google_image_searcher::search_outcome("<html></html>");
    match r {
        Err(SearchError::ParseFailed { engine, details }) => {
            assert_eq!(engine, "Google");
            assert_eq!(details, google_image_searcher::EMPTY_RESULT_DETAILS);
        }
        _ => panic!("expected a parse failure"),
    }
}

#[test]
fn google_caps_at_ten() {
    let mut html = String::new();
    for i in 0..15 {
        html.push_str(&format!("[\"https://e.com/{}.jpg\",1,1]", i));
    }
    let urls = google_image_searcher::extract_image_urls(&html);
    assert_eq!(urls.len(), 10);
    assert_eq!(urls[9], "https://e.com/9.jpg");
}

#[test]
fn bing_extract_murl() {
    assert_eq!(
        bing::extract_murl(r#"{"purl":"x","murl":"https://a.com/i.jpg\u0026s","turl":"t"}"#),
        Some("https://a.com/i.jpg&s".to_string())
    );
    assert_eq!(bing::extract_murl(r#"{"murl":"ftp://a"}"#), None);
    assert_eq!(bing::extract_murl(r#"{"murl":"https://unterminated"#), None);
    assert_eq!(bing::extract_murl("{}"), None);
}

#[test]
fn bing_anchors_and_fallback() {
    let html = r#"<a href="/x" class="iusc" m="{&quot;murl&quot;:&quot;https://a.com/1.jpg&quot;}">x</a>
<a href="/y" class="iusc" m="{&quot;murl&quot;:&quot;https://a.com/1.jpg&quot;}">y</a>
<script>{"murl":"https://b.com/2.jpg"}</script>"#;
    let urls = bing::extract_image_urls(html);
    assert_eq!(urls, vec!["https://a.com/1.jpg".to_string(), "https://b.com/2.jpg".to_string()]);
}

#[test]
fn bing_outcomes() {
    assert!(bing::is_blocked(429, ""));
    assert!(bing::is_blocked(200, "solve this captcha"));
    assert!(!bing::is_blocked(200, "fine"));
    match bing::search_outcome(403, "403 Forbidden", "") {
        Err(SearchError::Blocked { engine, details }) => {
            assert_eq!(engine, "Bing");
            assert_eq!(details, "status=403 Forbidden");
        }
        _ => panic!("expected a block"),
    }
    match bing::search_outcome(200, "200 OK", "nothing") {
        Err(SearchError::ParseFailed { details, .. }) => assert_eq!(details, bing::NO_URLS_DETAILS),
        _ => panic!("expected a parse failure"),
    }
    let p = bing::request_params("cat", false);
    assert_eq!(p[3], ("qft".to_string(), "+filterui:photo-photo".to_string()));
}

#[test]
fn ddg_vqd_token() {
    assert_eq!(ddg::extract_vqd(200, "200 OK", r#"foo vqd="4-123abc" bar"#).unwrap(), "4-123abc");
    assert_eq!(ddg::extract_vqd(200, "200 OK", "x vqd:4-99z y").unwrap(), "4-99z");
    match ddg::extract_vqd(200, "200 OK", "no token") {
        Err(SearchError::ParseFailed { details, .. }) => assert_eq!(details, ddg::NO_TOKEN_DETAILS),
        _ => panic!("expected a parse failure"),
    }
    match ddg::extract_vqd(200, "200 OK", "anomaly detected") {
        Err(SearchError::Blocked { details, .. }) => assert_eq!(details, "status=200 OK, vqd page blocked"),
        _ => panic!("expected a block"),
    }
}

#[test]
fn ddg_results() {
    let doc = obj(vec![(
        "results",
        JsonValue::Array(vec![
            obj(vec![("image", st("https://a.com/1.jpg"))]),
            obj(vec![("title", st("no image"))]),
            obj(vec![("image", st("https://a.com/1.jpg"))]),
            obj(vec![("image", st("https://b.com/x?a\\u003d1"))]),
        ]),
    )]);
    let r = ddg::results_outcome(200, "200 OK", "{}", &Ok(doc)).unwrap();
    assert_eq!(r, vec!["https://a.com/1.jpg".to_string(), "https://b.com/x?a=1".to_string()]);
    let r = ddg::results_outcome(200, "200 OK", "{}", &Ok(obj(vec![])));
    assert_eq!(r, Err(SearchError::NoResults { engine: "DDG" }));
    let r = ddg::results_outcome(200, "200 OK", "<", &Err("expected value".to_string()));
    assert_eq!(r, Err(SearchError::ParseFailed { engine: "DDG", details: "Invalid i.js JSON: expected value".to_string() }));
    let r = ddg::results_outcome(429, "429 Too Many Requests", "", &Ok(obj(vec![])));
    assert_eq!(
        r,
        Err(SearchError::Blocked { engine: "DDG", details: "status=429 Too Many Requests, body matched block page".to_string() })
    );
}

#[test]
fn serpapi_results() {
    let doc = obj(vec![(
        "images_results",
        JsonValue::Array(vec![
            obj(vec![("original", st("https://o.com/1.jpg")), ("thumbnail", st("https://t.com/1.jpg"))]),
            obj(vec![("thumbnail", st("https://t.com/2.jpg"))]),
        ]),
    )]);
    let r = serpapi::results_outcome("200 OK", &Ok(doc)).unwrap();
    assert_eq!(r, vec!["https://o.com/1.jpg".to_string(), "https://t.com/2.jpg".to_string()]);
    let doc = obj(vec![("error", st("Invalid API key"))]);
    assert_eq!(
        serpapi::results_outcome("401 Unauthorized", &Ok(doc)),
        Err(SearchError::Blocked { engine: "SerpAPI", details: "status=401 Unauthorized, error=Invalid API key".to_string() })
    );
    let doc = obj(vec![("search_metadata", obj(vec![("status", st("Error"))]))]);
    assert_eq!(
        serpapi::results_outcome("200 OK", &Ok(doc)),
        Err(SearchError::Blocked { engine: "SerpAPI", details: "status=200 OK, search_metadata.status=Error".to_string() })
    );
    assert_eq!(
        serpapi::results_outcome("200 OK", &Ok(obj(vec![]))),
        Err(SearchError::NoResults { engine: "SerpAPI" })
    );
    let p = serpapi::request_params("cat", "KEY", true);
    assert_eq!(p[6], ("image_type".to_string(), "animated".to_string()));
    assert_eq!(
        serpapi::missing_key_error(),
        SearchError::NetworkFailed { engine: "SerpAPI", details: "SERP_API is not configured".to_string() }
    );
}

#[test]
fn serper_results() {
    let doc = obj(vec![(
        "images",
        JsonValue::Array(vec![
            obj(vec![("imageUrl", st("https://i.com/1.jpg"))]),
            obj(vec![("thumbnailUrl", st("https://i.com/1.jpg"))]),
            obj(vec![("imageUrl", JsonValue::Number("3".to_string()))]),
        ]),
    )]);
    let r = serper::results_outcome("200 OK", &Ok(doc)).unwrap();
    assert_eq!(r, vec!["https://i.com/1.jpg".to_string()]);
    let doc = obj(vec![("message", st("Unauthorized."))]);
    assert_eq!(
        serper::results_outcome("403 Forbidden", &Ok(doc)),
        Err(SearchError::Blocked { engine: "Serper", details: "status=403 Forbidden, message=Unauthorized.".to_string() })
    );
    assert_eq!(
        serper::results_outcome("200 OK", &Err("EOF".to_string())),
        Err(SearchError::ParseFailed { engine: "Serper", details: "Invalid JSON: EOF".to_string() })
    );
    let p = serper::payload_fields("cat", true);
    assert_eq!(p[3], ("type".to_string(), "gif".to_string()));
}

#[test]
fn json_lookup() {
    let doc = obj(vec![("a", st("1")), ("b", JsonValue::Null)]);
    assert_eq!(doc.get("a").and_then(|v| v.as_str()), Some("1"));
    assert!(doc.get("c").is_none());
    assert!(st("x").get("a").is_none());
    assert!(JsonValue::Array(vec![]).as_array().is_some());
}

#[test]
fn capture_post_processing() {
    let ms = vec![
        vec![Some("m".to_string()), Some("{&quot;murl&quot;:&quot;https://a/1&quot;}".to_string())],
        vec![Some("m".to_string()), None],
        vec![Some("m".to_string()), Some("{&quot;x&quot;:1}".to_string())],
    ];
    assert_eq!(bing::iusc_urls(&ms), vec!["https://a/1".to_string()]);
    let ms = vec![vec![Some("m".to_string()), Some("https://b/2\\u0026x".to_string())]];
    assert_eq!(bing::murl_urls(&ms), vec!["https://b/2&x".to_string()]);
    let ms = vec![vec![Some("vqd='7'".to_string()), Some("7".to_string())]];
    assert_eq!(ddg::first_group_one_of(&ms), Some("7".to_string()));
    assert_eq!(ddg::first_group_one_of(&Vec::new()), None);
    let ms = vec![
        vec![Some("m".to_string()), Some("https://g/1.jpg".to_string())],
        vec![Some("m".to_string()), Some("https://gstatic.com/x.jpg".to_string())],
    ];
    assert_eq!(google_image_searcher::kept_image_urls(&ms), vec!["https://g/1.jpg".to_string()]);
    assert_eq!(google_image_searcher::data_ou_image_urls(&ms).len(), 2);
}
