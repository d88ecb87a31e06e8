use tgjpg_rs::imgur_handler::{download_failure, is_imgur_url};
use tgjpg_rs::inline_query_handler::{inline_result_urls, no_results_message, prepare_inline_query};
use tgjpg_rs::message_handler::{
    classify_message, command_reply, delivery_method, next_attempt, request_from_matches, Delivery,
    MessageAction,
    WELCOME_TEXT,
};

#[test]
fn imgur_urls() {
    assert!(is_imgur_url("https://i.imgur.com/abc.gif"));
    assert!(is_imgur_url("http://imgur.com/x"));
    assert!(!is_imgur_url("https://example.com/imgur"));
    assert_eq!(download_failure(200, "200 OK"), None);
    assert_eq!(download_failure(404, "404 Not Found"), Some("HTTP error: 404 Not Found".to_string()));
}

#[test]
fn inline_queries() {
    assert!(prepare_inline_query("   ").is_none());
    let q = prepare_inline_query("  mic drop.gif ").unwrap();
    assert_eq!(q.query, "mic drop.gif");
    assert_eq!(q.search_query, "mic drop");
    assert!(q.is_gif);
    let q = prepare_inline_query("cat.jpg").unwrap();
    assert_eq!(q.search_query, "cat");
    assert!(!q.is_gif);
    let q = prepare_inline_query("42 cats.JPG").unwrap();
    assert_eq!(q.search_query, "42 cats");
    let q = prepare_inline_query("cat .Gif").unwrap();
    assert_eq!(q.search_query, "cat");
    assert!(q.is_gif);
    let q = prepare_inline_query("sunset.jpeg").unwrap();
    assert_eq!(q.search_query, "sunset");
    let q = prepare_inline_query("pic.png.gif").unwrap();
    assert_eq!(q.search_query, "pic.png");
    let q = prepare_inline_query("hello world").unwrap();
    assert_eq!(q.search_query, "hello world");
    assert!(!q.is_gif);
    let q = prepare_inline_query("wow...").unwrap();
    assert_eq!(q.search_query, "wow...");
    // Nothing is left once the extension is gone, so the query itself is searched.
    let q = prepare_inline_query(".gif").unwrap();
    assert_eq!(q.search_query, ".gif");
    assert!(q.is_gif);
}

#[test]
fn inline_results() {
    let mut urls: Vec<String> = vec!["not a url".to_string()];
    for i in 0..12 {
        urls.push(format!("https://x.com/{}.jpg", i));
    }
    let r = inline_result_urls(&urls);
    assert_eq!(r.len(), 9);
    assert_eq!(r[0], "https://x.com/0.jpg");
    assert_eq!(no_results_message("cat"), "No images found for \"cat\"");
}

#[test]
fn messages() {
    assert_eq!(classify_message("/start"), MessageAction::Command);
    assert_eq!(
        classify_message("mic drop.GIF"),
        MessageAction::ImageSearch { query: "mic drop".to_string(), is_gif: true }
    );
    assert_eq!(
        classify_message("a.b.png"),
        MessageAction::ImageSearch { query: "a.b".to_string(), is_gif: false }
    );
    assert_eq!(classify_message("just text"), MessageAction::Ignore);
    assert_eq!(classify_message(".jpg"), MessageAction::Ignore);
    assert_eq!(command_reply("/start"), Some(WELCOME_TEXT.to_string()));
    assert!(WELCOME_TEXT.starts_with("Welcome! Send me"));
    assert_eq!(command_reply("/help"), None);
}

#[test]
fn deliveries() {
    assert_eq!(delivery_method("https://i.imgur.com/a.gif"), Delivery::DownloadImgur);
    assert_eq!(delivery_method("https://x.com/a.gif"), Delivery::SendUrl);
    assert_eq!(delivery_method("nope"), Delivery::Skip);
    let urls = vec!["nope".to_string(), "https://x.com/a.gif".to_string(), "https://imgur.com/b".to_string()];
    assert_eq!(next_attempt(&urls, 0), Some((1, Delivery::SendUrl)));
    assert_eq!(next_attempt(&urls, 2), Some((2, Delivery::DownloadImgur)));
    assert_eq!(next_attempt(&urls, 3), None);
}

#[test]
fn requests_from_matches() {
    let ms = vec![vec![Some("dog.GIF".to_string()), Some("dog".to_string()), Some("GIF".to_string())]];
    assert_eq!(
        request_from_matches(&ms),
        MessageAction::ImageSearch { query: "dog".to_string(), is_gif: true }
    );
    assert_eq!(request_from_matches(&Vec::new()), MessageAction::Ignore);
    let ms = vec![vec![Some("x".to_string()), None]];
    assert_eq!(request_from_matches(&ms), MessageAction::Ignore);
}
