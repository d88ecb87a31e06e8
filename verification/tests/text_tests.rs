use tgjpg_rs::text::{
    chars_of, join_with, replace, split_whitespace, str_contains, str_ends_with, str_eq, str_trim,
    string_of, unescape,
};
use tgjpg_rs::unicode::is_whitespace;

fn s(v: &[char]) -> String {
    v.iter().collect()
}

#[test]
fn contains_finds_substrings() {
    assert!(str_contains("hello world", "lo w"));
    assert!(str_contains("hello", ""));
    assert!(!str_contains("hello", "world"));
    assert!(!str_contains("he", "hello"));
}

#[test]
fn ends_with_and_eq() {
    assert!(str_ends_with("cat.gif", ".gif"));
    assert!(!str_ends_with("cat.gi", ".gif"));
    assert!(str_eq("abc", "abc"));
    assert!(!str_eq("abc", "abd"));
}

#[test]
fn replace_is_left_to_right_and_non_overlapping() {
    let r = replace(&chars_of("aaaa"), &chars_of("aa"), &chars_of("b"));
    assert_eq!(s(&r), "bb");
    let r = replace(&chars_of("a\\u0026b\\u0026"), &chars_of("\\u0026"), &chars_of("&"));
    assert_eq!(s(&r), "a&b&");
    let r = replace(&chars_of("abc"), &chars_of("x"), &chars_of("yy"));
    assert_eq!(s(&r), "abc");
}

#[test]
fn unescape_undoes_json_escapes() {
    let r = unescape(&chars_of("https://x.com/a?b\\u003d1\\u0026c\\u003d2"));
    assert_eq!(s(&r), "https://x.com/a?b=1&c=2");
}

#[test]
fn trim_removes_unicode_whitespace() {
    assert_eq!(s(&str_trim("  \t hi there \n")), "hi there");
    assert_eq!(s(&str_trim("\u{3000}x\u{a0}")), "x");
    assert_eq!(s(&str_trim("   ")), "");
}

#[test]
fn whitespace_agrees_with_std() {
    for code in 0u32..=0x10FFFF {
        if let Some(c) = char::from_u32(code) {
            assert_eq!(is_whitespace(c), c.is_whitespace(), "U+{:04X}", code);
        }
    }
}

#[test]
fn words_and_join() {
    let w = split_whitespace(&chars_of("  the  quick\tbrown\n "));
    let words: Vec<String> = w.iter().map(|x| s(x)).collect();
    assert_eq!(words, vec!["the", "quick", "brown"]);
    let joined = join_with(&w, &[' ']);
    assert_eq!(s(&joined), "the quick brown");
    assert_eq!(split_whitespace(&chars_of("   ")).len(), 0);
    assert_eq!(string_of(&['a', 'b']), "ab");
}
