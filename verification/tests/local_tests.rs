use tgjpg_rs::local_image_finder::{
    best_match, calculate_match_score, handle_normal_filename, handle_short_filename,
    normalize_text, process_file, rank_matches, word_match_count,
};

#[test]
fn normalize() {
    assert_eq!(normalize_text("  Hello,   WORLD!! 123 "), "hello world 123");
    assert_eq!(normalize_text("Mic-Drop.GIF"), "micdropgif");
    assert_eq!(normalize_text("!!!"), "");
    assert_eq!(normalize_text("Café\tau  lait"), "café au lait");
}

#[test]
fn match_scores() {
    assert_eq!(calculate_match_score("i love cats", "cats"), 1004);
    assert_eq!(calculate_match_score("cat", "cute cat pic"), 903);
    assert_eq!(calculate_match_score("dog run", "dog running"), 900 + 7);
    assert_eq!(calculate_match_score("big dog", "dog big"), 200);
    assert_eq!(calculate_match_score("doggy bone", "dog xyz"), 50);
    assert_eq!(calculate_match_score("abc", "xyz"), 0);
    assert_eq!(calculate_match_score("é", "café"), 900 + 2);
}

#[test]
fn short_names_need_exact_match() {
    let mut m = Vec::new();
    handle_short_filename("a/ok.png", "ok", "ok", &mut m);
    handle_short_filename("a/no.png", "okay", "no", &mut m);
    assert_eq!(m, vec![("a/ok.png".to_string(), 2000)]);
}

#[test]
fn normal_names_by_containment_and_words() {
    let mut m = Vec::new();
    handle_normal_filename("x/cat.jpg", "my cat", "cat", &mut m);
    handle_normal_filename("x/happy dog.jpg", "dog park", "happy dog", &mut m);
    handle_normal_filename("x/zzz.jpg", "dog", "zzz", &mut m);
    assert_eq!(m, vec![("x/cat.jpg".to_string(), 1003), ("x/happy dog.jpg".to_string(), 50)]);
}

#[test]
fn process_files() {
    let mut m = Vec::new();
    process_file("assets/Mic Drop.gif", "mic drop", &mut m);
    process_file("assets/ok.png", "ok", &mut m);
    process_file("assets/.hidden", "zzz", &mut m);
    process_file("assets/unrelated.png", "mic drop", &mut m);
    assert_eq!(m, vec![("assets/Mic Drop.gif".to_string(), 1008), ("assets/ok.png".to_string(), 2000)]);
}

#[test]
fn ranking_is_stable_and_descending() {
    let input = vec![
        ("a".to_string(), 5),
        ("b".to_string(), 9),
        ("c".to_string(), 5),
        ("d".to_string(), 9),
        ("e".to_string(), 1),
    ];
    let r = rank_matches(input.clone());
    let names: Vec<&str> = r.iter().map(|x| x.0.as_str()).collect();
    assert_eq!(names, vec!["b", "d", "a", "c", "e"]);
    assert_eq!(best_match(input), Some(("b".to_string(), 9)));
    assert_eq!(best_match(Vec::new()), None);
}

#[test]
fn word_matches_counted() {
    assert_eq!(word_match_count("dog park", "happy dog"), (1, 2));
    assert_eq!(word_match_count("abc", "x y z"), (0, 3));
    assert_eq!(word_match_count("doggy", "dog dogs"), (1, 2));
}
