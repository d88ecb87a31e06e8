//! Fuzzy matching of message text against the names of local image files.
//!
//! Walking the assets directory is left to the caller; this module decides,
//! file by file, whether a file matches and with what score, and ranks the
//! matches.

use vstd::prelude::*;
use vstd::utf8::encode_utf8;
use crate::text::{
    chars_eq, chars_of, contains, join, join_with, seq_contains, split_whitespace, str_contains,
    str_eq, string_of, views, words, lemma_words_len,
};
use crate::unicode::{
    char_is_alphanumeric, char_is_whitespace, is_alphanumeric, is_whitespace, str_lowercase,
    to_lowercase,
};

verus! {

/// Where the bot keeps its local images.
pub const ASSETS_DIR: &'static str = "src/assets";

/// Score given to an exact match of a short file name.
pub const SHORT_NAME_SCORE: usize = 2000;

// ---------------------------------------------------------------------------
// Models
// ---------------------------------------------------------------------------

/// A character kept by normalisation.
pub open spec fn keep_char(c: char) -> bool {
    char_is_alphanumeric(c) || char_is_whitespace(c)
}

/// The characters of `s` that normalisation keeps, in order.
pub open spec fn keep_chars(s: Seq<char>) -> Seq<char>
    decreases s.len(),
{
    if s.len() == 0 {
        seq![]
    } else if keep_char(s.last()) {
        keep_chars(s.drop_last()).push(s.last())
    } else {
        keep_chars(s.drop_last())
    }
}

/// Lower-cased, stripped of everything but letters, digits and whitespace,
/// with runs of whitespace collapsed to one space and no space at either end.
pub open spec fn spec_normalize_text(text: Seq<char>) -> Seq<char> {
    join(words(keep_chars(str_lowercase(text))), seq![' '])
}

/// Number of bytes in the UTF-8 encoding of `s`.
pub open spec fn utf8_len(s: Seq<char>) -> nat {
    encode_utf8(s).len()
}

/// Score of one word against another.
pub open spec fn pair_score(a: Seq<char>, b: Seq<char>) -> nat {
    if a == b {
        100
    } else if seq_contains(a, b) || seq_contains(b, a) {
        50
    } else {
        0
    }
}

/// Sum of the scores of `a` against each word of `fs`.
pub open spec fn row_score(a: Seq<char>, fs: Seq<Seq<char>>) -> nat
    decreases fs.len(),
{
    if fs.len() == 0 {
        0
    } else {
        row_score(a, fs.drop_last()) + pair_score(a, fs.last())
    }
}

/// Sum of the scores of every word of `ts` against every word of `fs`.
pub open spec fn words_score(ts: Seq<Seq<char>>, fs: Seq<Seq<char>>) -> nat
    decreases ts.len(),
{
    if ts.len() == 0 {
        0
    } else {
        words_score(ts.drop_last(), fs) + row_score(ts.last(), fs)
    }
}

/// The match score of a text against a file name: a containment of the file
/// name in the text scores 1000 plus the file name's length in bytes, the
/// converse 900 plus the text's length in bytes, otherwise the words are
/// compared pairwise.
pub open spec fn spec_match_score(text: Seq<char>, file_name: Seq<char>) -> nat {
    if seq_contains(text, file_name) {
        1000 + utf8_len(file_name)
    } else if seq_contains(file_name, text) {
        900 + utf8_len(text)
    } else {
        words_score(words(text), words(file_name))
    }
}

/// The word `f` is contained in, or contains, some word of `tws`.
pub open spec fn word_hit(f: Seq<char>, tws: Seq<Seq<char>>) -> bool {
    exists|i: int| 0 <= i < tws.len() && (seq_contains(tws[i], f) || seq_contains(f, tws[i]))
}

/// How many words of `fws` hit some word of `tws`.
pub open spec fn word_hits(fws: Seq<Seq<char>>, tws: Seq<Seq<char>>) -> nat
    decreases fws.len(),
{
    if fws.len() == 0 {
        0
    } else {
        word_hits(fws.drop_last(), tws) + if word_hit(fws.last(), tws) {
            1nat
        } else {
            0nat
        }
    }
}

/// The score with which a file whose normalised stem is `stem` matches the
/// normalised text, if it matches at all.
pub open spec fn spec_file_score(text: Seq<char>, stem: Seq<char>) -> Option<nat> {
    if stem.len() < 3 {
        if text == stem {
            Some(2000)
        } else {
            None
        }
    } else if seq_contains(text, stem) || seq_contains(stem, text) {
        Some(spec_match_score(text, stem))
    } else {
        let hits = word_hits(words(stem), words(text));
        let n = words(stem).len();
        if hits > 0 {
            Some(hits * 100 / if n > 0 {
                n
            } else {
                1
            })
        } else {
            None
        }
    }
}

/// The score of a file of three or more characters can be computed in a
/// `usize`: the containment score fits, or in the word case the hit count
/// times 100 does.
pub open spec fn file_score_fits(text: Seq<char>, stem: Seq<char>) -> bool {
    if seq_contains(text, stem) || seq_contains(stem, text) {
        spec_match_score(text, stem) <= usize::MAX
    } else {
        word_hits(words(stem), words(text)) * 100 <= usize::MAX
    }
}

/// A match as plain values: the path and its score.
pub open spec fn entry_view(e: (String, usize)) -> (Seq<char>, usize) {
    (e.0@, e.1)
}

/// A list of matches as plain values.
pub open spec fn entries_view(s: Seq<(String, usize)>) -> Seq<(Seq<char>, usize)> {
    s.map_values(|e: (String, usize)| entry_view(e))
}

/// `matches` after the file at `path` has been considered.
pub open spec fn with_file(
    matches: Seq<(Seq<char>, usize)>,
    path: Seq<char>,
    score: Option<nat>,
) -> Seq<(Seq<char>, usize)> {
    match score {
        Some(sc) => matches.push((path, sc as usize)),
        None => matches,
    }
}

// ---------------------------------------------------------------------------
// Arithmetic bounds
// ---------------------------------------------------------------------------

/// Row scores only grow along the file words.
proof fn lemma_row_score_prefix(a: Seq<char>, fs: Seq<Seq<char>>, j: int, k: int)
    requires
        0 <= j <= k <= fs.len(),
    ensures
        row_score(a, fs.take(j)) <= row_score(a, fs.take(k)),
    decreases k - j,
{
    if j < k {
        lemma_row_score_prefix(a, fs, j, k - 1);
        assert(fs.take(k).drop_last() =~= fs.take(k - 1));
    }
}

/// Word scores only grow along the text words.
proof fn lemma_words_score_prefix(ts: Seq<Seq<char>>, fs: Seq<Seq<char>>, i: int, k: int)
    requires
        0 <= i <= k <= ts.len(),
    ensures
        words_score(ts.take(i), fs) <= words_score(ts.take(k), fs),
    decreases k - i,
{
    if i < k {
        lemma_words_score_prefix(ts, fs, i, k - 1);
        assert(ts.take(k).drop_last() =~= ts.take(k - 1));
    }
}

/// There are at most as many hits as file words.
pub proof fn lemma_word_hits_bound(fws: Seq<Seq<char>>, tws: Seq<Seq<char>>)
    ensures
        word_hits(fws, tws) <= fws.len(),
    decreases fws.len(),
{
    if fws.len() > 0 {
        lemma_word_hits_bound(fws.drop_last(), tws);
    }
}

// ---------------------------------------------------------------------------
// Normalisation and scoring
// ---------------------------------------------------------------------------

/// Normalize text for matching.
pub fn normalize_text(text: &str) -> (r: String)
    ensures
        r@ == spec_normalize_text(text@),
{
    let lower = to_lowercase(text);
    let lv = chars_of(lower.as_str());
    let mut kept: Vec<char> = Vec::new();
    let mut i: usize = 0;
    while i < lv.len()
        invariant
            i <= lv@.len(),
            kept@ == keep_chars(lv@.take(i as int)),
        decreases lv.len() - i,
    {
        let c = lv[i];
        assert(lv@.take(i + 1).drop_last() =~= lv@.take(i as int));
        if is_alphanumeric(c) || is_whitespace(c) {
            kept.push(c);
        }
        i += 1;
    }
    assert(lv@.take(lv@.len() as int) =~= lv@);
    let parts = split_whitespace(kept.as_slice());
    let mut sep: Vec<char> = Vec::new();
    sep.push(' ');
    assert(sep@ =~= seq![' ']);
    let joined = join_with(&parts, sep.as_slice());
    string_of(joined.as_slice())
}

/// Calculate a match score between two normalised strings (whose score
/// fits in a `usize`).
pub fn calculate_match_score(text: &str, file_name: &str) -> (score: usize)
    requires
        spec_match_score(text@, file_name@) <= usize::MAX,
    ensures
        score == spec_match_score(text@, file_name@),
{
    if str_contains(text, file_name) {
        return 1000 + file_name.len();
    }
    if str_contains(file_name, text) {
        return 900 + text.len();
    }
    let tv = chars_of(text);
    let fv = chars_of(file_name);
    let text_words = split_whitespace(tv.as_slice());
    let file_words = split_whitespace(fv.as_slice());
    let ghost ts = views(text_words@);
    let ghost fs = views(file_words@);
    let ghost total = words_score(ts, fs);
    assert(ts.take(ts.len() as int) =~= ts);
    assert(total <= usize::MAX);
    let mut score: usize = 0;
    let mut i: usize = 0;
    assert(ts.take(0) =~= Seq::<Seq<char>>::empty());
    while i < text_words.len()
        invariant
            ts == views(text_words@),
            fs == views(file_words@),
            total == words_score(ts, fs),
            total <= usize::MAX,
            ts.take(ts.len() as int) == ts,
            i <= ts.len(),
            score == words_score(ts.take(i as int), fs),
        decreases text_words.len() - i,
    {
        let mut j: usize = 0;
        proof {
            assert(fs.take(0) =~= Seq::<Seq<char>>::empty());
            assert(ts.take(i + 1).drop_last() =~= ts.take(i as int));
            assert(ts.take(i + 1).last() == ts[i as int]);
            lemma_words_score_prefix(ts, fs, i + 1, ts.len() as int);
            assert(fs.take(fs.len() as int) =~= fs);
        }
        let ghost base = score;
        while j < file_words.len()
            invariant
                ts == views(text_words@),
                fs == views(file_words@),
                fs.take(fs.len() as int) == fs,
                i < ts.len(),
                j <= fs.len(),
                base + row_score(ts[i as int], fs) <= usize::MAX,
                score == base + row_score(ts[i as int], fs.take(j as int)),
            decreases file_words.len() - j,
        {
            proof {
                lemma_row_score_prefix(ts[i as int], fs, j + 1, fs.len() as int);
                assert(fs.take(j + 1).drop_last() =~= fs.take(j as int));
                assert(fs.take(j + 1).last() == fs[j as int]);
            }
            let tw = text_words[i].as_slice();
            let fw = file_words[j].as_slice();
            if chars_eq(tw, fw) {
                score += 100;
            } else if contains(tw, fw) || contains(fw, tw) {
                score += 50;
            }
            j += 1;
        }
        assert(ts.take(i + 1).drop_last() =~= ts.take(i as int));
        i += 1;
    }
    score
}

/// Record an exact match of a short file name.
pub fn handle_short_filename(
    file_path: &str,
    normalized_text: &str,
    normalized_file_stem: &str,
    matches: &mut Vec<(String, usize)>,
)
    ensures
        entries_view(final(matches)@) == with_file(
            entries_view(old(matches)@),
            file_path@,
            if normalized_text@ == normalized_file_stem@ {
                Some(2nat * 1000)
            } else {
                None
            },
        ),
{
    if str_eq(normalized_text, normalized_file_stem) {
        let ghost before = entries_view(matches@);
        matches.push((String::from_str(file_path), SHORT_NAME_SCORE));
        assert(entries_view(matches@) =~= before.push((file_path@, SHORT_NAME_SCORE)));
    }
}

/// How many words of the file name are contained in, or contain, some word
/// of the text; and how many words the file name has.
pub fn word_match_count(text: &str, stem: &str) -> (r: (usize, usize))
    ensures
        r.0 == word_hits(words(stem@), words(text@)),
        r.0 == words(stem@).filter(
            |f: Seq<char>|
                exists|j: int|
                    0 <= j < words(text@).len() && (seq_contains(#[trigger] words(text@)[j], f)
                        || seq_contains(f, words(text@)[j])),
        ).len(),
        r.1 == words(stem@).len(),
{
    proof {
        crate::laws::law_word_hits(words(stem@), words(text@));
    }
    let sv = chars_of(stem);
    let tv = chars_of(text);
    let file_words = split_whitespace(sv.as_slice());
    let text_words = split_whitespace(tv.as_slice());
    let ghost fs = views(file_words@);
    let ghost ts = views(text_words@);
    let mut word_matches: usize = 0;
    let mut i: usize = 0;
    proof {
        lemma_words_len(sv@);
        assert(fs.take(0) =~= Seq::<Seq<char>>::empty());
    }
    while i < file_words.len()
        invariant
            fs == views(file_words@),
            ts == views(text_words@),
            fs.len() <= stem@.len(),
            i <= fs.len(),
            word_matches == word_hits(fs.take(i as int), ts),
        decreases file_words.len() - i,
    {
        proof {
            lemma_word_hits_bound(fs.take(i as int), ts);
            assert(fs.take(i + 1).drop_last() =~= fs.take(i as int));
        }
        let fw = file_words[i].as_slice();
        let mut hit = false;
        let mut j: usize = 0;
        while j < text_words.len()
            invariant
                fs == views(file_words@),
                ts == views(text_words@),
                i < fs.len(),
                j <= ts.len(),
                fw@ == fs[i as int],
                hit == exists|k: int|
                    0 <= k < j && (seq_contains(ts[k], fs[i as int]) || seq_contains(
                        fs[i as int],
                        ts[k],
                    )),
            decreases text_words.len() - j,
        {
            let tw = text_words[j].as_slice();
            assert(tw@ == ts[j as int]);
            let ghost old_hit = hit;
            if contains(tw, fw) || contains(fw, tw) {
                hit = true;
            }
            proof {
                let p = |k: int|
                    0 <= k < j + 1 && (seq_contains(ts[k], fs[i as int]) || seq_contains(
                        fs[i as int],
                        ts[k],
                    ));
                if hit && !old_hit {
                    assert(p(j as int));
                }
                if old_hit {
                    let k0 = choose|k: int|
                        0 <= k < j && (seq_contains(ts[k], fs[i as int]) || seq_contains(
                            fs[i as int],
                            ts[k],
                        ));
                    assert(p(k0));
                }
            }
            j += 1;
        }
        if hit {
            word_matches += 1;
        }
        i += 1;
    }
    assert(fs.take(fs.len() as int) =~= fs);
    (word_matches, file_words.len())
}

/// Record a containment or word-overlap match of a file name of three or more
/// characters (whose score fits in a `usize`).
pub fn handle_normal_filename(
    file_path: &str,
    normalized_text: &str,
    normalized_file_stem: &str,
    matches: &mut Vec<(String, usize)>,
)
    requires
        normalized_file_stem@.len() >= 3,
        file_score_fits(normalized_text@, normalized_file_stem@),
    ensures
        entries_view(final(matches)@) == with_file(
            entries_view(old(matches)@),
            file_path@,
            spec_file_score(normalized_text@, normalized_file_stem@),
        ),
{
    let ghost before = entries_view(matches@);
    if str_contains(normalized_text, normalized_file_stem) || str_contains(
        normalized_file_stem,
        normalized_text,
    ) {
        let score = calculate_match_score(normalized_text, normalized_file_stem);
        matches.push((String::from_str(file_path), score));
        assert(entries_view(matches@) =~= before.push((file_path@, score)));
        return;
    }
    let (word_matches, count) = word_match_count(normalized_text, normalized_file_stem);
    if word_matches > 0 {
        let n = if count > 1 {
            count
        } else {
            1
        };
        let score = (word_matches * 100) / n;
        matches.push((String::from_str(file_path), score));
        assert(entries_view(matches@) =~= before.push((file_path@, score)));
    }
}

// ---------------------------------------------------------------------------
// Files
// ---------------------------------------------------------------------------

/// The file name of a path without its extension, as `Path::file_stem`
/// computes it.
pub uninterp spec fn path_file_stem(path: Seq<char>) -> Option<Seq<char>>;

/// Calls `std::path::Path::file_stem` on the path; the stem depends on the
/// path alone. Since the path is valid UTF-8, so is its stem.
#[verifier::external_body]
fn file_stem_of(path: &str) -> (r: Option<String>)
    ensures
        match r {
            Some(s) => path_file_stem(path@) == Some(s@),
            None => path_file_stem(path@) is None,
        },
{
    std::path::Path::new(path).file_stem().and_then(|s| s.to_str()).map(|s| s.to_string())
}

/// `matches` after the file at `path` has been considered against the
/// normalised text; a file whose score would not fit in a `usize` (the
/// computation would overflow) is passed over.
pub open spec fn spec_process_file(
    matches: Seq<(Seq<char>, usize)>,
    path: Seq<char>,
    text: Seq<char>,
) -> Seq<(Seq<char>, usize)> {
    match path_file_stem(path) {
        Some(stem) => if stem.len() == 0 {
            matches
        } else {
            let ns = spec_normalize_text(stem);
            if ns.len() >= 3 && !file_score_fits(text, ns) {
                matches
            } else {
                with_file(matches, path, spec_file_score(text, ns))
            }
        },
        None => matches,
    }
}

/// Process a single file to check if it matches the (normalised) search text.
pub fn process_file(file_path: &str, normalized_text: &str, matches: &mut Vec<(String, usize)>)
    ensures
        entries_view(final(matches)@) == spec_process_file(
            entries_view(old(matches)@),
            file_path@,
            normalized_text@,
        ),
{
    let file_stem = match file_stem_of(file_path) {
        Some(stem) => stem,
        None => return ,
    };
    if file_stem.as_str().is_empty() {
        return ;
    }
    let normalized_file_stem = normalize_text(file_stem.as_str());
    let stem_chars = chars_of(normalized_file_stem.as_str());
    if stem_chars.len() < 3 {
        handle_short_filename(file_path, normalized_text, normalized_file_stem.as_str(), matches);
    } else {
        let stem = normalized_file_stem.as_str();
        if str_contains(normalized_text, stem) {
            if stem.as_bytes().len() > usize::MAX - 1000 {
                return ;
            }
        } else if str_contains(stem, normalized_text) {
            if normalized_text.as_bytes().len() > usize::MAX - 900 {
                return ;
            }
        } else {
            let (hits, _) = word_match_count(normalized_text, stem);
            if hits > usize::MAX / 100 {
                return ;
            }
        }
        handle_normal_filename(file_path, normalized_text, normalized_file_stem.as_str(), matches);
    }
}

// ---------------------------------------------------------------------------
// Ranking
// ---------------------------------------------------------------------------

/// The entries of `s` whose score is `k`, in order.
pub open spec fn with_score(s: Seq<(Seq<char>, usize)>, k: usize) -> Seq<(Seq<char>, usize)>
    decreases s.len(),
{
    if s.len() == 0 {
        seq![]
    } else if s.last().1 == k {
        with_score(s.drop_last(), k).push(s.last())
    } else {
        with_score(s.drop_last(), k)
    }
}

/// Scores never increase along `s`.
pub open spec fn sorted_by_score_desc(s: Seq<(Seq<char>, usize)>) -> bool {
    forall|i: int, j: int| 0 <= i < j < s.len() ==> s[i].1 >= s[j].1
}

/// `r` is `s` sorted by descending score, keeping the input order of
/// entries with equal scores.
pub open spec fn is_stable_ranking(s: Seq<(Seq<char>, usize)>, r: Seq<(Seq<char>, usize)>) -> bool {
    &&& r.len() == s.len()
    &&& sorted_by_score_desc(r)
    &&& forall|k: usize| #[trigger] with_score(r, k) == with_score(s, k)
}

/// Filtering by score distributes over concatenation.
pub proof fn lemma_with_score_append(a: Seq<(Seq<char>, usize)>, b: Seq<(Seq<char>, usize)>, k: usize)
    ensures
        with_score(a + b, k) == with_score(a, k) + with_score(b, k),
    decreases b.len(),
{
    if b.len() == 0 {
        assert(a + b =~= a);
        assert(with_score(a, k) + with_score(b, k) =~= with_score(a, k));
    } else {
        lemma_with_score_append(a, b.drop_last(), k);
        assert((a + b).drop_last() =~= a + b.drop_last());
        assert((a + b).last() == b.last());
        if b.last().1 == k {
            assert(with_score(a, k) + with_score(b, k) =~= (with_score(a, k) + with_score(
                b.drop_last(),
                k,
            )).push(b.last()));
        }
    }
}

/// No entry of a sequence whose scores are all below `k` has score `k`.
proof fn lemma_with_score_empty(b: Seq<(Seq<char>, usize)>, k: usize)
    requires
        forall|i: int| 0 <= i < b.len() ==> b[i].1 < k,
    ensures
        with_score(b, k) == Seq::<(Seq<char>, usize)>::empty(),
    decreases b.len(),
{
    if b.len() > 0 {
        lemma_with_score_empty(b.drop_last(), k);
    }
}

/// Inserting `x` after every entry scoring at least as much and before every
/// entry scoring less keeps the ranking stable.
proof fn lemma_insert_ranked(
    out: Seq<(Seq<char>, usize)>,
    p: int,
    x: (Seq<char>, usize),
    k: usize,
)
    requires
        0 <= p <= out.len(),
        sorted_by_score_desc(out),
        forall|i: int| 0 <= i < p ==> out[i].1 >= x.1,
        forall|i: int| p <= i < out.len() ==> out[i].1 < x.1,
    ensures
        with_score(out.insert(p, x), k) == with_score(out.push(x), k),
        with_score(out.push(x), k) == with_score(out, k) + with_score(seq![x], k),
        sorted_by_score_desc(out.insert(p, x)),
{
    let a = out.subrange(0, p);
    let b = out.subrange(p, out.len() as int);
    assert(out =~= a + b);
    assert(out.insert(p, x) =~= (a + seq![x]) + b);
    assert(out.push(x) =~= out + seq![x]);
    lemma_with_score_append(a + seq![x], b, k);
    lemma_with_score_append(a, seq![x], k);
    lemma_with_score_append(a, b, k);
    lemma_with_score_append(out, seq![x], k);
    assert(seq![x].drop_last() =~= Seq::<(Seq<char>, usize)>::empty());
    assert(seq![x].last() == x);
    assert(with_score(Seq::<(Seq<char>, usize)>::empty(), k) =~= Seq::<(Seq<char>, usize)>::empty());
    if k == x.1 {
        lemma_with_score_empty(b, k);
        assert(with_score(out, k) =~= with_score(a, k));
    } else {
        assert(with_score(seq![x], k) =~= Seq::<(Seq<char>, usize)>::empty());
    }
    let r = out.insert(p, x);
    assert forall|i: int, j: int| 0 <= i < j < r.len() implies r[i].1 >= r[j].1 by {
        if j < p {
        } else if j == p {
        } else if i < p {
        } else if i == p {
        } else {
        }
    }
}

/// Sort matches by score, highest first, keeping the order of equal scores.
pub fn rank_matches(matches: Vec<(String, usize)>) -> (r: Vec<(String, usize)>)
    ensures
        is_stable_ranking(entries_view(matches@), entries_view(r@)),
{
    let ghost s = entries_view(matches@);
    let mut out: Vec<(String, usize)> = Vec::new();
    let mut i: usize = 0;
    let n = matches.len();
    let mut rest = matches;
    assert(entries_view(rest@) =~= s.skip(0));
    assert(s.take(0) =~= Seq::<(Seq<char>, usize)>::empty());
    while i < n
        invariant
            n == s.len(),
            i <= n,
            entries_view(rest@) == s.skip(i as int),
            out@.len() == i,
            sorted_by_score_desc(entries_view(out@)),
            forall|k: usize| #[trigger] with_score(entries_view(out@), k) == with_score(s.take(i as int), k),
        decreases n - i,
    {
        let ghost rv = entries_view(rest@);
        assert(rv.len() == rest@.len());
        assert(rv[0] == s[i as int]);
        assert(rv[0] == entry_view(rest@[0]));
        let x = rest.remove(0);
        assert(entry_view(x) == s[i as int]);
        assert(entries_view(rest@) =~= rv.skip(1));
        assert(rv.skip(1) =~= s.skip(i + 1));
        let mut p: usize = 0;
        let ghost ov = entries_view(out@);
        while p < out.len() && out[p].1 >= x.1
            invariant
                ov == entries_view(out@),
                p <= out@.len(),
                forall|j: int| 0 <= j < p ==> ov[j].1 >= x.1,
            decreases out.len() - p,
        {
            p += 1;
        }
        proof {
            assert forall|j: int| p <= j < ov.len() implies ov[j].1 < x.1 by {
                assert(ov[p as int].1 < x.1);
            }
            assert forall|k: usize| #[trigger] with_score(ov.insert(p as int, entry_view(x)), k)
                == with_score(s.take(i + 1), k) by {
                lemma_insert_ranked(ov, p as int, entry_view(x), k);
                assert(s.take(i + 1) =~= s.take(i as int).push(entry_view(x)));
                lemma_with_score_append(s.take(i as int), seq![entry_view(x)], k);
                assert(s.take(i as int).push(entry_view(x)) =~= s.take(i as int) + seq![entry_view(x)]);
            }
            lemma_insert_ranked(ov, p as int, entry_view(x), 0);
        }
        out.insert(p, x);
        assert(entries_view(out@) =~= ov.insert(p as int, entry_view(x)));
        i += 1;
    }
    assert(s.take(n as int) =~= s);
    out
}

/// The first of the ranked matches: a match with the highest score, the
/// earliest such one in the input order; it is the first entry of every
/// stable ranking of the matches (so of `rank_matches`).
pub fn best_match(matches: Vec<(String, usize)>) -> (r: Option<(String, usize)>)
    ensures
        match r {
            None => matches@.len() == 0,
            Some(e) => (exists|i: int|
                0 <= i < matches@.len() && entry_view(e) == entry_view(#[trigger] matches@[i])
                    && (forall|j: int| 0 <= j < matches@.len() ==> matches@[j].1 <= e.1)
                    && (forall|j: int| 0 <= j < i ==> matches@[j].1 < e.1))
                && forall|rk: Seq<(Seq<char>, usize)>|
                    #[trigger] is_stable_ranking(entries_view(matches@), rk) ==> rk.len() > 0 && rk[0]
                        == entry_view(e),
        },
{
    let ghost s = entries_view(matches@);
    assert(s.len() == matches@.len());
    let ranked = rank_matches(matches);
    assert(entries_view(ranked@).len() == ranked@.len());
    if ranked.len() == 0 {
        return None;
    }
    let path = ranked[0].0.clone();
    let score = ranked[0].1;
    proof {
        let r = entries_view(ranked@);
        lemma_first_of_ranking(s, r);
        assert(entry_view((path, score)) == r[0]);
        let i = choose|i: int|
            0 <= i < s.len() && r[0] == s[i] && (forall|j: int| 0 <= j < s.len() ==> s[j].1 <= r[0].1)
                && (forall|j: int| 0 <= j < i ==> s[j].1 < r[0].1);
        assert(s[i] == entry_view(matches@[i]));
        assert forall|j: int| 0 <= j < matches@.len() implies matches@[j].1 <= score by {
            assert(s[j] == entry_view(matches@[j]));
        }
        assert forall|j: int| 0 <= j < i implies matches@[j].1 < score by {
            assert(s[j] == entry_view(matches@[j]));
        }
        assert forall|rk: Seq<(Seq<char>, usize)>| #[trigger] is_stable_ranking(s, rk) implies rk.len()
            > 0 && rk[0] == entry_view((path, score)) by {
            lemma_first_of_ranking(s, rk);
            let i2 = choose|i2: int|
                0 <= i2 < s.len() && rk[0] == s[i2] && (forall|j: int| 0 <= j < s.len() ==> s[j].1 <= rk[0].1)
                    && (forall|j: int| 0 <= j < i2 ==> s[j].1 < rk[0].1);
            assert(s[i].1 <= rk[0].1 && s[i2].1 <= r[0].1);
            if i < i2 {
                assert(s[i].1 < rk[0].1);
            } else if i2 < i {
                assert(s[i2].1 < r[0].1);
            }
        }
    }
    Some((path, score))
}

/// The first entry of a stable ranking is the earliest entry of the input
/// sequence with the highest score.
pub proof fn lemma_first_of_ranking(s: Seq<(Seq<char>, usize)>, r: Seq<(Seq<char>, usize)>)
    requires
        is_stable_ranking(s, r),
        r.len() > 0,
    ensures
        exists|i: int|
            0 <= i < s.len() && r[0] == s[i] && (forall|j: int| 0 <= j < s.len() ==> s[j].1 <= r[0].1)
                && (forall|j: int| 0 <= j < i ==> s[j].1 < r[0].1),
{
    let k = r[0].1;
    lemma_with_score_first(r, k);
    lemma_with_score_first(s, k);
    assert(with_score(r, k) == with_score(s, k));
    lemma_with_score_members(r, k);
    lemma_with_score_members(s, k);
    assert forall|j: int| 0 <= j < s.len() implies s[j].1 <= k by {
        let kj = s[j].1;
        lemma_with_score_has(s, j, kj);
        assert(with_score(r, kj) == with_score(s, kj));
        let e = with_score(s, kj)[0];
        lemma_with_score_members(r, kj);
        let m = choose|m: int| 0 <= m < r.len() && r[m] == e;
        assert(r[m].1 == kj);
        if m > 0 {
            assert(r[0].1 >= r[m].1);
        }
    }
}

/// The first entry with score `k`, if any, is the first element of the filter.
proof fn lemma_with_score_first(s: Seq<(Seq<char>, usize)>, k: usize)
    ensures
        (exists|i: int| 0 <= i < s.len() && s[i].1 == k) ==> {
            let f = with_score(s, k);
            &&& f.len() > 0
            &&& exists|i: int|
                0 <= i < s.len() && s[i] == f[0] && s[i].1 == k && (forall|j: int|
                    0 <= j < i ==> s[j].1 != k)
        },
    decreases s.len(),
{
    if s.len() > 0 {
        lemma_with_score_first(s.drop_last(), k);
        let d = s.drop_last();
        if exists|i: int| 0 <= i < d.len() && d[i].1 == k {
            let i = choose|i: int|
                0 <= i < d.len() && d[i] == with_score(d, k)[0] && d[i].1 == k && (forall|j: int|
                    0 <= j < i ==> d[j].1 != k);
            assert(s[i] == d[i]);
            assert forall|j: int| 0 <= j < i implies s[j].1 != k by {
                assert(s[j] == d[j]);
            }
        } else if exists|i: int| 0 <= i < s.len() && s[i].1 == k {
            let i = choose|i: int| 0 <= i < s.len() && s[i].1 == k;
            if i < s.len() - 1 {
                assert(d[i] == s[i]);
            }
            assert forall|j: int| 0 <= j < s.len() - 1 implies s[j].1 != k by {
                assert(d[j] == s[j]);
            }
            lemma_with_score_empty_when_absent(d, k);
        }
    }
}

/// With no entry of score `k`, the filter is empty.
proof fn lemma_with_score_empty_when_absent(s: Seq<(Seq<char>, usize)>, k: usize)
    requires
        forall|i: int| 0 <= i < s.len() ==> s[i].1 != k,
    ensures
        with_score(s, k).len() == 0,
    decreases s.len(),
{
    if s.len() > 0 {
        lemma_with_score_empty_when_absent(s.drop_last(), k);
    }
}

/// Every element of the filter is an entry of the sequence with score `k`.
proof fn lemma_with_score_members(s: Seq<(Seq<char>, usize)>, k: usize)
    ensures
        forall|x: int|
            0 <= x < with_score(s, k).len() ==> with_score(s, k)[x].1 == k && exists|m: int|
                0 <= m < s.len() && s[m] == #[trigger] with_score(s, k)[x],
    decreases s.len(),
{
    if s.len() > 0 {
        lemma_with_score_members(s.drop_last(), k);
        let d = s.drop_last();
        assert forall|x: int|
            0 <= x < with_score(s, k).len() implies with_score(s, k)[x].1 == k && exists|m: int|
                0 <= m < s.len() && s[m] == #[trigger] with_score(s, k)[x] by {
            if x < with_score(d, k).len() {
                let m = choose|m: int| 0 <= m < d.len() && d[m] == with_score(d, k)[x];
                assert(s[m] == d[m]);
            } else {
                assert(s[s.len() - 1] == with_score(s, k)[x]);
            }
        }
    }
}

/// An entry with score `k` makes the filter for `k` non-empty.
proof fn lemma_with_score_has(s: Seq<(Seq<char>, usize)>, j: int, k: usize)
    requires
        0 <= j < s.len(),
        s[j].1 == k,
    ensures
        with_score(s, k).len() > 0,
    decreases s.len(),
{
    if j < s.len() - 1 {
        lemma_with_score_has(s.drop_last(), j, k);
    }
}
} // verus!
