//! Character-level string algorithms with their mathematical models.
//!
//! Strings are handled as sequences of `char`; each executable function is
//! tied to a spec function over `Seq<char>`.

use vstd::prelude::*;
use crate::unicode::{char_is_whitespace, is_whitespace, push_char};

verus! {

broadcast use vstd::string::group_string_axioms;

// ---------------------------------------------------------------------------
// Models
// ---------------------------------------------------------------------------

/// `p` occurs in `s` starting at position `i`.
pub open spec fn occurs_at(s: Seq<char>, p: Seq<char>, i: int) -> bool {
    0 <= i && i + p.len() <= s.len() && s.subrange(i, i + p.len()) == p
}

/// `p` occurs somewhere in `s` (the empty pattern occurs everywhere).
pub open spec fn seq_contains(s: Seq<char>, p: Seq<char>) -> bool {
    exists|i: int| occurs_at(s, p, i)
}

/// The first position at or after `from` where `p` occurs in `s`.
pub open spec fn index_from(s: Seq<char>, p: Seq<char>, from: int) -> Option<int>
    decreases s.len() + 1 - from,
{
    if from < 0 || from + p.len() > s.len() {
        None
    } else if occurs_at(s, p, from) {
        Some(from)
    } else {
        index_from(s, p, from + 1)
    }
}

/// `s` begins with `p`.
pub open spec fn seq_starts_with(s: Seq<char>, p: Seq<char>) -> bool {
    p.len() <= s.len() && s.take(p.len() as int) == p
}

/// `s` ends with `p`.
pub open spec fn seq_ends_with(s: Seq<char>, p: Seq<char>) -> bool {
    p.len() <= s.len() && s.skip(s.len() - p.len()) == p
}

/// Every non-overlapping occurrence of the non-empty `from`, scanning left to
/// right, replaced by `to`.
pub open spec fn replace_seq(s: Seq<char>, from: Seq<char>, to: Seq<char>) -> Seq<char>
    decreases s.len(),
{
    if from.len() == 0 || s.len() < from.len() {
        s
    } else if s.take(from.len() as int) == from {
        to + replace_seq(s.skip(from.len() as int), from, to)
    } else {
        seq![s[0]] + replace_seq(s.skip(1), from, to)
    }
}

/// `s` without its longest suffix made of characters satisfying `pred`.
pub open spec fn trim_end_while(s: Seq<char>, pred: spec_fn(char) -> bool) -> Seq<char>
    decreases s.len(),
{
    if s.len() > 0 && pred(s.last()) {
        trim_end_while(s.drop_last(), pred)
    } else {
        s
    }
}

/// `s` without its longest prefix made of characters satisfying `pred`.
pub open spec fn trim_start_while(s: Seq<char>, pred: spec_fn(char) -> bool) -> Seq<char>
    decreases s.len(),
{
    if s.len() > 0 && pred(s[0]) {
        trim_start_while(s.drop_first(), pred)
    } else {
        s
    }
}

/// The whitespace predicate as a spec closure.
pub open spec fn ws() -> spec_fn(char) -> bool {
    |c: char| char_is_whitespace(c)
}

/// `s` without leading and trailing whitespace.
pub open spec fn seq_trim(s: Seq<char>) -> Seq<char> {
    trim_start_while(trim_end_while(s, ws()), ws())
}

/// The maximal runs of non-whitespace characters of `s`, in order: a
/// non-whitespace character right after another one extends the current word,
/// any other non-whitespace character starts a new word.
pub open spec fn words(s: Seq<char>) -> Seq<Seq<char>>
    decreases s.len(),
{
    if s.len() == 0 {
        seq![]
    } else {
        let w = words(s.drop_last());
        let c = s.last();
        if char_is_whitespace(c) {
            w
        } else if s.len() >= 2 && !char_is_whitespace(s[s.len() - 2]) {
            w.update(w.len() - 1, w.last().push(c))
        } else {
            w.push(seq![c])
        }
    }
}

/// The pieces of `parts` joined with `sep` between consecutive pieces.
pub open spec fn join(parts: Seq<Seq<char>>, sep: Seq<char>) -> Seq<char>
    decreases parts.len(),
{
    if parts.len() == 0 {
        seq![]
    } else if parts.len() == 1 {
        parts[0]
    } else {
        join(parts.drop_last(), sep) + sep + parts.last()
    }
}

// ---------------------------------------------------------------------------
// Lemmas
// ---------------------------------------------------------------------------

/// There are at most as many words as characters, and a string that ends in
/// a non-whitespace character has at least one word.
pub proof fn lemma_words_len(s: Seq<char>)
    ensures
        words(s).len() <= s.len(),
        s.len() > 0 && !char_is_whitespace(s.last()) ==> words(s).len() > 0,
    decreases s.len(),
{
    if s.len() > 0 {
        lemma_words_len(s.drop_last());
    }
}

// ---------------------------------------------------------------------------
// Conversions
// ---------------------------------------------------------------------------

/// The characters of a string slice, in order.
pub fn chars_of(s: &str) -> (v: Vec<char>)
    ensures
        v@ == s@,
{
    let mut v: Vec<char> = Vec::new();
    for c in it: s.chars()
        invariant
            it.seq() == s@,
            v@ == it.seq().take(it.index() as int),
    {
        v.push(c);
    }
    v
}

/// The string made of the given characters.
pub fn string_of(v: &[char]) -> (s: String)
    ensures
        s@ == v@,
{
    let mut s = String::new();
    let mut i: usize = 0;
    while i < v.len()
        invariant
            i <= v.len(),
            s@ == v@.take(i as int),
        decreases v.len() - i,
    {
        push_char(&mut s, v[i]);
        assert(v@.take(i + 1) =~= v@.take(i as int).push(v@[i as int]));
        i += 1;
    }
    assert(v@.take(v.len() as int) =~= v@);
    s
}

/// A string made by concatenating two string slices.
pub fn concat2(a: &str, b: &str) -> (s: String)
    ensures
        s@ == a@ + b@,
{
    let mut s = String::from_str(a);
    s.append(b);
    s
}

/// A string made by concatenating three string slices.
pub fn concat3(a: &str, b: &str, c: &str) -> (s: String)
    ensures
        s@ == a@ + b@ + c@,
{
    let mut s = String::from_str(a);
    s.append(b);
    s.append(c);
    s
}

// ---------------------------------------------------------------------------
// Searching
// ---------------------------------------------------------------------------

/// Does `p` occur at position `i` of `s`?
pub fn matches_at(s: &[char], p: &[char], i: usize) -> (b: bool)
    ensures
        b == occurs_at(s@, p@, i as int),
{
    if i > s.len() || p.len() > s.len() - i {
        return false;
    }
    let mut j: usize = 0;
    while j < p.len()
        invariant
            i + p.len() <= s.len(),
            j <= p.len(),
            forall|k: int| 0 <= k < j ==> s@[i + k] == p@[k],
        decreases p.len() - j,
    {
        if s[i + j] != p[j] {
            assert(s@.subrange(i as int, i + p.len())[j as int] != p@[j as int]);
            return false;
        }
        j += 1;
    }
    assert(s@.subrange(i as int, i + p.len()) =~= p@);
    true
}

/// First position at or after `from` where `p` occurs in `s`.
pub fn find_from(s: &[char], p: &[char], from: usize) -> (r: Option<usize>)
    ensures
        match r {
            Some(i) => index_from(s@, p@, from as int) == Some(i as int),
            None => index_from(s@, p@, from as int) is None,
        },
{
    if p.len() > s.len() || from > s.len() - p.len() {
        return None;
    }
    let last = s.len() - p.len();
    let mut i = from;
    while i <= last
        invariant_except_break
            last + p.len() == s.len(),
            from <= i <= last,
            index_from(s@, p@, from as int) == index_from(s@, p@, i as int),
        ensures
            index_from(s@, p@, from as int) is None,
        decreases last + 1 - i,
    {
        if matches_at(s, p, i) {
            return Some(i);
        }
        if i == last {
            assert(index_from(s@, p@, i + 1) is None);
            break;
        }
        i += 1;
    }
    None
}

/// Does `p` occur in `s`?
pub fn contains(s: &[char], p: &[char]) -> (b: bool)
    ensures
        b == seq_contains(s@, p@),
{
    proof {
        lemma_index_from_finds(s@, p@, 0);
    }
    match find_from(s, p, 0) {
        Some(i) => true,
        None => false,
    }
}

/// `index_from` finds an occurrence exactly when there is one at or after `from`.
pub proof fn lemma_index_from_finds(s: Seq<char>, p: Seq<char>, from: int)
    requires
        0 <= from,
    ensures
        index_from(s, p, from) matches Some(i) ==> from <= i && occurs_at(s, p, i)
            && forall|j: int| from <= j < i ==> !occurs_at(s, p, j),
        index_from(s, p, from) is None ==> forall|j: int| from <= j ==> !occurs_at(s, p, j),
    decreases s.len() + 1 - from,
{
    if from + p.len() > s.len() {
    } else if occurs_at(s, p, from) {
    } else {
        lemma_index_from_finds(s, p, from + 1);
    }
}

/// Does the pattern string occur in the string?
pub fn str_contains(s: &str, p: &str) -> (b: bool)
    ensures
        b == seq_contains(s@, p@),
{
    let sv = chars_of(s);
    let pv = chars_of(p);
    contains(sv.as_slice(), pv.as_slice())
}

/// Does `s` begin with `p`?
pub fn starts_with(s: &[char], p: &[char]) -> (b: bool)
    ensures
        b == seq_starts_with(s@, p@),
{
    let b = matches_at(s, p, 0);
    proof {
        if p@.len() <= s@.len() {
            assert(s@.take(p@.len() as int) =~= s@.subrange(0, p@.len() as int));
        }
    }
    b
}

/// Does `s` end with `p`?
pub fn ends_with(s: &[char], p: &[char]) -> (b: bool)
    ensures
        b == seq_ends_with(s@, p@),
{
    if p.len() > s.len() {
        return false;
    }
    let b = matches_at(s, p, s.len() - p.len());
    assert(s@.skip(s@.len() - p@.len()) =~= s@.subrange(s@.len() - p@.len(), s@.len() as int));
    b
}

/// Does the string end with the pattern string?
pub fn str_ends_with(s: &str, p: &str) -> (b: bool)
    ensures
        b == seq_ends_with(s@, p@),
{
    let sv = chars_of(s);
    let pv = chars_of(p);
    ends_with(sv.as_slice(), pv.as_slice())
}

// ---------------------------------------------------------------------------
// Rewriting
// ---------------------------------------------------------------------------

/// Replace every non-overlapping occurrence of `from` by `to`, left to right.
pub fn replace(s: &[char], from: &[char], to: &[char]) -> (r: Vec<char>)
    requires
        from@.len() > 0,
    ensures
        r@ == replace_seq(s@, from@, to@),
{
    let mut out: Vec<char> = Vec::new();
    let mut i: usize = 0;
    assert(s@.skip(0) =~= s@);
    while i < s.len()
        invariant
            from@.len() > 0,
            i <= s.len(),
            replace_seq(s@, from@, to@) == out@ + replace_seq(s@.skip(i as int), from@, to@),
        decreases s.len() - i,
    {
        let ghost rest = s@.skip(i as int);
        if matches_at(s, from, i) {
            assert(rest.take(from@.len() as int) =~= s@.subrange(i as int, i + from@.len()));
            assert(rest.skip(from@.len() as int) =~= s@.skip(i + from@.len()));
            let mut k: usize = 0;
            let ghost before = out@;
            while k < to.len()
                invariant
                    k <= to.len(),
                    out@ == before + to@.take(k as int),
                decreases to.len() - k,
            {
                out.push(to[k]);
                assert(to@.take(k + 1) =~= to@.take(k as int).push(to@[k as int]));
                k += 1;
            }
            assert(to@.take(to@.len() as int) =~= to@);
            assert(out@ + replace_seq(s@.skip(i + from@.len()), from@, to@) =~= before + (to@
                + replace_seq(rest.skip(from@.len() as int), from@, to@)));
            i = i + from.len();
        } else {
            proof {
                if rest.len() >= from@.len() {
                    assert(rest.take(from@.len() as int) =~= s@.subrange(i as int, i + from@.len()));
                    assert(rest.take(from@.len() as int) != from@);
                }
                assert(rest.skip(1) =~= s@.skip(i + 1));
                if rest.len() < from@.len() {
                    assert(rest =~= seq![s@[i as int]] + rest.skip(1));
                    assert(rest.skip(1).len() < from@.len());
                }
            }
            let ghost before = out@;
            out.push(s[i]);
            assert(out@ + replace_seq(s@.skip(i + 1), from@, to@) =~= before + (seq![rest[0]]
                + replace_seq(rest.skip(1), from@, to@)));
            i = i + 1;
        }
    }
    assert(s@.skip(i as int) =~= Seq::<char>::empty());
    assert(out@ + Seq::<char>::empty() =~= out@);
    out
}

/// Replace both JSON unicode escapes for `&` and `=` as the engines embed them.
pub open spec fn unescape_seq(s: Seq<char>) -> Seq<char> {
    replace_seq(replace_seq(s, "\\u0026"@, "&"@), "\\u003d"@, "="@)
}

/// No character of `p` occurs in `t`.
pub open spec fn avoids(p: Seq<char>, t: Seq<char>) -> bool {
    forall|i: int| 0 <= i < p.len() ==> !t.contains(#[trigger] p[i])
}

/// When the replacement is non-empty and shares no character with `q`, a
/// replaced text that begins with `q` comes from a text that begins with it.
pub proof fn lemma_replace_starts_back(s: Seq<char>, f: Seq<char>, t: Seq<char>, q: Seq<char>)
    requires
        f.len() > 0,
        t.len() > 0,
        avoids(q, t),
        seq_starts_with(replace_seq(s, f, t), q),
    ensures
        seq_starts_with(s, q),
    decreases q.len(),
{
    let r = replace_seq(s, f, t);
    if q.len() == 0 {
        assert(s.take(0) =~= q);
    } else if s.len() < f.len() {
    } else if s.take(f.len() as int) == f {
        assert(r[0] == t[0]);
        assert(r.take(q.len() as int)[0] == q[0]);
        assert(t.contains(t[0]));
        assert(!t.contains(q[0]));
    } else {
        let rest = s.skip(1);
        let rr = replace_seq(rest, f, t);
        assert(r == seq![s[0]] + rr);
        assert(r.take(q.len() as int)[0] == q[0]);
        assert(rr.take(q.len() - 1) =~= q.drop_first()) by {
            assert forall|k: int| 0 <= k < q.len() - 1 implies rr.take(q.len() - 1)[k] == q.drop_first()[k] by {
                assert(r.take(q.len() as int)[k + 1] == q[k + 1]);
            }
        }
        assert forall|k: int| 0 <= k < q.drop_first().len() implies !t.contains(#[trigger] q.drop_first()[k]) by {
            assert(q.drop_first()[k] == q[k + 1]);
        }
        lemma_replace_starts_back(rest, f, t, q.drop_first());
        assert(s.take(q.len() as int) =~= seq![s[0]] + rest.take(q.len() - 1));
        assert(seq![s[0]] + q.drop_first() =~= q);
    }
}

/// When the replacement is non-empty and shares no character with `q`,
/// replacing never creates an occurrence of `q`.
pub proof fn lemma_replace_contains_back(s: Seq<char>, f: Seq<char>, t: Seq<char>, q: Seq<char>)
    requires
        f.len() > 0,
        t.len() > 0,
        avoids(q, t),
        seq_contains(replace_seq(s, f, t), q),
    ensures
        seq_contains(s, q),
    decreases s.len(),
{
    let r = replace_seq(s, f, t);
    let i = choose|i: int| occurs_at(r, q, i);
    if q.len() == 0 {
        assert(s.subrange(0, 0) =~= q);
        assert(occurs_at(s, q, 0));
    } else if s.len() < f.len() {
        assert(occurs_at(s, q, i));
    } else if i == 0 {
        assert(r.take(q.len() as int) =~= r.subrange(0, q.len() as int));
        lemma_replace_starts_back(s, f, t, q);
        assert(s.subrange(0, q.len() as int) =~= s.take(q.len() as int));
        assert(occurs_at(s, q, 0));
    } else if s.take(f.len() as int) == f {
        let rest = s.skip(f.len() as int);
        let rr = replace_seq(rest, f, t);
        assert(r == t + rr);
        if i < t.len() {
            assert(r.subrange(i, i + q.len())[0] == q[0]);
            assert(r[i] == t[i]);
            assert(t.contains(t[i]));
            assert(!t.contains(q[0]));
        } else {
            let j = i - t.len();
            assert(rr.subrange(j, j + q.len()) =~= r.subrange(i, i + q.len()));
            assert(occurs_at(rr, q, j));
            lemma_replace_contains_back(rest, f, t, q);
            let m = choose|m: int| occurs_at(rest, q, m);
            assert(s.subrange(m + f.len(), m + f.len() + q.len()) =~= rest.subrange(m, m + q.len()));
            assert(occurs_at(s, q, m + f.len()));
        }
    } else {
        let rest = s.skip(1);
        let rr = replace_seq(rest, f, t);
        assert(r == seq![s[0]] + rr);
        let j = i - 1;
        assert(rr.subrange(j, j + q.len()) =~= r.subrange(i, i + q.len()));
        assert(occurs_at(rr, q, j));
        lemma_replace_contains_back(rest, f, t, q);
        let m = choose|m: int| occurs_at(rest, q, m);
        assert(s.subrange(m + 1, m + 1 + q.len()) =~= rest.subrange(m, m + q.len()));
        assert(occurs_at(s, q, m + 1));
    }
}

/// Undoing the JSON escapes creates no occurrence of a text that has neither
/// `&` nor `=`.
pub proof fn lemma_unescape_contains_back(u: Seq<char>, q: Seq<char>)
    requires
        forall|i: int| 0 <= i < q.len() ==> #[trigger] q[i] != '&' && q[i] != '=',
        seq_contains(unescape_seq(u), q),
    ensures
        seq_contains(u, q),
{
    reveal_strlit("\\u0026");
    reveal_strlit("\\u003d");
    reveal_strlit("&");
    reveal_strlit("=");
    assert forall|i: int| 0 <= i < q.len() implies !"&"@.contains(#[trigger] q[i]) by {
        if "&"@.contains(q[i]) {
            let k = choose|k: int| 0 <= k < "&"@.len() && "&"@[k] == q[i];
        }
    }
    assert forall|i: int| 0 <= i < q.len() implies !"="@.contains(#[trigger] q[i]) by {
        if "="@.contains(q[i]) {
            let k = choose|k: int| 0 <= k < "="@.len() && "="@[k] == q[i];
        }
    }
    let a = replace_seq(u, "\\u0026"@, "&"@);
    lemma_replace_contains_back(a, "\\u003d"@, "="@, q);
    lemma_replace_contains_back(u, "\\u0026"@, "&"@, q);
}

/// Replace the escaped `&` (`\u0026`) and `=` (`\u003d`) in a URL.
pub fn unescape(s: &[char]) -> (r: Vec<char>)
    ensures
        r@ == unescape_seq(s@),
{
    let amp_from = chars_of("\\u0026");
    let amp_to = chars_of("&");
    let eq_from = chars_of("\\u003d");
    let eq_to = chars_of("=");
    proof {
        reveal_strlit("\\u0026");
        reveal_strlit("\\u003d");
    }
    let a = replace(s, amp_from.as_slice(), amp_to.as_slice());
    replace(a.as_slice(), eq_from.as_slice(), eq_to.as_slice())
}


/// Append the characters of `x` to `out`.
pub fn extend_chars(out: &mut Vec<char>, x: &[char])
    ensures
        final(out)@ == old(out)@ + x@,
{
    let mut k: usize = 0;
    while k < x.len()
        invariant
            k <= x.len(),
            out@ == old(out)@ + x@.take(k as int),
        decreases x.len() - k,
    {
        out.push(x[k]);
        assert(x@.take(k + 1) =~= x@.take(k as int).push(x@[k as int]));
        k += 1;
    }
    assert(x@.take(x@.len() as int) =~= x@);
}

/// The characters of `s` from `from` (inclusive) to `to` (exclusive).
pub fn slice_chars(s: &[char], from: usize, to: usize) -> (r: Vec<char>)
    requires
        from <= to <= s@.len(),
    ensures
        r@ == s@.subrange(from as int, to as int),
{
    let mut r: Vec<char> = Vec::new();
    let mut k = from;
    while k < to
        invariant
            from <= k <= to <= s@.len(),
            r@ == s@.subrange(from as int, k as int),
        decreases to - k,
    {
        r.push(s[k]);
        assert(s@.subrange(from as int, k + 1) =~= s@.subrange(from as int, k as int).push(s@[k as int]));
        k += 1;
    }
    r
}

// ---------------------------------------------------------------------------
// Trimming
// ---------------------------------------------------------------------------

/// Unfolding `trim_end_while` on a prefix that ends in a trimmed character.
proof fn lemma_trim_end_step(s: Seq<char>, e: int, pred: spec_fn(char) -> bool)
    requires
        0 < e <= s.len(),
        pred(s[e - 1]),
    ensures
        trim_end_while(s.take(e), pred) == trim_end_while(s.take(e - 1), pred),
{
    assert(s.take(e).drop_last() =~= s.take(e - 1));
}

/// Unfolding `trim_start_while` on a range that starts with a trimmed character.
proof fn lemma_trim_start_step(s: Seq<char>, b: int, e: int, pred: spec_fn(char) -> bool)
    requires
        0 <= b < e <= s.len(),
        pred(s[b]),
    ensures
        trim_start_while(s.subrange(b, e), pred) == trim_start_while(s.subrange(b + 1, e), pred),
{
    assert(s.subrange(b, e).drop_first() =~= s.subrange(b + 1, e));
}

/// `s` without leading and trailing whitespace.
pub fn trim(s: &[char]) -> (r: Vec<char>)
    ensures
        r@ == seq_trim(s@),
{
    let mut e = s.len();
    assert(s@.take(e as int) =~= s@);
    while e > 0 && is_whitespace(s[e - 1])
        invariant
            e <= s@.len(),
            trim_end_while(s@, ws()) == trim_end_while(s@.take(e as int), ws()),
        decreases e,
    {
        proof {
            lemma_trim_end_step(s@, e as int, ws());
        }
        e -= 1;
    }
    let ghost t = s@.take(e as int);
    assert(trim_end_while(t, ws()) == t);
    let mut b: usize = 0;
    assert(t =~= s@.subrange(0, e as int));
    while b < e && is_whitespace(s[b])
        invariant
            b <= e <= s@.len(),
            t == s@.take(e as int),
            trim_start_while(t, ws()) == trim_start_while(s@.subrange(b as int, e as int), ws()),
        decreases e - b,
    {
        proof {
            lemma_trim_start_step(s@, b as int, e as int, ws());
        }
        b += 1;
    }
    slice_chars(s, b, e)
}

/// The string slice without leading and trailing whitespace.
pub fn str_trim(s: &str) -> (r: Vec<char>)
    ensures
        r@ == seq_trim(s@),
{
    let v = chars_of(s);
    trim(v.as_slice())
}

// ---------------------------------------------------------------------------
// Words
// ---------------------------------------------------------------------------

/// The character sequences of a list of character vectors.
pub open spec fn views(v: Seq<Vec<char>>) -> Seq<Seq<char>> {
    v.map_values(|w: Vec<char>| w@)
}

/// The whitespace-separated words of `s`.
pub fn split_whitespace(s: &[char]) -> (r: Vec<Vec<char>>)
    ensures
        views(r@) == words(s@),
{
    let mut out: Vec<Vec<char>> = Vec::new();
    let mut i: usize = 0;
    assert(s@.take(0) =~= Seq::<char>::empty());
    assert(views(out@) =~= Seq::<Seq<char>>::empty());
    while i < s.len()
        invariant
            i <= s@.len(),
            views(out@) == words(s@.take(i as int)),
        decreases s.len() - i,
    {
        let c = s[i];
        let ghost t = s@.take(i + 1);
        assert(t.drop_last() =~= s@.take(i as int));
        assert(t.last() == c);
        if is_whitespace(c) {
        } else if i >= 1 && !is_whitespace(s[i - 1]) {
            assert(t[t.len() - 2] == s@[i - 1]);
            proof {
                lemma_words_len(s@.take(i as int));
                assert(s@.take(i as int).last() == s@[i - 1]);
            }
            let ghost before = views(out@);
            let mut last = out.pop().unwrap();
            last.push(c);
            out.push(last);
            assert(views(out@) =~= before.update(before.len() - 1, before.last().push(c)));
        } else {
            let ghost before = views(out@);
            let mut w: Vec<char> = Vec::new();
            w.push(c);
            out.push(w);
            assert(views(out@) =~= before.push(seq![c]));
        }
        i += 1;
    }
    assert(s@.take(s@.len() as int) =~= s@);
    out
}

/// The pieces joined with `sep` between consecutive pieces.
pub fn join_with(parts: &Vec<Vec<char>>, sep: &[char]) -> (r: Vec<char>)
    ensures
        r@ == join(views(parts@), sep@),
{
    let mut out: Vec<char> = Vec::new();
    let mut i: usize = 0;
    assert(views(parts@).take(0) =~= Seq::<Seq<char>>::empty());
    while i < parts.len()
        invariant
            i <= parts@.len(),
            out@ == join(views(parts@).take(i as int), sep@),
        decreases parts.len() - i,
    {
        let ghost t = views(parts@).take(i + 1);
        assert(t.drop_last() =~= views(parts@).take(i as int));
        assert(t.last() == parts@[i as int]@);
        if i > 0 {
            extend_chars(&mut out, sep);
        }
        extend_chars(&mut out, parts[i].as_slice());
        proof {
            if i == 0 {
                assert(out@ =~= t[0]);
            }
        }
        i += 1;
    }
    assert(views(parts@).take(parts@.len() as int) =~= views(parts@));
    out
}

/// Are the two character sequences equal?
pub fn chars_eq(a: &[char], b: &[char]) -> (r: bool)
    ensures
        r == (a@ == b@),
{
    if a.len() != b.len() {
        return false;
    }
    let r = matches_at(a, b, 0);
    assert(a@.subrange(0, b@.len() as int) =~= a@);
    r
}

/// Are the two string slices equal?
pub fn str_eq(a: &str, b: &str) -> (r: bool)
    ensures
        r == (a@ == b@),
{
    let av = chars_of(a);
    let bv = chars_of(b);
    chars_eq(av.as_slice(), bv.as_slice())
}
} // verus!
