//! A plain model of JSON documents, as the engines' API responses are read.
//!
//! Parsing is done by the caller; numbers are kept as their text, since the
//! logic here never reads them.

use vstd::prelude::*;

verus! {

/// A JSON value.
#[derive(Debug)]
pub enum JsonValue {
    Null,
    Bool(bool),
    Number(String),
    Str(String),
    Array(Vec<JsonValue>),
    Object(Vec<(String, JsonValue)>),
}

/// The value stored under `key` among the entries of an object (the first
/// such entry).
pub open spec fn object_lookup(entries: Seq<(String, JsonValue)>, key: Seq<char>) -> Option<JsonValue>
    decreases entries.len(),
{
    if entries.len() == 0 {
        None
    } else if entries[0].0@ == key {
        Some(entries[0].1)
    } else {
        object_lookup(entries.drop_first(), key)
    }
}

/// The member `key` of `v`, if `v` is an object that has one.
pub open spec fn spec_get(v: JsonValue, key: Seq<char>) -> Option<JsonValue> {
    match v {
        JsonValue::Object(entries) => object_lookup(entries@, key),
        _ => None,
    }
}

/// The member `key` of an optional value.
pub open spec fn spec_get_opt(v: Option<JsonValue>, key: Seq<char>) -> Option<JsonValue> {
    match v {
        Some(v) => spec_get(v, key),
        None => None,
    }
}

/// The text of an optional value that is a string.
pub open spec fn spec_as_str(v: Option<JsonValue>) -> Option<Seq<char>> {
    match v {
        Some(JsonValue::Str(s)) => Some(s@),
        _ => None,
    }
}

/// The elements of an optional value that is an array.
pub open spec fn spec_as_array(v: Option<JsonValue>) -> Option<Seq<JsonValue>> {
    match v {
        Some(JsonValue::Array(items)) => Some(items@),
        _ => None,
    }
}

impl JsonValue {
    /// The member `key`, if this is an object that has one.
    pub fn get(&self, key: &str) -> (r: Option<&JsonValue>)
        ensures
            match r {
                Some(x) => spec_get(*self, key@) == Some(*x),
                None => spec_get(*self, key@) is None,
            },
    {
        match self {
            JsonValue::Object(entries) => {
                let k = String::from_str(key);
                let mut i: usize = 0;
                assert(entries@.skip(0) =~= entries@);
                while i < entries.len()
                    invariant
                        i <= entries@.len(),
                        k@ == key@,
                        spec_get(*self, key@) == object_lookup(entries@, key@),
                        object_lookup(entries@, key@) == object_lookup(entries@.skip(i as int), key@),
                    decreases entries.len() - i,
                {
                    let ghost rest = entries@.skip(i as int);
                    assert(rest[0] == entries@[i as int]);
                    assert(rest.drop_first() =~= entries@.skip(i + 1));
                    if entries[i].0 == k {
                        assert(entries@[i as int].0@ == key@);
                        assert(object_lookup(rest, key@) == Some(entries@[i as int].1));
                        let found = &entries[i].1;
                        assert(*found == entries@[i as int].1);
                        assert(spec_get(*self, key@) == object_lookup(entries@, key@));
                        return Some(found);
                    }
                    i += 1;
                }
                assert(entries@.skip(i as int) =~= Seq::<(String, JsonValue)>::empty());
                None
            },
            _ => None,
        }
    }

    /// The text, if this is a string.
    pub fn as_str(&self) -> (r: Option<&str>)
        ensures
            match r {
                Some(s) => spec_as_str(Some(*self)) == Some(s@),
                None => spec_as_str(Some(*self)) is None,
            },
    {
        match self {
            JsonValue::Str(s) => Some(s.as_str()),
            _ => None,
        }
    }

    /// The elements, if this is an array.
    pub fn as_array(&self) -> (r: Option<&Vec<JsonValue>>)
        ensures
            match r {
                Some(items) => spec_as_array(Some(*self)) == Some(items@),
                None => spec_as_array(Some(*self)) is None,
            },
    {
        match self {
            JsonValue::Array(items) => Some(items),
            _ => None,
        }
    }
}

/// The member `key` of an optional value.
pub fn get_opt<'a>(v: Option<&'a JsonValue>, key: &str) -> (r: Option<&'a JsonValue>)
    ensures
        match (r, v) {
            (Some(x), Some(v)) => spec_get(*v, key@) == Some(*x),
            (None, Some(v)) => spec_get(*v, key@) is None,
            (Some(_), None) => false,
            (None, None) => true,
        },
{
    match v {
        Some(v) => v.get(key),
        None => None,
    }
}

/// The text of an optional value that is a string.
pub fn as_str_opt<'a>(v: Option<&'a JsonValue>) -> (r: Option<&'a str>)
    ensures
        match (r, v) {
            (Some(s), Some(v)) => spec_as_str(Some(*v)) == Some(s@),
            (None, Some(v)) => spec_as_str(Some(*v)) is None,
            (Some(_), None) => false,
            (None, None) => true,
        },
{
    match v {
        Some(v) => v.as_str(),
        None => None,
    }
}


/// For each item, its string member `primary`, or failing that its string
/// member `fallback`, in order; items with neither are skipped.
pub open spec fn member_candidates(items: Seq<JsonValue>, primary: Seq<char>, fallback: Seq<char>) -> Seq<
    Seq<char>,
>
    decreases items.len(),
{
    if items.len() == 0 {
        seq![]
    } else {
        let rest = member_candidates(items.drop_first(), primary, fallback);
        match spec_as_str(spec_get(items[0], primary)) {
            Some(u) => seq![u] + rest,
            None => match spec_as_str(spec_get(items[0], fallback)) {
                Some(u) => seq![u] + rest,
                None => rest,
            },
        }
    }
}

/// The character sequences of a list of strings.
pub open spec fn text_views(v: Seq<String>) -> Seq<Seq<char>> {
    v.map_values(|s: String| s@)
}

/// For each item, its string member `primary`, or failing that `fallback`.
pub fn member_strings(items: &Vec<JsonValue>, primary: &str, fallback: &str) -> (r: Vec<String>)
    ensures
        text_views(r@) == member_candidates(items@, primary@, fallback@),
{
    let mut out: Vec<String> = Vec::new();
    let mut i: usize = items.len();
    assert(items@.skip(i as int) =~= Seq::<JsonValue>::empty());
    while i > 0
        invariant
            i <= items@.len(),
            text_views(out@) == member_candidates(items@.skip(i as int), primary@, fallback@),
        decreases i,
    {
        i -= 1;
        let ghost rest = items@.skip(i as int);
        assert(rest[0] == items@[i as int]);
        assert(rest.drop_first() =~= items@.skip(i + 1));
        let candidate = match as_str_opt(items[i].get(primary)) {
            Some(u) => Some(u),
            None => as_str_opt(items[i].get(fallback)),
        };
        if let Some(u) = candidate {
            let ghost before = text_views(out@);
            out.insert(0, String::from_str(u));
            assert(text_views(out@) =~= seq![u@] + before);
        }
    }
    assert(items@.skip(0) =~= items@);
    out
}
} // verus!
