//! Reading fields of a target's settings document (a JSON value).
//!
//! The document is `serde_json`'s value type, which this crate does not
//! look inside: each accessor below is `serde_json`'s own, and what it
//! returns is named rather than restated.
use vstd::prelude::*;
use crate::text::copy_str;
use crate::tokens::views;

verus! {

broadcast use vstd::string::group_string_axioms;

/// What `Value::get` with a string key returns: the member of an object
/// under that key, if any.
pub uninterp spec fn json_member(v: serde_json::Value, key: Seq<char>) -> Option<serde_json::Value>;

/// What `Value::as_array` returns: the elements of an array value.
pub uninterp spec fn json_elements(v: serde_json::Value) -> Option<Seq<serde_json::Value>>;

/// What `Value::as_str` returns: the text of a string value.
pub uninterp spec fn json_text(v: serde_json::Value) -> Option<Seq<char>>;

/// What `Value::as_u64` returns: a number value that is a `u64`.
pub uninterp spec fn json_u64(v: serde_json::Value) -> Option<u64>;

/// Calls `serde_json::Value::get` with a string key. Claimed: the member it
/// returns (or its absence) is `json_member` of the value and key.
#[verifier::external_body]
fn member<'a>(v: &'a serde_json::Value, key: &str) -> (r: Option<&'a serde_json::Value>)
    ensures
        match r {
            Some(m) => json_member(*v, key@) == Some(*m),
            None => json_member(*v, key@) is None,
        },
{
    v.get(key)
}

/// Calls `serde_json::Value::as_array`. Claimed: the elements it returns
/// (or their absence) are `json_elements` of the value.
#[verifier::external_body]
fn elements<'a>(v: &'a serde_json::Value) -> (r: Option<&'a Vec<serde_json::Value>>)
    ensures
        match r {
            Some(a) => json_elements(*v) == Some(a@),
            None => json_elements(*v) is None,
        },
{
    v.as_array()
}

/// Calls `serde_json::Value::as_str` and copies the text. Claimed: the text
/// (or its absence) is `json_text` of the value.
#[verifier::external_body]
fn text(v: &serde_json::Value) -> (r: Option<String>)
    ensures
        match r {
            Some(s) => json_text(*v) == Some(s@),
            None => json_text(*v) is None,
        },
{
    v.as_str().map(|s| s.to_string())
}

/// Calls `serde_json::Value::as_u64`. Claimed: the result is `json_u64` of
/// the value.
#[verifier::external_body]
fn number(v: &serde_json::Value) -> (r: Option<u64>)
    ensures
        r == json_u64(*v),
{
    v.as_u64()
}

/// The string elements of a sequence of values, in order; others dropped.
pub open spec fn texts_of(vs: Seq<serde_json::Value>) -> Seq<Seq<char>>
    decreases vs.len(),
{
    if vs.len() == 0 {
        Seq::empty()
    } else {
        let prev = texts_of(vs.drop_last());
        match json_text(vs.last()) {
            Some(t) => prev.push(t),
            None => prev,
        }
    }
}

/// The strings of the array under `key` (other elements dropped); nothing
/// where there is no such array.
pub open spec fn string_list(settings: serde_json::Value, key: Seq<char>) -> Seq<Seq<char>> {
    match json_member(settings, key) {
        Some(m) => match json_elements(m) {
            Some(vs) => texts_of(vs),
            None => Seq::empty(),
        },
        None => Seq::empty(),
    }
}

/// The strings of the array under `key` in `settings`.
pub fn string_list_at(settings: &serde_json::Value, key: &str) -> (r: Vec<String>)
    ensures
        views(r@) == string_list(*settings, key@),
{
    let mut r: Vec<String> = Vec::new();
    let m = match member(settings, key) {
        Some(m) => m,
        None => {
            assert(views(r@) =~= Seq::<Seq<char>>::empty());
            return r;
        },
    };
    let vs = match elements(m) {
        Some(vs) => vs,
        None => {
            assert(views(r@) =~= Seq::<Seq<char>>::empty());
            return r;
        },
    };
    let mut i: usize = 0;
    assert(vs@.take(0) =~= Seq::<serde_json::Value>::empty());
    while i < vs.len()
        invariant
            i <= vs@.len(),
            views(r@) == texts_of(vs@.take(i as int)),
        decreases vs.len() - i,
    {
        assert(vs@.take(i + 1).drop_last() =~= vs@.take(i as int));
        assert(vs@.take(i + 1).last() == vs@[i as int]);
        let ghost before = r@;
        match text(&vs[i]) {
            Some(s) => {
                r.push(s);
                assert(views(r@) =~= views(before).push(r@.last()@));
            },
            None => {},
        }
        i = i + 1;
    }
    assert(vs@.take(vs@.len() as int) =~= vs@);
    r
}

/// The string under `key`, if that is a string.
pub open spec fn string_at(settings: serde_json::Value, key: Seq<char>) -> Option<Seq<char>> {
    match json_member(settings, key) {
        Some(m) => json_text(m),
        None => None,
    }
}

/// The string under `key` in `settings`.
pub fn string_field(settings: &serde_json::Value, key: &str) -> (r: Option<String>)
    ensures
        match r {
            Some(s) => string_at(*settings, key@) == Some(s@),
            None => string_at(*settings, key@) is None,
        },
{
    match member(settings, key) {
        Some(m) => text(m),
        None => None,
    }
}

/// The unsigned number under `key`, if that is one.
pub open spec fn u64_at(settings: serde_json::Value, key: Seq<char>) -> Option<u64> {
    match json_member(settings, key) {
        Some(m) => json_u64(m),
        None => None,
    }
}

/// The unsigned number under `key` in `settings`.
pub fn u64_field(settings: &serde_json::Value, key: &str) -> (r: Option<u64>)
    ensures
        r == u64_at(*settings, key@),
{
    match member(settings, key) {
        Some(m) => number(m),
        None => None,
    }
}

} // verus!
