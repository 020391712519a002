//! JSON documents, as the response parsers read them.
//!
//! The text is read by `serde_json`; what comes back is held here as plain
//! values, so every decision a parser takes about a response is one Verus can
//! see.

use vstd::prelude::*;

verus! {

/// A JSON value.
///
/// A number keeps what the parsers ask of it: its value as a `u64`, when it
/// is a non-negative integer that fits one (`serde_json::Value::as_u64`).
pub enum Json {
    Null,
    Bool(bool),
    Number(Option<u64>),
    Str(String),
    Array(Vec<Json>),
    /// Members in the order the document's map holds them; each key once.
    Object(Vec<(String, Json)>),
}

/// The document `serde_json::from_str` reads from `text`, or `None` when the
/// text is not JSON.
pub uninterp spec fn json_text(text: Seq<char>) -> Option<Json>;

#[verifier::external_type_specification]
#[verifier::external_body]
pub struct ExJsonValue(serde_json::Value);

/// Read `text` as JSON.
///
/// Calls `serde_json::from_str::<serde_json::Value>` and turns the value it
/// gives into a [`Json`], variant for variant. What `serde_json` accepts and
/// how it reads it is named, not stated: [`json_text`].
#[verifier::external_body]
pub(crate) fn parse_json(text: &str) -> (r: Option<Json>)
    ensures
        r == json_text(text@),
{
    serde_json::from_str::<serde_json::Value>(text).ok().map(json_of_value)
}

/// `serde_json::Value` to [`Json`], one variant to the same variant.
#[verifier::external_body]
fn json_of_value(v: serde_json::Value) -> Json {
    match v {
        serde_json::Value::Null => Json::Null,
        serde_json::Value::Bool(b) => Json::Bool(b),
        serde_json::Value::Number(n) => Json::Number(n.as_u64()),
        serde_json::Value::String(s) => Json::Str(s),
        serde_json::Value::Array(a) => Json::Array(a.into_iter().map(json_of_value).collect()),
        serde_json::Value::Object(m) => Json::Object(
            m.into_iter().map(|(k, v)| (k, json_of_value(v))).collect(),
        ),
    }
}

/// The member `key` of an object's members, the first one so named.
pub open spec fn field_of(fields: Seq<(String, Json)>, key: Seq<char>) -> Option<Json>
    decreases fields.len(),
{
    if fields.len() == 0 {
        None
    } else if fields[0].0@ == key {
        Some(fields[0].1)
    } else {
        field_of(fields.drop_first(), key)
    }
}

/// `value.get(key)`: the member of an object, `None` for anything else.
pub open spec fn get(v: Json, key: Seq<char>) -> Option<Json> {
    match v {
        Json::Object(fields) => field_of(fields@, key),
        _ => None,
    }
}

/// `value.get(key)` on a value that may be absent.
pub open spec fn get_opt(v: Option<Json>, key: Seq<char>) -> Option<Json> {
    match v {
        Some(v) => get(v, key),
        None => None,
    }
}

/// `.as_str()`.
pub open spec fn as_str(v: Option<Json>) -> Option<Seq<char>> {
    match v {
        Some(Json::Str(s)) => Some(s@),
        _ => None,
    }
}

/// `.as_u64()`.
pub open spec fn as_u64(v: Option<Json>) -> Option<u64> {
    match v {
        Some(Json::Number(n)) => n,
        _ => None,
    }
}

/// `.as_array()`.
pub open spec fn as_array(v: Option<Json>) -> Option<Seq<Json>> {
    match v {
        Some(Json::Array(a)) => Some(a@),
        _ => None,
    }
}

/// `.as_array()?.first()`.
pub open spec fn first_of(v: Option<Json>) -> Option<Json> {
    match as_array(v) {
        Some(a) => if a.len() > 0 {
            Some(a[0])
        } else {
            None
        },
        None => None,
    }
}

/// The member `key` of `v`, when `v` is an object that has one.
pub fn json_get<'a>(v: &'a Json, key: &str) -> (r: Option<&'a Json>)
    ensures
        match r {
            Some(x) => get(*v, key@) == Some(*x),
            None => get(*v, key@) is None,
        },
{
    match v {
        Json::Object(fields) => {
            let k = String::from_str(key);
            let mut i: usize = 0;
            assert(fields@.skip(0) =~= fields@);
            while i < fields.len()
                invariant
                    i <= fields@.len(),
                    k@ == key@,
                    get(*v, key@) == field_of(fields@, key@),
                    field_of(fields@, key@) == field_of(fields@.skip(i as int), key@),
                decreases fields@.len() - i,
            {
                let ghost rest = fields@.skip(i as int);
                assert(rest.drop_first() =~= fields@.skip(i + 1));
                if fields[i].0 == k {
                    assert(rest[0] == fields@[i as int]);
                    assert(fields@[i as int].0@ == key@);
                    assert(field_of(rest, key@) == Some(rest[0].1));
                    return Some(&fields[i].1);
                }
                i += 1;
            }
            None
        },
        _ => None,
    }
}

/// The member `key` of an optional value.
pub fn json_get_opt<'a>(v: Option<&'a Json>, key: &str) -> (r: Option<&'a Json>)
    ensures
        match r {
            Some(x) => get_opt(opt_val(v), key@) == Some(*x),
            None => get_opt(opt_val(v), key@) is None,
        },
{
    match v {
        Some(v) => json_get(v, key),
        None => None,
    }
}

pub open spec fn opt_val(v: Option<&Json>) -> Option<Json> {
    match v {
        Some(x) => Some(*x),
        None => None,
    }
}

pub fn json_as_str<'a>(v: Option<&'a Json>) -> (r: Option<&'a String>)
    ensures
        match r {
            Some(s) => as_str(opt_val(v)) == Some(s@),
            None => as_str(opt_val(v)) is None,
        },
{
    match v {
        Some(Json::Str(s)) => Some(s),
        _ => None,
    }
}

pub fn json_as_u64(v: Option<&Json>) -> (r: Option<u64>)
    ensures
        r == as_u64(opt_val(v)),
{
    match v {
        Some(Json::Number(n)) => *n,
        _ => None,
    }
}

pub fn json_as_array<'a>(v: Option<&'a Json>) -> (r: Option<&'a Vec<Json>>)
    ensures
        match r {
            Some(a) => as_array(opt_val(v)) == Some(a@),
            None => as_array(opt_val(v)) is None,
        },
{
    match v {
        Some(Json::Array(a)) => Some(a),
        _ => None,
    }
}

pub fn json_first<'a>(v: Option<&'a Json>) -> (r: Option<&'a Json>)
    ensures
        opt_val(r) == first_of(opt_val(v)),
{
    match json_as_array(v) {
        Some(a) => if a.len() > 0 {
            Some(&a[0])
        } else {
            None
        },
        None => None,
    }
}

} // verus!
