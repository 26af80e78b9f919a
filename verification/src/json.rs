//! JSON documents, as far as the library reads them, and the parse of JSON
//! text through `serde_json`.

use crate::text::str_equal;
use serde_json::Value;
use vstd::prelude::*;

verus! {

#[verifier::external_type_specification]
#[verifier::external_body]
pub struct ExValue(Value);

/// A JSON value. Numbers are kept only as such: the library reads none.
#[derive(Debug)]
pub enum Json {
    Null,
    Bool(bool),
    Number,
    Str(String),
    Array(Vec<Json>),
    Object(Vec<(String, Json)>),
}

/// The JSON value that `serde_json` reads from the text `raw`, or `None`
/// when `raw` is not JSON.
pub uninterp spec fn parsed_json(raw: Seq<char>) -> Option<Json>;

/// Calls `serde_json::from_str::<Value>` on `raw` and converts the value it
/// reads to `Json`; the parse is a function of `raw` alone. On failure, the
/// error's `Display` text is given back; what it says is not stated.
#[verifier::external_body]
pub(crate) fn parse_json(raw: &str) -> (r: Result<Json, String>)
    ensures
        r is Ok <==> parsed_json(raw@) is Some,
        r matches Ok(j) ==> parsed_json(raw@) == Some(j),
{
    match serde_json::from_str::<Value>(raw) {
        Ok(v) => Ok(json_from_value(&v)),
        Err(e) => Err(format!("{e}")),
    }
}

/// Converts a `serde_json::Value` to `Json`, one variant per arm, the
/// entries of arrays and objects in the order `serde_json` holds them. It
/// is the conversion of `parse_json`, written apart because it recurses.
#[verifier::external_body]
fn json_from_value(v: &Value) -> Json {
    match v {
        Value::Null => Json::Null,
        Value::Bool(b) => Json::Bool(*b),
        Value::Number(_) => Json::Number,
        Value::String(s) => Json::Str(s.clone()),
        Value::Array(a) => Json::Array(a.iter().map(json_from_value).collect()),
        Value::Object(o) => Json::Object(o.iter().map(|(k, x)| (k.clone(), json_from_value(x))).collect()),
    }
}

/// The value of the first entry of `entries` with key `key`.
pub open spec fn entry(entries: Seq<(String, Json)>, key: Seq<char>) -> Option<Json>
    decreases entries.len(),
{
    if entries.len() == 0 {
        None
    } else if entries[0].0@ == key {
        Some(entries[0].1)
    } else {
        entry(entries.drop_first(), key)
    }
}

/// The member `key` of `j`, when `j` is an object that has one.
pub open spec fn member(j: Json, key: Seq<char>) -> Option<Json> {
    match j {
        Json::Object(es) => entry(es@, key),
        _ => None,
    }
}

/// The member `key` of `j`, when `j` is an object that has one.
pub fn get_member<'a>(j: &'a Json, key: &str) -> (r: Option<&'a Json>)
    ensures
        match r {
            Some(v) => member(*j, key@) == Some(*v),
            None => member(*j, key@) is None,
        },
{
    match j {
        Json::Object(es) => {
            let ghost s = es@;
            let mut i: usize = 0;
            assert(s.skip(0) =~= s);
            while i < es.len()
                invariant
                    s == es@,
                    member(*j, key@) == entry(s, key@),
                    i <= s.len(),
                    entry(s, key@) == entry(s.skip(i as int), key@),
                decreases s.len() - i,
            {
                assert(s.skip(i as int)[0] == s[i as int]);
                if str_equal(es[i].0.as_str(), key) {
                    return Some(&es[i].1);
                }
                assert(s.skip(i as int).drop_first() =~= s.skip(i + 1));
                i = i + 1;
            }
            None
        },
        _ => None,
    }
}

} // verus!
