use vstd::prelude::*;

use crate::text::str_eq;

verus! {

/// A JSON document as the library reads it. Numbers keep only what the
/// library reads of them: their value as an `i64` when they are integers
/// that fit in one (`None` otherwise). Object members keep their order.
pub enum JsonValue {
    Null,
    Bool(bool),
    Number(Option<i64>),
    String(String),
    Array(Vec<JsonValue>),
    Object(Vec<(String, JsonValue)>),
}

/// The value of the first member named `key` among `members`.
pub open spec fn find_member(members: Seq<(String, JsonValue)>, key: Seq<char>) -> Option<JsonValue>
    decreases members.len(),
{
    if members.len() == 0 {
        None
    } else if members[0].0@ == key {
        Some(members[0].1)
    } else {
        find_member(members.skip(1), key)
    }
}

/// The member `key` of an object; `None` for a missing member or a value
/// that is not an object.
pub open spec fn json_get(v: JsonValue, key: Seq<char>) -> Option<JsonValue> {
    match v {
        JsonValue::Object(members) => find_member(members@, key),
        _ => None,
    }
}

/// The text of a string value.
pub open spec fn json_str(v: JsonValue) -> Option<Seq<char>> {
    match v {
        JsonValue::String(s) => Some(s@),
        _ => None,
    }
}

/// The `i64` value of an integer number.
pub open spec fn json_i64(v: JsonValue) -> Option<i64> {
    match v {
        JsonValue::Number(n) => n,
        _ => None,
    }
}

/// The elements of an array.
pub open spec fn json_array(v: JsonValue) -> Option<Seq<JsonValue>> {
    match v {
        JsonValue::Array(a) => Some(a@),
        _ => None,
    }
}

/// `json_get` lifted to an optional value.
pub open spec fn opt_get(v: Option<JsonValue>, key: Seq<char>) -> Option<JsonValue> {
    match v {
        Some(x) => json_get(x, key),
        None => None,
    }
}

/// `json_str` lifted to an optional value.
pub open spec fn opt_str(v: Option<JsonValue>) -> Option<Seq<char>> {
    match v {
        Some(x) => json_str(x),
        None => None,
    }
}

/// `json_i64` lifted to an optional value.
pub open spec fn opt_i64(v: Option<JsonValue>) -> Option<i64> {
    match v {
        Some(x) => json_i64(x),
        None => None,
    }
}

/// `json_array` lifted to an optional value.
pub open spec fn opt_array(v: Option<JsonValue>) -> Option<Seq<JsonValue>> {
    match v {
        Some(x) => json_array(x),
        None => None,
    }
}

/// The text, or the empty text.
pub open spec fn str_or_empty(s: Option<Seq<char>>) -> Seq<char> {
    match s {
        Some(t) => t,
        None => Seq::empty(),
    }
}

/// A reference to an optional value, seen as the optional value.
pub open spec fn opt_ref(r: Option<&JsonValue>) -> Option<JsonValue> {
    match r {
        Some(x) => Some(*x),
        None => None,
    }
}

// ---------------------------------------------------------------------------
// Reading and writing JSON text (outside crate `serde_json`)
// ---------------------------------------------------------------------------

/// A document parsed by `serde_json`, carried between the calls that read and
/// write it and the library's model.
#[verifier::external_type_specification]
#[verifier::external_body]
pub struct ExJsonDocument(serde_json::Value);

/// The model of a JSON text as `serde_json::from_str` parses it into a
/// `serde_json::Value` (each value taken one for one into `JsonValue`), or
/// the message of its error when the text is not JSON.
pub uninterp spec fn spec_json_parse(text: Seq<char>) -> Result<JsonValue, Seq<char>>;

/// The text `serde_json::to_string` writes for a value of the model taken one
/// for one into a `serde_json::Value` (a number whose value the model does not
/// hold is written as `null`; object members are written in key order).
pub uninterp spec fn spec_json_text(v: JsonValue) -> Seq<char>;

/// Takes a `serde_json::Value` into the model, value for value.
#[verifier::external_body]
fn model_of_document(v: &serde_json::Value) -> JsonValue {
    match v {
        serde_json::Value::Null => JsonValue::Null,
        serde_json::Value::Bool(b) => JsonValue::Bool(*b),
        serde_json::Value::Number(n) => JsonValue::Number(n.as_i64()),
        serde_json::Value::String(s) => JsonValue::String(s.clone()),
        serde_json::Value::Array(a) => JsonValue::Array(a.iter().map(model_of_document).collect()),
        serde_json::Value::Object(m) => JsonValue::Object(m.iter().map(|(k, x)| (k.clone(), model_of_document(x))).collect()),
    }
}

/// Takes a value of the model into a `serde_json::Value`, value for value.
#[verifier::external_body]
fn document_of_model(v: &JsonValue) -> serde_json::Value {
    match v {
        JsonValue::Null | JsonValue::Number(None) => serde_json::Value::Null,
        JsonValue::Bool(b) => serde_json::Value::Bool(*b),
        JsonValue::Number(Some(n)) => serde_json::Value::from(*n),
        JsonValue::String(s) => serde_json::Value::String(s.clone()),
        JsonValue::Array(a) => serde_json::Value::Array(a.iter().map(document_of_model).collect()),
        JsonValue::Object(m) => serde_json::Value::Object(m.iter().map(|(k, x)| (k.clone(), document_of_model(x))).collect()),
    }
}

/// Parses JSON text with `serde_json::from_str::<serde_json::Value>`.
/// Claimed: the result is the named parse, or the text of the parser's error.
#[verifier::external_body]
fn serde_json_parse(text: &str) -> (res: Result<JsonValue, String>)
    ensures
        match spec_json_parse(text@) {
            Ok(v) => res == Ok::<JsonValue, String>(v),
            Err(m) => res matches Err(e) && e@ == m,
        },
{
    serde_json::from_str::<serde_json::Value>(text).map(|v| model_of_document(&v)).map_err(|e| e.to_string())
}

/// Writes JSON text with `serde_json::to_string`, which cannot fail on a
/// `serde_json::Value`. Claimed: the result is the named text of the value.
#[verifier::external_body]
fn serde_json_text(v: &JsonValue) -> (res: String)
    ensures
        res@ == spec_json_text(*v),
{
    serde_json::to_string(&document_of_model(v)).unwrap_or_default()
}

/// Parses a JSON text into the model, or gives the parser's error message.
pub fn parse_json(text: &str) -> (res: Result<JsonValue, String>)
    ensures
        match spec_json_parse(text@) {
            Ok(v) => res == Ok::<JsonValue, String>(v),
            Err(m) => res matches Err(e) && e@ == m,
        },
{
    serde_json_parse(text)
}

/// The compact JSON text of a value of the model.
pub fn json_text(v: &JsonValue) -> (res: String)
    ensures
        res@ == spec_json_text(*v),
{
    serde_json_text(v)
}

impl JsonValue {
    /// The member `key` of an object (`None` when the value is not an
    /// object or has no such member).
    pub fn get(&self, key: &str) -> (res: Option<&JsonValue>)
        ensures
            opt_ref(res) == json_get(*self, key@),
    {
        match self {
            JsonValue::Object(members) => {
                let mut i: usize = 0;
                assert(members@.skip(0) =~= members@);
                while i < members.len()
                    invariant
                        i <= members@.len(),
                        json_get(*self, key@) == find_member(members@, key@),
                        find_member(members@, key@) == find_member(members@.skip(i as int), key@),
                    decreases members@.len() - i,
                {
                    assert(members@.skip(i as int).skip(1) =~= members@.skip(i + 1));
                    assert(members@.skip(i as int)[0] == members@[i as int]);
                    if str_eq(members[i].0.as_str(), key) {
                        return Some(&members[i].1);
                    }
                    i = i + 1;
                }
                None
            },
            _ => None,
        }
    }

    /// The text of a string value.
    pub fn as_str(&self) -> (res: Option<&str>)
        ensures
            match res {
                Some(s) => json_str(*self) == Some(s@),
                None => json_str(*self) is None,
            },
    {
        match self {
            JsonValue::String(s) => Some(s.as_str()),
            _ => None,
        }
    }

    /// The `i64` value of an integer number.
    pub fn as_i64(&self) -> (res: Option<i64>)
        ensures
            res == json_i64(*self),
    {
        match self {
            JsonValue::Number(n) => *n,
            _ => None,
        }
    }

    /// The elements of an array.
    pub fn as_array(&self) -> (res: Option<&Vec<JsonValue>>)
        ensures
            match res {
                Some(a) => json_array(*self) == Some(a@),
                None => json_array(*self) is None,
            },
    {
        match self {
            JsonValue::Array(a) => Some(a),
            _ => None,
        }
    }
}

} // verus!
