use vstd::prelude::*;
use crate::json::JsonValue;
use serde_json::Value;

verus! {

#[verifier::external_type_specification]
#[verifier::external_body]
pub struct ExValue(Value);

/// What serde_json parses from a stored summary text, in the library's form
/// (`None` when the text is not JSON).
pub uninterp spec fn stored_json(raw: Seq<char>) -> Option<JsonValue>;

/// Calls `serde_json::from_str::<serde_json::Value>` and turns the value into
/// a `JsonValue`, variant by variant. Claimed: a value comes back exactly
/// when serde_json parses the text, and it is `stored_json` of the text; the
/// error holds serde_json's message, of which nothing is claimed.
#[verifier::external_body]
pub(crate) fn parse_stored_summary(raw: &str) -> (r: Result<JsonValue, String>)
    ensures
        r is Ok == stored_json(raw@) is Some,
        r matches Ok(v) ==> stored_json(raw@) == Some(v),
{
    match serde_json::from_str::<Value>(raw) {
        Ok(v) => Ok(json_of(&v)),
        Err(e) => Err(e.to_string()),
    }
}

/// The library's form of a serde_json value, one variant for one variant;
/// a number becomes `UInt` when `as_u64` gives it, else `OtherNumber`. Only
/// `parse_stored_summary` uses it, whose contract covers the result.
#[verifier::external_body]
fn json_of(v: &Value) -> JsonValue {
    match v {
        Value::Null => JsonValue::Null,
        Value::Bool(b) => JsonValue::Bool(*b),
        Value::Number(n) => match n.as_u64() {
            Some(u) => JsonValue::UInt(u),
            None => JsonValue::OtherNumber,
        },
        Value::String(s) => JsonValue::Str(s.clone()),
        Value::Array(a) => JsonValue::Array(a.iter().map(json_of).collect()),
        Value::Object(m) => JsonValue::Object(m.iter().map(|(k, x)| (k.clone(), json_of(x))).collect()),
    }
}

/// The stored summary of a meeting: none when nothing is stored; the parsed
/// document when the text is JSON; serde_json's message when it is not.
pub fn stored_summary(raw: Option<&str>) -> (r: Result<Option<JsonValue>, String>)
    ensures
        raw is None ==> r == Ok::<Option<JsonValue>, String>(None),
        raw matches Some(t) ==> (r is Ok == stored_json(t@) is Some),
        raw matches Some(t) ==> (r matches Ok(v) ==> v == stored_json(t@)),
{
    match raw {
        None => Ok(None),
        Some(t) => match parse_stored_summary(t) {
            Ok(v) => Ok(Some(v)),
            Err(e) => Err(e),
        },
    }
}

} // verus!
