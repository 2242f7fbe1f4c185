//! Trusted JSON queries.
//!
//! The posting fragments are JSON text; the library never parses JSON itself
//! but asks serde_json through the three wrappers here. Each result is named
//! by an uninterpreted function of the input text, so callers' contracts can
//! speak of it exactly; what each name stands for is fixed solely by the
//! wrapper that applies it.

use vstd::prelude::*;

verus! {

/// The elements of a JSON array, each as its own JSON text, or nothing if the
/// input is not a JSON array.
pub uninterp spec fn json_fragments_of(s: Seq<char>) -> Option<Seq<Seq<char>>>;

/// The string value of field `k` of a JSON object, or nothing if the input is
/// not an object or the field is missing or not a string.
pub uninterp spec fn json_str_field_of(s: Seq<char>, k: Seq<char>) -> Option<Seq<char>>;

/// The value of field `k` of a JSON object as JSON text, or nothing if the
/// input is not an object or the field is missing.
pub uninterp spec fn json_raw_field_of(s: Seq<char>, k: Seq<char>) -> Option<Seq<char>>;

/// Splits a JSON array into the JSON text of its elements.
///
/// Relies on serde_json: `from_str::<Vec<&RawValue>>` accepts exactly JSON
/// arrays and hands back each element's own text, and `RawValue::get` returns
/// that text; both depend on the input text alone.
#[verifier::external_body]
pub fn json_array_fragments(s: &str) -> (r: Option<Vec<String>>)
    ensures
        r is Some <==> json_fragments_of(s@) is Some,
        r matches Some(v) ==> json_fragments_of(s@) == Some(
            v@.map_values(|t: String| t@),
        ),
{
    let parsed: Vec<&serde_json::value::RawValue> = serde_json::from_str(s).ok()?;
    let mut out: Vec<String> = Vec::with_capacity(parsed.len());
    for raw in parsed {
        out.push(raw.get().to_string());
    }
    Some(out)
}

/// Reads the string value of one field of a JSON object.
///
/// Relies on serde_json: `from_str::<Value>` parses the text, `Value::get`
/// finds the field, and `Value::as_str` yields the value exactly when it is a
/// string; all three depend on the input text alone.
#[verifier::external_body]
pub fn json_string_field(s: &str, key: &str) -> (r: Option<String>)
    ensures
        r is Some <==> json_str_field_of(s@, key@) is Some,
        r matches Some(v) ==> json_str_field_of(s@, key@) == Some(v@),
{
    let value: serde_json::Value = serde_json::from_str(s).ok()?;
    let field = value.get(key)?;
    field.as_str().map(|t| t.to_string())
}

/// Reads one field of a JSON object as JSON text.
///
/// Relies on serde_json: `from_str::<Value>` parses the text, `Value::get`
/// finds the field, and `Value::to_string` prints it back as JSON; `Value`
/// keeps object members sorted by key, so the printed text depends on the
/// input text alone.
#[verifier::external_body]
pub fn json_raw_field(s: &str, key: &str) -> (r: Option<String>)
    ensures
        r is Some <==> json_raw_field_of(s@, key@) is Some,
        r matches Some(v) ==> json_raw_field_of(s@, key@) == Some(v@),
{
    let value: serde_json::Value = serde_json::from_str(s).ok()?;
    let field = value.get(key)?;
    Some(field.to_string())
}

} // verus!
