//! The structured value carried by requests, replies and notifications.
//! The core never looks inside one: it only moves it from one place to another.

use serde_json::Value;
use vstd::prelude::*;

verus! {

#[verifier::external_type_specification]
#[verifier::external_body]
pub struct ExValue(serde_json::Value);

/// The JSON object whose members are the given names and string values.
pub uninterp spec fn object_of(fields: Seq<(Seq<char>, Seq<char>)>) -> Value;

/// Relies on serde_json's `FromIterator` for `Map<String, Value>`: collects
/// the pairs into an object, each value a JSON string.
#[verifier::external_body]
pub(crate) fn string_object(fields: Vec<(String, String)>) -> (r: Value)
    ensures
        r == object_of(fields@.map_values(|p: (String, String)| (p.0@, p.1@))),
{
    Value::Object(fields.into_iter().map(|(k, v)| (k, Value::String(v))).collect())
}

} // verus!
