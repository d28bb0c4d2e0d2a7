//! Point payloads of the vector database, as far as the index reads and writes them.
use vstd::prelude::*;

verus! {

/// `serde_json::Map`, a JSON object.
#[verifier::external_type_specification]
#[verifier::external_body]
#[verifier::reject_recursive_types(K)]
#[verifier::reject_recursive_types(V)]
pub struct ExJsonMap<K, V>(serde_json::Map<K, V>);

/// `serde_json::Value`, a JSON value.
#[verifier::external_type_specification]
#[verifier::external_body]
pub struct ExJsonValue(serde_json::Value);

/// `qdrant_client::Payload`, what a point carries besides its vector.
#[verifier::external_type_specification]
#[verifier::external_body]
pub struct ExPayload(qdrant_client::Payload);

/// The fields of a JSON object: of each the string that it holds, or none where it holds another
/// value.
pub uninterp spec fn object_fields(
    object: serde_json::Map<String, serde_json::Value>,
) -> Map<Seq<char>, Option<Seq<char>>>;

/// The fields of a payload: of each the string that it holds, or none where it holds another value.
pub uninterp spec fn payload_fields(
    payload: qdrant_client::Payload,
) -> Map<Seq<char>, Option<Seq<char>>>;

/// The string in a field, if there is such a field and it holds one.
pub open spec fn field_text(fields: Map<Seq<char>, Option<Seq<char>>>, field: Seq<char>) -> Option<
    Seq<char>,
> {
    if fields.contains_key(field) {
        fields[field]
    } else {
        None
    }
}

/// A field gives the text that it holds; one that is missing, or holds another value, gives none.
pub proof fn field_gives_its_own_text(
    fields: Map<Seq<char>, Option<Seq<char>>>,
    field: Seq<char>,
    text: Seq<char>,
)
    ensures
        field_text(fields, field) == Some(text) <==> fields.contains_pair(field, Some(text)),
        field_text(fields, field) is None <==> !fields.contains_key(field) || fields[field] is None,
{
}

/// A JSON object of two texts.
///
/// Calls `serde_json::Map::from_iter` on the two fields. Claimed: the object has these fields, with
/// these strings, and no other field.
#[verifier::external_body]
pub(crate) fn text_object(
    key: &str,
    text: &str,
    other_key: &str,
    other_text: &str,
) -> (object: serde_json::Map<String, serde_json::Value>)
    requires
        key@ != other_key@,
    ensures
        object_fields(object) == map![key@ => Some(text@), other_key@ => Some(other_text@)],
{
    serde_json::Map::from_iter([
        (key.to_string(), serde_json::Value::String(text.to_string())),
        (other_key.to_string(), serde_json::Value::String(other_text.to_string())),
    ])
}

/// A payload with the fields of a JSON object.
///
/// Calls `qdrant_client::Payload::from`. Claimed: the payload has the fields that the object has and
/// no other; a field of it holds a string exactly where that of the object does, and then the same
/// string. What becomes of values that are no strings is left unsaid.
#[verifier::external_body]
pub(crate) fn object_payload(
    object: serde_json::Map<String, serde_json::Value>,
) -> (payload: qdrant_client::Payload)
    ensures
        payload_fields(payload) == object_fields(object),
{
    qdrant_client::Payload::from(object)
}

/// The string in the field `key` of a payload, if it has one.
///
/// Calls `qdrant_client::qdrant::Value::as_str` on that field of the map that the payload converts
/// to. Claimed: the field's string, or none where the field is missing or holds another value.
#[verifier::external_body]
pub(crate) fn payload_text(payload: &qdrant_client::Payload, key: &str) -> (text: Option<String>)
    ensures
        text.deep_view() == field_text(payload_fields(*payload), key@),
{
    let fields: std::collections::HashMap<String, qdrant_client::qdrant::Value> =
        payload.clone().into();
    fields.get(key).and_then(qdrant_client::qdrant::Value::as_str).cloned()
}

} // verus!
