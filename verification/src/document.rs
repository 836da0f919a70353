//! Key/value documents of labels and counts, kept in `serde_json`'s object
//! map, and their JSON text.

use vstd::prelude::*;

verus! {

/// `serde_json::Map`, the object map of a JSON document. Nothing of its
/// inside is known here; what it holds goes by `document_counts`.
#[verifier::external_type_specification]
#[verifier::external_body]
#[verifier::reject_recursive_types(K)]
#[verifier::reject_recursive_types(V)]
pub struct ExObjectMap<K, V>(serde_json::Map<K, V>);

/// `serde_json::Value`, one JSON value, carried through as it is.
#[verifier::external_type_specification]
#[verifier::external_body]
pub struct ExJsonValue(serde_json::Value);

/// What a document holds: under each key the count stored there, or `None`
/// for a value that is not an unsigned integer of 64 bits.
pub uninterp spec fn document_counts(doc: serde_json::Map<String, serde_json::Value>) -> Map<
    Seq<char>,
    Option<u64>,
>;

/// The JSON text of a document that holds nothing but counts.
pub uninterp spec fn document_text(counts: Map<Seq<char>, Option<u64>>) -> Seq<char>;

/// What a text holds when read as a JSON object: the contents of the
/// document, or `None` for a text that is no JSON object.
pub uninterp spec fn object_in(text: Seq<char>) -> Option<Map<Seq<char>, Option<u64>>>;

/// The contents of a document without entries.
pub open spec fn no_counts() -> Map<Seq<char>, Option<u64>> {
    Map::empty()
}

/// Whether every value of a document is a count.
pub open spec fn only_counts(counts: Map<Seq<char>, Option<u64>>) -> bool {
    forall|k: Seq<char>| counts.contains_key(k) ==> (#[trigger] counts[k]) is Some
}

/// `serde_json::Map::new`: a document without entries.
#[verifier::external_body]
pub(crate) fn new_document() -> (doc: serde_json::Map<String, serde_json::Value>)
    ensures
        document_counts(doc) == no_counts(),
{
    serde_json::Map::new()
}

/// `serde_json::Map::insert` with a number made by `Value::from`: the key
/// holds the count afterwards, whether it was present or not, and every
/// other entry is as before.
#[verifier::external_body]
pub(crate) fn put_count(
    doc: &mut serde_json::Map<String, serde_json::Value>,
    label: String,
    count: u64,
)
    ensures
        document_counts(*final(doc)) == document_counts(*old(doc)).insert(label@, Some(count)),
{
    doc.insert(label, serde_json::Value::from(count));
}

/// `Display` of `serde_json::Value::Object`: the compact JSON text of the
/// document. The object map keeps its entries sorted by key, so the text
/// depends on nothing but the entries.
#[verifier::external_body]
pub(crate) fn document_string(doc: serde_json::Map<String, serde_json::Value>) -> (text: String)
    requires
        only_counts(document_counts(doc)),
    ensures
        text@ == document_text(document_counts(doc)),
{
    serde_json::Value::Object(doc).to_string()
}

/// `serde_json::Map::iter` with `Value::as_u64` on each value: every entry
/// of the document once, no key twice.
#[verifier::external_body]
pub(crate) fn document_entries(doc: &serde_json::Map<String, serde_json::Value>) -> (entries: Vec<
    (String, Option<u64>),
>)
    ensures
        forall|i: int, j: int|
            0 <= i < j < entries.len() ==> (#[trigger] entries[i]).0@ != (#[trigger] entries[j]).0@,
        forall|i: int|
            0 <= i < entries.len() ==> document_counts(*doc).contains_key(
                (#[trigger] entries[i]).0@,
            ) && document_counts(*doc)[entries[i].0@] == entries[i].1,
        forall|k: Seq<char>| #[trigger]
            document_counts(*doc).contains_key(k) ==> exists|i: int|
                0 <= i < entries.len() && (#[trigger] entries[i]).0@ == k,
{
    doc.iter().map(|(k, v)| (k.clone(), v.as_u64())).collect()
}

/// `serde_json::from_str` at the object map type: the document that the
/// text holds, or nothing for a text that is no JSON object.
#[verifier::external_body]
pub(crate) fn parse_object(text: &str) -> (r: Option<serde_json::Map<String, serde_json::Value>>)
    ensures
        match r {
            Some(doc) => object_in(text@) == Some(document_counts(doc)),
            None => object_in(text@) is None,
        },
{
    serde_json::from_str::<serde_json::Map<String, serde_json::Value>>(text).ok()
}

} // verus!
