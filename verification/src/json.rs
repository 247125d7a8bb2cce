//! JSON documents, built and rendered by `serde_json`.

use vstd::prelude::*;

verus! {

/// `serde_json::Value`, a JSON value.
#[verifier::external_type_specification]
#[verifier::external_body]
pub struct ExternalValue(serde_json::Value);

/// What a JSON value holds.
pub enum JsonTree {
    Text(Seq<char>),
    Number(u64),
    Flag(bool),
    List(Seq<JsonTree>),
    /// The members in the order in which they are rendered.
    Object(Seq<(Seq<char>, JsonTree)>),
    /// Any other value: `null`, or a number that is not an unsigned integer, as
    /// it is rendered.
    Literal(Seq<char>),
}

/// What a `serde_json::Value` holds.
pub uninterp spec fn json_tree(value: serde_json::Value) -> JsonTree;

/// The text that `serde_json::to_string_pretty` renders.
pub uninterp spec fn pretty_text(tree: JsonTree) -> Seq<char>;

/// The text that a `serde_json::Value` is displayed as.
pub uninterp spec fn compact_text(tree: JsonTree) -> Seq<char>;

/// The trees of a sequence of values.
pub open spec fn json_trees(values: Seq<serde_json::Value>) -> Seq<JsonTree> {
    Seq::new(values.len(), |i: int| json_tree(values[i]))
}

/// The members that a sequence of keys and values stands for.
pub open spec fn json_members(fields: Seq<(String, serde_json::Value)>) -> Seq<
    (Seq<char>, JsonTree),
> {
    Seq::new(fields.len(), |i: int| (fields[i].0@, json_tree(fields[i].1)))
}

/// Whether no key occurs twice.
pub open spec fn distinct_keys(members: Seq<(Seq<char>, JsonTree)>) -> bool {
    forall|i: int, j: int|
        0 <= i < j < members.len() ==> (#[trigger] members[i]).0 != (#[trigger] members[j]).0
}

/// `serde_json::Value::String`: a value that holds the text.
#[verifier::external_body]
pub(crate) fn text_value(text: String) -> (value: serde_json::Value)
    ensures
        json_tree(value) == JsonTree::Text(text@),
{
    serde_json::Value::String(text)
}

/// `serde_json::Value::from` for a `u64`: a value that holds the number.
#[verifier::external_body]
pub(crate) fn number_value(number: u64) -> (value: serde_json::Value)
    ensures
        json_tree(value) == JsonTree::Number(number),
{
    serde_json::Value::from(number)
}

/// `serde_json::Value::Bool`: a value that holds the flag.
#[verifier::external_body]
pub(crate) fn flag_value(flag: bool) -> (value: serde_json::Value)
    ensures
        json_tree(value) == JsonTree::Flag(flag),
{
    serde_json::Value::Bool(flag)
}

/// `serde_json::Value::Array`: a value that holds the items in their order.
#[verifier::external_body]
pub(crate) fn list_value(items: Vec<serde_json::Value>) -> (value: serde_json::Value)
    ensures
        json_tree(value) == JsonTree::List(json_trees(items@)),
{
    serde_json::Value::Array(items)
}

/// `serde_json::Value::Object` over a `serde_json::Map` collected from the
/// fields: with the `preserve_order` feature the map keeps the fields in the
/// order in which they come. A key that came twice would be kept once.
#[verifier::external_body]
pub(crate) fn object_value(fields: Vec<(String, serde_json::Value)>) -> (value: serde_json::Value)
    requires
        distinct_keys(json_members(fields@)),
    ensures
        json_tree(value) == JsonTree::Object(json_members(fields@)),
{
    serde_json::Value::Object(fields.into_iter().collect())
}

/// `serde_json::to_string_pretty` on a value. Its keys are strings and it is
/// rendered into memory, so this succeeds; the text depends on what the value
/// holds alone, and that of an object stands in braces.
#[verifier::external_body]
pub(crate) fn to_string_pretty(value: &serde_json::Value) -> (rendered: Result<String, String>)
    ensures
        rendered is Ok,
        rendered->Ok_0@ == pretty_text(json_tree(*value)),
        json_tree(*value) is Object ==> is_braced(rendered->Ok_0@),
{
    serde_json::to_string_pretty(value).map_err(|error| error.to_string())
}

/// `Display` on a `serde_json::Value`: the value on one line, which depends on
/// what it holds alone.
#[verifier::external_body]
pub(crate) fn to_compact_string(value: &serde_json::Value) -> (rendered: String)
    ensures
        rendered@ == compact_text(json_tree(*value)),
{
    value.to_string()
}

/// Whether `text` stands in braces.
pub open spec fn is_braced(text: Seq<char>) -> bool {
    text.len() >= 2 && text.first() == '{' && text.last() == '}'
}

/// What a JSON object holds under a key: the first member with that key.
pub open spec fn member(tree: JsonTree, key: Seq<char>) -> Option<JsonTree> {
    match tree {
        JsonTree::Object(members) => found(members, key),
        _ => None,
    }
}

/// The first of the members with a key.
pub open spec fn found(members: Seq<(Seq<char>, JsonTree)>, key: Seq<char>) -> Option<JsonTree>
    decreases members.len(),
{
    if members.len() == 0 {
        None
    } else if members[0].0 == key {
        Some(members[0].1)
    } else {
        found(members.skip(1), key)
    }
}

} // verus!
