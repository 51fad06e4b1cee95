//! JSON documents: what a `serde_json::Value` holds, how one is built, read and written.
use serde_json::Value;
use vstd::prelude::*;
use vstd::string::*;

verus! {

/// `serde_json::Value`, a JSON document.
#[verifier::external_type_specification]
#[verifier::external_body]
pub struct ExValue(serde_json::Value);

/// `serde_json::Map`, the members of an object by name.
#[verifier::external_type_specification]
#[verifier::external_body]
#[verifier::reject_recursive_types(K)]
#[verifier::reject_recursive_types(V)]
pub struct ExMap<K, V>(serde_json::Map<K, V>);

/// A JSON document as a mathematical tree.
pub enum Json {
    Null,
    Bool(bool),
    /// A whole number that is not negative.
    Whole(nat),
    /// Any other number, as it is written.
    Number(Seq<char>),
    Text(Seq<char>),
    List(Seq<Json>),
    Object(Map<Seq<char>, Json>),
}

/// What a document holds.
pub uninterp spec fn value_tree(v: Value) -> Json;

/// The text that serde_json writes for a document.
pub uninterp spec fn json_text(tree: Json) -> Seq<char>;

/// What a sequence of documents holds.
pub open spec fn trees(items: Seq<Value>) -> Seq<Json> {
    items.map_values(|v: Value| value_tree(v))
}

/// No members.
pub open spec fn no_members() -> Map<Seq<char>, Json> {
    Map::empty()
}

/// The members that a map holds.
pub uninterp spec fn members(m: serde_json::Map<String, Value>) -> Map<Seq<char>, Json>;

/// The member of that name, where the document is an object.
pub open spec fn member(tree: Json, key: Seq<char>) -> Option<Json> {
    match tree {
        Json::Object(m) => if m.dom().contains(key) {
            Some(m[key])
        } else {
            None
        },
        _ => None,
    }
}

/// The item at that position, where the document is a list.
pub open spec fn item(tree: Json, i: int) -> Option<Json> {
    match tree {
        Json::List(l) => if 0 <= i < l.len() {
            Some(l[i])
        } else {
            None
        },
        _ => None,
    }
}

/// What an optional document holds.
pub open spec fn opt_tree(v: Option<&Value>) -> Option<Json> {
    match v {
        Some(t) => Some(value_tree(*t)),
        None => None,
    }
}

/// `Value::get` with a string: the member of that name, where the document is an object.
#[verifier::external_body]
pub(crate) fn get_member<'a>(v: &'a Value, key: &str) -> (r: Option<&'a Value>)
    ensures
        opt_tree(r) == member(value_tree(*v), key@),
{
    v.get(key)
}

/// `Value::get` with a position: the item there, where the document is a list.
#[verifier::external_body]
pub(crate) fn get_item<'a>(v: &'a Value, i: usize) -> (r: Option<&'a Value>)
    ensures
        opt_tree(r) == item(value_tree(*v), i as int),
{
    v.get(i)
}

/// `Value::as_array`: the items, where the document is a list.
pub assume_specification[ Value::as_array ](v: &Value) -> (r: Option<&Vec<Value>>)
    ensures
        match r {
            Some(items) => value_tree(*v) == Json::List(trees(items@)),
            None => !(value_tree(*v) is List),
        },
;

/// `Value::as_str`: the text, where the document is one.
pub assume_specification[ Value::as_str ](v: &Value) -> (r: Option<&str>)
    ensures
        match r {
            Some(s) => value_tree(*v) == Json::Text(s@),
            None => !(value_tree(*v) is Text),
        },
;

/// `Value::from` on a string: a text.
#[verifier::external_body]
pub(crate) fn text_value(s: &str) -> (r: Value)
    ensures
        value_tree(r) == Json::Text(s@),
{
    Value::from(s)
}

/// `Value::from` on a `bool`.
#[verifier::external_body]
pub(crate) fn bool_value(b: bool) -> (r: Value)
    ensures
        value_tree(r) == Json::Bool(b),
{
    Value::from(b)
}

/// `Value::from` on a `u64`: a whole number.
#[verifier::external_body]
pub(crate) fn whole_value(n: u64) -> (r: Value)
    ensures
        value_tree(r) == Json::Whole(n as nat),
{
    Value::from(n)
}

/// `Value::from` on a vector of documents: a list.
#[verifier::external_body]
pub(crate) fn list_value(items: Vec<Value>) -> (r: Value)
    ensures
        value_tree(r) == Json::List(trees(items@)),
{
    Value::from(items)
}

/// `serde_json::Map::new`: no members.
#[verifier::external_body]
pub(crate) fn no_fields() -> (r: serde_json::Map<String, Value>)
    ensures
        members(r) == no_members(),
{
    serde_json::Map::new()
}

/// `serde_json::Map::insert`: one more member, in place of the one with that name.
#[verifier::external_body]
pub(crate) fn with_field(
    fields: serde_json::Map<String, Value>,
    key: &str,
    value: Value,
) -> (r: serde_json::Map<String, Value>)
    ensures
        members(r) == members(fields).insert(key@, value_tree(value)),
{
    let mut fields = fields;
    fields.insert(key.to_string(), value);
    fields
}

/// `Value::Object` on a map: an object with its members.
#[verifier::external_body]
pub(crate) fn object_value(m: serde_json::Map<String, Value>) -> (r: Value)
    ensures
        value_tree(r) == Json::Object(members(m)),
{
    Value::Object(m)
}

/// `Value::to_string`: the document as text. What text that is depends on what the document
/// holds and on nothing else: the members of an object are kept, and written, in the order of
/// their names.
#[verifier::external_body]
pub(crate) fn value_text(v: &Value) -> (r: String)
    ensures
        r@ == json_text(value_tree(*v)),
{
    v.to_string()
}

/// Items with one more.
pub(crate) fn with_item(items: Vec<Value>, value: Value) -> (r: Vec<Value>)
    ensures
        trees(r@) == trees(items@).push(value_tree(value)),
{
    let mut r = items;
    let ghost before = r@;
    r.push(value);
    assert(trees(r@) =~= trees(before).push(value_tree(value)));
    r
}

/// No items.
pub(crate) fn no_items() -> (r: Vec<Value>)
    ensures
        trees(r@) == Seq::<Json>::empty(),
{
    let r: Vec<Value> = Vec::new();
    assert(trees(r@) =~= Seq::<Json>::empty());
    r
}

} // verus!
