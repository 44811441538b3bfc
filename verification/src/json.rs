//! JSON documents: the trees they stand for, and building them with
//! `serde_json`.

use serde_json::{Map as Fields, Value};
use vstd::prelude::*;

verus! {

/// A JSON document as a mathematical value. Numbers are the natural numbers
/// the projection writes; the fields of an object have no order.
#[verifier::ext_equal]
pub enum Json {
    Null,
    Bool(bool),
    Num(nat),
    Str(Seq<char>),
    Arr(Seq<Json>),
    Obj(Map<Seq<char>, Json>),
}

/// `serde_json::Value`, known by the tree it holds.
#[verifier::external_type_specification]
#[verifier::external_body]
pub struct ExValue(serde_json::Value);

/// `serde_json::Map`, known by the fields it holds.
#[verifier::external_type_specification]
#[verifier::external_body]
#[verifier::reject_recursive_types(K)]
#[verifier::reject_recursive_types(V)]
pub struct ExFields<K, V>(serde_json::Map<K, V>);

/// The tree a `serde_json::Value` holds.
pub uninterp spec fn json_tree(value: serde_json::Value) -> Json;

/// The fields a `serde_json::Map` holds.
pub uninterp spec fn map_tree(fields: serde_json::Map<String, serde_json::Value>) -> Map<
    Seq<char>,
    Json,
>;

/// An object without fields.
pub open spec fn no_fields() -> Map<Seq<char>, Json> {
    Map::empty()
}

/// The trees of a list of values.
pub open spec fn trees(values: Seq<Value>) -> Seq<Json> {
    values.map_values(|value: Value| json_tree(value))
}

/// A list with one more value has one more tree.
pub proof fn trees_push(values: Seq<Value>, value: Value)
    ensures
        trees(values.push(value)) == trees(values).push(json_tree(value)),
{
    assert(trees(values.push(value)) =~= trees(values).push(json_tree(value)));
}

/// A field of an object, `Null` when it is not there.
pub open spec fn field(json: Json, key: Seq<char>) -> Json {
    match json {
        Json::Obj(fields) => if fields.contains_key(key) {
            fields[key]
        } else {
            Json::Null
        },
        _ => Json::Null,
    }
}

/// Whether an object has the field.
pub open spec fn has_field(json: Json, key: Seq<char>) -> bool {
    json matches Json::Obj(fields) && fields.contains_key(key)
}

/// `Value::Null`.
#[verifier::external_body]
pub(crate) fn null() -> (value: Value)
    ensures
        json_tree(value) == Json::Null,
{
    Value::Null
}

/// `Value::Bool`, holding the flag.
#[verifier::external_body]
pub(crate) fn flag(on: bool) -> (value: Value)
    ensures
        json_tree(value) == Json::Bool(on),
{
    Value::Bool(on)
}

/// `Value::from` on a `usize`, holding the number.
#[verifier::external_body]
pub(crate) fn number(n: usize) -> (value: Value)
    ensures
        json_tree(value) == Json::Num(n as nat),
{
    Value::from(n)
}

/// `Value::from` on a `&str`, holding the text.
#[verifier::external_body]
pub(crate) fn text(s: &str) -> (value: Value)
    ensures
        json_tree(value) == Json::Str(s@),
{
    Value::from(s)
}

/// `Value::Array`, holding the values in order.
#[verifier::external_body]
pub(crate) fn list(items: Vec<Value>) -> (value: Value)
    ensures
        json_tree(value) == Json::Arr(trees(items@)),
{
    Value::Array(items)
}

/// `Value::Object`, holding the fields.
#[verifier::external_body]
pub(crate) fn object(fields: Fields<String, Value>) -> (value: Value)
    ensures
        json_tree(value) == Json::Obj(map_tree(fields)),
{
    Value::Object(fields)
}

/// `Map::new`, which holds no fields.
#[verifier::external_body]
pub(crate) fn fields() -> (made: Fields<String, Value>)
    ensures
        map_tree(made) == no_fields(),
{
    Fields::new()
}

/// `Map::insert`, which sets the field and leaves the others.
#[verifier::external_body]
pub(crate) fn put(fields: &mut Fields<String, Value>, key: &str, value: Value)
    ensures
        map_tree(*final(fields)) == map_tree(*old(fields)).insert(key@, json_tree(value)),
{
    fields.insert(key.to_owned(), value);
}

/// The tree of an optional text: `Null` when there is none.
pub open spec fn opt_text_json(s: Option<String>) -> Json {
    match s {
        Some(s) => Json::Str(s@),
        None => Json::Null,
    }
}

/// An optional text, `null` when there is none.
pub(crate) fn opt_text(s: &Option<String>) -> (value: Value)
    ensures
        json_tree(value) == opt_text_json(*s),
{
    match s {
        Some(s) => text(s.as_str()),
        None => null(),
    }
}

/// The fields with one more where the text is there.
pub open spec fn with_text(
    fields: Map<Seq<char>, Json>,
    key: Seq<char>,
    s: Option<String>,
) -> Map<Seq<char>, Json> {
    match s {
        Some(s) => fields.insert(key, Json::Str(s@)),
        None => fields,
    }
}

/// Sets the field where the text is there.
pub(crate) fn put_text(fields: &mut Fields<String, Value>, key: &str, s: &Option<String>)
    ensures
        map_tree(*final(fields)) == with_text(map_tree(*old(fields)), key@, *s),
{
    if let Some(s) = s {
        put(fields, key, text(s.as_str()));
    }
}

/// The trees of a list of texts.
pub open spec fn text_trees(lines: Seq<String>) -> Seq<Json> {
    lines.map_values(|line: String| Json::Str(line@))
}

/// A list of texts.
pub(crate) fn text_list(lines: &Vec<String>) -> (value: Value)
    ensures
        json_tree(value) == Json::Arr(text_trees(lines@)),
{
    let mut items: Vec<Value> = Vec::new();
    let mut i: usize = 0;
    while i < lines.len()
        invariant
            i <= lines@.len(),
            trees(items@) == text_trees(lines@.take(i as int)),
        decreases lines@.len() - i,
    {
        let ghost before = items@;
        items.push(text(lines[i].as_str()));
        proof {
            assert(trees(items@) =~= trees(before).push(Json::Str(lines@[i as int]@)));
            assert(text_trees(lines@.take(i + 1)) =~= text_trees(lines@.take(i as int)).push(
                Json::Str(lines@[i as int]@),
            ));
        }
        i += 1;
    }
    assert(lines@.take(i as int) =~= lines@);
    list(items)
}

} // verus!
