//! JSON text: what `serde_json` writes for a tree, and what it reads it back as.

use crate::json::{Json, JsonObject, JsonValue};
use vstd::prelude::*;

verus! {

/// The tree type of `serde_json`.
#[verifier::external_type_specification]
#[verifier::external_body]
pub struct ExSerdeValue(serde_json::Value);

/// The object type of `serde_json`.
#[verifier::external_type_specification]
#[verifier::external_body]
#[verifier::reject_recursive_types(K)]
#[verifier::reject_recursive_types(V)]
pub struct ExSerdeMap<K, V>(serde_json::Map<K, V>);

/// The error type of `serde_json`.
#[verifier::external_type_specification]
#[verifier::external_body]
pub struct ExSerdeError(serde_json::Error);

/// How deep a text may be nested to be read.
pub const MAX_NESTING: usize = 127;

/// The tree that a `serde_json` value holds.
pub uninterp spec fn tree_of(value: serde_json::Value) -> Json;

/// The entries that a `serde_json` object holds.
pub uninterp spec fn object_of(map: serde_json::Map<String, serde_json::Value>) -> Map<
    Seq<char>,
    Json,
>;

/// The text that is written for a tree.
pub uninterp spec fn text_of(tree: Json) -> Seq<u8>;

/// The object that a text is read as, or `None` where it is not the text of an object.
pub uninterp spec fn parsed(text: Seq<u8>) -> Option<Map<Seq<char>, Json>>;

/// A `serde_json` value, taken apart at the top.
pub enum Shape {
    Null,
    Bool(bool),
    Number(serde_json::Number),
    String(String),
    Array(Vec<serde_json::Value>),
    Object(serde_json::Map<String, serde_json::Value>),
}

impl Shape {
    /// The tree of the value.
    pub open spec fn tree(self) -> Json {
        match self {
            Shape::Null => Json::Null,
            Shape::Bool(b) => Json::Bool(b),
            Shape::Number(number) => Json::Number(number),
            Shape::String(text) => Json::String(text@),
            Shape::Array(items) => Json::Array(items@.map_values(|item| tree_of(item))),
            Shape::Object(map) => Json::Object(object_of(map)),
        }
    }
}

/// The variants of `serde_json::Value`, taken apart one by one.
#[verifier::external_body]
fn take_apart(value: serde_json::Value) -> (shape: Shape)
    ensures
        shape.tree() == tree_of(value),
{
    match value {
        serde_json::Value::Null => Shape::Null,
        serde_json::Value::Bool(b) => Shape::Bool(b),
        serde_json::Value::Number(number) => Shape::Number(number),
        serde_json::Value::String(text) => Shape::String(text),
        serde_json::Value::Array(items) => Shape::Array(items),
        serde_json::Value::Object(map) => Shape::Object(map),
    }
}

/// The variants of `serde_json::Value`, put together one by one.
#[verifier::external_body]
fn put_together(shape: Shape) -> (value: serde_json::Value)
    ensures
        tree_of(value) == shape.tree(),
{
    match shape {
        Shape::Null => serde_json::Value::Null,
        Shape::Bool(b) => serde_json::Value::Bool(b),
        Shape::Number(number) => serde_json::Value::Number(number),
        Shape::String(text) => serde_json::Value::String(text),
        Shape::Array(items) => serde_json::Value::Array(items),
        Shape::Object(map) => serde_json::Value::Object(map),
    }
}

/// `serde_json::Map::new`: an object without entries.
#[verifier::external_body]
fn new_map() -> (map: serde_json::Map<String, serde_json::Value>)
    ensures
        object_of(map) == crate::json::no_entries(),
{
    serde_json::Map::new()
}

/// `serde_json::Map::insert`: puts a value at a key and hands back the one that stood there.
#[verifier::external_body]
fn map_insert(
    map: &mut serde_json::Map<String, serde_json::Value>,
    key: String,
    value: serde_json::Value,
) -> (replaced: Option<serde_json::Value>)
    ensures
        object_of(*final(map)) == object_of(*old(map)).insert(key@, tree_of(value)),
        replaced is Some <==> object_of(*old(map)).contains_key(key@),
        replaced matches Some(r) ==> tree_of(r) == object_of(*old(map))[key@],
{
    map.insert(key, value)
}

/// `<serde_json::Map as IntoIterator>::into_iter`, collected: each key once, with its value.
#[verifier::external_body]
fn map_entries(map: serde_json::Map<String, serde_json::Value>) -> (entries: Vec<
    (String, serde_json::Value),
>)
    ensures
        forall|i: int, j: int|
            0 <= i < j < entries@.len() ==> (#[trigger] entries@[i]).0@ != (
            #[trigger] entries@[j]).0@,
        forall|i: int|
            0 <= i < entries@.len() ==> object_of(map).contains_key((#[trigger] entries@[i]).0@)
                && object_of(map)[entries@[i].0@] == tree_of(entries@[i].1),
        forall|k: Seq<char>| #[trigger]
            object_of(map).contains_key(k) ==> exists|i: int|
                0 <= i < entries@.len() && (#[trigger] entries@[i]).0@ == k,
{
    map.into_iter().collect()
}

/// `serde_json::to_vec` on a `serde_json::Value`: it does not fail, and the text is a function of
/// the tree. The text of an object that is nested no deeper than can be read is read back as an
/// object, and as the same one if no number in it is kept as a floating-point number. A
/// floating-point number may come back as a neighbouring one; what it comes back as is left
/// unsaid.
#[verifier::external_body]
fn to_vec(value: &serde_json::Value) -> (result: Result<Vec<u8>, serde_json::Error>)
    ensures
        result is Ok,
        result matches Ok(text) ==> text@ == text_of(tree_of(*value)),
        result matches Ok(text) ==> (tree_of(*value) is Object && tree_of(*value).nested_within(
            MAX_NESTING as int,
        ) ==> parsed(text@) is Some),
        result matches Ok(text) ==> (tree_of(*value) is Object && tree_of(*value).nested_within(
            MAX_NESTING as int,
        ) && tree_of(*value).float_free() ==> parsed(text@) == Some(tree_of(*value)->Object_0)),
{
    serde_json::to_vec(value)
}

/// `serde_json::from_slice` to a `serde_json::Map`: a function of the text alone. What is read is
/// nested no deeper than the limit of the reader.
#[verifier::external_body]
fn from_slice(text: &[u8]) -> (result: Result<
    serde_json::Map<String, serde_json::Value>,
    serde_json::Error,
>)
    ensures
        result is Ok <==> parsed(text@) is Some,
        result matches Ok(map) ==> parsed(text@) == Some(object_of(map)) && Json::Object(
            object_of(map),
        ).nested_within(MAX_NESTING as int),
{
    serde_json::from_slice(text)
}


/// An object, as `serde_json` holds it.
fn to_serde_map(object: &JsonObject) -> (map: serde_json::Map<String, serde_json::Value>)
    ensures
        object_of(map) == object@,
    decreases object, 1int,
{
    let mut map = new_map();
    let mut i: usize = 0;
    assert(object.entries@.take(0) =~= Seq::empty());
    while i < object.entries.len()
        invariant
            i <= object.entries@.len(),
            object_of(map) == crate::json::entries_map(object.entries@.take(i as int)),
        decreases object.entries@.len() - i,
    {
        proof {
            assert(object.entries@.take(i + 1).drop_last() =~= object.entries@.take(i as int));
            assert(decreases_to!(object => object.entries));
            assert(decreases_to!(object.entries => object.entries@));
            assert(decreases_to!(object.entries@ => object.entries@[i as int]));
            assert(decreases_to!(object.entries@[i as int] => object.entries@[i as int].1));
        }
        let key = object.entries[i].0.clone();
        let value = to_serde(&object.entries[i].1);
        map_insert(&mut map, key, value);
        i += 1;
    }
    assert(object.entries@.take(i as int) =~= object.entries@);
    map
}

/// A tree, as `serde_json` holds it.
fn to_serde(value: &JsonValue) -> (result: serde_json::Value)
    ensures
        tree_of(result) == value@,
    decreases value, 0int,
{
    match value {
        JsonValue::Null => put_together(Shape::Null),
        JsonValue::Bool(b) => put_together(Shape::Bool(*b)),
        JsonValue::Number(number) => put_together(Shape::Number(number.clone())),
        JsonValue::String(text) => put_together(Shape::String(text.clone())),
        JsonValue::Array(items) => {
            let mut result: Vec<serde_json::Value> = Vec::new();
            let mut i: usize = 0;
            while i < items.len()
                invariant
                    i <= items@.len(),
                    value == JsonValue::Array(*items),
                    result@.len() == i,
                    forall|j: int| 0 <= j < i ==> tree_of(#[trigger] result@[j]) == items@[j]@,
                decreases items@.len() - i,
            {
                proof {
                    assert(decreases_to!(value => value->Array_0));
                    assert(decreases_to!(items => items@));
                    assert(decreases_to!(items@ => items@[i as int]));
                }
                result.push(to_serde(&items[i]));
                i += 1;
            }
            let shape = Shape::Array(result);
            assert(shape.tree()->Array_0 =~= value@->Array_0);
            put_together(shape)
        },
        JsonValue::Object(object) => put_together(Shape::Object(to_serde_map(object))),
    }
}

/// An object that `serde_json` holds, as an object of this crate.
fn from_serde_map(map: serde_json::Map<String, serde_json::Value>) -> (object: JsonObject)
    ensures
        object@ == object_of(map),
    decreases Json::Object(object_of(map)), 0int,
{
    let ghost entries_of = object_of(map);
    let mut rest = map_entries(map);
    let ghost all = rest@;
    let mut object = JsonObject::new();
    while rest.len() > 0
        invariant
            rest@ == all.take(rest@.len() as int),
            rest@.len() <= all.len(),
            entries_of == object_of(map),
            forall|i: int, j: int|
                0 <= i < j < all.len() ==> (#[trigger] all[i]).0@ != (#[trigger] all[j]).0@,
            forall|i: int|
                0 <= i < all.len() ==> entries_of.contains_key((#[trigger] all[i]).0@)
                    && entries_of[all[i].0@] == tree_of(all[i].1),
            forall|k: Seq<char>| #[trigger]
                object@.contains_key(k) <==> exists|i: int|
                    rest@.len() <= i < all.len() && (#[trigger] all[i]).0@ == k,
            forall|k: Seq<char>| #[trigger]
                object@.contains_key(k) ==> entries_of.contains_key(k) && object@[k]
                    == entries_of[k],
        decreases rest@.len(),
    {
        let ghost n = rest@.len() as int;
        let ghost before = object@;
        match rest.pop() {
            Some((key, value)) => {
                assert((key, value) == all[n - 1]);
                assert(rest@ =~= all.take(n - 1));
                proof {
                    assert(tree_of(value) == entries_of[key@]);
                    let tree = Json::Object(entries_of);
                    assert(decreases_to!(tree => tree->Object_0[key@]));
                }
                let value = from_serde(value);
                object.insert(key, value);
                assert forall|k: Seq<char>| #[trigger] object@.contains_key(k) <==> exists|i: int|
                    n - 1 <= i < all.len() && (#[trigger] all[i]).0@ == k by {
                    if k == key@ {
                        assert(all[n - 1].0@ == k);
                    } else if before.contains_key(k) {
                        let i = choose|i: int| n <= i < all.len() && (#[trigger] all[i]).0@ == k;
                        assert(all[i].0@ == k);
                    }
                }
            },
            None => {
                assert(false);
            },
        }
    }
    assert(object@ =~= entries_of) by {
        assert forall|k: Seq<char>|
            entries_of.contains_key(k) implies #[trigger] object@.contains_key(k) by {}
    }
    object
}

/// A tree that `serde_json` holds, as a tree of this crate.
fn from_serde(value: serde_json::Value) -> (result: JsonValue)
    ensures
        result@ == tree_of(value),
    decreases tree_of(value), 1int,
{
    match take_apart(value) {
        Shape::Null => JsonValue::Null,
        Shape::Bool(b) => JsonValue::Bool(b),
        Shape::Number(number) => JsonValue::Number(number),
        Shape::String(text) => JsonValue::String(text),
        Shape::Array(items) => {
            let ghost all = items@;
            let mut rest = items;
            let mut reversed: Vec<JsonValue> = Vec::new();
            while rest.len() > 0
                invariant
                    rest@.len() + reversed@.len() == all.len(),
                    rest@ == all.take(rest@.len() as int),
                    tree_of(value) == Json::Array(all.map_values(|item| tree_of(item))),
                    forall|j: int|
                        0 <= j < reversed@.len() ==> (#[trigger] reversed@[j])@ == tree_of(
                            all[all.len() - 1 - j],
                        ),
                decreases rest@.len(),
            {
                let ghost n = rest@.len() as int;
                match rest.pop() {
                    Some(item) => {
                        assert(item == all[n - 1]);
                        assert(rest@ =~= all.take(n - 1));
                        proof {
                            let tree = tree_of(value);
                            assert(tree->Array_0[n - 1] == tree_of(item));
                            assert(decreases_to!(tree => tree->Array_0));
                            assert(decreases_to!(tree->Array_0 => tree->Array_0[n - 1]));
                        }
                        reversed.push(from_serde(item));
                    },
                    None => {
                        assert(false);
                    },
                }
            }
            let mut result: Vec<JsonValue> = Vec::new();
            while reversed.len() > 0
                invariant
                    result@.len() + reversed@.len() == all.len(),
                    forall|j: int|
                        0 <= j < reversed@.len() ==> (#[trigger] reversed@[j])@ == tree_of(
                            all[all.len() - 1 - j],
                        ),
                    forall|j: int|
                        0 <= j < result@.len() ==> (#[trigger] result@[j])@ == tree_of(all[j]),
                decreases reversed@.len(),
            {
                match reversed.pop() {
                    Some(item) => {
                        result.push(item);
                    },
                    None => {
                        assert(false);
                    },
                }
            }
            let result = JsonValue::Array(result);
            assert(result@->Array_0 =~= tree_of(value)->Array_0);
            result
        },
        Shape::Object(map) => JsonValue::Object(from_serde_map(map)),
    }
}


/// What is promised of reading the text of an object back: it is read as an object if it is nested
/// no deeper than can be read, and as the same one if moreover no number in it is kept as a
/// floating-point number.
pub open spec fn reads_back(object: Map<Seq<char>, Json>) -> bool {
    let tree = Json::Object(object);
    &&& tree.nested_within(MAX_NESTING as int) ==> parsed(text_of(tree)) is Some
    &&& tree.nested_within(MAX_NESTING as int) && tree.float_free() ==> parsed(text_of(tree))
        == Some(object)
}

/// The text of a tree.
pub fn write_tree(value: &JsonValue) -> (text: Vec<u8>)
    ensures
        text@ == text_of(value@),
        value@ matches Json::Object(object) ==> reads_back(object),
{
    let tree = to_serde(value);
    match to_vec(&tree) {
        Ok(text) => text,
        Err(_) => {
            assert(false);
            Vec::new()
        },
    }
}

/// The text of an object.
pub fn write_object(object: &JsonObject) -> (text: Vec<u8>)
    ensures
        text@ == text_of(Json::Object(object@)),
        reads_back(object@),
{
    let tree = put_together(Shape::Object(to_serde_map(object)));
    match to_vec(&tree) {
        Ok(text) => text,
        Err(_) => {
            assert(false);
            Vec::new()
        },
    }
}

/// The object that a text is read as, if it is the text of an object.
pub fn read_object(text: &[u8]) -> (result: Option<JsonObject>)
    ensures
        result is Some <==> parsed(text@) is Some,
        result matches Some(object) ==> parsed(text@) == Some(object@)
            && Json::Object(object@).nested_within(MAX_NESTING as int),
{
    match from_slice(text) {
        Ok(map) => Some(from_serde_map(map)),
        Err(_) => None,
    }
}

}
