//! JSON trees, their mathematical model, and the schema that a dictionary is trained from.

use vstd::prelude::*;

verus! {

/// The number type of `serde_json`. It is carried through and never looked into.
#[verifier::external_type_specification]
#[verifier::external_body]
pub struct ExNumber(serde_json::Number);

/// The JSON number that stands for an integer.
pub uninterp spec fn number_of(i: i32) -> serde_json::Number;

/// The number is kept as a floating-point number.
pub uninterp spec fn is_float(number: serde_json::Number) -> bool;

/// `<serde_json::Number as From<i32>>::from`: the JSON number of an integer, which is not kept as
/// a floating-point number.
#[verifier::external_body]
pub(crate) fn number_from(i: i32) -> (n: serde_json::Number)
    ensures
        n == number_of(i),
        !is_float(n),
{
    serde_json::Number::from(i)
}

/// `serde_json::Number::is_f64`: whether the number is kept as a floating-point number.
pub assume_specification[ serde_json::Number::is_f64 ](
    number: &serde_json::Number,
) -> (result: bool)
    ensures
        result == is_float(*number),
;

/// `<serde_json::Number as Clone>::clone`: the same number once more.
pub assume_specification[ <serde_json::Number as Clone>::clone ](
    number: &serde_json::Number,
) -> (result: serde_json::Number)
    ensures
        result == *number,
;

/// A JSON tree as a mathematical value. Strings are sequences of characters and an object maps
/// each of its keys to one value.
#[verifier::ext_equal]
pub enum Json {
    Null,
    Bool(bool),
    Number(serde_json::Number),
    String(Seq<char>),
    Array(Seq<Json>),
    Object(Map<Seq<char>, Json>),
}

/// A JSON tree.
#[derive(Debug)]
pub enum JsonValue {
    Null,
    Bool(bool),
    Number(serde_json::Number),
    String(String),
    Array(Vec<JsonValue>),
    Object(JsonObject),
}

/// A JSON object: entries with keys that differ from each other.
#[derive(Debug)]
pub struct JsonObject {
    pub(crate) entries: Vec<(String, JsonValue)>,
}

/// The entries of an empty object.
pub open spec fn no_entries() -> Map<Seq<char>, Json> {
    Map::empty()
}

/// The map that a list of entries stands for.
pub open spec fn entries_map(entries: Seq<(String, JsonValue)>) -> Map<Seq<char>, Json>
    decreases entries,
{
    if entries.len() == 0 {
        Map::empty()
    } else {
        entries_map(entries.drop_last()).insert(entries.last().0@, entries.last().1@)
    }
}

/// No key occurs twice.
pub open spec fn keys_differ(entries: Seq<(String, JsonValue)>) -> bool {
    forall|i: int, j: int|
        0 <= i < j < entries.len() ==> (#[trigger] entries[i]).0@ != (#[trigger] entries[j]).0@
}

impl View for JsonValue {
    type V = Json;

    open spec fn view(&self) -> Json
        decreases self,
    {
        match self {
            JsonValue::Null => Json::Null,
            JsonValue::Bool(b) => Json::Bool(*b),
            JsonValue::Number(n) => Json::Number(*n),
            JsonValue::String(s) => Json::String(s@),
            JsonValue::Array(items) => Json::Array(
                Seq::new(
                    items@.len(),
                    |i: int|
                        if 0 <= i < items@.len() {
                            items@[i]@
                        } else {
                            Json::Null
                        },
                ),
            ),
            JsonValue::Object(object) => Json::Object(object@),
        }
    }
}

impl View for JsonObject {
    type V = Map<Seq<char>, Json>;

    open(crate) spec fn view(&self) -> Map<Seq<char>, Json>
        decreases self,
    {
        entries_map(self.entries@)
    }
}

impl JsonObject {
    #[verifier::type_invariant]
    pub(crate) open spec fn well_formed(self) -> bool {
        keys_differ(self.entries@)
    }
}

impl Json {
    /// Arrays and objects are nested at most so deep.
    pub open spec fn nested_within(self, limit: int) -> bool
        decreases self,
    {
        match self {
            Json::Array(items) => {
                &&& limit >= 1
                &&& forall|i: int|
                    0 <= i < items.len() ==> (#[trigger] items[i]).nested_within(limit - 1)
            },
            Json::Object(map) => {
                &&& limit >= 1
                &&& forall|k: Seq<char>| #[trigger]
                    map.contains_key(k) ==> map[k].nested_within(limit - 1)
            },
            _ => true,
        }
    }

    /// No number in the tree is kept as a floating-point number.
    pub open spec fn float_free(self) -> bool
        decreases self,
    {
        match self {
            Json::Number(number) => !is_float(number),
            Json::Array(items) => forall|i: int|
                0 <= i < items.len() ==> (#[trigger] items[i]).float_free(),
            Json::Object(map) => forall|k: Seq<char>| #[trigger]
                map.contains_key(k) ==> map[k].float_free(),
            _ => true,
        }
    }

    /// The value of the same kind that carries no data: `false`, zero, the empty string, an array
    /// of the default of its first element, an object of the defaults of its entries.
    pub open spec fn default_of(self) -> Json
        decreases self,
    {
        match self {
            Json::Null => Json::Null,
            Json::Bool(_) => Json::Bool(false),
            Json::Number(_) => Json::Number(number_of(0i32)),
            Json::String(_) => Json::String(Seq::empty()),
            Json::Array(items) => if items.len() > 0 {
                Json::Array(seq![items[0].default_of()])
            } else {
                Json::Array(Seq::empty())
            },
            Json::Object(map) => Json::Object(
                Map::new(
                    |k: Seq<char>| map.contains_key(k),
                    |k: Seq<char>|
                        if map.contains_key(k) {
                            map[k].default_of()
                        } else {
                            Json::Null
                        },
                ),
            ),
        }
    }

    /// The schema after one more sample. Objects take up the keys they did not have, an array
    /// without a representative takes one up, and where the kinds differ the schema stays.
    pub open spec fn merged(self, sample: Json) -> Json
        decreases sample,
    {
        match (self, sample) {
            (Json::Object(schema), Json::Object(map)) => Json::Object(
                Map::new(
                    |k: Seq<char>| schema.contains_key(k) || map.contains_key(k),
                    |k: Seq<char>|
                        if !map.contains_key(k) {
                            schema[k]
                        } else if schema.contains_key(k) {
                            schema[k].merged(map[k])
                        } else {
                            map[k].default_of()
                        },
                ),
            ),
            (Json::Array(schema), Json::Array(items)) => if items.len() == 0 {
                self
            } else if schema.len() == 0 {
                Json::Array(seq![items[0].default_of()])
            } else {
                Json::Array(schema.update(0, schema[0].merged(items[0])))
            },
            _ => self,
        }
    }
}


/// A key is in the map of a list of entries if and only if one of the entries has it.
pub proof fn lemma_entries_key(entries: Seq<(String, JsonValue)>, key: Seq<char>)
    ensures
        entries_map(entries).contains_key(key) <==> exists|i: int|
            0 <= i < entries.len() && (#[trigger] entries[i]).0@ == key,
    decreases entries.len(),
{
    reveal_with_fuel(entries_map, 2);
    if entries.len() > 0 {
        let front = entries.drop_last();
        lemma_entries_key(front, key);
        if entries.last().0@ == key {
            assert(entries[entries.len() - 1].0@ == key);
        } else if entries_map(front).contains_key(key) {
            let i = choose|i: int| 0 <= i < front.len() && (#[trigger] front[i]).0@ == key;
            assert(entries[i].0@ == key);
        } else {
            assert forall|i: int| 0 <= i < entries.len() implies (#[trigger] entries[i]).0@
                != key by {
                if i < front.len() {
                    assert(front[i].0@ != key);
                }
            }
        }
    }
}

/// Where no key occurs twice, each entry's value is the one at its key.
pub proof fn lemma_entries_at(entries: Seq<(String, JsonValue)>, i: int)
    requires
        keys_differ(entries),
        0 <= i < entries.len(),
    ensures
        entries_map(entries).contains_key(entries[i].0@),
        entries_map(entries)[entries[i].0@] == entries[i].1@,
    decreases entries.len(),
{
    reveal_with_fuel(entries_map, 2);
    if i < entries.len() - 1 {
        let front = entries.drop_last();
        assert(keys_differ(front));
        lemma_entries_at(front, i);
        assert(front[i] == entries[i]);
        assert(entries[i].0@ != entries[entries.len() - 1].0@);
    }
}

/// Where no key occurs twice, another value in one entry changes the map at its key alone.
pub proof fn lemma_entries_update(entries: Seq<(String, JsonValue)>, i: int, value: JsonValue)
    requires
        keys_differ(entries),
        0 <= i < entries.len(),
    ensures
        keys_differ(entries.update(i, (entries[i].0, value))),
        entries_map(entries.update(i, (entries[i].0, value))) == entries_map(entries).insert(
            entries[i].0@,
            value@,
        ),
    decreases entries.len(),
{
    reveal_with_fuel(entries_map, 2);
    let updated = entries.update(i, (entries[i].0, value));
    let front = entries.drop_last();
    if i < entries.len() - 1 {
        lemma_entries_update(front, i, value);
        assert(updated.drop_last() =~= front.update(i, (front[i].0, value)));
        assert(entries[i].0@ != entries[entries.len() - 1].0@);
    } else {
        assert(updated.drop_last() =~= front);
    }
    assert(entries_map(updated) =~= entries_map(entries).insert(entries[i].0@, value@));
}

impl JsonObject {
    /// An object without entries.
    pub fn new() -> (object: JsonObject)
        ensures
            object@ == no_entries(),
    {
        JsonObject { entries: Vec::new() }
    }

    /// The entries, each key once.
    pub fn entries(&self) -> (entries: &Vec<(String, JsonValue)>)
        ensures
            keys_differ(entries@),
            entries_map(entries@) == self@,
    {
        proof {
            use_type_invariant(self);
        }
        &self.entries
    }

    /// Where the entry with a key stands, if there is one.
    pub(crate) fn position(&self, key: &String) -> (found: Option<usize>)
        ensures
            found is Some <==> self@.contains_key(key@),
            found matches Some(i) ==> i < self.entries@.len() && self.entries@[i as int].0@ == key@,
    {
        let mut i: usize = 0;
        while i < self.entries.len()
            invariant
                i <= self.entries.len(),
                forall|j: int| 0 <= j < i ==> (#[trigger] self.entries@[j]).0@ != key@,
            decreases self.entries.len() - i,
        {
            if self.entries[i].0 == *key {
                proof {
                    lemma_entries_key(self.entries@, key@);
                }
                return Some(i);
            }
            i += 1;
        }
        proof {
            lemma_entries_key(self.entries@, key@);
        }
        None
    }

    /// The value at a key, if there is one.
    pub fn get(&self, key: &String) -> (value: Option<&JsonValue>)
        ensures
            value is Some <==> self@.contains_key(key@),
            value matches Some(v) ==> v@ == self@[key@],
    {
        proof {
            use_type_invariant(self);
        }
        match self.position(key) {
            Some(i) => {
                proof {
                    lemma_entries_at(self.entries@, i as int);
                }
                Some(&self.entries[i].1)
            },
            None => None,
        }
    }

    /// Puts a value at a key and hands back the one that stood there.
    pub fn insert(&mut self, key: String, value: JsonValue) -> (replaced: Option<JsonValue>)
        ensures
            final(self)@ == old(self)@.insert(key@, value@),
            replaced is Some <==> old(self)@.contains_key(key@),
            replaced matches Some(v) ==> v@ == old(self)@[key@],
    {
        proof {
            use_type_invariant(&*self);
        }
        let found = self.position(&key);
        let mut entries: Vec<(String, JsonValue)> = Vec::new();
        std::mem::swap(&mut self.entries, &mut entries);
        let ghost before = entries@;
        let mut value = value;
        let replaced = match found {
            Some(i) => {
                proof {
                    lemma_entries_at(before, i as int);
                    lemma_entries_update(before, i as int, value);
                }
                let ghost new_value = value;
                std::mem::swap(&mut entries[i].1, &mut value);
                assert(entries@ =~= before.update(i as int, (before[i as int].0, new_value)));
                Some(value)
            },
            None => {
                proof {
                    lemma_entries_key(before, key@);
                }
                entries.push((key, value));
                assert(entries@.drop_last() =~= before);
                None
            },
        };
        self.entries = entries;
        replaced
    }

    /// Takes the value at a key away and hands it back.
    pub fn remove(&mut self, key: &String) -> (removed: Option<JsonValue>)
        ensures
            final(self)@ == old(self)@.remove(key@),
            removed is Some <==> old(self)@.contains_key(key@),
            removed matches Some(v) ==> v@ == old(self)@[key@],
    {
        proof {
            use_type_invariant(&*self);
        }
        match self.position(key) {
            Some(i) => {
                let mut entries: Vec<(String, JsonValue)> = Vec::new();
                std::mem::swap(&mut self.entries, &mut entries);
                proof {
                    lemma_entries_at(entries@, i as int);
                    lemma_entries_remove(entries@, i as int);
                }
                let (_, value) = entries.remove(i);
                self.entries = entries;
                Some(value)
            },
            None => {
                assert(self@.remove(key@) =~= self@);
                None
            },
        }
    }
}

/// Where no key occurs twice, the entries without one are the map without its key.
pub proof fn lemma_entries_remove(entries: Seq<(String, JsonValue)>, i: int)
    requires
        keys_differ(entries),
        0 <= i < entries.len(),
    ensures
        keys_differ(entries.remove(i)),
        entries_map(entries.remove(i)) == entries_map(entries).remove(entries[i].0@),
{
    let rest = entries.remove(i);
    let key = entries[i].0@;
    assert forall|a: int, b: int| 0 <= a < b < rest.len() implies (#[trigger] rest[a]).0@ != (
    #[trigger] rest[b]).0@ by {
        let a_before = if a < i { a } else { a + 1 };
        let b_before = if b < i { b } else { b + 1 };
        assert(entries[a_before].0@ != entries[b_before].0@);
    }
    assert forall|k: Seq<char>| #[trigger] entries_map(rest).contains_key(k) <==> entries_map(
        entries,
    ).contains_key(k) && k != key by {
        lemma_entries_key(rest, k);
        lemma_entries_key(entries, k);
        if entries_map(rest).contains_key(k) {
            let a = choose|a: int| 0 <= a < rest.len() && (#[trigger] rest[a]).0@ == k;
            let a_before = if a < i { a } else { a + 1 };
            assert(entries[a_before].0@ == k);
            assert(entries[i].0@ == key);
        }
        if entries_map(entries).contains_key(k) && k != key {
            let a = choose|a: int| 0 <= a < entries.len() && (#[trigger] entries[a]).0@ == k;
            let a_after = if a < i { a } else { a - 1 };
            assert(rest[a_after].0@ == k);
        }
    }
    assert forall|k: Seq<char>| #[trigger] entries_map(rest).contains_key(k) implies entries_map(
        rest,
    )[k] == entries_map(entries)[k] by {
        lemma_entries_key(rest, k);
        let a = choose|a: int| 0 <= a < rest.len() && (#[trigger] rest[a]).0@ == k;
        let a_before = if a < i { a } else { a + 1 };
        lemma_entries_at(rest, a);
        lemma_entries_at(entries, a_before);
        assert(rest[a] == entries[a_before]);
    }
    assert(entries_map(rest) =~= entries_map(entries).remove(key));
}

/// Arrays are nested within a limit if and only if their items are, one level further in.
proof fn lemma_array_within(items: Seq<JsonValue>, value: JsonValue, limit: int)
    requires
        value is Array,
        value->Array_0@ == items,
    ensures
        value@.nested_within(limit) <==> limit >= 1 && forall|i: int|
            0 <= i < items.len() ==> (#[trigger] items[i])@.nested_within(limit - 1),
        value@.float_free() <==> forall|i: int|
            0 <= i < items.len() ==> (#[trigger] items[i])@.float_free(),
{
    let trees = value@->Array_0;
    assert forall|i: int| 0 <= i < items.len() implies #[trigger] trees[i] == items[i]@ by {}
    if limit >= 1 && forall|i: int|
        0 <= i < items.len() ==> (#[trigger] items[i])@.nested_within(limit - 1) {
        assert forall|i: int| 0 <= i < trees.len() implies (#[trigger] trees[i]).nested_within(
            limit - 1,
        ) by {
            assert(items[i]@.nested_within(limit - 1));
        }
    }
    if value@.nested_within(limit) {
        assert forall|i: int| 0 <= i < items.len() implies (#[trigger] items[i])@.nested_within(
            limit - 1,
        ) by {
            assert(trees[i].nested_within(limit - 1));
        }
    }
    if forall|i: int| 0 <= i < items.len() ==> (#[trigger] items[i])@.float_free() {
        assert forall|i: int| 0 <= i < trees.len() implies (#[trigger] trees[i]).float_free() by {
            assert(items[i]@.float_free());
        }
    }
    if value@.float_free() {
        assert forall|i: int| 0 <= i < items.len() implies (#[trigger] items[i])@.float_free() by {
            assert(trees[i].float_free());
        }
    }
}

/// Objects are nested within a limit if and only if their entries are, one level further in.
proof fn lemma_object_within(object: JsonObject, limit: int)
    requires
        keys_differ(object.entries@),
    ensures
        Json::Object(object@).nested_within(limit) <==> limit >= 1 && forall|i: int|
            0 <= i < object.entries@.len() ==> (#[trigger] object.entries@[i]).1@.nested_within(
                limit - 1,
            ),
        Json::Object(object@).float_free() <==> forall|i: int|
            0 <= i < object.entries@.len() ==> (#[trigger] object.entries@[i]).1@.float_free(),
{
    let entries = object.entries@;
    let map = object@;
    assert forall|i: int| 0 <= i < entries.len() implies map.contains_key(
        (#[trigger] entries[i]).0@,
    ) && map[entries[i].0@] == entries[i].1@ by {
        lemma_entries_at(entries, i);
    }
    let tree = Json::Object(map);
    assert(tree->Object_0 == map);
    if tree.nested_within(limit) {
        assert forall|i: int| 0 <= i < entries.len() implies (
        #[trigger] entries[i]).1@.nested_within(limit - 1) by {
            assert(tree->Object_0.contains_key(entries[i].0@));
        }
    }
    if tree.float_free() {
        assert forall|i: int| 0 <= i < entries.len() implies (
        #[trigger] entries[i]).1@.float_free() by {
            assert(tree->Object_0.contains_key(entries[i].0@));
        }
    }
    if limit >= 1 && forall|i: int|
        0 <= i < entries.len() ==> (#[trigger] entries[i]).1@.nested_within(limit - 1) {
        assert forall|k: Seq<char>| #[trigger] map.contains_key(k) implies map[k].nested_within(
            limit - 1,
        ) by {
            lemma_entries_key(entries, k);
            let i = choose|i: int| 0 <= i < entries.len() && (#[trigger] entries[i]).0@ == k;
            assert(entries[i].1@.nested_within(limit - 1));
        }
    }
    if forall|i: int| 0 <= i < entries.len() ==> (#[trigger] entries[i]).1@.float_free() {
        assert forall|k: Seq<char>| #[trigger] map.contains_key(k) implies map[k].float_free() by {
            lemma_entries_key(entries, k);
            let i = choose|i: int| 0 <= i < entries.len() && (#[trigger] entries[i]).0@ == k;
            assert(entries[i].1@.float_free());
        }
    }
}

impl JsonValue {
    /// Whether arrays and objects are nested at most so deep.
    pub fn is_nested_within(&self, limit: usize) -> (result: bool)
        ensures
            result == self@.nested_within(limit as int),
        decreases self, 0int,
    {
        match self {
            JsonValue::Array(items) => {
                proof {
                    lemma_array_within(items@, *self, limit as int);
                }
                if limit == 0 {
                    return false;
                }
                let mut i: usize = 0;
                while i < items.len()
                    invariant
                        i <= items@.len(),
                        limit > 0,
                        self == JsonValue::Array(*items),
                        self@.nested_within(limit as int) <==> forall|j: int|
                            0 <= j < items@.len() ==> (#[trigger] items@[j])@.nested_within(
                                limit - 1,
                            ),
                        forall|j: int|
                            0 <= j < i ==> (#[trigger] items@[j])@.nested_within(limit - 1),
                    decreases items@.len() - i,
                {
                    proof {
                        assert(decreases_to!(self => self->Array_0));
                        assert(decreases_to!(items => items@));
                        assert(decreases_to!(items@ => items@[i as int]));
                    }
                    if !items[i].is_nested_within(limit - 1) {
                        return false;
                    }
                    i += 1;
                }
                true
            },
            JsonValue::Object(object) => object.is_nested_within(limit),
            _ => true,
        }
    }

    /// Whether no number in the tree is kept as a floating-point number.
    pub fn is_float_free(&self) -> (result: bool)
        ensures
            result == self@.float_free(),
        decreases self, 0int,
    {
        match self {
            JsonValue::Number(number) => !number.is_f64(),
            JsonValue::Array(items) => {
                proof {
                    lemma_array_within(items@, *self, 0);
                }
                let mut i: usize = 0;
                while i < items.len()
                    invariant
                        i <= items@.len(),
                        self == JsonValue::Array(*items),
                        self@.float_free() <==> forall|j: int|
                            0 <= j < items@.len() ==> (#[trigger] items@[j])@.float_free(),
                        forall|j: int| 0 <= j < i ==> (#[trigger] items@[j])@.float_free(),
                    decreases items@.len() - i,
                {
                    proof {
                        assert(decreases_to!(self => self->Array_0));
                        assert(decreases_to!(items => items@));
                        assert(decreases_to!(items@ => items@[i as int]));
                    }
                    if !items[i].is_float_free() {
                        return false;
                    }
                    i += 1;
                }
                true
            },
            JsonValue::Object(object) => object.is_float_free(),
            _ => true,
        }
    }
}

impl JsonObject {
    /// Whether arrays and objects are nested at most so deep, this object being the first level.
    pub fn is_nested_within(&self, limit: usize) -> (result: bool)
        ensures
            result == Json::Object(self@).nested_within(limit as int),
        decreases self, 1int,
    {
        proof {
            use_type_invariant(self);
            lemma_object_within(*self, limit as int);
        }
        if limit == 0 {
            return false;
        }
        let mut i: usize = 0;
        while i < self.entries.len()
            invariant
                i <= self.entries@.len(),
                limit > 0,
                Json::Object(self@).nested_within(limit as int) <==> forall|j: int|
                    0 <= j < self.entries@.len() ==> (
                    #[trigger] self.entries@[j]).1@.nested_within(limit - 1),
                forall|j: int|
                    0 <= j < i ==> (#[trigger] self.entries@[j]).1@.nested_within(limit - 1),
            decreases self.entries@.len() - i,
        {
            proof {
                assert(decreases_to!(self => self.entries));
                assert(decreases_to!(self.entries => self.entries@));
                assert(decreases_to!(self.entries@ => self.entries@[i as int]));
                assert(decreases_to!(self.entries@[i as int] => self.entries@[i as int].1));
            }
            if !self.entries[i].1.is_nested_within(limit - 1) {
                return false;
            }
            i += 1;
        }
        true
    }

    /// Whether no number in the object is kept as a floating-point number.
    pub fn is_float_free(&self) -> (result: bool)
        ensures
            result == Json::Object(self@).float_free(),
        decreases self, 1int,
    {
        proof {
            use_type_invariant(self);
            lemma_object_within(*self, 0);
        }
        let mut i: usize = 0;
        while i < self.entries.len()
            invariant
                i <= self.entries@.len(),
                Json::Object(self@).float_free() <==> forall|j: int|
                    0 <= j < self.entries@.len() ==> (#[trigger] self.entries@[j]).1@.float_free(),
                forall|j: int| 0 <= j < i ==> (#[trigger] self.entries@[j]).1@.float_free(),
            decreases self.entries@.len() - i,
        {
            proof {
                assert(decreases_to!(self => self.entries));
                assert(decreases_to!(self.entries => self.entries@));
                assert(decreases_to!(self.entries@ => self.entries@[i as int]));
                assert(decreases_to!(self.entries@[i as int] => self.entries@[i as int].1));
            }
            if !self.entries[i].1.is_float_free() {
                return false;
            }
            i += 1;
        }
        true
    }
}

}
