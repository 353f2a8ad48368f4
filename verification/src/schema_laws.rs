//! What a schema has of its samples, and what it has not.

use crate::gridstore::Gridstore;
use crate::json::{Json, JsonValue};
use crate::mmap_payload_storage::MmapPayloadStorage;
use crate::optimize::OptimizeStep;
use crate::payload::Payload;
use vstd::prelude::*;

verus! {

/// There is no data in the tree: `false`, zero and the empty string alone, and at most one element
/// in an array.
pub open spec fn has_no_data(tree: Json) -> bool
    decreases tree,
{
    match tree {
        Json::Null => true,
        Json::Bool(b) => !b,
        Json::Number(number) => number == crate::json::number_of(0i32),
        Json::String(text) => text.len() == 0,
        Json::Array(items) => items.len() <= 1 && forall|i: int|
            0 <= i < items.len() ==> has_no_data(#[trigger] items[i]),
        Json::Object(map) => forall|k: Seq<char>| #[trigger]
            map.contains_key(k) ==> has_no_data(map[k]),
    }
}

/// The schema has every key that the sample has, and a first element for each array that has one,
/// all the way down, as far as the kinds are the same.
pub open spec fn covers(schema: Json, sample: Json) -> bool
    decreases sample,
{
    match (schema, sample) {
        (Json::Object(kept), Json::Object(map)) => forall|k: Seq<char>| #[trigger]
            map.contains_key(k) ==> kept.contains_key(k) && covers(kept[k], map[k]),
        (Json::Array(kept), Json::Array(items)) => items.len() > 0 ==> kept.len() > 0 && covers(
            kept[0],
            items[0],
        ),
        _ => true,
    }
}

/// The tree has what it had, and what the sample adds to it: no key and no element is there that
/// neither of them has, what is new has no data, and what the sample does not reach stays as it
/// was.
pub open spec fn is_made_of(tree: Json, before: Json, sample: Json) -> bool
    decreases sample,
{
    match (before, sample) {
        (Json::Object(kept), Json::Object(map)) => tree matches Json::Object(made) && forall|
            k: Seq<char>,
        | #[trigger]
            made.contains_key(k) ==> if kept.contains_key(k) && map.contains_key(k) {
                is_made_of(made[k], kept[k], map[k])
            } else if kept.contains_key(k) {
                made[k] == kept[k]
            } else {
                &&& map.contains_key(k)
                &&& has_no_data(made[k])
                &&& covers(map[k], made[k])
                &&& crate::schema::kinds_agree(made[k], map[k])
            },
        (Json::Array(kept), Json::Array(items)) => tree matches Json::Array(made) && if items.len()
            == 0 {
            made == kept
        } else if kept.len() == 0 {
            &&& made.len() == 1
            &&& has_no_data(made[0])
            &&& covers(items[0], made[0])
            &&& crate::schema::kinds_agree(made[0], items[0])
        } else {
            &&& made.len() == kept.len()
            &&& is_made_of(made[0], kept[0], items[0])
            &&& forall|i: int| 1 <= i < kept.len() ==> #[trigger] made[i] == kept[i]
        },
        _ => tree == before,
    }
}

/// The default has no data, and the structure of the value: the same kinds, keys and first
/// elements, and no others.
proof fn lemma_default(value: Json)
    ensures
        has_no_data(value.default_of()),
        covers(value.default_of(), value),
        covers(value, value.default_of()),
        crate::schema::kinds_agree(value.default_of(), value),
    decreases value,
{
    match value {
        Json::Array(items) => {
            if items.len() > 0 {
                lemma_default(items[0]);
            }
        },
        Json::Object(map) => {
            assert forall|k: Seq<char>| #[trigger] map.contains_key(k) implies {
                &&& has_no_data(map[k].default_of())
                &&& covers(map[k].default_of(), map[k])
                &&& covers(map[k], map[k].default_of())
                &&& crate::schema::kinds_agree(map[k].default_of(), map[k])
            } by {
                lemma_default(map[k]);
            }
        },
        _ => {},
    }
}

/// A tree covers itself.
proof fn lemma_covers_itself(tree: Json)
    ensures
        covers(tree, tree),
    decreases tree,
{
    match tree {
        Json::Array(items) => {
            if items.len() > 0 {
                lemma_covers_itself(items[0]);
            }
        },
        Json::Object(map) => {
            assert forall|k: Seq<char>| #[trigger] map.contains_key(k) implies covers(
                map[k],
                map[k],
            ) by {
                lemma_covers_itself(map[k]);
            }
        },
        _ => {},
    }
}

/// What a schema covers, it covers after one more sample.
proof fn lemma_merged_covers(schema: Json, sample: Json, other: Json)
    requires
        covers(schema, other),
    ensures
        covers(schema.merged(sample), other),
    decreases other,
{
    match (schema, sample, other) {
        (Json::Object(kept), Json::Object(map), Json::Object(others)) => {
            let merged = schema.merged(sample)->Object_0;
            assert forall|k: Seq<char>| #[trigger] others.contains_key(
                k,
            ) implies merged.contains_key(k) && covers(merged[k], others[k]) by {
                if map.contains_key(k) {
                    lemma_merged_covers(kept[k], map[k], others[k]);
                }
            }
        },
        (Json::Array(kept), Json::Array(items), Json::Array(others)) => {
            if items.len() > 0 && others.len() > 0 {
                lemma_merged_covers(kept[0], items[0], others[0]);
            }
        },
        _ => {},
    }
}

/// One more sample: the schema covers it and what it was, has no data of it, and nothing that comes
/// from neither.
proof fn lemma_merged(schema: Json, sample: Json)
    ensures
        covers(schema.merged(sample), sample),
        covers(schema.merged(sample), schema),
        is_made_of(schema.merged(sample), schema, sample),
        has_no_data(schema) ==> has_no_data(schema.merged(sample)),
    decreases sample,
{
    lemma_covers_itself(schema);
    lemma_merged_covers(schema, sample, schema);
    match (schema, sample) {
        (Json::Object(kept), Json::Object(map)) => {
            let merged = schema.merged(sample)->Object_0;
            assert forall|k: Seq<char>| #[trigger] map.contains_key(k) implies covers(
                merged[k],
                map[k],
            ) && merged.contains_key(k) && (kept.contains_key(k) ==> is_made_of(
                merged[k],
                kept[k],
                map[k],
            )) && (!kept.contains_key(k) ==> has_no_data(merged[k]) && covers(map[k], merged[k])
                && crate::schema::kinds_agree(merged[k], map[k])) && (has_no_data(schema)
                ==> has_no_data(merged[k])) by {
                if kept.contains_key(k) {
                    lemma_merged(kept[k], map[k]);
                } else {
                    lemma_default(map[k]);
                }
            }
        },
        (Json::Array(kept), Json::Array(items)) => {
            if items.len() > 0 {
                if kept.len() == 0 {
                    lemma_default(items[0]);
                } else {
                    lemma_merged(kept[0], items[0]);
                }
            }
        },
        _ => {},
    }
}

/// The default of a value has no data, and the structure of the value: the same kinds, keys and
/// first elements, and no others.
pub proof fn law_default_value(value: &JsonValue, result: JsonValue)
    requires
        call_ensures(crate::schema::default_value, (value,), result),
    ensures
        has_no_data(result@),
        covers(result@, value@),
        covers(value@, result@),
        crate::schema::kinds_agree(result@, value@),
{
    lemma_default(value@);
}

/// A sample that was taken up into a schema is covered by it, as is all that the schema was. There
/// is nothing in the schema that comes from neither, and no data of the sample.
pub proof fn law_merge_into_schema(schema: &mut JsonValue, sample: &JsonValue)
    requires
        call_ensures(crate::schema::merge_into_schema, (schema, sample), ()),
    ensures
        covers(final(schema)@, sample@),
        covers(final(schema)@, old(schema)@),
        is_made_of(final(schema)@, old(schema)@, sample@),
        has_no_data(old(schema)@) ==> has_no_data(final(schema)@),
{
    lemma_merged(old(schema)@, sample@);
}

/// The payload of a point of a sample, as a tree.
pub open spec fn sampled(store: Gridstore<Payload>, offset: usize) -> Option<Json> {
    match store.cell(offset as int) {
        Ok(Some(record)) => Some(Json::Object(crate::text::parsed(record.bytes)->0)),
        _ => None,
    }
}

/// The schema of a sample covers each of its payloads, and has no data.
proof fn lemma_schema_of(store: Gridstore<Payload>, offsets: Seq<usize>)
    ensures
        crate::optimize::schema_of(store, offsets) is Object,
        has_no_data(crate::optimize::schema_of(store, offsets)),
        forall|i: int|
            0 <= i < offsets.len() ==> (sampled(store, #[trigger] offsets[i]) matches Some(tree)
                ==> covers(crate::optimize::schema_of(store, offsets), tree)),
        forall|k: Seq<char>| #[trigger]
            crate::optimize::schema_of(store, offsets)->Object_0.contains_key(k) ==> exists|i: int|
                0 <= i < offsets.len() && (sampled(store, #[trigger] offsets[i]) matches Some(
                    Json::Object(map),
                ) && map.contains_key(k)),
    decreases offsets.len(),
{
    if offsets.len() > 0 {
        let front = offsets.drop_last();
        let before = crate::optimize::schema_of(store, front);
        let schema = crate::optimize::schema_of(store, offsets);
        lemma_schema_of(store, front);
        if let Some(tree) = sampled(store, offsets.last()) {
            lemma_merged(before, tree);
            assert forall|i: int| 0 <= i < offsets.len() implies (sampled(
                store,
                #[trigger] offsets[i],
            ) matches Some(other) ==> covers(schema, other)) by {
                if let Some(other) = sampled(store, offsets[i]) {
                    if i < front.len() {
                        assert(front[i] == offsets[i]);
                        lemma_merged_covers(before, tree, other);
                    }
                }
            }
        } else {
            assert forall|i: int| 0 <= i < offsets.len() implies (sampled(
                store,
                #[trigger] offsets[i],
            ) matches Some(other) ==> covers(schema, other)) by {
                if i < front.len() {
                    assert(front[i] == offsets[i]);
                }
            }
        }
        assert forall|k: Seq<char>| #[trigger] schema->Object_0.contains_key(k) implies exists|
            i: int,
        |
            0 <= i < offsets.len() && (sampled(store, #[trigger] offsets[i]) matches Some(
                Json::Object(map),
            ) && map.contains_key(k)) by {
            if before->Object_0.contains_key(k) {
                let j = choose|j: int|
                    0 <= j < front.len() && (sampled(store, #[trigger] front[j]) matches Some(
                        Json::Object(map),
                    ) && map.contains_key(k));
                assert(offsets[j] == front[j]);
            } else {
                assert(sampled(store, offsets[offsets.len() - 1]) is Some);
            }
        }
    }
}

/// A dictionary is the text of an object that covers every payload that it was trained on, has no
/// data of them, and no key that none of them has.
pub proof fn law_dictionary_is_a_schema(
    storage: &MmapPayloadStorage,
    offsets: &[usize],
    dictionary: Vec<u8>,
) -> (schema: Map<Seq<char>, Json>)
    requires
        call_ensures(MmapPayloadStorage::train_dictionary, (storage, offsets), dictionary),
    ensures
        dictionary@ == crate::text::text_of(Json::Object(schema)),
        crate::storing_laws::is_plain(schema) ==> crate::text::parsed(dictionary@) == Some(schema),
        has_no_data(Json::Object(schema)),
        forall|i: int|
            0 <= i < offsets@.len() ==> (sampled(
                storage.store(),
                #[trigger] offsets@[i],
            ) matches Some(tree) ==> covers(Json::Object(schema), tree)),
        forall|k: Seq<char>| #[trigger]
            schema.contains_key(k) ==> exists|i: int|
                0 <= i < offsets@.len() && (sampled(
                    storage.store(),
                    #[trigger] offsets@[i],
                ) matches Some(Json::Object(map)) && map.contains_key(k)),
{
    lemma_schema_of(storage.store(), offsets@);
    crate::optimize::schema_of(storage.store(), offsets@)->Object_0
}

/// The dictionary that an optimization starts with is the text of an object that covers every
/// payload of the sample, and has no data of them.
pub proof fn law_optimization_trains_on_the_sample(
    storage: &MmapPayloadStorage,
    offsets: &[usize],
    step: OptimizeStep,
) -> (schema: Map<Seq<char>, Json>)
    requires
        call_ensures(MmapPayloadStorage::start_optimize, (storage, offsets), step),
        offsets@.len() > 0,
    ensures
        step matches OptimizeStep::CreateDirectory { dictionary } && dictionary@
            == crate::text::text_of(Json::Object(schema)),
        has_no_data(Json::Object(schema)),
        forall|i: int|
            0 <= i < offsets@.len() ==> (sampled(
                storage.store(),
                #[trigger] offsets@[i],
            ) matches Some(tree) ==> covers(Json::Object(schema), tree)),
{
    lemma_schema_of(storage.store(), offsets@);
    crate::optimize::schema_of(storage.store(), offsets@)->Object_0
}

}
