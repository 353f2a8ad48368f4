//! The schema of a set of JSON samples: the keys that occur in them, with zeroed leaves.

use crate::json::{Json, JsonObject, JsonValue};
use vstd::prelude::*;

verus! {

/// The entries in front of the last give the map without the last.
proof fn lemma_prefix(entries: Seq<(String, JsonValue)>, n: int)
    requires
        0 <= n < entries.len(),
    ensures
        crate::json::entries_map(entries.take(n + 1)) == crate::json::entries_map(
            entries.take(n),
        ).insert(entries[n].0@, entries[n].1@),
{
    assert(entries.take(n + 1).drop_last() =~= entries.take(n));
}

/// The default of a value: the same kind, with no data in it.
pub fn default_value(value: &JsonValue) -> (result: JsonValue)
    ensures
        result@ == value@.default_of(),
    decreases value,
{
    match value {
        JsonValue::Null => JsonValue::Null,
        JsonValue::Bool(_) => JsonValue::Bool(false),
        JsonValue::Number(_) => JsonValue::Number(crate::json::number_from(0)),
        JsonValue::String(_) => {
            let result = JsonValue::String(String::new());
            assert(result@->String_0 =~= Seq::<char>::empty());
            result
        },
        JsonValue::Array(items) => {
            let mut defaults: Vec<JsonValue> = Vec::new();
            if items.len() > 0 {
                defaults.push(default_value(&items[0]));
            }
            let result = JsonValue::Array(defaults);
            assert(result@->Array_0 =~= value@.default_of()->Array_0);
            result
        },
        JsonValue::Object(object) => {
            proof {
                use_type_invariant(object);
            }
            let mut entries: Vec<(String, JsonValue)> = Vec::new();
            let mut i: usize = 0;
            assert(Json::Object(crate::json::entries_map(entries@)) == Json::Object(
                crate::json::entries_map(object.entries@.take(i as int)),
            ).default_of()) by {
                assert(object.entries@.take(0) =~= Seq::empty());
                assert(crate::json::entries_map(entries@) =~= (Json::Object(
                    crate::json::entries_map(object.entries@.take(0)),
                ).default_of())->Object_0);
            }
            while i < object.entries.len()
                invariant
                    i <= object.entries.len(),
                    value == JsonValue::Object(*object),
                    crate::json::keys_differ(object.entries@),
                    entries.len() == i,
                    forall|j: int|
                        0 <= j < i ==> (#[trigger] entries[j]).0@ == object.entries[j].0@,
                    Json::Object(crate::json::entries_map(entries@)) == Json::Object(
                        crate::json::entries_map(object.entries@.take(i as int)),
                    ).default_of(),
                decreases object.entries.len() - i,
            {
                let ghost before = entries@;
                let key = object.entries[i].0.clone();
                proof {
                    lemma_child_decreases(value, i as int);
                }
                let item = default_value(&object.entries[i].1);
                entries.push((key, item));
                proof {
                    lemma_prefix(object.entries@, i as int);
                    assert(entries@.drop_last() =~= before);
                    assert(crate::json::entries_map(entries@) =~= (Json::Object(
                        crate::json::entries_map(object.entries@.take(i + 1)),
                    ).default_of())->Object_0);
                }
                i += 1;
            }
            assert(object.entries@.take(i as int) =~= object.entries@);
            let result = JsonObject { entries };
            assert(value@ == Json::Object(object@));
            assert(result@ == crate::json::entries_map(result.entries@));
            JsonValue::Object(result)
        },
    }
}


/// An object of the schema after the entries of a sample.
spec fn merged_entries(
    schema: Map<Seq<char>, Json>,
    entries: Seq<(String, JsonValue)>,
) -> Map<Seq<char>, Json> {
    Json::Object(schema).merged(Json::Object(crate::json::entries_map(entries)))->Object_0
}

/// A value is larger than what stands in its entries.
proof fn lemma_child_decreases(value: &JsonValue, i: int)
    requires
        value is Object,
        0 <= i < value->Object_0.entries@.len(),
    ensures
        decreases_to!(value => value->Object_0.entries@[i].1),
{
    let object = value->Object_0;
    assert(decreases_to!(value => value->Object_0));
    assert(decreases_to!(object => object.entries));
    assert(decreases_to!(object.entries => object.entries@));
    assert(decreases_to!(object.entries@ => object.entries@[i]));
    assert(decreases_to!(object.entries@[i] => object.entries@[i].1));
}

/// One more entry of the sample changes the schema at that entry's key alone.
proof fn lemma_merge_step(
    schema: Map<Seq<char>, Json>,
    entries: Seq<(String, JsonValue)>,
    n: int,
)
    requires
        crate::json::keys_differ(entries),
        0 <= n < entries.len(),
    ensures
        ({
            let before = merged_entries(schema, entries.take(n));
            let key = entries[n].0@;
            merged_entries(schema, entries.take(n + 1)) == before.insert(
                key,
                if before.contains_key(key) {
                    before[key].merged(entries[n].1@)
                } else {
                    entries[n].1@.default_of()
                },
            )
        }),
{
    let before = merged_entries(schema, entries.take(n));
    let key = entries[n].0@;
    lemma_prefix(entries, n);
    crate::json::lemma_entries_key(entries.take(n), key);
    assert(merged_entries(schema, entries.take(n + 1)) =~= before.insert(
        key,
        if before.contains_key(key) {
            before[key].merged(entries[n].1@)
        } else {
            entries[n].1@.default_of()
        },
    ));
}

/// Takes one entry of a sample up into an object of the schema.
fn merge_entry(schema: &mut JsonObject, key: &String, value: &JsonValue)
    ensures
        final(schema)@ == old(schema)@.insert(
            key@,
            if old(schema)@.contains_key(key@) {
                old(schema)@[key@].merged(value@)
            } else {
                value@.default_of()
            },
        ),
    decreases value, 1int,
{
    match schema.position(key) {
        Some(i) => {
            proof {
                use_type_invariant(&*schema);
            }
            let mut entries: Vec<(String, JsonValue)> = Vec::new();
            std::mem::swap(&mut schema.entries, &mut entries);
            let ghost before = entries@;
            proof {
                crate::json::lemma_entries_at(before, i as int);
            }
            merge_into_schema(&mut entries[i].1, value);
            proof {
                let after = entries@[i as int].1;
                crate::json::lemma_entries_update(before, i as int, after);
                assert(entries@ =~= before.update(i as int, (before[i as int].0, after)));
            }
            schema.entries = entries;
        },
        None => {
            schema.insert(key.clone(), default_value(value));
        },
    }
}

/// Takes a sample up into the schema.
pub fn merge_into_schema(schema: &mut JsonValue, sample: &JsonValue)
    ensures
        final(schema)@ == old(schema)@.merged(sample@),
    decreases sample, 0int,
{
    match (schema, sample) {
        (JsonValue::Object(object), JsonValue::Object(entries)) => {
            proof {
                use_type_invariant(entries);
            }
            let ghost start = object@;
            let mut i: usize = 0;
            proof {
                assert(entries.entries@.take(0) =~= Seq::empty());
                assert(object@ =~= merged_entries(start, entries.entries@.take(0)));
            }
            while i < entries.entries.len()
                invariant
                    i <= entries.entries.len(),
                    sample == JsonValue::Object(*entries),
                    crate::json::keys_differ(entries.entries@),
                    object@ == merged_entries(start, entries.entries@.take(i as int)),
                decreases entries.entries.len() - i,
            {
                proof {
                    lemma_child_decreases(sample, i as int);
                }
                merge_entry(object, &entries.entries[i].0, &entries.entries[i].1);
                proof {
                    lemma_merge_step(start, entries.entries@, i as int);
                }
                i += 1;
            }
            assert(entries.entries@.take(i as int) =~= entries.entries@);
            assert(sample@ == Json::Object(entries@));
            assert(entries@ == crate::json::entries_map(entries.entries@));
            assert(JsonValue::Object(*object)@ =~= Json::Object(start).merged(sample@));
        },
        (JsonValue::Array(representative), JsonValue::Array(items)) => {
            let ghost start = JsonValue::Array(*representative)@;
            if items.len() > 0 {
                if representative.len() == 0 {
                    representative.push(default_value(&items[0]));
                } else {
                    merge_into_schema(&mut representative[0], &items[0]);
                }
            }
            assert(JsonValue::Array(*representative)@ =~= start.merged(sample@)) by {
                assert(JsonValue::Array(*representative)@->Array_0 =~= start.merged(
                    sample@,
                )->Array_0);
            }
        },
        _ => {},
    }
}


/// The default of a default is itself.
pub proof fn law_default_idempotent(value: Json)
    ensures
        value.default_of().default_of() == value.default_of(),
    decreases value,
{
    let once = value.default_of();
    match value {
        Json::Array(items) => {
            if items.len() > 0 {
                law_default_idempotent(items[0]);
            }
            assert(once.default_of()->Array_0 =~= once->Array_0);
        },
        Json::Object(map) => {
            assert forall|k: Seq<char>| map.contains_key(k) implies (
            #[trigger] map[k]).default_of().default_of() == map[k].default_of() by {
                law_default_idempotent(map[k]);
            }
            assert(once.default_of()->Object_0 =~= once->Object_0);
        },
        _ => {},
    }
}

/// The default of a value already holds all that the value adds to a schema.
pub proof fn law_default_absorbs(value: Json)
    ensures
        value.default_of().merged(value) == value.default_of(),
    decreases value,
{
    let schema = value.default_of();
    match value {
        Json::Array(items) => {
            if items.len() > 0 {
                law_default_absorbs(items[0]);
            }
            assert(schema.merged(value)->Array_0 =~= schema->Array_0);
        },
        Json::Object(map) => {
            assert forall|k: Seq<char>| map.contains_key(k) implies (
            #[trigger] map[k]).default_of().merged(map[k]) == map[k].default_of() by {
                law_default_absorbs(map[k]);
            }
            assert(schema.merged(value)->Object_0 =~= schema->Object_0);
        },
        _ => {},
    }
}

/// A sample that was taken up changes nothing when it is taken up again.
pub proof fn law_merge_idempotent(schema: Json, sample: Json)
    ensures
        schema.merged(sample).merged(sample) == schema.merged(sample),
    decreases sample,
{
    let once = schema.merged(sample);
    match (schema, sample) {
        (Json::Object(kept), Json::Object(map)) => {
            assert forall|k: Seq<char>| map.contains_key(k) implies once->Object_0[k].merged(
                #[trigger] map[k],
            ) == once->Object_0[k] by {
                if kept.contains_key(k) {
                    law_merge_idempotent(kept[k], map[k]);
                } else {
                    law_default_absorbs(map[k]);
                }
            }
            assert(once.merged(sample)->Object_0 =~= once->Object_0);
        },
        (Json::Array(kept), Json::Array(items)) => {
            if items.len() > 0 {
                if kept.len() == 0 {
                    law_default_absorbs(items[0]);
                } else {
                    law_merge_idempotent(kept[0], items[0]);
                }
            }
            assert(once.merged(sample)->Array_0 =~= once->Array_0);
        },
        _ => {},
    }
}

/// A schema of zeroed leaves stays one, whatever is taken up into it.
pub proof fn law_merge_keeps_leaves_zeroed(schema: Json, sample: Json)
    requires
        schema.default_of() == schema,
    ensures
        schema.merged(sample).default_of() == schema.merged(sample),
    decreases sample,
{
    let once = schema.merged(sample);
    match (schema, sample) {
        (Json::Object(kept), Json::Object(map)) => {
            assert(schema.default_of()->Object_0 == kept);
            assert forall|k: Seq<char>| #[trigger] once->Object_0.contains_key(
                k,
            ) implies once->Object_0[k].default_of() == once->Object_0[k] by {
                if kept.contains_key(k) {
                    assert(schema.default_of()->Object_0[k] == kept[k].default_of());
                    if map.contains_key(k) {
                        law_merge_keeps_leaves_zeroed(kept[k], map[k]);
                    }
                } else {
                    law_default_idempotent(map[k]);
                }
            }
            assert(once.default_of()->Object_0 =~= once->Object_0);
        },
        (Json::Array(kept), Json::Array(items)) => {
            assert(schema.default_of()->Array_0 == kept);
            if items.len() > 0 {
                if kept.len() == 0 {
                    law_default_idempotent(items[0]);
                } else {
                    assert(schema.default_of()->Array_0[0] == kept[0].default_of());
                    law_merge_keeps_leaves_zeroed(kept[0], items[0]);
                }
            }
            assert(once.default_of()->Array_0 =~= once->Array_0);
        },
        _ => {},
    }
}

/// The keys of an object in the schema are those it had and those of the sample.
pub proof fn law_merge_unites_keys(schema: Map<Seq<char>, Json>, sample: Map<Seq<char>, Json>)
    ensures
        Json::Object(schema).merged(Json::Object(sample)) is Object,
        Json::Object(schema).merged(Json::Object(sample))->Object_0.dom() == schema.dom().union(
            sample.dom(),
        ),
{
    assert(Json::Object(schema).merged(Json::Object(sample))->Object_0.dom() =~= schema.dom().union(
        sample.dom(),
    ));
}

/// The schema of one sample is the default of the sample.
pub proof fn law_first_sample(sample: Map<Seq<char>, Json>)
    ensures
        Json::Object(crate::json::no_entries()).merged(Json::Object(sample)) == Json::Object(
            sample,
        ).default_of(),
{
    let schema = Json::Object(crate::json::no_entries());
    assert(schema.merged(Json::Object(sample))->Object_0 =~= Json::Object(
        sample,
    ).default_of()->Object_0);
}

/// Where the kinds differ, the schema keeps what it had.
pub proof fn law_first_kind_wins(schema: Json, sample: Json)
    requires
        !(schema is Object && sample is Object),
        !(schema is Array && sample is Array),
    ensures
        schema.merged(sample) == schema,
{
}

/// A sample counts through its structure alone: its default adds the same to a schema.
pub proof fn law_sample_counts_by_structure(schema: Json, sample: Json)
    ensures
        schema.merged(sample.default_of()) == schema.merged(sample),
    decreases sample,
{
    let plain = sample.default_of();
    match (schema, sample) {
        (Json::Object(kept), Json::Object(map)) => {
            assert forall|k: Seq<char>| map.contains_key(k) implies {
                &&& kept.contains_key(k) ==> kept[k].merged((#[trigger] map[k]).default_of())
                    == kept[k].merged(map[k])
                &&& map[k].default_of().default_of() == map[k].default_of()
            } by {
                if kept.contains_key(k) {
                    law_sample_counts_by_structure(kept[k], map[k]);
                }
                law_default_idempotent(map[k]);
            }
            assert(schema.merged(plain)->Object_0 =~= schema.merged(sample)->Object_0);
        },
        (Json::Array(kept), Json::Array(items)) => {
            if items.len() > 0 {
                if kept.len() > 0 {
                    law_sample_counts_by_structure(kept[0], items[0]);
                }
                law_default_idempotent(items[0]);
            }
            assert(schema.merged(plain)->Array_0 =~= schema.merged(sample)->Array_0);
        },
        _ => {},
    }
}

/// Samples that differ in the data of their leaves alone add the same to a schema.
pub proof fn law_leaf_data_is_ignored(schema: Json, first: Json, second: Json)
    requires
        first.default_of() == second.default_of(),
    ensures
        schema.merged(first) == schema.merged(second),
{
    law_sample_counts_by_structure(schema, first);
    law_sample_counts_by_structure(schema, second);
}

/// The kinds of two samples agree wherever both have a value.
pub open spec fn kinds_agree(first: Json, second: Json) -> bool
    decreases first,
{
    match (first, second) {
        (Json::Null, Json::Null) => true,
        (Json::Bool(_), Json::Bool(_)) => true,
        (Json::Number(_), Json::Number(_)) => true,
        (Json::String(_), Json::String(_)) => true,
        (Json::Array(some), Json::Array(others)) => some.len() > 0 && others.len() > 0
            ==> kinds_agree(some[0], others[0]),
        (Json::Object(some), Json::Object(others)) => forall|k: Seq<char>| #[trigger]
            some.contains_key(k) && others.contains_key(k) ==> kinds_agree(some[k], others[k]),
        _ => false,
    }
}

/// Of two samples whose kinds agree, it does not matter which is the first of all.
proof fn lemma_first_of_two(first: Json, second: Json)
    requires
        kinds_agree(first, second),
    ensures
        first.default_of().merged(second) == second.default_of().merged(first),
    decreases first,
{
    let one = first.default_of().merged(second);
    let other = second.default_of().merged(first);
    match (first, second) {
        (Json::Array(some), Json::Array(others)) => {
            if some.len() > 0 && others.len() > 0 {
                lemma_first_of_two(some[0], others[0]);
            }
            assert(one->Array_0 =~= other->Array_0);
        },
        (Json::Object(some), Json::Object(others)) => {
            assert forall|k: Seq<char>| #[trigger]
                some.contains_key(k) && others.contains_key(
                    k,
                ) implies some[k].default_of().merged(others[k])
                == others[k].default_of().merged(some[k]) by {
                lemma_first_of_two(some[k], others[k]);
            }
            assert(one->Object_0 =~= other->Object_0);
        },
        _ => {},
    }
}

/// Samples whose kinds agree can be taken up in either order.
pub proof fn law_samples_commute(schema: Json, first: Json, second: Json)
    requires
        kinds_agree(first, second),
    ensures
        schema.merged(first).merged(second) == schema.merged(second).merged(first),
    decreases first,
{
    let one = schema.merged(first).merged(second);
    let other = schema.merged(second).merged(first);
    match (schema, first, second) {
        (Json::Array(kept), Json::Array(some), Json::Array(others)) => {
            if some.len() > 0 && others.len() > 0 {
                if kept.len() > 0 {
                    law_samples_commute(kept[0], some[0], others[0]);
                } else {
                    lemma_first_of_two(some[0], others[0]);
                }
            }
            assert(one->Array_0 =~= other->Array_0);
        },
        (Json::Object(kept), Json::Object(some), Json::Object(others)) => {
            assert forall|k: Seq<char>| #[trigger]
                some.contains_key(k) && others.contains_key(k) implies {
                &&& kept.contains_key(k) ==> kept[k].merged(some[k]).merged(others[k])
                    == kept[k].merged(others[k]).merged(some[k])
                &&& some[k].default_of().merged(others[k]) == others[k].default_of().merged(some[k])
            } by {
                if kept.contains_key(k) {
                    law_samples_commute(kept[k], some[k], others[k]);
                }
                lemma_first_of_two(some[k], others[k]);
            }
            assert(one->Object_0 =~= other->Object_0);
        },
        _ => {},
    }
}

}
