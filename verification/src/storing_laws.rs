//! What storing, reading and taking away does, in terms of the payloads of the points.

use crate::blob::Blob;
use crate::config::Compression;
use crate::error::{GridstoreError, OperationError};
use crate::gridstore::Gridstore;
use crate::json::{Json, JsonValue};
use crate::layout::Record;
use crate::mmap_payload_storage::MmapPayloadStorage;
use crate::payload::Payload;
use crate::tracker::PointOffset;
use vstd::prelude::*;

verus! {

/// The object comes back unchanged when it is written and read: at most 127 arrays and objects
/// stand inside one another, and no number is kept as a floating-point number.
pub open spec fn is_plain(object: Map<Seq<char>, Json>) -> bool {
    &&& Json::Object(object).nested_within(127)
    &&& Json::Object(object).float_free()
}

/// On a machine of 64 bits, a store has room for so many bytes, twice and some more: they can be
/// counted, and there are numbers for the pages that they take.
pub open spec fn is_roomy<V>(store: Gridstore<V>, len: int) -> bool {
    let page_size = store.configured().page_size_bytes;
    &&& usize::MAX == 0xffff_ffff_ffff_ffff
    &&& 0 < page_size
    &&& store.used() + 2 * len + 64 + page_size <= 0xffff_ffff_ffff_ffff
    &&& store.used() + 2 * len + 64 <= 0xffff_ffff * page_size
}

/// The number of bytes that are written for an object.
pub open spec fn written_len(object: Map<Seq<char>, Json>) -> int {
    crate::text::text_of(Json::Object(object)).len() as int
}

/// A store that is roomy for so many bytes has room for every record of no more than twice as many
/// and some more.
proof fn lemma_roomy<V>(store: Gridstore<V>, len: int, record_len: int)
    requires
        is_roomy(store, len),
        record_len <= 2 * len + 64,
    ensures
        store.has_room(record_len),
{
    let page_size = store.configured().page_size_bytes as int;
    let countable = usize::MAX as int / page_size;
    vstd::arithmetic::div_mod::lemma_fundamental_div_mod(usize::MAX as int, page_size);
    vstd::arithmetic::div_mod::lemma_mod_bound(usize::MAX as int, page_size);
    assert(page_size * countable == countable * page_size) by (nonlinear_arith);
}

/// A value of at most 3.5 GiB is stored, with every compression, wherever the store is roomy and
/// the point is not the last that can be numbered. What is stored is the value: as it is, or as a
/// block that decompresses to it, with the dictionary of the store where one is used.
pub proof fn law_value_is_stored<V: Blob>(
    before: Gridstore<V>,
    after: Gridstore<V>,
    offset: PointOffset,
    value: V,
    outcome: Result<(), GridstoreError>,
)
    requires
        before.is_put(after, offset, value, outcome),
        offset < 0xffff_ffff,
        value.encoding().len() <= 0xe000_0000,
        is_roomy(before, value.encoding().len() as int),
    ensures
        outcome == Ok::<(), GridstoreError>(()),
        after.cell(offset as int) matches Ok(Some(record)) && {
            &&& record.bytes == value.encoding()
            &&& match before.configured().compression {
                Compression::Uncompressed => record.raw == value.encoding(),
                Compression::LZ4 => crate::lz4::decompressed(record.raw) == Some(value.encoding()),
                Compression::LZ4Dict => crate::lz4::dict_decompressed(
                    record.raw,
                    before.trained()->0,
                ) == Some(value.encoding()),
            }
        },
{
    let len = value.encoding().len() as int;
    assert(len * 110 / 100 <= 2 * len + 1);
    assert forall|raw: Seq<u8>| #[trigger]
        crate::view::is_record_of(
            before.configured().compression,
            before.trained(),
            value.encoding(),
            raw,
        ) implies raw.len() <= 2 * len + 64 && before.has_room(raw.len() as int) by {
        lemma_roomy(before, len, raw.len() as int);
    }
}

/// A value that was stored takes the place of what the point had, and changes nothing else. The
/// records take no more room than needed: from the last one on, up to the next block, and whole
/// pages for it.
pub proof fn law_put_changes_one_point<V: Blob>(
    before: Gridstore<V>,
    after: Gridstore<V>,
    offset: PointOffset,
    value: V,
)
    requires
        before.is_put(after, offset, value, Ok(())),
        0 < before.configured().block_size_bytes,
        0 < before.configured().page_size_bytes,
        0 <= before.used(),
    ensures
        after.configured() == before.configured(),
        after.trained() == before.trained(),
        forall|i: int| i != offset ==> #[trigger] after.cell(i) == before.cell(i),
        after.cells().len() == if before.cells().len() > offset {
            before.cells().len() as int
        } else {
            offset + 1
        },
        after.cell(offset as int) matches Ok(Some(record)) && {
            let end = before.used() + record.raw.len();
            &&& record.bytes == value.encoding()
            &&& end <= after.used() < end + before.configured().block_size_bytes
            &&& after.used() % before.configured().block_size_bytes as int == 0
            &&& after.page_bytes() >= before.page_bytes()
            &&& after.page_bytes() >= end
            &&& after.page_bytes() > before.page_bytes() ==> after.page_bytes() < end
                + before.configured().page_size_bytes
        },
{
    let record = after.cell(offset as int)->Ok_0->0;
    let end = before.used() + record.raw.len();
    lemma_next_multiple(end, before.configured().block_size_bytes as int);
    lemma_next_multiple(end, before.configured().page_size_bytes as int);
}

/// The next multiple of a size.
pub(crate) proof fn lemma_next_multiple(at: int, size: int)
    requires
        0 <= at,
        0 < size,
    ensures
        at <= crate::layout::block_end(at, size) < at + size,
        crate::layout::block_end(at, size) % size == 0,
{
    let raised = at + size - 1;
    vstd::arithmetic::div_mod::lemma_fundamental_div_mod(raised, size);
    vstd::arithmetic::div_mod::lemma_mod_bound(raised, size);
    assert(size * (raised / size) == raised / size * size) by (nonlinear_arith);
    vstd::arithmetic::div_mod::lemma_mod_multiples_basic(raised / size, size);
}

/// The record of a value that was stored is no longer than twice the value and some more.
pub(crate) proof fn lemma_record_bound<V: Blob>(
    before: Gridstore<V>,
    after: Gridstore<V>,
    offset: PointOffset,
    value: V,
)
    requires
        before.is_put(after, offset, value, Ok(())),
    ensures
        after.cell(offset as int) matches Ok(Some(record)) && record.raw.len() <= 2
            * value.encoding().len() + 64,
{
    let len = value.encoding().len() as int;
    assert(len * 110 / 100 <= 2 * len + 1);
}

/// A value that was not stored leaves all as it was. It was not stored because it is longer than
/// 3.5 GiB, because the store is not roomy, or because the point is the last that can be
/// numbered, and the failure says that the value is too large or that there is no space.
pub proof fn law_refused_value_changes_nothing<V: Blob>(
    before: Gridstore<V>,
    after: Gridstore<V>,
    offset: PointOffset,
    value: V,
    error: GridstoreError,
)
    requires
        before.is_put(after, offset, value, Err(error)),
    ensures
        error is ValueTooLarge || error is OutOfSpace,
        offset == 0xffff_ffff || value.encoding().len() > 0xe000_0000 || !is_roomy(
            before,
            value.encoding().len() as int,
        ),
        after.configured() == before.configured(),
        after.trained() == before.trained(),
        after.cells() == before.cells(),
        after.used() == before.used(),
        after.page_bytes() == before.page_bytes(),
{
    if offset < 0xffff_ffff && value.encoding().len() <= 0xe000_0000 && is_roomy(
        before,
        value.encoding().len() as int,
    ) {
        law_value_is_stored(before, after, offset, value, Err(error));
    }
}

/// No other point than the one that a payload was stored for changes, nor does what the store was
/// made with.
pub open spec fn changes_only(
    before: MmapPayloadStorage,
    after: MmapPayloadStorage,
    point_id: PointOffset,
) -> bool {
    &&& after.store().configured() == before.store().configured()
    &&& after.store().trained() == before.store().trained()
    &&& forall|i: int|
        i != point_id ==> #[trigger] after.store().cell(i) == before.store().cell(i)
}

/// Nothing changes: each point has what it had, and the store is as large as it was.
pub open spec fn changes_nothing(before: MmapPayloadStorage, after: MmapPayloadStorage) -> bool {
    &&& after.store().configured() == before.store().configured()
    &&& after.store().trained() == before.store().trained()
    &&& after.store().cells() == before.store().cells()
    &&& after.store().used() == before.store().used()
    &&& after.store().page_bytes() == before.store().page_bytes()
}

/// After a payload was stored for a point, the point has it, whatever it had before, and no other
/// point changes.
pub proof fn law_overwritten_payload_is_there(
    before: MmapPayloadStorage,
    after: MmapPayloadStorage,
    point_id: PointOffset,
    payload: Payload,
    counts: (u64, u64),
)
    requires
        before.is_stored(after, point_id, payload, counts.0, Ok(()), counts.1),
    ensures
        is_plain(payload@) ==> after.payload(point_id as int) == Some(payload@),
        after.store().cell(point_id as int) matches Ok(Some(record)) && record.bytes
            == crate::text::text_of(Json::Object(payload@)),
        changes_only(before, after, point_id),
        after.store().cell(point_id as int) matches Ok(Some(record)) && (counts.0
            + record.raw.len() <= u64::MAX ==> counts.1 == counts.0 + record.raw.len()),
{
}

/// A payload whose text has at most 3.5 GiB is stored wherever the store is roomy and the point
/// is not the last that can be numbered.
pub proof fn law_payload_is_stored(
    before: MmapPayloadStorage,
    after: MmapPayloadStorage,
    point_id: PointOffset,
    payload: Payload,
    counts: (u64, u64),
    result: Result<(), OperationError>,
)
    requires
        before.is_stored(after, point_id, payload, counts.0, result, counts.1),
        point_id < 0xffff_ffff,
        written_len(payload@) <= 0xe000_0000,
        is_roomy(before.store(), written_len(payload@)),
    ensures
        result is Ok,
{
    let outcome = choose|outcome: Result<(), GridstoreError>|
        {
            &&& #[trigger] before.store().is_put(after.store(), point_id, payload, outcome)
            &&& result == crate::mmap_payload_storage::handed_on(outcome)
            &&& counts.1 == after.store().counted_put(point_id, outcome, counts.0)
        };
    law_value_is_stored(before.store(), after.store(), point_id, payload, outcome);
}

/// A payload that was not stored leaves all as it was, and the failure is that of the store.
pub proof fn law_refused_payload_changes_nothing(
    before: MmapPayloadStorage,
    after: MmapPayloadStorage,
    point_id: PointOffset,
    payload: Payload,
    counts: (u64, u64),
    error: OperationError,
)
    requires
        before.is_stored(after, point_id, payload, counts.0, Err(error), counts.1),
    ensures
        error == OperationError::Gridstore(GridstoreError::ValueTooLarge) || error
            == OperationError::Gridstore(GridstoreError::OutOfSpace),
        changes_nothing(before, after),
        counts.1 == counts.0,
{
    let outcome = choose|outcome: Result<(), GridstoreError>|
        {
            &&& #[trigger] before.store().is_put(after.store(), point_id, payload, outcome)
            &&& Err::<(), OperationError>(error) == crate::mmap_payload_storage::handed_on(outcome)
            &&& counts.1 == after.store().counted_put(point_id, outcome, counts.0)
        };
    law_refused_value_changes_nothing(
        before.store(),
        after.store(),
        point_id,
        payload,
        outcome->Err_0,
    );
}

/// The payload that `merge` gives for the one that a point has is stored, whatever keys it has: a
/// set that succeeds leaves the point with it, and no other point changes.
pub proof fn law_set_stores_what_merge_gives<M>(
    before: MmapPayloadStorage,
    after: MmapPayloadStorage,
    point_id: PointOffset,
    payload: &Payload,
    merge: M,
    counts: (u64, u64),
    counts_after: (u64, u64),
    current: Map<Seq<char>, Json>,
    merged: Map<Seq<char>, Json>,
) where M: FnOnce(Payload, &Payload) -> Payload
    requires
        before.is_set(after, point_id, payload, merge, counts, Ok(()), counts_after),
        before.payload(point_id as int) == Some(current),
        forall|old_payload: Payload, new_payload: Payload|
            old_payload@ == current && #[trigger] call_ensures(
                merge,
                (old_payload, payload),
                new_payload,
            ) ==> new_payload@ == merged,
    ensures
        after.store().cell(point_id as int) matches Ok(Some(record)) && record.bytes
            == crate::text::text_of(Json::Object(merged)),
        is_plain(merged) ==> after.payload(point_id as int) == Some(merged),
        changes_only(before, after, point_id),
{
    let record = before.store().cell(point_id as int)->Ok_0->0;
    let (old_payload, new_payload) = choose|old_payload: Payload, new_payload: Payload|
        {
            &&& Payload::is_decoded(record.bytes, old_payload)
            &&& #[trigger] call_ensures(merge, (old_payload, payload), new_payload)
            &&& before.is_stored(
                after,
                point_id,
                new_payload,
                counts.1,
                Ok(()),
                counts_after.1,
            )
        };
    law_overwritten_payload_is_there(
        before,
        after,
        point_id,
        new_payload,
        (counts.1, counts_after.1),
    );
}

/// Setting a payload succeeds where the payload that `merge` gives can be stored.
pub proof fn law_set_succeeds<M>(
    before: MmapPayloadStorage,
    after: MmapPayloadStorage,
    point_id: PointOffset,
    payload: &Payload,
    merge: M,
    counts: (u64, u64),
    result: Result<(), OperationError>,
    counts_after: (u64, u64),
    current: Map<Seq<char>, Json>,
    merged: Map<Seq<char>, Json>,
) where M: FnOnce(Payload, &Payload) -> Payload
    requires
        before.is_set(after, point_id, payload, merge, counts, result, counts_after),
        before.payload(point_id as int) == Some(current),
        forall|old_payload: Payload, new_payload: Payload|
            old_payload@ == current && #[trigger] call_ensures(
                merge,
                (old_payload, payload),
                new_payload,
            ) ==> new_payload@ == merged,
        point_id < 0xffff_ffff,
        written_len(merged) <= 0xe000_0000,
        is_roomy(before.store(), written_len(merged)),
    ensures
        result is Ok,
{
    let record = before.store().cell(point_id as int)->Ok_0->0;
    let (old_payload, new_payload) = choose|old_payload: Payload, new_payload: Payload|
        {
            &&& Payload::is_decoded(record.bytes, old_payload)
            &&& #[trigger] call_ensures(merge, (old_payload, payload), new_payload)
            &&& before.is_stored(
                after,
                point_id,
                new_payload,
                counts.1,
                result,
                counts_after.1,
            )
        };
    law_payload_is_stored(
        before,
        after,
        point_id,
        new_payload,
        (counts.1, counts_after.1),
        result,
    );
}

/// Setting a payload for a point without one stores it as it is, and succeeds where it can be
/// stored. A point that could not be read keeps what it has, and that is why setting fails.
pub proof fn law_set_without_a_payload<M>(
    before: MmapPayloadStorage,
    after: MmapPayloadStorage,
    point_id: PointOffset,
    payload: &Payload,
    merge: M,
    counts: (u64, u64),
    result: Result<(), OperationError>,
    counts_after: (u64, u64),
) where M: FnOnce(Payload, &Payload) -> Payload
    requires
        before.is_set(after, point_id, payload, merge, counts, result, counts_after),
    ensures
        match before.store().cell(point_id as int) {
            Ok(None) => {
                &&& point_id < 0xffff_ffff && written_len(payload@) <= 0xe000_0000 && is_roomy(
                    before.store(),
                    written_len(payload@),
                ) ==> result is Ok
                &&& result is Ok ==> changes_only(before, after, point_id)
                &&& result is Ok && is_plain(payload@) ==> after.payload(point_id as int) == Some(
                    payload@,
                )
            },
            Ok(Some(_)) => true,
            Err(error) => {
                &&& result == Err::<(), OperationError>(OperationError::Gridstore(error))
                &&& changes_nothing(before, after)
            },
        },
{
    if let Ok(None) = before.store().cell(point_id as int) {
        if point_id < 0xffff_ffff && written_len(payload@) <= 0xe000_0000 && is_roomy(
            before.store(),
            written_len(payload@),
        ) {
            law_payload_is_stored(
                before,
                after,
                point_id,
                *payload,
                (counts.1, counts_after.1),
                result,
            );
        }
        if result is Ok {
            law_overwritten_payload_is_there(
                before,
                after,
                point_id,
                *payload,
                (counts.1, counts_after.1),
            );
        }
    }
}

/// The payload of a point, or the empty one where nothing is stored for it.
pub open spec fn payload_or_empty(storage: MmapPayloadStorage, point_id: int) -> Option<
    Map<Seq<char>, Json>,
> {
    match storage.store().cell(point_id) {
        Ok(None) => Some(Map::empty()),
        Ok(Some(_)) => storage.payload(point_id),
        Err(_) => None,
    }
}

/// The payload that `merge_by_key` gives for the one that a point has, or for the empty one, is
/// stored, whatever keys it has: a set that succeeds leaves the point with it, and no other point
/// changes. It succeeds where that payload can be stored.
pub proof fn law_set_by_key_stores_what_merge_gives<K, M>(
    before: MmapPayloadStorage,
    after: MmapPayloadStorage,
    point_id: PointOffset,
    payload: &Payload,
    key: &K,
    merge_by_key: M,
    counts: (u64, u64),
    result: Result<(), OperationError>,
    counts_after: (u64, u64),
    current: Map<Seq<char>, Json>,
    merged: Map<Seq<char>, Json>,
) where M: FnOnce(Payload, &Payload, &K) -> Payload
    requires
        before.is_set_by_key(
            after,
            point_id,
            payload,
            key,
            merge_by_key,
            counts,
            result,
            counts_after,
        ),
        payload_or_empty(before, point_id as int) == Some(current),
        forall|old_payload: Payload, new_payload: Payload|
            old_payload@ == current && #[trigger] call_ensures(
                merge_by_key,
                (old_payload, payload, key),
                new_payload,
            ) ==> new_payload@ == merged,
    ensures
        result is Ok ==> changes_only(before, after, point_id),
        result is Ok ==> (after.store().cell(point_id as int) matches Ok(Some(record))
            && record.bytes == crate::text::text_of(Json::Object(merged))),
        result is Ok && is_plain(merged) ==> after.payload(point_id as int) == Some(merged),
        point_id < 0xffff_ffff && written_len(merged) <= 0xe000_0000 && is_roomy(
            before.store(),
            written_len(merged),
        ) ==> result is Ok,
{
    assert(crate::json::no_entries() =~= Map::empty());
    let (old_payload, new_payload) = choose|old_payload: Payload, new_payload: Payload|
        {
            &&& old_payload@ == current
            &&& #[trigger] call_ensures(merge_by_key, (old_payload, payload, key), new_payload)
            &&& before.is_stored(
                after,
                point_id,
                new_payload,
                counts.1,
                result,
                counts_after.1,
            )
        };
    if point_id < 0xffff_ffff && written_len(merged) <= 0xe000_0000 && is_roomy(
        before.store(),
        written_len(merged),
    ) {
        law_payload_is_stored(
            before,
            after,
            point_id,
            new_payload,
            (counts.1, counts_after.1),
            result,
        );
    }
    if result is Ok {
        law_overwritten_payload_is_there(
            before,
            after,
            point_id,
            new_payload,
            (counts.1, counts_after.1),
        );
    }
}

/// Setting a payload under a key fails with the reason for which a point could not be read, and
/// changes nothing then.
pub proof fn law_set_by_key_of_an_unread_point<K, M>(
    before: MmapPayloadStorage,
    after: MmapPayloadStorage,
    point_id: PointOffset,
    payload: &Payload,
    key: &K,
    merge_by_key: M,
    counts: (u64, u64),
    result: Result<(), OperationError>,
    counts_after: (u64, u64),
    error: GridstoreError,
) where M: FnOnce(Payload, &Payload, &K) -> Payload
    requires
        before.is_set_by_key(
            after,
            point_id,
            payload,
            key,
            merge_by_key,
            counts,
            result,
            counts_after,
        ),
        before.store().cell(point_id as int) == Err::<Option<Record>, GridstoreError>(error),
    ensures
        result == Err::<(), OperationError>(OperationError::Gridstore(error)),
        changes_nothing(before, after),
{
}

/// Where `remove` takes something away from the payload of a point, the rest is stored, the empty
/// one included, and what was taken away is returned. Where it takes nothing away, nothing is
/// returned and nothing changes. Taking away fails only where the rest cannot be stored.
pub proof fn law_delete_stores_the_rest<K, R>(
    before: MmapPayloadStorage,
    after: MmapPayloadStorage,
    point_id: PointOffset,
    key: &K,
    remove: R,
    counts: (u64, u64),
    result: Result<Vec<JsonValue>, OperationError>,
    counts_after: (u64, u64),
    current: Map<Seq<char>, Json>,
    rest: Map<Seq<char>, Json>,
    taken: Seq<JsonValue>,
) where R: FnOnce(Payload, &K) -> (Payload, Vec<JsonValue>)
    requires
        before.is_deleted(after, point_id, key, remove, counts, result, counts_after),
        before.payload(point_id as int) == Some(current),
        forall|old_payload: Payload, new_payload: Payload, removed: Vec<JsonValue>|
            old_payload@ == current && #[trigger] call_ensures(
                remove,
                (old_payload, key),
                (new_payload, removed),
            ) ==> new_payload@ == rest && removed@ == taken,
    ensures
        result matches Ok(removed) ==> removed@ == taken,
        taken.len() == 0 ==> result is Ok && changes_nothing(before, after),
        taken.len() > 0 && result is Ok ==> {
            &&& changes_only(before, after, point_id)
            &&& after.store().cell(point_id as int) matches Ok(Some(record))
            &&& record.bytes == crate::text::text_of(Json::Object(rest))
            &&& is_plain(rest) ==> after.payload(point_id as int) == Some(rest)
        },
        point_id < 0xffff_ffff && written_len(rest) <= 0xe000_0000 && is_roomy(
            before.store(),
            written_len(rest),
        ) ==> result is Ok,
        result is Err ==> changes_nothing(before, after),
{
    let record = before.store().cell(point_id as int)->Ok_0->0;
    let stored = match result {
        Ok(_) => Ok::<(), OperationError>(()),
        Err(error) => Err(error),
    };
    let (old_payload, new_payload, removed) = choose|
        old_payload: Payload,
        new_payload: Payload,
        removed: Vec<JsonValue>,
    |
        {
            &&& Payload::is_decoded(record.bytes, old_payload)
            &&& #[trigger] call_ensures(remove, (old_payload, key), (new_payload, removed))
            &&& if removed@.len() == 0 {
                &&& result == Ok::<Vec<JsonValue>, OperationError>(removed)
                &&& before.store().same(after.store())
                &&& counts_after.1 == counts.1
            } else {
                before.is_stored(after, point_id, new_payload, counts.1, stored, counts_after.1)
                    && (result is Ok ==> result == Ok::<Vec<JsonValue>, OperationError>(removed))
            }
        };
    if taken.len() > 0 {
        if point_id < 0xffff_ffff && written_len(rest) <= 0xe000_0000 && is_roomy(
            before.store(),
            written_len(rest),
        ) {
            law_payload_is_stored(
                before,
                after,
                point_id,
                new_payload,
                (counts.1, counts_after.1),
                stored,
            );
        }
        if result is Ok {
            law_overwritten_payload_is_there(
                before,
                after,
                point_id,
                new_payload,
                (counts.1, counts_after.1),
            );
        } else {
            law_refused_payload_changes_nothing(
                before,
                after,
                point_id,
                new_payload,
                (counts.1, counts_after.1),
                stored->Err_0,
            );
        }
    }
}

/// A key that was taken away is not there any more: where `remove` takes nothing away from what it
/// left over, taking the key away once more returns nothing and changes nothing.
pub proof fn law_delete_again_returns_nothing<K, R>(
    storages: (MmapPayloadStorage, MmapPayloadStorage, MmapPayloadStorage),
    point_id: PointOffset,
    key: &K,
    remove: R,
    counts: ((u64, u64), (u64, u64)),
    results: (Result<Vec<JsonValue>, OperationError>, Result<Vec<JsonValue>, OperationError>),
    counts_after: ((u64, u64), (u64, u64)),
    current: Map<Seq<char>, Json>,
    rest: Map<Seq<char>, Json>,
    taken: Seq<JsonValue>,
) where R: FnOnce(Payload, &K) -> (Payload, Vec<JsonValue>)
    requires
        storages.0.is_deleted(
            storages.1,
            point_id,
            key,
            remove,
            counts.0,
            results.0,
            counts_after.0,
        ),
        storages.1.is_deleted(
            storages.2,
            point_id,
            key,
            remove,
            counts.1,
            results.1,
            counts_after.1,
        ),
        storages.0.payload(point_id as int) == Some(current),
        forall|old_payload: Payload, new_payload: Payload, removed: Vec<JsonValue>|
            old_payload@ == current && #[trigger] call_ensures(
                remove,
                (old_payload, key),
                (new_payload, removed),
            ) ==> new_payload@ == rest && removed@ == taken,
        forall|old_payload: Payload, new_payload: Payload, removed: Vec<JsonValue>|
            old_payload@ == rest && #[trigger] call_ensures(
                remove,
                (old_payload, key),
                (new_payload, removed),
            ) ==> new_payload@ == rest && removed@.len() == 0,
        results.0 is Ok,
        taken.len() > 0,
        is_plain(rest),
    ensures
        results.1 matches Ok(removed) && removed@.len() == 0,
        changes_nothing(storages.1, storages.2),
        storages.2.payload(point_id as int) == Some(rest),
{
    law_delete_stores_the_rest(
        storages.0,
        storages.1,
        point_id,
        key,
        remove,
        counts.0,
        results.0,
        counts_after.0,
        current,
        rest,
        taken,
    );
    assert forall|old_payload: Payload, new_payload: Payload, removed: Vec<JsonValue>|
        old_payload@ == rest && #[trigger] call_ensures(
            remove,
            (old_payload, key),
            (new_payload, removed),
        ) implies new_payload@ == rest && removed@ == Seq::<JsonValue>::empty() by {
        assert(removed@ =~= Seq::<JsonValue>::empty());
    }
    law_delete_stores_the_rest(
        storages.1,
        storages.2,
        point_id,
        key,
        remove,
        counts.1,
        results.1,
        counts_after.1,
        rest,
        rest,
        Seq::empty(),
    );
}

/// Taking a key away from a point without a payload returns nothing and changes nothing, whatever
/// `remove` does. Where the point could not be read, it fails with the reason for that.
pub proof fn law_delete_without_a_payload<K, R>(
    before: MmapPayloadStorage,
    after: MmapPayloadStorage,
    point_id: PointOffset,
    key: &K,
    remove: R,
    counts: (u64, u64),
    result: Result<Vec<JsonValue>, OperationError>,
    counts_after: (u64, u64),
) where R: FnOnce(Payload, &K) -> (Payload, Vec<JsonValue>)
    requires
        before.is_deleted(after, point_id, key, remove, counts, result, counts_after),
    ensures
        match before.store().cell(point_id as int) {
            Ok(None) => {
                &&& result matches Ok(removed) && removed@.len() == 0
                &&& changes_nothing(before, after)
            },
            Ok(Some(_)) => true,
            Err(error) => {
                &&& result == Err::<Vec<JsonValue>, OperationError>(
                    OperationError::Gridstore(error),
                )
                &&& changes_nothing(before, after)
            },
        },
{
}

/// Taking the payload of a point away returns it, and the point has none afterwards; no other point
/// changes. Where the point has none, none is returned and nothing changes. It fails only for a
/// point that could not be read, with the reason for that.
pub proof fn law_clear_takes_the_payload(
    before: MmapPayloadStorage,
    after: MmapPayloadStorage,
    point_id: PointOffset,
    result: Result<Option<Payload>, OperationError>,
)
    requires
        before.is_cleared(after, point_id, result),
    ensures
        match before.store().cell(point_id as int) {
            Ok(Some(_)) => {
                &&& result matches Ok(Some(payload)) && before.payload(point_id as int) == Some(
                    payload@,
                )
                &&& after.store().cell(point_id as int) == Ok::<Option<Record>, GridstoreError>(
                    None,
                )
                &&& changes_only(before, after, point_id)
                &&& after.store().cells().len() == before.store().cells().len()
            },
            Ok(None) => {
                &&& result == Ok::<Option<Payload>, OperationError>(None)
                &&& changes_nothing(before, after)
            },
            Err(error) => {
                &&& result == Err::<Option<Payload>, OperationError>(
                    OperationError::Gridstore(error),
                )
                &&& changes_nothing(before, after)
            },
        },
{
    assert forall|i: int| i != point_id implies #[trigger] after.store().cell(i)
        == before.store().cell(i) by {}
}

/// Reading a point gives its payload, or the empty one where it has none; it fails only for a point
/// that could not be read, with the reason for that. The bytes of the record are counted.
pub proof fn law_get_gives_the_payload(
    storage: MmapPayloadStorage,
    point_id: PointOffset,
    count: u64,
    result: Result<Payload, OperationError>,
    count_after: u64,
)
    requires
        crate::mmap_payload_storage::is_got(
            storage.store().cell(point_id as int),
            count,
            result,
            count_after,
        ),
    ensures
        match storage.store().cell(point_id as int) {
            Ok(Some(record)) => {
                &&& result matches Ok(payload) && storage.payload(point_id as int) == Some(
                    payload@,
                )
                &&& count + record.raw.len() <= u64::MAX ==> count_after == count
                    + record.raw.len()
            },
            Ok(None) => {
                &&& result matches Ok(payload) && payload@ == Map::<Seq<char>, Json>::empty()
                &&& count_after == count
            },
            Err(error) => {
                &&& result == Err::<Payload, OperationError>(OperationError::Gridstore(error))
                &&& count_after == count
            },
        },
{
    assert(crate::json::no_entries() =~= Map::<Seq<char>, Json>::empty());
}

/// What was written last is what is read: after a payload was stored and another one for the same
/// point, reading the point gives the second.
pub proof fn law_last_payload_is_read(
    storages: (MmapPayloadStorage, MmapPayloadStorage, MmapPayloadStorage),
    point_id: PointOffset,
    payloads: (Payload, Payload),
    counts: (u64, u64, u64),
    read_counts: (u64, u64),
    got: Result<Payload, OperationError>,
)
    requires
        storages.0.is_stored(storages.1, point_id, payloads.0, counts.0, Ok(()), counts.1),
        storages.1.is_stored(storages.2, point_id, payloads.1, counts.1, Ok(()), counts.2),
        is_plain(payloads.1@),
        crate::mmap_payload_storage::is_got(
            storages.2.store().cell(point_id as int),
            read_counts.0,
            got,
            read_counts.1,
        ),
    ensures
        got matches Ok(read) && read@ == payloads.1@,
        changes_only(storages.0, storages.2, point_id),
{
    law_overwritten_payload_is_there(
        storages.0,
        storages.1,
        point_id,
        payloads.0,
        (counts.0, counts.1),
    );
    law_overwritten_payload_is_there(
        storages.1,
        storages.2,
        point_id,
        payloads.1,
        (counts.1, counts.2),
    );
    law_get_gives_the_payload(storages.2, point_id, read_counts.0, got, read_counts.1);
}

}
