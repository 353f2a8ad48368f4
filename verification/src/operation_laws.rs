//! What a call of each operation does to the payloads of the points.

use crate::counter::HardwareCounterCell;
use crate::error::{GridstoreError, OperationError};
use crate::json::{Json, JsonValue};
use crate::layout::{Cell, Record};
use crate::mmap_payload_storage::MmapPayloadStorage;
use crate::payload::Payload;
use crate::tracker::PointOffset;
use vstd::prelude::*;

verus! {

/// The bytes of the record that was written for a point are counted, as long as the count fits 64
/// bits, and none where none was written.
pub open spec fn is_counted_write(
    storage: MmapPayloadStorage,
    point_id: PointOffset,
    written: bool,
    count: u64,
    count_after: u64,
) -> bool {
    if written {
        storage.store().cell(point_id as int) matches Ok(Some(record)) && (count
            + record.raw.len() <= u64::MAX ==> count_after == count + record.raw.len())
    } else {
        count_after == count
    }
}

/// The bytes of the record that was read for a point are counted, as long as the count fits 64
/// bits, and none where there is none.
pub open spec fn is_counted_read(
    storage: MmapPayloadStorage,
    point_id: PointOffset,
    count: u64,
    count_after: u64,
) -> bool {
    match storage.store().cell(point_id as int) {
        Ok(Some(record)) => count + record.raw.len() <= u64::MAX ==> count_after == count
            + record.raw.len(),
        _ => count_after == count,
    }
}

/// After `overwrite` succeeded, the text of the payload is what is stored for the point, and the
/// payload is read from it if it is plain. Nothing else changes. It succeeds for every payload of
/// at most 3.5 GiB in a roomy store, and changes nothing where it fails.
pub proof fn law_overwrite(
    storage: &mut MmapPayloadStorage,
    point_id: PointOffset,
    payload: &Payload,
    hw_counter: &mut HardwareCounterCell,
    result: Result<(), OperationError>,
)
    requires
        call_ensures(
            MmapPayloadStorage::overwrite,
            (storage, point_id, payload, hw_counter),
            result,
        ),
    ensures
        result is Ok ==> {
            &&& final(storage).store().cell(point_id as int) matches Ok(Some(record))
            &&& record.bytes == crate::text::text_of(Json::Object(payload@))
            &&& crate::storing_laws::is_plain(payload@) ==> final(storage).payload(point_id as int)
                == Some(payload@)
            &&& crate::storing_laws::changes_only(*old(storage), *final(storage), point_id)
        },
        point_id < 0xffff_ffff && crate::storing_laws::written_len(payload@) <= 0xe000_0000
            && crate::storing_laws::is_roomy(
            old(storage).store(),
            crate::storing_laws::written_len(payload@),
        ) ==> result is Ok,
        result is Err ==> crate::storing_laws::changes_nothing(*old(storage), *final(storage)),
        final(storage).populated() == old(storage).populated(),
        is_counted_write(
            *final(storage),
            point_id,
            result is Ok,
            old(hw_counter).payload_io_write,
            final(hw_counter).payload_io_write,
        ),
        final(hw_counter).payload_io_read == old(hw_counter).payload_io_read,
{
    let counts = (old(hw_counter).payload_io_write, final(hw_counter).payload_io_write);
    let before = *old(storage);
    let after = *final(storage);
    if point_id < 0xffff_ffff && crate::storing_laws::written_len(payload@) <= 0xe000_0000
        && crate::storing_laws::is_roomy(
        before.store(),
        crate::storing_laws::written_len(payload@),
    ) {
        crate::storing_laws::law_payload_is_stored(
            before,
            after,
            point_id,
            *payload,
            counts,
            result,
        );
    }
    match result {
        Ok(_) => {
            crate::storing_laws::law_overwritten_payload_is_there(
                before,
                after,
                point_id,
                *payload,
                counts,
            );
        },
        Err(error) => {
            crate::storing_laws::law_refused_payload_changes_nothing(
                before,
                after,
                point_id,
                *payload,
                counts,
                error,
            );
        },
    }
}

/// What `get` and `get_sequential` return: the payload of the point, or the empty one where nothing
/// is stored for it, or why the point could not be read.
pub open spec fn is_payload_of(
    storage: &MmapPayloadStorage,
    point_id: PointOffset,
    result: Result<Payload, OperationError>,
) -> bool {
    match storage.store().cell(point_id as int) {
        Ok(Some(record)) => result matches Ok(payload) && crate::text::parsed(record.bytes) == Some(
            payload@,
        ),
        Ok(None) => result matches Ok(payload) && payload@ == Map::<Seq<char>, Json>::empty(),
        Err(error) => result == Err::<Payload, OperationError>(OperationError::Gridstore(error)),
    }
}

/// `get` and `get_sequential` both return the payload of the point.
pub proof fn law_get(
    storage: &MmapPayloadStorage,
    point_id: PointOffset,
    counters: (&mut HardwareCounterCell, &mut HardwareCounterCell),
    results: (Result<Payload, OperationError>, Result<Payload, OperationError>),
)
    requires
        call_ensures(MmapPayloadStorage::get, (storage, point_id, counters.0), results.0),
        call_ensures(
            MmapPayloadStorage::get_sequential,
            (storage, point_id, counters.1),
            results.1,
        ),
    ensures
        is_payload_of(storage, point_id, results.0),
        is_payload_of(storage, point_id, results.1),
        is_counted_read(
            *storage,
            point_id,
            old(counters.0).payload_io_read,
            final(counters.0).payload_io_read,
        ),
        is_counted_read(
            *storage,
            point_id,
            old(counters.1).payload_io_read,
            final(counters.1).payload_io_read,
        ),
{
    assert(crate::json::no_entries() =~= Map::<Seq<char>, Json>::empty());
}

/// After `set` succeeded for a point with a payload, the text of what `merge` gives for it is what
/// is stored for the point; for a point without one, the text of the new payload is. Nothing else
/// changes. It succeeds wherever that can be stored, and changes nothing where it fails.
pub proof fn law_set<M>(
    storage: &mut MmapPayloadStorage,
    point_id: PointOffset,
    payload: &Payload,
    merge: M,
    hw_counter: &mut HardwareCounterCell,
    result: Result<(), OperationError>,
    stored: Map<Seq<char>, Json>,
) where M: FnOnce(Payload, &Payload) -> Payload
    requires
        call_ensures(
            MmapPayloadStorage::set::<M>,
            (storage, point_id, payload, merge, hw_counter),
            result,
        ),
        match old(storage).store().cell(point_id as int) {
            Ok(Some(record)) => {
                &&& crate::text::parsed(record.bytes) is Some
                &&& forall|current: Payload, merged: Payload|
                    Some(current@) == crate::text::parsed(record.bytes) && #[trigger] call_ensures(
                        merge,
                        (current, payload),
                        merged,
                    ) ==> merged@ == stored
            },
            Ok(None) => stored == payload@,
            Err(_) => true,
        },
    ensures
        old(storage).store().cell(point_id as int) matches Err(error) ==> result == Err::<
            (),
            OperationError,
        >(OperationError::Gridstore(error)),
        result is Ok ==> {
            &&& final(storage).store().cell(point_id as int) matches Ok(Some(record))
            &&& record.bytes == crate::text::text_of(Json::Object(stored))
            &&& crate::storing_laws::is_plain(stored) ==> final(storage).payload(point_id as int)
                == Some(stored)
            &&& crate::storing_laws::changes_only(*old(storage), *final(storage), point_id)
        },
        old(storage).store().cell(point_id as int) is Ok && point_id < 0xffff_ffff
            && crate::storing_laws::written_len(stored) <= 0xe000_0000
            && crate::storing_laws::is_roomy(
            old(storage).store(),
            crate::storing_laws::written_len(stored),
        ) ==> result is Ok,
        result is Err ==> crate::storing_laws::changes_nothing(*old(storage), *final(storage)),
        final(storage).populated() == old(storage).populated(),
        is_counted_read(
            *old(storage),
            point_id,
            old(hw_counter).payload_io_read,
            final(hw_counter).payload_io_read,
        ),
        is_counted_write(
            *final(storage),
            point_id,
            result is Ok,
            old(hw_counter).payload_io_write,
            final(hw_counter).payload_io_write,
        ),
{
    let counts = (old(hw_counter).payload_io_read, old(hw_counter).payload_io_write);
    let counts_after = (final(hw_counter).payload_io_read, final(hw_counter).payload_io_write);
    let before = *old(storage);
    let after = *final(storage);
    let fits = point_id < 0xffff_ffff && crate::storing_laws::written_len(stored) <= 0xe000_0000
        && crate::storing_laws::is_roomy(before.store(), crate::storing_laws::written_len(stored));
    match before.store().cell(point_id as int) {
        Ok(Some(record)) => {
            let current = crate::text::parsed(record.bytes)->0;
            if fits {
                crate::storing_laws::law_set_succeeds(
                    before,
                    after,
                    point_id,
                    payload,
                    merge,
                    counts,
                    result,
                    counts_after,
                    current,
                    stored,
                );
            }
            if result is Ok {
                crate::storing_laws::law_set_stores_what_merge_gives(
                    before,
                    after,
                    point_id,
                    payload,
                    merge,
                    counts,
                    counts_after,
                    current,
                    stored,
                );
            }
        },
        _ => {
            crate::storing_laws::law_set_without_a_payload(
                before,
                after,
                point_id,
                payload,
                merge,
                counts,
                result,
                counts_after,
            );
        },
    }
}

/// After `set_by_key` succeeded, the text of what `merge_by_key` gives for the payload of the
/// point, or for the empty one, is what is stored for the point. Nothing else changes. It succeeds
/// wherever that can be stored, and changes nothing where it fails.
pub proof fn law_set_by_key<K, M>(
    storage: &mut MmapPayloadStorage,
    point_id: PointOffset,
    payload: &Payload,
    key: &K,
    merge_by_key: M,
    hw_counter: &mut HardwareCounterCell,
    result: Result<(), OperationError>,
    stored: Map<Seq<char>, Json>,
) where M: FnOnce(Payload, &Payload, &K) -> Payload
    requires
        call_ensures(
            MmapPayloadStorage::set_by_key::<K, M>,
            (storage, point_id, payload, key, merge_by_key, hw_counter),
            result,
        ),
        match old(storage).store().cell(point_id as int) {
            Ok(Some(record)) => {
                &&& crate::text::parsed(record.bytes) is Some
                &&& forall|current: Payload, merged: Payload|
                    Some(current@) == crate::text::parsed(record.bytes) && #[trigger] call_ensures(
                        merge_by_key,
                        (current, payload, key),
                        merged,
                    ) ==> merged@ == stored
            },
            Ok(None) => forall|empty: Payload, merged: Payload|
                empty@ == Map::<Seq<char>, Json>::empty() && #[trigger] call_ensures(
                    merge_by_key,
                    (empty, payload, key),
                    merged,
                ) ==> merged@ == stored,
            Err(_) => true,
        },
    ensures
        old(storage).store().cell(point_id as int) matches Err(error) ==> result == Err::<
            (),
            OperationError,
        >(OperationError::Gridstore(error)),
        result is Ok ==> {
            &&& final(storage).store().cell(point_id as int) matches Ok(Some(record))
            &&& record.bytes == crate::text::text_of(Json::Object(stored))
            &&& crate::storing_laws::is_plain(stored) ==> final(storage).payload(point_id as int)
                == Some(stored)
            &&& crate::storing_laws::changes_only(*old(storage), *final(storage), point_id)
        },
        old(storage).store().cell(point_id as int) is Ok && point_id < 0xffff_ffff
            && crate::storing_laws::written_len(stored) <= 0xe000_0000
            && crate::storing_laws::is_roomy(
            old(storage).store(),
            crate::storing_laws::written_len(stored),
        ) ==> result is Ok,
        result is Err ==> crate::storing_laws::changes_nothing(*old(storage), *final(storage)),
        final(storage).populated() == old(storage).populated(),
        is_counted_read(
            *old(storage),
            point_id,
            old(hw_counter).payload_io_read,
            final(hw_counter).payload_io_read,
        ),
        is_counted_write(
            *final(storage),
            point_id,
            result is Ok,
            old(hw_counter).payload_io_write,
            final(hw_counter).payload_io_write,
        ),
{
    let counts = (old(hw_counter).payload_io_read, old(hw_counter).payload_io_write);
    let counts_after = (final(hw_counter).payload_io_read, final(hw_counter).payload_io_write);
    let before = *old(storage);
    let after = *final(storage);
    assert(crate::json::no_entries() =~= Map::<Seq<char>, Json>::empty());
    if before.store().cell(point_id as int) is Ok {
        crate::storing_laws::law_set_by_key_stores_what_merge_gives(
            before,
            after,
            point_id,
            payload,
            key,
            merge_by_key,
            counts,
            result,
            counts_after,
            crate::storing_laws::payload_or_empty(before, point_id as int)->0,
            stored,
        );
    }
}

/// Where `remove` takes something away from the payload of a point, `delete` returns it, and the
/// text of the rest is what is stored for the point, also where the rest is empty. Where nothing is
/// taken away, nothing is returned and nothing changes. It fails only where the point could not be
/// read or the rest could not be stored, and changes nothing then.
pub proof fn law_delete<K, R>(
    storage: &mut MmapPayloadStorage,
    point_id: PointOffset,
    key: &K,
    remove: R,
    hw_counter: &mut HardwareCounterCell,
    result: Result<Vec<JsonValue>, OperationError>,
    rest: Map<Seq<char>, Json>,
    taken: Seq<JsonValue>,
) where R: FnOnce(Payload, &K) -> (Payload, Vec<JsonValue>)
    requires
        call_ensures(
            MmapPayloadStorage::delete::<K, R>,
            (storage, point_id, key, remove, hw_counter),
            result,
        ),
        match old(storage).store().cell(point_id as int) {
            Ok(Some(record)) => {
                &&& crate::text::parsed(record.bytes) is Some
                &&& forall|current: Payload, left: Payload, removed: Vec<JsonValue>|
                    Some(current@) == crate::text::parsed(record.bytes) && #[trigger] call_ensures(
                        remove,
                        (current, key),
                        (left, removed),
                    ) ==> left@ == rest && removed@ == taken
            },
            Ok(None) => taken.len() == 0,
            Err(_) => true,
        },
    ensures
        old(storage).store().cell(point_id as int) matches Err(error) ==> result == Err::<
            Vec<JsonValue>,
            OperationError,
        >(OperationError::Gridstore(error)),
        result matches Ok(removed) ==> removed@ =~= taken,
        result is Ok && taken.len() == 0 ==> crate::storing_laws::changes_nothing(
            *old(storage),
            *final(storage),
        ),
        result is Ok && taken.len() > 0 ==> {
            &&& final(storage).store().cell(point_id as int) matches Ok(Some(record))
            &&& record.bytes == crate::text::text_of(Json::Object(rest))
            &&& crate::storing_laws::is_plain(rest) ==> final(storage).payload(point_id as int)
                == Some(rest)
            &&& crate::storing_laws::changes_only(*old(storage), *final(storage), point_id)
        },
        old(storage).store().cell(point_id as int) is Ok && (taken.len() == 0 || (point_id
            < 0xffff_ffff && crate::storing_laws::written_len(rest) <= 0xe000_0000
            && crate::storing_laws::is_roomy(
            old(storage).store(),
            crate::storing_laws::written_len(rest),
        ))) ==> result is Ok,
        result is Err ==> crate::storing_laws::changes_nothing(*old(storage), *final(storage)),
        final(storage).populated() == old(storage).populated(),
        is_counted_read(
            *old(storage),
            point_id,
            old(hw_counter).payload_io_read,
            final(hw_counter).payload_io_read,
        ),
        is_counted_write(
            *final(storage),
            point_id,
            result is Ok && taken.len() > 0,
            old(hw_counter).payload_io_write,
            final(hw_counter).payload_io_write,
        ),
{
    let counts = (old(hw_counter).payload_io_read, old(hw_counter).payload_io_write);
    let counts_after = (final(hw_counter).payload_io_read, final(hw_counter).payload_io_write);
    let before = *old(storage);
    let after = *final(storage);
    match before.store().cell(point_id as int) {
        Ok(Some(record)) => {
            crate::storing_laws::law_delete_stores_the_rest(
                before,
                after,
                point_id,
                key,
                remove,
                counts,
                result,
                counts_after,
                crate::text::parsed(record.bytes)->0,
                rest,
                taken,
            );
        },
        _ => {
            crate::storing_laws::law_delete_without_a_payload(
                before,
                after,
                point_id,
                key,
                remove,
                counts,
                result,
                counts_after,
            );
        },
    }
}

/// `clear` returns the payload of the point and leaves the point without one; no other point
/// changes. A point without one stays so. It fails only for a point that could not be read.
pub proof fn law_clear(
    storage: &mut MmapPayloadStorage,
    point_id: PointOffset,
    hw_counter: &HardwareCounterCell,
    result: Result<Option<Payload>, OperationError>,
)
    requires
        call_ensures(MmapPayloadStorage::clear, (storage, point_id, hw_counter), result),
    ensures
        match old(storage).store().cell(point_id as int) {
            Ok(Some(record)) => {
                &&& result matches Ok(Some(payload)) && crate::text::parsed(record.bytes) == Some(
                    payload@,
                )
                &&& final(storage).store().cell(point_id as int) == Ok::<
                    Option<Record>,
                    GridstoreError,
                >(None)
                &&& crate::storing_laws::changes_only(*old(storage), *final(storage), point_id)
                &&& final(storage).store().used() == old(storage).store().used()
                &&& final(storage).store().page_bytes() == old(storage).store().page_bytes()
                &&& final(storage).store().cells().len() == old(storage).store().cells().len()
            },
            Ok(None) => {
                &&& result == Ok::<Option<Payload>, OperationError>(None)
                &&& crate::storing_laws::changes_nothing(*old(storage), *final(storage))
            },
            Err(error) => {
                &&& result == Err::<Option<Payload>, OperationError>(
                    OperationError::Gridstore(error),
                )
                &&& crate::storing_laws::changes_nothing(*old(storage), *final(storage))
            },
        },
        final(storage).populated() == old(storage).populated(),
{
    crate::storing_laws::law_clear_takes_the_payload(
        *old(storage),
        *final(storage),
        point_id,
        result,
    );
}

/// After `clear_all` succeeded, no point has a payload and the pages take no room; the compression
/// and the dictionary stay. It succeeds if and only if the files were emptied, and changes nothing
/// where it fails.
pub proof fn law_clear_all(
    storage: &mut MmapPayloadStorage,
    cleared: Result<(), GridstoreError>,
    result: Result<(), OperationError>,
)
    requires
        call_ensures(MmapPayloadStorage::clear_all, (storage, cleared), result),
    ensures
        result is Ok <==> cleared is Ok,
        result is Ok ==> {
            &&& final(storage).store().cells() == Seq::<Cell>::empty()
            &&& forall|i: int| #[trigger]
                final(storage).store().cell(i) == Ok::<Option<Record>, GridstoreError>(None)
            &&& final(storage).store().used() == 0
            &&& final(storage).store().page_bytes() == 0
            &&& final(storage).store().configured() == old(storage).store().configured()
            &&& final(storage).store().trained() == old(storage).store().trained()
        },
        result matches Err(error) ==> {
            &&& crate::storing_laws::changes_nothing(*old(storage), *final(storage))
            &&& error matches OperationError::ServiceError { description } && description@
                == "Failed to clear mmap payload storage: "@ + cleared->Err_0.message()
        },
        final(storage).populated() == old(storage).populated(),
{
}

/// A flush, a populating and a dropping of the cache succeed if and only if the work on disk did,
/// and their failures are those of the work on disk.
pub proof fn law_work_on_disk(
    storage: &MmapPayloadStorage,
    outcome: Result<(), GridstoreError>,
    results: (Result<(), OperationError>, Result<(), OperationError>, Result<(), OperationError>),
)
    requires
        call_ensures(MmapPayloadStorage::flushed, (outcome,), results.0),
        call_ensures(MmapPayloadStorage::populate, (storage, outcome), results.1),
        call_ensures(MmapPayloadStorage::clear_cache, (storage, outcome), results.2),
    ensures
        results.0 is Ok <==> outcome is Ok,
        results.1 is Ok <==> outcome is Ok,
        results.2 is Ok <==> outcome is Ok,
        outcome matches Err(error) ==> {
            &&& results.0 matches Err(OperationError::ServiceError { description }) && description@
                == "Failed to flush mmap payload gridstore: "@ + error.message()
            &&& results.1 == Err::<(), OperationError>(OperationError::Gridstore(error))
            &&& results.2 == Err::<(), OperationError>(OperationError::Gridstore(error))
        },
{
}

/// The storage size is that of the pages, and a storage is on disk unless it was populated.
pub proof fn law_size_and_place(
    storage: &MmapPayloadStorage,
    size: Result<usize, OperationError>,
    on_disk: bool,
)
    requires
        call_ensures(MmapPayloadStorage::get_storage_size_bytes, (storage,), size),
        call_ensures(MmapPayloadStorage::is_on_disk, (storage,), on_disk),
    ensures
        size matches Ok(bytes) && bytes == storage.store().page_bytes(),
        on_disk == !storage.populated(),
{
}

/// What is stored for a point, if anything is, is the text of an object.
pub open spec fn is_legible_point(storage: MmapPayloadStorage, point_id: PointOffset) -> bool {
    storage.store().cell(point_id as int) matches Ok(Some(record)) ==> crate::text::parsed(
        record.bytes,
    ) is Some
}

/// An operation that is to store an object for a point: where it succeeds, the text of the object
/// is what is stored for the point, and nothing else changes. It succeeds wherever the object can
/// be stored, and changes nothing where it fails.
pub open spec fn is_outcome_of_storing(
    before: MmapPayloadStorage,
    after: MmapPayloadStorage,
    point_id: PointOffset,
    stored: Map<Seq<char>, Json>,
    succeeded: bool,
) -> bool {
    &&& succeeded ==> {
        &&& after.store().cell(point_id as int) matches Ok(Some(record))
        &&& record.bytes == crate::text::text_of(Json::Object(stored))
        &&& crate::storing_laws::is_plain(stored) ==> after.payload(point_id as int) == Some(stored)
        &&& crate::storing_laws::changes_only(before, after, point_id)
    }
    &&& point_id < 0xffff_ffff && crate::storing_laws::written_len(stored) <= 0xe000_0000
        && crate::storing_laws::is_roomy(before.store(), crate::storing_laws::written_len(stored))
        ==> succeeded
    &&& !succeeded ==> crate::storing_laws::changes_nothing(before, after)
}

/// `checked_get` and `checked_get_sequential` return what `get` does, and `None` only where what is
/// stored for the point is not the text of an object.
pub proof fn law_checked_get(
    storage: &MmapPayloadStorage,
    point_id: PointOffset,
    counters: (&mut HardwareCounterCell, &mut HardwareCounterCell),
    results: (
        Option<Result<Payload, OperationError>>,
        Option<Result<Payload, OperationError>>,
    ),
)
    requires
        call_ensures(MmapPayloadStorage::checked_get, (storage, point_id, counters.0), results.0),
        call_ensures(
            MmapPayloadStorage::checked_get_sequential,
            (storage, point_id, counters.1),
            results.1,
        ),
    ensures
        results.0 is Some <==> is_legible_point(*storage, point_id),
        results.1 is Some <==> is_legible_point(*storage, point_id),
        results.0 matches Some(result) ==> is_payload_of(storage, point_id, result),
        results.1 matches Some(result) ==> is_payload_of(storage, point_id, result),
{
    assert(crate::json::no_entries() =~= Map::<Seq<char>, Json>::empty());
}

/// `checked_set` does what `set` does where what is stored for the point is the text of an object,
/// and nothing where it is not.
pub proof fn law_checked_set<M>(
    storage: &mut MmapPayloadStorage,
    point_id: PointOffset,
    payload: &Payload,
    merge: M,
    hw_counter: &mut HardwareCounterCell,
    result: Option<Result<(), OperationError>>,
    stored: Map<Seq<char>, Json>,
) where M: FnOnce(Payload, &Payload) -> Payload
    requires
        call_ensures(
            MmapPayloadStorage::checked_set::<M>,
            (storage, point_id, payload, merge, hw_counter),
            result,
        ),
        match old(storage).store().cell(point_id as int) {
            Ok(Some(record)) => forall|current: Payload, merged: Payload|
                Some(current@) == crate::text::parsed(record.bytes) && #[trigger] call_ensures(
                    merge,
                    (current, payload),
                    merged,
                ) ==> merged@ == stored,
            Ok(None) => stored == payload@,
            Err(_) => true,
        },
    ensures
        result is Some <==> is_legible_point(*old(storage), point_id),
        result is Some ==> is_counted_read(
            *old(storage),
            point_id,
            old(hw_counter).payload_io_read,
            final(hw_counter).payload_io_read,
        ),
        result is None ==> *final(hw_counter) == *old(hw_counter),
        result matches Some(result) ==> is_counted_write(
            *final(storage),
            point_id,
            result is Ok,
            old(hw_counter).payload_io_write,
            final(hw_counter).payload_io_write,
        ),
        match result {
            None => crate::storing_laws::changes_nothing(*old(storage), *final(storage)),
            Some(result) => match old(storage).store().cell(point_id as int) {
                Ok(_) => is_outcome_of_storing(
                    *old(storage),
                    *final(storage),
                    point_id,
                    stored,
                    result is Ok,
                ),
                Err(error) => {
                    &&& result == Err::<(), OperationError>(OperationError::Gridstore(error))
                    &&& crate::storing_laws::changes_nothing(*old(storage), *final(storage))
                },
            },
        },
{
    let counts = (old(hw_counter).payload_io_read, old(hw_counter).payload_io_write);
    let counts_after = (final(hw_counter).payload_io_read, final(hw_counter).payload_io_write);
    let before = *old(storage);
    let after = *final(storage);
    let fits = point_id < 0xffff_ffff && crate::storing_laws::written_len(stored) <= 0xe000_0000
        && crate::storing_laws::is_roomy(before.store(), crate::storing_laws::written_len(stored));
    if let Some(result) = result {
        match before.store().cell(point_id as int) {
            Ok(Some(record)) => {
                let current = crate::text::parsed(record.bytes)->0;
                if fits {
                    crate::storing_laws::law_set_succeeds(
                        before,
                        after,
                        point_id,
                        payload,
                        merge,
                        counts,
                        result,
                        counts_after,
                        current,
                        stored,
                    );
                }
                if result is Ok {
                    crate::storing_laws::law_set_stores_what_merge_gives(
                        before,
                        after,
                        point_id,
                        payload,
                        merge,
                        counts,
                        counts_after,
                        current,
                        stored,
                    );
                }
            },
            _ => {
                crate::storing_laws::law_set_without_a_payload(
                    before,
                    after,
                    point_id,
                    payload,
                    merge,
                    counts,
                    result,
                    counts_after,
                );
            },
        }
    }
}

/// `checked_set_by_key` does what `set_by_key` does where what is stored for the point is the text
/// of an object, and nothing where it is not.
pub proof fn law_checked_set_by_key<K, M>(
    storage: &mut MmapPayloadStorage,
    point_id: PointOffset,
    payload: &Payload,
    key: &K,
    merge_by_key: M,
    hw_counter: &mut HardwareCounterCell,
    result: Option<Result<(), OperationError>>,
    stored: Map<Seq<char>, Json>,
) where M: FnOnce(Payload, &Payload, &K) -> Payload
    requires
        call_ensures(
            MmapPayloadStorage::checked_set_by_key::<K, M>,
            (storage, point_id, payload, key, merge_by_key, hw_counter),
            result,
        ),
        match old(storage).store().cell(point_id as int) {
            Ok(Some(record)) => forall|current: Payload, merged: Payload|
                Some(current@) == crate::text::parsed(record.bytes) && #[trigger] call_ensures(
                    merge_by_key,
                    (current, payload, key),
                    merged,
                ) ==> merged@ == stored,
            Ok(None) => forall|empty: Payload, merged: Payload|
                empty@ == Map::<Seq<char>, Json>::empty() && #[trigger] call_ensures(
                    merge_by_key,
                    (empty, payload, key),
                    merged,
                ) ==> merged@ == stored,
            Err(_) => true,
        },
    ensures
        result is Some <==> is_legible_point(*old(storage), point_id),
        result is Some ==> is_counted_read(
            *old(storage),
            point_id,
            old(hw_counter).payload_io_read,
            final(hw_counter).payload_io_read,
        ),
        result is None ==> *final(hw_counter) == *old(hw_counter),
        result matches Some(result) ==> is_counted_write(
            *final(storage),
            point_id,
            result is Ok,
            old(hw_counter).payload_io_write,
            final(hw_counter).payload_io_write,
        ),
        match result {
            None => crate::storing_laws::changes_nothing(*old(storage), *final(storage)),
            Some(result) => match old(storage).store().cell(point_id as int) {
                Ok(_) => is_outcome_of_storing(
                    *old(storage),
                    *final(storage),
                    point_id,
                    stored,
                    result is Ok,
                ),
                Err(error) => {
                    &&& result == Err::<(), OperationError>(OperationError::Gridstore(error))
                    &&& crate::storing_laws::changes_nothing(*old(storage), *final(storage))
                },
            },
        },
{
    let counts = (old(hw_counter).payload_io_read, old(hw_counter).payload_io_write);
    let counts_after = (final(hw_counter).payload_io_read, final(hw_counter).payload_io_write);
    let before = *old(storage);
    let after = *final(storage);
    assert(crate::json::no_entries() =~= Map::<Seq<char>, Json>::empty());
    if let Some(result) = result {
        if before.store().cell(point_id as int) is Ok {
            crate::storing_laws::law_set_by_key_stores_what_merge_gives(
                before,
                after,
                point_id,
                payload,
                key,
                merge_by_key,
                counts,
                result,
                counts_after,
                crate::storing_laws::payload_or_empty(before, point_id as int)->0,
                stored,
            );
        }
    }
}

/// `checked_delete` does what `delete` does where what is stored for the point is the text of an
/// object, and nothing where it is not.
pub proof fn law_checked_delete<K, R>(
    storage: &mut MmapPayloadStorage,
    point_id: PointOffset,
    key: &K,
    remove: R,
    hw_counter: &mut HardwareCounterCell,
    result: Option<Result<Vec<JsonValue>, OperationError>>,
    rest: Map<Seq<char>, Json>,
    taken: Seq<JsonValue>,
) where R: FnOnce(Payload, &K) -> (Payload, Vec<JsonValue>)
    requires
        call_ensures(
            MmapPayloadStorage::checked_delete::<K, R>,
            (storage, point_id, key, remove, hw_counter),
            result,
        ),
        match old(storage).store().cell(point_id as int) {
            Ok(Some(record)) => forall|current: Payload, left: Payload, removed: Vec<JsonValue>|
                Some(current@) == crate::text::parsed(record.bytes) && #[trigger] call_ensures(
                    remove,
                    (current, key),
                    (left, removed),
                ) ==> left@ == rest && removed@ == taken,
            Ok(None) => taken.len() == 0,
            Err(_) => true,
        },
    ensures
        result is Some <==> is_legible_point(*old(storage), point_id),
        result is Some ==> is_counted_read(
            *old(storage),
            point_id,
            old(hw_counter).payload_io_read,
            final(hw_counter).payload_io_read,
        ),
        result is None ==> *final(hw_counter) == *old(hw_counter),
        result matches Some(result) ==> is_counted_write(
            *final(storage),
            point_id,
            result is Ok && taken.len() > 0,
            old(hw_counter).payload_io_write,
            final(hw_counter).payload_io_write,
        ),
        match result {
            None => crate::storing_laws::changes_nothing(*old(storage), *final(storage)),
            Some(result) => match old(storage).store().cell(point_id as int) {
                Ok(_) => {
                    &&& result matches Ok(removed) ==> removed@ =~= taken
                    &&& if taken.len() == 0 {
                        result is Ok && crate::storing_laws::changes_nothing(
                            *old(storage),
                            *final(storage),
                        )
                    } else {
                        is_outcome_of_storing(
                            *old(storage),
                            *final(storage),
                            point_id,
                            rest,
                            result is Ok,
                        )
                    }
                },
                Err(error) => {
                    &&& result == Err::<Vec<JsonValue>, OperationError>(
                        OperationError::Gridstore(error),
                    )
                    &&& crate::storing_laws::changes_nothing(*old(storage), *final(storage))
                },
            },
        },
{
    let counts = (old(hw_counter).payload_io_read, old(hw_counter).payload_io_write);
    let counts_after = (final(hw_counter).payload_io_read, final(hw_counter).payload_io_write);
    let before = *old(storage);
    let after = *final(storage);
    if let Some(result) = result {
        match before.store().cell(point_id as int) {
            Ok(Some(record)) => {
                crate::storing_laws::law_delete_stores_the_rest(
                    before,
                    after,
                    point_id,
                    key,
                    remove,
                    counts,
                    result,
                    counts_after,
                    crate::text::parsed(record.bytes)->0,
                    rest,
                    taken,
                );
            },
            _ => {
                crate::storing_laws::law_delete_without_a_payload(
                    before,
                    after,
                    point_id,
                    key,
                    remove,
                    counts,
                    result,
                    counts_after,
                );
            },
        }
    }
}

/// `checked_clear` does what `clear` does where what is stored for the point is the text of an
/// object, and nothing where it is not.
pub proof fn law_checked_clear(
    storage: &mut MmapPayloadStorage,
    point_id: PointOffset,
    hw_counter: &HardwareCounterCell,
    result: Option<Result<Option<Payload>, OperationError>>,
)
    requires
        call_ensures(MmapPayloadStorage::checked_clear, (storage, point_id, hw_counter), result),
    ensures
        result is Some <==> is_legible_point(*old(storage), point_id),
        match result {
            None => crate::storing_laws::changes_nothing(*old(storage), *final(storage)),
            Some(result) => match old(storage).store().cell(point_id as int) {
                Ok(Some(record)) => {
                    &&& result matches Ok(Some(payload)) && crate::text::parsed(record.bytes)
                        == Some(payload@)
                    &&& final(storage).store().cell(point_id as int) == Ok::<
                        Option<Record>,
                        GridstoreError,
                    >(None)
                    &&& crate::storing_laws::changes_only(*old(storage), *final(storage), point_id)
                },
                Ok(None) => {
                    &&& result == Ok::<Option<Payload>, OperationError>(None)
                    &&& crate::storing_laws::changes_nothing(*old(storage), *final(storage))
                },
                Err(error) => {
                    &&& result == Err::<Option<Payload>, OperationError>(
                        OperationError::Gridstore(error),
                    )
                    &&& crate::storing_laws::changes_nothing(*old(storage), *final(storage))
                },
            },
        },
{
    if let Some(result) = result {
        crate::storing_laws::law_clear_takes_the_payload(
            *old(storage),
            *final(storage),
            point_id,
            result,
        );
    }
}

}
