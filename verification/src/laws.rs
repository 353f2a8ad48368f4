//! What holds of the storage over several operations.

use crate::blob::Blob;
use crate::callback::Call;
use crate::config::{Compression, StorageConfig};
use crate::error::{GridstoreError, OperationError};
use crate::gridstore::Gridstore;
use crate::json::{Json, JsonValue};
use crate::layout::Cell;
use crate::mmap_payload_storage::MmapPayloadStorage;
use crate::open::OpenStep;
use crate::pages::Pages;
use crate::payload::Payload;
use crate::steps::Outcome;
use crate::tracker::{PointOffset, Tracker};
use vstd::prelude::*;

verus! {

/// A payload that was stored is read back: the same one, if its text is read as itself. That is
/// certain if it is nested no deeper than can be read and no number in it is kept as a
/// floating-point number.
pub proof fn law_get_returns_what_was_stored(
    before: MmapPayloadStorage,
    after: MmapPayloadStorage,
    point_id: PointOffset,
    payload: Payload,
    write_counts: (u64, u64),
    read_counts: (u64, u64),
    got: Result<Payload, OperationError>,
)
    requires
        before.is_stored(after, point_id, payload, write_counts.0, Ok(()), write_counts.1),
        payload.is_kept() || payload.exact(),
        crate::mmap_payload_storage::is_got(
            after.store().cell(point_id as int),
            read_counts.0,
            got,
            read_counts.1,
        ),
    ensures
        got matches Ok(read) && read@ == payload@,
{
}

/// Storing a payload for a point changes no other point.
pub proof fn law_put_keeps_other_points<V: Blob>(
    before: Gridstore<V>,
    after: Gridstore<V>,
    offset: PointOffset,
    value: V,
    outcome: Result<(), GridstoreError>,
    other: int,
)
    requires
        before.is_put(after, offset, value, outcome),
        other != offset,
        0 <= other,
    ensures
        after.cell(other) == before.cell(other),
{
}

/// A store that cannot take a value stays as it was.
pub proof fn law_failed_put_keeps_store<V: Blob>(
    before: Gridstore<V>,
    after: Gridstore<V>,
    offset: PointOffset,
    value: V,
    error: GridstoreError,
)
    requires
        before.is_put(after, offset, value, Err(error)),
    ensures
        before.same(after),
{
}

/// A payload that fails to be set leaves the storage as it was.
pub proof fn law_failed_set_keeps_storage<M>(
    before: MmapPayloadStorage,
    after: MmapPayloadStorage,
    point_id: PointOffset,
    payload: &Payload,
    merge: M,
    counts: (u64, u64),
    error: OperationError,
    counts_after: (u64, u64),
) where M: FnOnce(Payload, &Payload) -> Payload
    requires
        before.is_set(after, point_id, payload, merge, counts, Err(error), counts_after),
    ensures
        before.store().same(after.store()),
        counts_after.1 == counts.1,
{
}

/// A payload that fails to be set under a key leaves the storage as it was.
pub proof fn law_failed_set_by_key_keeps_storage<K, M>(
    before: MmapPayloadStorage,
    after: MmapPayloadStorage,
    point_id: PointOffset,
    payload: &Payload,
    key: &K,
    merge_by_key: M,
    counts: (u64, u64),
    error: OperationError,
    counts_after: (u64, u64),
) where M: FnOnce(Payload, &Payload, &K) -> Payload
    requires
        before.is_set_by_key(
            after,
            point_id,
            payload,
            key,
            merge_by_key,
            counts,
            Err(error),
            counts_after,
        ),
    ensures
        before.store().same(after.store()),
        counts_after.1 == counts.1,
{
}

/// A key that fails to be taken away leaves the storage as it was.
pub proof fn law_failed_delete_keeps_storage<K, R>(
    before: MmapPayloadStorage,
    after: MmapPayloadStorage,
    point_id: PointOffset,
    key: &K,
    remove: R,
    counts: (u64, u64),
    error: OperationError,
    counts_after: (u64, u64),
) where R: FnOnce(Payload, &K) -> (Payload, Vec<JsonValue>)
    requires
        before.is_deleted(after, point_id, key, remove, counts, Err(error), counts_after),
    ensures
        before.store().same(after.store()),
        counts_after.1 == counts.1,
{
}

/// Setting a payload for a point without one stores it, whatever `merge` does.
pub proof fn law_set_without_payload_stores<M>(
    before: MmapPayloadStorage,
    after: MmapPayloadStorage,
    point_id: PointOffset,
    payload: &Payload,
    merge: M,
    counts: (u64, u64),
    result: Result<(), OperationError>,
    counts_after: (u64, u64),
) where M: FnOnce(Payload, &Payload) -> Payload
    requires
        before.is_set(after, point_id, payload, merge, counts, result, counts_after),
        before.store().cell(point_id as int) matches Ok(None),
    ensures
        before.is_stored(after, point_id, *payload, counts.1, result, counts_after.1),
        counts_after.0 == counts.0,
{
}

/// Taking a key away where there is nothing to take away leaves the storage as it was.
pub proof fn law_delete_of_nothing_keeps_storage<K, R>(
    before: MmapPayloadStorage,
    after: MmapPayloadStorage,
    point_id: PointOffset,
    key: &K,
    remove: R,
    counts: (u64, u64),
    removed: Vec<JsonValue>,
    counts_after: (u64, u64),
) where R: FnOnce(Payload, &K) -> (Payload, Vec<JsonValue>)
    requires
        before.is_deleted(after, point_id, key, remove, counts, Ok(removed), counts_after),
        removed@.len() == 0,
    ensures
        before.store().same(after.store()),
        counts_after.1 == counts.1,
{
}

/// A point whose payload was taken away has the empty one, and there is nothing more to take away.
/// No other point changes.
pub proof fn law_cleared_point_is_empty(
    before: MmapPayloadStorage,
    after: MmapPayloadStorage,
    twice: MmapPayloadStorage,
    point_id: PointOffset,
    cleared: Option<Payload>,
    again: Result<Option<Payload>, OperationError>,
    counts: (u64, u64),
    got: Result<Payload, OperationError>,
)
    requires
        before.is_cleared(after, point_id, Ok(cleared)),
        after.is_cleared(twice, point_id, again),
        crate::mmap_payload_storage::is_got(
            after.store().cell(point_id as int),
            counts.0,
            got,
            counts.1,
        ),
    ensures
        got matches Ok(payload) && payload@ == crate::json::no_entries(),
        counts.1 == counts.0,
        again == Ok::<Option<Payload>, OperationError>(None),
        after.store().same(twice.store()),
        forall|other: int|
            0 <= other && other != point_id ==> #[trigger] after.store().cell(other)
                == before.store().cell(other),
{
}

/// The payload that is taken away is the one that was read before.
pub proof fn law_clear_returns_what_was_read(
    before: MmapPayloadStorage,
    after: MmapPayloadStorage,
    point_id: PointOffset,
    cleared: Payload,
    counts: (u64, u64),
    got: Payload,
)
    requires
        before.is_cleared(after, point_id, Ok(Some(cleared))),
        crate::mmap_payload_storage::is_got(
            before.store().cell(point_id as int),
            counts.0,
            Ok(got),
            counts.1,
        ),
    ensures
        cleared@ == got@,
{
}

/// The calls of a walk are those for the first points for which something is stored, in order: each
/// point once, with the value that is stored for it. Every call but the last was answered
/// `Ok(true)`; the walk ends after a call that was answered otherwise, with its error, or well.
pub proof fn law_walk_calls<V: Blob, E: From<GridstoreError>>(
    cells: Seq<Cell>,
    from: int,
    count: u64,
    calls: Seq<Call<V, E>>,
    result: Result<(), E>,
    count_after: u64,
)
    requires
        0 <= from,
        crate::walk::walked(cells, from, count, calls, result, count_after),
    ensures
        calls.len() <= crate::walk::stored(cells, from).len(),
        forall|k: int|
            0 <= k < calls.len() ==> (#[trigger] calls[k]).0 == crate::walk::stored(cells, from)[k],
        forall|k: int|
            0 <= k < calls.len() ==> crate::walk::is_value_of(
                cells[(#[trigger] calls[k]).0 as int],
                calls[k].1,
            ),
        forall|k: int|
            0 <= k < calls.len() - 1 ==> (#[trigger] calls[k]).2 == Ok::<bool, E>(true),
        forall|j: int, k: int|
            0 <= j < k < calls.len() ==> (#[trigger] calls[j]).0 < (#[trigger] calls[k]).0,
        !crate::scan::unended(calls) ==> result == (match calls.last().2 {
            Ok(_) => Ok(()),
            Err(error) => Err(error),
        }),
    decreases cells.len() - from,
{
    crate::walk::lemma_stored(cells, from);
    if from < cells.len() {
        match cells[from] {
            Err(_) => {},
            Ok(None) => {
                law_walk_calls(cells, from + 1, count, calls, result, count_after);
            },
            Ok(Some(record)) => {
                if calls[0].2 == Ok::<bool, E>(true) {
                    let read = crate::counter::counted(count, record.raw.len());
                    let rest = calls.drop_first();
                    law_walk_calls(cells, from + 1, read, rest, result, count_after);
                    assert forall|k: int| 0 < k < calls.len() implies #[trigger] calls[k]
                        == rest[k - 1] by {}
                    let points = crate::walk::stored(cells, from);
                    let others = crate::walk::stored(cells, from + 1);
                    assert forall|k: int| 0 < k < points.len() implies #[trigger] points[k]
                        == others[k - 1] by {}
                }
            },
        }
    }
    let points = crate::walk::stored(cells, from);
    assert forall|j: int, k: int| 0 <= j < k < calls.len() implies (#[trigger] calls[j]).0 < (
    #[trigger] calls[k]).0 by {
        assert(calls[j].0 == points[j] && calls[k].0 == points[k]);
    }
}

/// A walk that no answer ends reaches every point: it fails if and only if what is stored for some
/// point could not be read. If it does not fail, there is one call for each point for which
/// something is stored: none is skipped, and none has two.
pub proof fn law_walk_reaches_every_point<V: Blob, E: From<GridstoreError>>(
    cells: Seq<Cell>,
    from: int,
    count: u64,
    calls: Seq<Call<V, E>>,
    result: Result<(), E>,
    count_after: u64,
)
    requires
        0 <= from,
        crate::walk::walked(cells, from, count, calls, result, count_after),
        crate::scan::unended(calls),
    ensures
        result is Ok <==> forall|i: int| from <= i < cells.len() ==> (#[trigger] cells[i]) is Ok,
        result is Ok ==> calls.len() == crate::walk::stored(cells, from).len(),
        forall|k: int|
            0 <= k < calls.len() ==> (#[trigger] calls[k]).0 == crate::walk::stored(cells, from)[k],
    decreases cells.len() - from,
{
    law_walk_calls(cells, from, count, calls, result, count_after);
    if from < cells.len() {
        match cells[from] {
            Err(_) => {
                assert(!(cells[from] is Ok));
            },
            Ok(None) => {
                law_walk_reaches_every_point(cells, from + 1, count, calls, result, count_after);
            },
            Ok(Some(record)) => {
                let read = crate::counter::counted(count, record.raw.len());
                let rest = calls.drop_first();
                assert(calls.len() > 1 ==> rest.last() == calls.last());
                law_walk_reaches_every_point(cells, from + 1, read, rest, result, count_after);
            },
        }
    }
}

/// A walk that looks for bytes of no value, and comes to none, is a walk like any other.
pub proof fn law_checked_walk_is_a_walk<V: Blob, E: From<GridstoreError>>(
    cells: Seq<Cell>,
    from: int,
    count: u64,
    calls: Seq<Call<V, E>>,
    result: Result<(), E>,
    count_after: u64,
)
    requires
        crate::walk::walked_checked(cells, from, count, calls, Some(result), count_after),
    ensures
        crate::walk::walked(cells, from, count, calls, result, count_after),
    decreases cells.len() - from,
{
    if from < cells.len() {
        match cells[from] {
            Err(_) => {},
            Ok(None) => {
                law_checked_walk_is_a_walk(cells, from + 1, count, calls, result, count_after);
            },
            Ok(Some(record)) => {
                if calls[0].2 == Ok::<bool, E>(true) {
                    let read = crate::counter::counted(count, record.raw.len());
                    let rest = calls.drop_first();
                    law_checked_walk_is_a_walk(cells, from + 1, read, rest, result, count_after);
                }
            },
        }
    }
}

/// What a walk hands over for a point is the payload that is read for it.
pub proof fn law_walk_hands_over_what_is_read(
    storage: MmapPayloadStorage,
    count: u64,
    calls: Seq<Call<Payload, OperationError>>,
    result: Result<(), OperationError>,
    count_after: u64,
    k: int,
    counts: (u64, u64),
    got: Result<Payload, OperationError>,
)
    requires
        crate::walk::walked(storage.store().cells(), 0, count, calls, result, count_after),
        0 <= k < calls.len(),
        crate::mmap_payload_storage::is_got(
            storage.store().cell(calls[k].0 as int),
            counts.0,
            got,
            counts.1,
        ),
    ensures
        got matches Ok(payload) && payload@ == calls[k].1@,
{
    law_walk_calls(storage.store().cells(), 0, count, calls, result, count_after);
    crate::walk::lemma_stored(storage.store().cells(), 0);
}

/// The steps of opening or creating a storage, one after the other.
pub open spec fn is_open_run(
    steps: Seq<OpenStep>,
    outcomes: Seq<Outcome>,
    populate: bool,
) -> bool {
    &&& steps.len() == outcomes.len() + 1
    &&& steps[0] is FindDirectory
    &&& forall|i: int|
        0 <= i < outcomes.len() ==> #[trigger] MmapPayloadStorage::is_open_step(
            steps[i],
            outcomes[i],
            populate,
            steps[i + 1],
        )
}

/// The directory was found in the first step.
pub open spec fn was_found(outcomes: Seq<Outcome>) -> bool {
    outcomes.len() > 0 && outcomes[0] == Outcome::Found(true)
}

/// The store is one that the caller opened.
pub open spec fn was_opened(outcomes: Seq<Outcome>, store: Gridstore<Payload>) -> bool {
    exists|i: int|
        0 <= i < outcomes.len() && #[trigger] outcomes[i] == Outcome::Opened(Ok(store))
}

/// A storage holds the store that the caller opened where its directory was found, and a new one
/// with the default options where it was not. It is populated if and only if that was asked for.
pub proof fn law_opened_as_asked(
    steps: Seq<OpenStep>,
    outcomes: Seq<Outcome>,
    populate: bool,
    storage: MmapPayloadStorage,
)
    requires
        is_open_run(steps, outcomes, populate),
        steps.last() == (OpenStep::Opened { storage }),
    ensures
        storage.populated() == populate,
        was_found(outcomes) ==> was_opened(outcomes, storage.store()),
        !was_found(outcomes) ==> crate::open::is_default_store(storage.store()),
{
    lemma_open_run(steps, outcomes, populate, outcomes.len() as int);
}

/// The step is one that a run comes to.
spec fn on_the_open_way(outcomes: Seq<Outcome>, populate: bool, n: int, step: OpenStep) -> bool {
    match step {
        OpenStep::FindDirectory => n == 0,
        OpenStep::OpenStorage => n > 0 && was_found(outcomes),
        OpenStep::CreateDirectory | OpenStep::CreateStorage => n > 0 && !was_found(outcomes),
        OpenStep::Populate { storage } | OpenStep::Opened { storage } => {
            &&& n > 0
            &&& storage.populated() == populate
            &&& was_found(outcomes) ==> was_opened(outcomes, storage.store())
            &&& !was_found(outcomes) ==> crate::open::is_default_store(storage.store())
        },
        OpenStep::Failed(_) => n > 0,
    }
}

/// Each step of a run is one that it comes to.
proof fn lemma_open_run(steps: Seq<OpenStep>, outcomes: Seq<Outcome>, populate: bool, n: int)
    requires
        is_open_run(steps, outcomes, populate),
        0 <= n <= outcomes.len(),
    ensures
        on_the_open_way(outcomes, populate, n, steps[n]),
    decreases n,
{
    if n > 0 {
        lemma_open_run(steps, outcomes, populate, n - 1);
        assert(MmapPayloadStorage::is_open_step(
            steps[n - 1],
            outcomes[n - 1],
            populate,
            steps[n - 1 + 1],
        ));
        if let Outcome::Opened(Ok(store)) = outcomes[n - 1] {
            assert(outcomes[n - 1] == Outcome::Opened(Ok(store)));
            assert(was_opened(outcomes, store));
        }
    }
}

/// A storage whose directory was not there is empty: every point has the empty payload, and a walk
/// ends before it calls its callback.
pub proof fn law_created_storage_is_empty(
    steps: Seq<OpenStep>,
    outcomes: Seq<Outcome>,
    populate: bool,
    storage: MmapPayloadStorage,
    count: u64,
    calls: Seq<Call<Payload, OperationError>>,
    result: Result<(), OperationError>,
    count_after: u64,
)
    requires
        is_open_run(steps, outcomes, populate),
        steps.last() == (OpenStep::Opened { storage }),
        !was_found(outcomes),
    ensures
        storage.store().configured().compression == Compression::LZ4,
        forall|point_id: int| #[trigger]
            storage.store().cell(point_id) == Ok::<
                Option<crate::layout::Record>,
                GridstoreError,
            >(None),
        crate::walk::walked(storage.store().cells(), 0, count, calls, result, count_after)
            <==> calls.len() == 0 && result == Ok::<(), OperationError>(()) && count_after == count,
{
    law_opened_as_asked(steps, outcomes, populate, storage);
}

/// Where a store was opened, it was put together from given parts.
pub open spec fn opens_parts(
    outcomes: Seq<Outcome>,
    config: StorageConfig,
    tracker: Tracker,
    pages: Pages,
    dictionary: Option<Seq<u8>>,
) -> bool {
    forall|i: int|
        0 <= i < outcomes.len() ==> ((#[trigger] outcomes[i]) matches Outcome::Opened(opened)
            ==> Gridstore::<Payload>::is_assembled(config, tracker, pages, dictionary, opened))
}

/// A storage that was flushed opens again with the same payloads: where its directory is found and
/// the parts that are read there are those that were written, every point has what it had, reading
/// it gives the same payload, a walk hands over the same payloads, and the storage is never
/// replaced by an empty one. Whether it is populated is asked for anew.
pub proof fn law_flushed_storage_opens_again(
    flushed: MmapPayloadStorage,
    config: StorageConfig,
    tracker: Tracker,
    pages: Pages,
    dictionary: Option<Seq<u8>>,
    steps: Seq<OpenStep>,
    outcomes: Seq<Outcome>,
    populate: bool,
    storage: MmapPayloadStorage,
)
    requires
        flushed.store().is_made_of(config, tracker, pages, dictionary),
        is_open_run(steps, outcomes, populate),
        was_found(outcomes),
        opens_parts(outcomes, config, tracker, pages, dictionary),
        steps.last() == (OpenStep::Opened { storage }),
    ensures
        storage.store().configured() == flushed.store().configured(),
        storage.store().trained() == flushed.store().trained(),
        storage.store().cells() == flushed.store().cells(),
        storage.populated() == populate,
        forall|point_id: int| #[trigger]
            storage.payload(point_id) == flushed.payload(point_id),
        forall|point_id: int, counts: (u64, u64), before: Payload, after: Payload|
            #[trigger]
            is_read(flushed, point_id, counts, before) && #[trigger] is_read(
                storage,
                point_id,
                counts,
                after,
            ) ==> before@ == after@,
        forall|
            count: u64,
            calls: Seq<Call<Payload, OperationError>>,
            result: Result<(), OperationError>,
            count_after: u64,
        | #[trigger]
            crate::walk::walked(storage.store().cells(), 0, count, calls, result, count_after)
                == crate::walk::walked(
                flushed.store().cells(),
                0,
                count,
                calls,
                result,
                count_after,
            ),
{
    law_opened_as_asked(steps, outcomes, populate, storage);
    let i = choose|i: int|
        0 <= i < outcomes.len() && #[trigger] outcomes[i] == Outcome::Opened(Ok(storage.store()));
    assert(outcomes[i] == Outcome::Opened(Ok(storage.store())));
    assert forall|point_id: int| #[trigger]
        storage.payload(point_id) == flushed.payload(point_id) by {
        assert(storage.store().cell(point_id) == flushed.store().cell(point_id));
    }
}

/// The payload is what reading a point of the storage returns.
pub open spec fn is_read(
    storage: MmapPayloadStorage,
    point_id: int,
    counts: (u64, u64),
    payload: Payload,
) -> bool {
    crate::mmap_payload_storage::is_got(
        storage.store().cell(point_id),
        counts.0,
        Ok(payload),
        counts.1,
    )
}

/// A storage that is compressed with a dictionary, or not at all, is not optimized.
pub proof fn law_optimized_once(storage: MmapPayloadStorage)
    requires
        storage.store().configured().compression != Compression::LZ4,
    ensures
        storage.sample_size() == 0,
{
}

/// No more payloads are sampled than there are points, nor more than the limit, and none only
/// where there is nothing to optimize.
pub proof fn law_sample_is_bounded(storage: MmapPayloadStorage)
    ensures
        0 <= storage.sample_size() <= crate::optimize::DICT_SAMPLE_SIZE,
        storage.sample_size() <= storage.store().cells().len(),
        storage.sample_size() == 0 <==> storage.store().configured().compression
            != Compression::LZ4 || storage.store().cells().len() == 0,
{
}

/// The schema that a dictionary is trained from carries no data: all its leaves are zeroed.
pub proof fn law_dictionary_carries_no_data(store: Gridstore<Payload>, offsets: Seq<usize>)
    ensures
        crate::optimize::schema_of(store, offsets) is Object,
        crate::optimize::schema_of(store, offsets).default_of() == crate::optimize::schema_of(
            store,
            offsets,
        ),
    decreases offsets.len(),
{
    if offsets.len() == 0 {
        assert(crate::optimize::schema_of(store, offsets).default_of()->Object_0
            =~= crate::json::no_entries());
    } else {
        law_dictionary_carries_no_data(store, offsets.drop_last());
        if let Ok(Some(record)) = store.cell(offsets.last() as int) {
            crate::schema::law_merge_keeps_leaves_zeroed(
                crate::optimize::schema_of(store, offsets.drop_last()),
                Json::Object(crate::text::parsed(record.bytes)->0),
            );
        }
    }
}

/// The schema that a dictionary is trained from has every key of every payload in the sample.
pub proof fn law_dictionary_has_every_key(
    store: Gridstore<Payload>,
    offsets: Seq<usize>,
    i: int,
    key: Seq<char>,
)
    requires
        0 <= i < offsets.len(),
        store.cell(offsets[i] as int) matches Ok(Some(record)) && crate::text::parsed(
            record.bytes,
        ) matches Some(object) && object.contains_key(key),
    ensures
        crate::optimize::schema_of(store, offsets)->Object_0.contains_key(key),
    decreases offsets.len(),
{
    let front = crate::optimize::schema_of(store, offsets.drop_last());
    law_dictionary_carries_no_data(store, offsets.drop_last());
    if i < offsets.len() - 1 {
        assert(offsets.drop_last()[i] == offsets[i]);
        law_dictionary_has_every_key(store, offsets.drop_last(), i, key);
    }
    if let Ok(Some(record)) = store.cell(offsets.last() as int) {
        crate::schema::law_merge_unites_keys(
            front->Object_0,
            crate::text::parsed(record.bytes)->0,
        );
    }
}

}
