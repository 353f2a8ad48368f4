//! What an optimization comes to.

use crate::blob::Blob;
use crate::config::Compression;
use crate::error::{GridstoreError, OperationError};
use crate::gridstore::Gridstore;
use crate::json::Json;
use crate::layout::{Cell, Record};
use crate::mmap_payload_storage::MmapPayloadStorage;
use crate::optimize::OptimizeStep;
use crate::payload::Payload;
use crate::steps::Outcome;
use crate::tracker::PointOffset;
use vstd::prelude::*;

verus! {

/// The storages and the steps of an optimization, one after the other: each follows from the one
/// before and the outcome of its work on disk.
pub open spec fn is_sequence(
    storages: Seq<MmapPayloadStorage>,
    steps: Seq<OptimizeStep>,
    outcomes: Seq<Outcome>,
) -> bool {
    &&& storages.len() == outcomes.len() + 1
    &&& steps.len() == outcomes.len() + 1
    &&& forall|i: int|
        0 <= i < outcomes.len() ==> {
            &&& storages[i].is_stepped(
                steps[i],
                #[trigger] outcomes[i],
                storages[i + 1],
                steps[i + 1],
            )
            &&& storages[i + 1].populated() == storages[i].populated()
        }
}

/// Where a sequence that ends well has a step, there is an outcome for it, and the storage stays
/// populated or not.
proof fn lemma_goes_further(
    storages: Seq<MmapPayloadStorage>,
    steps: Seq<OptimizeStep>,
    outcomes: Seq<Outcome>,
    n: int,
)
    requires
        is_sequence(storages, steps, outcomes),
        steps.last() is Done,
        0 <= n < steps.len(),
        steps[n] !is Done,
        storages[n].populated() == storages[0].populated(),
    ensures
        n < outcomes.len(),
        storages[n].is_stepped(steps[n], outcomes[n], storages[n + 1], steps[n + 1]),
        storages[n + 1].populated() == storages[0].populated(),
        steps[n] !is Failed,
        n + 1 < steps.len(),
        steps[n + 1] !is Failed,
{
    assert(n != outcomes.len());
    let outcome = outcomes[n];
    if steps[n + 1] is Failed {
        assert(n + 1 != outcomes.len());
        let after = outcomes[n + 1];
    }
}

/// An optimization that started and ended well did all its work on disk, in this order: it made a
/// directory, wrote the dictionary, created the new store, wrote it, looked for a directory in the
/// way and removed it if there was one, moved the directory of the storage aside, moved the new one
/// in, removed the old one, and opened the store anew; it populated the store if and only if the
/// storage is populated. No step was left out, and none came twice. The store of the storage is the
/// one that was opened in the end.
pub proof fn law_optimization_swaps_directories(
    storages: Seq<MmapPayloadStorage>,
    steps: Seq<OptimizeStep>,
    outcomes: Seq<Outcome>,
)
    requires
        is_sequence(storages, steps, outcomes),
        steps[0] is CreateDirectory,
        steps.last() is Done,
    ensures
        ({
            let stale: int = if outcomes[4] == Outcome::Found(true) {
                1
            } else {
                0
            };
            let populated: int = if storages[0].populated() {
                1
            } else {
                0
            };
            &&& outcomes.len() == 9 + stale + populated
            &&& steps[1] is WriteDictionary
            &&& steps[2] is CreateStorage
            &&& steps[3] is Flush
            &&& steps[4] is FindStale
            &&& stale == 1 ==> steps[5] is RemoveStale
            &&& steps[5 + stale] is MoveAside
            &&& steps[6 + stale] is MoveIn
            &&& steps[7 + stale] is RemoveOld
            &&& steps[8 + stale] is Reopen
            &&& populated == 1 ==> steps[9 + stale] is Populate
            &&& steps[9 + stale + populated] is Done
            &&& outcomes[8 + stale] == Outcome::Opened(Ok(storages.last().store()))
            &&& forall|i: int| 0 <= i < outcomes.len() ==> (#[trigger] outcomes[i]).is_success()
        }),
{
    lemma_goes_further(storages, steps, outcomes, 0);
    lemma_goes_further(storages, steps, outcomes, 1);
    lemma_goes_further(storages, steps, outcomes, 2);
    lemma_goes_further(storages, steps, outcomes, 3);
    lemma_goes_further(storages, steps, outcomes, 4);
    let stale: int = if outcomes[4] == Outcome::Found(true) {
        1
    } else {
        0
    };
    if stale == 1 {
        lemma_goes_further(storages, steps, outcomes, 5);
    }
    lemma_goes_further(storages, steps, outcomes, 5 + stale);
    lemma_goes_further(storages, steps, outcomes, 6 + stale);
    lemma_goes_further(storages, steps, outcomes, 7 + stale);
    lemma_goes_further(storages, steps, outcomes, 8 + stale);
    if storages[0].populated() {
        lemma_goes_further(storages, steps, outcomes, 9 + stale);
        assert(steps[10 + stale] is Done);
        if outcomes.len() > 10 + stale {
            let more = outcomes[10 + stale];
        }
    } else {
        assert(steps[9 + stale] is Done);
        if outcomes.len() > 9 + stale {
            let more = outcomes[9 + stale];
        }
    }
}

/// Every failure of the work on disk ends the optimization, is what it fails with, and leaves the
/// store as it is. Work that was done never ends it, except that the payloads may not be rewritten.
pub proof fn law_failed_work_ends_optimization(
    before: MmapPayloadStorage,
    step: OptimizeStep,
    outcome: Outcome,
    after: MmapPayloadStorage,
    next: OptimizeStep,
)
    requires
        before.is_stepped(step, outcome, after, next),
    ensures
        !outcome.is_success() ==> next is Failed && after.store() == before.store(),
        outcome.is_success() && step !is CreateStorage ==> next !is Failed,
        outcome matches Outcome::File(Err(text)) ==> next == OptimizeStep::Failed(
            OperationError::Io(text),
        ),
        outcome matches Outcome::Opened(Err(error)) ==> (next matches OptimizeStep::Failed(
            OperationError::ServiceError { description },
        ) && description@ == "Failed to reopen optimized payload storage: "@ + error.message()),
        outcome matches Outcome::Store(Err(error)) ==> if step is Flush {
            next matches OptimizeStep::Failed(OperationError::ServiceError { description })
                && description@ == "Failed to flush new storage: "@ + error.message()
        } else {
            next == OptimizeStep::Failed(OperationError::Gridstore(error))
        },
{
}

/// The storage keeps its store until the new one was written to disk and nothing is in the way of
/// the swap; from then on it has the new one, and in the end the one that was opened.
pub proof fn law_store_is_replaced_in_time(
    before: MmapPayloadStorage,
    step: OptimizeStep,
    outcome: Outcome,
    after: MmapPayloadStorage,
    next: OptimizeStep,
)
    requires
        before.is_stepped(step, outcome, after, next),
    ensures
        step is CreateDirectory || step is WriteDictionary || step is CreateStorage || step is Flush
            ==> after.store() == before.store(),
        step matches OptimizeStep::FindStale { storage } ==> after.store() == if outcome
            == Outcome::Found(true) {
            before.store()
        } else {
            storage
        },
        step matches OptimizeStep::RemoveStale { storage } ==> if outcome.is_success() {
            after.store() == storage
        } else {
            after.store() == before.store()
        },
        step is MoveAside || step is MoveIn || step is RemoveOld || step is Populate
            ==> after.store() == before.store(),
        step is Reopen ==> (outcome matches Outcome::Opened(opened) && match opened {
            Ok(store) => after.store() == store,
            Err(_) => after.store() == before.store(),
        }),
        step matches OptimizeStep::Flush { storage } ==> (outcome.is_success() ==> next
            == (OptimizeStep::FindStale { storage })),
        step matches OptimizeStep::CreateDirectory { dictionary } ==> (outcome.is_success() ==> next
            == (OptimizeStep::WriteDictionary { dictionary })),
        step matches OptimizeStep::WriteDictionary { dictionary } ==> (outcome.is_success() ==> next
            == (OptimizeStep::CreateStorage { dictionary })),
{
}

/// The payload of each point after an optimization that started and ended well, where the store
/// that was opened in the end is the one that was written: a point that had none has none, and one
/// that had a payload has one that can be read, and the same one if no number in it is kept as a
/// floating-point number. Each point could be read before. The records are compressed with the
/// dictionary.
pub proof fn law_optimized_payloads(
    storages: Seq<MmapPayloadStorage>,
    steps: Seq<OptimizeStep>,
    outcomes: Seq<Outcome>,
    dictionary: Vec<u8>,
)
    requires
        crate::optimize::is_run(storages, steps, outcomes),
        steps[0] == (OptimizeStep::CreateDirectory { dictionary }),
        steps.last() is Done,
        storages[0].store().cells().len() <= PointOffset::MAX,
    ensures
        storages.last().store().configured().compression == Compression::LZ4Dict,
        storages.last().store().trained() == Some(dictionary@),
        storages.last().populated() == storages[0].populated(),
        forall|i: int|
            (#[trigger] storages[0].store().cell(i)) matches Ok(kept) && match kept {
                None => storages.last().store().cell(i) == Ok::<Option<Record>, GridstoreError>(
                    None,
                ),
                Some(record) => {
                    let object = crate::text::parsed(record.bytes)->0;
                    &&& storages.last().payload(i) is Some
                    &&& storages.last().store().cell(i) matches Ok(Some(copy))
                    &&& copy.bytes == crate::text::text_of(Json::Object(object))
                    &&& Json::Object(object).float_free() ==> storages.last().payload(i) == Some(
                        object,
                    )
                },
            },
{
    crate::optimize::law_optimize_keeps_payloads(storages, steps, outcomes, dictionary);
    let first = storages[0].store();
    let last = storages.last().store();
    assert forall|i: int|
        (#[trigger] first.cell(i)) matches Ok(kept) && match kept {
            None => last.cell(i) == Ok::<Option<Record>, GridstoreError>(None),
            Some(record) => {
                let object = crate::text::parsed(record.bytes)->0;
                &&& storages.last().payload(i) is Some
                &&& last.cell(i) matches Ok(Some(copy))
                &&& copy.bytes == crate::text::text_of(Json::Object(object))
                &&& Json::Object(object).float_free() ==> storages.last().payload(i) == Some(object)
            },
        } by {
        if 0 <= i < first.cells().len() {
            assert(crate::optimize::keeps_payload(first.cells()[i], last.cell(i)));
        }
    }
}

/// A bound on the room that the payloads from a point on take in a new store.
pub open spec fn room_for(cells: Seq<Cell>, from: int) -> int
    decreases cells.len() - from,
{
    if from >= cells.len() {
        0
    } else {
        room_for(cells, from + 1) + match cells[from] {
            Ok(Some(record)) => 2 * crate::storing_laws::written_len(
                crate::text::parsed(record.bytes)->0,
            ) + 256,
            _ => 0,
        }
    }
}

/// The room is not negative.
proof fn lemma_room_for(cells: Seq<Cell>, from: int)
    ensures
        room_for(cells, from) >= 0,
    decreases cells.len() - from,
{
    if from < cells.len() {
        lemma_room_for(cells, from + 1);
    }
}

/// Rewriting the payloads of the points from `from` on succeeds where there is room.
proof fn lemma_rewriting_succeeds(
    cells: Seq<Cell>,
    from: int,
    store: Gridstore<Payload>,
    result: Result<Gridstore<Payload>, OperationError>,
)
    requires
        usize::MAX == 0xffff_ffff_ffff_ffff,
        0 <= from <= cells.len() <= PointOffset::MAX,
        crate::optimize::rewritten(cells, from, store, result),
        forall|i: int|
            0 <= i < cells.len() ==> ((#[trigger] cells[i]) matches Ok(kept) && match kept {
                None => true,
                Some(record) => crate::storing_laws::written_len(
                    crate::text::parsed(record.bytes)->0,
                ) <= 0xe000_0000,
            }),
        store.configured().page_size_bytes == 33554432,
        store.configured().block_size_bytes == 128,
        store.used() >= 0,
        store.used() + room_for(cells, from) <= 0x80_0000_0000_0000,
    ensures
        result is Ok,
    decreases cells.len() - from,
{
    if from < cells.len() {
        let cell = cells[from];
        match cell {
            Err(_) => {},
            Ok(None) => {
                lemma_rewriting_succeeds(cells, from + 1, store, result);
            },
            Ok(Some(record)) => {
                let (payload, after, outcome) = choose|
                    payload: Payload,
                    after: Gridstore<Payload>,
                    outcome: Result<(), GridstoreError>,
                |
                    {
                        &&& Payload::is_decoded(record.bytes, payload)
                        &&& payload.reads_back()
                        &&& #[trigger] store.is_put(after, from as PointOffset, payload, outcome)
                        &&& match outcome {
                            Ok(_) => crate::optimize::rewritten(cells, from + 1, after, result),
                            Err(error) => result == Err::<Gridstore<Payload>, OperationError>(
                                OperationError::Gridstore(error),
                            ),
                        }
                    };
                lemma_room_for(cells, from + 1);
                crate::storing_laws::law_value_is_stored(
                    store,
                    after,
                    from as PointOffset,
                    payload,
                    outcome,
                );
                crate::storing_laws::law_put_changes_one_point(
                    store,
                    after,
                    from as PointOffset,
                    payload,
                );
                crate::storing_laws::lemma_record_bound(
                    store,
                    after,
                    from as PointOffset,
                    payload,
                );
                lemma_rewriting_succeeds(cells, from + 1, after, result);
            },
        }
    }
}

/// The payloads are rewritten where each of them can be read, its text has at most 3.5 GiB, and
/// they take at most 2^55 bytes together: creating the new store then leads on to writing it.
pub proof fn law_payloads_are_rewritten(
    before: MmapPayloadStorage,
    dictionary: Vec<u8>,
    after: MmapPayloadStorage,
    next: OptimizeStep,
)
    requires
        usize::MAX == 0xffff_ffff_ffff_ffff,
        before.is_stepped(
            OptimizeStep::CreateStorage { dictionary },
            Outcome::Store(Ok(())),
            after,
            next,
        ),
        before.store().cells().len() <= PointOffset::MAX,
        forall|i: int|
            0 <= i < before.store().cells().len() ==> ((
            #[trigger] before.store().cells()[i]) matches Ok(kept) && match kept {
                None => true,
                Some(record) => crate::storing_laws::written_len(
                    crate::text::parsed(record.bytes)->0,
                ) <= 0xe000_0000,
            }),
        room_for(before.store().cells(), 0) <= 0x80_0000_0000_0000,
    ensures
        next is Flush,
        after.store() == before.store(),
{
    let cells = before.store().cells();
    let empty = choose|empty: Gridstore<Payload>| #[trigger]
        crate::optimize::is_new_store(empty, dictionary@) && crate::optimize::is_rewrite_step(
            cells,
            empty,
            next,
        );
    if let OptimizeStep::Failed(error) = next {
        lemma_rewriting_succeeds(cells, 0, empty, Err(error));
    }
}

/// Rewriting fails only with the reason for which some point could not be read, or where a payload
/// could not be stored.
pub proof fn law_rewriting_fails_for_a_reason(
    cells: Seq<Cell>,
    from: int,
    store: Gridstore<Payload>,
    error: OperationError,
)
    requires
        0 <= from,
        crate::optimize::rewritten(cells, from, store, Err(error)),
    ensures
        error matches OperationError::Gridstore(reason) && (reason is ValueTooLarge
            || reason is OutOfSpace || exists|i: int|
            from <= i < cells.len() && #[trigger] cells[i] == Err::<
                Option<Record>,
                GridstoreError,
            >(reason)),
    decreases cells.len() - from,
{
    if from < cells.len() {
        let cell = cells[from];
        match cell {
            Err(_) => {},
            Ok(None) => {
                law_rewriting_fails_for_a_reason(cells, from + 1, store, error);
            },
            Ok(Some(record)) => {
                let result = Err::<Gridstore<Payload>, OperationError>(error);
                let (payload, after, outcome) = choose|
                    payload: Payload,
                    after: Gridstore<Payload>,
                    outcome: Result<(), GridstoreError>,
                |
                    {
                        &&& Payload::is_decoded(record.bytes, payload)
                        &&& payload.reads_back()
                        &&& #[trigger] store.is_put(after, from as PointOffset, payload, outcome)
                        &&& match outcome {
                            Ok(_) => crate::optimize::rewritten(cells, from + 1, after, result),
                            Err(error) => result == Err::<Gridstore<Payload>, OperationError>(
                                OperationError::Gridstore(error),
                            ),
                        }
                    };
                match outcome {
                    Ok(_) => {
                        law_rewriting_fails_for_a_reason(cells, from + 1, after, error);
                    },
                    Err(reason) => {
                        crate::storing_laws::law_refused_value_changes_nothing(
                            store,
                            after,
                            from as PointOffset,
                            payload,
                            reason,
                        );
                    },
                }
            },
        }
    }
}

/// An optimization of a storage with plain LZ4 and at least one point starts by training a
/// dictionary on as many points as there are, but on no more than 1000; any other storage is left
/// alone.
pub proof fn law_optimization_starts(
    storage: &MmapPayloadStorage,
    offsets: &[usize],
    step: OptimizeStep,
)
    requires
        call_ensures(MmapPayloadStorage::start_optimize, (storage, offsets), step),
        crate::optimize::is_sample(
            offsets@,
            storage.store().cells().len() as int,
            storage.sample_size(),
        ),
    ensures
        ({
            let points = storage.store().cells().len();
            if storage.store().configured().compression == Compression::LZ4 && points > 0 {
                &&& step is CreateDirectory
                &&& offsets@.len() == if points < 1000 {
                    points
                } else {
                    1000nat
                }
            } else {
                &&& step is Done
                &&& offsets@.len() == 0
            }
        }),
{
}

/// The step comes right after another one whose work on disk was done. Where payloads are to be
/// rewritten, it may also be that this failed.
pub open spec fn is_right_after(
    step: OptimizeStep,
    found: bool,
    populated: bool,
    next: OptimizeStep,
) -> bool {
    match step {
        OptimizeStep::CreateDirectory { .. } => next is WriteDictionary,
        OptimizeStep::WriteDictionary { .. } => next is CreateStorage,
        OptimizeStep::CreateStorage { .. } => next is Flush || next is Failed,
        OptimizeStep::Flush { .. } => next is FindStale,
        OptimizeStep::FindStale { .. } => if found {
            next is RemoveStale
        } else {
            next is MoveAside
        },
        OptimizeStep::RemoveStale { .. } => next is MoveAside,
        OptimizeStep::MoveAside => next is MoveIn,
        OptimizeStep::MoveIn => next is RemoveOld,
        OptimizeStep::RemoveOld => next is Reopen,
        OptimizeStep::Reopen => if populated {
            next is Populate
        } else {
            next is Done
        },
        OptimizeStep::Populate => next is Done,
        OptimizeStep::Done | OptimizeStep::Failed(_) => false,
    }
}

/// A call of `optimize` whose work on disk was done leads on to the step that comes right after,
/// and one whose work failed to a failure. The storage stays populated or not.
pub proof fn law_optimize_step(
    storage: &mut MmapPayloadStorage,
    step: OptimizeStep,
    outcome: Outcome,
    next: OptimizeStep,
)
    requires
        call_ensures(MmapPayloadStorage::optimize, (storage, step, outcome), next),
    ensures
        outcome.is_success() ==> is_right_after(
            step,
            outcome == Outcome::Found(true),
            old(storage).populated(),
            next,
        ),
        !outcome.is_success() ==> next is Failed && final(storage).store() == old(storage).store(),
        step is Reopen && outcome is Opened && outcome.is_success() ==> outcome == Outcome::Opened(
            Ok(final(storage).store()),
        ),
        final(storage).populated() == old(storage).populated(),
{
}

/// A call of `checked_optimize` does what one of `optimize` does, unless payloads are to be
/// rewritten and what is stored for some point is not the text of an object: then nothing changes.
pub proof fn law_checked_optimize_step(
    storage: &mut MmapPayloadStorage,
    step: OptimizeStep,
    outcome: Outcome,
    next: Option<OptimizeStep>,
)
    requires
        call_ensures(MmapPayloadStorage::checked_optimize, (storage, step, outcome), next),
    ensures
        match next {
            Some(next) => {
                &&& outcome.is_success() ==> is_right_after(
                    step,
                    outcome == Outcome::Found(true),
                    old(storage).populated(),
                    next,
                )
                &&& !outcome.is_success() ==> next is Failed && final(storage).store()
                    == old(storage).store()
                &&& step is Reopen && outcome is Opened && outcome.is_success() ==> outcome
                    == Outcome::Opened(Ok(final(storage).store()))
            },
            None => {
                &&& step is CreateStorage
                &&& outcome.is_success()
                &&& final(storage).store() == old(storage).store()
                &&& exists|i: int|
                    0 <= i < old(storage).store().cells().len() && ((
                    #[trigger] old(storage).store().cells()[i]) matches Ok(Some(record))
                        && crate::text::parsed(record.bytes) is None)
            },
        },
        final(storage).populated() == old(storage).populated(),
{
    if next is None {
        let dictionary = step->CreateStorage_dictionary;
        let cells = old(storage).store().cells();
        let empty = choose|empty: Gridstore<Payload>| #[trigger]
            crate::optimize::is_new_store(empty, dictionary@) && crate::checked::meets_no_payload(
                cells,
                0,
                empty,
            );
        lemma_no_payload_is_there(cells, 0, empty);
    }
}

/// Where rewriting comes to bytes of no payload, there are some.
proof fn lemma_no_payload_is_there(cells: Seq<Cell>, from: int, store: Gridstore<Payload>)
    requires
        0 <= from,
        crate::checked::meets_no_payload(cells, from, store),
    ensures
        exists|i: int|
            from <= i < cells.len() && (#[trigger] cells[i] matches Ok(Some(record))
                && crate::text::parsed(record.bytes) is None),
    decreases cells.len() - from,
{
    if from < cells.len() {
        let cell = cells[from];
        match cell {
            Err(_) => {},
            Ok(None) => {
                lemma_no_payload_is_there(cells, from + 1, store);
            },
            Ok(Some(record)) => {
                if Payload::decodes(record.bytes) {
                    let (payload, after) = choose|payload: Payload, after: Gridstore<Payload>|
                        {
                            &&& Payload::is_decoded(record.bytes, payload)
                            &&& #[trigger] store.is_put(after, from as PointOffset, payload, Ok(()))
                            &&& crate::checked::meets_no_payload(cells, from + 1, after)
                        };
                    lemma_no_payload_is_there(cells, from + 1, after);
                }
            },
        }
    }
}

/// The new store that is written has the dictionary, is compressed with it, and has pages of 32 MiB
/// and blocks of 128 bytes.
pub proof fn law_new_store_has_the_dictionary(
    before: MmapPayloadStorage,
    dictionary: Vec<u8>,
    outcome: Outcome,
    after: MmapPayloadStorage,
    storage: Gridstore<Payload>,
)
    requires
        before.store().cells().len() <= PointOffset::MAX,
        before.is_stepped(
            OptimizeStep::CreateStorage { dictionary },
            outcome,
            after,
            OptimizeStep::Flush { storage },
        ),
    ensures
        storage.configured().compression == Compression::LZ4Dict,
        storage.configured().page_size_bytes == 33554432,
        storage.configured().block_size_bytes == 128,
        storage.trained() == Some(dictionary@),
{
    let cells = before.store().cells();
    let empty = choose|empty: Gridstore<Payload>| #[trigger]
        crate::optimize::is_new_store(empty, dictionary@) && crate::optimize::rewritten(
            cells,
            0,
            empty,
            Ok(storage),
        );
    crate::optimize::law_rewrite_keeps_payloads(cells, empty, storage);
}

/// The points that are drawn are all different and all there: as many as there are, but no more
/// than 1000. Nothing is drawn, and the generator stays as it was, where the records are not plain
/// LZ4 or there are none.
pub proof fn law_draw_sample(
    storage: &MmapPayloadStorage,
    rng: &mut rand::rngs::StdRng,
    offsets: Vec<usize>,
)
    requires
        call_ensures(MmapPayloadStorage::draw_sample, (storage, rng), offsets),
    ensures
        ({
            let points = storage.store().cells().len();
            if storage.store().configured().compression == Compression::LZ4 {
                offsets@.len() == if points < 1000 {
                    points
                } else {
                    1000nat
                }
            } else {
                offsets@.len() == 0 && *final(rng) == *old(rng)
            }
        }),
        storage.store().cells().len() == 0 ==> *final(rng) == *old(rng),
        forall|i: int|
            0 <= i < offsets@.len() ==> (#[trigger] offsets@[i])
                < storage.store().cells().len(),
        forall|i: int, j: int|
            0 <= i < j < offsets@.len() ==> #[trigger] offsets@[i] != #[trigger] offsets@[j],
{
}

/// An optimization starts by training a dictionary wherever the records are plain LZ4, there are
/// some, and what is stored for each point is the text of an object. Where there is nothing to
/// optimize, it is done at once, and the generator stays as it was.
pub proof fn law_checked_start_optimize(
    storage: &MmapPayloadStorage,
    rng: &mut rand::rngs::StdRng,
    step: Option<OptimizeStep>,
)
    requires
        call_ensures(MmapPayloadStorage::checked_start_optimize, (storage, rng), step),
    ensures
        storage.store().configured().compression == Compression::LZ4
            && storage.store().cells().len() > 0 ==> {
            &&& (forall|i: int|
                0 <= i < storage.store().cells().len() ==> ((
                #[trigger] storage.store().cells()[i]) matches Ok(Some(record))
                    ==> crate::text::parsed(record.bytes) is Some)) ==> step is Some
            &&& step matches Some(step) ==> step is CreateDirectory
        },
        storage.store().configured().compression != Compression::LZ4
            || storage.store().cells().len() == 0 ==> step == Some(OptimizeStep::Done)
            && *final(rng) == *old(rng),
{
}

/// There is something to optimize if and only if the records are plain LZ4 and there are some.
pub proof fn law_is_optimizable(storage: &MmapPayloadStorage, result: bool)
    requires
        call_ensures(MmapPayloadStorage::is_optimizable, (storage,), result),
    ensures
        result == (storage.store().configured().compression == Compression::LZ4
            && storage.store().cells().len() > 0),
{
}

/// Rewriting into an empty store keeps what each point has: a point without a payload has none, and
/// one with a payload has the text of that payload, compressed as the new store compresses. It
/// succeeds only if each point could be read.
pub proof fn law_rewrite_into(
    storage: &MmapPayloadStorage,
    empty: Gridstore<Payload>,
    result: Result<Gridstore<Payload>, OperationError>,
)
    requires
        call_ensures(MmapPayloadStorage::rewrite_into, (storage, empty), result),
        empty.cells().len() == 0,
        storage.store().cells().len() <= PointOffset::MAX,
    ensures
        result matches Ok(store) ==> {
            &&& store.configured() == empty.configured()
            &&& store.trained() == empty.trained()
            &&& forall|i: int|
                (#[trigger] storage.store().cell(i)) matches Ok(kept) && match kept {
                    None => store.cell(i) == Ok::<Option<Record>, GridstoreError>(None),
                    Some(record) => store.cell(i) matches Ok(Some(copy)) && copy.bytes
                        == crate::text::text_of(
                        Json::Object(crate::text::parsed(record.bytes)->0),
                    ),
                }
        },
        result matches Err(error) ==> (error matches OperationError::Gridstore(reason) && (
        reason is ValueTooLarge || reason is OutOfSpace || exists|i: int|
            0 <= i < storage.store().cells().len() && (#[trigger] storage.store().cells()[i])
                == Err::<Option<Record>, GridstoreError>(reason))),
{
    let cells = storage.store().cells();
    match result {
        Ok(store) => {
            crate::optimize::law_rewrite_keeps_payloads(cells, empty, store);
            assert forall|i: int|
                (#[trigger] storage.store().cell(i)) matches Ok(kept) && match kept {
                    None => store.cell(i) == Ok::<Option<Record>, GridstoreError>(None),
                    Some(record) => store.cell(i) matches Ok(Some(copy)) && copy.bytes
                        == crate::text::text_of(
                        Json::Object(crate::text::parsed(record.bytes)->0),
                    ),
                } by {
                if 0 <= i < cells.len() {
                    assert(crate::optimize::keeps_payload(cells[i], store.cell(i)));
                }
            }
        },
        Err(error) => {
            law_rewriting_fails_for_a_reason(cells, 0, empty, error);
        },
    }
}

}
