//! The operations that read payloads, for storages of which it is not known that what they hold
//! are payloads. Each does what the unchecked one does until it comes to bytes of no payload.

use crate::blob::Blob;
use crate::callback::Callback;
use crate::counter::HardwareCounterCell;
use crate::error::OperationError;
use crate::gridstore::Gridstore;
use crate::json::JsonValue;
use crate::layout::Cell;
use crate::mmap_payload_storage::MmapPayloadStorage;
use crate::optimize::OptimizeStep;
use crate::payload::Payload;
use crate::steps::Outcome;
use crate::tracker::PointOffset;
use std::ops::ControlFlow;
use vstd::prelude::*;

verus! {

/// `merge` can be called on every payload.
pub open spec fn merges<M>(payload: &Payload, merge: M) -> bool where
    M: FnOnce(Payload, &Payload) -> Payload,
 {
    forall|current: Payload| #[trigger] call_requires(merge, (current, payload))
}

/// `merge_by_key` can be called on every payload.
pub open spec fn merges_by_key<K, M>(payload: &Payload, key: &K, merge_by_key: M) -> bool where
    M: FnOnce(Payload, &Payload, &K) -> Payload,
 {
    forall|current: Payload| #[trigger] call_requires(merge_by_key, (current, payload, key))
}

/// `remove` can be called on every payload.
pub open spec fn removes<K, R>(key: &K, remove: R) -> bool where
    R: FnOnce(Payload, &K) -> (Payload, Vec<JsonValue>),
 {
    forall|current: Payload| #[trigger] call_requires(remove, (current, key))
}

/// The callback can be called on every point and payload.
pub open spec fn visits<F>(callback: F) -> bool where
    F: FnMut(PointOffset, Payload) -> Result<bool, OperationError>,
 {
    forall|point_id: PointOffset, payload: Payload| #[trigger]
        call_requires(callback, (point_id, payload))
}

/// Rewriting the payloads of the points from `from` on into a store reaches a point for which the
/// bytes of no payload are stored.
pub open spec fn meets_no_payload(cells: Seq<Cell>, from: int, store: Gridstore<Payload>) -> bool
    decreases cells.len() - from,
{
    if from >= cells.len() {
        false
    } else {
        match cells[from] {
            Err(_) => false,
            Ok(None) => meets_no_payload(cells, from + 1, store),
            Ok(Some(record)) => !Payload::decodes(record.bytes) || exists|
                payload: Payload,
                after: Gridstore<Payload>,
            |
                {
                    &&& Payload::is_decoded(record.bytes, payload)
                    &&& #[trigger] store.is_put(after, from as PointOffset, payload, Ok(()))
                    &&& meets_no_payload(cells, from + 1, after)
                },
        }
    }
}

impl MmapPayloadStorage {
    /// The payload of a point, if what is stored for it is one.
    pub fn checked_get(&self, point_id: PointOffset, hw_counter: &mut HardwareCounterCell) -> (
    result: Option<Result<Payload, OperationError>>)
        ensures
            result is Some <==> self.store().readable(point_id as int),
            match result {
                Some(result) => crate::mmap_payload_storage::is_got(
                    self.store().cell(point_id as int),
                    old(hw_counter).payload_io_read,
                    result,
                    final(hw_counter).payload_io_read,
                ),
                None => final(hw_counter).payload_io_read == old(hw_counter).payload_io_read,
            },
            final(hw_counter).payload_io_write == old(hw_counter).payload_io_write,
    {
        if self.storage().is_readable(point_id) {
            Some(self.get(point_id, hw_counter))
        } else {
            None
        }
    }

    /// The payload of a point, read as one of many in order, if what is stored for it is one.
    pub fn checked_get_sequential(
        &self,
        point_id: PointOffset,
        hw_counter: &mut HardwareCounterCell,
    ) -> (result: Option<Result<Payload, OperationError>>)
        ensures
            result is Some <==> self.store().readable(point_id as int),
            match result {
                Some(result) => crate::mmap_payload_storage::is_got(
                    self.store().cell(point_id as int),
                    old(hw_counter).payload_io_read,
                    result,
                    final(hw_counter).payload_io_read,
                ),
                None => final(hw_counter).payload_io_read == old(hw_counter).payload_io_read,
            },
            final(hw_counter).payload_io_write == old(hw_counter).payload_io_write,
    {
        if self.storage().is_readable(point_id) {
            Some(self.get_sequential(point_id, hw_counter))
        } else {
            None
        }
    }

    /// Sets a payload for a point, if what is stored for it is one.
    pub fn checked_set<M>(
        &mut self,
        point_id: PointOffset,
        payload: &Payload,
        merge: M,
        hw_counter: &mut HardwareCounterCell,
    ) -> (result: Option<Result<(), OperationError>>) where
        M: FnOnce(Payload, &Payload) -> Payload,

        requires
            merges(payload, merge),
        ensures
            result is Some <==> old(self).store().readable(point_id as int),
            match result {
                Some(result) => old(self).is_set(
                    *final(self),
                    point_id,
                    payload,
                    merge,
                    (old(hw_counter).payload_io_read, old(hw_counter).payload_io_write),
                    result,
                    (final(hw_counter).payload_io_read, final(hw_counter).payload_io_write),
                ),
                None => *final(self) == *old(self) && *final(hw_counter) == *old(hw_counter),
            },
            final(self).populated() == old(self).populated(),
    {
        if self.storage().is_readable(point_id) {
            Some(self.set(point_id, payload, merge, hw_counter))
        } else {
            None
        }
    }

    /// Sets a payload for a point under a key, if what is stored for it is one.
    pub fn checked_set_by_key<K, M>(
        &mut self,
        point_id: PointOffset,
        payload: &Payload,
        key: &K,
        merge_by_key: M,
        hw_counter: &mut HardwareCounterCell,
    ) -> (result: Option<Result<(), OperationError>>) where
        M: FnOnce(Payload, &Payload, &K) -> Payload,

        requires
            merges_by_key(payload, key, merge_by_key),
        ensures
            result is Some <==> old(self).store().readable(point_id as int),
            match result {
                Some(result) => old(self).is_set_by_key(
                    *final(self),
                    point_id,
                    payload,
                    key,
                    merge_by_key,
                    (old(hw_counter).payload_io_read, old(hw_counter).payload_io_write),
                    result,
                    (final(hw_counter).payload_io_read, final(hw_counter).payload_io_write),
                ),
                None => *final(self) == *old(self) && *final(hw_counter) == *old(hw_counter),
            },
            final(self).populated() == old(self).populated(),
    {
        if self.storage().is_readable(point_id) {
            Some(self.set_by_key(point_id, payload, key, merge_by_key, hw_counter))
        } else {
            None
        }
    }

    /// Takes a key away from the payload of a point, if what is stored for it is one.
    pub fn checked_delete<K, R>(
        &mut self,
        point_id: PointOffset,
        key: &K,
        remove: R,
        hw_counter: &mut HardwareCounterCell,
    ) -> (result: Option<Result<Vec<JsonValue>, OperationError>>) where
        R: FnOnce(Payload, &K) -> (Payload, Vec<JsonValue>),

        requires
            removes(key, remove),
        ensures
            result is Some <==> old(self).store().readable(point_id as int),
            match result {
                Some(result) => old(self).is_deleted(
                    *final(self),
                    point_id,
                    key,
                    remove,
                    (old(hw_counter).payload_io_read, old(hw_counter).payload_io_write),
                    result,
                    (final(hw_counter).payload_io_read, final(hw_counter).payload_io_write),
                ),
                None => *final(self) == *old(self) && *final(hw_counter) == *old(hw_counter),
            },
            final(self).populated() == old(self).populated(),
    {
        if self.storage().is_readable(point_id) {
            Some(self.delete(point_id, key, remove, hw_counter))
        } else {
            None
        }
    }

    /// Takes the payload of a point away, if what is stored for it is one.
    pub fn checked_clear(&mut self, point_id: PointOffset, hw_counter: &HardwareCounterCell) -> (
    result: Option<Result<Option<Payload>, OperationError>>)
        ensures
            result is Some <==> old(self).store().readable(point_id as int),
            match result {
                Some(result) => old(self).is_cleared(*final(self), point_id, result),
                None => *final(self) == *old(self),
            },
            final(self).populated() == old(self).populated(),
    {
        if self.storage().is_readable(point_id) {
            Some(self.clear(point_id, hw_counter))
        } else {
            None
        }
    }

    /// Hands the payloads of all the points to the callback, in order, until it returns
    /// `Ok(false)`, or the walk comes to bytes of no payload.
    ///
    /// This is `checked_scan` with a callback that was not called yet.
    pub fn checked_iter<F>(&self, callback: F, hw_counter: &mut HardwareCounterCell) -> (result:
        Option<Result<(), OperationError>>) where
        F: FnMut(PointOffset, Payload) -> Result<bool, OperationError>,

        requires
            visits(callback),
        ensures
            crate::walk::is_checked_walk::<Payload, F, OperationError>(
                self.store().cells(),
                callback,
                old(hw_counter).payload_io_read,
                result,
                final(hw_counter).payload_io_read,
            ),
            final(hw_counter).payload_io_write == old(hw_counter).payload_io_write,
    {
        let mut visitor = Callback::new(callback);
        self.checked_scan(&mut visitor, hw_counter)
    }

    /// Hands the payloads of all the points to a callback, in order, until it returns `Ok(false)`,
    /// or the walk comes to bytes of no payload: each in one call, and none after that. Where such
    /// bytes stand is found out ahead of the walk; they matter only if it comes to them.
    pub fn checked_scan<F>(
        &self,
        visitor: &mut Callback<F, Payload, OperationError>,
        hw_counter: &mut HardwareCounterCell,
    ) -> (result: Option<Result<(), OperationError>>) where
        F: FnMut(PointOffset, Payload) -> Result<bool, OperationError>,

        requires
            visits(old(visitor).inner()),
        ensures
            final(visitor).follows(*old(visitor)),
            crate::callback::answered(
                old(visitor).inner(),
                final(visitor).since(*old(visitor)),
            ),
            crate::walk::walked_checked(
                self.store().cells(),
                0,
                old(hw_counter).payload_io_read,
                final(visitor).since(*old(visitor)),
                result,
                final(hw_counter).payload_io_read,
            ),
            final(hw_counter).payload_io_write == old(hw_counter).payload_io_write,
    {
        let ghost cells = self.store().cells();
        let ghost count = hw_counter.payload_io_read;
        let ghost begin = *visitor;
        proof {
            crate::walk::lemma_walkable_before::<Payload, F, OperationError>(
                cells,
                begin.inner(),
                0,
            );
        }
        match self.storage().first_unreadable() {
            None => {
                let result = self.scan(visitor, hw_counter);
                proof {
                    crate::walk::lemma_walked_is_checked(
                        cells,
                        0,
                        count,
                        visitor.since(begin),
                        result,
                        hw_counter.payload_io_read,
                    );
                }
                Some(result)
            },
            Some(records) => {
                let result = self.storage().scan_some(records, visitor, hw_counter);
                proof {
                    crate::walk::lemma_walked_before(
                        cells,
                        0,
                        count,
                        visitor.since(begin),
                        result,
                        hw_counter.payload_io_read,
                    );
                }
                match result {
                    Ok(ControlFlow::Break(_)) => Some(Ok(())),
                    Ok(ControlFlow::Continue(_)) => None,
                    Err(error) => Some(Err(error)),
                }
            },
        }
    }

    /// The first step of an optimization, with points that are drawn to train a dictionary on, if
    /// what is stored for them are payloads. Where there is nothing to optimize, the generator is
    /// not drawn from.
    pub fn checked_start_optimize(&self, rng: &mut rand::rngs::StdRng) -> (step: Option<
        OptimizeStep,
    >)
        ensures
            exists|offsets: Seq<usize>|
                {
                    &&& #[trigger] crate::optimize::is_sample(
                        offsets,
                        self.store().cells().len() as int,
                        self.sample_size(),
                    )
                    &&& step is Some <==> forall|i: int|
                        0 <= i < offsets.len() ==> self.store().readable(
                            (#[trigger] offsets[i]) as int,
                        )
                    &&& step matches Some(step) ==> self.is_started(offsets, step)
                },
            self.sample_size() == 0 ==> step == Some(OptimizeStep::Done),
            self.sample_size() == 0 ==> *final(rng) == *old(rng),
    {
        let offsets = self.draw_sample(rng);
        let mut i: usize = 0;
        while i < offsets.len()
            invariant
                i <= offsets@.len(),
                crate::optimize::is_sample(
                    offsets@,
                    self.store().cells().len() as int,
                    self.sample_size(),
                ),
                offsets@.len() > 0 ==> self.store().cells().len() <= PointOffset::MAX,
                forall|j: int|
                    0 <= j < i ==> self.store().readable((#[trigger] offsets@[j]) as int),
            decreases offsets@.len() - i,
        {
            if !self.storage().is_readable(offsets[i] as u32) {
                assert(!self.store().readable(offsets@[i as int] as int));
                return None;
            }
            i += 1;
        }
        Some(self.start_optimize(offsets.as_slice()))
    }

    /// Rewrites every payload, in the order of the points, into another store, until it comes to
    /// bytes of no payload.
    pub fn checked_rewrite_into(&self, storage: Gridstore<Payload>) -> (result: Option<
        Result<Gridstore<Payload>, OperationError>,
    >)
        ensures
            match result {
                Some(result) => crate::optimize::rewritten(
                    self.store().cells(),
                    0,
                    storage,
                    result,
                ),
                None => meets_no_payload(self.store().cells(), 0, storage),
            },
    {
        let ghost cells = self.store().cells();
        let mut new_storage = storage;
        let mut hw_counter = HardwareCounterCell::new();
        let max_offset = self.storage().max_point_offset();
        let mut point_id: PointOffset = 0;
        while point_id < max_offset
            invariant
                cells == self.store().cells(),
                max_offset == cells.len(),
                meets_no_payload(cells, point_id as int, new_storage) ==> meets_no_payload(
                    cells,
                    0,
                    storage,
                ),
                forall|result: Result<Gridstore<Payload>, OperationError>|
                    crate::optimize::rewritten(cells, point_id as int, new_storage, result)
                        ==> #[trigger] crate::optimize::rewritten(cells, 0, storage, result),
            decreases max_offset - point_id,
        {
            if !self.storage().is_readable(point_id) {
                return None;
            }
            match self.storage().get_value::<true>(point_id, &mut hw_counter) {
                Ok(Some(payload)) => {
                    let ghost before = new_storage;
                    let outcome = new_storage.put_value(point_id, &payload, &mut hw_counter);
                    assert(before.is_put(
                        new_storage,
                        point_id as int as PointOffset,
                        payload,
                        outcome,
                    ));
                    match outcome {
                        Ok(_) => {
                            assert(before.is_put(
                                new_storage,
                                point_id as int as PointOffset,
                                payload,
                                Ok(()),
                            ));
                        },
                        Err(error) => {
                            return Some(Err(OperationError::from(error)));
                        },
                    }
                },
                Ok(None) => {},
                Err(error) => {
                    return Some(Err(OperationError::from(error)));
                },
            }
            point_id += 1;
        }
        Some(Ok(new_storage))
    }

    /// The next step of an optimization, unless rewriting the payloads comes to bytes of no
    /// payload.
    pub fn checked_optimize(&mut self, step: OptimizeStep, outcome: Outcome) -> (next: Option<
        OptimizeStep,
    >)
        requires
            step.awaits(outcome),
        ensures
            match next {
                Some(next) => old(self).is_stepped(step, outcome, *final(self), next)
                    && next.progress() > step.progress(),
                None => {
                    &&& *final(self) == *old(self)
                    &&& outcome matches Outcome::Store(Ok(_))
                    &&& step matches OptimizeStep::CreateStorage { dictionary } && exists|
                        empty: Gridstore<Payload>,
                    | #[trigger]
                        crate::optimize::is_new_store(empty, dictionary@) && meets_no_payload(
                            old(self).store().cells(),
                            0,
                            empty,
                        )
                },
            },
            final(self).populated() == old(self).populated(),
    {
        match (step, outcome) {
            (OptimizeStep::CreateStorage { dictionary }, Outcome::Store(Ok(_))) => {
                let empty = crate::optimize::new_store(dictionary);
                match self.checked_rewrite_into(empty) {
                    Some(Ok(storage)) => Some(OptimizeStep::Flush { storage }),
                    Some(Err(error)) => Some(OptimizeStep::Failed(error)),
                    None => None,
                }
            },
            (step, outcome) => Some(self.optimize(step, outcome)),
        }
    }
}

}
