//! The payloads of the points of a segment.

use crate::blob::Blob;
use crate::callback::Callback;
use crate::counter::HardwareCounterCell;
use crate::error::{GridstoreError, OperationError};
use crate::gridstore::Gridstore;
use crate::layout::Cell;
use crate::json::{Json, JsonValue};
use crate::payload::Payload;
use crate::tracker::PointOffset;
use vstd::prelude::*;

verus! {

/// The payloads of the points of a segment, in a store on disk.
#[derive(Debug)]
pub struct MmapPayloadStorage {
    storage: Gridstore<Payload>,
    populate: bool,
}

/// The result of the store, its failure handed on.
pub open spec fn handed_on<T>(result: Result<T, GridstoreError>) -> Result<T, OperationError> {
    match result {
        Ok(value) => Ok(value),
        Err(error) => Err(OperationError::Gridstore(error)),
    }
}

/// Hands a failure of the store on.
pub fn hand_on<T>(result: Result<T, GridstoreError>) -> (handed: Result<T, OperationError>)
    ensures
        handed == handed_on(result),
{
    match result {
        Ok(value) => Ok(value),
        Err(error) => Err(OperationError::from(error)),
    }
}

/// What reading a point returns, and the count of bytes read after it. A point without a payload
/// has the empty one.
pub open spec fn is_got(
    cell: Cell,
    count: u64,
    result: Result<Payload, OperationError>,
    count_after: u64,
) -> bool {
    match cell {
        Err(error) => {
            &&& result == Err::<Payload, OperationError>(OperationError::Gridstore(error))
            &&& count_after == count
        },
        Ok(None) => {
            &&& result matches Ok(payload) && payload@ == crate::json::no_entries()
            &&& count_after == count
        },
        Ok(Some(record)) => {
            &&& result matches Ok(payload) && Payload::is_decoded(
                record.bytes,
                payload,
            )
            &&& count_after == crate::counter::counted(count, record.raw.len())
        },
    }
}

impl MmapPayloadStorage {
    /// The store of the payloads.
    pub closed spec fn store(self) -> Gridstore<Payload> {
        self.storage
    }

    /// The pages are kept in memory.
    pub closed spec fn populated(self) -> bool {
        self.populate
    }

    /// The payload of a point, if it has one that can be read.
    pub open spec fn payload(self, point_id: int) -> Option<Map<Seq<char>, Json>> {
        match self.store().cell(point_id) {
            Ok(Some(record)) => crate::text::parsed(record.bytes),
            _ => None,
        }
    }

    /// A storage of the payloads in a store.
    pub(crate) fn from_store(storage: Gridstore<Payload>, populate: bool) -> (result: Self)
        ensures
            result.store() == storage,
            result.populated() == populate,
    {
        MmapPayloadStorage { storage, populate }
    }

    /// The store of the payloads.
    pub fn storage(&self) -> (storage: &Gridstore<Payload>)
        ensures
            *storage == self.store(),
    {
        &self.storage
    }

    /// Puts another store in place of the one with the payloads.
    pub(crate) fn replace_store(&mut self, storage: Gridstore<Payload>)
        ensures
            final(self).store() == storage,
            final(self).populated() == old(self).populated(),
    {
        self.storage = storage;
    }

    /// Stores a payload for a point, in place of the one that it had.
    pub fn overwrite(
        &mut self,
        point_id: PointOffset,
        payload: &Payload,
        hw_counter: &mut HardwareCounterCell,
    ) -> (result: Result<(), OperationError>)
        ensures
            old(self).is_stored(
                *final(self),
                point_id,
                *payload,
                old(hw_counter).payload_io_write,
                result,
                final(hw_counter).payload_io_write,
            ),
            final(self).populated() == old(self).populated(),
            final(hw_counter).payload_io_read == old(hw_counter).payload_io_read,
    {
        let ghost before = *self;
        let outcome = self.storage.put_value(point_id, payload, hw_counter);
        assert(before.store().is_put(self.store(), point_id, *payload, outcome));
        hand_on(outcome)
    }

    /// The payload of a point.
    pub fn get(&self, point_id: PointOffset, hw_counter: &mut HardwareCounterCell) -> (result:
        Result<Payload, OperationError>)
        requires
            self.store().readable(point_id as int),
        ensures
            is_got(
                self.store().cell(point_id as int),
                old(hw_counter).payload_io_read,
                result,
                final(hw_counter).payload_io_read,
            ),
            final(hw_counter).payload_io_write == old(hw_counter).payload_io_write,
    {
        match self.storage.get_value::<false>(point_id, hw_counter) {
            Ok(Some(payload)) => Ok(payload),
            Ok(None) => Ok(Payload::default()),
            Err(error) => Err(OperationError::from(error)),
        }
    }

    /// The payload of a point, read as one of many in order.
    pub fn get_sequential(
        &self,
        point_id: PointOffset,
        hw_counter: &mut HardwareCounterCell,
    ) -> (result: Result<Payload, OperationError>)
        requires
            self.store().readable(point_id as int),
        ensures
            is_got(
                self.store().cell(point_id as int),
                old(hw_counter).payload_io_read,
                result,
                final(hw_counter).payload_io_read,
            ),
            final(hw_counter).payload_io_write == old(hw_counter).payload_io_write,
    {
        match self.storage.get_value::<true>(point_id, hw_counter) {
            Ok(Some(payload)) => Ok(payload),
            Ok(None) => Ok(Payload::default()),
            Err(error) => Err(OperationError::from(error)),
        }
    }

    /// The storage after a payload was set for a point, and the counts of bytes read and written.
    /// A point that has a payload gets that payload with the new one merged into it, as `merge`
    /// does it; a point without one gets the new one.
    pub open spec fn is_set<M>(
        self,
        after: Self,
        point_id: PointOffset,
        payload: &Payload,
        merge: M,
        counts: (u64, u64),
        result: Result<(), OperationError>,
        counts_after: (u64, u64),
    ) -> bool where M: FnOnce(Payload, &Payload) -> Payload {
        match self.store().cell(point_id as int) {
            Err(error) => {
                &&& result == Err::<(), OperationError>(OperationError::Gridstore(error))
                &&& self.store().same(after.store())
                &&& counts_after == counts
            },
            Ok(None) => {
                &&& self.is_stored(after, point_id, *payload, counts.1, result, counts_after.1)
                &&& counts_after.0 == counts.0
            },
            Ok(Some(record)) => {
                &&& exists|current: Payload, merged: Payload|
                    {
                        &&& Payload::is_decoded(record.bytes, current)
                        &&& #[trigger] call_ensures(merge, (current, payload), merged)
                        &&& self.is_stored(
                            after,
                            point_id,
                            merged,
                            counts.1,
                            result,
                            counts_after.1,
                        )
                    }
                &&& counts_after.0 == crate::counter::counted(counts.0, record.raw.len())
            },
        }
    }

    /// The storage after a payload was stored for a point, or was not, and the count of bytes
    /// written. What was stored can be read if it is nested no deeper than can be read, and is the
    /// payload itself if its text is read as it, as is that of a payload without floating-point
    /// numbers.
    pub open spec fn is_stored(
        self,
        after: Self,
        point_id: PointOffset,
        payload: Payload,
        count: u64,
        result: Result<(), OperationError>,
        count_after: u64,
    ) -> bool {
        &&& exists|outcome: Result<(), GridstoreError>|
            {
                &&& #[trigger] self.store().is_put(after.store(), point_id, payload, outcome)
                &&& result == handed_on(outcome)
                &&& count_after == after.store().counted_put(point_id, outcome, count)
            }
        &&& result is Ok && payload.legible() ==> after.store().readable(point_id as int)
        &&& result is Ok && (payload.exact() || payload.is_kept()) ==> after.payload(
            point_id as int,
        ) == Some(payload@)
    }

    /// `merge` can be called on the payload of a point.
    pub open spec fn mergeable<M>(
        self,
        point_id: PointOffset,
        payload: &Payload,
        merge: M,
    ) -> bool where M: FnOnce(Payload, &Payload) -> Payload {
        self.store().cell(point_id as int) matches Ok(Some(record)) ==> forall|current: Payload|
            #[trigger]
            Payload::is_decoded(record.bytes, current) ==> call_requires(merge, (current, payload))
    }

    /// Sets a payload for a point: merged into the one that the point has, or on its own.
    pub fn set<M>(
        &mut self,
        point_id: PointOffset,
        payload: &Payload,
        merge: M,
        hw_counter: &mut HardwareCounterCell,
    ) -> (result: Result<(), OperationError>) where M: FnOnce(Payload, &Payload) -> Payload
        requires
            old(self).store().readable(point_id as int),
            old(self).mergeable(point_id, payload, merge),
        ensures
            old(self).is_set(
                *final(self),
                point_id,
                payload,
                merge,
                (old(hw_counter).payload_io_read, old(hw_counter).payload_io_write),
                result,
                (final(hw_counter).payload_io_read, final(hw_counter).payload_io_write),
            ),
            final(self).populated() == old(self).populated(),
    {
        match self.storage.get_value::<false>(point_id, hw_counter) {
            Ok(Some(point_payload)) => {
                let merged = merge(point_payload, payload);
                hand_on(self.storage.put_value(point_id, &merged, hw_counter))
            },
            Ok(None) => hand_on(self.storage.put_value(point_id, payload, hw_counter)),
            Err(error) => Err(OperationError::from(error)),
        }
    }

    /// The storage after a payload was set for a point under a key, and the counts of bytes read
    /// and written. The point gets its payload, or the empty one, with the new one merged into it
    /// at the key, as `merge_by_key` does it.
    pub open spec fn is_set_by_key<K, M>(
        self,
        after: Self,
        point_id: PointOffset,
        payload: &Payload,
        key: &K,
        merge_by_key: M,
        counts: (u64, u64),
        result: Result<(), OperationError>,
        counts_after: (u64, u64),
    ) -> bool where M: FnOnce(Payload, &Payload, &K) -> Payload {
        match self.store().cell(point_id as int) {
            Err(error) => {
                &&& result == Err::<(), OperationError>(OperationError::Gridstore(error))
                &&& self.store().same(after.store())
                &&& counts_after == counts
            },
            Ok(None) => {
                &&& exists|empty: Payload, merged: Payload|
                    {
                        &&& empty@ == crate::json::no_entries()
                        &&& #[trigger] call_ensures(merge_by_key, (empty, payload, key), merged)
                        &&& self.is_stored(
                            after,
                            point_id,
                            merged,
                            counts.1,
                            result,
                            counts_after.1,
                        )
                    }
                &&& counts_after.0 == counts.0
            },
            Ok(Some(record)) => {
                &&& exists|current: Payload, merged: Payload|
                    {
                        &&& Payload::is_decoded(record.bytes, current)
                        &&& #[trigger] call_ensures(merge_by_key, (current, payload, key), merged)
                        &&& self.is_stored(
                            after,
                            point_id,
                            merged,
                            counts.1,
                            result,
                            counts_after.1,
                        )
                    }
                &&& counts_after.0 == crate::counter::counted(counts.0, record.raw.len())
            },
        }
    }

    /// `merge_by_key` can be called on the payload of a point, or on the empty one where it has
    /// none.
    pub open spec fn mergeable_by_key<K, M>(
        self,
        point_id: PointOffset,
        payload: &Payload,
        key: &K,
        merge_by_key: M,
    ) -> bool where M: FnOnce(Payload, &Payload, &K) -> Payload {
        forall|current: Payload|
            #![trigger call_requires(merge_by_key, (current, payload, key))]
            (match self.store().cell(point_id as int) {
                Ok(Some(record)) => Payload::is_decoded(record.bytes, current),
                Ok(None) => current@ == crate::json::no_entries(),
                Err(_) => false,
            }) ==> call_requires(merge_by_key, (current, payload, key))
    }

    /// Sets a payload for a point under a key: merged into the one that the point has, or into
    /// the empty one.
    pub fn set_by_key<K, M>(
        &mut self,
        point_id: PointOffset,
        payload: &Payload,
        key: &K,
        merge_by_key: M,
        hw_counter: &mut HardwareCounterCell,
    ) -> (result: Result<(), OperationError>) where M: FnOnce(Payload, &Payload, &K) -> Payload
        requires
            old(self).store().readable(point_id as int),
            old(self).mergeable_by_key(point_id, payload, key, merge_by_key),
        ensures
            old(self).is_set_by_key(
                *final(self),
                point_id,
                payload,
                key,
                merge_by_key,
                (old(hw_counter).payload_io_read, old(hw_counter).payload_io_write),
                result,
                (final(hw_counter).payload_io_read, final(hw_counter).payload_io_write),
            ),
            final(self).populated() == old(self).populated(),
    {
        match self.storage.get_value::<false>(point_id, hw_counter) {
            Ok(Some(point_payload)) => {
                let merged = merge_by_key(point_payload, payload, key);
                hand_on(self.storage.put_value(point_id, &merged, hw_counter))
            },
            Ok(None) => {
                let dest_payload = Payload::default();
                let merged = merge_by_key(dest_payload, payload, key);
                hand_on(self.storage.put_value(point_id, &merged, hw_counter))
            },
            Err(error) => Err(OperationError::from(error)),
        }
    }

    /// The storage after a key was taken away from the payload of a point, what was taken away,
    /// and the counts of bytes read and written. The payload is stored anew only where something
    /// was taken away, as `remove` does it.
    pub open spec fn is_deleted<K, R>(
        self,
        after: Self,
        point_id: PointOffset,
        key: &K,
        remove: R,
        counts: (u64, u64),
        result: Result<Vec<JsonValue>, OperationError>,
        counts_after: (u64, u64),
    ) -> bool where R: FnOnce(Payload, &K) -> (Payload, Vec<JsonValue>) {
        match self.store().cell(point_id as int) {
            Err(error) => {
                &&& result == Err::<Vec<JsonValue>, OperationError>(
                    OperationError::Gridstore(error),
                )
                &&& self.store().same(after.store())
                &&& counts_after == counts
            },
            Ok(None) => {
                &&& result matches Ok(removed) && removed@.len() == 0
                &&& self.store().same(after.store())
                &&& counts_after == counts
            },
            Ok(Some(record)) => {
                &&& exists|current: Payload, rest: Payload, removed: Vec<JsonValue>|
                    {
                        &&& Payload::is_decoded(record.bytes, current)
                        &&& #[trigger] call_ensures(remove, (current, key), (rest, removed))
                        &&& if removed@.len() == 0 {
                            &&& result == Ok::<Vec<JsonValue>, OperationError>(removed)
                            &&& self.store().same(after.store())
                            &&& counts_after.1 == counts.1
                        } else {
                            self.is_stored(
                                after,
                                point_id,
                                rest,
                                counts.1,
                                match result {
                                    Ok(_) => Ok(()),
                                    Err(error) => Err(error),
                                },
                                counts_after.1,
                            ) && (result is Ok ==> result == Ok::<Vec<JsonValue>, OperationError>(
                                removed,
                            ))
                        }
                    }
                &&& counts_after.0 == crate::counter::counted(counts.0, record.raw.len())
            },
        }
    }

    /// `remove` can be called on the payload of a point.
    pub open spec fn removable<K, R>(self, point_id: PointOffset, key: &K, remove: R) -> bool where
        R: FnOnce(Payload, &K) -> (Payload, Vec<JsonValue>),
     {
        self.store().cell(point_id as int) matches Ok(Some(record)) ==> forall|current: Payload|
            #[trigger]
            Payload::is_decoded(record.bytes, current) ==> call_requires(remove, (current, key))
    }

    /// Takes a key away from the payload of a point and returns what stood there.
    pub fn delete<K, R>(
        &mut self,
        point_id: PointOffset,
        key: &K,
        remove: R,
        hw_counter: &mut HardwareCounterCell,
    ) -> (result: Result<Vec<JsonValue>, OperationError>) where
        R: FnOnce(Payload, &K) -> (Payload, Vec<JsonValue>),

        requires
            old(self).store().readable(point_id as int),
            old(self).removable(point_id, key, remove),
        ensures
            old(self).is_deleted(
                *final(self),
                point_id,
                key,
                remove,
                (old(hw_counter).payload_io_read, old(hw_counter).payload_io_write),
                result,
                (final(hw_counter).payload_io_read, final(hw_counter).payload_io_write),
            ),
            final(self).populated() == old(self).populated(),
    {
        match self.storage.get_value::<false>(point_id, hw_counter) {
            Ok(Some(payload)) => {
                let (rest, removed) = remove(payload, key);
                if removed.len() > 0 {
                    match self.storage.put_value(point_id, &rest, hw_counter) {
                        Ok(_) => {},
                        Err(error) => {
                            return Err(OperationError::from(error));
                        },
                    }
                }
                Ok(removed)
            },
            Ok(None) => Ok(Vec::new()),
            Err(error) => Err(OperationError::from(error)),
        }
    }

    /// The storage after the payload of a point was taken away, and what was taken away.
    pub open spec fn is_cleared(
        self,
        after: Self,
        point_id: PointOffset,
        result: Result<Option<Payload>, OperationError>,
    ) -> bool {
        match self.store().cell(point_id as int) {
            Err(error) => {
                &&& result == Err::<Option<Payload>, OperationError>(
                    OperationError::Gridstore(error),
                )
                &&& self.store().same(after.store())
            },
            Ok(None) => {
                &&& result == Ok::<Option<Payload>, OperationError>(None)
                &&& self.store().same(after.store())
            },
            Ok(Some(record)) => {
                &&& result matches Ok(Some(payload)) && Payload::is_decoded(
                    record.bytes,
                    payload,
                )
                &&& after.store().configured() == self.store().configured()
                &&& after.store().trained() == self.store().trained()
                &&& after.store().used() == self.store().used()
                &&& after.store().page_bytes() == self.store().page_bytes()
                &&& after.store().cells() == self.store().cells().update(point_id as int, Ok(None))
            },
        }
    }

    /// Takes the payload of a point away and returns it.
    pub fn clear(&mut self, point_id: PointOffset, _hw_counter: &HardwareCounterCell) -> (result:
        Result<Option<Payload>, OperationError>)
        requires
            old(self).store().readable(point_id as int),
        ensures
            old(self).is_cleared(*final(self), point_id, result),
            final(self).populated() == old(self).populated(),
    {
        hand_on(self.storage.delete_value(point_id))
    }

    /// Takes all payloads away, once the files of the store were emptied.
    pub fn clear_all(&mut self, cleared: Result<(), GridstoreError>) -> (result: Result<
        (),
        OperationError,
    >)
        ensures
            final(self).populated() == old(self).populated(),
            match cleared {
                Ok(_) => {
                    &&& result is Ok
                    &&& final(self).store().configured() == old(self).store().configured()
                    &&& final(self).store().trained() == old(self).store().trained()
                    &&& final(self).store().cells() == Seq::<Cell>::empty()
                    &&& final(self).store().used() == 0
                    &&& final(self).store().page_bytes() == 0
                },
                Err(error) => {
                    &&& result matches Err(OperationError::ServiceError { description })
                        && description@ == "Failed to clear mmap payload storage: "@
                        + error.message()
                    &&& old(self).store().same(final(self).store())
                },
            },
    {
        match cleared {
            Ok(_) => {
                self.storage.clear();
                Ok(())
            },
            Err(error) => Err(
                OperationError::failed("Failed to clear mmap payload storage: ", &error),
            ),
        }
    }

    /// What a flush of the store amounts to.
    pub fn flushed(outcome: Result<(), GridstoreError>) -> (result: Result<(), OperationError>)
        ensures
            match outcome {
                Ok(_) => result is Ok,
                Err(error) => result matches Err(OperationError::ServiceError { description })
                    && description@ == "Failed to flush mmap payload gridstore: "@
                    + error.message(),
            },
    {
        match outcome {
            Ok(_) => Ok(()),
            Err(error) => Err(
                OperationError::failed("Failed to flush mmap payload gridstore: ", &error),
            ),
        }
    }

    /// Hands the payloads of all the points to the callback, in order, until it returns
    /// `Ok(false)`.
    ///
    /// This is `scan` with a callback that was not called yet.
    pub fn iter<F>(&self, callback: F, hw_counter: &mut HardwareCounterCell) -> (result: Result<
        (),
        OperationError,
    >) where F: FnMut(PointOffset, Payload) -> Result<bool, OperationError>
        requires
            crate::walk::walkable::<Payload, F, OperationError>(
                self.store().cells(),
                callback,
                0,
            ),
        ensures
            crate::walk::is_walk::<Payload, F, OperationError>(
                self.store().cells(),
                callback,
                old(hw_counter).payload_io_read,
                result,
                final(hw_counter).payload_io_read,
            ),
            final(hw_counter).payload_io_write == old(hw_counter).payload_io_write,
    {
        let mut visitor = Callback::new(callback);
        self.scan(&mut visitor, hw_counter)
    }

    /// Hands the payloads of all the points to a callback, in order, until it returns `Ok(false)`:
    /// each in one call, and none after that.
    pub fn scan<F>(
        &self,
        visitor: &mut Callback<F, Payload, OperationError>,
        hw_counter: &mut HardwareCounterCell,
    ) -> (result: Result<(), OperationError>) where
        F: FnMut(PointOffset, Payload) -> Result<bool, OperationError>,

        requires
            crate::walk::walkable::<Payload, F, OperationError>(
                self.store().cells(),
                old(visitor).inner(),
                0,
            ),
        ensures
            final(visitor).follows(*old(visitor)),
            crate::callback::answered(
                old(visitor).inner(),
                final(visitor).since(*old(visitor)),
            ),
            crate::walk::walked(
                self.store().cells(),
                0,
                old(hw_counter).payload_io_read,
                final(visitor).since(*old(visitor)),
                result,
                final(hw_counter).payload_io_read,
            ),
            final(hw_counter).payload_io_write == old(hw_counter).payload_io_write,
    {
        self.storage.scan(visitor, hw_counter)
    }

    /// The storage size in bytes: what all the pages can hold.
    pub fn get_storage_size_bytes(&self) -> (result: Result<usize, OperationError>)
        ensures
            result matches Ok(size) && size == self.store().page_bytes(),
    {
        Ok(self.storage.get_storage_size_bytes())
    }

    /// Whether the payloads are read from disk.
    pub fn is_on_disk(&self) -> (result: bool)
        ensures
            result == !self.populated(),
    {
        !self.populate
    }

    /// What populating all pages in memory amounts to.
    pub fn populate(&self, outcome: Result<(), GridstoreError>) -> (result: Result<
        (),
        OperationError,
    >)
        ensures
            result == handed_on(outcome),
    {
        hand_on(outcome)
    }

    /// What dropping the disk cache amounts to.
    pub fn clear_cache(&self, outcome: Result<(), GridstoreError>) -> (result: Result<
        (),
        OperationError,
    >)
        ensures
            result == handed_on(outcome),
    {
        hand_on(outcome)
    }
}

}
