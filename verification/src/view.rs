//! Reading from a store.

use crate::blob::Blob;
use crate::callback::{Call, Callback};
use crate::config::{Compression, StorageConfig};
use crate::counter::HardwareCounterCell;
use crate::error::GridstoreError;
use crate::pages::Pages;
use crate::tracker::{PointOffset, Slot, Tracker, ValuePointer};
use std::marker::PhantomData;
use std::ops::ControlFlow;
use vstd::prelude::*;

verus! {

/// A non-owning view of a store: borrowed pages and tracker, and the logic that reads from them.
pub struct GridstoreView<'a, V> {
    pub config: &'a StorageConfig,
    pub tracker: &'a Tracker,
    pub pages: &'a Pages,
    /// The dictionary, for records that lean on one.
    pub dictionary: Option<&'a [u8]>,
    pub value_type: PhantomData<V>,
}

/// The dictionary, as bytes.
pub open spec fn dictionary_bytes(dictionary: Option<&[u8]>) -> Option<Seq<u8>> {
    match dictionary {
        Some(dictionary) => Some(dictionary@),
        None => None,
    }
}

/// What the bytes of a record decompress to, or `None` where they are no record of such a store.
pub open spec fn decompressed(
    compression: Compression,
    dictionary: Option<Seq<u8>>,
    raw: Seq<u8>,
) -> Option<Seq<u8>> {
    match compression {
        Compression::Uncompressed => Some(raw),
        Compression::LZ4 => if crate::lz4::allocatable(raw) {
            crate::lz4::decompressed(raw)
        } else {
            None
        },
        Compression::LZ4Dict => match dictionary {
            Some(dictionary) => if crate::lz4::allocatable(raw) {
                crate::lz4::dict_decompressed(raw, dictionary)
            } else {
                None
            },
            None => None,
        },
    }
}

impl<'a, V> GridstoreView<'a, V> {
    /// The configuration and the tracker are well formed.
    pub open spec fn wf(self) -> bool {
        &&& self.config.valid()
        &&& self.tracker.wf()
    }

    /// The bytes of a record, if the pages hold them all.
    pub open spec fn raw(self, pointer: ValuePointer) -> Option<Seq<u8>> {
        self.pages.record(pointer, *self.config)
    }

    /// What the bytes of a record decompress to.
    pub open spec fn decompressed(self, raw: Seq<u8>) -> Option<Seq<u8>> {
        decompressed(self.config.compression, dictionary_bytes(self.dictionary), raw)
    }

    /// A view of the parts of a store.
    pub fn new(
        config: &'a StorageConfig,
        tracker: &'a Tracker,
        pages: &'a Pages,
        dictionary: Option<&'a [u8]>,
    ) -> (view: Self)
        ensures
            view.config == config,
            view.tracker == tracker,
            view.pages == pages,
            view.dictionary == dictionary,
    {
        GridstoreView { config, tracker, pages, dictionary, value_type: PhantomData }
    }

    /// One more than the last point that has a slot.
    pub fn max_point_offset(&self) -> (offset: PointOffset)
        requires
            self.wf(),
        ensures
            offset == self.tracker.slots@.len(),
    {
        self.tracker.pointer_count()
    }

    /// Where the record of a point stands.
    pub fn get_pointer(&self, point_offset: PointOffset) -> (slot: Slot)
        ensures
            slot == self.tracker.slot(point_offset as int),
    {
        self.tracker.get(point_offset)
    }

    /// The storage size in bytes: what all the pages can hold.
    pub fn get_storage_size_bytes(&self) -> (size: usize)
        requires
            self.pages.pages@.len() * self.config.page_size_bytes <= usize::MAX,
        ensures
            size == self.pages.pages@.len() * self.config.page_size_bytes,
    {
        self.pages.num_pages() * self.config.page_size_bytes
    }

    /// Reads the bytes of a record, which can span more than one page.
    pub fn read_from_pages<const READ_SEQUENTIAL: bool>(
        &self,
        pointer: ValuePointer,
    ) -> (result: Result<Vec<u8>, GridstoreError>)
        requires
            self.wf(),
        ensures
            match self.raw(pointer) {
                Some(bytes) => result matches Ok(read) && read@ == bytes,
                None => result == Err::<Vec<u8>, GridstoreError>(GridstoreError::OutOfBounds),
            },
    {
        self.pages.read_from_pages::<READ_SEQUENTIAL>(pointer, self.config)
    }
}


/// The bytes can be tested on this machine for being a record.
pub open spec fn testable(compression: Compression, raw: Seq<u8>) -> bool {
    compression == Compression::Uncompressed || crate::lz4::decompressible(raw)
}

/// The record is one that the bytes of a value are compressed to. Where the bytes are at most
/// `u32::MAX`, the record decompresses to them; of longer bytes the size in front of the block
/// keeps the low 32 bits alone.
pub open spec fn is_record_of(
    compression: Compression,
    dictionary: Option<Seq<u8>>,
    value: Seq<u8>,
    record: Seq<u8>,
) -> bool {
    match compression {
        Compression::Uncompressed => record == value,
        _ => {
            &&& crate::lz4::SIZE_PREFIX < record.len() <= crate::lz4::SIZE_PREFIX
                + crate::lz4::max_block_size(value.len() as int)
            &&& record.take(crate::lz4::SIZE_PREFIX as int) == crate::lz4::size_prefix(
                value.len() as int,
            )
            &&& value.len() <= u32::MAX ==> Some(value) == if compression == Compression::LZ4 {
                crate::lz4::decompressed(record)
            } else {
                crate::lz4::dict_decompressed(record, dictionary->0)
            }
        },
    }
}

impl<'a, V: Blob> GridstoreView<'a, V> {
    /// The record of a point, if it has one, is that of a value.
    pub open spec fn readable(self, point_offset: int) -> bool {
        self.tracker.slot(point_offset) matches Ok(Some(pointer)) ==> (self.raw(
            pointer,
        ) matches Some(raw) ==> self.decodable(raw))
    }

    /// The bytes are the record of a value.
    pub open spec fn decodable(self, raw: Seq<u8>) -> bool {
        self.decompressed(raw) matches Some(bytes) && V::decodes(bytes)
    }

    /// Compresses the bytes of a value to a record.
    pub fn compress(&self, value: Vec<u8>) -> (record: Vec<u8>)
        requires
            self.config.compression != Compression::Uncompressed ==> crate::lz4::compressible(
                value@.len() as int,
            ),
            self.config.compression == Compression::LZ4Dict ==> self.dictionary is Some,
        ensures
            is_record_of(
                self.config.compression,
                dictionary_bytes(self.dictionary),
                value@,
                record@,
            ),
            value@.len() <= u32::MAX ==> self.decompressed(record@) == Some(value@),
    {
        let ghost bytes = value@;
        let record = match self.config.compression {
            Compression::Uncompressed => value,
            Compression::LZ4 => crate::lz4::compress_lz4(value.as_slice()),
            Compression::LZ4Dict => match self.dictionary {
                Some(dictionary) => lz4_flex::block::compress_prepend_size_with_dict(
                    value.as_slice(),
                    dictionary,
                ),
                None => {
                    assert(false);
                    value
                },
            },
        };
        proof {
            if bytes.len() <= u32::MAX {
                law_record_decompresses(
                    self.config.compression,
                    dictionary_bytes(self.dictionary),
                    bytes,
                    record@,
                );
            }
        }
        record
    }

    /// Decompresses a record to the bytes of a value.
    pub fn decompress(&self, value: Vec<u8>) -> (bytes: Vec<u8>)
        requires
            self.decompressed(value@) is Some,
        ensures
            self.decompressed(value@) == Some(bytes@),
    {
        match self.config.compression {
            Compression::Uncompressed => value,
            Compression::LZ4 => crate::lz4::decompress_lz4(value.as_slice()),
            Compression::LZ4Dict => match self.dictionary {
                Some(dictionary) => crate::lz4::decompress_lz4_dict(value.as_slice(), dictionary),
                None => {
                    assert(false);
                    value
                },
            },
        }
    }

    /// Decompresses a record, if it is one and can be tested for that on this machine.
    pub fn checked_decompress(&self, value: Vec<u8>) -> (bytes: Option<Vec<u8>>)
        ensures
            bytes is Some <==> testable(self.config.compression, value@) && self.decompressed(
                value@,
            ) is Some,
            bytes matches Some(bytes) ==> self.decompressed(value@) == Some(bytes@),
    {
        match self.config.compression {
            Compression::Uncompressed => Some(self.decompress(value)),
            Compression::LZ4 => if crate::lz4::is_block(value.as_slice()) {
                Some(self.decompress(value))
            } else {
                None
            },
            Compression::LZ4Dict => match self.dictionary {
                Some(dictionary) => if crate::lz4::is_dict_block(value.as_slice(), dictionary) {
                    Some(self.decompress(value))
                } else {
                    None
                },
                None => None,
            },
        }
    }

    /// What reading a point returns, and the count of bytes read after it.
    pub open spec fn is_value(
        self,
        point_offset: int,
        count: u64,
        result: Result<Option<V>, GridstoreError>,
        count_after: u64,
    ) -> bool {
        match self.tracker.slot(point_offset) {
            Err(error) => result == Err::<Option<V>, GridstoreError>(error) && count_after == count,
            Ok(None) => result == Ok::<Option<V>, GridstoreError>(None) && count_after == count,
            Ok(Some(pointer)) => match self.raw(pointer) {
                None => result == Err::<Option<V>, GridstoreError>(GridstoreError::OutOfBounds)
                    && count_after == count,
                Some(raw) => {
                    &&& result matches Ok(Some(value)) && V::is_decoded(
                        self.decompressed(raw)->0,
                        value,
                    )
                    &&& count_after == crate::counter::counted(count, raw.len())
                },
            },
        }
    }

    /// The value of a point.
    pub fn get_value<const READ_SEQUENTIAL: bool>(
        &self,
        point_offset: PointOffset,
        hw_counter: &mut HardwareCounterCell,
    ) -> (result: Result<Option<V>, GridstoreError>)
        requires
            self.wf(),
            self.readable(point_offset as int),
        ensures
            self.is_value(
                point_offset as int,
                old(hw_counter).payload_io_read,
                result,
                final(hw_counter).payload_io_read,
            ),
            final(hw_counter).payload_io_write == old(hw_counter).payload_io_write,
    {
        let pointer = match self.get_pointer(point_offset) {
            Ok(Some(pointer)) => pointer,
            Ok(None) => {
                return Ok(None);
            },
            Err(error) => {
                return Err(error);
            },
        };
        let raw = match self.read_from_pages::<READ_SEQUENTIAL>(pointer) {
            Ok(raw) => raw,
            Err(error) => {
                return Err(error);
            },
        };
        hw_counter.incr_payload_io_read(raw.len());
        let decompressed = self.decompress(raw);
        let value = V::from_bytes(decompressed.as_slice());
        Ok(Some(value))
    }

    /// A scan from `from` to `max_id` can be made: each record that it reaches is that of a value,
    /// and the callback accepts the value. The scan reaches no record beyond a slot that could not
    /// be read, beyond `left` records, or beyond a record for which the callback does not return
    /// `Ok(true)`.
    pub open spec fn scannable<F, E>(
        self,
        callback: F,
        from: int,
        max_id: int,
        left: int,
    ) -> bool where F: FnMut(PointOffset, V) -> Result<bool, E>
        decreases max_id - from,
    {
        if from >= max_id {
            true
        } else {
            match self.tracker.slot(from) {
                Err(_) => true,
                Ok(None) => self.scannable::<F, E>(callback, from + 1, max_id, left),
                Ok(Some(pointer)) => left == 0 || match self.raw(pointer) {
                    None => true,
                    Some(raw) => {
                        &&& self.decodable(raw)
                        &&& forall|value: V| #[trigger]
                            V::is_decoded(self.decompressed(raw)->0, value)
                                ==> call_requires(callback, (from as PointOffset, value))
                        &&& (exists|value: V| #[trigger]
                            V::is_decoded(self.decompressed(raw)->0, value) && call_ensures(
                                callback,
                                (from as PointOffset, value),
                                Ok::<bool, E>(true),
                            )) ==> self.scannable::<F, E>(callback, from + 1, max_id, left - 1)
                    },
                },
            }
        }
    }

    /// The calls that a scan from `from` to `max_id` makes, what it returns, and the count of bytes
    /// read after it. The scan hands the values of the points over, in order and once each. It ends
    /// - at the first slot that could not be read, with that error;
    /// - at the first record after `left` of them, with `Continue` and its point;
    /// - at the first record that the pages do not hold, with that error;
    /// - after the call that fails, with its error, or is answered `false`, with `Break`;
    /// - at `max_id`, with `Break`.
    pub open spec fn handed<E: From<GridstoreError>>(
        self,
        from: int,
        max_id: int,
        left: int,
        count: u64,
        calls: Seq<Call<V, E>>,
        result: Result<ControlFlow<(), PointOffset>, E>,
        count_after: u64,
    ) -> bool
        decreases max_id - from,
    {
        if from >= max_id {
            &&& calls.len() == 0
            &&& result == Ok::<ControlFlow<(), PointOffset>, E>(ControlFlow::Break(()))
            &&& count_after == count
        } else {
            match self.tracker.slot(from) {
                Err(error) => {
                    &&& calls.len() == 0
                    &&& is_converted(error, result)
                    &&& count_after == count
                },
                Ok(None) => self.handed(
                    from + 1,
                    max_id,
                    left,
                    count,
                    calls,
                    result,
                    count_after,
                ),
                Ok(Some(pointer)) => if left == 0 {
                    &&& calls.len() == 0
                    &&& result == Ok::<ControlFlow<(), PointOffset>, E>(
                        ControlFlow::Continue(from as PointOffset),
                    )
                    &&& count_after == count
                } else {
                    match self.raw(pointer) {
                        None => {
                            &&& calls.len() == 0
                            &&& is_converted(GridstoreError::OutOfBounds, result)
                            &&& count_after == count
                        },
                        Some(raw) => {
                            let read = crate::counter::counted(count, raw.len());
                            &&& calls.len() > 0
                            &&& calls[0].0 == from
                            &&& V::is_decoded(self.decompressed(raw)->0, calls[0].1)
                            &&& match calls[0].2 {
                                Err(error) => {
                                    &&& calls.len() == 1
                                    &&& result == Err::<ControlFlow<(), PointOffset>, E>(error)
                                    &&& count_after == read
                                },
                                Ok(false) => {
                                    &&& calls.len() == 1
                                    &&& result == Ok::<ControlFlow<(), PointOffset>, E>(
                                        ControlFlow::Break(()),
                                    )
                                    &&& count_after == read
                                },
                                Ok(true) => self.handed(
                                    from + 1,
                                    max_id,
                                    left - 1,
                                    read,
                                    calls.drop_first(),
                                    result,
                                    count_after,
                                ),
                            }
                        },
                    }
                },
            }
        }
    }

    /// What a scan from `from` to `max_id` returns, and the count of bytes read after it, for some
    /// answers that the callback may give.
    pub open spec fn scanned<F, E>(
        self,
        callback: F,
        from: int,
        max_id: int,
        left: int,
        count: u64,
        result: Result<ControlFlow<(), PointOffset>, E>,
        count_after: u64,
    ) -> bool where F: FnMut(PointOffset, V) -> Result<bool, E>, E: From<GridstoreError> {
        exists|calls: Seq<Call<V, E>>|
            {
                &&& crate::callback::answered(callback, calls)
                &&& #[trigger] self.handed(from, max_id, left, count, calls, result, count_after)
            }
    }

    /// Hands the values of the points from `from_id` up to `max_id` to the callback, in order.
    ///
    /// Returns `Ok(Continue(next_offset))` if `max_iters` values were handed over and there is
    /// another record, at `next_offset`. Returns `Ok(Break(()))` if the callback returned
    /// `Ok(false)` or there are no more records. Fails where the callback fails, where a slot
    /// could not be read (none is skipped), and where the pages do not hold a record.
    ///
    /// This is `scan` with a callback that was not called yet.
    pub fn iter<F, E>(
        &self,
        from_id: PointOffset,
        max_id: PointOffset,
        max_iters: usize,
        callback: F,
        hw_counter: &mut HardwareCounterCell,
    ) -> (result: Result<ControlFlow<(), PointOffset>, E>) where
        F: FnMut(PointOffset, V) -> Result<bool, E>,
        E: From<GridstoreError>,

        requires
            self.wf(),
            self.scannable::<F, E>(callback, from_id as int, max_id as int, max_iters as int),
        ensures
            self.scanned(
                callback,
                from_id as int,
                max_id as int,
                max_iters as int,
                old(hw_counter).payload_io_read,
                result,
                final(hw_counter).payload_io_read,
            ),
            final(hw_counter).payload_io_write == old(hw_counter).payload_io_write,
    {
        let mut visitor = Callback::new(callback);
        self.scan(from_id, max_id, max_iters, &mut visitor, hw_counter)
    }

    /// Hands the values of the points from `from_id` up to `max_id` to a callback, in order: each
    /// in one call, and none after the scan ended.
    pub fn scan<F, E>(
        &self,
        from_id: PointOffset,
        max_id: PointOffset,
        max_iters: usize,
        visitor: &mut Callback<F, V, E>,
        hw_counter: &mut HardwareCounterCell,
    ) -> (result: Result<ControlFlow<(), PointOffset>, E>) where
        F: FnMut(PointOffset, V) -> Result<bool, E>,
        E: From<GridstoreError>,

        requires
            self.wf(),
            self.scannable::<F, E>(
                old(visitor).inner(),
                from_id as int,
                max_id as int,
                max_iters as int,
            ),
        ensures
            final(visitor).follows(*old(visitor)),
            crate::callback::answered(
                old(visitor).inner(),
                final(visitor).since(*old(visitor)),
            ),
            self.handed(
                from_id as int,
                max_id as int,
                max_iters as int,
                old(hw_counter).payload_io_read,
                final(visitor).since(*old(visitor)),
                result,
                final(hw_counter).payload_io_read,
            ),
            final(hw_counter).payload_io_write == old(hw_counter).payload_io_write,
    {
        let ghost begin = *visitor;
        let ghost start = (from_id as int, max_iters as int, hw_counter.payload_io_read);
        let ghost mut reached = start;
        let ghost mut made: Seq<Call<V, E>> = Seq::empty();
        let ghost mut last: Seq<Call<V, E>> = Seq::empty();
        let mut result: Result<ControlFlow<(), PointOffset>, E> = Ok(ControlFlow::Break(()));
        let mut nth: usize = 0;
        let mut point_offset: PointOffset = from_id;
        proof {
            assert forall|calls: Seq<Call<V, E>>| #[trigger] (made + calls) == calls by {
                assert(made + calls =~= calls);
            }
            assert(visitor.since(begin) =~= made + last);
        }
        while point_offset < max_id
            invariant_except_break
                nth <= max_iters,
                result == Ok::<ControlFlow<(), PointOffset>, E>(ControlFlow::Break(())),
                reached == (point_offset as int, max_iters - nth, hw_counter.payload_io_read),
                last.len() == 0,
                self.scannable::<F, E>(
                    begin.inner(),
                    point_offset as int,
                    max_id as int,
                    max_iters - nth,
                ),
            invariant
                self.wf(),
                begin == *old(visitor),
                hw_counter.payload_io_write == old(hw_counter).payload_io_write,
                visitor.follows(begin),
                visitor.since(begin) == made + last,
                crate::callback::answered(begin.inner(), visitor.since(begin)),
                self.goes_on(start, max_id as int, made, reached),
            ensures
                self.handed(
                    reached.0,
                    max_id as int,
                    reached.1,
                    reached.2,
                    last,
                    result,
                    hw_counter.payload_io_read,
                ),
            decreases max_id - point_offset,
        {
            let pointer = match self.get_pointer(point_offset) {
                Ok(Some(pointer)) => pointer,
                Ok(None) => {
                    proof {
                        self.lemma_goes_on_past(start, max_id as int, made, reached);
                        reached = (reached.0 + 1, reached.1, reached.2);
                    }
                    point_offset += 1;
                    continue;
                },
                Err(error) => {
                    result = Err(E::from(error));
                    break;
                },
            };
            if nth == max_iters {
                result = Ok(ControlFlow::Continue(point_offset));
                break;
            }
            let raw = match self.read_from_pages::<true>(pointer) {
                Ok(raw) => raw,
                Err(error) => {
                    result = Err(E::from(error));
                    break;
                },
            };
            hw_counter.incr_payload_io_read(raw.len());
            let decompressed = self.decompress(raw);
            let value = V::from_bytes(decompressed.as_slice());
            let answer = visitor.visit(point_offset, value);
            proof {
                last = seq![visitor.calls().last()];
                assert(visitor.since(begin) =~= made + last);
            }
            match answer {
                Ok(true) => {},
                Ok(false) => {
                    break;
                },
                Err(error) => {
                    result = Err(error);
                    break;
                },
            }
            proof {
                self.lemma_goes_on_behind(start, max_id as int, made, reached, last[0]);
                reached = (reached.0 + 1, reached.1 - 1, hw_counter.payload_io_read);
                made = made.push(last[0]);
                last = Seq::empty();
                assert(visitor.since(begin) =~= made + last);
            }
            nth += 1;
            point_offset += 1;
        }
        result
    }

    /// A scan that made some calls has come to a place: what a scan from there does is, after these
    /// calls, what the scan from the start does. A place is a point, the number of records left,
    /// and the count of bytes read.
    spec fn goes_on<E: From<GridstoreError>>(
        self,
        start: (int, int, u64),
        max_id: int,
        made: Seq<Call<V, E>>,
        reached: (int, int, u64),
    ) -> bool {
        forall|
            calls: Seq<Call<V, E>>,
            result: Result<ControlFlow<(), PointOffset>, E>,
            count_after: u64,
        | #[trigger]
            self.handed(reached.0, max_id, reached.1, reached.2, calls, result, count_after)
                ==> self.handed(
                start.0,
                max_id,
                start.1,
                start.2,
                made + calls,
                result,
                count_after,
            )
    }

    /// A scan goes on past a point that has no record.
    proof fn lemma_goes_on_past<E: From<GridstoreError>>(
        &self,
        start: (int, int, u64),
        max_id: int,
        made: Seq<Call<V, E>>,
        reached: (int, int, u64),
    )
        requires
            self.goes_on(start, max_id, made, reached),
            reached.0 < max_id,
            self.tracker.slot(reached.0) matches Ok(None),
        ensures
            self.goes_on(start, max_id, made, (reached.0 + 1, reached.1, reached.2)),
    {
        assert forall|
            calls: Seq<Call<V, E>>,
            result: Result<ControlFlow<(), PointOffset>, E>,
            count_after: u64,
        | #[trigger]
            self.handed(
                reached.0 + 1,
                max_id,
                reached.1,
                reached.2,
                calls,
                result,
                count_after,
            ) implies self.handed(
            start.0,
            max_id,
            start.1,
            start.2,
            made + calls,
            result,
            count_after,
        ) by {
            assert(self.handed(
                reached.0,
                max_id,
                reached.1,
                reached.2,
                calls,
                result,
                count_after,
            ));
        }
    }

    /// A scan goes on behind the point whose value was handed over.
    proof fn lemma_goes_on_behind<E: From<GridstoreError>>(
        &self,
        start: (int, int, u64),
        max_id: int,
        made: Seq<Call<V, E>>,
        reached: (int, int, u64),
        call: Call<V, E>,
    )
        requires
            self.goes_on(start, max_id, made, reached),
            reached.0 < max_id,
            reached.1 != 0,
            self.tracker.slot(reached.0) matches Ok(Some(pointer)) && {
                &&& self.raw(pointer) matches Some(raw)
                &&& V::is_decoded(self.decompressed(raw)->0, call.1)
            },
            call.0 == reached.0,
            call.2 == Ok::<bool, E>(true),
        ensures
            self.goes_on(
                start,
                max_id,
                made.push(call),
                (
                    reached.0 + 1,
                    reached.1 - 1,
                    crate::counter::counted(
                        reached.2,
                        self.raw(self.tracker.slot(reached.0)->Ok_0->0)->0.len(),
                    ),
                ),
            ),
    {
        let raw = self.raw(self.tracker.slot(reached.0)->Ok_0->0)->0;
        let read = crate::counter::counted(reached.2, raw.len());
        assert forall|
            calls: Seq<Call<V, E>>,
            result: Result<ControlFlow<(), PointOffset>, E>,
            count_after: u64,
        | #[trigger]
            self.handed(
                reached.0 + 1,
                max_id,
                reached.1 - 1,
                read,
                calls,
                result,
                count_after,
            ) implies self.handed(
            start.0,
            max_id,
            start.1,
            start.2,
            made.push(call) + calls,
            result,
            count_after,
        ) by {
            let longer = seq![call] + calls;
            assert(longer.drop_first() =~= calls);
            assert(self.handed(
                reached.0,
                max_id,
                reached.1,
                reached.2,
                longer,
                result,
                count_after,
            ));
            assert(made.push(call) + calls =~= made + longer);
        }
    }
}

/// The result is the error, converted.
pub open spec fn is_converted<T, E: From<GridstoreError>>(
    error: GridstoreError,
    result: Result<T, E>,
) -> bool {
    &&& result is Err
    &&& <E as vstd::std_specs::convert::FromSpec<GridstoreError>>::obeys_from_spec() ==> result
        == Err::<T, E>(
        <E as vstd::std_specs::convert::FromSpec<GridstoreError>>::from_spec(error),
    )
}


/// A record of at most `u32::MAX` bytes decompresses to them, with every compression.
pub proof fn law_record_decompresses(
    compression: Compression,
    dictionary: Option<Seq<u8>>,
    value: Seq<u8>,
    record: Seq<u8>,
)
    requires
        value.len() <= u32::MAX,
        compression != Compression::Uncompressed ==> crate::lz4::compressible(value.len() as int),
        compression == Compression::LZ4Dict ==> dictionary is Some,
        is_record_of(compression, dictionary, value, record),
    ensures
        decompressed(compression, dictionary, record) == Some(value),
{
    if compression != Compression::Uncompressed {
        crate::lz4::lemma_announced_size(value.len() as int, record);
    }
}

/// What one view compressed, another one with the same compression decompresses to the same value,
/// if it has the same dictionary where the compression leans on one.
pub proof fn law_decompress_undoes_compress<V: Blob, W: Blob>(
    compressing: GridstoreView<'_, V>,
    decompressing: GridstoreView<'_, W>,
    value: Seq<u8>,
    record: Seq<u8>,
    bytes: Seq<u8>,
)
    requires
        value.len() <= u32::MAX,
        compressing.config.compression != Compression::Uncompressed ==> crate::lz4::compressible(
            value.len() as int,
        ),
        decompressing.config.compression == compressing.config.compression,
        compressing.config.compression == Compression::LZ4Dict ==> {
            &&& compressing.dictionary is Some
            &&& dictionary_bytes(decompressing.dictionary) == dictionary_bytes(
                compressing.dictionary,
            )
        },
        is_record_of(
            compressing.config.compression,
            dictionary_bytes(compressing.dictionary),
            value,
            record,
        ),
        decompressing.decompressed(record) is Some ==> decompressing.decompressed(record) == Some(
            bytes,
        ),
    ensures
        decompressing.decompressed(record) == Some(value),
        bytes == value,
{
    law_record_decompresses(
        compressing.config.compression,
        dictionary_bytes(compressing.dictionary),
        value,
        record,
    );
}

}
