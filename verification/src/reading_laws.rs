//! What scans and walks hand over, point by point.

use crate::blob::Blob;
use crate::callback::{Call, Callback};
use crate::counter::HardwareCounterCell;
use crate::error::{GridstoreError, OperationError};
use crate::json::Json;
use crate::layout::{Cell, Record};
use crate::mmap_payload_storage::MmapPayloadStorage;
use crate::payload::Payload;
use crate::tracker::{PointOffset, ValuePointer};
use crate::view::GridstoreView;
use std::ops::ControlFlow;
use vstd::prelude::*;

verus! {

/// There is a call for the point.
pub open spec fn is_called<V, E>(calls: Seq<Call<V, E>>, point: int) -> bool {
    exists|k: int| 0 <= k < calls.len() && (#[trigger] calls[k]).0 == point
}

/// The calls are in ascending order of their points, so that no point has two, and each but the
/// last was answered `Ok(true)`.
pub open spec fn is_orderly<V, E>(calls: Seq<Call<V, E>>) -> bool {
    &&& forall|j: int, k: int|
        0 <= j < k < calls.len() ==> (#[trigger] calls[j]).0 < (#[trigger] calls[k]).0
    &&& forall|k: int|
        0 <= k < calls.len() - 1 ==> (#[trigger] calls[k]).2 == Ok::<bool, E>(true)
}

/// A call of the rest is a call.
proof fn lemma_called_in_rest<V, E>(calls: Seq<Call<V, E>>, point: int)
    requires
        calls.len() > 0,
        is_called(calls.drop_first(), point),
    ensures
        is_called(calls, point),
{
    let rest = calls.drop_first();
    let k = choose|k: int| 0 <= k < rest.len() && (#[trigger] rest[k]).0 == point;
    assert(calls[k + 1].0 == point);
}

/// A scan leaves out no record that it comes past. Up to where it ended, each point that has a
/// record has a call: up to the point that it is to be continued from, up to the upper bound where
/// it came to that, up to the point of the call that ended it, and up to the point that could not
/// be read.
pub proof fn law_scan_leaves_out_no_record<V: Blob, E: From<GridstoreError>>(
    view: GridstoreView<'_, V>,
    from: int,
    max_id: int,
    left: int,
    count: u64,
    calls: Seq<Call<V, E>>,
    result: Result<ControlFlow<(), PointOffset>, E>,
    count_after: u64,
) -> (stop: int)
    requires
        0 <= from,
        max_id <= PointOffset::MAX,
        0 <= left,
        view.handed(from, max_id, left, count, calls, result, count_after),
    ensures
        from <= stop,
        forall|i: int|
            from <= i < stop ==> ((#[trigger] view.tracker.slot(i)) matches Ok(kept) && (
            kept is Some ==> is_called(calls, i))),
        forall|k: int| 0 <= k < calls.len() ==> from <= (#[trigger] calls[k]).0 < stop,
        match result {
            Ok(ControlFlow::Continue(next)) => {
                &&& stop == next
                &&& next < max_id
                &&& view.tracker.slot(next as int) matches Ok(Some(_))
                &&& calls.len() == left
                &&& calls.len() > 0 ==> calls.last().2 == Ok::<bool, E>(true)
            },
            Ok(ControlFlow::Break(_)) => {
                ||| stop >= max_id && (calls.len() > 0 ==> calls.last().2 is Ok)
                ||| calls.len() > 0 && stop == calls.last().0 + 1 && calls.last().2 == Ok::<
                    bool,
                    E,
                >(false)
            },
            Err(error) => {
                ||| calls.len() > 0 && stop == calls.last().0 + 1 && calls.last().2 == Err::<
                    bool,
                    E,
                >(error)
                ||| stop < max_id && crate::scan::fails_at(view, stop, result)
            },
        },
    decreases max_id - from,
{
    if from >= max_id {
        from
    } else {
        match view.tracker.slot(from) {
            Err(_) => from,
            Ok(None) => law_scan_leaves_out_no_record(
                view,
                from + 1,
                max_id,
                left,
                count,
                calls,
                result,
                count_after,
            ),
            Ok(Some(pointer)) => {
                if left == 0 || view.raw(pointer) is None {
                    from
                } else if calls[0].2 != Ok::<bool, E>(true) {
                    assert(calls[0].0 == from);
                    from + 1
                } else {
                    let rest = calls.drop_first();
                    let read = crate::counter::counted(count, view.raw(pointer)->0.len());
                    let stop = law_scan_leaves_out_no_record(
                        view,
                        from + 1,
                        max_id,
                        left - 1,
                        read,
                        rest,
                        result,
                        count_after,
                    );
                    assert(calls[0].0 == from);
                    assert(is_called(calls, from));
                    assert forall|i: int| from <= i < stop implies ((
                    #[trigger] view.tracker.slot(i)) matches Ok(kept) && (kept is Some
                        ==> is_called(calls, i))) by {
                        if i > from && view.tracker.slot(i) matches Ok(Some(_)) {
                            lemma_called_in_rest(calls, i);
                        }
                    }
                    assert forall|k: int| 0 <= k < calls.len() implies from <= (
                    #[trigger] calls[k]).0 < stop by {
                        if k > 0 {
                            assert(calls[k] == rest[k - 1]);
                        }
                    }
                    assert(calls.len() > 1 ==> rest.last() == calls.last());
                    stop
                }
            },
        }
    }
}

/// The number of bytes of the records of some points, one after the other.
pub open spec fn bytes_of_records(lens: Seq<nat>) -> nat
    decreases lens.len(),
{
    if lens.len() == 0 {
        0
    } else {
        lens[0] + bytes_of_records(lens.drop_first())
    }
}

/// Counting on, one after the other, is counting on all at once.
proof fn lemma_counted_twice(count: u64, first: nat, second: nat)
    ensures
        crate::counter::counted(crate::counter::counted(count, first), second)
            == crate::counter::counted(count, first + second),
{
    let modulus: int = 0x1_0000_0000_0000_0000;
    vstd::arithmetic::div_mod::lemma_add_mod_noop(count + first, second as int, modulus);
    vstd::arithmetic::div_mod::lemma_mod_bound(count + first, modulus);
    vstd::arithmetic::div_mod::lemma_mod_bound(second as int, modulus);
    let once = (count + first) % modulus;
    vstd::arithmetic::div_mod::lemma_add_mod_noop(once, second as int, modulus);
    vstd::arithmetic::div_mod::lemma_mod_twice(count + first, modulus);
}

/// A count grows by the bytes that are counted as long as it fits 64 bits.
pub proof fn law_count_grows(counter: &mut HardwareCounterCell, delta: usize)
    requires
        call_ensures(HardwareCounterCell::incr_payload_io_read, (counter, delta), ()),
        old(counter).payload_io_read + delta <= u64::MAX,
    ensures
        final(counter).payload_io_read == old(counter).payload_io_read + delta,
        final(counter).payload_io_write == old(counter).payload_io_write,
{
}

/// The lengths of the records of the points that are called, in order.
pub open spec fn stored_lens<V, E>(cells: Seq<Cell>, calls: Seq<Call<V, E>>) -> Seq<nat> {
    Seq::new(
        calls.len(),
        |k: int| match cells[calls[k].0 as int] {
            Ok(Some(record)) => record.raw.len(),
            _ => 0,
        },
    )
}

/// A walk leaves out nothing that is stored. Up to where it ended, each point for which something
/// is stored has a call, with what is stored for it: all of them where it ended behind the last,
/// those up to the call that ended it, and those in front of the point that could not be read. The
/// bytes of their records are counted, and no others.
pub proof fn law_walk_leaves_out_nothing<V: Blob, E: From<GridstoreError>>(
    cells: Seq<Cell>,
    from: int,
    count: u64,
    calls: Seq<Call<V, E>>,
    result: Result<(), E>,
    count_after: u64,
) -> (stop: int)
    requires
        0 <= from <= cells.len(),
        crate::walk::walked(cells, from, count, calls, result, count_after),
    ensures
        from <= stop <= cells.len(),
        forall|i: int|
            from <= i < stop ==> ((#[trigger] cells[i]) matches Ok(kept) && (kept is Some
                ==> is_called(calls, i))),
        is_orderly(calls),
        forall|k: int|
            0 <= k < calls.len() ==> from <= (#[trigger] calls[k]).0 < stop && (
            cells[calls[k].0 as int] matches Ok(Some(record)) && V::is_decoded(
                record.bytes,
                calls[k].1,
            )),
        match result {
            Ok(_) => {
                ||| stop == cells.len() && (calls.len() > 0 ==> calls.last().2 is Ok)
                ||| calls.len() > 0 && stop == calls.last().0 + 1 && calls.last().2 == Ok::<
                    bool,
                    E,
                >(false)
            },
            Err(error) => {
                ||| calls.len() > 0 && stop == calls.last().0 + 1 && calls.last().2 == Err::<
                    bool,
                    E,
                >(error)
                ||| stop < cells.len() && (cells[stop] matches Err(reason)
                    && crate::view::is_converted(reason, result)) && (calls.len() > 0
                    ==> calls.last().2 == Ok::<bool, E>(true))
            },
        },
        count_after == crate::counter::counted(count, bytes_of_records(stored_lens(cells, calls))),
    decreases cells.len() - from,
{
    if from >= cells.len() {
        assert(stored_lens(cells, calls).len() == 0);
        from
    } else {
        match cells[from] {
            Err(_) => {
                assert(stored_lens(cells, calls).len() == 0);
                from
            },
            Ok(None) => law_walk_leaves_out_nothing(
                cells,
                from + 1,
                count,
                calls,
                result,
                count_after,
            ),
            Ok(Some(record)) => {
                let rest = calls.drop_first();
                let read = crate::counter::counted(count, record.raw.len());
                let lens = stored_lens(cells, calls);
                assert(calls[0].0 == from);
                assert(is_called(calls, from));
                assert(lens[0] == record.raw.len());
                if calls[0].2 != Ok::<bool, E>(true) {
                    assert(lens.drop_first().len() == 0);
                    assert(bytes_of_records(lens.drop_first()) == 0);
                    from + 1
                } else {
                    let stop = law_walk_leaves_out_nothing(
                        cells,
                        from + 1,
                        read,
                        rest,
                        result,
                        count_after,
                    );
                    assert(lens.drop_first() =~= stored_lens(cells, rest));
                    lemma_counted_twice(
                        count,
                        record.raw.len(),
                        bytes_of_records(stored_lens(cells, rest)),
                    );
                    assert forall|i: int| from <= i < stop implies ((
                    #[trigger] cells[i]) matches Ok(kept) && (kept is Some ==> is_called(
                        calls,
                        i,
                    ))) by {
                        if i > from && cells[i] matches Ok(Some(_)) {
                            lemma_called_in_rest(calls, i);
                        }
                    }
                    assert forall|k: int| 0 < k < calls.len() implies #[trigger] calls[k] == rest[k
                        - 1] by {}
                    assert(calls.len() > 1 ==> rest.last() == calls.last());
                    stop
                }
            },
        }
    }
}

/// The calls are for the payloads of the points in front of `stop`: each point that has one has a
/// call with it, once and in ascending order, and there are no others. The walk ended there: behind
/// the last point, with the answer `Ok(false)`, with the failure of the last call, or at a point
/// that could not be read, with the reason for that.
pub open spec fn is_handed_over(
    cells: Seq<Cell>,
    calls: Seq<Call<Payload, OperationError>>,
    result: Result<(), OperationError>,
    stop: int,
) -> bool {
    &&& 0 <= stop <= cells.len()
    &&& is_orderly(calls)
    &&& forall|i: int|
        0 <= i < stop ==> ((#[trigger] cells[i]) matches Ok(kept) && (kept is Some ==> is_called(
            calls,
            i,
        )))
    &&& forall|k: int|
        0 <= k < calls.len() ==> (#[trigger] calls[k]).0 < stop && (
        cells[calls[k].0 as int] matches Ok(Some(record)) && crate::text::parsed(record.bytes)
            == Some(calls[k].1@))
    &&& match result {
        Ok(_) => {
            ||| stop == cells.len() && (calls.len() > 0 ==> calls.last().2 is Ok)
            ||| calls.len() > 0 && stop == calls.last().0 + 1 && calls.last().2 == Ok::<
                bool,
                OperationError,
            >(false)
        },
        Err(error) => {
            ||| calls.len() > 0 && stop == calls.last().0 + 1 && calls.last().2 == Err::<
                bool,
                OperationError,
            >(error)
            ||| stop < cells.len() && (cells[stop] matches Err(reason) && error
                == OperationError::Gridstore(reason))
        },
    }
}

/// What `scan` of a storage hands over: the payload of each point that has one, each once and in
/// ascending order, up to where it ended, and nothing else.
pub proof fn law_scan_of_a_storage<F>(
    storage: &MmapPayloadStorage,
    visitor: &mut Callback<F, Payload, OperationError>,
    hw_counter: &mut HardwareCounterCell,
    result: Result<(), OperationError>,
) where F: FnMut(PointOffset, Payload) -> Result<bool, OperationError>
    requires
        call_ensures(MmapPayloadStorage::scan::<F>, (storage, visitor, hw_counter), result),
    ensures
        old(visitor).calls().is_prefix_of(final(visitor).calls()),
        exists|stop: int| #[trigger]
            is_handed_over(
                storage.store().cells(),
                final(visitor).calls().skip(old(visitor).calls().len() as int),
                result,
                stop,
            ),
        final(hw_counter).payload_io_read == crate::counter::counted(
            old(hw_counter).payload_io_read,
            bytes_of_records(
                stored_lens(
                    storage.store().cells(),
                    final(visitor).calls().skip(old(visitor).calls().len() as int),
                ),
            ),
        ),
        final(hw_counter).payload_io_write == old(hw_counter).payload_io_write,
{
    let calls = final(visitor).since(*old(visitor));
    let stop = law_walk_leaves_out_nothing(
        storage.store().cells(),
        0,
        old(hw_counter).payload_io_read,
        calls,
        result,
        final(hw_counter).payload_io_read,
    );
    assert(is_handed_over(storage.store().cells(), calls, result, stop));
}

/// A walk that looks for bytes of no value stops in front of them: each point in front of them for
/// which something is stored has a call, and none behind them has.
pub proof fn law_checked_walk_stops_in_time<V: Blob, E: From<GridstoreError>>(
    cells: Seq<Cell>,
    from: int,
    count: u64,
    calls: Seq<Call<V, E>>,
    count_after: u64,
) -> (stop: int)
    requires
        0 <= from <= cells.len(),
        crate::walk::walked_checked(cells, from, count, calls, None, count_after),
    ensures
        from <= stop < cells.len(),
        cells[stop] matches Ok(Some(record)) && !V::decodes(record.bytes),
        forall|i: int|
            from <= i < stop ==> ((#[trigger] cells[i]) matches Ok(kept) && (kept matches Some(
                record,
            ) ==> V::decodes(record.bytes) && is_called(calls, i))),
        forall|k: int|
            0 <= k < calls.len() ==> from <= (#[trigger] calls[k]).0 < stop && calls[k].2 == Ok::<
                bool,
                E,
            >(true),
    decreases cells.len() - from,
{
    match cells[from] {
        Err(_) => from,
        Ok(None) => law_checked_walk_stops_in_time(cells, from + 1, count, calls, count_after),
        Ok(Some(record)) => {
            if !V::decodes(record.bytes) {
                from
            } else {
                let rest = calls.drop_first();
                let read = crate::counter::counted(count, record.raw.len());
                let stop = law_checked_walk_stops_in_time(
                    cells,
                    from + 1,
                    read,
                    rest,
                    count_after,
                );
                assert(calls[0].0 == from);
                assert(is_called(calls, from));
                assert forall|i: int| from <= i < stop implies ((
                #[trigger] cells[i]) matches Ok(kept) && (kept matches Some(record) ==> V::decodes(
                    record.bytes,
                ) && is_called(calls, i))) by {
                    if i > from && cells[i] matches Ok(Some(_)) {
                        lemma_called_in_rest(calls, i);
                    }
                }
                assert forall|k: int| 0 < k < calls.len() implies #[trigger] calls[k] == rest[k
                    - 1] by {}
                stop
            }
        },
    }
}

/// What `checked_scan` of a storage hands over is what `scan` hands over, unless it comes to bytes
/// of no payload: it stops in front of them then, and returns `None`.
pub proof fn law_checked_scan_of_a_storage<F>(
    storage: &MmapPayloadStorage,
    visitor: &mut Callback<F, Payload, OperationError>,
    hw_counter: &mut HardwareCounterCell,
    result: Option<Result<(), OperationError>>,
) where F: FnMut(PointOffset, Payload) -> Result<bool, OperationError>
    requires
        call_ensures(MmapPayloadStorage::checked_scan::<F>, (storage, visitor, hw_counter), result),
    ensures
        old(visitor).calls().is_prefix_of(final(visitor).calls()),
        match result {
            None => exists|stop: int| #[trigger]
                is_stopped_at(
                    storage.store().cells(),
                    final(visitor).calls().skip(old(visitor).calls().len() as int),
                    stop,
                ),
            Some(result) => exists|stop: int| #[trigger]
                is_handed_over(
                    storage.store().cells(),
                    final(visitor).calls().skip(old(visitor).calls().len() as int),
                    result,
                    stop,
                ),
        },
{
    let calls = final(visitor).since(*old(visitor));
    let cells = storage.store().cells();
    let counts = (old(hw_counter).payload_io_read, final(hw_counter).payload_io_read);
    match result {
        None => {
            let stop = law_checked_walk_stops_in_time(cells, 0, counts.0, calls, counts.1);
            assert(is_stopped_at(cells, calls, stop));
        },
        Some(result) => {
            crate::laws::law_checked_walk_is_a_walk(
                cells,
                0,
                counts.0,
                calls,
                result,
                counts.1,
            );
            let stop = law_walk_leaves_out_nothing(cells, 0, counts.0, calls, result, counts.1);
            assert(is_handed_over(cells, calls, result, stop));
        },
    }
}

/// What is stored for a point is not the text of an object, and the calls are those for the points
/// in front of it that have a payload.
pub open spec fn is_stopped_at(
    cells: Seq<Cell>,
    calls: Seq<Call<Payload, OperationError>>,
    stop: int,
) -> bool {
    &&& 0 <= stop < cells.len()
    &&& cells[stop] matches Ok(Some(record)) && crate::text::parsed(record.bytes) is None
    &&& forall|i: int|
        0 <= i < stop ==> ((#[trigger] cells[i]) matches Ok(kept) && (kept matches Some(record)
            ==> crate::text::parsed(record.bytes) is Some && is_called(calls, i)))
    &&& forall|k: int|
        0 <= k < calls.len() ==> (#[trigger] calls[k]).0 < stop && calls[k].2 == Ok::<
            bool,
            OperationError,
        >(true)
}

/// The bytes of a record are those of the pages, from the block on that the pointer names, one
/// after the other from page to page; a record that the pages do not hold is out of bounds.
pub proof fn law_record_is_read_from_pages<'a, V>(
    view: &GridstoreView<'a, V>,
    pointer: ValuePointer,
    result: Result<Vec<u8>, GridstoreError>,
)
    requires
        call_ensures(GridstoreView::<'a, V>::read_from_pages::<true>, (view, pointer), result),
        0 < view.config.page_size_bytes,
    ensures
        match result {
            Ok(bytes) => {
                &&& bytes@.len() == pointer.length
                &&& forall|i: int|
                    0 <= i < bytes@.len() ==> {
                        let at = pointer.page_id * view.config.page_size_bytes
                            + pointer.block_offset * view.config.block_size_bytes + i;
                        let page = at / view.config.page_size_bytes as int;
                        let offset = at % view.config.page_size_bytes as int;
                        #[trigger] bytes@[i] == view.pages.pages@[page]@[offset]
                    }
            },
            Err(error) => {
                &&& error is OutOfBounds
                &&& exists|i: int|
                    0 <= i < pointer.length && (#[trigger] view.pages.byte_at(
                        *view.config,
                        pointer.page_id * view.config.page_size_bytes + pointer.block_offset
                            * view.config.block_size_bytes + i,
                    )) is None
            },
        },
{
    if let Ok(bytes) = result {
        assert forall|i: int| 0 <= i < bytes@.len() implies {
            let at = pointer.page_id * view.config.page_size_bytes + pointer.block_offset
                * view.config.block_size_bytes + i;
            let page = at / view.config.page_size_bytes as int;
            let offset = at % view.config.page_size_bytes as int;
            #[trigger] bytes@[i] == view.pages.pages@[page]@[offset]
        } by {
            assert(view.pages.byte_at(
                *view.config,
                crate::pages::address(pointer, *view.config) + i,
            ) is Some);
        }
    }
}

/// What is compressed is a record that decompresses to it: as it is, or with LZ4, with the
/// dictionary where one is used. It is preceded by the number of its bytes where it is a block.
pub proof fn law_compress<'a, V: Blob>(
    view: &GridstoreView<'a, V>,
    value: Vec<u8>,
    record: Vec<u8>,
)
    requires
        call_ensures(GridstoreView::<'a, V>::compress, (view, value), record),
        value@.len() <= u32::MAX,
    ensures
        match view.config.compression {
            crate::config::Compression::Uncompressed => record@ == value@,
            crate::config::Compression::LZ4 => {
                &&& crate::lz4::decompressed(record@) == Some(value@)
                &&& record@.take(4) == vstd::bytes::spec_u32_to_le_bytes(value@.len() as u32)
            },
            crate::config::Compression::LZ4Dict => {
                &&& crate::lz4::dict_decompressed(record@, view.dictionary->0@) == Some(value@)
                &&& record@.take(4) == vstd::bytes::spec_u32_to_le_bytes(value@.len() as u32)
            },
        },
{
    if view.config.compression == crate::config::Compression::LZ4Dict {
        assert(view.decompressed(record@) is Some);
    }
}

/// What is decompressed is what the record decompresses to, with the dictionary where one is used.
pub proof fn law_decompress<'a, V: Blob>(
    view: &GridstoreView<'a, V>,
    record: Vec<u8>,
    bytes: Vec<u8>,
)
    requires
        call_ensures(GridstoreView::<'a, V>::decompress, (view, record), bytes),
    ensures
        match view.config.compression {
            crate::config::Compression::Uncompressed => bytes@ == record@,
            crate::config::Compression::LZ4 => crate::lz4::decompressed(record@) == Some(bytes@),
            crate::config::Compression::LZ4Dict => crate::lz4::dict_decompressed(
                record@,
                view.dictionary->0@,
            ) == Some(bytes@),
        },
{
}

/// What `iter` of a storage hands over is what `scan` hands over, for some answers that the
/// callback may give.
pub proof fn law_iter_of_a_storage<F>(
    storage: &MmapPayloadStorage,
    callback: F,
    hw_counter: &mut HardwareCounterCell,
    result: Result<(), OperationError>,
) where F: FnMut(PointOffset, Payload) -> Result<bool, OperationError>
    requires
        call_ensures(MmapPayloadStorage::iter::<F>, (storage, callback, hw_counter), result),
    ensures
        exists|calls: Seq<Call<Payload, OperationError>>, stop: int|
            {
                &&& #[trigger] is_handed_over(storage.store().cells(), calls, result, stop)
                &&& is_answered(callback, calls)
                &&& final(hw_counter).payload_io_read == crate::counter::counted(
                    old(hw_counter).payload_io_read,
                    bytes_of_records(stored_lens(storage.store().cells(), calls)),
                )
            },
        final(hw_counter).payload_io_write == old(hw_counter).payload_io_write,
{
    let cells = storage.store().cells();
    let counts = (old(hw_counter).payload_io_read, final(hw_counter).payload_io_read);
    let calls = choose|calls: Seq<Call<Payload, OperationError>>|
        {
            &&& crate::callback::answered(callback, calls)
            &&& #[trigger] crate::walk::walked(cells, 0, counts.0, calls, result, counts.1)
        };
    let stop = law_walk_leaves_out_nothing(cells, 0, counts.0, calls, result, counts.1);
    assert(is_handed_over(cells, calls, result, stop));
}

/// Each answer is one that the callback may give to what was handed over.
pub open spec fn is_answered<F>(
    callback: F,
    calls: Seq<Call<Payload, OperationError>>,
) -> bool where F: FnMut(PointOffset, Payload) -> Result<bool, OperationError> {
    forall|k: int|
        0 <= k < calls.len() ==> call_ensures(
            callback,
            ((#[trigger] calls[k]).0, calls[k].1),
            calls[k].2,
        )
}

/// What `checked_iter` of a storage hands over is what `checked_scan` hands over, for some answers
/// that the callback may give.
pub proof fn law_checked_iter_of_a_storage<F>(
    storage: &MmapPayloadStorage,
    callback: F,
    hw_counter: &mut HardwareCounterCell,
    result: Option<Result<(), OperationError>>,
) where F: FnMut(PointOffset, Payload) -> Result<bool, OperationError>
    requires
        call_ensures(
            MmapPayloadStorage::checked_iter::<F>,
            (storage, callback, hw_counter),
            result,
        ),
    ensures
        match result {
            None => exists|calls: Seq<Call<Payload, OperationError>>, stop: int| #[trigger]
                is_stopped_at(storage.store().cells(), calls, stop) && is_answered(callback, calls),
            Some(result) => exists|calls: Seq<Call<Payload, OperationError>>, stop: int| #[trigger]
                is_handed_over(storage.store().cells(), calls, result, stop) && is_answered(
                    callback,
                    calls,
                ),
        },
{
    let cells = storage.store().cells();
    let counts = (old(hw_counter).payload_io_read, final(hw_counter).payload_io_read);
    let calls = choose|calls: Seq<Call<Payload, OperationError>>|
        {
            &&& crate::callback::answered(callback, calls)
            &&& #[trigger] crate::walk::walked_checked(cells, 0, counts.0, calls, result, counts.1)
        };
    match result {
        None => {
            let stop = law_checked_walk_stops_in_time(cells, 0, counts.0, calls, counts.1);
            assert(is_stopped_at(cells, calls, stop));
        },
        Some(result) => {
            crate::laws::law_checked_walk_is_a_walk(
                cells,
                0,
                counts.0,
                calls,
                result,
                counts.1,
            );
            let stop = law_walk_leaves_out_nothing(cells, 0, counts.0, calls, result, counts.1);
            assert(is_handed_over(cells, calls, result, stop));
        },
    }
}

/// Reading a point of a view gives the value that its record is read as, nothing where it has none,
/// and the reason for which it could not be read: that of its slot, or that the pages do not hold
/// the record.
pub proof fn law_get_value_of_a_view<'a, V: Blob>(
    view: &GridstoreView<'a, V>,
    point_offset: PointOffset,
    hw_counter: &mut HardwareCounterCell,
    result: Result<Option<V>, GridstoreError>,
)
    requires
        call_ensures(
            GridstoreView::<'a, V>::get_value::<true>,
            (view, point_offset, hw_counter),
            result,
        ),
    ensures
        match result {
            Ok(Some(value)) => crate::scan::is_read(*view, point_offset as int, value),
            Ok(None) => view.tracker.slot(point_offset as int) == Ok::<
                Option<ValuePointer>,
                GridstoreError,
            >(None),
            Err(error) => {
                ||| view.tracker.slot(point_offset as int) == Err::<
                    Option<ValuePointer>,
                    GridstoreError,
                >(error)
                ||| error is OutOfBounds && (view.tracker.slot(point_offset as int) matches Ok(
                    Some(pointer),
                ) && view.raw(pointer) is None)
            },
        },
        final(hw_counter).payload_io_write == old(hw_counter).payload_io_write,
{
}

/// A block that `compress_lz4` makes decompresses to the value, has the number of its bytes in
/// front, and is longer than the value by a tenth and 24 bytes at most.
pub proof fn law_compress_lz4(value: &[u8], block: Vec<u8>)
    requires
        call_ensures(crate::lz4::compress_lz4, (value,), block),
        value@.len() <= u32::MAX,
    ensures
        crate::lz4::decompressed(block@) == Some(value@),
        block@.take(4) == vstd::bytes::spec_u32_to_le_bytes(value@.len() as u32),
        4 < block@.len() <= 24 + value@.len() * 110 / 100,
{
}

/// The lengths of the records of the points that a scan of a view called for, in order.
pub open spec fn held_lens<V: Blob, E>(
    view: GridstoreView<'_, V>,
    calls: Seq<Call<V, E>>,
) -> Seq<nat> {
    Seq::new(
        calls.len(),
        |k: int| match view.tracker.slot(calls[k].0 as int) {
            Ok(Some(pointer)) => pointer.length as nat,
            _ => 0,
        },
    )
}

/// A scan counts the bytes of the records whose values it hands over, and no others.
pub proof fn law_scan_counts_records<V: Blob, E: From<GridstoreError>>(
    view: GridstoreView<'_, V>,
    from: int,
    max_id: int,
    left: int,
    count: u64,
    calls: Seq<Call<V, E>>,
    result: Result<ControlFlow<(), PointOffset>, E>,
    count_after: u64,
)
    requires
        view.handed(from, max_id, left, count, calls, result, count_after),
    ensures
        count_after == crate::counter::counted(count, bytes_of_records(held_lens(view, calls))),
    decreases max_id - from,
{
    let lens = held_lens(view, calls);
    if from >= max_id {
        assert(lens.len() == 0);
    } else {
        match view.tracker.slot(from) {
            Err(_) => {
                assert(lens.len() == 0);
            },
            Ok(None) => {
                law_scan_counts_records(
                    view,
                    from + 1,
                    max_id,
                    left,
                    count,
                    calls,
                    result,
                    count_after,
                );
            },
            Ok(Some(pointer)) => {
                if left == 0 || view.raw(pointer) is None {
                    assert(lens.len() == 0);
                } else {
                    let rest = calls.drop_first();
                    let read = crate::counter::counted(count, view.raw(pointer)->0.len());
                    assert(lens[0] == view.raw(pointer)->0.len());
                    if calls[0].2 == Ok::<bool, E>(true) {
                        law_scan_counts_records(
                            view,
                            from + 1,
                            max_id,
                            left - 1,
                            read,
                            rest,
                            result,
                            count_after,
                        );
                        assert(lens.drop_first() =~= held_lens(view, rest));
                        lemma_counted_twice(
                            count,
                            view.raw(pointer)->0.len(),
                            bytes_of_records(held_lens(view, rest)),
                        );
                    } else {
                        assert(lens.drop_first().len() == 0);
                        assert(bytes_of_records(lens.drop_first()) == 0);
                    }
                }
            },
        }
    }
}

}
