//! What a call of each operation of the store does, and where a storage stands.

use crate::blob::Blob;
use crate::callback::{Call, Callback};
use crate::config::{Compression, StorageConfig, StorageOptions};
use crate::counter::HardwareCounterCell;
use crate::error::GridstoreError;
use crate::gridstore::Gridstore;
use crate::layout::{Cell, Record};
use crate::pages::Pages;
use crate::tracker::{PointOffset, Tracker};
use crate::view::GridstoreView;
use std::ops::ControlFlow;
use vstd::prelude::*;

verus! {

/// What was asked for is what a store is made with, wherever the sizes fit together: blocks fill
/// the pages, and the number of a block in its page fits 32 bits. What was not asked for is plain
/// LZ4, pages of 32 MiB, and blocks of 128 bytes.
pub proof fn law_into_config(
    options: StorageOptions,
    result: Result<StorageConfig, GridstoreError>,
)
    requires
        call_ensures(StorageOptions::into_config, (options,), result),
    ensures
        ({
            let page = match options.page_size_bytes {
                Some(size) => size,
                None => 33554432,
            };
            let block = match options.block_size_bytes {
                Some(size) => size,
                None => 128,
            };
            let compression = match options.compression {
                Some(compression) => compression,
                None => Compression::LZ4,
            };
            if 0 < block <= page && page % block == 0 && page / block <= 0xffff_ffff {
                result matches Ok(config) && config.page_size_bytes == page
                    && config.block_size_bytes == block && config.compression == compression
            } else {
                result == Err::<StorageConfig, GridstoreError>(GridstoreError::InvalidConfig)
            }
        }),
{
}

/// A new store is made as asked for and holds nothing. One cannot be made where the sizes do not
/// fit together, or where there is no dictionary for records that need one.
pub proof fn law_new_store<V>(
    options: StorageOptions,
    dictionary: Option<Vec<u8>>,
    config: Result<StorageConfig, GridstoreError>,
    result: Result<Gridstore<V>, GridstoreError>,
)
    requires
        call_ensures(StorageOptions::into_config, (options,), config),
        call_ensures(Gridstore::<V>::new, (options, dictionary), result),
    ensures
        match config {
            Err(error) => result == Err::<Gridstore<V>, GridstoreError>(error),
            Ok(config) => if config.compression == Compression::LZ4Dict && dictionary is None {
                result == Err::<Gridstore<V>, GridstoreError>(GridstoreError::MissingDictionary)
            } else {
                result matches Ok(store) && {
                    &&& store.configured() == config
                    &&& match dictionary {
                        Some(dictionary) => store.trained() == Some(dictionary@),
                        None => store.trained() is None,
                    }
                    &&& store.cells() == Seq::<Cell>::empty()
                    &&& forall|i: int| #[trigger]
                        store.cell(i) == Ok::<Option<Record>, GridstoreError>(None)
                    &&& store.used() == 0
                    &&& store.page_bytes() == 0
                }
            },
        },
{
}

/// After `put_value` succeeded, the bytes of the value are stored for the point, and nothing else
/// changes. It succeeds for every value of at most 3.5 GiB in a roomy store, and changes nothing
/// where it fails.
pub proof fn law_put_value<V: Blob>(
    store: &mut Gridstore<V>,
    point_offset: PointOffset,
    value: &V,
    hw_counter: &mut HardwareCounterCell,
    result: Result<(), GridstoreError>,
)
    requires
        call_ensures(
            Gridstore::<V>::put_value,
            (store, point_offset, value, hw_counter),
            result,
        ),
    ensures
        point_offset < 0xffff_ffff && value.encoding().len() <= 0xe000_0000
            && crate::storing_laws::is_roomy(*old(store), value.encoding().len() as int)
            ==> result is Ok,
        final(store).configured() == old(store).configured(),
        final(store).trained() == old(store).trained(),
        result is Ok ==> {
            &&& final(store).cell(point_offset as int) matches Ok(Some(record))
            &&& record.bytes == value.encoding()
            &&& old(hw_counter).payload_io_write + record.raw.len() <= u64::MAX
                ==> final(hw_counter).payload_io_write == old(hw_counter).payload_io_write
                + record.raw.len()
            &&& forall|i: int|
                i != point_offset ==> #[trigger] final(store).cell(i) == old(store).cell(i)
        },
        result is Err ==> {
            &&& final(store).cells() == old(store).cells()
            &&& final(store).used() == old(store).used()
            &&& final(store).page_bytes() == old(store).page_bytes()
            &&& final(hw_counter).payload_io_write == old(hw_counter).payload_io_write
        },
        final(hw_counter).payload_io_read == old(hw_counter).payload_io_read,
{
    let before = *old(store);
    let after = *final(store);
    if point_offset < 0xffff_ffff && value.encoding().len() <= 0xe000_0000
        && crate::storing_laws::is_roomy(before, value.encoding().len() as int) {
        crate::storing_laws::law_value_is_stored(before, after, point_offset, *value, result);
    }
    if let Err(error) = result {
        crate::storing_laws::law_refused_value_changes_nothing(
            before,
            after,
            point_offset,
            *value,
            error,
        );
    }
}

/// Reading a point of the store gives the value whose bytes are stored for it, nothing where
/// nothing is stored, and the reason for which it could not be read.
pub proof fn law_get_value<V: Blob>(
    store: &Gridstore<V>,
    point_offset: PointOffset,
    counters: (&mut HardwareCounterCell, &mut HardwareCounterCell),
    results: (Result<Option<V>, GridstoreError>, Result<Option<V>, GridstoreError>),
)
    requires
        call_ensures(
            Gridstore::<V>::get_value::<true>,
            (store, point_offset, counters.0),
            results.0,
        ),
        call_ensures(
            Gridstore::<V>::get_value::<false>,
            (store, point_offset, counters.1),
            results.1,
        ),
    ensures
        match store.cell(point_offset as int) {
            Ok(Some(record)) => {
                &&& results.0 matches Ok(Some(value)) && V::is_decoded(record.bytes, value)
                &&& results.1 matches Ok(Some(value)) && V::is_decoded(record.bytes, value)
            },
            Ok(None) => {
                &&& results.0 == Ok::<Option<V>, GridstoreError>(None)
                &&& results.1 == Ok::<Option<V>, GridstoreError>(None)
            },
            Err(error) => {
                &&& results.0 == Err::<Option<V>, GridstoreError>(error)
                &&& results.1 == Err::<Option<V>, GridstoreError>(error)
            },
        },
{
}

/// Taking away what is stored for a point returns it, leaves the point without anything, and
/// changes no other point.
pub proof fn law_delete_value<V: Blob>(
    store: &mut Gridstore<V>,
    point_offset: PointOffset,
    result: Result<Option<V>, GridstoreError>,
)
    requires
        call_ensures(Gridstore::<V>::delete_value, (store, point_offset), result),
    ensures
        match old(store).cell(point_offset as int) {
            Ok(Some(record)) => {
                &&& result matches Ok(Some(value)) && V::is_decoded(record.bytes, value)
                &&& final(store).cell(point_offset as int) == Ok::<Option<Record>, GridstoreError>(
                    None,
                )
            },
            Ok(None) => {
                &&& result == Ok::<Option<V>, GridstoreError>(None)
                &&& final(store).cells() == old(store).cells()
            },
            Err(error) => {
                &&& result == Err::<Option<V>, GridstoreError>(error)
                &&& final(store).cells() == old(store).cells()
            },
        },
        forall|i: int|
            i != point_offset ==> #[trigger] final(store).cell(i) == old(store).cell(i),
        final(store).configured() == old(store).configured(),
        final(store).trained() == old(store).trained(),
        final(store).used() == old(store).used(),
        final(store).page_bytes() == old(store).page_bytes(),
        final(store).cells().len() == old(store).cells().len(),
{
}

/// Emptying the store leaves nothing for any point, and keeps what the store was made with.
pub proof fn law_clear_store<V>(store: &mut Gridstore<V>)
    requires
        call_ensures(Gridstore::<V>::clear, (store,), ()),
    ensures
        forall|i: int| #[trigger]
            final(store).cell(i) == Ok::<Option<Record>, GridstoreError>(None),
        final(store).cells().len() == 0,
        final(store).page_bytes() == 0,
        final(store).used() == 0,
        final(store).configured() == old(store).configured(),
        final(store).trained() == old(store).trained(),
{
}

/// Parts are put together to a store, on a machine of 64 bits, wherever the sizes fit together, the
/// dictionary is there where one is needed, the pages are full and can be counted, and every slot
/// that leads to a record leads to one that decompresses. The store then has for each point what
/// its slot says.
pub proof fn law_parts_make_a_store<V: Blob>(
    config: StorageConfig,
    tracker: Tracker,
    pages: Pages,
    dictionary: Option<Vec<u8>>,
    result: Result<Gridstore<V>, GridstoreError>,
)
    requires
        usize::MAX == 0xffff_ffff_ffff_ffff,
        call_ensures(
            Gridstore::<V>::from_parts,
            (config, tracker, pages, dictionary),
            result,
        ),
        0 < config.block_size_bytes <= config.page_size_bytes,
        config.page_size_bytes % config.block_size_bytes == 0,
        config.page_size_bytes / config.block_size_bytes <= 0xffff_ffff,
        config.compression == Compression::LZ4Dict ==> dictionary is Some,
        tracker.slots@.len() <= 0xffff_ffff,
        pages.pages@.len() <= 0xffff_ffff,
        pages.pages@.len() * config.page_size_bytes <= 0xffff_ffff_ffff_ffff,
        forall|i: int|
            0 <= i < pages.pages@.len() ==> (#[trigger] pages.pages@[i])@.len()
                == config.page_size_bytes,
        forall|i: int|
            0 <= i < tracker.slots@.len() ==> ((#[trigger] tracker.slots@[i]) matches Ok(
                Some(pointer),
            ) ==> {
                &&& pointer.page_id * config.page_size_bytes + pointer.block_offset
                    * config.block_size_bytes + pointer.length <= pages.pages@.len()
                    * config.page_size_bytes
                &&& pages.record(pointer, config) matches Some(raw)
                &&& crate::view::decompressed(
                    config.compression,
                    crate::layout::owned_dictionary(dictionary),
                    raw,
                ) is Some
            }),
    ensures
        result matches Ok(store) && {
            &&& store.configured() == config
            &&& store.trained() == crate::layout::owned_dictionary(dictionary)
            &&& store.page_bytes() == pages.pages@.len() * config.page_size_bytes
            &&& is_end_of_records(config, tracker, store.used())
            &&& store.cells().len() == tracker.slots@.len()
            &&& forall|i: int|
                0 <= i < tracker.slots@.len() ==> match #[trigger] tracker.slots@[i] {
                    Err(error) => store.cell(i) == Err::<Option<Record>, GridstoreError>(error),
                    Ok(None) => store.cell(i) == Ok::<Option<Record>, GridstoreError>(None),
                    Ok(Some(pointer)) => store.cell(i) matches Ok(Some(record)) && Some(record.raw)
                        == pages.record(pointer, config) && Some(record.bytes)
                        == crate::view::decompressed(
                        config.compression,
                        crate::layout::owned_dictionary(dictionary),
                        record.raw,
                    ),
                }
        },
{
    let known = crate::layout::owned_dictionary(dictionary);
    let page_size = config.page_size_bytes as int;
    let held = pages.pages@.len() as int;
    assert(held <= usize::MAX as int / page_size) by (nonlinear_arith)
        requires
            held * page_size <= usize::MAX,
            page_size > 0,
    ;
    assert(crate::layout::intact(config, tracker, pages, known));
    crate::layout::lemma_records_testable(config, tracker, pages, known);
    lemma_end_of_records(config, tracker, tracker.slots@.len() as int);
}

/// The address stands behind all the records, and less than a block behind one of them, or is the
/// first.
pub open spec fn is_end_of_records(config: StorageConfig, tracker: Tracker, end: int) -> bool {
    &&& forall|i: int|
        0 <= i < tracker.slots@.len() ==> ((#[trigger] tracker.slots@[i]) matches Ok(Some(pointer))
            ==> crate::pages::address(pointer, config) + pointer.length <= end)
    &&& end == 0 || exists|i: int|
        0 <= i < tracker.slots@.len() && ((#[trigger] tracker.slots@[i]) matches Ok(Some(pointer))
            && end < crate::pages::address(pointer, config) + pointer.length
            + config.block_size_bytes)
}

/// The end of the first records stands behind them, and less than a block behind one of them.
proof fn lemma_end_of_records(config: StorageConfig, tracker: Tracker, n: int)
    requires
        0 < config.block_size_bytes,
        0 <= n <= tracker.slots@.len(),
    ensures
        ({
            let end = crate::layout::records_end(config, tracker, n);
            &&& 0 <= end
            &&& forall|i: int|
                0 <= i < n ==> ((#[trigger] tracker.slots@[i]) matches Ok(Some(pointer))
                    ==> crate::pages::address(pointer, config) + pointer.length <= end)
            &&& end == 0 || exists|i: int|
                0 <= i < n && ((#[trigger] tracker.slots@[i]) matches Ok(Some(pointer)) && end
                    < crate::pages::address(pointer, config) + pointer.length
                    + config.block_size_bytes)
        }),
    decreases n,
{
    if n > 0 {
        lemma_end_of_records(config, tracker, n - 1);
        let slot = tracker.slots@[n - 1];
        if let Ok(Some(pointer)) = slot {
            let address = crate::pages::address(pointer, config);
            assert(0 <= address) by (nonlinear_arith)
                requires
                    address == pointer.page_id * config.page_size_bytes + pointer.block_offset
                        * config.block_size_bytes,
            ;
            crate::storing_laws::lemma_next_multiple(
                address + pointer.length,
                config.block_size_bytes as int,
            );
            let end = crate::layout::records_end(config, tracker, n);
            let front = crate::layout::records_end(config, tracker, n - 1);
            if end == front && front != 0 {
                let i = choose|i: int|
                    0 <= i < n - 1 && ((#[trigger] tracker.slots@[i]) matches Ok(Some(other))
                        && front < crate::pages::address(other, config) + other.length
                        + config.block_size_bytes);
                assert(tracker.slots@[i] matches Ok(Some(_)));
            }
        }
    }
}

/// The calls and the result are those of a scan of a view between bounds: the calls are for points
/// that have a record, each once and in ascending order, with the value that the record is read as,
/// and no more than asked for. Up to where the scan ended, no record is left out, and what it ended
/// with says where that is.
pub open spec fn is_scan_between<V: Blob, E: From<GridstoreError>>(
    view: GridstoreView<'_, V>,
    from_id: PointOffset,
    max_id: PointOffset,
    max_iters: usize,
    calls: Seq<Call<V, E>>,
    result: Result<ControlFlow<(), PointOffset>, E>,
) -> bool {
    &&& crate::reading_laws::is_orderly(calls)
    &&& calls.len() <= max_iters
    &&& forall|k: int|
        0 <= k < calls.len() ==> from_id <= (#[trigger] calls[k]).0 < max_id
            && crate::scan::is_read(view, calls[k].0 as int, calls[k].1)
    &&& match result {
        Ok(ControlFlow::Continue(next)) => {
            &&& calls.len() == max_iters
            &&& from_id <= next < max_id
            &&& view.tracker.slot(next as int) matches Ok(Some(_))
            &&& is_left_out_none(view, calls, from_id as int, next as int)
            &&& calls.len() > 0 ==> calls.last().2 == Ok::<bool, E>(true)
        },
        Ok(ControlFlow::Break(_)) => {
            ||| calls.len() > 0 && calls.last().2 == Ok::<bool, E>(false) && is_left_out_none(
                view,
                calls,
                from_id as int,
                calls.last().0 + 1,
            )
            ||| is_left_out_none(view, calls, from_id as int, max_id as int)
        },
        Err(error) => {
            ||| calls.len() > 0 && calls.last().2 == Err::<bool, E>(error) && is_left_out_none(
                view,
                calls,
                from_id as int,
                calls.last().0 + 1,
            )
            ||| exists|i: int|
                from_id <= i < max_id && #[trigger] crate::scan::fails_at(view, i, result)
                    && is_left_out_none(view, calls, from_id as int, i)
        },
    }
}

/// Between the bounds, each point could be read, and each that has a record has a call.
pub open spec fn is_left_out_none<V: Blob, E>(
    view: GridstoreView<'_, V>,
    calls: Seq<Call<V, E>>,
    from: int,
    to: int,
) -> bool {
    forall|i: int|
        from <= i < to ==> ((#[trigger] view.tracker.slot(i)) matches Ok(kept) && (kept is Some
            ==> crate::reading_laws::is_called(calls, i)))
}

/// What is handed over is a scan between the bounds.
proof fn lemma_scan_between<V: Blob, E: From<GridstoreError>>(
    view: GridstoreView<'_, V>,
    from_id: PointOffset,
    max_id: PointOffset,
    max_iters: usize,
    count: u64,
    calls: Seq<Call<V, E>>,
    result: Result<ControlFlow<(), PointOffset>, E>,
    count_after: u64,
)
    requires
        view.handed(
            from_id as int,
            max_id as int,
            max_iters as int,
            count,
            calls,
            result,
            count_after,
        ),
    ensures
        is_scan_between(view, from_id, max_id, max_iters, calls, result),
{
    let stop = crate::reading_laws::law_scan_leaves_out_no_record(
        view,
        from_id as int,
        max_id as int,
        max_iters as int,
        count,
        calls,
        result,
        count_after,
    );
    crate::scan::law_scan_calls(
        view,
        from_id as int,
        max_id as int,
        max_iters as int,
        count,
        calls,
        result,
        count_after,
    );
    crate::scan::lemma_recorded(*view.tracker, from_id as int, max_id as int);
}

/// `scan` of a view hands over each value that it comes to, once and in order, and leaves out none.
pub proof fn law_scan_of_a_view<'a, V: Blob, F, E>(
    view: &GridstoreView<'a, V>,
    from_id: PointOffset,
    max_id: PointOffset,
    max_iters: usize,
    visitor: &mut Callback<F, V, E>,
    hw_counter: &mut HardwareCounterCell,
    result: Result<ControlFlow<(), PointOffset>, E>,
) where F: FnMut(PointOffset, V) -> Result<bool, E>, E: From<GridstoreError>
    requires
        call_ensures(
            GridstoreView::<'a, V>::scan::<F, E>,
            (view, from_id, max_id, max_iters, visitor, hw_counter),
            result,
        ),
    ensures
        old(visitor).calls().is_prefix_of(final(visitor).calls()),
        is_scan_between(
            *view,
            from_id,
            max_id,
            max_iters,
            final(visitor).calls().skip(old(visitor).calls().len() as int),
            result,
        ),
        final(hw_counter).payload_io_write == old(hw_counter).payload_io_write,
{
    lemma_scan_between(
        *view,
        from_id,
        max_id,
        max_iters,
        old(hw_counter).payload_io_read,
        final(visitor).since(*old(visitor)),
        result,
        final(hw_counter).payload_io_read,
    );
}

/// `iter` of a view hands over what `scan` hands over, for some answers that the callback may give.
pub proof fn law_iter_of_a_view<'a, V: Blob, F, E>(
    view: &GridstoreView<'a, V>,
    from_id: PointOffset,
    max_id: PointOffset,
    max_iters: usize,
    callback: F,
    hw_counter: &mut HardwareCounterCell,
    result: Result<ControlFlow<(), PointOffset>, E>,
) where F: FnMut(PointOffset, V) -> Result<bool, E>, E: From<GridstoreError>
    requires
        call_ensures(
            GridstoreView::<'a, V>::iter::<F, E>,
            (view, from_id, max_id, max_iters, callback, hw_counter),
            result,
        ),
    ensures
        exists|calls: Seq<Call<V, E>>|
            {
                &&& #[trigger] is_scan_between(*view, from_id, max_id, max_iters, calls, result)
                &&& forall|k: int|
                    0 <= k < calls.len() ==> call_ensures(
                        callback,
                        ((#[trigger] calls[k]).0, calls[k].1),
                        calls[k].2,
                    )
            },
        final(hw_counter).payload_io_write == old(hw_counter).payload_io_write,
{
    let counts = (old(hw_counter).payload_io_read, final(hw_counter).payload_io_read);
    let calls = choose|calls: Seq<Call<V, E>>|
        {
            &&& crate::callback::answered(callback, calls)
            &&& #[trigger] view.handed(
                from_id as int,
                max_id as int,
                max_iters as int,
                counts.0,
                calls,
                result,
                counts.1,
            )
        };
    lemma_scan_between(
        *view,
        from_id,
        max_id,
        max_iters,
        counts.0,
        calls,
        result,
        counts.1,
    );
}

/// A walk over all the values of a store, up to where it ended: each point in front of that for
/// which something is stored has a call with it, once and in ascending order, and there are no
/// others.
pub open spec fn is_walk_until<V: Blob, E: From<GridstoreError>>(
    cells: Seq<Cell>,
    calls: Seq<Call<V, E>>,
    result: Result<(), E>,
    stop: int,
) -> bool {
    &&& 0 <= stop <= cells.len()
    &&& crate::reading_laws::is_orderly(calls)
    &&& forall|i: int|
        0 <= i < stop ==> ((#[trigger] cells[i]) matches Ok(kept) && (kept is Some
            ==> crate::reading_laws::is_called(calls, i)))
    &&& forall|k: int|
        0 <= k < calls.len() ==> (#[trigger] calls[k]).0 < stop && (
        cells[calls[k].0 as int] matches Ok(Some(record)) && V::is_decoded(
            record.bytes,
            calls[k].1,
        ))
    &&& match result {
        Ok(_) => {
            ||| stop == cells.len() && (calls.len() > 0 ==> calls.last().2 is Ok)
            ||| calls.len() > 0 && stop == calls.last().0 + 1 && calls.last().2 == Ok::<bool, E>(
                false,
            )
        },
        Err(error) => {
            ||| calls.len() > 0 && stop == calls.last().0 + 1 && calls.last().2 == Err::<bool, E>(
                error,
            )
            ||| stop < cells.len() && (cells[stop] matches Err(reason) && crate::view::is_converted(
                reason,
                result,
            ))
        },
    }
}

/// `scan` of a store hands over each value that it comes to, once and in order, and leaves out
/// none.
pub proof fn law_scan_of_a_store<V: Blob, F, E>(
    store: &Gridstore<V>,
    visitor: &mut Callback<F, V, E>,
    hw_counter: &mut HardwareCounterCell,
    result: Result<(), E>,
) where F: FnMut(PointOffset, V) -> Result<bool, E>, E: From<GridstoreError>
    requires
        call_ensures(Gridstore::<V>::scan::<F, E>, (store, visitor, hw_counter), result),
    ensures
        old(visitor).calls().is_prefix_of(final(visitor).calls()),
        exists|stop: int| #[trigger]
            is_walk_until(
                store.cells(),
                final(visitor).calls().skip(old(visitor).calls().len() as int),
                result,
                stop,
            ),
{
    let calls = final(visitor).since(*old(visitor));
    let stop = crate::reading_laws::law_walk_leaves_out_nothing(
        store.cells(),
        0,
        old(hw_counter).payload_io_read,
        calls,
        result,
        final(hw_counter).payload_io_read,
    );
    assert(is_walk_until(store.cells(), calls, result, stop));
}

/// `iter` of a store hands over what `scan` hands over, for some answers that the callback may
/// give.
pub proof fn law_iter_of_a_store<V: Blob, F, E>(
    store: &Gridstore<V>,
    callback: F,
    hw_counter: &mut HardwareCounterCell,
    result: Result<(), E>,
) where F: FnMut(PointOffset, V) -> Result<bool, E>, E: From<GridstoreError>
    requires
        call_ensures(Gridstore::<V>::iter::<F, E>, (store, callback, hw_counter), result),
    ensures
        exists|calls: Seq<Call<V, E>>, stop: int|
            {
                &&& #[trigger] is_walk_until(store.cells(), calls, result, stop)
                &&& forall|k: int|
                    0 <= k < calls.len() ==> call_ensures(
                        callback,
                        ((#[trigger] calls[k]).0, calls[k].1),
                        calls[k].2,
                    )
            },
{
    let cells = store.cells();
    let counts = (old(hw_counter).payload_io_read, final(hw_counter).payload_io_read);
    let calls = choose|calls: Seq<Call<V, E>>|
        {
            &&& crate::callback::answered(callback, calls)
            &&& #[trigger] crate::walk::walked(cells, 0, counts.0, calls, result, counts.1)
        };
    let stop = crate::reading_laws::law_walk_leaves_out_nothing(
        cells,
        0,
        counts.0,
        calls,
        result,
        counts.1,
    );
    assert(is_walk_until(cells, calls, result, stop));
}

/// The directory of a storage stands in that of its segment under the name `payload_storage`, where
/// the path of the segment ends plainly: one separator stands between them.
pub proof fn law_storage_dir(
    segment_path: &std::path::PathBuf,
    path: std::path::PathBuf,
)
    requires
        call_ensures(crate::paths::storage_dir, (segment_path,), path),
        ({
            let bytes = crate::paths::path_bytes(*segment_path);
            &&& bytes.len() > 0
            &&& bytes.len() < 2 || (bytes[1] != 47 && bytes[1] != 92)
            &&& bytes.last() != 47 && bytes.last() != 92 && bytes.last() != 58
        }),
    ensures
        ({
            let before = crate::paths::path_bytes(*segment_path);
            let after = crate::paths::path_bytes(path);
            let name = crate::paths::ascii("payload_storage"@);
            &&& name.len() == 15
            &&& after.len() == before.len() + 16
            &&& after.take(before.len() as int) == before
            &&& after[before.len() as int] == 47 || after[before.len() as int] == 92
            &&& after.skip(before.len() as int + 1) == name
        }),
{
    reveal_strlit("payload_storage");
    let before = crate::paths::path_bytes(*segment_path);
    let after = crate::paths::path_bytes(path);
    let name = crate::paths::ascii("payload_storage"@);
    assert(after.take(before.len() as int) =~= before);
    assert(after.skip(before.len() as int + 1) =~= name);
}

/// A storage is moved aside to a directory beside it, whose name has `.lz4_old` at its end, where
/// there is no dot in its path and the path ends plainly.
pub proof fn law_old_dir(base_path: &std::path::PathBuf, path: std::path::PathBuf)
    requires
        call_ensures(crate::paths::old_dir, (base_path,), path),
        ({
            let bytes = crate::paths::path_bytes(*base_path);
            &&& bytes.len() > 0
            &&& bytes.len() < 2 || (bytes[1] != 47 && bytes[1] != 92)
            &&& bytes.last() != 47 && bytes.last() != 92 && bytes.last() != 58
            &&& forall|i: int| 0 <= i < bytes.len() ==> #[trigger] bytes[i] != 46
        }),
    ensures
        ({
            let before = crate::paths::path_bytes(*base_path);
            let after = crate::paths::path_bytes(path);
            &&& after.len() == before.len() + 8
            &&& after.take(before.len() as int) == before
            &&& after[before.len() as int] == 46
            &&& after.skip(before.len() as int + 1) == crate::paths::ascii("lz4_old"@)
        }),
{
    reveal_strlit("lz4_old");
    let before = crate::paths::path_bytes(*base_path);
    let after = crate::paths::path_bytes(path);
    assert(after.take(before.len() as int) =~= before);
    assert(after.skip(before.len() as int + 1) =~= crate::paths::ascii("lz4_old"@));
}

/// The directory that a storage stands in is that of its segment, where the path of the segment
/// ends plainly and a slash stands between them.
pub proof fn law_parent_dir(
    base_path: &std::path::PathBuf,
    directory: Seq<u8>,
    path: std::path::PathBuf,
)
    requires
        call_ensures(crate::paths::parent_dir, (base_path,), path),
        crate::paths::path_bytes(*base_path) == directory.push(47u8) + crate::paths::ascii(
            "payload_storage"@,
        ),
        directory.len() > 0,
        directory.len() < 2 || (directory[1] != 47 && directory[1] != 92),
        directory.last() != 47 && directory.last() != 92 && directory.last() != 58
            && directory.last() != 46,
    ensures
        crate::paths::path_bytes(path) == directory,
{
    reveal_strlit("payload_storage");
    assert(crate::paths::is_child(
        directory,
        crate::paths::ascii("payload_storage"@),
        crate::paths::path_bytes(*base_path),
    ));
}

}
