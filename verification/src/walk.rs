//! Walking over all that a store holds.

use crate::blob::Blob;
use crate::callback::Call;
use crate::error::GridstoreError;
use crate::layout::Cell;
use crate::tracker::PointOffset;
use crate::view::GridstoreView;
use std::ops::ControlFlow;
use vstd::prelude::*;

verus! {

/// A walk over the cells from `from` on can be made: what each cell that it reaches stores are the
/// bytes of a value, and the callback accepts the value. The walk reaches no cell beyond one that
/// could not be read, or beyond one for which the callback does not return `Ok(true)`.
pub open spec fn walkable<V: Blob, F, E>(cells: Seq<Cell>, callback: F, from: int) -> bool where
    F: FnMut(PointOffset, V) -> Result<bool, E>,

    decreases cells.len() - from,
{
    if from >= cells.len() {
        true
    } else {
        match cells[from] {
            Err(_) => true,
            Ok(None) => walkable::<V, F, E>(cells, callback, from + 1),
            Ok(Some(record)) => {
                &&& V::decodes(record.bytes)
                &&& forall|value: V| #[trigger]
                    V::is_decoded(record.bytes, value) ==> call_requires(
                        callback,
                        (from as PointOffset, value),
                    )
                &&& (exists|value: V| #[trigger]
                    V::is_decoded(record.bytes, value) && call_ensures(
                        callback,
                        (from as PointOffset, value),
                        Ok::<bool, E>(true),
                    )) ==> walkable::<V, F, E>(cells, callback, from + 1)
            },
        }
    }
}

/// The calls that a walk over the cells from `from` on makes, what it returns, and the count of
/// bytes read after it. The walk hands the values over, in order and once each. It fails at the
/// first cell that could not be read, and after the call that fails. It ends after the call that is
/// answered `false`, and behind the last cell.
pub open spec fn walked<V: Blob, E: From<GridstoreError>>(
    cells: Seq<Cell>,
    from: int,
    count: u64,
    calls: Seq<Call<V, E>>,
    result: Result<(), E>,
    count_after: u64,
) -> bool
    decreases cells.len() - from,
{
    if from >= cells.len() {
        &&& calls.len() == 0
        &&& result == Ok::<(), E>(())
        &&& count_after == count
    } else {
        match cells[from] {
            Err(error) => {
                &&& calls.len() == 0
                &&& crate::view::is_converted(error, result)
                &&& count_after == count
            },
            Ok(None) => walked(cells, from + 1, count, calls, result, count_after),
            Ok(Some(record)) => {
                let read = crate::counter::counted(count, record.raw.len());
                &&& calls.len() > 0
                &&& calls[0].0 == from
                &&& V::is_decoded(record.bytes, calls[0].1)
                &&& match calls[0].2 {
                    Err(error) => {
                        &&& calls.len() == 1
                        &&& result == Err::<(), E>(error)
                        &&& count_after == read
                    },
                    Ok(false) => {
                        &&& calls.len() == 1
                        &&& result == Ok::<(), E>(())
                        &&& count_after == read
                    },
                    Ok(true) => walked(
                        cells,
                        from + 1,
                        read,
                        calls.drop_first(),
                        result,
                        count_after,
                    ),
                }
            },
        }
    }
}

/// The points from `from` on for which something is stored, in order.
pub open spec fn stored(cells: Seq<Cell>, from: int) -> Seq<int>
    decreases cells.len() - from,
{
    if from >= cells.len() {
        Seq::empty()
    } else {
        match cells[from] {
            Ok(Some(_)) => seq![from] + stored(cells, from + 1),
            _ => stored(cells, from + 1),
        }
    }
}

/// The value is the one that is stored.
pub open spec fn is_value_of<V: Blob>(cell: Cell, value: V) -> bool {
    cell matches Ok(Some(record)) && V::is_decoded(record.bytes, value)
}

/// The points for which something is stored are among all, in ascending order.
pub(crate) proof fn lemma_stored(cells: Seq<Cell>, from: int)
    ensures
        forall|k: int|
            0 <= k < stored(cells, from).len() ==> from <= #[trigger] stored(cells, from)[k]
                < cells.len(),
        forall|j: int, k: int|
            0 <= j < k < stored(cells, from).len() ==> #[trigger] stored(cells, from)[j]
                < #[trigger] stored(cells, from)[k],
    decreases cells.len() - from,
{
    if from < cells.len() {
        let points = stored(cells, from);
        let rest = stored(cells, from + 1);
        lemma_stored(cells, from + 1);
        if cells[from] matches Ok(Some(_)) {
            assert forall|k: int| 0 < k < points.len() implies #[trigger] points[k] == rest[k
                - 1] by {}
        } else {
            assert(points =~= rest);
        }
    }
}

/// What a walk over all the cells returns, and the count of bytes read after it, for some answers
/// that the callback may give.
pub open spec fn is_walk<V: Blob, F, E>(
    cells: Seq<Cell>,
    callback: F,
    count: u64,
    result: Result<(), E>,
    count_after: u64,
) -> bool where F: FnMut(PointOffset, V) -> Result<bool, E>, E: From<GridstoreError> {
    exists|calls: Seq<Call<V, E>>|
        {
            &&& crate::callback::answered(callback, calls)
            &&& #[trigger] walked(cells, 0, count, calls, result, count_after)
        }
}

/// A walk over at most `left` records from `from` on can be made.
pub open spec fn walkable_some<V: Blob, F, E>(
    cells: Seq<Cell>,
    callback: F,
    from: int,
    left: int,
) -> bool where F: FnMut(PointOffset, V) -> Result<bool, E>
    decreases cells.len() - from,
{
    if from >= cells.len() {
        true
    } else {
        match cells[from] {
            Err(_) => true,
            Ok(None) => walkable_some::<V, F, E>(cells, callback, from + 1, left),
            Ok(Some(record)) => left == 0 || {
                &&& V::decodes(record.bytes)
                &&& forall|value: V| #[trigger]
                    V::is_decoded(record.bytes, value) ==> call_requires(
                        callback,
                        (from as PointOffset, value),
                    )
                &&& (exists|value: V| #[trigger]
                    V::is_decoded(record.bytes, value) && call_ensures(
                        callback,
                        (from as PointOffset, value),
                        Ok::<bool, E>(true),
                    )) ==> walkable_some::<V, F, E>(cells, callback, from + 1, left - 1)
            },
        }
    }
}

/// The calls that a walk over at most `left` records from `from` on makes, what it returns, and the
/// count of bytes read after it: what a walk over all of them does, or `Continue` with the point of
/// the first record that is left over.
pub open spec fn walked_some<V: Blob, E: From<GridstoreError>>(
    cells: Seq<Cell>,
    from: int,
    left: int,
    count: u64,
    calls: Seq<Call<V, E>>,
    result: Result<ControlFlow<(), PointOffset>, E>,
    count_after: u64,
) -> bool
    decreases cells.len() - from,
{
    if from >= cells.len() {
        &&& calls.len() == 0
        &&& result == Ok::<ControlFlow<(), PointOffset>, E>(ControlFlow::Break(()))
        &&& count_after == count
    } else {
        match cells[from] {
            Err(error) => {
                &&& calls.len() == 0
                &&& crate::view::is_converted(error, result)
                &&& count_after == count
            },
            Ok(None) => walked_some(cells, from + 1, left, count, calls, result, count_after),
            Ok(Some(record)) => if left == 0 {
                &&& calls.len() == 0
                &&& result == Ok::<ControlFlow<(), PointOffset>, E>(
                    ControlFlow::Continue(from as PointOffset),
                )
                &&& count_after == count
            } else {
                let read = crate::counter::counted(count, record.raw.len());
                &&& calls.len() > 0
                &&& calls[0].0 == from
                &&& V::is_decoded(record.bytes, calls[0].1)
                &&& match calls[0].2 {
                    Err(error) => {
                        &&& calls.len() == 1
                        &&& result == Err::<ControlFlow<(), PointOffset>, E>(error)
                        &&& count_after == read
                    },
                    Ok(false) => {
                        &&& calls.len() == 1
                        &&& result == Ok::<ControlFlow<(), PointOffset>, E>(
                            ControlFlow::Break(()),
                        )
                        &&& count_after == read
                    },
                    Ok(true) => walked_some(
                        cells,
                        from + 1,
                        left - 1,
                        read,
                        calls.drop_first(),
                        result,
                        count_after,
                    ),
                }
            },
        }
    }
}

/// The calls that a walk over the cells from `from` on makes that looks whether the bytes that it
/// comes to are those of a value, what it returns, and the count of bytes read after it: `None`
/// where they are not, and what the walk returns where it ends before.
pub open spec fn walked_checked<V: Blob, E: From<GridstoreError>>(
    cells: Seq<Cell>,
    from: int,
    count: u64,
    calls: Seq<Call<V, E>>,
    result: Option<Result<(), E>>,
    count_after: u64,
) -> bool
    decreases cells.len() - from,
{
    if from >= cells.len() {
        &&& calls.len() == 0
        &&& result == Some(Ok::<(), E>(()))
        &&& count_after == count
    } else {
        match cells[from] {
            Err(error) => {
                &&& calls.len() == 0
                &&& result matches Some(failed) && crate::view::is_converted(error, failed)
                &&& count_after == count
            },
            Ok(None) => walked_checked(cells, from + 1, count, calls, result, count_after),
            Ok(Some(record)) => if !V::decodes(record.bytes) {
                &&& calls.len() == 0
                &&& result is None
                &&& count_after == count
            } else {
                let read = crate::counter::counted(count, record.raw.len());
                &&& calls.len() > 0
                &&& calls[0].0 == from
                &&& V::is_decoded(record.bytes, calls[0].1)
                &&& match calls[0].2 {
                    Err(error) => {
                        &&& calls.len() == 1
                        &&& result == Some(Err::<(), E>(error))
                        &&& count_after == read
                    },
                    Ok(false) => {
                        &&& calls.len() == 1
                        &&& result == Some(Ok::<(), E>(()))
                        &&& count_after == read
                    },
                    Ok(true) => walked_checked(
                        cells,
                        from + 1,
                        read,
                        calls.drop_first(),
                        result,
                        count_after,
                    ),
                }
            },
        }
    }
}

/// What a walk over all the cells returns that looks whether the bytes that it comes to are those
/// of a value, and the count of bytes read after it, for some answers that the callback may give.
pub open spec fn is_checked_walk<V: Blob, F, E>(
    cells: Seq<Cell>,
    callback: F,
    count: u64,
    result: Option<Result<(), E>>,
    count_after: u64,
) -> bool where F: FnMut(PointOffset, V) -> Result<bool, E>, E: From<GridstoreError> {
    exists|calls: Seq<Call<V, E>>|
        {
            &&& crate::callback::answered(callback, calls)
            &&& #[trigger] walked_checked(cells, 0, count, calls, result, count_after)
        }
}

/// The number of records from `from` on in front of the first whose bytes are not those of a value,
/// if there is such a record in front of the first cell that could not be read.
pub open spec fn unreadable_after<V: Blob>(cells: Seq<Cell>, from: int) -> Option<int>
    decreases cells.len() - from,
{
    if from >= cells.len() {
        None
    } else {
        match cells[from] {
            Err(_) => None,
            Ok(None) => unreadable_after::<V>(cells, from + 1),
            Ok(Some(record)) => if !V::decodes(record.bytes) {
                Some(0int)
            } else {
                match unreadable_after::<V>(cells, from + 1) {
                    Some(n) => Some(n + 1),
                    None => None,
                }
            },
        }
    }
}

/// The number of records in front of one whose bytes are not those of a value is one.
pub(crate) proof fn lemma_unreadable_after<V: Blob>(cells: Seq<Cell>, from: int)
    ensures
        unreadable_after::<V>(cells, from) matches Some(n) ==> 0 <= n < cells.len() - from,
    decreases cells.len() - from,
{
    if from < cells.len() {
        lemma_unreadable_after::<V>(cells, from + 1);
    }
}

/// A walk with a callback that accepts every value can be made up to the first record whose bytes
/// are not those of a value.
pub(crate) proof fn lemma_walkable_before<V: Blob, F, E>(
    cells: Seq<Cell>,
    callback: F,
    from: int,
) where F: FnMut(PointOffset, V) -> Result<bool, E>
    requires
        forall|point_id: PointOffset, value: V| #[trigger]
            call_requires(callback, (point_id, value)),
    ensures
        match unreadable_after::<V>(cells, from) {
            Some(n) => walkable_some::<V, F, E>(cells, callback, from, n),
            None => walkable::<V, F, E>(cells, callback, from),
        },
    decreases cells.len() - from,
{
    if from < cells.len() {
        lemma_walkable_before::<V, F, E>(cells, callback, from + 1);
        lemma_unreadable_after::<V>(cells, from + 1);
    }
}

/// What a walk that looks for bytes of no value returns, where one over the records in front of
/// them returned a result.
pub open spec fn up_to_unreadable<E>(result: Result<ControlFlow<(), PointOffset>, E>) -> Option<
    Result<(), E>,
> {
    match result {
        Ok(ControlFlow::Break(_)) => Some(Ok(())),
        Ok(ControlFlow::Continue(_)) => None,
        Err(error) => Some(Err(error)),
    }
}

/// A walk up to the first record whose bytes are not those of a value is one that looks for that.
pub(crate) proof fn lemma_walked_before<V: Blob, E: From<GridstoreError>>(
    cells: Seq<Cell>,
    from: int,
    count: u64,
    calls: Seq<Call<V, E>>,
    result: Result<ControlFlow<(), PointOffset>, E>,
    count_after: u64,
)
    requires
        unreadable_after::<V>(cells, from) matches Some(n) && walked_some(
            cells,
            from,
            n,
            count,
            calls,
            result,
            count_after,
        ),
    ensures
        walked_checked(cells, from, count, calls, up_to_unreadable(result), count_after),
    decreases cells.len() - from,
{
    if from < cells.len() {
        lemma_unreadable_after::<V>(cells, from + 1);
        match cells[from] {
            Err(_) => {},
            Ok(None) => {
                lemma_walked_before(cells, from + 1, count, calls, result, count_after);
            },
            Ok(Some(record)) => {
                if V::decodes(record.bytes) && calls[0].2 == Ok::<bool, E>(true) {
                    let read = crate::counter::counted(count, record.raw.len());
                    let rest = calls.drop_first();
                    lemma_walked_before(cells, from + 1, read, rest, result, count_after);
                }
            },
        }
    }
}

/// A walk that comes to no record whose bytes are not those of a value is one that looks for that.
pub(crate) proof fn lemma_walked_is_checked<V: Blob, E: From<GridstoreError>>(
    cells: Seq<Cell>,
    from: int,
    count: u64,
    calls: Seq<Call<V, E>>,
    result: Result<(), E>,
    count_after: u64,
)
    requires
        unreadable_after::<V>(cells, from) is None,
        walked(cells, from, count, calls, result, count_after),
    ensures
        walked_checked(cells, from, count, calls, Some(result), count_after),
    decreases cells.len() - from,
{
    if from < cells.len() {
        match cells[from] {
            Err(_) => {},
            Ok(None) => {
                lemma_walked_is_checked(cells, from + 1, count, calls, result, count_after);
            },
            Ok(Some(record)) => {
                if calls[0].2 == Ok::<bool, E>(true) {
                    let read = crate::counter::counted(count, record.raw.len());
                    let rest = calls.drop_first();
                    lemma_walked_is_checked(cells, from + 1, read, rest, result, count_after);
                }
            },
        }
    }
}

/// Where a walk over all the cells can be made, so can one over as many records.
pub(crate) proof fn lemma_walkable_all<V: Blob, F, E>(
    cells: Seq<Cell>,
    callback: F,
    from: int,
    left: int,
) where F: FnMut(PointOffset, V) -> Result<bool, E>
    requires
        walkable::<V, F, E>(cells, callback, from),
        left >= cells.len() - from,
    ensures
        walkable_some::<V, F, E>(cells, callback, from, left),
    decreases cells.len() - from,
{
    if from < cells.len() {
        match cells[from] {
            Err(_) => {},
            Ok(None) => {
                lemma_walkable_all::<V, F, E>(cells, callback, from + 1, left);
            },
            Ok(Some(_)) => {
                if walkable::<V, F, E>(cells, callback, from + 1) {
                    lemma_walkable_all::<V, F, E>(cells, callback, from + 1, left - 1);
                }
            },
        }
    }
}

/// A walk over as many records as there are cells is a walk over all of them.
pub(crate) proof fn lemma_walked_all<V: Blob, E: From<GridstoreError>>(
    cells: Seq<Cell>,
    from: int,
    left: int,
    count: u64,
    calls: Seq<Call<V, E>>,
    result: Result<ControlFlow<(), PointOffset>, E>,
    count_after: u64,
)
    requires
        left >= cells.len() - from,
        walked_some(cells, from, left, count, calls, result, count_after),
    ensures
        match result {
            Ok(ControlFlow::Break(_)) => walked(cells, from, count, calls, Ok(()), count_after),
            Ok(ControlFlow::Continue(_)) => false,
            Err(error) => walked(cells, from, count, calls, Err(error), count_after),
        },
    decreases cells.len() - from,
{
    if from < cells.len() {
        match cells[from] {
            Err(_) => {},
            Ok(None) => {
                lemma_walked_all(cells, from + 1, left, count, calls, result, count_after);
            },
            Ok(Some(record)) => {
                if calls[0].2 == Ok::<bool, E>(true) {
                    let read = crate::counter::counted(count, record.raw.len());
                    let rest = calls.drop_first();
                    lemma_walked_all(cells, from + 1, left - 1, read, rest, result, count_after);
                }
            },
        }
    }
}

/// The view reads what the cells say.
pub(crate) open spec fn shows<V: Blob>(view: GridstoreView<'_, V>, cells: Seq<Cell>) -> bool {
    &&& cells == crate::layout::cells_of(
        *view.config,
        *view.tracker,
        *view.pages,
        crate::view::dictionary_bytes(view.dictionary),
    )
    &&& forall|i: int|
        0 <= i < cells.len() ==> ((#[trigger] view.tracker.slot(i)) matches Ok(Some(pointer))
            ==> crate::layout::record_intact(
            *view.config,
            *view.pages,
            crate::view::dictionary_bytes(view.dictionary),
            pointer,
            view.pages.pages@.len() * view.config.page_size_bytes,
        ))
}

/// Where a walk over the cells can be made, so can a scan of the view.
pub(crate) proof fn lemma_scannable<V: Blob, F, E>(
    view: GridstoreView<'_, V>,
    cells: Seq<Cell>,
    callback: F,
    from: int,
    left: int,
) where F: FnMut(PointOffset, V) -> Result<bool, E>
    requires
        shows(view, cells),
        0 <= from,
        walkable_some::<V, F, E>(cells, callback, from, left),
    ensures
        view.scannable::<F, E>(callback, from, cells.len() as int, left),
    decreases cells.len() - from,
{
    if from < cells.len() {
        assert(view.tracker.slot(from) == view.tracker.slots@[from]);
        match cells[from] {
            Err(_) => {},
            Ok(None) => {
                lemma_scannable::<V, F, E>(view, cells, callback, from + 1, left);
            },
            Ok(Some(_)) => {
                if walkable_some::<V, F, E>(cells, callback, from + 1, left - 1) {
                    lemma_scannable::<V, F, E>(view, cells, callback, from + 1, left - 1);
                }
            },
        }
    }
}

/// What a scan of the view does is what a walk over the cells does.
pub(crate) proof fn lemma_handed<V: Blob, E: From<GridstoreError>>(
    view: GridstoreView<'_, V>,
    cells: Seq<Cell>,
    from: int,
    left: int,
    count: u64,
    calls: Seq<Call<V, E>>,
    result: Result<ControlFlow<(), PointOffset>, E>,
    count_after: u64,
)
    requires
        shows(view, cells),
        0 <= from,
        view.handed(from, cells.len() as int, left, count, calls, result, count_after),
    ensures
        walked_some(cells, from, left, count, calls, result, count_after),
    decreases cells.len() - from,
{
    if from < cells.len() {
        assert(view.tracker.slot(from) == view.tracker.slots@[from]);
        match cells[from] {
            Err(_) => {},
            Ok(None) => {
                lemma_handed(view, cells, from + 1, left, count, calls, result, count_after);
            },
            Ok(Some(record)) => {
                if left != 0 && calls[0].2 == Ok::<bool, E>(true) {
                    let read = crate::counter::counted(count, record.raw.len());
                    let rest = calls.drop_first();
                    lemma_handed(
                        view,
                        cells,
                        from + 1,
                        left - 1,
                        read,
                        rest,
                        result,
                        count_after,
                    );
                }
            },
        }
    }
}

}
