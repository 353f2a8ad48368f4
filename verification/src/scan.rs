//! What holds of scans: which values they hand over, how they end, and how they are taken up again.

use crate::blob::Blob;
use crate::callback::Call;
use crate::error::GridstoreError;
use crate::tracker::{PointOffset, Tracker};
use crate::view::GridstoreView;
use std::ops::ControlFlow;
use vstd::prelude::*;

verus! {

/// The points from `from` up to `max_id` that have a record, in order.
pub open spec fn recorded(tracker: Tracker, from: int, max_id: int) -> Seq<int>
    decreases max_id - from,
{
    if from >= max_id {
        Seq::empty()
    } else {
        match tracker.slot(from) {
            Ok(Some(_)) => seq![from] + recorded(tracker, from + 1, max_id),
            _ => recorded(tracker, from + 1, max_id),
        }
    }
}

/// The value is what the record of a point is read as.
pub open spec fn is_read<V: Blob>(view: GridstoreView<'_, V>, point: int, value: V) -> bool {
    view.tracker.slot(point) matches Ok(Some(pointer)) && view.raw(pointer) matches Some(raw)
        && V::is_decoded(view.decompressed(raw)->0, value)
}

/// The slot of a point could be read, and the pages hold its record if it has one.
pub open spec fn is_held<V: Blob>(view: GridstoreView<'_, V>, point: int) -> bool {
    match view.tracker.slot(point) {
        Err(_) => false,
        Ok(None) => true,
        Ok(Some(pointer)) => view.raw(pointer) is Some,
    }
}

/// The result is why a point could not be read.
pub open spec fn fails_at<V: Blob, T, E: From<GridstoreError>>(
    view: GridstoreView<'_, V>,
    point: int,
    result: Result<T, E>,
) -> bool {
    match view.tracker.slot(point) {
        Err(error) => crate::view::is_converted(error, result),
        Ok(None) => false,
        Ok(Some(pointer)) => view.raw(pointer) is None && crate::view::is_converted(
            GridstoreError::OutOfBounds,
            result,
        ),
    }
}

/// The last call did not end the scan.
pub open spec fn unended<V, E>(calls: Seq<Call<V, E>>) -> bool {
    calls.len() > 0 ==> calls.last().2 == Ok::<bool, E>(true)
}

/// The points that have a record lie between the bounds, in ascending order.
pub(crate) proof fn lemma_recorded(tracker: Tracker, from: int, max_id: int)
    ensures
        forall|k: int|
            0 <= k < recorded(tracker, from, max_id).len() ==> from <= #[trigger] recorded(
                tracker,
                from,
                max_id,
            )[k] < max_id,
        forall|j: int, k: int|
            0 <= j < k < recorded(tracker, from, max_id).len() ==> #[trigger] recorded(
                tracker,
                from,
                max_id,
            )[j] < #[trigger] recorded(tracker, from, max_id)[k],
    decreases max_id - from,
{
    if from < max_id {
        let points = recorded(tracker, from, max_id);
        let rest = recorded(tracker, from + 1, max_id);
        lemma_recorded(tracker, from + 1, max_id);
        if tracker.slot(from) matches Ok(Some(_)) {
            assert forall|k: int| 0 < k < points.len() implies #[trigger] points[k] == rest[k
                - 1] by {}
        } else {
            assert(points =~= rest);
        }
    }
}

/// The calls of a scan are those for the first points that have a record, in order: each point
/// once, with the value that its record is read as, and no more points than asked for. Every call
/// but the last was answered `Ok(true)`; the scan ends after a call that was answered otherwise,
/// with its error, or with `Break`.
pub proof fn law_scan_calls<V: Blob, E: From<GridstoreError>>(
    view: GridstoreView<'_, V>,
    from: int,
    max_id: int,
    left: int,
    count: u64,
    calls: Seq<Call<V, E>>,
    result: Result<ControlFlow<(), PointOffset>, E>,
    count_after: u64,
)
    requires
        0 <= from,
        max_id <= PointOffset::MAX,
        0 <= left,
        view.handed(from, max_id, left, count, calls, result, count_after),
    ensures
        calls.len() <= left,
        calls.len() <= recorded(*view.tracker, from, max_id).len(),
        forall|k: int|
            0 <= k < calls.len() ==> (#[trigger] calls[k]).0 == recorded(
                *view.tracker,
                from,
                max_id,
            )[k],
        forall|k: int|
            0 <= k < calls.len() ==> is_read(view, (#[trigger] calls[k]).0 as int, calls[k].1),
        forall|k: int|
            0 <= k < calls.len() - 1 ==> (#[trigger] calls[k]).2 == Ok::<bool, E>(true),
        forall|j: int, k: int|
            0 <= j < k < calls.len() ==> (#[trigger] calls[j]).0 < (#[trigger] calls[k]).0,
        !unended(calls) ==> result == (match calls.last().2 {
            Ok(_) => Ok(ControlFlow::<(), PointOffset>::Break(())),
            Err(error) => Err(error),
        }),
    decreases max_id - from,
{
    lemma_recorded(*view.tracker, from, max_id);
    if from < max_id {
        match view.tracker.slot(from) {
            Err(_) => {},
            Ok(None) => {
                law_scan_calls(view, from + 1, max_id, left, count, calls, result, count_after);
            },
            Ok(Some(pointer)) => {
                if left != 0 && view.raw(pointer) is Some && calls[0].2 == Ok::<bool, E>(true) {
                    let read = crate::counter::counted(count, view.raw(pointer)->0.len());
                    let rest = calls.drop_first();
                    law_scan_calls(
                        view,
                        from + 1,
                        max_id,
                        left - 1,
                        read,
                        rest,
                        result,
                        count_after,
                    );
                    assert forall|k: int| 0 < k < calls.len() implies #[trigger] calls[k]
                        == rest[k - 1] by {}
                    let points = recorded(*view.tracker, from, max_id);
                    let others = recorded(*view.tracker, from + 1, max_id);
                    assert forall|k: int| 0 < k < points.len() implies #[trigger] points[k]
                        == others[k - 1] by {}
                }
            },
        }
    }
    let points = recorded(*view.tracker, from, max_id);
    assert forall|j: int, k: int| 0 <= j < k < calls.len() implies (#[trigger] calls[j]).0 < (
    #[trigger] calls[k]).0 by {
        assert(calls[j].0 == points[j] && calls[k].0 == points[k]);
    }
}

/// Where every point that the scan can come to can be read and no answer ends it before, the scan
/// hands over as many values as asked for, or all if there are no more. It ends with `Continue` and
/// the point of the first record that was left over, or with `Break` if there is none.
pub proof fn law_scan_hands_over_as_many<V: Blob, E: From<GridstoreError>>(
    view: GridstoreView<'_, V>,
    from: int,
    max_id: int,
    left: int,
    count: u64,
    calls: Seq<Call<V, E>>,
    result: Result<ControlFlow<(), PointOffset>, E>,
    count_after: u64,
)
    requires
        0 <= from,
        max_id <= PointOffset::MAX,
        0 <= left,
        view.handed(from, max_id, left, count, calls, result, count_after),
        ({
            let points = recorded(*view.tracker, from, max_id);
            let end = if points.len() > left {
                points[left]
            } else {
                max_id
            };
            forall|i: int| from <= i < end ==> #[trigger] is_held(view, i)
        }),
        unended(calls),
    ensures
        ({
            let points = recorded(*view.tracker, from, max_id);
            if points.len() > left {
                &&& calls.len() == left
                &&& result == Ok::<ControlFlow<(), PointOffset>, E>(
                    ControlFlow::Continue(points[left] as PointOffset),
                )
            } else {
                &&& calls.len() == points.len()
                &&& result == Ok::<ControlFlow<(), PointOffset>, E>(ControlFlow::Break(()))
            }
        }),
    decreases max_id - from,
{
    if from < max_id {
        let points = recorded(*view.tracker, from, max_id);
        let others = recorded(*view.tracker, from + 1, max_id);
        lemma_recorded(*view.tracker, from + 1, max_id);
        match view.tracker.slot(from) {
            Err(_) => {
                assert(is_held(view, from));
            },
            Ok(None) => {
                law_scan_hands_over_as_many(
                    view,
                    from + 1,
                    max_id,
                    left,
                    count,
                    calls,
                    result,
                    count_after,
                );
            },
            Ok(Some(pointer)) => {
                if left != 0 {
                    if points.len() > left {
                        assert(points[left] == others[left - 1]);
                    }
                    assert(is_held(view, from));
                    let read = crate::counter::counted(count, view.raw(pointer)->0.len());
                    let rest = calls.drop_first();
                    assert(calls.len() > 1 ==> rest.last() == calls.last());
                    law_scan_hands_over_as_many(
                        view,
                        from + 1,
                        max_id,
                        left - 1,
                        read,
                        rest,
                        result,
                        count_after,
                    );
                }
            },
        }
    }
}

/// A scan that fails, but not with the answer to a call, fails at a point that could not be read,
/// with the reason for that. All the values of the points before it were handed over, and none
/// after.
pub proof fn law_scan_fails_where_it_cannot_read<V: Blob, E: From<GridstoreError>>(
    view: GridstoreView<'_, V>,
    from: int,
    max_id: int,
    left: int,
    count: u64,
    calls: Seq<Call<V, E>>,
    result: Result<ControlFlow<(), PointOffset>, E>,
    count_after: u64,
) -> (point: int)
    requires
        0 <= from,
        max_id <= PointOffset::MAX,
        0 <= left,
        view.handed(from, max_id, left, count, calls, result, count_after),
        unended(calls),
        result is Err,
    ensures
        from <= point < max_id,
        fails_at(view, point, result),
        forall|i: int| from <= i < point ==> #[trigger] is_held(view, i),
        calls.len() == recorded(*view.tracker, from, point).len(),
    decreases max_id - from,
{
    match view.tracker.slot(from) {
        Err(_) => from,
        Ok(None) => {
            assert(is_held(view, from));
            law_scan_fails_where_it_cannot_read(
                view,
                from + 1,
                max_id,
                left,
                count,
                calls,
                result,
                count_after,
            )
        },
        Ok(Some(pointer)) => {
            if view.raw(pointer) is None {
                from
            } else {
                assert(is_held(view, from));
                let read = crate::counter::counted(count, view.raw(pointer)->0.len());
                let rest = calls.drop_first();
                assert(calls.len() > 1 ==> rest.last() == calls.last());
                law_scan_fails_where_it_cannot_read(
                    view,
                    from + 1,
                    max_id,
                    left - 1,
                    read,
                    rest,
                    result,
                    count_after,
                )
            }
        },
    }
}

/// A scan that ended with `Continue(next)` handed over as many values as it was to, and was
/// answered `Ok(true)` to each. There are more records between its bounds, and `next` is the point
/// of the first that was left over. No slot before it could not be read.
pub proof fn law_continue_is_the_next_record<V: Blob, E: From<GridstoreError>>(
    view: GridstoreView<'_, V>,
    from: int,
    max_id: int,
    left: int,
    count: u64,
    calls: Seq<Call<V, E>>,
    next: PointOffset,
    count_after: u64,
)
    requires
        0 <= from,
        max_id <= PointOffset::MAX,
        0 <= left,
        view.handed(
            from,
            max_id,
            left,
            count,
            calls,
            Ok(ControlFlow::Continue(next)),
            count_after,
        ),
    ensures
        calls.len() == left,
        forall|k: int| 0 <= k < left ==> (#[trigger] calls[k]).2 == Ok::<bool, E>(true),
        recorded(*view.tracker, from, max_id).len() > left,
        recorded(*view.tracker, from, max_id)[left] == next,
        from <= next < max_id,
        forall|i: int| from <= i < next ==> #[trigger] is_held(view, i),
    decreases max_id - from,
{
    if from < max_id {
        match view.tracker.slot(from) {
            Err(_) => {},
            Ok(None) => {
                assert(is_held(view, from));
                law_continue_is_the_next_record(
                    view,
                    from + 1,
                    max_id,
                    left,
                    count,
                    calls,
                    next,
                    count_after,
                );
            },
            Ok(Some(pointer)) => {
                if left != 0 && view.raw(pointer) is Some {
                    assert(is_held(view, from));
                    let read = crate::counter::counted(count, view.raw(pointer)->0.len());
                    let rest = calls.drop_first();
                    law_continue_is_the_next_record(
                        view,
                        from + 1,
                        max_id,
                        left - 1,
                        read,
                        rest,
                        next,
                        count_after,
                    );
                    assert forall|k: int| 0 < k < calls.len() implies #[trigger] calls[k]
                        == rest[k - 1] by {}
                }
            },
        }
    }
}

/// A scan that ended with `Continue(next)` can be taken up again from `next`: the calls of the two
/// together, and the result of the second, are those of one scan over as many records as both. So
/// no value is skipped, and none is handed over twice.
pub proof fn law_scan_resumes<V: Blob, E: From<GridstoreError>>(
    view: GridstoreView<'_, V>,
    from: int,
    max_id: int,
    first: int,
    second: int,
    counts: (u64, u64, u64),
    calls: Seq<Call<V, E>>,
    next: PointOffset,
    more: Seq<Call<V, E>>,
    result: Result<ControlFlow<(), PointOffset>, E>,
)
    requires
        0 <= from,
        max_id <= PointOffset::MAX,
        0 <= first,
        0 <= second,
        view.handed(
            from,
            max_id,
            first,
            counts.0,
            calls,
            Ok(ControlFlow::Continue(next)),
            counts.1,
        ),
        view.handed(next as int, max_id, second, counts.1, more, result, counts.2),
    ensures
        view.handed(from, max_id, first + second, counts.0, calls + more, result, counts.2),
        forall|j: int, k: int|
            0 <= j < k < (calls + more).len() ==> (#[trigger] (calls + more)[j]).0 < (
            #[trigger] (calls + more)[k]).0,
    decreases max_id - from,
{
    if from < max_id {
        match view.tracker.slot(from) {
            Err(_) => {},
            Ok(None) => {
                law_scan_resumes(
                    view,
                    from + 1,
                    max_id,
                    first,
                    second,
                    counts,
                    calls,
                    next,
                    more,
                    result,
                );
            },
            Ok(Some(pointer)) => {
                if first == 0 {
                    assert(calls + more =~= more);
                } else if view.raw(pointer) is Some {
                    let read = crate::counter::counted(counts.0, view.raw(pointer)->0.len());
                    law_scan_resumes(
                        view,
                        from + 1,
                        max_id,
                        first - 1,
                        second,
                        (read, counts.1, counts.2),
                        calls.drop_first(),
                        next,
                        more,
                        result,
                    );
                    assert((calls + more).drop_first() =~= calls.drop_first() + more);
                }
            },
        }
    }
    law_scan_calls(
        view,
        from,
        max_id,
        first + second,
        counts.0,
        calls + more,
        result,
        counts.2,
    );
}

}
