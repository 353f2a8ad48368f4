//! Callbacks that keep a record of how they are called.

use crate::tracker::PointOffset;
use vstd::prelude::*;

verus! {

/// One call of a callback: the point and the value that were handed over, and the answer.
pub type Call<V, E> = (PointOffset, V, Result<bool, E>);

/// A callback that values are handed over to, and the calls of it so far. It can be called through
/// `visit` alone.
pub struct Callback<F, V, E> {
    callback: F,
    called: Ghost<Seq<Call<V, E>>>,
}

impl<F, V, E> Callback<F, V, E> {
    /// The callback itself.
    pub closed spec fn inner(self) -> F {
        self.callback
    }

    /// The calls so far, in order.
    pub closed spec fn calls(self) -> Seq<Call<V, E>> {
        self.called@
    }

    /// It is the same callback, and was called since.
    pub open spec fn follows(self, earlier: Self) -> bool {
        &&& self.inner() == earlier.inner()
        &&& earlier.calls().is_prefix_of(self.calls())
    }

    /// The calls since.
    pub open spec fn since(self, earlier: Self) -> Seq<Call<V, E>> {
        self.calls().skip(earlier.calls().len() as int)
    }
}

impl<F, V, E> Callback<F, V, E> where F: FnMut(PointOffset, V) -> Result<bool, E> {
    /// A callback that was not called yet.
    pub fn new(callback: F) -> (visitor: Self)
        ensures
            visitor.inner() == callback,
            visitor.calls() == Seq::<Call<V, E>>::empty(),
    {
        Callback { callback, called: Ghost(Seq::empty()) }
    }

    /// Hands a value over.
    pub fn visit(&mut self, point_offset: PointOffset, value: V) -> (answer: Result<bool, E>)
        requires
            call_requires(old(self).inner(), (point_offset, value)),
        ensures
            call_ensures(old(self).inner(), (point_offset, value), answer),
            final(self).inner() == old(self).inner(),
            final(self).calls() == old(self).calls().push((point_offset, value, answer)),
    {
        let ghost handed = value;
        let answer = (self.callback)(point_offset, value);
        self.called = Ghost(self.called@.push((point_offset, handed, answer)));
        answer
    }
}

/// Each of the calls had an answer that the callback may give.
pub open spec fn answered<F, V, E>(callback: F, calls: Seq<Call<V, E>>) -> bool where
    F: FnMut(PointOffset, V) -> Result<bool, E>,
 {
    forall|i: int|
        0 <= i < calls.len() ==> call_ensures(
            callback,
            ((#[trigger] calls[i]).0, calls[i].1),
            calls[i].2,
        )
}

}
