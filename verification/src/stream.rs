//! Values that come one after the other.

use crate::runtime::Runtime;
use vstd::prelude::*;

verus! {

/// How far a call has got.
#[derive(Debug, PartialEq, Eq)]
pub enum Progress<T> {
    /// Not done: it has to be polled again after the next completion.
    Pending,
    /// Done, with this value.
    Ready(T),
}

/// A source of values. `Ready(Some(v))` is the next value, `Ready(None)` the
/// end.
pub trait Stream<F>: Sized {
    type Item;

    /// When the stream may be polled.
    spec fn poll_requires(&self, rt: &Runtime<F>) -> bool;

    /// How a poll changes the stream and the runtime, and what it gives.
    spec fn poll_ensures(
        before: Self,
        after: Self,
        rt_before: Runtime<F>,
        rt_after: Runtime<F>,
        r: Progress<Option<Self::Item>>,
    ) -> bool;

    /// Asks for the next value.
    fn poll_next(&mut self, rt: &mut Runtime<F>) -> (r: Progress<Option<Self::Item>>)
        requires
            old(self).poll_requires(old(rt)),
        ensures
            Self::poll_ensures(*old(self), *final(self), *old(rt), *final(rt), r),
    ;
}

/// What every stream can do besides.
pub trait StreamExt<F>: Stream<F> {
    /// The wait for the next value.
    fn next(&mut self) -> (n: Next<'_, Self>)
        ensures
            *n.0 == *old(self),
            *final(n.0) == *final(self),
    {
        Next(self)
    }
}

impl<F, S: Stream<F>> StreamExt<F> for S {

}

/// The wait for the next value of a stream.
pub struct Next<'a, S>(pub &'a mut S);

impl<'a, S> Next<'a, S> {
    /// Asks the stream.
    pub fn poll<F>(&mut self, rt: &mut Runtime<F>) -> (r: Progress<Option<S::Item>>) where
        S: Stream<F>,

        requires
            old(self).0.poll_requires(old(rt)),
        ensures
            S::poll_ensures(*old(self).0, *final(self).0, *old(rt), *final(rt), r),
            *final(final(self).0) == *final(old(self).0),
    {
        self.0.poll_next(rt)
    }
}

} // verus!
