//! Lazy sequences of located results: what each stage of the pipeline takes
//! from the stage before it and hands to the next.

use crate::error::{RingsError, RingsErrorView};
use crate::Localized;
use vstd::prelude::*;

verus! {

/// One element of a stream: a value or an error, with its position.
pub type Item<T> = Localized<Result<T, RingsError>>;

/// An element of a stream as contracts see it.
pub type ItemView<V> = Localized<Result<V, RingsErrorView>>;

/// The view of a stream element: the same position around the view of the
/// value or of the error.
pub open spec fn item_view<T: View>(item: Item<T>) -> ItemView<T::V> {
    item.with(
        match item.value {
            Ok(v) => Ok::<T::V, RingsErrorView>(v@),
            Err(e) => Err(e@),
        },
    )
}

/// `result` is the first of the elements `before`, if there is one, and
/// `after` are the others.
pub open spec fn yields<T: View>(
    before: Seq<ItemView<T::V>>,
    result: Option<Item<T>>,
    after: Seq<ItemView<T::V>>,
) -> bool {
    match result {
        Some(item) => before.len() > 0 && item_view(item) == before[0] && after == before.skip(1),
        None => before.len() == 0 && after.len() == 0,
    }
}

/// No element follows a failure: an error, if there is one, is the last
/// element.
pub open spec fn stops_at_failure<V>(items: Seq<ItemView<V>>) -> bool {
    forall|i: int| 0 <= i < items.len() && (#[trigger] items[i]).value is Err ==> i == items.len() - 1
}

/// Successes put before a sequence that stops at its failure give a
/// sequence that stops at its failure.
pub proof fn lemma_successes_before<V>(front: Seq<ItemView<V>>, rest: Seq<ItemView<V>>)
    requires
        forall|i: int| 0 <= i < front.len() ==> (#[trigger] front[i]).value is Ok,
        stops_at_failure(rest),
    ensures
        stops_at_failure(front + rest),
{
    let all = front + rest;
    assert forall|i: int| 0 <= i < all.len() && (#[trigger] all[i]).value is Err implies i
        == all.len() - 1 by {
        if i >= front.len() {
            assert(all[i] == rest[i - front.len()]);
        }
    }
}

/// A sequence of located results that is produced one element at a time.
///
/// `remaining` is everything the stream has yet to yield; `next` takes the
/// first of it. Nothing is computed before it is asked for.
pub trait Stream<T: View> {
    /// The stream is in a state that `next` can start from.
    spec fn wf(&self) -> bool;

    /// The elements that are still to come, in order.
    spec fn remaining(&self) -> Seq<ItemView<T::V>>;

    /// The next element, or `None` once the stream is at its end.
    fn next(&mut self) -> (r: Option<Item<T>>)
        requires
            old(self).wf(),
        ensures
            final(self).wf(),
            yields(old(self).remaining(), r, final(self).remaining()),
    ;
}

/// A stream over elements that are already there. It hands them out in
/// order.
pub struct Replay<T> {
    items: Vec<Item<T>>,
}

impl<T: View> Replay<T> {
    /// The views of `items` in reverse order.
    pub open spec fn reversed_views(items: Seq<Item<T>>) -> Seq<ItemView<T::V>> {
        Seq::new(items.len(), |i: int| item_view(items[items.len() - 1 - i]))
    }

    /// The views of `items` in order.
    pub open spec fn views(items: Seq<Item<T>>) -> Seq<ItemView<T::V>> {
        Seq::new(items.len(), |i: int| item_view(items[i]))
    }

    /// A stream that yields `items` from first to last.
    pub fn new(items: Vec<Item<T>>) -> (r: Self)
        ensures
            r.wf(),
            r.remaining() == Self::views(items@),
    {
        let mut rest = items;
        let mut reversed: Vec<Item<T>> = Vec::new();
        while rest.len() > 0
            invariant
                rest@.len() + reversed@.len() == items@.len(),
                forall|i: int| 0 <= i < rest@.len() ==> rest@[i] == items@[i],
                forall|i: int|
                    0 <= i < reversed@.len() ==> reversed@[i] == items@[items@.len() - 1 - i],
            decreases rest@.len(),
        {
            match rest.pop() {
                Some(item) => reversed.push(item),
                None => {},
            }
        }
        let r = Self { items: reversed };
        assert(r.remaining() =~= Self::views(items@));
        r
    }
}

impl<T: View> Stream<T> for Replay<T> {
    open spec fn wf(&self) -> bool {
        true
    }

    closed spec fn remaining(&self) -> Seq<ItemView<T::V>> {
        Self::reversed_views(self.items@)
    }

    fn next(&mut self) -> (r: Option<Item<T>>) {
        let r = self.items.pop();
        proof {
            if r is Some {
                assert(final(self).remaining() =~= old(self).remaining().skip(1));
            }
        }
        r
    }
}

} // verus!
