//! Racing two futures: the first one to finish wins.
use vstd::prelude::*;

use crate::blocking::{complete_step, Blocking, BlockingView};
use crate::runtime::{Future, Waker};

verus! {

/// One of two values.
#[derive(Debug, PartialEq, Eq)]
pub enum Either<L, R> {
    Left(L),
    Right(R),
}

/// A future that finishes when either of two futures finishes.
pub struct Select<L, R> {
    pub left: L,
    pub right: R,
}

/// Races `left` against `right`.
pub fn select<L, R>(left: L, right: R) -> (s: Select<L, R>)
    ensures
        s.left == left,
        s.right == right,
{
    Select { left, right }
}

/// What polling a race does: `left` is polled first; if it finishes, the
/// race finishes with `Left` of its output and `right` is left as it was;
/// otherwise `right` is polled next (in the context `left` left behind) and
/// the race finishes with `Right` of its output if it finishes, and is not
/// finished if neither is.
pub open spec fn select_polled<Cx, L: Future<Cx>, R: Future<Cx>>(
    before: Select<L, R>,
    waker: Waker,
    cx: Cx,
    after: Select<L, R>,
    cx_after: Cx,
    out: Option<Either<L::Output, R::Output>>,
) -> bool {
    match out {
        Some(Either::Left(x)) => {
            &&& before.left.poll_spec(waker, cx, after.left, cx_after, Some(x))
            &&& after.right == before.right
        },
        Some(Either::Right(y)) => exists|cx_mid: Cx|
            {
                &&& #[trigger] before.left.poll_spec(waker, cx, after.left, cx_mid, None)
                &&& before.right.poll_spec(waker, cx_mid, after.right, cx_after, Some(y))
            },
        None => exists|cx_mid: Cx|
            {
                &&& #[trigger] before.left.poll_spec(waker, cx, after.left, cx_mid, None)
                &&& before.right.poll_spec(waker, cx_mid, after.right, cx_after, None)
            },
    }
}

impl<L, R> Select<L, R> {
    /// Polls `left` first, and `right` only when `left` is not finished:
    /// the result is `Left` with the output of `left` when `left` finishes,
    /// else `Right` with the output of `right` when `right` finishes, else
    /// `None`. When `left` wins, `right` is not polled.
    pub fn poll_select<Cx>(&mut self, waker: Waker, cx: &mut Cx) -> (res: Option<
        Either<L::Output, R::Output>,
    >) where L: Future<Cx>, R: Future<Cx>
        ensures
            select_polled(*old(self), waker, *old(cx), *final(self), *final(cx), res),
            res matches Some(Either::Left(_)) ==> final(self).right == old(self).right,
    {
        let ghost cx0 = *cx;
        let ghost left0 = self.left;
        let ghost right0 = self.right;
        if let Some(output) = self.left.poll(waker, cx) {
            return Some(Either::Left(output));
        }
        let ghost cx_mid = *cx;
        let ghost left1 = self.left;
        assert(left0.poll_spec(waker, cx0, left1, cx_mid, None));
        let r = self.right.poll(waker, cx);
        assert(self.left == left1);
        assert(right0.poll_spec(waker, cx_mid, self.right, *cx, r));
        if let Some(output) = r {
            return Some(Either::Right(output));
        }
        None
    }
}

impl<Cx, L: Future<Cx>, R: Future<Cx>> Future<Cx> for Select<L, R> {
    type Output = Either<L::Output, R::Output>;

    open spec fn poll_spec(
        &self,
        waker: Waker,
        cx: Cx,
        after: Self,
        cx_after: Cx,
        out: Option<Self::Output>,
    ) -> bool {
        select_polled(*self, waker, cx, after, cx_after, out)
    }

    fn poll(&mut self, waker: Waker, cx: &mut Cx) -> Option<Self::Output> {
        self.poll_select(waker, cx)
    }
}

/// Both sides of a race are polled with the race's own waker. When the
/// left side is not ready and the right side is blocking work not yet done
/// (as the Ctrl-C watcher is), the race is not finished, and the waker the
/// work keeps, and hands out when it completes, is the race's waker: the
/// work's completion wakes the race.
pub proof fn lemma_race_is_woken_by_its_right_side<Cx, L: Future<Cx>>(
    before: Select<L, Blocking>,
    waker: Waker,
    cx: Cx,
    after: Select<L, Blocking>,
    cx_after: Cx,
    out: Option<Either<L::Output, ()>>,
)
    requires
        select_polled(before, waker, cx, after, cx_after, out),
        !(out matches Some(Either::Left(_))),
        !before.right@.done,
    ensures
        out is None,
        after.right@ == (BlockingView { done: false, waker: Some(waker) }),
        complete_step(after.right@).1 == Some(waker),
{
}

/// A race between two pieces of blocking work: the left side wins when its
/// work is done, whatever the right side; otherwise the left side keeps
/// the race's waker, and the right side wins when its work is done, or
/// keeps the race's waker too and the race is not finished. The state of
/// a side is only changed by polling it.
pub proof fn lemma_race_of_blocking_works<Cx>(
    before: Select<Blocking, Blocking>,
    waker: Waker,
    cx: Cx,
    after: Select<Blocking, Blocking>,
    cx_after: Cx,
    out: Option<Either<(), ()>>,
)
    requires
        select_polled(before, waker, cx, after, cx_after, out),
    ensures
        before.left@.done ==> out == Some(Either::<(), ()>::Left(())) && after.left@ == before.left@
            && after.right@ == before.right@,
        !before.left@.done ==> after.left@ == (BlockingView { done: false, waker: Some(waker) }),
        !before.left@.done && before.right@.done ==> out == Some(Either::<(), ()>::Right(()))
            && after.right@ == before.right@,
        !before.left@.done && !before.right@.done ==> out is None && after.right@ == (BlockingView {
            done: false,
            waker: Some(waker),
        }),
        cx_after == cx,
{
}

/// A race whose left side finishes wins with the left side's output and
/// leaves the right side as it was: when the right side is blocking work,
/// the waker it keeps is untouched.
pub proof fn lemma_left_win_leaves_right_untouched<Cx, L: Future<Cx>>(
    before: Select<L, Blocking>,
    waker: Waker,
    cx: Cx,
    after: Select<L, Blocking>,
    cx_after: Cx,
    x: L::Output,
)
    requires
        select_polled(before, waker, cx, after, cx_after, Some(Either::Left(x))),
    ensures
        after.right@ == before.right@,
        before.left.poll_spec(waker, cx, after.left, cx_after, Some(x)),
{
}

} // verus!
