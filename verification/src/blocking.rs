//! Handing blocking work to another thread and waiting for it as a task.
//!
//! The state shared between the waiting task and the worker thread: whether
//! the work is done, and the waker of the task if it polled before then.
//! The program keeps it behind a lock; the task polls it, and the worker
//! marks it complete and wakes the waker it gets back.
use vstd::prelude::*;

use crate::runtime::{Future, Waker};

verus! {

/// Shared state of a piece of blocking work.
pub struct Blocking {
    done: bool,
    waker: Option<Waker>,
}

/// Mathematical value of a [`Blocking`]: whether the work is done, and the
/// waker left by the last poll that found it unfinished.
pub struct BlockingView {
    pub done: bool,
    pub waker: Option<Waker>,
}

impl View for Blocking {
    type V = BlockingView;

    closed spec fn view(&self) -> BlockingView {
        BlockingView { done: self.done, waker: self.waker }
    }
}

/// Polling: unfinished work keeps the poller's waker (replacing any
/// earlier one) and reports `None`; finished work reports `Some(())`.
pub open spec fn poll_step(s: BlockingView, waker: Waker) -> (BlockingView, Option<()>) {
    if s.done {
        (s, Some(()))
    } else {
        (BlockingView { done: false, waker: Some(waker) }, None)
    }
}

/// Completion: the work is done, and the waker kept, if any, is handed out
/// (and forgotten) to be woken.
pub open spec fn complete_step(s: BlockingView) -> (BlockingView, Option<Waker>) {
    (BlockingView { done: true, waker: None }, s.waker)
}

impl Blocking {
    /// Work not yet done, with no task waiting.
    pub fn new() -> (b: Self)
        ensures
            b@ == (BlockingView { done: false, waker: None }),
    {
        Blocking { done: false, waker: None }
    }

    /// Whether the work is done.
    pub fn is_done(&self) -> (r: bool)
        ensures
            r == self@.done,
    {
        self.done
    }

    /// Polls the work on behalf of the task with `waker`.
    pub fn poll(&mut self, waker: Waker) -> (r: Option<()>)
        ensures
            (final(self)@, r) == poll_step(old(self)@, waker),
    {
        if self.done {
            Some(())
        } else {
            self.waker = Some(waker);
            None
        }
    }

    /// Marks the work done; returns the waker to wake, if a task is waiting.
    pub fn complete(&mut self) -> (w: Option<Waker>)
        ensures
            (final(self)@, w) == complete_step(old(self)@),
    {
        self.done = true;
        self.waker.take()
    }
}

/// Polled as a task, the shared state reports the work finished once it is
/// done, and otherwise keeps the poller's waker; the context is untouched.
impl<Cx> Future<Cx> for Blocking {
    type Output = ();

    open spec fn poll_spec(
        &self,
        waker: Waker,
        cx: Cx,
        after: Self,
        cx_after: Cx,
        out: Option<()>,
    ) -> bool {
        &&& (after@, out) == poll_step(self@, waker)
        &&& cx_after == cx
    }

    fn poll(&mut self, waker: Waker, cx: &mut Cx) -> (out: Option<()>) {
        Blocking::poll(self, waker)
    }
}

/// A poll reports the work finished exactly when it has been completed:
/// polling work that is not done reports nothing (however many pollers came
/// before), keeps the work not done and keeps the poller's waker; polling
/// done work reports it finished and changes nothing.
pub proof fn lemma_poll_reports_done_iff_completed(s: BlockingView, waker: Waker)
    ensures
        poll_step(s, waker).1 is Some <==> s.done,
        !s.done ==> !poll_step(s, waker).0.done && poll_step(s, waker).0.waker == Some(waker),
        s.done ==> poll_step(s, waker).0 == s,
{
}

/// Completion makes the work done, hands out exactly the waker the last
/// poller left (nothing if no one polled), and no waker is handed out twice:
/// from then on every poll reports the work finished.
pub proof fn lemma_complete_hands_out_the_waiting_waker(s: BlockingView, waker: Waker)
    ensures
        complete_step(s).0.done,
        complete_step(s).1 == s.waker,
        complete_step(complete_step(s).0).1 is None,
        poll_step(complete_step(s).0, waker).1 == Some(()),
{
}

/// A task that polls before the work is done is woken exactly once when it
/// completes: completion hands out its waker, a second completion hands out
/// nothing, and from then on every poll reports the work finished.
pub proof fn lemma_waiting_task_is_woken_once(waker: Waker, later: Waker)
    ensures
        ({
            let fresh = BlockingView { done: false, waker: None };
            let (polled, r) = poll_step(fresh, waker);
            let (completed, w) = complete_step(polled);
            let (again, w2) = complete_step(completed);
            &&& r is None
            &&& w == Some(waker)
            &&& w2 is None
            &&& poll_step(completed, later).1 == Some(())
            &&& poll_step(again, later).1 == Some(())
        }),
{
}

/// Only the most recent poller is woken: a later poll before completion
/// replaces the waker kept by an earlier one.
pub proof fn lemma_last_poller_is_woken(s: BlockingView, first: Waker, second: Waker)
    requires
        !s.done,
    ensures
        complete_step(poll_step(poll_step(s, first).0, second).0).1 == Some(second),
{
}

/// Work that completes before anyone polls wakes nobody, and the first
/// poll finds it finished.
pub proof fn lemma_completed_before_poll(waker: Waker)
    ensures
        complete_step(BlockingView { done: false, waker: None }).1 is None,
        poll_step(complete_step(BlockingView { done: false, waker: None }).0, waker).1 == Some(()),
{
}

} // verus!
