//! Tasks, wakers and the scheduler that polls runnable tasks in order.
//!
//! A task is a value implementing [`Future`]. The scheduler keeps every
//! task it was given in a slot of its own, identified by the slot's index,
//! and a first-in first-out queue of the indices of runnable tasks. Polling
//! a task hands it a [`Waker`] for its own index; waking that waker puts the
//! task back at the end of the queue. The result of a poll is not looked
//! at: a task is polled again whenever it is woken.
use vstd::prelude::*;

use crate::blocking::{Blocking, BlockingView};
use crate::reactor::{waker_registered, Reactor};

verus! {

/// Puts the task it was made for back on the scheduler's run queue.
#[derive(Clone, Copy, Debug, PartialEq, Eq, Structural)]
pub struct Waker {
    /// Index of the task in the scheduler.
    pub task: usize,
}

/// A computation that makes progress each time it is polled.
///
/// `poll` returns `Some` with the result once the computation is finished,
/// and `None` while it is not; in that case the task arranges for `waker`
/// to be woken once it can make progress. `cx` is the context the task is
/// polled in.
///
/// An implementation may say what its poll does with `poll_spec`: the
/// relation between the future and context before the poll, the waker, the
/// future and context after it, and the result. One that does not say
/// promises nothing.
pub trait Future<Cx>: Sized {
    type Output;

    /// Whether polling `self` in context `cx` with `waker` may leave the
    /// future as `after`, the context as `cx_after`, and return `out`.
    open spec fn poll_spec(
        &self,
        waker: Waker,
        cx: Cx,
        after: Self,
        cx_after: Cx,
        out: Option<Self::Output>,
    ) -> bool {
        true
    }

    fn poll(&mut self, waker: Waker, cx: &mut Cx) -> (out: Option<Self::Output>)
        ensures
            old(self).poll_spec(waker, *old(cx), *final(self), *final(cx), out),
    ;
}

/// What a task polled by the scheduler sees: the tasks it starts, the
/// reactor it registers its sockets with, and an environment of the
/// program's own.
pub struct Context<T, E> {
    spawned: Vec<T>,
    /// The reactor the tasks register their sockets with.
    pub reactor: Reactor,
    /// The program's environment.
    pub env: E,
}

impl<T, E> Context<T, E> {
    /// The program's environment.
    pub closed spec fn environment(&self) -> E {
        self.env
    }

    /// The reactor.
    pub closed spec fn reactor_state(&self) -> Reactor {
        self.reactor
    }

    /// Tasks started and not yet handed to the scheduler.
    pub closed spec fn pending(&self) -> Seq<T> {
        self.spawned@
    }

    /// A context with no pending tasks around `reactor` and `env`.
    pub fn new(reactor: Reactor, env: E) -> (cx: Self)
        ensures
            cx.pending() == Seq::<T>::empty(),
            cx.reactor_state() == reactor,
            cx.environment() == env,
    {
        Context { spawned: Vec::new(), reactor, env }
    }

    /// Starts `task`: the scheduler runs it after the poll in progress.
    pub fn spawn(&mut self, task: T)
        ensures
            final(self).pending() == old(self).pending().push(task),
            final(self).reactor_state() == old(self).reactor_state(),
            final(self).environment() == old(self).environment(),
    {
        self.spawned.push(task);
    }

    /// Removes the pending tasks, in the order they were started.
    fn take_spawned(&mut self) -> (tasks: Vec<T>)
        ensures
            tasks@ == old(self).pending(),
            final(self).pending() == Seq::<T>::empty(),
            final(self).reactor_state() == old(self).reactor_state(),
            final(self).environment() == old(self).environment(),
    {
        let mut tasks = Vec::new();
        std::mem::swap(&mut tasks, &mut self.spawned);
        tasks
    }
}

/// The run queue of tasks, polled first in, first out.
pub struct Scheduler<T> {
    tasks: Vec<Option<T>>,
    runnable: std::collections::VecDeque<usize>,
}

/// The indices `from`, `from + 1`, ..., `to - 1`.
pub open spec fn index_range(from: int, to: int) -> Seq<usize> {
    Seq::new((to - from) as nat, |i: int| (from + i) as usize)
}

/// Whether index `i` names a task that has not been dropped.
pub open spec fn names_task<T>(tasks: Seq<Option<T>>, i: usize) -> bool {
    i < tasks.len() && tasks[i as int] is Some
}

/// Whether, after a poll, something still refers to the task with index
/// `id`: the run queue, or a waker registered with the reactor.
pub open spec fn still_referenced<T, E>(queue: Seq<usize>, cx: Context<T, E>, id: usize) -> bool {
    queue.contains(id) || waker_registered(cx.reactor_state()@, id)
}

/// The tasks, the run queue and the context at one moment.
pub struct Snapshot<T, E> {
    pub tasks: Seq<Option<T>>,
    pub queue: Seq<usize>,
    pub cx: Context<T, E>,
}

/// From `a` to `b`, the tasks started through the context are given the
/// next slots, in the order they were started, and queued in that order.
pub open spec fn adopted<T, E>(a: Snapshot<T, E>, b: Snapshot<T, E>) -> bool {
    &&& b.tasks == a.tasks + a.cx.pending().map_values(|t: T| Some(t))
    &&& b.queue == a.queue + index_range(a.tasks.len() as int, b.tasks.len() as int)
    &&& b.cx.pending() == Seq::<T>::empty()
    &&& b.cx.reactor_state() == a.cx.reactor_state()
    &&& b.cx.environment() == a.cx.environment()
}

/// From `a` to `b`, the task at the front of the queue is taken off it and
/// polled once, with a waker for its own index, in the context. Whatever
/// the poll returned, the task then stays in its slot as the poll left it
/// if something still refers to it, and is dropped otherwise; nothing is
/// queued again, and the tasks the poll started are adopted.
pub open spec fn polled_front<T: Future<Context<T, E>>, E>(
    a: Snapshot<T, E>,
    b: Snapshot<T, E>,
) -> bool {
    &&& a.queue.len() > 0
    &&& names_task(a.tasks, a.queue[0])
    &&& exists|after: T, cx_mid: Context<T, E>, out: Option<T::Output>|
        {
            &&& #[trigger] a.tasks[a.queue[0] as int]->Some_0.poll_spec(
                Waker { task: a.queue[0] },
                a.cx,
                after,
                cx_mid,
                out,
            )
            &&& adopted(
                Snapshot {
                    tasks: a.tasks.update(
                        a.queue[0] as int,
                        if still_referenced(a.queue.drop_first(), cx_mid, a.queue[0]) {
                            Some(after)
                        } else {
                            None
                        },
                    ),
                    queue: a.queue.drop_first(),
                    cx: cx_mid,
                },
                b,
            )
        }
}

/// Each snapshot of `trace` follows from the one before by [`polled_front`].
pub open spec fn polls_in_order<T: Future<Context<T, E>>, E>(trace: Seq<Snapshot<T, E>>) -> bool {
    forall|k: int| 0 <= k < trace.len() - 1 ==> #[trigger] polled_front(trace[k], trace[k + 1])
}

/// One poll of the front task: the queue loses its front index and gains,
/// at its back and in order, the indices of the tasks the poll started,
/// which take the next slots; every other task is left as it was; and the
/// polled task is kept exactly when its index is still queued or a waker
/// for it is registered with the reactor after the poll.
pub proof fn lemma_poll_keeps_exactly_the_referenced_task<T: Future<Context<T, E>>, E>(
    a: Snapshot<T, E>,
    b: Snapshot<T, E>,
)
    requires
        polled_front(a, b),
    ensures
        ({
            let id = a.queue[0];
            &&& b.tasks.len() >= a.tasks.len()
            &&& b.queue == a.queue.drop_first() + index_range(a.tasks.len() as int, b.tasks.len() as int)
            &&& (b.tasks[id as int] is Some <==> (a.queue.drop_first().contains(id) || waker_registered(
                b.cx.reactor_state()@,
                id,
            )))
            &&& forall|j: int| 0 <= j < a.tasks.len() && j != id ==> #[trigger] b.tasks[j] == a.tasks[j]
            &&& forall|j: int| a.tasks.len() <= j < b.tasks.len() ==> #[trigger] b.tasks[j] is Some
            &&& b.cx.pending() == Seq::<T>::empty()
        }),
{
    let id = a.queue[0];
    let (after, cx_mid, out) = choose|after: T, cx_mid: Context<T, E>, out: Option<T::Output>|
        {
            &&& #[trigger] a.tasks[a.queue[0] as int]->Some_0.poll_spec(
                Waker { task: a.queue[0] },
                a.cx,
                after,
                cx_mid,
                out,
            )
            &&& adopted(
                Snapshot {
                    tasks: a.tasks.update(
                        a.queue[0] as int,
                        if still_referenced(a.queue.drop_first(), cx_mid, a.queue[0]) {
                            Some(after)
                        } else {
                            None
                        },
                    ),
                    queue: a.queue.drop_first(),
                    cx: cx_mid,
                },
                b,
            )
        };
    assert(b.tasks[id as int] == (if still_referenced(a.queue.drop_first(), cx_mid, id) {
        Some(after)
    } else {
        None::<T>
    }));
    assert forall|j: int| a.tasks.len() <= j < b.tasks.len() implies #[trigger] b.tasks[j] is Some by {
        assert(b.tasks[j] == cx_mid.pending().map_values(|t: T| Some(t))[j - a.tasks.len()]);
    }
}

/// A polled task is handed a waker for its own index: blocking work that is
/// not done, polled as a task and kept, holds the waker of its own index,
/// so that completing the work wakes that very task.
pub proof fn lemma_polled_task_is_given_its_own_waker<E>(
    a: Snapshot<Blocking, E>,
    b: Snapshot<Blocking, E>,
)
    requires
        polled_front(a, b),
        !a.tasks[a.queue[0] as int]->Some_0@.done,
        b.tasks[a.queue[0] as int] is Some,
    ensures
        b.tasks[a.queue[0] as int]->Some_0@ == (BlockingView {
            done: false,
            waker: Some(Waker { task: a.queue[0] }),
        }),
{
}

impl<T> Scheduler<T> {
    /// The task slots, in the order the tasks were given to the scheduler:
    /// `None` for a task that was dropped.
    pub closed spec fn tasks(&self) -> Seq<Option<T>> {
        self.tasks@
    }

    /// The indices of the runnable tasks, in the order they will be polled.
    pub closed spec fn queue(&self) -> Seq<usize> {
        self.runnable@
    }

    /// The indices of the tasks not dropped.
    pub open spec fn live(&self) -> Set<usize> {
        Set::new(|i: usize| names_task(self.tasks(), i))
    }

    /// Every queued index names a task that has not been dropped.
    pub open spec fn wf(&self) -> bool {
        forall|i: int| 0 <= i < self.queue().len() ==> names_task(self.tasks(), #[trigger] self.queue()[i])
    }

    /// The scheduler and `cx` as a snapshot.
    pub open spec fn snapshot<E>(&self, cx: Context<T, E>) -> Snapshot<T, E> {
        Snapshot { tasks: self.tasks(), queue: self.queue(), cx }
    }

    /// A scheduler with no tasks.
    pub fn new() -> (s: Self)
        ensures
            s.tasks() == Seq::<Option<T>>::empty(),
            s.queue() == Seq::<usize>::empty(),
            s.wf(),
    {
        Scheduler { tasks: Vec::new(), runnable: std::collections::VecDeque::new() }
    }

    /// Number of task slots, that is the index the next spawned task gets.
    pub fn num_tasks(&self) -> (n: usize)
        ensures
            n == self.tasks().len(),
    {
        self.tasks.len()
    }

    /// Whether the task with index `id` is still held (not dropped).
    pub fn is_live(&self, id: usize) -> (r: bool)
        ensures
            r == names_task(self.tasks(), id),
    {
        id < self.tasks.len() && self.tasks[id].is_some()
    }

    /// Whether a task is waiting to be polled.
    pub fn has_runnable(&self) -> (r: bool)
        ensures
            r == (self.queue().len() > 0),
    {
        self.runnable.len() > 0
    }

    /// The indices of the runnable tasks, in order.
    pub fn runnable(&self) -> (q: Vec<usize>)
        ensures
            q@ == self.queue(),
    {
        let mut q = Vec::new();
        let n = self.runnable.len();
        for i in 0..n
            invariant
                n == self.queue().len(),
                q@ == self.queue().take(i as int),
        {
            q.push(self.runnable[i]);
            assert(self.queue().take(i + 1) =~= self.queue().take(i as int).push(self.queue()[i as int]));
        }
        assert(self.queue().take(n as int) =~= self.queue());
        q
    }

    /// Whether index `id` is in the run queue.
    fn is_queued(&self, id: usize) -> (r: bool)
        ensures
            r == self.queue().contains(id),
    {
        let n = self.runnable.len();
        for i in 0..n
            invariant
                n == self.queue().len(),
                forall|j: int| 0 <= j < i ==> self.queue()[j] != id,
        {
            if self.runnable[i] == id {
                assert(self.queue()[i as int] == id);
                return true;
            }
        }
        false
    }

    /// Adds `task` at index `num_tasks()` and queues it to be polled after
    /// the tasks already runnable.
    pub fn spawn(&mut self, task: T)
        requires
            old(self).wf(),
        ensures
            final(self).wf(),
            final(self).tasks() == old(self).tasks().push(Some(task)),
            final(self).queue() == old(self).queue().push(old(self).tasks().len() as usize),
    {
        let id = self.tasks.len();
        self.tasks.push(Some(task));
        self.runnable.push_back(id);
        assert forall|i: int| 0 <= i < self.queue().len() implies names_task(self.tasks(), #[trigger] self.queue()[i]) by {
            if i < old(self).queue().len() {
                assert(self.queue()[i] == old(self).queue()[i]);
                assert(self.tasks()[self.queue()[i] as int] == old(self).tasks()[self.queue()[i] as int]);
            }
        }
    }

    /// Queues the task with index `id` to be polled again; an index that
    /// names no task, or a dropped one, is ignored.
    fn enqueue(&mut self, id: usize)
        requires
            old(self).wf(),
        ensures
            final(self).wf(),
            final(self).tasks() == old(self).tasks(),
            final(self).queue() == if names_task(old(self).tasks(), id) {
                old(self).queue().push(id)
            } else {
                old(self).queue()
            },
    {
        if id < self.tasks.len() && self.tasks[id].is_some() {
            self.runnable.push_back(id);
            assert forall|i: int| 0 <= i < self.queue().len() implies names_task(self.tasks(), #[trigger] self.queue()[i]) by {
                if i < old(self).queue().len() {
                    assert(self.queue()[i] == old(self).queue()[i]);
                }
            }
        }
    }

    /// Moves the tasks started through `cx` into the scheduler, in the order
    /// they were started.
    fn adopt<E>(&mut self, cx: &mut Context<T, E>)
        requires
            old(self).wf(),
        ensures
            final(self).wf(),
            adopted(old(self).snapshot(*old(cx)), final(self).snapshot(*final(cx))),
    {
        let spawned = cx.take_spawned();
        let ghost new_tasks = spawned@;
        let ghost start_tasks = self.tasks@;
        let ghost start_queue = self.runnable@;
        for task in it: spawned
            invariant
                self.wf(),
                it.seq() == new_tasks,
                self.tasks@ == start_tasks + new_tasks.take(it.index() as int).map_values(|t: T| Some(t)),
                self.runnable@ == start_queue + index_range(
                    start_tasks.len() as int,
                    start_tasks.len() + it.index(),
                ),
        {
            let ghost k = it.index();
            self.spawn(task);
            assert(new_tasks.take(k + 1) =~= new_tasks.take(k as int).push(task));
            assert(new_tasks.take(k + 1).map_values(|t: T| Some(t)) =~= new_tasks.take(k as int).map_values(
                |t: T| Some(t),
            ).push(Some(task)));
            assert(index_range(start_tasks.len() as int, start_tasks.len() + k + 1) =~= index_range(
                start_tasks.len() as int,
                start_tasks.len() + k,
            ).push((start_tasks.len() + k) as usize));
        }
        assert(new_tasks.take(new_tasks.len() as int) =~= new_tasks);
    }

    /// Takes the index at the front of the queue, if any, and polls its task
    /// once with a waker for that index. Whatever the poll returned, the
    /// task stays in its slot as the poll left it while something still
    /// refers to it (its index is queued again, or a waker for it is
    /// registered with the reactor) and is dropped otherwise; the tasks the
    /// poll started through `cx` are queued after the others. Returns the
    /// index polled.
    pub fn poll_one<E>(&mut self, cx: &mut Context<T, E>) -> (r: Option<usize>) where
        T: Future<Context<T, E>, Output = ()>,
        requires
            old(self).wf(),
        ensures
            final(self).wf(),
            old(self).queue().len() == 0 ==> {
                &&& r is None
                &&& final(self).tasks() == old(self).tasks()
                &&& final(self).queue() == old(self).queue()
                &&& *final(cx) == *old(cx)
            },
            old(self).queue().len() > 0 ==> {
                &&& r == Some(old(self).queue()[0])
                &&& polled_front(old(self).snapshot(*old(cx)), final(self).snapshot(*final(cx)))
            },
    {
        let ghost before = self.snapshot(*cx);
        let id = match self.runnable.pop_front() {
            Some(id) => id,
            None => return None,
        };
        assert(id == before.queue[0]);
        assert(names_task(before.tasks, id));
        let ghost tasks0 = self.tasks@;
        let mut slot: Option<T> = None;
        self.tasks.set_and_swap(id, &mut slot);
        let mut task = match slot {
            Some(task) => task,
            None => {
                proof {
                    assert(false);
                }
                return None;
            },
        };
        let ghost task0 = task;
        let out = task.poll(Waker { task: id }, cx);
        let ghost cx_mid = *cx;
        let ghost after = task;
        assert(task0.poll_spec(Waker { task: id }, before.cx, after, cx_mid, out));
        let keep = self.is_queued(id) || cx.reactor.has_waker_for(id);
        assert(self.runnable@ == before.queue.drop_first());
        assert(keep == still_referenced(before.queue.drop_first(), cx_mid, id));
        if keep {
            self.tasks.set(id, Some(task));
        }
        let ghost kept = if keep { Some(after) } else { None };
        assert(self.tasks@ =~= tasks0.update(id as int, kept));
        assert forall|i: int| 0 <= i < self.queue().len() implies names_task(self.tasks(), #[trigger] self.queue()[i]) by {
            assert(self.queue()[i] == before.queue[i + 1]);
            assert(before.queue.drop_first().contains(self.queue()[i]));
        }
        self.adopt(cx);
        proof {
            let mid = Snapshot { tasks: tasks0.update(id as int, kept), queue: before.queue.drop_first(), cx: cx_mid };
            assert(adopted(mid, self.snapshot(*cx)));
        }
        Some(id)
    }

    /// Polls, first in first out, every task that is runnable when the call
    /// begins, after queueing the tasks started through `cx` beforehand:
    /// each is taken off the queue and polled once with a waker for its own
    /// index, as [`Scheduler::poll_one`] does. Tasks a poll starts through
    /// `cx` are queued right after that poll and are polled in a later call;
    /// no polled task is queued again by the call itself. Returns the
    /// indices polled, in order.
    pub fn run<E>(&mut self, cx: &mut Context<T, E>) -> (polled: Vec<usize>) where
        T: Future<Context<T, E>, Output = ()>,
        requires
            old(self).wf(),
        ensures
            final(self).wf(),
            ({
                let start = (old(self).tasks().len() + old(cx).pending().len()) as int;
                let round = old(self).queue() + index_range(old(self).tasks().len() as int, start);
                &&& polled@ == round
                &&& forall|k: int| 0 <= k < polled@.len() ==> #[trigger] polled@[k] < final(self).tasks().len()
                &&& final(self).tasks().len() >= start
                &&& final(self).queue() == index_range(start, final(self).tasks().len() as int)
                &&& exists|trace: Seq<Snapshot<T, E>>|
                    {
                        &&& trace.len() == round.len() + 1
                        &&& adopted(old(self).snapshot(*old(cx)), trace[0])
                        &&& #[trigger] polls_in_order(trace)
                        &&& trace.last() == final(self).snapshot(*final(cx))
                    }
            }),
            final(cx).pending() == Seq::<T>::empty(),
    {
        let ghost initial = self.snapshot(*cx);
        self.adopt(cx);
        let ghost first = self.snapshot(*cx);
        let ghost start = self.tasks@.len();
        let ghost round = self.runnable@;
        let n = self.runnable.len();
        let mut polled: Vec<usize> = Vec::new();
        let ghost mut trace: Seq<Snapshot<T, E>> = seq![first];
        for i in 0..n
            invariant
                self.wf(),
                n == round.len(),
                round == first.queue,
                start == first.tasks.len(),
                forall|k: int| 0 <= k < round.len() ==> #[trigger] round[k] < start,
                self.tasks@.len() >= start,
                self.runnable@ == round.skip(i as int) + index_range(start as int, self.tasks@.len() as int),
                polled@ == round.take(i as int),
                trace.len() == i + 1,
                trace[0] == first,
                polls_in_order(trace),
                trace.last() == self.snapshot(*cx),
                cx.pending() == Seq::<T>::empty(),
        {
            let ghost prev = self.snapshot(*cx);
            assert(prev.queue[0] == round[i as int]);
            let r = self.poll_one(cx);
            let id = match r {
                Some(id) => id,
                None => {
                    proof {
                        assert(false);
                    }
                    return polled;
                },
            };
            polled.push(id);
            proof {
                let next = self.snapshot(*cx);
                let old_trace = trace;
                trace = trace.push(next);
                assert forall|k: int| 0 <= k < trace.len() - 1 implies #[trigger] polled_front(trace[k], trace[k + 1]) by {
                    if k < old_trace.len() - 1 {
                        assert(trace[k] == old_trace[k] && trace[k + 1] == old_trace[k + 1]);
                    } else {
                        assert(trace[k] == prev && trace[k + 1] == next);
                    }
                }
                assert(round.take(i + 1) =~= round.take(i as int).push(id));
                assert(self.runnable@ =~= round.skip(i + 1) + index_range(start as int, self.tasks@.len() as int)) by {
                    assert(round.skip(i as int).skip(1) =~= round.skip(i + 1));
                    assert(prev.queue.drop_first() =~= round.skip(i + 1) + index_range(start as int, prev.tasks.len() as int));
                    assert(index_range(start as int, prev.tasks.len() as int) + index_range(prev.tasks.len() as int, self.tasks@.len() as int)
                        =~= index_range(start as int, self.tasks@.len() as int));
                };
            }
        }
        proof {
            assert(round.take(n as int) =~= round);
            assert(round.skip(n as int) =~= Seq::<usize>::empty());
            assert(self.runnable@ =~= index_range(start as int, self.tasks@.len() as int));
            assert(adopted(initial, trace[0]));
            assert(polls_in_order(trace));
        }
        polled
    }
}

impl Waker {
    /// Puts the task this waker was made for at the end of `scheduler`'s run
    /// queue (a waker for an index that names no task, or a dropped one,
    /// does nothing).
    pub fn wake<T>(&self, scheduler: &mut Scheduler<T>)
        requires
            old(scheduler).wf(),
        ensures
            final(scheduler).wf(),
            final(scheduler).tasks() == old(scheduler).tasks(),
            final(scheduler).queue() == if names_task(old(scheduler).tasks(), self.task) {
                old(scheduler).queue().push(self.task)
            } else {
                old(scheduler).queue()
            },
    {
        scheduler.enqueue(self.task);
    }
}

} // verus!
