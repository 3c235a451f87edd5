//! The reactor: which task to wake when a file descriptor becomes ready.
//!
//! The program registers each descriptor with epoll and here, together
//! with the waker of the task waiting on it; when epoll reports descriptors
//! ready, [`Reactor::wait`] wakes the tasks registered for them.
use vstd::prelude::*;

use crate::runtime::{Scheduler, Waker};
use std::collections::HashMap;

verus! {

broadcast use vstd::std_specs::hash::group_hash_axioms;

/// Wakers of the tasks waiting on each registered file descriptor.
pub struct Reactor {
    epoll: i32,
    tasks: HashMap<i32, Waker>,
}

impl View for Reactor {
    type V = Map<i32, Waker>;

    closed spec fn view(&self) -> Map<i32, Waker> {
        self.tasks@
    }
}

/// The tasks woken, in order, when the descriptors `ready` are reported
/// ready to a reactor with registrations `registered`, `live` being the
/// indices of the scheduler's tasks: the task of each registered
/// descriptor, once per report; unregistered descriptors and wakers for no
/// task wake nothing.
pub open spec fn woken(registered: Map<i32, Waker>, ready: Seq<i32>, live: Set<usize>) -> Seq<usize>
    decreases ready.len(),
{
    if ready.len() == 0 {
        Seq::empty()
    } else {
        let earlier = woken(registered, ready.drop_last(), live);
        let fd = ready.last();
        if registered.contains_key(fd) && live.contains(registered[fd].task) {
            earlier.push(registered[fd].task)
        } else {
            earlier
        }
    }
}

/// Whether some descriptor is registered with a waker for `task`.
pub open spec fn waker_registered(registered: Map<i32, Waker>, task: usize) -> bool {
    exists|fd: i32| registered.contains_key(fd) && #[trigger] registered[fd].task == task
}

/// No waker is registered with an empty reactor, and after registering `waker`
/// for `fd` a waker for a task is registered exactly when it is `waker`'s
/// task or was registered for another descriptor.
pub proof fn lemma_waker_registered_after_add(
    registered: Map<i32, Waker>,
    fd: i32,
    waker: Waker,
    task: usize,
)
    ensures
        !waker_registered(Map::<i32, Waker>::empty(), task),
        waker_registered(registered.insert(fd, waker), task) <==> (waker.task == task || waker_registered(
            registered.remove(fd),
            task,
        )),
{
    let m = registered.insert(fd, waker);
    if waker_registered(m, task) && waker.task != task {
        let f = choose|f: i32| m.contains_key(f) && #[trigger] m[f].task == task;
        assert(f != fd);
        assert(registered.remove(fd).contains_key(f) && registered.remove(fd)[f].task == task);
    }
    if waker.task == task {
        assert(m.contains_key(fd) && m[fd].task == task);
    }
    if waker_registered(registered.remove(fd), task) {
        let f = choose|f: i32| registered.remove(fd).contains_key(f) && #[trigger] registered.remove(fd)[f].task == task;
        assert(m.contains_key(f) && m[f].task == task);
    }
}

impl Reactor {
    /// The epoll instance the descriptors are registered with.
    pub closed spec fn epoll_fd(&self) -> i32 {
        self.epoll
    }

    /// A reactor for the epoll instance `epoll`, with nothing registered.
    pub fn new(epoll: i32) -> (r: Reactor)
        ensures
            r@ == Map::<i32, Waker>::empty(),
            r.epoll_fd() == epoll,
    {
        Reactor { epoll, tasks: HashMap::new() }
    }

    /// The epoll instance the descriptors are registered with.
    pub fn epoll(&self) -> (fd: i32)
        ensures
            fd == self.epoll_fd(),
    {
        self.epoll
    }

    /// Registers `waker` to be woken when `fd` becomes ready, in place of
    /// any waker registered for `fd` before.
    pub fn add(&mut self, fd: i32, waker: Waker)
        ensures
            final(self)@ == old(self)@.insert(fd, waker),
            final(self).epoll_fd() == old(self).epoll_fd(),
    {
        self.tasks.insert(fd, waker);
    }

    /// Whether a waker for the task with index `task` is registered.
    pub fn has_waker_for(&self, task: usize) -> (r: bool)
        ensures
            r == waker_registered(self@, task),
    {
        let ghost m = self.tasks@;
        let values = self.tasks.values();
        let ghost all = vstd::std_specs::iter::IteratorSpec::remaining(&values);
        assert(all.map_values(|x: &Waker| *x) =~= all.unref());
        for w in it: values
            invariant
                m == self.tasks@,
                it.seq() == all,
                all.map_values(|x: &Waker| *x).to_set() == m.values(),
                forall|j: int| 0 <= j < it.index() ==> #[trigger] it.seq()[j].task != task,
        {
            if w.task == task {
                proof {
                    let j = it.index() as int;
                    assert(all[j] == w);
                    assert(all.map_values(|x: &Waker| *x)[j] == *w);
                    assert(all.map_values(|x: &Waker| *x).contains(*w));
                    assert(m.values().contains(*w));
                    let fd = choose|fd: i32| m.contains_key(fd) && m[fd] == *w;
                }
                return true;
            }
        }
        proof {
            if waker_registered(m, task) {
                let fd = choose|fd: i32| m.contains_key(fd) && #[trigger] m[fd].task == task;
                assert(m.values().contains(m[fd]));
                let s = all.map_values(|x: &Waker| *x);
                assert(s.to_set().contains(m[fd]));
                let j = choose|j: int| 0 <= j < s.len() && s[j] == m[fd];
                assert(all[j].task == task);
            }
        }
        false
    }

    /// Forgets `fd`: it no longer wakes any task.
    pub fn remove(&mut self, fd: i32)
        ensures
            final(self)@ == old(self)@.remove(fd),
            final(self).epoll_fd() == old(self).epoll_fd(),
    {
        self.tasks.remove(&fd);
    }

    /// Drives tasks forward once epoll has reported the descriptors `ready`:
    /// wakes, in the order reported, the task registered for each of them.
    pub fn wait<T>(&self, ready: &[i32], scheduler: &mut Scheduler<T>)
        requires
            old(scheduler).wf(),
        ensures
            final(scheduler).wf(),
            final(scheduler).tasks() == old(scheduler).tasks(),
            final(scheduler).queue() == old(scheduler).queue() + woken(
                self@,
                ready@,
                old(scheduler).live(),
            ),
    {
        let ghost q0 = scheduler.queue();
        let ghost live = scheduler.live();
        let n = ready.len();
        for i in 0..n
            invariant
                n == ready@.len(),
                scheduler.wf(),
                live == old(scheduler).live(),
                scheduler.tasks() == old(scheduler).tasks(),
                scheduler.queue() == q0 + woken(self@, ready@.take(i as int), live),
        {
            let fd = ready[i];
            assert(ready@.take(i + 1).drop_last() =~= ready@.take(i as int));
            assert(ready@.take(i + 1).last() == fd);
            match self.tasks.get(&fd) {
                Some(waker) => {
                    waker.wake(scheduler);
                    assert(scheduler.queue() =~= q0 + woken(self@, ready@.take(i + 1), live));
                },
                None => {},
            }
        }
        assert(ready@.take(n as int) =~= ready@);
    }
}

/// Read after write: once `waker` is registered for `fd`, a report that
/// `fd` is ready wakes exactly that waker's task.
pub proof fn lemma_registered_fd_wakes_its_task(
    registered: Map<i32, Waker>,
    fd: i32,
    waker: Waker,
    live: Set<usize>,
)
    requires
        live.contains(waker.task),
    ensures
        woken(registered.insert(fd, waker), seq![fd], live) == seq![waker.task],
{
    let m = registered.insert(fd, waker);
    assert(seq![fd].drop_last() =~= Seq::<i32>::empty());
    assert(seq![fd].last() == fd);
    assert(woken(m, Seq::<i32>::empty(), live) == Seq::<usize>::empty());
    assert(m.contains_key(fd) && m[fd] == waker);
    assert(Seq::<usize>::empty().push(waker.task) =~= seq![waker.task]);
}

/// Once `fd` is removed, a report that it is ready wakes nothing.
pub proof fn lemma_removed_fd_wakes_nothing(registered: Map<i32, Waker>, fd: i32, live: Set<usize>)
    ensures
        woken(registered.remove(fd), seq![fd], live) == Seq::<usize>::empty(),
{
    assert(seq![fd].drop_last() =~= Seq::<i32>::empty());
    assert(seq![fd].last() == fd);
    assert(woken(registered.remove(fd), Seq::<i32>::empty(), live) == Seq::<usize>::empty());
    assert(!registered.remove(fd).contains_key(fd));
}

/// Reports are handled one after the other: the tasks woken by two reports
/// are those of the first followed by those of the second.
pub proof fn lemma_woken_concat(registered: Map<i32, Waker>, a: Seq<i32>, b: Seq<i32>, live: Set<usize>)
    ensures
        woken(registered, a + b, live) == woken(registered, a, live) + woken(registered, b, live),
    decreases b.len(),
{
    if b.len() == 0 {
        assert(a + b =~= a);
        assert(woken(registered, a, live) + Seq::<usize>::empty() =~= woken(registered, a, live));
    } else {
        lemma_woken_concat(registered, a, b.drop_last(), live);
        assert((a + b).drop_last() =~= a + b.drop_last());
        assert((a + b).last() == b.last());
        let fd = b.last();
        if registered.contains_key(fd) && live.contains(registered[fd].task) {
            assert(woken(registered, a, live) + woken(registered, b.drop_last(), live).push(
                registered[fd].task,
            ) =~= (woken(registered, a, live) + woken(registered, b.drop_last(), live)).push(
                registered[fd].task,
            ));
        }
    }
}

/// A descriptor reported ready among others wakes its task in its place
/// in the report: the tasks woken are those of the descriptors before it,
/// then its own, then those of the descriptors after it.
pub proof fn lemma_ready_fd_among_others_wakes_its_task(
    registered: Map<i32, Waker>,
    before: Seq<i32>,
    fd: i32,
    after: Seq<i32>,
    live: Set<usize>,
)
    requires
        registered.contains_key(fd),
        live.contains(registered[fd].task),
    ensures
        woken(registered, before + seq![fd] + after, live) == woken(registered, before, live)
            + seq![registered[fd].task] + woken(registered, after, live),
{
    let w = registered[fd];
    lemma_woken_concat(registered, before + seq![fd], after, live);
    lemma_woken_concat(registered, before, seq![fd], live);
    assert(registered.insert(fd, w) =~= registered);
    lemma_registered_fd_wakes_its_task(registered, fd, w, live);
}

/// Once `fd` is removed, reporting it ready among other descriptors wakes
/// only the tasks of the others.
pub proof fn lemma_removed_fd_among_others_wakes_nothing(
    registered: Map<i32, Waker>,
    before: Seq<i32>,
    fd: i32,
    after: Seq<i32>,
    live: Set<usize>,
)
    ensures
        woken(registered.remove(fd), before + seq![fd] + after, live) == woken(
            registered.remove(fd),
            before,
            live,
        ) + woken(registered.remove(fd), after, live),
{
    let m = registered.remove(fd);
    lemma_woken_concat(m, before + seq![fd], after, live);
    lemma_woken_concat(m, before, seq![fd], live);
    lemma_removed_fd_wakes_nothing(registered, fd, live);
    assert(woken(m, before, live) + Seq::<usize>::empty() =~= woken(m, before, live));
}

} // verus!
