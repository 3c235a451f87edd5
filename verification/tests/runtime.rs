use async_server::blocking::Blocking;
use async_server::reactor::Reactor;
use async_server::runtime::{Context, Future, Scheduler, Waker};
use async_server::select::{select, Either, Select};

/// What the test tasks record.
#[derive(Default)]
struct Log {
    polls: Vec<(u32, usize)>,
}

/// A task that finishes after a given number of polls, may start a child
/// task on its first poll, and may register a waker for descriptor
/// `name` with the reactor on each poll.
struct Counter {
    name: u32,
    remaining: u32,
    child: Option<u32>,
    register: bool,
    deregister_at_end: bool,
}

impl Future<Context<Counter, Log>> for Counter {
    type Output = ();

    fn poll(&mut self, waker: Waker, cx: &mut Context<Counter, Log>) -> Option<()> {
        cx.env.polls.push((self.name, waker.task));
        if self.register {
            cx.reactor.add(self.name as i32, waker);
        }
        if let Some(child) = self.child.take() {
            cx.spawn(counter(child, 1));
        }
        if self.remaining <= 1 {
            if self.deregister_at_end {
                cx.reactor.remove(self.name as i32);
            }
            Some(())
        } else {
            self.remaining -= 1;
            None
        }
    }
}

fn counter(name: u32, remaining: u32) -> Counter {
    Counter { name, remaining, child: None, register: false, deregister_at_end: false }
}

fn registered(name: u32, remaining: u32) -> Counter {
    Counter { name, remaining, child: None, register: true, deregister_at_end: false }
}

fn context() -> Context<Counter, Log> {
    Context::new(Reactor::new(0), Log::default())
}

#[test]
fn spawn_queues_in_order() {
    let mut s: Scheduler<Counter> = Scheduler::new();
    assert!(!s.has_runnable());
    s.spawn(counter(7, 1));
    s.spawn(counter(8, 1));
    assert_eq!(s.num_tasks(), 2);
    assert_eq!(s.runnable(), vec![0, 1]);
    assert!(s.is_live(0) && s.is_live(1));
}

#[test]
fn run_polls_first_in_first_out_with_own_waker() {
    let mut s = Scheduler::new();
    s.spawn(counter(1, 1));
    s.spawn(counter(2, 2));
    s.spawn(counter(3, 1));
    let mut cx = context();
    let polled = s.run(&mut cx);
    assert_eq!(polled, vec![0, 1, 2]);
    assert_eq!(cx.env.polls, vec![(1, 0), (2, 1), (3, 2)]);
    assert!(!s.has_runnable());
    assert_eq!(s.num_tasks(), 3);
}

#[test]
fn unreferenced_task_is_dropped() {
    let mut s = Scheduler::new();
    s.spawn(counter(1, 3));
    let mut cx = context();
    s.run(&mut cx);
    // nothing refers to the task after its poll, unfinished as it is
    assert!(!s.is_live(0));
    Waker { task: 0 }.wake(&mut s);
    assert!(!s.has_runnable());
}

#[test]
fn registered_task_is_kept_and_requeued_by_its_waker() {
    let mut s = Scheduler::new();
    s.spawn(registered(1, 3));
    let mut cx = context();
    s.run(&mut cx);
    assert!(s.is_live(0));
    assert!(!s.has_runnable());
    Waker { task: 0 }.wake(&mut s);
    assert_eq!(s.runnable(), vec![0]);
    s.run(&mut cx);
    assert_eq!(cx.env.polls, vec![(1, 0), (1, 0)]);
}

#[test]
fn waker_for_no_task_does_nothing() {
    let mut s: Scheduler<Counter> = Scheduler::new();
    Waker { task: 3 }.wake(&mut s);
    assert!(!s.has_runnable());
}

#[test]
fn finished_task_is_polled_again_while_registered() {
    let mut s = Scheduler::new();
    s.spawn(registered(1, 1));
    let mut cx = context();
    s.run(&mut cx);
    assert!(s.is_live(0));
    Waker { task: 0 }.wake(&mut s);
    let polled = s.run(&mut cx);
    assert_eq!(polled, vec![0]);
    assert_eq!(cx.env.polls, vec![(1, 0), (1, 0)]);
}

#[test]
fn finished_task_is_dropped_once_deregistered() {
    let mut s = Scheduler::new();
    s.spawn(Counter { name: 4, remaining: 2, child: None, register: true, deregister_at_end: true });
    let mut cx = context();
    s.run(&mut cx);
    assert!(s.is_live(0));
    Waker { task: 0 }.wake(&mut s);
    s.run(&mut cx);
    assert!(!cx.reactor.has_waker_for(0));
    assert!(!s.is_live(0));
}

#[test]
fn poll_one_polls_the_front_task() {
    let mut s = Scheduler::new();
    s.spawn(counter(1, 2));
    s.spawn(counter(2, 2));
    let mut cx = context();
    assert_eq!(s.poll_one(&mut cx), Some(0));
    assert_eq!(s.runnable(), vec![1]);
    assert_eq!(s.poll_one(&mut cx), Some(1));
    assert_eq!(s.poll_one(&mut cx), None);
    assert_eq!(cx.env.polls, vec![(1, 0), (2, 1)]);
}

#[test]
fn task_queued_again_is_kept_until_its_last_poll() {
    let mut s = Scheduler::new();
    s.spawn(counter(1, 5));
    Waker { task: 0 }.wake(&mut s);
    Waker { task: 0 }.wake(&mut s);
    let mut cx = context();
    assert_eq!(s.run(&mut cx), vec![0, 0, 0]);
    assert_eq!(cx.env.polls, vec![(1, 0), (1, 0), (1, 0)]);
    assert!(!s.is_live(0));
}

#[test]
fn spawned_tasks_run_in_the_next_round() {
    let mut s = Scheduler::new();
    s.spawn(Counter { name: 1, remaining: 2, child: Some(9), register: false, deregister_at_end: false });
    s.spawn(counter(2, 1));
    let mut cx = context();
    assert_eq!(s.run(&mut cx), vec![0, 1]);
    assert_eq!(s.runnable(), vec![2]);
    assert_eq!(s.run(&mut cx), vec![2]);
    assert_eq!(cx.env.polls, vec![(1, 0), (2, 1), (9, 2)]);
}

#[test]
fn tasks_spawned_through_the_context_beforehand_run_first() {
    let mut s = Scheduler::new();
    s.spawn(counter(1, 1));
    let mut cx = context();
    cx.spawn(counter(5, 1));
    assert_eq!(s.run(&mut cx), vec![0, 1]);
    assert_eq!(cx.env.polls, vec![(1, 0), (5, 1)]);
}

#[test]
fn reactor_wakes_registered_tasks_in_report_order() {
    let mut s = Scheduler::new();
    s.spawn(counter(1, 5));
    s.spawn(counter(2, 5));
    let mut r = Reactor::new(42);
    assert_eq!(r.epoll(), 42);
    r.add(5, Waker { task: 0 });
    r.add(6, Waker { task: 1 });
    r.wait(&[6, 7, 5], &mut s);
    assert_eq!(s.runnable(), vec![0, 1, 1, 0]);
}

#[test]
fn reactor_reports_registration() {
    let mut r = Reactor::new(3);
    assert!(!r.has_waker_for(2));
    r.add(5, Waker { task: 2 });
    assert!(r.has_waker_for(2));
    r.remove(5);
    assert!(!r.has_waker_for(2));
}

#[test]
fn reactor_replaces_and_removes() {
    let mut s = Scheduler::new();
    s.spawn(counter(1, 5));
    s.spawn(counter(2, 5));
    let mut r = Reactor::new(3);
    r.add(5, Waker { task: 0 });
    r.add(5, Waker { task: 1 });
    r.wait(&[5], &mut s);
    assert_eq!(s.runnable(), vec![0, 1, 1]);
    r.remove(5);
    r.wait(&[5], &mut s);
    assert_eq!(s.runnable(), vec![0, 1, 1]);
}

#[test]
fn reactor_wakes_fd_among_others() {
    let mut s = Scheduler::new();
    s.spawn(counter(1, 5));
    let mut r = Reactor::new(3);
    r.add(9, Waker { task: 0 });
    r.wait(&[1, 2, 9, 4], &mut s);
    assert_eq!(s.runnable(), vec![0, 0]);
}

#[test]
fn reactor_ignores_wakers_for_no_task() {
    let mut s: Scheduler<Counter> = Scheduler::new();
    let mut r = Reactor::new(3);
    r.add(5, Waker { task: 9 });
    r.wait(&[5], &mut s);
    assert!(!s.has_runnable());
}

#[test]
fn reactor_ignores_wakers_for_dropped_tasks() {
    let mut s = Scheduler::new();
    s.spawn(counter(1, 5));
    let mut cx = context();
    s.run(&mut cx);
    assert!(!s.is_live(0));
    let mut r = Reactor::new(3);
    r.add(5, Waker { task: 0 });
    r.wait(&[5], &mut s);
    assert!(!s.has_runnable());
}

struct Ready(u32);
struct Never(u32);

impl Future<u32> for Ready {
    type Output = u32;
    fn poll(&mut self, _waker: Waker, cx: &mut u32) -> Option<u32> {
        *cx += 1;
        Some(self.0)
    }
}

impl Future<u32> for Never {
    type Output = u32;
    fn poll(&mut self, _waker: Waker, cx: &mut u32) -> Option<u32> {
        *cx += 100;
        self.0 += 1;
        None
    }
}

#[test]
fn select_left_wins_without_polling_right() {
    let mut s = select(Ready(4), Never(0));
    let mut polls = 0u32;
    let r = s.poll(Waker { task: 0 }, &mut polls);
    assert_eq!(r, Some(Either::Left(4)));
    assert_eq!(polls, 1);
    assert_eq!(s.right.0, 0);
}

#[test]
fn select_right_wins_when_left_pending() {
    let mut s: Select<Never, Ready> = select(Never(0), Ready(8));
    let mut polls = 0u32;
    assert_eq!(s.poll(Waker { task: 0 }, &mut polls), Some(Either::Right(8)));
    assert_eq!(polls, 101);
}

#[test]
fn select_pending_when_both_pending() {
    let mut s = select(Never(0), Never(0));
    let mut polls = 0u32;
    assert_eq!(s.poll(Waker { task: 0 }, &mut polls), None);
    assert_eq!(polls, 200);
    assert_eq!(s.left.0, 1);
    assert_eq!(s.right.0, 1);
}

#[test]
fn blocking_wakes_waiting_task_once() {
    let mut b = Blocking::new();
    assert_eq!(b.poll(Waker { task: 3 }), None);
    assert!(!b.is_done());
    assert_eq!(b.complete(), Some(Waker { task: 3 }));
    assert!(b.is_done());
    assert_eq!(b.complete(), None);
    assert_eq!(b.poll(Waker { task: 4 }), Some(()));
}

#[test]
fn blocking_wakes_last_poller() {
    let mut b = Blocking::new();
    b.poll(Waker { task: 1 });
    b.poll(Waker { task: 2 });
    assert_eq!(b.complete(), Some(Waker { task: 2 }));
}

#[test]
fn blocking_completed_before_poll() {
    let mut b = Blocking::new();
    assert_eq!(b.complete(), None);
    assert_eq!(b.poll(Waker { task: 1 }), Some(()));
}
