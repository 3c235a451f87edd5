//! The listening task of the futures server as a state machine.
//!
//! On its first poll the task binds the listening socket and registers it
//! for readiness notifications; on every poll it then tries to accept one
//! connection, starts a handler task for it, and waits to be woken again.
//! It never finishes.
use vstd::prelude::*;

verus! {

/// Where the listening task stands.
#[derive(Clone, Copy, Debug, PartialEq, Eq, Structural)]
pub enum ListenState {
    /// The socket is not bound yet.
    Start,
    /// The socket is bound and registered; connections are accepted.
    Accept,
}

/// The outcome of the operation the last [`ListenAction`] asked for.
#[derive(Clone, Copy, Debug, PartialEq, Eq, Structural)]
pub enum ListenEvent {
    /// The socket was bound, made non-blocking and registered.
    Bound,
    /// A connection was accepted (and made non-blocking).
    Accepted,
    /// No connection is waiting.
    WouldBlock,
}

/// What the program should do next for the listening task.
#[derive(Clone, Copy, Debug, PartialEq, Eq, Structural)]
pub enum ListenAction {
    /// Bind the socket, make it non-blocking and register it.
    Bind,
    /// Try to accept a connection.
    Accept,
    /// Start a handler task for the accepted connection; the poll is over.
    Spawn,
    /// Nothing to accept; the poll is over.
    Yield,
}

/// What a poll of the listening task starts with.
pub open spec fn listen_first(s: ListenState) -> ListenAction {
    match s {
        ListenState::Start => ListenAction::Bind,
        ListenState::Accept => ListenAction::Accept,
    }
}

/// The events that can follow from the action a state asks for.
pub open spec fn listen_accepts(s: ListenState, e: ListenEvent) -> bool {
    match s {
        ListenState::Start => e == ListenEvent::Bound,
        ListenState::Accept => e != ListenEvent::Bound,
    }
}

/// The transition table of the listening task.
pub open spec fn listen_next(s: ListenState, e: ListenEvent) -> (ListenState, ListenAction) {
    match e {
        ListenEvent::Bound => (ListenState::Accept, ListenAction::Accept),
        ListenEvent::Accepted => (ListenState::Accept, ListenAction::Spawn),
        ListenEvent::WouldBlock => (ListenState::Accept, ListenAction::Yield),
    }
}

impl ListenState {
    /// A listening task that has not bound its socket yet.
    pub fn new() -> (s: Self)
        ensures
            s == ListenState::Start,
    {
        ListenState::Start
    }

    /// The first thing to do when the task is polled.
    pub fn first_action(&self) -> (a: ListenAction)
        ensures
            a == listen_first(*self),
    {
        match self {
            ListenState::Start => ListenAction::Bind,
            ListenState::Accept => ListenAction::Accept,
        }
    }

    /// Advances the task by the outcome of the last operation.
    pub fn step(&mut self, event: ListenEvent) -> (a: ListenAction)
        requires
            listen_accepts(*old(self), event),
        ensures
            (*final(self), a) == listen_next(*old(self), event),
    {
        *self = ListenState::Accept;
        match event {
            ListenEvent::Bound => ListenAction::Accept,
            ListenEvent::Accepted => ListenAction::Spawn,
            ListenEvent::WouldBlock => ListenAction::Yield,
        }
    }
}

/// A poll of the listening task accepts at most one connection, and the
/// task never finishes: after binding it accepts, an accepted connection
/// gets a handler and ends the poll, and no waiting connection ends the
/// poll.
pub proof fn lemma_one_accept_per_poll(s: ListenState, e: ListenEvent)
    requires
        listen_accepts(s, e),
    ensures
        listen_next(s, e).0 == ListenState::Accept,
        e == ListenEvent::Bound ==> listen_next(s, e).1 == ListenAction::Accept,
        e == ListenEvent::Accepted ==> listen_next(s, e).1 == ListenAction::Spawn,
        e == ListenEvent::WouldBlock ==> listen_next(s, e).1 == ListenAction::Yield,
{
}

/// The first poll binds the socket, and every later poll starts by
/// accepting; binding happens only from the start.
pub proof fn lemma_bind_once(s: ListenState, e: ListenEvent)
    requires
        listen_accepts(s, e),
    ensures
        listen_first(ListenState::Start) == ListenAction::Bind,
        listen_first(listen_next(s, e).0) == ListenAction::Accept,
        listen_accepts(ListenState::Start, ListenEvent::Bound),
        !listen_accepts(ListenState::Accept, ListenEvent::Bound),
        listen_accepts(ListenState::Accept, ListenEvent::Accepted),
        listen_accepts(ListenState::Accept, ListenEvent::WouldBlock),
{
}

} // verus!
