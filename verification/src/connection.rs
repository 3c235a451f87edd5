//! The life of one client connection as a state machine.
//!
//! A connection reads the request into a buffer of [`REQUEST_CAPACITY`]
//! bytes until the bytes received end with the empty line `\r\n\r\n`, then
//! writes the fixed response, then flushes the socket. The program performs
//! each socket operation and reports its outcome as an [`Event`];
//! [`ConnectionState::step`] decides the next state and tells the program
//! what to do next with an [`Action`].
//!
//! The servers agree on reading, on writing and on detecting the end of the
//! request; they differ, by their [`Style`], in what they do when a socket
//! is not ready, when a read or a write returns zero bytes, and once the
//! response is written.
use vstd::prelude::*;

use crate::http::{
    capitalized_response_bytes, is_complete, response_bytes, response_len, REQUEST_CAPACITY,
};

verus! {

/// How a server drives a connection.
#[derive(Clone, Copy, Debug, PartialEq, Eq, Structural)]
pub enum Style {
    /// A server that goes over the connections epoll reports ready: it
    /// moves on from a socket that is not ready, ends the connection on a
    /// zero-byte read or write, and flushes after the response.
    Polling,
    /// A server that goes over all its connections in a busy loop: as
    /// [`Style::Polling`], but its greeting is capitalized.
    Scanning,
    /// A handler that blocks or awaits on one connection: as [`Style::Polling`],
    /// but it ends once the response is written, without a flush.
    Sequential,
    /// The handler task of the futures server: it retries a write that
    /// would block or accepted nothing, stops in the flush stage without
    /// flushing, and on a zero-byte read finishes with its state unchanged.
    Handler,
    /// The chained handler task: a zero-byte read goes on to write the
    /// response, a zero-byte write goes on to the flush, and after the flush
    /// the socket is deregistered.
    Chained,
}

/// Where a connection stands.
#[derive(Debug, PartialEq, Eq)]
pub enum ConnectionState {
    /// Not yet registered for readiness notifications.
    Start,
    /// Reading the request; `request` holds the bytes received so far.
    Read { request: Vec<u8> },
    /// Writing the response; `written` bytes of it have been sent.
    Write { written: usize },
    /// The whole response has been written; the socket is to be flushed.
    Flush,
    /// The connection is finished, normally or because the client went away.
    Closed,
}

/// The outcome of the operation that the last [`Action`] asked for.
#[derive(Debug, PartialEq, Eq)]
pub enum Event {
    /// The socket was registered for readiness notifications.
    Registered,
    /// A read returned these bytes (at least one).
    Received(Vec<u8>),
    /// A write accepted this many bytes (at least one).
    Wrote(usize),
    /// A flush succeeded.
    Flushed,
    /// A read or write returned zero bytes.
    Eof,
    /// The socket is not ready; the operation would block.
    WouldBlock,
}

/// What the program should do next with the connection.
#[derive(Debug, PartialEq, Eq)]
pub enum Action {
    /// Register the socket for readiness notifications.
    Register,
    /// Read into a buffer of `capacity` bytes.
    Read { capacity: usize },
    /// The request is complete (here are its bytes); start writing the
    /// response from its first byte.
    Respond { request: Vec<u8> },
    /// Write the response from byte `offset` on.
    Write { offset: usize },
    /// Flush the socket.
    Flush,
    /// Not ready: leave the connection until it is ready again.
    Yield,
    /// The response was delivered; the connection is done.
    Complete,
    /// The response was delivered; deregister the socket, and the
    /// connection is done.
    Deregister,
    /// The client went away before the exchange finished.
    Disconnect,
}

/// Mathematical value of a [`ConnectionState`].
pub enum StateView {
    Start,
    Read(Seq<u8>),
    Write(nat),
    Flush,
    Closed,
}

/// Mathematical value of an [`Event`].
pub enum EventView {
    Registered,
    Received(Seq<u8>),
    Wrote(nat),
    Flushed,
    Eof,
    WouldBlock,
}

/// Mathematical value of an [`Action`].
pub enum ActionView {
    Register,
    Read(nat),
    Respond(Seq<u8>),
    Write(nat),
    Flush,
    Yield,
    Complete,
    Deregister,
    Disconnect,
}

impl View for ConnectionState {
    type V = StateView;

    open spec fn view(&self) -> StateView {
        match self {
            ConnectionState::Start => StateView::Start,
            ConnectionState::Read { request } => StateView::Read(request@),
            ConnectionState::Write { written } => StateView::Write(*written as nat),
            ConnectionState::Flush => StateView::Flush,
            ConnectionState::Closed => StateView::Closed,
        }
    }
}

impl View for Event {
    type V = EventView;

    open spec fn view(&self) -> EventView {
        match self {
            Event::Registered => EventView::Registered,
            Event::Received(bytes) => EventView::Received(bytes@),
            Event::Wrote(n) => EventView::Wrote(*n as nat),
            Event::Flushed => EventView::Flushed,
            Event::Eof => EventView::Eof,
            Event::WouldBlock => EventView::WouldBlock,
        }
    }
}

impl View for Action {
    type V = ActionView;

    open spec fn view(&self) -> ActionView {
        match self {
            Action::Register => ActionView::Register,
            Action::Read { capacity } => ActionView::Read(*capacity as nat),
            Action::Respond { request } => ActionView::Respond(request@),
            Action::Write { offset } => ActionView::Write(*offset as nat),
            Action::Flush => ActionView::Flush,
            Action::Yield => ActionView::Yield,
            Action::Complete => ActionView::Complete,
            Action::Deregister => ActionView::Deregister,
            Action::Disconnect => ActionView::Disconnect,
        }
    }
}

/// The states a connection can be in: a request being read fits the buffer
/// and is not complete yet (else the connection would have moved on), and a
/// response being written has not been written entirely.
pub open spec fn state_wf(s: StateView) -> bool {
    match s {
        StateView::Read(request) => request.len() <= REQUEST_CAPACITY && !is_complete(request),
        StateView::Write(written) => written < response_len(),
        _ => true,
    }
}

/// The events that can follow from the action a state asks for: a read
/// never returns more bytes than the buffer it was given, a write never
/// accepts more bytes than it was given; the futures server's handler never
/// does anything in the flush stage, and a closed connection receives no
/// more events.
pub open spec fn accepts(style: Style, s: StateView, e: EventView) -> bool {
    match s {
        StateView::Start => e == EventView::Registered,
        StateView::Read(request) => match e {
            EventView::Received(bytes) => 0 < bytes.len() <= REQUEST_CAPACITY - request.len(),
            EventView::Eof => true,
            EventView::WouldBlock => true,
            _ => false,
        },
        StateView::Write(written) => match e {
            EventView::Wrote(n) => 0 < n <= response_len() - written,
            EventView::Eof => true,
            EventView::WouldBlock => true,
            _ => false,
        },
        StateView::Flush => style != Style::Handler && match e {
            EventView::Flushed => true,
            EventView::WouldBlock => true,
            _ => false,
        },
        StateView::Closed => false,
    }
}

/// The transition table of a connection: the next state and the action for
/// the program, given how the server drives it, the current state and the
/// outcome of the last operation.
pub open spec fn next(style: Style, s: StateView, e: EventView) -> (StateView, ActionView) {
    match s {
        StateView::Start => match e {
            EventView::Registered => (
                StateView::Read(Seq::empty()),
                ActionView::Read(REQUEST_CAPACITY as nat),
            ),
            _ => (s, ActionView::Yield),
        },
        StateView::Read(request) => match e {
            EventView::Received(bytes) => {
                let r = request + bytes;
                if is_complete(r) {
                    (StateView::Write(0), ActionView::Respond(r))
                } else {
                    (StateView::Read(r), ActionView::Read((REQUEST_CAPACITY - r.len()) as nat))
                }
            },
            EventView::Eof => match style {
                Style::Handler => (s, ActionView::Disconnect),
                Style::Chained => (StateView::Write(0), ActionView::Write(0)),
                _ => (StateView::Closed, ActionView::Disconnect),
            },
            _ => (s, ActionView::Yield),
        },
        StateView::Write(written) => match e {
            EventView::Wrote(n) => {
                let w = written + n;
                if w == response_len() {
                    match style {
                        Style::Sequential => (StateView::Closed, ActionView::Complete),
                        Style::Handler => (StateView::Flush, ActionView::Yield),
                        _ => (StateView::Flush, ActionView::Flush),
                    }
                } else {
                    (StateView::Write(w), ActionView::Write(w))
                }
            },
            EventView::Eof => match style {
                Style::Handler => (s, ActionView::Write(written)),
                Style::Chained => (StateView::Flush, ActionView::Flush),
                _ => (StateView::Closed, ActionView::Disconnect),
            },
            _ => match style {
                Style::Handler => (s, ActionView::Write(written)),
                _ => (s, ActionView::Yield),
            },
        },
        StateView::Flush => match e {
            EventView::Flushed => match style {
                Style::Chained => (StateView::Closed, ActionView::Deregister),
                _ => (StateView::Closed, ActionView::Complete),
            },
            _ => (s, ActionView::Yield),
        },
        StateView::Closed => (s, ActionView::Yield),
    }
}

/// The response a server driving connections the way `style` says sends.
pub open spec fn style_response(style: Style) -> Seq<u8> {
    if style == Style::Scanning {
        capitalized_response_bytes()
    } else {
        response_bytes()
    }
}

/// The response sent by a server that drives its connections the way
/// `style` says.
pub fn response_for(style: Style) -> (r: &'static [u8])
    ensures
        r@ == style_response(style),
        r@.len() == response_len(),
{
    proof {
        crate::http::lemma_capitalized_response_layout();
    }
    match style {
        Style::Scanning => crate::http::capitalized_response(),
        _ => crate::http::response(),
    }
}

/// What a connection in state `s` asks for when the program comes back to
/// it: register a fresh socket, read into what is left of the buffer, write
/// the rest of the response, or flush; the futures server's handler does
/// nothing more once in the flush stage, and a closed connection nothing.
pub open spec fn resume_action(style: Style, s: StateView) -> ActionView {
    match s {
        StateView::Start => ActionView::Register,
        StateView::Read(request) => ActionView::Read((REQUEST_CAPACITY - request.len()) as nat),
        StateView::Write(written) => ActionView::Write(written),
        StateView::Flush => if style == Style::Handler {
            ActionView::Yield
        } else {
            ActionView::Flush
        },
        StateView::Closed => ActionView::Yield,
    }
}

/// The state reached from `s` after the events `events`, in order.
pub open spec fn replay(style: Style, s: StateView, events: Seq<EventView>) -> StateView
    decreases events.len(),
{
    if events.len() == 0 {
        s
    } else {
        next(style, replay(style, s, events.drop_last()), events.last()).0
    }
}

/// The action asked for after the last of `events`.
pub open spec fn last_action(style: Style, s: StateView, events: Seq<EventView>) -> ActionView
    recommends
        events.len() > 0,
{
    next(style, replay(style, s, events.drop_last()), events.last()).1
}

/// The bytes of `chunks`, one after the other.
pub open spec fn concat(chunks: Seq<Seq<u8>>) -> Seq<u8>
    decreases chunks.len(),
{
    if chunks.len() == 0 {
        Seq::empty()
    } else {
        concat(chunks.drop_last()) + chunks.last()
    }
}

/// Sum of a sequence of sizes.
pub open spec fn total(sizes: Seq<nat>) -> nat
    decreases sizes.len(),
{
    if sizes.len() == 0 {
        0
    } else {
        total(sizes.drop_last()) + sizes.last()
    }
}

/// The bytes a server driving connections the way `style` says hands to
/// writes that accept `sizes` bytes one after the other, each write
/// starting where the previous ones stopped.
pub open spec fn written_bytes(style: Style, sizes: Seq<nat>) -> Seq<u8>
    decreases sizes.len(),
{
    if sizes.len() == 0 {
        Seq::empty()
    } else {
        written_bytes(style, sizes.drop_last()) + style_response(style).subrange(
            total(sizes.drop_last()) as int,
            total(sizes) as int,
        )
    }
}

/// The events of a client that sends `chunks`, one read each.
pub open spec fn receptions(chunks: Seq<Seq<u8>>) -> Seq<EventView> {
    chunks.map_values(|c: Seq<u8>| EventView::Received(c))
}

/// The events of writes that accept `sizes` bytes, one write each.
pub open spec fn writes(sizes: Seq<nat>) -> Seq<EventView> {
    sizes.map_values(|n: nat| EventView::Wrote(n))
}

/// A way of receiving a request: non-empty chunks, together within the
/// buffer, of which no earlier prefix ends in `\r\n\r\n`.
pub open spec fn valid_chunks(chunks: Seq<Seq<u8>>) -> bool {
    &&& forall|i: int| 0 <= i < chunks.len() ==> #[trigger] chunks[i].len() > 0
    &&& concat(chunks).len() <= REQUEST_CAPACITY
    &&& forall|k: int| 0 < k < chunks.len() ==> !is_complete(#[trigger] concat(chunks.take(k)))
}

/// A way of writing the response: writes that accept at least one byte
/// each and together at most the response.
pub open spec fn valid_sizes(sizes: Seq<nat>) -> bool {
    &&& forall|i: int| 0 <= i < sizes.len() ==> #[trigger] sizes[i] > 0
    &&& total(sizes) <= response_len()
}

/// A socket that is not ready changes nothing: the connection keeps its
/// state, and the program is told to come back later, except that the
/// futures server's handler retries a write at the same offset.
pub proof fn lemma_would_block_keeps_state(style: Style, s: StateView)
    requires
        state_wf(s),
        accepts(style, s, EventView::WouldBlock),
    ensures
        next(style, s, EventView::WouldBlock).0 == s,
        next(style, s, EventView::WouldBlock).1 == match s {
            StateView::Write(w) => if style == Style::Handler {
                ActionView::Write(w)
            } else {
                ActionView::Yield
            },
            _ => ActionView::Yield,
        },
{
}

/// The request answered is exactly the bytes the client sent, in order.
/// A connection reading from scratch that receives `chunks` holds their
/// concatenation while it is incomplete, and answers as soon as it is
/// complete, handing out exactly that concatenation as the request.
pub proof fn lemma_request_is_the_bytes_received(style: Style, chunks: Seq<Seq<u8>>)
    requires
        valid_chunks(chunks),
    ensures
        forall|k: int|
            0 < k <= chunks.len() ==> accepts(
                style,
                #[trigger] replay(style, StateView::Read(Seq::empty()), receptions(chunks).take(k - 1)),
                receptions(chunks)[k - 1],
            ),
        !is_complete(concat(chunks)) ==> replay(style, StateView::Read(Seq::empty()), receptions(chunks))
            == StateView::Read(concat(chunks)),
        is_complete(concat(chunks)) ==> {
            &&& replay(style, StateView::Read(Seq::empty()), receptions(chunks)) == StateView::Write(0)
            &&& last_action(style, StateView::Read(Seq::empty()), receptions(chunks))
                == ActionView::Respond(concat(chunks))
        },
    decreases chunks.len(),
{
    let start = StateView::Read(Seq::empty());
    let es = receptions(chunks);
    if chunks.len() == 0 {
        assert(!is_complete(concat(chunks)));
        return;
    }
    let prefix = chunks.drop_last();
    assert(receptions(prefix) =~= es.drop_last());
    assert forall|i: int| 0 <= i < prefix.len() implies #[trigger] prefix[i].len() > 0 by {
        assert(prefix[i] == chunks[i]);
    }
    assert forall|k: int| 0 < k < prefix.len() implies !is_complete(#[trigger] concat(prefix.take(k))) by {
        assert(prefix.take(k) =~= chunks.take(k));
    }
    lemma_request_is_the_bytes_received(style, prefix);
    if prefix.len() > 0 {
        assert(prefix =~= chunks.take(prefix.len() as int));
    }
    assert(!is_complete(concat(prefix)));
    assert(replay(style, start, es.drop_last()) == StateView::Read(concat(prefix)));
    assert(es.last() == EventView::Received(chunks.last()));
    assert forall|k: int| 0 < k <= chunks.len() implies accepts(
        style,
        #[trigger] replay(style, start, es.take(k - 1)),
        es[k - 1],
    ) by {
        if k < chunks.len() {
            assert(es.take(k - 1) =~= receptions(prefix).take(k - 1));
            assert(es[k - 1] == receptions(prefix)[k - 1]);
        } else {
            assert(es.take(k - 1) =~= es.drop_last());
        }
    }
}

/// The response goes out in order and whole: writes that accept `sizes`
/// bytes move the written count to their total, and once the whole
/// response is written the connection goes on to the flush stage (or, for
/// a handler that does not flush, is finished).
pub proof fn lemma_response_is_written_in_order(style: Style, sizes: Seq<nat>)
    requires
        valid_sizes(sizes),
    ensures
        forall|k: int|
            0 < k <= sizes.len() ==> accepts(
                style,
                #[trigger] replay(style, StateView::Write(0), writes(sizes).take(k - 1)),
                writes(sizes)[k - 1],
            ),
        total(sizes) < response_len() ==> replay(style, StateView::Write(0), writes(sizes))
            == StateView::Write(total(sizes)),
        total(sizes) == response_len() ==> replay(style, StateView::Write(0), writes(sizes)) == if style
            == Style::Sequential {
            StateView::Closed
        } else {
            StateView::Flush
        },
    decreases sizes.len(),
{
    let start = StateView::Write(0);
    let es = writes(sizes);
    if sizes.len() == 0 {
        crate::http::lemma_response_layout();
        return;
    }
    let prefix = sizes.drop_last();
    assert(writes(prefix) =~= es.drop_last());
    assert forall|i: int| 0 <= i < prefix.len() implies #[trigger] prefix[i] > 0 by {
        assert(prefix[i] == sizes[i]);
    }
    lemma_response_is_written_in_order(style, prefix);
    assert(replay(style, start, es.drop_last()) == StateView::Write(total(prefix)));
    assert(es.last() == EventView::Wrote(sizes.last()));
    assert forall|k: int| 0 < k <= sizes.len() implies accepts(
        style,
        #[trigger] replay(style, start, es.take(k - 1)),
        es[k - 1],
    ) by {
        if k < sizes.len() {
            assert(es.take(k - 1) =~= writes(prefix).take(k - 1));
            assert(es[k - 1] == writes(prefix)[k - 1]);
        } else {
            assert(es.take(k - 1) =~= es.drop_last());
        }
    }
}

/// No byte is sent twice or skipped: the bytes handed to writes that
/// accept `sizes` bytes, each starting where the previous stopped, are the
/// server's response up to their total.
pub proof fn lemma_written_bytes_are_the_response(style: Style, sizes: Seq<nat>)
    requires
        total(sizes) <= response_len(),
    ensures
        written_bytes(style, sizes) == style_response(style).take(total(sizes) as int),
    decreases sizes.len(),
{
    crate::http::lemma_capitalized_response_layout();
    let r = style_response(style);
    if sizes.len() == 0 {
        assert(r.take(0) =~= Seq::<u8>::empty());
    } else {
        let prefix = sizes.drop_last();
        lemma_written_bytes_are_the_response(style, prefix);
        assert(r.take(total(prefix) as int) + r.subrange(total(prefix) as int, total(sizes) as int)
            =~= r.take(total(sizes) as int));
    }
}

/// However the request arrives and however the writes are cut, the
/// exchange is the same: two ways of receiving the same complete request
/// both answer with that request, and two ways of writing the whole
/// response both hand out exactly the response.
pub proof fn lemma_any_split_same_exchange(
    style: Style,
    chunks1: Seq<Seq<u8>>,
    chunks2: Seq<Seq<u8>>,
    sizes1: Seq<nat>,
    sizes2: Seq<nat>,
)
    requires
        valid_chunks(chunks1),
        valid_chunks(chunks2),
        concat(chunks1) == concat(chunks2),
        is_complete(concat(chunks1)),
        valid_sizes(sizes1),
        valid_sizes(sizes2),
        total(sizes1) == response_len(),
        total(sizes2) == response_len(),
    ensures
        last_action(style, StateView::Read(Seq::empty()), receptions(chunks1)) == last_action(
            style,
            StateView::Read(Seq::empty()),
            receptions(chunks2),
        ),
        replay(style, StateView::Write(0), writes(sizes1)) == replay(
            style,
            StateView::Write(0),
            writes(sizes2),
        ),
        written_bytes(style, sizes1) == style_response(style),
        written_bytes(style, sizes2) == style_response(style),
{
    lemma_request_is_the_bytes_received(style, chunks1);
    lemma_request_is_the_bytes_received(style, chunks2);
    lemma_response_is_written_in_order(style, sizes1);
    lemma_response_is_written_in_order(style, sizes2);
    lemma_written_bytes_are_the_response(style, sizes1);
    lemma_written_bytes_are_the_response(style, sizes2);
    crate::http::lemma_capitalized_response_layout();
    assert(style_response(style).take(response_len() as int) =~= style_response(style));
}

/// A request that fills the whole buffer without ending in `\r\n\r\n` is
/// never answered with that request: no further bytes can be received,
/// and the next read (into an empty buffer) returns nothing. Only the
/// chained handler then writes the response all the same.
pub proof fn lemma_full_buffer_is_never_answered(style: Style, request: Seq<u8>, bytes: Seq<u8>)
    requires
        state_wf(StateView::Read(request)),
        request.len() == REQUEST_CAPACITY,
    ensures
        !accepts(style, StateView::Read(request), EventView::Received(bytes)),
        next(style, StateView::Read(request), EventView::Eof) == match style {
            Style::Handler => (StateView::Read(request), ActionView::Disconnect),
            Style::Chained => (StateView::Write(0), ActionView::Write(0)),
            _ => (StateView::Closed, ActionView::Disconnect),
        },
{
}

/// The futures server's handler never leaves the write stage before the
/// whole response is written: every outcome of a write asks for another
/// write, until the response is out and the handler rests in the flush
/// stage, where it does nothing more.
pub proof fn lemma_handler_never_stops_while_writing(s: StateView, e: EventView)
    requires
        state_wf(s),
        s is Write,
        accepts(Style::Handler, s, e),
    ensures
        next(Style::Handler, s, e).0 is Write ==> next(Style::Handler, s, e).1 is Write,
        next(Style::Handler, s, e).0 is Write || next(Style::Handler, s, e) == (
            StateView::Flush,
            ActionView::Yield,
        ),
        forall|e2: EventView| !accepts(Style::Handler, StateView::Flush, e2),
{
}

/// A poll of the futures server's handler ends only in the read stage or
/// in the flush stage: every step that stops the handler (it waits, or it
/// finishes) leaves it reading, with a request that fits the buffer and is
/// still incomplete, or resting in the flush stage.
pub proof fn lemma_handler_stops_only_reading_or_in_flush(s: StateView, e: EventView)
    requires
        state_wf(s),
        accepts(Style::Handler, s, e),
    ensures
        ({
            let (t, a) = next(Style::Handler, s, e);
            (a is Yield || a is Disconnect) ==> {
                ||| (t is Read && state_wf(t))
                ||| t is Flush
            }
        }),
{
}

/// A read grows the request by exactly the bytes received: the connection
/// answers, handing out the grown request, exactly when it ends with
/// `\r\n\r\n`, and otherwise keeps reading into what is left of the buffer.
pub proof fn lemma_read_appends_the_bytes_received(style: Style, request: Seq<u8>, bytes: Seq<u8>)
    requires
        state_wf(StateView::Read(request)),
        accepts(style, StateView::Read(request), EventView::Received(bytes)),
    ensures
        is_complete(request + bytes) ==> next(style, StateView::Read(request), EventView::Received(bytes))
            == (StateView::Write(0), ActionView::Respond(request + bytes)),
        !is_complete(request + bytes) ==> next(style, StateView::Read(request), EventView::Received(bytes))
            == (
            StateView::Read(request + bytes),
            ActionView::Read((REQUEST_CAPACITY - request.len() - bytes.len()) as nat),
        ),
{
}

/// A zero-byte read, whatever the length of the request read so far: the
/// servers that go over their connections, and the sequential handlers,
/// end the connection; the futures server's handler finishes its poll but
/// keeps what it has read; the chained handler goes on to write the
/// response from its first byte.
pub proof fn lemma_zero_byte_read(style: Style, request: Seq<u8>)
    requires
        state_wf(StateView::Read(request)),
    ensures
        accepts(style, StateView::Read(request), EventView::Eof),
        (style == Style::Polling || style == Style::Scanning || style == Style::Sequential) ==> next(
            style,
            StateView::Read(request),
            EventView::Eof,
        ) == (StateView::Closed, ActionView::Disconnect),
        style == Style::Handler ==> next(style, StateView::Read(request), EventView::Eof) == (
            StateView::Read(request),
            ActionView::Disconnect,
        ),
        style == Style::Chained ==> next(style, StateView::Read(request), EventView::Eof) == (
            StateView::Write(0),
            ActionView::Write(0),
        ),
{
}

/// A write that leaves part of the response unsent asks, whatever the
/// server, for the next write to start exactly where this one stopped.
pub proof fn lemma_write_continues_where_it_stopped(style: Style, written: nat, n: nat)
    requires
        0 < n,
        written + n < response_len(),
    ensures
        accepts(style, StateView::Write(written), EventView::Wrote(n)),
        next(style, StateView::Write(written), EventView::Wrote(n)) == (
            StateView::Write(written + n),
            ActionView::Write(written + n),
        ),
{
}

/// The write that completes the response: the servers that flush go on to
/// the flush stage and flush (the futures server's handler rests there
/// without flushing), and the sequential handlers are done.
pub proof fn lemma_last_write(style: Style, written: nat, n: nat)
    requires
        0 < n,
        written + n == response_len(),
    ensures
        accepts(style, StateView::Write(written), EventView::Wrote(n)),
        style == Style::Sequential ==> next(style, StateView::Write(written), EventView::Wrote(n)) == (
            StateView::Closed,
            ActionView::Complete,
        ),
        style == Style::Handler ==> next(style, StateView::Write(written), EventView::Wrote(n)) == (
            StateView::Flush,
            ActionView::Yield,
        ),
        (style == Style::Polling || style == Style::Scanning || style == Style::Chained) ==> next(
            style,
            StateView::Write(written),
            EventView::Wrote(n),
        ) == (StateView::Flush, ActionView::Flush),
{
}

/// A zero-byte write: the futures server's handler writes again from the
/// same byte, the chained handler goes on to the flush, and the others end
/// the connection.
pub proof fn lemma_zero_byte_write(style: Style, written: nat)
    requires
        written < response_len(),
    ensures
        style == Style::Handler ==> next(style, StateView::Write(written), EventView::Eof) == (
            StateView::Write(written),
            ActionView::Write(written),
        ),
        style == Style::Chained ==> next(style, StateView::Write(written), EventView::Eof) == (
            StateView::Flush,
            ActionView::Flush,
        ),
        (style == Style::Polling || style == Style::Scanning || style == Style::Sequential) ==> next(
            style,
            StateView::Write(written),
            EventView::Eof,
        ) == (StateView::Closed, ActionView::Disconnect),
{
}

/// Registering starts the reading with an empty request and the whole
/// buffer; a successful flush ends the connection, the chained handler
/// deregistering its socket.
pub proof fn lemma_register_and_flush(style: Style)
    ensures
        next(style, StateView::Start, EventView::Registered) == (
            StateView::Read(Seq::empty()),
            ActionView::Read(REQUEST_CAPACITY as nat),
        ),
        style != Style::Handler ==> next(style, StateView::Flush, EventView::Flushed) == (
            StateView::Closed,
            if style == Style::Chained {
                ActionView::Deregister
            } else {
                ActionView::Complete
            },
        ),
{
}

/// Every read or write a step asks for continues from the state it leaves:
/// a read goes into what is left of the buffer after the request held, a
/// write starts at the number of bytes already written.
pub proof fn lemma_actions_continue_from_the_state(style: Style, s: StateView, e: EventView)
    requires
        state_wf(s),
        accepts(style, s, e),
    ensures
        ({
            let (t, a) = next(style, s, e);
            &&& a matches ActionView::Write(o) ==> t == StateView::Write(o)
            &&& a matches ActionView::Read(c) ==> (t matches StateView::Read(r) && c == REQUEST_CAPACITY
                - r.len())
        }),
{
}

/// Coming back to a connection resumes exactly where it stopped: a
/// connection that is writing writes from the bytes already written, one
/// that is reading reads into what is left of the buffer, a fresh one
/// registers; and coming back to it after any step asks for the same read
/// or write as that step did.
pub proof fn lemma_resume_where_it_stopped(style: Style, s: StateView, e: EventView)
    requires
        state_wf(s),
        accepts(style, s, e),
    ensures
        forall|w: nat| #[trigger] resume_action(style, StateView::Write(w)) == ActionView::Write(w),
        forall|r: Seq<u8>|
            r.len() <= REQUEST_CAPACITY ==> #[trigger] resume_action(style, StateView::Read(r))
                == ActionView::Read((REQUEST_CAPACITY - r.len()) as nat),
        resume_action(style, StateView::Start) == ActionView::Register,
        ({
            let (t, a) = next(style, s, e);
            (a is Read || a is Write) ==> resume_action(style, t) == a
        }),
{
}

/// What each state accepts: a fresh connection its registration, a
/// reading or writing one the end of the stream and a socket that is not
/// ready, and a connection in the flush stage a flush or a socket that is
/// not ready, except the futures server's handler, which does nothing more
/// there.
pub proof fn lemma_accepted_events(style: Style, request: Seq<u8>, written: nat)
    ensures
        accepts(style, StateView::Start, EventView::Registered),
        accepts(style, StateView::Read(request), EventView::Eof),
        accepts(style, StateView::Read(request), EventView::WouldBlock),
        accepts(style, StateView::Write(written), EventView::Eof),
        accepts(style, StateView::Write(written), EventView::WouldBlock),
        style != Style::Handler ==> accepts(style, StateView::Flush, EventView::Flushed) && accepts(
            style,
            StateView::Flush,
            EventView::WouldBlock,
        ),
        forall|e: EventView| !accepts(style, StateView::Closed, e),
{
}

/// Coming back to a connection in the flush stage flushes it (the futures
/// server's handler does nothing there), and to a closed one does nothing.
pub proof fn lemma_resume_after_writing(style: Style)
    ensures
        resume_action(style, StateView::Flush) == if style == Style::Handler {
            ActionView::Yield
        } else {
            ActionView::Flush
        },
        resume_action(style, StateView::Closed) == ActionView::Yield,
{
}

/// Each server sends the same head and a twelve-byte greeting: the
/// busy-loop server "Hello World!", every other one "Hello world!".
pub proof fn lemma_each_server_sends_its_greeting(style: Style)
    ensures
        style == Style::Scanning ==> style_response(style) == crate::http::ascii_bytes(
            crate::http::RESPONSE_HEAD@,
        ) + crate::http::ascii_bytes("Hello World!"@),
        style != Style::Scanning ==> style_response(style) == crate::http::ascii_bytes(
            crate::http::RESPONSE_HEAD@,
        ) + crate::http::ascii_bytes("Hello world!"@),
        style_response(style).len() == 70,
{
    crate::http::lemma_response_layout();
    crate::http::lemma_capitalized_response_layout();
    reveal_strlit("Hello world!");
    assert(crate::http::RESPONSE_BODY@ == "Hello world!"@);
}

impl ConnectionState {
    /// Whether the state is one a connection can be in.
    pub open spec fn wf(&self) -> bool {
        state_wf(self@)
    }

    /// A connection that reads from the start: nothing read yet.
    pub fn new() -> (s: Self)
        ensures
            s@ == StateView::Read(Seq::empty()),
            s.wf(),
    {
        ConnectionState::Read { request: Vec::new() }
    }

    /// A connection that first registers its socket for readiness
    /// notifications; the first action is [`Action::Register`].
    pub fn registering() -> (s: Self)
        ensures
            s@ == StateView::Start,
            s.wf(),
    {
        ConnectionState::Start
    }

    /// What to do with the connection when coming back to it.
    pub fn resume(&self, style: Style) -> (action: Action)
        requires
            self.wf(),
        ensures
            action@ == resume_action(style, self@),
    {
        match self {
            ConnectionState::Start => Action::Register,
            ConnectionState::Read { request } => Action::Read { capacity: REQUEST_CAPACITY - request.len() },
            ConnectionState::Write { written } => Action::Write { offset: *written },
            ConnectionState::Flush => match style {
                Style::Handler => Action::Yield,
                _ => Action::Flush,
            },
            ConnectionState::Closed => Action::Yield,
        }
    }

    /// Whether the connection is finished and can be dropped.
    pub fn is_closed(&self) -> (r: bool)
        ensures
            r == (self@ == StateView::Closed),
    {
        match self {
            ConnectionState::Closed => true,
            _ => false,
        }
    }

    /// Advances the connection, driven the way `style` says, by the outcome
    /// of the last operation, and says what to do next.
    pub fn step(&mut self, style: Style, event: Event) -> (action: Action)
        requires
            old(self).wf(),
            accepts(style, old(self)@, event@),
        ensures
            final(self).wf(),
            (final(self)@, action@) == next(style, old(self)@, event@),
    {
        let mut current = ConnectionState::Closed;
        std::mem::swap(self, &mut current);
        match current {
            ConnectionState::Start => {
                *self = ConnectionState::Read { request: Vec::new() };
                Action::Read { capacity: REQUEST_CAPACITY }
            },
            ConnectionState::Read { mut request } => match event {
                Event::Received(mut bytes) => {
                    request.append(&mut bytes);
                    if crate::http::request_complete(request.as_slice()) {
                        *self = ConnectionState::Write { written: 0 };
                        proof {
                            crate::http::lemma_response_layout();
                        }
                        Action::Respond { request }
                    } else {
                        let capacity = REQUEST_CAPACITY - request.len();
                        *self = ConnectionState::Read { request };
                        Action::Read { capacity }
                    }
                },
                Event::Eof => match style {
                    Style::Handler => {
                        *self = ConnectionState::Read { request };
                        Action::Disconnect
                    },
                    Style::Chained => {
                        proof {
                            crate::http::lemma_response_layout();
                        }
                        *self = ConnectionState::Write { written: 0 };
                        Action::Write { offset: 0 }
                    },
                    _ => Action::Disconnect,
                },
                _ => {
                    *self = ConnectionState::Read { request };
                    Action::Yield
                },
            },
            ConnectionState::Write { written } => match event {
                Event::Wrote(n) => {
                    let total_len = crate::http::response().len();
                    let w = written + n;
                    if w == total_len {
                        match style {
                            Style::Sequential => Action::Complete,
                            Style::Handler => {
                                *self = ConnectionState::Flush;
                                Action::Yield
                            },
                            _ => {
                                *self = ConnectionState::Flush;
                                Action::Flush
                            },
                        }
                    } else {
                        *self = ConnectionState::Write { written: w };
                        Action::Write { offset: w }
                    }
                },
                Event::Eof => match style {
                    Style::Handler => {
                        *self = ConnectionState::Write { written };
                        Action::Write { offset: written }
                    },
                    Style::Chained => {
                        *self = ConnectionState::Flush;
                        Action::Flush
                    },
                    _ => Action::Disconnect,
                },
                _ => {
                    *self = ConnectionState::Write { written };
                    match style {
                        Style::Handler => Action::Write { offset: written },
                        _ => Action::Yield,
                    }
                },
            },
            ConnectionState::Flush => match event {
                Event::Flushed => match style {
                    Style::Chained => Action::Deregister,
                    _ => Action::Complete,
                },
                _ => {
                    *self = ConnectionState::Flush;
                    Action::Yield
                },
            },
            ConnectionState::Closed => Action::Yield,
        }
    }
}

} // verus!
