use async_server::connection::{response_for, Action, ConnectionState, Event, Style};
use async_server::http::{response, REQUEST_CAPACITY};

const REQUEST: &[u8] = b"GET / HTTP/1.1\r\nHost: localhost:3000\r\n\r\n";

#[test]
fn full_exchange() {
    let mut c = ConnectionState::new();
    assert_eq!(c, ConnectionState::Read { request: vec![] });
    let a = c.step(Style::Polling, Event::Received(REQUEST[..10].to_vec()));
    assert_eq!(a, Action::Read { capacity: REQUEST_CAPACITY - 10 });
    let a = c.step(Style::Polling, Event::Received(REQUEST[10..].to_vec()));
    assert_eq!(a, Action::Respond { request: REQUEST.to_vec() });
    assert_eq!(c, ConnectionState::Write { written: 0 });
    let a = c.step(Style::Polling, Event::Wrote(30));
    assert_eq!(a, Action::Write { offset: 30 });
    let a = c.step(Style::Polling, Event::Wrote(40));
    assert_eq!(a, Action::Flush);
    assert_eq!(c, ConnectionState::Flush);
    let a = c.step(Style::Polling, Event::Flushed);
    assert_eq!(a, Action::Complete);
    assert!(c.is_closed());
}

#[test]
fn response_in_one_write() {
    let mut c = ConnectionState::new();
    let a = c.step(Style::Polling, Event::Received(REQUEST.to_vec()));
    assert_eq!(a, Action::Respond { request: REQUEST.to_vec() });
    let a = c.step(Style::Polling, Event::Wrote(response().len()));
    assert_eq!(a, Action::Flush);
}

#[test]
fn terminator_split_across_reads() {
    let mut c = ConnectionState::new();
    assert_eq!(c.step(Style::Polling, Event::Received(b"GET / HTTP/1.1\r\n".to_vec())), Action::Read { capacity: 1024 - 16 });
    assert_eq!(c.step(Style::Polling, Event::Received(b"\r".to_vec())), Action::Read { capacity: 1024 - 17 });
    assert_eq!(
        c.step(Style::Polling, Event::Received(b"\n".to_vec())),
        Action::Respond { request: b"GET / HTTP/1.1\r\n\r\n".to_vec() }
    );
}

#[test]
fn would_block_changes_nothing() {
    let mut c = ConnectionState::new();
    c.step(Style::Polling, Event::Received(b"GET".to_vec()));
    assert_eq!(c.step(Style::Polling, Event::WouldBlock), Action::Yield);
    assert_eq!(c, ConnectionState::Read { request: b"GET".to_vec() });
    c.step(Style::Polling, Event::Received(b" /\r\n\r\n".to_vec()));
    assert_eq!(c.step(Style::Polling, Event::WouldBlock), Action::Yield);
    assert_eq!(c, ConnectionState::Write { written: 0 });
    c.step(Style::Polling, Event::Wrote(70));
    assert_eq!(c.step(Style::Polling, Event::WouldBlock), Action::Yield);
    assert_eq!(c, ConnectionState::Flush);
}

#[test]
fn client_leaves_while_reading() {
    let mut c = ConnectionState::new();
    c.step(Style::Polling, Event::Received(b"GET".to_vec()));
    assert_eq!(c.step(Style::Polling, Event::Eof), Action::Disconnect);
    assert!(c.is_closed());
}

#[test]
fn client_leaves_while_writing() {
    let mut c = ConnectionState::new();
    c.step(Style::Polling, Event::Received(REQUEST.to_vec()));
    c.step(Style::Polling, Event::Wrote(5));
    assert_eq!(c.step(Style::Polling, Event::Eof), Action::Disconnect);
    assert_eq!(c, ConnectionState::Closed);
}

#[test]
fn full_buffer_without_terminator_is_never_answered() {
    let mut c = ConnectionState::new();
    let a = c.step(Style::Polling, Event::Received(vec![b'a'; REQUEST_CAPACITY]));
    assert_eq!(a, Action::Read { capacity: 0 });
    // reading into an empty buffer returns zero bytes
    assert_eq!(c.step(Style::Polling, Event::Eof), Action::Disconnect);
    assert!(c.is_closed());
}

#[test]
fn request_ending_exactly_at_capacity_is_answered() {
    let mut c = ConnectionState::new();
    let mut request = vec![b'a'; REQUEST_CAPACITY - 4];
    request.extend_from_slice(b"\r\n\r\n");
    let a = c.step(Style::Polling, Event::Received(request.clone()));
    assert_eq!(a, Action::Respond { request });
}

#[test]
fn sequential_ends_without_flush() {
    let mut c = ConnectionState::new();
    c.step(Style::Sequential, Event::Received(REQUEST.to_vec()));
    assert_eq!(c.step(Style::Sequential, Event::Wrote(70)), Action::Complete);
    assert!(c.is_closed());
}

#[test]
fn handler_registers_first() {
    let mut c = ConnectionState::registering();
    assert_eq!(c, ConnectionState::Start);
    assert_eq!(c.step(Style::Handler, Event::Registered), Action::Read { capacity: REQUEST_CAPACITY });
    assert_eq!(c, ConnectionState::Read { request: vec![] });
}

#[test]
fn handler_zero_byte_read_finishes_keeping_state() {
    let mut c = ConnectionState::registering();
    c.step(Style::Handler, Event::Registered);
    assert_eq!(c.step(Style::Handler, Event::Eof), Action::Disconnect);
    assert_eq!(c, ConnectionState::Read { request: vec![] });
    // a later wake reads again
    assert_eq!(
        c.step(Style::Handler, Event::Received(REQUEST.to_vec())),
        Action::Respond { request: REQUEST.to_vec() }
    );
}

#[test]
fn handler_retries_writes_and_stops_in_flush() {
    let mut c = ConnectionState::new();
    c.step(Style::Handler, Event::Received(REQUEST.to_vec()));
    assert_eq!(c.step(Style::Handler, Event::Wrote(10)), Action::Write { offset: 10 });
    assert_eq!(c.step(Style::Handler, Event::WouldBlock), Action::Write { offset: 10 });
    assert_eq!(c.step(Style::Handler, Event::Eof), Action::Write { offset: 10 });
    assert_eq!(c, ConnectionState::Write { written: 10 });
    assert_eq!(c.step(Style::Handler, Event::Wrote(60)), Action::Yield);
    assert_eq!(c, ConnectionState::Flush);
}

#[test]
fn chained_zero_byte_read_still_responds() {
    let mut c = ConnectionState::registering();
    c.step(Style::Chained, Event::Registered);
    c.step(Style::Chained, Event::Received(b"GET".to_vec()));
    assert_eq!(c.step(Style::Chained, Event::Eof), Action::Write { offset: 0 });
    assert_eq!(c, ConnectionState::Write { written: 0 });
}

#[test]
fn chained_zero_byte_write_goes_to_flush_then_deregisters() {
    let mut c = ConnectionState::new();
    c.step(Style::Chained, Event::Received(REQUEST.to_vec()));
    c.step(Style::Chained, Event::Wrote(3));
    assert_eq!(c.step(Style::Chained, Event::WouldBlock), Action::Yield);
    assert_eq!(c.step(Style::Chained, Event::Eof), Action::Flush);
    assert_eq!(c.step(Style::Chained, Event::Flushed), Action::Deregister);
    assert!(c.is_closed());
}

#[test]
fn resume_continues_where_it_stopped() {
    let mut c = ConnectionState::registering();
    assert_eq!(c.resume(Style::Chained), Action::Register);
    c.step(Style::Chained, Event::Registered);
    c.step(Style::Chained, Event::Received(b"GET".to_vec()));
    assert_eq!(c.resume(Style::Chained), Action::Read { capacity: REQUEST_CAPACITY - 3 });
    c.step(Style::Chained, Event::Received(b"\r\n\r\n".to_vec()));
    c.step(Style::Chained, Event::Wrote(5));
    assert_eq!(c.resume(Style::Chained), Action::Write { offset: 5 });
    c.step(Style::Chained, Event::Wrote(65));
    assert_eq!(c.resume(Style::Chained), Action::Flush);
    assert_eq!(c.resume(Style::Handler), Action::Yield);
}

#[test]
fn scanning_server_capitalizes_its_greeting() {
    assert_eq!(
        response_for(Style::Scanning),
        b"HTTP/1.1 200 OK\r\nContent-Length: 12\r\nConnection: close\r\n\r\nHello World!"
    );
    assert_eq!(response_for(Style::Polling), response());
    assert_eq!(response_for(Style::Handler), response());
    let mut c = ConnectionState::new();
    c.step(Style::Scanning, Event::Received(REQUEST.to_vec()));
    assert_eq!(c.step(Style::Scanning, Event::Wrote(70)), Action::Flush);
    assert_eq!(c.step(Style::Scanning, Event::Flushed), Action::Complete);
}
