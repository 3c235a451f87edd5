use async_server::http::{capitalized_response, RESPONSE_CAPITALIZED, request_complete, response, REQUEST_CAPACITY, RESPONSE, RESPONSE_BODY, RESPONSE_HEAD};

#[test]
fn empty_request_is_incomplete() {
    assert!(!request_complete(b""));
}

#[test]
fn short_request_is_incomplete() {
    assert!(!request_complete(b"\r\n"));
    assert!(!request_complete(b"\n\r\n"));
}

#[test]
fn bare_terminator_is_complete() {
    assert!(request_complete(b"\r\n\r\n"));
}

#[test]
fn get_request_is_complete() {
    assert!(request_complete(b"GET / HTTP/1.1\r\nHost: localhost:3000\r\n\r\n"));
}

#[test]
fn request_without_blank_line_is_incomplete() {
    assert!(!request_complete(b"GET / HTTP/1.1\r\nHost: localhost:3000\r\n"));
    assert!(!request_complete(b"GET / HTTP/1.1\n\n"));
}

#[test]
fn terminator_not_at_end_does_not_count() {
    assert!(!request_complete(b"GET / HTTP/1.1\r\n\r\nextra"));
}

#[test]
fn response_is_the_fixed_hello_world() {
    let r = response();
    assert_eq!(
        r,
        b"HTTP/1.1 200 OK\r\nContent-Length: 12\r\nConnection: close\r\n\r\nHello world!"
    );
    assert_eq!(r.len(), 70);
    assert_eq!(r, RESPONSE.as_bytes());
}

#[test]
fn response_body_matches_content_length() {
    assert_eq!(format!("{}{}", RESPONSE_HEAD, RESPONSE_BODY), RESPONSE);
    assert!(RESPONSE_HEAD.contains("Content-Length: 12\r\n"));
    assert_eq!(RESPONSE_BODY.len(), 12);
    assert!(request_complete(RESPONSE_HEAD.as_bytes()));
}

#[test]
fn request_capacity_is_one_kilobyte() {
    assert_eq!(REQUEST_CAPACITY, 1024);
}

#[test]
fn capitalized_response_differs_in_one_letter() {
    let a = capitalized_response();
    assert_eq!(a, RESPONSE_CAPITALIZED.as_bytes());
    assert_eq!(a.len(), response().len());
    let diffs: Vec<usize> = (0..a.len()).filter(|&i| a[i] != response()[i]).collect();
    assert_eq!(diffs, vec![64]);
}
