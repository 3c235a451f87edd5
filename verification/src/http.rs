//! The HTTP side of the server: detecting the end of a request header and
//! the fixed response that every request is answered with.
use vstd::prelude::*;

verus! {

/// Size of the buffer a request is read into.
pub const REQUEST_CAPACITY: usize = 1024;

/// Status line and headers of the response, up to and including the blank line.
pub const RESPONSE_HEAD: &'static str = "HTTP/1.1 200 OK\r\nContent-Length: 12\r\nConnection: close\r\n\r\n";

/// Body of the response.
pub const RESPONSE_BODY: &'static str = "Hello world!";

/// The full response sent to every client.
pub const RESPONSE: &'static str = "HTTP/1.1 200 OK\r\nContent-Length: 12\r\nConnection: close\r\n\r\nHello world!";

/// The response of the server that goes over all its connections in a busy
/// loop, whose greeting is capitalized.
pub const RESPONSE_CAPITALIZED: &'static str = "HTTP/1.1 200 OK\r\nContent-Length: 12\r\nConnection: close\r\n\r\nHello World!";

/// The bytes that end a request header: an empty line.
pub open spec fn terminator() -> Seq<u8> {
    seq![13u8, 10u8, 13u8, 10u8]
}

/// A request is complete once the bytes received so far end with `\r\n\r\n`.
pub open spec fn is_complete(request: Seq<u8>) -> bool {
    &&& request.len() >= 4
    &&& request.subrange(request.len() - 4, request.len() as int) == terminator()
}

/// The bytes of the response, one byte per (ASCII) character of [`RESPONSE`].
pub open spec fn response_bytes() -> Seq<u8> {
    Seq::new(RESPONSE@.len(), |i: int| RESPONSE@[i] as u8)
}

/// The bytes of the capitalized response.
pub open spec fn capitalized_response_bytes() -> Seq<u8> {
    Seq::new(RESPONSE_CAPITALIZED@.len(), |i: int| RESPONSE_CAPITALIZED@[i] as u8)
}

/// Length of the response in bytes.
pub open spec fn response_len() -> nat {
    response_bytes().len()
}

/// The bytes of an ASCII string literal.
pub open spec fn ascii_bytes(s: Seq<char>) -> Seq<u8> {
    Seq::new(s.len(), |i: int| s[i] as u8)
}

/// The response is its head followed by its body; the head ends with the
/// empty line that ends an HTTP header, announces `Content-Length: 12`, and
/// the body that follows is exactly 12 bytes long.
pub proof fn lemma_response_layout()
    ensures
        response_bytes() == ascii_bytes(RESPONSE_HEAD@) + ascii_bytes(RESPONSE_BODY@),
        is_complete(ascii_bytes(RESPONSE_HEAD@)),
        RESPONSE_HEAD@.subrange(17, 37) == "Content-Length: 12\r\n"@,
        RESPONSE_BODY@.len() == 12,
        response_len() == RESPONSE_HEAD@.len() + 12,
{
    reveal_strlit("HTTP/1.1 200 OK\r\nContent-Length: 12\r\nConnection: close\r\n\r\nHello world!");
    reveal_strlit("HTTP/1.1 200 OK\r\nContent-Length: 12\r\nConnection: close\r\n\r\n");
    reveal_strlit("Hello world!");
    reveal_strlit("Content-Length: 12\r\n");
    assert(RESPONSE@ =~= RESPONSE_HEAD@ + RESPONSE_BODY@);
    assert(response_bytes() =~= ascii_bytes(RESPONSE_HEAD@) + ascii_bytes(RESPONSE_BODY@));
    let h = ascii_bytes(RESPONSE_HEAD@);
    assert(h.subrange(h.len() - 4, h.len() as int) =~= terminator());
    assert(RESPONSE_HEAD@.subrange(17, 37) =~= "Content-Length: 12\r\n"@);
}

/// A request is complete exactly when it is some bytes followed by the
/// empty line `\r\n\r\n`.
pub proof fn lemma_complete_iff_ends_with_blank_line(request: Seq<u8>)
    ensures
        is_complete(request) <==> exists|head: Seq<u8>| request == head + seq![13u8, 10u8, 13u8, 10u8],
{
    if is_complete(request) {
        let head = request.take(request.len() - 4);
        assert(request =~= head + seq![13u8, 10u8, 13u8, 10u8]);
    }
    if exists|head: Seq<u8>| request == head + seq![13u8, 10u8, 13u8, 10u8] {
        let head = choose|head: Seq<u8>| request == head + seq![13u8, 10u8, 13u8, 10u8];
        assert(request.subrange(request.len() - 4, request.len() as int) =~= terminator());
    }
}

/// Whether the bytes of `request` end with the header terminator `\r\n\r\n`.
pub fn request_complete(request: &[u8]) -> (r: bool)
    ensures
        r == is_complete(request@),
{
    let n = request.len();
    if n < 4 {
        return false;
    }
    let r = request[n - 4] == 13 && request[n - 3] == 10 && request[n - 2] == 13 && request[n
        - 1] == 10;
    proof {
        if r {
            assert(request@.subrange(n - 4, n as int) =~= terminator());
        } else if is_complete(request@) {
            assert(request@.subrange(n - 4, n as int)[0] == request@[n - 4]);
            assert(request@.subrange(n - 4, n as int)[1] == request@[n - 3]);
            assert(request@.subrange(n - 4, n as int)[2] == request@[n - 2]);
            assert(request@.subrange(n - 4, n as int)[3] == request@[n - 1]);
        }
    }
    r
}

/// The capitalized response is the same head with a body of the same
/// length, differing from the other response in one letter.
pub proof fn lemma_capitalized_response_layout()
    ensures
        capitalized_response_bytes() == ascii_bytes(RESPONSE_HEAD@) + ascii_bytes("Hello World!"@),
        capitalized_response_bytes().len() == response_len(),
        response_len() == 70,
{
    reveal_strlit("HTTP/1.1 200 OK\r\nContent-Length: 12\r\nConnection: close\r\n\r\nHello world!");
    reveal_strlit("HTTP/1.1 200 OK\r\nContent-Length: 12\r\nConnection: close\r\n\r\nHello World!");
    reveal_strlit("HTTP/1.1 200 OK\r\nContent-Length: 12\r\nConnection: close\r\n\r\n");
    reveal_strlit("Hello World!");
    assert(RESPONSE_CAPITALIZED@ =~= RESPONSE_HEAD@ + "Hello World!"@);
    assert(capitalized_response_bytes() =~= ascii_bytes(RESPONSE_HEAD@) + ascii_bytes("Hello World!"@));
}

/// The capitalized response as bytes.
pub fn capitalized_response() -> (r: &'static [u8])
    ensures
        r@ == capitalized_response_bytes(),
        r@.len() == 70,
{
    proof {
        reveal_strlit("HTTP/1.1 200 OK\r\nContent-Length: 12\r\nConnection: close\r\n\r\nHello World!");
    }
    assert(vstd::string::is_ascii(RESPONSE_CAPITALIZED));
    let r = RESPONSE_CAPITALIZED.as_bytes();
    proof {
        vstd::string::is_ascii_spec_bytes(RESPONSE_CAPITALIZED);
    }
    r
}

/// The response as bytes.
pub fn response() -> (r: &'static [u8])
    ensures
        r@ == response_bytes(),
        r@.len() == 70,
{
    proof {
        reveal_strlit("HTTP/1.1 200 OK\r\nContent-Length: 12\r\nConnection: close\r\n\r\nHello world!");
    }
    assert(vstd::string::is_ascii(RESPONSE));
    let r = RESPONSE.as_bytes();
    proof {
        vstd::string::is_ascii_spec_bytes(RESPONSE);
    }
    r
}

} // verus!
