//! A toy origin server: it answers every request with a short HTTP
//! response after a delay that depends on the request's method.

use crate::text::{decimal, decimal_string, find_byte, first_index, push_bytes};
use vstd::prelude::*;
use vstd::string::StringSliceAdditionalSpecFns;
use vstd::utf8::encode_utf8;

verus! {

/// Command-line settings of the origin server.
#[derive(Debug)]
pub struct ServerArgs {
    /// Port to listen on.
    pub port: u16,
    /// Delay for GET requests in milliseconds.
    pub get_delay: u64,
    /// Delay for POST requests in milliseconds.
    pub post_delay: u64,
}

/// An origin server's settings.
pub struct Server {
    port: u16,
    get_delay: u64,
    post_delay: u64,
}

/// What the server does with one request: how long it waits, if at all,
/// and the bytes it sends back.
pub struct Reply {
    pub delay_ms: Option<u64>,
    pub response: Vec<u8>,
}

/// The method of a request: the bytes before the first space, where that
/// space stands on the first line; empty otherwise.
pub open spec fn request_method(request: Seq<u8>) -> Seq<u8> {
    let space = first_index(request, 0x20);
    let newline = first_index(request, 0x0a);
    if space < newline {
        request.subrange(0, space)
    } else {
        Seq::empty()
    }
}

/// The delay that a request with `method` waits for: the GET delay, the
/// POST delay, or none for any other method.
pub open spec fn method_delay(method: Seq<u8>, get_delay: u64, post_delay: u64) -> Option<u64> {
    if method == "GET".spec_bytes() {
        Some(get_delay)
    } else if method == "POST".spec_bytes() {
        Some(post_delay)
    } else {
        None
    }
}

/// The body of the response to a request with `method`.
pub open spec fn response_body(method: Seq<u8>) -> Seq<u8> {
    "Request Received of type: ".spec_bytes() + method
}

/// The response to a request with `method`: status line, headers with the
/// body's exact length, and the body.
pub open spec fn response_bytes(method: Seq<u8>) -> Seq<u8> {
    "HTTP/1.1 200 OK\r\nConnection: close\r\nContent-Length: ".spec_bytes() + encode_utf8(
        decimal(response_body(method).len()),
    ) + "\r\n\r\n".spec_bytes() + response_body(method)
}

/// Extracts [`request_method`] as the bounds of a prefix of `request`.
fn method_len(request: &[u8]) -> (len: usize)
    ensures
        len <= request@.len(),
        request@.subrange(0, len as int) == request_method(request@),
{
    let space = find_byte(request, 0x20);
    let newline = find_byte(request, 0x0a);
    if space < newline {
        space
    } else {
        assert(request@.subrange(0, 0) =~= Seq::<u8>::empty());
        0
    }
}

/// Whether the first `len` bytes of `request` are exactly `word`.
fn prefix_is(request: &[u8], len: usize, word: &[u8]) -> (r: bool)
    requires
        len <= request@.len(),
    ensures
        r == (request@.subrange(0, len as int) == word@),
{
    if len != word.len() {
        return false;
    }
    let mut i: usize = 0;
    while i < len
        invariant
            len <= request@.len(),
            len == word@.len(),
            i <= len,
            forall|j: int| 0 <= j < i ==> request@[j] == word@[j],
        decreases len - i,
    {
        if request[i] != word[i] {
            assert(request@.subrange(0, len as int)[i as int] != word@[i as int]);
            return false;
        }
        i += 1;
    }
    assert(request@.subrange(0, len as int) =~= word@);
    true
}

impl Server {
    /// The port to listen on.
    pub closed spec fn port_spec(&self) -> u16 {
        self.port
    }

    /// The delay for GET requests in milliseconds.
    pub closed spec fn get_delay_spec(&self) -> u64 {
        self.get_delay
    }

    /// The delay for POST requests in milliseconds.
    pub closed spec fn post_delay_spec(&self) -> u64 {
        self.post_delay
    }

    /// A server with the given port and delays.
    pub fn new(port: u16, get_delay: u64, post_delay: u64) -> (server: Self)
        ensures
            server.port_spec() == port,
            server.get_delay_spec() == get_delay,
            server.post_delay_spec() == post_delay,
    {
        Self { port, get_delay, post_delay }
    }

    /// The port to listen on.
    pub fn port(&self) -> (port: u16)
        ensures
            port == self.port_spec(),
    {
        self.port
    }

    /// The delay for GET requests in milliseconds.
    pub fn get_delay(&self) -> (delay: u64)
        ensures
            delay == self.get_delay_spec(),
    {
        self.get_delay
    }

    /// The delay for POST requests in milliseconds.
    pub fn post_delay(&self) -> (delay: u64)
        ensures
            delay == self.post_delay_spec(),
    {
        self.post_delay
    }

    /// Decides how to answer `request`: the delay of its method and the
    /// response that names the method.
    pub fn reply_to(&self, request: &[u8]) -> (reply: Reply)
        ensures
            reply.delay_ms == method_delay(
                request_method(request@),
                self.get_delay_spec(),
                self.post_delay_spec(),
            ),
            reply.response@ == response_bytes(request_method(request@)),
    {
        let len = method_len(request);
        let ghost method = request_method(request@);
        let delay_ms = if prefix_is(request, len, "GET".as_bytes()) {
            Some(self.get_delay)
        } else if prefix_is(request, len, "POST".as_bytes()) {
            Some(self.post_delay)
        } else {
            None
        };
        let lead = "Request Received of type: ".as_bytes();
        let mut body: Vec<u8> = Vec::new();
        push_bytes(&mut body, lead);
        let mut i: usize = 0;
        while i < len
            invariant
                len <= request@.len(),
                i <= len,
                body@ == lead@ + request@.subrange(0, i as int),
            decreases len - i,
        {
            body.push(request[i]);
            assert(body@ =~= lead@ + request@.subrange(0, i + 1));
            i += 1;
        }
        assert(body@ =~= response_body(method));
        let length = decimal_string(body.len() as u128);
        let mut response: Vec<u8> = Vec::new();
        push_bytes(
            &mut response,
            "HTTP/1.1 200 OK\r\nConnection: close\r\nContent-Length: ".as_bytes(),
        );
        push_bytes(&mut response, length.as_str().as_bytes());
        push_bytes(&mut response, "\r\n\r\n".as_bytes());
        push_bytes(&mut response, body.as_slice());
        assert(response@ =~= response_bytes(method));
        Reply { delay_ms, response }
    }
}

} // verus!
