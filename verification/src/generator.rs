//! The plan of the load generator: how the requests are spread over the
//! clients and what a client sends.

use crate::text::{decimal, push_decimal};
use vstd::prelude::*;
use vstd::string::StringExecFns;

verus! {

/// The number of requests that each of `num_clients` clients sends when
/// `num_requests` are asked for: the whole part of the quotient.
pub fn requests_per_client(num_requests: usize, num_clients: usize) -> (each: usize)
    requires
        num_clients > 0,
    ensures
        each == num_requests / num_clients,
{
    num_requests / num_clients
}

/// The body of the POST requests of client `client_id`.
pub open spec fn post_body(client_id: nat) -> Seq<char> {
    "test"@ + decimal(client_id)
}

/// Renders [`post_body`].
pub fn render_post_body(client_id: usize) -> (body: String)
    ensures
        body@ == post_body(client_id as nat),
{
    let mut body = String::new();
    body.append("test");
    push_decimal(&mut body, client_id as u128);
    assert(body@ =~= post_body(client_id as nat));
    body
}

} // verus!
