//! The request side of the load generator: where a client sends its
//! requests, and when it tries a failed request again.

use vstd::prelude::*;
use vstd::string::StringExecFns;

verus! {

/// How many times a request is tried before it counts as failed.
pub const MAX_RETRIES: u32 = 3;

/// The milliseconds to wait before a request is tried again.
pub const RETRY_DELAY_MS: u64 = 100;

/// A client of the load generator.
#[derive(Clone, Debug)]
pub struct SenderClient {
    pub id: String,
    pub url: String,
}

/// What to do after a request failed.
#[derive(Clone, Copy, Debug, PartialEq, Eq, Structural)]
pub enum RetryStep {
    /// Report the failure.
    GiveUp,
    /// Wait for `delay_ms` milliseconds and try again; `attempt` tries
    /// have failed so far.
    RetryAfter { attempt: u32, delay_ms: u64 },
}

/// The decision after one more failure, where `attempt` tries had failed
/// before it and `retries` tries are allowed in all: give up once the
/// failures have reached the tries allowed.
pub open spec fn retry_step(attempt: u32, retries: u32) -> RetryStep {
    if attempt + 1 >= retries {
        RetryStep::GiveUp
    } else {
        RetryStep::RetryAfter { attempt: (attempt + 1) as u32, delay_ms: RETRY_DELAY_MS }
    }
}

/// Computes [`retry_step`].
pub fn after_failure(attempt: u32, retries: u32) -> (step: RetryStep)
    ensures
        step == retry_step(attempt, retries),
{
    if attempt >= retries || attempt + 1 >= retries {
        RetryStep::GiveUp
    } else {
        RetryStep::RetryAfter { attempt: attempt + 1, delay_ms: RETRY_DELAY_MS }
    }
}

impl SenderClient {
    /// A client with the given name that sends to `url`.
    pub fn new(id: &str, url: &str) -> (client: SenderClient)
        ensures
            client.id@ == id@,
            client.url@ == url@,
    {
        SenderClient { id: id.to_owned(), url: url.to_owned() }
    }

    /// The address of `endpoint`: the client's URL, a slash, the endpoint.
    pub fn endpoint_url(&self, endpoint: &str) -> (full_url: String)
        ensures
            full_url@ == self.url@ + "/"@ + endpoint@,
    {
        let mut full_url = self.url.clone();
        full_url.append("/");
        full_url.append(endpoint);
        full_url
    }
}

} // verus!
