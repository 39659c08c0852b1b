//! The HTTP boundary for provider clients.
//!
//! A status other than 2xx is no error here: it comes back as an ordinary
//! [`HttpResponse`], and the caller gives it its meaning.

use vstd::prelude::*;

use crate::error::{InterruptSignal, LegError, Result};

verus! {

/// A completed HTTP response.
#[derive(Debug)]
pub struct HttpResponse {
    /// The HTTP status code.
    pub status: u16,
    /// The response body.
    pub body: String,
    /// The `Retry-After` header, if the provider sent one.
    pub retry_after: Option<String>,
}

/// A completed HTTP call with its request attempts.
#[derive(Debug)]
pub struct HttpCall {
    /// The response or the terminal transport error.
    pub result: Result<HttpResponse>,
    /// The HTTP attempts made, failed connections among them.
    pub attempts: u64,
}

impl HttpCall {
    /// A result with its attempt count.
    pub fn new(result: Result<HttpResponse>, attempts: u64) -> (call: Self)
        ensures
            call.result == result,
            call.attempts == attempts,
    {
        HttpCall { result, attempts }
    }
}

/// The name and value texts of `headers`.
pub open spec fn header_views(headers: Seq<(&str, &str)>) -> Seq<(Seq<char>, Seq<char>)> {
    Seq::new(headers.len(), |i: int| (headers[i].0@, headers[i].1@))
}

/// Sends one JSON POST request and returns the raw response.
///
/// A completed exchange is `Ok` whatever its status. `LegError::Transport` is
/// for a transient connection failure before a response arrived; a response
/// body that cannot be read is `LegError::ResponseRead`.
pub trait HttpClient {
    /// The results this client can give for a request; any, unless it says
    /// otherwise.
    open spec fn may_answer(
        &self,
        url: Seq<char>,
        headers: Seq<(Seq<char>, Seq<char>)>,
        body: Seq<char>,
        result: Result<HttpResponse>,
    ) -> bool {
        true
    }

    /// The calls, each a result and its attempts, that this client can make for a
    /// request; any, unless it says otherwise.
    open spec fn may_call(
        &self,
        url: Seq<char>,
        headers: Seq<(Seq<char>, Seq<char>)>,
        body: Seq<char>,
        call: HttpCall,
    ) -> bool {
        true
    }

    /// How a wait of `nanos` nanoseconds can end: cut short by a signal, or without
    /// one; either way, unless this client says otherwise.
    open spec fn may_pause(&self, nanos: u128, signal: Option<InterruptSignal>) -> bool {
        true
    }

    /// Posts `body` to `url` with `headers`, pairs of a name and a value.
    fn post_json(&self, url: &str, headers: &[(&str, &str)], body: &str) -> (result: Result<
        HttpResponse,
    >)
        ensures
            self.may_answer(url@, header_views(headers@), body@, result),
    ;

    /// Posts a request and reports the attempts; one, for a client that makes no
    /// more.
    fn post_json_with_attempts(&self, url: &str, headers: &[(&str, &str)], body: &str) -> (call:
        HttpCall)
        ensures
            self.may_call(url@, header_views(headers@), body@, call),
    ;

    /// Waits for `nanos` nanoseconds before a request is repeated, and returns
    /// the signal that cut the wait short, if one has arrived. A client that
    /// does not wait returns at once.
    fn pause(&self, nanos: u128) -> (signal: Option<InterruptSignal>)
        ensures
            self.may_pause(nanos, signal),
    ;
}

impl<T: HttpClient> HttpClient for &T {
    open spec fn may_answer(
        &self,
        url: Seq<char>,
        headers: Seq<(Seq<char>, Seq<char>)>,
        body: Seq<char>,
        result: Result<HttpResponse>,
    ) -> bool {
        (**self).may_answer(url, headers, body, result)
    }

    open spec fn may_call(
        &self,
        url: Seq<char>,
        headers: Seq<(Seq<char>, Seq<char>)>,
        body: Seq<char>,
        call: HttpCall,
    ) -> bool {
        (**self).may_call(url, headers, body, call)
    }

    open spec fn may_pause(&self, nanos: u128, signal: Option<InterruptSignal>) -> bool {
        (**self).may_pause(nanos, signal)
    }

    fn post_json(&self, url: &str, headers: &[(&str, &str)], body: &str) -> (result: Result<
        HttpResponse,
    >) {
        (**self).post_json(url, headers, body)
    }

    fn post_json_with_attempts(&self, url: &str, headers: &[(&str, &str)], body: &str) -> (call:
        HttpCall) {
        (**self).post_json_with_attempts(url, headers, body)
    }

    fn pause(&self, nanos: u128) -> (signal: Option<InterruptSignal>) {
        (**self).pause(nanos)
    }
}

/// Why a request got no response.
#[derive(Debug, Clone, Copy, PartialEq, Eq, Structural)]
pub enum RequestFault {
    /// Reading or writing failed.
    Io,
    /// The time for the request ran out.
    Timeout,
    /// The host has no address.
    HostNotFound,
    /// No connection came about.
    ConnectionFailed,
    /// The proxy refused the connection.
    ConnectProxyFailed,
    /// The request could not be made, or the answer was no HTTP.
    Other,
}

/// Whether a fault is one of the connection, so that the request may be
/// repeated.
pub fn is_retryable_connection_error(fault: RequestFault) -> (retryable: bool)
    ensures
        retryable == (fault != RequestFault::Other),
{
    match fault {
        RequestFault::Other => false,
        _ => true,
    }
}

/// The error for a request that got no response.
pub fn request_error(fault: RequestFault, message: String) -> (error: LegError)
    ensures
        fault != RequestFault::Other ==> error == LegError::Transport(message),
        fault == RequestFault::Other ==> error == LegError::NonRetryableTransport(message),
{
    if is_retryable_connection_error(fault) {
        LegError::Transport(message)
    } else {
        LegError::NonRetryableTransport(message)
    }
}

} // verus!
