//! What was done for one HTTP request.
//!
//! A [`CallTrace`] grows by what is done through it and by nothing else: so what
//! it holds was done, as often and in the order that it says.

use vstd::prelude::*;

use crate::error::InterruptSignal;
use crate::transport::http::{header_views, HttpCall, HttpClient};

verus! {

/// The calls made for a request, and the waits between them, each with the signal
/// that cut it short, if one did.
pub struct TraceView {
    pub calls: Seq<HttpCall>,
    pub waits: Seq<(u128, Option<InterruptSignal>)>,
}

/// Makes the calls and the waits of a request.
pub struct CallTrace {
    done: Ghost<TraceView>,
}

impl View for CallTrace {
    type V = TraceView;

    closed spec fn view(&self) -> TraceView {
        self.done@
    }
}

impl CallTrace {
    /// Nothing was done yet.
    pub fn new() -> (trace: Self)
        ensures
            trace@.calls == Seq::<HttpCall>::empty(),
            trace@.waits == Seq::<(u128, Option<InterruptSignal>)>::empty(),
    {
        CallTrace { done: Ghost(TraceView { calls: Seq::empty(), waits: Seq::empty() }) }
    }

    /// Posts the request through `client`.
    pub fn post<H: HttpClient>(
        &mut self,
        client: &H,
        url: &str,
        headers: &[(&str, &str)],
        body: &str,
    ) -> (call: HttpCall)
        ensures
            client.may_call(url@, header_views(headers@), body@, call),
            final(self)@.calls == old(self)@.calls.push(call),
            final(self)@.waits == old(self)@.waits,
    {
        let call = client.post_json_with_attempts(url, headers, body);
        self.done = Ghost(TraceView { calls: self.done@.calls.push(call), ..self.done@ });
        call
    }

    /// Waits through `client`.
    pub fn pause<H: HttpClient>(&mut self, client: &H, nanos: u128) -> (signal: Option<
        InterruptSignal,
    >)
        ensures
            client.may_pause(nanos, signal),
            final(self)@.calls == old(self)@.calls,
            final(self)@.waits == old(self)@.waits.push((nanos, signal)),
    {
        let signal = client.pause(nanos);
        self.done = Ghost(
            TraceView { waits: self.done@.waits.push((nanos, signal)), ..self.done@ },
        );
        signal
    }
}

} // verus!
