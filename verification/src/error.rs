//! Error types shared across the runtime surfaces.
//!
//! Configuration failures and the provider transport's failure modes are
//! distinct variants, so that callers can react to them explicitly. The
//! Messages client maps HTTP and decode failures onto these variants rather
//! than collapsing everything into a single opaque error.

use vstd::prelude::*;

use crate::text::{concat2, concat4, decimal, decimal_text};

verus! {

/// Convenience alias for results produced by the runtime.
pub type Result<T> = std::result::Result<T, LegError>;

/// A Unix signal that interrupts an active turn.
#[derive(Debug, Clone, Copy, PartialEq, Eq, Structural)]
pub enum InterruptSignal {
    /// `SIGINT`.
    Interrupt,
    /// `SIGTERM`.
    Terminate,
}

/// What a turn comes to that ended in `result` while `signal` arrived, if one
/// did: the signal overrides the result.
pub open spec fn overridden<T>(result: Result<T>, signal: Option<InterruptSignal>) -> Result<T> {
    match signal {
        Some(signal) => Err(LegError::Interrupted { signal }),
        None => result,
    }
}

/// Lets a signal that has arrived override the result of a turn.
pub fn unless_interrupted<T>(result: Result<T>, signal: Option<InterruptSignal>) -> (ended: Result<
    T,
>)
    ensures
        ended == overridden(result, signal),
{
    match signal {
        Some(signal) => Err(LegError::Interrupted { signal }),
        None => result,
    }
}

impl InterruptSignal {
    /// The signal number.
    pub open spec fn number(self) -> int {
        match self {
            InterruptSignal::Interrupt => 2,
            InterruptSignal::Terminate => 15,
        }
    }

    /// The signal's symbolic name.
    pub open spec fn label(self) -> Seq<char> {
        match self {
            InterruptSignal::Interrupt => "SIGINT"@,
            InterruptSignal::Terminate => "SIGTERM"@,
        }
    }

    /// The interrupting signal with this number, if it is one.
    pub fn from_number(number: i32) -> (signal: Option<InterruptSignal>)
        ensures
            match signal {
                Some(s) => s.number() == number,
                None => number != 2 && number != 15,
            },
    {
        if number == 2 {
            Some(InterruptSignal::Interrupt)
        } else if number == 15 {
            Some(InterruptSignal::Terminate)
        } else {
            None
        }
    }

    /// The conventional shell exit status for this signal.
    pub fn exit_code(self) -> (code: u8)
        ensures
            code == 128 + self.number(),
    {
        match self {
            InterruptSignal::Interrupt => 130,
            InterruptSignal::Terminate => 143,
        }
    }

    /// The signal's symbolic name.
    pub fn name(self) -> (name: &'static str)
        ensures
            name@ == self.label(),
    {
        match self {
            InterruptSignal::Interrupt => "SIGINT",
            InterruptSignal::Terminate => "SIGTERM",
        }
    }
}

/// Top-level error type.
#[derive(Debug)]
pub enum LegError {
    /// A command-line argument was missing, unrecognised, or malformed.
    Usage(String),
    /// Configuration could not be loaded or was invalid.
    Config(String),
    /// A transient connection-level failure before an HTTP response arrived.
    Transport(String),
    /// A non-retryable HTTP setup or protocol failure before an HTTP response.
    NonRetryableTransport(String),
    /// A failure while reading a response body; retrying could duplicate a
    /// request after the provider has already started replying.
    ResponseRead(String),
    /// The provider rejected the credentials (HTTP 401).
    Auth(String),
    /// The provider rate-limited the request (HTTP 429 or `rate_limit_error`).
    RateLimited(String),
    /// The provider returned a server-side failure (HTTP 5xx).
    Server {
        /// The HTTP status code.
        status: u16,
        /// The optional provider error type from `error.type`.
        error_type: Option<String>,
        /// The provider's error message, or the raw body.
        message: String,
    },
    /// The provider returned some other non-success status.
    Api {
        /// The HTTP status code.
        status: u16,
        /// The optional provider error type from `error.type`.
        error_type: Option<String>,
        /// The provider's error message, or the raw body.
        message: String,
    },
    /// A 2xx response could not be decoded into a reply.
    Decode(String),
    /// A local I/O operation failed.
    Io(String),
    /// The active turn was interrupted by a Unix signal.
    Interrupted {
        /// The signal that requested the interruption.
        signal: InterruptSignal,
    },
    /// A JSONL exchange trail could not be parsed.
    Log(String),
    /// A named `exchange` session has no stored trail for the requested id.
    SessionNotFound(String),
    /// A provider turn returned a delivered error response.
    TurnFailure {
        /// The response kind.
        message_kind: String,
        /// The response's human-readable failure detail.
        message: String,
    },
}

/// `lead`, then the status, the provider's error type if there is one, and the
/// message.
pub open spec fn status_text(
    lead: Seq<char>,
    status: u16,
    error_type: Option<String>,
    message: Seq<char>,
) -> Seq<char> {
    let head = lead + " ("@ + decimal(status as nat);
    match error_type {
        Some(error_type) => head + ", "@ + error_type@ + "): "@ + message,
        None => head + "): "@ + message,
    }
}

fn status_message(lead: &str, status: u16, error_type: &Option<String>, message: &str) -> (text:
    String)
    ensures
        text@ == status_text(lead@, status, *error_type, message@),
{
    let number = decimal_text(status as u64);
    let mut text = concat2(lead, " (");
    text.append(number.as_str());
    match error_type {
        Some(error_type) => {
            text.append(", ");
            text.append(error_type.as_str());
            text.append("): ");
            text.append(message);
            text
        },
        None => {
            text.append("): ");
            text.append(message);
            text
        },
    }
}

impl LegError {
    /// The stable class of this error.
    pub open spec fn class(&self) -> Seq<char> {
        match *self {
            LegError::Usage(_) => "usage"@,
            LegError::Config(_) => "config"@,
            LegError::Transport(_) => "transport"@,
            LegError::NonRetryableTransport(_) => "transport"@,
            LegError::ResponseRead(_) => "transport"@,
            LegError::Auth(_) => "auth"@,
            LegError::RateLimited(_) => "rate_limited"@,
            LegError::Server { .. } => "server"@,
            LegError::Api { .. } => "api"@,
            LegError::Decode(_) => "decode"@,
            LegError::Io(_) => "io"@,
            LegError::Interrupted { .. } => "interrupted"@,
            LegError::Log(_) => "log"@,
            LegError::SessionNotFound(_) => "session_not_found"@,
            LegError::TurnFailure { .. } => "turn_failure"@,
        }
    }

    /// The human-readable description of this error.
    pub open spec fn text(&self) -> Seq<char> {
        match *self {
            LegError::Usage(msg) => "usage error: "@ + msg@,
            LegError::Config(msg) => "configuration error: "@ + msg@,
            LegError::Transport(msg) => "transport error: "@ + msg@,
            LegError::NonRetryableTransport(msg) => "transport error: "@ + msg@,
            LegError::ResponseRead(msg) => "transport error: "@ + msg@,
            LegError::Auth(msg) => "authentication error: "@ + msg@,
            LegError::RateLimited(msg) => "rate limited: "@ + msg@,
            LegError::Server { status, error_type, message } => status_text(
                "provider server error"@,
                status,
                error_type,
                message@,
            ),
            LegError::Api { status, error_type, message } => status_text(
                "provider error"@,
                status,
                error_type,
                message@,
            ),
            LegError::Decode(msg) => "response decode error: "@ + msg@,
            LegError::Io(msg) => "io error: "@ + msg@,
            LegError::Interrupted { signal } => "interrupted by "@ + signal.label(),
            LegError::Log(msg) => "log error: "@ + msg@,
            LegError::SessionNotFound(session_id) => "no session found: "@ + session_id@,
            LegError::TurnFailure { message_kind, message } => "turn failed (kind: "@
                + message_kind@ + "): "@ + message@,
        }
    }

    /// A stable, machine-readable class for this error.
    ///
    /// Used by the delivered-error envelope so consumers can branch on the
    /// failure kind without parsing the human-readable message.
    pub fn kind(&self) -> (kind: &'static str)
        ensures
            kind@ == self.class(),
    {
        match self {
            LegError::Usage(_) => "usage",
            LegError::Config(_) => "config",
            LegError::Transport(_) => "transport",
            LegError::NonRetryableTransport(_) => "transport",
            LegError::ResponseRead(_) => "transport",
            LegError::Auth(_) => "auth",
            LegError::RateLimited(_) => "rate_limited",
            LegError::Server { .. } => "server",
            LegError::Api { .. } => "api",
            LegError::Decode(_) => "decode",
            LegError::Io(_) => "io",
            LegError::Interrupted { .. } => "interrupted",
            LegError::Log(_) => "log",
            LegError::SessionNotFound(_) => "session_not_found",
            LegError::TurnFailure { .. } => "turn_failure",
        }
    }

    /// The human-readable description of this error.
    pub fn to_string(&self) -> (text: String)
        ensures
            text@ == self.text(),
    {
        match self {
            LegError::Usage(msg) => concat2("usage error: ", msg.as_str()),
            LegError::Config(msg) => concat2("configuration error: ", msg.as_str()),
            LegError::Transport(msg) => concat2("transport error: ", msg.as_str()),
            LegError::NonRetryableTransport(msg) => concat2("transport error: ", msg.as_str()),
            LegError::ResponseRead(msg) => concat2("transport error: ", msg.as_str()),
            LegError::Auth(msg) => concat2("authentication error: ", msg.as_str()),
            LegError::RateLimited(msg) => concat2("rate limited: ", msg.as_str()),
            LegError::Server { status, error_type, message } => status_message(
                "provider server error",
                *status,
                error_type,
                message.as_str(),
            ),
            LegError::Api { status, error_type, message } => status_message(
                "provider error",
                *status,
                error_type,
                message.as_str(),
            ),
            LegError::Decode(msg) => concat2("response decode error: ", msg.as_str()),
            LegError::Io(msg) => concat2("io error: ", msg.as_str()),
            LegError::Interrupted { signal } => concat2("interrupted by ", signal.name()),
            LegError::Log(msg) => concat2("log error: ", msg.as_str()),
            LegError::SessionNotFound(session_id) => concat2(
                "no session found: ",
                session_id.as_str(),
            ),
            LegError::TurnFailure { message_kind, message } => concat4(
                "turn failed (kind: ",
                message_kind.as_str(),
                "): ",
                message.as_str(),
            ),
        }
    }
}

} // verus!
