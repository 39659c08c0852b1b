//! The boundary between the typed model and a concrete provider client.
//!
//! [`Transport`] is what the tool loop and the session logic depend on.
//! A Messages client implements it over the [`http`] boundary, and [`retry`]
//! repeats the HTTP calls that may be repeated.

pub mod claude;
pub mod http;
pub mod retry;
pub mod trace;

use vstd::prelude::*;

use crate::error::{InterruptSignal, LegError, Result};
use crate::model::{text_message, AssistantReply, Message, MessageView, Prompt, Role};
use crate::sink::losses_added;
use crate::text::views;
use crate::tools::{NoteView, ToolObserver};

pub use retry::{RetryPolicy, RetryingHttpClient};

verus! {

/// A transport call's result and the number of provider attempts it used.
///
/// Attempts count provider calls, retries and the calls of earlier tool rounds
/// among them.
#[derive(Debug)]
pub struct TransportCall<T> {
    /// The reply or the terminal error.
    pub result: Result<T>,
    /// The provider attempts used for this call.
    pub attempts: u64,
}

impl<T> TransportCall<T> {
    /// A result with its attempt count.
    pub fn new(result: Result<T>, attempts: u64) -> (call: Self)
        ensures
            call.result == result,
            call.attempts == attempts,
    {
        TransportCall { result, attempts }
    }
}

/// Whether `error` is an interruption by a signal that `transport` can raise.
pub open spec fn is_raised<T: Transport>(transport: T, error: LegError) -> bool {
    match error {
        LegError::Interrupted { signal } => transport.may_signal(Some(signal)),
        _ => false,
    }
}

/// Sends a conversation and returns one reply.
///
/// One call sends the whole history and runs no tool: a reply's tool requests
/// go back to the caller.
pub trait Transport {
    /// The results this transport can give for a conversation; any, unless it
    /// says otherwise.
    open spec fn may_reply(&self, messages: Seq<MessageView>, result: Result<
        AssistantReply,
    >) -> bool {
        true
    }

    /// The calls, each a result and its attempts, that this transport can make
    /// for a conversation; any, unless it says otherwise.
    open spec fn may_call(
        &self,
        messages: Seq<MessageView>,
        call: TransportCall<AssistantReply>,
    ) -> bool {
        true
    }

    /// What this transport can tell of the tools that it runs while it makes
    /// `call`; anything, unless it says otherwise.
    open spec fn may_tell(
        &self,
        messages: Seq<MessageView>,
        notes: Seq<NoteView>,
        call: TransportCall<AssistantReply>,
    ) -> bool {
        true
    }

    /// The signal that can ask a turn of this transport to stop, or none; any of
    /// them, unless it says otherwise.
    open spec fn may_signal(&self, signal: Option<InterruptSignal>) -> bool {
        true
    }

    /// Sends `messages`, oldest first, and returns the reply to the last turn.
    fn send_conversation(&self, messages: &[Message]) -> (result: Result<AssistantReply>)
        ensures
            self.may_reply(views(messages@), result),
    ;

    /// Sends `messages` and reports the provider attempts; one, for a transport
    /// that makes no more.
    fn send_conversation_with_attempts(&self, messages: &[Message]) -> (call: TransportCall<
        AssistantReply,
    >)
        ensures
            self.may_call(views(messages@), call),
    ;

    /// Sends `messages` and tells `observer` of the tools that were run; of
    /// none, for a transport that runs none.
    fn send_observed<O: ToolObserver>(&self, messages: &[Message], observer: &mut O) -> (call:
        TransportCall<AssistantReply>)
        ensures
            self.may_call(views(messages@), call),
            exists|notes: Seq<NoteView>|
                final(observer).seen() == #[trigger] (old(observer).seen() + notes)
                    && self.may_tell(views(messages@), notes, call),
            final(observer).turn() == old(observer).turn(),
            losses_added(old(observer).losses(), final(observer).losses()),
    ;

    /// The signal that asks the turn in progress to stop, if one has arrived; a
    /// transport that watches for none returns none.
    fn interrupted(&self) -> (signal: Option<InterruptSignal>)
        ensures
            self.may_signal(signal),
    ;

    /// Sends a single user prompt.
    fn send(&self, prompt: &Prompt) -> (result: Result<AssistantReply>)
        ensures
            self.may_reply(seq![text_message(Role::User, prompt.text@)], result),
    {
        let messages = prompt_messages(prompt);
        self.send_conversation(messages.as_slice())
    }

    /// Sends a single user prompt and reports the provider attempts.
    fn send_with_attempts(&self, prompt: &Prompt) -> (call: TransportCall<AssistantReply>)
        ensures
            self.may_call(seq![text_message(Role::User, prompt.text@)], call),
    {
        let messages = prompt_messages(prompt);
        self.send_conversation_with_attempts(messages.as_slice())
    }
}

/// The conversation that holds one user prompt.
pub fn prompt_messages(prompt: &Prompt) -> (messages: Vec<Message>)
    ensures
        views(messages@) == seq![text_message(Role::User, prompt.text@)],
{
    let mut messages: Vec<Message> = Vec::new();
    messages.push(Message::user(prompt.text.as_str()));
    assert(views(messages@) =~= seq![text_message(Role::User, prompt.text@)]);
    messages
}

impl<T: Transport> Transport for &T {
    open spec fn may_reply(&self, messages: Seq<MessageView>, result: Result<
        AssistantReply,
    >) -> bool {
        (**self).may_reply(messages, result)
    }

    open spec fn may_call(
        &self,
        messages: Seq<MessageView>,
        call: TransportCall<AssistantReply>,
    ) -> bool {
        (**self).may_call(messages, call)
    }

    open spec fn may_tell(
        &self,
        messages: Seq<MessageView>,
        notes: Seq<NoteView>,
        call: TransportCall<AssistantReply>,
    ) -> bool {
        (**self).may_tell(messages, notes, call)
    }

    open spec fn may_signal(&self, signal: Option<InterruptSignal>) -> bool {
        (**self).may_signal(signal)
    }

    fn send_conversation(&self, messages: &[Message]) -> (result: Result<AssistantReply>) {
        (**self).send_conversation(messages)
    }

    fn send_conversation_with_attempts(&self, messages: &[Message]) -> (call: TransportCall<
        AssistantReply,
    >) {
        (**self).send_conversation_with_attempts(messages)
    }

    fn send_observed<O: ToolObserver>(&self, messages: &[Message], observer: &mut O) -> (call:
        TransportCall<AssistantReply>) {
        (**self).send_observed(messages, observer)
    }

    fn interrupted(&self) -> (signal: Option<InterruptSignal>) {
        (**self).interrupted()
    }
}

} // verus!
