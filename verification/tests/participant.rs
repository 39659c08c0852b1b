use leg::error::{InterruptSignal, LegError};
use leg::events::{ExchangeMeta, Outcome};
use leg::message::{MessageEnvelope, MessageKind};
use leg::model::{AssistantReply, Message};
use leg::participant::{LocalParticipant, MessageIds, Participant};
use leg::tools::ToolObserver;
use leg::transport::{Transport, TransportCall};

struct FakeTransport(Result<AssistantReply, ()>);

impl Transport for FakeTransport {
    fn send_conversation(
        &self,
        _messages: &[leg::model::Message],
    ) -> leg::error::Result<AssistantReply> {
        match &self.0 {
            Ok(reply) => Ok(reply.clone()),
            Err(()) => Err(LegError::Auth("bad credentials".to_string())),
        }
    }

    fn send_conversation_with_attempts(
        &self,
        messages: &[Message],
    ) -> TransportCall<AssistantReply> {
        TransportCall::new(self.send_conversation(messages), 1)
    }

    fn send_observed<O: ToolObserver>(
        &self,
        messages: &[Message],
        _observer: &mut O,
    ) -> TransportCall<AssistantReply> {
        self.send_conversation_with_attempts(messages)
    }

    fn interrupted(&self) -> Option<InterruptSignal> {
        None
    }
}

fn request() -> MessageEnvelope {
    let mut envelope = MessageEnvelope::new(
        "m-1",
        "c-1",
        "user",
        "assistant",
        MessageKind::Request,
        "hello",
        1_700_000_000_000,
    );
    envelope.in_reply_to = None;
    envelope
}

fn meta() -> ExchangeMeta {
    ExchangeMeta {
        model: "test-model".to_string(),
        base_url: "https://api.anthropic.com".to_string(),
    }
}

#[test]
fn success_reply_swaps_addressing_and_nests_ok_outcome() {
    let mut participant =
        LocalParticipant::new(FakeTransport(Ok(AssistantReply::new("hi there"))), meta());
    let response = participant.respond(&request());

    assert_eq!(response.kind, MessageKind::Response);
    assert_eq!(response.body, "hi there");
    assert_eq!(response.from, "assistant");
    assert_eq!(response.to, "user");
    assert_eq!(response.conversation_id, "c-1");
    assert_eq!(response.in_reply_to.as_deref(), Some("m-1"));
    match &response.exchange.expect("wrapped").exchange.outcome {
        Outcome::Success { reply, .. } => assert_eq!(reply, "hi there"),
        other => panic!("expected Ok outcome, got {other:?}"),
    }
}

#[test]
fn provider_failure_is_delivered_as_error_envelope_not_a_panic_or_err() {
    let mut participant = LocalParticipant::new(FakeTransport(Err(())), meta());
    let response = participant.respond(&request());

    assert_eq!(response.kind, MessageKind::Error);
    assert_eq!(response.body, "authentication error: bad credentials");
    match &response.exchange.expect("wrapped").exchange.outcome {
        Outcome::Error { kind, .. } => assert_eq!(kind, "auth"),
        other => panic!("expected Error outcome, got {other:?}"),
    }
}

#[test]
fn fresh_message_id_is_unique_across_calls() {
    let mut ids = MessageIds::new();
    let a = ids.fresh_message_id("c-1", 1_000);
    let b = ids.fresh_message_id("c-1", 1_000);
    assert_ne!(a, b);
}

#[test]
fn responses_of_one_participant_are_numbered() {
    let mut participant =
        LocalParticipant::new(FakeTransport(Ok(AssistantReply::new("hi there"))), meta());
    let first = participant.respond(&request());
    let second = participant.respond(&request());
    assert_eq!(first.message_id, format!("c-1-r-{}-0", first.ts_ms));
    assert_eq!(second.message_id, format!("c-1-r-{}-1", second.ts_ms));
    let mut ids = MessageIds { next: 7 };
    assert_eq!(ids.fresh_message_id("c-1", 1_000), "c-1-r-1000-7");
    let mut ids = MessageIds { next: u64::MAX };
    assert_eq!(
        ids.fresh_message_id("c-1", 1_000),
        "c-1-r-1000-18446744073709551615"
    );
    assert_eq!(ids.fresh_message_id("c-1", 1_000), "c-1-r-1000-0");
}
