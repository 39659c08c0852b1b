//! The peer-message envelope.

use vstd::prelude::*;

use crate::events::{Exchange, ExchangeView, Outcome, OutcomeView, SCHEMA};
use crate::json::{
    add_member, field, json_text, member_trees, object, string, unsigned, Json, JsonTree,
    JsonValue, NumberTree,
};
use crate::text::{concat3, opt_view, same_text, IntoText};
use crate::wire::{
    add_outcome, add_request, count_field, decode_failure, decode_request, decode_success, decoded,
    invalid, missing, opt_text_field, outcome_event, outcome_members, outcome_time, outcome_word,
    read_count, read_failure, read_opt_text, read_request, read_success, read_text,
    request_members, text_field,
};

verus! {

/// The schema tag of every envelope.
pub const MESSAGE_SCHEMA: &'static str = "baton.message/v1";

/// What a message is.
#[derive(Debug, Clone, Copy, PartialEq, Eq, Structural)]
pub enum MessageKind {
    /// A request for a reply.
    Request,
    /// The reply to a request.
    Response,
    /// The failure to answer a request.
    Error,
}

/// The wire word of a kind.
pub open spec fn kind_wire(kind: MessageKind) -> Seq<char> {
    match kind {
        MessageKind::Request => "request"@,
        MessageKind::Response => "response"@,
        MessageKind::Error => "error"@,
    }
}

impl MessageKind {
    /// The wire word of the kind.
    pub fn as_str(self) -> (word: &'static str)
        ensures
            word@ == kind_wire(self),
    {
        match self {
            MessageKind::Request => "request",
            MessageKind::Response => "response",
            MessageKind::Error => "error",
        }
    }
}

/// An exchange record as an envelope carries it.
#[derive(Debug, PartialEq, Eq)]
pub struct WrappedExchange {
    /// The schema tag of the record.
    pub schema: String,
    /// The record.
    pub exchange: Exchange,
}

/// The view of a [`WrappedExchange`].
pub struct WrappedView {
    pub schema: Seq<char>,
    pub exchange: ExchangeView,
}

impl View for WrappedExchange {
    type V = WrappedView;

    open spec fn view(&self) -> WrappedView {
        WrappedView { schema: self.schema@, exchange: self.exchange@ }
    }
}

impl WrappedExchange {
    /// Wraps `exchange` under the record's schema tag.
    pub fn new(exchange: Exchange) -> (wrapped: Self)
        ensures
            wrapped.schema@ == SCHEMA@,
            wrapped.exchange == exchange,
    {
        WrappedExchange { schema: SCHEMA.to_owned(), exchange }
    }
}

/// One message between peers.
#[derive(Debug, PartialEq, Eq)]
pub struct MessageEnvelope {
    /// The schema tag.
    pub schema: String,
    /// The id of this message.
    pub message_id: String,
    /// The conversation it belongs to.
    pub conversation_id: String,
    /// Its sender.
    pub from: String,
    /// Its recipient.
    pub to: String,
    /// The message it answers, if it answers one.
    pub in_reply_to: Option<String>,
    /// What it is.
    pub kind: MessageKind,
    /// Its text.
    pub body: String,
    /// Its time, Unix epoch milliseconds.
    pub ts_ms: u64,
    /// The record of the provider call behind it, if there was one.
    pub exchange: Option<WrappedExchange>,
}

/// The view of a [`MessageEnvelope`].
pub struct EnvelopeView {
    pub schema: Seq<char>,
    pub message_id: Seq<char>,
    pub conversation_id: Seq<char>,
    pub from: Seq<char>,
    pub to: Seq<char>,
    pub in_reply_to: Option<Seq<char>>,
    pub kind: MessageKind,
    pub body: Seq<char>,
    pub ts_ms: u64,
    pub exchange: Option<WrappedView>,
}

impl View for MessageEnvelope {
    type V = EnvelopeView;

    open spec fn view(&self) -> EnvelopeView {
        EnvelopeView {
            schema: self.schema@,
            message_id: self.message_id@,
            conversation_id: self.conversation_id@,
            from: self.from@,
            to: self.to@,
            in_reply_to: opt_view(self.in_reply_to),
            kind: self.kind,
            body: self.body@,
            ts_ms: self.ts_ms,
            exchange: opt_view(self.exchange),
        }
    }
}

// ---------------------------------------------------------------------------
// Writing

/// The object of a nested request record.
pub open spec fn request_record_tree(request: crate::events::RequestRecord) -> JsonTree {
    JsonTree::Object(
        request_members(
            seq![("ts_ms"@, JsonTree::Number(NumberTree::Unsigned(request.ts_ms)))],
            request,
        ),
    )
}

/// The object of a nested outcome.
pub open spec fn outcome_tree(outcome: Outcome) -> JsonTree {
    JsonTree::Object(
        outcome_members(
            seq![
                ("event"@, JsonTree::Text(outcome_event(outcome))),
                ("ts_ms"@, JsonTree::Number(NumberTree::Unsigned(outcome_time(outcome)))),
            ],
            outcome,
        ),
    )
}

/// The object of a wrapped record.
pub open spec fn wrapped_tree(wrapped: WrappedExchange) -> JsonTree {
    JsonTree::Object(
        seq![
            ("schema"@, JsonTree::Text(wrapped.schema@)),
            (
                "exchange"@,
                JsonTree::Object(
                    seq![
                        ("request"@, request_record_tree(wrapped.exchange.request)),
                        ("outcome"@, outcome_tree(wrapped.exchange.outcome)),
                    ],
                ),
            ),
        ],
    )
}

/// The object of an envelope: every member is there, absent ones as `null`.
pub open spec fn envelope_tree(envelope: MessageEnvelope) -> JsonTree {
    JsonTree::Object(
        seq![
            ("schema"@, JsonTree::Text(envelope.schema@)),
            ("message_id"@, JsonTree::Text(envelope.message_id@)),
            ("conversation_id"@, JsonTree::Text(envelope.conversation_id@)),
            ("from"@, JsonTree::Text(envelope.from@)),
            ("to"@, JsonTree::Text(envelope.to@)),
            (
                "in_reply_to"@,
                match envelope.in_reply_to {
                    Some(id) => JsonTree::Text(id@),
                    None => JsonTree::Null,
                },
            ),
            ("kind"@, JsonTree::Text(kind_wire(envelope.kind))),
            ("body"@, JsonTree::Text(envelope.body@)),
            ("ts_ms"@, JsonTree::Number(NumberTree::Unsigned(envelope.ts_ms))),
            (
                "exchange"@,
                match envelope.exchange {
                    Some(wrapped) => wrapped_tree(wrapped),
                    None => JsonTree::Null,
                },
            ),
        ],
    )
}

fn wrapped_json(wrapped: &WrappedExchange) -> (json: Json)
    ensures
        json@ == wrapped_tree(*wrapped),
{
    let mut request: Vec<(String, Json)> = Vec::new();
    add_member(&mut request, "ts_ms", unsigned(wrapped.exchange.request.ts_ms));
    assert(member_trees(request@) =~= seq![
        (
            "ts_ms"@,
            JsonTree::Number(NumberTree::Unsigned(wrapped.exchange.request.ts_ms)),
        ),
    ]);
    add_request(&mut request, &wrapped.exchange.request);
    let outcome = &wrapped.exchange.outcome;
    let ts_ms: u64 = match outcome {
        Outcome::Success { ts_ms, .. } => *ts_ms,
        Outcome::Error { ts_ms, .. } => *ts_ms,
    };
    let mut ended: Vec<(String, Json)> = Vec::new();
    add_member(&mut ended, "event", string(outcome_word(outcome)));
    add_member(&mut ended, "ts_ms", unsigned(ts_ms));
    assert(member_trees(ended@) =~= seq![
        ("event"@, JsonTree::Text(outcome_event(*outcome))),
        ("ts_ms"@, JsonTree::Number(NumberTree::Unsigned(outcome_time(*outcome)))),
    ]);
    add_outcome(&mut ended, outcome);
    let mut exchange: Vec<(String, Json)> = Vec::new();
    add_member(&mut exchange, "request", object(request));
    add_member(&mut exchange, "outcome", object(ended));
    let ghost inner = seq![
        ("request"@, request_record_tree(wrapped.exchange.request)),
        ("outcome"@, outcome_tree(wrapped.exchange.outcome)),
    ];
    assert(member_trees(exchange@) =~= inner);
    let mut members: Vec<(String, Json)> = Vec::new();
    add_member(&mut members, "schema", string(wrapped.schema.as_str()));
    add_member(&mut members, "exchange", object(exchange));
    assert(member_trees(members@) =~= wrapped_tree(*wrapped)->Object_0);
    object(members)
}

impl MessageEnvelope {
    /// A message that answers nothing and carries no record.
    pub fn new(
        message_id: impl IntoText,
        conversation_id: impl IntoText,
        from: impl IntoText,
        to: impl IntoText,
        kind: MessageKind,
        body: impl IntoText,
        ts_ms: u64,
    ) -> (envelope: Self)
        ensures
            envelope@ == (EnvelopeView {
                schema: MESSAGE_SCHEMA@,
                message_id: message_id.as_text(),
                conversation_id: conversation_id.as_text(),
                from: from.as_text(),
                to: to.as_text(),
                in_reply_to: None,
                kind,
                body: body.as_text(),
                ts_ms,
                exchange: None,
            }),
    {
        MessageEnvelope {
            schema: MESSAGE_SCHEMA.to_owned(),
            message_id: message_id.into_text(),
            conversation_id: conversation_id.into_text(),
            from: from.into_text(),
            to: to.into_text(),
            in_reply_to: None,
            kind,
            body: body.into_text(),
            ts_ms,
            exchange: None,
        }
    }

    /// The envelope as JSON.
    pub fn to_json(&self) -> (json: Json)
        ensures
            json@ == envelope_tree(*self),
    {
        let mut members: Vec<(String, Json)> = Vec::new();
        add_member(&mut members, "schema", string(self.schema.as_str()));
        add_member(&mut members, "message_id", string(self.message_id.as_str()));
        add_member(&mut members, "conversation_id", string(self.conversation_id.as_str()));
        add_member(&mut members, "from", string(self.from.as_str()));
        add_member(&mut members, "to", string(self.to.as_str()));
        let in_reply_to = match &self.in_reply_to {
            Some(id) => string(id.as_str()),
            None => Json::Null,
        };
        add_member(&mut members, "in_reply_to", in_reply_to);
        add_member(&mut members, "kind", string(self.kind.as_str()));
        add_member(&mut members, "body", string(self.body.as_str()));
        add_member(&mut members, "ts_ms", unsigned(self.ts_ms));
        let exchange = match &self.exchange {
            Some(wrapped) => wrapped_json(wrapped),
            None => Json::Null,
        };
        add_member(&mut members, "exchange", exchange);
        assert(member_trees(members@) =~= envelope_tree(*self)->Object_0);
        object(members)
    }

    /// The envelope as one line of JSON text.
    pub fn to_text(&self) -> (text: String)
        ensures
            text@ == json_text(envelope_tree(*self)),
    {
        self.to_json().to_text()
    }
}

// ---------------------------------------------------------------------------
// Reading

/// The `kind` member.
pub open spec fn kind_field(v: JsonValue) -> Result<MessageKind, Seq<char>> {
    match text_field(v, "kind"@) {
        Err(message) => Err(message),
        Ok(word) => if word == "request"@ {
            Ok(MessageKind::Request)
        } else if word == "response"@ {
            Ok(MessageKind::Response)
        } else if word == "error"@ {
            Ok(MessageKind::Error)
        } else {
            Err(invalid("kind"@))
        },
    }
}

/// The outcome that `v` holds.
pub open spec fn decode_outcome(v: JsonValue) -> Result<OutcomeView, Seq<char>> {
    match text_field(v, "event"@) {
        Err(message) => Err(message),
        Ok(word) => if word == "response_ok"@ {
            decode_success(v)
        } else if word == "response_error"@ {
            decode_failure(v)
        } else {
            Err(invalid("event"@))
        },
    }
}

/// The wrapped record that `v` holds.
pub open spec fn decode_wrapped(v: JsonValue) -> Result<WrappedView, Seq<char>> {
    match (text_field(v, "schema"@), field(v, "exchange"@)) {
        (Err(message), _) => Err(message),
        (_, None) => Err(missing("exchange"@)),
        (Ok(schema), Some(exchange)) => match (field(exchange, "request"@), field(
            exchange,
            "outcome"@,
        )) {
            (None, _) => Err(missing("request"@)),
            (_, None) => Err(missing("outcome"@)),
            (Some(request), Some(outcome)) => match (decode_request(request), decode_outcome(
                outcome,
            )) {
                (Err(message), _) => Err(message),
                (_, Err(message)) => Err(message),
                (Ok(request), Ok(outcome)) => Ok(
                    WrappedView { schema, exchange: ExchangeView { request, outcome } },
                ),
            },
        },
    }
}

/// The optional `exchange` member; `null` counts as absent.
pub open spec fn exchange_field(v: JsonValue) -> Result<Option<WrappedView>, Seq<char>> {
    match field(v, "exchange"@) {
        None => Ok(None),
        Some(JsonValue::Null) => Ok(None),
        Some(inner) => match decode_wrapped(inner) {
            Ok(wrapped) => Ok(Some(wrapped)),
            Err(message) => Err(message),
        },
    }
}

/// The envelope that `v` holds, or what is wrong with it.
pub open spec fn decode_envelope(v: JsonValue) -> Result<EnvelopeView, Seq<char>> {
    match (
        text_field(v, "schema"@),
        text_field(v, "message_id"@),
        text_field(v, "conversation_id"@),
        text_field(v, "from"@),
        text_field(v, "to"@),
        opt_text_field(v, "in_reply_to"@),
        kind_field(v),
        text_field(v, "body"@),
        count_field(v, "ts_ms"@),
        exchange_field(v),
    ) {
        (Err(m), _, _, _, _, _, _, _, _, _) => Err(m),
        (_, Err(m), _, _, _, _, _, _, _, _) => Err(m),
        (_, _, Err(m), _, _, _, _, _, _, _) => Err(m),
        (_, _, _, Err(m), _, _, _, _, _, _) => Err(m),
        (_, _, _, _, Err(m), _, _, _, _, _) => Err(m),
        (_, _, _, _, _, Err(m), _, _, _, _) => Err(m),
        (_, _, _, _, _, _, Err(m), _, _, _) => Err(m),
        (_, _, _, _, _, _, _, Err(m), _, _) => Err(m),
        (_, _, _, _, _, _, _, _, Err(m), _) => Err(m),
        (_, _, _, _, _, _, _, _, _, Err(m)) => Err(m),
        (
            Ok(schema),
            Ok(message_id),
            Ok(conversation_id),
            Ok(from),
            Ok(to),
            Ok(in_reply_to),
            Ok(kind),
            Ok(body),
            Ok(ts_ms),
            Ok(exchange),
        ) => Ok(
            EnvelopeView {
                schema,
                message_id,
                conversation_id,
                from,
                to,
                in_reply_to,
                kind,
                body,
                ts_ms,
                exchange,
            },
        ),
    }
}

fn read_kind(json: &Json) -> (result: Result<MessageKind, String>)
    ensures
        match result {
            Ok(kind) => kind_field(json.value()) == Ok::<MessageKind, Seq<char>>(kind),
            Err(message) => kind_field(json.value()) == Err::<MessageKind, Seq<char>>(message@),
        },
{
    let word = read_text(json, "kind")?;
    if same_text(word.as_str(), "request") {
        Ok(MessageKind::Request)
    } else if same_text(word.as_str(), "response") {
        Ok(MessageKind::Response)
    } else if same_text(word.as_str(), "error") {
        Ok(MessageKind::Error)
    } else {
        Err(concat3("invalid field `", "kind", "`"))
    }
}

fn read_outcome(json: &Json) -> (result: Result<Outcome, String>)
    ensures
        decoded(result) == decode_outcome(json.value()),
{
    let word = read_text(json, "event")?;
    if same_text(word.as_str(), "response_ok") {
        read_success(json)
    } else if same_text(word.as_str(), "response_error") {
        read_failure(json)
    } else {
        Err(concat3("invalid field `", "event", "`"))
    }
}

fn read_wrapped(json: &Json) -> (result: Result<WrappedExchange, String>)
    ensures
        decoded(result) == decode_wrapped(json.value()),
{
    let schema = read_text(json, "schema")?;
    let exchange = match json.get("exchange") {
        Some(exchange) => exchange,
        None => {
            return Err(concat3("missing field `", "exchange", "`"));
        },
    };
    let request = match exchange.get("request") {
        Some(request) => request,
        None => {
            return Err(concat3("missing field `", "request", "`"));
        },
    };
    let outcome = match exchange.get("outcome") {
        Some(outcome) => outcome,
        None => {
            return Err(concat3("missing field `", "outcome", "`"));
        },
    };
    let request = read_request(request)?;
    let outcome = read_outcome(outcome)?;
    Ok(WrappedExchange { schema, exchange: Exchange { request, outcome } })
}

fn read_exchange(json: &Json) -> (result: Result<Option<WrappedExchange>, String>)
    ensures
        match result {
            Ok(wrapped) => exchange_field(json.value()) == Ok::<Option<WrappedView>, Seq<char>>(
                opt_view(wrapped),
            ),
            Err(message) => exchange_field(json.value()) == Err::<Option<WrappedView>, Seq<char>>(
                message@,
            ),
        },
{
    match json.get("exchange") {
        None => Ok(None),
        Some(inner) => match inner {
            Json::Null => Ok(None),
            _ => match read_wrapped(inner) {
                Ok(wrapped) => Ok(Some(wrapped)),
                Err(message) => Err(message),
            },
        },
    }
}

/// Reads an envelope.
pub fn read_envelope(json: &Json) -> (result: Result<MessageEnvelope, String>)
    ensures
        decoded(result) == decode_envelope(json.value()),
{
    let schema = read_text(json, "schema")?;
    let message_id = read_text(json, "message_id")?;
    let conversation_id = read_text(json, "conversation_id")?;
    let from = read_text(json, "from")?;
    let to = read_text(json, "to")?;
    let in_reply_to = read_opt_text(json, "in_reply_to")?;
    let kind = read_kind(json)?;
    let body = read_text(json, "body")?;
    let ts_ms: u64 = read_count(json, "ts_ms")?;
    let exchange = read_exchange(json)?;
    Ok(
        MessageEnvelope {
            schema,
            message_id,
            conversation_id,
            from,
            to,
            in_reply_to,
            kind,
            body,
            ts_ms,
            exchange,
        },
    )
}

} // verus!
