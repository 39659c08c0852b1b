//! The participant seam: an envelope in, an envelope out.
//!
//! A participant does not fail: a provider failure is a delivered error
//! message.

use vstd::prelude::*;

use crate::error::{InterruptSignal, Result};
use crate::events::{
    elapsed_ms, error_outcome, now_ms, request_view, start_clock, trail_content, trailed, Exchange,
    ExchangeMeta, ExchangeView, Outcome, OutcomeView, RequestRecord, RequestView, SCHEMA,
};
use crate::message::{
    EnvelopeView, MessageEnvelope, MessageKind, WrappedExchange, WrappedView, MESSAGE_SCHEMA,
};
use crate::model::{
    clone_blocks, wire_of_stop, AssistantReply, BlockView, ContentBlock, Message, MessageView, Role,
};
use crate::sink::losses_added;
use crate::text::{
    concat5, decimal, decimal_text, digits_value, is_digit, law_decimal_reads_back, views,
};
use crate::tools::{NoteView, ToolObserver, Unobserved};
use crate::transport::{Transport, TransportCall};

verus! {

/// The id of a response.
pub open spec fn message_id_text(conversation_id: Seq<char>, ts_ms: u64, seq: u64) -> Seq<char> {
    conversation_id + "-r-"@ + decimal(ts_ms as nat) + "-"@ + decimal(seq as nat)
}

/// The number after `number`; the first one follows the largest.
pub open spec fn following(number: u64) -> u64 {
    if number == u64::MAX {
        0
    } else {
        (number + 1) as u64
    }
}

/// The numbers that ids are drawn with. Times do not separate responses in quick
/// succession: the number does, so one of these serves a whole process.
pub struct MessageIds {
    /// The number of the next id.
    pub next: u64,
}

impl MessageIds {
    /// Ids of which none was drawn yet.
    pub fn new() -> (ids: Self)
        ensures
            ids.next == 0,
    {
        MessageIds { next: 0 }
    }

    /// Draws the id of a response.
    pub fn fresh_message_id(&mut self, conversation_id: &str, ts_ms: u64) -> (id: String)
        ensures
            id@ == message_id_text(conversation_id@, ts_ms, old(self).next),
            final(self).next == following(old(self).next),
    {
        let seq: u64 = self.next;
        self.next = if seq == u64::MAX {
            0
        } else {
            seq + 1
        };
        concat5(
            conversation_id,
            "-r-",
            decimal_text(ts_ms).as_str(),
            "-",
            decimal_text(seq).as_str(),
        )
    }
}

impl Default for MessageIds {
    fn default() -> (ids: Self)
        ensures
            ids.next == 0,
    {
        MessageIds::new()
    }
}

/// The number that is next after `draws` ids, the first of them drawn with
/// `start`.
pub open spec fn next_after(start: u64, draws: nat) -> u64
    decreases draws,
{
    if draws == 0 {
        start
    } else {
        following(next_after(start, (draws - 1) as nat))
    }
}

proof fn lemma_next_after(start: u64, draws: nat)
    ensures
        next_after(start, draws) == (start + draws) % 0x1_0000_0000_0000_0000,
    decreases draws,
{
    if draws > 0 {
        lemma_next_after(start, (draws - 1) as nat);
    }
}

/// Any two ids drawn from the same numbers differ, whatever their conversations
/// and times, unless as many as there are numbers were drawn in between.
pub proof fn law_drawn_ids_differ(
    start: u64,
    earlier: nat,
    later: nat,
    conversation_a: Seq<char>,
    ts_a: u64,
    conversation_b: Seq<char>,
    ts_b: u64,
)
    requires
        earlier < later < earlier + 0x1_0000_0000_0000_0000,
    ensures
        message_id_text(conversation_a, ts_a, next_after(start, earlier)) != message_id_text(
            conversation_b,
            ts_b,
            next_after(start, later),
        ),
{
    lemma_next_after(start, earlier);
    lemma_next_after(start, later);
    law_fresh_ids_differ(
        conversation_a,
        ts_a,
        next_after(start, earlier),
        conversation_b,
        ts_b,
        next_after(start, later),
    );
}

/// The id of a response begins with its conversation and its time.
pub proof fn law_ids_name_their_conversation(conversation_id: Seq<char>, ts_ms: u64, seq: u64)
    ensures
        (conversation_id + "-r-"@ + decimal(ts_ms as nat) + "-"@).is_prefix_of(
            message_id_text(conversation_id, ts_ms, seq),
        ),
{
    let head = conversation_id + "-r-"@ + decimal(ts_ms as nat) + "-"@;
    let id = message_id_text(conversation_id, ts_ms, seq);
    assert(id == head + decimal(seq as nat));
    assert(head =~= id.subrange(0, head.len() as int));
}

/// Responses with different numbers have different ids, whatever their
/// conversations and times.
pub proof fn law_fresh_ids_differ(
    conversation_a: Seq<char>,
    ts_a: u64,
    a: u64,
    conversation_b: Seq<char>,
    ts_b: u64,
    b: u64,
)
    requires
        a != b,
    ensures
        message_id_text(conversation_a, ts_a, a) != message_id_text(conversation_b, ts_b, b),
{
    let left = message_id_text(conversation_a, ts_a, a);
    let right = message_id_text(conversation_b, ts_b, b);
    let da = decimal(a as nat);
    let db = decimal(b as nat);
    law_decimal_reads_back(a as nat);
    law_decimal_reads_back(b as nat);
    reveal_strlit("-");
    if left == right {
        let n = left.len();
        if da.len() == db.len() {
            assert(da =~= left.skip(n - da.len()));
            assert(db =~= right.skip(n - db.len()));
            assert(digits_value(da) == a && digits_value(db) == b);
        } else if da.len() < db.len() {
            let i = n - da.len() - 1;
            assert(left[i] == '-');
            assert(right[i] == db[i - (n - db.len())]);
            assert(is_digit(db[i - (n - db.len())]));
        } else {
            let i = n - db.len() - 1;
            assert(right[i] == '-');
            assert(left[i] == da[i - (n - da.len())]);
            assert(is_digit(da[i - (n - da.len())]));
        }
    }
}

/// The outcome of a call without a session.
pub open spec fn reply_outcome(
    ts_ms: u64,
    duration_ms: u64,
    result: Result<AssistantReply>,
) -> OutcomeView {
    match result {
        Ok(reply) => OutcomeView::Success {
            ts_ms,
            duration_ms,
            reply: reply@.text,
            content: trailed(reply@.content),
            input_tokens: reply@.usage.input_tokens,
            output_tokens: reply@.usage.output_tokens,
            stop_reason: match reply@.stop_reason {
                Some(stop) => Some(wire_of_stop(stop)),
                None => None,
            },
            session_id: None,
            turn_index: None,
        },
        Err(error) => error_outcome(ts_ms, duration_ms, error, None, None),
    }
}

/// The body of a response: the reply's text, or the error's.
pub open spec fn reply_body(result: Result<AssistantReply>) -> Seq<char> {
    match result {
        Ok(reply) => reply@.text,
        Err(error) => error.text(),
    }
}

/// The response to `request`: addressed back to its sender, in the same
/// conversation, with the record of the call inside.
pub open spec fn response_view(
    request: EnvelopeView,
    record: RequestView,
    outcome: OutcomeView,
    body: Seq<char>,
    ts_ms: u64,
    seq: u64,
) -> EnvelopeView {
    EnvelopeView {
        schema: MESSAGE_SCHEMA@,
        message_id: message_id_text(request.conversation_id, ts_ms, seq),
        conversation_id: request.conversation_id,
        from: request.to,
        to: request.from,
        in_reply_to: Some(request.message_id),
        kind: if outcome is Success {
            MessageKind::Response
        } else {
            MessageKind::Error
        },
        body,
        ts_ms,
        exchange: Some(
            WrappedView { schema: SCHEMA@, exchange: ExchangeView { request: record, outcome } },
        ),
    }
}

/// Builds the response to `request` from the record of the call it led to.
pub fn respond_to(
    request: &MessageEnvelope,
    record: RequestRecord,
    outcome: Outcome,
    body: String,
    ts_ms: u64,
    ids: &mut MessageIds,
) -> (response: MessageEnvelope)
    ensures
        response@ == response_view(request@, record@, outcome@, body@, ts_ms, old(ids).next),
        final(ids).next == following(old(ids).next),
{
    let kind = match &outcome {
        Outcome::Success { .. } => MessageKind::Response,
        Outcome::Error { .. } => MessageKind::Error,
    };
    let mut response = MessageEnvelope::new(
        ids.fresh_message_id(request.conversation_id.as_str(), ts_ms),
        request.conversation_id.as_str(),
        request.to.as_str(),
        request.from.as_str(),
        kind,
        body,
        ts_ms,
    );
    response.in_reply_to = Some(request.message_id.as_str().to_owned());
    response.exchange = Some(WrappedExchange::new(Exchange { request: record, outcome }));
    response
}

/// Builds the outcome of a call without a session.
pub fn outcome_of(ts_ms: u64, duration_ms: u64, result: &Result<AssistantReply>) -> (outcome:
    Outcome)
    ensures
        outcome@ == reply_outcome(ts_ms, duration_ms, *result),
{
    match result {
        Ok(reply) => {
            let stop_reason = match &reply.stop_reason {
                Some(stop) => Some(stop.as_str().to_owned()),
                None => None,
            };
            Outcome::Success {
                ts_ms,
                duration_ms,
                reply: reply.text.as_str().to_owned(),
                content: trail_content(reply.content.as_slice()),
                input_tokens: reply.usage.input_tokens,
                output_tokens: reply.usage.output_tokens,
                stop_reason,
                session_id: None,
                turn_index: None,
            }
        },
        Err(error) => Outcome::Error {
            ts_ms,
            duration_ms,
            kind: error.kind().to_owned(),
            message: error.to_string(),
            session_id: None,
            turn_index: None,
        },
    }
}

/// The content of a plain text.
pub open spec fn text_content(text: Seq<char>) -> Seq<BlockView> {
    seq![BlockView::Text { text }]
}

/// Answers request envelopes. A failure is an error message, never an error.
pub trait Participant {
    /// The responses this participant can give to a request that was asked as
    /// `content`; any, unless it says otherwise.
    open spec fn may_respond(
        &self,
        request: EnvelopeView,
        content: Seq<BlockView>,
        response: EnvelopeView,
    ) -> bool {
        true
    }

    /// What this participant can tell of the tools that it runs for a response;
    /// anything, unless it says otherwise.
    open spec fn may_tell(
        &self,
        request: EnvelopeView,
        content: Seq<BlockView>,
        notes: Seq<NoteView>,
        response: EnvelopeView,
    ) -> bool {
        true
    }

    /// The signal that can ask a turn of this participant to stop, or none; any of
    /// them, unless it says otherwise.
    open spec fn may_signal(&self, signal: Option<InterruptSignal>) -> bool {
        true
    }

    /// Answers `request`, asked as its body.
    fn respond(&mut self, request: &MessageEnvelope) -> (response: MessageEnvelope)
        ensures
            old(self).may_respond(request@, text_content(request@.body), response@),
    ;

    /// Answers `request`, whose user turn is `content`, and tells `observer` of
    /// the tools that were run.
    fn respond_observed<O: ToolObserver>(
        &mut self,
        request: &MessageEnvelope,
        content: &[ContentBlock],
        observer: &mut O,
    ) -> (response: MessageEnvelope)
        ensures
            old(self).may_respond(request@, views(content@), response@),
            exists|notes: Seq<NoteView>|
                final(observer).seen() == #[trigger] (old(observer).seen() + notes) && old(
                    self,
                ).may_tell(request@, views(content@), notes, response@),
            final(observer).turn() == old(observer).turn(),
            losses_added(old(observer).losses(), final(observer).losses()),
    ;

    /// The signal that asks the turn in progress to stop, if one has arrived; a
    /// participant that watches for none returns none.
    fn interrupted(&self) -> (signal: Option<InterruptSignal>)
        ensures
            self.may_signal(signal),
    ;
}

/// A participant in this process: a provider, the metadata of its records, and
/// the ids of its responses.
pub struct LocalParticipant<T: Transport> {
    /// The provider.
    pub transport: T,
    /// The metadata of the records.
    pub meta: ExchangeMeta,
    /// The ids of its responses.
    pub ids: MessageIds,
}

/// The response to `request`, asked as `content` and answered with `result`.
pub open spec fn answer_view(
    meta: ExchangeMeta,
    request: EnvelopeView,
    content: Seq<BlockView>,
    times: (u64, u64, u64),
    result: Result<AssistantReply>,
    seq: u64,
) -> EnvelopeView {
    let (asked, took, ended) = times;
    let record = RequestView {
        content: trailed(content),
        ..request_view(asked, meta, request.body, None, None)
    };
    let outcome = reply_outcome(ended, took, result);
    response_view(request, record, outcome, reply_body(result), ended, seq)
}

/// Whether a provider that is sent `content` for `request` leads to `response`,
/// at whatever times.
pub open spec fn is_answer<T: Transport>(
    transport: T,
    meta: ExchangeMeta,
    request: EnvelopeView,
    content: Seq<BlockView>,
    seq: u64,
    response: EnvelopeView,
) -> bool {
    exists|times: (u64, u64, u64), call: TransportCall<AssistantReply>|
        transport.may_call(seq![MessageView { role: Role::User, content }], call) && response
            == #[trigger] answer_view(meta, request, content, times, call.result, seq)
}

/// Whether a provider that is sent `content` for `request` can tell `notes` of its
/// tools before it leads to `response`.
pub open spec fn is_told<T: Transport>(
    transport: T,
    meta: ExchangeMeta,
    request: EnvelopeView,
    content: Seq<BlockView>,
    seq: u64,
    notes: Seq<NoteView>,
    response: EnvelopeView,
) -> bool {
    exists|times: (u64, u64, u64), call: TransportCall<AssistantReply>|
        transport.may_tell(seq![MessageView { role: Role::User, content }], notes, call)
            && response == #[trigger] answer_view(meta, request, content, times, call.result, seq)
}

impl<T: Transport> LocalParticipant<T> {
    /// A participant that has given no response yet.
    pub fn new(transport: T, meta: ExchangeMeta) -> (participant: Self)
        ensures
            participant.transport == transport,
            participant.meta == meta,
            participant.ids.next == 0,
    {
        LocalParticipant { transport, meta, ids: MessageIds::new() }
    }

    /// Sends `content` as one user turn and answers `request` with what came
    /// back.
    pub fn answer<O: ToolObserver>(
        &mut self,
        request: &MessageEnvelope,
        content: &[ContentBlock],
        observer: &mut O,
    ) -> (response: MessageEnvelope)
        ensures
            is_answer(
                old(self).transport,
                old(self).meta,
                request@,
                views(content@),
                old(self).ids.next,
                response@,
            ),
            final(self).transport == old(self).transport,
            final(self).meta == old(self).meta,
            final(self).ids.next == following(old(self).ids.next),
            exists|notes: Seq<NoteView>|
                final(observer).seen() == #[trigger] (old(observer).seen() + notes) && is_told(
                    old(self).transport,
                    old(self).meta,
                    request@,
                    views(content@),
                    old(self).ids.next,
                    notes,
                    response@,
                ),
            final(observer).turn() == old(observer).turn(),
            losses_added(old(observer).losses(), final(observer).losses()),
    {
        let asked: u64 = now_ms();
        let clock = start_clock();
        let mut messages: Vec<Message> = Vec::new();
        messages.push(Message::new(Role::User, clone_blocks(content)));
        assert(views(messages@) =~= seq![
            MessageView { role: Role::User, content: views(content@) },
        ]);
        let call = self.transport.send_observed(messages.as_slice(), observer);
        let took: u64 = elapsed_ms(&clock);
        let ended: u64 = now_ms();
        let record = RequestRecord {
            ts_ms: asked,
            model: self.meta.model.as_str().to_owned(),
            base_url: self.meta.base_url.as_str().to_owned(),
            prompt: request.body.as_str().to_owned(),
            content: trail_content(content),
            session_id: None,
            turn_index: None,
        };
        let outcome = outcome_of(ended, took, &call.result);
        let body = match &call.result {
            Ok(reply) => reply.text.as_str().to_owned(),
            Err(error) => error.to_string(),
        };
        let ghost seq = self.ids.next;
        let response = respond_to(request, record, outcome, body, ended, &mut self.ids);
        assert(response@ == answer_view(
            self.meta,
            request@,
            views(content@),
            (asked, took, ended),
            call.result,
            seq,
        ));
        response
    }
}

impl<T: Transport> Participant for LocalParticipant<T> {
    open spec fn may_respond(
        &self,
        request: EnvelopeView,
        content: Seq<BlockView>,
        response: EnvelopeView,
    ) -> bool {
        is_answer(self.transport, self.meta, request, content, self.ids.next, response)
    }

    open spec fn may_tell(
        &self,
        request: EnvelopeView,
        content: Seq<BlockView>,
        notes: Seq<NoteView>,
        response: EnvelopeView,
    ) -> bool {
        is_told(self.transport, self.meta, request, content, self.ids.next, notes, response)
    }

    open spec fn may_signal(&self, signal: Option<InterruptSignal>) -> bool {
        self.transport.may_signal(signal)
    }

    fn respond(&mut self, request: &MessageEnvelope) -> (response: MessageEnvelope) {
        let mut content: Vec<ContentBlock> = Vec::new();
        content.push(ContentBlock::text(request.body.as_str()));
        assert(views(content@) =~= text_content(request@.body));
        let mut observer = Unobserved::new();
        self.answer(request, content.as_slice(), &mut observer)
    }

    fn respond_observed<O: ToolObserver>(
        &mut self,
        request: &MessageEnvelope,
        content: &[ContentBlock],
        observer: &mut O,
    ) -> (response: MessageEnvelope) {
        self.answer(request, content, observer)
    }

    fn interrupted(&self) -> (signal: Option<InterruptSignal>) {
        self.transport.interrupted()
    }
}

} // verus!
