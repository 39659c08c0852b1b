//! What a request comes to: who is answered, what is written, what is recorded.

use vstd::prelude::*;

use crate::error::{overridden, status_text, InterruptSignal, LegError, Result};
use crate::events::{
    content_attached, request_view, EventView, ExchangeMeta, OutcomeView, RequestView,
};
use crate::exchange::{
    answer_events, ask_request, asked_event, cap_warning, is_answered, is_ask_written, is_request,
    is_session_exchange, is_written, plain_request, turn_body, without_line_ends, ExchangeMode,
    Output, SessionOutput,
};
use crate::json::{field, json_text, parsed, value, JsonValue, NumberTree};
use crate::laws::layout::{is_joined, law_join_lays_out_every_part};
use crate::laws::request::says;
use crate::laws::turns::is_noted;
use crate::message::{decode_envelope, envelope_tree, EnvelopeView, MessageEnvelope, MessageKind};
use crate::model::{AssistantReply, BlockView, MessageView, Role};
use crate::participant::{answer_view, is_answer, is_told, response_view, Participant};
use crate::session::{turn_outcome, ResumedSession};
use crate::text::{decimal, join_with};
use crate::tools::{NoteView, ToolLoop, TurnOutcome};
use crate::trail::{note_events, untimed_outcome};
use crate::transport::{Transport, TransportCall};

verus! {

/// The word of a kind of message.
pub open spec fn word_of(kind: MessageKind) -> Seq<char> {
    match kind {
        MessageKind::Request => "request"@,
        MessageKind::Response => "response"@,
        MessageKind::Error => "error"@,
    }
}

/// An envelope is read member by member, and only where all of them are there.
pub proof fn law_envelopes_are_read_member_by_member(v: JsonValue)
    ensures
        decode_envelope(v) matches Ok(envelope) ==> {
            &&& says(v, "schema"@, envelope.schema)
            &&& says(v, "message_id"@, envelope.message_id)
            &&& says(v, "conversation_id"@, envelope.conversation_id)
            &&& says(v, "from"@, envelope.from)
            &&& says(v, "to"@, envelope.to)
            &&& says(v, "kind"@, word_of(envelope.kind))
            &&& says(v, "body"@, envelope.body)
            &&& field(v, "ts_ms"@) == Some(JsonValue::Number(NumberTree::Unsigned(envelope.ts_ms)))
            &&& match envelope.in_reply_to {
                Some(id) => says(v, "in_reply_to"@, id),
                None => field(v, "in_reply_to"@) is None || field(v, "in_reply_to"@) == Some(
                    JsonValue::Null,
                ),
            }
        },
{
}

/// Whether `body` is `raw` without the line ends at its end, and nothing else is cut
/// off.
pub open spec fn is_without_line_ends(raw: Seq<char>, body: Seq<char>, n: int) -> bool {
    &&& 0 <= n <= raw.len()
    &&& body == raw.take(n)
    &&& n > 0 ==> raw[n - 1] != '\r' && raw[n - 1] != '\n'
    &&& forall|i: int| n <= i < raw.len() ==> #[trigger] raw[i] == '\r' || raw[i] == '\n'
}

proof fn lemma_line_ends(raw: Seq<char>) -> (n: int)
    ensures
        is_without_line_ends(raw, without_line_ends(raw), n),
    decreases raw.len(),
{
    if raw.len() > 0 && (raw.last() == '\r' || raw.last() == '\n') {
        let shorter = raw.drop_last();
        let n = lemma_line_ends(shorter);
        assert(shorter.take(n) =~= raw.take(n));
        assert forall|i: int| n <= i < raw.len() implies #[trigger] raw[i] == '\r' || raw[i]
            == '\n' by {
            if i < shorter.len() {
                assert(shorter[i] == raw[i]);
            }
        }
        n
    } else {
        assert(raw.take(raw.len() as int) =~= raw);
        raw.len() as int
    }
}

/// An input that is an envelope is the request; any other input is asked as it is, but
/// for the line ends at its end.
pub proof fn law_the_input_is_the_request(
    raw: Seq<char>,
    request: EnvelopeView,
    mode: ExchangeMode,
)
    requires
        is_request(raw, request, mode),
    ensures
        mode == ExchangeMode::Envelope <==> parsed(raw) is Ok && decode_envelope(
            value(parsed(raw)->Ok_0),
        ) is Ok,
        mode == ExchangeMode::Envelope ==> decode_envelope(value(parsed(raw)->Ok_0))
            == Ok::<EnvelopeView, Seq<char>>(request),
        mode == ExchangeMode::PlainText ==> {
            &&& exists|n: int| #[trigger] is_without_line_ends(raw, request.body, n)
            &&& request.kind == MessageKind::Request
            &&& request.from == "external"@
            &&& request.to == "leg"@
            &&& request.conversation_id == "exchange"@
            &&& request.message_id == "exchange-1"@
            &&& request.in_reply_to is None
            &&& request.exchange is None
        },
{
    let n = lemma_line_ends(raw);
    if mode == ExchangeMode::PlainText {
        let ts_ms = choose|ts_ms: u64| request == #[trigger] plain_request(raw, ts_ms);
        assert(request.body == without_line_ends(raw));
        assert(is_without_line_ends(raw, request.body, n));
    }
}

/// How a delivered error ends the command.
pub open spec fn fails_with(result: Result<()>, message: Seq<char>) -> bool {
    result matches Err(LegError::TurnFailure { message_kind, message: text }) && message_kind@
        == "error"@ && text@ == message
}

/// The response to an envelope is written as an envelope, whatever it is. The response
/// to a text is its body where it is an answer, and nothing where it is an error. An
/// error fails the command either way, with the body as its message.
pub proof fn law_responses_are_written_in_kind(
    mode: ExchangeMode,
    response: MessageEnvelope,
    output: Output,
)
    requires
        is_written(mode, response, output),
    ensures
        mode == ExchangeMode::Envelope ==> output.text@ == json_text(envelope_tree(response))
            + "\n"@,
        mode == ExchangeMode::PlainText && response.kind == MessageKind::Response
            ==> output.text@ == response.body@ + "\n"@,
        mode == ExchangeMode::PlainText && response.kind != MessageKind::Response
            ==> output.text@ == ""@,
        response.kind == MessageKind::Error ==> fails_with(output.result, response.body@),
        response.kind != MessageKind::Error ==> output.result is Ok,
{
}

/// The reply to a prompt is written as its body; an error writes nothing and fails the
/// command with its message.
pub proof fn law_asked_replies_are_written(response: MessageEnvelope, output: Output)
    requires
        is_ask_written(response, output),
    ensures
        response.kind == MessageKind::Response ==> output.text@ == response.body@ + "\n"@
            && output.result is Ok,
        response.kind == MessageKind::Error ==> output.text@ == ""@ && fails_with(
            output.result,
            response.body@,
        ),
        output.notice@ == ""@,
{
}

/// A response goes back to where the request came from, in the same conversation and
/// under the id of the request; it is an answer where the call succeeded and an error
/// where it did not, and it carries the record of the call.
pub proof fn law_responses_go_back_to_the_sender(
    request: EnvelopeView,
    record: RequestView,
    outcome: OutcomeView,
    body: Seq<char>,
    ts_ms: u64,
    seq: u64,
)
    ensures
        ({
            let response = response_view(request, record, outcome, body, ts_ms, seq);
            &&& response.to == request.from
            &&& response.from == request.to
            &&& response.conversation_id == request.conversation_id
            &&& response.in_reply_to == Some(request.message_id)
            &&& response.kind == MessageKind::Response <==> outcome is Success
            &&& response.kind == MessageKind::Error <==> outcome is Error
            &&& response.body == body
            &&& response.ts_ms == ts_ms
            &&& response.exchange matches Some(wrapped) && wrapped.exchange.request == record
                && wrapped.exchange.outcome == outcome
        }),
{
}

/// What is kept of the blocks of a turn beside its text: nothing, where they are
/// exactly one text.
pub open spec fn kept_beside_text(blocks: Seq<BlockView>) -> Option<Seq<BlockView>> {
    if blocks.len() == 1 && blocks[0] is Text {
        None
    } else {
        Some(blocks)
    }
}

/// The body of a response is the text of the reply, or that of the error; its record
/// says what was asked, and of the reply its text, its blocks and its tokens.
pub proof fn law_responses_tell_the_outcome(
    meta: ExchangeMeta,
    request: EnvelopeView,
    content: Seq<BlockView>,
    times: (u64, u64, u64),
    result: Result<AssistantReply>,
    seq: u64,
)
    ensures
        ({
            let response = answer_view(meta, request, content, times, result, seq);
            let record = response.exchange.unwrap().exchange;
            &&& response.exchange is Some
            &&& record.request.prompt == request.body
            &&& record.request.content == kept_beside_text(content)
            &&& record.request.model == meta.model@
            &&& record.request.base_url == meta.base_url@
            &&& match result {
                Ok(reply) => {
                    &&& response.kind == MessageKind::Response
                    &&& response.body == reply.text@
                    &&& record.outcome matches OutcomeView::Success {
                        reply: text,
                        content: blocks,
                        input_tokens,
                        output_tokens,
                        ..
                    } && text == reply.text@ && blocks == kept_beside_text(reply@.content)
                        && input_tokens == reply.usage.input_tokens && output_tokens
                        == reply.usage.output_tokens
                },
                Err(error) => {
                    &&& response.kind == MessageKind::Error
                    &&& response.body == error.text()
                    &&& record.outcome matches OutcomeView::Error { kind, message, .. } && kind
                        == error.class() && message == error.text()
                },
            }
        }),
{
}

/// An outcome but for when it came and how long it took.
pub open spec fn is_same_outcome(a: OutcomeView, b: OutcomeView) -> bool {
    match (a, b) {
        (
            OutcomeView::Success {
                reply: r,
                content: c,
                input_tokens: i,
                output_tokens: o,
                stop_reason: s,
                session_id: d,
                turn_index: t,
                ..
            },
            OutcomeView::Success {
                reply,
                content,
                input_tokens,
                output_tokens,
                stop_reason,
                session_id,
                turn_index,
                ..
            },
        ) => r == reply && c == content && i == input_tokens && o == output_tokens && s
            == stop_reason && d == session_id && t == turn_index,
        (
            OutcomeView::Error { kind: k, message: m, session_id: d, turn_index: t, .. },
            OutcomeView::Error { kind, message, session_id, turn_index, .. },
        ) => k == kind && m == message && d == session_id && t == turn_index,
        _ => false,
    }
}

/// A request leaves on the trail what was asked, with its blocks unless they are one
/// text; what was told of its tools, one event for each note and in order; and the
/// outcome that the response carries, or the interruption.
pub proof fn law_requests_are_recorded<P: Participant>(
    before: P,
    after: P,
    meta: ExchangeMeta,
    request: EnvelopeView,
    content: Seq<BlockView>,
    result: Result<MessageEnvelope>,
    events: Seq<EventView>,
)
    requires
        is_answered(before, after, meta, request, content, result, events),
    ensures
        events.len() >= 1,
        events[0] == EventView::Request(
            RequestView {
                ts_ms: 0,
                model: meta.model@,
                base_url: meta.base_url@,
                prompt: request.body,
                content: kept_beside_text(content),
                session_id: None,
                turn_index: None,
            },
        ),
        exists|notes: Seq<NoteView>, response: EnvelopeView|
            {
                &&& #[trigger] before.may_tell(request, content, notes, response)
                &&& before.may_respond(request, content, response)
                &&& result matches Ok(given) ==> given@ == response
                &&& events.len() >= notes.len() + 1
                &&& forall|i: int|
                    0 <= i < notes.len() ==> is_noted(
                        events[i + 1],
                        #[trigger] notes[i],
                        None,
                        None,
                    )
                &&& match result {
                    Ok(given) => match given@.exchange {
                        Some(wrapped) => events.len() == notes.len() + 2 && (
                        events.last() matches EventView::Response(outcome) && is_same_outcome(
                            outcome,
                            wrapped.exchange.outcome,
                        )),
                        None => events.len() == notes.len() + 1,
                    },
                    Err(error) => events.len() == notes.len() + 2 && (
                    events.last() matches EventView::Response(
                        OutcomeView::Error { kind, message, .. },
                    ) && kind == error.class() && message == error.text()),
                }
            },
{
    let (notes, response, signal) = choose|
        notes: Seq<NoteView>,
        response: MessageEnvelope,
        signal: Option<InterruptSignal>,
    |
        {
            &&& #[trigger] crate::exchange::is_heard(before, request, content, notes, response@)
            &&& after.may_signal(signal)
            &&& result == #[trigger] crate::error::overridden(
                Ok::<MessageEnvelope, LegError>(response),
                signal,
            )
            &&& events == seq![asked_event(meta, request.body, content)] + note_events(notes, None)
                + answer_events(result)
        };
    let told = note_events(notes, None);
    assert(events[0] == asked_event(meta, request.body, content));
    assert forall|i: int| 0 <= i < notes.len() implies is_noted(
        events[i + 1],
        #[trigger] notes[i],
        None,
        None,
    ) by {
        assert(events[i + 1] == told[i]);
    }
    assert(before.may_tell(request, content, notes, response@));
    if answer_events(result).len() > 0 {
        assert(events.last() == answer_events(result)[0]);
    }
}

/// A reply that still asks for tools at the limit is warned of, and no other is.
pub proof fn law_stopped_replies_are_warned_of(
    result: Result<MessageEnvelope>,
    limit: Option<usize>,
)
    ensures
        ({
            let stopped = limit is Some && (result matches Ok(response)
                && response@.exchange matches Some(wrapped)
                && wrapped.exchange.outcome matches OutcomeView::Success { stop_reason, .. }
                && stop_reason == Some("tool_use"@));
            cap_warning(result, limit) == if stopped {
                "warning: stopped after "@ + decimal(limit.unwrap() as nat)
                    + " tool-use rounds; reply still requests tools"@
            } else {
                ""@
            }
        }),
{
}

/// A prompt is asked as a request of the user.
pub proof fn law_prompts_are_asked_whole(prompt: Seq<char>, ts_ms: u64)
    ensures
        ask_request(prompt, ts_ms).body == prompt,
        ask_request(prompt, ts_ms).kind == MessageKind::Request,
        ask_request(prompt, ts_ms).from == "user"@,
        ask_request(prompt, ts_ms).to == "assistant"@,
        ask_request(prompt, ts_ms).ts_ms == ts_ms,
{
}

/// The message that an error was made with, where it was made with one.
pub open spec fn message_of(error: LegError) -> Seq<char> {
    match error {
        LegError::Usage(m) => m@,
        LegError::Config(m) => m@,
        LegError::Transport(m) => m@,
        LegError::NonRetryableTransport(m) => m@,
        LegError::ResponseRead(m) => m@,
        LegError::Auth(m) => m@,
        LegError::RateLimited(m) => m@,
        LegError::Server { message, .. } => message@,
        LegError::Api { message, .. } => message@,
        LegError::Decode(m) => m@,
        LegError::Io(m) => m@,
        LegError::Interrupted { signal } => if signal == InterruptSignal::Interrupt {
            "SIGINT"@
        } else {
            "SIGTERM"@
        },
        LegError::Log(m) => m@,
        LegError::SessionNotFound(id) => id@,
        LegError::TurnFailure { message, .. } => message@,
    }
}

/// What an error says ends in the message that it was made with.
pub proof fn law_errors_say_their_message(error: LegError)
    ensures
        exists|lead: Seq<char>|
            lead.len() > 0 && error.text() == #[trigger] (lead + message_of(error)),
{
    let message = message_of(error);
    let text = error.text();
    reveal_strlit("usage error: ");
    reveal_strlit("configuration error: ");
    reveal_strlit("transport error: ");
    reveal_strlit("authentication error: ");
    reveal_strlit("rate limited: ");
    reveal_strlit("provider server error");
    reveal_strlit("provider error");
    reveal_strlit("response decode error: ");
    reveal_strlit("io error: ");
    reveal_strlit("interrupted by ");
    reveal_strlit("log error: ");
    reveal_strlit("no session found: ");
    reveal_strlit("turn failed (kind: ");
    let lead = text.take(text.len() - message.len());
    assert(text =~= lead + message);
}

/// An exchange within a session sends the input as the session's next turn and answers
/// its sender with what came of that turn: the text of the reply, or that of the error.
/// The record says which turn of which session it was, and what is written follows the
/// kind of the input.
pub proof fn law_session_exchanges_answer_with_their_turn<T: Transport>(
    tool_loop: ToolLoop<T>,
    meta: ExchangeMeta,
    raw: Seq<char>,
    session: ResumedSession,
    seq: u64,
    request: EnvelopeView,
    mode: ExchangeMode,
    call: TransportCall<TurnOutcome>,
    response: MessageEnvelope,
    done: SessionOutput,
    events: Seq<EventView>,
)
    requires
        is_session_exchange(
            tool_loop,
            meta,
            raw,
            session,
            seq,
            request,
            mode,
            call,
            response,
            done,
            events,
        ),
    ensures
        is_request(raw, request, mode),
        response@.to == request.from,
        response@.from == request.to,
        response@.conversation_id == request.conversation_id,
        response@.in_reply_to == Some(request.message_id),
        match call.result {
            Ok(outcome) => response@.kind == MessageKind::Response && response@.body
                == outcome.reply.text@,
            Err(error) => response@.kind == MessageKind::Error && response@.body == error.text(),
        },
        response@.exchange matches Some(wrapped) && {
            let asked = wrapped.exchange.request;
            &&& asked.prompt == request.body
            &&& asked.model == meta.model@
            &&& asked.session_id == Some(session.session_id@)
            &&& asked.turn_index == Some(session.next_turn_index)
        },
        mode == ExchangeMode::Envelope ==> done.output.text@ == json_text(envelope_tree(response))
            + "\n"@,
        mode == ExchangeMode::PlainText && call.result is Ok ==> done.output.text@
            == response.body@ + "\n"@,
        mode == ExchangeMode::PlainText && call.result is Err ==> done.output.text@ == ""@,
        call.result is Ok <==> done.output.result is Ok,
        events.len() >= 2,
        events[0] matches EventView::Request(first) && first.prompt == request.body
            && first.session_id == Some(session.session_id@) && first.turn_index == Some(
            session.next_turn_index,
        ),
        events.last() is Response,
{
    let (asked, outcome, ts_ms) = choose|asked: u64, outcome: OutcomeView, ts_ms: u64|
        untimed_outcome(outcome) == turn_outcome(
            call.result,
            Some(session.session_id@),
            Some(session.next_turn_index),
        ) && response@ == #[trigger] response_view(
            request,
            request_view(
                asked,
                meta,
                request.body,
                Some(session.session_id@),
                Some(session.next_turn_index),
            ),
            outcome,
            turn_body(call.result),
            ts_ms,
            seq,
        );
    assert(outcome is Success <==> call.result is Ok);
}

/// A participant sends the whole content of a request as one turn of the user, and its
/// response tells what came of that call.
pub proof fn law_participants_send_the_whole_request<T: Transport>(
    transport: T,
    meta: ExchangeMeta,
    request: EnvelopeView,
    content: Seq<BlockView>,
    seq: u64,
    notes: Seq<NoteView>,
    response: EnvelopeView,
)
    ensures
        is_answer(transport, meta, request, content, seq, response) ==> exists|
            turn: MessageView,
            call: TransportCall<AssistantReply>,
        |
            #[trigger] transport.may_call(seq![turn], call) && is_answered_with(
                request,
                content,
                turn,
                call.result,
                response,
            ),
        is_told(transport, meta, request, content, seq, notes, response) ==> exists|
            turn: MessageView,
            call: TransportCall<AssistantReply>,
        |
            #[trigger] transport.may_tell(seq![turn], notes, call) && is_answered_with(
                request,
                content,
                turn,
                call.result,
                response,
            ),
{
    let turn = MessageView { role: Role::User, content };
    if is_answer(transport, meta, request, content, seq, response) {
        let (times, call) = choose|times: (u64, u64, u64), call: TransportCall<AssistantReply>|
            transport.may_call(seq![turn], call) && response == #[trigger] answer_view(
                meta,
                request,
                content,
                times,
                call.result,
                seq,
            );
        assert(transport.may_call(seq![turn], call));
        assert(is_answered_with(request, content, turn, call.result, response));
    }
    if is_told(transport, meta, request, content, seq, notes, response) {
        let (times, call) = choose|times: (u64, u64, u64), call: TransportCall<AssistantReply>|
            transport.may_tell(seq![turn], notes, call) && response == #[trigger] answer_view(
                meta,
                request,
                content,
                times,
                call.result,
                seq,
            );
        assert(transport.may_tell(seq![turn], notes, call));
        assert(is_answered_with(request, content, turn, call.result, response));
    }
}

/// Whether `turn` is the user's, with all of `content`, and `response` goes back to the
/// sender of `request` with what came of the call.
pub open spec fn is_answered_with(
    request: EnvelopeView,
    content: Seq<BlockView>,
    turn: MessageView,
    result: Result<AssistantReply>,
    response: EnvelopeView,
) -> bool {
    &&& turn.role == Role::User
    &&& turn.content == content
    &&& response.to == request.from
    &&& response.in_reply_to == Some(request.message_id)
    &&& match result {
        Ok(reply) => response.kind == MessageKind::Response && response.body == reply.text@,
        Err(error) => response.kind == MessageKind::Error && response.body == error.text(),
    }
}

/// A signal overrides whatever a turn came to, and is named in its place; without one
/// the turn ends as it did.
pub proof fn law_signals_override_results(
    result: Result<AssistantReply>,
    signal: Option<InterruptSignal>,
)
    ensures
        match signal {
            Some(InterruptSignal::Interrupt) => overridden(result, signal) matches Err(error)
                && error.text() == "interrupted by SIGINT"@,
            Some(InterruptSignal::Terminate) => overridden(result, signal) matches Err(error)
                && error.text() == "interrupted by SIGTERM"@,
            None => overridden(result, signal) == result,
        },
{
    reveal_strlit("interrupted by ");
    reveal_strlit("SIGINT");
    reveal_strlit("SIGTERM");
    reveal_strlit("interrupted by SIGINT");
    reveal_strlit("interrupted by SIGTERM");
    assert("interrupted by "@ + "SIGINT"@ =~= "interrupted by SIGINT"@);
    assert("interrupted by "@ + "SIGTERM"@ =~= "interrupted by SIGTERM"@);
}

/// The status and the type that the provider gave an error, in front of its message.
pub open spec fn status_note(status: u16, error_type: Option<String>) -> Seq<Seq<char>> {
    match error_type {
        Some(word) => seq![" ("@, decimal(status as nat), ", "@, word@, "): "@],
        None => seq![" ("@, decimal(status as nat), "): "@],
    }
}

/// An error of the provider names its status, and its type where it has one, before its
/// message. A server's error is told apart from another.
pub proof fn law_provider_errors_name_their_status(
    status: u16,
    error_type: Option<String>,
    message: String,
)
    ensures
        is_joined(
            (LegError::Server { status, error_type, message }).text(),
            seq!["provider server error"@] + status_note(status, error_type) + seq![message@],
            seq![],
        ),
        is_joined(
            (LegError::Api { status, error_type, message }).text(),
            seq!["provider error"@] + status_note(status, error_type) + seq![message@],
            seq![],
        ),
{
    lemma_status_note("provider server error"@, status, error_type, message@);
    lemma_status_note("provider error"@, status, error_type, message@);
}

proof fn lemma_status_note(
    lead: Seq<char>,
    status: u16,
    error_type: Option<String>,
    message: Seq<char>,
)
    ensures
        is_joined(
            status_text(lead, status, error_type, message),
            seq![lead] + status_note(status, error_type) + seq![message],
            seq![],
        ),
{
    let parts = seq![lead] + status_note(status, error_type) + seq![message];
    let none: Seq<char> = seq![];
    law_join_lays_out_every_part(parts, none);
    let number = decimal(status as nat);
    let p3 = seq![lead, " ("@, number];
    assert(p3.drop_last() =~= seq![lead, " ("@]);
    assert(p3.drop_last().drop_last() =~= seq![lead]);
    assert(join_with(seq![lead], none) == lead);
    assert(join_with(p3.drop_last(), none) =~= lead + " ("@);
    assert(join_with(p3, none) =~= lead + " ("@ + number);
    let front = parts.drop_last();
    match error_type {
        Some(word) => {
            assert(front =~= seq![lead, " ("@, number, ", "@, word@, "): "@]);
            assert(front.drop_last() =~= seq![lead, " ("@, number, ", "@, word@]);
            assert(front.drop_last().drop_last() =~= seq![lead, " ("@, number, ", "@]);
            assert(front.drop_last().drop_last().drop_last() =~= p3);
            assert(join_with(front.drop_last().drop_last(), none) =~= lead + " ("@ + number
                + ", "@);
            assert(join_with(front.drop_last(), none) =~= lead + " ("@ + number + ", "@ + word@);
            assert(join_with(front, none) =~= lead + " ("@ + number + ", "@ + word@ + "): "@);
        },
        None => {
            assert(front =~= seq![lead, " ("@, number, "): "@]);
            assert(front.drop_last() =~= p3);
            assert(join_with(front, none) =~= lead + " ("@ + number + "): "@);
        },
    }
    assert(join_with(parts, none) =~= status_text(lead, status, error_type, message));
}

/// The word that an error is recorded under tells its kind; the faults of a connection
/// share one.
pub proof fn law_errors_are_recorded_by_kind(error: LegError)
    ensures
        error.class() == match error {
            LegError::Usage(_) => "usage"@,
            LegError::Config(_) => "config"@,
            LegError::Transport(_) => "transport"@,
            LegError::NonRetryableTransport(_) => "transport"@,
            LegError::ResponseRead(_) => "transport"@,
            LegError::Auth(_) => "auth"@,
            LegError::RateLimited(_) => "rate_limited"@,
            LegError::Server { .. } => "server"@,
            LegError::Api { .. } => "api"@,
            LegError::Decode(_) => "decode"@,
            LegError::Io(_) => "io"@,
            LegError::Interrupted { .. } => "interrupted"@,
            LegError::Log(_) => "log"@,
            LegError::SessionNotFound(_) => "session_not_found"@,
            LegError::TurnFailure { .. } => "turn_failure"@,
        },
{
}

/// Blocks are kept with the record of a request or of a reply unless they are one text,
/// and nothing else of the record changes; no other record takes any.
pub proof fn law_blocks_are_kept_with_their_record(event: EventView, blocks: Seq<BlockView>)
    ensures
        match (event, content_attached(event, blocks)) {
            (EventView::Request(before), EventView::Request(after)) => {
                &&& after.content == kept_beside_text(blocks)
                &&& after.ts_ms == before.ts_ms
                &&& after.model == before.model
                &&& after.base_url == before.base_url
                &&& after.prompt == before.prompt
                &&& after.session_id == before.session_id
                &&& after.turn_index == before.turn_index
            },
            (
                EventView::Response(OutcomeView::Success {
                    ts_ms,
                    duration_ms,
                    reply,
                    content: _,
                    input_tokens,
                    output_tokens,
                    stop_reason,
                    session_id,
                    turn_index,
                }),
                after,
            ) => after == EventView::Response(
                OutcomeView::Success {
                    ts_ms,
                    duration_ms,
                    reply,
                    content: kept_beside_text(blocks),
                    input_tokens,
                    output_tokens,
                    stop_reason,
                    session_id,
                    turn_index,
                },
            ),
            (before, after) => !(before is Request) && after == before,
        },
{
}

} // verus!
