//! One request answered: the single-turn commands and the headless exchange.
//!
//! The functions here decide what is asked, recorded and written out. Reading
//! the input and writing the output is left to the caller.

use vstd::prelude::*;

use crate::error::{overridden, unless_interrupted, InterruptSignal, LegError, Result};
use crate::events::{
    content_attached, elapsed_ms, error_outcome, now_ms, request_view, start_clock, EventView,
    ExchangeEvent, ExchangeMeta, Outcome, OutcomeView, RequestRecord,
};
use crate::json::{json_text, max_depth, parse_json, parsed, readable, value, Json};
use crate::message::{
    decode_envelope, envelope_tree, read_envelope, EnvelopeView, MessageEnvelope, MessageKind,
    MESSAGE_SCHEMA,
};
use crate::model::{text_message, BlockView, ContentBlock, Role};
use crate::participant::{
    following, respond_to, response_view, text_content, MessageIds, Participant,
};
use crate::roundtrip::law_envelope_reads_back;
use crate::session::{
    is_session_turn, outcome_event, run_session_turn, settled, turn_outcome, turn_warnings,
    ResumedSession,
};
use crate::sink::{losses_added, EventSink};
use crate::text::{chars_of, concat2, same_text, text_of, views};
use crate::tools::{
    round_limit_text, tool_round_limit_warning, NoteView, ToolLoop, ToolObserver, TurnOutcome,
};
use crate::trail::{
    address, all_untimed, lemma_trail_told, note_events, untimed, untimed_outcome, Trail,
};
use crate::transport::{Transport, TransportCall};

verus! {

// ---------------------------------------------------------------------------
// The request

/// What the input of an exchange was, and so what its output is.
#[derive(Debug, Clone, Copy, PartialEq, Eq, Structural)]
pub enum ExchangeMode {
    /// A whole envelope; the output is the response envelope, whatever its
    /// kind.
    Envelope,
    /// Plain text; the output is the reply body, and nothing on a delivered
    /// error.
    PlainText,
}

/// `raw` without the line ends at its end.
pub open spec fn without_line_ends(raw: Seq<char>) -> Seq<char>
    decreases raw.len(),
{
    if raw.len() > 0 && (raw.last() == '\r' || raw.last() == '\n') {
        without_line_ends(raw.drop_last())
    } else {
        raw
    }
}

fn trim_line_ends(raw: &str) -> (text: String)
    ensures
        text@ == without_line_ends(raw@),
{
    let chars = chars_of(raw);
    let mut end: usize = chars.len();
    assert(chars@.take(end as int) == raw@);
    while end > 0 && (chars[end - 1] == '\r' || chars[end - 1] == '\n')
        invariant
            end <= chars.len(),
            chars@ == raw@,
            without_line_ends(raw@) == without_line_ends(chars@.take(end as int)),
        decreases end,
    {
        assert(chars@.take(end as int).drop_last() == chars@.take(end - 1));
        end = end - 1;
    }
    assert(chars@.take(end as int) == chars@.subrange(0, end as int));
    text_of(vstd::slice::slice_subrange(chars.as_slice(), 0, end))
}

/// The request that a plain text stands for.
pub open spec fn plain_request(raw: Seq<char>, ts_ms: u64) -> EnvelopeView {
    EnvelopeView {
        schema: MESSAGE_SCHEMA@,
        message_id: "exchange-1"@,
        conversation_id: "exchange"@,
        from: "external"@,
        to: "leg"@,
        in_reply_to: None,
        kind: MessageKind::Request,
        body: without_line_ends(raw),
        ts_ms,
        exchange: None,
    }
}

/// The envelope that `raw` is, if it is one.
pub open spec fn whole_envelope(raw: Seq<char>) -> Option<EnvelopeView> {
    match parsed(raw) {
        Err(_) => None,
        Ok(t) => match decode_envelope(value(t)) {
            Ok(envelope) => Some(envelope),
            Err(_) => None,
        },
    }
}

/// The request in an input that was parsed as JSON: the envelope that it is, or
/// else its whole text, at `ts_ms`.
pub fn request_from(parse: core::result::Result<Json, String>, raw: &str, ts_ms: u64) -> (request: (
    MessageEnvelope,
    ExchangeMode,
))
    ensures
        match parse {
            Ok(json) => match decode_envelope(json.value()) {
                Ok(envelope) => request.0@ == envelope && request.1 == ExchangeMode::Envelope,
                Err(_) => request.0@ == plain_request(raw@, ts_ms) && request.1
                    == ExchangeMode::PlainText,
            },
            Err(_) => request.0@ == plain_request(raw@, ts_ms) && request.1
                == ExchangeMode::PlainText,
        },
{
    if let Ok(json) = &parse {
        if let Ok(envelope) = read_envelope(json) {
            return (envelope, ExchangeMode::Envelope);
        }
    }
    let envelope = MessageEnvelope::new(
        "exchange-1",
        "exchange",
        "external",
        "leg",
        MessageKind::Request,
        trim_line_ends(raw),
        ts_ms,
    );
    (envelope, ExchangeMode::PlainText)
}

/// Whether `request` is what the input `raw` asks, in which mode.
pub open spec fn is_request(raw: Seq<char>, request: EnvelopeView, mode: ExchangeMode) -> bool {
    match whole_envelope(raw) {
        Some(envelope) => request == envelope && mode == ExchangeMode::Envelope,
        None => mode == ExchangeMode::PlainText && exists|ts_ms: u64|
            request == #[trigger] plain_request(raw, ts_ms),
    }
}

/// Reads the request of an exchange: a whole envelope, or else the input itself
/// as the prompt, without the line ends at its end. An envelope that was
/// written here reads as itself.
pub fn parse_exchange_request(raw: &str) -> (request: (MessageEnvelope, ExchangeMode))
    ensures
        is_request(raw@, request.0@, request.1),
        forall|envelope: MessageEnvelope|
            raw@ == json_text(#[trigger] envelope_tree(envelope)) && readable(
                envelope_tree(envelope),
                max_depth(),
            ) ==> request.0@ == envelope@ && request.1 == ExchangeMode::Envelope,
{
    let parse = parse_json(raw);
    proof {
        assert forall|envelope: MessageEnvelope|
            raw@ == json_text(#[trigger] envelope_tree(envelope)) && readable(
                envelope_tree(envelope),
                max_depth(),
            ) implies whole_envelope(raw@) == Some(envelope@) by {
            law_envelope_reads_back(envelope);
        }
    }
    request_from(parse, raw, now_ms())
}

// ---------------------------------------------------------------------------
// The response

/// The failure that a delivered error response is for the command.
pub fn delivered_turn_failure(response: &MessageEnvelope) -> (error: LegError)
    ensures
        error matches LegError::TurnFailure { message_kind, message } && message_kind@ == "error"@
            && message@ == response@.body,
{
    LegError::TurnFailure {
        message_kind: "error".to_owned(),
        message: response.body.as_str().to_owned(),
    }
}

/// What a command writes, and how it ends.
#[derive(Debug)]
pub struct Output {
    /// The text for the response output.
    pub text: String,
    /// The text for the diagnostics.
    pub notice: String,
    /// The warning about a turn that stopped at its round limit, if it did.
    pub warning: String,
    /// How the command ends.
    pub result: Result<()>,
}

/// Whether `result` is the failure of a delivered error response.
pub open spec fn is_turn_failure(result: Result<()>, body: Seq<char>) -> bool {
    result matches Err(LegError::TurnFailure { message_kind, message }) && message_kind@
        == "error"@ && message@ == body
}

/// Whether `output` is how a response is written for its mode.
pub open spec fn is_written(mode: ExchangeMode, response: MessageEnvelope, output: Output) -> bool {
    let body = response@.body;
    match (mode, response@.kind) {
        (ExchangeMode::Envelope, kind) => {
            &&& output.text@ == json_text(envelope_tree(response)) + "\n"@
            &&& output.notice@ == ""@
            &&& if kind == MessageKind::Error {
                is_turn_failure(output.result, body)
            } else {
                output.result is Ok
            }
        },
        (ExchangeMode::PlainText, MessageKind::Response) => {
            &&& output.text@ == body + "\n"@
            &&& output.notice@ == ""@
            &&& output.result is Ok
        },
        (ExchangeMode::PlainText, MessageKind::Error) => {
            &&& output.text@ == ""@
            &&& output.notice@ == ""@
            &&& is_turn_failure(output.result, body)
        },
        (ExchangeMode::PlainText, MessageKind::Request) => {
            &&& output.text@ == ""@
            &&& output.notice@ == body + "\n"@
            &&& output.result is Ok
        },
    }
}

/// Writes an exchange response for its mode. An envelope is written whatever
/// its kind; a plain text gets the reply body. An error response fails the
/// command, in plain-text mode without any output.
pub fn write_exchange_response(mode: ExchangeMode, response: &MessageEnvelope) -> (output: Output)
    ensures
        is_written(mode, *response, output),
        output.warning@ == ""@,
{
    match mode {
        ExchangeMode::Envelope => {
            let text = concat2(response.to_text().as_str(), "\n");
            let result = match response.kind {
                MessageKind::Error => Err(delivered_turn_failure(response)),
                _ => Ok(()),
            };
            Output { text, notice: "".to_owned(), warning: "".to_owned(), result }
        },
        ExchangeMode::PlainText => match response.kind {
            MessageKind::Response => Output {
                text: concat2(response.body.as_str(), "\n"),
                notice: "".to_owned(),
                warning: "".to_owned(),
                result: Ok(()),
            },
            MessageKind::Error => Output {
                text: "".to_owned(),
                notice: "".to_owned(),
                warning: "".to_owned(),
                result: Err(delivered_turn_failure(response)),
            },
            MessageKind::Request => Output {
                text: "".to_owned(),
                notice: concat2(response.body.as_str(), "\n"),
                warning: "".to_owned(),
                result: Ok(()),
            },
        },
    }
}

/// Whether `output` is how the response to a single prompt is written.
pub open spec fn is_ask_written(response: MessageEnvelope, output: Output) -> bool {
    &&& output.notice@ == ""@
    &&& match response@.kind {
        MessageKind::Response => output.text@ == response@.body + "\n"@ && output.result is Ok,
        MessageKind::Error => output.text@ == ""@ && is_turn_failure(
            output.result,
            response@.body,
        ),
        MessageKind::Request => output.text@ == json_text(envelope_tree(response)) + "\n"@
            && output.result is Ok,
    }
}

/// Writes the response to a single prompt: the reply, or the failure of the
/// command. A response of another kind is written whole.
pub fn write_ask_response(response: &MessageEnvelope) -> (output: Output)
    ensures
        is_ask_written(*response, output),
        output.warning@ == ""@,
{
    match response.kind {
        MessageKind::Response => Output {
            text: concat2(response.body.as_str(), "\n"),
            notice: "".to_owned(),
            warning: "".to_owned(),
            result: Ok(()),
        },
        MessageKind::Error => Output {
            text: "".to_owned(),
            notice: "".to_owned(),
            warning: "".to_owned(),
            result: Err(delivered_turn_failure(response)),
        },
        MessageKind::Request => Output {
            text: concat2(response.to_text().as_str(), "\n"),
            notice: "".to_owned(),
            warning: "".to_owned(),
            result: Ok(()),
        },
    }
}

// ---------------------------------------------------------------------------
// A request answered by a participant

/// The outcome events, without their times, that a response leaves on the
/// trail.
pub open spec fn answer_events(result: Result<MessageEnvelope>) -> Seq<EventView> {
    match result {
        Ok(response) => match response@.exchange {
            Some(wrapped) => seq![EventView::Response(untimed_outcome(wrapped.exchange.outcome))],
            None => seq![],
        },
        Err(error) => seq![EventView::Response(error_outcome(0, 0, error, None, None))],
    }
}

/// The request event, without its time, for a prompt asked as `content`.
pub open spec fn asked_event(
    meta: ExchangeMeta,
    prompt: Seq<char>,
    content: Seq<BlockView>,
) -> EventView {
    content_attached(EventView::Request(request_view(0, meta, prompt, None, None)), content)
}

/// Whether `participant` can tell `notes` of its tools and then give `response`.
pub open spec fn is_heard<P: Participant>(
    participant: P,
    request: EnvelopeView,
    content: Seq<BlockView>,
    notes: Seq<NoteView>,
    response: EnvelopeView,
) -> bool {
    &&& participant.may_respond(request, content, response)
    &&& participant.may_tell(request, content, notes, response)
}

/// Whether a request asked as `content` ends in `result` and leaves `events` behind:
/// it ends in a response that the participant gave, unless a signal that it raised
/// by then overrides it; and the events are the request, what the participant told
/// of its tools, and the outcome.
pub open spec fn is_answered<P: Participant>(
    before: P,
    after: P,
    meta: ExchangeMeta,
    request: EnvelopeView,
    content: Seq<BlockView>,
    result: Result<MessageEnvelope>,
    events: Seq<EventView>,
) -> bool {
    exists|
        notes: Seq<NoteView>,
        response: MessageEnvelope,
        signal: Option<InterruptSignal>,
    |
        {
            &&& #[trigger] is_heard(before, request, content, notes, response@)
            &&& after.may_signal(signal)
            &&& result == #[trigger] overridden(Ok::<MessageEnvelope, LegError>(response), signal)
            &&& events == seq![asked_event(meta, request.body, content)] + note_events(notes, None)
                + answer_events(result)
        }
}

/// Answers `request` through `participant`. The request is recorded before the
/// call, so that a run killed in between leaves it on the trail; a signal that
/// arrived meanwhile is recorded as the outcome and returned.
pub fn respond_with_trail<P: Participant, S: EventSink>(
    participant: &mut P,
    trail: &mut Trail<S>,
    meta: &ExchangeMeta,
    request: &MessageEnvelope,
    content: &[ContentBlock],
) -> (result: Result<MessageEnvelope>)
    ensures
        final(trail).turn is None,
        losses_added(views(old(trail).warnings@), views(final(trail).warnings@)),
        exists|events: Seq<EventView>| #[trigger]
            is_answered(
                *old(participant),
                *final(participant),
                *meta,
                request@,
                views(content@),
                result,
                events,
            ) && all_untimed(final(trail).sink.recorded()) == all_untimed(
                old(trail).sink.recorded(),
            ) + events,
{
    let ghost given = *participant;
    let ghost start = all_untimed(trail.sink.recorded());
    trail.turn = None;
    let asked = ExchangeEvent::request(now_ms(), meta, request.body.as_str()).with_content(content);
    trail.emit(&asked);
    let ghost question = asked_event(*meta, request@.body, views(content@));
    assert(untimed(asked@) == question);
    assert(all_untimed(trail.sink.recorded()) =~= start.push(question));
    let clock = start_clock();
    let ghost before = *trail;
    let response = participant.respond_observed(request, content, trail);
    let ghost notes = choose|notes: Seq<NoteView>|
        trail.seen() == #[trigger] (before.seen() + notes) && given.may_tell(
            request@,
            views(content@),
            notes,
            response@,
        );
    proof {
        lemma_trail_told(before, *trail, notes);
        assert(is_heard(given, request@, views(content@), notes, response@));
    }
    let ghost told = all_untimed(trail.sink.recorded());
    let took: u64 = elapsed_ms(&clock);
    let signal = participant.interrupted();
    let ghost said = response;
    let result = unless_interrupted(Ok(response), signal);
    assert(result == overridden(Ok::<MessageEnvelope, LegError>(said), signal));
    match &result {
        Ok(response) => {
            if let Some(wrapped) = &response.exchange {
                let event = ExchangeEvent::from_outcome(&wrapped.exchange.outcome);
                trail.emit(&event);
                assert(all_untimed(trail.sink.recorded()) =~= told.push(untimed(event@)));
            }
        },
        Err(error) => {
            let event = ExchangeEvent::response_error(now_ms(), took, error);
            trail.emit(&event);
            assert(untimed(event@) == answer_events(result)[0]);
            assert(all_untimed(trail.sink.recorded()) =~= told.push(untimed(event@)));
        },
    }
    proof {
        let events = seq![question] + note_events(notes, None) + answer_events(result);
        assert(all_untimed(trail.sink.recorded()) =~= start + events);
        assert(is_answered(
            given,
            *participant,
            *meta,
            request@,
            views(content@),
            result,
            events,
        ));
    }
    result
}

/// The warning about the response to a turn that stopped at its round limit:
/// its reply still requests tools.
pub open spec fn cap_warning(result: Result<MessageEnvelope>, limit: Option<usize>) -> Seq<char> {
    match (result, limit) {
        (Ok(response), Some(rounds)) => match response@.exchange {
            Some(wrapped) => match wrapped.exchange.outcome {
                OutcomeView::Success { stop_reason, .. } => if stop_reason == Some("tool_use"@) {
                    round_limit_text(rounds as nat)
                } else {
                    ""@
                },
                _ => ""@,
            },
            None => ""@,
        },
        _ => ""@,
    }
}

fn cap_warning_of(response: &MessageEnvelope, limit: Option<usize>) -> (warning: String)
    ensures
        warning@ == cap_warning(Ok::<MessageEnvelope, LegError>(*response), limit),
{
    if let Some(rounds) = limit {
        if let Some(wrapped) = &response.exchange {
            if let Outcome::Success { stop_reason: Some(word), .. } = &wrapped.exchange.outcome {
                if same_text(word.as_str(), "tool_use") {
                    return tool_round_limit_warning(rounds);
                }
            }
        }
    }
    "".to_owned()
}

/// The output of a command that was interrupted.
fn silent_failure(error: LegError) -> (output: Output)
    ensures
        is_silent(output, error),
{
    Output { text: "".to_owned(), notice: "".to_owned(), warning: "".to_owned(), result: Err(error) }
}

/// Whether `output` holds nothing but `error`.
pub open spec fn is_silent(output: Output, error: LegError) -> bool {
    output.text@ == ""@ && output.notice@ == ""@ && output.warning@ == ""@ && output.result
        == Err::<(), LegError>(error)
}

/// Whether an exchange with the input `raw` gives `output` and leaves `events`.
pub open spec fn is_exchange<P: Participant>(
    before: P,
    after: P,
    meta: ExchangeMeta,
    raw: Seq<char>,
    limit: Option<usize>,
    request: EnvelopeView,
    mode: ExchangeMode,
    result: Result<MessageEnvelope>,
    output: Output,
    events: Seq<EventView>,
) -> bool {
    &&& is_request(raw, request, mode)
    &&& is_answered(
        before,
        after,
        meta,
        request,
        text_content(request.body),
        result,
        events,
    )
    &&& output.warning@ == cap_warning(result, limit)
    &&& match result {
        Ok(response) => is_written(mode, response, output),
        Err(error) => is_silent(output, error),
    }
}

/// Runs one headless exchange through `participant`: its input is answered, the
/// request and the outcome are recorded, and the response is written for the
/// mode of the input.
pub fn execute_exchange_core<P: Participant, S: EventSink>(
    participant: &mut P,
    trail: &mut Trail<S>,
    meta: &ExchangeMeta,
    raw: &str,
    limit: Option<usize>,
) -> (output: Output)
    ensures
        final(trail).turn is None,
        losses_added(views(old(trail).warnings@), views(final(trail).warnings@)),
        exists|
            request: EnvelopeView,
            mode: ExchangeMode,
            result: Result<MessageEnvelope>,
            events: Seq<EventView>,
        | #[trigger]
            is_exchange(
                *old(participant),
                *final(participant),
                *meta,
                raw@,
                limit,
                request,
                mode,
                result,
                output,
                events,
            ) && all_untimed(final(trail).sink.recorded()) == all_untimed(
                old(trail).sink.recorded(),
            ) + events,
{
    let ghost given = *participant;
    let (request, mode) = parse_exchange_request(raw);
    let mut content: Vec<ContentBlock> = Vec::new();
    content.push(ContentBlock::text(request.body.as_str()));
    assert(views(content@) =~= text_content(request@.body));
    let ghost before = all_untimed(trail.sink.recorded());
    let result = respond_with_trail(participant, trail, meta, &request, content.as_slice());
    let ghost events = choose|events: Seq<EventView>| #[trigger]
        is_answered(
            given,
            *participant,
            *meta,
            request@,
            views(content@),
            result,
            events,
        ) && all_untimed(trail.sink.recorded()) == before + events;
    let ghost came = result;
    let output = match result {
        Ok(response) => {
            let mut output = write_exchange_response(mode, &response);
            output.warning = cap_warning_of(&response, limit);
            output
        },
        Err(error) => silent_failure(error),
    };
    assert(is_exchange(
        given,
        *participant,
        *meta,
        raw@,
        limit,
        request@,
        mode,
        came,
        output,
        events,
    ));
    output
}

/// The request for a single prompt.
pub open spec fn ask_request(prompt: Seq<char>, ts_ms: u64) -> EnvelopeView {
    EnvelopeView {
        schema: MESSAGE_SCHEMA@,
        message_id: "ask-1"@,
        conversation_id: "ask"@,
        from: "user"@,
        to: "assistant"@,
        in_reply_to: None,
        kind: MessageKind::Request,
        body: prompt,
        ts_ms,
        exchange: None,
    }
}

/// Whether asking `prompt` as `content` gives `output` and leaves `events`.
pub open spec fn is_ask<P: Participant>(
    before: P,
    after: P,
    meta: ExchangeMeta,
    prompt: Seq<char>,
    content: Seq<BlockView>,
    limit: Option<usize>,
    result: Result<MessageEnvelope>,
    output: Output,
    events: Seq<EventView>,
) -> bool {
    &&& exists|ts_ms: u64|
        is_answered(
            before,
            after,
            meta,
            #[trigger] ask_request(prompt, ts_ms),
            content,
            result,
            events,
        )
    &&& output.warning@ == cap_warning(result, limit)
    &&& match result {
        Ok(response) => is_ask_written(response, output),
        Err(error) => is_silent(output, error),
    }
}

/// Asks one prompt through `participant`, its user turn being `content`: the
/// request and the outcome are recorded, and the reply is written. A delivered
/// error fails the command without any output.
pub fn run_ask<P: Participant, S: EventSink>(
    participant: &mut P,
    trail: &mut Trail<S>,
    meta: &ExchangeMeta,
    prompt: &str,
    content: &[ContentBlock],
    limit: Option<usize>,
) -> (output: Output)
    ensures
        final(trail).turn is None,
        losses_added(views(old(trail).warnings@), views(final(trail).warnings@)),
        exists|result: Result<MessageEnvelope>, events: Seq<EventView>| #[trigger]
            is_ask(
                *old(participant),
                *final(participant),
                *meta,
                prompt@,
                views(content@),
                limit,
                result,
                output,
                events,
            ) && all_untimed(final(trail).sink.recorded()) == all_untimed(
                old(trail).sink.recorded(),
            ) + events,
{
    let ghost given = *participant;
    let ts_ms: u64 = now_ms();
    let request = MessageEnvelope::new(
        "ask-1",
        "ask",
        "user",
        "assistant",
        MessageKind::Request,
        prompt,
        ts_ms,
    );
    assert(request@ == ask_request(prompt@, ts_ms));
    let ghost before = all_untimed(trail.sink.recorded());
    let result = respond_with_trail(participant, trail, meta, &request, content);
    let ghost events = choose|events: Seq<EventView>| #[trigger]
        is_answered(
            given,
            *participant,
            *meta,
            request@,
            views(content@),
            result,
            events,
        ) && all_untimed(trail.sink.recorded()) == before + events;
    let ghost came = result;
    let output = match result {
        Ok(response) => {
            let mut output = write_ask_response(&response);
            output.warning = cap_warning_of(&response, limit);
            output
        },
        Err(error) => silent_failure(error),
    };
    assert(is_ask(
        given,
        *participant,
        *meta,
        prompt@,
        views(content@),
        limit,
        came,
        output,
        events,
    ));
    output
}

/// A participant that raises no signal is owed an answer: a request ends in a
/// response of its own.
pub proof fn law_undisturbed_requests_are_answered<P: Participant>(
    before: P,
    after: P,
    meta: ExchangeMeta,
    request: EnvelopeView,
    content: Seq<BlockView>,
    result: Result<MessageEnvelope>,
    events: Seq<EventView>,
)
    requires
        is_answered(before, after, meta, request, content, result, events),
        forall|signal: InterruptSignal| !#[trigger] after.may_signal(Some(signal)),
    ensures
        result is Ok,
        before.may_respond(request, content, result->Ok_0@),
{
}

// ---------------------------------------------------------------------------
// A request answered within a session

/// The body of the response to a session turn.
pub open spec fn turn_body(result: Result<TurnOutcome>) -> Seq<char> {
    match result {
        Ok(outcome) => outcome.reply@.text,
        Err(error) => error.text(),
    }
}

/// Whether `response` answers `request` with the session turn that ended in
/// `result`, at whatever times.
pub open spec fn is_session_response(
    meta: ExchangeMeta,
    request: EnvelopeView,
    session_id: Seq<char>,
    turn_index: u64,
    result: Result<TurnOutcome>,
    seq: u64,
    response: EnvelopeView,
) -> bool {
    exists|asked: u64, outcome: OutcomeView, ts_ms: u64|
        untimed_outcome(outcome) == turn_outcome(result, Some(session_id), Some(turn_index))
            && response == #[trigger] response_view(
            request,
            request_view(asked, meta, request.body, Some(session_id), Some(turn_index)),
            outcome,
            turn_body(result),
            ts_ms,
            seq,
        )
}

/// What an exchange within a session gives.
pub struct SessionOutput {
    /// What is written, and how the command ends.
    pub output: Output,
    /// The warnings about the turn.
    pub warnings: Vec<String>,
}

/// Whether an exchange with the input `raw`, within a session, gives `done` and
/// leaves `events`.
pub open spec fn is_session_exchange<T: Transport>(
    tool_loop: ToolLoop<T>,
    meta: ExchangeMeta,
    raw: Seq<char>,
    session: ResumedSession,
    seq: u64,
    request: EnvelopeView,
    mode: ExchangeMode,
    call: TransportCall<TurnOutcome>,
    response: MessageEnvelope,
    done: SessionOutput,
    events: Seq<EventView>,
) -> bool {
    &&& is_request(raw, request, mode)
    &&& is_session_turn(
        tool_loop,
        meta,
        request.body,
        session.session_id@,
        session.next_turn_index,
        session.conversation@.push(text_message(Role::User, request.body)),
        call,
        events,
    )
    &&& is_session_response(
        meta,
        request,
        session.session_id@,
        session.next_turn_index,
        call.result,
        seq,
        response@,
    )
    &&& is_written(mode, response, done.output)
    &&& done.output.warning@ == ""@
    &&& views(done.warnings@) == turn_warnings(call.result, tool_loop.max_tool_rounds)
}

/// Runs one headless exchange as the next turn of `session`.
pub fn execute_exchange_session_core<T: Transport, S: EventSink>(
    tool_loop: &ToolLoop<T>,
    trail: &mut Trail<S>,
    meta: &ExchangeMeta,
    raw: &str,
    session: &mut ResumedSession,
    ids: &mut MessageIds,
) -> (done: SessionOutput)
    requires
        old(session).next_turn_index < u64::MAX,
    ensures
        final(session).session_id == old(session).session_id,
        final(session).next_turn_index == old(session).next_turn_index + 1,
        final(ids).next == following(old(ids).next),
        address(final(trail).turn) == Some((old(session).session_id@, old(session).next_turn_index)),
        losses_added(views(old(trail).warnings@), views(final(trail).warnings@)),
        exists|
            request: EnvelopeView,
            mode: ExchangeMode,
            call: TransportCall<TurnOutcome>,
            response: MessageEnvelope,
            events: Seq<EventView>,
        | #[trigger]
            is_session_exchange(
                *tool_loop,
                *meta,
                raw@,
                *old(session),
                old(ids).next,
                request,
                mode,
                call,
                response,
                done,
                events,
            ) && final(session).conversation@ == settled(
                old(session).conversation@.push(text_message(Role::User, request.body)),
                call.result,
            ) && all_untimed(final(trail).sink.recorded()) == all_untimed(
                old(trail).sink.recorded(),
            ) + events,
{
    let (request, mode) = parse_exchange_request(raw);
    let ghost given = *session;
    let ghost before = all_untimed(trail.sink.recorded());
    let session_id = session.session_id.as_str().to_owned();
    let turn_index: u64 = session.next_turn_index;
    let asked: u64 = now_ms();
    let clock = start_clock();
    let reply = run_session_turn(tool_loop, trail, meta, session, request.body.as_str());
    let ghost events = choose|events: Seq<EventView>| #[trigger]
        is_session_turn(
            *tool_loop,
            *meta,
            request@.body,
            given.session_id@,
            given.next_turn_index,
            given.conversation@.push(text_message(Role::User, request@.body)),
            reply.call(),
            events,
        ) && all_untimed(trail.sink.recorded()) == before + events;
    let took: u64 = elapsed_ms(&clock);
    let ts_ms: u64 = now_ms();
    let record = RequestRecord {
        ts_ms: asked,
        model: meta.model.as_str().to_owned(),
        base_url: meta.base_url.as_str().to_owned(),
        prompt: request.body.as_str().to_owned(),
        content: None,
        session_id: Some(session_id.as_str().to_owned()),
        turn_index: Some(turn_index),
    };
    let outcome = session_outcome(ts_ms, took, &reply.result, session_id.as_str(), turn_index);
    let body = match &reply.result {
        Ok(turn) => turn.reply.text.as_str().to_owned(),
        Err(error) => error.to_string(),
    };
    let ghost seq = ids.next;
    let response = respond_to(&request, record, outcome, body, ts_ms, ids);
    let output = write_exchange_response(mode, &response);
    let ghost call = reply.call();
    let done = SessionOutput { output, warnings: reply.warnings };
    proof {
        assert(response@ == response_view(
            request@,
            request_view(asked, *meta, request@.body, Some(session_id@), Some(turn_index)),
            outcome@,
            turn_body(reply.result),
            ts_ms,
            seq,
        ));
        assert(is_session_exchange(
            *tool_loop,
            *meta,
            raw@,
            given,
            seq,
            request@,
            mode,
            call,
            response,
            done,
            events,
        ));
    }
    done
}

/// Builds the outcome of a session turn.
fn session_outcome(
    ts_ms: u64,
    duration_ms: u64,
    result: &Result<TurnOutcome>,
    session_id: &str,
    turn_index: u64,
) -> (outcome: Outcome)
    ensures
        untimed_outcome(outcome@) == turn_outcome(*result, Some(session_id@), Some(turn_index)),
{
    let event = outcome_event(ts_ms, duration_ms, result, session_id, turn_index);
    match event {
        ExchangeEvent::Response(outcome) => outcome,
        _ => {
            assert(false);
            Outcome::Error {
                ts_ms,
                duration_ms,
                kind: String::new(),
                message: String::new(),
                session_id: None,
                turn_index: None,
            }
        },
    }
}

/// How an exchange within a session ends, when its own trail could not be
/// written: a success becomes a failure, a failure stays what it is.
pub fn session_end_result(result: Result<()>, session_write_error: Option<String>) -> (ended: Result<
    (),
>)
    ensures
        match (result, session_write_error) {
            (Ok(_), Some(message)) => ended matches Err(LegError::Io(text)) && text@
                == "failed to record session trail: "@ + message@,
            (Ok(_), None) => ended is Ok,
            (Err(error), _) => ended == Err::<(), LegError>(error),
        },
{
    match result {
        Ok(()) => match session_write_error {
            Some(message) => Err(
                LegError::Io(concat2("failed to record session trail: ", message.as_str())),
            ),
            None => Ok(()),
        },
        Err(error) => Err(error),
    }
}

} // verus!
