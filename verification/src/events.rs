//! Structured exchange records and the lifecycle events of the JSONL trail.
//!
//! [`ExchangeMeta`] is the replay-relevant metadata known before a provider
//! call is made. [`Exchange`] (paired with [`RequestRecord`]/[`Outcome`]) is
//! the record of one completed call. [`ExchangeEvent`] is what the write path
//! appends to a trail; [`crate::log`] reads a trail back.

use vstd::prelude::*;

use crate::error::LegError;
use crate::json::{Json, JsonValue};
use crate::model::{
    BlockView, ContentBlock, as_single_text, clone_blocks, single_text,
};
use crate::text::{opt_view, views};

pub use crate::sink::{EventSink, NoopSink, WriterSink};

verus! {

/// Schema discriminator stamped on every trail line and nested record.
pub const SCHEMA: &'static str = "baton.exchange/v1";

/// Replay-relevant metadata about an exchange, known before the call is made.
#[derive(Debug, PartialEq, Eq)]
pub struct ExchangeMeta {
    /// Model id the request targets.
    pub model: String,
    /// Base URL the request is sent to.
    pub base_url: String,
}

impl Clone for ExchangeMeta {
    fn clone(&self) -> (copy: Self)
        ensures
            copy.model@ == self.model@,
            copy.base_url@ == self.base_url@,
    {
        ExchangeMeta { model: self.model.clone(), base_url: self.base_url.clone() }
    }
}

/// The view of optional content blocks.
pub open spec fn content_view(content: Option<Vec<ContentBlock>>) -> Option<Seq<BlockView>> {
    match content {
        Some(blocks) => Some(views(blocks@)),
        None => None,
    }
}

/// A copy of optional content blocks.
pub fn clone_content(content: &Option<Vec<ContentBlock>>) -> (copy: Option<Vec<ContentBlock>>)
    ensures
        content_view(copy) == content_view(*content),
{
    match content {
        Some(blocks) => Some(clone_blocks(blocks.as_slice())),
        None => None,
    }
}

/// A copy of an optional text.
pub fn clone_text(text: &Option<String>) -> (copy: Option<String>)
    ensures
        opt_view(copy) == opt_view(*text),
{
    match text {
        Some(text) => Some(text.clone()),
        None => None,
    }
}

/// An owned copy of an optional borrowed text.
pub fn own_text(text: Option<&str>) -> (copy: Option<String>)
    ensures
        opt_view(copy) == opt_view(text),
{
    match text {
        Some(text) => Some(text.to_owned()),
        None => None,
    }
}

/// The replay-relevant fields of a request.
#[derive(Debug, PartialEq, Eq)]
pub struct RequestRecord {
    /// Wall-clock emission time, Unix epoch milliseconds.
    pub ts_ms: u64,
    /// Model id the request targeted.
    pub model: String,
    /// Base URL the request was sent to.
    pub base_url: String,
    /// The user prompt text.
    pub prompt: String,
    /// The turn's content blocks when it is not a single text block; absent
    /// for a text-only prompt.
    pub content: Option<Vec<ContentBlock>>,
    /// Session this turn belongs to; absent on single-turn `ask`/`exchange`.
    pub session_id: Option<String>,
    /// Monotonic turn number within the session; absent on `ask`/`exchange`.
    pub turn_index: Option<u64>,
}

/// The view of a [`RequestRecord`].
pub struct RequestView {
    pub ts_ms: u64,
    pub model: Seq<char>,
    pub base_url: Seq<char>,
    pub prompt: Seq<char>,
    pub content: Option<Seq<BlockView>>,
    pub session_id: Option<Seq<char>>,
    pub turn_index: Option<u64>,
}

impl View for RequestRecord {
    type V = RequestView;

    open spec fn view(&self) -> RequestView {
        RequestView {
            ts_ms: self.ts_ms,
            model: self.model@,
            base_url: self.base_url@,
            prompt: self.prompt@,
            content: content_view(self.content),
            session_id: opt_view(self.session_id),
            turn_index: self.turn_index,
        }
    }
}

impl Clone for RequestRecord {
    fn clone(&self) -> (copy: Self)
        ensures
            copy@ == self@,
    {
        RequestRecord {
            ts_ms: self.ts_ms,
            model: self.model.clone(),
            base_url: self.base_url.clone(),
            prompt: self.prompt.clone(),
            content: clone_content(&self.content),
            session_id: clone_text(&self.session_id),
            turn_index: self.turn_index,
        }
    }
}

/// The terminal outcome of an exchange.
#[derive(Debug, PartialEq, Eq)]
pub enum Outcome {
    /// The call succeeded.
    Success {
        /// Wall-clock emission time, Unix epoch milliseconds.
        ts_ms: u64,
        /// Time spent in the provider call, milliseconds.
        duration_ms: u64,
        /// The assistant reply text.
        reply: String,
        /// The reply's content blocks when it is not a single text block;
        /// absent for a text-only reply.
        content: Option<Vec<ContentBlock>>,
        /// Provider-reported input (prompt) tokens; absent when unknown.
        input_tokens: Option<u64>,
        /// Provider-reported output (completion) tokens; absent when unknown.
        output_tokens: Option<u64>,
        /// Provider-reported terminal reason; absent when unknown.
        stop_reason: Option<String>,
        /// Session this outcome belongs to; absent on `ask`/`exchange`.
        session_id: Option<String>,
        /// Turn number matching the session request.
        turn_index: Option<u64>,
    },
    /// The call failed; `kind` is the stable machine class.
    Error {
        /// Wall-clock emission time, Unix epoch milliseconds.
        ts_ms: u64,
        /// Time spent before the failure resolved, milliseconds.
        duration_ms: u64,
        /// Stable machine-readable error class.
        kind: String,
        /// Human-readable error description.
        message: String,
        /// Session this outcome belongs to; absent on `ask`/`exchange`.
        session_id: Option<String>,
        /// Turn number matching the session request.
        turn_index: Option<u64>,
    },
}

/// The view of an [`Outcome`].
pub enum OutcomeView {
    Success {
        ts_ms: u64,
        duration_ms: u64,
        reply: Seq<char>,
        content: Option<Seq<BlockView>>,
        input_tokens: Option<u64>,
        output_tokens: Option<u64>,
        stop_reason: Option<Seq<char>>,
        session_id: Option<Seq<char>>,
        turn_index: Option<u64>,
    },
    Error {
        ts_ms: u64,
        duration_ms: u64,
        kind: Seq<char>,
        message: Seq<char>,
        session_id: Option<Seq<char>>,
        turn_index: Option<u64>,
    },
}

impl View for Outcome {
    type V = OutcomeView;

    open spec fn view(&self) -> OutcomeView {
        match *self {
            Outcome::Success {
                ts_ms,
                duration_ms,
                reply,
                content,
                input_tokens,
                output_tokens,
                stop_reason,
                session_id,
                turn_index,
            } => OutcomeView::Success {
                ts_ms,
                duration_ms,
                reply: reply@,
                content: content_view(content),
                input_tokens,
                output_tokens,
                stop_reason: opt_view(stop_reason),
                session_id: opt_view(session_id),
                turn_index,
            },
            Outcome::Error { ts_ms, duration_ms, kind, message, session_id, turn_index } =>
                OutcomeView::Error {
                ts_ms,
                duration_ms,
                kind: kind@,
                message: message@,
                session_id: opt_view(session_id),
                turn_index,
            },
        }
    }
}

impl Clone for Outcome {
    fn clone(&self) -> (copy: Self)
        ensures
            copy@ == self@,
    {
        match self {
            Outcome::Success {
                ts_ms,
                duration_ms,
                reply,
                content,
                input_tokens,
                output_tokens,
                stop_reason,
                session_id,
                turn_index,
            } => Outcome::Success {
                ts_ms: *ts_ms,
                duration_ms: *duration_ms,
                reply: reply.clone(),
                content: clone_content(content),
                input_tokens: *input_tokens,
                output_tokens: *output_tokens,
                stop_reason: clone_text(stop_reason),
                session_id: clone_text(session_id),
                turn_index: *turn_index,
            },
            Outcome::Error { ts_ms, duration_ms, kind, message, session_id, turn_index } =>
                Outcome::Error {
                ts_ms: *ts_ms,
                duration_ms: *duration_ms,
                kind: kind.clone(),
                message: message.clone(),
                session_id: clone_text(session_id),
                turn_index: *turn_index,
            },
        }
    }
}

/// One request paired with its single outcome.
#[derive(Debug, PartialEq, Eq)]
pub struct Exchange {
    /// The recorded request (carries everything needed to replay it).
    pub request: RequestRecord,
    /// The recorded terminal outcome (success reply or failure).
    pub outcome: Outcome,
}

/// The view of an [`Exchange`].
pub struct ExchangeView {
    pub request: RequestView,
    pub outcome: OutcomeView,
}

impl View for Exchange {
    type V = ExchangeView;

    open spec fn view(&self) -> ExchangeView {
        ExchangeView { request: self.request@, outcome: self.outcome@ }
    }
}

impl Clone for Exchange {
    fn clone(&self) -> (copy: Self)
        ensures
            copy@ == self@,
    {
        Exchange { request: self.request.clone(), outcome: self.outcome.clone() }
    }
}

/// The trail's `content` for a turn made of `blocks`.
pub open spec fn trailed(blocks: Seq<BlockView>) -> Option<Seq<BlockView>> {
    match single_text(blocks) {
        Some(_) => None,
        None => Some(blocks),
    }
}

/// The trail's `content` field for `blocks`: `None` for a text-only turn (one
/// text block, fully carried by `prompt`/`reply`), else the blocks verbatim.
pub fn trail_content(blocks: &[ContentBlock]) -> (content: Option<Vec<ContentBlock>>)
    ensures
        content_view(content) == trailed(views(blocks@)),
{
    match as_single_text(blocks) {
        Some(_) => None,
        None => Some(clone_blocks(blocks)),
    }
}

/// `std::time::SystemTime`, a point in wall-clock time.
#[verifier::external_type_specification]
#[verifier::external_body]
pub struct ExSystemTime(std::time::SystemTime);

/// `SystemTime::now`: the current wall-clock time. Nothing is claimed of it.
#[verifier::external_body]
fn current_time() -> std::time::SystemTime {
    std::time::SystemTime::now()
}

/// `SystemTime::duration_since` the Unix epoch, in nanoseconds; zero for a time
/// before it. Nothing is claimed of it.
#[verifier::external_body]
fn epoch_nanos(time: std::time::SystemTime) -> u128 {
    time.duration_since(std::time::UNIX_EPOCH).unwrap_or_default().as_nanos()
}

/// The wall clock, in nanoseconds since the Unix epoch.
pub fn now_nanos() -> u128 {
    epoch_nanos(current_time())
}

/// The whole milliseconds in `nanos` nanoseconds, modulo the range of `u64`.
pub fn whole_millis(nanos: u128) -> (millis: u64)
    ensures
        millis == (nanos as nat / 1_000_000) % 0x1_0000_0000_0000_0000,
{
    ((nanos / 1_000_000) % 0x1_0000_0000_0000_0000) as u64
}

/// The wall clock, in milliseconds since the Unix epoch.
pub fn now_ms() -> u64 {
    whole_millis(now_nanos())
}

/// `std::time::Instant`, a point in monotonic time.
#[verifier::external_type_specification]
#[verifier::external_body]
pub struct ExInstant(std::time::Instant);

/// `Instant::now`: the current monotonic time. Nothing is claimed of it.
#[verifier::external_body]
pub(crate) fn start_clock() -> std::time::Instant {
    std::time::Instant::now()
}

/// `Instant::elapsed`, in whole milliseconds. Nothing is claimed of it.
#[verifier::external_body]
pub(crate) fn elapsed_ms(start: &std::time::Instant) -> u64 {
    start.elapsed().as_millis() as u64
}

/// The terminal status of a persisted `tool_result`.
#[derive(Debug, Clone, Copy, PartialEq, Eq, Structural)]
pub enum ToolStatus {
    /// The tool ran and returned output.
    Completed,
    /// The tool was unknown or its handler returned an error.
    Failed,
    /// The pre-tool hook vetoed the call before its handler ran.
    Denied,
}

/// The wire value of a tool status.
pub open spec fn status_wire(status: ToolStatus) -> Seq<char> {
    match status {
        ToolStatus::Completed => "completed"@,
        ToolStatus::Failed => "failed"@,
        ToolStatus::Denied => "denied"@,
    }
}

impl ToolStatus {
    /// The wire value of this status.
    pub fn as_str(self) -> (wire: &'static str)
        ensures
            wire@ == status_wire(self),
    {
        match self {
            ToolStatus::Completed => "completed",
            ToolStatus::Failed => "failed",
            ToolStatus::Denied => "denied",
        }
    }
}

/// Read-side mirror of a `tool_round` trail line.
#[derive(Debug, PartialEq, Eq)]
pub struct ToolRoundRecord {
    /// The `tool_use` reply's content blocks, in reply order.
    pub content: Vec<ContentBlock>,
}

/// Read-side mirror of a `tool_call` trail line.
#[derive(Debug, PartialEq, Eq)]
pub struct ToolCallRecord {
    /// Wall-clock emission time, Unix epoch milliseconds.
    pub ts_ms: u64,
    /// Provider-assigned call id.
    pub tool_use_id: String,
    /// The called tool's name; empty when a line omits it.
    pub tool_name: String,
    /// The call's JSON arguments.
    pub input: Json,
}

/// The view of a [`ToolCallRecord`].
pub struct ToolCallView {
    pub ts_ms: u64,
    pub tool_use_id: Seq<char>,
    pub tool_name: Seq<char>,
    pub input: JsonValue,
}

impl View for ToolCallRecord {
    type V = ToolCallView;

    open spec fn view(&self) -> ToolCallView {
        ToolCallView {
            ts_ms: self.ts_ms,
            tool_use_id: self.tool_use_id@,
            tool_name: self.tool_name@,
            input: self.input.value(),
        }
    }
}

/// Read-side mirror of a `tool_result` trail line.
#[derive(Debug, PartialEq, Eq)]
pub struct ToolResultRecord {
    /// Wall-clock emission time, Unix epoch milliseconds.
    pub ts_ms: u64,
    /// The `tool_call` this result answers.
    pub tool_use_id: String,
    /// The called tool's name; empty when a line omits it.
    pub tool_name: String,
    /// Whether the call completed, failed or was denied.
    pub status: ToolStatus,
    /// The tool's output, when it completed.
    pub result: Option<String>,
    /// The failure message, when it did not.
    pub error: Option<String>,
}

/// The view of a [`ToolResultRecord`].
pub struct ToolResultView {
    pub ts_ms: u64,
    pub tool_use_id: Seq<char>,
    pub tool_name: Seq<char>,
    pub status: ToolStatus,
    pub result: Option<Seq<char>>,
    pub error: Option<Seq<char>>,
}

impl View for ToolResultRecord {
    type V = ToolResultView;

    open spec fn view(&self) -> ToolResultView {
        ToolResultView {
            ts_ms: self.ts_ms,
            tool_use_id: self.tool_use_id@,
            tool_name: self.tool_name@,
            status: self.status,
            result: opt_view(self.result),
            error: opt_view(self.error),
        }
    }
}

/// An in-memory notification of one dispatched tool call's lifecycle.
///
/// One `Round` per dispatched tool round, then per call a `Call` just before
/// dispatch and one `Result` when it finishes or is interrupted.
#[derive(Debug, PartialEq, Eq)]
pub enum ToolEvent<'a> {
    /// A `tool_use` reply whose calls are about to be dispatched.
    Round {
        /// The reply's content blocks.
        content: &'a [ContentBlock],
    },
    /// A `tool_use` call about to be dispatched.
    Call {
        /// Provider-assigned call id.
        id: &'a str,
        /// The called tool's name.
        name: &'a str,
        /// The call's JSON arguments.
        input: &'a Json,
    },
    /// The terminal result of the call with the same `id`.
    Result {
        /// Provider-assigned call id, matching the `Call`.
        id: &'a str,
        /// The called tool's name.
        name: &'a str,
        /// The tool's output or the failure/denial message.
        output: &'a str,
        /// Whether the call completed, failed, or was denied by the hook.
        status: ToolStatus,
    },
}

/// A single lifecycle event for the JSONL exchange trail.
#[allow(inconsistent_fields)]
#[derive(Debug, PartialEq, Eq)]
pub enum ExchangeEvent {
    /// Emitted before the provider call. Carries enough to replay the exchange.
    Request(RequestRecord),
    /// Emitted when the provider call has succeeded or failed.
    Response(Outcome),
    /// Emitted once per dispatched tool round, before that round's `tool_call`
    /// lines.
    ToolRound {
        /// Wall-clock emission time, Unix epoch milliseconds.
        ts_ms: u64,
        /// The `tool_use` reply's content blocks, in reply order.
        content: Vec<ContentBlock>,
        /// Session this round belongs to, when emitted for a session turn.
        session_id: Option<String>,
        /// Turn number of the session request this round runs within.
        turn_index: Option<u64>,
    },
    /// Emitted just before the tool loop dispatches one `tool_use` call.
    ToolCall {
        /// Wall-clock emission time, Unix epoch milliseconds.
        ts_ms: u64,
        /// Provider-assigned call id, echoed by the matching `tool_result`.
        tool_use_id: String,
        /// The called tool's name.
        tool_name: String,
        /// The call's JSON arguments.
        input: Json,
        /// Session this call belongs to, when emitted for a session turn.
        session_id: Option<String>,
        /// Turn number of the session request this call runs within.
        turn_index: Option<u64>,
    },
    /// Emitted exactly once per `tool_call`, when that call finishes.
    ToolResult {
        /// Wall-clock emission time, Unix epoch milliseconds.
        ts_ms: u64,
        /// The `tool_call` this result answers.
        tool_use_id: String,
        /// The called tool's name.
        tool_name: String,
        /// Whether the call completed, failed or was denied.
        status: ToolStatus,
        /// The tool's output; present only when completed.
        result: Option<String>,
        /// The failure message; present only when not completed.
        error: Option<String>,
        /// Session this result belongs to, when emitted for a session turn.
        session_id: Option<String>,
        /// Turn number of the session request this call runs within.
        turn_index: Option<u64>,
    },
    /// Emitted once by `leg session` at the start of a run, before any turn.
    SessionStart {
        /// Wall-clock emission time, Unix epoch milliseconds.
        ts_ms: u64,
        /// Stable id for this session run, carried by every turn's `request`.
        session_id: String,
    },
    /// Emitted once by `leg session` on a clean exit.
    SessionEnd {
        /// Wall-clock emission time, Unix epoch milliseconds.
        ts_ms: u64,
        /// The session this closes.
        session_id: String,
        /// Count of turns whose `request` was emitted in this session.
        turns: u64,
    },
}

/// The view of an [`ExchangeEvent`].
#[allow(inconsistent_fields)]
pub enum EventView {
    Request(RequestView),
    Response(OutcomeView),
    ToolRound {
        ts_ms: u64,
        content: Seq<BlockView>,
        session_id: Option<Seq<char>>,
        turn_index: Option<u64>,
    },
    ToolCall {
        call: ToolCallView,
        session_id: Option<Seq<char>>,
        turn_index: Option<u64>,
    },
    ToolResult {
        result: ToolResultView,
        session_id: Option<Seq<char>>,
        turn_index: Option<u64>,
    },
    SessionStart { ts_ms: u64, session_id: Seq<char> },
    SessionEnd { ts_ms: u64, session_id: Seq<char>, turns: u64 },
}

impl View for ExchangeEvent {
    type V = EventView;

    open spec fn view(&self) -> EventView {
        match *self {
            ExchangeEvent::Request(request) => EventView::Request(request@),
            ExchangeEvent::Response(outcome) => EventView::Response(outcome@),
            ExchangeEvent::ToolRound { ts_ms, content, session_id, turn_index } =>
                EventView::ToolRound {
                ts_ms,
                content: views(content@),
                session_id: opt_view(session_id),
                turn_index,
            },
            ExchangeEvent::ToolCall {
                ts_ms,
                tool_use_id,
                tool_name,
                input,
                session_id,
                turn_index,
            } => EventView::ToolCall {
                call: ToolCallView {
                    ts_ms,
                    tool_use_id: tool_use_id@,
                    tool_name: tool_name@,
                    input: input.value(),
                },
                session_id: opt_view(session_id),
                turn_index,
            },
            ExchangeEvent::ToolResult {
                ts_ms,
                tool_use_id,
                tool_name,
                status,
                result,
                error,
                session_id,
                turn_index,
            } => EventView::ToolResult {
                result: ToolResultView {
                    ts_ms,
                    tool_use_id: tool_use_id@,
                    tool_name: tool_name@,
                    status,
                    result: opt_view(result),
                    error: opt_view(error),
                },
                session_id: opt_view(session_id),
                turn_index,
            },
            ExchangeEvent::SessionStart { ts_ms, session_id } => EventView::SessionStart {
                ts_ms,
                session_id: session_id@,
            },
            ExchangeEvent::SessionEnd { ts_ms, session_id, turns } => EventView::SessionEnd {
                ts_ms,
                session_id: session_id@,
                turns,
            },
        }
    }
}

/// The session id of a turn, where there is one.
pub open spec fn turn_session(turn: Option<(&str, u64)>) -> Option<Seq<char>> {
    match turn {
        Some((id, _)) => Some(id@),
        None => None,
    }
}

/// The turn number of a turn, where there is one.
pub open spec fn turn_number(turn: Option<(&str, u64)>) -> Option<u64> {
    match turn {
        Some((_, index)) => Some(index),
        None => None,
    }
}

/// The persisted form of a tool-loop event.
pub open spec fn tool_event_view(ts_ms: u64, event: ToolEvent, turn: Option<(&str, u64)>) -> EventView {
    match event {
        ToolEvent::Round { content } => EventView::ToolRound {
            ts_ms,
            content: views(content@),
            session_id: turn_session(turn),
            turn_index: turn_number(turn),
        },
        ToolEvent::Call { id, name, input } => EventView::ToolCall {
            call: ToolCallView {
                ts_ms,
                tool_use_id: id@,
                tool_name: name@,
                input: input.value(),
            },
            session_id: turn_session(turn),
            turn_index: turn_number(turn),
        },
        ToolEvent::Result { id, name, output, status } => EventView::ToolResult {
            result: ToolResultView {
                ts_ms,
                tool_use_id: id@,
                tool_name: name@,
                status,
                result: if status == ToolStatus::Completed {
                    Some(output@)
                } else {
                    None
                },
                error: if status == ToolStatus::Completed {
                    None
                } else {
                    Some(output@)
                },
            },
            session_id: turn_session(turn),
            turn_index: turn_number(turn),
        },
    }
}

/// The request event of a turn that asks `prompt`.
pub open spec fn request_view(
    ts_ms: u64,
    meta: ExchangeMeta,
    prompt: Seq<char>,
    session_id: Option<Seq<char>>,
    turn_index: Option<u64>,
) -> RequestView {
    RequestView {
        ts_ms,
        model: meta.model@,
        base_url: meta.base_url@,
        prompt,
        content: None,
        session_id,
        turn_index,
    }
}

/// The failure outcome of a turn that ended in `err`.
pub open spec fn error_outcome(
    ts_ms: u64,
    duration_ms: u64,
    err: LegError,
    session_id: Option<Seq<char>>,
    turn_index: Option<u64>,
) -> OutcomeView {
    OutcomeView::Error {
        ts_ms,
        duration_ms,
        kind: err.class(),
        message: err.text(),
        session_id,
        turn_index,
    }
}

impl ExchangeEvent {
    /// Builds the persisted form of a tool-loop [`ToolEvent`], stamped with
    /// the session turn's `(session_id, turn_index)` when there is one.
    pub fn from_tool_event(ts_ms: u64, event: ToolEvent<'_>, turn: Option<(&str, u64)>) -> (result:
        Self)
        ensures
            result@ == tool_event_view(ts_ms, event, turn),
    {
        let (session_id, turn_index) = match turn {
            Some((id, index)) => (Some(id.to_owned()), Some(index)),
            None => (None, None),
        };
        match event {
            ToolEvent::Round { content } => ExchangeEvent::ToolRound {
                ts_ms,
                content: clone_blocks(content),
                session_id,
                turn_index,
            },
            ToolEvent::Call { id, name, input } => ExchangeEvent::ToolCall {
                ts_ms,
                tool_use_id: id.to_owned(),
                tool_name: name.to_owned(),
                input: input.clone(),
                session_id,
                turn_index,
            },
            ToolEvent::Result { id, name, output, status } => {
                let (result, error) = match status {
                    ToolStatus::Completed => (Some(output.to_owned()), None),
                    ToolStatus::Failed => (None, Some(output.to_owned())),
                    ToolStatus::Denied => (None, Some(output.to_owned())),
                };
                ExchangeEvent::ToolResult {
                    ts_ms,
                    tool_use_id: id.to_owned(),
                    tool_name: name.to_owned(),
                    status,
                    result,
                    error,
                    session_id,
                    turn_index,
                }
            },
        }
    }

    /// Builds the request event for a single-turn `ask`/`exchange` (no
    /// session framing).
    pub fn request(ts_ms: u64, meta: &ExchangeMeta, prompt: &str) -> (event: Self)
        ensures
            event@ == EventView::Request(request_view(ts_ms, *meta, prompt@, None, None)),
    {
        ExchangeEvent::Request(
            RequestRecord {
                ts_ms,
                model: meta.model.clone(),
                base_url: meta.base_url.clone(),
                prompt: prompt.to_owned(),
                content: None,
                session_id: None,
                turn_index: None,
            },
        )
    }

    /// Builds a session turn's request event, stamped with the run's
    /// `session_id` and this turn's `turn_index`.
    pub fn session_request(
        ts_ms: u64,
        meta: &ExchangeMeta,
        prompt: &str,
        session_id: &str,
        turn_index: u64,
    ) -> (event: Self)
        ensures
            event@ == EventView::Request(
                request_view(ts_ms, *meta, prompt@, Some(session_id@), Some(turn_index)),
            ),
    {
        ExchangeEvent::Request(
            RequestRecord {
                ts_ms,
                model: meta.model.clone(),
                base_url: meta.base_url.clone(),
                prompt: prompt.to_owned(),
                content: None,
                session_id: Some(session_id.to_owned()),
                turn_index: Some(turn_index),
            },
        )
    }

    /// Builds the session-start marker stamping the run's `session_id`.
    pub fn session_start(ts_ms: u64, session_id: &str) -> (event: Self)
        ensures
            event@ == (EventView::SessionStart { ts_ms, session_id: session_id@ }),
    {
        ExchangeEvent::SessionStart { ts_ms, session_id: session_id.to_owned() }
    }

    /// Builds the session-end marker, recording the run's `session_id` and the
    /// number of turns emitted.
    pub fn session_end(ts_ms: u64, session_id: &str, turns: u64) -> (event: Self)
        ensures
            event@ == (EventView::SessionEnd { ts_ms, session_id: session_id@, turns }),
    {
        ExchangeEvent::SessionEnd { ts_ms, session_id: session_id.to_owned(), turns }
    }

    /// Builds the success outcome event for a single-turn `ask`/`exchange`
    /// (no session framing).
    pub fn response_ok(
        ts_ms: u64,
        duration_ms: u64,
        reply: &str,
        input_tokens: Option<u64>,
        output_tokens: Option<u64>,
        stop_reason: Option<&str>,
    ) -> (event: Self)
        ensures
            event@ == EventView::Response(
                (OutcomeView::Success {
                    ts_ms,
                    duration_ms,
                    reply: reply@,
                    content: None,
                    input_tokens,
                    output_tokens,
                    stop_reason: opt_view(stop_reason),
                    session_id: None,
                    turn_index: None,
                }),
            ),
    {
        ExchangeEvent::Response(
            Outcome::Success {
                ts_ms,
                duration_ms,
                reply: reply.to_owned(),
                content: None,
                input_tokens,
                output_tokens,
                stop_reason: own_text(stop_reason),
                session_id: None,
                turn_index: None,
            },
        )
    }

    /// Builds a success outcome for a session turn, carrying the same
    /// `session_id`/`turn_index` as its request.
    pub fn session_response_ok(
        ts_ms: u64,
        duration_ms: u64,
        reply: &str,
        input_tokens: Option<u64>,
        output_tokens: Option<u64>,
        stop_reason: Option<&str>,
        session_id: &str,
        turn_index: u64,
    ) -> (event: Self)
        ensures
            event@ == EventView::Response(
                (OutcomeView::Success {
                    ts_ms,
                    duration_ms,
                    reply: reply@,
                    content: None,
                    input_tokens,
                    output_tokens,
                    stop_reason: opt_view(stop_reason),
                    session_id: Some(session_id@),
                    turn_index: Some(turn_index),
                }),
            ),
    {
        ExchangeEvent::Response(
            Outcome::Success {
                ts_ms,
                duration_ms,
                reply: reply.to_owned(),
                content: None,
                input_tokens,
                output_tokens,
                stop_reason: own_text(stop_reason),
                session_id: Some(session_id.to_owned()),
                turn_index: Some(turn_index),
            },
        )
    }

    /// Builds the failure outcome event for a single-turn `ask`/`exchange`
    /// (no session framing).
    pub fn response_error(ts_ms: u64, duration_ms: u64, err: &LegError) -> (event: Self)
        ensures
            event@ == EventView::Response(error_outcome(ts_ms, duration_ms, *err, None, None)),
    {
        ExchangeEvent::Response(
            Outcome::Error {
                ts_ms,
                duration_ms,
                kind: err.kind().to_owned(),
                message: err.to_string(),
                session_id: None,
                turn_index: None,
            },
        )
    }

    /// Builds a failure outcome for a session turn, carrying the same
    /// `session_id`/`turn_index` as its request.
    pub fn session_response_error(
        ts_ms: u64,
        duration_ms: u64,
        err: &LegError,
        session_id: &str,
        turn_index: u64,
    ) -> (event: Self)
        ensures
            event@ == EventView::Response(
                error_outcome(ts_ms, duration_ms, *err, Some(session_id@), Some(turn_index)),
            ),
    {
        ExchangeEvent::Response(
            Outcome::Error {
                ts_ms,
                duration_ms,
                kind: err.kind().to_owned(),
                message: err.to_string(),
                session_id: Some(session_id.to_owned()),
                turn_index: Some(turn_index),
            },
        )
    }

    /// Attaches `blocks` as the `content` of a `request` or `response_ok`
    /// event, keeping the field absent when `blocks` is text-only. A no-op on
    /// every other event kind.
    pub fn with_content(self, blocks: &[ContentBlock]) -> (event: Self)
        ensures
            event@ == content_attached(self@, views(blocks@)),
    {
        match self {
            ExchangeEvent::Request(request) => ExchangeEvent::Request(
                RequestRecord {
                    ts_ms: request.ts_ms,
                    model: request.model,
                    base_url: request.base_url,
                    prompt: request.prompt,
                    content: trail_content(blocks),
                    session_id: request.session_id,
                    turn_index: request.turn_index,
                },
            ),
            ExchangeEvent::Response(outcome) => match outcome {
                Outcome::Success {
                    ts_ms,
                    duration_ms,
                    reply,
                    content: _,
                    input_tokens,
                    output_tokens,
                    stop_reason,
                    session_id,
                    turn_index,
                } => ExchangeEvent::Response(
                    Outcome::Success {
                        ts_ms,
                        duration_ms,
                        reply,
                        content: trail_content(blocks),
                        input_tokens,
                        output_tokens,
                        stop_reason,
                        session_id,
                        turn_index,
                    },
                ),
                other => ExchangeEvent::Response(other),
            },
            other => other,
        }
    }

    /// Mirrors an already-recorded [`RequestRecord`] onto the flat trail.
    pub fn from_request_record(request: &RequestRecord) -> (event: Self)
        ensures
            event@ == EventView::Request(request@),
    {
        ExchangeEvent::Request(request.clone())
    }

    /// Mirrors an already-recorded [`Outcome`] onto the flat trail.
    pub fn from_outcome(outcome: &Outcome) -> (event: Self)
        ensures
            event@ == EventView::Response(outcome@),
    {
        ExchangeEvent::Response(outcome.clone())
    }
}

/// `event` with `blocks` as its content, where it is a request or a success.
pub open spec fn content_attached(event: EventView, blocks: Seq<BlockView>) -> EventView {
    match event {
        EventView::Request(request) => EventView::Request(
            RequestView { content: trailed(blocks), ..request },
        ),
        EventView::Response(
            OutcomeView::Success {
                ts_ms,
                duration_ms,
                reply,
                content: _,
                input_tokens,
                output_tokens,
                stop_reason,
                session_id,
                turn_index,
            },
        ) => EventView::Response(
            OutcomeView::Success {
                ts_ms,
                duration_ms,
                reply,
                content: trailed(blocks),
                input_tokens,
                output_tokens,
                stop_reason,
                session_id,
                turn_index,
            },
        ),
        other => other,
    }
}

/// The content of a text-only turn is carried by its text alone, and any other
/// content is kept: the turn's blocks can be told from what the trail holds.
pub proof fn law_trailed_content_is_recoverable(blocks: Seq<BlockView>, text: Seq<char>)
    requires
        single_text(blocks) matches Some(lone) ==> lone == text,
    ensures
        blocks == (match trailed(blocks) {
            Some(content) => content,
            None => seq![BlockView::Text { text }],
        }),
{
    if trailed(blocks) is None {
        assert(blocks =~= seq![BlockView::Text { text }]);
    }
}

} // verus!
