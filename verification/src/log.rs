//! Reading and rendering the JSONL exchange-event trail.
//!
//! [`crate::events`] owns the write path: each `ask`/`session` exchange emits
//! a `request` line followed by exactly one outcome line, with `session`
//! additionally framing its run between `session_start`/`session_end`
//! markers, and each dispatched tool round recorded in between. This module
//! owns the read path: turning that trail back into typed, paired
//! [`Exchange`] values or whole [`SessionRecord`]s.
//!
//! Unknown `event` tags are skipped. A line that is not valid JSON is a hard
//! parse error, except a trailing partial line, one with no terminating newline
//! left behind when a process is killed mid-write: that is tolerated and
//! reported as a warning, so an unclean shutdown never bricks the whole trail.

use std::collections::VecDeque;

use vstd::prelude::*;
use vstd::utf8::{
    decode_utf8, encode_utf8, encode_utf8_decode_utf8, encode_utf8_valid_utf8, valid_utf8,
};

use crate::calendar::stamp_of;
use crate::error::{LegError, Result};
use crate::events::{
    Exchange, ExchangeEvent, ExchangeView, Outcome, OutcomeView, RequestRecord, RequestView, ToolCallRecord,
    ToolCallView, ToolResultRecord, ToolResultView, ToolStatus, status_wire,
};
use crate::json::{
    field, json_text, max_depth, parse_json, parsed, readable, value, Json, JsonTree, JsonValue,
};
use crate::model::{BlockView, ContentBlock};
use crate::roundtrip::{is_trail_of, law_trail_reads_back, numbered_lines};
use crate::text::{
    chars_of, concat2, concat4, concat5, decimal, decimal_text, decode_text, lemma_trim_line,
    opt_view, same_text, trim, trimmed, utf8_fault, views,
};
use crate::wire::{
    decode_call, decode_failure, decode_request, decode_result, decode_round, decode_success,
    decoded, count_field, read_call, read_count, read_failure, read_request, read_result,
    read_round, read_success, read_text, text_field,
};

pub use crate::calendar::format_ts;

verus! {

/// One call made within a turn, with its result once that has landed.
#[derive(Debug, PartialEq, Eq)]
pub struct ToolPair {
    /// The recorded call.
    pub call: ToolCallRecord,
    /// The recorded result; none when it never landed.
    pub result: Option<ToolResultRecord>,
}

/// The view of a [`ToolPair`].
pub struct PairView {
    pub call: ToolCallView,
    pub result: Option<ToolResultView>,
}

impl View for ToolPair {
    type V = PairView;

    open spec fn view(&self) -> PairView {
        PairView { call: self.call@, result: opt_view(self.result) }
    }
}

/// One trail line, read.
#[derive(Debug)]
pub enum TrailLine {
    /// An event this reader does not use.
    Skipped,
    /// A request.
    Request(RequestRecord),
    /// A terminal outcome.
    Response(Outcome),
    /// A dispatched tool round, with the session turn it belongs to.
    Round {
        /// The reply's content blocks.
        content: Vec<ContentBlock>,
        /// The turn's session id and number.
        turn: Option<(String, u64)>,
    },
    /// A tool call.
    Call {
        /// The call.
        call: ToolCallRecord,
        /// The turn's session id and number.
        turn: Option<(String, u64)>,
    },
    /// A tool result.
    Result {
        /// The result.
        result: ToolResultRecord,
        /// The turn's session id and number.
        turn: Option<(String, u64)>,
    },
    /// The start of a session.
    Start {
        /// The session.
        session_id: String,
    },
    /// The clean end of a session.
    End {
        /// The session.
        session_id: String,
        /// The turns it declares.
        turns: u64,
    },
}

/// The view of a [`TrailLine`].
pub enum LineView {
    Skipped,
    Request(RequestView),
    Response(OutcomeView),
    Round { content: Seq<BlockView>, turn: Option<(Seq<char>, u64)> },
    Call { call: ToolCallView, turn: Option<(Seq<char>, u64)> },
    Result { result: ToolResultView, turn: Option<(Seq<char>, u64)> },
    Start { session_id: Seq<char> },
    End { session_id: Seq<char>, turns: u64 },
}

/// The view of a session turn's address.
pub open spec fn turn_view(turn: Option<(String, u64)>) -> Option<(Seq<char>, u64)> {
    match turn {
        Some((id, index)) => Some((id@, index)),
        None => None,
    }
}

impl View for TrailLine {
    type V = LineView;

    open spec fn view(&self) -> LineView {
        match *self {
            TrailLine::Skipped => LineView::Skipped,
            TrailLine::Request(request) => LineView::Request(request@),
            TrailLine::Response(outcome) => LineView::Response(outcome@),
            TrailLine::Round { content, turn } => LineView::Round {
                content: views(content@),
                turn: turn_view(turn),
            },
            TrailLine::Call { call, turn } => LineView::Call { call: call@, turn: turn_view(turn) },
            TrailLine::Result { result, turn } => LineView::Result {
                result: result@,
                turn: turn_view(turn),
            },
            TrailLine::Start { session_id } => LineView::Start { session_id: session_id@ },
            TrailLine::End { session_id, turns } => LineView::End { session_id: session_id@, turns },
        }
    }
}

/// The session turn that a line names, where it names one.
pub open spec fn turn_field(v: JsonValue) -> Option<(Seq<char>, u64)> {
    match (field(v, "session_id"@), field(v, "turn_index"@)) {
        (
            Some(JsonValue::Text(id)),
            Some(JsonValue::Number(crate::json::NumberTree::Unsigned(index))),
        ) => Some((id, index)),
        _ => None,
    }
}

fn read_turn(json: &Json) -> (turn: Option<(String, u64)>)
    ensures
        turn_view(turn) == turn_field(json.value()),
{
    let id = match json.get("session_id") {
        Some(found) => found.as_text(),
        None => None,
    };
    let index = match json.get("turn_index") {
        Some(found) => found.as_u64(),
        None => None,
    };
    match (id, index) {
        (Some(id), Some(index)) => Some((id.to_owned(), index)),
        _ => None,
    }
}

/// What a line of a known event says when its fields are malformed.
pub open spec fn malformed(event: Seq<char>, detail: Seq<char>) -> Seq<char> {
    "malformed "@ + event + " event: "@ + detail
}

/// What a line says, or what is wrong with it. Tool rounds and session markers
/// are read only where `sessions` is set.
pub open spec fn decode_line(v: JsonValue, sessions: bool) -> std::result::Result<
    LineView,
    Seq<char>,
> {
    match field(v, "event"@) {
        Some(JsonValue::Text(event)) => if event == "request"@ {
            match decode_request(v) {
                Ok(request) => Ok(LineView::Request(request)),
                Err(detail) => Err(malformed(event, detail)),
            }
        } else if event == "response_ok"@ {
            match decode_success(v) {
                Ok(outcome) => Ok(LineView::Response(outcome)),
                Err(detail) => Err(malformed(event, detail)),
            }
        } else if event == "response_error"@ {
            match decode_failure(v) {
                Ok(outcome) => Ok(LineView::Response(outcome)),
                Err(detail) => Err(malformed(event, detail)),
            }
        } else if event == "tool_call"@ {
            match decode_call(v) {
                Ok(call) => Ok(LineView::Call { call, turn: turn_field(v) }),
                Err(detail) => Err(malformed(event, detail)),
            }
        } else if event == "tool_result"@ {
            match decode_result(v) {
                Ok(result) => Ok(LineView::Result { result, turn: turn_field(v) }),
                Err(detail) => Err(malformed(event, detail)),
            }
        } else if sessions && event == "tool_round"@ {
            match decode_round(v) {
                Ok(content) => Ok(LineView::Round { content, turn: turn_field(v) }),
                Err(detail) => Err(malformed(event, detail)),
            }
        } else if sessions && event == "session_start"@ {
            match text_field(v, "session_id"@) {
                Ok(session_id) => Ok(LineView::Start { session_id }),
                Err(detail) => Err(malformed(event, detail)),
            }
        } else if sessions && event == "session_end"@ {
            match (text_field(v, "session_id"@), count_field(v, "turns"@)) {
                (Err(detail), _) => Err(malformed(event, detail)),
                (_, Err(detail)) => Err(malformed(event, detail)),
                (Ok(session_id), Ok(turns)) => Ok(LineView::End { session_id, turns }),
            }
        } else {
            Ok(LineView::Skipped)
        },
        _ => Ok(LineView::Skipped),
    }
}

fn malformed_event(event: &str, detail: String) -> (message: String)
    ensures
        message@ == malformed(event@, detail@),
{
    concat4("malformed ", event, " event: ", detail.as_str())
}

/// Reads what a line says.
pub fn read_line(json: &Json, sessions: bool) -> (result: std::result::Result<TrailLine, String>)
    ensures
        decoded(result) == decode_line(json.value(), sessions),
{
    let event = match json.get("event") {
        Some(found) => match found.as_text() {
            Some(event) => event,
            None => {
                return Ok(TrailLine::Skipped);
            },
        },
        None => {
            return Ok(TrailLine::Skipped);
        },
    };
    if same_text(event, "request") {
        match read_request(json) {
            Ok(request) => Ok(TrailLine::Request(request)),
            Err(detail) => Err(malformed_event(event, detail)),
        }
    } else if same_text(event, "response_ok") {
        match read_success(json) {
            Ok(outcome) => Ok(TrailLine::Response(outcome)),
            Err(detail) => Err(malformed_event(event, detail)),
        }
    } else if same_text(event, "response_error") {
        match read_failure(json) {
            Ok(outcome) => Ok(TrailLine::Response(outcome)),
            Err(detail) => Err(malformed_event(event, detail)),
        }
    } else if same_text(event, "tool_call") {
        match read_call(json) {
            Ok(call) => Ok(TrailLine::Call { call, turn: read_turn(json) }),
            Err(detail) => Err(malformed_event(event, detail)),
        }
    } else if same_text(event, "tool_result") {
        match read_result(json) {
            Ok(result) => Ok(TrailLine::Result { result, turn: read_turn(json) }),
            Err(detail) => Err(malformed_event(event, detail)),
        }
    } else if sessions && same_text(event, "tool_round") {
        match read_round(json) {
            Ok(round) => Ok(TrailLine::Round { content: round.content, turn: read_turn(json) }),
            Err(detail) => Err(malformed_event(event, detail)),
        }
    } else if sessions && same_text(event, "session_start") {
        match read_text(json, "session_id") {
            Ok(session_id) => Ok(TrailLine::Start { session_id }),
            Err(detail) => Err(malformed_event(event, detail)),
        }
    } else if sessions && same_text(event, "session_end") {
        match (read_text(json, "session_id"), read_count(json, "turns")) {
            (Err(detail), _) => Err(malformed_event(event, detail)),
            (_, Err(detail)) => Err(malformed_event(event, detail)),
            (Ok(session_id), Ok(turns)) => Ok(TrailLine::End { session_id, turns }),
        }
    } else {
        Ok(TrailLine::Skipped)
    }
}

/// The JSON value of one raw line, or a short detail of what is wrong with it.
pub open spec fn line_value(bytes: Seq<u8>) -> std::result::Result<JsonValue, Seq<char>> {
    if valid_utf8(bytes) {
        match parsed(trimmed(decode_utf8(bytes))) {
            Ok(tree) => Ok(value(tree)),
            Err(message) => Err("invalid JSON: "@ + message),
        }
    } else {
        Err("invalid UTF-8: "@ + utf8_fault(bytes))
    }
}

/// The view of a JSON value or of a message.
pub open spec fn value_result(result: std::result::Result<Json, String>) -> std::result::Result<
    JsonValue,
    Seq<char>,
> {
    match result {
        Ok(json) => Ok(json.value()),
        Err(message) => Err(message@),
    }
}

/// Whether `line` is the line that holds the object `t`.
pub open spec fn is_line_of(t: JsonTree, line: Seq<u8>) -> bool {
    &&& t is Object
    &&& readable(t, max_depth())
    &&& line == encode_utf8(json_text(t) + "\n"@)
}

/// Whether `line`, if it is the line of an object, reads as that object.
pub open spec fn is_faithful(line: Seq<u8>) -> bool {
    forall|t: JsonTree| #[trigger] is_line_of(t, line) ==> line_value(line) == Ok::<
        JsonValue,
        Seq<char>,
    >(value(t))
}

proof fn lemma_line_text(t: JsonTree, line: Seq<u8>)
    requires
        is_line_of(t, line),
    ensures
        valid_utf8(line),
        trimmed(decode_utf8(line)) == json_text(t),
{
    let text = json_text(t);
    encode_utf8_valid_utf8(text + "\n"@);
    encode_utf8_decode_utf8(text + "\n"@);
    assert(text[0] == '{');
    assert(text.last() == '}');
    lemma_trim_line(text);
}

/// Parses one raw log line into a JSON value.
fn parse_line_value(bytes: &[u8]) -> (result: std::result::Result<Json, String>)
    ensures
        value_result(result) == line_value(bytes@),
        is_faithful(bytes@),
{
    proof {
        assert forall|t: JsonTree| #[trigger] is_line_of(t, bytes@) implies valid_utf8(bytes@)
            && trimmed(decode_utf8(bytes@)) == json_text(t) by {
            lemma_line_text(t, bytes@);
        }
    }
    match decode_text(bytes) {
        Err(fault) => Err(concat2("invalid UTF-8: ", fault.as_str())),
        Ok(text) => {
            let text = trim(text.as_str());
            match parse_json(text.as_str()) {
                Ok(json) => Ok(json),
                Err(message) => Err(concat2("invalid JSON: ", message.as_str())),
            }
        },
    }
}

/// Whether `b` is ASCII white space.
pub open spec fn is_space_byte(b: u8) -> bool {
    b == 0x20 || b == 0x09 || b == 0x0a || b == 0x0c || b == 0x0d
}

/// Whether `line` holds nothing but ASCII white space.
pub open spec fn is_blank_line(line: Seq<u8>) -> bool {
    forall|i: int| 0 <= i < line.len() ==> is_space_byte(#[trigger] line[i])
}

/// The length of the first line of `bytes`, its newline included.
pub open spec fn first_line(bytes: Seq<u8>) -> nat
    decreases bytes.len(),
{
    if bytes.len() == 0 {
        0
    } else if bytes[0] == 10 {
        1
    } else {
        1 + first_line(bytes.skip(1))
    }
}

/// The first line ends with the first newline, or with the bytes.
pub proof fn lemma_first_line(bytes: Seq<u8>, n: nat)
    requires
        n <= bytes.len(),
        forall|i: int| 0 <= i < n - 1 ==> bytes[i] != 10,
        n > 0,
        n == bytes.len() || bytes[n - 1] == 10,
    ensures
        first_line(bytes) == n,
    decreases bytes.len(),
{
    if bytes[0] == 10 {
        assert(n == 1);
    } else if n > 1 {
        let rest = bytes.skip(1);
        assert forall|i: int| 0 <= i < n - 2 implies rest[i] != 10 by {
            assert(rest[i] == bytes[i + 1]);
        }
        lemma_first_line(rest, (n - 1) as nat);
    } else {
        assert(bytes.skip(1).len() == 0);
        assert(first_line(bytes.skip(1)) == 0);
    }
}

/// A first line is not empty.
pub proof fn lemma_first_line_bound(bytes: Seq<u8>)
    requires
        bytes.len() > 0,
    ensures
        1 <= first_line(bytes) <= bytes.len(),
    decreases bytes.len(),
{
    if bytes[0] != 10 && bytes.len() > 1 {
        lemma_first_line_bound(bytes.skip(1));
    } else if bytes[0] != 10 {
        assert(first_line(bytes.skip(1)) == 0);
    }
}

/// The warning about a partial trailing line.
pub open spec fn torn_warning(line_no: nat, detail: Seq<char>) -> Seq<char> {
    "skipped partial trailing line "@ + decimal(line_no)
        + " of the event log (no terminating newline — likely an unclean shutdown): "@ + detail
}

/// The complaint about a line.
pub open spec fn line_fault(line_no: nat, detail: Seq<char>) -> Seq<char> {
    "line "@ + decimal(line_no) + ": "@ + detail
}

/// The lines read from a trail, with their 1-based numbers, and the warning
/// about a partial trailing line if there was one.
pub struct LinesView {
    pub lines: Seq<(nat, LineView)>,
    pub torn: Option<Seq<char>>,
}

/// `lines` with one more in front.
pub open spec fn line_before(line_no: nat, line: LineView, rest: LinesView) -> LinesView {
    LinesView { lines: seq![(line_no, line)] + rest.lines, torn: rest.torn }
}

/// What the trail `bytes` says line by line, the first of its lines having the
/// number `line_no`; or what is wrong with its first bad line. Blank lines are
/// passed over.
pub open spec fn scan(bytes: Seq<u8>, line_no: nat, sessions: bool) -> std::result::Result<
    LinesView,
    Seq<char>,
>
    decreases bytes.len(),
    via scan_decreases
{
    if bytes.len() == 0 {
        Ok(LinesView { lines: seq![], torn: None })
    } else {
        let line = bytes.take(first_line(bytes) as int);
        let rest = bytes.skip(first_line(bytes) as int);
        if is_blank_line(line) {
            scan(rest, line_no + 1, sessions)
        } else {
            match line_value(line) {
                Err(detail) => if line.last() == 10 {
                    Err(line_fault(line_no, detail))
                } else {
                    Ok(LinesView { lines: seq![], torn: Some(torn_warning(line_no, detail)) })
                },
                Ok(v) => match decode_line(v, sessions) {
                    Err(detail) => Err(line_fault(line_no, detail)),
                    Ok(read) => match scan(rest, line_no + 1, sessions) {
                        Err(fault) => Err(fault),
                        Ok(more) => Ok(line_before(line_no, read, more)),
                    },
                },
            }
        }
    }
}

#[via_fn]
proof fn scan_decreases(bytes: Seq<u8>, line_no: nat, sessions: bool) {
    if bytes.len() > 0 {
        lemma_first_line_bound(bytes);
    }
}

/// Whether each line of a trail, as far as [`scan`] reads it, is faithful.
pub open spec fn is_faithful_trail(bytes: Seq<u8>, sessions: bool) -> bool
    decreases bytes.len(),
    via faithful_decreases
{
    if bytes.len() == 0 {
        true
    } else {
        let line = bytes.take(first_line(bytes) as int);
        let rest = bytes.skip(first_line(bytes) as int);
        if is_blank_line(line) {
            is_faithful_trail(rest, sessions)
        } else {
            is_faithful(line) && match line_value(line) {
                Err(_) => true,
                Ok(v) => match decode_line(v, sessions) {
                    Err(_) => true,
                    Ok(_) => is_faithful_trail(rest, sessions),
                },
            }
        }
    }
}

#[via_fn]
proof fn faithful_decreases(bytes: Seq<u8>, sessions: bool) {
    if bytes.len() > 0 {
        lemma_first_line_bound(bytes);
    }
}

/// The lines read from a trail.
#[derive(Debug)]
pub struct TrailLines {
    /// Each line with its 1-based number.
    pub lines: VecDeque<(usize, TrailLine)>,
    /// The warning about a partial trailing line, if there was one.
    pub torn: Option<String>,
}

/// The numbers and views of `lines`.
pub open spec fn numbered(lines: Seq<(usize, TrailLine)>) -> Seq<(nat, LineView)> {
    Seq::new(lines.len(), |i: int| (lines[i].0 as nat, lines[i].1@))
}

impl View for TrailLines {
    type V = LinesView;

    open spec fn view(&self) -> LinesView {
        LinesView { lines: numbered(self.lines@), torn: opt_view(self.torn) }
    }
}

/// `r` with `before` in front of its lines.
pub open spec fn lines_before(
    before: Seq<(nat, LineView)>,
    r: std::result::Result<LinesView, Seq<char>>,
) -> std::result::Result<LinesView, Seq<char>> {
    match r {
        Ok(rest) => Ok(LinesView { lines: before + rest.lines, torn: rest.torn }),
        Err(fault) => Err(fault),
    }
}

fn blank_line(line: &[u8]) -> (blank: bool)
    ensures
        blank == is_blank_line(line@),
{
    let mut i: usize = 0;
    while i < line.len()
        invariant
            i <= line.len(),
            forall|k: int| 0 <= k < i ==> is_space_byte(#[trigger] line@[k]),
        decreases line.len() - i,
    {
        let b = line[i];
        if !(b == 0x20 || b == 0x09 || b == 0x0a || b == 0x0c || b == 0x0d) {
            assert(!is_space_byte(line@[i as int]));
            return false;
        }
        i = i + 1;
    }
    true
}

/// Reads a trail line by line. Tool rounds and session markers are read only
/// where `sessions` is set.
pub fn read_trail(bytes: &[u8], sessions: bool) -> (result: std::result::Result<TrailLines, String>)
    ensures
        decoded(result) == scan(bytes@, 1, sessions),
        is_faithful_trail(bytes@, sessions),
{
    let mut lines: VecDeque<(usize, TrailLine)> = VecDeque::new();
    let mut from: usize = 0;
    let mut line_no: usize = 0;
    assert(bytes@.skip(0) =~= bytes@);
    assert(lines_before(numbered(lines@), scan(bytes@, 1, sessions)) == scan(bytes@, 1, sessions))
        by {
        match scan(bytes@, 1, sessions) {
            Ok(rest) => {
                assert(numbered(lines@) + rest.lines =~= rest.lines);
            },
            Err(_) => {},
        }
    }
    while from < bytes.len()
        invariant
            from <= bytes.len(),
            line_no <= from,
            lines_before(
                numbered(lines@),
                scan(bytes@.skip(from as int), (line_no + 1) as nat, sessions),
            ) == scan(bytes@, 1, sessions),
            is_faithful_trail(bytes@.skip(from as int), sessions) ==> is_faithful_trail(
                bytes@,
                sessions,
            ),
        decreases bytes.len() - from,
    {
        let ghost rest = bytes@.skip(from as int);
        let ghost before = numbered(lines@);
        let mut to: usize = from + 1;
        while to < bytes.len() && bytes[to - 1] != 10
            invariant
                from < to <= bytes.len(),
                forall|i: int| from <= i < to - 1 ==> bytes@[i] != 10,
            decreases bytes.len() - to,
        {
            to = to + 1;
        }
        proof {
            assert forall|i: int| 0 <= i < to - from - 1 implies rest[i] != 10 by {
                assert(rest[i] == bytes@[from + i]);
            }
            lemma_first_line(rest, (to - from) as nat);
            assert(rest.skip(to - from) =~= bytes@.skip(to as int));
        }
        let line = vstd::slice::slice_subrange(bytes, from, to);
        assert(line@ =~= rest.take(to - from));
        line_no = line_no + 1;
        from = to;
        if !blank_line(line) {
            let json = match parse_line_value(line) {
                Ok(json) => json,
                Err(detail) => {
                    let number = decimal_text(line_no as u64);
                    if line[line.len() - 1] != 10 {
                        let warning = concat4(
                            "skipped partial trailing line ",
                            number.as_str(),
                            " of the event log (no terminating newline — likely an unclean shutdown): ",
                            detail.as_str(),
                        );
                        assert(before + Seq::<(nat, LineView)>::empty() =~= before);
                        return Ok(TrailLines { lines, torn: Some(warning) });
                    }
                    return Err(concat4("line ", number.as_str(), ": ", detail.as_str()));
                },
            };
            match read_line(&json, sessions) {
                Ok(read) => {
                    lines.push_back((line_no, read));
                    proof {
                        assert(numbered(lines@) =~= before.push((line_no as nat, read@)));
                        match scan(bytes@.skip(from as int), (line_no + 1) as nat, sessions) {
                            Ok(more) => {
                                assert(before + (seq![(line_no as nat, read@)] + more.lines)
                                    =~= numbered(lines@) + more.lines);
                            },
                            Err(_) => {},
                        }
                    }
                },
                Err(detail) => {
                    let number = decimal_text(line_no as u64);
                    return Err(concat4("line ", number.as_str(), ": ", detail.as_str()));
                },
            }
        }
    }
    proof {
        assert(bytes@.skip(from as int) =~= Seq::<u8>::empty());
        assert(numbered(lines@) + Seq::<(nat, LineView)>::empty() =~= numbered(lines@));
    }
    Ok(TrailLines { lines, torn: None })
}

/// The outcome of parsing a JSONL exchange trail: the complete [`Exchange`]
/// pairs and any non-fatal diagnostics collected along the way.
#[derive(Debug, PartialEq, Eq)]
pub struct ParseReport {
    /// Complete request/outcome pairs, in file order.
    pub exchanges: Vec<Exchange>,
    /// The tool calls made within each exchange, in call order.
    pub tools: Vec<Vec<ToolPair>>,
    /// Non-fatal diagnostics, in the order they were encountered.
    pub warnings: Vec<String>,
}

impl Default for ParseReport {
    fn default() -> (report: Self)
        ensures
            report.exchanges@.len() == 0,
            report.tools@.len() == 0,
            report.warnings@.len() == 0,
    {
        ParseReport { exchanges: Vec::new(), tools: Vec::new(), warnings: Vec::new() }
    }
}

/// The views of the calls of several exchanges.
pub open spec fn pairs_views(tools: Seq<Vec<ToolPair>>) -> Seq<Seq<PairView>> {
    Seq::new(tools.len(), |i: int| views(tools[i]@))
}

/// What has been read of a trail: the complete exchanges, and the one that is
/// open.
pub struct ReportView {
    pub exchanges: Seq<ExchangeView>,
    pub tools: Seq<Seq<PairView>>,
    pub warnings: Seq<Seq<char>>,
    pub pending: Option<RequestView>,
    pub calls: Seq<PairView>,
}

/// The word that names an outcome's event.
pub open spec fn response_word(outcome: OutcomeView) -> Seq<char> {
    match outcome {
        OutcomeView::Success { .. } => "response_ok"@,
        OutcomeView::Error { .. } => "response_error"@,
    }
}

/// Warning text for an outcome line with no matching pending request.
pub open spec fn dangling(line_no: nat, event: Seq<char>) -> Seq<char> {
    "line "@ + decimal(line_no) + ": a "@ + event
        + " outcome had no matching pending request (a dangling outcome) — its request may have been lost; the outcome is not shown"@
}

/// The place of the first call in `pairs` that `id` names and that has no
/// result yet; `pairs.len()` where there is none.
pub open spec fn open_call(pairs: Seq<PairView>, id: Seq<char>) -> nat
    decreases pairs.len(),
{
    if pairs.len() == 0 {
        0
    } else {
        let before = open_call(pairs.drop_last(), id);
        if before < pairs.len() - 1 {
            before
        } else if pairs.last().call.tool_use_id == id && pairs.last().result is None {
            (pairs.len() - 1) as nat
        } else {
            pairs.len()
        }
    }
}

/// `pairs` with `result` given to the first call it answers.
pub open spec fn answered(pairs: Seq<PairView>, result: ToolResultView) -> Seq<PairView> {
    let i = open_call(pairs, result.tool_use_id) as int;
    if i < pairs.len() {
        pairs.update(i, PairView { call: pairs[i].call, result: Some(result) })
    } else {
        pairs
    }
}

/// `r` after one more line.
pub open spec fn report_step(r: ReportView, line_no: nat, line: LineView) -> ReportView {
    match line {
        LineView::Request(request) => ReportView { pending: Some(request), calls: seq![], ..r },
        LineView::Response(outcome) => match r.pending {
            Some(request) => ReportView {
                exchanges: r.exchanges.push(ExchangeView { request, outcome }),
                tools: r.tools.push(r.calls),
                warnings: r.warnings,
                pending: None,
                calls: seq![],
            },
            None => ReportView {
                warnings: r.warnings.push(dangling(line_no, response_word(outcome))),
                ..r
            },
        },
        LineView::Call { call, .. } => if r.pending is Some {
            ReportView { calls: r.calls.push(PairView { call, result: None }), ..r }
        } else {
            r
        },
        LineView::Result { result, .. } => if r.pending is Some {
            ReportView { calls: answered(r.calls, result), ..r }
        } else {
            r
        },
        _ => r,
    }
}

/// What the first lines of a trail amount to.
pub open spec fn report_of(lines: Seq<(nat, LineView)>) -> ReportView
    decreases lines.len(),
{
    if lines.len() == 0 {
        ReportView {
            exchanges: seq![],
            tools: seq![],
            warnings: seq![],
            pending: None,
            calls: seq![],
        }
    } else {
        report_step(report_of(lines.drop_last()), lines.last().0, lines.last().1)
    }
}

/// `warnings` with the one about a partial trailing line, if there is one.
pub open spec fn with_torn(warnings: Seq<Seq<char>>, torn: Option<Seq<char>>) -> Seq<Seq<char>> {
    match torn {
        Some(warning) => warnings.push(warning),
        None => warnings,
    }
}

/// Warning text for an outcome line with no matching pending request.
pub fn dangling_outcome_warning(line_no: usize, event: &str) -> (text: String)
    ensures
        text@ == dangling(line_no as nat, event@),
{
    let number = decimal_text(line_no as u64);
    concat5(
        "line ",
        number.as_str(),
        ": a ",
        event,
        " outcome had no matching pending request (a dangling outcome) — its request may have been lost; the outcome is not shown",
    )
}

fn outcome_word(outcome: &Outcome) -> (word: &'static str)
    ensures
        word@ == response_word(outcome@),
{
    match outcome {
        Outcome::Success { .. } => "response_ok",
        Outcome::Error { .. } => "response_error",
    }
}

/// Gives `result` to the first call of `pairs` that it answers.
fn answer_call(pairs: &mut Vec<ToolPair>, result: ToolResultRecord)
    ensures
        views(final(pairs)@) == answered(views(old(pairs)@), result@),
{
    let ghost all = views(pairs@);
    let mut i: usize = 0;
    let len: usize = pairs.len();
    assert(all.take(0) =~= Seq::<PairView>::empty());
    while i < len
        invariant
            i <= len == pairs@.len(),
            all == views(pairs@),
            pairs@ == old(pairs)@,
            open_call(all.take(i as int), result@.tool_use_id) == i,
        decreases len - i,
    {
        assert(all.take(i + 1).drop_last() =~= all.take(i as int));
        if same_text(pairs[i].call.tool_use_id.as_str(), result.tool_use_id.as_str())
            && pairs[i].result.is_none() {
            proof {
                lemma_open_call_found(all, result@.tool_use_id, i as nat, all.len());
                assert(all.take(all.len() as int) =~= all);
            }
            let ghost r = result@;
            let pair = &mut pairs[i];
            pair.result = Some(result);
            assert(views(pairs@) =~= answered(all, r));
            return ;
        }
        i = i + 1;
    }
    assert(all.take(all.len() as int) =~= all);
}

proof fn lemma_open_call_found(pairs: Seq<PairView>, id: Seq<char>, i: nat, n: nat)
    requires
        i < n <= pairs.len(),
        open_call(pairs.take(i as int), id) == i,
        pairs[i as int].call.tool_use_id == id,
        pairs[i as int].result is None,
    ensures
        open_call(pairs.take(n as int), id) == i,
    decreases n,
{
    assert(pairs.take(n as int).drop_last() =~= pairs.take(n - 1));
    if n > i + 1 {
        lemma_open_call_found(pairs, id, i, (n - 1) as nat);
    }
}

/// What a [`ParseReport`] says of `r`.
pub open spec fn reports(report: ParseReport, r: ReportView, torn: Option<Seq<char>>) -> bool {
    &&& views(report.exchanges@) == r.exchanges
    &&& pairs_views(report.tools@) == r.tools
    &&& views(report.warnings@) == with_torn(r.warnings, torn)
}

/// Pairs the requests of `lines` with their outcomes, in file order.
pub fn pair_exchanges(trail: TrailLines) -> (report: ParseReport)
    ensures
        reports(report, report_of(trail@.lines), trail@.torn),
{
    let ghost all = trail@.lines;
    let mut lines = trail.lines;
    let mut exchanges: Vec<Exchange> = Vec::new();
    let mut tools: Vec<Vec<ToolPair>> = Vec::new();
    let mut warnings: Vec<String> = Vec::new();
    let mut pending: Option<RequestRecord> = None;
    let mut calls: Vec<ToolPair> = Vec::new();
    let ghost mut done: int = 0;
    proof {
        assert(all.take(0) =~= Seq::<(nat, LineView)>::empty());
        assert(views(exchanges@) =~= Seq::<ExchangeView>::empty());
        assert(pairs_views(tools@) =~= Seq::<Seq<PairView>>::empty());
        assert(views(warnings@) =~= Seq::<Seq<char>>::empty());
        assert(views(calls@) =~= Seq::<PairView>::empty());
        assert(all.skip(0) =~= numbered(lines@));
    }
    while lines.len() > 0
        invariant
            0 <= done <= all.len(),
            numbered(lines@) == all.skip(done),
            report_of(all.take(done)) == (ReportView {
                exchanges: views(exchanges@),
                tools: pairs_views(tools@),
                warnings: views(warnings@),
                pending: opt_view(pending),
                calls: views(calls@),
            }),
        decreases lines.len(),
    {
        let ghost held = lines@;
        assert(numbered(held).len() == all.len() - done);
        let ghost before = report_of(all.take(done));
        let (line_no, line) = lines.pop_front().unwrap();
        proof {
            assert(all.skip(done)[0] == all[done]);
            assert(numbered(held)[0] == (line_no as nat, line@));
            assert(all.take(done + 1).drop_last() =~= all.take(done));
            assert(numbered(lines@) =~= numbered(held).skip(1));
            assert(all.skip(done).skip(1) =~= all.skip(done + 1));
            done = done + 1;
        }
        match line {
            TrailLine::Request(request) => {
                pending = Some(request);
                calls = Vec::new();
                assert(views(calls@) =~= Seq::<PairView>::empty());
            },
            TrailLine::Response(outcome) => {
                match pending {
                    Some(request) => {
                        exchanges.push(Exchange { request, outcome });
                        tools.push(calls);
                        calls = Vec::new();
                        pending = None;
                        proof {
                            assert(views(exchanges@) =~= before.exchanges.push(
                                ExchangeView { request: request@, outcome: outcome@ },
                            ));
                            assert(pairs_views(tools@) =~= before.tools.push(before.calls));
                            assert(views(calls@) =~= Seq::<PairView>::empty());
                        }
                    },
                    None => {
                        pending = None;
                        warnings.push(dangling_outcome_warning(line_no, outcome_word(&outcome)));
                        assert(views(warnings@) =~= before.warnings.push(
                            dangling(line_no as nat, response_word(outcome@)),
                        ));
                    },
                }
            },
            TrailLine::Call { call, turn: _ } => {
                if pending.is_some() {
                    calls.push(ToolPair { call, result: None });
                    assert(views(calls@) =~= before.calls.push(
                        PairView { call: call@, result: None },
                    ));
                }
            },
            TrailLine::Result { result, turn: _ } => {
                if pending.is_some() {
                    answer_call(&mut calls, result);
                }
            },
            _ => {},
        }
    }
    assert(all.take(all.len() as int) =~= all);
    let ghost untorn = views(warnings@);
    match trail.torn {
        Some(warning) => {
            warnings.push(warning);
            assert(views(warnings@) =~= untorn.push(warning@));
        },
        None => {},
    }
    ParseReport { exchanges, tools, warnings }
}

/// Parses a JSONL exchange trail into a [`ParseReport`] of paired [`Exchange`]
/// values plus any non-fatal warnings.
///
/// - An unknown `event` tag (or a line with no `event`) is skipped.
/// - A malformed line, or a known event missing required fields, is a
///   [`LegError::Log`] naming the 1-based line number, unless the line is the
///   final one and has no terminating newline: then it is skipped with a
///   warning.
/// - An outcome with no pending request is not yielded, and warned about.
/// - A trailing request with no outcome is not yielded and not warned about.
pub fn parse_jsonl(bytes: &[u8]) -> (result: Result<ParseReport>)
    ensures
        match scan(bytes@, 1, false) {
            Ok(lines) => result matches Ok(report) && reports(
                report,
                report_of(lines.lines),
                lines.torn,
            ),
            Err(fault) => result matches Err(LegError::Log(message)) && message@ == fault,
        },
        forall|events: Seq<ExchangeEvent>| #[trigger]
            is_trail_of(bytes@, events) ==> (result matches Ok(report) && reports(
                report,
                report_of(numbered_lines(events, 1, false)),
                None,
            )),
{
    proof {
        assert forall|events: Seq<ExchangeEvent>| #[trigger]
            is_trail_of(bytes@, events) && is_faithful_trail(bytes@, false) implies scan(
            bytes@,
            1,
            false,
        ) == Ok::<LinesView, Seq<char>>(
            LinesView { lines: numbered_lines(events, 1, false), torn: None },
        ) by {
            law_trail_reads_back(bytes@, events, 1, false);
        }
    }
    match read_trail(bytes, false) {
        Ok(trail) => Ok(pair_exchanges(trail)),
        Err(fault) => Err(LegError::Log(fault)),
    }
}

/// One turn of a session, read back from the trail.
#[derive(Debug, PartialEq, Eq)]
pub struct SessionTurn {
    /// The request that opened this turn.
    pub request: RequestRecord,
    /// The content blocks of each dispatched tool round, in order.
    pub rounds: Vec<Vec<ContentBlock>>,
    /// The tool calls made within this turn, in call order.
    pub tools: Vec<ToolPair>,
    /// The turn's outcome, or `None` when the run was killed after the
    /// request line but before its outcome landed.
    pub outcome: Option<Outcome>,
}

/// The view of a [`SessionTurn`].
pub struct TurnView {
    pub request: RequestView,
    pub rounds: Seq<Seq<BlockView>>,
    pub tools: Seq<PairView>,
    pub outcome: Option<OutcomeView>,
}

/// The views of the blocks of several rounds.
pub open spec fn rounds_views(rounds: Seq<Vec<ContentBlock>>) -> Seq<Seq<BlockView>> {
    Seq::new(rounds.len(), |i: int| views(rounds[i]@))
}

impl View for SessionTurn {
    type V = TurnView;

    open spec fn view(&self) -> TurnView {
        TurnView {
            request: self.request@,
            rounds: rounds_views(self.rounds@),
            tools: views(self.tools@),
            outcome: opt_view(self.outcome),
        }
    }
}

/// A whole session reconstructed from the trail, keyed on `session_id`.
///
/// Partitioning keys on `session_id` alone, not on a matched start/end pair,
/// so a session killed mid-run still forms one complete record.
#[derive(Debug, PartialEq, Eq)]
pub struct SessionRecord {
    /// The id shared by this session's start marker and every turn's request.
    pub session_id: String,
    /// Whether a `session_start` marker for this id was seen on the trail.
    pub started: bool,
    /// Whether a `session_end` marker for this id was seen.
    pub ended: bool,
    /// The turn count declared on the `session_end` marker, if any.
    pub declared_turns: Option<u64>,
    /// The session's turns, in file order.
    pub turns: Vec<SessionTurn>,
}

/// The view of a [`SessionRecord`].
pub struct SessionView {
    pub session_id: Seq<char>,
    pub started: bool,
    pub ended: bool,
    pub declared_turns: Option<u64>,
    pub turns: Seq<TurnView>,
}

impl View for SessionRecord {
    type V = SessionView;

    open spec fn view(&self) -> SessionView {
        SessionView {
            session_id: self.session_id@,
            started: self.started,
            ended: self.ended,
            declared_turns: self.declared_turns,
            turns: views(self.turns@),
        }
    }
}

/// The outcome of partitioning a trail into sessions.
#[derive(Debug, PartialEq, Eq)]
pub struct SessionParseReport {
    /// Reconstructed sessions, in the order their `session_id` was first seen.
    pub sessions: Vec<SessionRecord>,
    /// Non-fatal diagnostics, in encounter order.
    pub warnings: Vec<String>,
}

/// What has been read of the sessions of a trail.
pub struct SessionsView {
    pub sessions: Seq<SessionView>,
    pub warnings: Seq<Seq<char>>,
}

/// The place of the session `id`; `sessions.len()` where there is none.
pub open spec fn session_place(sessions: Seq<SessionView>, id: Seq<char>) -> nat
    decreases sessions.len(),
{
    if sessions.len() == 0 {
        0
    } else {
        let before = session_place(sessions.drop_last(), id);
        if before < sessions.len() - 1 {
            before
        } else if sessions.last().session_id == id {
            (sessions.len() - 1) as nat
        } else {
            sessions.len()
        }
    }
}

/// The place of the first turn numbered `index`; `turns.len()` where there is
/// none.
pub open spec fn turn_place(turns: Seq<TurnView>, index: u64) -> nat
    decreases turns.len(),
{
    if turns.len() == 0 {
        0
    } else {
        let before = turn_place(turns.drop_last(), index);
        if before < turns.len() - 1 {
            before
        } else if turns.last().request.turn_index == Some(index) {
            (turns.len() - 1) as nat
        } else {
            turns.len()
        }
    }
}

/// A session of which nothing but its id is known.
pub open spec fn new_session(id: Seq<char>) -> SessionView {
    SessionView {
        session_id: id,
        started: false,
        ended: false,
        declared_turns: None,
        turns: seq![],
    }
}

/// `sessions` with the session `id` in it, added at the end if it is new.
pub open spec fn with_session(sessions: Seq<SessionView>, id: Seq<char>) -> Seq<SessionView> {
    if session_place(sessions, id) < sessions.len() {
        sessions
    } else {
        sessions.push(new_session(id))
    }
}

/// The turn that `turn` names, as the places of its session and of itself.
pub open spec fn located(sessions: Seq<SessionView>, turn: Option<(Seq<char>, u64)>) -> Option<
    (int, int),
> {
    match turn {
        None => None,
        Some((id, index)) => {
            let s = session_place(sessions, id) as int;
            if s < sessions.len() {
                let t = turn_place(sessions[s].turns, index) as int;
                if t < sessions[s].turns.len() {
                    Some((s, t))
                } else {
                    None
                }
            } else {
                None
            }
        },
    }
}

/// `sessions` with the turn at `at` replaced by `turn`.
pub open spec fn turn_set(sessions: Seq<SessionView>, at: (int, int), turn: TurnView) -> Seq<
    SessionView,
> {
    let session = sessions[at.0];
    sessions.update(at.0, SessionView { turns: session.turns.update(at.1, turn), ..session })
}

/// The session turn that an outcome belongs to, where it belongs to one.
pub open spec fn outcome_turn(outcome: OutcomeView) -> Option<(Seq<char>, u64)> {
    match outcome {
        OutcomeView::Success { session_id: Some(id), turn_index: Some(index), .. } => Some(
            (id, index),
        ),
        OutcomeView::Error { session_id: Some(id), turn_index: Some(index), .. } => Some(
            (id, index),
        ),
        _ => None,
    }
}

/// `r` after one more line.
pub open spec fn sessions_step(r: SessionsView, line_no: nat, line: LineView) -> SessionsView {
    match line {
        LineView::Start { session_id } => {
            let all = with_session(r.sessions, session_id);
            let i = session_place(all, session_id) as int;
            SessionsView {
                sessions: all.update(i, SessionView { started: true, ..all[i] }),
                warnings: r.warnings,
            }
        },
        LineView::End { session_id, turns } => {
            let all = with_session(r.sessions, session_id);
            let i = session_place(all, session_id) as int;
            SessionsView {
                sessions: all.update(
                    i,
                    SessionView { ended: true, declared_turns: Some(turns), ..all[i] },
                ),
                warnings: r.warnings,
            }
        },
        LineView::Request(request) => match request.session_id {
            None => r,
            Some(id) => {
                let all = with_session(r.sessions, id);
                let i = session_place(all, id) as int;
                let turn = TurnView { request, rounds: seq![], tools: seq![], outcome: None };
                SessionsView {
                    sessions: all.update(
                        i,
                        SessionView { turns: all[i].turns.push(turn), ..all[i] },
                    ),
                    warnings: r.warnings,
                }
            },
        },
        LineView::Response(outcome) => match outcome_turn(outcome) {
            None => r,
            Some(turn) => match located(r.sessions, Some(turn)) {
                Some(at) => {
                    let held = r.sessions[at.0].turns[at.1];
                    SessionsView {
                        sessions: turn_set(
                            r.sessions,
                            at,
                            TurnView { outcome: Some(outcome), ..held },
                        ),
                        warnings: r.warnings,
                    }
                },
                None => SessionsView {
                    sessions: r.sessions,
                    warnings: r.warnings.push(dangling(line_no, response_word(outcome))),
                },
            },
        },
        LineView::Round { content, turn } => match located(r.sessions, turn) {
            Some(at) => {
                let held = r.sessions[at.0].turns[at.1];
                SessionsView {
                    sessions: turn_set(
                        r.sessions,
                        at,
                        TurnView { rounds: held.rounds.push(content), ..held },
                    ),
                    warnings: r.warnings,
                }
            },
            None => r,
        },
        LineView::Call { call, turn } => match located(r.sessions, turn) {
            Some(at) => {
                let held = r.sessions[at.0].turns[at.1];
                SessionsView {
                    sessions: turn_set(
                        r.sessions,
                        at,
                        TurnView {
                            tools: held.tools.push(PairView { call, result: None }),
                            ..held
                        },
                    ),
                    warnings: r.warnings,
                }
            },
            None => r,
        },
        LineView::Result { result, turn } => match located(r.sessions, turn) {
            Some(at) => {
                let held = r.sessions[at.0].turns[at.1];
                SessionsView {
                    sessions: turn_set(
                        r.sessions,
                        at,
                        TurnView { tools: answered(held.tools, result), ..held },
                    ),
                    warnings: r.warnings,
                }
            },
            None => r,
        },
        LineView::Skipped => r,
    }
}

/// What the first lines of a trail amount to, session by session.
pub open spec fn sessions_of(lines: Seq<(nat, LineView)>) -> SessionsView
    decreases lines.len(),
{
    if lines.len() == 0 {
        SessionsView { sessions: seq![], warnings: seq![] }
    } else {
        sessions_step(sessions_of(lines.drop_last()), lines.last().0, lines.last().1)
    }
}

/// The place of the session `id`, if it is known.
pub fn find_session(sessions: &Vec<SessionRecord>, id: &str) -> (place: usize)
    ensures
        place == session_place(views(sessions@), id@),
        place <= sessions@.len(),
{
    let ghost all = views(sessions@);
    let mut i: usize = 0;
    assert(all.take(0) =~= Seq::<SessionView>::empty());
    while i < sessions.len()
        invariant
            i <= sessions.len(),
            all == views(sessions@),
            session_place(all.take(i as int), id@) == i,
        decreases sessions.len() - i,
    {
        assert(all.take(i + 1).drop_last() =~= all.take(i as int));
        if same_text(sessions[i].session_id.as_str(), id) {
            proof {
                lemma_session_found(all, id@, i as nat, all.len());
                assert(all.take(all.len() as int) =~= all);
            }
            return i;
        }
        i = i + 1;
    }
    assert(all.take(all.len() as int) =~= all);
    i
}

proof fn lemma_session_found(sessions: Seq<SessionView>, id: Seq<char>, i: nat, n: nat)
    requires
        i < n <= sessions.len(),
        session_place(sessions.take(i as int), id) == i,
        sessions[i as int].session_id == id,
    ensures
        session_place(sessions.take(n as int), id) == i,
    decreases n,
{
    assert(sessions.take(n as int).drop_last() =~= sessions.take(n - 1));
    if n > i + 1 {
        lemma_session_found(sessions, id, i, (n - 1) as nat);
    }
}

fn find_turn(turns: &Vec<SessionTurn>, index: u64) -> (place: usize)
    ensures
        place == turn_place(views(turns@), index),
        place <= turns@.len(),
{
    let ghost all = views(turns@);
    let mut i: usize = 0;
    assert(all.take(0) =~= Seq::<TurnView>::empty());
    while i < turns.len()
        invariant
            i <= turns.len(),
            all == views(turns@),
            turn_place(all.take(i as int), index) == i,
        decreases turns.len() - i,
    {
        assert(all.take(i + 1).drop_last() =~= all.take(i as int));
        if let Some(found) = turns[i].request.turn_index {
            if found == index {
                proof {
                    lemma_turn_found(all, index, i as nat, all.len());
                    assert(all.take(all.len() as int) =~= all);
                }
                return i;
            }
        }
        i = i + 1;
    }
    assert(all.take(all.len() as int) =~= all);
    i
}

proof fn lemma_turn_found(turns: Seq<TurnView>, index: u64, i: nat, n: nat)
    requires
        i < n <= turns.len(),
        turn_place(turns.take(i as int), index) == i,
        turns[i as int].request.turn_index == Some(index),
    ensures
        turn_place(turns.take(n as int), index) == i,
    decreases n,
{
    assert(turns.take(n as int).drop_last() =~= turns.take(n - 1));
    if n > i + 1 {
        lemma_turn_found(turns, index, i, (n - 1) as nat);
    }
}

/// Returns the index of the [`SessionRecord`] for `session_id`, creating an
/// empty one (in first-seen order) on first sighting.
fn session_index(sessions: &mut Vec<SessionRecord>, session_id: &str) -> (index: usize)
    ensures
        views(final(sessions)@) == with_session(views(old(sessions)@), session_id@),
        index == session_place(views(final(sessions)@), session_id@),
        index < final(sessions)@.len(),
{
    let ghost before = views(sessions@);
    let place: usize = find_session(sessions, session_id);
    if place == sessions.len() {
        sessions.push(
            SessionRecord {
                session_id: session_id.to_owned(),
                started: false,
                ended: false,
                declared_turns: None,
                turns: Vec::new(),
            },
        );
        proof {
            let added = sessions@[place as int]@;
            assert(added.turns =~= Seq::<TurnView>::empty());
            assert(views(sessions@) =~= before.push(new_session(session_id@)));
            assert(views(sessions@).drop_last() =~= before);
        }
    }
    place
}

/// The places of the session and the turn that `turn` names.
fn locate(sessions: &Vec<SessionRecord>, turn: &Option<(String, u64)>) -> (at: Option<
    (usize, usize),
>)
    ensures
        match at {
            Some((s, t)) => {
                &&& located(views(sessions@), turn_view(*turn)) == Some((s as int, t as int))
                &&& s < sessions@.len()
                &&& t < sessions@[s as int].turns@.len()
            },
            None => located(views(sessions@), turn_view(*turn)) == None::<(int, int)>,
        },
{
    match turn {
        None => None,
        Some((id, index)) => {
            let s: usize = find_session(sessions, id.as_str());
            if s < sessions.len() {
                let t: usize = find_turn(&sessions[s].turns, *index);
                if t < sessions[s].turns.len() {
                    return Some((s, t));
                }
            }
            None
        },
    }
}

/// The session turn that an outcome belongs to.
fn turn_of_outcome(outcome: &Outcome) -> (turn: Option<(String, u64)>)
    ensures
        turn_view(turn) == outcome_turn(outcome@),
{
    let (id, index) = match outcome {
        Outcome::Success { session_id, turn_index, .. } => (session_id, turn_index),
        Outcome::Error { session_id, turn_index, .. } => (session_id, turn_index),
    };
    match (id, index) {
        (Some(id), Some(index)) => Some((id.clone(), *index)),
        _ => None,
    }
}

/// Takes one line into account.
fn apply_line(
    sessions: &mut Vec<SessionRecord>,
    warnings: &mut Vec<String>,
    line_no: usize,
    line: TrailLine,
)
    ensures
        (SessionsView { sessions: views(final(sessions)@), warnings: views(final(warnings)@) })
            == sessions_step(
            SessionsView { sessions: views(old(sessions)@), warnings: views(old(warnings)@) },
            line_no as nat,
            line@,
        ),
{
    let ghost before = views(sessions@);
    let ghost expected = sessions_step(
        SessionsView { sessions: before, warnings: views(warnings@) },
        line_no as nat,
        line@,
    );
    match line {
        TrailLine::Start { session_id } => {
            let i: usize = session_index(sessions, session_id.as_str());
            let session = &mut sessions[i];
            session.started = true;
            assert(views(sessions@) =~= expected.sessions);
        },
        TrailLine::End { session_id, turns } => {
            let i: usize = session_index(sessions, session_id.as_str());
            let session = &mut sessions[i];
            session.ended = true;
            session.declared_turns = Some(turns);
            assert(views(sessions@) =~= expected.sessions);
        },
        TrailLine::Request(request) => {
            let id = match &request.session_id {
                Some(id) => id.clone(),
                None => {
                    return ;
                },
            };
            let i: usize = session_index(sessions, id.as_str());
            let ghost held = views(sessions@[i as int].turns@);
            let turn = SessionTurn { request, rounds: Vec::new(), tools: Vec::new(), outcome: None };
            let ghost added = turn@;
            proof {
                assert(added.rounds =~= Seq::<Seq<BlockView>>::empty());
                assert(added.tools =~= Seq::<PairView>::empty());
            }
            let session = &mut sessions[i];
            session.turns.push(turn);
            proof {
                assert(views(sessions@[i as int].turns@) =~= held.push(added));
                assert(views(sessions@) =~= expected.sessions);
            }
        },
        TrailLine::Response(outcome) => {
            let turn = turn_of_outcome(&outcome);
            if turn.is_none() {
                return ;
            }
            match locate(sessions, &turn) {
                Some((s, t)) => {
                    let ghost held = views(sessions@[s as int].turns@);
                    let session = &mut sessions[s];
                    let slot = &mut session.turns[t];
                    slot.outcome = Some(outcome);
                    proof {
                        assert(views(sessions@[s as int].turns@) =~= held.update(
                            t as int,
                            TurnView { outcome: Some(outcome@), ..held[t as int] },
                        ));
                        assert(views(sessions@) =~= expected.sessions);
                    }
                },
                None => {
                    let ghost noted = views(warnings@);
                    warnings.push(dangling_outcome_warning(line_no, outcome_word(&outcome)));
                    assert(views(warnings@) =~= noted.push(
                        dangling(line_no as nat, response_word(outcome@)),
                    ));
                },
            }
        },
        TrailLine::Round { content, turn } => {
            if let Some((s, t)) = locate(sessions, &turn) {
                let ghost held = views(sessions@[s as int].turns@);
                let ghost added = views(content@);
                let session = &mut sessions[s];
                let slot = &mut session.turns[t];
                slot.rounds.push(content);
                proof {
                    assert(rounds_views(sessions@[s as int].turns@[t as int].rounds@)
                        =~= held[t as int].rounds.push(added));
                    assert(views(sessions@[s as int].turns@) =~= held.update(
                        t as int,
                        TurnView { rounds: held[t as int].rounds.push(added), ..held[t as int] },
                    ));
                    assert(views(sessions@) =~= expected.sessions);
                }
            }
        },
        TrailLine::Call { call, turn } => {
            if let Some((s, t)) = locate(sessions, &turn) {
                let ghost held = views(sessions@[s as int].turns@);
                let ghost added = PairView { call: call@, result: None };
                let session = &mut sessions[s];
                let slot = &mut session.turns[t];
                slot.tools.push(ToolPair { call, result: None });
                proof {
                    assert(views(sessions@[s as int].turns@[t as int].tools@)
                        =~= held[t as int].tools.push(added));
                    assert(views(sessions@[s as int].turns@) =~= held.update(
                        t as int,
                        TurnView { tools: held[t as int].tools.push(added), ..held[t as int] },
                    ));
                    assert(views(sessions@) =~= expected.sessions);
                }
            }
        },
        TrailLine::Result { result, turn } => {
            if let Some((s, t)) = locate(sessions, &turn) {
                let ghost held = views(sessions@[s as int].turns@);
                let ghost r = result@;
                let session = &mut sessions[s];
                let slot = &mut session.turns[t];
                answer_call(&mut slot.tools, result);
                proof {
                    assert(views(sessions@[s as int].turns@) =~= held.update(
                        t as int,
                        TurnView { tools: answered(held[t as int].tools, r), ..held[t as int] },
                    ));
                    assert(views(sessions@) =~= expected.sessions);
                }
            }
        },
        TrailLine::Skipped => {},
    }
}

/// Partitions a JSONL trail into whole sessions, keyed on `session_id`.
///
/// Reads the same trail as [`parse_jsonl`], but groups by session framing
/// rather than pairing bare exchanges. A sessionless (`ask`) request carries
/// no `session_id` and is skipped. Behaviour at the edges mirrors
/// [`parse_jsonl`].
pub fn parse_sessions(bytes: &[u8]) -> (result: Result<SessionParseReport>)
    ensures
        match scan(bytes@, 1, true) {
            Ok(lines) => result matches Ok(report) && views(report.sessions@) == sessions_of(
                lines.lines,
            ).sessions && views(report.warnings@) == with_torn(
                sessions_of(lines.lines).warnings,
                lines.torn,
            ),
            Err(fault) => result matches Err(LegError::Log(message)) && message@ == fault,
        },
        forall|events: Seq<ExchangeEvent>| #[trigger]
            is_trail_of(bytes@, events) ==> (result matches Ok(report) && views(report.sessions@)
                == sessions_of(numbered_lines(events, 1, true)).sessions && views(report.warnings@)
                == sessions_of(numbered_lines(events, 1, true)).warnings),
{
    proof {
        assert forall|events: Seq<ExchangeEvent>| #[trigger]
            is_trail_of(bytes@, events) && is_faithful_trail(bytes@, true) implies scan(
            bytes@,
            1,
            true,
        ) == Ok::<LinesView, Seq<char>>(
            LinesView { lines: numbered_lines(events, 1, true), torn: None },
        ) by {
            law_trail_reads_back(bytes@, events, 1, true);
        }
    }
    let trail = match read_trail(bytes, true) {
        Ok(trail) => trail,
        Err(fault) => {
            return Err(LegError::Log(fault));
        },
    };
    let ghost all = trail@.lines;
    let mut lines = trail.lines;
    let mut sessions: Vec<SessionRecord> = Vec::new();
    let mut warnings: Vec<String> = Vec::new();
    let ghost mut done: int = 0;
    proof {
        assert(all.take(0) =~= Seq::<(nat, LineView)>::empty());
        assert(views(sessions@) =~= Seq::<SessionView>::empty());
        assert(views(warnings@) =~= Seq::<Seq<char>>::empty());
        assert(all.skip(0) =~= numbered(lines@));
    }
    while lines.len() > 0
        invariant
            0 <= done <= all.len(),
            numbered(lines@) == all.skip(done),
            sessions_of(all.take(done)) == (SessionsView {
                sessions: views(sessions@),
                warnings: views(warnings@),
            }),
        decreases lines.len(),
    {
        let ghost held = lines@;
        assert(numbered(held).len() == all.len() - done);
        let (line_no, line) = lines.pop_front().unwrap();
        proof {
            assert(all.skip(done)[0] == all[done]);
            assert(numbered(held)[0] == (line_no as nat, line@));
            assert(all.take(done + 1).drop_last() =~= all.take(done));
            assert(numbered(lines@) =~= numbered(held).skip(1));
            assert(all.skip(done).skip(1) =~= all.skip(done + 1));
            done = done + 1;
        }
        apply_line(&mut sessions, &mut warnings, line_no, line);
    }
    assert(all.take(all.len() as int) =~= all);
    let ghost untorn = views(warnings@);
    match trail.torn {
        Some(warning) => {
            warnings.push(warning);
            assert(views(warnings@) =~= untorn.push(warning@));
        },
        None => {},
    }
    Ok(SessionParseReport { sessions, warnings })
}

/// The most characters of a text shown in a rendered exchange.
pub const EXCERPT_CHARS: usize = 120;

/// `c`, or a space where it breaks the line.
pub open spec fn flat_char(c: char) -> char {
    if c == '\n' || c == '\r' {
        ' '
    } else {
        c
    }
}

/// `s` on one line, cut to `max` characters; a cut text ends in `…`.
pub open spec fn excerpt_of(s: Seq<char>, max: nat) -> Seq<char> {
    let flat = Seq::new(s.len(), |i: int| flat_char(s[i]));
    if flat.len() <= max {
        flat
    } else {
        flat.take(max as int).push('…')
    }
}

/// Collapses newlines to spaces and truncates `s` to at most `max` characters,
/// appending `…` when truncation occurred.
pub fn excerpt(s: &str, max: usize) -> (text: String)
    ensures
        text@ == excerpt_of(s@, max as nat),
{
    let chars = chars_of(s);
    let ghost flat = Seq::new(s@.len(), |i: int| flat_char(s@[i]));
    let shown: usize = if chars.len() <= max {
        chars.len()
    } else {
        max
    };
    let mut text = String::new();
    let mut i: usize = 0;
    while i < shown
        invariant
            i <= shown <= chars.len(),
            chars@ == s@,
            flat == Seq::new(s@.len(), |i: int| flat_char(s@[i])),
            text@ == flat.take(i as int),
        decreases shown - i,
    {
        let c = chars[i];
        if c == '\n' || c == '\r' {
            text.push(' ');
        } else {
            text.push(c);
        }
        assert(text@ =~= flat.take(i + 1));
        i = i + 1;
    }
    assert(flat.take(flat.len() as int) =~= flat);
    if chars.len() > max {
        text.push('…');
    }
    text
}

/// A token count, `?` where it is unknown.
pub open spec fn count_text(count: Option<u64>) -> Seq<char> {
    match count {
        Some(n) => decimal(n as nat),
        None => "?"@,
    }
}

/// The token counts of an exchange.
pub open spec fn tokens_text(input: Option<u64>, output: Option<u64>) -> Seq<char> {
    if input is None && output is None {
        "unknown"@
    } else {
        count_text(input) + " in, "@ + count_text(output) + " out"@
    }
}

fn format_count(count: Option<u64>) -> (text: String)
    ensures
        text@ == count_text(count),
{
    match count {
        Some(n) => decimal_text(n),
        None => "?".to_owned(),
    }
}

/// Formats the reported token counts of a successful exchange.
pub fn format_tokens(input_tokens: Option<u64>, output_tokens: Option<u64>) -> (text: String)
    ensures
        text@ == tokens_text(input_tokens, output_tokens),
{
    if input_tokens.is_none() && output_tokens.is_none() {
        return "unknown".to_owned();
    }
    let input = format_count(input_tokens);
    let output = format_count(output_tokens);
    concat4(input.as_str(), " in, ", output.as_str(), " out")
}

/// The text that a tool result shows: its output, or its error.
pub open spec fn result_shown(result: ToolResultView) -> Seq<char> {
    match (result.status, result.result, result.error) {
        (ToolStatus::Completed, Some(output), _) => output,
        (ToolStatus::Completed, None, _) => ""@,
        (_, _, Some(error)) => error,
        (_, _, None) => ""@,
    }
}

/// The rendering of one tool call.
pub open spec fn pair_text(pair: PairView) -> Seq<char> {
    let head = "    tool:   "@ + pair.call.tool_name + " ["@ + pair.call.tool_use_id + "]\n"@;
    match pair.result {
        Some(result) => head + "            → "@ + status_wire(result.status) + ": "@ + excerpt_of(
            result_shown(result),
            EXCERPT_CHARS as nat,
        ) + "\n"@,
        None => head,
    }
}

/// The renderings of `pairs`, in order.
pub open spec fn pairs_text(pairs: Seq<PairView>) -> Seq<char>
    decreases pairs.len(),
{
    if pairs.len() == 0 {
        seq![]
    } else {
        pairs_text(pairs.drop_last()) + pair_text(pairs.last())
    }
}

/// The time spent on an exchange.
pub open spec fn outcome_duration(outcome: OutcomeView) -> u64 {
    match outcome {
        OutcomeView::Success { duration_ms, .. } => duration_ms,
        OutcomeView::Error { duration_ms, .. } => duration_ms,
    }
}

/// The last lines of a rendered exchange: the reply and its tokens, or the
/// failure.
pub open spec fn outcome_text(outcome: OutcomeView) -> Seq<char> {
    match outcome {
        OutcomeView::Success { reply, input_tokens, output_tokens, .. } => "    reply:  "@
            + excerpt_of(reply, EXCERPT_CHARS as nat) + "\n    tokens: "@ + tokens_text(
            input_tokens,
            output_tokens,
        ) + "\n"@,
        OutcomeView::Error { kind, message, .. } => "    error:  "@ + kind + ": "@ + excerpt_of(
            message,
            EXCERPT_CHARS as nat,
        ) + "\n"@,
    }
}

/// The rendering of the `n`th exchange with the calls made within it.
pub open spec fn exchange_text(n: nat, exchange: ExchangeView, pairs: Seq<PairView>) -> Seq<char> {
    "#"@ + decimal(n) + "  "@ + stamp_of(exchange.request.ts_ms) + "  "@ + exchange.request.model
        + "  ("@ + decimal(outcome_duration(exchange.outcome) as nat) + "ms)\n    prompt: "@
        + excerpt_of(exchange.request.prompt, EXCERPT_CHARS as nat) + "\n"@ + pairs_text(pairs)
        + outcome_text(exchange.outcome)
}

fn format_pair(pair: &ToolPair) -> (text: String)
    ensures
        text@ == pair_text(pair@),
{
    let mut text = concat5(
        "    tool:   ",
        pair.call.tool_name.as_str(),
        " [",
        pair.call.tool_use_id.as_str(),
        "]\n",
    );
    if let Some(result) = &pair.result {
        let shown = match (result.status, &result.result, &result.error) {
            (ToolStatus::Completed, Some(output), _) => output.as_str(),
            (ToolStatus::Completed, None, _) => "",
            (_, _, Some(error)) => error.as_str(),
            (_, _, None) => "",
        };
        let shown = excerpt(shown, EXCERPT_CHARS);
        text.append("            → ");
        text.append(result.status.as_str());
        text.append(": ");
        text.append(shown.as_str());
        text.append("\n");
    }
    text
}

/// Renders one exchange as a human-readable multi-line block.
///
/// `n` is the 1-based position shown to the user. The block carries the
/// timestamp, model, and call duration on its header line, then a truncated
/// prompt and either a truncated reply or the failure (`kind: message`).
pub fn format_exchange(n: usize, exchange: &Exchange) -> (text: String)
    ensures
        text@ == exchange_text(n as nat, exchange@, seq![]),
{
    let none: Vec<ToolPair> = Vec::new();
    assert(views(none@) =~= Seq::<PairView>::empty());
    format_exchange_with_tools(n, exchange, none.as_slice())
}

/// [`format_exchange`] with the tool calls made within the exchange.
pub fn format_exchange_with_tools(n: usize, exchange: &Exchange, tools: &[ToolPair]) -> (text:
    String)
    ensures
        text@ == exchange_text(n as nat, exchange@, views(tools@)),
{
    let request = &exchange.request;
    let number = decimal_text(n as u64);
    let time = format_ts(request.ts_ms);
    let duration = match &exchange.outcome {
        Outcome::Success { duration_ms, .. } => decimal_text(*duration_ms),
        Outcome::Error { duration_ms, .. } => decimal_text(*duration_ms),
    };
    let prompt = excerpt(request.prompt.as_str(), EXCERPT_CHARS);
    let mut text = concat5("#", number.as_str(), "  ", time.as_str(), "  ");
    text.append(request.model.as_str());
    text.append("  (");
    text.append(duration.as_str());
    text.append("ms)\n    prompt: ");
    text.append(prompt.as_str());
    text.append("\n");
    let ghost head = text@;
    let ghost all = views(tools@);
    let mut i: usize = 0;
    assert(all.take(0) =~= Seq::<PairView>::empty());
    assert(head + Seq::<char>::empty() =~= head);
    while i < tools.len()
        invariant
            i <= tools.len(),
            all == views(tools@),
            text@ == head + pairs_text(all.take(i as int)),
        decreases tools.len() - i,
    {
        let block = format_pair(&tools[i]);
        proof {
            assert(all.take(i + 1).drop_last() =~= all.take(i as int));
            assert(text@ + block@ =~= head + pairs_text(all.take(i + 1)));
        }
        text.append(block.as_str());
        i = i + 1;
    }
    assert(all.take(all.len() as int) =~= all);
    let ghost before = text@;
    let tail = match &exchange.outcome {
        Outcome::Success { reply, input_tokens, output_tokens, .. } => {
            let reply = excerpt(reply.as_str(), EXCERPT_CHARS);
            let tokens = format_tokens(*input_tokens, *output_tokens);
            concat5("    reply:  ", reply.as_str(), "\n    tokens: ", tokens.as_str(), "\n")
        },
        Outcome::Error { kind, message, .. } => {
            let message = excerpt(message.as_str(), EXCERPT_CHARS);
            concat5("    error:  ", kind.as_str(), ": ", message.as_str(), "\n")
        },
    };
    text.append(tail.as_str());
    text
}

/// A trail whose last line was cut off mid-write reads as the trail without
/// that line, with a warning about it.
pub proof fn law_torn_tail_is_tolerated(whole: Seq<u8>, tail: Seq<u8>, line_no: nat, sessions: bool)
    requires
        whole.len() == 0 || whole.last() == 10,
        tail.len() > 0,
        forall|i: int| 0 <= i < tail.len() ==> #[trigger] tail[i] != 10,
        !is_blank_line(tail),
        line_value(tail) is Err,
        scan(whole, line_no, sessions) is Ok,
    ensures
        ({
            let read = scan(whole, line_no, sessions)->Ok_0;
            scan(whole + tail, line_no, sessions) matches Ok(torn) && torn.lines == read.lines
                && torn.torn is Some
        }),
    decreases whole.len(),
{
    let bytes = whole + tail;
    if whole.len() == 0 {
        assert(bytes =~= tail);
        lemma_first_line(tail, tail.len());
        assert(tail.take(tail.len() as int) =~= tail);
        assert(tail.last() != 10);
    } else {
        let n = first_line(whole);
        lemma_first_line_bound(whole);
        lemma_first_line_ends(whole);
        assert forall|i: int| 0 <= i < n - 1 implies bytes[i] != 10 by {
            assert(bytes[i] == whole[i]);
        }
        assert(bytes[n - 1] == whole[n - 1]);
        lemma_first_line(bytes, n);
        let rest = whole.skip(n as int);
        assert(bytes.take(n as int) =~= whole.take(n as int));
        assert(bytes.skip(n as int) =~= rest + tail);
        if rest.len() > 0 {
            assert(rest.last() == whole.last());
        }
        law_torn_tail_is_tolerated(rest, tail, line_no + 1, sessions);
    }
}

/// The first line of bytes that end in a newline ends in one too, and holds no
/// other.
proof fn lemma_first_line_ends(bytes: Seq<u8>)
    requires
        bytes.len() > 0,
        bytes.last() == 10,
    ensures
        1 <= first_line(bytes) <= bytes.len(),
        bytes[first_line(bytes) - 1] == 10,
        forall|i: int| 0 <= i < first_line(bytes) - 1 ==> bytes[i] != 10,
    decreases bytes.len(),
{
    if bytes[0] != 10 {
        let rest = bytes.skip(1);
        assert(rest.len() > 0);
        assert(rest.last() == bytes.last());
        lemma_first_line_ends(rest);
        let n = first_line(rest);
        assert(first_line(bytes) == 1 + n);
        assert(bytes[n as int] == rest[n - 1]);
        assert forall|i: int| 0 <= i < n implies bytes[i] != 10 by {
            if i > 0 {
                assert(bytes[i] == rest[i - 1]);
            }
        }
    }
}

} // verus!
