//! The JSON forms of content blocks and trail events.
//!
//! Writing keeps the fields in a fixed order and leaves out those that are
//! absent. Reading goes by field names, ignores fields it does not know, and
//! says which field is missing or malformed.

use vstd::prelude::*;

use crate::events::{
    ExchangeEvent, Outcome, OutcomeView, RequestRecord, RequestView, SCHEMA,
    ToolCallRecord, ToolCallView, ToolResultRecord, ToolResultView, ToolRoundRecord, ToolStatus,
    content_view, status_wire,
};
use crate::json::{
    add_member, field, json_text, lemma_list_value, list, max_depth, member_trees, object,
    readable, string, trees, unsigned, values, Json, JsonTree, JsonValue, NumberTree,
};
use crate::model::{BlockView, ContentBlock, ImageSource};
use crate::text::{concat3, opt_view, same_text, text_result, views};

verus! {

/// `members` with one more, where there is a value for it.
pub open spec fn with_optional(
    members: Seq<(Seq<char>, JsonTree)>,
    key: Seq<char>,
    json: Option<JsonTree>,
) -> Seq<(Seq<char>, JsonTree)> {
    match json {
        Some(json) => members.push((key, json)),
        None => members,
    }
}

/// The tree of an optional text.
pub open spec fn opt_text_tree(text: Option<String>) -> Option<JsonTree> {
    match text {
        Some(text) => Some(JsonTree::Text(text@)),
        None => None,
    }
}

/// The tree of an optional count.
pub open spec fn opt_count_tree(count: Option<u64>) -> Option<JsonTree> {
    match count {
        Some(n) => Some(JsonTree::Number(NumberTree::Unsigned(n))),
        None => None,
    }
}

/// The tree of optional content blocks.
pub open spec fn opt_content_tree(content: Option<Vec<ContentBlock>>) -> Option<JsonTree> {
    match content {
        Some(blocks) => Some(JsonTree::List(block_trees(blocks@))),
        None => None,
    }
}

fn add_text(members: &mut Vec<(String, Json)>, key: &str, text: &Option<String>)
    ensures
        member_trees(final(members)@) == with_optional(
            member_trees(old(members)@),
            key@,
            opt_text_tree(*text),
        ),
{
    if let Some(text) = text {
        add_member(members, key, string(text.as_str()));
    }
}

fn add_count(members: &mut Vec<(String, Json)>, key: &str, count: Option<u64>)
    ensures
        member_trees(final(members)@) == with_optional(
            member_trees(old(members)@),
            key@,
            opt_count_tree(count),
        ),
{
    if let Some(n) = count {
        add_member(members, key, unsigned(n));
    }
}

fn add_content(members: &mut Vec<(String, Json)>, content: &Option<Vec<ContentBlock>>)
    ensures
        member_trees(final(members)@) == with_optional(
            member_trees(old(members)@),
            "content"@,
            opt_content_tree(*content),
        ),
{
    if let Some(blocks) = content {
        add_member(members, "content", blocks_to_json(blocks.as_slice()));
    }
}

/// The members of a block, its `type` first.
pub open spec fn block_members(block: ContentBlock) -> Seq<(Seq<char>, JsonTree)> {
    match block {
        ContentBlock::Text { text } => seq![
            ("type"@, JsonTree::Text("text"@)),
            ("text"@, JsonTree::Text(text@)),
        ],
        ContentBlock::ToolUse { id, name, input } => seq![
            ("type"@, JsonTree::Text("tool_use"@)),
            ("id"@, JsonTree::Text(id@)),
            ("name"@, JsonTree::Text(name@)),
            ("input"@, input@),
        ],
        ContentBlock::ToolResult { tool_use_id, content, is_error } => with_optional(
            seq![
                ("type"@, JsonTree::Text("tool_result"@)),
                ("tool_use_id"@, JsonTree::Text(tool_use_id@)),
                ("content"@, JsonTree::Text(content@)),
            ],
            "is_error"@,
            match is_error {
                Some(b) => Some(JsonTree::Bool(b)),
                None => None,
            },
        ),
        ContentBlock::Image { source: ImageSource::Base64 { media_type, data } } => seq![
            ("type"@, JsonTree::Text("image"@)),
            ("source"@, JsonTree::Object(source_members(media_type@, data@))),
        ],
        ContentBlock::Thinking { thinking, signature } => seq![
            ("type"@, JsonTree::Text("thinking"@)),
            ("thinking"@, JsonTree::Text(thinking@)),
            ("signature"@, JsonTree::Text(signature@)),
        ],
    }
}

/// The members of an image source.
pub open spec fn source_members(media_type: Seq<char>, data: Seq<char>) -> Seq<
    (Seq<char>, JsonTree),
> {
    seq![
        ("type"@, JsonTree::Text("base64"@)),
        ("media_type"@, JsonTree::Text(media_type)),
        ("data"@, JsonTree::Text(data)),
    ]
}

/// The JSON form of a block.
pub open spec fn block_tree(block: ContentBlock) -> JsonTree {
    JsonTree::Object(block_members(block))
}

/// The JSON forms of `blocks`, in order.
pub open spec fn block_trees(blocks: Seq<ContentBlock>) -> Seq<JsonTree> {
    Seq::new(blocks.len(), |i: int| block_tree(blocks[i]))
}

/// The JSON form of a block.
pub fn block_to_json(block: &ContentBlock) -> (json: Json)
    ensures
        json@ == block_tree(*block),
{
    let mut members: Vec<(String, Json)> = Vec::new();
    assert(member_trees(members@) =~= Seq::<(Seq<char>, JsonTree)>::empty());
    match block {
        ContentBlock::Text { text } => {
            add_member(&mut members, "type", string("text"));
            add_member(&mut members, "text", string(text.as_str()));
        },
        ContentBlock::ToolUse { id, name, input } => {
            add_member(&mut members, "type", string("tool_use"));
            add_member(&mut members, "id", string(id.as_str()));
            add_member(&mut members, "name", string(name.as_str()));
            add_member(&mut members, "input", input.clone());
        },
        ContentBlock::ToolResult { tool_use_id, content, is_error } => {
            add_member(&mut members, "type", string("tool_result"));
            add_member(&mut members, "tool_use_id", string(tool_use_id.as_str()));
            add_member(&mut members, "content", string(content.as_str()));
            if let Some(b) = is_error {
                add_member(&mut members, "is_error", Json::Bool(*b));
            }
        },
        ContentBlock::Image { source: ImageSource::Base64 { media_type, data } } => {
            let mut source: Vec<(String, Json)> = Vec::new();
            assert(member_trees(source@) =~= Seq::<(Seq<char>, JsonTree)>::empty());
            add_member(&mut source, "type", string("base64"));
            add_member(&mut source, "media_type", string(media_type.as_str()));
            add_member(&mut source, "data", string(data.as_str()));
            assert(member_trees(source@) =~= source_members(media_type@, data@));
            add_member(&mut members, "type", string("image"));
            add_member(&mut members, "source", object(source));
        },
        ContentBlock::Thinking { thinking, signature } => {
            add_member(&mut members, "type", string("thinking"));
            add_member(&mut members, "thinking", string(thinking.as_str()));
            add_member(&mut members, "signature", string(signature.as_str()));
        },
    }
    assert(member_trees(members@) =~= block_members(*block));
    object(members)
}

/// The JSON forms of `blocks`, as a list.
pub fn blocks_to_json(blocks: &[ContentBlock]) -> (json: Json)
    ensures
        json@ == JsonTree::List(block_trees(blocks@)),
{
    let mut items: Vec<Json> = Vec::new();
    let mut i: usize = 0;
    while i < blocks.len()
        invariant
            i <= blocks.len(),
            items@.len() == i,
            forall|k: int| 0 <= k < i ==> (#[trigger] items@[k])@ == block_tree(blocks@[k]),
        decreases blocks.len() - i,
    {
        items.push(block_to_json(&blocks[i]));
        i = i + 1;
    }
    assert(trees(items@) =~= block_trees(blocks@));
    list(items)
}

/// The leading members of every trail line.
pub open spec fn line_head(event: Seq<char>, ts_ms: u64) -> Seq<(Seq<char>, JsonTree)> {
    seq![
        ("event"@, JsonTree::Text(event)),
        ("schema"@, JsonTree::Text(SCHEMA@)),
        ("ts_ms"@, JsonTree::Number(NumberTree::Unsigned(ts_ms))),
    ]
}

/// The trailing members of a trail line that may belong to a session turn.
pub open spec fn with_turn(
    members: Seq<(Seq<char>, JsonTree)>,
    session_id: Option<String>,
    turn_index: Option<u64>,
) -> Seq<(Seq<char>, JsonTree)> {
    with_optional(
        with_optional(members, "session_id"@, opt_text_tree(session_id)),
        "turn_index"@,
        opt_count_tree(turn_index),
    )
}

/// The members of a request record that follow its time, without the turn.
pub open spec fn request_members(
    head: Seq<(Seq<char>, JsonTree)>,
    request: RequestRecord,
) -> Seq<(Seq<char>, JsonTree)> {
    with_turn(
        with_optional(
            head.push(("model"@, JsonTree::Text(request.model@))).push(
                ("base_url"@, JsonTree::Text(request.base_url@)),
            ).push(("prompt"@, JsonTree::Text(request.prompt@))),
            "content"@,
            opt_content_tree(request.content),
        ),
        request.session_id,
        request.turn_index,
    )
}

/// The members of an outcome that follow its time.
pub open spec fn outcome_members(
    head: Seq<(Seq<char>, JsonTree)>,
    outcome: Outcome,
) -> Seq<(Seq<char>, JsonTree)> {
    match outcome {
        Outcome::Success {
            ts_ms,
            duration_ms,
            reply,
            content,
            input_tokens,
            output_tokens,
            stop_reason,
            session_id,
            turn_index,
        } => with_turn(
            with_optional(
                with_optional(
                    with_optional(
                        with_optional(
                            head.push(
                                (
                                    "duration_ms"@,
                                    JsonTree::Number(NumberTree::Unsigned(duration_ms)),
                                ),
                            ).push(("reply"@, JsonTree::Text(reply@))),
                            "content"@,
                            opt_content_tree(content),
                        ),
                        "input_tokens"@,
                        opt_count_tree(input_tokens),
                    ),
                    "output_tokens"@,
                    opt_count_tree(output_tokens),
                ),
                "stop_reason"@,
                opt_text_tree(stop_reason),
            ),
            session_id,
            turn_index,
        ),
        Outcome::Error { ts_ms, duration_ms, kind, message, session_id, turn_index } => with_turn(
            head.push(("duration_ms"@, JsonTree::Number(NumberTree::Unsigned(duration_ms)))).push(
                ("kind"@, JsonTree::Text(kind@)),
            ).push(("message"@, JsonTree::Text(message@))),
            session_id,
            turn_index,
        ),
    }
}

/// The event word of an outcome.
pub open spec fn outcome_event(outcome: Outcome) -> Seq<char> {
    match outcome {
        Outcome::Success { .. } => "response_ok"@,
        Outcome::Error { .. } => "response_error"@,
    }
}

/// The emission time of an outcome.
pub open spec fn outcome_time(outcome: Outcome) -> u64 {
    match outcome {
        Outcome::Success { ts_ms, .. } => ts_ms,
        Outcome::Error { ts_ms, .. } => ts_ms,
    }
}

/// The members of a trail line.
pub open spec fn event_members(event: ExchangeEvent) -> Seq<(Seq<char>, JsonTree)> {
    match event {
        ExchangeEvent::Request(request) => request_members(
            line_head("request"@, request.ts_ms),
            request,
        ),
        ExchangeEvent::Response(outcome) => outcome_members(
            line_head(outcome_event(outcome), outcome_time(outcome)),
            outcome,
        ),
        ExchangeEvent::ToolRound { ts_ms, content, session_id, turn_index } => with_turn(
            line_head("tool_round"@, ts_ms).push(
                ("content"@, JsonTree::List(block_trees(content@))),
            ),
            session_id,
            turn_index,
        ),
        ExchangeEvent::ToolCall { ts_ms, tool_use_id, tool_name, input, session_id, turn_index } =>
            with_turn(
            line_head("tool_call"@, ts_ms).push(
                ("tool_use_id"@, JsonTree::Text(tool_use_id@)),
            ).push(("tool_name"@, JsonTree::Text(tool_name@))).push(("input"@, input@)),
            session_id,
            turn_index,
        ),
        ExchangeEvent::ToolResult {
            ts_ms,
            tool_use_id,
            tool_name,
            status,
            result,
            error,
            session_id,
            turn_index,
        } => with_turn(
            with_optional(
                with_optional(
                    line_head("tool_result"@, ts_ms).push(
                        ("tool_use_id"@, JsonTree::Text(tool_use_id@)),
                    ).push(("tool_name"@, JsonTree::Text(tool_name@))).push(
                        ("status"@, JsonTree::Text(status_wire(status))),
                    ),
                    "result"@,
                    opt_text_tree(result),
                ),
                "error"@,
                opt_text_tree(error),
            ),
            session_id,
            turn_index,
        ),
        ExchangeEvent::SessionStart { ts_ms, session_id } => line_head("session_start"@, ts_ms).push(
            ("session_id"@, JsonTree::Text(session_id@)),
        ),
        ExchangeEvent::SessionEnd { ts_ms, session_id, turns } => line_head(
            "session_end"@,
            ts_ms,
        ).push(("session_id"@, JsonTree::Text(session_id@))).push(
            ("turns"@, JsonTree::Number(NumberTree::Unsigned(turns))),
        ),
    }
}

/// The JSON form of a trail line.
pub open spec fn event_tree(event: ExchangeEvent) -> JsonTree {
    JsonTree::Object(event_members(event))
}

fn start_line(event: &str, ts_ms: u64) -> (members: Vec<(String, Json)>)
    ensures
        member_trees(members@) == line_head(event@, ts_ms),
{
    let mut members: Vec<(String, Json)> = Vec::new();
    assert(member_trees(members@) =~= Seq::<(Seq<char>, JsonTree)>::empty());
    add_member(&mut members, "event", string(event));
    add_member(&mut members, "schema", string(SCHEMA));
    add_member(&mut members, "ts_ms", unsigned(ts_ms));
    members
}

fn add_turn(members: &mut Vec<(String, Json)>, session_id: &Option<String>, turn_index: Option<u64>)
    ensures
        member_trees(final(members)@) == with_turn(
            member_trees(old(members)@),
            *session_id,
            turn_index,
        ),
{
    add_text(members, "session_id", session_id);
    add_count(members, "turn_index", turn_index);
}

/// Appends the members of a request record that follow its time.
pub fn add_request(members: &mut Vec<(String, Json)>, request: &RequestRecord)
    ensures
        member_trees(final(members)@) == request_members(member_trees(old(members)@), *request),
{
    add_member(members, "model", string(request.model.as_str()));
    add_member(members, "base_url", string(request.base_url.as_str()));
    add_member(members, "prompt", string(request.prompt.as_str()));
    add_content(members, &request.content);
    add_turn(members, &request.session_id, request.turn_index);
}

/// Appends the members of an outcome that follow its time.
pub fn add_outcome(members: &mut Vec<(String, Json)>, outcome: &Outcome)
    ensures
        member_trees(final(members)@) == outcome_members(member_trees(old(members)@), *outcome),
{
    match outcome {
        Outcome::Success {
            ts_ms: _,
            duration_ms,
            reply,
            content,
            input_tokens,
            output_tokens,
            stop_reason,
            session_id,
            turn_index,
        } => {
            add_member(members, "duration_ms", unsigned(*duration_ms));
            add_member(members, "reply", string(reply.as_str()));
            add_content(members, content);
            add_count(members, "input_tokens", *input_tokens);
            add_count(members, "output_tokens", *output_tokens);
            add_text(members, "stop_reason", stop_reason);
            add_turn(members, session_id, *turn_index);
        },
        Outcome::Error { ts_ms: _, duration_ms, kind, message, session_id, turn_index } => {
            add_member(members, "duration_ms", unsigned(*duration_ms));
            add_member(members, "kind", string(kind.as_str()));
            add_member(members, "message", string(message.as_str()));
            add_turn(members, session_id, *turn_index);
        },
    }
}

/// The event word of an outcome.
pub fn outcome_word(outcome: &Outcome) -> (word: &'static str)
    ensures
        word@ == outcome_event(*outcome),
{
    match outcome {
        Outcome::Success { .. } => "response_ok",
        Outcome::Error { .. } => "response_error",
    }
}

impl ExchangeEvent {
    /// The JSON form of this event.
    pub fn to_json(&self) -> (json: Json)
        ensures
            json@ == event_tree(*self),
    {
        match self {
            ExchangeEvent::Request(request) => {
                let mut members = start_line("request", request.ts_ms);
                add_request(&mut members, request);
                object(members)
            },
            ExchangeEvent::Response(outcome) => {
                let ts_ms = match outcome {
                    Outcome::Success { ts_ms, .. } => *ts_ms,
                    Outcome::Error { ts_ms, .. } => *ts_ms,
                };
                let mut members = start_line(outcome_word(outcome), ts_ms);
                add_outcome(&mut members, outcome);
                object(members)
            },
            ExchangeEvent::ToolRound { ts_ms, content, session_id, turn_index } => {
                let mut members = start_line("tool_round", *ts_ms);
                add_member(&mut members, "content", blocks_to_json(content.as_slice()));
                add_turn(&mut members, session_id, *turn_index);
                object(members)
            },
            ExchangeEvent::ToolCall {
                ts_ms,
                tool_use_id,
                tool_name,
                input,
                session_id,
                turn_index,
            } => {
                let mut members = start_line("tool_call", *ts_ms);
                add_member(&mut members, "tool_use_id", string(tool_use_id.as_str()));
                add_member(&mut members, "tool_name", string(tool_name.as_str()));
                add_member(&mut members, "input", input.clone());
                add_turn(&mut members, session_id, *turn_index);
                object(members)
            },
            ExchangeEvent::ToolResult {
                ts_ms,
                tool_use_id,
                tool_name,
                status,
                result,
                error,
                session_id,
                turn_index,
            } => {
                let mut members = start_line("tool_result", *ts_ms);
                add_member(&mut members, "tool_use_id", string(tool_use_id.as_str()));
                add_member(&mut members, "tool_name", string(tool_name.as_str()));
                add_member(&mut members, "status", string(status.as_str()));
                add_text(&mut members, "result", result);
                add_text(&mut members, "error", error);
                add_turn(&mut members, session_id, *turn_index);
                object(members)
            },
            ExchangeEvent::SessionStart { ts_ms, session_id } => {
                let mut members = start_line("session_start", *ts_ms);
                add_member(&mut members, "session_id", string(session_id.as_str()));
                object(members)
            },
            ExchangeEvent::SessionEnd { ts_ms, session_id, turns } => {
                let mut members = start_line("session_end", *ts_ms);
                add_member(&mut members, "session_id", string(session_id.as_str()));
                add_member(&mut members, "turns", unsigned(*turns));
                object(members)
            },
        }
    }

    /// The trail line of this event, without its terminating newline.
    pub fn to_line(&self) -> (line: String)
        ensures
            line@ == json_text(event_tree(*self)),
    {
        self.to_json().to_text()
    }
}

/// The view of a result whose failure is a message.
pub open spec fn messaged<T>(result: Result<T, String>) -> Result<T, Seq<char>> {
    match result {
        Ok(t) => Ok(t),
        Err(message) => Err(message@),
    }
}

/// The view of a decoding result.
pub open spec fn decoded<T: View>(result: Result<T, String>) -> Result<T::V, Seq<char>> {
    match result {
        Ok(t) => Ok(t@),
        Err(message) => Err(message@),
    }
}

/// The complaint about a field that is not there.
pub open spec fn missing(key: Seq<char>) -> Seq<char> {
    "missing field `"@ + key + "`"@
}

/// The complaint about a field of the wrong shape.
pub open spec fn invalid(key: Seq<char>) -> Seq<char> {
    "invalid field `"@ + key + "`"@
}

fn missing_field(key: &str) -> (message: String)
    ensures
        message@ == missing(key@),
{
    concat3("missing field `", key, "`")
}

fn invalid_field(key: &str) -> (message: String)
    ensures
        message@ == invalid(key@),
{
    concat3("invalid field `", key, "`")
}

/// The required text field `key`.
pub open spec fn text_field(v: JsonValue, key: Seq<char>) -> Result<Seq<char>, Seq<char>> {
    match field(v, key) {
        None => Err(missing(key)),
        Some(JsonValue::Text(text)) => Ok(text),
        Some(_) => Err(invalid(key)),
    }
}

/// The required count field `key`.
pub open spec fn count_field(v: JsonValue, key: Seq<char>) -> Result<u64, Seq<char>> {
    match field(v, key) {
        None => Err(missing(key)),
        Some(JsonValue::Number(NumberTree::Unsigned(n))) => Ok(n),
        Some(_) => Err(invalid(key)),
    }
}

/// The optional text field `key`; `null` counts as absent.
pub open spec fn opt_text_field(v: JsonValue, key: Seq<char>) -> Result<
    Option<Seq<char>>,
    Seq<char>,
> {
    match field(v, key) {
        None => Ok(None),
        Some(JsonValue::Null) => Ok(None),
        Some(JsonValue::Text(text)) => Ok(Some(text)),
        Some(_) => Err(invalid(key)),
    }
}

/// The optional count field `key`; `null` counts as absent.
pub open spec fn opt_count_field(v: JsonValue, key: Seq<char>) -> Result<Option<u64>, Seq<char>> {
    match field(v, key) {
        None => Ok(None),
        Some(JsonValue::Null) => Ok(None),
        Some(JsonValue::Number(NumberTree::Unsigned(n))) => Ok(Some(n)),
        Some(_) => Err(invalid(key)),
    }
}

/// The text field `key`, empty where it is absent.
pub open spec fn default_text_field(v: JsonValue, key: Seq<char>) -> Result<Seq<char>, Seq<char>> {
    match field(v, key) {
        None => Ok(seq![]),
        Some(JsonValue::Text(text)) => Ok(text),
        Some(_) => Err(invalid(key)),
    }
}

/// Reads a required text field.
pub fn read_text(json: &Json, key: &str) -> (result: Result<String, String>)
    ensures
        text_result(result) == text_field(json.value(), key@),
{
    match json.get(key) {
        None => Err(missing_field(key)),
        Some(found) => match found.as_text() {
            Some(text) => Ok(text.to_owned()),
            None => Err(invalid_field(key)),
        },
    }
}

/// Reads a required count field.
pub fn read_count(json: &Json, key: &str) -> (result: Result<u64, String>)
    ensures
        messaged(result) == count_field(json.value(), key@),
{
    match json.get(key) {
        None => Err(missing_field(key)),
        Some(found) => match found.as_u64() {
            Some(n) => Ok(n),
            None => Err(invalid_field(key)),
        },
    }
}

/// The view of an optional text or of a message.
pub open spec fn opt_text_result(result: Result<Option<String>, String>) -> Result<
    Option<Seq<char>>,
    Seq<char>,
> {
    match result {
        Ok(text) => Ok(opt_view(text)),
        Err(message) => Err(message@),
    }
}

/// Reads an optional text field.
pub fn read_opt_text(json: &Json, key: &str) -> (result: Result<Option<String>, String>)
    ensures
        opt_text_result(result) == opt_text_field(json.value(), key@),
{
    match json.get(key) {
        None => Ok(None),
        Some(found) => match found {
            Json::Null => Ok(None),
            _ => match found.as_text() {
                Some(text) => Ok(Some(text.to_owned())),
                None => Err(invalid_field(key)),
            },
        },
    }
}

/// Reads an optional count field.
pub fn read_opt_count(json: &Json, key: &str) -> (result: Result<Option<u64>, String>)
    ensures
        messaged(result) == opt_count_field(json.value(), key@),
{
    match json.get(key) {
        None => Ok(None),
        Some(found) => match found {
            Json::Null => Ok(None),
            _ => match found.as_u64() {
                Some(n) => Ok(Some(n)),
                None => Err(invalid_field(key)),
            },
        },
    }
}

/// Reads a text field that may be absent, as empty.
pub fn read_default_text(json: &Json, key: &str) -> (result: Result<String, String>)
    ensures
        text_result(result) == default_text_field(json.value(), key@),
{
    match json.get(key) {
        None => Ok(String::new()),
        Some(found) => match found.as_text() {
            Some(text) => Ok(text.to_owned()),
            None => Err(invalid_field(key)),
        },
    }
}

/// The optional `is_error` flag of a tool result block.
pub open spec fn error_flag(v: JsonValue) -> Result<Option<bool>, Seq<char>> {
    match field(v, "is_error"@) {
        None => Ok(None),
        Some(JsonValue::Null) => Ok(None),
        Some(JsonValue::Bool(b)) => Ok(Some(b)),
        Some(_) => Err(invalid("is_error"@)),
    }
}

/// The image that a `source` field describes.
pub open spec fn decode_source(v: JsonValue) -> Result<BlockView, Seq<char>> {
    match field(v, "source"@) {
        None => Err(missing("source"@)),
        Some(source) => if field(source, "type"@) == Some(JsonValue::Text("base64"@)) {
            match (text_field(source, "media_type"@), text_field(source, "data"@)) {
                (Err(message), _) => Err(message),
                (_, Err(message)) => Err(message),
                (Ok(media_type), Ok(data)) => Ok(BlockView::Image { media_type, data }),
            }
        } else {
            Err(invalid("source"@))
        },
    }
}

/// The block that `v` describes, or what is wrong with it.
pub open spec fn decode_block(v: JsonValue) -> Result<BlockView, Seq<char>> {
    match text_field(v, "type"@) {
        Err(message) => Err(message),
        Ok(kind) => if kind == "text"@ {
            match text_field(v, "text"@) {
                Ok(text) => Ok(BlockView::Text { text }),
                Err(message) => Err(message),
            }
        } else if kind == "tool_use"@ {
            match (text_field(v, "id"@), text_field(v, "name"@), field(v, "input"@)) {
                (Err(message), _, _) => Err(message),
                (_, Err(message), _) => Err(message),
                (_, _, None) => Err(missing("input"@)),
                (Ok(id), Ok(name), Some(input)) => Ok(BlockView::ToolUse { id, name, input }),
            }
        } else if kind == "tool_result"@ {
            match (text_field(v, "tool_use_id"@), text_field(v, "content"@), error_flag(v)) {
                (Err(message), _, _) => Err(message),
                (_, Err(message), _) => Err(message),
                (_, _, Err(message)) => Err(message),
                (Ok(tool_use_id), Ok(content), Ok(is_error)) => Ok(
                    BlockView::ToolResult { tool_use_id, content, is_error },
                ),
            }
        } else if kind == "image"@ {
            decode_source(v)
        } else if kind == "thinking"@ {
            match (text_field(v, "thinking"@), text_field(v, "signature"@)) {
                (Err(message), _) => Err(message),
                (_, Err(message)) => Err(message),
                (Ok(thinking), Ok(signature)) => Ok(BlockView::Thinking { thinking, signature }),
            }
        } else {
            Err("unknown variant `"@ + kind + "`"@)
        },
    }
}

fn read_source(json: &Json) -> (result: Result<ContentBlock, String>)
    ensures
        decoded(result) == decode_source(json.value()),
{
    match json.get("source") {
        None => Err(missing_field("source")),
        Some(source) => {
            let base64 = match source.get("type") {
                Some(kind) => match kind.as_text() {
                    Some(kind) => same_text(kind, "base64"),
                    None => false,
                },
                None => false,
            };
            if !base64 {
                return Err(invalid_field("source"));
            }
            match (read_text(source, "media_type"), read_text(source, "data")) {
                (Err(message), _) => Err(message),
                (_, Err(message)) => Err(message),
                (Ok(media_type), Ok(data)) => Ok(
                    ContentBlock::Image { source: ImageSource::Base64 { media_type, data } },
                ),
            }
        },
    }
}

/// Reads a block.
pub fn read_block(json: &Json) -> (result: Result<ContentBlock, String>)
    ensures
        decoded(result) == decode_block(json.value()),
{
    let kind = match read_text(json, "type") {
        Ok(kind) => kind,
        Err(message) => {
            return Err(message);
        },
    };
    let kind = kind.as_str();
    if same_text(kind, "text") {
        match read_text(json, "text") {
            Ok(text) => Ok(ContentBlock::Text { text }),
            Err(message) => Err(message),
        }
    } else if same_text(kind, "tool_use") {
        match (read_text(json, "id"), read_text(json, "name"), json.get("input")) {
            (Err(message), _, _) => Err(message),
            (_, Err(message), _) => Err(message),
            (_, _, None) => Err(missing_field("input")),
            (Ok(id), Ok(name), Some(input)) => Ok(
                ContentBlock::ToolUse { id, name, input: input.clone() },
            ),
        }
    } else if same_text(kind, "tool_result") {
        let is_error = match json.get("is_error") {
            None => Ok(None),
            Some(found) => match found {
                Json::Null => Ok(None),
                Json::Bool(b) => Ok(Some(*b)),
                _ => Err(invalid_field("is_error")),
            },
        };
        match (read_text(json, "tool_use_id"), read_text(json, "content"), is_error) {
            (Err(message), _, _) => Err(message),
            (_, Err(message), _) => Err(message),
            (_, _, Err(message)) => Err(message),
            (Ok(tool_use_id), Ok(content), Ok(is_error)) => Ok(
                ContentBlock::ToolResult { tool_use_id, content, is_error },
            ),
        }
    } else if same_text(kind, "image") {
        read_source(json)
    } else if same_text(kind, "thinking") {
        match (read_text(json, "thinking"), read_text(json, "signature")) {
            (Err(message), _) => Err(message),
            (_, Err(message)) => Err(message),
            (Ok(thinking), Ok(signature)) => Ok(ContentBlock::Thinking { thinking, signature }),
        }
    } else {
        Err(concat3("unknown variant `", kind, "`"))
    }
}

/// The blocks that the first `n` of `items` describe, or what is wrong with
/// the first malformed one.
pub open spec fn decode_blocks(items: Seq<JsonValue>, n: nat) -> Result<Seq<BlockView>, Seq<char>>
    decreases n,
{
    if n == 0 || n > items.len() {
        Ok(seq![])
    } else {
        match decode_blocks(items, (n - 1) as nat) {
            Err(message) => Err(message),
            Ok(before) => match decode_block(items[n - 1]) {
                Err(message) => Err(message),
                Ok(block) => Ok(before.push(block)),
            },
        }
    }
}

/// The view of decoded blocks or of a message.
pub open spec fn blocks_result(result: Result<Vec<ContentBlock>, String>) -> Result<
    Seq<BlockView>,
    Seq<char>,
> {
    match result {
        Ok(blocks) => Ok(views(blocks@)),
        Err(message) => Err(message@),
    }
}

/// Reads a list of blocks.
pub fn read_blocks(items: &Vec<Json>) -> (result: Result<Vec<ContentBlock>, String>)
    ensures
        blocks_result(result) == decode_blocks(values(items@), items@.len()),
{
    let mut blocks: Vec<ContentBlock> = Vec::new();
    let ghost all = values(items@);
    let mut i: usize = 0;
    assert(views(blocks@) =~= Seq::<BlockView>::empty());
    while i < items.len()
        invariant
            i <= items.len(),
            all == values(items@),
            decode_blocks(all, i as nat) == Ok::<Seq<BlockView>, Seq<char>>(views(blocks@)),
        decreases items.len() - i,
    {
        let ghost before = views(blocks@);
        match read_block(&items[i]) {
            Ok(block) => {
                blocks.push(block);
                assert(views(blocks@) =~= before.push(block@));
            },
            Err(message) => {
                proof {
                    lemma_decode_stops(all, (i + 1) as nat, all.len());
                }
                return Err(message);
            },
        }
        i = i + 1;
    }
    Ok(blocks)
}

/// Decoding stops at the first malformed block.
proof fn lemma_decode_stops(items: Seq<JsonValue>, n: nat, m: nat)
    requires
        n <= m <= items.len(),
        decode_blocks(items, n) is Err,
    ensures
        decode_blocks(items, m) == decode_blocks(items, n),
    decreases m,
{
    if n < m {
        lemma_decode_stops(items, n, (m - 1) as nat);
    }
}

/// The optional `content` field.
pub open spec fn content_field(v: JsonValue) -> Result<Option<Seq<BlockView>>, Seq<char>> {
    match field(v, "content"@) {
        None => Ok(None),
        Some(JsonValue::Null) => Ok(None),
        Some(JsonValue::List(items)) => match decode_blocks(items, items.len()) {
            Ok(blocks) => Ok(Some(blocks)),
            Err(message) => Err(message),
        },
        Some(_) => Err(invalid("content"@)),
    }
}

/// The view of optional blocks or of a message.
pub open spec fn content_result(result: Result<Option<Vec<ContentBlock>>, String>) -> Result<
    Option<Seq<BlockView>>,
    Seq<char>,
> {
    match result {
        Ok(content) => Ok(content_view(content)),
        Err(message) => Err(message@),
    }
}

/// Reads the optional `content` field.
pub fn read_content(json: &Json) -> (result: Result<Option<Vec<ContentBlock>>, String>)
    ensures
        content_result(result) == content_field(json.value()),
{
    match json.get("content") {
        None => Ok(None),
        Some(found) => match found {
            Json::Null => Ok(None),
            Json::List(items) => {
                proof {
                    lemma_list_value(*items);
                }
                match read_blocks(items) {
                    Ok(blocks) => Ok(Some(blocks)),
                    Err(message) => Err(message),
                }
            },
            _ => Err(invalid_field("content")),
        },
    }
}

/// The request that `v` describes, or what is wrong with it.
pub open spec fn decode_request(v: JsonValue) -> Result<RequestView, Seq<char>> {
    match (
        count_field(v, "ts_ms"@),
        text_field(v, "model"@),
        text_field(v, "base_url"@),
        text_field(v, "prompt"@),
        content_field(v),
        opt_text_field(v, "session_id"@),
        opt_count_field(v, "turn_index"@),
    ) {
        (Err(message), _, _, _, _, _, _) => Err(message),
        (_, Err(message), _, _, _, _, _) => Err(message),
        (_, _, Err(message), _, _, _, _) => Err(message),
        (_, _, _, Err(message), _, _, _) => Err(message),
        (_, _, _, _, Err(message), _, _) => Err(message),
        (_, _, _, _, _, Err(message), _) => Err(message),
        (_, _, _, _, _, _, Err(message)) => Err(message),
        (
            Ok(ts_ms),
            Ok(model),
            Ok(base_url),
            Ok(prompt),
            Ok(content),
            Ok(session_id),
            Ok(turn_index),
        ) => Ok(RequestView { ts_ms, model, base_url, prompt, content, session_id, turn_index }),
    }
}

/// Reads a request record.
pub fn read_request(json: &Json) -> (result: Result<RequestRecord, String>)
    ensures
        decoded(result) == decode_request(json.value()),
{
    match (
        read_count(json, "ts_ms"),
        read_text(json, "model"),
        read_text(json, "base_url"),
        read_text(json, "prompt"),
        read_content(json),
        read_opt_text(json, "session_id"),
        read_opt_count(json, "turn_index"),
    ) {
        (Err(message), _, _, _, _, _, _) => Err(message),
        (_, Err(message), _, _, _, _, _) => Err(message),
        (_, _, Err(message), _, _, _, _) => Err(message),
        (_, _, _, Err(message), _, _, _) => Err(message),
        (_, _, _, _, Err(message), _, _) => Err(message),
        (_, _, _, _, _, Err(message), _) => Err(message),
        (_, _, _, _, _, _, Err(message)) => Err(message),
        (
            Ok(ts_ms),
            Ok(model),
            Ok(base_url),
            Ok(prompt),
            Ok(content),
            Ok(session_id),
            Ok(turn_index),
        ) => Ok(RequestRecord { ts_ms, model, base_url, prompt, content, session_id, turn_index }),
    }
}

/// The success that `v` describes, or what is wrong with it.
pub open spec fn decode_success(v: JsonValue) -> Result<OutcomeView, Seq<char>> {
    match (
        count_field(v, "ts_ms"@),
        count_field(v, "duration_ms"@),
        text_field(v, "reply"@),
        content_field(v),
        opt_count_field(v, "input_tokens"@),
        opt_count_field(v, "output_tokens"@),
        opt_text_field(v, "stop_reason"@),
        opt_text_field(v, "session_id"@),
        opt_count_field(v, "turn_index"@),
    ) {
        (Err(message), _, _, _, _, _, _, _, _) => Err(message),
        (_, Err(message), _, _, _, _, _, _, _) => Err(message),
        (_, _, Err(message), _, _, _, _, _, _) => Err(message),
        (_, _, _, Err(message), _, _, _, _, _) => Err(message),
        (_, _, _, _, Err(message), _, _, _, _) => Err(message),
        (_, _, _, _, _, Err(message), _, _, _) => Err(message),
        (_, _, _, _, _, _, Err(message), _, _) => Err(message),
        (_, _, _, _, _, _, _, Err(message), _) => Err(message),
        (_, _, _, _, _, _, _, _, Err(message)) => Err(message),
        (
            Ok(ts_ms),
            Ok(duration_ms),
            Ok(reply),
            Ok(content),
            Ok(input_tokens),
            Ok(output_tokens),
            Ok(stop_reason),
            Ok(session_id),
            Ok(turn_index),
        ) => Ok(
            OutcomeView::Success {
                ts_ms,
                duration_ms,
                reply,
                content,
                input_tokens,
                output_tokens,
                stop_reason,
                session_id,
                turn_index,
            },
        ),
    }
}

/// The failure that `v` describes, or what is wrong with it.
pub open spec fn decode_failure(v: JsonValue) -> Result<OutcomeView, Seq<char>> {
    match (
        count_field(v, "ts_ms"@),
        count_field(v, "duration_ms"@),
        text_field(v, "kind"@),
        text_field(v, "message"@),
        opt_text_field(v, "session_id"@),
        opt_count_field(v, "turn_index"@),
    ) {
        (Err(message), _, _, _, _, _) => Err(message),
        (_, Err(message), _, _, _, _) => Err(message),
        (_, _, Err(message), _, _, _) => Err(message),
        (_, _, _, Err(message), _, _) => Err(message),
        (_, _, _, _, Err(message), _) => Err(message),
        (_, _, _, _, _, Err(message)) => Err(message),
        (Ok(ts_ms), Ok(duration_ms), Ok(kind), Ok(message), Ok(session_id), Ok(turn_index)) => Ok(
            OutcomeView::Error { ts_ms, duration_ms, kind, message, session_id, turn_index },
        ),
    }
}

/// Reads a success outcome.
pub fn read_success(json: &Json) -> (result: Result<Outcome, String>)
    ensures
        decoded(result) == decode_success(json.value()),
{
    match (
        read_count(json, "ts_ms"),
        read_count(json, "duration_ms"),
        read_text(json, "reply"),
        read_content(json),
        read_opt_count(json, "input_tokens"),
        read_opt_count(json, "output_tokens"),
        read_opt_text(json, "stop_reason"),
        read_opt_text(json, "session_id"),
        read_opt_count(json, "turn_index"),
    ) {
        (Err(message), _, _, _, _, _, _, _, _) => Err(message),
        (_, Err(message), _, _, _, _, _, _, _) => Err(message),
        (_, _, Err(message), _, _, _, _, _, _) => Err(message),
        (_, _, _, Err(message), _, _, _, _, _) => Err(message),
        (_, _, _, _, Err(message), _, _, _, _) => Err(message),
        (_, _, _, _, _, Err(message), _, _, _) => Err(message),
        (_, _, _, _, _, _, Err(message), _, _) => Err(message),
        (_, _, _, _, _, _, _, Err(message), _) => Err(message),
        (_, _, _, _, _, _, _, _, Err(message)) => Err(message),
        (
            Ok(ts_ms),
            Ok(duration_ms),
            Ok(reply),
            Ok(content),
            Ok(input_tokens),
            Ok(output_tokens),
            Ok(stop_reason),
            Ok(session_id),
            Ok(turn_index),
        ) => Ok(
            Outcome::Success {
                ts_ms,
                duration_ms,
                reply,
                content,
                input_tokens,
                output_tokens,
                stop_reason,
                session_id,
                turn_index,
            },
        ),
    }
}

/// Reads a failure outcome.
pub fn read_failure(json: &Json) -> (result: Result<Outcome, String>)
    ensures
        decoded(result) == decode_failure(json.value()),
{
    match (
        read_count(json, "ts_ms"),
        read_count(json, "duration_ms"),
        read_text(json, "kind"),
        read_text(json, "message"),
        read_opt_text(json, "session_id"),
        read_opt_count(json, "turn_index"),
    ) {
        (Err(message), _, _, _, _, _) => Err(message),
        (_, Err(message), _, _, _, _) => Err(message),
        (_, _, Err(message), _, _, _) => Err(message),
        (_, _, _, Err(message), _, _) => Err(message),
        (_, _, _, _, Err(message), _) => Err(message),
        (_, _, _, _, _, Err(message)) => Err(message),
        (Ok(ts_ms), Ok(duration_ms), Ok(kind), Ok(message), Ok(session_id), Ok(turn_index)) => Ok(
            Outcome::Error { ts_ms, duration_ms, kind, message, session_id, turn_index },
        ),
    }
}

/// The blocks of the tool round that `v` describes, or what is wrong with it.
pub open spec fn decode_round(v: JsonValue) -> Result<Seq<BlockView>, Seq<char>> {
    match field(v, "content"@) {
        None => Err(missing("content"@)),
        Some(JsonValue::List(items)) => decode_blocks(items, items.len()),
        Some(_) => Err(invalid("content"@)),
    }
}

/// Reads a tool round.
pub fn read_round(json: &Json) -> (result: Result<ToolRoundRecord, String>)
    ensures
        match result {
            Ok(round) => decode_round(json.value()) == Ok::<Seq<BlockView>, Seq<char>>(
                views(round.content@),
            ),
            Err(message) => decode_round(json.value()) == Err::<Seq<BlockView>, Seq<char>>(
                message@,
            ),
        },
{
    match json.get("content") {
        None => Err(missing_field("content")),
        Some(found) => match found {
            Json::List(items) => {
                proof {
                    lemma_list_value(*items);
                }
                match read_blocks(items) {
                    Ok(content) => Ok(ToolRoundRecord { content }),
                    Err(message) => Err(message),
                }
            },
            _ => Err(invalid_field("content")),
        },
    }
}

/// The tool call that `v` describes, or what is wrong with it.
pub open spec fn decode_call(v: JsonValue) -> Result<ToolCallView, Seq<char>> {
    match (
        count_field(v, "ts_ms"@),
        text_field(v, "tool_use_id"@),
        default_text_field(v, "tool_name"@),
    ) {
        (Err(message), _, _) => Err(message),
        (_, Err(message), _) => Err(message),
        (_, _, Err(message)) => Err(message),
        (Ok(ts_ms), Ok(tool_use_id), Ok(tool_name)) => Ok(
            ToolCallView {
                ts_ms,
                tool_use_id,
                tool_name,
                input: match field(v, "input"@) {
                    Some(input) => input,
                    None => JsonValue::Null,
                },
            },
        ),
    }
}

/// Reads a tool call.
pub fn read_call(json: &Json) -> (result: Result<ToolCallRecord, String>)
    ensures
        decoded(result) == decode_call(json.value()),
{
    match (
        read_count(json, "ts_ms"),
        read_text(json, "tool_use_id"),
        read_default_text(json, "tool_name"),
    ) {
        (Err(message), _, _) => Err(message),
        (_, Err(message), _) => Err(message),
        (_, _, Err(message)) => Err(message),
        (Ok(ts_ms), Ok(tool_use_id), Ok(tool_name)) => {
            let input = match json.get("input") {
                Some(input) => input.clone(),
                None => Json::Null,
            };
            Ok(ToolCallRecord { ts_ms, tool_use_id, tool_name, input })
        },
    }
}

/// The status that a `status` field names.
pub open spec fn status_field(v: JsonValue) -> Result<ToolStatus, Seq<char>> {
    match text_field(v, "status"@) {
        Err(message) => Err(message),
        Ok(word) => if word == "completed"@ {
            Ok(ToolStatus::Completed)
        } else if word == "failed"@ {
            Ok(ToolStatus::Failed)
        } else if word == "denied"@ {
            Ok(ToolStatus::Denied)
        } else {
            Err("unknown variant `"@ + word + "`"@)
        },
    }
}

fn read_status(json: &Json) -> (result: Result<ToolStatus, String>)
    ensures
        messaged(result) == status_field(json.value()),
{
    match read_text(json, "status") {
        Err(message) => Err(message),
        Ok(word) => {
            let word = word.as_str();
            if same_text(word, "completed") {
                Ok(ToolStatus::Completed)
            } else if same_text(word, "failed") {
                Ok(ToolStatus::Failed)
            } else if same_text(word, "denied") {
                Ok(ToolStatus::Denied)
            } else {
                Err(concat3("unknown variant `", word, "`"))
            }
        },
    }
}

/// The tool result that `v` describes, or what is wrong with it.
pub open spec fn decode_result(v: JsonValue) -> Result<ToolResultView, Seq<char>> {
    match (
        count_field(v, "ts_ms"@),
        text_field(v, "tool_use_id"@),
        default_text_field(v, "tool_name"@),
        status_field(v),
        opt_text_field(v, "result"@),
        opt_text_field(v, "error"@),
    ) {
        (Err(message), _, _, _, _, _) => Err(message),
        (_, Err(message), _, _, _, _) => Err(message),
        (_, _, Err(message), _, _, _) => Err(message),
        (_, _, _, Err(message), _, _) => Err(message),
        (_, _, _, _, Err(message), _) => Err(message),
        (_, _, _, _, _, Err(message)) => Err(message),
        (Ok(ts_ms), Ok(tool_use_id), Ok(tool_name), Ok(status), Ok(result), Ok(error)) => Ok(
            ToolResultView { ts_ms, tool_use_id, tool_name, status, result, error },
        ),
    }
}

/// Reads a tool result.
pub fn read_result(json: &Json) -> (result: Result<ToolResultRecord, String>)
    ensures
        decoded(result) == decode_result(json.value()),
{
    match (
        read_count(json, "ts_ms"),
        read_text(json, "tool_use_id"),
        read_default_text(json, "tool_name"),
        read_status(json),
        read_opt_text(json, "result"),
        read_opt_text(json, "error"),
    ) {
        (Err(message), _, _, _, _, _) => Err(message),
        (_, Err(message), _, _, _, _) => Err(message),
        (_, _, Err(message), _, _, _) => Err(message),
        (_, _, _, Err(message), _, _) => Err(message),
        (_, _, _, _, Err(message), _) => Err(message),
        (_, _, _, _, _, Err(message)) => Err(message),
        (Ok(ts_ms), Ok(tool_use_id), Ok(tool_name), Ok(status), Ok(result), Ok(error)) => Ok(
            ToolResultRecord { ts_ms, tool_use_id, tool_name, status, result, error },
        ),
    }
}

} // verus!
