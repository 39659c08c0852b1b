//! A non-streaming client for the Messages API.
//!
//! [`ClaudeClient`] sends a whole conversation with the declared tools to
//! `/v1/messages` and decodes one assistant reply. Building the request and
//! reading the response are functions of their own, over JSON trees.

use vstd::prelude::*;

use crate::config::{Credential, LegConfig};
use crate::error::{InterruptSignal, LegError, Result};
use crate::image_input::{image_fault, validate_message_image_limits};
use crate::json::{
    add_member, field, json_text, lemma_list_value, list, member_trees, object, parse_json, parsed,
    string, trees, unsigned, value, values, Json, JsonTree, JsonValue, NumberTree,
};
use crate::model::{
    as_single_text, single_text, stop_of_wire, text_of_blocks, tool_spec_tree, AssistantReply,
    BlockView, ContentBlock, Message, MessageView, ReplyView, StopReason, StopView, TokenUsage,
    ToolSpec,
};
use crate::text::{
    chars_of, concat2, concat3, opt_view, same_text, text_of, trim, trimmed, views,
};
use crate::transport::http::{header_views, HttpCall, HttpClient, HttpResponse};
use crate::tools::{NoteView, ToolObserver};
use crate::transport::{Transport, TransportCall};
use crate::wire::{
    block_trees, blocks_to_json, decode_block, invalid, opt_count_field, opt_text_field,
    read_block, read_opt_count, read_opt_text, read_text, text_field,
};

verus! {

/// The Messages API version this client speaks.
pub const ANTHROPIC_VERSION: &'static str = "2023-06-01";

// ---------------------------------------------------------------------------
// The request

/// One turn of the request: a single text block goes out as a bare string, any
/// other content as the list of its blocks.
pub open spec fn message_tree(message: Message) -> JsonTree {
    JsonTree::Object(
        seq![
            ("role"@, JsonTree::Text(message.role.wire())),
            (
                "content"@,
                match single_text(views(message.content@)) {
                    Some(text) => JsonTree::Text(text),
                    None => JsonTree::List(block_trees(message.content@)),
                },
            ),
        ],
    )
}

/// The turns of the request, in order.
pub open spec fn message_trees(messages: Seq<Message>) -> Seq<JsonTree> {
    Seq::new(messages.len(), |i: int| message_tree(messages[i]))
}

/// The declared tools, in order.
pub open spec fn tool_trees(tools: Seq<ToolSpec>) -> Seq<JsonTree> {
    Seq::new(tools.len(), |i: int| tool_spec_tree(tools[i]))
}

/// The request body: a `system` member only with a system prompt, a `tools`
/// member only with tools.
pub open spec fn request_tree(
    model: Seq<char>,
    max_tokens: u32,
    messages: Seq<Message>,
    system: Option<Seq<char>>,
    tools: Seq<ToolSpec>,
) -> JsonTree {
    let head = seq![
        ("model"@, JsonTree::Text(model)),
        ("max_tokens"@, JsonTree::Number(NumberTree::Unsigned(max_tokens as u64))),
    ];
    let opened = match system {
        Some(text) => head.push(("system"@, JsonTree::Text(text))),
        None => head,
    };
    let body = opened.push(("messages"@, JsonTree::List(message_trees(messages))));
    JsonTree::Object(
        if tools.len() > 0 {
            body.push(("tools"@, JsonTree::List(tool_trees(tools))))
        } else {
            body
        },
    )
}

fn message_json(message: &Message) -> (json: Json)
    ensures
        json@ == message_tree(*message),
{
    let mut members: Vec<(String, Json)> = Vec::new();
    add_member(&mut members, "role", string(message.role.as_str()));
    let content = match as_single_text(message.content.as_slice()) {
        Some(text) => string(text),
        None => blocks_to_json(message.content.as_slice()),
    };
    add_member(&mut members, "content", content);
    assert(member_trees(members@) =~= message_tree(*message)->Object_0);
    object(members)
}

fn messages_json(messages: &[Message]) -> (json: Json)
    ensures
        json@ == JsonTree::List(message_trees(messages@)),
{
    let mut items: Vec<Json> = Vec::new();
    let mut i: usize = 0;
    while i < messages.len()
        invariant
            i <= messages.len(),
            trees(items@) == message_trees(messages@).take(i as int),
        decreases messages.len() - i,
    {
        let ghost before = trees(items@);
        items.push(message_json(&messages[i]));
        assert(trees(items@) =~= before.push(message_tree(messages@[i as int])));
        assert(message_trees(messages@).take(i + 1) =~= before.push(
            message_tree(messages@[i as int]),
        ));
        i = i + 1;
    }
    assert(message_trees(messages@).take(i as int) =~= message_trees(messages@));
    list(items)
}

fn tools_json(tools: &[ToolSpec]) -> (json: Json)
    ensures
        json@ == JsonTree::List(tool_trees(tools@)),
{
    let mut items: Vec<Json> = Vec::new();
    let mut i: usize = 0;
    while i < tools.len()
        invariant
            i <= tools.len(),
            trees(items@) == tool_trees(tools@).take(i as int),
        decreases tools.len() - i,
    {
        let ghost before = trees(items@);
        items.push(tools[i].to_json());
        assert(trees(items@) =~= before.push(tool_spec_tree(tools@[i as int])));
        assert(tool_trees(tools@).take(i + 1) =~= before.push(tool_spec_tree(tools@[i as int])));
        i = i + 1;
    }
    assert(tool_trees(tools@).take(i as int) =~= tool_trees(tools@));
    list(items)
}

/// The text of an optional string slice.
pub open spec fn opt_text(text: Option<&str>) -> Option<Seq<char>> {
    match text {
        Some(text) => Some(text@),
        None => None,
    }
}

/// Writes the request body for `messages`, oldest first.
pub fn build_request_body(
    model: &str,
    max_tokens: u32,
    messages: &[Message],
    system_prompt: Option<&str>,
    tools: &[ToolSpec],
) -> (body: Result<String>)
    ensures
        body matches Ok(text) && text@ == json_text(
            request_tree(model@, max_tokens, messages@, opt_text(system_prompt), tools@),
        ),
{
    let mut members: Vec<(String, Json)> = Vec::new();
    add_member(&mut members, "model", string(model));
    add_member(&mut members, "max_tokens", unsigned(max_tokens as u64));
    if let Some(system) = system_prompt {
        add_member(&mut members, "system", string(system));
    }
    add_member(&mut members, "messages", messages_json(messages));
    if tools.len() > 0 {
        add_member(&mut members, "tools", tools_json(tools));
    }
    assert(member_trees(members@) =~= request_tree(
        model@,
        max_tokens,
        messages@,
        opt_text(system_prompt),
        tools@,
    )->Object_0);
    Ok(object(members).to_text())
}

/// The header that carries a credential: its name and its value.
pub open spec fn auth_pair(credential: Credential) -> (Seq<char>, Seq<char>) {
    match credential {
        Credential::ApiKey(key) => ("x-api-key"@, key@),
        Credential::OAuth(token) => ("Authorization"@, "Bearer "@ + token@),
    }
}

/// The header for `credential`.
pub fn auth_header(credential: &Credential) -> (header: (&'static str, String))
    ensures
        (header.0@, header.1@) == auth_pair(*credential),
{
    match credential {
        Credential::ApiKey(key) => ("x-api-key", key.as_str().to_owned()),
        Credential::OAuth(token) => ("Authorization", concat2("Bearer ", token.as_str())),
    }
}

/// The headers of every request.
pub open spec fn request_headers(credential: Credential) -> Seq<(Seq<char>, Seq<char>)> {
    seq![
        auth_pair(credential),
        ("anthropic-version"@, ANTHROPIC_VERSION@),
        ("content-type"@, "application/json"@),
    ]
}

/// `url` without the slashes at its end.
pub open spec fn without_slashes(url: Seq<char>) -> Seq<char>
    decreases url.len(),
{
    if url.len() > 0 && url.last() == '/' {
        without_slashes(url.drop_last())
    } else {
        url
    }
}

/// The Messages endpoint under `base_url`.
pub open spec fn endpoint_url(base_url: Seq<char>) -> Seq<char> {
    without_slashes(base_url) + "/v1/messages"@
}

/// The Messages endpoint under `base_url`.
pub fn endpoint_of(base_url: &str) -> (url: String)
    ensures
        url@ == endpoint_url(base_url@),
{
    let chars = chars_of(base_url);
    let mut end: usize = chars.len();
    assert(chars@.take(end as int) == base_url@);
    while end > 0 && chars[end - 1] == '/'
        invariant
            end <= chars.len(),
            chars@ == base_url@,
            without_slashes(base_url@) == without_slashes(chars@.take(end as int)),
        decreases end,
    {
        assert(chars@.take(end as int).drop_last() == chars@.take(end - 1));
        end = end - 1;
    }
    let base = text_of(vstd::slice::slice_subrange(chars.as_slice(), 0, end));
    assert(chars@.take(end as int) == chars@.subrange(0, end as int));
    concat2(base.as_str(), "/v1/messages")
}

// ---------------------------------------------------------------------------
// The response

/// The optional `usage` member: absent counts are no error.
pub open spec fn usage_field(v: JsonValue) -> core::result::Result<TokenUsage, Seq<char>> {
    match field(v, "usage"@) {
        None => Ok(TokenUsage { input_tokens: None, output_tokens: None }),
        Some(JsonValue::Null) => Ok(TokenUsage { input_tokens: None, output_tokens: None }),
        Some(JsonValue::Object(members)) => {
            let usage = JsonValue::Object(members);
            match (opt_count_field(usage, "input_tokens"@), opt_count_field(
                usage,
                "output_tokens"@,
            )) {
                (Err(message), _) => Err(message),
                (_, Err(message)) => Err(message),
                (Ok(input_tokens), Ok(output_tokens)) => Ok(
                    TokenUsage { input_tokens, output_tokens },
                ),
            }
        },
        Some(_) => Err(invalid("usage"@)),
    }
}

fn read_usage(json: &Json) -> (result: core::result::Result<TokenUsage, String>)
    ensures
        match result {
            Ok(usage) => usage_field(json.value()) == Ok::<TokenUsage, Seq<char>>(usage),
            Err(message) => usage_field(json.value()) == Err::<TokenUsage, Seq<char>>(message@),
        },
{
    match json.get("usage") {
        None => Ok(TokenUsage { input_tokens: None, output_tokens: None }),
        Some(usage) => match usage {
            Json::Null => Ok(TokenUsage { input_tokens: None, output_tokens: None }),
            Json::Object(_) => match read_opt_count(usage, "input_tokens") {
                Err(message) => Err(message),
                Ok(input_tokens) => match read_opt_count(usage, "output_tokens") {
                    Err(message) => Err(message),
                    Ok(output_tokens) => Ok(TokenUsage { input_tokens, output_tokens }),
                },
            },
            _ => Err(concat3("invalid field `", "usage", "`")),
        },
    }
}

/// Whether a response block is one this client keeps: text or a tool request.
pub open spec fn is_kept(v: JsonValue) -> bool {
    field(v, "type"@) == Some(JsonValue::Text("text"@)) || field(v, "type"@) == Some(
        JsonValue::Text("tool_use"@),
    )
}

/// The first `n` blocks of a response, without those of other types.
pub open spec fn kept_blocks(items: Seq<JsonValue>, n: nat) -> core::result::Result<
    Seq<BlockView>,
    Seq<char>,
>
    decreases n,
{
    if n == 0 || n > items.len() {
        Ok(seq![])
    } else {
        match kept_blocks(items, (n - 1) as nat) {
            Err(message) => Err(message),
            Ok(before) => if !is_kept(items[n - 1]) {
                Ok(before)
            } else {
                match decode_block(items[n - 1]) {
                    Err(message) => Err(message),
                    Ok(block) => Ok(before.push(block)),
                }
            },
        }
    }
}

/// A malformed block decides the result.
proof fn lemma_kept_stops(items: Seq<JsonValue>, n: nat, m: nat)
    requires
        n <= m <= items.len(),
        kept_blocks(items, n) is Err,
    ensures
        kept_blocks(items, m) == kept_blocks(items, n),
    decreases m,
{
    if n < m {
        lemma_kept_stops(items, n, (m - 1) as nat);
    }
}

fn keeps(json: &Json) -> (kept: bool)
    ensures
        kept == is_kept(json.value()),
{
    match json.get("type") {
        None => false,
        Some(kind) => match kind.as_text() {
            None => false,
            Some(word) => same_text(word, "text") || same_text(word, "tool_use"),
        },
    }
}

fn read_kept(items: &Vec<Json>) -> (result: core::result::Result<Vec<ContentBlock>, String>)
    ensures
        match result {
            Ok(blocks) => kept_blocks(values(items@), items@.len()) == Ok::<
                Seq<BlockView>,
                Seq<char>,
            >(views(blocks@)),
            Err(message) => kept_blocks(values(items@), items@.len()) == Err::<
                Seq<BlockView>,
                Seq<char>,
            >(message@),
        },
{
    let mut blocks: Vec<ContentBlock> = Vec::new();
    let ghost all = values(items@);
    let mut i: usize = 0;
    assert(views(blocks@) =~= Seq::<BlockView>::empty());
    while i < items.len()
        invariant
            i <= items.len(),
            all == values(items@),
            kept_blocks(all, i as nat) == Ok::<Seq<BlockView>, Seq<char>>(views(blocks@)),
        decreases items.len() - i,
    {
        let ghost before = views(blocks@);
        if keeps(&items[i]) {
            match read_block(&items[i]) {
                Ok(block) => {
                    blocks.push(block);
                    assert(views(blocks@) =~= before.push(block@));
                },
                Err(message) => {
                    proof {
                        lemma_kept_stops(all, (i + 1) as nat, all.len());
                    }
                    return Err(message);
                },
            }
        }
        i = i + 1;
    }
    Ok(blocks)
}

/// Whether a reply says anything: some text, or a tool request.
pub open spec fn says_something(blocks: Seq<BlockView>) -> bool {
    exists|i: int|
        0 <= i < blocks.len() && match #[trigger] blocks[i] {
            BlockView::Text { text } => text.len() > 0,
            BlockView::ToolUse { .. } => true,
            _ => false,
        }
}

fn has_content(blocks: &[ContentBlock]) -> (found: bool)
    ensures
        found == says_something(views(blocks@)),
{
    let mut i: usize = 0;
    while i < blocks.len()
        invariant
            i <= blocks.len(),
            forall|k: int|
                0 <= k < i ==> match #[trigger] views(blocks@)[k] {
                    BlockView::Text { text } => text.len() == 0,
                    BlockView::ToolUse { .. } => false,
                    _ => true,
                },
        decreases blocks.len() - i,
    {
        let found = match &blocks[i] {
            ContentBlock::Text { text } => text.as_str().unicode_len() > 0,
            ContentBlock::ToolUse { .. } => true,
            _ => false,
        };
        assert(views(blocks@)[i as int] == blocks@[i as int]@);
        if found {
            return true;
        }
        i = i + 1;
    }
    false
}

/// The complaint about a response body that is no Messages response.
pub open spec fn malformed(message: Seq<char>) -> Seq<char> {
    "malformed Messages response: "@ + message
}

/// The stop reason that an optional wire word stands for.
pub open spec fn stop_field(wire: Option<Seq<char>>) -> Option<StopView> {
    match wire {
        Some(word) => Some(stop_of_wire(word)),
        None => None,
    }
}

/// The reply that a successful response holds, or what is wrong with it.
pub open spec fn decode_reply(v: JsonValue) -> core::result::Result<ReplyView, Seq<char>> {
    if v !is Object {
        Err(malformed("expected an object"@))
    } else {
        let items: core::result::Result<Seq<JsonValue>, Seq<char>> = match field(v, "content"@) {
            None => Ok(seq![]),
            Some(JsonValue::List(items)) => Ok(items),
            Some(_) => Err(invalid("content"@)),
        };
        match (items, usage_field(v), opt_text_field(v, "stop_reason"@)) {
            (Err(message), _, _) => Err(malformed(message)),
            (_, Err(message), _) => Err(malformed(message)),
            (_, _, Err(message)) => Err(malformed(message)),
            (Ok(items), Ok(usage), Ok(stop)) => match kept_blocks(items, items.len()) {
                Err(message) => Err("malformed response content block: "@ + message),
                Ok(content) => if !says_something(content) {
                    Err("response contained no assistant text or tool call"@)
                } else {
                    Ok(
                        ReplyView {
                            text: text_of_blocks(content),
                            content,
                            usage,
                            stop_reason: stop_field(stop),
                        },
                    )
                },
            },
        }
    }
}

/// Whether `result` is the reply, or the decoding error, that `expected` says.
pub open spec fn is_decoded(
    result: Result<AssistantReply>,
    expected: core::result::Result<ReplyView, Seq<char>>,
) -> bool {
    match expected {
        Ok(reply) => result matches Ok(r) && r@ == reply,
        Err(fault) => result matches Err(LegError::Decode(message)) && message@ == fault,
    }
}

fn malformed_error(message: &str) -> (error: LegError)
    ensures
        error matches LegError::Decode(text) && text@ == malformed(message@),
{
    LegError::Decode(concat2("malformed Messages response: ", message))
}

/// Reads the reply of a successful response.
///
/// Text and tool-request blocks are kept in order and blocks of other types are
/// passed over. A reply with neither text nor a tool request is an error, so a
/// reply is never silently empty.
pub fn read_reply(json: &Json) -> (result: Result<AssistantReply>)
    ensures
        is_decoded(result, decode_reply(json.value())),
{
    match json {
        Json::Object(_) => {},
        _ => {
            return Err(malformed_error("expected an object"));
        },
    }
    let empty: Vec<Json> = Vec::new();
    let items: &Vec<Json> = match json.get("content") {
        None => {
            assert(values(empty@) =~= Seq::<JsonValue>::empty());
            &empty
        },
        Some(content) => match content {
            Json::List(items) => {
                proof {
                    lemma_list_value(*items);
                }
                items
            },
            _ => {
                return Err(malformed_error(concat3("invalid field `", "content", "`").as_str()));
            },
        },
    };
    let usage = match read_usage(json) {
        Ok(usage) => usage,
        Err(message) => {
            return Err(malformed_error(message.as_str()));
        },
    };
    let stop = match read_opt_text(json, "stop_reason") {
        Ok(stop) => stop,
        Err(message) => {
            return Err(malformed_error(message.as_str()));
        },
    };
    let content = match read_kept(items) {
        Ok(content) => content,
        Err(message) => {
            return Err(
                LegError::Decode(concat2("malformed response content block: ", message.as_str())),
            );
        },
    };
    if !has_content(content.as_slice()) {
        return Err(
            LegError::Decode("response contained no assistant text or tool call".to_owned()),
        );
    }
    let stop_reason = match &stop {
        Some(word) => Some(StopReason::from_wire(word.as_str())),
        None => None,
    };
    Ok(AssistantReply::from_blocks(content, usage, stop_reason))
}

/// The reply in a successful response body, or what is wrong with the body.
pub open spec fn success_of(body: Seq<char>) -> core::result::Result<ReplyView, Seq<char>> {
    match parsed(body) {
        Err(fault) => Err(malformed(fault)),
        Ok(t) => decode_reply(value(t)),
    }
}

/// Decodes the body of a successful response.
pub fn parse_success(body: &str) -> (result: Result<AssistantReply>)
    ensures
        is_decoded(result, success_of(body@)),
{
    match parse_json(body) {
        Err(fault) => Err(malformed_error(fault.as_str())),
        Ok(json) => read_reply(&json),
    }
}

/// The type and message that a provider's error body names, if it is one.
pub open spec fn decode_error(v: JsonValue) -> Option<(Option<Seq<char>>, Seq<char>)> {
    match field(v, "error"@) {
        None => None,
        Some(error) => match (opt_text_field(error, "type"@), text_field(error, "message"@)) {
            (Ok(error_type), Ok(message)) => Some((error_type, message)),
            _ => None,
        },
    }
}

/// Reads a provider's error body.
pub fn read_error(json: &Json) -> (details: Option<(Option<String>, String)>)
    ensures
        match details {
            Some((error_type, message)) => decode_error(json.value()) == Some(
                (opt_view(error_type), message@),
            ),
            None => decode_error(json.value()) is None,
        },
{
    match json.get("error") {
        None => None,
        Some(error) => match read_opt_text(error, "type") {
            Err(_) => None,
            Ok(error_type) => match read_text(error, "message") {
                Err(_) => None,
                Ok(message) => Some((error_type, message)),
            },
        },
    }
}

/// The error type and message of a failed response: those the body names, else
/// the trimmed body itself.
pub open spec fn error_details(body: Seq<char>) -> (Option<Seq<char>>, Seq<char>) {
    let raw = if trimmed(body).len() == 0 {
        "no response body"@
    } else {
        trimmed(body)
    };
    match parsed(body) {
        Ok(t) => match decode_error(value(t)) {
            Some(details) => details,
            None => (None, raw),
        },
        Err(_) => (None, raw),
    }
}

/// Finds the error type and message in the body of a failed response.
pub fn extract_error_details(body: &str) -> (details: (Option<String>, String))
    ensures
        (opt_view(details.0), details.1@) == error_details(body@),
{
    if let Ok(json) = parse_json(body) {
        if let Some(details) = read_error(&json) {
            return details;
        }
    }
    let raw = trim(body);
    if raw.as_str().unicode_len() == 0 {
        (None, "no response body".to_owned())
    } else {
        (None, raw)
    }
}

/// A message with its error type in front, if there is one.
pub open spec fn typed_message(error_type: Option<Seq<char>>, message: Seq<char>) -> Seq<char> {
    match error_type {
        Some(word) => word + ": "@ + message,
        None => message,
    }
}

/// `message` with its error type in front, if there is one.
pub fn error_message_with_type(error_type: Option<&str>, message: String) -> (text: String)
    ensures
        text@ == typed_message(opt_text(error_type), message@),
{
    match error_type {
        Some(word) => concat3(word, ": ", message.as_str()),
        None => message,
    }
}

/// Whether `error` is the one for a failed status with these details. A
/// `rate_limit_error` is rate limiting whatever the status.
pub open spec fn is_failure(
    error: LegError,
    status: u16,
    error_type: Option<Seq<char>>,
    message: Seq<char>,
) -> bool {
    if error_type == Some("rate_limit_error"@) || status == 429 {
        error matches LegError::RateLimited(text) && text@ == typed_message(error_type, message)
    } else if status == 401 {
        error matches LegError::Auth(text) && text@ == typed_message(error_type, message)
    } else if 500 <= status <= 599 {
        error matches LegError::Server { status: s, error_type: t, message: m } && s == status
            && opt_view(t) == error_type && m@ == message
    } else {
        error matches LegError::Api { status: s, error_type: t, message: m } && s == status
            && opt_view(t) == error_type && m@ == message
    }
}

/// Whether `result` is what a response of `status` with `body` means.
pub open spec fn is_response(
    status: u16,
    body: Seq<char>,
    result: Result<AssistantReply>,
) -> bool {
    if 200 <= status < 300 {
        is_decoded(result, success_of(body))
    } else {
        result matches Err(error) && is_failure(
            error,
            status,
            error_details(body).0,
            error_details(body).1,
        )
    }
}

/// The error for a failed status with these details.
pub fn failure(status: u16, error_type: Option<String>, message: String) -> (error: LegError)
    ensures
        is_failure(error, status, opt_view(error_type), message@),
{
    let rate_limited = match &error_type {
        Some(word) => same_text(word.as_str(), "rate_limit_error"),
        None => false,
    };
    if rate_limited || status == 429 {
        let text = match &error_type {
            Some(word) => error_message_with_type(Some(word.as_str()), message),
            None => message,
        };
        LegError::RateLimited(text)
    } else if status == 401 {
        let text = match &error_type {
            Some(word) => error_message_with_type(Some(word.as_str()), message),
            None => message,
        };
        LegError::Auth(text)
    } else if 500 <= status && status <= 599 {
        LegError::Server { status, error_type, message }
    } else {
        LegError::Api { status, error_type, message }
    }
}

/// What a response of `status` with `body` means.
pub fn parse_response(status: u16, body: &str) -> (result: Result<AssistantReply>)
    ensures
        is_response(status, body@, result),
{
    if 200 <= status && status < 300 {
        return parse_success(body);
    }
    let (error_type, message) = extract_error_details(body);
    Err(failure(status, error_type, message))
}

// ---------------------------------------------------------------------------
// The client

/// A client for the Messages API over an [`HttpClient`].
pub struct ClaudeClient<H: HttpClient> {
    /// The configuration.
    pub config: LegConfig,
    /// The HTTP boundary.
    pub http: H,
    /// The tools declared on every request.
    pub tools: Vec<ToolSpec>,
}

/// The request body that a client sends for `messages`.
pub open spec fn body_of<H: HttpClient>(client: ClaudeClient<H>, messages: Seq<Message>) -> Seq<
    char,
> {
    json_text(
        request_tree(
            client.config.model@,
            client.config.max_tokens,
            messages,
            opt_view(client.config.system_prompt),
            client.tools@,
        ),
    )
}

/// Whether an HTTP answer leads to `result`.
pub open spec fn leads_to(answer: Result<HttpResponse>, result: Result<AssistantReply>) -> bool {
    match answer {
        Ok(response) => is_response(response.status, response.body@, result),
        Err(error) => result == Err::<AssistantReply, LegError>(error),
    }
}

/// Whether a request with images over the limits is refused with `result`.
pub open spec fn is_refused(messages: Seq<Message>, result: Result<AssistantReply>) -> bool {
    image_fault(messages) matches Some(fault) && (result matches Err(LegError::Usage(text))
        && text@ == fault)
}

/// Whether a client that sends `messages` with the HTTP call `made` ends in
/// `call`, which has the same attempts.
pub open spec fn exchanged<H: HttpClient>(
    client: ClaudeClient<H>,
    messages: Seq<Message>,
    made: HttpCall,
    call: TransportCall<AssistantReply>,
) -> bool {
    &&& client.http.may_call(
        endpoint_url(client.config.base_url@),
        request_headers(client.config.credential),
        body_of(client, messages),
        made,
    )
    &&& leads_to(made.result, call.result)
    &&& call.attempts == made.attempts
}

/// Whether sending `messages` ends in `call`: images over the limits are refused
/// without an attempt, and anything else goes to the provider.
pub open spec fn is_exchange<H: HttpClient>(
    client: ClaudeClient<H>,
    messages: Seq<Message>,
    call: TransportCall<AssistantReply>,
) -> bool {
    if image_fault(messages) is Some {
        is_refused(messages, call.result) && call.attempts == 0
    } else {
        exists|made: HttpCall| #[trigger] exchanged(client, messages, made, call)
    }
}

impl<H: HttpClient> ClaudeClient<H> {
    /// A client over `http` that declares no tools.
    pub fn with_http(config: LegConfig, http: H) -> (client: Self)
        ensures
            client.config == config,
            client.http == http,
            client.tools@.len() == 0,
    {
        ClaudeClient { config, http, tools: Vec::new() }
    }

    /// The client with `tools` declared on every request.
    pub fn with_tools(self, tools: Vec<ToolSpec>) -> (client: Self)
        ensures
            client.config == self.config,
            client.http == self.http,
            client.tools == tools,
    {
        ClaudeClient { config: self.config, http: self.http, tools }
    }

    /// The Messages endpoint for the configured base URL.
    pub fn endpoint(&self) -> (url: String)
        ensures
            url@ == endpoint_url(self.config.base_url@),
    {
        endpoint_of(self.config.base_url.as_str())
    }

    /// Sends `messages` and decodes what comes back. The request goes to the
    /// endpoint with the credential's headers, and the attempts are those of
    /// the HTTP call. A request with images over the limits is not sent at all.
    pub fn exchange(&self, messages: &[Message]) -> (call: TransportCall<AssistantReply>)
        ensures
            is_exchange(*self, messages@, call),
    {
        if let Err(error) = validate_message_image_limits(messages) {
            return TransportCall::new(Err(error), 0);
        }
        let system = match &self.config.system_prompt {
            Some(text) => Some(text.as_str()),
            None => None,
        };
        let body = match build_request_body(
            self.config.model.as_str(),
            self.config.max_tokens,
            messages,
            system,
            self.tools.as_slice(),
        ) {
            Ok(body) => body,
            Err(error) => {
                return TransportCall::new(Err(error), 0);
            },
        };
        let url = self.endpoint();
        let (auth_name, auth_value) = auth_header(&self.config.credential);
        let mut headers: Vec<(&str, &str)> = Vec::new();
        headers.push((auth_name, auth_value.as_str()));
        headers.push(("anthropic-version", ANTHROPIC_VERSION));
        headers.push(("content-type", "application/json"));
        assert(header_views(headers@) =~= request_headers(self.config.credential));
        let made = self.http.post_json_with_attempts(url.as_str(), headers.as_slice(), body.as_str());
        let ghost answer = made;
        let attempts: u64 = made.attempts;
        match made.result {
            Err(error) => {
                let call = TransportCall::new(Err(error), attempts);
                assert(exchanged(*self, messages@, answer, call));
                call
            },
            Ok(response) => {
                let result = parse_response(response.status, response.body.as_str());
                let call = TransportCall::new(result, attempts);
                assert(exchanged(*self, messages@, answer, call));
                call
            },
        }
    }
}

impl<H: HttpClient> Transport for ClaudeClient<H> {
    open spec fn may_reply(&self, messages: Seq<MessageView>, result: Result<
        AssistantReply,
    >) -> bool {
        exists|call: TransportCall<AssistantReply>| #[trigger]
            self.may_call(messages, call) && call.result == result
    }

    open spec fn may_call(
        &self,
        messages: Seq<MessageView>,
        call: TransportCall<AssistantReply>,
    ) -> bool {
        exists|sent: Seq<Message>| #[trigger]
            views(sent) == messages && is_exchange(*self, sent, call)
    }

    /// It runs no tools.
    open spec fn may_tell(
        &self,
        messages: Seq<MessageView>,
        notes: Seq<NoteView>,
        call: TransportCall<AssistantReply>,
    ) -> bool {
        notes.len() == 0
    }

    open spec fn may_signal(&self, signal: Option<InterruptSignal>) -> bool {
        self.http.may_pause(0, signal)
    }

    fn send_conversation(&self, messages: &[Message]) -> (result: Result<AssistantReply>) {
        let call = self.exchange(messages);
        assert(self.may_call(views(messages@), call));
        call.result
    }

    fn send_conversation_with_attempts(&self, messages: &[Message]) -> (call: TransportCall<
        AssistantReply,
    >) {
        self.exchange(messages)
    }

    fn send_observed<O: ToolObserver>(&self, messages: &[Message], observer: &mut O) -> (call:
        TransportCall<AssistantReply>) {
        assert(observer.seen() =~= observer.seen() + Seq::<NoteView>::empty());
        self.exchange(messages)
    }

    fn interrupted(&self) -> (signal: Option<InterruptSignal>) {
        self.http.pause(0)
    }
}

/// A turn of one text block goes out as the bare string, as if there were no
/// blocks.
pub proof fn law_text_turns_go_out_as_plain_strings(message: Message, text: Seq<char>)
    requires
        views(message.content@) == seq![BlockView::Text { text }],
    ensures
        message_tree(message) == JsonTree::Object(
            seq![
                ("role"@, JsonTree::Text(message.role.wire())),
                ("content"@, JsonTree::Text(text)),
            ],
        ),
{
    assert(single_text(views(message.content@)) == Some(text));
    assert(message_tree(message)->Object_0 =~= seq![
        ("role"@, JsonTree::Text(message.role.wire())),
        ("content"@, JsonTree::Text(text)),
    ]);
}

/// A decoded reply is never silently empty: it holds some text or a tool
/// request, and its text is that of its blocks.
pub proof fn law_decoded_replies_say_something(v: JsonValue)
    requires
        decode_reply(v) is Ok,
    ensures
        says_something(decode_reply(v)->Ok_0.content),
        decode_reply(v)->Ok_0.text == text_of_blocks(decode_reply(v)->Ok_0.content),
{
}

/// A `rate_limit_error` is rate limiting under every failed status.
pub proof fn law_rate_limit_errors_are_rate_limited(
    error: LegError,
    status: u16,
    message: Seq<char>,
)
    requires
        is_failure(error, status, Some("rate_limit_error"@), message),
    ensures
        error is RateLimited,
{
}

} // verus!
