//! What is written reads back: content blocks, trail lines and envelopes.

use vstd::prelude::*;
use vstd::utf8::{encode_utf8, is_ascii_chars, is_ascii_chars_encode_utf8};

use crate::events::{
    status_wire, EventView, ExchangeEvent, Outcome, OutcomeView, RequestRecord, RequestView, SCHEMA,
};
use crate::json::{
    field, law_readable_text_is_one_line, lemma_field_none, lemma_field_push, max_depth, readable,
    value, JsonTree, JsonValue, NumberTree,
};
use crate::log::{
    decode_line, first_line, is_blank_line, is_faithful, is_faithful_trail, is_line_of,
    is_space_byte, lemma_first_line, line_value, scan, LineView, LinesView,
};
use crate::message::{
    decode_envelope, decode_outcome, decode_wrapped, envelope_tree, kind_wire, outcome_tree,
    request_record_tree, wrapped_tree, EnvelopeView, MessageEnvelope, WrappedExchange, WrappedView,
};
use crate::model::{BlockView, ContentBlock, ImageSource};
use crate::sink::line_text;
use crate::text::{lemma_encode_concat, lemma_one_line_bytes, views};
use crate::wire::{
    block_members, block_tree, block_trees, decode_block, decode_blocks, decode_failure,
    decode_request, decode_success, event_members, event_tree, line_head, opt_content_tree,
    opt_count_tree, opt_text_tree, outcome_event, outcome_members, outcome_time, request_members,
    source_members, with_optional, with_turn,
};

verus! {

/// What tells the keys and words of the formats apart: their length and their
/// first two letters.
spec fn mark(word: Seq<char>) -> (nat, char, char) {
    (word.len(), word[0], word[1])
}

proof fn lemma_keys()
    ensures
        mark("event"@) == (5nat, 'e', 'v'),
        mark("schema"@) == (6nat, 's', 'c'),
        mark("ts_ms"@) == (5nat, 't', 's'),
        mark("model"@) == (5nat, 'm', 'o'),
        mark("base_url"@) == (8nat, 'b', 'a'),
        mark("prompt"@) == (6nat, 'p', 'r'),
        mark("content"@) == (7nat, 'c', 'o'),
        mark("session_id"@) == (10nat, 's', 'e'),
        mark("turn_index"@) == (10nat, 't', 'u'),
        mark("duration_ms"@) == (11nat, 'd', 'u'),
        mark("reply"@) == (5nat, 'r', 'e'),
        mark("input_tokens"@) == (12nat, 'i', 'n'),
        mark("output_tokens"@) == (13nat, 'o', 'u'),
        mark("stop_reason"@) == (11nat, 's', 't'),
        mark("kind"@) == (4nat, 'k', 'i'),
        mark("message"@) == (7nat, 'm', 'e'),
        mark("tool_use_id"@) == (11nat, 't', 'o'),
        mark("tool_name"@) == (9nat, 't', 'o'),
        mark("input"@) == (5nat, 'i', 'n'),
        mark("status"@) == (6nat, 's', 't'),
        mark("result"@) == (6nat, 'r', 'e'),
        mark("error"@) == (5nat, 'e', 'r'),
        mark("turns"@) == (5nat, 't', 'u'),
        mark("type"@) == (4nat, 't', 'y'),
        mark("text"@) == (4nat, 't', 'e'),
        mark("id"@) == (2nat, 'i', 'd'),
        mark("name"@) == (4nat, 'n', 'a'),
        mark("is_error"@) == (8nat, 'i', 's'),
        mark("source"@) == (6nat, 's', 'o'),
        mark("media_type"@) == (10nat, 'm', 'e'),
        mark("data"@) == (4nat, 'd', 'a'),
        mark("thinking"@) == (8nat, 't', 'h'),
        mark("signature"@) == (9nat, 's', 'i'),
{
    reveal_strlit("event");
    reveal_strlit("schema");
    reveal_strlit("ts_ms");
    reveal_strlit("model");
    reveal_strlit("base_url");
    reveal_strlit("prompt");
    reveal_strlit("content");
    reveal_strlit("session_id");
    reveal_strlit("turn_index");
    reveal_strlit("duration_ms");
    reveal_strlit("reply");
    reveal_strlit("input_tokens");
    reveal_strlit("output_tokens");
    reveal_strlit("stop_reason");
    reveal_strlit("kind");
    reveal_strlit("message");
    reveal_strlit("tool_use_id");
    reveal_strlit("tool_name");
    reveal_strlit("input");
    reveal_strlit("status");
    reveal_strlit("result");
    reveal_strlit("error");
    reveal_strlit("turns");
    reveal_strlit("type");
    reveal_strlit("text");
    reveal_strlit("id");
    reveal_strlit("name");
    reveal_strlit("is_error");
    reveal_strlit("source");
    reveal_strlit("media_type");
    reveal_strlit("data");
    reveal_strlit("thinking");
    reveal_strlit("signature");
}

proof fn lemma_words()
    ensures
        mark("request"@) == (7nat, 'r', 'e'),
        mark("response"@) == (8nat, 'r', 'e'),
        mark("response_ok"@) == (11nat, 'r', 'e'),
        mark("response_error"@) == (14nat, 'r', 'e'),
        mark("tool_call"@) == (9nat, 't', 'o'),
        mark("tool_result"@) == (11nat, 't', 'o'),
        mark("tool_round"@) == (10nat, 't', 'o'),
        mark("session_start"@) == (13nat, 's', 'e'),
        mark("session_end"@) == (11nat, 's', 'e'),
        mark("completed"@) == (9nat, 'c', 'o'),
        mark("failed"@) == (6nat, 'f', 'a'),
        mark("denied"@) == (6nat, 'd', 'e'),
        mark("text"@) == (4nat, 't', 'e'),
        mark("tool_use"@) == (8nat, 't', 'o'),
        mark("image"@) == (5nat, 'i', 'm'),
        mark("thinking"@) == (8nat, 't', 'h'),
        mark("error"@) == (5nat, 'e', 'r'),
{
    reveal_strlit("request");
    reveal_strlit("response");
    reveal_strlit("response_ok");
    reveal_strlit("response_error");
    reveal_strlit("tool_call");
    reveal_strlit("tool_result");
    reveal_strlit("tool_round");
    reveal_strlit("session_start");
    reveal_strlit("session_end");
    reveal_strlit("completed");
    reveal_strlit("failed");
    reveal_strlit("denied");
    reveal_strlit("text");
    reveal_strlit("tool_use");
    reveal_strlit("image");
    reveal_strlit("thinking");
    reveal_strlit("error");
}

// ---------------------------------------------------------------------------
// Members

/// The member `key` among `members`.
spec fn member(members: Seq<(Seq<char>, JsonTree)>, key: Seq<char>) -> Option<JsonValue> {
    field(value(JsonTree::Object(members)), key)
}

proof fn lemma_empty()
    ensures
        forall|key: Seq<char>| #[trigger] member(seq![], key) is None,
{
    assert forall|key: Seq<char>| #[trigger] member(seq![], key) is None by {
        lemma_field_none(key);
    }
}

proof fn lemma_added(members: Seq<(Seq<char>, JsonTree)>, key: Seq<char>, json: JsonTree)
    ensures
        forall|k: Seq<char>| #[trigger]
            member(members.push((key, json)), k) == (if k == key {
                Some(value(json))
            } else {
                member(members, k)
            }),
{
    assert forall|k: Seq<char>| #[trigger]
        member(members.push((key, json)), k) == (if k == key {
            Some(value(json))
        } else {
            member(members, k)
        }) by {
        lemma_field_push(members, (key, json), k);
    }
}

proof fn lemma_optional(
    members: Seq<(Seq<char>, JsonTree)>,
    key: Seq<char>,
    json: Option<JsonTree>,
)
    ensures
        forall|k: Seq<char>| #[trigger]
            member(with_optional(members, key, json), k) == (if k == key && json is Some {
                Some(value(json.unwrap()))
            } else {
                member(members, k)
            }),
{
    if let Some(json) = json {
        lemma_added(members, key, json);
    }
}

proof fn lemma_turn(
    members: Seq<(Seq<char>, JsonTree)>,
    session_id: Option<String>,
    turn_index: Option<u64>,
)
    ensures
        forall|k: Seq<char>| #[trigger]
            member(with_turn(members, session_id, turn_index), k) == (if k == "turn_index"@
                && turn_index is Some {
                Some(JsonValue::Number(NumberTree::Unsigned(turn_index.unwrap())))
            } else if k == "session_id"@ && session_id is Some {
                Some(JsonValue::Text(session_id.unwrap()@))
            } else {
                member(members, k)
            }),
{
    let named = with_optional(members, "session_id"@, opt_text_tree(session_id));
    lemma_optional(members, "session_id"@, opt_text_tree(session_id));
    lemma_optional(named, "turn_index"@, opt_count_tree(turn_index));
}

proof fn lemma_head(event: Seq<char>, ts_ms: u64)
    ensures
        forall|k: Seq<char>| #[trigger]
            member(line_head(event, ts_ms), k) == (if k == "ts_ms"@ {
                Some(JsonValue::Number(NumberTree::Unsigned(ts_ms)))
            } else if k == "schema"@ {
                Some(JsonValue::Text(SCHEMA@))
            } else if k == "event"@ {
                Some(JsonValue::Text(event))
            } else {
                None
            }),
{
    let none: Seq<(Seq<char>, JsonTree)> = seq![];
    let one = none.push(("event"@, JsonTree::Text(event)));
    let two = one.push(("schema"@, JsonTree::Text(SCHEMA@)));
    let three = two.push(("ts_ms"@, JsonTree::Number(NumberTree::Unsigned(ts_ms))));
    assert(line_head(event, ts_ms) =~= three);
    lemma_empty();
    lemma_added(none, "event"@, JsonTree::Text(event));
    lemma_added(one, "schema"@, JsonTree::Text(SCHEMA@));
    lemma_added(two, "ts_ms"@, JsonTree::Number(NumberTree::Unsigned(ts_ms)));
}

// ---------------------------------------------------------------------------
// Blocks

/// A content block reads back as it was written.
pub proof fn law_block_reads_back(block: ContentBlock)
    ensures
        decode_block(value(block_tree(block))) == Ok::<BlockView, Seq<char>>(block@),
{
    lemma_keys();
    lemma_words();
    lemma_empty();
    let none: Seq<(Seq<char>, JsonTree)> = seq![];
    let v = value(block_tree(block));
    assert(forall|k: Seq<char>| #[trigger] member(block_members(block), k) == field(v, k));
    match block {
        ContentBlock::Text { text } => {
            let one = none.push(("type"@, JsonTree::Text("text"@)));
            lemma_added(none, "type"@, JsonTree::Text("text"@));
            lemma_added(one, "text"@, JsonTree::Text(text@));
            assert(block_members(block) =~= one.push(("text"@, JsonTree::Text(text@))));
            assert(member(block_members(block), "type"@) == Some(JsonValue::Text("text"@)));
            assert(member(block_members(block), "text"@) == Some(JsonValue::Text(text@)));
        },
        ContentBlock::ToolUse { id, name, input } => {
            let one = none.push(("type"@, JsonTree::Text("tool_use"@)));
            let two = one.push(("id"@, JsonTree::Text(id@)));
            let three = two.push(("name"@, JsonTree::Text(name@)));
            lemma_added(none, "type"@, JsonTree::Text("tool_use"@));
            lemma_added(one, "id"@, JsonTree::Text(id@));
            lemma_added(two, "name"@, JsonTree::Text(name@));
            lemma_added(three, "input"@, input@);
            assert(block_members(block) =~= three.push(("input"@, input@)));
            assert(member(block_members(block), "type"@) == Some(JsonValue::Text("tool_use"@)));
            assert(member(block_members(block), "id"@) == Some(JsonValue::Text(id@)));
            assert(member(block_members(block), "name"@) == Some(JsonValue::Text(name@)));
            assert(member(block_members(block), "input"@) == Some(value(input@)));
        },
        ContentBlock::ToolResult { tool_use_id, content, is_error } => {
            let one = none.push(("type"@, JsonTree::Text("tool_result"@)));
            let two = one.push(("tool_use_id"@, JsonTree::Text(tool_use_id@)));
            let three = two.push(("content"@, JsonTree::Text(content@)));
            let flag = match is_error {
                Some(b) => Some(JsonTree::Bool(b)),
                None => None,
            };
            lemma_added(none, "type"@, JsonTree::Text("tool_result"@));
            lemma_added(one, "tool_use_id"@, JsonTree::Text(tool_use_id@));
            lemma_added(two, "content"@, JsonTree::Text(content@));
            lemma_optional(three, "is_error"@, flag);
            assert(block_members(block) =~= with_optional(three, "is_error"@, flag));
            assert(member(block_members(block), "type"@) == Some(JsonValue::Text("tool_result"@)));
            assert(member(block_members(block), "tool_use_id"@) == Some(
                JsonValue::Text(tool_use_id@),
            ));
            assert(member(block_members(block), "content"@) == Some(JsonValue::Text(content@)));
            assert(member(block_members(block), "is_error"@) == match is_error {
                Some(b) => Some(JsonValue::Bool(b)),
                None => None,
            });
        },
        ContentBlock::Image { source: ImageSource::Base64 { media_type, data } } => {
            let s1 = none.push(("type"@, JsonTree::Text("base64"@)));
            let s2 = s1.push(("media_type"@, JsonTree::Text(media_type@)));
            let inner = source_members(media_type@, data@);
            lemma_added(none, "type"@, JsonTree::Text("base64"@));
            lemma_added(s1, "media_type"@, JsonTree::Text(media_type@));
            lemma_added(s2, "data"@, JsonTree::Text(data@));
            assert(inner =~= s2.push(("data"@, JsonTree::Text(data@))));
            assert(member(inner, "type"@) == Some(JsonValue::Text("base64"@)));
            assert(member(inner, "media_type"@) == Some(JsonValue::Text(media_type@)));
            assert(member(inner, "data"@) == Some(JsonValue::Text(data@)));
            let one = none.push(("type"@, JsonTree::Text("image"@)));
            lemma_added(none, "type"@, JsonTree::Text("image"@));
            lemma_added(one, "source"@, JsonTree::Object(inner));
            assert(block_members(block) =~= one.push(("source"@, JsonTree::Object(inner))));
            assert(member(block_members(block), "type"@) == Some(JsonValue::Text("image"@)));
            assert(member(block_members(block), "source"@) == Some(
                value(JsonTree::Object(inner)),
            ));
        },
        ContentBlock::Thinking { thinking, signature } => {
            let one = none.push(("type"@, JsonTree::Text("thinking"@)));
            let two = one.push(("thinking"@, JsonTree::Text(thinking@)));
            lemma_added(none, "type"@, JsonTree::Text("thinking"@));
            lemma_added(one, "thinking"@, JsonTree::Text(thinking@));
            lemma_added(two, "signature"@, JsonTree::Text(signature@));
            assert(block_members(block) =~= two.push(("signature"@, JsonTree::Text(signature@))));
            assert(member(block_members(block), "type"@) == Some(JsonValue::Text("thinking"@)));
            assert(member(block_members(block), "thinking"@) == Some(JsonValue::Text(thinking@)));
            assert(member(block_members(block), "signature"@) == Some(JsonValue::Text(signature@)));
        },
    }
}

/// The values of the JSON forms of `blocks`.
spec fn block_values(blocks: Seq<ContentBlock>) -> Seq<JsonValue> {
    Seq::new(blocks.len(), |i: int| value(block_tree(blocks[i])))
}

proof fn lemma_blocks(blocks: Seq<ContentBlock>, n: nat)
    requires
        n <= blocks.len(),
    ensures
        decode_blocks(block_values(blocks), n) == Ok::<Seq<BlockView>, Seq<char>>(
            views(blocks).take(n as int),
        ),
    decreases n,
{
    if n == 0 {
        assert(views(blocks).take(0) =~= Seq::<BlockView>::empty());
    } else {
        lemma_blocks(blocks, (n - 1) as nat);
        law_block_reads_back(blocks[n - 1]);
        assert(views(blocks).take(n - 1).push(blocks[n - 1]@) =~= views(blocks).take(n as int));
    }
}

/// Content blocks read back as they were written.
pub proof fn law_blocks_read_back(blocks: Seq<ContentBlock>)
    ensures
        value(JsonTree::List(block_trees(blocks))) matches JsonValue::List(items)
            && decode_blocks(items, items.len()) == Ok::<Seq<BlockView>, Seq<char>>(views(blocks)),
{
    let items = block_values(blocks);
    let trees = block_trees(blocks);
    let v = value(JsonTree::List(trees));
    assert(v->List_0 =~= items) by {
        assert forall|i: int| 0 <= i < items.len() implies #[trigger] v->List_0[i] == items[i] by {
            assert(trees[i] == block_tree(blocks[i]));
        }
    }
    lemma_blocks(blocks, blocks.len());
    assert(views(blocks).take(blocks.len() as int) =~= views(blocks));
}

// ---------------------------------------------------------------------------
// Records

/// What a written request holds beside what stood before it.
proof fn lemma_request_members(head: Seq<(Seq<char>, JsonTree)>, request: RequestRecord)
    ensures
        forall|k: Seq<char>| #[trigger]
            member(request_members(head, request), k) == (if k == "turn_index"@
                && request.turn_index is Some {
                Some(JsonValue::Number(NumberTree::Unsigned(request.turn_index.unwrap())))
            } else if k == "session_id"@ && request.session_id is Some {
                Some(JsonValue::Text(request.session_id.unwrap()@))
            } else if k == "content"@ && request.content is Some {
                Some(value(JsonTree::List(block_trees(request.content.unwrap()@))))
            } else if k == "prompt"@ {
                Some(JsonValue::Text(request.prompt@))
            } else if k == "base_url"@ {
                Some(JsonValue::Text(request.base_url@))
            } else if k == "model"@ {
                Some(JsonValue::Text(request.model@))
            } else {
                member(head, k)
            }),
{
    let one = head.push(("model"@, JsonTree::Text(request.model@)));
    let two = one.push(("base_url"@, JsonTree::Text(request.base_url@)));
    let three = two.push(("prompt"@, JsonTree::Text(request.prompt@)));
    let four = with_optional(three, "content"@, opt_content_tree(request.content));
    lemma_added(head, "model"@, JsonTree::Text(request.model@));
    lemma_added(one, "base_url"@, JsonTree::Text(request.base_url@));
    lemma_added(two, "prompt"@, JsonTree::Text(request.prompt@));
    lemma_optional(three, "content"@, opt_content_tree(request.content));
    lemma_turn(four, request.session_id, request.turn_index);
}

/// What a written outcome holds beside what stood before it.
proof fn lemma_outcome_members(head: Seq<(Seq<char>, JsonTree)>, outcome: Outcome)
    ensures
        forall|k: Seq<char>| #[trigger]
            member(outcome_members(head, outcome), k) == (match outcome {
                Outcome::Success {
                    ts_ms,
                    duration_ms,
                    reply,
                    content,
                    input_tokens,
                    output_tokens,
                    stop_reason,
                    session_id,
                    turn_index,
                } => if k == "turn_index"@ && turn_index is Some {
                    Some(JsonValue::Number(NumberTree::Unsigned(turn_index.unwrap())))
                } else if k == "session_id"@ && session_id is Some {
                    Some(JsonValue::Text(session_id.unwrap()@))
                } else if k == "stop_reason"@ && stop_reason is Some {
                    Some(JsonValue::Text(stop_reason.unwrap()@))
                } else if k == "output_tokens"@ && output_tokens is Some {
                    Some(JsonValue::Number(NumberTree::Unsigned(output_tokens.unwrap())))
                } else if k == "input_tokens"@ && input_tokens is Some {
                    Some(JsonValue::Number(NumberTree::Unsigned(input_tokens.unwrap())))
                } else if k == "content"@ && content is Some {
                    Some(value(JsonTree::List(block_trees(content.unwrap()@))))
                } else if k == "reply"@ {
                    Some(JsonValue::Text(reply@))
                } else if k == "duration_ms"@ {
                    Some(JsonValue::Number(NumberTree::Unsigned(duration_ms)))
                } else {
                    member(head, k)
                },
                Outcome::Error { ts_ms, duration_ms, kind, message, session_id, turn_index } =>
                    if k == "turn_index"@ && turn_index is Some {
                    Some(JsonValue::Number(NumberTree::Unsigned(turn_index.unwrap())))
                } else if k == "session_id"@ && session_id is Some {
                    Some(JsonValue::Text(session_id.unwrap()@))
                } else if k == "message"@ {
                    Some(JsonValue::Text(message@))
                } else if k == "kind"@ {
                    Some(JsonValue::Text(kind@))
                } else if k == "duration_ms"@ {
                    Some(JsonValue::Number(NumberTree::Unsigned(duration_ms)))
                } else {
                    member(head, k)
                },
            }),
{
    match outcome {
        Outcome::Success {
            ts_ms,
            duration_ms,
            reply,
            content,
            input_tokens,
            output_tokens,
            stop_reason,
            session_id,
            turn_index,
        } => {
            let lasted = JsonTree::Number(NumberTree::Unsigned(duration_ms));
            let one = head.push(("duration_ms"@, lasted));
            let two = one.push(("reply"@, JsonTree::Text(reply@)));
            let three = with_optional(two, "content"@, opt_content_tree(content));
            let four = with_optional(three, "input_tokens"@, opt_count_tree(input_tokens));
            let five = with_optional(four, "output_tokens"@, opt_count_tree(output_tokens));
            let six = with_optional(five, "stop_reason"@, opt_text_tree(stop_reason));
            lemma_added(head, "duration_ms"@, lasted);
            lemma_added(one, "reply"@, JsonTree::Text(reply@));
            lemma_optional(two, "content"@, opt_content_tree(content));
            lemma_optional(three, "input_tokens"@, opt_count_tree(input_tokens));
            lemma_optional(four, "output_tokens"@, opt_count_tree(output_tokens));
            lemma_optional(five, "stop_reason"@, opt_text_tree(stop_reason));
            lemma_turn(six, session_id, turn_index);
        },
        Outcome::Error { ts_ms, duration_ms, kind, message, session_id, turn_index } => {
            let lasted = JsonTree::Number(NumberTree::Unsigned(duration_ms));
            let one = head.push(("duration_ms"@, lasted));
            let two = one.push(("kind"@, JsonTree::Text(kind@)));
            let three = two.push(("message"@, JsonTree::Text(message@)));
            lemma_added(head, "duration_ms"@, lasted);
            lemma_added(one, "kind"@, JsonTree::Text(kind@));
            lemma_added(two, "message"@, JsonTree::Text(message@));
            lemma_turn(three, session_id, turn_index);
        },
    }
}

/// Whether a head of members holds a time and none of the members of a record.
spec fn is_head(head: Seq<(Seq<char>, JsonTree)>, ts_ms: u64) -> bool {
    &&& member(head, "ts_ms"@) == Some(JsonValue::Number(NumberTree::Unsigned(ts_ms)))
    &&& member(head, "content"@) is None
    &&& member(head, "session_id"@) is None
    &&& member(head, "turn_index"@) is None
    &&& member(head, "input_tokens"@) is None
    &&& member(head, "output_tokens"@) is None
    &&& member(head, "stop_reason"@) is None
    &&& member(head, "result"@) is None
    &&& member(head, "error"@) is None
}

/// A request record reads back as it was written, after any head.
proof fn lemma_request_reads_back(head: Seq<(Seq<char>, JsonTree)>, request: RequestRecord)
    requires
        is_head(head, request.ts_ms),
    ensures
        decode_request(value(JsonTree::Object(request_members(head, request)))) == Ok::<
            RequestView,
            Seq<char>,
        >(request@),
{
    lemma_keys();
    lemma_request_members(head, request);
    let v = value(JsonTree::Object(request_members(head, request)));
    assert(forall|k: Seq<char>| #[trigger] field(v, k) == member(request_members(head, request), k));
    if let Some(blocks) = request.content {
        law_blocks_read_back(blocks@);
    }
}

/// An outcome reads back as it was written, after any head.
proof fn lemma_outcome_reads_back(head: Seq<(Seq<char>, JsonTree)>, outcome: Outcome)
    requires
        is_head(head, outcome_time(outcome)),
    ensures
        outcome is Success ==> decode_success(
            value(JsonTree::Object(outcome_members(head, outcome))),
        ) == Ok::<OutcomeView, Seq<char>>(outcome@),
        outcome is Error ==> decode_failure(value(JsonTree::Object(outcome_members(head, outcome))))
            == Ok::<OutcomeView, Seq<char>>(outcome@),
{
    lemma_keys();
    lemma_outcome_members(head, outcome);
    let v = value(JsonTree::Object(outcome_members(head, outcome)));
    assert(forall|k: Seq<char>| #[trigger] field(v, k) == member(outcome_members(head, outcome), k));
    if let Outcome::Success { content: Some(blocks), .. } = outcome {
        law_blocks_read_back(blocks@);
    }
}

// ---------------------------------------------------------------------------
// Trail lines

/// The turn that an event belongs to, where it names both parts of its address.
pub open spec fn event_turn(session_id: Option<Seq<char>>, turn_index: Option<u64>) -> Option<
    (Seq<char>, u64),
> {
    match (session_id, turn_index) {
        (Some(id), Some(index)) => Some((id, index)),
        _ => None,
    }
}

/// What the line of an event says to a reader of sessions.
pub open spec fn line_of(event: EventView) -> LineView {
    match event {
        EventView::Request(request) => LineView::Request(request),
        EventView::Response(outcome) => LineView::Response(outcome),
        EventView::ToolRound { content, session_id, turn_index, .. } => LineView::Round {
            content,
            turn: event_turn(session_id, turn_index),
        },
        EventView::ToolCall { call, session_id, turn_index } => LineView::Call {
            call,
            turn: event_turn(session_id, turn_index),
        },
        EventView::ToolResult { result, session_id, turn_index } => LineView::Result {
            result,
            turn: event_turn(session_id, turn_index),
        },
        EventView::SessionStart { session_id, .. } => LineView::Start { session_id },
        EventView::SessionEnd { session_id, turns, .. } => LineView::End { session_id, turns },
    }
}

/// What the line of an event says to a reader, who passes over tool rounds and
/// session markers unless reading sessions.
pub open spec fn read_as(event: EventView, sessions: bool) -> LineView {
    match event {
        EventView::ToolRound { .. } if !sessions => LineView::Skipped,
        EventView::SessionStart { .. } if !sessions => LineView::Skipped,
        EventView::SessionEnd { .. } if !sessions => LineView::Skipped,
        _ => line_of(event),
    }
}

/// A trail line reads back as the event that was written.
pub proof fn law_event_reads_back(event: ExchangeEvent, sessions: bool)
    ensures
        decode_line(value(event_tree(event)), sessions) == Ok::<LineView, Seq<char>>(
            read_as(event@, sessions),
        ),
{
    lemma_keys();
    lemma_words();
    let v = value(event_tree(event));
    let members = event_members(event);
    assert(forall|k: Seq<char>| #[trigger] field(v, k) == member(members, k));
    match event {
        ExchangeEvent::Request(request) => {
            let head = line_head("request"@, request.ts_ms);
            lemma_head("request"@, request.ts_ms);
            lemma_request_members(head, request);
            lemma_request_reads_back(head, request);
            assert(field(v, "event"@) == Some(JsonValue::Text("request"@)));
        },
        ExchangeEvent::Response(outcome) => {
            let head = line_head(outcome_event(outcome), outcome_time(outcome));
            lemma_head(outcome_event(outcome), outcome_time(outcome));
            lemma_outcome_members(head, outcome);
            lemma_outcome_reads_back(head, outcome);
            assert(field(v, "event"@) == Some(JsonValue::Text(outcome_event(outcome))));
        },
        ExchangeEvent::ToolRound { ts_ms, content, session_id, turn_index } => {
            let head = line_head("tool_round"@, ts_ms);
            let blocks = JsonTree::List(block_trees(content@));
            lemma_head("tool_round"@, ts_ms);
            lemma_added(head, "content"@, blocks);
            lemma_turn(head.push(("content"@, blocks)), session_id, turn_index);
            law_blocks_read_back(content@);
            assert(field(v, "event"@) == Some(JsonValue::Text("tool_round"@)));
            assert(field(v, "content"@) == Some(value(blocks)));
        },
        ExchangeEvent::ToolCall { ts_ms, tool_use_id, tool_name, input, session_id, turn_index } => {
            let head = line_head("tool_call"@, ts_ms);
            let one = head.push(("tool_use_id"@, JsonTree::Text(tool_use_id@)));
            let two = one.push(("tool_name"@, JsonTree::Text(tool_name@)));
            let three = two.push(("input"@, input@));
            lemma_head("tool_call"@, ts_ms);
            lemma_added(head, "tool_use_id"@, JsonTree::Text(tool_use_id@));
            lemma_added(one, "tool_name"@, JsonTree::Text(tool_name@));
            lemma_added(two, "input"@, input@);
            lemma_turn(three, session_id, turn_index);
            assert(field(v, "event"@) == Some(JsonValue::Text("tool_call"@)));
            assert(field(v, "input"@) == Some(value(input@)));
        },
        ExchangeEvent::ToolResult {
            ts_ms,
            tool_use_id,
            tool_name,
            status,
            result,
            error,
            session_id,
            turn_index,
        } => {
            let head = line_head("tool_result"@, ts_ms);
            let one = head.push(("tool_use_id"@, JsonTree::Text(tool_use_id@)));
            let two = one.push(("tool_name"@, JsonTree::Text(tool_name@)));
            let three = two.push(("status"@, JsonTree::Text(status_wire(status))));
            let four = with_optional(three, "result"@, opt_text_tree(result));
            let five = with_optional(four, "error"@, opt_text_tree(error));
            lemma_head("tool_result"@, ts_ms);
            lemma_added(head, "tool_use_id"@, JsonTree::Text(tool_use_id@));
            lemma_added(one, "tool_name"@, JsonTree::Text(tool_name@));
            lemma_added(two, "status"@, JsonTree::Text(status_wire(status)));
            lemma_optional(three, "result"@, opt_text_tree(result));
            lemma_optional(four, "error"@, opt_text_tree(error));
            lemma_turn(five, session_id, turn_index);
            assert(field(v, "event"@) == Some(JsonValue::Text("tool_result"@)));
            assert(field(v, "status"@) == Some(JsonValue::Text(status_wire(status))));
        },
        ExchangeEvent::SessionStart { ts_ms, session_id } => {
            let head = line_head("session_start"@, ts_ms);
            lemma_head("session_start"@, ts_ms);
            lemma_added(head, "session_id"@, JsonTree::Text(session_id@));
            assert(field(v, "event"@) == Some(JsonValue::Text("session_start"@)));
        },
        ExchangeEvent::SessionEnd { ts_ms, session_id, turns } => {
            let head = line_head("session_end"@, ts_ms);
            let one = head.push(("session_id"@, JsonTree::Text(session_id@)));
            lemma_head("session_end"@, ts_ms);
            lemma_added(head, "session_id"@, JsonTree::Text(session_id@));
            lemma_added(one, "turns"@, JsonTree::Number(NumberTree::Unsigned(turns)));
            assert(field(v, "event"@) == Some(JsonValue::Text("session_end"@)));
        },
    }
}

// ---------------------------------------------------------------------------
// Whole trails

/// The bytes of a trail that holds `events`, one line each.
pub open spec fn trail_bytes(events: Seq<ExchangeEvent>) -> Seq<u8>
    decreases events.len(),
{
    if events.len() == 0 {
        seq![]
    } else {
        encode_utf8(line_text(events[0]) + "\n"@) + trail_bytes(events.drop_first())
    }
}

/// Whether the line of an event is promised to read back: its tool arguments
/// nest no deeper than the reader goes, repeat no key, and hold integers only.
pub open spec fn is_recordable(event: ExchangeEvent) -> bool {
    readable(event_tree(event), max_depth())
}

/// Whether `bytes` are the trail of `events`, each of them recordable.
pub open spec fn is_trail_of(bytes: Seq<u8>, events: Seq<ExchangeEvent>) -> bool {
    &&& bytes == trail_bytes(events)
    &&& forall|i: int| 0 <= i < events.len() ==> is_recordable(#[trigger] events[i])
}

/// The lines of `events`, numbered from `line_no` on.
pub open spec fn numbered_lines(
    events: Seq<ExchangeEvent>,
    line_no: nat,
    sessions: bool,
) -> Seq<(nat, LineView)> {
    Seq::new(events.len(), |i: int| ((line_no + i) as nat, read_as(events[i]@, sessions)))
}

/// A trail grows by the line of each event that is written to it.
pub proof fn law_trail_grows_by_its_lines(events: Seq<ExchangeEvent>, event: ExchangeEvent)
    ensures
        trail_bytes(events.push(event)) == trail_bytes(events) + encode_utf8(
            line_text(event) + "\n"@,
        ),
    decreases events.len(),
{
    let more = events.push(event);
    let line = encode_utf8(line_text(event) + "\n"@);
    if events.len() == 0 {
        assert(more.drop_first() =~= Seq::<ExchangeEvent>::empty());
        assert(trail_bytes(more.drop_first()) =~= Seq::<u8>::empty());
        assert(trail_bytes(more) =~= trail_bytes(events) + line);
    } else {
        law_trail_grows_by_its_lines(events.drop_first(), event);
        assert(more.drop_first() =~= events.drop_first().push(event));
        assert(trail_bytes(more) =~= trail_bytes(events) + line);
    }
}

/// The first line of a trail is that of its first event, and is not blank.
proof fn lemma_first_event(events: Seq<ExchangeEvent>)
    requires
        events.len() > 0,
        is_recordable(events[0]),
    ensures
        ({
            let bytes = trail_bytes(events);
            let line = encode_utf8(line_text(events[0]) + "\n"@);
            &&& bytes.len() > 0
            &&& first_line(bytes) == line.len()
            &&& bytes.take(line.len() as int) == line
            &&& bytes.skip(line.len() as int) == trail_bytes(events.drop_first())
            &&& !is_blank_line(line)
            &&& is_line_of(event_tree(events[0]), line)
        }),
{
    let bytes = trail_bytes(events);
    let text = line_text(events[0]);
    let line = encode_utf8(text + "\n"@);
    reveal_strlit("\n");
    lemma_encode_concat(text, "\n"@);
    law_readable_text_is_one_line(event_tree(events[0]), max_depth());
    lemma_one_line_bytes(text);
    assert(is_ascii_chars("\n"@));
    is_ascii_chars_encode_utf8("\n"@);
    let n = encode_utf8(text).len();
    assert(encode_utf8("\n"@).len() == 1);
    assert(line.len() == n + 1);
    assert(line[n as int] == 10);
    assert(text[0] == '{');
    let brace = '{' as u32;
    assert(brace == 0x7b);
    assert((0x7bu32 & 0x7f) as u8 == 0x7b) by (bit_vector);
    assert(encode_utf8(text)[0] == 0x7b);
    assert(line[0] == 0x7b);
    assert(!is_space_byte(line[0]));
    assert forall|i: int| 0 <= i < line.len() - 1 implies bytes[i] != 10 by {
        assert(bytes[i] == encode_utf8(text)[i]);
    }
    assert(bytes[line.len() - 1] == 10);
    lemma_first_line(bytes, line.len());
    assert(bytes.take(line.len() as int) =~= line);
    assert(bytes.skip(line.len() as int) =~= trail_bytes(events.drop_first()));
}

/// A trail reads back as the events that were written to it, line by line.
pub proof fn law_trail_reads_back(
    bytes: Seq<u8>,
    events: Seq<ExchangeEvent>,
    line_no: nat,
    sessions: bool,
)
    requires
        is_trail_of(bytes, events),
        is_faithful_trail(bytes, sessions),
    ensures
        scan(bytes, line_no, sessions) == Ok::<LinesView, Seq<char>>(
            LinesView { lines: numbered_lines(events, line_no, sessions), torn: None },
        ),
    decreases events.len(),
{
    if events.len() == 0 {
        assert(numbered_lines(events, line_no, sessions) =~= Seq::<(nat, LineView)>::empty());
    } else {
        let line = encode_utf8(line_text(events[0]) + "\n"@);
        let rest = events.drop_first();
        assert(is_recordable(events[0]));
        lemma_first_event(events);
        law_event_reads_back(events[0], sessions);
        assert(is_faithful(line));
        assert(line_value(line) == Ok::<JsonValue, Seq<char>>(value(event_tree(events[0]))));
        assert forall|i: int| 0 <= i < rest.len() implies is_recordable(#[trigger] rest[i]) by {
            assert(is_recordable(events[i + 1]));
        }
        law_trail_reads_back(trail_bytes(rest), rest, line_no + 1, sessions);
        let first = seq![(line_no, read_as(events[0]@, sessions))];
        let more = numbered_lines(rest, line_no + 1, sessions);
        let all = numbered_lines(events, line_no, sessions);
        assert(first + more =~= all) by {
            assert forall|i: int| 0 <= i < events.len() implies (first + more)[i]
                == #[trigger] all[i] by {
                if i > 0 {
                    assert(rest[i - 1] == events[i]);
                }
            }
        }
    }
}

// ---------------------------------------------------------------------------
// Envelopes

proof fn lemma_envelope_keys()
    ensures
        mark("message_id"@) == (10nat, 'm', 'e'),
        mark("conversation_id"@) == (15nat, 'c', 'o'),
        mark("from"@) == (4nat, 'f', 'r'),
        mark("to"@) == (2nat, 't', 'o'),
        mark("in_reply_to"@) == (11nat, 'i', 'n'),
        mark("body"@) == (4nat, 'b', 'o'),
        mark("exchange"@) == (8nat, 'e', 'x'),
        mark("outcome"@) == (7nat, 'o', 'u'),
{
    reveal_strlit("message_id");
    reveal_strlit("conversation_id");
    reveal_strlit("from");
    reveal_strlit("to");
    reveal_strlit("in_reply_to");
    reveal_strlit("body");
    reveal_strlit("exchange");
    reveal_strlit("outcome");
}

/// A nested request record reads back as it was written.
proof fn lemma_nested_request(request: RequestRecord)
    ensures
        decode_request(value(request_record_tree(request))) == Ok::<
            RequestView,
            Seq<char>,
        >(request@),
{
    let none: Seq<(Seq<char>, JsonTree)> = seq![];
    let time = JsonTree::Number(NumberTree::Unsigned(request.ts_ms));
    let head = seq![("ts_ms"@, time)];
    assert(head =~= none.push(("ts_ms"@, time)));
    lemma_keys();
    lemma_empty();
    lemma_added(none, "ts_ms"@, time);
    lemma_request_reads_back(head, request);
}

/// A nested outcome reads back as it was written.
proof fn lemma_nested_outcome(outcome: Outcome)
    ensures
        decode_outcome(value(outcome_tree(outcome))) == Ok::<OutcomeView, Seq<char>>(
            outcome@,
        ),
{
    let none: Seq<(Seq<char>, JsonTree)> = seq![];
    let time = JsonTree::Number(NumberTree::Unsigned(outcome_time(outcome)));
    let word = JsonTree::Text(outcome_event(outcome));
    let head = seq![("event"@, word), ("ts_ms"@, time)];
    assert(head =~= none.push(("event"@, word)).push(("ts_ms"@, time)));
    lemma_keys();
    lemma_words();
    lemma_empty();
    lemma_added(none, "event"@, word);
    lemma_added(none.push(("event"@, word)), "ts_ms"@, time);
    lemma_outcome_members(head, outcome);
    lemma_outcome_reads_back(head, outcome);
    let v = value(outcome_tree(outcome));
    assert(forall|k: Seq<char>| #[trigger] field(v, k) == member(outcome_members(head, outcome), k));
    assert(field(v, "event"@) == Some(JsonValue::Text(outcome_event(outcome))));
}

/// A wrapped record reads back as it was written.
proof fn lemma_wrapped(wrapped: WrappedExchange)
    ensures
        decode_wrapped(value(wrapped_tree(wrapped))) == Ok::<WrappedView, Seq<char>>(
            wrapped@,
        ),
{
    let none: Seq<(Seq<char>, JsonTree)> = seq![];
    let request = request_record_tree(wrapped.exchange.request);
    let outcome = outcome_tree(wrapped.exchange.outcome);
    let inner = none.push(("request"@, request)).push(("outcome"@, outcome));
    let schema = JsonTree::Text(wrapped.schema@);
    let members = none.push(("schema"@, schema)).push(("exchange"@, JsonTree::Object(inner)));
    lemma_keys();
    lemma_words();
    lemma_envelope_keys();
    lemma_empty();
    lemma_added(none, "request"@, request);
    lemma_added(none.push(("request"@, request)), "outcome"@, outcome);
    lemma_added(none, "schema"@, schema);
    lemma_added(none.push(("schema"@, schema)), "exchange"@, JsonTree::Object(inner));
    assert(inner =~= seq![("request"@, request), ("outcome"@, outcome)]);
    assert(wrapped_tree(wrapped)->Object_0 =~= members);
    let v = value(wrapped_tree(wrapped));
    assert(forall|k: Seq<char>| #[trigger] field(v, k) == member(members, k));
    assert(forall|k: Seq<char>| #[trigger]
        field(value(JsonTree::Object(inner)), k) == member(inner, k));
    lemma_nested_request(wrapped.exchange.request);
    lemma_nested_outcome(wrapped.exchange.outcome);
    assert(field(v, "exchange"@) == Some(value(JsonTree::Object(inner))));
    assert(member(inner, "request"@) == Some(value(request)));
    assert(member(inner, "outcome"@) == Some(value(outcome)));
}

/// An envelope reads back as it was written.
pub proof fn law_envelope_reads_back(envelope: MessageEnvelope)
    ensures
        decode_envelope(value(envelope_tree(envelope))) == Ok::<
            EnvelopeView,
            Seq<char>,
        >(envelope@),
{
    let none: Seq<(Seq<char>, JsonTree)> = seq![];
    let in_reply_to = match envelope.in_reply_to {
        Some(id) => JsonTree::Text(id@),
        None => JsonTree::Null,
    };
    let kind = JsonTree::Text(kind_wire(envelope.kind));
    let time = JsonTree::Number(NumberTree::Unsigned(envelope.ts_ms));
    let exchange = match envelope.exchange {
        Some(wrapped) => wrapped_tree(wrapped),
        None => JsonTree::Null,
    };
    let m1 = none.push(("schema"@, JsonTree::Text(envelope.schema@)));
    let m2 = m1.push(("message_id"@, JsonTree::Text(envelope.message_id@)));
    let m3 = m2.push(("conversation_id"@, JsonTree::Text(envelope.conversation_id@)));
    let m4 = m3.push(("from"@, JsonTree::Text(envelope.from@)));
    let m5 = m4.push(("to"@, JsonTree::Text(envelope.to@)));
    let m6 = m5.push(("in_reply_to"@, in_reply_to));
    let m7 = m6.push(("kind"@, kind));
    let m8 = m7.push(("body"@, JsonTree::Text(envelope.body@)));
    let m9 = m8.push(("ts_ms"@, time));
    let members = m9.push(("exchange"@, exchange));
    lemma_keys();
    lemma_words();
    lemma_envelope_keys();
    lemma_empty();
    lemma_added(none, "schema"@, JsonTree::Text(envelope.schema@));
    lemma_added(m1, "message_id"@, JsonTree::Text(envelope.message_id@));
    lemma_added(m2, "conversation_id"@, JsonTree::Text(envelope.conversation_id@));
    lemma_added(m3, "from"@, JsonTree::Text(envelope.from@));
    lemma_added(m4, "to"@, JsonTree::Text(envelope.to@));
    lemma_added(m5, "in_reply_to"@, in_reply_to);
    lemma_added(m6, "kind"@, kind);
    lemma_added(m7, "body"@, JsonTree::Text(envelope.body@));
    lemma_added(m8, "ts_ms"@, time);
    lemma_added(m9, "exchange"@, exchange);
    assert(envelope_tree(envelope)->Object_0 =~= members);
    let v = value(envelope_tree(envelope));
    assert(forall|k: Seq<char>| #[trigger] field(v, k) == member(members, k));
    assert(field(v, "exchange"@) == Some(value(exchange)));
    assert(field(v, "in_reply_to"@) == Some(value(in_reply_to)));
    assert(field(v, "kind"@) == Some(JsonValue::Text(kind_wire(envelope.kind))));
    if let Some(wrapped) = envelope.exchange {
        lemma_wrapped(wrapped);
    }
}

} // verus!
