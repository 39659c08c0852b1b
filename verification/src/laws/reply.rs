//! What is read out of the provider's answers.

use vstd::prelude::*;

use crate::error::{LegError, Result};
use crate::json::{field, parsed, value, JsonValue, NumberTree};
use crate::laws::layout::{is_joined, law_join_lays_out_every_part, lemma_joined_push};
use crate::laws::request::{is_wire_form, law_blocks_read_from_their_wire_form, says};
use crate::model::{text_of_blocks, AssistantReply, BlockView, StopView};
use crate::text::{opt_view, trimmed};
use crate::transport::claude::{
    decode_reply, error_details, is_kept, is_response, kept_blocks, says_something,
};
use crate::wire::decode_block;

verus! {

/// The blocks that a successful response lists.
pub open spec fn blocks_in(v: JsonValue) -> Seq<JsonValue> {
    match field(v, "content"@) {
        Some(JsonValue::List(items)) => items,
        _ => Seq::empty(),
    }
}

/// Whether a block is a text or a tool request.
pub open spec fn counts_for_reply(item: JsonValue) -> bool {
    says(item, "type"@, "text"@) || says(item, "type"@, "tool_use"@)
}

/// Whether `item` is the wire form of no block.
pub open spec fn is_formless(item: JsonValue) -> bool {
    forall|block: BlockView| !#[trigger] is_wire_form(item, block)
}

/// Whether `content` is the texts and the tool requests of `items`, in order, whose
/// places are `places`.
pub open spec fn are_kept(
    items: Seq<JsonValue>,
    content: Seq<BlockView>,
    places: Seq<int>,
) -> bool {
    &&& content.len() == places.len()
    &&& forall|k: int|
        0 <= k < places.len() ==> {
            &&& 0 <= #[trigger] places[k] < items.len()
            &&& counts_for_reply(items[places[k]])
            &&& is_wire_form(items[places[k]], content[k])
        }
    &&& forall|k: int, l: int| 0 <= k < l < places.len() ==> places[k] < places[l]
    &&& forall|i: int|
        0 <= i < items.len() && counts_for_reply(#[trigger] items[i]) ==> places.contains(i)
}

proof fn lemma_kept(items: Seq<JsonValue>, n: nat) -> (places: Seq<int>)
    requires
        n <= items.len(),
    ensures
        kept_blocks(items, n) matches Ok(content) ==> are_kept(
            items.take(n as int),
            content,
            places,
        ),
        kept_blocks(items, n) is Err ==> exists|i: int|
            0 <= i < n && counts_for_reply(#[trigger] items[i]) && is_formless(items[i]),
    decreases n,
{
    if n == 0 {
        Seq::empty()
    } else {
        let before = lemma_kept(items, (n - 1) as nat);
        let item = items[n - 1];
        let front = items.take(n - 1);
        let all = items.take(n as int);
        match kept_blocks(items, (n - 1) as nat) {
            Err(_) => {
                let i = choose|i: int|
                    0 <= i < n - 1 && counts_for_reply(#[trigger] items[i]) && is_formless(
                        items[i],
                    );
                assert(counts_for_reply(items[i]));
                before
            },
            Ok(content) => {
                if !is_kept(item) {
                    assert(!counts_for_reply(item));
                    assert forall|k: int| 0 <= k < before.len() implies {
                        &&& 0 <= #[trigger] before[k] < all.len()
                        &&& counts_for_reply(all[before[k]])
                        &&& is_wire_form(all[before[k]], content[k])
                    } by {
                        assert(front[before[k]] == all[before[k]]);
                    }
                    assert forall|i: int|
                        0 <= i < all.len() && counts_for_reply(#[trigger] all[i]) implies
                        before.contains(i) by {
                        assert(i < front.len());
                        assert(front[i] == all[i]);
                    }
                    before
                } else {
                    match decode_block(item) {
                        Err(_) => {
                            assert forall|block: BlockView| !#[trigger] is_wire_form(
                                item,
                                block,
                            ) by {
                                law_blocks_read_from_their_wire_form(item, block);
                            }
                            assert(counts_for_reply(items[n - 1]));
                            before
                        },
                        Ok(block) => {
                            law_blocks_read_from_their_wire_form(item, block);
                            let places = before.push(n - 1);
                            let more = content.push(block);
                            assert forall|k: int| 0 <= k < places.len() implies {
                                &&& 0 <= #[trigger] places[k] < all.len()
                                &&& counts_for_reply(all[places[k]])
                                &&& is_wire_form(all[places[k]], more[k])
                            } by {
                                if k < before.len() {
                                    assert(places[k] == before[k]);
                                    assert(front[before[k]] == all[before[k]]);
                                } else {
                                    assert(all[n - 1] == item);
                                }
                            }
                            assert forall|i: int|
                                0 <= i < all.len() && counts_for_reply(#[trigger] all[i]) implies
                                places.contains(i) by {
                                if i < front.len() {
                                    assert(front[i] == all[i]);
                                    assert(before.contains(i));
                                    let k = choose|k: int|
                                        0 <= k < before.len() && before[k] == i;
                                    assert(places[k] == i);
                                } else {
                                    assert(places[before.len() as int] == i);
                                }
                            }
                            places
                        },
                    }
                }
            },
        }
    }
}

/// Whether `places` are all the places of texts in `blocks`, in order.
pub open spec fn are_texts(blocks: Seq<BlockView>, places: Seq<int>) -> bool {
    &&& forall|k: int|
        0 <= k < places.len() ==> 0 <= #[trigger] places[k] < blocks.len()
            && blocks[places[k]] is Text
    &&& forall|k: int, l: int| 0 <= k < l < places.len() ==> places[k] < places[l]
    &&& forall|i: int|
        0 <= i < blocks.len() && #[trigger] blocks[i] is Text ==> places.contains(i)
}

/// The texts at `places`.
pub open spec fn texts_at(blocks: Seq<BlockView>, places: Seq<int>) -> Seq<Seq<char>> {
    Seq::new(places.len(), |k: int| blocks[places[k]]->Text_text)
}

proof fn lemma_texts(blocks: Seq<BlockView>) -> (places: Seq<int>)
    ensures
        are_texts(blocks, places),
        is_joined(text_of_blocks(blocks), texts_at(blocks, places), seq![]),
    decreases blocks.len(),
{
    if blocks.len() == 0 {
        let none = Seq::<int>::empty();
        law_join_lays_out_every_part(texts_at(blocks, none), seq![]);
        assert(texts_at(blocks, none) =~= Seq::<Seq<char>>::empty());
        none
    } else {
        let front = blocks.drop_last();
        let before = lemma_texts(front);
        let places = if blocks.last() is Text {
            before.push(blocks.len() - 1)
        } else {
            before
        };
        assert forall|k: int| 0 <= k < places.len() implies 0 <= #[trigger] places[k]
            < blocks.len() && blocks[places[k]] is Text by {
            if k < before.len() {
                assert(places[k] == before[k]);
                assert(front[before[k]] == blocks[before[k]]);
            }
        }
        assert forall|i: int|
            0 <= i < blocks.len() && #[trigger] blocks[i] is Text implies places.contains(i) by {
            if i < front.len() {
                assert(front[i] == blocks[i]);
                assert(before.contains(i));
                let k = choose|k: int| 0 <= k < before.len() && before[k] == i;
                assert(places[k] == i);
            } else {
                assert(places[before.len() as int] == i);
            }
        }
        assert(texts_at(blocks, before) =~= texts_at(front, before)) by {
            assert forall|k: int| 0 <= k < before.len() implies blocks[before[k]]
                == front[before[k]] by {
                assert(0 <= before[k] < front.len());
            }
        }
        if blocks.last() is Text {
            let text = blocks.last()->Text_text;
            let said = text_of_blocks(front);
            lemma_joined_push(said, texts_at(front, before), seq![], text);
            assert(texts_at(blocks, places) =~= texts_at(front, before).push(text)) by {
                assert forall|k: int| 0 <= k < before.len() implies places[k] == before[k] by {}
                assert forall|k: int| 0 <= k < before.len() implies blocks[before[k]]
                    == front[before[k]] by {
                    assert(0 <= before[k] < front.len());
                }
            }
            assert(said + seq![] + text =~= said + text);
            if before.len() == 0 {
                lemma_no_text(front);
                assert(said + text =~= text);
            }
        }
        places
    }
}

proof fn lemma_no_text(blocks: Seq<BlockView>)
    requires
        forall|i: int| 0 <= i < blocks.len() ==> !(#[trigger] blocks[i] is Text),
    ensures
        text_of_blocks(blocks) == Seq::<char>::empty(),
    decreases blocks.len(),
{
    if blocks.len() > 0 {
        assert(!(blocks[blocks.len() - 1] is Text));
        lemma_no_text(blocks.drop_last());
    }
}

/// The text of blocks is that of all their texts, in order, and of nothing else.
pub proof fn law_the_text_is_that_of_all_texts(blocks: Seq<BlockView>)
    ensures
        exists|places: Seq<int>| #[trigger]
            are_texts(blocks, places) && is_joined(
                text_of_blocks(blocks),
                texts_at(blocks, places),
                seq![],
            ),
{
    let places = lemma_texts(blocks);
}

/// Whether the member `key` of `usage` gives `count`.
pub open spec fn uses(usage: Option<JsonValue>, key: Seq<char>, count: Option<u64>) -> bool {
    match usage {
        Some(JsonValue::Object(members)) => match count {
            Some(n) => field(JsonValue::Object(members), key) == Some(
                JsonValue::Number(NumberTree::Unsigned(n)),
            ),
            None => field(JsonValue::Object(members), key) is None || field(
                JsonValue::Object(members),
                key,
            ) == Some(JsonValue::Null),
        },
        _ => count is None,
    }
}

/// Whether `stop` is the reason that the word of a response stands for.
pub open spec fn is_stop(word: Option<JsonValue>, stop: Option<StopView>) -> bool {
    match stop {
        None => word is None || word == Some(JsonValue::Null),
        Some(StopView::EndTurn) => word == Some(JsonValue::Text("end_turn"@)),
        Some(StopView::MaxTokens) => word == Some(JsonValue::Text("max_tokens"@)),
        Some(StopView::StopSequence) => word == Some(JsonValue::Text("stop_sequence"@)),
        Some(StopView::ToolUse) => word == Some(JsonValue::Text("tool_use"@)),
        Some(StopView::PauseTurn) => word == Some(JsonValue::Text("pause_turn"@)),
        Some(StopView::Refusal) => word == Some(JsonValue::Text("refusal"@)),
        Some(StopView::Other(other)) => word == Some(JsonValue::Text(other)) && other != "end_turn"@
            && other != "max_tokens"@ && other != "stop_sequence"@ && other != "tool_use"@ && other
            != "pause_turn"@ && other != "refusal"@,
    }
}

/// A reply is what its response says: its texts and tool requests in order, their
/// text, the tokens used, and why it stopped. It is never empty.
pub proof fn law_replies_say_what_the_response_says(v: JsonValue)
    ensures
        decode_reply(v) matches Ok(reply) ==> {
            &&& exists|places: Seq<int>| #[trigger] are_kept(blocks_in(v), reply.content, places)
            &&& exists|places: Seq<int>| #[trigger]
                are_texts(reply.content, places) && is_joined(
                    reply.text,
                    texts_at(reply.content, places),
                    seq![],
                )
            &&& uses(field(v, "usage"@), "input_tokens"@, reply.usage.input_tokens)
            &&& uses(field(v, "usage"@), "output_tokens"@, reply.usage.output_tokens)
            &&& is_stop(field(v, "stop_reason"@), reply.stop_reason)
            &&& exists|i: int|
                0 <= i < reply.content.len() && (#[trigger] reply.content[i] is ToolUse || (
                reply.content[i] is Text && reply.content[i]->Text_text.len() > 0))
        },
{
    if let Ok(reply) = decode_reply(v) {
        let items = blocks_in(v);
        let places = lemma_kept(items, items.len());
        assert(items.take(items.len() as int) =~= items);
        assert(kept_blocks(items, items.len()) == Ok::<Seq<BlockView>, Seq<char>>(reply.content));
        assert(are_kept(items, reply.content, places));
        law_the_text_is_that_of_all_texts(reply.content);
        let i = choose|i: int|
            0 <= i < reply.content.len() && match #[trigger] reply.content[i] {
                BlockView::Text { text } => text.len() > 0,
                BlockView::ToolUse { .. } => true,
                _ => false,
            };
        assert(reply.content[i] is ToolUse || reply.content[i] is Text);
    }
}

/// A response is read as a reply wherever it lists its blocks, each text and tool
/// request among them is whole, it says something, and its usage and its stop reason
/// are absent or of their kind.
pub proof fn law_whole_responses_are_read(v: JsonValue)
    requires
        v is Object,
        field(v, "content"@) matches Some(JsonValue::List(_)),
        field(v, "usage"@) is None,
        field(v, "stop_reason"@) is None || field(v, "stop_reason"@).unwrap() is Text,
        forall|i: int|
            0 <= i < blocks_in(v).len() && counts_for_reply(#[trigger] blocks_in(v)[i]) ==> !is_formless(
                blocks_in(v)[i],
            ),
        exists|i: int|
            0 <= i < blocks_in(v).len() && says(#[trigger] blocks_in(v)[i], "type"@, "tool_use"@),
    ensures
        decode_reply(v) is Ok,
{
    let items = blocks_in(v);
    let places = lemma_kept(items, items.len());
    assert(items.take(items.len() as int) =~= items);
    if kept_blocks(items, items.len()) is Err {
        let i = choose|i: int|
            0 <= i < items.len() && counts_for_reply(#[trigger] items[i]) && is_formless(items[i]);
        assert(counts_for_reply(blocks_in(v)[i]));
    } else {
        let content = kept_blocks(items, items.len())->Ok_0;
        let i = choose|i: int|
            0 <= i < blocks_in(v).len() && says(#[trigger] blocks_in(v)[i], "type"@, "tool_use"@);
        assert(counts_for_reply(items[i]));
        assert(places.contains(i));
        let k = choose|k: int| 0 <= k < places.len() && places[k] == i;
        assert(is_wire_form(items[places[k]], content[k]));
        crate::laws::request::reveal_block_words();
        assert(content[k] is ToolUse);
        assert(says_something(content));
    }
}

/// The message of a failure, its type in front where there is one.
pub open spec fn with_type(error_type: Option<Seq<char>>, message: Seq<char>) -> Seq<char> {
    if error_type is Some {
        error_type.unwrap() + ": "@ + message
    } else {
        message
    }
}

/// A response is a reply exactly where its status is a success. Of a failure the status
/// tells the kind: too many requests, a bad credential, a fault of the server, or
/// anything else; but a rate limit is one under every status. Its message is kept.
pub proof fn law_statuses_tell_failures_apart(
    status: u16,
    body: Seq<char>,
    result: Result<AssistantReply>,
)
    requires
        is_response(status, body, result),
    ensures
        ({
            let (kind, message) = error_details(body);
            let limited = status == 429 || kind == Some("rate_limit_error"@);
            if 200 <= status <= 299 {
                result matches Err(error) ==> error is Decode
            } else {
                &&& result is Err
                &&& limited ==> (result->Err_0 matches LegError::RateLimited(text) && text@
                    == with_type(kind, message))
                &&& !limited && status == 401 ==> (result->Err_0 matches LegError::Auth(text)
                    && text@ == with_type(kind, message))
                &&& !limited && 500 <= status <= 599 ==> (result->Err_0 matches LegError::Server {
                    status: s,
                    error_type: t,
                    message: m,
                } && s == status && opt_view(t) == kind && m@ == message)
                &&& !limited && status != 401 && !(500 <= status <= 599) ==> (
                result->Err_0 matches LegError::Api { status: s, error_type: t, message: m } && s
                    == status && opt_view(t) == kind && m@ == message)
            }
        }),
{
}

/// The details of a failure are those that its body names, and else the body itself.
pub proof fn law_failures_say_what_the_body_says(body: Seq<char>)
    ensures
        ({
            let (kind, message) = error_details(body);
            let named = parsed(body) is Ok && (field(
                value(parsed(body)->Ok_0),
                "error"@,
            ) matches Some(error) && (exists|text: Seq<char>| #[trigger] says(error, "message"@, text))
                && (field(error, "type"@) is None || field(error, "type"@) == Some(JsonValue::Null)
                || field(error, "type"@).unwrap() is Text));
            if named {
                let error = field(value(parsed(body)->Ok_0), "error"@).unwrap();
                &&& says(error, "message"@, message)
                &&& match kind {
                    Some(word) => says(error, "type"@, word),
                    None => field(error, "type"@) is None || field(error, "type"@) == Some(
                        JsonValue::Null,
                    ),
                }
            } else {
                &&& kind is None
                &&& message == if trimmed(body).len() == 0 {
                    "no response body"@
                } else {
                    trimmed(body)
                }
            }
        }),
{
}

} // verus!
