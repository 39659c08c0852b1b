//! What the lines of a trail say, and what recorded turns put back into a conversation.

use vstd::prelude::*;

use crate::events::{OutcomeView, RequestView, ToolCallView, ToolResultView, ToolStatus};
use crate::json::{field, JsonValue};
use crate::laws::request::{is_wire_form, law_blocks_read_from_their_wire_form, says};
use crate::laws::tools::{counts, gives_count};
use crate::laws::turns::are_requests;
use crate::log::{decode_line, LineView, PairView, TurnView};
use crate::model::{BlockView, MessageView, Role};
use crate::session::{
    call_place, completed_turns, history_of, recorded_result, recorded_results, recorded_rounds,
    session_reply, turn_history,
};
use crate::wire::{
    decode_blocks, decode_call, decode_failure, decode_request, decode_result, decode_round,
    decode_success,
};

verus! {

/// Whether the optional member `key` of `v` gives `text`; a `null` gives none.
pub open spec fn gives_text(v: JsonValue, key: Seq<char>, text: Option<Seq<char>>) -> bool {
    match text {
        Some(t) => says(v, key, t),
        None => field(v, key) is None || field(v, key) == Some(JsonValue::Null),
    }
}

/// Whether `found` lists the wire forms of `blocks`, all of them and in order.
pub open spec fn lists_blocks(found: Option<JsonValue>, blocks: Seq<BlockView>) -> bool {
    found matches Some(JsonValue::List(items)) && items.len() == blocks.len() && forall|i: int|
        0 <= i < items.len() ==> is_wire_form(#[trigger] items[i], blocks[i])
}

proof fn lemma_blocks_listed(items: Seq<JsonValue>, n: nat)
    requires
        n <= items.len(),
    ensures
        decode_blocks(items, n) matches Ok(blocks) ==> blocks.len() == n && forall|i: int|
            0 <= i < n ==> is_wire_form(#[trigger] items[i], blocks[i]),
    decreases n,
{
    if n > 0 {
        lemma_blocks_listed(items, (n - 1) as nat);
        if let Ok(blocks) = decode_blocks(items, n) {
            let before = decode_blocks(items, (n - 1) as nat)->Ok_0;
            law_blocks_read_from_their_wire_form(items[n - 1], blocks[n - 1]);
            assert forall|i: int| 0 <= i < n implies is_wire_form(
                #[trigger] items[i],
                blocks[i],
            ) by {
                if i < n - 1 {
                    assert(blocks[i] == before[i]);
                }
            }
        }
    }
}

/// Whether the member `content` of `v` gives the blocks of a turn, where there are any.
pub open spec fn gives_blocks(v: JsonValue, content: Option<Seq<BlockView>>) -> bool {
    match content {
        Some(blocks) => lists_blocks(field(v, "content"@), blocks),
        None => field(v, "content"@) is None || field(v, "content"@) == Some(JsonValue::Null),
    }
}

proof fn lemma_content(v: JsonValue)
    ensures
        crate::wire::content_field(v) matches Ok(content) ==> gives_blocks(v, content),
        decode_round(v) matches Ok(blocks) ==> lists_blocks(field(v, "content"@), blocks),
{
    if let Some(JsonValue::List(items)) = field(v, "content"@) {
        lemma_blocks_listed(items, items.len());
    }
}

/// A request line says when and what was asked, of which model and where, and in which
/// turn of which session.
pub proof fn law_requests_are_read_member_by_member(v: JsonValue)
    ensures
        decode_request(v) matches Ok(request) ==> {
            &&& counts(v, "ts_ms"@, request.ts_ms)
            &&& says(v, "model"@, request.model)
            &&& says(v, "base_url"@, request.base_url)
            &&& says(v, "prompt"@, request.prompt)
            &&& gives_blocks(v, request.content)
            &&& gives_text(v, "session_id"@, request.session_id)
            &&& gives_count(v, "turn_index"@, request.turn_index)
        },
{
    lemma_content(v);
}

/// An outcome line says when it came and how long it took, and what the reply or the
/// failure was.
pub proof fn law_outcomes_are_read_member_by_member(v: JsonValue)
    ensures
        decode_success(v) matches Ok(outcome) ==> (outcome matches OutcomeView::Success {
            ts_ms,
            duration_ms,
            reply,
            content,
            input_tokens,
            output_tokens,
            stop_reason,
            session_id,
            turn_index,
        } && counts(v, "ts_ms"@, ts_ms) && counts(v, "duration_ms"@, duration_ms) && says(
            v,
            "reply"@,
            reply,
        ) && gives_blocks(v, content) && gives_count(v, "input_tokens"@, input_tokens)
            && gives_count(v, "output_tokens"@, output_tokens) && gives_text(
            v,
            "stop_reason"@,
            stop_reason,
        ) && gives_text(v, "session_id"@, session_id) && gives_count(v, "turn_index"@, turn_index)),
        decode_failure(v) matches Ok(outcome) ==> (outcome matches OutcomeView::Error {
            ts_ms,
            duration_ms,
            kind,
            message,
            session_id,
            turn_index,
        } && counts(v, "ts_ms"@, ts_ms) && counts(v, "duration_ms"@, duration_ms) && says(
            v,
            "kind"@,
            kind,
        ) && says(v, "message"@, message) && gives_text(v, "session_id"@, session_id)
            && gives_count(v, "turn_index"@, turn_index)),
{
    lemma_content(v);
}

/// The word of a status.
pub open spec fn status_word(status: ToolStatus) -> Seq<char> {
    match status {
        ToolStatus::Completed => "completed"@,
        ToolStatus::Failed => "failed"@,
        ToolStatus::Denied => "denied"@,
    }
}

/// A tool line says which call it is about, and its arguments or what came of it.
pub proof fn law_tool_lines_are_read_member_by_member(v: JsonValue)
    ensures
        decode_call(v) matches Ok(call) ==> {
            &&& counts(v, "ts_ms"@, call.ts_ms)
            &&& says(v, "tool_use_id"@, call.tool_use_id)
            &&& says(v, "tool_name"@, call.tool_name) || (field(v, "tool_name"@) is None
                && call.tool_name.len() == 0)
            &&& field(v, "input"@) == Some(call.input) || (field(v, "input"@) is None && call.input
                == JsonValue::Null)
        },
        decode_result(v) matches Ok(result) ==> {
            &&& counts(v, "ts_ms"@, result.ts_ms)
            &&& says(v, "tool_use_id"@, result.tool_use_id)
            &&& says(v, "tool_name"@, result.tool_name) || (field(v, "tool_name"@) is None
                && result.tool_name.len() == 0)
            &&& says(v, "status"@, status_word(result.status))
            &&& gives_text(v, "result"@, result.result)
            &&& gives_text(v, "error"@, result.error)
        },
        decode_round(v) matches Ok(blocks) ==> lists_blocks(field(v, "content"@), blocks),
{
    lemma_content(v);
}

/// The word of its event tells what a line is, and the session and the number on a tool
/// line tell the turn that it belongs to. Any other line is passed over.
pub proof fn law_the_event_tells_what_a_line_is(v: JsonValue)
    ensures
        decode_line(v, true) matches Ok(line) ==> match line {
            LineView::Request(request) => says(v, "event"@, "request"@) && decode_request(v) == Ok::<
                RequestView,
                Seq<char>,
            >(request),
            LineView::Response(OutcomeView::Success { .. }) => says(v, "event"@, "response_ok"@)
                && decode_success(v) == Ok::<OutcomeView, Seq<char>>(line->Response_0),
            LineView::Response(OutcomeView::Error { .. }) => says(v, "event"@, "response_error"@)
                && decode_failure(v) == Ok::<OutcomeView, Seq<char>>(line->Response_0),
            LineView::Call { call, turn } => says(v, "event"@, "tool_call"@) && decode_call(v)
                == Ok::<ToolCallView, Seq<char>>(call) && is_turn_of(v, turn),
            LineView::Result { result, turn } => says(v, "event"@, "tool_result"@)
                && decode_result(v) == Ok::<ToolResultView, Seq<char>>(result) && is_turn_of(
                v,
                turn,
            ),
            LineView::Round { content, turn } => says(v, "event"@, "tool_round"@) && decode_round(v)
                == Ok::<Seq<BlockView>, Seq<char>>(content) && is_turn_of(v, turn),
            LineView::Start { session_id } => says(v, "event"@, "session_start"@) && says(
                v,
                "session_id"@,
                session_id,
            ),
            LineView::End { session_id, turns } => says(v, "event"@, "session_end"@) && says(
                v,
                "session_id"@,
                session_id,
            ) && counts(v, "turns"@, turns),
            LineView::Skipped => !says(v, "event"@, "request"@) && !says(
                v,
                "event"@,
                "response_ok"@,
            ) && !says(v, "event"@, "response_error"@) && !says(v, "event"@, "tool_call"@) && !says(
                v,
                "event"@,
                "tool_result"@,
            ) && !says(v, "event"@, "tool_round"@) && !says(v, "event"@, "session_start"@) && !says(
                v,
                "event"@,
                "session_end"@,
            ),
        },
        decode_line(v, false) matches Ok(line) ==> line is Skipped || Ok::<LineView, Seq<char>>(line)
            == decode_line(v, true),
{
    reveal_strlit("request");
    reveal_strlit("response_ok");
    reveal_strlit("response_error");
    reveal_strlit("tool_call");
    reveal_strlit("tool_result");
    reveal_strlit("tool_round");
    reveal_strlit("session_start");
    reveal_strlit("session_end");
    assert("request"@.len() == 7 && "response_ok"@.len() == 11 && "response_error"@.len() == 14
        && "tool_call"@.len() == 9 && "tool_result"@.len() == 11 && "tool_round"@.len() == 10
        && "session_start"@.len() == 13 && "session_end"@.len() == 11);
    assert("response_ok"@[0] == 'r' && "tool_result"@[0] == 't' && "session_end"@[0] == 's');
}

/// Whether `turn` is the turn that a line names, if it names one whole.
pub open spec fn is_turn_of(v: JsonValue, turn: Option<(Seq<char>, u64)>) -> bool {
    match turn {
        Some((id, index)) => says(v, "session_id"@, id) && counts(v, "turn_index"@, index),
        None => forall|id: Seq<char>, index: u64|
            !(#[trigger] says(v, "session_id"@, id) && #[trigger] counts(
                v,
                "turn_index"@,
                index,
            )),
    }
}

// ---------------------------------------------------------------------------
// What recorded turns put back

/// Whether `block` is the result that was recorded for the call `id`: that of the first
/// call of that id.
pub open spec fn is_recorded_result(tools: Seq<PairView>, id: Seq<char>, block: BlockView) -> bool {
    exists|i: int|
        {
            &&& 0 <= i < tools.len()
            &&& (#[trigger] tools[i]).call.tool_use_id == id
            &&& forall|k: int| 0 <= k < i ==> (#[trigger] tools[k]).call.tool_use_id != id
            &&& tools[i].result matches Some(result) && block == (BlockView::ToolResult {
                tool_use_id: id,
                content: match (if result.status == ToolStatus::Completed {
                    result.result
                } else {
                    result.error
                }) {
                    Some(text) => text,
                    None => Seq::empty(),
                },
                is_error: if result.status == ToolStatus::Completed {
                    None
                } else {
                    Some(true)
                },
            })
        }
}

proof fn lemma_call_place(tools: Seq<PairView>, id: Seq<char>)
    ensures
        call_place(tools, id) <= tools.len(),
        call_place(tools, id) < tools.len() ==> tools[call_place(
            tools,
            id,
        ) as int].call.tool_use_id == id,
        forall|k: int|
            0 <= k < call_place(tools, id) ==> (#[trigger] tools[k]).call.tool_use_id != id,
    decreases tools.len(),
{
    if tools.len() > 0 && tools[0].call.tool_use_id != id {
        let rest = tools.drop_first();
        lemma_call_place(rest, id);
        assert forall|k: int| 0 <= k < call_place(tools, id) implies (
        #[trigger] tools[k]).call.tool_use_id != id by {
            if k > 0 {
                assert(tools[k] == rest[k - 1]);
            }
        }
    }
}

/// Whether `results` are those recorded for the tool requests of `content`, in order.
pub open spec fn are_recorded_results(
    tools: Seq<PairView>,
    content: Seq<BlockView>,
    results: Seq<BlockView>,
) -> bool {
    exists|places: Seq<int>|
        {
            &&& #[trigger] are_requests(content, places)
            &&& results.len() == places.len()
            &&& forall|k: int|
                0 <= k < places.len() ==> is_recorded_result(
                    tools,
                    content[places[k]]->ToolUse_id,
                    #[trigger] results[k],
                )
        }
}

proof fn lemma_results(tools: Seq<PairView>, content: Seq<BlockView>) -> (places: Seq<int>)
    ensures
        recorded_results(tools, content) matches Some(results) ==> {
            &&& are_requests(content, places)
            &&& results.len() == places.len()
            &&& forall|k: int|
                0 <= k < places.len() ==> is_recorded_result(
                    tools,
                    content[places[k]]->ToolUse_id,
                    #[trigger] results[k],
                )
        },
    decreases content.len(),
{
    if content.len() == 0 {
        Seq::empty()
    } else {
        let front = content.drop_last();
        let before = lemma_results(tools, front);
        if recorded_results(tools, content) is None {
            before
        } else {
            let results = recorded_results(tools, content).unwrap();
            let earlier = recorded_results(tools, front).unwrap();
            let last = content.len() - 1;
            let places = if content.last() is ToolUse {
                before.push(last)
            } else {
                before
            };
            assert forall|k: int| 0 <= k < places.len() implies 0 <= #[trigger] places[k]
                < content.len() && content[places[k]] is ToolUse by {
                if k < before.len() {
                    assert(places[k] == before[k]);
                    assert(front[before[k]] == content[before[k]]);
                }
            }
            assert forall|i: int|
                0 <= i < content.len() && #[trigger] content[i] is ToolUse implies places.contains(
                i,
            ) by {
                if i < front.len() {
                    assert(front[i] == content[i]);
                    assert(before.contains(i));
                    let k = choose|k: int| 0 <= k < before.len() && before[k] == i;
                    assert(places[k] == i);
                } else {
                    assert(places[before.len() as int] == i);
                }
            }
            assert forall|k: int| 0 <= k < places.len() implies is_recorded_result(
                tools,
                content[places[k]]->ToolUse_id,
                #[trigger] results[k],
            ) by {
                if k < before.len() {
                    assert(places[k] == before[k]);
                    assert(0 <= before[k] < front.len());
                    assert(front[before[k]] == content[before[k]]);
                    assert(results[k] == earlier[k]);
                } else {
                    let id = content.last()->ToolUse_id;
                    lemma_call_place(tools, id);
                    let i = call_place(tools, id) as int;
                    assert(tools[i].call.tool_use_id == id);
                    assert(recorded_result(tools, id) == Some(results[k]));
                }
            }
            places
        }
    }
}

proof fn lemma_rounds_put_back(turn: TurnView, n: nat)
    requires
        n <= turn.rounds.len(),
    ensures
        recorded_rounds(turn, n) matches Some(middle) ==> {
            &&& middle.len() == 2 * n
            &&& forall|k: int|
                0 <= k < n ==> {
                    &&& middle[2 * k] == (MessageView {
                        role: Role::Assistant,
                        content: #[trigger] turn.rounds[k],
                    })
                    &&& middle[2 * k + 1].role == Role::User
                    &&& are_recorded_results(
                        turn.tools,
                        turn.rounds[k],
                        middle[2 * k + 1].content,
                    )
                }
        },
    decreases n,
{
    if n > 0 && recorded_rounds(turn, n) is Some {
        lemma_rounds_put_back(turn, (n - 1) as nat);
        let middle = recorded_rounds(turn, n).unwrap();
        let before = recorded_rounds(turn, (n - 1) as nat).unwrap();
        assert forall|k: int| 0 <= k < n implies {
            &&& middle[2 * k] == (MessageView {
                role: Role::Assistant,
                content: #[trigger] turn.rounds[k],
            })
            &&& middle[2 * k + 1].role == Role::User
            &&& are_recorded_results(turn.tools, turn.rounds[k], middle[2 * k + 1].content)
        } by {
            if k < n - 1 {
                assert(middle[2 * k] == before[2 * k]);
                assert(middle[2 * k + 1] == before[2 * k + 1]);
            } else {
                let places = lemma_results(turn.tools, turn.rounds[k]);
                assert(are_requests(turn.rounds[k], places));
            }
        }
    }
}

/// The blocks of one side of a recorded turn: those recorded, or its text alone.
pub open spec fn recorded_blocks(text: Seq<char>, content: Option<Seq<BlockView>>) -> Seq<
    BlockView,
> {
    match content {
        Some(blocks) => blocks,
        None => seq![BlockView::Text { text }],
    }
}

/// A recorded turn puts back what was said in it: what was asked, every round with the
/// results recorded for its calls, and the reply. It puts back nothing where it did not
/// end in a reply.
pub proof fn law_recorded_turns_put_back_what_was_said(turn: TurnView)
    ensures
        turn_history(turn) matches Some(messages) ==> {
            &&& messages.len() == 2 * turn.rounds.len() + 2
            &&& messages[0] == (MessageView {
                role: Role::User,
                content: recorded_blocks(turn.request.prompt, turn.request.content),
            })
            &&& forall|k: int|
                0 <= k < turn.rounds.len() ==> {
                    &&& messages[2 * k + 1] == (MessageView {
                        role: Role::Assistant,
                        content: #[trigger] turn.rounds[k],
                    })
                    &&& messages[2 * k + 2].role == Role::User
                    &&& are_recorded_results(
                        turn.tools,
                        turn.rounds[k],
                        messages[2 * k + 2].content,
                    )
                }
            &&& turn.outcome matches Some(
                OutcomeView::Success { reply, content, stop_reason, .. },
            ) && messages.last() == session_reply(
                recorded_blocks(reply, content),
                turn.rounds.len() > 0 && stop_reason == Some("tool_use"@),
            )
        },
        !(turn.outcome matches Some(OutcomeView::Success { .. })) ==> turn_history(turn) is None,
{
    if let Some(messages) = turn_history(turn) {
        lemma_rounds_put_back(turn, turn.rounds.len());
        let middle = recorded_rounds(turn, turn.rounds.len()).unwrap();
        assert(messages[0].content =~= recorded_blocks(turn.request.prompt, turn.request.content));
        assert forall|k: int| 0 <= k < turn.rounds.len() implies {
            &&& messages[2 * k + 1] == (MessageView {
                role: Role::Assistant,
                content: #[trigger] turn.rounds[k],
            })
            &&& messages[2 * k + 2].role == Role::User
            &&& are_recorded_results(turn.tools, turn.rounds[k], messages[2 * k + 2].content)
        } by {
            assert(messages[2 * k + 1] == middle[2 * k]);
            assert(messages[2 * k + 2] == middle[2 * k + 1]);
        }
        if let Some(OutcomeView::Success { reply, content, stop_reason, .. }) = turn.outcome {
            let capped = turn.rounds.len() > 0 && stop_reason == Some("tool_use"@);
            assert(crate::session::rehydrated(Role::Assistant, reply, content).content
                =~= recorded_blocks(reply, content));
        }
    }
}

/// The history of recorded turns is what each of them puts back, one after the other.
pub proof fn law_histories_are_put_back_turn_by_turn(turns: Seq<TurnView>, turn: TurnView)
    ensures
        history_of(Seq::<TurnView>::empty(), 0) == Seq::<MessageView>::empty(),
        history_of(turns.push(turn), turns.len() + 1) == (match turn_history(turn) {
            Some(messages) => history_of(turns, turns.len()) + messages,
            None => history_of(turns, turns.len()),
        }),
        completed_turns(turns.push(turn), turns.len() + 1) == completed_turns(turns, turns.len())
            + (if turn_history(turn) is Some {
            1int
        } else {
            0int
        }),
{
    lemma_first_turns(turns, turn, turns.len());
}

proof fn lemma_first_turns(turns: Seq<TurnView>, turn: TurnView, n: nat)
    requires
        n <= turns.len(),
    ensures
        history_of(turns.push(turn), n) == history_of(turns, n),
        completed_turns(turns.push(turn), n) == completed_turns(turns, n),
    decreases n,
{
    if n > 0 {
        lemma_first_turns(turns, turn, (n - 1) as nat);
        assert(turns.push(turn)[n - 1] == turns[n - 1]);
    }
}

} // verus!
