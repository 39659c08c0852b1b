//! What a user turn sends, runs, adds to the conversation and leaves on the trail.

use vstd::prelude::*;

use crate::error::Result;
use crate::events::{
    EventView, ExchangeMeta, OutcomeView, RequestView, ToolCallView, ToolResultView, ToolStatus,
};
use crate::json::JsonValue;
use crate::laws::layout::{is_joined, law_join_lays_out_every_part};
use crate::log::{session_place, SessionView};
use crate::model::{AssistantReply, BlockView, MessageView, Role, StopView};
use crate::session::{
    is_lasting, lasting_blocks, selected, session_ids, session_reply, settled, turn_events,
    turn_outcome, turn_warnings,
};
use crate::text::{decimal, join_with, views};
use crate::tools::{
    answer_of, calls_in, is_round, reply_in, result_block, round_messages, round_notes,
    rounds_messages, rounds_notes, total_attempts, total_usage, AnswerView, CallView, NoteView,
    RoundView, ToolLoop, ToolRegistry, TurnOutcome,
};
use crate::trail::note_events;
use crate::transport::{Transport, TransportCall};

verus! {

/// Whether `places` are all the places of `content` that hold a tool request, in
/// order.
pub open spec fn are_requests(content: Seq<BlockView>, places: Seq<int>) -> bool {
    &&& forall|k: int|
        0 <= k < places.len() ==> 0 <= #[trigger] places[k] < content.len()
            && content[places[k]] is ToolUse
    &&& forall|k: int, l: int| 0 <= k < l < places.len() ==> places[k] < places[l]
    &&& forall|i: int|
        0 <= i < content.len() && #[trigger] content[i] is ToolUse ==> places.contains(i)
}

proof fn lemma_requests(content: Seq<BlockView>) -> (places: Seq<int>)
    ensures
        are_requests(content, places),
        calls_in(content).len() == places.len(),
        forall|k: int|
            0 <= k < places.len() ==> {
                let call = #[trigger] calls_in(content)[k];
                content[places[k]] == (BlockView::ToolUse {
                    id: call.id,
                    name: call.name,
                    input: call.input,
                })
            },
    decreases content.len(),
{
    if content.len() == 0 {
        Seq::empty()
    } else {
        let front = content.drop_last();
        let before = lemma_requests(front);
        let places = if content.last() is ToolUse {
            before.push(content.len() - 1)
        } else {
            before
        };
        assert forall|k: int| 0 <= k < places.len() implies 0 <= #[trigger] places[k]
            < content.len() && content[places[k]] is ToolUse by {
            if k < before.len() {
                assert(places[k] == before[k]);
                assert(content[before[k]] == front[before[k]]);
            }
        }
        assert forall|i: int|
            0 <= i < content.len() && #[trigger] content[i] is ToolUse implies places.contains(
            i,
        ) by {
            if i < front.len() {
                assert(front[i] == content[i]);
                assert(before.contains(i));
                let k = choose|k: int| 0 <= k < before.len() && before[k] == i;
                assert(places[k] == i);
            } else {
                assert(places[before.len() as int] == i);
            }
        }
        assert forall|k: int| 0 <= k < places.len() implies {
            let call = #[trigger] calls_in(content)[k];
            content[places[k]] == (BlockView::ToolUse {
                id: call.id,
                name: call.name,
                input: call.input,
            })
        } by {
            if k < before.len() {
                assert(calls_in(content)[k] == calls_in(front)[k]);
                assert(places[k] == before[k]);
            }
        }
        places
    }
}

/// Every tool request of a reply is a call, in order, with its id, its name and its
/// arguments, and nothing else is one.
pub proof fn law_every_tool_request_is_a_call(content: Seq<BlockView>)
    ensures
        exists|places: Seq<int>|
            {
                &&& #[trigger] are_requests(content, places)
                &&& calls_in(content).len() == places.len()
                &&& forall|k: int|
                    0 <= k < places.len() ==> {
                        let call = #[trigger] calls_in(content)[k];
                        content[places[k]] == (BlockView::ToolUse {
                            id: call.id,
                            name: call.name,
                            input: call.input,
                        })
                    }
            },
{
    let places = lemma_requests(content);
}

/// What goes back for a call: the message of a denial, what the tool returned, or
/// that there is no such tool; marked as an error unless the tool returned output.
pub proof fn law_results_say_what_came_of_their_call(
    id: Seq<char>,
    name: Seq<char>,
    denial: Option<Seq<char>>,
    returned: Option<core::result::Result<Seq<char>, Seq<char>>>,
)
    ensures
        ({
            let answer = answer_of(name, denial, returned);
            let block = result_block(id, answer);
            if denial is Some {
                &&& block == (BlockView::ToolResult {
                    tool_use_id: id,
                    content: denial.unwrap(),
                    is_error: Some(true),
                })
                &&& answer.status == ToolStatus::Denied
                &&& answer.output == denial.unwrap()
            } else if returned is None {
                &&& block == (BlockView::ToolResult {
                    tool_use_id: id,
                    content: "unknown tool: "@ + name,
                    is_error: Some(true),
                })
                &&& answer.status == ToolStatus::Failed
            } else if returned.unwrap() is Ok {
                &&& block == (BlockView::ToolResult {
                    tool_use_id: id,
                    content: returned.unwrap()->Ok_0,
                    is_error: None,
                })
                &&& answer.status == ToolStatus::Completed
                &&& answer.output == returned.unwrap()->Ok_0
            } else {
                &&& block == (BlockView::ToolResult {
                    tool_use_id: id,
                    content: returned.unwrap()->Err_0,
                    is_error: Some(true),
                })
                &&& answer.status == ToolStatus::Failed
                &&& answer.output == returned.unwrap()->Err_0
            }
        }),
{
}

/// Whether `reply` and `results` are the two turns of a round: the reply as it came,
/// and a user turn with one result for each of its tool requests, in order and under
/// its id.
pub open spec fn are_round_turns(
    reply: MessageView,
    results: MessageView,
    round: RoundView,
) -> bool {
    &&& reply.role == Role::Assistant
    &&& reply.content == round.content
    &&& results.role == Role::User
    &&& exists|places: Seq<int>|
        {
            &&& #[trigger] are_requests(round.content, places)
            &&& results.content.len() == places.len()
            &&& forall|k: int|
                0 <= k < places.len() ==> (#[trigger] results.content[k]) == (
                BlockView::ToolResult {
                    tool_use_id: round.content[places[k]]->ToolUse_id,
                    content: round.answers[k].output,
                    is_error: if round.answers[k].status == ToolStatus::Completed {
                        None
                    } else {
                        Some(true)
                    },
                })
        }
}

/// Rounds add two turns each to the conversation, in order.
pub proof fn law_rounds_add_a_reply_and_its_results(rounds: Seq<RoundView>)
    requires
        forall|k: int|
            0 <= k < rounds.len() ==> (#[trigger] rounds[k]).answers.len() == calls_in(
                rounds[k].content,
            ).len(),
    ensures
        rounds_messages(rounds).len() == 2 * rounds.len(),
        forall|k: int|
            0 <= k < rounds.len() ==> are_round_turns(
                rounds_messages(rounds)[2 * k],
                rounds_messages(rounds)[2 * k + 1],
                #[trigger] rounds[k],
            ),
    decreases rounds.len(),
{
    if rounds.len() > 0 {
        let front = rounds.drop_last();
        assert forall|k: int| 0 <= k < front.len() implies (#[trigger] front[k]).answers.len()
            == calls_in(front[k].content).len() by {
            assert(front[k] == rounds[k]);
        }
        law_rounds_add_a_reply_and_its_results(front);
        let all = rounds_messages(rounds);
        let before = rounds_messages(front);
        let round = rounds.last();
        let two = round_messages(round);
        assert(rounds[rounds.len() - 1] == round);
        assert(all =~= before + two);
        let places = lemma_requests(round.content);
        let results = two[1].content;
        assert forall|k: int| 0 <= k < places.len() implies (#[trigger] results[k]) == (
        BlockView::ToolResult {
            tool_use_id: round.content[places[k]]->ToolUse_id,
            content: round.answers[k].output,
            is_error: if round.answers[k].status == ToolStatus::Completed {
                None
            } else {
                Some(true)
            },
        }) by {
            let call = calls_in(round.content)[k];
            assert(round.content[places[k]] == BlockView::ToolUse {
                id: call.id,
                name: call.name,
                input: call.input,
            });
        }
        assert(are_round_turns(two[0], two[1], round));
        assert forall|k: int| 0 <= k < rounds.len() implies are_round_turns(
            all[2 * k],
            all[2 * k + 1],
            #[trigger] rounds[k],
        ) by {
            if k < front.len() {
                assert(front[k] == rounds[k]);
                assert(all[2 * k] == before[2 * k]);
                assert(all[2 * k + 1] == before[2 * k + 1]);
            } else {
                assert(all[2 * k] == two[0]);
                assert(all[2 * k + 1] == two[1]);
            }
        }
    }
}

// ---------------------------------------------------------------------------
// The turn as a whole

/// The sum of the counts that are there.
pub open spec fn sum_of(counts: Seq<Option<u64>>) -> nat
    decreases counts.len(),
{
    if counts.len() == 0 {
        0
    } else {
        sum_of(counts.drop_last()) + (match counts.last() {
            Some(n) => n as nat,
            None => 0,
        })
    }
}

/// Whether `total` is the sum of `counts`, as far as it can be held, and absent only
/// where all of them are.
pub open spec fn is_total(total: Option<u64>, counts: Seq<Option<u64>>) -> bool {
    match total {
        Some(n) => n == sum_of(counts) % 0x1_0000_0000_0000_0000 && exists|i: int|
            0 <= i < counts.len() && #[trigger] counts[i] is Some,
        None => forall|i: int| 0 <= i < counts.len() ==> #[trigger] counts[i] is None,
    }
}

proof fn lemma_total_step(before: Option<u64>, counts: Seq<Option<u64>>, next: Option<u64>)
    requires
        is_total(before, counts),
    ensures
        is_total(crate::tools::count_sum(before, next), counts.push(next)),
{
    let more = counts.push(next);
    assert(more.drop_last() =~= counts);
    if before is Some {
        let i = choose|i: int| 0 <= i < counts.len() && #[trigger] counts[i] is Some;
        assert(more[i] is Some);
    } else {
        lemma_sum_of_none(counts);
        assert forall|i: int| 0 <= i < more.len() && next is None implies #[trigger] more[i]
            is None by {
            if i < counts.len() {
                assert(counts[i] is None);
            }
        }
    }
    if next is Some {
        assert(more[counts.len() as int] is Some);
    }
}

proof fn lemma_sum_of_none(counts: Seq<Option<u64>>)
    requires
        forall|i: int| 0 <= i < counts.len() ==> #[trigger] counts[i] is None,
    ensures
        sum_of(counts) == 0,
    decreases counts.len(),
{
    if counts.len() > 0 {
        assert(counts[counts.len() - 1] is None);
        lemma_sum_of_none(counts.drop_last());
    }
}

/// The usage of a turn sums the counts of all its replies.
pub proof fn law_usage_is_that_of_all_replies(calls: Seq<TransportCall<AssistantReply>>)
    ensures
        is_total(
            total_usage(calls).input_tokens,
            Seq::new(calls.len(), |i: int| reply_in(calls[i]).usage.input_tokens),
        ),
        is_total(
            total_usage(calls).output_tokens,
            Seq::new(calls.len(), |i: int| reply_in(calls[i]).usage.output_tokens),
        ),
    decreases calls.len(),
{
    let inputs = Seq::new(calls.len(), |i: int| reply_in(calls[i]).usage.input_tokens);
    let outputs = Seq::new(calls.len(), |i: int| reply_in(calls[i]).usage.output_tokens);
    if calls.len() == 1 {
        reveal_with_fuel(sum_of, 2);
        assert(inputs.drop_last().len() == 0);
        assert(outputs.drop_last().len() == 0);
        assert(inputs[0] == total_usage(calls).input_tokens);
        assert(outputs[0] == total_usage(calls).output_tokens);
    } else if calls.len() > 1 {
        let front = calls.drop_last();
        law_usage_is_that_of_all_replies(front);
        let last = reply_in(calls.last()).usage;
        let ins = Seq::new(front.len(), |i: int| reply_in(front[i]).usage.input_tokens);
        let outs = Seq::new(front.len(), |i: int| reply_in(front[i]).usage.output_tokens);
        lemma_total_step(total_usage(front).input_tokens, ins, last.input_tokens);
        lemma_total_step(total_usage(front).output_tokens, outs, last.output_tokens);
        assert(ins.push(last.input_tokens) =~= inputs);
        assert(outs.push(last.output_tokens) =~= outputs);
    }
}

/// The attempts of a turn are those of all its calls together, as far as they can be
/// counted.
pub proof fn law_attempts_are_those_of_all_calls(calls: Seq<TransportCall<AssistantReply>>)
    ensures
        ({
            let sum = sum_of(Seq::new(calls.len(), |i: int| Some(calls[i].attempts)));
            total_attempts(calls) == if sum <= u64::MAX {
                sum
            } else {
                u64::MAX as nat
            }
        }),
    decreases calls.len(),
{
    let counts = Seq::new(calls.len(), |i: int| Some(calls[i].attempts));
    if calls.len() > 0 {
        law_attempts_are_those_of_all_calls(calls.drop_last());
        assert(counts.drop_last() =~= Seq::new(
            calls.drop_last().len(),
            |i: int| Some(calls.drop_last()[i].attempts),
        ));
    }
}

/// A turn that ended well asked the provider once, and once more after every round:
/// each time with the whole conversation so far, the results of the rounds among it.
/// Every round answers a reply that stopped for tools; the last reply is the outcome,
/// with the usage of all of them. It still asks for tools only where the turn stopped
/// at its limit, and no turn runs more rounds than that.
pub proof fn law_turns_send_every_result_back<T: Transport>(
    tool_loop: ToolLoop<T>,
    history: Seq<MessageView>,
    rounds: Seq<RoundView>,
    calls: Seq<TransportCall<AssistantReply>>,
    outcome: TurnOutcome,
)
    requires
        tool_loop.finished(history, rounds, calls, outcome),
    ensures
        calls.len() == rounds.len() + 1,
        forall|i: int|
            0 <= i < calls.len() ==> tool_loop.transport.may_call(
                history + rounds_messages(rounds).take(2 * i),
                #[trigger] calls[i],
            ),
        forall|i: int|
            0 <= i < rounds.len() ==> {
                &&& (#[trigger] calls[i]).result is Ok
                &&& calls[i].result->Ok_0@.stop_reason == Some(StopView::ToolUse)
                &&& rounds[i].content == calls[i].result->Ok_0@.content
                &&& rounds[i].answers.len() == calls_in(rounds[i].content).len()
                &&& forall|k: int|
                    0 <= k < rounds[i].answers.len() ==> tool_loop.registry.may_answer(
                        calls_in(rounds[i].content)[k].name,
                        calls_in(rounds[i].content)[k].input,
                        #[trigger] rounds[i].answers[k],
                    )
            },
        calls.last().result is Ok,
        outcome.reply@.text == calls.last().result->Ok_0@.text,
        outcome.reply@.content == calls.last().result->Ok_0@.content,
        outcome.reply@.stop_reason == calls.last().result->Ok_0@.stop_reason,
        outcome.reply@.usage == total_usage(calls),
        views(outcome.transcript@) == rounds_messages(rounds),
        outcome.capped <==> calls.last().result->Ok_0@.stop_reason == Some(StopView::ToolUse),
        outcome.capped ==> tool_loop.max_tool_rounds is Some && rounds.len()
            == tool_loop.max_tool_rounds.unwrap(),
        tool_loop.max_tool_rounds is Some ==> rounds.len() <= tool_loop.max_tool_rounds.unwrap(),
{
    assert forall|i: int| 0 <= i < calls.len() implies tool_loop.transport.may_call(
        history + rounds_messages(rounds).take(2 * i),
        #[trigger] calls[i],
    ) by {
        assert(tool_loop.called(history, rounds, i, calls[i]));
        lemma_first_rounds(rounds, i);
    }
    assert forall|i: int| 0 <= i < rounds.len() implies {
        &&& (#[trigger] calls[i]).result is Ok
        &&& calls[i].result->Ok_0@.stop_reason == Some(StopView::ToolUse)
        &&& rounds[i].content == calls[i].result->Ok_0@.content
        &&& rounds[i].answers.len() == calls_in(rounds[i].content).len()
        &&& forall|k: int|
            0 <= k < rounds[i].answers.len() ==> tool_loop.registry.may_answer(
                calls_in(rounds[i].content)[k].name,
                calls_in(rounds[i].content)[k].input,
                #[trigger] rounds[i].answers[k],
            )
    } by {
        assert(tool_loop.is_run(calls[i], rounds[i]));
        assert(is_round(tool_loop.registry, rounds[i]));
    }
    if outcome.capped {
        assert(rounds.len() <= tool_loop.max_tool_rounds.unwrap());
    }
}

proof fn lemma_first_rounds(rounds: Seq<RoundView>, i: int)
    requires
        0 <= i <= rounds.len(),
    ensures
        rounds_messages(rounds).len() == 2 * rounds.len(),
        rounds_messages(rounds.take(i)) == rounds_messages(rounds).take(2 * i),
    decreases rounds.len(),
{
    if rounds.len() == 0 {
        assert(rounds.take(0) =~= rounds);
        assert(rounds_messages(rounds).take(0) =~= rounds_messages(rounds));
    } else if i == rounds.len() {
        lemma_first_rounds(rounds.drop_last(), i - 1);
        assert(rounds.take(i) =~= rounds);
        assert(rounds_messages(rounds).take(2 * i) =~= rounds_messages(rounds));
    } else {
        lemma_first_rounds(rounds.drop_last(), i);
        assert(rounds.drop_last().take(i) =~= rounds.take(i));
        assert(rounds_messages(rounds).take(2 * i) =~= rounds_messages(rounds.drop_last()).take(
            2 * i,
        ));
    }
}

// ---------------------------------------------------------------------------
// The history

/// Whether `kept` are the blocks of `content`, in order, that are neither a tool
/// request nor a tool result.
pub open spec fn are_spoken(content: Seq<BlockView>, kept: Seq<BlockView>, places: Seq<int>) -> bool {
    &&& places.len() == kept.len()
    &&& forall|k: int|
        0 <= k < places.len() ==> 0 <= #[trigger] places[k] < content.len() && content[places[k]]
            == kept[k] && !(kept[k] is ToolUse) && !(kept[k] is ToolResult)
    &&& forall|k: int, l: int| 0 <= k < l < places.len() ==> places[k] < places[l]
    &&& forall|i: int|
        0 <= i < content.len() && !(#[trigger] content[i] is ToolUse) && !(
        content[i] is ToolResult) ==> places.contains(i)
}

proof fn lemma_spoken(content: Seq<BlockView>) -> (places: Seq<int>)
    ensures
        are_spoken(content, lasting_blocks(content), places),
    decreases content.len(),
{
    if content.len() == 0 {
        Seq::empty()
    } else {
        let front = content.drop_last();
        let before = lemma_spoken(front);
        let kept = lasting_blocks(content);
        let last = content.len() - 1;
        let places = if is_lasting(content.last()) {
            before.push(last)
        } else {
            before
        };
        assert forall|k: int| 0 <= k < places.len() implies 0 <= #[trigger] places[k]
            < content.len() && content[places[k]] == kept[k] && !(kept[k] is ToolUse) && !(
        kept[k] is ToolResult) by {
            if k < before.len() {
                assert(places[k] == before[k]);
                assert(front[before[k]] == content[before[k]]);
            }
        }
        assert forall|i: int|
            0 <= i < content.len() && !(#[trigger] content[i] is ToolUse) && !(
            content[i] is ToolResult) implies places.contains(i) by {
            if i < front.len() {
                assert(front[i] == content[i]);
                assert(before.contains(i));
                let k = choose|k: int| 0 <= k < before.len() && before[k] == i;
                assert(places[k] == i);
            } else {
                assert(places[before.len() as int] == i);
            }
        }
        places
    }
}

/// A turn that ended well stays in the history: what was there, the turns of its
/// rounds, and its reply as an assistant turn. Only a reply that was cut off at the
/// limit loses its tool requests, and says so where nothing else is left of it. Of a
/// failed turn nothing stays, not even what was asked.
pub proof fn law_history_keeps_what_was_said(
    history: Seq<MessageView>,
    result: Result<TurnOutcome>,
)
    requires
        history.len() > 0,
    ensures
        match result {
            Err(_) => settled(history, result) == history.take(history.len() - 1),
            Ok(outcome) => {
                let after = settled(history, result);
                let added = views(outcome.transcript@);
                &&& after.len() == history.len() + added.len() + 1
                &&& after.take(history.len() as int) == history
                &&& after.subrange(history.len() as int, after.len() - 1) == added
                &&& after.last().role == Role::Assistant
                &&& if !outcome.capped {
                    after.last().content == outcome.reply@.content
                } else {
                    exists|kept: Seq<BlockView>, places: Seq<int>|
                        #[trigger] are_spoken(outcome.reply@.content, kept, places)
                            && after.last().content == if kept.len() > 0 {
                            kept
                        } else {
                            seq![BlockView::Text { text: "[stopped: tool-round limit reached]"@ }]
                        }
                }
            },
        },
{
    match result {
        Err(_) => {
            assert(history.drop_last() =~= history.take(history.len() - 1));
        },
        Ok(outcome) => {
            let after = settled(history, result);
            let added = views(outcome.transcript@);
            assert(after.take(history.len() as int) =~= history);
            assert(after.subrange(history.len() as int, after.len() - 1) =~= added);
            let places = lemma_spoken(outcome.reply@.content);
            assert(after.last() == session_reply(outcome.reply@.content, outcome.capped));
        },
    }
}

/// A reply that was cut short by its length, and a turn that stopped at its limit,
/// are warned of, and nothing else is.
pub proof fn law_warnings_name_what_was_cut_short(result: Result<TurnOutcome>, limit: Option<usize>)
    ensures
        ({
            let warnings = turn_warnings(result, limit);
            let short = "warning: reply truncated (stop_reason: max_tokens)"@;
            let stopped = "warning: stopped after "@ + decimal(limit.unwrap() as nat)
                + " tool-use rounds; reply still requests tools"@;
            let is_short = result is Ok && result->Ok_0.reply@.stop_reason == Some(
                StopView::MaxTokens,
            );
            let is_stopped = result is Ok && result->Ok_0.capped && limit is Some;
            &&& warnings.len() == (if is_short {
                1int
            } else {
                0int
            }) + (if is_stopped {
                1int
            } else {
                0int
            })
            &&& is_short ==> warnings[0] == short
            &&& is_stopped ==> warnings.last() == stopped
        }),
{
}

// ---------------------------------------------------------------------------
// The trail

/// Whether `event` is, but for its time, what a note about a turn of a session
/// leaves on the trail.
pub open spec fn is_noted(
    event: EventView,
    note: NoteView,
    session_id: Option<Seq<char>>,
    turn_index: Option<u64>,
) -> bool {
    match note {
        NoteView::Round { content } => event == (EventView::ToolRound {
            ts_ms: 0,
            content,
            session_id,
            turn_index,
        }),
        NoteView::Call { id, name, input } => event == (EventView::ToolCall {
            call: ToolCallView { ts_ms: 0, tool_use_id: id, tool_name: name, input },
            session_id,
            turn_index,
        }),
        NoteView::Result { id, name, output, status } => {
            let completed = status == ToolStatus::Completed;
            event == (EventView::ToolResult {
                result: ToolResultView {
                    ts_ms: 0,
                    tool_use_id: id,
                    tool_name: name,
                    status,
                    result: if completed {
                        Some(output)
                    } else {
                        None
                    },
                    error: if completed {
                        None
                    } else {
                        Some(output)
                    },
                },
                session_id,
                turn_index,
            })
        },
        NoteView::Other(other) => event == other,
    }
}

/// A session turn leaves its request on the trail, one event for each note of its
/// tools, in order, and its outcome: the reply with its counts, or the error. All
/// bear the session and the number of the turn.
pub proof fn law_session_turns_are_recorded(
    meta: ExchangeMeta,
    prompt: Seq<char>,
    session_id: Seq<char>,
    turn_index: u64,
    notes: Seq<NoteView>,
    result: Result<TurnOutcome>,
)
    ensures
        ({
            let events = turn_events(meta, prompt, session_id, turn_index, notes, result);
            let id = Some(session_id);
            let index = Some(turn_index);
            &&& events.len() == notes.len() + 2
            &&& events[0] == EventView::Request(
                RequestView {
                    ts_ms: 0,
                    model: meta.model@,
                    base_url: meta.base_url@,
                    prompt,
                    content: None,
                    session_id: id,
                    turn_index: index,
                },
            )
            &&& forall|i: int|
                0 <= i < notes.len() ==> is_noted(events[i + 1], #[trigger] notes[i], id, index)
            &&& match result {
                Ok(outcome) => {
                    let blocks = outcome.reply@.content;
                    let alone = blocks.len() == 1 && blocks[0] is Text;
                    events.last() matches EventView::Response(
                        OutcomeView::Success {
                            reply,
                            content,
                            input_tokens,
                            output_tokens,
                            session_id: of,
                            turn_index: at,
                            ..
                        },
                    ) && reply == outcome.reply@.text && content == (if alone {
                        None
                    } else {
                        Some(blocks)
                    }) && input_tokens == outcome.reply@.usage.input_tokens && output_tokens
                        == outcome.reply@.usage.output_tokens && of == id && at == index
                },
                Err(error) => events.last() == EventView::Response(
                    OutcomeView::Error {
                        ts_ms: 0,
                        duration_ms: 0,
                        kind: error.class(),
                        message: error.text(),
                        session_id: id,
                        turn_index: index,
                    },
                ),
            }
        }),
{
    let events = turn_events(meta, prompt, session_id, turn_index, notes, result);
    let told = note_events(notes, Some((session_id, turn_index)));
    assert forall|i: int| 0 <= i < notes.len() implies is_noted(
        events[i + 1],
        #[trigger] notes[i],
        Some(session_id),
        Some(turn_index),
    ) by {
        assert(events[i + 1] == told[i]);
    }
    assert(events.last() == EventView::Response(
        turn_outcome(result, Some(session_id), Some(turn_index)),
    ));
}

// ---------------------------------------------------------------------------
// Choosing a session

pub proof fn lemma_place(sessions: Seq<SessionView>, id: Seq<char>)
    ensures
        session_place(sessions, id) <= sessions.len(),
        session_place(sessions, id) < sessions.len() ==> sessions[session_place(
            sessions,
            id,
        ) as int].session_id == id,
        forall|i: int|
            0 <= i < session_place(sessions, id) ==> (#[trigger] sessions[i]).session_id != id,
    decreases sessions.len(),
{
    if sessions.len() > 0 {
        let front = sessions.drop_last();
        lemma_place(front, id);
        assert forall|i: int| 0 <= i < session_place(sessions, id) implies (
        #[trigger] sessions[i]).session_id != id by {
            if i < front.len() {
                assert(front[i] == sessions[i]);
            }
        }
    }
}

/// A session that is asked for by its id is resumed where the trail has one of that
/// id, and the first of them is. Without an id, the only session of a trail is.
pub proof fn law_the_session_asked_for_is_resumed(
    sessions: Seq<SessionView>,
    wanted: Option<Seq<char>>,
)
    ensures
        match (selected(sessions, wanted), wanted) {
            (Ok(session), Some(id)) => exists|i: int|
                {
                    &&& 0 <= i < sessions.len()
                    &&& #[trigger] sessions[i] == session
                    &&& session.session_id == id
                    &&& forall|k: int| 0 <= k < i ==> (#[trigger] sessions[k]).session_id != id
                },
            (Ok(session), None) => sessions.len() == 1 && session == sessions[0],
            (Err(_), Some(id)) => forall|k: int|
                0 <= k < sessions.len() ==> (#[trigger] sessions[k]).session_id != id,
            (Err(_), None) => sessions.len() != 1,
        },
{
    if let Some(id) = wanted {
        lemma_place(sessions, id);
    }
}

/// Whether a round is told from `at` on: the reply first, then each of its calls that was
/// answered, in order, with its own result right behind it.
pub open spec fn is_told_at(notes: Seq<NoteView>, at: int, round: RoundView) -> bool {
    let calls = calls_in(round.content);
    &&& 0 <= at
    &&& at + 2 * round.answers.len() < notes.len()
    &&& notes[at] == NoteView::Round { content: round.content }
    &&& forall|i: int|
        0 <= i < round.answers.len() ==> is_call_told(
            notes,
            at + 1 + 2 * i,
            calls[i],
            #[trigger] round.answers[i],
        )
}

/// Whether `call` is told at `at`, and `answer` as its result behind it.
pub open spec fn is_call_told(
    notes: Seq<NoteView>,
    at: int,
    call: CallView,
    answer: AnswerView,
) -> bool {
    &&& notes[at] == NoteView::Call { id: call.id, name: call.name, input: call.input }
    &&& notes[at + 1] == NoteView::Result {
        id: call.id,
        name: call.name,
        output: answer.output,
        status: answer.status,
    }
}

proof fn lemma_round_told(content: Seq<BlockView>, answers: Seq<AnswerView>)
    ensures
        round_notes(content, answers).len() == 1 + 2 * answers.len(),
        is_told_at(round_notes(content, answers), 0, RoundView { content, answers }),
    decreases answers.len(),
{
    let notes = round_notes(content, answers);
    let calls = calls_in(content);
    if answers.len() > 0 {
        let front = answers.drop_last();
        let before = round_notes(content, front);
        lemma_round_told(content, front);
        assert(notes[0] == before[0]);
        assert forall|i: int| 0 <= i < answers.len() implies is_call_told(
            notes,
            1 + 2 * i,
            calls[i],
            #[trigger] answers[i],
        ) by {
            if i < front.len() {
                assert(is_call_told(before, 1 + 2 * i, calls[i], front[i]));
                assert(notes[1 + 2 * i] == before[1 + 2 * i]);
                assert(notes[2 + 2 * i] == before[2 + 2 * i]);
            }
        }
    }
}

/// Whether the rounds are told at `starts`: from the first note on, each behind the one
/// before it, and nothing else.
pub open spec fn are_told(notes: Seq<NoteView>, rounds: Seq<RoundView>, starts: Seq<int>) -> bool {
    &&& starts.len() == rounds.len() + 1
    &&& starts[0] == 0
    &&& starts.last() == notes.len()
    &&& forall|k: int|
        0 <= k < rounds.len() ==> is_told_at(notes, starts[k], #[trigger] rounds[k]) && starts[k
            + 1] == starts[k] + 1 + 2 * rounds[k].answers.len()
}

/// An observer is told of every round of a turn, in order, and of every answered call of
/// a round with its result, each once.
pub proof fn law_every_round_and_call_is_told(rounds: Seq<RoundView>)
    ensures
        exists|starts: Seq<int>| #[trigger] are_told(rounds_notes(rounds), rounds, starts),
    decreases rounds.len(),
{
    let notes = rounds_notes(rounds);
    if rounds.len() == 0 {
        assert(are_told(notes, rounds, seq![0]));
    } else {
        let front = rounds.drop_last();
        let last = rounds.last();
        law_every_round_and_call_is_told(front);
        let before = rounds_notes(front);
        let starts = choose|starts: Seq<int>| #[trigger] are_told(before, front, starts);
        let more = round_notes(last.content, last.answers);
        lemma_round_told(last.content, last.answers);
        assert(last == RoundView { content: last.content, answers: last.answers });
        let all = starts.push(notes.len() as int);
        assert forall|k: int| 0 <= k < rounds.len() implies is_told_at(
            notes,
            all[k],
            #[trigger] rounds[k],
        ) && all[k + 1] == all[k] + 1 + 2 * rounds[k].answers.len() by {
            if k < front.len() {
                assert(is_told_at(before, starts[k], front[k]));
                lemma_told_later(before, more, starts[k], front[k]);
                assert(all[k + 1] == starts[k + 1]);
            } else {
                lemma_told_behind(before, more, last);
            }
        }
        assert(are_told(notes, rounds, all));
    }
}

proof fn lemma_told_later(
    notes: Seq<NoteView>,
    more: Seq<NoteView>,
    at: int,
    round: RoundView,
)
    requires
        is_told_at(notes, at, round),
    ensures
        is_told_at(notes + more, at, round),
{
    let calls = calls_in(round.content);
    assert forall|i: int| 0 <= i < round.answers.len() implies is_call_told(
        notes + more,
        at + 1 + 2 * i,
        calls[i],
        #[trigger] round.answers[i],
    ) by {
        assert(is_call_told(notes, at + 1 + 2 * i, calls[i], round.answers[i]));
    }
}

proof fn lemma_told_behind(before: Seq<NoteView>, notes: Seq<NoteView>, round: RoundView)
    requires
        is_told_at(notes, 0, round),
    ensures
        is_told_at(before + notes, before.len() as int, round),
{
    let calls = calls_in(round.content);
    assert forall|i: int| 0 <= i < round.answers.len() implies is_call_told(
        before + notes,
        before.len() + 1 + 2 * i,
        calls[i],
        #[trigger] round.answers[i],
    ) by {
        assert(is_call_told(notes, 1 + 2 * i, calls[i], round.answers[i]));
    }
}

/// Where a trail holds several sessions and none is asked for, the complaint names the
/// number of them and each of their ids, in order.
pub proof fn law_an_open_choice_names_every_session(sessions: Seq<SessionView>)
    requires
        sessions.len() > 1,
    ensures
        exists|ids: Seq<Seq<char>>, list: Seq<char>|
            {
                &&& ids.len() == sessions.len()
                &&& forall|i: int| 0 <= i < ids.len() ==> #[trigger] ids[i] == sessions[i].session_id
                &&& #[trigger] is_joined(list, ids, ", "@)
                &&& selected(sessions, None) == Err::<SessionView, Seq<char>>(
                    "the --resume trail holds "@ + decimal(sessions.len())
                        + " sessions; select one with --session <id>: "@ + list,
                )
            },
{
    let ids = session_ids(sessions);
    law_join_lays_out_every_part(ids, ", "@);
    assert(is_joined(join_with(ids, ", "@), ids, ", "@));
}

/// Whether the tool at `i` is called `name` and none before it is.
pub open spec fn is_first_named(registry: ToolRegistry, name: Seq<char>, i: int) -> bool {
    &&& 0 <= i < registry.entries@.len()
    &&& registry.entries@[i].0.name@ == name
    &&& forall|k: int| 0 <= k < i ==> (#[trigger] registry.entries@[k]).0.name@ != name
}

/// Whether the first tool called `name` can return `result` for `input`.
pub open spec fn is_returned(
    registry: ToolRegistry,
    name: Seq<char>,
    input: JsonValue,
    result: core::result::Result<Seq<char>, Seq<char>>,
) -> bool {
    exists|i: int| #[trigger]
        is_first_named(registry, name, i) && registry.entries@[i].1.handler().may_return(
            input,
            result,
        )
}

/// A call that completed was run by the first tool of its name, with its own input, and
/// gives what the tool returned. One that failed gives the tool's complaint, or that no
/// tool has the name. One that was denied gives the words of the hook. Whatever was not
/// denied, the hook let pass.
pub proof fn law_calls_are_answered_by_their_tool(
    registry: ToolRegistry,
    name: Seq<char>,
    input: JsonValue,
    answer: AnswerView,
)
    requires
        registry.may_answer(name, input, answer),
    ensures
        match answer.status {
            ToolStatus::Completed => is_returned(registry, name, input, Ok(answer.output)),
            ToolStatus::Failed => {
                ||| is_returned(registry, name, input, Err(answer.output))
                ||| {
                    &&& answer.output == "unknown tool: "@ + name
                    &&& forall|k: int|
                        0 <= k < registry.entries@.len() ==> (
                        #[trigger] registry.entries@[k]).0.name@ != name
                }
            },
            ToolStatus::Denied => registry.pre_tool_hook matches Some(hook) && hook.may_decide(
                name,
                input,
                Some(answer.output),
            ),
        },
        answer.status != ToolStatus::Denied ==> (registry.pre_tool_hook matches Some(hook)
            ==> hook.may_decide(name, input, None)),
{
    let (denial, returned) = choose|
        denial: Option<Seq<char>>,
        returned: Option<core::result::Result<Seq<char>, Seq<char>>>,
    | #[trigger]
        registry.may_run(name, input, denial, returned) && answer == answer_of(
            name,
            denial,
            returned,
        );
    if denial is None {
        match returned {
            Some(result) => {
                let i = choose|i: int| #[trigger]
                    registry.is_first(name, i) && registry.entries@[i].1.handler().may_return(
                        input,
                        result,
                    );
                assert(is_first_named(registry, name, i));
                assert(is_returned(registry, name, input, result));
            },
            None => {
                assert forall|k: int| 0 <= k < registry.entries@.len() implies (
                #[trigger] registry.entries@[k]).0.name@ != name by {
                    assert(registry.declared()[k] == registry.entries@[k].0);
                    assert(!registry.knows(name));
                }
            },
        }
    }
}

} // verus!
