//! Resuming gives back what was lived: a conversation rebuilt from its trail is
//! the conversation that the live session had.

use vstd::prelude::*;

use crate::error::{overridden, InterruptSignal, Result};
use crate::events::{
    law_trailed_content_is_recoverable, EventView, ExchangeEvent, ExchangeMeta, RequestView,
};
use crate::log::{
    answered, located, new_session, open_call, outcome_turn, session_place, sessions_of,
    sessions_step,
    turn_place, turn_set, with_session, LineView, PairView, SessionView, SessionsView, TurnView,
};
use crate::model::{
    single_text, text_message, text_of_blocks, AssistantReply, BlockView, MessageView, Role,
    StopView,
};
use crate::roundtrip::{line_of, numbered_lines};
use crate::session::{
    call_place, history_of, is_session_turn, next_number, recorded_answer, recorded_result, recorded_results,
    recorded_rounds, session_reply, settled, stop_word, turn_events, turn_history,
};
use crate::text::views;
use crate::tools::{
    call_notes, calls_in, is_broken_round, lemma_calls_prefix, reply_in, result_block,
    round_messages, round_notes, round_results, rounds_messages, rounds_notes, total_attempts,
    wants_tools, AnswerView, CallView, NoteView,
    RoundView, ToolLoop, TurnOutcome,
};
use crate::transport::{Transport, TransportCall};
use crate::trail::{all_untimed, note_event, note_events, untimed};

verus! {

// ---------------------------------------------------------------------------
// Reading lines one after the other

/// What is known of the sessions after more lines.
pub open spec fn read_on(r: SessionsView, from: nat, lines: Seq<LineView>) -> SessionsView
    decreases lines.len(),
{
    if lines.len() == 0 {
        r
    } else {
        sessions_step(
            read_on(r, from, lines.drop_last()),
            (from + lines.len()) as nat,
            lines.last(),
        )
    }
}

/// The lines of events.
pub open spec fn lines_of(events: Seq<EventView>) -> Seq<LineView> {
    Seq::new(events.len(), |i: int| line_of(events[i]))
}

proof fn lemma_read_on_concat(r: SessionsView, from: nat, a: Seq<LineView>, b: Seq<LineView>)
    ensures
        read_on(r, from, a + b) == read_on(read_on(r, from, a), from + a.len(), b),
    decreases b.len(),
{
    if b.len() == 0 {
        assert(a + b =~= a);
    } else {
        lemma_read_on_concat(r, from, a, b.drop_last());
        assert((a + b).drop_last() =~= a + b.drop_last());
    }
}

// ---------------------------------------------------------------------------
// Finding a session and a turn

proof fn lemma_place_by_ids(a: Seq<SessionView>, b: Seq<SessionView>, id: Seq<char>)
    requires
        a.len() == b.len(),
        forall|i: int| 0 <= i < a.len() ==> (#[trigger] a[i]).session_id == b[i].session_id,
    ensures
        session_place(a, id) == session_place(b, id),
    decreases a.len(),
{
    if a.len() > 0 {
        assert forall|i: int| 0 <= i < a.drop_last().len() implies (
        #[trigger] a.drop_last()[i]).session_id == b.drop_last()[i].session_id by {
            assert(a[i].session_id == b[i].session_id);
        }
        lemma_place_by_ids(a.drop_last(), b.drop_last(), id);
        assert(a[a.len() - 1].session_id == b[b.len() - 1].session_id);
    }
}

proof fn lemma_turn_by_numbers(a: Seq<TurnView>, b: Seq<TurnView>, index: u64)
    requires
        a.len() == b.len(),
        forall|i: int|
            0 <= i < a.len() ==> (#[trigger] a[i]).request.turn_index == b[i].request.turn_index,
    ensures
        turn_place(a, index) == turn_place(b, index),
    decreases a.len(),
{
    if a.len() > 0 {
        assert forall|i: int| 0 <= i < a.drop_last().len() implies (
        #[trigger] a.drop_last()[i]).request.turn_index == b.drop_last()[i].request.turn_index by {
            assert(a[i].request.turn_index == b[i].request.turn_index);
        }
        lemma_turn_by_numbers(a.drop_last(), b.drop_last(), index);
        assert(a[a.len() - 1].request.turn_index == b[b.len() - 1].request.turn_index);
    }
}

proof fn lemma_place_bound(sessions: Seq<SessionView>, id: Seq<char>)
    ensures
        session_place(sessions, id) <= sessions.len(),
        session_place(sessions, id) < sessions.len() ==> sessions[session_place(
            sessions,
            id,
        ) as int].session_id == id,
    decreases sessions.len(),
{
    if sessions.len() > 0 {
        lemma_place_bound(sessions.drop_last(), id);
    }
}

/// Changing a turn, but not its request, leaves every turn where it is.
proof fn lemma_turn_stays(
    sessions: Seq<SessionView>,
    turn: (Seq<char>, u64),
    at: (int, int),
    changed: TurnView,
)
    requires
        located(sessions, Some(turn)) == Some(at),
        changed.request == sessions[at.0].turns[at.1].request,
    ensures
        located(turn_set(sessions, at, changed), Some(turn)) == Some(at),
        turn_set(sessions, at, changed)[at.0].turns[at.1] == changed,
{
    let after = turn_set(sessions, at, changed);
    lemma_place_by_ids(sessions, after, turn.0);
    let old_turns = sessions[at.0].turns;
    let new_turns = after[at.0].turns;
    assert(new_turns =~= old_turns.update(at.1, changed));
    lemma_turn_by_numbers(old_turns, new_turns, turn.1);
}

// ---------------------------------------------------------------------------
// The lines of a turn between its request and its outcome

/// A turn after one more line about its tools.
spec fn noted(turn: TurnView, line: LineView) -> TurnView {
    match line {
        LineView::Round { content, .. } => TurnView { rounds: turn.rounds.push(content), ..turn },
        LineView::Call { call, .. } => TurnView {
            tools: turn.tools.push(PairView { call, result: None }),
            ..turn
        },
        LineView::Result { result, .. } => TurnView {
            tools: answered(turn.tools, result),
            ..turn
        },
        _ => turn,
    }
}

/// A turn after more lines about its tools.
spec fn noted_all(turn: TurnView, lines: Seq<LineView>) -> TurnView
    decreases lines.len(),
{
    if lines.len() == 0 {
        turn
    } else {
        noted(noted_all(turn, lines.drop_last()), lines.last())
    }
}

proof fn lemma_noted_concat(turn: TurnView, a: Seq<LineView>, b: Seq<LineView>)
    ensures
        noted_all(turn, a + b) == noted_all(noted_all(turn, a), b),
    decreases b.len(),
{
    if b.len() == 0 {
        assert(a + b =~= a);
    } else {
        lemma_noted_concat(turn, a, b.drop_last());
        assert((a + b).drop_last() =~= a + b.drop_last());
    }
}

/// Whether a line is about the tools of `turn`.
spec fn is_note_line(line: LineView, turn: (Seq<char>, u64)) -> bool {
    match line {
        LineView::Round { turn: at, .. } => at == Some(turn),
        LineView::Call { turn: at, .. } => at == Some(turn),
        LineView::Result { turn: at, .. } => at == Some(turn),
        _ => false,
    }
}

/// Lines about the tools of a turn change that turn and nothing else.
proof fn lemma_notes_read(
    r: SessionsView,
    from: nat,
    lines: Seq<LineView>,
    turn: (Seq<char>, u64),
    at: (int, int),
)
    requires
        located(r.sessions, Some(turn)) == Some(at),
        forall|i: int| 0 <= i < lines.len() ==> is_note_line(#[trigger] lines[i], turn),
    ensures
        read_on(r, from, lines).sessions == turn_set(
            r.sessions,
            at,
            noted_all(r.sessions[at.0].turns[at.1], lines),
        ),
        noted_all(r.sessions[at.0].turns[at.1], lines).request == r.sessions[at.0].turns[at.1].request,
        located(read_on(r, from, lines).sessions, Some(turn)) == Some(at),
    decreases lines.len(),
{
    let held = r.sessions[at.0].turns[at.1];
    if lines.len() == 0 {
        assert(turn_set(r.sessions, at, held)[at.0].turns =~= r.sessions[at.0].turns);
        assert(turn_set(r.sessions, at, held) =~= r.sessions);
    } else {
        let before = lines.drop_last();
        assert forall|i: int| 0 <= i < before.len() implies is_note_line(
            #[trigger] before[i],
            turn,
        ) by {
            assert(is_note_line(lines[i], turn));
        }
        lemma_notes_read(r, from, before, turn, at);
        let mid = noted_all(held, before);
        let state = read_on(r, from, before).sessions;
        lemma_turn_stays(r.sessions, turn, at, mid);
        let last = lines.last();
        assert(is_note_line(lines[lines.len() - 1], turn));
        let after = noted(mid, last);
        lemma_turn_stays(state, turn, at, after);
        assert(state[at.0].turns[at.1] == mid);
        assert(turn_set(state, at, after)[at.0].turns =~= turn_set(
            r.sessions,
            at,
            after,
        )[at.0].turns);
        assert(turn_set(state, at, after) =~= turn_set(r.sessions, at, after));
    }
}

// ---------------------------------------------------------------------------
// The calls that a turn's record holds

/// Whether the recorded calls are `calls`, answered with `answers`.
spec fn holds_calls(
    tools: Seq<PairView>,
    calls: Seq<CallView>,
    answers: Seq<AnswerView>,
) -> bool {
    &&& tools.len() == calls.len()
    &&& tools.len() == answers.len()
    &&& forall|i: int|
        0 <= i < tools.len() ==> {
            &&& (#[trigger] tools[i]).call.tool_use_id == calls[i].id
            &&& tools[i].result matches Some(result) && recorded_answer(result) == answers[i]
        }
}

/// The calls of rounds, in order.
pub open spec fn all_calls(rounds: Seq<RoundView>) -> Seq<CallView>
    decreases rounds.len(),
{
    if rounds.len() == 0 {
        seq![]
    } else {
        all_calls(rounds.drop_last()) + calls_in(rounds.last().content)
    }
}

/// What came of the calls of rounds, in order.
spec fn all_answers(rounds: Seq<RoundView>) -> Seq<AnswerView>
    decreases rounds.len(),
{
    if rounds.len() == 0 {
        seq![]
    } else {
        all_answers(rounds.drop_last()) + rounds.last().answers
    }
}

/// The contents of rounds, in order.
spec fn contents(rounds: Seq<RoundView>) -> Seq<Seq<BlockView>> {
    Seq::new(rounds.len(), |i: int| rounds[i].content)
}

/// Whether every call of the rounds was answered.
pub open spec fn are_whole(rounds: Seq<RoundView>) -> bool {
    forall|i: int|
        0 <= i < rounds.len() ==> (#[trigger] rounds[i]).answers.len() == calls_in(
            rounds[i].content,
        ).len()
}

proof fn lemma_none_open(tools: Seq<PairView>, id: Seq<char>)
    requires
        forall|i: int| 0 <= i < tools.len() ==> (#[trigger] tools[i]).result is Some,
    ensures
        open_call(tools, id) == tools.len(),
    decreases tools.len(),
{
    if tools.len() > 0 {
        assert forall|i: int| 0 <= i < tools.drop_last().len() implies (
        #[trigger] tools.drop_last()[i]).result is Some by {
            assert(tools[i].result is Some);
        }
        lemma_none_open(tools.drop_last(), id);
        assert(tools[tools.len() - 1].result is Some);
    }
}

/// The lines of one answered call add one answered call to the record.
proof fn lemma_call_noted(
    turn: TurnView,
    called: EventView,
    returned: EventView,
    at: (Seq<char>, u64),
    call: CallView,
    answer: AnswerView,
)
    requires
        forall|i: int| 0 <= i < turn.tools.len() ==> (#[trigger] turn.tools[i]).result is Some,
        untimed(called) == note_event(call_notes(call, answer)[0], Some(at)),
        untimed(returned) == note_event(call_notes(call, answer)[1], Some(at)),
    ensures
        ({
            let after = noted(noted(turn, line_of(called)), line_of(returned));
            let k = turn.tools.len() as int;
            &&& after.rounds == turn.rounds
            &&& after.request == turn.request
            &&& after.outcome == turn.outcome
            &&& after.tools.len() == k + 1
            &&& after.tools.drop_last() == turn.tools
            &&& after.tools[k].call.tool_use_id == call.id
            &&& after.tools[k].result matches Some(result) && recorded_answer(result) == answer
        }),
{
    let mid = noted(turn, line_of(called));
    let after = noted(mid, line_of(returned));
    let k = turn.tools.len() as int;
    lemma_none_open(turn.tools, call.id);
    assert(mid.tools.drop_last() =~= turn.tools);
    assert(open_call(mid.tools, call.id) == k);
    assert(after.tools.drop_last() =~= turn.tools);
}

/// The lines of one round add its content and its answered calls to the record.
proof fn lemma_round_noted(
    turn: TurnView,
    events: Seq<EventView>,
    at: (Seq<char>, u64),
    content: Seq<BlockView>,
    answers: Seq<AnswerView>,
    calls: Seq<CallView>,
    given: Seq<AnswerView>,
)
    requires
        answers.len() <= calls_in(content).len(),
        all_untimed(events) == note_events(round_notes(content, answers), Some(at)),
        holds_calls(turn.tools, calls, given),
    ensures
        ({
            let after = noted_all(turn, lines_of(events));
            &&& after.rounds == turn.rounds.push(content)
            &&& after.request == turn.request
            &&& after.outcome == turn.outcome
            &&& holds_calls(
                after.tools,
                calls + calls_in(content).take(answers.len() as int),
                given + answers,
            )
        }),
    decreases answers.len(),
{
    let lines = lines_of(events);
    let notes = round_notes(content, answers);
    assert(events.len() == notes.len()) by {
        assert(all_untimed(events).len() == note_events(notes, Some(at)).len());
    }
    assert forall|i: int| 0 <= i < events.len() implies untimed(#[trigger] events[i])
        == note_event(notes[i], Some(at)) by {
        assert(all_untimed(events)[i] == note_events(notes, Some(at))[i]);
    }
    if answers.len() == 0 {
        assert(untimed(events[0]) == note_event(notes[0], Some(at)));
        assert(lines.drop_last() =~= Seq::<LineView>::empty());
        let after = noted_all(turn, lines);
        assert(noted_all(turn, lines.drop_last()) == turn);
        assert(after == noted(turn, lines[0]));
        assert(calls + calls_in(content).take(0) =~= calls);
        assert(given + answers =~= given);
    } else {
        let n = events.len() - 2;
        let fewer = answers.drop_last();
        let k = fewer.len() as int;
        let call = calls_in(content)[k];
        let before = events.take(n);
        let earlier = round_notes(content, fewer);
        assert(notes == earlier + call_notes(call, answers.last()));
        assert(all_untimed(before) =~= note_events(earlier, Some(at))) by {
            assert forall|i: int| 0 <= i < n implies #[trigger] all_untimed(before)[i]
                == note_events(earlier, Some(at))[i] by {
                assert(untimed(events[i]) == note_event(notes[i], Some(at)));
            }
        }
        lemma_round_noted(turn, before, at, content, fewer, calls, given);
        let mid = noted_all(turn, lines_of(before));
        assert(untimed(events[n]) == note_event(notes[n], Some(at)));
        assert(untimed(events[n + 1]) == note_event(notes[n + 1], Some(at)));
        lemma_call_noted(mid, events[n], events[n + 1], at, call, answers.last());
        assert(lines.drop_last().drop_last() =~= lines_of(before));
        let after = noted_all(turn, lines);
        assert(noted_all(turn, lines.drop_last()) == noted(mid, lines[n]));
        assert(after == noted(noted(mid, lines[n]), lines[n + 1]));
        let longer = calls + calls_in(content).take(answers.len() as int);
        let all = given + answers;
        assert forall|i: int| 0 <= i < after.tools.len() implies {
            &&& (#[trigger] after.tools[i]).call.tool_use_id == longer[i].id
            &&& after.tools[i].result matches Some(result) && recorded_answer(result) == all[i]
        } by {
            if i < mid.tools.len() {
                assert(after.tools.drop_last()[i] == mid.tools[i]);
                assert(mid.tools[i].call.tool_use_id == (calls + calls_in(content).take(k))[i].id);
            }
        }
    }
}

proof fn lemma_calls_lengths(rounds: Seq<RoundView>)
    requires
        are_whole(rounds),
    ensures
        all_calls(rounds).len() == all_answers(rounds).len(),
    decreases rounds.len(),
{
    if rounds.len() > 0 {
        assert forall|i: int| 0 <= i < rounds.drop_last().len() implies (
        #[trigger] rounds.drop_last()[i]).answers.len() == calls_in(
            rounds.drop_last()[i].content,
        ).len() by {
            assert(rounds[i].answers.len() == calls_in(rounds[i].content).len());
        }
        lemma_calls_lengths(rounds.drop_last());
        assert(rounds[rounds.len() - 1].answers.len() == calls_in(rounds.last().content).len());
    }
}

/// The lines of whole rounds leave their contents and their answered calls in
/// the record of a turn that held none before.
proof fn lemma_rounds_noted(
    turn: TurnView,
    events: Seq<EventView>,
    at: (Seq<char>, u64),
    rounds: Seq<RoundView>,
)
    requires
        turn.rounds.len() == 0,
        turn.tools.len() == 0,
        are_whole(rounds),
        all_untimed(events) == note_events(rounds_notes(rounds), Some(at)),
    ensures
        ({
            let after = noted_all(turn, lines_of(events));
            &&& after.rounds == contents(rounds)
            &&& after.request == turn.request
            &&& after.outcome == turn.outcome
            &&& holds_calls(after.tools, all_calls(rounds), all_answers(rounds))
        }),
    decreases rounds.len(),
{
    let lines = lines_of(events);
    let notes = rounds_notes(rounds);
    assert(events.len() == notes.len()) by {
        assert(all_untimed(events).len() == note_events(notes, Some(at)).len());
    }
    if rounds.len() == 0 {
        assert(turn.rounds =~= contents(rounds));
    } else {
        let fewer = rounds.drop_last();
        let last = rounds.last();
        assert forall|i: int| 0 <= i < fewer.len() implies (#[trigger] fewer[i]).answers.len()
            == calls_in(fewer[i].content).len() by {
            assert(rounds[i].answers.len() == calls_in(rounds[i].content).len());
        }
        assert(rounds[rounds.len() - 1].answers.len() == calls_in(last.content).len());
        let n = rounds_notes(fewer).len() as int;
        let a = events.take(n);
        let b = events.skip(n);
        assert forall|i: int| 0 <= i < events.len() implies untimed(#[trigger] events[i])
            == note_event(notes[i], Some(at)) by {
            assert(all_untimed(events)[i] == note_events(notes, Some(at))[i]);
        }
        assert(all_untimed(a) =~= note_events(rounds_notes(fewer), Some(at)));
        let tail = round_notes(last.content, last.answers);
        assert(all_untimed(b) =~= note_events(tail, Some(at))) by {
            assert forall|i: int| 0 <= i < b.len() implies #[trigger] all_untimed(b)[i]
                == note_events(tail, Some(at))[i] by {
                assert(untimed(events[n + i]) == note_event(notes[n + i], Some(at)));
            }
        }
        lemma_rounds_noted(turn, a, at, fewer);
        let mid = noted_all(turn, lines_of(a));
        lemma_round_noted(
            mid,
            b,
            at,
            last.content,
            last.answers,
            all_calls(fewer),
            all_answers(fewer),
        );
        assert(lines =~= lines_of(a) + lines_of(b));
        lemma_noted_concat(turn, lines_of(a), lines_of(b));
        assert(contents(fewer).push(last.content) =~= contents(rounds));
        assert(calls_in(last.content).take(last.answers.len() as int) =~= calls_in(last.content));
    }
}

// ---------------------------------------------------------------------------
// Rebuilding the rounds

/// Whether no two calls of a turn have the same id.
pub open spec fn ids_differ(calls: Seq<CallView>) -> bool {
    forall|i: int, j: int|
        0 <= i < j < calls.len() ==> (#[trigger] calls[i]).id != (#[trigger] calls[j]).id
}

proof fn lemma_call_place(tools: Seq<PairView>, id: Seq<char>, k: int)
    requires
        0 <= k < tools.len(),
        tools[k].call.tool_use_id == id,
        forall|i: int| 0 <= i < k ==> (#[trigger] tools[i]).call.tool_use_id != id,
    ensures
        call_place(tools, id) == k,
    decreases k,
{
    if k > 0 {
        assert(tools[0].call.tool_use_id != id);
        let rest = tools.skip(1);
        assert(rest[k - 1] == tools[k]);
        assert forall|i: int| 0 <= i < k - 1 implies (#[trigger] rest[i]).call.tool_use_id != id by {
            assert(tools[i + 1].call.tool_use_id != id);
        }
        lemma_call_place(rest, id, k - 1);
    }
}

/// The record holds, for each call, the block that was sent for it.
proof fn lemma_result_found(
    tools: Seq<PairView>,
    calls: Seq<CallView>,
    answers: Seq<AnswerView>,
    k: int,
)
    requires
        holds_calls(tools, calls, answers),
        ids_differ(calls),
        0 <= k < calls.len(),
    ensures
        recorded_result(tools, calls[k].id) == Some(result_block(calls[k].id, answers[k])),
{
    assert(tools[k].call.tool_use_id == calls[k].id);
    assert forall|i: int| 0 <= i < k implies (#[trigger] tools[i]).call.tool_use_id
        != calls[k].id by {
        assert(tools[i].call.tool_use_id == calls[i].id);
        assert(calls[i].id != calls[k].id);
    }
    lemma_call_place(tools, calls[k].id, k);
}

/// The results of a prefix of a round's content are rebuilt from the record.
proof fn lemma_results_rebuilt(
    tools: Seq<PairView>,
    calls: Seq<CallView>,
    answers: Seq<AnswerView>,
    round: RoundView,
    offset: int,
    n: int,
)
    requires
        holds_calls(tools, calls, answers),
        ids_differ(calls),
        0 <= n <= round.content.len(),
        0 <= offset,
        offset + calls_in(round.content).len() <= calls.len(),
        round.answers.len() == calls_in(round.content).len(),
        forall|i: int|
            0 <= i < round.answers.len() ==> {
                &&& #[trigger] calls_in(round.content)[i] == calls[offset + i]
                &&& round.answers[i] == answers[offset + i]
            },
    ensures
        recorded_results(tools, round.content.take(n)) == Some(
            round_results(round).take(calls_in(round.content.take(n)).len() as int),
        ),
    decreases n,
{
    let content = round.content;
    lemma_calls_prefix(content, n);
    if n == 0 {
        assert(content.take(0) =~= Seq::<BlockView>::empty());
        assert(round_results(round).take(0) =~= Seq::<BlockView>::empty());
    } else {
        lemma_results_rebuilt(tools, calls, answers, round, offset, n - 1);
        lemma_calls_prefix(content, n - 1);
        assert(content.take(n).drop_last() =~= content.take(n - 1));
        assert(content.take(n).last() == content[n - 1]);
        let m = calls_in(content.take(n - 1)).len() as int;
        match content[n - 1] {
            BlockView::ToolUse { id, name, input } => {
                let call = CallView { id, name, input };
                assert(calls_in(content.take(n)) == calls_in(content.take(n - 1)).push(call));
                assert(calls_in(content.take(n))[m] == call);
                assert(calls_in(content)[m] == call);
                lemma_result_found(tools, calls, answers, offset + m);
                assert(recorded_result(tools, id) == Some(round_results(round)[m]));
                assert(round_results(round).take(m).push(round_results(round)[m])
                    =~= round_results(round).take(m + 1));
            },
            _ => {},
        }
    }
}

proof fn lemma_calls_of_prefix(rounds: Seq<RoundView>, n: int)
    requires
        0 <= n < rounds.len(),
        are_whole(rounds),
    ensures
        all_calls(rounds.take(n)).len() + calls_in(rounds[n].content).len() <= all_calls(
            rounds,
        ).len(),
        all_calls(rounds).len() == all_answers(rounds).len(),
        forall|i: int|
            0 <= i < rounds[n].answers.len() ==> {
                &&& #[trigger] calls_in(rounds[n].content)[i] == all_calls(rounds)[all_calls(
                    rounds.take(n),
                ).len() + i]
                &&& rounds[n].answers[i] == all_answers(rounds)[all_calls(rounds.take(n)).len()
                    + i]
            },
    decreases rounds.len(),
{
    let fewer = rounds.drop_last();
    assert forall|i: int| 0 <= i < fewer.len() implies (#[trigger] fewer[i]).answers.len()
        == calls_in(fewer[i].content).len() by {
        assert(rounds[i].answers.len() == calls_in(rounds[i].content).len());
    }
    assert(rounds[n].answers.len() == calls_in(rounds[n].content).len());
    assert(rounds[rounds.len() - 1].answers.len() == calls_in(rounds.last().content).len());
    lemma_calls_lengths(rounds);
    lemma_calls_lengths(fewer);
    let offset = all_calls(rounds.take(n)).len() as int;
    let calls = all_calls(rounds);
    let answers = all_answers(rounds);
    assert(calls == all_calls(fewer) + calls_in(rounds.last().content));
    assert(answers == all_answers(fewer) + rounds.last().answers);
    if n == rounds.len() - 1 {
        assert(rounds.take(n) =~= fewer);
        assert forall|i: int| 0 <= i < rounds[n].answers.len() implies {
            &&& #[trigger] calls_in(rounds[n].content)[i] == calls[offset + i]
            &&& rounds[n].answers[i] == answers[offset + i]
        } by {
            assert(calls[offset + i] == calls_in(rounds.last().content)[i]);
            assert(answers[offset + i] == rounds.last().answers[i]);
        }
    } else {
        lemma_calls_of_prefix(fewer, n);
        assert(fewer.take(n) =~= rounds.take(n));
        assert(fewer[n] == rounds[n]);
        assert forall|i: int| 0 <= i < rounds[n].answers.len() implies {
            &&& #[trigger] calls_in(rounds[n].content)[i] == calls[offset + i]
            &&& rounds[n].answers[i] == answers[offset + i]
        } by {
            assert(calls_in(fewer[n].content)[i] == all_calls(fewer)[offset + i]);
            assert(calls[offset + i] == all_calls(fewer)[offset + i]);
            assert(answers[offset + i] == all_answers(fewer)[offset + i]);
        }
    }
}

/// The rounds of a turn are rebuilt from its record.
proof fn lemma_rounds_rebuilt(turn: TurnView, rounds: Seq<RoundView>, n: nat)
    requires
        n <= rounds.len(),
        are_whole(rounds),
        ids_differ(all_calls(rounds)),
        turn.rounds == contents(rounds),
        holds_calls(turn.tools, all_calls(rounds), all_answers(rounds)),
    ensures
        recorded_rounds(turn, n) == Some(rounds_messages(rounds.take(n as int))),
    decreases n,
{
    if n == 0 {
        assert(rounds.take(0) =~= Seq::<RoundView>::empty());
    } else {
        lemma_rounds_rebuilt(turn, rounds, (n - 1) as nat);
        let round = rounds[n - 1];
        lemma_calls_of_prefix(rounds, n - 1);
        assert(round.answers.len() == calls_in(round.content).len());
        lemma_results_rebuilt(
            turn.tools,
            all_calls(rounds),
            all_answers(rounds),
            round,
            all_calls(rounds.take(n - 1)).len() as int,
            round.content.len() as int,
        );
        assert(round.content.take(round.content.len() as int) =~= round.content);
        assert(round_results(round).take(round_results(round).len() as int) =~= round_results(
            round,
        ));
        assert(recorded_results(turn.tools, turn.rounds[n - 1]) == Some(round_results(round)));
        let before = rounds_messages(rounds.take(n - 1));
        assert(rounds.take(n as int).drop_last() =~= rounds.take(n - 1));
        assert(before.push(MessageView { role: Role::Assistant, content: round.content }).push(
            MessageView { role: Role::User, content: round_results(round) },
        ) =~= before + round_messages(round));
    }
}

// ---------------------------------------------------------------------------
// One turn

/// What a turn contributed to the live conversation; nothing, where it failed.
pub open spec fn contribution(prompt: Seq<char>, result: Result<TurnOutcome>) -> Option<
    Seq<MessageView>,
> {
    match result {
        Ok(outcome) => Some(
            seq![text_message(Role::User, prompt)] + views(outcome.transcript@) + seq![
                session_reply(outcome.reply@.content, outcome.capped),
            ],
        ),
        Err(_) => None,
    }
}

/// Whether a turn that noted `notes` and ended in `result` can be rebuilt. A
/// failed turn always can: it leaves nothing. A completed one needs its rounds
/// whole, no two of its calls under one id, a reply whose text is that of its
/// blocks and whose stop reason reads as itself, and at least one round where it
/// was capped.
pub open spec fn is_rebuildable(
    notes: Seq<NoteView>,
    rounds: Seq<RoundView>,
    result: Result<TurnOutcome>,
) -> bool {
    &&& is_made_of(notes, rounds, result)
    &&& match result {
        Err(_) => true,
        Ok(outcome) => {
            &&& ids_differ(all_calls(rounds))
            &&& outcome.reply@.text == text_of_blocks(outcome.reply@.content)
            &&& outcome.capped ==> rounds.len() > 0
            &&& stop_word(outcome.reply@.stop_reason) == Some("tool_use"@) ==> wants_tools(
                outcome.reply@,
            )
        },
    }
}

/// Whether the session turn `(id, index)` is not on the trail yet.
pub open spec fn is_new_turn(sessions: Seq<SessionView>, id: Seq<char>, index: u64) -> bool {
    let s = session_place(sessions, id) as int;
    s < sessions.len() ==> turn_place(sessions[s].turns, index) == sessions[s].turns.len()
}

/// `sessions` with `turn` at the end of the session `id`, which is added where
/// it is new.
pub open spec fn with_turn_added(
    sessions: Seq<SessionView>,
    id: Seq<char>,
    turn: TurnView,
) -> Seq<SessionView> {
    let all = with_session(sessions, id);
    let s = session_place(all, id) as int;
    all.update(s, SessionView { turns: all[s].turns.push(turn), ..all[s] })
}

proof fn lemma_rounds_notes_plain(rounds: Seq<RoundView>)
    ensures
        forall|i: int|
            0 <= i < rounds_notes(rounds).len() ==> !(#[trigger] rounds_notes(rounds)[i] is Other),
    decreases rounds.len(),
{
    if rounds.len() > 0 {
        let fewer = rounds.drop_last();
        lemma_rounds_notes_plain(fewer);
        lemma_round_notes_plain(rounds.last().content, rounds.last().answers);
        let a = rounds_notes(fewer);
        let b = round_notes(rounds.last().content, rounds.last().answers);
        assert forall|i: int| 0 <= i < (a + b).len() implies !(#[trigger] (a + b)[i] is Other) by {
            if i < a.len() {
                assert(!(a[i] is Other));
            } else {
                assert(!(b[i - a.len()] is Other));
            }
        }
    }
}

proof fn lemma_round_notes_plain(content: Seq<BlockView>, answers: Seq<AnswerView>)
    ensures
        forall|i: int|
            0 <= i < round_notes(content, answers).len() ==> !(#[trigger] round_notes(
                content,
                answers,
            )[i] is Other),
    decreases answers.len(),
{
    if answers.len() > 0 {
        lemma_round_notes_plain(content, answers.drop_last());
        let a = round_notes(content, answers.drop_last());
        let b = call_notes(calls_in(content)[answers.len() - 1], answers.last());
        assert forall|i: int| 0 <= i < (a + b).len() implies !(#[trigger] (a + b)[i] is Other) by {
            if i < a.len() {
                assert(!(a[i] is Other));
            }
        }
    }
}

/// The request line of a new turn opens it in its session.
proof fn lemma_turn_opens(
    r: SessionsView,
    line_no: nat,
    request: RequestView,
    id: Seq<char>,
    index: u64,
)
    requires
        request.session_id == Some(id),
        request.turn_index == Some(index),
        is_new_turn(r.sessions, id, index),
    ensures
        ({
            let opened = TurnView { request, rounds: seq![], tools: seq![], outcome: None };
            let after = sessions_step(r, line_no, LineView::Request(request));
            let s = session_place(with_session(r.sessions, id), id) as int;
            &&& after.sessions == with_turn_added(r.sessions, id, opened)
            &&& s < after.sessions.len()
            &&& located(after.sessions, Some((id, index))) == Some(
                (s, (after.sessions[s].turns.len() - 1) as int),
            )
            &&& after.sessions[s].turns.last() == opened
        }),
{
    let opened = TurnView { request, rounds: seq![], tools: seq![], outcome: None };
    let all = with_session(r.sessions, id);
    lemma_place_bound(r.sessions, id);
    if session_place(r.sessions, id) >= r.sessions.len() {
        assert(r.sessions.push(new_session(id)).drop_last() =~= r.sessions);
    }
    let s = session_place(all, id) as int;
    let turns = all[s].turns;
    let after = with_turn_added(r.sessions, id, opened);
    assert(turn_place(turns, index) == turns.len());
    lemma_place_by_ids(all, after, id);
    assert(after[s].turns == turns.push(opened));
    assert(turns.push(opened).drop_last() =~= turns);
}

/// Whatever is on the trail already, the lines of one new turn add that turn to
/// its session and change nothing else, and the turn is rebuilt as exactly what
/// it contributed to the live conversation.
pub proof fn law_turn_is_rebuilt_from_its_lines(
    r: SessionsView,
    from: nat,
    meta: ExchangeMeta,
    prompt: Seq<char>,
    id: Seq<char>,
    index: u64,
    notes: Seq<NoteView>,
    rounds: Seq<RoundView>,
    result: Result<TurnOutcome>,
    events: Seq<EventView>,
)
    requires
        is_new_turn(r.sessions, id, index),
        is_rebuildable(notes, rounds, result),
        all_untimed(events) == turn_events(meta, prompt, id, index, notes, result),
    ensures
        exists|turn: TurnView|
            {
                &&& read_on(r, from, lines_of(events)).sessions == #[trigger] with_turn_added(
                    r.sessions,
                    id,
                    turn,
                )
                &&& turn_history(turn) == contribution(prompt, result)
                &&& turn.request.turn_index == Some(index)
            },
{
    let at = (id, index);
    let planned = turn_events(meta, prompt, id, index, notes, result);
    assert(events.len() == planned.len()) by {
        assert(all_untimed(events).len() == planned.len());
    }
    assert forall|i: int| 0 <= i < events.len() implies untimed(#[trigger] events[i])
        == planned[i] by {
        assert(all_untimed(events)[i] == planned[i]);
    }
    let n = notes.len() as int;
    let middle = events.subrange(1, n + 1);
    let lines = lines_of(events);
    let first = seq![line_of(events[0])];
    let last = seq![line_of(events[n + 1])];
    assert(lines =~= first + lines_of(middle) + last);
    // The request.
    assert(untimed(events[0]) == planned[0]);
    let request = events[0]->Request_0;
    let r1 = read_on(r, from, first);
    assert(first.drop_last() =~= Seq::<LineView>::empty());
    assert(read_on(r, from, first.drop_last()) == r);
    lemma_turn_opens(r, from + 1, request, id, index);
    let opened = TurnView { request, rounds: seq![], tools: seq![], outcome: None };
    let all = with_session(r.sessions, id);
    let s = session_place(all, id) as int;
    let t = (r1.sessions[s].turns.len() - 1) as int;
    assert(r1.sessions == with_turn_added(r.sessions, id, opened));
    assert(located(r1.sessions, Some(at)) == Some((s, t)));
    // The notes.
    if result is Ok {
        lemma_rounds_notes_plain(rounds);
    }
    assert(all_untimed(middle) =~= note_events(notes, Some(at))) by {
        assert forall|i: int| 0 <= i < n implies #[trigger] all_untimed(middle)[i] == note_events(
            notes,
            Some(at),
        )[i] by {
            assert(untimed(events[i + 1]) == planned[i + 1]);
        }
    }
    assert forall|i: int| 0 <= i < lines_of(middle).len() implies is_note_line(
        #[trigger] lines_of(middle)[i],
        at,
    ) by {
        assert(all_untimed(middle)[i] == note_events(notes, Some(at))[i]);
        assert(untimed(middle[i]) == note_event(notes[i], Some(at)));
        assert(!(notes[i] is Other));
    }
    lemma_notes_read(r1, from + 1, lines_of(middle), at, (s, t));
    let told = noted_all(opened, lines_of(middle));
    let r2 = read_on(r1, from + 1, lines_of(middle));
    lemma_turn_stays(r1.sessions, at, (s, t), told);
    // The outcome.
    assert(untimed(events[n + 1]) == planned[n + 1]);
    let outcome = events[n + 1]->Response_0;
    assert(outcome_turn(outcome) == Some(at));
    let done = TurnView { outcome: Some(outcome), ..told };
    let r3 = read_on(r2, from + 1 + n as nat, last);
    assert(last.drop_last() =~= Seq::<LineView>::empty());
    assert(read_on(r2, from + 1 + n as nat, last.drop_last()) == r2);
    assert(r3.sessions == turn_set(r2.sessions, (s, t), done));
    assert(r3.sessions =~= with_turn_added(r.sessions, id, done)) by {
        assert(r3.sessions[s].turns =~= with_turn_added(r.sessions, id, done)[s].turns);
    }
    lemma_read_on_concat(r, from, first, lines_of(middle));
    lemma_read_on_concat(r, from, first + lines_of(middle), last);
    assert(read_on(r, from, lines).sessions == with_turn_added(r.sessions, id, done));
    // What is rebuilt.
    assert(done.request.turn_index == Some(index));
    match result {
        Err(_) => {},
        Ok(reply) => {
            lemma_rounds_noted(opened, middle, at, rounds);
            lemma_rounds_rebuilt(done, rounds, rounds.len());
            assert(rounds.take(rounds.len() as int) =~= rounds);
            lemma_lone_text(reply.reply@.content);
            law_trailed_content_is_recoverable(reply.reply@.content, reply.reply@.text);
            assert(stop_word(Some(StopView::ToolUse)) == Some("tool_use"@));
            assert(turn_history(done) == contribution(prompt, result));
        },
    }
}

proof fn lemma_lone_text(blocks: Seq<BlockView>)
    ensures
        single_text(blocks) matches Some(lone) ==> lone == text_of_blocks(blocks),
{
    if single_text(blocks) is Some {
        assert(blocks.drop_last() =~= Seq::<BlockView>::empty());
        assert(text_of_blocks(blocks.drop_last()) =~= Seq::<char>::empty());
        assert(text_of_blocks(blocks) =~= blocks[0]->Text_text);
    }
}

// ---------------------------------------------------------------------------
// A whole run

/// One turn of a live session.
pub struct LiveTurn {
    /// What the user said.
    pub prompt: Seq<char>,
    /// What was noted of its tools.
    pub notes: Seq<NoteView>,
    /// Its tool rounds.
    pub rounds: Seq<RoundView>,
    /// How it ended.
    pub result: Result<TurnOutcome>,
}

/// The live conversation after the first `n` turns of a run that began with
/// `history`.
pub open spec fn lived(history: Seq<MessageView>, turns: Seq<LiveTurn>, n: nat) -> Seq<MessageView>
    decreases n,
{
    if n == 0 || n > turns.len() {
        history
    } else {
        settled(
            lived(history, turns, (n - 1) as nat).push(
                text_message(Role::User, turns[n - 1].prompt),
            ),
            turns[n - 1].result,
        )
    }
}

/// The turns that are known of the session `id`.
pub open spec fn known_turns(sessions: Seq<SessionView>, id: Seq<char>) -> Seq<TurnView> {
    let s = session_place(sessions, id) as int;
    if s < sessions.len() {
        sessions[s].turns
    } else {
        seq![]
    }
}

/// The first `n` of `logs`, one after the other.
pub open spec fn joined(logs: Seq<Seq<EventView>>, n: nat) -> Seq<EventView>
    decreases n,
{
    if n == 0 || n > logs.len() {
        seq![]
    } else {
        joined(logs, (n - 1) as nat) + logs[n - 1]
    }
}

/// Whether the events of `logs` are those of the turns of one run, numbered
/// from `first` on.
pub open spec fn is_run(
    meta: ExchangeMeta,
    id: Seq<char>,
    first: u64,
    turns: Seq<LiveTurn>,
    logs: Seq<Seq<EventView>>,
) -> bool {
    &&& logs.len() == turns.len()
    &&& first + turns.len() <= u64::MAX
    &&& forall|i: int|
        0 <= i < turns.len() ==> {
            &&& all_untimed(#[trigger] logs[i]) == turn_events(
                meta,
                turns[i].prompt,
                id,
                (first + i) as u64,
                turns[i].notes,
                turns[i].result,
            )
            &&& is_rebuildable(turns[i].notes, turns[i].rounds, turns[i].result)
        }
}

/// Whether there is a number, and it is below `bound`.
pub open spec fn is_below(number: Option<u64>, bound: int) -> bool {
    match number {
        Some(n) => n < bound,
        None => false,
    }
}

/// Whether every turn has a number, below `bound`.
pub open spec fn are_numbered_below(turns: Seq<TurnView>, bound: int) -> bool {
    forall|i: int|
        0 <= i < turns.len() ==> is_below((#[trigger] turns[i]).request.turn_index, bound)
}

proof fn lemma_number_is_new(turns: Seq<TurnView>, index: u64)
    requires
        are_numbered_below(turns, index as int),
    ensures
        turn_place(turns, index) == turns.len(),
    decreases turns.len(),
{
    if turns.len() > 0 {
        assert forall|i: int| 0 <= i < turns.drop_last().len() implies is_below(
            (#[trigger] turns.drop_last()[i]).request.turn_index,
            index as int,
        ) by {
            assert(is_below(turns[i].request.turn_index, index as int));
        }
        lemma_number_is_new(turns.drop_last(), index);
        assert(is_below(turns[turns.len() - 1].request.turn_index, index as int));
    }
}

proof fn lemma_known_after(
    sessions: Seq<SessionView>,
    id: Seq<char>,
    turn: TurnView,
    other: Seq<char>,
)
    ensures
        known_turns(with_turn_added(sessions, id, turn), id) == known_turns(sessions, id).push(turn),
        other != id ==> known_turns(with_turn_added(sessions, id, turn), other) == known_turns(
            sessions,
            other,
        ),
{
    let all = with_session(sessions, id);
    let after = with_turn_added(sessions, id, turn);
    lemma_place_bound(sessions, id);
    lemma_place_bound(sessions, other);
    if session_place(sessions, id) >= sessions.len() {
        assert(sessions.push(new_session(id)).drop_last() =~= sessions);
    }
    lemma_place_bound(all, id);
    lemma_place_bound(all, other);
    lemma_place_by_ids(all, after, id);
    lemma_place_by_ids(all, after, other);
}

proof fn lemma_history_pushed(turns: Seq<TurnView>, turn: TurnView, n: nat)
    requires
        n <= turns.len(),
    ensures
        history_of(turns.push(turn), n) == history_of(turns, n),
    decreases n,
{
    if n > 0 {
        lemma_history_pushed(turns, turn, (n - 1) as nat);
    }
}

/// Whatever is on the trail already, the lines of a run add its turns to the
/// record of its session, and the conversation rebuilt from the record goes on
/// exactly as the live one did: from what the record rebuilt before, through
/// every turn of the run. Other sessions are as they were.
pub proof fn law_resumed_conversation_is_the_live_one(
    r: SessionsView,
    from: nat,
    meta: ExchangeMeta,
    id: Seq<char>,
    first: u64,
    turns: Seq<LiveTurn>,
    logs: Seq<Seq<EventView>>,
    other: Seq<char>,
)
    requires
        are_numbered_below(known_turns(r.sessions, id), first as int),
        is_run(meta, id, first, turns, logs),
    ensures
        ({
            let before = known_turns(r.sessions, id);
            let sessions = read_on(r, from, lines_of(joined(logs, logs.len()))).sessions;
            let after = known_turns(sessions, id);
            &&& after.len() == before.len() + turns.len()
            &&& history_of(after, after.len()) == lived(
                history_of(before, before.len()),
                turns,
                turns.len(),
            )
            &&& turns.len() > 0 && first + turns.len() <= u64::MAX ==> next_number(after) == first
                + turns.len()
            &&& other != id ==> known_turns(sessions, other) == known_turns(r.sessions, other)
        }),
{
    lemma_run_read(r, from, meta, id, first, turns, logs, other, turns.len());
}

proof fn lemma_run_read(
    r: SessionsView,
    from: nat,
    meta: ExchangeMeta,
    id: Seq<char>,
    first: u64,
    turns: Seq<LiveTurn>,
    logs: Seq<Seq<EventView>>,
    other: Seq<char>,
    n: nat,
)
    requires
        n <= turns.len(),
        are_numbered_below(known_turns(r.sessions, id), first as int),
        is_run(meta, id, first, turns, logs),
    ensures
        ({
            let before = known_turns(r.sessions, id);
            let sessions = read_on(r, from, lines_of(joined(logs, n))).sessions;
            let after = known_turns(sessions, id);
            &&& after.len() == before.len() + n
            &&& are_numbered_below(after, first + n)
            &&& n > 0 ==> after.last().request.turn_index == Some((first + n - 1) as u64)
            &&& history_of(after, after.len()) == lived(
                history_of(before, before.len()),
                turns,
                n,
            )
            &&& other != id ==> known_turns(sessions, other) == known_turns(r.sessions, other)
        }),
    decreases n,
{
    if n == 0 {
        assert(lines_of(joined(logs, 0)) =~= Seq::<LineView>::empty());
    } else {
        let m = (n - 1) as nat;
        lemma_run_read(r, from, meta, id, first, turns, logs, other, m);
        let live = turns[m as int];
        let log = logs[m as int];
        let index = (first + m) as u64;
        let head = lines_of(joined(logs, m));
        let mid = read_on(r, from, head);
        let old_turns = known_turns(mid.sessions, id);
        lemma_number_is_new(old_turns, index);
        lemma_place_bound(mid.sessions, id);
        law_turn_is_rebuilt_from_its_lines(
            mid,
            from + head.len(),
            meta,
            live.prompt,
            id,
            index,
            live.notes,
            live.rounds,
            live.result,
            log,
        );
        let turn = choose|turn: TurnView|
            {
                &&& read_on(mid, from + head.len(), lines_of(log)).sessions
                    == #[trigger] with_turn_added(mid.sessions, id, turn)
                &&& turn_history(turn) == contribution(live.prompt, live.result)
                &&& turn.request.turn_index == Some(index)
            };
        assert(lines_of(joined(logs, n)) =~= head + lines_of(log));
        lemma_read_on_concat(r, from, head, lines_of(log));
        lemma_known_after(mid.sessions, id, turn, other);
        let after = old_turns.push(turn);
        assert(after.last() == turn);
        assert forall|i: int| 0 <= i < after.len() implies is_below(
            (#[trigger] after[i]).request.turn_index,
            first + n,
        ) by {
            if i < old_turns.len() {
                assert(is_below(old_turns[i].request.turn_index, first + m));
            }
        }
        lemma_history_pushed(old_turns, turn, old_turns.len());
        let base = history_of(known_turns(r.sessions, id), known_turns(r.sessions, id).len());
        let history = lived(base, turns, m);
        let asked = history.push(text_message(Role::User, live.prompt));
        assert(history_of(after, old_turns.len()) == history);
        match live.result {
            Ok(outcome) => {
                assert(settled(asked, live.result) =~= history + contribution(
                    live.prompt,
                    live.result,
                ).unwrap());
            },
            Err(_) => {
                assert(asked.drop_last() =~= history);
            },
        }
    }
}

/// Reading a whole trail is reading on from nothing.
pub proof fn lemma_trail_is_read_on(events: Seq<ExchangeEvent>)
    ensures
        sessions_of(numbered_lines(events, 1, true)) == read_on(
            SessionsView { sessions: seq![], warnings: seq![] },
            0,
            lines_of(views(events)),
        ),
    decreases events.len(),
{
    if events.len() > 0 {
        let fewer = events.drop_last();
        lemma_trail_is_read_on(fewer);
        assert(numbered_lines(events, 1, true).drop_last() =~= numbered_lines(fewer, 1, true));
        assert(lines_of(views(events)).drop_last() =~= lines_of(views(fewer)));
        assert(views(events).last() == events.last()@);
    }
}

/// A session that was recorded from its first turn on, and whose trail holds
/// nothing else, resumes with the conversation that it had.
pub proof fn law_recorded_session_resumes(
    meta: ExchangeMeta,
    id: Seq<char>,
    turns: Seq<LiveTurn>,
    logs: Seq<Seq<EventView>>,
    events: Seq<ExchangeEvent>,
)
    requires
        is_run(meta, id, 0, turns, logs),
        views(events) == joined(logs, logs.len()),
    ensures
        ({
            let sessions = sessions_of(numbered_lines(events, 1, true)).sessions;
            let after = known_turns(sessions, id);
            &&& after.len() == turns.len()
            &&& history_of(after, after.len()) == lived(seq![], turns, turns.len())
            &&& turns.len() > 0 ==> next_number(after) == turns.len()
        }),
{
    let nothing = SessionsView { sessions: seq![], warnings: seq![] };
    lemma_trail_is_read_on(events);
    assert(known_turns(nothing.sessions, id) =~= Seq::<TurnView>::empty());
    law_resumed_conversation_is_the_live_one(nothing, 0, meta, id, 0, turns, logs, id);
}

/// Every turn that a session runs has the shape that rebuilding needs: a
/// completed one consists of whole rounds that make up its notes and its
/// transcript, and was capped only at the limit of the loop.
pub proof fn law_session_turns_consist_of_whole_rounds<T: Transport>(
    tool_loop: ToolLoop<T>,
    meta: ExchangeMeta,
    prompt: Seq<char>,
    id: Seq<char>,
    index: u64,
    history: Seq<MessageView>,
    call: TransportCall<TurnOutcome>,
    events: Seq<EventView>,
)
    requires
        is_session_turn(tool_loop, meta, prompt, id, index, history, call, events),
    ensures
        exists|notes: Seq<NoteView>, rounds: Seq<RoundView>|
            {
                &&& events == turn_events(meta, prompt, id, index, notes, call.result)
                &&& #[trigger] is_made_of(notes, rounds, call.result)
                &&& call.result is Ok && call.result->Ok_0.capped ==> tool_loop.max_tool_rounds == Some(
                    rounds.len() as usize,
                )
            },
{
    let result = call.result;
    let (notes, turn, signal) = choose|
        notes: Seq<NoteView>,
        turn: TransportCall<TurnOutcome>,
        signal: Option<InterruptSignal>,
    |
        {
            &&& #[trigger] tool_loop.ran(history, seq![], notes, turn)
            &&& #[trigger] tool_loop.transport.may_signal(signal)
            &&& call.result == overridden(turn.result, signal)
            &&& call.attempts == turn.attempts
            &&& events == turn_events(meta, prompt, id, index, notes, call.result)
        };
    match turn.result {
        Ok(outcome) => {
            let (rounds, calls) = choose|
                rounds: Seq<RoundView>,
                calls: Seq<TransportCall<AssistantReply>>,
            | #[trigger]
                tool_loop.finished(history, rounds, calls, outcome) && turn.attempts
                    == total_attempts(calls) && notes == Seq::<NoteView>::empty() + rounds_notes(
                    rounds,
                );
            assert(notes =~= rounds_notes(rounds));
            lemma_rounds_notes_plain(rounds);
            assert forall|i: int| 0 <= i < rounds.len() implies (#[trigger] rounds[i]).answers.len()
                == calls_in(rounds[i].content).len() by {
                assert(tool_loop.is_run(calls[i], rounds[i]));
            }
            assert(is_made_of(notes, rounds, result));
        },
        Err(error) => {
            let (rounds, calls, tail) = choose|
                rounds: Seq<RoundView>,
                calls: Seq<TransportCall<AssistantReply>>,
                tail: Seq<NoteView>,
            | #[trigger]
                tool_loop.broke_off(history, rounds, calls, tail, error) && turn.attempts
                    == total_attempts(calls) && notes == Seq::<NoteView>::empty() + rounds_notes(
                    rounds,
                ) + tail;
            lemma_rounds_notes_plain(rounds);
            if tail.len() > 0 {
                let content = reply_in(calls.last())@.content;
                let answers = choose|answers: Seq<AnswerView>|
                    tail == #[trigger] round_notes(content, answers) && is_broken_round(
                        tool_loop.registry,
                        content,
                        answers,
                        error,
                    );
                lemma_round_notes_plain(content, answers);
            }
            let whole = rounds_notes(rounds);
            assert(notes =~= whole + tail);
            assert forall|i: int| 0 <= i < notes.len() implies !(#[trigger] notes[i] is Other) by {
                if i < whole.len() {
                    assert(notes[i] == whole[i]);
                } else {
                    assert(notes[i] == tail[i - whole.len()]);
                }
            }
            assert(is_made_of(notes, rounds, result));
        },
    }
}

/// Whether a completed turn consists of `rounds`, noted as `notes`; of a failed
/// one, whether its notes are about tools.
pub open spec fn is_made_of(
    notes: Seq<NoteView>,
    rounds: Seq<RoundView>,
    result: Result<TurnOutcome>,
) -> bool {
    match result {
        Err(_) => forall|i: int| 0 <= i < notes.len() ==> !(#[trigger] notes[i] is Other),
        Ok(outcome) => {
            &&& notes == rounds_notes(rounds)
            &&& views(outcome.transcript@) == rounds_messages(rounds)
            &&& are_whole(rounds)
            &&& outcome.capped == wants_tools(outcome.reply@)
        },
    }
}

} // verus!
