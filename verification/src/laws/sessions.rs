//! What a trail holds, line by line and session by session.

use vstd::prelude::*;

use crate::events::{OutcomeView, RequestView, ToolCallView, ToolResultView};
use crate::laws::turns::lemma_place;
use crate::log::{
    answered, decode_line, is_blank_line, lemma_first_line, line_value, located, open_call,
    pairs_views, reports, scan, session_place, sessions_of, sessions_step, turn_place, with_session,
    LineView, PairView, ParseReport, ReportView, SessionView, SessionsView, TurnView,
};
use crate::model::BlockView;
use crate::text::{decimal, views};

verus! {

/// Whether `line` is one line of a trail: it ends in a line feed and holds no other.
pub open spec fn is_whole_line(line: Seq<u8>) -> bool {
    line.len() > 0 && line.last() == 10 && forall|i: int|
        0 <= i < line.len() - 1 ==> #[trigger] line[i] != 10
}

/// Whether `line` holds nothing but white space.
pub open spec fn is_empty_line(line: Seq<u8>) -> bool {
    forall|i: int|
        0 <= i < line.len() ==> #[trigger] line[i] == 32 || line[i] == 9 || line[i] == 10 || line[i]
            == 12 || line[i] == 13
}

/// A trail is read line by line: an empty line is passed over and still counted, a line
/// that reads comes before the lines after it and keeps its number, and a line that
/// does not read ends the reading with its number.
pub proof fn law_trails_are_read_line_by_line(
    line: Seq<u8>,
    rest: Seq<u8>,
    line_no: nat,
    sessions: bool,
)
    requires
        is_whole_line(line),
    ensures
        scan(Seq::<u8>::empty(), line_no, sessions) matches Ok(read) && read.lines.len() == 0
            && read.torn is None,
        ({
            let all = scan(line + rest, line_no, sessions);
            let more = scan(rest, line_no + 1, sessions);
            if is_empty_line(line) {
                all == more
            } else {
                match line_value(line) {
                    Err(detail) => all is Err && all->Err_0 == "line "@ + decimal(line_no) + ": "@
                        + detail,
                    Ok(v) => match decode_line(v, sessions) {
                        Err(detail) => all is Err && all->Err_0 == "line "@ + decimal(line_no)
                            + ": "@ + detail,
                        Ok(read) => match more {
                            Err(fault) => all is Err && all->Err_0 == fault,
                            Ok(after) => {
                                &&& all is Ok
                                &&& all->Ok_0.torn == after.torn
                                &&& all->Ok_0.lines.len() == after.lines.len() + 1
                                &&& all->Ok_0.lines[0] == (line_no, read)
                                &&& all->Ok_0.lines.skip(1) == after.lines
                            },
                        },
                    },
                }
            }
        }),
{
    let bytes = line + rest;
    assert forall|i: int| 0 <= i < line.len() - 1 implies bytes[i] != 10 by {
        assert(line[i] != 10);
    }
    lemma_first_line(bytes, line.len());
    assert(bytes.take(line.len() as int) =~= line);
    assert(bytes.skip(line.len() as int) =~= rest);
    assert(is_blank_line(line) == is_empty_line(line));
    if let Ok(v) = line_value(line) {
        if let Ok(read) = decode_line(v, sessions) {
            if let Ok(after) = scan(rest, line_no + 1, sessions) {
                if !is_empty_line(line) {
                    let all = scan(bytes, line_no, sessions)->Ok_0;
                    assert(all.lines.skip(1) =~= after.lines);
                }
            }
        }
    }
}

/// The requests of the session `id`, in order.
pub open spec fn requests_of(lines: Seq<(nat, LineView)>, id: Seq<char>) -> Seq<RequestView>
    decreases lines.len(),
{
    if lines.len() == 0 {
        Seq::empty()
    } else {
        let before = requests_of(lines.drop_last(), id);
        match lines.last().1 {
            LineView::Request(request) => if request.session_id == Some(id) {
                before.push(request)
            } else {
                before
            },
            _ => before,
        }
    }
}

/// Whether a line names the session `id`: it starts it, ends it, or asks within it.
pub open spec fn names_session(line: LineView, id: Seq<char>) -> bool {
    match line {
        LineView::Start { session_id } => session_id == id,
        LineView::End { session_id, .. } => session_id == id,
        LineView::Request(request) => request.session_id == Some(id),
        _ => false,
    }
}

/// Whether `outcome` is that of the turn `index` of the session `id`.
pub open spec fn is_outcome_of(outcome: OutcomeView, id: Seq<char>, index: Option<u64>) -> bool {
    index is Some && match outcome {
        OutcomeView::Success { session_id, turn_index, .. } => session_id == Some(id) && turn_index
            == index,
        OutcomeView::Error { session_id, turn_index, .. } => session_id == Some(id) && turn_index
            == index,
    }
}

/// Whether `session` holds the turns that `lines` hold of it: one for each of its
/// requests, in order, with an outcome only where a line gives that turn one.
pub open spec fn holds_turns(lines: Seq<(nat, LineView)>, session: SessionView) -> bool {
    let asked = requests_of(lines, session.session_id);
    &&& session.turns.len() == asked.len()
    &&& forall|j: int|
        0 <= j < asked.len() ==> {
            &&& (#[trigger] session.turns[j]).request == asked[j]
            &&& session.turns[j].outcome is Some ==> is_given(
                lines,
                session.turns[j].outcome.unwrap(),
                session.session_id,
                asked[j].turn_index,
            )
        }
}

/// Whether a line gives the turn `index` of the session `id` the outcome `outcome`.
pub open spec fn is_given(
    lines: Seq<(nat, LineView)>,
    outcome: OutcomeView,
    id: Seq<char>,
    index: Option<u64>,
) -> bool {
    is_outcome_of(outcome, id, index) && exists|i: int|
        0 <= i < lines.len() && (#[trigger] lines[i]).1 == LineView::Response(outcome)
}

/// Whether `sessions` are those of a trail: each that a line names, once, with its
/// turns.
pub open spec fn are_sessions_of(lines: Seq<(nat, LineView)>, sessions: Seq<SessionView>) -> bool {
    &&& forall|k: int, l: int|
        0 <= k < l < sessions.len() ==> (#[trigger] sessions[k]).session_id != (
        #[trigger] sessions[l]).session_id
    &&& forall|k: int| 0 <= k < sessions.len() ==> holds_turns(lines, #[trigger] sessions[k])
    &&& forall|k: int|
        0 <= k < sessions.len() ==> exists|i: int|
            0 <= i < lines.len() && names_session(
                (#[trigger] lines[i]).1,
                (#[trigger] sessions[k]).session_id,
            )
    &&& forall|i: int, id: Seq<char>|
        0 <= i < lines.len() && #[trigger] names_session(lines[i].1, id) ==> is_among(sessions, id)
}

/// Whether there is a session `id`.
pub open spec fn is_among(sessions: Seq<SessionView>, id: Seq<char>) -> bool {
    exists|k: int| 0 <= k < sessions.len() && (#[trigger] sessions[k]).session_id == id
}

/// Whether the sessions of `after` have the ids and the turns of those of `before`, in
/// order, but for what is not their ids and requests and outcomes.
spec fn are_alike(before: Seq<SessionView>, after: Seq<SessionView>) -> bool {
    &&& before.len() == after.len()
    &&& forall|k: int|
        0 <= k < before.len() ==> {
            &&& (#[trigger] after[k]).session_id == before[k].session_id
            &&& after[k].turns.len() == before[k].turns.len()
            &&& forall|j: int|
                0 <= j < before[k].turns.len() ==> (#[trigger] after[k].turns[j]).request
                    == before[k].turns[j].request
        }
}

proof fn lemma_given_later(
    lines: Seq<(nat, LineView)>,
    outcome: OutcomeView,
    id: Seq<char>,
    index: Option<u64>,
)
    requires
        lines.len() > 0,
        is_given(lines.drop_last(), outcome, id, index),
    ensures
        is_given(lines, outcome, id, index),
{
    let before = lines.drop_last();
    let i = choose|i: int|
        0 <= i < before.len() && (#[trigger] before[i]).1 == LineView::Response(outcome);
    assert(lines[i] == before[i]);
}

proof fn lemma_named_later(lines: Seq<(nat, LineView)>, sessions: Seq<SessionView>, k: int)
    requires
        lines.len() > 0,
        are_sessions_of(lines.drop_last(), sessions),
        0 <= k < sessions.len(),
    ensures
        exists|i: int|
            0 <= i < lines.len() && names_session((#[trigger] lines[i]).1, sessions[k].session_id),
{
    let before = lines.drop_last();
    let i = choose|i: int|
        0 <= i < before.len() && names_session(
            (#[trigger] before[i]).1,
            (#[trigger] sessions[k]).session_id,
        );
    assert(lines[i] == before[i]);
    assert(names_session(lines[i].1, sessions[k].session_id));
}

/// A line that is no request and names no new session keeps the sessions, where they
/// stay alike and only outcomes that the line gives are new.
proof fn lemma_alike(lines: Seq<(nat, LineView)>, before: Seq<SessionView>, after: Seq<SessionView>)
    requires
        lines.len() > 0,
        are_sessions_of(lines.drop_last(), before),
        are_alike(before, after),
        !(lines.last().1 is Request),
        forall|id: Seq<char>| #[trigger] names_session(lines.last().1, id) ==> is_among(after, id),
        forall|k: int, j: int|
            0 <= k < before.len() && 0 <= j < before[k].turns.len() ==> {
                ||| (#[trigger] after[k].turns[j]).outcome == before[k].turns[j].outcome
                ||| after[k].turns[j].outcome is Some && is_given(
                    lines,
                    after[k].turns[j].outcome.unwrap(),
                    after[k].session_id,
                    after[k].turns[j].request.turn_index,
                )
            },
    ensures
        are_sessions_of(lines, after),
{
    let front = lines.drop_last();
    assert forall|k: int, l: int| 0 <= k < l < after.len() implies (
    #[trigger] after[k]).session_id != (#[trigger] after[l]).session_id by {
        assert(before[k].session_id != before[l].session_id);
    }
    assert forall|k: int| 0 <= k < after.len() implies holds_turns(lines, #[trigger] after[k]) by {
        let id = after[k].session_id;
        assert(holds_turns(front, before[k]));
        assert(requests_of(lines, id) == requests_of(front, id));
        let asked = requests_of(lines, id);
        assert forall|j: int| 0 <= j < asked.len() implies {
            &&& (#[trigger] after[k].turns[j]).request == asked[j]
            &&& after[k].turns[j].outcome is Some ==> is_given(
                lines,
                after[k].turns[j].outcome.unwrap(),
                id,
                asked[j].turn_index,
            )
        } by {
            assert(before[k].turns[j].request == asked[j]);
            if after[k].turns[j].outcome is Some && after[k].turns[j].outcome
                == before[k].turns[j].outcome {
                lemma_given_later(
                    lines,
                    before[k].turns[j].outcome.unwrap(),
                    id,
                    asked[j].turn_index,
                );
            }
        }
    }
    assert forall|k: int| 0 <= k < after.len() implies exists|i: int|
        0 <= i < lines.len() && names_session(
            (#[trigger] lines[i]).1,
            (#[trigger] after[k]).session_id,
        ) by {
        lemma_named_later(lines, before, k);
    }
    assert forall|i: int, id: Seq<char>|
        0 <= i < lines.len() && #[trigger] names_session(lines[i].1, id) implies is_among(
        after,
        id,
    ) by {
        if i < front.len() {
            assert(front[i] == lines[i]);
            assert(names_session(front[i].1, id));
            assert(is_among(before, id));
            let k = choose|k: int|
                0 <= k < before.len() && (#[trigger] before[k]).session_id == id;
            assert(after[k].session_id == id);
        }
    }
}

proof fn lemma_turn_place(turns: Seq<TurnView>, index: u64)
    ensures
        turn_place(turns, index) <= turns.len(),
        turn_place(turns, index) < turns.len() ==> turns[turn_place(
            turns,
            index,
        ) as int].request.turn_index == Some(index),
    decreases turns.len(),
{
    if turns.len() > 0 {
        lemma_turn_place(turns.drop_last(), index);
    }
}

proof fn lemma_located(sessions: Seq<SessionView>, turn: Option<(Seq<char>, u64)>)
    ensures
        located(sessions, turn) matches Some(at) ==> {
            &&& 0 <= at.0 < sessions.len()
            &&& 0 <= at.1 < sessions[at.0].turns.len()
            &&& turn is Some
            &&& sessions[at.0].session_id == turn.unwrap().0
            &&& sessions[at.0].turns[at.1].request.turn_index == Some(turn.unwrap().1)
        },
{
    if let Some((id, index)) = turn {
        lemma_place(sessions, id);
        let s = session_place(sessions, id) as int;
        if s < sessions.len() {
            lemma_turn_place(sessions[s].turns, index);
        }
    }
}

/// A new session, or none, where a line names one.
proof fn lemma_opened(lines: Seq<(nat, LineView)>, before: Seq<SessionView>, id: Seq<char>)
    requires
        lines.len() > 0,
        are_sessions_of(lines.drop_last(), before),
        names_session(lines.last().1, id),
        forall|other: Seq<char>| names_session(lines.last().1, other) ==> other == id,
    ensures
        ({
            let all = with_session(before, id);
            let i = session_place(all, id) as int;
            &&& 0 <= i < all.len()
            &&& all[i].session_id == id
            &&& all.len() >= before.len()
            &&& forall|k: int| 0 <= k < before.len() ==> #[trigger] all[k] == before[k]
            &&& all.len() > before.len() ==> {
                &&& all.len() == before.len() + 1
                &&& i == before.len()
                &&& all[i].turns.len() == 0
                &&& requests_of(lines.drop_last(), id).len() == 0
            }
            &&& forall|k: int, l: int|
                0 <= k < l < all.len() ==> (#[trigger] all[k]).session_id != (
                #[trigger] all[l]).session_id
        }),
{
    let front = lines.drop_last();
    let all = with_session(before, id);
    lemma_place(before, id);
    lemma_place(all, id);
    if session_place(before, id) >= before.len() {
        assert(!is_among(before, id)) by {
            if is_among(before, id) {
                let k = choose|k: int|
                    0 <= k < before.len() && (#[trigger] before[k]).session_id == id;
                assert(before[k].session_id != id);
            }
        }
        let i = session_place(all, id) as int;
        assert(all[before.len() as int].session_id == id);
        if i < before.len() {
            assert(before[i].session_id == id);
        }
        lemma_unasked(front, before, id);
        assert forall|k: int, l: int| 0 <= k < l < all.len() implies (
        #[trigger] all[k]).session_id != (#[trigger] all[l]).session_id by {
            if l == before.len() {
                assert(before[k].session_id != id);
            }
        }
    }
}

proof fn lemma_unasked(lines: Seq<(nat, LineView)>, sessions: Seq<SessionView>, id: Seq<char>)
    requires
        are_sessions_of(lines, sessions),
        !is_among(sessions, id),
    ensures
        requests_of(lines, id).len() == 0,
{
    lemma_asked_is_named(lines, id);
    if requests_of(lines, id).len() > 0 {
        let i = choose|i: int| 0 <= i < lines.len() && names_session((#[trigger] lines[i]).1, id);
        assert(names_session(lines[i].1, id));
    }
}

proof fn lemma_asked_is_named(lines: Seq<(nat, LineView)>, id: Seq<char>)
    ensures
        requests_of(lines, id).len() > 0 ==> exists|i: int|
            0 <= i < lines.len() && names_session((#[trigger] lines[i]).1, id),
    decreases lines.len(),
{
    if lines.len() > 0 {
        let front = lines.drop_last();
        lemma_asked_is_named(front, id);
        if requests_of(front, id).len() > 0 {
            let i = choose|i: int|
                0 <= i < front.len() && names_session((#[trigger] front[i]).1, id);
            assert(lines[i] == front[i]);
        } else if requests_of(lines, id).len() > 0 {
            assert(names_session(lines[lines.len() - 1].1, id));
        }
    }
}

/// A line that names a session opens it, and adds a turn where it is a request.
proof fn lemma_named(
    lines: Seq<(nat, LineView)>,
    before: Seq<SessionView>,
    after: Seq<SessionView>,
    id: Seq<char>,
)
    requires
        lines.len() > 0,
        are_sessions_of(lines.drop_last(), before),
        names_session(lines.last().1, id),
        forall|other: Seq<char>| names_session(lines.last().1, other) ==> other == id,
        ({
            let all = with_session(before, id);
            let i = session_place(all, id) as int;
            &&& after.len() == all.len()
            &&& forall|k: int| 0 <= k < all.len() && k != i ==> #[trigger] after[k] == all[k]
            &&& after[i].session_id == id
            &&& match lines.last().1 {
                LineView::Request(request) => after[i].turns == all[i].turns.push(
                    TurnView { request, rounds: seq![], tools: seq![], outcome: None },
                ),
                _ => after[i].turns == all[i].turns,
            }
        }),
    ensures
        are_sessions_of(lines, after),
{
    let front = lines.drop_last();
    let all = with_session(before, id);
    let at = session_place(all, id) as int;
    lemma_opened(lines, before, id);
    assert forall|k: int, l: int| 0 <= k < l < after.len() implies (
    #[trigger] after[k]).session_id != (#[trigger] after[l]).session_id by {
        assert(all[k].session_id != all[l].session_id);
    }
    assert forall|k: int| 0 <= k < after.len() implies holds_turns(lines, #[trigger] after[k]) by {
        let of = after[k].session_id;
        if k != at {
            assert(k < before.len());
            assert(after[k] == before[k]);
            assert(all[k].session_id != all[at].session_id);
            assert(holds_turns(front, before[k]));
            assert(requests_of(lines, of) == requests_of(front, of));
            lemma_turns_later(lines, before[k]);
        } else {
            if at < before.len() {
                assert(all[at] == before[at]);
                assert(holds_turns(front, before[at]));
            }
            let asked = requests_of(front, id);
            let held = all[at].turns;
            assert(held.len() == asked.len());
            let more = requests_of(lines, id);
            assert forall|j: int| 0 <= j < more.len() implies {
                &&& (#[trigger] after[k].turns[j]).request == more[j]
                &&& after[k].turns[j].outcome is Some ==> is_given(
                    lines,
                    after[k].turns[j].outcome.unwrap(),
                    id,
                    more[j].turn_index,
                )
            } by {
                if j < asked.len() {
                    assert(at < before.len());
                    assert(after[k].turns[j] == before[at].turns[j]);
                    assert(before[at].turns[j].request == asked[j]);
                    if before[at].turns[j].outcome is Some {
                        lemma_given_later(
                            lines,
                            before[at].turns[j].outcome.unwrap(),
                            id,
                            asked[j].turn_index,
                        );
                    }
                }
            }
        }
    }
    assert forall|k: int| 0 <= k < after.len() implies exists|i: int|
        0 <= i < lines.len() && names_session(
            (#[trigger] lines[i]).1,
            (#[trigger] after[k]).session_id,
        ) by {
        if k != at {
            lemma_named_later(lines, before, k);
            assert(after[k] == before[k]);
        } else {
            assert(names_session(lines[lines.len() - 1].1, id));
        }
    }
    assert forall|i: int, other: Seq<char>|
        0 <= i < lines.len() && #[trigger] names_session(lines[i].1, other) implies is_among(
        after,
        other,
    ) by {
        if i < front.len() {
            assert(front[i] == lines[i]);
            assert(names_session(front[i].1, other));
            assert(is_among(before, other));
            let k = choose|k: int|
                0 <= k < before.len() && (#[trigger] before[k]).session_id == other;
            assert(all[k] == before[k]);
            assert(after[k].session_id == other);
        } else {
            assert(after[at].session_id == other);
        }
    }
}

proof fn lemma_turns_later(lines: Seq<(nat, LineView)>, session: SessionView)
    requires
        lines.len() > 0,
        holds_turns(lines.drop_last(), session),
        requests_of(lines, session.session_id) == requests_of(
            lines.drop_last(),
            session.session_id,
        ),
    ensures
        holds_turns(lines, session),
{
    let asked = requests_of(lines, session.session_id);
    assert forall|j: int| 0 <= j < asked.len() implies {
        &&& (#[trigger] session.turns[j]).request == asked[j]
        &&& session.turns[j].outcome is Some ==> is_given(
            lines,
            session.turns[j].outcome.unwrap(),
            session.session_id,
            asked[j].turn_index,
        )
    } by {
        if session.turns[j].outcome is Some {
            lemma_given_later(
                lines,
                session.turns[j].outcome.unwrap(),
                session.session_id,
                asked[j].turn_index,
            );
        }
    }
}

/// Reading a trail gives every session that it names, once, with one turn for each of
/// its requests, in order, and with the outcomes that were recorded for its turns.
pub proof fn law_every_session_is_read_with_its_turns(lines: Seq<(nat, LineView)>)
    ensures
        are_sessions_of(lines, sessions_of(lines).sessions),
    decreases lines.len(),
{
    if lines.len() > 0 {
        let front = lines.drop_last();
        law_every_session_is_read_with_its_turns(front);
        let r = sessions_of(front);
        let next = sessions_of(lines);
        let before = r.sessions;
        let after = next.sessions;
        let last = lines.last().1;
        match last {
            LineView::Start { session_id } => {
                lemma_opened(lines, before, session_id);
                lemma_named(lines, before, after, session_id);
            },
            LineView::End { session_id, .. } => {
                lemma_opened(lines, before, session_id);
                lemma_named(lines, before, after, session_id);
            },
            LineView::Request(request) => match request.session_id {
                Some(id) => {
                    lemma_opened(lines, before, id);
                    lemma_named(lines, before, after, id);
                },
                None => {
                    lemma_other_request(lines, before);
                },
            },
            LineView::Response(outcome) => {
                let turn = crate::log::outcome_turn(outcome);
                lemma_located(before, turn);
                assert(lines[lines.len() - 1].1 == LineView::Response(outcome));
                if let Some(at) = located(before, turn) {
                    assert(is_outcome_of(
                        outcome,
                        before[at.0].session_id,
                        before[at.0].turns[at.1].request.turn_index,
                    ));
                }
                lemma_alike(lines, before, after);
            },
            LineView::Round { turn, .. } => {
                lemma_located(before, turn);
                lemma_alike(lines, before, after);
            },
            LineView::Call { turn, .. } => {
                lemma_located(before, turn);
                lemma_alike(lines, before, after);
            },
            LineView::Result { turn, .. } => {
                lemma_located(before, turn);
                lemma_alike(lines, before, after);
            },
            LineView::Skipped => {
                lemma_alike(lines, before, after);
            },
        }
    }
}

/// A request outside any session keeps the sessions as they are.
proof fn lemma_other_request(lines: Seq<(nat, LineView)>, sessions: Seq<SessionView>)
    requires
        lines.len() > 0,
        are_sessions_of(lines.drop_last(), sessions),
        lines.last().1 matches LineView::Request(request) && request.session_id is None,
    ensures
        are_sessions_of(lines, sessions),
{
    let front = lines.drop_last();
    assert forall|k: int| 0 <= k < sessions.len() implies holds_turns(
        lines,
        #[trigger] sessions[k],
    ) by {
        assert(holds_turns(front, sessions[k]));
        lemma_turns_later(lines, sessions[k]);
    }
    assert forall|k: int| 0 <= k < sessions.len() implies exists|i: int|
        0 <= i < lines.len() && names_session(
            (#[trigger] lines[i]).1,
            (#[trigger] sessions[k]).session_id,
        ) by {
        lemma_named_later(lines, sessions, k);
    }
    assert forall|i: int, id: Seq<char>|
        0 <= i < lines.len() && #[trigger] names_session(lines[i].1, id) implies is_among(
        sessions,
        id,
    ) by {
        if i < front.len() {
            assert(front[i] == lines[i]);
            assert(names_session(front[i].1, id));
        }
    }
}

/// Whether the call `pair` waits for the result of the call `id`.
pub open spec fn awaits(pair: PairView, id: Seq<char>) -> bool {
    pair.call.tool_use_id == id && pair.result is None
}

proof fn lemma_open_call(pairs: Seq<PairView>, id: Seq<char>)
    ensures
        open_call(pairs, id) <= pairs.len(),
        open_call(pairs, id) < pairs.len() ==> awaits(pairs[open_call(pairs, id) as int], id),
        forall|i: int| 0 <= i < open_call(pairs, id) ==> !awaits(#[trigger] pairs[i], id),
    decreases pairs.len(),
{
    if pairs.len() > 0 {
        let front = pairs.drop_last();
        lemma_open_call(front, id);
        assert forall|i: int| 0 <= i < open_call(pairs, id) implies !awaits(
            #[trigger] pairs[i],
            id,
        ) by {
            if i < front.len() {
                assert(front[i] == pairs[i]);
            }
        }
    }
}

/// Whether `after` is `pairs` with `result` given to the call at `i`.
pub open spec fn is_answered_at(
    pairs: Seq<PairView>,
    after: Seq<PairView>,
    i: int,
    result: ToolResultView,
) -> bool {
    &&& after.len() == pairs.len()
    &&& after[i].call == pairs[i].call
    &&& after[i].result == Some(result)
    &&& forall|k: int| 0 <= k < pairs.len() && k != i ==> #[trigger] after[k] == pairs[k]
}

/// A recorded result goes to the first call of its id that still waits for one. No
/// other call changes, and where no call waits for it nothing does.
pub proof fn law_results_go_to_the_call_they_answer(
    pairs: Seq<PairView>,
    result: ToolResultView,
)
    ensures
        forall|i: int|
            0 <= i < pairs.len() && #[trigger] awaits(pairs[i], result.tool_use_id) && (forall|k: int|
                0 <= k < i ==> !awaits(#[trigger] pairs[k], result.tool_use_id)) ==> is_answered_at(
                pairs,
                answered(pairs, result),
                i,
                result,
            ),
        (forall|k: int| 0 <= k < pairs.len() ==> !awaits(#[trigger] pairs[k], result.tool_use_id))
            ==> answered(pairs, result) == pairs,
{
    lemma_open_call(pairs, result.tool_use_id);
    let at = open_call(pairs, result.tool_use_id) as int;
    assert forall|i: int|
        0 <= i < pairs.len() && #[trigger] awaits(pairs[i], result.tool_use_id) && (forall|k: int|
            0 <= k < i ==> !awaits(#[trigger] pairs[k], result.tool_use_id)) implies is_answered_at(
        pairs,
        answered(pairs, result),
        i,
        result,
    ) by {
        if at < i {
            assert(!awaits(pairs[at], result.tool_use_id));
        } else if i < at {
            assert(!awaits(pairs[i], result.tool_use_id));
        }
    }
    if at < pairs.len() {
        assert(awaits(pairs[at], result.tool_use_id));
    }
}

/// Whether the session at `s` is the first `id`, and its turn at `t` the first `index`.
pub open spec fn is_turn_at(
    sessions: Seq<SessionView>,
    id: Seq<char>,
    index: u64,
    s: int,
    t: int,
) -> bool {
    &&& 0 <= s < sessions.len()
    &&& 0 <= t < sessions[s].turns.len()
    &&& sessions[s].session_id == id
    &&& sessions[s].turns[t].request.turn_index == Some(index)
    &&& forall|k: int| 0 <= k < s ==> (#[trigger] sessions[k]).session_id != id
    &&& forall|k: int|
        0 <= k < t ==> (#[trigger] sessions[s].turns[k]).request.turn_index != Some(index)
}

/// Whether `after` is `before` but for the turn at `t` of the session at `s`, and that
/// turn has kept its request and its outcome.
pub open spec fn is_same_but_at(
    before: Seq<SessionView>,
    after: Seq<SessionView>,
    s: int,
    t: int,
) -> bool {
    &&& after.len() == before.len()
    &&& forall|k: int| 0 <= k < before.len() && k != s ==> #[trigger] after[k] == before[k]
    &&& after[s].session_id == before[s].session_id
    &&& after[s].started == before[s].started
    &&& after[s].ended == before[s].ended
    &&& after[s].declared_turns == before[s].declared_turns
    &&& after[s].turns.len() == before[s].turns.len()
    &&& forall|k: int|
        0 <= k < before[s].turns.len() && k != t ==> #[trigger] after[s].turns[k]
            == before[s].turns[k]
    &&& after[s].turns[t].request == before[s].turns[t].request
    &&& after[s].turns[t].outcome == before[s].turns[t].outcome
}

proof fn lemma_first_turn(turns: Seq<TurnView>, index: u64)
    ensures
        forall|k: int|
            0 <= k < turn_place(turns, index) ==> (#[trigger] turns[k]).request.turn_index != Some(
                index,
            ),
    decreases turns.len(),
{
    if turns.len() > 0 {
        let front = turns.drop_last();
        lemma_first_turn(front, index);
        lemma_turn_place(front, index);
        assert forall|k: int| 0 <= k < turn_place(turns, index) implies (
        #[trigger] turns[k]).request.turn_index != Some(index) by {
            if k < front.len() {
                assert(front[k] == turns[k]);
            }
        }
    }
}

/// The lines about the tools of a turn are kept with that turn, after those kept before:
/// a round with its content, a call without a result, a result with the call it answers.
/// Nothing else of the sessions changes.
pub proof fn law_tool_lines_are_kept_with_their_turn(
    r: SessionsView,
    line_no: nat,
    id: Seq<char>,
    index: u64,
    s: int,
    t: int,
    content: Seq<BlockView>,
    call: ToolCallView,
    result: ToolResultView,
)
    requires
        is_turn_at(r.sessions, id, index, s, t),
    ensures
        ({
            let turn = Some((id, index));
            let before = r.sessions[s].turns[t];
            let told = sessions_step(r, line_no, LineView::Round { content, turn });
            let called = sessions_step(r, line_no, LineView::Call { call, turn });
            let replied = sessions_step(r, line_no, LineView::Result { result, turn });
            &&& told.warnings == r.warnings
            &&& is_same_but_at(r.sessions, told.sessions, s, t)
            &&& told.sessions[s].turns[t].tools == before.tools
            &&& told.sessions[s].turns[t].rounds == before.rounds + seq![content]
            &&& called.warnings == r.warnings
            &&& is_same_but_at(r.sessions, called.sessions, s, t)
            &&& called.sessions[s].turns[t].rounds == before.rounds
            &&& called.sessions[s].turns[t].tools == before.tools + seq![
                PairView { call, result: None },
            ]
            &&& replied.warnings == r.warnings
            &&& is_same_but_at(r.sessions, replied.sessions, s, t)
            &&& replied.sessions[s].turns[t].rounds == before.rounds
            &&& forall|i: int|
                0 <= i < before.tools.len() && #[trigger] awaits(
                    before.tools[i],
                    result.tool_use_id,
                ) && (forall|k: int|
                    0 <= k < i ==> !awaits(#[trigger] before.tools[k], result.tool_use_id))
                    ==> is_answered_at(
                    before.tools,
                    replied.sessions[s].turns[t].tools,
                    i,
                    result,
                )
        }),
{
    let turn = Some((id, index));
    let before = r.sessions[s].turns[t];
    lemma_place(r.sessions, id);
    let at = session_place(r.sessions, id) as int;
    if at > s {
        assert(r.sessions[s].session_id != id);
    }
    assert(at == s);
    lemma_first_turn(r.sessions[s].turns, index);
    lemma_turn_place(r.sessions[s].turns, index);
    let place = turn_place(r.sessions[s].turns, index) as int;
    if place > t {
        assert(r.sessions[s].turns[t].request.turn_index != Some(index));
    }
    assert(place == t);
    let told = sessions_step(r, line_no, LineView::Round { content, turn });
    let called = sessions_step(r, line_no, LineView::Call { call, turn });
    assert(told.sessions[s].turns[t].rounds =~= before.rounds + seq![content]);
    assert(called.sessions[s].turns[t].tools =~= before.tools + seq![
        PairView { call, result: None },
    ]);
    law_results_go_to_the_call_they_answer(before.tools, result);
}

/// A partial last line is warned of behind everything else, and takes no warning away.
pub proof fn law_a_torn_line_is_the_last_warning(
    report: ParseReport,
    r: ReportView,
    torn: Option<Seq<char>>,
)
    requires
        reports(report, r, torn),
    ensures
        views(report.exchanges@) == r.exchanges,
        report.tools@.len() == r.tools.len(),
        forall|i: int| 0 <= i < r.tools.len() ==> views((#[trigger] report.tools@[i])@) == r.tools[i],
        forall|i: int|
            0 <= i < r.warnings.len() ==> (#[trigger] report.warnings@[i])@ == r.warnings[i],
        report.warnings@.len() == r.warnings.len() + if torn is Some {
            1int
        } else {
            0
        },
        torn matches Some(warning) ==> report.warnings@.last()@ == warning,
{
    let told = views(report.warnings@);
    assert(told.len() == report.warnings@.len());
    assert forall|i: int| 0 <= i < r.warnings.len() implies (#[trigger] report.warnings@[i])@
        == r.warnings[i] by {
        assert(told[i] == report.warnings@[i]@);
    }
    assert forall|i: int| 0 <= i < r.tools.len() implies views((#[trigger] report.tools@[i])@)
        == r.tools[i] by {
        assert(pairs_views(report.tools@)[i] == views(report.tools@[i]@));
    }
    if torn is Some {
        assert(told[r.warnings.len() as int] == report.warnings@[r.warnings.len() as int]@);
    }
}

} // verus!
