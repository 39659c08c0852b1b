//! What is read out of a trail and shown of it.

use vstd::prelude::*;

use crate::calendar::stamp_of;
use crate::cli::shown;
use crate::events::{status_wire, ExchangeView, OutcomeView, ToolResultView, ToolStatus};
use crate::laws::layout::{is_joined, law_join_lays_out_every_part, lemma_joined_push};
use crate::log::{
    exchange_text, excerpt_of, open_call, outcome_text, pair_text, pairs_text, report_of,
    report_step, tokens_text, LineView, PairView, ReportView, ToolPair,
};
use crate::text::{decimal, views};

verus! {

/// The calls that belong to the exchange at place `i`; none, where none were kept.
pub open spec fn own_calls(tools: Seq<Vec<ToolPair>>, i: int) -> Seq<PairView> {
    if i < tools.len() {
        views(tools[i]@)
    } else {
        Seq::empty()
    }
}

/// The blocks of the first `n` exchanges.
pub open spec fn blocks_of(exchanges: Seq<ExchangeView>, tools: Seq<Vec<ToolPair>>, n: nat) -> Seq<
    Seq<char>,
> {
    Seq::new(n, |i: int| exchange_text((i + 1) as nat, exchanges[i], own_calls(tools, i)))
}

proof fn lemma_shown(exchanges: Seq<ExchangeView>, tools: Seq<Vec<ToolPair>>, n: nat)
    requires
        n <= exchanges.len(),
    ensures
        is_joined(shown(exchanges, tools, n), blocks_of(exchanges, tools, n), seq![]),
    decreases n,
{
    let blocks = blocks_of(exchanges, tools, n);
    if n == 0 {
        law_join_lays_out_every_part(blocks, seq![]);
        assert(blocks =~= Seq::<Seq<char>>::empty());
    } else {
        let front = blocks_of(exchanges, tools, (n - 1) as nat);
        let before = shown(exchanges, tools, (n - 1) as nat);
        lemma_shown(exchanges, tools, (n - 1) as nat);
        lemma_joined_push(before, front, seq![], blocks[n - 1]);
        assert(front.push(blocks[n - 1]) =~= blocks);
        assert(before + seq![] + blocks[n - 1] =~= before + blocks[n - 1]);
        if n == 1 {
            assert(shown(exchanges, tools, n) =~= blocks[n - 1]);
        }
    }
}

/// Showing a trail shows every exchange of it, in order and numbered from one: the
/// text is the blocks of all exchanges, each with the calls made within it, one after
/// the other and nothing else.
pub proof fn law_every_exchange_is_shown(exchanges: Seq<ExchangeView>, tools: Seq<Vec<ToolPair>>)
    ensures
        is_joined(
            shown(exchanges, tools, exchanges.len()),
            blocks_of(exchanges, tools, exchanges.len()),
            seq![],
        ),
{
    lemma_shown(exchanges, tools, exchanges.len());
}

/// Whether `short` is what is shown of a text in one line: the text itself, its line
/// breaks as spaces, if it has 120 characters at most, and else its first 120
/// characters and an ellipsis.
pub open spec fn is_excerpt(short: Seq<char>, text: Seq<char>) -> bool {
    &&& if text.len() <= 120 {
        short.len() == text.len()
    } else {
        short.len() == 121 && short[120] == '…'
    }
    &&& forall|i: int|
        0 <= i < text.len() && i < 120 ==> #[trigger] short[i] == (if text[i] == '\n' || text[i]
            == '\r' {
            ' '
        } else {
            text[i]
        })
}

/// How the token counts of a reply are shown.
pub open spec fn shows_tokens(text: Seq<char>, input: Option<u64>, output: Option<u64>) -> bool {
    match (input, output) {
        (Some(i), Some(o)) => text == decimal(i as nat) + " in, "@ + decimal(o as nat) + " out"@,
        (Some(i), None) => text == decimal(i as nat) + " in, "@ + "?"@ + " out"@,
        (None, Some(o)) => text == "?"@ + " in, "@ + decimal(o as nat) + " out"@,
        (None, None) => text == "unknown"@,
    }
}

/// What a tool result says: the output of a call that completed, and the error of any
/// other.
pub open spec fn said_of(result: ToolResultView) -> Seq<char> {
    let said = if result.status == ToolStatus::Completed {
        result.result
    } else {
        result.error
    };
    if said is Some {
        said.unwrap()
    } else {
        ""@
    }
}

/// Whether `text` is how a tool call is shown: its name and its id, and what came of
/// it, if anything did.
pub open spec fn is_call_shown(text: Seq<char>, pair: PairView) -> bool {
    let head = "    tool:   "@ + pair.call.tool_name + " ["@ + pair.call.tool_use_id + "]\n"@;
    match pair.result {
        None => text == head,
        Some(result) => exists|short: Seq<char>|
            {
                &&& #[trigger] is_excerpt(short, said_of(result))
                &&& text == head + "            → "@ + status_wire(result.status) + ": "@ + short
                    + "\n"@
            },
    }
}

proof fn lemma_excerpt(text: Seq<char>)
    ensures
        is_excerpt(excerpt_of(text, 120), text),
{
}

/// A call is shown with its name, its id and what came of it: the output of a call
/// that completed, and the error of any other.
pub proof fn law_calls_are_shown_with_their_results(pair: PairView)
    ensures
        is_call_shown(pair_text(pair), pair),
{
    if let Some(result) = pair.result {
        lemma_excerpt(said_of(result));
        assert(is_excerpt(excerpt_of(said_of(result), 120), said_of(result)));
    }
}

/// The blocks of tool calls, in order.
pub open spec fn call_blocks(pairs: Seq<PairView>) -> Seq<Seq<char>> {
    Seq::new(pairs.len(), |i: int| pair_text(pairs[i]))
}

/// Whether `text` is how the outcome of an exchange is shown.
pub open spec fn is_outcome_shown(text: Seq<char>, outcome: OutcomeView) -> bool {
    match outcome {
        OutcomeView::Success { reply, input_tokens, output_tokens, .. } => exists|
            short: Seq<char>,
            tokens: Seq<char>,
        |
            {
                &&& #[trigger] is_excerpt(short, reply)
                &&& #[trigger] shows_tokens(tokens, input_tokens, output_tokens)
                &&& text == "    reply:  "@ + short + "\n    tokens: "@ + tokens + "\n"@
            },
        OutcomeView::Error { kind, message, .. } => exists|short: Seq<char>|
            #[trigger] is_excerpt(short, message) && text == "    error:  "@ + kind + ": "@ + short
                + "\n"@,
    }
}

/// The time that an exchange took.
pub open spec fn time_taken(outcome: OutcomeView) -> nat {
    match outcome {
        OutcomeView::Success { duration_ms, .. } => duration_ms as nat,
        OutcomeView::Error { duration_ms, .. } => duration_ms as nat,
    }
}

/// A block shows the number of its exchange, when it was asked and of which model,
/// how long it took, the prompt, every call made within it in order, and the reply
/// with its token counts or the failure.
pub proof fn law_blocks_show_their_exchange(
    n: nat,
    exchange: ExchangeView,
    pairs: Seq<PairView>,
)
    ensures
        exists|short: Seq<char>, calls: Seq<char>, outcome: Seq<char>|
            {
                &&& #[trigger] is_excerpt(short, exchange.request.prompt)
                &&& #[trigger] is_joined(calls, call_blocks(pairs), seq![])
                &&& #[trigger] is_outcome_shown(outcome, exchange.outcome)
                &&& exchange_text(n, exchange, pairs) == "#"@ + decimal(n) + "  "@ + stamp_of(
                    exchange.request.ts_ms,
                ) + "  "@ + exchange.request.model + "  ("@ + decimal(time_taken(exchange.outcome))
                    + "ms)\n    prompt: "@ + short + "\n"@ + calls + outcome
            },
{
    let short = excerpt_of(exchange.request.prompt, 120);
    lemma_excerpt(exchange.request.prompt);
    lemma_pairs(pairs);
    let outcome = outcome_text(exchange.outcome);
    match exchange.outcome {
        OutcomeView::Success { reply, input_tokens, output_tokens, .. } => {
            lemma_excerpt(reply);
            assert(is_excerpt(excerpt_of(reply, 120), reply));
            assert(shows_tokens(
                tokens_text(input_tokens, output_tokens),
                input_tokens,
                output_tokens,
            ));
        },
        OutcomeView::Error { message, .. } => {
            lemma_excerpt(message);
            assert(is_excerpt(excerpt_of(message, 120), message));
        },
    }
    assert(is_excerpt(short, exchange.request.prompt));
    assert(is_outcome_shown(outcome, exchange.outcome));
}

proof fn lemma_pairs(pairs: Seq<PairView>)
    ensures
        is_joined(pairs_text(pairs), call_blocks(pairs), seq![]),
    decreases pairs.len(),
{
    let texts = call_blocks(pairs);
    if pairs.len() == 0 {
        law_join_lays_out_every_part(texts, seq![]);
        assert(texts =~= Seq::<Seq<char>>::empty());
    } else {
        let front = call_blocks(pairs.drop_last());
        let before = pairs_text(pairs.drop_last());
        lemma_pairs(pairs.drop_last());
        lemma_joined_push(before, front, seq![], pair_text(pairs.last()));
        assert(front.push(pair_text(pairs.last())) =~= texts);
        assert(before + seq![] + pair_text(pairs.last()) =~= before + pair_text(pairs.last()));
        if pairs.len() == 1 {
            assert(pairs_text(pairs) =~= pair_text(pairs.last()));
        }
    }
}

// ---------------------------------------------------------------------------
// Requests and their outcomes

/// Whether the outcome at place `b` of a trail answers the request at place `a`: no
/// other request or outcome stands between them.
pub open spec fn is_answer_at(lines: Seq<(nat, LineView)>, a: int, b: int) -> bool {
    &&& 0 <= a < b < lines.len()
    &&& lines[a].1 is Request
    &&& lines[b].1 is Response
    &&& forall|i: int| a < i < b ==> !((#[trigger] lines[i]).1 is Request) && !(
    lines[i].1 is Response)
}

/// Whether the request at place `a` of a trail is still to be answered.
pub open spec fn is_open_at(lines: Seq<(nat, LineView)>, a: int) -> bool {
    &&& 0 <= a < lines.len()
    &&& lines[a].1 is Request
    &&& forall|i: int| a < i < lines.len() ==> !((#[trigger] lines[i]).1 is Request) && !(
    lines[i].1 is Response)
}

/// Whether `pairs` are the calls noted after place `a` and before place `b`: each
/// call line gives one, in order, with the result, if any, that a line after it gives
/// to its id.
pub open spec fn are_calls_between(
    lines: Seq<(nat, LineView)>,
    a: int,
    b: int,
    pairs: Seq<PairView>,
    places: Seq<int>,
) -> bool {
    &&& places.len() == pairs.len()
    &&& forall|k: int|
        0 <= k < pairs.len() ==> {
            &&& a < #[trigger] places[k] < b
            &&& lines[places[k]].1 is Call
            &&& lines[places[k]].1->Call_call == pairs[k].call
            &&& pairs[k].result is Some ==> {
                &&& pairs[k].result.unwrap().tool_use_id == pairs[k].call.tool_use_id
                &&& exists|i: int|
                    places[k] < i < b && (#[trigger] lines[i]).1 is Result
                        && lines[i].1->Result_result == pairs[k].result.unwrap()
            }
        }
    &&& forall|k: int, l: int| 0 <= k < l < places.len() ==> places[k] < places[l]
    &&& forall|i: int|
        a < i < b && (#[trigger] lines[i]).1 is Call ==> places.contains(i)
}

/// Whether `r` reports the answered requests of a trail, whose places are `at`.
pub open spec fn reports_answers(
    lines: Seq<(nat, LineView)>,
    r: ReportView,
    at: Seq<(int, int)>,
) -> bool {
    &&& r.exchanges.len() == at.len()
    &&& r.tools.len() == at.len()
    &&& forall|k: int|
        0 <= k < at.len() ==> {
            &&& is_answer_at(lines, (#[trigger] at[k]).0, at[k].1)
            &&& r.exchanges[k].request == lines[at[k].0].1->Request_0
            &&& r.exchanges[k].outcome == lines[at[k].1].1->Response_0
            &&& exists|places: Seq<int>| #[trigger]
                are_calls_between(lines, at[k].0, at[k].1, r.tools[k], places)
        }
    &&& forall|k: int, l: int| 0 <= k < l < at.len() ==> at[k].1 < at[l].1
    &&& forall|a: int, b: int| #[trigger] is_answer_at(lines, a, b) ==> at.contains((a, b))
}

/// Whether the open request of `r` is the one of a trail that is still to be
/// answered, with the calls noted since.
spec fn keeps_open(lines: Seq<(nat, LineView)>, r: ReportView, a: int, places: Seq<int>) -> bool {
    &&& is_open_at(lines, a)
    &&& r.pending == Some(lines[a].1->Request_0)
    &&& are_calls_between(lines, a, lines.len() as int, r.calls, places)
}

spec fn knows_open(lines: Seq<(nat, LineView)>, r: ReportView) -> bool {
    match r.pending {
        Some(_) => exists|a: int, places: Seq<int>| #[trigger] keeps_open(lines, r, a, places),
        None => forall|a: int| !#[trigger] is_open_at(lines, a),
    }
}

proof fn lemma_open_call(pairs: Seq<PairView>, id: Seq<char>)
    ensures
        open_call(pairs, id) <= pairs.len(),
        open_call(pairs, id) < pairs.len() ==> pairs[open_call(pairs, id) as int].call.tool_use_id
            == id && pairs[open_call(pairs, id) as int].result is None,
    decreases pairs.len(),
{
    if pairs.len() > 0 {
        lemma_open_call(pairs.drop_last(), id);
    }
}

proof fn lemma_calls_kept(
    lines: Seq<(nat, LineView)>,
    a: int,
    b: int,
    pairs: Seq<PairView>,
    places: Seq<int>,
)
    requires
        lines.len() > 0,
        0 <= a,
        b < lines.len(),
        are_calls_between(lines.drop_last(), a, b, pairs, places),
    ensures
        are_calls_between(lines, a, b, pairs, places),
{
    let before = lines.drop_last();
    assert forall|k: int| 0 <= k < pairs.len() implies {
        &&& a < #[trigger] places[k] < b
        &&& lines[places[k]].1 is Call
        &&& lines[places[k]].1->Call_call == pairs[k].call
        &&& pairs[k].result is Some ==> {
            &&& pairs[k].result.unwrap().tool_use_id == pairs[k].call.tool_use_id
            &&& exists|i: int|
                places[k] < i < b && (#[trigger] lines[i]).1 is Result
                    && lines[i].1->Result_result == pairs[k].result.unwrap()
        }
    } by {
        assert(lines[places[k]] == before[places[k]]);
        if pairs[k].result is Some {
            let i = choose|i: int|
                places[k] < i < b && (#[trigger] before[i]).1 is Result
                    && before[i].1->Result_result == pairs[k].result.unwrap();
            assert(lines[i] == before[i]);
        }
    }
    assert forall|i: int| a < i < b && (#[trigger] lines[i]).1 is Call implies places.contains(
        i,
    ) by {
        assert(lines[i] == before[i]);
    }
}

proof fn lemma_calls_extended(
    lines: Seq<(nat, LineView)>,
    a: int,
    pairs: Seq<PairView>,
    places: Seq<int>,
)
    requires
        lines.len() > 0,
        0 <= a,
        !(lines.last().1 is Call),
        are_calls_between(lines.drop_last(), a, lines.len() - 1, pairs, places),
    ensures
        are_calls_between(lines, a, lines.len() as int, pairs, places),
{
    let before = lines.drop_last();
    let m = lines.len() - 1;
    lemma_calls_kept(lines, a, m, pairs, places);
    assert forall|k: int| 0 <= k < pairs.len() implies {
        &&& a < #[trigger] places[k] < m + 1
        &&& lines[places[k]].1 is Call
        &&& lines[places[k]].1->Call_call == pairs[k].call
        &&& pairs[k].result is Some ==> {
            &&& pairs[k].result.unwrap().tool_use_id == pairs[k].call.tool_use_id
            &&& exists|i: int|
                places[k] < i < m + 1 && (#[trigger] lines[i]).1 is Result
                    && lines[i].1->Result_result == pairs[k].result.unwrap()
        }
    } by {
        if pairs[k].result is Some {
            let i = choose|i: int|
                places[k] < i < m && (#[trigger] lines[i]).1 is Result
                    && lines[i].1->Result_result == pairs[k].result.unwrap();
            assert(places[k] < i < m + 1);
        }
    }
}

proof fn lemma_answers_kept(lines: Seq<(nat, LineView)>, r: ReportView, at: Seq<(int, int)>)
    requires
        lines.len() > 0,
        reports_answers(lines.drop_last(), r, at),
    ensures
        forall|k: int|
            0 <= k < at.len() ==> {
                &&& is_answer_at(lines, (#[trigger] at[k]).0, at[k].1)
                &&& at[k].1 < lines.len() - 1
                &&& r.exchanges[k].request == lines[at[k].0].1->Request_0
                &&& r.exchanges[k].outcome == lines[at[k].1].1->Response_0
                &&& exists|places: Seq<int>| #[trigger]
                    are_calls_between(lines, at[k].0, at[k].1, r.tools[k], places)
            },
        forall|a: int, b: int|
            #[trigger] is_answer_at(lines, a, b) && b < lines.len() - 1 ==> at.contains((a, b)),
{
    let before = lines.drop_last();
    assert forall|k: int| 0 <= k < at.len() implies {
        &&& is_answer_at(lines, (#[trigger] at[k]).0, at[k].1)
        &&& at[k].1 < lines.len() - 1
        &&& r.exchanges[k].request == lines[at[k].0].1->Request_0
        &&& r.exchanges[k].outcome == lines[at[k].1].1->Response_0
        &&& exists|places: Seq<int>| #[trigger]
            are_calls_between(lines, at[k].0, at[k].1, r.tools[k], places)
    } by {
        let (a, b) = at[k];
        assert(is_answer_at(before, a, b));
        assert(lines[a] == before[a] && lines[b] == before[b]);
        assert forall|i: int| a < i < b implies !((#[trigger] lines[i]).1 is Request) && !(
        lines[i].1 is Response) by {
            assert(lines[i] == before[i]);
        }
        let places = choose|places: Seq<int>| #[trigger]
            are_calls_between(before, a, b, r.tools[k], places);
        lemma_calls_kept(lines, a, b, r.tools[k], places);
        assert(are_calls_between(lines, a, b, r.tools[k], places));
    }
    assert forall|a: int, b: int|
        #[trigger] is_answer_at(lines, a, b) && b < lines.len() - 1 implies at.contains((a, b)) by {
        assert(is_answer_at(before, a, b)) by {
            assert(lines[a] == before[a] && lines[b] == before[b]);
            assert forall|i: int| a < i < b implies !((#[trigger] before[i]).1 is Request) && !(
            before[i].1 is Response) by {
                assert(lines[i] == before[i]);
            }
        }
    }
}

proof fn lemma_open_before(lines: Seq<(nat, LineView)>, a: int)
    requires
        lines.len() > 0,
        0 <= a < lines.len() - 1,
        lines[a].1 is Request,
        forall|i: int| a < i < lines.len() - 1 ==> !((#[trigger] lines[i]).1 is Request) && !(
        lines[i].1 is Response),
    ensures
        is_open_at(lines.drop_last(), a),
{
    let before = lines.drop_last();
    assert(before[a] == lines[a]);
    assert forall|i: int| a < i < before.len() implies !((#[trigger] before[i]).1 is Request) && !(
    before[i].1 is Response) by {
        assert(before[i] == lines[i]);
    }
}

proof fn lemma_open_after(lines: Seq<(nat, LineView)>, a: int)
    requires
        lines.len() > 0,
        is_open_at(lines.drop_last(), a),
    ensures
        lines[a] == lines.drop_last()[a],
        lines[a].1 is Request,
        forall|i: int| a < i < lines.len() - 1 ==> !((#[trigger] lines[i]).1 is Request) && !(
        lines[i].1 is Response),
{
    let before = lines.drop_last();
    assert forall|i: int| a < i < lines.len() - 1 implies !((#[trigger] lines[i]).1 is Request)
        && !(lines[i].1 is Response) by {
        assert(before[i] == lines[i]);
    }
}

proof fn lemma_open_next(lines: Seq<(nat, LineView)>, r: ReportView, next: ReportView)
    requires
        lines.len() > 0,
        knows_open(lines.drop_last(), r),
        next == report_step(r, lines.last().0, lines.last().1),
    ensures
        knows_open(lines, next),
{
    let before = lines.drop_last();
    let m = lines.len() - 1;
    match lines.last().1 {
        LineView::Request(_) => {
            assert(is_open_at(lines, m));
            assert(are_calls_between(lines, m, m + 1, next.calls, Seq::<int>::empty()));
            assert(keeps_open(lines, next, m, Seq::<int>::empty()));
        },
        LineView::Response(_) => {
            assert forall|a: int| !#[trigger] is_open_at(lines, a) by {
                if is_open_at(lines, a) {
                    assert(lines[m].1 is Response);
                }
            }
        },
        _ => {
            match r.pending {
                None => {
                    assert forall|a: int| !#[trigger] is_open_at(lines, a) by {
                        if is_open_at(lines, a) {
                            lemma_open_before(lines, a);
                        }
                    }
                },
                Some(_) => {
                    let (a, places) = choose|a: int, places: Seq<int>| #[trigger]
                        keeps_open(before, r, a, places);
                    lemma_open_after(lines, a);
                    assert(is_open_at(lines, a)) by {
                        assert forall|i: int| a < i < lines.len() implies !((
                        #[trigger] lines[i]).1 is Request) && !(lines[i].1 is Response) by {}
                    }
                    match lines.last().1 {
                        LineView::Call { call, .. } => {
                            let more = places.push(m);
                            lemma_calls_kept(lines, a, m, r.calls, places);
                            assert forall|k: int| 0 <= k < next.calls.len() implies {
                                &&& a < #[trigger] more[k] < m + 1
                                &&& lines[more[k]].1 is Call
                                &&& lines[more[k]].1->Call_call == next.calls[k].call
                                &&& next.calls[k].result is Some ==> {
                                    &&& next.calls[k].result.unwrap().tool_use_id
                                        == next.calls[k].call.tool_use_id
                                    &&& exists|i: int|
                                        more[k] < i < m + 1 && (#[trigger] lines[i]).1 is Result
                                            && lines[i].1->Result_result
                                            == next.calls[k].result.unwrap()
                                }
                            } by {
                                if k < r.calls.len() {
                                    assert(more[k] == places[k]);
                                    assert(next.calls[k] == r.calls[k]);
                                    if r.calls[k].result is Some {
                                        let i = choose|i: int|
                                            places[k] < i < m && (#[trigger] lines[i]).1 is Result
                                                && lines[i].1->Result_result
                                                == r.calls[k].result.unwrap();
                                        assert(more[k] < i < m + 1);
                                    }
                                }
                            }
                            assert forall|i: int|
                                a < i < m + 1 && (#[trigger] lines[i]).1 is Call implies
                                more.contains(i) by {
                                if i < m {
                                    assert(places.contains(i));
                                    let k = choose|k: int|
                                        0 <= k < places.len() && places[k] == i;
                                    assert(more[k] == i);
                                } else {
                                    assert(more[places.len() as int] == i);
                                }
                            }
                            assert(are_calls_between(lines, a, m + 1, next.calls, more));
                            assert(keeps_open(lines, next, a, more));
                        },
                        LineView::Result { result, .. } => {
                            let at = open_call(r.calls, result.tool_use_id) as int;
                            lemma_open_call(r.calls, result.tool_use_id);
                            lemma_calls_extended(lines, a, r.calls, places);
                            assert forall|k: int| 0 <= k < next.calls.len() implies {
                                &&& a < #[trigger] places[k] < m + 1
                                &&& lines[places[k]].1 is Call
                                &&& lines[places[k]].1->Call_call == next.calls[k].call
                                &&& next.calls[k].result is Some ==> {
                                    &&& next.calls[k].result.unwrap().tool_use_id
                                        == next.calls[k].call.tool_use_id
                                    &&& exists|i: int|
                                        places[k] < i < m + 1 && (#[trigger] lines[i]).1 is Result
                                            && lines[i].1->Result_result
                                            == next.calls[k].result.unwrap()
                                }
                            } by {
                                if k == at {
                                    assert(a < places[k] < m);
                                    assert(lines[m].1 is Result);
                                }
                            }
                            assert(are_calls_between(lines, a, m + 1, next.calls, places));
                            assert(keeps_open(lines, next, a, places));
                        },
                        _ => {
                            lemma_calls_extended(lines, a, r.calls, places);
                            assert(keeps_open(lines, next, a, places));
                        },
                    }
                },
            }
        },
    }
}

proof fn lemma_report(lines: Seq<(nat, LineView)>) -> (at: Seq<(int, int)>)
    ensures
        reports_answers(lines, report_of(lines), at),
        knows_open(lines, report_of(lines)),
    decreases lines.len(),
{
    if lines.len() == 0 {
        Seq::empty()
    } else {
        let before = lines.drop_last();
        let m = lines.len() - 1;
        let r = report_of(before);
        let next = report_of(lines);
        let at = lemma_report(before);
        lemma_answers_kept(lines, r, at);
        lemma_open_next(lines, r, next);
        if lines.last().1 is Response && r.pending is Some {
            let (a, places) = choose|a: int, places: Seq<int>| #[trigger]
                keeps_open(before, r, a, places);
            lemma_open_after(lines, a);
            lemma_calls_kept(lines, a, m, r.calls, places);
            assert(is_answer_at(lines, a, m));
            let more = at.push((a, m));
            assert forall|k: int| 0 <= k < more.len() implies {
                &&& is_answer_at(lines, (#[trigger] more[k]).0, more[k].1)
                &&& next.exchanges[k].request == lines[more[k].0].1->Request_0
                &&& next.exchanges[k].outcome == lines[more[k].1].1->Response_0
                &&& exists|places: Seq<int>| #[trigger]
                    are_calls_between(lines, more[k].0, more[k].1, next.tools[k], places)
            } by {
                if k < at.len() {
                    assert(more[k] == at[k]);
                    assert(next.exchanges[k] == r.exchanges[k]);
                    assert(next.tools[k] == r.tools[k]);
                    assert(is_answer_at(lines, at[k].0, at[k].1));
                    let own = choose|places: Seq<int>| #[trigger]
                        are_calls_between(lines, at[k].0, at[k].1, r.tools[k], places);
                    assert(are_calls_between(lines, more[k].0, more[k].1, next.tools[k], own));
                } else {
                    assert(more[k] == (a, m));
                    assert(next.tools[k] == r.calls);
                    assert(lines[m] == lines.last());
                    assert(are_calls_between(lines, more[k].0, more[k].1, next.tools[k], places));
                }
            }
            assert forall|k: int, l: int| 0 <= k < l < more.len() implies more[k].1 < more[l].1 by {
                if l == at.len() {
                    assert(at[k].1 < m);
                }
            }
            assert forall|c: int, b: int| #[trigger] is_answer_at(lines, c, b) implies
                more.contains((c, b)) by {
                if b < m {
                    assert(at.contains((c, b)));
                    let k = choose|k: int| 0 <= k < at.len() && at[k] == (c, b);
                    assert(more[k] == (c, b));
                } else {
                    if c < a {
                        assert(lines[a].1 is Request);
                    } else if a < c {
                        assert(lines[c].1 is Request);
                    }
                    assert(more[at.len() as int] == (c, b));
                }
            }
            more
        } else {
            assert(next.exchanges == r.exchanges && next.tools == r.tools);
            assert forall|c: int, b: int| #[trigger] is_answer_at(lines, c, b) implies
                at.contains((c, b)) by {
                if b == m {
                    lemma_open_before(lines, c);
                    assert(is_open_at(before, c));
                }
            }
            at
        }
    }
}

/// Reading a trail reports every request that an outcome answers, with that outcome,
/// in the order of the outcomes, and nothing else; and with each the calls noted
/// between the two, in order, each with a result that was given to its id.
pub proof fn law_every_answered_request_is_reported(lines: Seq<(nat, LineView)>)
    ensures
        exists|at: Seq<(int, int)>| #[trigger] reports_answers(lines, report_of(lines), at),
{
    let at = lemma_report(lines);
}

} // verus!
