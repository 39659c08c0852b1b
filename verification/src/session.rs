//! Multi-turn sessions: one turn of the live conversation, and the rebuilding
//! of a conversation from its trail.

use vstd::prelude::*;

use crate::error::{overridden, unless_interrupted, InterruptSignal, LegError, Result};
use crate::events::{
    content_view, elapsed_ms, error_outcome, now_ms, request_view, start_clock, trailed, EventView,
    ExchangeEvent,
    ExchangeMeta, Outcome, OutcomeView, ToolResultView, ToolStatus,
};
use crate::exchange::Output;
use crate::log::{
    find_session, session_place, PairView, SessionRecord, SessionTurn, SessionView, TurnView,
};
use crate::model::{
    clone_blocks, clone_messages, single_text, text_message, text_of_blocks, wire_of_stop, BlockView,
    ContentBlock, Conversation, Message, MessageView, Role, StopReason, StopView,
};
use crate::sink::{losses_added, EventSink};
use crate::text::{
    concat2, concat3, concat4, concat5, debug_text, debugged, decimal, decimal_text, join_text,
    join_with, opt_view, same_text, trim, trimmed, views,
};
use crate::tools::{
    calls_in, is_round, lemma_ran_from_start, result_block, round_limit_text, round_messages,
    rounds_messages, tool_round_limit_warning, AnswerView, NoteView, RoundView, ToolLoop,
    ToolObserver, ToolRegistry, TurnOutcome,
};
use crate::trail::{address, all_untimed, lemma_trail_told, note_events, untimed, Trail};
use crate::transport::{Transport, TransportCall};

verus! {

/// The line that ends a session.
pub const SESSION_EXIT_COMMAND: &'static str = "/exit";

/// The history text for a reply stopped at the round limit that holds nothing
/// but tool requests.
pub const TOOL_ROUND_LIMIT_PLACEHOLDER: &'static str = "[stopped: tool-round limit reached]";

// ---------------------------------------------------------------------------
// The reply kept in the history

/// Whether a block of a capped reply stays in the history.
pub open spec fn is_lasting(block: BlockView) -> bool {
    block is Text || block is Image || block is Thinking
}

/// The blocks of a capped reply that stay in the history.
pub open spec fn lasting_blocks(content: Seq<BlockView>) -> Seq<BlockView>
    decreases content.len(),
{
    if content.len() == 0 {
        seq![]
    } else {
        let before = lasting_blocks(content.drop_last());
        if is_lasting(content.last()) {
            before.push(content.last())
        } else {
            before
        }
    }
}

/// The history turn for a reply. A capped reply loses its unanswered tool
/// requests, and gets a placeholder where nothing else is left.
pub open spec fn session_reply(content: Seq<BlockView>, capped: bool) -> MessageView {
    if !capped {
        MessageView { role: Role::Assistant, content }
    } else if lasting_blocks(content).len() == 0 {
        text_message(Role::Assistant, TOOL_ROUND_LIMIT_PLACEHOLDER@)
    } else {
        MessageView { role: Role::Assistant, content: lasting_blocks(content) }
    }
}

/// The history turn for a session reply.
pub fn session_reply_message(content: Vec<ContentBlock>, capped: bool) -> (message: Message)
    ensures
        message@ == session_reply(views(content@), capped),
{
    if !capped {
        return Message::new(Role::Assistant, content);
    }
    let ghost blocks = views(content@);
    let mut preserved: Vec<ContentBlock> = Vec::new();
    let mut i: usize = 0;
    assert(views(preserved@) =~= Seq::<BlockView>::empty());
    assert(blocks.take(0) =~= Seq::<BlockView>::empty());
    while i < content.len()
        invariant
            i <= content.len(),
            blocks == views(content@),
            views(preserved@) == lasting_blocks(blocks.take(i as int)),
        decreases content.len() - i,
    {
        let lasting = match &content[i] {
            ContentBlock::Text { .. } => true,
            ContentBlock::Image { .. } => true,
            ContentBlock::Thinking { .. } => true,
            _ => false,
        };
        assert(blocks.take(i + 1).drop_last() == blocks.take(i as int));
        assert(lasting == is_lasting(blocks[i as int]));
        if lasting {
            let ghost before = views(preserved@);
            preserved.push(content[i].clone());
            assert(views(preserved@) =~= before.push(blocks[i as int]));
        }
        i = i + 1;
    }
    assert(blocks.take(i as int) == blocks);
    if preserved.len() == 0 {
        Message::assistant(TOOL_ROUND_LIMIT_PLACEHOLDER)
    } else {
        Message::new(Role::Assistant, preserved)
    }
}

/// A reply stopped at the round limit leaves no tool request in the history,
/// and never an empty turn.
pub proof fn law_capped_reply_leaves_no_tool_request(content: Seq<BlockView>)
    ensures
        session_reply(content, true).content.len() > 0,
        forall|i: int|
            0 <= i < session_reply(content, true).content.len() ==> !(#[trigger] session_reply(
                content,
                true,
            ).content[i] is ToolUse),
{
    lemma_lasting_blocks(content);
}

proof fn lemma_lasting_blocks(content: Seq<BlockView>)
    ensures
        forall|i: int|
            0 <= i < lasting_blocks(content).len() ==> is_lasting(
                #[trigger] lasting_blocks(content)[i],
            ),
    decreases content.len(),
{
    if content.len() > 0 {
        let before = lasting_blocks(content.drop_last());
        lemma_lasting_blocks(content.drop_last());
        assert forall|i: int| 0 <= i < lasting_blocks(content).len() implies is_lasting(
            #[trigger] lasting_blocks(content)[i],
        ) by {
            if i < before.len() {
                assert(is_lasting(before[i]));
            }
        }
    }
}

// ---------------------------------------------------------------------------
// Rebuilding a conversation from its trail

/// One recorded side of a turn: its content blocks when they were recorded,
/// else its text.
pub open spec fn rehydrated(
    role: Role,
    text: Seq<char>,
    content: Option<Seq<BlockView>>,
) -> MessageView {
    match content {
        Some(blocks) => MessageView { role, content: blocks },
        None => text_message(role, text),
    }
}

/// Rebuilds one recorded side of a turn from its text and its content blocks.
pub fn rehydrate(role: Role, text: &str, content: &Option<Vec<ContentBlock>>) -> (message: Message)
    ensures
        message@ == rehydrated(
            role,
            text@,
            content_view(*content),
        ),
{
    match content {
        Some(blocks) => Message::new(role, clone_blocks(blocks.as_slice())),
        None => {
            let mut blocks: Vec<ContentBlock> = Vec::new();
            blocks.push(ContentBlock::text(text));
            assert(views(blocks@) =~= text_message(role, text@).content);
            Message::new(role, blocks)
        },
    }
}

/// What the trail keeps of a side of a turn is enough to rebuild it: its text, and
/// its blocks unless they are exactly one text.
pub proof fn law_recorded_sides_rehydrate(role: Role, blocks: Seq<BlockView>)
    ensures
        rehydrated(role, text_of_blocks(blocks), trailed(blocks)) == (MessageView {
            role,
            content: blocks,
        }),
        trailed(blocks) is None <==> blocks.len() == 1 && blocks[0] is Text,
{
    reveal_with_fuel(text_of_blocks, 2);
    if trailed(blocks) is None {
        let text = single_text(blocks).unwrap();
        assert(blocks.drop_last() =~= Seq::<BlockView>::empty());
        assert(text_of_blocks(blocks) =~= text);
        assert(blocks =~= seq![BlockView::Text { text }]);
        assert(rehydrated(role, text_of_blocks(blocks), None).content =~= blocks);
    }
}

/// The place of the first recorded call `id`; `tools.len()` where there is
/// none.
pub open spec fn call_place(tools: Seq<PairView>, id: Seq<char>) -> nat
    decreases tools.len(),
{
    if tools.len() == 0 {
        0
    } else if tools[0].call.tool_use_id == id {
        0
    } else {
        1 + call_place(tools.skip(1), id)
    }
}

/// An optional text, empty when absent.
pub open spec fn or_empty(text: Option<Seq<char>>) -> Seq<char> {
    match text {
        Some(text) => text,
        None => seq![],
    }
}

/// What a recorded result says came of its call.
pub open spec fn recorded_answer(result: ToolResultView) -> AnswerView {
    AnswerView {
        output: if result.status == ToolStatus::Completed {
            or_empty(result.result)
        } else {
            or_empty(result.error)
        },
        status: result.status,
    }
}

/// The result block that was sent for the call `id`, if its result landed.
pub open spec fn recorded_result(tools: Seq<PairView>, id: Seq<char>) -> Option<BlockView> {
    let i = call_place(tools, id) as int;
    if i < tools.len() {
        match tools[i].result {
            Some(result) => Some(result_block(id, recorded_answer(result))),
            None => None,
        }
    } else {
        None
    }
}

fn text_or_empty(text: &Option<String>) -> (copy: String)
    ensures
        copy@ == or_empty(opt_view(*text)),
{
    match text {
        Some(text) => text.as_str().to_owned(),
        None => String::new(),
    }
}

/// Rebuilds the result block that was sent for the call `id`.
pub fn rehydrate_tool_result(turn: &SessionTurn, id: &str) -> (block: Option<ContentBlock>)
    ensures
        opt_view(block) == recorded_result(turn@.tools, id@),
{
    let ghost tools = turn@.tools;
    let mut i: usize = 0;
    assert(tools.skip(0) == tools);
    while i < turn.tools.len()
        invariant
            i <= turn.tools.len(),
            tools == views(turn.tools@),
            call_place(tools, id@) == i + call_place(tools.skip(i as int), id@),
        decreases turn.tools.len() - i,
    {
        assert(tools.skip(i as int)[0] == turn.tools@[i as int]@);
        if same_text(turn.tools[i].call.tool_use_id.as_str(), id) {
            return match &turn.tools[i].result {
                None => None,
                Some(result) => {
                    let (content, is_error) = match result.status {
                        ToolStatus::Completed => (text_or_empty(&result.result), None),
                        _ => (text_or_empty(&result.error), Some(true)),
                    };
                    Some(ContentBlock::ToolResult { tool_use_id: id.to_owned(), content, is_error })
                },
            };
        }
        assert(tools.skip(i as int).skip(1) == tools.skip(i + 1));
        i = i + 1;
    }
    None
}

/// The results that were sent for the calls in `content`; `None` when one of
/// them never landed.
pub open spec fn recorded_results(tools: Seq<PairView>, content: Seq<BlockView>) -> Option<
    Seq<BlockView>,
>
    decreases content.len(),
{
    if content.len() == 0 {
        Some(seq![])
    } else {
        match recorded_results(tools, content.drop_last()) {
            None => None,
            Some(before) => match content.last() {
                BlockView::ToolUse { id, .. } => match recorded_result(tools, id) {
                    Some(block) => Some(before.push(block)),
                    None => None,
                },
                _ => Some(before),
            },
        }
    }
}

proof fn lemma_results_stop(tools: Seq<PairView>, content: Seq<BlockView>, n: int)
    requires
        0 <= n <= content.len(),
        recorded_results(tools, content.take(n)) is None,
    ensures
        recorded_results(tools, content) is None,
    decreases content.len(),
{
    if n < content.len() {
        assert(content.drop_last().take(n) == content.take(n));
        lemma_results_stop(tools, content.drop_last(), n);
    } else {
        assert(content.take(n) == content);
    }
}

fn rehydrate_results(turn: &SessionTurn, content: &Vec<ContentBlock>) -> (results: Option<
    Vec<ContentBlock>,
>)
    ensures
        match results {
            Some(blocks) => recorded_results(turn@.tools, views(content@)) == Some(views(blocks@)),
            None => recorded_results(turn@.tools, views(content@)) is None,
        },
{
    let ghost all = views(content@);
    let ghost tools = turn@.tools;
    let mut results: Vec<ContentBlock> = Vec::new();
    let mut i: usize = 0;
    assert(all.take(0) =~= Seq::<BlockView>::empty());
    assert(views(results@) =~= Seq::<BlockView>::empty());
    while i < content.len()
        invariant
            i <= content.len(),
            all == views(content@),
            tools == turn@.tools,
            recorded_results(tools, all.take(i as int)) == Some(views(results@)),
        decreases content.len() - i,
    {
        assert(all.take(i + 1).drop_last() == all.take(i as int));
        assert(all.take(i + 1).last() == content@[i as int]@);
        if let ContentBlock::ToolUse { id, .. } = &content[i] {
            let ghost before = views(results@);
            match rehydrate_tool_result(turn, id.as_str()) {
                Some(block) => {
                    results.push(block);
                    assert(views(results@) =~= before.push(block@));
                },
                None => {
                    proof {
                        lemma_results_stop(tools, all, i + 1);
                    }
                    return None;
                },
            }
        }
        i = i + 1;
    }
    assert(all.take(i as int) == all);
    Some(results)
}

/// The history of the first `n` recorded rounds.
pub open spec fn recorded_rounds(turn: TurnView, n: nat) -> Option<Seq<MessageView>>
    decreases n,
{
    if n == 0 || n > turn.rounds.len() {
        Some(seq![])
    } else {
        let content = turn.rounds[n - 1];
        match (recorded_rounds(turn, (n - 1) as nat), recorded_results(turn.tools, content)) {
            (Some(before), Some(results)) => Some(
                before.push(MessageView { role: Role::Assistant, content }).push(
                    MessageView { role: Role::User, content: results },
                ),
            ),
            _ => None,
        }
    }
}

proof fn lemma_rounds_stop(turn: TurnView, n: nat, m: nat)
    requires
        n <= m <= turn.rounds.len(),
        recorded_rounds(turn, n) is None,
    ensures
        recorded_rounds(turn, m) is None,
    decreases m,
{
    if n < m {
        lemma_rounds_stop(turn, n, (m - 1) as nat);
    }
}

/// What one recorded turn contributed to the history: its user turn, its tool
/// rounds and its final reply. Nothing, where it failed, was cut off, or lacks
/// a tool result.
pub open spec fn turn_history(turn: TurnView) -> Option<Seq<MessageView>> {
    match turn.outcome {
        Some(OutcomeView::Success { reply, content, stop_reason, .. }) => match recorded_rounds(
            turn,
            turn.rounds.len(),
        ) {
            None => None,
            Some(middle) => {
                let capped = turn.rounds.len() > 0 && stop_reason == Some("tool_use"@);
                let asked = rehydrated(Role::User, turn.request.prompt, turn.request.content);
                let answer = rehydrated(Role::Assistant, reply, content).content;
                Some(seq![asked] + middle + seq![session_reply(answer, capped)])
            },
        },
        _ => None,
    }
}

/// Rebuilds one recorded turn as the history that the live session got from it.
pub fn rehydrate_turn(turn: &SessionTurn) -> (messages: Option<Vec<Message>>)
    ensures
        match messages {
            Some(m) => turn_history(turn@) == Some(views(m@)),
            None => turn_history(turn@) is None,
        },
{
    let (reply, content, stop_reason) = match &turn.outcome {
        Some(Outcome::Success { reply, content, stop_reason, .. }) => (reply, content, stop_reason),
        _ => {
            return None;
        },
    };
    let ghost asked = rehydrated(Role::User, turn@.request.prompt, turn@.request.content);
    let mut messages: Vec<Message> = Vec::new();
    messages.push(
        rehydrate(Role::User, turn.request.prompt.as_str(), &turn.request.content),
    );
    assert(views(messages@) =~= seq![asked]);
    let mut i: usize = 0;
    while i < turn.rounds.len()
        invariant
            i <= turn.rounds.len(),
            recorded_rounds(turn@, i as nat) matches Some(middle) && views(messages@) == seq![asked]
                + middle,
        decreases turn.rounds.len() - i,
    {
        let ghost before = views(messages@);
        let ghost middle = recorded_rounds(turn@, i as nat).unwrap();
        assert(turn@.rounds[i as int] == views(turn.rounds@[i as int]@));
        match rehydrate_results(turn, &turn.rounds[i]) {
            None => {
                proof {
                    assert(recorded_rounds(turn@, (i + 1) as nat) is None);
                    lemma_rounds_stop(turn@, (i + 1) as nat, turn@.rounds.len());
                }
                return None;
            },
            Some(results) => {
                let round = clone_blocks(turn.rounds[i].as_slice());
                messages.push(Message::new(Role::Assistant, round));
                messages.push(Message::new(Role::User, results));
                proof {
                    let after = recorded_rounds(turn@, (i + 1) as nat).unwrap();
                    assert(views(messages@) =~= before.push(
                        MessageView { role: Role::Assistant, content: turn@.rounds[i as int] },
                    ).push(MessageView { role: Role::User, content: views(results@) }));
                    assert(views(messages@) =~= seq![asked] + after);
                }
            },
        }
        i = i + 1;
    }
    let stopped_for_tools = match stop_reason {
        Some(word) => same_text(word.as_str(), "tool_use"),
        None => false,
    };
    let capped = turn.rounds.len() > 0 && stopped_for_tools;
    let answer = rehydrate(Role::Assistant, reply.as_str(), content);
    let ghost before = views(messages@);
    let last = session_reply_message(answer.content, capped);
    messages.push(last);
    assert(views(messages@) =~= before + seq![last@]);
    Some(messages)
}

/// The history of the first `n` recorded turns.
pub open spec fn history_of(turns: Seq<TurnView>, n: nat) -> Seq<MessageView>
    decreases n,
{
    if n == 0 || n > turns.len() {
        seq![]
    } else {
        match turn_history(turns[n - 1]) {
            Some(messages) => history_of(turns, (n - 1) as nat) + messages,
            None => history_of(turns, (n - 1) as nat),
        }
    }
}

/// How many of the first `n` recorded turns contribute to the history.
pub open spec fn completed_turns(turns: Seq<TurnView>, n: nat) -> nat
    decreases n,
{
    if n == 0 || n > turns.len() {
        0
    } else {
        completed_turns(turns, (n - 1) as nat) + if turn_history(turns[n - 1]) is Some {
            1nat
        } else {
            0nat
        }
    }
}

/// The number of the turn after the recorded ones: one more than the last
/// turn's, else how many there are.
pub open spec fn next_number(turns: Seq<TurnView>) -> u64 {
    if turns.len() == 0 {
        0
    } else {
        match turns.last().request.turn_index {
            Some(index) => if index == u64::MAX {
                0
            } else {
                (index + 1) as u64
            },
            None => turns.len() as u64,
        }
    }
}

/// A session ready for its next turn.
#[derive(Debug)]
pub struct ResumedSession {
    /// The session's id.
    pub session_id: String,
    /// The history so far.
    pub conversation: Conversation,
    /// How many completed turns the history was rebuilt from.
    pub prior_turns: usize,
    /// The number of the next turn.
    pub next_turn_index: u64,
}

/// The session ids, in order.
pub open spec fn session_ids(sessions: Seq<SessionView>) -> Seq<Seq<char>> {
    Seq::new(sessions.len(), |i: int| sessions[i].session_id)
}

/// The session to resume: the one wanted, or the only one; else the complaint.
pub open spec fn selected(sessions: Seq<SessionView>, wanted: Option<Seq<char>>) -> core::result::Result<
    SessionView,
    Seq<char>,
> {
    match wanted {
        Some(id) => {
            let i = session_place(sessions, id) as int;
            if i < sessions.len() {
                Ok(sessions[i])
            } else {
                Err("no session "@ + debugged(id) + " in the --resume trail"@)
            }
        },
        None => if sessions.len() == 0 {
            Err("the --resume trail holds no sessions"@)
        } else if sessions.len() == 1 {
            Ok(sessions[0])
        } else {
            Err(
                "the --resume trail holds "@ + decimal(sessions.len())
                    + " sessions; select one with --session <id>: "@ + join_with(
                    session_ids(sessions),
                    ", "@,
                ),
            )
        },
    }
}

/// Whether `resumed` is what the recorded session `record` continues as.
pub open spec fn is_resumed(resumed: ResumedSession, record: SessionView) -> bool {
    &&& resumed.session_id@ == record.session_id
    &&& resumed.conversation@ == history_of(record.turns, record.turns.len())
    &&& resumed.prior_turns == completed_turns(record.turns, record.turns.len())
    &&& resumed.next_turn_index == next_number(record.turns)
}

/// The session to resume among `sessions`, or the complaint as an error.
fn select_place(sessions: &Vec<SessionRecord>, wanted: Option<&str>) -> (result: Result<usize>)
    ensures
        match selected(views(sessions@), opt_view(wanted)) {
            Ok(record) => result matches Ok(i) && i < sessions@.len() && sessions@[i as int]@
                == record,
            Err(message) => result matches Err(LegError::Usage(text)) && text@ == message,
        },
{
    let ghost all = views(sessions@);
    match wanted {
        Some(id) => {
            let place: usize = find_session(sessions, id);
            if place < sessions.len() {
                Ok(place)
            } else {
                Err(
                    LegError::Usage(
                        concat3(
                            "no session ",
                            debug_text(id).as_str(),
                            " in the --resume trail",
                        ),
                    ),
                )
            }
        },
        None => {
            if sessions.len() == 0 {
                return Err(LegError::Usage("the --resume trail holds no sessions".to_owned()));
            }
            if sessions.len() == 1 {
                return Ok(0);
            }
            let mut ids: Vec<String> = Vec::new();
            let mut i: usize = 0;
            assert(views(ids@) =~= session_ids(all).take(0));
            while i < sessions.len()
                invariant
                    i <= sessions.len(),
                    all == views(sessions@),
                    views(ids@) == session_ids(all).take(i as int),
                decreases sessions.len() - i,
            {
                let ghost before = views(ids@);
                ids.push(sessions[i].session_id.as_str().to_owned());
                assert(views(ids@) =~= before.push(all[i as int].session_id));
                assert(session_ids(all).take(i + 1) =~= before.push(all[i as int].session_id));
                i = i + 1;
            }
            assert(views(ids@) =~= session_ids(all));
            let names = join_text(ids.as_slice(), 0, ids.len(), ", ");
            assert(views(ids@).subrange(0, ids@.len() as int) =~= session_ids(all));
            Err(
                LegError::Usage(
                    concat4(
                        "the --resume trail holds ",
                        decimal_text(sessions.len() as u64).as_str(),
                        " sessions; select one with --session <id>: ",
                        names.as_str(),
                    ),
                ),
            )
        },
    }
}

/// Rebuilds one recorded session.
pub fn rehydrate_session(record: &SessionRecord) -> (resumed: ResumedSession)
    ensures
        is_resumed(resumed, record@),
{
    let ghost turns = record@.turns;
    let mut conversation = Conversation::new();
    let mut prior_turns: usize = 0;
    let mut i: usize = 0;
    while i < record.turns.len()
        invariant
            i <= record.turns.len(),
            turns == record@.turns,
            conversation@ == history_of(turns, i as nat),
            prior_turns == completed_turns(turns, i as nat),
            prior_turns <= i,
        decreases record.turns.len() - i,
    {
        assert(turns[i as int] == record.turns@[i as int]@);
        match rehydrate_turn(&record.turns[i]) {
            None => {},
            Some(messages) => {
                let ghost before = conversation@;
                push_all(&mut conversation, messages);
                prior_turns = prior_turns + 1;
            },
        }
        i = i + 1;
    }
    let next_turn_index: u64 = if record.turns.len() == 0 {
        0
    } else {
        let last = record.turns.len() - 1;
        assert(turns.last() == record.turns@[last as int]@);
        match record.turns[last].request.turn_index {
            Some(index) => if index == u64::MAX {
                0
            } else {
                index + 1
            },
            None => record.turns.len() as u64,
        }
    };
    ResumedSession {
        session_id: record.session_id.as_str().to_owned(),
        conversation,
        prior_turns,
        next_turn_index,
    }
}

/// Appends `messages` to the history, in order.
fn push_all(conversation: &mut Conversation, messages: Vec<Message>)
    ensures
        final(conversation)@ == old(conversation)@ + views(messages@),
{
    let mut i: usize = 0;
    assert(conversation@ =~= old(conversation)@ + views(messages@).take(0));
    while i < messages.len()
        invariant
            i <= messages.len(),
            conversation@ == old(conversation)@ + views(messages@).take(i as int),
        decreases messages.len() - i,
    {
        let ghost before = conversation@;
        conversation.push(messages[i].clone());
        assert(conversation@ =~= old(conversation)@ + views(messages@).take(i + 1));
        i = i + 1;
    }
    assert(views(messages@).take(i as int) =~= views(messages@));
}

/// Selects a recorded session and rebuilds it: the one wanted, or the only one
/// there is. A miss, an empty trail, or a choice among several is a usage error.
pub fn select_and_rehydrate(sessions: Vec<SessionRecord>, wanted: Option<&str>) -> (result: Result<
    ResumedSession,
>)
    ensures
        match selected(views(sessions@), opt_view(wanted)) {
            Ok(record) => result matches Ok(resumed) && is_resumed(resumed, record),
            Err(message) => result matches Err(LegError::Usage(text)) && text@ == message,
        },
{
    match select_place(&sessions, wanted) {
        Ok(place) => Ok(rehydrate_session(&sessions[place])),
        Err(error) => Err(error),
    }
}

/// Rebuilds the recorded session `id`; an unknown id is an error of its own.
pub fn select_named(sessions: Vec<SessionRecord>, id: &str) -> (result: Result<ResumedSession>)
    ensures
        ({
            let place = session_place(views(sessions@), id@) as int;
            if place < sessions@.len() {
                result matches Ok(resumed) && is_resumed(resumed, sessions@[place]@)
            } else {
                result matches Err(LegError::SessionNotFound(text)) && text@ == id@
            }
        }),
{
    let place: usize = find_session(&sessions, id);
    if place < sessions.len() {
        Ok(rehydrate_session(&sessions[place]))
    } else {
        Err(LegError::SessionNotFound(id.to_owned()))
    }
}

/// A session that has no turns yet.
pub fn fresh_session(session_id: String) -> (session: ResumedSession)
    ensures
        session.session_id == session_id,
        session.conversation@ == Seq::<MessageView>::empty(),
        session.prior_turns == 0,
        session.next_turn_index == 0,
{
    ResumedSession { session_id, conversation: Conversation::new(), prior_turns: 0, next_turn_index: 0 }
}

/// The id of a session started by process `pid` at `ts_ms`.
pub open spec fn session_id_text(pid: u32, ts_ms: u64) -> Seq<char> {
    "sess-"@ + decimal(pid as nat) + "-"@ + decimal(ts_ms as nat)
}

/// The id of a session started by process `pid` at `ts_ms`. One process runs
/// one session, so two live sessions on a host have different ids.
pub fn session_id_at(pid: u32, ts_ms: u64) -> (id: String)
    ensures
        id@ == session_id_text(pid, ts_ms),
{
    concat4("sess-", decimal_text(pid as u64).as_str(), "-", decimal_text(ts_ms).as_str())
}

/// The id of a session that process `pid` starts now.
pub fn new_session_id(pid: u32) -> (id: String)
    ensures
        exists|ts_ms: u64| id@ == #[trigger] session_id_text(pid, ts_ms),
{
    session_id_at(pid, now_ms())
}

// ---------------------------------------------------------------------------
// One turn of a live session

/// What a line of input asks of a session.
#[derive(Debug, Clone, Copy, PartialEq, Eq, Structural)]
pub enum LineAction {
    /// Nothing: the line is blank.
    Skip,
    /// The end of the session.
    Exit,
    /// A user turn.
    Turn,
}

/// What a line of input asks of a session: white space around it does not
/// matter for that.
pub fn line_action(line: &str) -> (action: LineAction)
    ensures
        action == if trimmed(line@).len() == 0 {
            LineAction::Skip
        } else if trimmed(line@) == SESSION_EXIT_COMMAND@ {
            LineAction::Exit
        } else {
            LineAction::Turn
        },
{
    let text = trim(line);
    if text.as_str().unicode_len() == 0 {
        LineAction::Skip
    } else if same_text(text.as_str(), SESSION_EXIT_COMMAND) {
        LineAction::Exit
    } else {
        LineAction::Turn
    }
}

/// The wire word of an optional stop reason.
pub open spec fn stop_word(stop: Option<StopView>) -> Option<Seq<char>> {
    match stop {
        Some(stop) => Some(wire_of_stop(stop)),
        None => None,
    }
}

/// The outcome, without its times, that the trail gets for a turn.
pub open spec fn turn_outcome(
    result: Result<TurnOutcome>,
    session_id: Option<Seq<char>>,
    turn_index: Option<u64>,
) -> OutcomeView {
    match result {
        Ok(outcome) => OutcomeView::Success {
            ts_ms: 0,
            duration_ms: 0,
            reply: outcome.reply@.text,
            content: trailed(outcome.reply@.content),
            input_tokens: outcome.reply@.usage.input_tokens,
            output_tokens: outcome.reply@.usage.output_tokens,
            stop_reason: stop_word(outcome.reply@.stop_reason),
            session_id,
            turn_index,
        },
        Err(error) => error_outcome(0, 0, error, session_id, turn_index),
    }
}

/// The events, without their times, that one session turn leaves on the trail:
/// its request, the notes of its tool rounds, its outcome.
pub open spec fn turn_events(
    meta: ExchangeMeta,
    prompt: Seq<char>,
    session_id: Seq<char>,
    turn_index: u64,
    notes: Seq<NoteView>,
    result: Result<TurnOutcome>,
) -> Seq<EventView> {
    let id = Some(session_id);
    let index = Some(turn_index);
    seq![EventView::Request(request_view(0, meta, prompt, id, index))] + note_events(
        notes,
        Some((session_id, turn_index)),
    ) + seq![EventView::Response(turn_outcome(result, id, index))]
}

/// Builds the outcome event of a session turn.
pub fn outcome_event(
    ts_ms: u64,
    duration_ms: u64,
    result: &Result<TurnOutcome>,
    session_id: &str,
    turn_index: u64,
) -> (event: ExchangeEvent)
    ensures
        untimed(event@) == EventView::Response(
            turn_outcome(*result, Some(session_id@), Some(turn_index)),
        ),
{
    match result {
        Ok(outcome) => {
            let stop_reason = match &outcome.reply.stop_reason {
                Some(stop) => Some(stop.as_str()),
                None => None,
            };
            ExchangeEvent::session_response_ok(
                ts_ms,
                duration_ms,
                outcome.reply.text.as_str(),
                outcome.reply.usage.input_tokens,
                outcome.reply.usage.output_tokens,
                stop_reason,
                session_id,
                turn_index,
            ).with_content(outcome.reply.content.as_slice())
        },
        Err(error) => ExchangeEvent::session_response_error(
            ts_ms,
            duration_ms,
            error,
            session_id,
            turn_index,
        ),
    }
}

/// Whether a turn after `history` ends in `call` and leaves `events` behind: the
/// loop ran, and a signal that arrived meanwhile overrides its result. The
/// attempts are those of the loop either way.
pub open spec fn is_session_turn<T: Transport>(
    tool_loop: ToolLoop<T>,
    meta: ExchangeMeta,
    prompt: Seq<char>,
    session_id: Seq<char>,
    turn_index: u64,
    history: Seq<MessageView>,
    call: TransportCall<TurnOutcome>,
    events: Seq<EventView>,
) -> bool {
    exists|
        notes: Seq<NoteView>,
        turn: TransportCall<TurnOutcome>,
        signal: Option<InterruptSignal>,
    |
        {
            &&& #[trigger] tool_loop.ran(history, seq![], notes, turn)
            &&& #[trigger] tool_loop.transport.may_signal(signal)
            &&& call.result == overridden(turn.result, signal)
            &&& call.attempts == turn.attempts
            &&& events == turn_events(meta, prompt, session_id, turn_index, notes, call.result)
        }
}

/// Without a signal a turn ends as the loop does: its result and its attempts are
/// the loop's own, and its events are the request, what the loop told of its tools,
/// and the outcome of that result.
pub proof fn law_undisturbed_turns_end_as_the_loop_does<T: Transport>(
    tool_loop: ToolLoop<T>,
    meta: ExchangeMeta,
    prompt: Seq<char>,
    session_id: Seq<char>,
    turn_index: u64,
    history: Seq<MessageView>,
    call: TransportCall<TurnOutcome>,
    events: Seq<EventView>,
)
    requires
        is_session_turn(
            tool_loop,
            meta,
            prompt,
            session_id,
            turn_index,
            history,
            call,
            events,
        ),
        forall|signal: InterruptSignal|
            !#[trigger] tool_loop.transport.may_signal(Some(signal)),
    ensures
        exists|notes: Seq<NoteView>| #[trigger]
            tool_loop.ran(history, seq![], notes, call) && events == turn_events(
                meta,
                prompt,
                session_id,
                turn_index,
                notes,
                call.result,
            ),
{
    let (notes, turn, signal) = choose|
        notes: Seq<NoteView>,
        turn: TransportCall<TurnOutcome>,
        signal: Option<InterruptSignal>,
    |
        {
            &&& #[trigger] tool_loop.ran(history, seq![], notes, turn)
            &&& #[trigger] tool_loop.transport.may_signal(signal)
            &&& call.result == overridden(turn.result, signal)
            &&& call.attempts == turn.attempts
            &&& events == turn_events(meta, prompt, session_id, turn_index, notes, call.result)
        };
    assert(signal is None);
    assert(call == turn);
}

/// Runs one turn of a session and records its request, its tool events and its
/// outcome, in that order.
pub fn timed_session_exchange<T: Transport, S: EventSink>(
    tool_loop: &ToolLoop<T>,
    trail: &mut Trail<S>,
    meta: &ExchangeMeta,
    prompt: &str,
    session_id: &str,
    turn_index: u64,
    history: &[Message],
) -> (call: TransportCall<TurnOutcome>)
    ensures
        address(final(trail).turn) == Some((session_id@, turn_index)),
        losses_added(views(old(trail).warnings@), views(final(trail).warnings@)),
        exists|events: Seq<EventView>| #[trigger]
            is_session_turn(
                *tool_loop,
                *meta,
                prompt@,
                session_id@,
                turn_index,
                views(history@),
                call,
                events,
            ) && all_untimed(final(trail).sink.recorded()) == all_untimed(
                old(trail).sink.recorded(),
            ) + events,
{
    let ghost start = all_untimed(trail.sink.recorded());
    trail.turn = Some((session_id.to_owned(), turn_index));
    let ghost turn = Some((session_id@, turn_index));
    trail.emit(&ExchangeEvent::session_request(now_ms(), meta, prompt, session_id, turn_index));
    let ghost asked = EventView::Request(
        request_view(0, *meta, prompt@, Some(session_id@), Some(turn_index)),
    );
    assert(all_untimed(trail.sink.recorded()) =~= start.push(asked));
    let clock = start_clock();
    let ghost before = *trail;
    let made = tool_loop.run_observed_with_attempts(history, trail);
    let ghost ran = made;
    proof {
        lemma_ran_from_start(*tool_loop, views(history@), before.seen(), trail.seen(), ran);
    }
    let ghost notes = choose|notes: Seq<NoteView>|
        trail.seen() == before.seen() + notes && #[trigger] tool_loop.ran(
            views(history@),
            seq![],
            notes,
            ran,
        );
    proof {
        lemma_trail_told(before, *trail, notes);
    }
    let duration_ms: u64 = elapsed_ms(&clock);
    let attempts: u64 = made.attempts;
    let signal = tool_loop.interrupted();
    assert(tool_loop.transport.may_signal(signal));
    let result = unless_interrupted(made.result, signal);
    let ghost told = all_untimed(trail.sink.recorded());
    let event = outcome_event(now_ms(), duration_ms, &result, session_id, turn_index);
    trail.emit(&event);
    let call = TransportCall::new(result, attempts);
    proof {
        let events = turn_events(*meta, prompt@, session_id@, turn_index, notes, call.result);
        assert(all_untimed(trail.sink.recorded()) =~= told.push(untimed(event@)));
        assert(all_untimed(trail.sink.recorded()) =~= start + events);
        assert(is_session_turn(
            *tool_loop,
            *meta,
            prompt@,
            session_id@,
            turn_index,
            views(history@),
            call,
            events,
        ));
    }
    call
}

/// The history after a turn that began with `history`, its user turn last: a
/// completed turn adds its tool rounds and its reply, a failed one is taken
/// back.
pub open spec fn settled(history: Seq<MessageView>, result: Result<TurnOutcome>) -> Seq<
    MessageView,
> {
    match result {
        Ok(outcome) => history + views(outcome.transcript@) + seq![
            session_reply(outcome.reply@.content, outcome.capped),
        ],
        Err(_) => history.drop_last(),
    }
}

/// Brings the history up to date after a turn. A failed turn's user message is
/// taken back, so that no two user turns follow each other.
pub fn settle_turn(conversation: &mut Conversation, result: &Result<TurnOutcome>)
    requires
        old(conversation)@.len() > 0,
    ensures
        final(conversation)@ == settled(old(conversation)@, *result),
{
    match result {
        Ok(outcome) => {
            let transcript = clone_messages(outcome.transcript.as_slice());
            assert(views(transcript@) == views(outcome.transcript@));
            push_all(conversation, transcript);
            let content = clone_blocks(outcome.reply.content.as_slice());
            conversation.push(session_reply_message(content, outcome.capped));
            assert(conversation@ =~= settled(old(conversation)@, *result));
        },
        Err(_) => {
            conversation.pop();
        },
    }
}

/// The warnings that a completed turn owes the user: a reply cut short, and a
/// stop at the round limit.
pub open spec fn turn_warnings(result: Result<TurnOutcome>, limit: Option<usize>) -> Seq<
    Seq<char>,
> {
    match result {
        Ok(outcome) => {
            let cut: Seq<Seq<char>> = if outcome.reply@.stop_reason == Some(StopView::MaxTokens) {
                seq!["warning: reply truncated (stop_reason: max_tokens)"@]
            } else {
                seq![]
            };
            match (outcome.capped, limit) {
                (true, Some(rounds)) => cut.push(round_limit_text(rounds as nat)),
                _ => cut,
            }
        },
        Err(_) => seq![],
    }
}

/// The warnings that `result` owes the user.
pub fn warnings_of(result: &Result<TurnOutcome>, limit: Option<usize>) -> (warnings: Vec<String>)
    ensures
        views(warnings@) == turn_warnings(*result, limit),
{
    let mut warnings: Vec<String> = Vec::new();
    match result {
        Ok(outcome) => {
            if let Some(StopReason::MaxTokens) = &outcome.reply.stop_reason {
                warnings.push("warning: reply truncated (stop_reason: max_tokens)".to_owned());
            }
            if outcome.capped {
                if let Some(rounds) = limit {
                    warnings.push(tool_round_limit_warning(rounds));
                }
            }
        },
        Err(_) => {},
    }
    assert(views(warnings@) =~= turn_warnings(*result, limit));
    warnings
}

/// What a session turn gives its user.
pub struct SessionReply {
    /// The turn's outcome or error.
    pub result: Result<TurnOutcome>,
    /// The warnings about it.
    pub warnings: Vec<String>,
    /// The provider attempts it used.
    pub attempts: u64,
}

impl SessionReply {
    /// The turn's result and its attempts.
    pub open spec fn call(&self) -> TransportCall<TurnOutcome> {
        TransportCall { result: self.result, attempts: self.attempts }
    }
}

/// Runs one user turn of a session: the line goes into the history, the whole
/// history to the provider, and the outcome into the history and the trail.
pub fn run_session_turn<T: Transport, S: EventSink>(
    tool_loop: &ToolLoop<T>,
    trail: &mut Trail<S>,
    meta: &ExchangeMeta,
    session: &mut ResumedSession,
    line: &str,
) -> (reply: SessionReply)
    requires
        old(session).next_turn_index < u64::MAX,
    ensures
        final(session).session_id == old(session).session_id,
        final(session).prior_turns == old(session).prior_turns,
        final(session).next_turn_index == old(session).next_turn_index + 1,
        final(session).conversation@ == settled(
            old(session).conversation@.push(text_message(Role::User, line@)),
            reply.result,
        ),
        views(reply.warnings@) == turn_warnings(reply.result, tool_loop.max_tool_rounds),
        address(final(trail).turn) == Some((old(session).session_id@, old(session).next_turn_index)),
        losses_added(views(old(trail).warnings@), views(final(trail).warnings@)),
        exists|events: Seq<EventView>| #[trigger]
            is_session_turn(
                *tool_loop,
                *meta,
                line@,
                old(session).session_id@,
                old(session).next_turn_index,
                old(session).conversation@.push(text_message(Role::User, line@)),
                reply.call(),
                events,
            ) && all_untimed(final(trail).sink.recorded()) == all_untimed(
                old(trail).sink.recorded(),
            ) + events,
{
    session.conversation.push_user(line);
    let call = timed_session_exchange(
        tool_loop,
        trail,
        meta,
        line,
        session.session_id.as_str(),
        session.next_turn_index,
        session.conversation.messages(),
    );
    settle_turn(&mut session.conversation, &call.result);
    session.next_turn_index = session.next_turn_index + 1;
    let warnings = warnings_of(&call.result, tool_loop.max_tool_rounds);
    let ghost made = call;
    let reply = SessionReply { result: call.result, warnings, attempts: call.attempts };
    assert(reply.call() == made);
    reply
}

/// What one line of input came to.
pub enum SessionStep {
    /// Nothing: the line was blank.
    Skipped,
    /// The line asked for the end of the session.
    Ended,
    /// The line was a user turn.
    Replied(SessionReply),
}

/// Takes one line of input. Only a user turn changes the session and the trail.
pub fn session_step<T: Transport, S: EventSink>(
    tool_loop: &ToolLoop<T>,
    trail: &mut Trail<S>,
    meta: &ExchangeMeta,
    session: &mut ResumedSession,
    line: &str,
) -> (step: SessionStep)
    requires
        old(session).next_turn_index < u64::MAX,
    ensures
        match step {
            SessionStep::Skipped => trimmed(line@).len() == 0 && *final(session) == *old(session)
                && *final(trail) == *old(trail),
            SessionStep::Ended => trimmed(line@) == SESSION_EXIT_COMMAND@ && *final(session)
                == *old(session) && *final(trail) == *old(trail),
            SessionStep::Replied(reply) => {
                &&& trimmed(line@).len() > 0
                &&& trimmed(line@) != SESSION_EXIT_COMMAND@
                &&& final(session).session_id == old(session).session_id
                &&& final(session).next_turn_index == old(session).next_turn_index + 1
                &&& final(session).conversation@ == settled(
                    old(session).conversation@.push(text_message(Role::User, line@)),
                    reply.result,
                )
                &&& views(reply.warnings@) == turn_warnings(
                    reply.result,
                    tool_loop.max_tool_rounds,
                )
                &&& address(final(trail).turn) == Some(
                    (old(session).session_id@, old(session).next_turn_index),
                )
                &&& losses_added(views(old(trail).warnings@), views(final(trail).warnings@))
                &&& exists|events: Seq<EventView>| #[trigger]
                    is_session_turn(
                        *tool_loop,
                        *meta,
                        line@,
                        old(session).session_id@,
                        old(session).next_turn_index,
                        old(session).conversation@.push(text_message(Role::User, line@)),
                        reply.call(),
                        events,
                    ) && all_untimed(final(trail).sink.recorded()) == all_untimed(
                        old(trail).sink.recorded(),
                    ) + events
            },
        },
{
    proof {
        reveal_strlit("/exit");
    }
    match line_action(line) {
        LineAction::Skip => SessionStep::Skipped,
        LineAction::Exit => SessionStep::Ended,
        LineAction::Turn => SessionStep::Replied(
            run_session_turn(tool_loop, trail, meta, session, line),
        ),
    }
}

/// Opens the frame of a fresh session on the trail.
pub fn begin_session<S: EventSink>(trail: &mut Trail<S>, session_id: &str)
    ensures
        final(trail).turn == old(trail).turn,
        losses_added(views(old(trail).warnings@), views(final(trail).warnings@)),
        exists|ts_ms: u64|
            final(trail).sink.recorded() == old(trail).sink.recorded().push(
                #[trigger] session_started(ts_ms, session_id@),
            ),
{
    let ts_ms: u64 = now_ms();
    trail.emit(&ExchangeEvent::session_start(ts_ms, session_id));
    assert(trail.sink.recorded() == old(trail).sink.recorded().push(
        session_started(ts_ms, session_id@),
    ));
}

/// The event that opens a session.
pub open spec fn session_started(ts_ms: u64, session_id: Seq<char>) -> EventView {
    EventView::SessionStart { ts_ms, session_id }
}

/// The event that closes a session after `turns` turns.
pub open spec fn session_ended(ts_ms: u64, session_id: Seq<char>, turns: u64) -> EventView {
    EventView::SessionEnd { ts_ms, session_id, turns }
}

/// Closes the frame of a session that ended in order. One that was killed never
/// gets here: its trail is told apart by the session's id, not by a closing
/// line.
pub fn end_session<S: EventSink>(trail: &mut Trail<S>, session: &ResumedSession)
    ensures
        final(trail).turn == old(trail).turn,
        losses_added(views(old(trail).warnings@), views(final(trail).warnings@)),
        exists|ts_ms: u64|
            final(trail).sink.recorded() == old(trail).sink.recorded().push(
                #[trigger] session_ended(ts_ms, session.session_id@, session.next_turn_index),
            ),
{
    let ts_ms: u64 = now_ms();
    trail.emit(
        &ExchangeEvent::session_end(ts_ms, session.session_id.as_str(), session.next_turn_index),
    );
    assert(trail.sink.recorded() == old(trail).sink.recorded().push(
        session_ended(ts_ms, session.session_id@, session.next_turn_index),
    ));
}

/// What a session shows of a turn: the reply, or the error as a notice. A failed
/// turn does not end the session, unless a signal interrupted it.
pub fn repl_output(result: Result<TurnOutcome>) -> (output: Output)
    ensures
        match result {
            Ok(outcome) => output.text@ == outcome.reply@.text + "\n"@ && output.notice@ == ""@
                && output.result is Ok,
            Err(LegError::Interrupted { signal }) => output.text@ == ""@ && output.notice@ == ""@
                && (output.result matches Err(LegError::Interrupted { signal: of }) && of
                == signal),
            Err(error) => output.text@ == ""@ && output.notice@ == "error: "@ + error.text()
                + "\n"@ && output.result is Ok,
        },
        output.warning@ == ""@,
{
    match result {
        Ok(outcome) => Output {
            text: concat2(outcome.reply.text.as_str(), "\n"),
            notice: "".to_owned(),
            warning: "".to_owned(),
            result: Ok(()),
        },
        Err(error) => {
            if let LegError::Interrupted { signal } = &error {
                return Output {
                    text: "".to_owned(),
                    notice: "".to_owned(),
                    warning: "".to_owned(),
                    result: Err(LegError::Interrupted { signal: *signal }),
                };
            }
            Output {
                text: "".to_owned(),
                notice: concat3("error: ", error.to_string().as_str(), "\n"),
                warning: "".to_owned(),
                result: Ok(()),
            }
        },
    }
}

/// The line that greets a fresh session.
pub fn session_banner() -> (text: String)
    ensures
        text@ == "leg session — type a message and press enter; Ctrl-D or "@
            + SESSION_EXIT_COMMAND@ + " to quit"@,
{
    concat3(
        "leg session — type a message and press enter; Ctrl-D or ",
        SESSION_EXIT_COMMAND,
        " to quit",
    )
}

/// The line that greets a resumed session.
pub fn resumed_banner(session: &ResumedSession) -> (text: String)
    ensures
        text@ == "leg session — resumed "@ + session.session_id@ + " ("@ + decimal(
            session.prior_turns as nat,
        ) + " prior turn(s)); type a message and press enter, Ctrl-D or "@
            + SESSION_EXIT_COMMAND@ + " to quit"@,
{
    let head = concat5(
        "leg session — resumed ",
        session.session_id.as_str(),
        " (",
        decimal_text(session.prior_turns as u64).as_str(),
        " prior turn(s)); type a message and press enter, Ctrl-D or ",
    );
    concat3(head.as_str(), SESSION_EXIT_COMMAND, " to quit")
}

// ---------------------------------------------------------------------------
// What the provider is sent

/// Whether user and assistant turns follow each other in turn, the user first
/// and the assistant last.
pub open spec fn alternates(history: Seq<MessageView>) -> bool {
    &&& history.len() % 2 == 0
    &&& forall|i: int|
        0 <= i < history.len() ==> (#[trigger] history[i]).role == if i % 2 == 0 {
            Role::User
        } else {
            Role::Assistant
        }
}

/// However a turn ends, no two turns of one side follow each other in the
/// history: a completed turn adds a user turn, its rounds and a reply, a failed
/// one nothing.
pub proof fn law_history_alternates(
    history: Seq<MessageView>,
    prompt: Seq<char>,
    rounds: Seq<RoundView>,
    result: Result<TurnOutcome>,
)
    requires
        alternates(history),
        result matches Ok(outcome) ==> views(outcome.transcript@) == rounds_messages(rounds),
    ensures
        alternates(settled(history.push(text_message(Role::User, prompt)), result)),
{
    let asked = history.push(text_message(Role::User, prompt));
    match result {
        Err(_) => {
            assert(asked.drop_last() =~= history);
        },
        Ok(outcome) => {
            lemma_rounds_alternate(rounds);
            let middle = rounds_messages(rounds);
            let after = settled(asked, result);
            assert forall|i: int| 0 <= i < after.len() implies (#[trigger] after[i]).role == if i
                % 2 == 0 {
                Role::User
            } else {
                Role::Assistant
            } by {
                if i < history.len() {
                    assert(after[i] == history[i]);
                } else if i == history.len() {
                    assert(after[i] == text_message(Role::User, prompt));
                } else if i < history.len() + 1 + middle.len() {
                    assert(after[i] == middle[i - history.len() - 1]);
                }
            }
        },
    }
}

proof fn lemma_rounds_alternate(rounds: Seq<RoundView>)
    ensures
        rounds_messages(rounds).len() == 2 * rounds.len(),
        forall|i: int|
            0 <= i < rounds_messages(rounds).len() ==> (#[trigger] rounds_messages(rounds)[i]).role
                == if i % 2 == 0 {
                Role::Assistant
            } else {
                Role::User
            },
    decreases rounds.len(),
{
    if rounds.len() > 0 {
        lemma_rounds_alternate(rounds.drop_last());
        let before = rounds_messages(rounds.drop_last());
        let all = rounds_messages(rounds);
        assert forall|i: int| 0 <= i < all.len() implies (#[trigger] all[i]).role == if i % 2 == 0 {
            Role::Assistant
        } else {
            Role::User
        } by {
            if i < before.len() {
                assert(all[i] == before[i]);
            }
        }
    }
}

/// Every call that a reply requested is answered in the user turn after it, in
/// call order.
pub proof fn law_rounds_answer_every_call(registry: ToolRegistry, round: RoundView)
    requires
        is_round(registry, round),
    ensures
        ({
            let calls = calls_in(round.content);
            let results = round_messages(round)[1].content;
            &&& results.len() == calls.len()
            &&& forall|i: int|
                0 <= i < results.len() ==> (#[trigger] results[i] matches BlockView::ToolResult {
                    tool_use_id,
                    ..
                } && tool_use_id == calls[i].id)
        }),
{
}

} // verus!
