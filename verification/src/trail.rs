//! The trail of a run: the sink its events go to, and the turn they belong to.
//!
//! Times are whatever the clock shows, so what a run leaves on its trail is
//! stated of the events without their times.

use vstd::prelude::*;

use crate::events::{
    now_ms, EventView, ExchangeEvent, OutcomeView, RequestView, ToolCallView, ToolEvent,
    ToolResultView, ToolStatus,
};
use crate::sink::{emit, is_emitted, losses_added, EventSink};
use crate::text::views;
use crate::tools::{note_of, NoteView, ToolObserver};

verus! {

/// An outcome without its times.
pub open spec fn untimed_outcome(outcome: OutcomeView) -> OutcomeView {
    match outcome {
        OutcomeView::Success {
            reply,
            content,
            input_tokens,
            output_tokens,
            stop_reason,
            session_id,
            turn_index,
            ..
        } => OutcomeView::Success {
            ts_ms: 0,
            duration_ms: 0,
            reply,
            content,
            input_tokens,
            output_tokens,
            stop_reason,
            session_id,
            turn_index,
        },
        OutcomeView::Error { kind, message, session_id, turn_index, .. } => OutcomeView::Error {
            ts_ms: 0,
            duration_ms: 0,
            kind,
            message,
            session_id,
            turn_index,
        },
    }
}

/// An event without its times.
pub open spec fn untimed(event: EventView) -> EventView {
    match event {
        EventView::Request(request) => EventView::Request(RequestView { ts_ms: 0, ..request }),
        EventView::Response(outcome) => EventView::Response(untimed_outcome(outcome)),
        EventView::ToolRound { content, session_id, turn_index, .. } => EventView::ToolRound {
            ts_ms: 0,
            content,
            session_id,
            turn_index,
        },
        EventView::ToolCall { call, session_id, turn_index } => EventView::ToolCall {
            call: ToolCallView { ts_ms: 0, ..call },
            session_id,
            turn_index,
        },
        EventView::ToolResult { result, session_id, turn_index } => EventView::ToolResult {
            result: ToolResultView { ts_ms: 0, ..result },
            session_id,
            turn_index,
        },
        EventView::SessionStart { session_id, .. } => EventView::SessionStart {
            ts_ms: 0,
            session_id,
        },
        EventView::SessionEnd { session_id, turns, .. } => EventView::SessionEnd {
            ts_ms: 0,
            session_id,
            turns,
        },
    }
}

/// Events without their times.
pub open spec fn all_untimed(events: Seq<EventView>) -> Seq<EventView> {
    Seq::new(events.len(), |i: int| untimed(events[i]))
}

/// The session id of a turn's address.
pub open spec fn session_of(turn: Option<(Seq<char>, u64)>) -> Option<Seq<char>> {
    match turn {
        Some((id, _)) => Some(id),
        None => None,
    }
}

/// The number of a turn's address.
pub open spec fn number_of(turn: Option<(Seq<char>, u64)>) -> Option<u64> {
    match turn {
        Some((_, index)) => Some(index),
        None => None,
    }
}

/// The event, without its time, that a note about a turn leaves on the trail.
pub open spec fn note_event(note: NoteView, turn: Option<(Seq<char>, u64)>) -> EventView {
    match note {
        NoteView::Round { content } => EventView::ToolRound {
            ts_ms: 0,
            content,
            session_id: session_of(turn),
            turn_index: number_of(turn),
        },
        NoteView::Call { id, name, input } => EventView::ToolCall {
            call: ToolCallView { ts_ms: 0, tool_use_id: id, tool_name: name, input },
            session_id: session_of(turn),
            turn_index: number_of(turn),
        },
        NoteView::Result { id, name, output, status } => EventView::ToolResult {
            result: ToolResultView {
                ts_ms: 0,
                tool_use_id: id,
                tool_name: name,
                status,
                result: if status == ToolStatus::Completed {
                    Some(output)
                } else {
                    None
                },
                error: if status == ToolStatus::Completed {
                    None
                } else {
                    Some(output)
                },
            },
            session_id: session_of(turn),
            turn_index: number_of(turn),
        },
        NoteView::Other(event) => event,
    }
}

/// The events, without their times, that notes about a turn leave.
pub open spec fn note_events(notes: Seq<NoteView>, turn: Option<(Seq<char>, u64)>) -> Seq<
    EventView,
> {
    Seq::new(notes.len(), |i: int| note_event(notes[i], turn))
}

/// The note that an event is for a turn.
pub open spec fn filed(event: EventView, turn: Option<(Seq<char>, u64)>) -> NoteView {
    match event {
        EventView::ToolRound { content, session_id, turn_index, .. } if session_id == session_of(
            turn,
        ) && turn_index == number_of(turn) => NoteView::Round { content },
        EventView::ToolCall { call, session_id, turn_index } if session_id == session_of(turn)
            && turn_index == number_of(turn) => NoteView::Call {
            id: call.tool_use_id,
            name: call.tool_name,
            input: call.input,
        },
        EventView::ToolResult { result, session_id, turn_index } if session_id == session_of(turn)
            && turn_index == number_of(turn) => match (result.status, result.result, result.error) {
            (ToolStatus::Completed, Some(output), None) => NoteView::Result {
                id: result.tool_use_id,
                name: result.tool_name,
                output,
                status: result.status,
            },
            (ToolStatus::Failed, None, Some(output)) => NoteView::Result {
                id: result.tool_use_id,
                name: result.tool_name,
                output,
                status: result.status,
            },
            (ToolStatus::Denied, None, Some(output)) => NoteView::Result {
                id: result.tool_use_id,
                name: result.tool_name,
                output,
                status: result.status,
            },
            _ => NoteView::Other(untimed(event)),
        },
        _ => NoteView::Other(untimed(event)),
    }
}

/// An event is, but for its time, what its note leaves on the trail.
pub proof fn lemma_filed(event: EventView, turn: Option<(Seq<char>, u64)>)
    ensures
        note_event(filed(event, turn), turn) == untimed(event),
{
}

/// The address of a turn.
pub open spec fn address(turn: Option<(String, u64)>) -> Option<(Seq<char>, u64)> {
    match turn {
        Some((id, index)) => Some((id@, index)),
        None => None,
    }
}

/// A sink, the session turn whose tool events it is getting, and the warnings
/// about events that could not be kept.
pub struct Trail<S: EventSink> {
    /// Where the events go.
    pub sink: S,
    /// The session turn in progress, if there is one.
    pub turn: Option<(String, u64)>,
    /// The warnings so far.
    pub warnings: Vec<String>,
}

impl<S: EventSink> Trail<S> {
    /// A trail that belongs to no turn yet.
    pub fn new(sink: S) -> (trail: Self)
        ensures
            trail.sink == sink,
            trail.turn is None,
            trail.warnings@.len() == 0,
    {
        Trail { sink, turn: None, warnings: Vec::new() }
    }

    /// Records `event`; a failure to keep it is a warning.
    pub fn emit(&mut self, event: &ExchangeEvent)
        ensures
            final(self).sink.recorded() == old(self).sink.recorded().push(event@),
            final(self).turn == old(self).turn,
            is_emitted(
                old(self).sink,
                *event,
                views(old(self).warnings@),
                views(final(self).warnings@),
            ),
            losses_added(views(old(self).warnings@), views(final(self).warnings@)),
    {
        emit(&mut self.sink, event, &mut self.warnings);
    }
}

impl<S: EventSink> ToolObserver for Trail<S> {
    open spec fn seen(&self) -> Seq<NoteView> {
        Seq::new(
            self.sink.recorded().len(),
            |i: int| filed(self.sink.recorded()[i], self.turn()),
        )
    }

    open spec fn turn(&self) -> Option<(Seq<char>, u64)> {
        address(self.turn)
    }

    open spec fn losses(&self) -> Seq<Seq<char>> {
        views(self.warnings@)
    }

    fn observe(&mut self, event: ToolEvent<'_>) {
        let ghost before = *self;
        let ghost note = note_of(event);
        let now: u64 = now_ms();
        let ghost told = event;
        let recorded = match &self.turn {
            Some((id, index)) => ExchangeEvent::from_tool_event(
                now,
                event,
                Some((id.as_str(), *index)),
            ),
            None => ExchangeEvent::from_tool_event(now, event, None),
        };
        assert(filed(recorded@, before.turn()) == note);
        self.emit(&recorded);
        assert(self.seen() =~= before.seen().push(note));
    }
}

/// What a run told an observing trail is what the trail holds of it.
pub proof fn lemma_trail_told<S: EventSink>(before: Trail<S>, after: Trail<S>, notes: Seq<NoteView>)
    requires
        after.seen() == before.seen() + notes,
        after.turn() == before.turn(),
    ensures
        all_untimed(after.sink.recorded()) == all_untimed(before.sink.recorded()) + note_events(
            notes,
            before.turn(),
        ),
{
    let turn = before.turn();
    let old_events = before.sink.recorded();
    let new_events = after.sink.recorded();
    assert(before.seen().len() == old_events.len());
    assert(after.seen().len() == new_events.len());
    assert forall|i: int| 0 <= i < new_events.len() implies untimed(#[trigger] new_events[i]) == (
    all_untimed(old_events) + note_events(notes, turn))[i] by {
        lemma_filed(new_events[i], turn);
        assert(after.seen()[i] == filed(new_events[i], turn));
        if i < old_events.len() {
            lemma_filed(old_events[i], turn);
            assert(before.seen()[i] == filed(old_events[i], turn));
        }
    }
    assert(all_untimed(new_events) =~= all_untimed(old_events) + note_events(notes, turn));
}

} // verus!
