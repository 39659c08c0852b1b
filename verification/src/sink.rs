//! Where lifecycle events go.
//!
//! The drivers record through [`EventSink`], so recording can be switched off
//! or redirected without touching the exchange logic.

use vstd::prelude::*;
use vstd::utf8::encode_utf8;

use crate::events::{EventView, ExchangeEvent};
use crate::json::json_text;
use crate::text::{concat2, opt_view, views};
use crate::wire::event_tree;

verus! {

/// Records the events of a run.
pub trait EventSink {
    /// The events offered so far.
    spec fn recorded(&self) -> Seq<EventView>;

    /// The results that recording an event can have.
    spec fn may_record(&self, event: ExchangeEvent, result: Result<(), String>) -> bool;

    /// Records one event; an error means that it could not be kept.
    fn record(&mut self, event: &ExchangeEvent) -> (result: Result<(), String>)
        ensures
            final(self).recorded() == old(self).recorded().push(event@),
            old(self).may_record(*event, result),
    ;
}

/// A sink that keeps nothing, for runs that are not recorded.
pub struct NoopSink {
    events: Ghost<Seq<EventView>>,
}

impl NoopSink {
    /// A sink that has been offered nothing.
    pub fn new() -> (sink: Self)
        ensures
            sink.recorded() == Seq::<EventView>::empty(),
    {
        NoopSink { events: Ghost(Seq::empty()) }
    }
}

impl EventSink for NoopSink {
    closed spec fn recorded(&self) -> Seq<EventView> {
        self.events@
    }

    /// Everything is kept, for there is nothing to keep.
    open spec fn may_record(&self, event: ExchangeEvent, result: Result<(), String>) -> bool {
        result is Ok
    }

    fn record(&mut self, event: &ExchangeEvent) -> (result: Result<(), String>) {
        self.events = Ghost(self.events@.push(event@));
        Ok(())
    }
}

/// What a trail is written to.
pub trait TrailWriter {
    /// The bytes written so far; `None`, for a writer that does not show them.
    open spec fn written(&self) -> Option<Seq<u8>> {
        None
    }

    /// The results that appending a text can have; any, unless this writer says
    /// otherwise.
    open spec fn may_append(&self, text: Seq<char>, result: Result<(), String>) -> bool {
        true
    }

    /// Appends `text` and hands it on at once, so that a reader of the trail
    /// sees a request before its response arrives.
    fn append_text(&mut self, text: &str) -> (result: Result<(), String>)
        ensures
            old(self).may_append(text@, result),
            result is Ok ==> is_appended(old(self).written(), text@, final(self).written()),
    ;
}

/// Whether `after` is what `before` and `text` after it come to, as far as a
/// writer shows its bytes.
pub open spec fn is_appended(
    before: Option<Seq<u8>>,
    text: Seq<char>,
    after: Option<Seq<u8>>,
) -> bool {
    match before {
        Some(bytes) => after == Some(bytes + encode_utf8(text)),
        None => after is None,
    }
}

impl TrailWriter for Vec<u8> {
    open spec fn written(&self) -> Option<Seq<u8>> {
        Some(self@)
    }

    /// Memory takes everything.
    open spec fn may_append(&self, text: Seq<char>, result: Result<(), String>) -> bool {
        result is Ok
    }

    fn append_text(&mut self, text: &str) -> (result: Result<(), String>) {
        let bytes = text.as_bytes();
        let mut i: usize = 0;
        while i < bytes.len()
            invariant
                i <= bytes@.len(),
                bytes@ == encode_utf8(text@),
                self@ == old(self)@ + bytes@.take(i as int),
            decreases bytes@.len() - i,
        {
            self.push(bytes[i]);
            i = i + 1;
        }
        assert(bytes@.take(i as int) == bytes@);
        Ok(())
    }
}

/// The line that an event is on a trail.
pub open spec fn line_text(event: ExchangeEvent) -> Seq<char> {
    json_text(event_tree(event))
}

/// A sink that writes one JSON object per line.
pub struct WriterSink<W: TrailWriter> {
    /// What the trail is written to.
    pub writer: W,
    /// The events offered so far.
    pub events: Ghost<Seq<EventView>>,
}

impl<W: TrailWriter> WriterSink<W> {
    /// A sink that writes its lines to `writer`.
    pub fn new(writer: W) -> (sink: Self)
        ensures
            sink.writer == writer,
            sink.recorded() == Seq::<EventView>::empty(),
    {
        WriterSink { writer, events: Ghost(Seq::empty()) }
    }
}

impl<W: TrailWriter> EventSink for WriterSink<W> {
    open spec fn recorded(&self) -> Seq<EventView> {
        self.events@
    }

    /// An event is kept where its line is written.
    open spec fn may_record(&self, event: ExchangeEvent, result: Result<(), String>) -> bool {
        self.writer.may_append(line_text(event) + "\n"@, result)
    }

    fn record(&mut self, event: &ExchangeEvent) -> (result: Result<(), String>)
        ensures
            result is Ok ==> is_appended(
                old(self).writer.written(),
                line_text(*event) + "\n"@,
                final(self).writer.written(),
            ),
    {
        let line = concat2(event.to_line().as_str(), "\n");
        self.events = Ghost(self.events@.push(event@));
        self.writer.append_text(line.as_str())
    }
}

/// The trail of a run, if the run is recorded.
pub enum EventLog<W: TrailWriter> {
    /// The run is not recorded.
    Off(NoopSink),
    /// The run is recorded line by line.
    Lines(WriterSink<W>),
}

impl<W: TrailWriter> EventSink for EventLog<W> {
    open spec fn recorded(&self) -> Seq<EventView> {
        match self {
            EventLog::Off(sink) => sink.recorded(),
            EventLog::Lines(sink) => sink.recorded(),
        }
    }

    open spec fn may_record(&self, event: ExchangeEvent, result: Result<(), String>) -> bool {
        match self {
            EventLog::Off(sink) => sink.may_record(event, result),
            EventLog::Lines(sink) => sink.may_record(event, result),
        }
    }

    fn record(&mut self, event: &ExchangeEvent) -> (result: Result<(), String>)
        ensures
            match (*old(self), *final(self)) {
                (EventLog::Off(_), EventLog::Off(_)) => result is Ok,
                (EventLog::Lines(before), EventLog::Lines(after)) => result is Ok ==> is_appended(
                    before.writer.written(),
                    line_text(*event) + "\n"@,
                    after.writer.written(),
                ),
                _ => false,
            },
    {
        match self {
            EventLog::Off(sink) => sink.record(event),
            EventLog::Lines(sink) => sink.record(event),
        }
    }
}

/// The first failure of two writes, if any of them failed.
pub open spec fn combined(first: Result<(), String>, second: Result<(), String>) -> Result<
    (),
    String,
> {
    if first is Err {
        first
    } else {
        second
    }
}

/// The failure that is noted after a write with `result`, where `noted` was noted
/// before: the first one.
pub open spec fn failure_noted(noted: Option<Seq<char>>, result: Result<(), String>) -> Option<
    Seq<char>,
> {
    match (noted, result) {
        (None, Err(message)) => Some(message@),
        _ => noted,
    }
}

/// Notes the failure of a write, unless one is noted already.
pub fn note_failure(noted: &mut Option<String>, result: &Result<(), String>)
    ensures
        opt_view(*final(noted)) == failure_noted(opt_view(*old(noted)), *result),
{
    if let Err(message) = result {
        if noted.is_none() {
            *noted = Some(message.as_str().to_owned());
        }
    }
}

/// What a composite sink returns: the first failure of its two sinks.
pub fn first_failure(first: Result<(), String>, second: Result<(), String>) -> (result: Result<
    (),
    String,
>)
    ensures
        result == combined(first, second),
{
    match first {
        Err(message) => Err(message),
        Ok(()) => second,
    }
}

/// Writes each event to a session's own trail and to a second sink.
pub struct CompositeEventSink<S: EventSink, L: EventSink> {
    /// The session's trail.
    pub session: S,
    /// The second sink.
    pub event_log: L,
    /// The first failure to write the session's trail.
    pub session_write_error: Option<String>,
}

impl<S: EventSink, L: EventSink> CompositeEventSink<S, L> {
    /// A sink over both, none of whose writes has failed.
    pub fn new(session: S, event_log: L) -> (sink: Self)
        ensures
            sink.session == session,
            sink.event_log == event_log,
            sink.session_write_error is None,
    {
        CompositeEventSink { session, event_log, session_write_error: None }
    }
}

impl<S: EventSink, L: EventSink> EventSink for CompositeEventSink<S, L> {
    open spec fn recorded(&self) -> Seq<EventView> {
        self.session.recorded()
    }

    /// An event is kept where both sinks keep it.
    open spec fn may_record(&self, event: ExchangeEvent, result: Result<(), String>) -> bool {
        exists|session: Result<(), String>, event_log: Result<(), String>|
            #[trigger] self.session.may_record(event, session)
                && #[trigger] self.event_log.may_record(event, event_log) && result == combined(
                session,
                event_log,
            )
    }

    fn record(&mut self, event: &ExchangeEvent) -> (result: Result<(), String>)
        ensures
            final(self).event_log.recorded() == old(self).event_log.recorded().push(event@),
            exists|session: Result<(), String>, event_log: Result<(), String>|
                {
                    &&& #[trigger] old(self).session.may_record(*event, session)
                    &&& #[trigger] old(self).event_log.may_record(*event, event_log)
                    &&& result == combined(session, event_log)
                    &&& opt_view(final(self).session_write_error) == failure_noted(
                        opt_view(old(self).session_write_error),
                        session,
                    )
                },
    {
        let session_result = self.session.record(event);
        note_failure(&mut self.session_write_error, &session_result);
        let event_log_result = self.event_log.record(event);
        assert(old(self).session.may_record(*event, session_result));
        assert(old(self).event_log.may_record(*event, event_log_result));
        first_failure(session_result, event_log_result)
    }
}

/// The warning for an event that could not be kept.
pub open spec fn lost_event_text(message: Seq<char>) -> Seq<char> {
    "warning: failed to record exchange event: "@ + message
}

/// The warnings after recording an event with `result`: one more where it could
/// not be kept.
pub open spec fn warned(warnings: Seq<Seq<char>>, result: Result<(), String>) -> Seq<Seq<char>> {
    match result {
        Ok(_) => warnings,
        Err(message) => warnings.push(lost_event_text(message@)),
    }
}

/// Whether `warning` says that some event could not be kept.
pub open spec fn is_loss(warning: Seq<char>) -> bool {
    exists|message: Seq<char>| warning == #[trigger] lost_event_text(message)
}

/// Whether the warnings `before` are all there in `after`, followed by nothing but
/// warnings about events that could not be kept.
pub open spec fn losses_added(before: Seq<Seq<char>>, after: Seq<Seq<char>>) -> bool {
    &&& before.len() <= after.len()
    &&& forall|i: int| 0 <= i < before.len() ==> #[trigger] after[i] == before[i]
    &&& forall|i: int| before.len() <= i < after.len() ==> is_loss(#[trigger] after[i])
}

/// Adds the warning for an event that could not be kept.
pub fn warn_of_loss(warnings: &mut Vec<String>, result: Result<(), String>)
    ensures
        views(final(warnings)@) == warned(views(old(warnings)@), result),
{
    match result {
        Ok(()) => {},
        Err(message) => {
            warnings.push(
                concat2("warning: failed to record exchange event: ", message.as_str()),
            );
            assert(views(warnings@) =~= warned(views(old(warnings)@), Err(message)));
        },
    }
}

/// Whether recording `event` in `sink` can turn the warnings `before` into
/// `after`: the sink keeps the event, or its failure is the last warning.
pub open spec fn is_emitted<S: EventSink>(
    sink: S,
    event: ExchangeEvent,
    before: Seq<Seq<char>>,
    after: Seq<Seq<char>>,
) -> bool {
    exists|result: Result<(), String>| #[trigger]
        sink.may_record(event, result) && after == warned(before, result)
}

/// Records `event`. A trail is for observation: a failure to keep an event is
/// a warning, not an error of the command.
pub fn emit<S: EventSink>(sink: &mut S, event: &ExchangeEvent, warnings: &mut Vec<String>)
    ensures
        final(sink).recorded() == old(sink).recorded().push(event@),
        is_emitted(*old(sink), *event, views(old(warnings)@), views(final(warnings)@)),
{
    let result = sink.record(event);
    assert(old(sink).may_record(*event, result));
    warn_of_loss(warnings, result);
}

} // verus!
