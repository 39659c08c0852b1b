//! The agentic tool loop and its dispatch seam.
//!
//! [`ToolRegistry`] maps a tool name to its declaration and a synchronous
//! [`ToolHandler`]. [`ToolLoop`] wraps a [`Transport`]: while a reply stops for
//! tools, it runs each requested call through the registry, in call order, and
//! sends the results back. A round limit, where one is set, caps the loop.

pub mod args;
pub mod bash;
pub mod edit;
pub mod guard;
pub mod pretool;
pub mod process;
pub mod read;
pub mod write;

pub use bash::BashTool;
pub use edit::EditTool;
pub use read::{ReadSet, ReadTool};
pub use write::WriteTool;

use vstd::prelude::*;

use crate::error::{InterruptSignal, LegError, Result};
use crate::events::{EventView, ToolEvent, ToolStatus};
use crate::json::{Json, JsonValue};
use crate::model::{
    clone_messages, AssistantReply, BlockView, ContentBlock, Message, MessageView, ReplyView, Role,
    StopReason, StopView, TokenUsage, ToolSpec,
};
use crate::sink::losses_added;
use crate::text::{concat2, concat3, decimal, decimal_text, same_text, text_result, views};
use crate::tools::guard::{decide, denial_in, is_decision, Guarded};
use crate::transport::{is_raised, Transport, TransportCall};

verus! {

// ---------------------------------------------------------------------------
// Calls and their results

/// One requested tool call.
pub struct CallView {
    pub id: Seq<char>,
    pub name: Seq<char>,
    pub input: JsonValue,
}

/// What came of one tool call.
pub struct AnswerView {
    pub output: Seq<char>,
    pub status: ToolStatus,
}

/// The tool calls that `content` requests, in order.
pub open spec fn calls_in(content: Seq<BlockView>) -> Seq<CallView>
    decreases content.len(),
{
    if content.len() == 0 {
        seq![]
    } else {
        let before = calls_in(content.drop_last());
        match content.last() {
            BlockView::ToolUse { id, name, input } => before.push(CallView { id, name, input }),
            _ => before,
        }
    }
}

/// The result block that answers the call `id`: marked as an error unless the
/// call completed.
pub open spec fn result_block(id: Seq<char>, answer: AnswerView) -> BlockView {
    BlockView::ToolResult {
        tool_use_id: id,
        content: answer.output,
        is_error: if answer.status == ToolStatus::Completed {
            None
        } else {
            Some(true)
        },
    }
}

/// The message for a call to a tool that is not registered.
pub open spec fn unknown_tool(name: Seq<char>) -> Seq<char> {
    "unknown tool: "@ + name
}

/// What came of a call, from the hook's denial and the handler's return: a
/// denied call is not run, and a tool without a handler fails.
pub open spec fn answer_of(
    name: Seq<char>,
    denial: Option<Seq<char>>,
    returned: Option<core::result::Result<Seq<char>, Seq<char>>>,
) -> AnswerView {
    match (denial, returned) {
        (Some(message), _) => AnswerView { output: message, status: ToolStatus::Denied },
        (None, None) => AnswerView { output: unknown_tool(name), status: ToolStatus::Failed },
        (None, Some(Ok(output))) => AnswerView { output, status: ToolStatus::Completed },
        (None, Some(Err(message))) => AnswerView { output: message, status: ToolStatus::Failed },
    }
}

/// The view of an optional text.
pub open spec fn denial_view(denial: Option<String>) -> Option<Seq<char>> {
    match denial {
        Some(message) => Some(message@),
        None => None,
    }
}

/// The view of what a handler returned, where there was one.
pub open spec fn returned_view(
    returned: Option<core::result::Result<String, String>>,
) -> Option<core::result::Result<Seq<char>, Seq<char>>> {
    match returned {
        None => None,
        Some(Ok(output)) => Some(Ok(output@)),
        Some(Err(message)) => Some(Err(message@)),
    }
}

/// Turns a hook's denial, or else a handler's return, into the result block of
/// the call `id` and its status.
pub fn call_result(
    id: &str,
    name: &str,
    denial: Option<String>,
    returned: Option<core::result::Result<String, String>>,
) -> (result: (ContentBlock, ToolStatus))
    ensures
        result.0@ == result_block(
            id@,
            answer_of(name@, denial_view(denial), returned_view(returned)),
        ),
        result.1 == answer_of(name@, denial_view(denial), returned_view(returned)).status,
{
    let (content, status) = match denial {
        Some(message) => (message, ToolStatus::Denied),
        None => match returned {
            None => (concat2("unknown tool: ", name), ToolStatus::Failed),
            Some(Ok(output)) => (output, ToolStatus::Completed),
            Some(Err(message)) => (message, ToolStatus::Failed),
        },
    };
    let is_error = match status {
        ToolStatus::Completed => None,
        _ => Some(true),
    };
    (ContentBlock::ToolResult { tool_use_id: id.to_owned(), content, is_error }, status)
}

/// Runs one tool call.
pub trait ToolHandler {
    /// What this tool can return for its arguments; anything, unless it says
    /// otherwise.
    open spec fn may_return(
        &self,
        input: JsonValue,
        result: core::result::Result<Seq<char>, Seq<char>>,
    ) -> bool {
        true
    }

    /// Runs the tool on its JSON arguments: its output, or the failure that is
    /// reported back to the model.
    fn call(&self, input: &Json) -> (result: core::result::Result<String, String>)
        ensures
            self.may_return(input.value(), text_result(result)),
    ;
}

/// Decides whether a tool call may run.
pub trait PreToolHook {
    /// What this hook can decide about a call, by the message of its denial if
    /// it denies it; anything, unless it says otherwise.
    open spec fn may_decide(
        &self,
        name: Seq<char>,
        input: JsonValue,
        denial: Option<Seq<char>>,
    ) -> bool {
        true
    }

    /// Allows the call, or denies it with a message for the model.
    fn authorize(&self, name: &str, input: &Json) -> (decision: core::result::Result<(), String>)
        ensures
            self.may_decide(name@, input.value(), denial_in(decision)),
    ;
}

/// Two values as a pair.
fn pair<A, B>(a: A, b: B) -> (both: (A, B))
    ensures
        both == (a, b),
{
    (a, b)
}

/// A value that is there.
fn present<A>(a: A) -> (some: Option<A>)
    ensures
        some == Some(a),
{
    Some(a)
}

/// The tools that a [`ToolLoop`] declares and can run.
pub struct ToolRegistry {
    /// The tools, in the order of their registration.
    pub entries: Vec<(ToolSpec, Guarded<Box<dyn ToolHandler>>)>,
    /// What decides about each call, if anything does.
    pub pre_tool_hook: Option<Box<dyn PreToolHook>>,
}

impl ToolRegistry {
    /// The declared tools, in the order of their registration.
    pub open spec fn declared(&self) -> Seq<ToolSpec> {
        Seq::new(self.entries@.len(), |i: int| self.entries@[i].0)
    }

    /// Whether a hook decides about each call.
    pub open spec fn hooked(&self) -> bool {
        self.pre_tool_hook is Some
    }

    /// Whether a tool of that name is registered.
    pub open spec fn knows(&self, name: Seq<char>) -> bool {
        exists|i: int| 0 <= i < self.declared().len() && (#[trigger] self.declared()[i]).name@ == name
    }

    /// Whether the tool at place `i` is the first of that name.
    pub open spec fn is_first(&self, name: Seq<char>, i: int) -> bool {
        &&& 0 <= i < self.entries@.len()
        &&& self.entries@[i].0.name@ == name
        &&& forall|k: int| 0 <= k < i ==> (#[trigger] self.entries@[k]).0.name@ != name
    }

    /// Whether the hook can decide about the call with `denial`; without a hook
    /// nothing is denied.
    pub open spec fn may_decide(
        &self,
        name: Seq<char>,
        input: JsonValue,
        denial: Option<Seq<char>>,
    ) -> bool {
        is_decision(self.pre_tool_hook, name, input, denial)
    }

    /// Whether the first tool of that name can return `returned`; nothing, where
    /// there is none.
    pub open spec fn may_return(
        &self,
        name: Seq<char>,
        input: JsonValue,
        returned: Option<core::result::Result<Seq<char>, Seq<char>>>,
    ) -> bool {
        match returned {
            Some(result) => exists|i: int| #[trigger]
                self.is_first(name, i) && self.entries@[i].1.handler().may_return(input, result),
            None => !self.knows(name),
        }
    }

    /// Whether a call can be decided with `denial` and then return `returned`. A
    /// denied call runs no tool.
    pub open spec fn may_run(
        &self,
        name: Seq<char>,
        input: JsonValue,
        denial: Option<Seq<char>>,
        returned: Option<core::result::Result<Seq<char>, Seq<char>>>,
    ) -> bool {
        &&& self.may_decide(name, input, denial)
        &&& if denial is Some {
            returned is None
        } else {
            self.may_return(name, input, returned)
        }
    }

    /// What can come of a call.
    pub open spec fn may_answer(
        &self,
        name: Seq<char>,
        input: JsonValue,
        answer: AnswerView,
    ) -> bool {
        exists|
            denial: Option<Seq<char>>,
            returned: Option<core::result::Result<Seq<char>, Seq<char>>>,
        | #[trigger]
            self.may_run(name, input, denial, returned) && answer == answer_of(
                name,
                denial,
                returned,
            )
    }

    /// An empty registry without a hook.
    pub fn new() -> (registry: Self)
        ensures
            registry.entries@.len() == 0,
            registry.pre_tool_hook is None,
    {
        ToolRegistry { entries: Vec::new(), pre_tool_hook: None }
    }

    /// Registers `handler` under the name of `spec`.
    pub fn register(&mut self, spec: ToolSpec, handler: Box<dyn ToolHandler>)
        ensures
            final(self).entries@.len() == old(self).entries@.len() + 1,
            final(self).entries@.drop_last() == old(self).entries@,
            final(self).entries@.last().0 == spec,
            final(self).entries@.last().1.handler() == handler,
            final(self).pre_tool_hook == old(self).pre_tool_hook,
            final(self).declared() == old(self).declared().push(spec),
    {
        let entry = pair(spec, Guarded::new(handler));
        self.entries.push(entry);
        assert(self.entries@ == old(self).entries@.push(entry));
        assert(self.entries@.drop_last() =~= old(self).entries@);
        assert(self.declared() =~= old(self).declared().push(spec));
    }

    /// The registry with `hook` deciding about each call.
    pub fn with_pre_tool_hook(self, hook: Box<dyn PreToolHook>) -> (registry: Self)
        ensures
            registry.entries == self.entries,
            registry.pre_tool_hook == Some(hook),
    {
        let hook = present(hook);
        ToolRegistry { entries: self.entries, pre_tool_hook: hook }
    }

    /// The declarations to send with each request.
    pub fn specs(&self) -> (specs: Vec<ToolSpec>)
        ensures
            specs@.len() == self.declared().len(),
            forall|i: int|
                0 <= i < specs@.len() ==> {
                    &&& (#[trigger] specs@[i]).name@ == self.declared()[i].name@
                    &&& specs@[i].description@ == self.declared()[i].description@
                    &&& specs@[i].input_schema@ == self.declared()[i].input_schema@
                },
    {
        let mut copy: Vec<ToolSpec> = Vec::new();
        let mut i: usize = 0;
        while i < self.entries.len()
            invariant
                i <= self.entries.len(),
                copy@.len() == i,
                forall|k: int|
                    0 <= k < i ==> {
                        &&& (#[trigger] copy@[k]).name@ == self.entries@[k].0.name@
                        &&& copy@[k].description@ == self.entries@[k].0.description@
                        &&& copy@[k].input_schema@ == self.entries@[k].0.input_schema@
                    },
            decreases self.entries.len() - i,
        {
            copy.push(self.entries[i].0.clone());
            i = i + 1;
        }
        copy
    }

    /// The place of the first tool called `name`, if there is one.
    fn place(&self, name: &str) -> (place: Option<usize>)
        ensures
            match place {
                Some(i) => self.is_first(name@, i as int),
                None => !self.knows(name@),
            },
    {
        let mut i: usize = 0;
        while i < self.entries.len()
            invariant
                i <= self.entries.len(),
                forall|k: int| 0 <= k < i ==> (#[trigger] self.entries@[k]).0.name@ != name@,
            decreases self.entries.len() - i,
        {
            if same_text(self.entries[i].0.name.as_str(), name) {
                return Some(i);
            }
            i = i + 1;
        }
        assert forall|k: int| 0 <= k < self.declared().len() implies (
        #[trigger] self.declared()[k]).name@ != name@ by {
            assert(self.entries@[k].0.name@ != name@);
        }
        None
    }

    /// Runs the call and returns its result block and status. An unknown tool,
    /// a failing handler and a denial give error results; none aborts the turn.
    pub fn dispatch_with_status(&self, id: &str, name: &str, input: &Json) -> (result: (
        ContentBlock,
        ToolStatus,
    ))
        ensures
            exists|
                denial: Option<Seq<char>>,
                returned: Option<core::result::Result<Seq<char>, Seq<char>>>,
            | #[trigger]
                self.may_run(name@, input.value(), denial, returned) && result.0@ == result_block(
                    id@,
                    answer_of(name@, denial, returned),
                ) && result.1 == answer_of(name@, denial, returned).status,
    {
        let (denial, returned) = match decide(&self.pre_tool_hook, name, input) {
            Err(message) => (Some(message), None),
            Ok(permit) => match self.place(name) {
                Some(i) => {
                    let result = self.entries[i].1.run(name, input, &permit);
                    assert(self.is_first(name@, i as int));
                    assert(returned_view(Some(result)) == Some(text_result(result)));
                    (None, Some(result))
                },
                None => (None, None),
            },
        };
        assert(self.may_run(name@, input.value(), denial_view(denial), returned_view(returned)));
        call_result(id, name, denial, returned)
    }

    /// Runs the call and returns its result block.
    pub fn dispatch(&self, id: &str, name: &str, input: &Json) -> (block: ContentBlock)
        ensures
            exists|
                denial: Option<Seq<char>>,
                returned: Option<core::result::Result<Seq<char>, Seq<char>>>,
            | #[trigger]
                self.may_run(name@, input.value(), denial, returned) && block@ == result_block(
                    id@,
                    answer_of(name@, denial, returned),
                ),
    {
        self.dispatch_with_status(id, name, input).0
    }
}

impl Default for ToolRegistry {
    fn default() -> (registry: Self)
        ensures
            registry.entries@.len() == 0,
            registry.pre_tool_hook is None,
    {
        ToolRegistry::new()
    }
}

/// Only a hook denies a call, and a call to an unknown tool that is not denied
/// fails with the message that says so.
pub proof fn law_unknown_tools_fail(
    registry: ToolRegistry,
    name: Seq<char>,
    input: JsonValue,
    answer: AnswerView,
)
    requires
        registry.may_answer(name, input, answer),
    ensures
        answer.status == ToolStatus::Denied ==> registry.hooked(),
        answer.status != ToolStatus::Denied && !registry.knows(name) ==> answer == (AnswerView {
            output: unknown_tool(name),
            status: ToolStatus::Failed,
        }),
{
    if answer.status != ToolStatus::Denied && !registry.knows(name) {
        let (denial, returned) = choose|
            denial: Option<Seq<char>>,
            returned: Option<core::result::Result<Seq<char>, Seq<char>>>,
        | #[trigger]
            registry.may_run(name, input, denial, returned) && answer == answer_of(
                name,
                denial,
                returned,
            );
        if returned is Some {
            let i = choose|i: int| #[trigger] registry.is_first(name, i);
            assert(registry.declared()[i].name@ == name);
        }
    }
}

/// A result block carries an error mark exactly when its call did not complete.
pub proof fn law_error_mark_means_not_completed(id: Seq<char>, answer: AnswerView)
    ensures
        result_block(id, answer)->is_error == Some(true) <==> answer.status
            != ToolStatus::Completed,
        result_block(id, answer)->is_error is None <==> answer.status == ToolStatus::Completed,
{
}

// ---------------------------------------------------------------------------
// Rounds

/// One round of the tool loop: the reply that requested the calls, and what
/// came of each call that was answered.
pub struct RoundView {
    pub content: Seq<BlockView>,
    pub answers: Seq<AnswerView>,
}

/// Whether the registry answered every call of the round.
pub open spec fn is_round(registry: ToolRegistry, round: RoundView) -> bool {
    let calls = calls_in(round.content);
    &&& round.answers.len() == calls.len()
    &&& forall|i: int|
        0 <= i < calls.len() ==> registry.may_answer(
            calls[i].name,
            calls[i].input,
            #[trigger] round.answers[i],
        )
}

/// Whether `answers` are those of a round that a signal broke off with `error`:
/// the registry gave each of them, but the last may say that the call was
/// interrupted.
pub open spec fn is_broken_round(
    registry: ToolRegistry,
    content: Seq<BlockView>,
    answers: Seq<AnswerView>,
    error: LegError,
) -> bool {
    let calls = calls_in(content);
    &&& answers.len() <= calls.len()
    &&& forall|i: int|
        0 <= i < answers.len() ==> registry.may_answer(
            calls[i].name,
            calls[i].input,
            #[trigger] answers[i],
        ) || (i == answers.len() - 1 && answers[i] == (AnswerView {
            output: error.text(),
            status: ToolStatus::Failed,
        }))
}

/// The result blocks of a round, in call order.
pub open spec fn round_results(round: RoundView) -> Seq<BlockView> {
    Seq::new(
        round.answers.len(),
        |i: int| result_block(calls_in(round.content)[i].id, round.answers[i]),
    )
}

/// The two turns a round adds to the history: the reply with its requests, and
/// the user turn with the results.
pub open spec fn round_messages(round: RoundView) -> Seq<MessageView> {
    seq![
        MessageView { role: Role::Assistant, content: round.content },
        MessageView { role: Role::User, content: round_results(round) },
    ]
}

/// The turns that rounds add to the history, in order.
pub open spec fn rounds_messages(rounds: Seq<RoundView>) -> Seq<MessageView>
    decreases rounds.len(),
{
    if rounds.len() == 0 {
        seq![]
    } else {
        rounds_messages(rounds.drop_last()) + round_messages(rounds.last())
    }
}

/// The view of a [`ToolEvent`], or of an event that is none.
#[allow(inconsistent_fields)]
pub enum NoteView {
    Round { content: Seq<BlockView> },
    Call { id: Seq<char>, name: Seq<char>, input: JsonValue },
    Result { id: Seq<char>, name: Seq<char>, output: Seq<char>, status: ToolStatus },
    Other(EventView),
}

/// What a [`ToolEvent`] tells.
pub open spec fn note_of(event: ToolEvent) -> NoteView {
    match event {
        ToolEvent::Round { content } => NoteView::Round { content: views(content@) },
        ToolEvent::Call { id, name, input } => NoteView::Call {
            id: id@,
            name: name@,
            input: input.value(),
        },
        ToolEvent::Result { id, name, output, status } => NoteView::Result {
            id: id@,
            name: name@,
            output: output@,
            status,
        },
    }
}

/// The notes about one answered call.
pub open spec fn call_notes(call: CallView, answer: AnswerView) -> Seq<NoteView> {
    seq![
        NoteView::Call { id: call.id, name: call.name, input: call.input },
        NoteView::Result {
            id: call.id,
            name: call.name,
            output: answer.output,
            status: answer.status,
        },
    ]
}

/// The notes about one round: the round itself, then each answered call with
/// its result, in call order.
pub open spec fn round_notes(content: Seq<BlockView>, answers: Seq<AnswerView>) -> Seq<NoteView>
    decreases answers.len(),
{
    if answers.len() == 0 {
        seq![NoteView::Round { content }]
    } else {
        round_notes(content, answers.drop_last()) + call_notes(
            calls_in(content)[answers.len() - 1],
            answers.last(),
        )
    }
}

/// The notes about rounds, in order.
pub open spec fn rounds_notes(rounds: Seq<RoundView>) -> Seq<NoteView>
    decreases rounds.len(),
{
    if rounds.len() == 0 {
        seq![]
    } else {
        rounds_notes(rounds.drop_last()) + round_notes(rounds.last().content, rounds.last().answers)
    }
}

/// The calls of a prefix of `content` are the first calls of `content`.
pub proof fn lemma_calls_prefix(content: Seq<BlockView>, n: int)
    requires
        0 <= n <= content.len(),
    ensures
        calls_in(content.take(n)).len() <= calls_in(content).len(),
        forall|i: int|
            0 <= i < calls_in(content.take(n)).len() ==> #[trigger] calls_in(content.take(n))[i]
                == calls_in(content)[i],
    decreases content.len(),
{
    if n == content.len() {
        assert(content.take(n) == content);
    } else {
        lemma_calls_prefix(content.drop_last(), n);
        assert(content.drop_last().take(n) == content.take(n));
    }
}

/// Receives each [`ToolEvent`] as it happens.
pub trait ToolObserver {
    /// The notes received so far.
    spec fn seen(&self) -> Seq<NoteView>;

    /// The session turn that the notes belong to, if they belong to one.
    spec fn turn(&self) -> Option<(Seq<char>, u64)>;

    /// The warnings about what this observer could not keep.
    spec fn losses(&self) -> Seq<Seq<char>>;

    /// Receives one event.
    fn observe(&mut self, event: ToolEvent<'_>)
        ensures
            final(self).seen() == old(self).seen().push(note_of(event)),
            final(self).turn() == old(self).turn(),
            losses_added(old(self).losses(), final(self).losses()),
    ;
}

/// An observer that lets every event pass.
pub struct Unobserved {
    notes: Ghost<Seq<NoteView>>,
}

impl Unobserved {
    /// An observer that has received nothing.
    pub fn new() -> (observer: Self)
        ensures
            observer.seen() == Seq::<NoteView>::empty(),
    {
        Unobserved { notes: Ghost(Seq::empty()) }
    }
}

impl ToolObserver for Unobserved {
    closed spec fn seen(&self) -> Seq<NoteView> {
        self.notes@
    }

    open spec fn turn(&self) -> Option<(Seq<char>, u64)> {
        None
    }

    open spec fn losses(&self) -> Seq<Seq<char>> {
        seq![]
    }

    fn observe(&mut self, event: ToolEvent<'_>) {
        self.notes = Ghost(self.notes@.push(note_of(event)));
    }
}

// ---------------------------------------------------------------------------
// The loop

/// The result of one user turn run through a [`ToolLoop`].
#[derive(Debug, PartialEq, Eq)]
pub struct TurnOutcome {
    /// The final reply; its usage sums every provider call of the turn.
    pub reply: AssistantReply,
    /// The turns between the history and the final reply: each reply that
    /// requested tools, followed by the user turn with the results.
    pub transcript: Vec<Message>,
    /// Whether the turn stopped at its round limit, its final reply still
    /// requesting tools that were not run.
    pub capped: bool,
}

/// The sum of two optional counts; absent only where both are.
pub open spec fn count_sum(a: Option<u64>, b: Option<u64>) -> Option<u64> {
    match (a, b) {
        (None, None) => None,
        (Some(x), None) => Some(x),
        (None, Some(y)) => Some(y),
        (Some(x), Some(y)) => Some(((x + y) % 0x1_0000_0000_0000_0000) as u64),
    }
}

/// The sum of two usages, count by count.
pub open spec fn usage_sum(a: TokenUsage, b: TokenUsage) -> TokenUsage {
    TokenUsage {
        input_tokens: count_sum(a.input_tokens, b.input_tokens),
        output_tokens: count_sum(a.output_tokens, b.output_tokens),
    }
}

fn add_count(a: Option<u64>, b: Option<u64>) -> (sum: Option<u64>)
    ensures
        sum == count_sum(a, b),
{
    match (a, b) {
        (None, None) => None,
        (Some(x), None) => Some(x),
        (None, Some(y)) => Some(y),
        (Some(x), Some(y)) => Some(
            if x <= u64::MAX - y {
                x + y
            } else {
                x - (u64::MAX - y) - 1
            },
        ),
    }
}

/// Sums two usages per count; a count stays absent only where both are. A sum
/// past the largest count wraps around.
pub fn add_usage(a: TokenUsage, b: TokenUsage) -> (sum: TokenUsage)
    ensures
        sum == usage_sum(a, b),
{
    TokenUsage {
        input_tokens: add_count(a.input_tokens, b.input_tokens),
        output_tokens: add_count(a.output_tokens, b.output_tokens),
    }
}

/// The reply of a call that got one.
pub open spec fn reply_in(call: TransportCall<AssistantReply>) -> AssistantReply {
    call.result->Ok_0
}

/// The usage of a turn: the sum over the replies to its calls.
pub open spec fn total_usage(calls: Seq<TransportCall<AssistantReply>>) -> TokenUsage
    decreases calls.len(),
{
    if calls.len() == 0 {
        TokenUsage { input_tokens: None, output_tokens: None }
    } else if calls.len() == 1 {
        reply_in(calls[0]).usage
    } else {
        usage_sum(total_usage(calls.drop_last()), reply_in(calls.last()).usage)
    }
}

/// The provider attempts of a turn: those of its calls, up to the largest count.
pub open spec fn total_attempts(calls: Seq<TransportCall<AssistantReply>>) -> u64
    decreases calls.len(),
{
    if calls.len() == 0 {
        0
    } else {
        let sum = total_attempts(calls.drop_last()) + calls.last().attempts;
        if sum <= u64::MAX {
            sum as u64
        } else {
            u64::MAX
        }
    }
}

/// The warning for a turn that stopped at its round limit.
pub open spec fn round_limit_text(max_tool_rounds: nat) -> Seq<char> {
    "warning: stopped after "@ + decimal(max_tool_rounds)
        + " tool-use rounds; reply still requests tools"@
}

/// The warning for a turn that stopped at its round limit.
pub fn tool_round_limit_warning(max_tool_rounds: usize) -> (warning: String)
    ensures
        warning@ == round_limit_text(max_tool_rounds as nat),
{
    concat3(
        "warning: stopped after ",
        decimal_text(max_tool_rounds as u64).as_str(),
        " tool-use rounds; reply still requests tools",
    )
}

/// Whether a reply stops for tools.
pub open spec fn wants_tools(reply: ReplyView) -> bool {
    reply.stop_reason == Some(StopView::ToolUse)
}

fn requests_tools(reply: &AssistantReply) -> (wants: bool)
    ensures
        wants == wants_tools(reply@),
{
    match &reply.stop_reason {
        Some(StopReason::ToolUse) => true,
        _ => false,
    }
}

/// Runs the tools that replies request and sends the results back.
pub struct ToolLoop<T: Transport> {
    /// The provider.
    pub transport: T,
    /// The tools.
    pub registry: ToolRegistry,
    /// The rounds one user turn may take; without a limit when absent.
    pub max_tool_rounds: Option<usize>,
}

impl<T: Transport> ToolLoop<T> {
    /// Whether `rounds` were run after `history` with the provider calls `calls`:
    /// the first call, and one more after each round, which answers the reply to
    /// the call before it; and the limit was kept. A call is made where no signal
    /// has arrived.
    pub open spec fn advanced(
        &self,
        history: Seq<MessageView>,
        rounds: Seq<RoundView>,
        calls: Seq<TransportCall<AssistantReply>>,
    ) -> bool {
        &&& calls.len() == rounds.len() + 1 || (calls.len() == 0 && rounds.len() == 0)
        &&& calls.len() > 0 ==> self.transport.may_signal(None)
        &&& self.max_tool_rounds matches Some(limit) ==> rounds.len() <= limit
        &&& forall|i: int|
            0 <= i < calls.len() ==> #[trigger] self.called(history, rounds, i, calls[i])
        &&& forall|i: int| 0 <= i < rounds.len() ==> self.is_run(calls[i], #[trigger] rounds[i])
    }

    /// Whether the provider can make `call` after the first `n` rounds.
    pub open spec fn called(
        &self,
        history: Seq<MessageView>,
        rounds: Seq<RoundView>,
        n: int,
        call: TransportCall<AssistantReply>,
    ) -> bool {
        self.transport.may_call(history + rounds_messages(rounds.take(n)), call)
    }

    /// Whether `round` runs the tools that the reply to `call` requests.
    pub open spec fn is_run(&self, call: TransportCall<AssistantReply>, round: RoundView) -> bool {
        &&& call.result is Ok
        &&& wants_tools(reply_in(call)@)
        &&& round.content == reply_in(call)@.content
        &&& is_round(self.registry, round)
    }

    /// Whether a turn ran `rounds` and ended in `outcome`. It is capped exactly
    /// where the last reply still requests tools, and then it used the limit.
    pub open spec fn finished(
        &self,
        history: Seq<MessageView>,
        rounds: Seq<RoundView>,
        calls: Seq<TransportCall<AssistantReply>>,
        outcome: TurnOutcome,
    ) -> bool {
        &&& self.advanced(history, rounds, calls)
        &&& calls.len() > 0
        &&& calls.last().result is Ok
        &&& views(outcome.transcript@) == rounds_messages(rounds)
        &&& outcome.reply@ == (ReplyView {
            usage: total_usage(calls),
            ..reply_in(calls.last())@
        })
        &&& outcome.capped == wants_tools(reply_in(calls.last())@)
        &&& outcome.capped ==> self.max_tool_rounds == Some(rounds.len() as usize)
    }

    /// Whether a turn ran `rounds` and then broke off with `error`: the provider
    /// failed, or a signal arrived, perhaps amid a further round. Every call
    /// noted then has its result noted too.
    pub open spec fn broke_off(
        &self,
        history: Seq<MessageView>,
        rounds: Seq<RoundView>,
        calls: Seq<TransportCall<AssistantReply>>,
        notes: Seq<NoteView>,
        error: LegError,
    ) -> bool {
        &&& self.advanced(history, rounds, calls)
        &&& {
            ||| notes.len() == 0 && calls.len() > 0 && calls.last().result == Err::<
                AssistantReply,
                LegError,
            >(error)
            ||| is_raised(self.transport, error) && (notes.len() == 0 || self.broke_amid(
                calls,
                notes,
                error,
            ))
        }
    }

    /// Whether `notes` are about a round after the last of `calls` that broke off
    /// with `error`.
    pub open spec fn broke_amid(
        &self,
        calls: Seq<TransportCall<AssistantReply>>,
        notes: Seq<NoteView>,
        error: LegError,
    ) -> bool {
        let content = reply_in(calls.last())@.content;
        &&& calls.len() > 0
        &&& calls.last().result is Ok
        &&& wants_tools(reply_in(calls.last())@)
        &&& exists|answers: Seq<AnswerView>|
            notes == #[trigger] round_notes(content, answers) && is_broken_round(
                self.registry,
                content,
                answers,
                error,
            )
    }

    /// What a turn after `history` can come to, and what an observer is told. Its
    /// attempts are those of all its provider calls.
    pub open spec fn ran(
        &self,
        history: Seq<MessageView>,
        before: Seq<NoteView>,
        after: Seq<NoteView>,
        turn: TransportCall<TurnOutcome>,
    ) -> bool {
        match turn.result {
            Ok(outcome) => exists|
                rounds: Seq<RoundView>,
                calls: Seq<TransportCall<AssistantReply>>,
            | #[trigger]
                self.finished(history, rounds, calls, outcome) && turn.attempts == total_attempts(
                    calls,
                ) && after == before + rounds_notes(rounds),
            Err(error) => exists|
                rounds: Seq<RoundView>,
                calls: Seq<TransportCall<AssistantReply>>,
                notes: Seq<NoteView>,
            | #[trigger]
                self.broke_off(history, rounds, calls, notes, error) && turn.attempts
                    == total_attempts(calls) && after == before + rounds_notes(rounds) + notes,
        }
    }

    /// A loop over `transport` that runs tools through `registry`.
    pub fn new(transport: T, registry: ToolRegistry, max_tool_rounds: Option<usize>) -> (tool_loop:
        Self)
        ensures
            tool_loop.transport == transport,
            tool_loop.registry == registry,
            tool_loop.max_tool_rounds == max_tool_rounds,
    {
        ToolLoop { transport, registry, max_tool_rounds }
    }

    /// The rounds one user turn may take, or `None` without a limit.
    pub fn max_tool_rounds(&self) -> (limit: Option<usize>)
        ensures
            limit == self.max_tool_rounds,
    {
        self.max_tool_rounds
    }

    /// Runs one user turn.
    pub fn run(&self, history: &[Message]) -> (result: Result<TurnOutcome>)
        ensures
            exists|notes: Seq<NoteView>, turn: TransportCall<TurnOutcome>| #[trigger]
                self.ran(views(history@), seq![], notes, turn) && turn.result == result,
    {
        let mut observer = Unobserved::new();
        let turn = self.run_observed_with_attempts(history, &mut observer);
        assert(self.ran(views(history@), seq![], observer.seen(), turn));
        turn.result
    }

    /// Runs one user turn and tells `observer` of each round, then each of its
    /// calls and their results, in call order.
    pub fn run_observed<O: ToolObserver>(&self, history: &[Message], observer: &mut O) -> (result:
        Result<TurnOutcome>)
        ensures
            exists|turn: TransportCall<TurnOutcome>| #[trigger]
                self.ran(
                    views(history@),
                    old(observer).seen(),
                    final(observer).seen(),
                    turn,
                ) && turn.result == result,
            final(observer).turn() == old(observer).turn(),
            losses_added(old(observer).losses(), final(observer).losses()),
    {
        let turn = self.run_observed_with_attempts(history, observer);
        turn.result
    }

    /// Runs the calls of one round. `Ok` holds the result blocks; an interrupted
    /// call is noted as failed before the interruption is returned.
    fn run_round<O: ToolObserver>(&self, content: &Vec<ContentBlock>, observer: &mut O) -> (result:
        core::result::Result<(Vec<ContentBlock>, Ghost<Seq<AnswerView>>), LegError>)
        ensures
            match result {
                Ok((results, answers)) => {
                    let round = RoundView { content: views(content@), answers: answers@ };
                    &&& is_round(self.registry, round)
                    &&& views(results@) == round_results(round)
                    &&& final(observer).seen() == old(observer).seen() + round_notes(
                        views(content@),
                        answers@,
                    )
                },
                Err(error) => is_raised(self.transport, error) && exists|answers: Seq<AnswerView>|
                    final(observer).seen() == old(observer).seen() + #[trigger] round_notes(
                        views(content@),
                        answers,
                    ) && is_broken_round(self.registry, views(content@), answers, error),
            },
            final(observer).turn() == old(observer).turn(),
            losses_added(old(observer).losses(), final(observer).losses()),
    {
        let ghost blocks = views(content@);
        let ghost calls = calls_in(blocks);
        let ghost start = observer.seen();
        observer.observe(ToolEvent::Round { content: content.as_slice() });
        let mut results: Vec<ContentBlock> = Vec::new();
        let ghost mut answers: Seq<AnswerView> = Seq::empty();
        let mut j: usize = 0;
        assert(observer.seen() =~= start + round_notes(blocks, answers));
        assert(blocks.take(0) =~= Seq::<BlockView>::empty());
        assert(views(results@) =~= Seq::<BlockView>::empty());
        while j < content.len()
            invariant
                j <= content.len(),
                blocks == views(content@),
                calls == calls_in(blocks),
                start == old(observer).seen(),
                answers.len() == calls_in(blocks.take(j as int)).len(),
                answers.len() <= calls.len(),
                forall|i: int|
                    0 <= i < answers.len() ==> self.registry.may_answer(
                        calls[i].name,
                        calls[i].input,
                        #[trigger] answers[i],
                    ),
                views(results@) == Seq::new(
                    answers.len(),
                    |i: int| result_block(calls[i].id, answers[i]),
                ),
                observer.seen() == start + round_notes(blocks, answers),
                observer.turn() == old(observer).turn(),
                losses_added(old(observer).losses(), observer.losses()),
            decreases content.len() - j,
        {
            assert(blocks.take(j + 1).drop_last() == blocks.take(j as int));
            assert(blocks.take(j + 1).last() == content@[j as int]@);
            proof {
                lemma_calls_prefix(blocks, j + 1);
            }
            if let ContentBlock::ToolUse { id, name, input } = &content[j] {
                let ghost call = CallView { id: id@, name: name@, input: input.value() };
                assert(calls_in(blocks.take(j + 1)) == calls_in(blocks.take(j as int)).push(call));
                assert(calls_in(blocks.take(j + 1))[answers.len() as int] == call);
                assert(calls[answers.len() as int] == call);
                if let Some(signal) = self.transport.interrupted() {
                    let error = LegError::Interrupted { signal };
                    assert(is_broken_round(self.registry, blocks, answers, error));
                    return Err(error);
                }
                observer.observe(
                    ToolEvent::Call { id: id.as_str(), name: name.as_str(), input },
                );
                if let Some(signal) = self.transport.interrupted() {
                    let error = LegError::Interrupted { signal };
                    let output = error.to_string();
                    observer.observe(
                        ToolEvent::Result {
                            id: id.as_str(),
                            name: name.as_str(),
                            output: output.as_str(),
                            status: ToolStatus::Failed,
                        },
                    );
                    proof {
                        let answer = AnswerView { output: output@, status: ToolStatus::Failed };
                        lemma_noted(start, blocks, answers, call, answer, observer.seen());
                        assert(is_broken_round(
                            self.registry,
                            blocks,
                            answers.push(answer),
                            error,
                        ));
                    }
                    return Err(error);
                }
                let (result, status) = self.registry.dispatch_with_status(
                    id.as_str(),
                    name.as_str(),
                    input,
                );
                let ghost (denial, returned) = choose|
                    denial: Option<Seq<char>>,
                    returned: Option<core::result::Result<Seq<char>, Seq<char>>>,
                | #[trigger]
                    self.registry.may_run(name@, input.value(), denial, returned) && result@
                        == result_block(id@, answer_of(name@, denial, returned)) && status
                        == answer_of(name@, denial, returned).status;
                let ghost answer = answer_of(name@, denial, returned);
                assert(self.registry.may_answer(name@, input.value(), answer));
                if let Some(signal) = self.transport.interrupted() {
                    let error = LegError::Interrupted { signal };
                    let output = error.to_string();
                    observer.observe(
                        ToolEvent::Result {
                            id: id.as_str(),
                            name: name.as_str(),
                            output: output.as_str(),
                            status: ToolStatus::Failed,
                        },
                    );
                    proof {
                        let answer = AnswerView { output: output@, status: ToolStatus::Failed };
                        lemma_noted(start, blocks, answers, call, answer, observer.seen());
                        assert(is_broken_round(
                            self.registry,
                            blocks,
                            answers.push(answer),
                            error,
                        ));
                    }
                    return Err(error);
                }
                if let ContentBlock::ToolResult { content: output, .. } = &result {
                    observer.observe(
                        ToolEvent::Result {
                            id: id.as_str(),
                            name: name.as_str(),
                            output: output.as_str(),
                            status,
                        },
                    );
                }
                proof {
                    lemma_noted(start, blocks, answers, call, answer, observer.seen());
                }
                let ghost before = views(results@);
                results.push(result);
                proof {
                    assert(views(results@) =~= before.push(result_block(call.id, answer)));
                    answers = answers.push(answer);
                    assert(views(results@) =~= Seq::new(
                        answers.len(),
                        |i: int| result_block(calls[i].id, answers[i]),
                    ));
                }
            }
            j = j + 1;
        }
        assert(blocks.take(j as int) == blocks);
        proof {
            let round = RoundView { content: blocks, answers };
            assert(views(results@) =~= round_results(round));
        }
        Ok((results, Ghost(answers)))
    }

    /// [`ToolLoop::run_observed`] with the provider attempts of all its calls.
    pub fn run_observed_with_attempts<O: ToolObserver>(
        &self,
        history: &[Message],
        observer: &mut O,
    ) -> (call: TransportCall<TurnOutcome>)
        ensures
            self.ran(views(history@), old(observer).seen(), final(observer).seen(), call),
            final(observer).turn() == old(observer).turn(),
            losses_added(old(observer).losses(), final(observer).losses()),
    {
        let ghost given = views(history@);
        let ghost start = observer.seen();
        let ghost mut rounds: Seq<RoundView> = Seq::empty();
        let ghost mut calls: Seq<TransportCall<AssistantReply>> = Seq::empty();
        assert(start =~= start + rounds_notes(rounds) + Seq::<NoteView>::empty());
        if let Some(signal) = self.transport.interrupted() {
            let error = LegError::Interrupted { signal };
            assert(self.broke_off(given, rounds, calls, seq![], error));
            return TransportCall::new(Err(error), 0);
        }
        let mut messages = clone_messages(history);
        assert(views(messages@) =~= given + rounds_messages(rounds));
        let call = self.transport.send_conversation_with_attempts(messages.as_slice());
        let mut attempts: u64 = call.attempts;
        proof {
            calls = calls.push(call);
            assert(calls.drop_last() =~= Seq::<TransportCall<AssistantReply>>::empty());
            assert(total_attempts(calls.drop_last()) == 0);
            assert(attempts == total_attempts(calls));
            assert(rounds.take(0) =~= rounds);
            assert(self.called(given, rounds, 0, call));
            assert(self.advanced(given, rounds, calls));
        }
        if let Some(signal) = self.transport.interrupted() {
            let error = LegError::Interrupted { signal };
            assert(self.broke_off(given, rounds, calls, seq![], error));
            return TransportCall::new(Err(error), attempts);
        }
        let mut reply = match call.result {
            Ok(reply) => reply,
            Err(error) => {
                assert(self.broke_off(given, rounds, calls, seq![], error));
                return TransportCall::new(Err(error), attempts);
            },
        };
        let mut usage = reply.usage;
        let mut done: usize = 0;
        while requests_tools(&reply)
            invariant
                given == views(history@),
                start == old(observer).seen(),
                done == rounds.len() || done == usize::MAX,
                done <= rounds.len(),
                messages@.len() == history@.len() + 2 * rounds.len(),
                calls.len() == rounds.len() + 1,
                calls.last().result == Ok::<AssistantReply, LegError>(reply),
                self.advanced(given, rounds, calls),
                attempts == total_attempts(calls),
                views(messages@) == given + rounds_messages(rounds),
                usage == total_usage(calls),
                observer.seen() == start + rounds_notes(rounds),
                observer.turn() == old(observer).turn(),
                losses_added(old(observer).losses(), observer.losses()),
            decreases usize::MAX - messages@.len(),
        {
            assert(observer.seen() =~= start + rounds_notes(rounds) + Seq::<NoteView>::empty());
            if let Some(signal) = self.transport.interrupted() {
                let error = LegError::Interrupted { signal };
                assert(self.broke_off(given, rounds, calls, seq![], error));
                return TransportCall::new(Err(error), attempts);
            }
            let count: usize = messages.len();
            if let Some(limit) = self.max_tool_rounds {
                if done >= limit {
                    reply.usage = usage;
                    let ghost all = views(messages@);
                    let transcript = messages.split_off(history.len());
                    assert(views(transcript@) =~= all.skip(given.len() as int));
                    assert(views(transcript@) =~= rounds_messages(rounds));
                    let outcome = TurnOutcome { reply, transcript, capped: true };
                    assert(self.finished(given, rounds, calls, outcome));
                    return TransportCall::new(Ok(outcome), attempts);
                }
            }
            let ghost noted = observer.seen();
            let (results, answers) = match self.run_round(&reply.content, observer) {
                Ok(done_round) => done_round,
                Err(error) => {
                    proof {
                        let partial = choose|answers: Seq<AnswerView>|
                            observer.seen() == noted + #[trigger] round_notes(
                                reply@.content,
                                answers,
                            ) && is_broken_round(self.registry, reply@.content, answers, error);
                        let notes = round_notes(reply@.content, partial);
                        assert(self.broke_amid(calls, notes, error));
                        assert(self.broke_off(given, rounds, calls, notes, error));
                    }
                    return TransportCall::new(Err(error), attempts);
                },
            };
            let ghost round = RoundView { content: reply@.content, answers: answers@ };
            let ghost earlier = rounds;
            let ghost made = calls;
            let ghost prior = views(messages@);
            assert(self.is_run(calls.last(), round));
            let content = reply.content;
            messages.push(Message::new(Role::Assistant, content));
            messages.push(Message::new(Role::User, results));
            let grown: usize = messages.len();
            done = done.saturating_add(1);
            proof {
                rounds = rounds.push(round);
                assert(rounds.drop_last() == earlier);
                assert(views(messages@) =~= prior + round_messages(round));
                assert(views(messages@) =~= given + rounds_messages(rounds));
                assert(observer.seen() =~= start + rounds_notes(rounds));
                assert(observer.seen() =~= start + rounds_notes(rounds) + Seq::<NoteView>::empty());
            }
            let call = self.transport.send_conversation_with_attempts(messages.as_slice());
            attempts = attempts.saturating_add(call.attempts);
            proof {
                calls = calls.push(call);
                assert(calls.drop_last() == made);
                assert(rounds.take(rounds.len() as int) == rounds);
                assert forall|i: int| 0 <= i < calls.len() implies #[trigger] self.called(
                    given,
                    rounds,
                    i,
                    calls[i],
                ) by {
                    if i < made.len() {
                        assert(rounds.take(i) == earlier.take(i));
                        assert(self.called(given, earlier, i, made[i]));
                    }
                }
                assert forall|i: int| 0 <= i < rounds.len() implies self.is_run(
                    calls[i],
                    #[trigger] rounds[i],
                ) by {
                    if i < earlier.len() {
                        assert(self.is_run(made[i], earlier[i]));
                    }
                }
                assert(self.advanced(given, rounds, calls));
            }
            if let Some(signal) = self.transport.interrupted() {
                let error = LegError::Interrupted { signal };
                assert(self.broke_off(given, rounds, calls, seq![], error));
                return TransportCall::new(Err(error), attempts);
            }
            reply = match call.result {
                Ok(reply) => reply,
                Err(error) => {
                    assert(self.broke_off(given, rounds, calls, seq![], error));
                    return TransportCall::new(Err(error), attempts);
                },
            };
            usage = add_usage(usage, reply.usage);
        }
        reply.usage = usage;
        let ghost all = views(messages@);
        let transcript = messages.split_off(history.len());
        assert(views(transcript@) =~= all.skip(given.len() as int));
        assert(views(transcript@) =~= rounds_messages(rounds));
        let outcome = TurnOutcome { reply, transcript, capped: false };
        assert(self.finished(given, rounds, calls, outcome));
        TransportCall::new(Ok(outcome), attempts)
    }
}

/// Noting a call and its result extends the notes of a round.
proof fn lemma_noted(
    start: Seq<NoteView>,
    content: Seq<BlockView>,
    answers: Seq<AnswerView>,
    call: CallView,
    answer: AnswerView,
    seen: Seq<NoteView>,
)
    requires
        answers.len() < calls_in(content).len(),
        calls_in(content)[answers.len() as int] == call,
        seen =~= start + round_notes(content, answers) + call_notes(call, answer),
    ensures
        seen == start + round_notes(content, answers.push(answer)),
{
    assert(answers.push(answer).drop_last() == answers);
    assert(seen =~= start + round_notes(content, answers.push(answer)));
}

/// Whether every call noted is followed by its result, and every result
/// follows its call.
pub open spec fn calls_are_answered(notes: Seq<NoteView>) -> bool {
    &&& forall|i: int|
        0 <= i < notes.len() ==> (#[trigger] notes[i] matches NoteView::Call { id, name, .. } ==> i
            + 1 < notes.len() && (notes[i + 1] matches NoteView::Result { id: of, name: tool, .. }
            && of == id && tool == name))
    &&& forall|i: int|
        0 <= i < notes.len() ==> (#[trigger] notes[i] is Result ==> i > 0 && notes[i - 1] is Call)
}

proof fn lemma_answered_concat(a: Seq<NoteView>, b: Seq<NoteView>)
    requires
        calls_are_answered(a),
        calls_are_answered(b),
    ensures
        calls_are_answered(a + b),
{
    let c = a + b;
    assert forall|i: int| 0 <= i < c.len() && #[trigger] c[i] is Call implies (c[i] matches
        NoteView::Call { id, name, .. } && i + 1 < c.len() && (c[i + 1] matches NoteView::Result {
        id: of,
        name: tool,
        ..
    } && of == id && tool == name)) by {
        if i < a.len() {
            assert(c[i] == a[i]);
            if i + 1 < a.len() {
                assert(c[i + 1] == a[i + 1]);
            }
        } else {
            assert(c[i] == b[i - a.len()]);
            if i + 1 < c.len() {
                assert(c[i + 1] == b[i - a.len() + 1]);
            }
        }
    }
    assert forall|i: int| 0 <= i < c.len() && #[trigger] c[i] is Result implies i > 0 && c[i
        - 1] is Call by {
        if i < a.len() {
            assert(c[i] == a[i]);
            if i > 0 {
                assert(c[i - 1] == a[i - 1]);
            }
        } else {
            assert(c[i] == b[i - a.len()]);
            if i > a.len() {
                assert(c[i - 1] == b[i - a.len() - 1]);
            }
        }
    }
}

/// Within a round every call noted has its result noted next, however many of
/// its calls were answered before it broke off.
pub proof fn law_round_notes_pair_calls_with_results(
    content: Seq<BlockView>,
    answers: Seq<AnswerView>,
)
    ensures
        calls_are_answered(round_notes(content, answers)),
    decreases answers.len(),
{
    if answers.len() > 0 {
        law_round_notes_pair_calls_with_results(content, answers.drop_last());
        let pair = call_notes(calls_in(content)[answers.len() - 1], answers.last());
        assert(calls_are_answered(pair));
        lemma_answered_concat(round_notes(content, answers.drop_last()), pair);
    }
}

/// Over a whole turn every call noted has its result noted next.
pub proof fn law_turn_notes_pair_calls_with_results(rounds: Seq<RoundView>)
    ensures
        calls_are_answered(rounds_notes(rounds)),
    decreases rounds.len(),
{
    if rounds.len() > 0 {
        law_turn_notes_pair_calls_with_results(rounds.drop_last());
        law_round_notes_pair_calls_with_results(rounds.last().content, rounds.last().answers);
        lemma_answered_concat(
            rounds_notes(rounds.drop_last()),
            round_notes(rounds.last().content, rounds.last().answers),
        );
    }
}

/// What a turn comes to does not depend on what its observer had seen before.
pub proof fn lemma_ran_from_start<T: Transport>(
    tool_loop: ToolLoop<T>,
    history: Seq<MessageView>,
    before: Seq<NoteView>,
    after: Seq<NoteView>,
    turn: TransportCall<TurnOutcome>,
)
    requires
        tool_loop.ran(history, before, after, turn),
    ensures
        exists|notes: Seq<NoteView>|
            after == before + notes && #[trigger] tool_loop.ran(history, seq![], notes, turn),
{
    match turn.result {
        Ok(outcome) => {
            let (rounds, calls) = choose|
                rounds: Seq<RoundView>,
                calls: Seq<TransportCall<AssistantReply>>,
            | #[trigger]
                tool_loop.finished(history, rounds, calls, outcome) && turn.attempts
                    == total_attempts(calls) && after == before + rounds_notes(rounds);
            let notes = rounds_notes(rounds);
            assert(notes =~= Seq::<NoteView>::empty() + rounds_notes(rounds));
            assert(tool_loop.ran(history, seq![], notes, turn));
        },
        Err(error) => {
            let (rounds, calls, tail) = choose|
                rounds: Seq<RoundView>,
                calls: Seq<TransportCall<AssistantReply>>,
                tail: Seq<NoteView>,
            | #[trigger]
                tool_loop.broke_off(history, rounds, calls, tail, error) && turn.attempts
                    == total_attempts(calls) && after == before + rounds_notes(rounds) + tail;
            let notes = rounds_notes(rounds) + tail;
            assert(notes =~= Seq::<NoteView>::empty() + rounds_notes(rounds) + tail);
            assert(after =~= before + notes);
            assert(tool_loop.ran(history, seq![], notes, turn));
        },
    }
}

/// The call of a turn that is seen from outside: its final reply, or its error,
/// and the attempts of all its provider calls.
pub open spec fn reply_of(turn: TransportCall<TurnOutcome>) -> TransportCall<AssistantReply> {
    TransportCall {
        result: match turn.result {
            Ok(outcome) => Ok(outcome.reply),
            Err(error) => Err(error),
        },
        attempts: turn.attempts,
    }
}

impl<T: Transport> Transport for ToolLoop<T> {
    open spec fn may_reply(&self, messages: Seq<MessageView>, result: Result<
        AssistantReply,
    >) -> bool {
        exists|call: TransportCall<AssistantReply>| #[trigger]
            self.may_call(messages, call) && call.result == result
    }

    open spec fn may_call(
        &self,
        messages: Seq<MessageView>,
        call: TransportCall<AssistantReply>,
    ) -> bool {
        exists|notes: Seq<NoteView>| #[trigger] self.may_tell(messages, notes, call)
    }

    /// The notes are those of the turn that gave the reply.
    open spec fn may_tell(
        &self,
        messages: Seq<MessageView>,
        notes: Seq<NoteView>,
        call: TransportCall<AssistantReply>,
    ) -> bool {
        exists|turn: TransportCall<TurnOutcome>| #[trigger]
            self.ran(messages, seq![], notes, turn) && call == reply_of(turn)
    }

    open spec fn may_signal(&self, signal: Option<InterruptSignal>) -> bool {
        self.transport.may_signal(signal)
    }

    /// Runs the tool loop and returns only the final reply.
    fn send_conversation(&self, messages: &[Message]) -> (result: Result<AssistantReply>) {
        let mut observer = Unobserved::new();
        let call = self.send_seen(messages, &mut observer);
        call.result
    }

    fn send_conversation_with_attempts(&self, messages: &[Message]) -> (call: TransportCall<
        AssistantReply,
    >)
        ensures
            self.may_call(views(messages@), call),
    {
        let mut observer = Unobserved::new();
        self.send_seen(messages, &mut observer)
    }

    fn send_observed<O: ToolObserver>(&self, messages: &[Message], observer: &mut O) -> (call:
        TransportCall<AssistantReply>)
        ensures
            exists|turn: TransportCall<TurnOutcome>| #[trigger]
                self.ran(
                    views(messages@),
                    old(observer).seen(),
                    final(observer).seen(),
                    turn,
                ) && call == reply_of(turn),
    {
        self.send_seen(messages, observer)
    }

    fn interrupted(&self) -> (signal: Option<InterruptSignal>) {
        self.transport.interrupted()
    }
}

impl<T: Transport> ToolLoop<T> {
    /// Runs one user turn and returns what is seen of it from outside.
    fn send_seen<O: ToolObserver>(&self, messages: &[Message], observer: &mut O) -> (call:
        TransportCall<AssistantReply>)
        ensures
            exists|turn: TransportCall<TurnOutcome>| #[trigger]
                self.ran(
                    views(messages@),
                    old(observer).seen(),
                    final(observer).seen(),
                    turn,
                ) && call == reply_of(turn),
            self.may_call(views(messages@), call),
            exists|notes: Seq<NoteView>|
                final(observer).seen() == #[trigger] (old(observer).seen() + notes)
                    && self.may_tell(views(messages@), notes, call),
            final(observer).turn() == old(observer).turn(),
            losses_added(old(observer).losses(), final(observer).losses()),
    {
        let ghost before = observer.seen();
        let turn = self.run_observed_with_attempts(messages, observer);
        proof {
            lemma_ran_from_start(*self, views(messages@), before, observer.seen(), turn);
            let notes = choose|notes: Seq<NoteView>|
                observer.seen() == before + notes && #[trigger] self.ran(
                    views(messages@),
                    seq![],
                    notes,
                    turn,
                );
            assert(observer.seen() == before + notes);
            assert(self.may_tell(views(messages@), notes, reply_of(turn)));
        }
        let ghost made = turn;
        let result = match turn.result {
            Ok(outcome) => Ok(outcome.reply),
            Err(error) => Err(error),
        };
        let call = TransportCall::new(result, turn.attempts);
        assert(call == reply_of(made));
        call
    }
}

} // verus!
