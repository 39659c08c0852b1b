//! Typed data structures for the prompt/reply and multi-turn session flows.
//!
//! [`Prompt`] and [`AssistantReply`] model the single-turn `ask` path.
//! Multi-turn sessions build on [`Message`] (a role-tagged turn) and
//! [`Conversation`] (the accumulated history that is resent with every
//! request). A message's content is an ordered list of [`ContentBlock`]s, so
//! tool calls and their results round-trip through the transport, the trail,
//! and `--resume`. [`ToolSpec`] declares a tool the provider may call and
//! [`StopReason`] reports why a reply ended.

use vstd::prelude::*;

use crate::json::{
    Json, JsonTree, JsonValue, add_member, member_trees, object, string, value,
};
use crate::text::{IntoText, opt_view, same_text, views};

verus! {

/// The author of a single conversation turn.
#[derive(Debug, Clone, Copy, PartialEq, Eq, Structural)]
pub enum Role {
    /// A turn authored by the user / calling agent.
    User,
    /// A turn authored by the assistant (a prior reply).
    Assistant,
}

impl Role {
    /// The wire value for this role.
    pub open spec fn wire(self) -> Seq<char> {
        match self {
            Role::User => "user"@,
            Role::Assistant => "assistant"@,
        }
    }

    /// The Messages API wire value for this role.
    pub fn as_str(self) -> (wire: &'static str)
        ensures
            wire@ == self.wire(),
    {
        match self {
            Role::User => "user",
            Role::Assistant => "assistant",
        }
    }
}

/// Where an image block's data comes from.
#[derive(Debug, PartialEq, Eq)]
pub enum ImageSource {
    /// Base64 text in the request itself.
    Base64 {
        /// The image's media type, such as `image/png`.
        media_type: String,
        /// The base64 text.
        data: String,
    },
}

/// One block of a message's content, mirroring a Messages API content block.
#[derive(Debug, PartialEq, Eq)]
pub enum ContentBlock {
    /// Plain text.
    Text {
        /// The text content.
        text: String,
    },
    /// A tool call requested by the assistant.
    ToolUse {
        /// Provider-assigned call id, echoed back by the matching result.
        id: String,
        /// The called tool's name.
        name: String,
        /// The call's arguments, as the JSON object the provider sent.
        input: Json,
    },
    /// The result of a tool call, sent back on a user turn.
    ToolResult {
        /// The id of the tool call this result answers.
        tool_use_id: String,
        /// The tool's output text.
        content: String,
        /// Whether the tool call failed; omitted when unset.
        is_error: Option<bool>,
    },
    /// An image attached to a user turn.
    Image {
        /// The image data.
        source: ImageSource,
    },
    /// Signed reasoning, echoed back verbatim on a tool continuation.
    Thinking {
        /// The reasoning text.
        thinking: String,
        /// The provider's signature over it.
        signature: String,
    },
}

/// What a [`ContentBlock`] says. The order in which the members of a tool
/// call's arguments were written is not part of it.
pub enum BlockView {
    Text { text: Seq<char> },
    ToolUse { id: Seq<char>, name: Seq<char>, input: JsonValue },
    ToolResult { tool_use_id: Seq<char>, content: Seq<char>, is_error: Option<bool> },
    Image { media_type: Seq<char>, data: Seq<char> },
    Thinking { thinking: Seq<char>, signature: Seq<char> },
}

impl View for ContentBlock {
    type V = BlockView;

    open spec fn view(&self) -> BlockView {
        match *self {
            ContentBlock::Text { text } => BlockView::Text { text: text@ },
            ContentBlock::ToolUse { id, name, input } => BlockView::ToolUse {
                id: id@,
                name: name@,
                input: input.value(),
            },
            ContentBlock::ToolResult { tool_use_id, content, is_error } => BlockView::ToolResult {
                tool_use_id: tool_use_id@,
                content: content@,
                is_error,
            },
            ContentBlock::Image { source: ImageSource::Base64 { media_type, data } } =>
                BlockView::Image { media_type: media_type@, data: data@ },
            ContentBlock::Thinking { thinking, signature } => BlockView::Thinking {
                thinking: thinking@,
                signature: signature@,
            },
        }
    }
}

impl Clone for ContentBlock {
    fn clone(&self) -> (copy: Self)
        ensures
            copy@ == self@,
    {
        match self {
            ContentBlock::Text { text } => ContentBlock::Text { text: text.clone() },
            ContentBlock::ToolUse { id, name, input } => ContentBlock::ToolUse {
                id: id.clone(),
                name: name.clone(),
                input: input.clone(),
            },
            ContentBlock::ToolResult { tool_use_id, content, is_error } =>
                ContentBlock::ToolResult {
                tool_use_id: tool_use_id.clone(),
                content: content.clone(),
                is_error: *is_error,
            },
            ContentBlock::Image { source: ImageSource::Base64 { media_type, data } } =>
                ContentBlock::Image {
                source: ImageSource::Base64 { media_type: media_type.clone(), data: data.clone() },
            },
            ContentBlock::Thinking { thinking, signature } => ContentBlock::Thinking {
                thinking: thinking.clone(),
                signature: signature.clone(),
            },
        }
    }
}

/// A copy of `blocks`.
pub fn clone_blocks(blocks: &[ContentBlock]) -> (copy: Vec<ContentBlock>)
    ensures
        views(copy@) == views(blocks@),
{
    let mut copy: Vec<ContentBlock> = Vec::new();
    let mut i: usize = 0;
    while i < blocks.len()
        invariant
            i <= blocks.len(),
            copy@.len() == i,
            forall|k: int| 0 <= k < i ==> (#[trigger] copy@[k])@ == blocks@[k]@,
        decreases blocks.len() - i,
    {
        copy.push(blocks[i].clone());
        i = i + 1;
    }
    assert(views(copy@) =~= views(blocks@));
    copy
}

impl ContentBlock {
    /// Creates a text block from anything string-like.
    pub fn text(text: impl IntoText) -> (block: Self)
        ensures
            block@ == (BlockView::Text { text: text.as_text() }),
    {
        ContentBlock::Text { text: text.into_text() }
    }
}

/// The texts of the text blocks of `blocks`, joined in order.
pub open spec fn text_of_blocks(blocks: Seq<BlockView>) -> Seq<char>
    decreases blocks.len(),
{
    if blocks.len() == 0 {
        seq![]
    } else {
        let before = text_of_blocks(blocks.drop_last());
        match blocks.last() {
            BlockView::Text { text } => before + text,
            _ => before,
        }
    }
}

/// Concatenates the `text` blocks of `blocks` in order, ignoring other blocks.
pub fn blocks_text(blocks: &[ContentBlock]) -> (text: String)
    ensures
        text@ == text_of_blocks(views(blocks@)),
{
    let mut out = String::new();
    let ghost all = views(blocks@);
    let mut i: usize = 0;
    while i < blocks.len()
        invariant
            i <= blocks.len(),
            all == views(blocks@),
            out@ == text_of_blocks(all.take(i as int)),
        decreases blocks.len() - i,
    {
        assert(all.take(i + 1).drop_last() == all.take(i as int));
        match &blocks[i] {
            ContentBlock::Text { text } => {
                out.append(text.as_str());
            },
            _ => {},
        }
        i = i + 1;
    }
    assert(all.take(all.len() as int) == all);
    out
}

/// The lone text of `blocks`, where they are exactly one text block.
pub open spec fn single_text(blocks: Seq<BlockView>) -> Option<Seq<char>> {
    if blocks.len() == 1 && blocks[0] is Text {
        Some(blocks[0]->Text_text)
    } else {
        None
    }
}

/// Returns the lone text of `blocks` when they are exactly one text block.
///
/// This is the "text-only" shape: the transport sends it as a bare string and
/// the trail omits its `content` field.
pub fn as_single_text(blocks: &[ContentBlock]) -> (text: Option<&str>)
    ensures
        opt_view(text) == single_text(views(blocks@)),
{
    if blocks.len() == 1 {
        match &blocks[0] {
            ContentBlock::Text { text } => Some(text.as_str()),
            _ => None,
        }
    } else {
        None
    }
}

/// A single role-tagged turn in a conversation.
#[derive(Debug, PartialEq, Eq)]
pub struct Message {
    /// Who authored this turn.
    pub role: Role,
    /// The turn's content blocks, in order.
    pub content: Vec<ContentBlock>,
}

/// The view of a [`Message`].
#[verifier::ext_equal]
pub struct MessageView {
    pub role: Role,
    pub content: Seq<BlockView>,
}

impl View for Message {
    type V = MessageView;

    open spec fn view(&self) -> MessageView {
        MessageView { role: self.role, content: views(self.content@) }
    }
}

impl Clone for Message {
    fn clone(&self) -> (copy: Self)
        ensures
            copy@ == self@,
    {
        Message { role: self.role, content: clone_blocks(self.content.as_slice()) }
    }
}

/// A turn of `role` that holds one text block.
pub open spec fn text_message(role: Role, text: Seq<char>) -> MessageView {
    MessageView { role, content: seq![BlockView::Text { text }] }
}

impl Message {
    /// Creates a turn from explicit content blocks.
    pub fn new(role: Role, content: Vec<ContentBlock>) -> (message: Self)
        ensures
            message@ == (MessageView { role, content: views(content@) }),
    {
        Message { role, content }
    }

    fn of_text(role: Role, text: String) -> (message: Self)
        ensures
            message@ == text_message(role, text@),
    {
        let mut content: Vec<ContentBlock> = Vec::new();
        content.push(ContentBlock::Text { text });
        let message = Message { role, content };
        assert(message@.content =~= seq![BlockView::Text { text: text@ }]);
        message
    }

    /// Creates a user turn holding one text block.
    pub fn user(text: impl IntoText) -> (message: Self)
        ensures
            message@ == text_message(Role::User, text.as_text()),
    {
        Message::of_text(Role::User, text.into_text())
    }

    /// Creates an assistant turn holding one text block.
    pub fn assistant(text: impl IntoText) -> (message: Self)
        ensures
            message@ == text_message(Role::Assistant, text.as_text()),
    {
        Message::of_text(Role::Assistant, text.into_text())
    }

    /// The turn's text blocks concatenated in order.
    pub fn text(&self) -> (text: String)
        ensures
            text@ == text_of_blocks(self@.content),
    {
        blocks_text(self.content.as_slice())
    }
}

/// A copy of `messages`.
pub fn clone_messages(messages: &[Message]) -> (copy: Vec<Message>)
    ensures
        views(copy@) == views(messages@),
{
    let mut copy: Vec<Message> = Vec::new();
    let mut i: usize = 0;
    while i < messages.len()
        invariant
            i <= messages.len(),
            copy@.len() == i,
            forall|k: int| 0 <= k < i ==> (#[trigger] copy@[k])@ == messages@[k]@,
        decreases messages.len() - i,
    {
        copy.push(messages[i].clone());
        i = i + 1;
    }
    assert(views(copy@) =~= views(messages@));
    copy
}

/// An ordered, in-memory accumulation of conversation turns.
///
/// Each turn is appended in order, and [`Conversation::messages`] returns the
/// full history that is resent with every request. It holds no provider
/// state: it is pure data the transport reads.
#[derive(Debug, PartialEq, Eq)]
pub struct Conversation {
    messages: Vec<Message>,
}

impl View for Conversation {
    type V = Seq<MessageView>;

    closed spec fn view(&self) -> Seq<MessageView> {
        views(self.messages@)
    }
}

impl Default for Conversation {
    fn default() -> (conversation: Self)
        ensures
            conversation@ == Seq::<MessageView>::empty(),
    {
        let conversation = Conversation { messages: Vec::new() };
        assert(conversation@ =~= Seq::<MessageView>::empty());
        conversation
    }
}

impl Clone for Conversation {
    fn clone(&self) -> (copy: Self)
        ensures
            copy@ == self@,
    {
        Conversation { messages: clone_messages(self.messages.as_slice()) }
    }
}

impl Conversation {
    /// Creates an empty conversation.
    pub fn new() -> (conversation: Self)
        ensures
            conversation@ == Seq::<MessageView>::empty(),
    {
        Conversation::default()
    }

    /// Appends a turn.
    pub fn push(&mut self, message: Message)
        ensures
            final(self)@ == old(self)@.push(message@),
    {
        self.messages.push(message);
        assert(self@ =~= old(self)@.push(message@));
    }

    /// Appends a user turn.
    pub fn push_user(&mut self, content: impl IntoText)
        ensures
            final(self)@ == old(self)@.push(text_message(Role::User, content.as_text())),
    {
        self.push(Message::user(content));
    }

    /// Appends an assistant turn.
    pub fn push_assistant(&mut self, content: impl IntoText)
        ensures
            final(self)@ == old(self)@.push(text_message(Role::Assistant, content.as_text())),
    {
        self.push(Message::assistant(content));
    }

    /// Removes and returns the most recent turn, if any.
    ///
    /// Used to roll back a just-appended user turn when its request fails, so
    /// the history never holds two consecutive same-role turns.
    pub fn pop(&mut self) -> (message: Option<Message>)
        ensures
            old(self)@.len() == 0 ==> message is None && final(self)@ == old(self)@,
            old(self)@.len() > 0 ==> (message matches Some(m) && m@ == old(self)@.last())
                && final(self)@ == old(self)@.drop_last(),
    {
        let message = self.messages.pop();
        assert(old(self)@.len() > 0 ==> self@ =~= old(self)@.drop_last());
        message
    }

    /// The full history in order, oldest turn first.
    pub fn messages(&self) -> (messages: &[Message])
        ensures
            views(messages@) == self@,
    {
        self.messages.as_slice()
    }

    /// The number of accumulated turns.
    pub fn len(&self) -> (len: usize)
        ensures
            len == self@.len(),
    {
        self.messages.len()
    }

    /// Whether no turns have been accumulated yet.
    pub fn is_empty(&self) -> (empty: bool)
        ensures
            empty == (self@.len() == 0),
    {
        self.messages.len() == 0
    }
}

/// Rolling back an appended turn restores the history.
pub proof fn law_pop_undoes_push(history: Seq<MessageView>, message: MessageView)
    ensures
        history.push(message).drop_last() == history,
{
    assert(history.push(message).drop_last() =~= history);
}

/// A single user prompt to send to the provider.
#[derive(Debug, PartialEq, Eq)]
pub struct Prompt {
    /// The prompt text.
    pub text: String,
}

impl Clone for Prompt {
    fn clone(&self) -> (copy: Self)
        ensures
            copy.text@ == self.text@,
    {
        Prompt { text: self.text.clone() }
    }
}

impl Prompt {
    /// Creates a prompt from anything string-like.
    pub fn new(text: impl IntoText) -> (prompt: Self)
        ensures
            prompt.text@ == text.as_text(),
    {
        Prompt { text: text.into_text() }
    }
}

/// A tool declaration advertised to the provider on each request.
///
/// Declaring a tool only makes it visible to the model; nothing here executes
/// it.
#[derive(Debug, PartialEq, Eq)]
pub struct ToolSpec {
    /// The tool name the model uses to call it.
    pub name: String,
    /// What the tool does, shown to the model.
    pub description: String,
    /// JSON Schema for the tool's input object.
    pub input_schema: Json,
}

impl Clone for ToolSpec {
    fn clone(&self) -> (copy: Self)
        ensures
            copy.name@ == self.name@,
            copy.description@ == self.description@,
            copy.input_schema@ == self.input_schema@,
    {
        ToolSpec {
            name: self.name.clone(),
            description: self.description.clone(),
            input_schema: self.input_schema.clone(),
        }
    }
}

/// One entry of the request's `tools` array.
pub open spec fn tool_spec_tree(spec: ToolSpec) -> JsonTree {
    JsonTree::Object(
        seq![
            ("name"@, JsonTree::Text(spec.name@)),
            ("description"@, JsonTree::Text(spec.description@)),
            ("input_schema"@, spec.input_schema@),
        ],
    )
}

impl ToolSpec {
    /// Creates a tool declaration.
    pub fn new(name: impl IntoText, description: impl IntoText, input_schema: Json) -> (spec: Self)
        ensures
            spec.name@ == name.as_text(),
            spec.description@ == description.as_text(),
            spec.input_schema@ == input_schema@,
    {
        ToolSpec { name: name.into_text(), description: description.into_text(), input_schema }
    }

    /// The declaration as one entry of the request's `tools` array.
    pub fn to_json(&self) -> (json: Json)
        ensures
            json@ == tool_spec_tree(*self),
    {
        let mut members: Vec<(String, Json)> = Vec::new();
        add_member(&mut members, "name", string(self.name.as_str()));
        add_member(&mut members, "description", string(self.description.as_str()));
        add_member(&mut members, "input_schema", self.input_schema.clone());
        assert(member_trees(members@) =~= tool_spec_tree(*self)->Object_0);
        object(members)
    }
}

/// Provider-reported token usage for a single call. A count the provider did
/// not report is `None`, rather than an error.
#[derive(Debug, Clone, Copy, PartialEq, Eq)]
pub struct TokenUsage {
    /// Input (prompt) tokens the provider billed, if reported.
    pub input_tokens: Option<u64>,
    /// Output (completion) tokens the provider billed, if reported.
    pub output_tokens: Option<u64>,
}

impl Default for TokenUsage {
    fn default() -> (usage: Self)
        ensures
            usage == (TokenUsage { input_tokens: None, output_tokens: None }),
    {
        TokenUsage { input_tokens: None, output_tokens: None }
    }
}

/// Why the provider stopped generating a reply.
///
/// A value this client does not know is kept verbatim in
/// [`StopReason::Other`] rather than rejected.
#[derive(Debug, PartialEq, Eq)]
pub enum StopReason {
    /// The model finished its turn.
    EndTurn,
    /// The reply hit the `max_tokens` limit and is truncated.
    MaxTokens,
    /// A custom stop sequence was generated.
    StopSequence,
    /// The model requested one or more tool calls.
    ToolUse,
    /// The provider paused a long-running turn.
    PauseTurn,
    /// The model declined to answer.
    Refusal,
    /// Any other provider value, preserved as sent.
    Other(String),
}

/// The view of a [`StopReason`].
pub enum StopView {
    EndTurn,
    MaxTokens,
    StopSequence,
    ToolUse,
    PauseTurn,
    Refusal,
    Other(Seq<char>),
}

impl View for StopReason {
    type V = StopView;

    open spec fn view(&self) -> StopView {
        match *self {
            StopReason::EndTurn => StopView::EndTurn,
            StopReason::MaxTokens => StopView::MaxTokens,
            StopReason::StopSequence => StopView::StopSequence,
            StopReason::ToolUse => StopView::ToolUse,
            StopReason::PauseTurn => StopView::PauseTurn,
            StopReason::Refusal => StopView::Refusal,
            StopReason::Other(value) => StopView::Other(value@),
        }
    }
}

impl Clone for StopReason {
    fn clone(&self) -> (copy: Self)
        ensures
            copy@ == self@,
    {
        match self {
            StopReason::EndTurn => StopReason::EndTurn,
            StopReason::MaxTokens => StopReason::MaxTokens,
            StopReason::StopSequence => StopReason::StopSequence,
            StopReason::ToolUse => StopReason::ToolUse,
            StopReason::PauseTurn => StopReason::PauseTurn,
            StopReason::Refusal => StopReason::Refusal,
            StopReason::Other(value) => StopReason::Other(value.clone()),
        }
    }
}

/// The stop reason that a wire value stands for.
pub open spec fn stop_of_wire(wire: Seq<char>) -> StopView {
    if wire == "end_turn"@ {
        StopView::EndTurn
    } else if wire == "max_tokens"@ {
        StopView::MaxTokens
    } else if wire == "stop_sequence"@ {
        StopView::StopSequence
    } else if wire == "tool_use"@ {
        StopView::ToolUse
    } else if wire == "pause_turn"@ {
        StopView::PauseTurn
    } else if wire == "refusal"@ {
        StopView::Refusal
    } else {
        StopView::Other(wire)
    }
}

/// The wire value of a stop reason.
pub open spec fn wire_of_stop(stop: StopView) -> Seq<char> {
    match stop {
        StopView::EndTurn => "end_turn"@,
        StopView::MaxTokens => "max_tokens"@,
        StopView::StopSequence => "stop_sequence"@,
        StopView::ToolUse => "tool_use"@,
        StopView::PauseTurn => "pause_turn"@,
        StopView::Refusal => "refusal"@,
        StopView::Other(value) => value,
    }
}

/// Reading a wire value and writing it again gives the same value, known or
/// unknown.
pub proof fn law_stop_reason_wire_round_trip(wire: Seq<char>)
    ensures
        wire_of_stop(stop_of_wire(wire)) == wire,
{
}

/// Writing a stop reason and reading it again gives the same reason, unless it
/// is an unknown value that spells a known one.
pub proof fn law_stop_reason_round_trip(stop: StopView)
    requires
        stop matches StopView::Other(value) ==> stop_of_wire(value) == stop,
    ensures
        stop_of_wire(wire_of_stop(stop)) == stop,
{
    reveal_strlit("end_turn");
    reveal_strlit("max_tokens");
    reveal_strlit("stop_sequence");
    reveal_strlit("tool_use");
    reveal_strlit("pause_turn");
    reveal_strlit("refusal");
    assert("end_turn"@[0] == 'e');
    assert("max_tokens"@[0] == 'm');
    assert("stop_sequence"@[0] == 's');
    assert("tool_use"@[0] == 't');
    assert("pause_turn"@[0] == 'p');
    assert("refusal"@[0] == 'r');
}

impl StopReason {
    /// Parses a wire `stop_reason` value.
    pub fn from_wire(value: &str) -> (stop: Self)
        ensures
            stop@ == stop_of_wire(value@),
    {
        if same_text(value, "end_turn") {
            StopReason::EndTurn
        } else if same_text(value, "max_tokens") {
            StopReason::MaxTokens
        } else if same_text(value, "stop_sequence") {
            StopReason::StopSequence
        } else if same_text(value, "tool_use") {
            StopReason::ToolUse
        } else if same_text(value, "pause_turn") {
            StopReason::PauseTurn
        } else if same_text(value, "refusal") {
            StopReason::Refusal
        } else {
            StopReason::Other(value.to_owned())
        }
    }

    /// The wire value for this stop reason.
    pub fn as_str(&self) -> (wire: &str)
        ensures
            wire@ == wire_of_stop(self@),
    {
        match self {
            StopReason::EndTurn => "end_turn",
            StopReason::MaxTokens => "max_tokens",
            StopReason::StopSequence => "stop_sequence",
            StopReason::ToolUse => "tool_use",
            StopReason::PauseTurn => "pause_turn",
            StopReason::Refusal => "refusal",
            StopReason::Other(value) => value.as_str(),
        }
    }
}

/// A single assistant reply returned by the provider.
#[derive(Debug, PartialEq, Eq)]
pub struct AssistantReply {
    /// The reply's text blocks concatenated in order; empty for a tool-only
    /// reply.
    pub text: String,
    /// The reply's content blocks, in order.
    pub content: Vec<ContentBlock>,
    /// Provider-reported token usage for the call, when available.
    pub usage: TokenUsage,
    /// Provider-reported terminal reason, when available.
    pub stop_reason: Option<StopReason>,
}

/// The view of an [`AssistantReply`].
#[verifier::ext_equal]
pub struct ReplyView {
    pub text: Seq<char>,
    pub content: Seq<BlockView>,
    pub usage: TokenUsage,
    pub stop_reason: Option<StopView>,
}

impl View for AssistantReply {
    type V = ReplyView;

    open spec fn view(&self) -> ReplyView {
        ReplyView {
            text: self.text@,
            content: views(self.content@),
            usage: self.usage,
            stop_reason: opt_view(self.stop_reason),
        }
    }
}

impl Clone for AssistantReply {
    fn clone(&self) -> (copy: Self)
        ensures
            copy@ == self@,
    {
        AssistantReply {
            text: self.text.clone(),
            content: clone_blocks(self.content.as_slice()),
            usage: self.usage,
            stop_reason: match &self.stop_reason {
                Some(stop) => Some(stop.clone()),
                None => None,
            },
        }
    }
}

impl AssistantReply {
    /// Creates a text reply from anything string-like, with no usage recorded.
    pub fn new(text: impl IntoText) -> (reply: Self)
        ensures
            reply@ == (ReplyView {
                text: text.as_text(),
                content: seq![BlockView::Text { text: text.as_text() }],
                usage: TokenUsage { input_tokens: None, output_tokens: None },
                stop_reason: None,
            }),
    {
        AssistantReply::with_usage(text, TokenUsage::default())
    }

    /// Creates a text reply carrying the provider's reported token usage.
    pub fn with_usage(text: impl IntoText, usage: TokenUsage) -> (reply: Self)
        ensures
            reply@ == (ReplyView {
                text: text.as_text(),
                content: seq![BlockView::Text { text: text.as_text() }],
                usage,
                stop_reason: None,
            }),
    {
        let mut content: Vec<ContentBlock> = Vec::new();
        let ghost expected = seq![BlockView::Text { text: text.as_text() }];
        content.push(ContentBlock::text(text));
        proof {
            assert(views(content@) =~= expected);
            reveal_with_fuel(text_of_blocks, 2);
            assert(text_of_blocks(expected) =~= expected[0]->Text_text);
        }
        AssistantReply::from_blocks(content, usage, None)
    }

    /// Creates a reply from its content blocks, usage, and terminal reason;
    /// its text is derived from the text blocks.
    pub fn from_blocks(
        content: Vec<ContentBlock>,
        usage: TokenUsage,
        stop_reason: Option<StopReason>,
    ) -> (reply: Self)
        ensures
            reply@ == (ReplyView {
                text: text_of_blocks(views(content@)),
                content: views(content@),
                usage,
                stop_reason: opt_view(stop_reason),
            }),
    {
        AssistantReply { text: blocks_text(content.as_slice()), content, usage, stop_reason }
    }
}

} // verus!
