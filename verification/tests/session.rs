use std::cell::{Cell, RefCell};
use std::collections::VecDeque;
use std::rc::Rc;

use leg::error::{InterruptSignal, LegError, Result};
use leg::events::{
    trail_content, ExchangeEvent, ExchangeMeta, Outcome, RequestRecord, ToolCallRecord,
    ToolResultRecord, ToolStatus,
};
use leg::json::{parse_json, Json};
use leg::log::{parse_sessions, SessionRecord, SessionTurn, ToolPair};
use leg::model::{
    blocks_text, AssistantReply, ContentBlock, ImageSource, Message, Role, StopReason, TokenUsage, ToolSpec,
};
use leg::session::{
    begin_session, end_session, fresh_session, line_action, rehydrate, rehydrate_tool_result, repl_output,
    select_and_rehydrate, select_named, session_id_at, session_reply_message, session_step,
    LineAction, ResumedSession, SessionStep, TOOL_ROUND_LIMIT_PLACEHOLDER,
};
use leg::sink::{EventSink, NoopSink, WriterSink};
use leg::tools::{tool_round_limit_warning, ToolHandler, ToolLoop, ToolObserver, ToolRegistry};
use leg::trail::Trail;
use leg::transport::{Transport, TransportCall};

fn json(text: &str) -> Json {
    parse_json(text).expect("json")
}

struct FakeTransport(std::result::Result<AssistantReply, LegError>);

impl Transport for FakeTransport {
    fn send_conversation(&self, _messages: &[Message]) -> Result<AssistantReply> {
        match &self.0 {
            Ok(reply) => Ok(reply.clone()),
            Err(LegError::Auth(msg)) => Err(LegError::Auth(msg.clone())),
            Err(other) => Err(LegError::Transport(other.to_string())),
        }
    }

    fn send_conversation_with_attempts(
        &self,
        messages: &[Message],
    ) -> TransportCall<AssistantReply> {
        TransportCall::new(self.send_conversation(messages), 1)
    }

    fn send_observed<O: ToolObserver>(
        &self,
        messages: &[Message],
        _observer: &mut O,
    ) -> TransportCall<AssistantReply> {
        self.send_conversation_with_attempts(messages)
    }

    fn interrupted(&self) -> Option<InterruptSignal> {
        None
    }
}

/// Records every call's full message history and answers from a queue.
struct CapturingTransport {
    replies: RefCell<VecDeque<AssistantReply>>,
    calls: RefCell<Vec<Vec<Message>>>,
}

impl CapturingTransport {
    fn new(replies: Vec<AssistantReply>) -> Self {
        Self {
            replies: RefCell::new(replies.into()),
            calls: RefCell::new(Vec::new()),
        }
    }
}

impl Transport for CapturingTransport {
    fn send_conversation(&self, messages: &[Message]) -> Result<AssistantReply> {
        self.calls.borrow_mut().push(messages.to_vec());
        Ok(self
            .replies
            .borrow_mut()
            .pop_front()
            .expect("test queued enough replies for every expected call"))
    }

    fn send_conversation_with_attempts(
        &self,
        messages: &[Message],
    ) -> TransportCall<AssistantReply> {
        TransportCall::new(self.send_conversation(messages), 1)
    }

    fn send_observed<O: ToolObserver>(
        &self,
        messages: &[Message],
        _observer: &mut O,
    ) -> TransportCall<AssistantReply> {
        self.send_conversation_with_attempts(messages)
    }

    fn interrupted(&self) -> Option<InterruptSignal> {
        None
    }
}

/// Wraps a test transport in a tool loop with no registered tools.
fn looped<T: Transport>(transport: T) -> ToolLoop<T> {
    ToolLoop::new(transport, ToolRegistry::new(), None)
}

struct EchoTool(Rc<Cell<usize>>);

impl ToolHandler for EchoTool {
    fn call(&self, input: &Json) -> std::result::Result<String, String> {
        self.0.set(self.0.get() + 1);
        let text = input.get("text").and_then(|text| text.as_text()).unwrap_or("");
        Ok(format!("echo: {text}"))
    }
}

fn echo_registry(count: Rc<Cell<usize>>) -> ToolRegistry {
    let mut registry = ToolRegistry::new();
    registry.register(
        ToolSpec::new("echo", "Echo text.", json(r#"{"type": "object"}"#)),
        Box::new(EchoTool(count)),
    );
    registry
}

const TEST_TOOL_ROUND_LIMIT: usize = 3;

/// A stub `echo` tool loop over `transport`, counting handler calls.
fn echo_looped<T: Transport>(transport: T) -> (ToolLoop<T>, Rc<Cell<usize>>) {
    let count = Rc::new(Cell::new(0));
    let registry = echo_registry(count.clone());
    (
        ToolLoop::new(transport, registry, Some(TEST_TOOL_ROUND_LIMIT)),
        count,
    )
}

fn tool_use_reply(id: &str, name: &str) -> AssistantReply {
    AssistantReply::from_blocks(
        vec![
            ContentBlock::text("calling"),
            ContentBlock::ToolUse {
                id: id.to_string(),
                name: name.to_string(),
                input: json(r#"{"text": "hi"}"#),
            },
        ],
        TokenUsage {
            input_tokens: Some(1),
            output_tokens: Some(2),
        },
        Some(StopReason::ToolUse),
    )
}

fn meta() -> ExchangeMeta {
    ExchangeMeta {
        model: "test-model".to_string(),
        base_url: "https://api.anthropic.com".to_string(),
    }
}

fn tool_use_block() -> ContentBlock {
    ContentBlock::ToolUse {
        id: "toolu_1".to_string(),
        name: "read".to_string(),
        input: json(r#"{"path": "a.txt"}"#),
    }
}

fn tool_result_block() -> ContentBlock {
    ContentBlock::ToolResult {
        tool_use_id: "toolu_1".to_string(),
        content: "hello".to_string(),
        is_error: None,
    }
}

fn echo_result(id: &str) -> ContentBlock {
    ContentBlock::ToolResult {
        tool_use_id: id.to_string(),
        content: "echo: hi".to_string(),
        is_error: None,
    }
}

fn echo_use(id: &str, name: &str) -> ContentBlock {
    ContentBlock::ToolUse {
        id: id.to_string(),
        name: name.to_string(),
        input: json(r#"{"text": "hi"}"#),
    }
}

fn tool_reply(content: Vec<ContentBlock>) -> AssistantReply {
    AssistantReply::from_blocks(content, TokenUsage::default(), Some(StopReason::ToolUse))
}

/// A two-round tool turn (text beside two calls, one failing; then one more
/// call) followed by a text turn.
fn tool_session_replies() -> Vec<AssistantReply> {
    vec![
        tool_reply(vec![
            ContentBlock::text("checking"),
            echo_use("toolu_a", "echo"),
            echo_use("toolu_b", "missing"),
        ]),
        tool_reply(vec![echo_use("toolu_c", "echo")]),
        AssistantReply::new("done"),
        AssistantReply::new("ok"),
    ]
}

/// What a run of a session showed.
struct Shown {
    output: String,
    warning: String,
    notice: String,
}

/// Runs the lines of `input` as a session until it ends.
fn run_lines<T: Transport, S: EventSink>(
    tool_loop: &ToolLoop<T>,
    trail: &mut Trail<S>,
    session: &mut ResumedSession,
    input: &str,
) -> Shown {
    let mut shown = Shown {
        output: String::new(),
        warning: String::new(),
        notice: String::new(),
    };
    for line in input.lines() {
        match session_step(tool_loop, trail, &meta(), session, line) {
            SessionStep::Skipped => {}
            SessionStep::Ended => break,
            SessionStep::Replied(reply) => {
                for warning in &reply.warnings {
                    shown.warning.push_str(&format!("{warning}\n"));
                }
                let output = repl_output(reply.result);
                output.result.expect("the session goes on");
                shown.output.push_str(&output.text);
                shown.notice.push_str(&output.notice);
            }
        }
    }
    end_session(trail, session);
    shown
}

/// Runs a fresh session and returns its trail beside what it showed.
fn run_repl_with<T: Transport>(tool_loop: &ToolLoop<T>, input: &str) -> (String, String, String) {
    let mut trail = Trail::new(WriterSink::new(Vec::new()));
    let mut session = fresh_session("sess-1".to_string());
    let shown = run_lines(tool_loop, &mut trail, &mut session, input);
    (
        String::from_utf8(trail.sink.writer).unwrap(),
        shown.warning,
        shown.output,
    )
}

fn run_repl<T: Transport>(transport: &T, input: &str) -> (String, String) {
    let (trail, warning, _) = run_repl_with(&looped(transport), input);
    (trail, warning)
}

/// Runs a framed session and returns its trail and its output.
fn execute_session<T: Transport>(
    tool_loop: &ToolLoop<T>,
    input: &str,
    session_id: &str,
) -> (Vec<u8>, String) {
    let mut trail = Trail::new(WriterSink::new(Vec::new()));
    let mut session = fresh_session(session_id.to_string());
    begin_session(&mut trail, session_id);
    let shown = run_lines(tool_loop, &mut trail, &mut session, input);
    (trail.sink.writer, shown.output)
}

/// Runs the next turns of a resumed session.
fn execute_session_resumed<T: Transport>(
    tool_loop: &ToolLoop<T>,
    input: &str,
    mut resumed: ResumedSession,
) -> (Vec<u8>, String) {
    let mut trail = Trail::new(WriterSink::new(Vec::new()));
    let shown = run_lines(tool_loop, &mut trail, &mut resumed, input);
    (trail.sink.writer, shown.output)
}

/// Runs a session and appends its lines to `trail`.
fn append_session_run<T: Transport>(
    tool_loop: &ToolLoop<T>,
    trail: &mut Vec<u8>,
    session_id: &str,
    input: &str,
) {
    let mut lines = Trail::new(WriterSink::new(Vec::new()));
    let mut session = fresh_session(session_id.to_string());
    run_lines(tool_loop, &mut lines, &mut session, input);
    trail.extend(lines.sink.writer);
}

#[test]
fn session_repl_accumulates_history_and_prints_replies() {
    let transport = FakeTransport(Ok(AssistantReply::new("reply-1")));
    let mut trail = Trail::new(NoopSink::new());
    let mut session = fresh_session("sess-1".to_string());
    let shown = run_lines(&looped(&transport), &mut trail, &mut session, "hello\n");
    assert_eq!(shown.output, "reply-1\n");
}

#[test]
fn session_repl_ignores_blank_lines_and_exits_on_exit_command() {
    let transport = FakeTransport(Ok(AssistantReply::new("reply-1")));
    let mut trail = Trail::new(NoopSink::new());
    let mut session = fresh_session("sess-1".to_string());
    let shown = run_lines(
        &looped(&transport),
        &mut trail,
        &mut session,
        "\nhello\n\n/exit\nnever sent\n",
    );
    assert_eq!(shown.output, "reply-1\n");
    assert_eq!(line_action("  \t"), LineAction::Skip);
    assert_eq!(line_action("  /exit "), LineAction::Exit);
    assert_eq!(line_action("/exit now"), LineAction::Turn);
}

#[test]
fn session_repl_rolls_back_failed_turn_and_continues() {
    let transport = FakeTransport(Err(LegError::Auth("bad credentials".to_string())));
    let mut trail = Trail::new(NoopSink::new());
    let mut session = fresh_session("sess-1".to_string());
    let shown = run_lines(&looped(&transport), &mut trail, &mut session, "hello\n");
    assert!(shown.output.is_empty());
    assert_eq!(
        shown.notice,
        "error: authentication error: bad credentials\n"
    );
    assert!(session.conversation.is_empty());
    assert_eq!(session.next_turn_index, 1);
}

#[test]
fn session_repl_emits_session_start_turn_and_end_events() {
    let transport = FakeTransport(Ok(AssistantReply::new("reply-1")));
    let (trail, _) = execute_session(&looped(&transport), "hello\n", "sess-1");
    let text = String::from_utf8(trail).unwrap();
    let lines: Vec<&str> = text.lines().collect();
    assert_eq!(lines.len(), 4, "{text}");
    let events: Vec<serde_json::Value> = lines
        .iter()
        .map(|l| serde_json::from_str(l).unwrap())
        .collect();
    assert_eq!(events[0]["event"], "session_start");
    assert_eq!(events[1]["event"], "request");
    assert_eq!(events[1]["session_id"], "sess-1");
    assert_eq!(events[1]["turn_index"], 0);
    assert_eq!(events[2]["event"], "response_ok");
    assert_eq!(events[3]["event"], "session_end");
    assert_eq!(events[3]["turns"], 1);
}

#[test]
fn session_repl_sends_full_prior_history_on_a_later_turn() {
    let transport = CapturingTransport::new(vec![
        AssistantReply::new("reply-1"),
        AssistantReply::new("reply-2"),
    ]);
    let (_, _, output) = run_repl_with(&looped(&transport), "turn one\nturn two\n");

    let calls = transport.calls.borrow();
    assert_eq!(calls.len(), 2);
    assert_eq!(calls[0], vec![Message::user("turn one")]);
    assert_eq!(
        calls[1],
        vec![
            Message::user("turn one"),
            Message::assistant("reply-1"),
            Message::user("turn two"),
        ],
        "the second call must carry the full prior history, not just the new turn"
    );
    assert_eq!(output, "reply-1\nreply-2\n");
}

#[test]
fn session_resume_round_trips_history_and_turn_index_through_a_real_trail() {
    let first_transport = CapturingTransport::new(vec![AssistantReply::new("reply-1")]);
    let (trail, _) = execute_session(&looped(&first_transport), "hello\n", "sess-1");

    let report = parse_sessions(&trail).expect("parses");
    let resumed = select_and_rehydrate(report.sessions, None).expect("rehydrates");
    assert_eq!(resumed.session_id, "sess-1");
    assert_eq!(resumed.next_turn_index, 1);
    assert_eq!(
        resumed.conversation.messages(),
        &[
            Message::user("hello"),
            Message::assistant("reply-1"),
        ]
    );

    let second_transport = CapturingTransport::new(vec![AssistantReply::new("reply-2")]);
    let (resumed_trail, second_output) =
        execute_session_resumed(&looped(&second_transport), "again\n", resumed);

    let calls = second_transport.calls.borrow();
    assert_eq!(calls.len(), 1);
    assert_eq!(
        calls[0],
        vec![
            Message::user("hello"),
            Message::assistant("reply-1"),
            Message::user("again"),
        ],
        "the resumed call must carry the rehydrated history plus the new turn"
    );
    assert_eq!(second_output, "reply-2\n");

    let resumed_text = String::from_utf8(resumed_trail).unwrap();
    let resumed_lines: Vec<&str> = resumed_text.lines().collect();
    assert_eq!(
        resumed_lines.len(),
        3,
        "resuming emits no fresh session_start: {resumed_text}"
    );
    let request_event: serde_json::Value = serde_json::from_str(resumed_lines[0]).unwrap();
    assert_eq!(request_event["event"], "request");
    assert_eq!(request_event["session_id"], "sess-1");
    assert_eq!(request_event["turn_index"], 1);
    let end_event: serde_json::Value = serde_json::from_str(resumed_lines[2]).unwrap();
    assert_eq!(end_event["event"], "session_end");
    assert_eq!(end_event["session_id"], "sess-1");
    assert_eq!(end_event["turns"], 2);
}

#[test]
fn rehydrate_denied_tool_result_as_an_error() {
    let error = "denied by pre-tool hook: role policy".to_string();
    let turn = SessionTurn {
        request: RequestRecord {
            ts_ms: 0,
            model: String::new(),
            base_url: String::new(),
            prompt: String::new(),
            content: None,
            session_id: Some("sess-1".to_string()),
            turn_index: Some(0),
        },
        rounds: Vec::new(),
        tools: vec![ToolPair {
            call: ToolCallRecord {
                ts_ms: 1,
                tool_use_id: "toolu_1".to_string(),
                tool_name: "bash".to_string(),
                input: json(r#"{}"#),
            },
            result: Some(ToolResultRecord {
                ts_ms: 2,
                tool_use_id: "toolu_1".to_string(),
                tool_name: "bash".to_string(),
                status: ToolStatus::Denied,
                result: None,
                error: Some(error.clone()),
            }),
        }],
        outcome: None,
    };

    assert_eq!(
        rehydrate_tool_result(&turn, "toolu_1"),
        Some(ContentBlock::ToolResult {
            tool_use_id: "toolu_1".to_string(),
            content: error,
            is_error: Some(true),
        })
    );
}

#[test]
fn session_repl_records_framed_tool_events_within_the_turn() {
    let transport = CapturingTransport::new(vec![
        tool_use_reply("toolu_1", "missing"),
        AssistantReply::new("final answer"),
    ]);
    let (tool_loop, _) = echo_looped(&transport);
    let (trail, _, _) = run_repl_with(&tool_loop, "go\n");

    let events: Vec<serde_json::Value> = trail
        .lines()
        .map(|line| serde_json::from_str(line).unwrap())
        .collect();
    let kinds: Vec<&str> = events
        .iter()
        .map(|e| e["event"].as_str().unwrap())
        .collect();
    assert_eq!(
        kinds,
        [
            "request",
            "tool_round",
            "tool_call",
            "tool_result",
            "response_ok",
            "session_end"
        ]
    );
    assert_eq!(events[1]["session_id"], "sess-1");
    assert_eq!(events[1]["turn_index"], 0);
    for tool_event in &events[2..4] {
        assert_eq!(tool_event["tool_use_id"], "toolu_1");
        assert_eq!(tool_event["tool_name"], "missing");
        assert_eq!(tool_event["session_id"], "sess-1");
        assert_eq!(tool_event["turn_index"], 0);
    }
    assert_eq!(events[3]["status"], "failed");
    assert_eq!(events[3]["error"], "unknown tool: missing");
    assert!(events[3].get("result").is_none());
}

#[test]
fn session_repl_runs_the_tool_loop_and_keeps_its_rounds_in_history() {
    let tool_reply = AssistantReply::from_blocks(
        vec![ContentBlock::text("checking"), tool_use_block()],
        TokenUsage::default(),
        Some(StopReason::ToolUse),
    );
    let transport = CapturingTransport::new(vec![
        tool_reply,
        AssistantReply::new("done"),
        AssistantReply::new("again"),
    ]);
    let (tool_loop, _) = echo_looped(&transport);
    let (trail, warning, output) = run_repl_with(&tool_loop, "one\ntwo\n");

    assert_eq!(
        output, "done\nagain\n",
        "only each turn's final text prints"
    );
    assert_eq!(warning, "");
    let calls = transport.calls.borrow();
    assert_eq!(calls.len(), 3);
    let unknown_result = ContentBlock::ToolResult {
        tool_use_id: "toolu_1".to_string(),
        content: "unknown tool: read".to_string(),
        is_error: Some(true),
    };
    assert_eq!(
        calls[2],
        vec![
            Message::user("one"),
            Message::new(
                Role::Assistant,
                vec![ContentBlock::text("checking"), tool_use_block()]
            ),
            Message::new(Role::User, vec![unknown_result]),
            Message::assistant("done"),
            Message::user("two"),
        ],
        "the next turn resends the prior turn's tool rounds"
    );

    // request, tool_round, tool_call, tool_result, then the turn's outcome.
    let response: serde_json::Value = serde_json::from_str(trail.lines().nth(4).unwrap()).unwrap();
    assert_eq!(response["event"], "response_ok");
    assert_eq!(response["reply"], "done");
    assert!(
        response.get("content").is_none(),
        "final reply is text-only"
    );
}

#[test]
fn session_repl_warns_and_drops_dangling_tool_use_when_capped() {
    let mut replies: Vec<AssistantReply> = (0..=TEST_TOOL_ROUND_LIMIT)
        .map(|i| tool_use_reply(&format!("toolu_{i}"), "echo"))
        .collect();
    replies.push(AssistantReply::new("next"));
    let transport = CapturingTransport::new(replies);
    let (tool_loop, count) = echo_looped(&transport);
    let (_, warning, _) = run_repl_with(&tool_loop, "go\nnext\n");

    assert_eq!(count.get(), TEST_TOOL_ROUND_LIMIT);
    assert_eq!(
        warning,
        format!("{}\n", tool_round_limit_warning(TEST_TOOL_ROUND_LIMIT))
    );
    let calls = transport.calls.borrow();
    assert_eq!(calls.len(), TEST_TOOL_ROUND_LIMIT + 2);
    let last = calls.last().unwrap();
    assert_eq!(
        last[last.len() - 2],
        Message::assistant("calling"),
        "the capped reply's unanswered tool_use is stripped from history"
    );
}

#[test]
fn session_reply_message_uses_placeholder_for_a_capped_tool_only_reply() {
    assert_eq!(
        session_reply_message(vec![tool_use_block()], true),
        Message::assistant(TOOL_ROUND_LIMIT_PLACEHOLDER)
    );
    assert_eq!(
        session_reply_message(vec![tool_use_block()], false),
        Message::new(Role::Assistant, vec![tool_use_block()])
    );
}

#[test]
fn session_repl_warns_only_on_max_tokens() {
    let reply = |stop: StopReason| {
        AssistantReply::from_blocks(
            vec![ContentBlock::text("r")],
            TokenUsage::default(),
            Some(stop),
        )
    };

    let transport = CapturingTransport::new(vec![reply(StopReason::EndTurn)]);
    let (_, warning) = run_repl(&transport, "hi\n");
    assert_eq!(warning, "", "end_turn must not warn");

    let transport = CapturingTransport::new(vec![reply(StopReason::MaxTokens)]);
    let (_, warning) = run_repl(&transport, "hi\n");
    assert_eq!(
        warning,
        "warning: reply truncated (stop_reason: max_tokens)\n"
    );
}

#[test]
fn session_resume_strips_the_capped_replys_unanswered_tool_use() {
    let replies = (0..=TEST_TOOL_ROUND_LIMIT)
        .map(|i| tool_use_reply(&format!("toolu_{i}"), "echo"))
        .collect();
    let (tool_loop, _) = echo_looped(CapturingTransport::new(replies));
    let mut trail = Vec::new();
    append_session_run(&tool_loop, &mut trail, "sess-1", "go\n");

    let report = parse_sessions(&trail).expect("parses");
    let resumed = select_and_rehydrate(report.sessions, None).expect("rehydrates");
    let messages = resumed.conversation.messages();
    assert_eq!(messages.len(), 2 + 2 * TEST_TOOL_ROUND_LIMIT);
    assert_eq!(messages.last().unwrap(), &Message::assistant("calling"));
}

#[test]
fn session_resume_selects_the_named_session_among_tool_sessions() {
    let mut trail = Vec::new();
    let first = CapturingTransport::new(tool_session_replies());
    append_session_run(&echo_looped(&first).0, &mut trail, "sess-1", "one\ntwo\n");
    let second = CapturingTransport::new(vec![
        tool_reply(vec![echo_use("toolu_z", "echo")]),
        AssistantReply::new("z-done"),
    ]);
    append_session_run(&echo_looped(&second).0, &mut trail, "sess-2", "zed\n");

    let report = parse_sessions(&trail).expect("parses");
    let resumed = select_and_rehydrate(report.sessions, Some("sess-2")).expect("rehydrates");
    assert_eq!(resumed.session_id, "sess-2");
    assert_eq!(resumed.next_turn_index, 1);
    assert_eq!(
        resumed.conversation.messages(),
        &[
            Message::user("zed"),
            Message::new(Role::Assistant, vec![echo_use("toolu_z", "echo")]),
            Message::new(Role::User, vec![echo_result("toolu_z")]),
            Message::assistant("z-done"),
        ]
    );
}

#[test]
fn session_resume_of_a_trail_without_tool_rounds_keeps_text_turns() {
    let live = CapturingTransport::new(tool_session_replies());
    let mut trail = Vec::new();
    append_session_run(&echo_looped(&live).0, &mut trail, "sess-1", "one\ntwo\n");
    let legacy: String = String::from_utf8(trail)
        .unwrap()
        .lines()
        .filter(|line| !line.contains(r#""event":"tool_round""#))
        .map(|line| format!("{line}\n"))
        .collect();

    let report =
        parse_sessions(legacy.as_bytes()).expect("parses");
    let resumed = select_and_rehydrate(report.sessions, None).expect("rehydrates");
    assert_eq!(
        resumed.conversation.messages(),
        &[
            Message::user("one"),
            Message::assistant("done"),
            Message::user("two"),
            Message::assistant("ok"),
        ]
    );
    assert_eq!(resumed.next_turn_index, 2);
}

#[test]
fn select_and_rehydrate_restores_conversation_and_next_turn_index() {
    let sessions = vec![SessionRecord {
        session_id: "sess-1".to_string(),
        started: true,
        ended: true,
        declared_turns: Some(2),
        turns: vec![
            SessionTurn {
                request: RequestRecord {
                    ts_ms: 1,
                    model: "m".to_string(),
                    base_url: "u".to_string(),
                    prompt: "hi".to_string(),
                    content: None,
                    session_id: Some("sess-1".to_string()),
                    turn_index: Some(0),
                },
                rounds: vec![],
                tools: vec![],
                outcome: Some(Outcome::Success {
                    ts_ms: 2,
                    duration_ms: 1,
                    reply: "hello".to_string(),
                    content: None,
                    input_tokens: None,
                    output_tokens: None,
                    stop_reason: None,
                    session_id: Some("sess-1".to_string()),
                    turn_index: Some(0),
                }),
            },
            SessionTurn {
                request: RequestRecord {
                    ts_ms: 3,
                    model: "m".to_string(),
                    base_url: "u".to_string(),
                    prompt: "failed".to_string(),
                    content: None,
                    session_id: Some("sess-1".to_string()),
                    turn_index: Some(1),
                },
                rounds: vec![],
                tools: vec![],
                outcome: None,
            },
        ],
    }];

    let resumed = select_and_rehydrate(sessions, None).expect("rehydrates");
    assert_eq!(resumed.session_id, "sess-1");
    assert_eq!(resumed.next_turn_index, 2);
    assert_eq!(resumed.conversation.len(), 2);
    assert_eq!(resumed.prior_turns, 1);
}

#[test]
fn select_and_rehydrate_requires_session_id_when_ambiguous() {
    let sessions = vec![
        SessionRecord {
            session_id: "sess-1".to_string(),
            started: true,
            ended: true,
            declared_turns: Some(0),
            turns: vec![],
        },
        SessionRecord {
            session_id: "sess-2".to_string(),
            started: true,
            ended: true,
            declared_turns: Some(0),
            turns: vec![],
        },
    ];
    assert!(matches!(
        select_and_rehydrate(sessions, None).unwrap_err(),
        LegError::Usage(_)
    ));
}

#[test]
fn select_and_rehydrate_errors_on_empty_trail() {
    assert!(matches!(
        select_and_rehydrate(vec![], None).unwrap_err(),
        LegError::Usage(_)
    ));
}

#[test]
fn select_and_rehydrate_restores_tool_blocks_from_a_real_trail() {
    let mut sink = WriterSink::new(Vec::new());
    let events = [
        ExchangeEvent::session_start(1, "sess-1"),
        ExchangeEvent::session_request(2, &meta(), "read a.txt", "sess-1", 0),
        ExchangeEvent::session_response_ok(3, 1, "", None, None, Some("tool_use"), "sess-1", 0)
            .with_content(&[tool_use_block()]),
        ExchangeEvent::session_request(4, &meta(), "", "sess-1", 1)
            .with_content(&[tool_result_block()]),
        ExchangeEvent::session_response_ok(
            5,
            1,
            "it says hello",
            None,
            None,
            None,
            "sess-1",
            1,
        )
        .with_content(&[ContentBlock::text("it says hello")]),
    ];
    for event in &events {
        sink.record(event).unwrap();
    }

    let report = parse_sessions(&sink.writer).expect("parses");
    let resumed = select_and_rehydrate(report.sessions, None).expect("rehydrates");
    assert_eq!(
        resumed.conversation.messages(),
        &[
            Message::user("read a.txt"),
            Message::new(Role::Assistant, vec![tool_use_block()]),
            Message::new(Role::User, vec![tool_result_block()]),
            Message::assistant("it says hello"),
        ]
    );
    assert_eq!(resumed.next_turn_index, 2);
}

#[test]
fn session_resume_rehydrates_tool_rounds_exactly_as_the_live_history() {
    let live = CapturingTransport::new(tool_session_replies());
    let (tool_loop, _) = echo_looped(&live);
    let mut trail = Vec::new();
    append_session_run(&tool_loop, &mut trail, "sess-1", "one\ntwo\n");

    let report = parse_sessions(&trail).expect("parses");
    assert!(report.warnings.is_empty(), "{:?}", report.warnings);
    let resumed = select_and_rehydrate(report.sessions, None).expect("rehydrates");

    // The live turn-two request is the whole prior history plus "two".
    let mut live_history = live.calls.borrow()[3].clone();
    assert_eq!(
        live_history[..4],
        [
            Message::user("one"),
            Message::new(
                Role::Assistant,
                vec![
                    ContentBlock::text("checking"),
                    echo_use("toolu_a", "echo"),
                    echo_use("toolu_b", "missing"),
                ]
            ),
            Message::new(
                Role::User,
                vec![
                    echo_result("toolu_a"),
                    ContentBlock::ToolResult {
                        tool_use_id: "toolu_b".to_string(),
                        content: "unknown tool: missing".to_string(),
                        is_error: Some(true),
                    },
                ]
            ),
            Message::new(Role::Assistant, vec![echo_use("toolu_c", "echo")]),
        ]
    );
    live_history.push(Message::assistant("ok"));
    assert_eq!(resumed.conversation.messages(), &live_history[..]);
    assert_eq!(resumed.prior_turns, 2);
    assert_eq!(resumed.next_turn_index, 2);

    let next = CapturingTransport::new(vec![AssistantReply::new("three-reply")]);
    let (resumed_trail, _) = execute_session_resumed(&echo_looped(&next).0, "three\n", resumed);
    live_history.push(Message::user("three"));
    assert_eq!(next.calls.borrow()[0], live_history);
    let request: serde_json::Value = serde_json::from_str(
        String::from_utf8(resumed_trail)
            .unwrap()
            .lines()
            .next()
            .unwrap(),
    )
    .unwrap();
    assert_eq!(request["turn_index"], 2);
}

#[test]
fn session_resume_echoes_thinking_signature_on_the_next_tool_continuation() {
    let first_thinking = ContentBlock::Thinking {
        thinking: "first private reasoning\npreserved exactly".to_string(),
        signature: "first-signature+/=".to_string(),
    };
    let first_tool_use = echo_use("toolu_before_resume", "echo");
    let first_transport = CapturingTransport::new(vec![
        tool_reply(vec![first_thinking.clone(), first_tool_use.clone()]),
        AssistantReply::new("first turn complete"),
    ]);
    let mut trail = Vec::new();
    append_session_run(
        &echo_looped(&first_transport).0,
        &mut trail,
        "sess-thinking",
        "first turn\n",
    );

    let report = parse_sessions(&trail).expect("parses trail");
    let resumed = select_and_rehydrate(report.sessions, None).expect("rehydrates session");
    assert_eq!(
        resumed.conversation.messages()[1],
        Message::new(
            Role::Assistant,
            vec![first_thinking.clone(), first_tool_use.clone()]
        )
    );
    let prior_history = resumed.conversation.messages().to_vec();

    let second_thinking = ContentBlock::Thinking {
        thinking: "second round reasoning".to_string(),
        signature: "second-signature:=+/".to_string(),
    };
    let second_tool_use = echo_use("toolu_after_resume", "echo");
    let continued_transport = CapturingTransport::new(vec![
        tool_reply(vec![second_thinking.clone(), second_tool_use.clone()]),
        AssistantReply::new("second turn complete"),
    ]);
    let (_, _) = execute_session_resumed(&echo_looped(&continued_transport).0, "second turn\n", resumed);

    let calls = continued_transport.calls.borrow();
    let mut expected_first_call = prior_history;
    expected_first_call.push(Message::user("second turn"));
    assert_eq!(calls[0], expected_first_call);

    let assistant_messages = calls[1]
        .iter()
        .filter(|message| message.role == Role::Assistant)
        .collect::<Vec<_>>();
    assert_eq!(assistant_messages.len(), 3);
    assert_eq!(
        assistant_messages[0].content,
        vec![first_thinking, first_tool_use]
    );
    assert_eq!(
        assistant_messages[1].content,
        vec![ContentBlock::text("first turn complete")]
    );
    assert_eq!(
        assistant_messages[2].content,
        vec![second_thinking, second_tool_use]
    );
}

#[test]
fn a_named_session_is_selected_or_reported_missing() {
    let record = |id: &str| SessionRecord {
        session_id: id.to_string(),
        started: false,
        ended: false,
        declared_turns: None,
        turns: vec![],
    };
    let resumed = select_named(vec![record("sess-1"), record("sess-2")], "sess-2").unwrap();
    assert_eq!(resumed.session_id, "sess-2");
    assert_eq!(resumed.next_turn_index, 0);
    let err = select_named(vec![record("sess-1")], "sess-9").unwrap_err();
    assert_eq!(err.kind(), "session_not_found");
    let err = select_and_rehydrate(vec![record("sess-1")], Some("sess-9")).unwrap_err();
    assert_eq!(
        err.to_string(),
        "usage error: no session \"sess-9\" in the --resume trail"
    );
    let err =
        select_and_rehydrate(vec![record("sess-1"), record("sess-2")], None).unwrap_err();
    assert!(err
        .to_string()
        .ends_with("holds 2 sessions; select one with --session <id>: sess-1, sess-2"));
}

#[test]
fn session_ids_name_the_process_and_the_time() {
    assert_eq!(session_id_at(42, 1_700_000_000_000), "sess-42-1700000000000");
}

#[test]
fn a_failed_turn_stays_on_the_trail_and_out_of_the_resumed_history() {
    let mut trail = Trail::new(WriterSink::new(Vec::new()));
    let mut session = fresh_session("sess-1".to_string());
    let failing = looped(FakeTransport(Err(LegError::Auth("no".to_string()))));
    run_lines(&failing, &mut trail, &mut session, "lost\n");
    let working = looped(FakeTransport(Ok(AssistantReply::new("kept-reply"))));
    run_lines(&working, &mut trail, &mut session, "kept\n");

    let report = parse_sessions(&trail.sink.writer).expect("parses");
    let resumed = select_and_rehydrate(report.sessions, None).expect("rehydrates");
    assert_eq!(resumed.conversation.messages(), session.conversation.messages());
    assert_eq!(
        resumed.conversation.messages(),
        &[Message::user("kept"), Message::assistant("kept-reply")]
    );
    assert_eq!(resumed.prior_turns, 1);
    assert_eq!(resumed.next_turn_index, session.next_turn_index);
}

#[test]
fn a_recorded_side_of_a_turn_is_rebuilt_as_it_was() {
    let text = |text: &str| ContentBlock::text(text);
    let image = ContentBlock::Image {
        source: ImageSource::Base64 {
            media_type: "image/png".to_string(),
            data: "AQID".to_string(),
        },
    };
    for (blocks, alone) in [
        (vec![text("hello")], true),
        (vec![text("a"), text("b")], false),
        (vec![image.clone(), text("describe")], false),
        (vec![image], false),
        (Vec::new(), false),
    ] {
        let content = trail_content(&blocks);
        assert_eq!(content.is_none(), alone);
        assert_eq!(
            rehydrate(Role::User, &blocks_text(&blocks), &content),
            Message::new(Role::User, blocks)
        );
    }
}
