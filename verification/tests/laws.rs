use std::cell::{Cell, RefCell};
use std::collections::VecDeque;

use leg::calendar::format_ts;
use leg::error::{InterruptSignal, LegError, Result};
use leg::events::{
    ExchangeEvent, ExchangeMeta, Outcome, RequestRecord, ToolEvent, ToolStatus,
};
use leg::json::{parse_json, Json, Number};
use leg::log::{format_exchange_with_tools, parse_jsonl, parse_sessions, read_line, TrailLine};
use leg::model::{
    AssistantReply, ContentBlock, ImageSource, Message, Prompt, StopReason, TokenUsage, ToolSpec,
};
use leg::sink::{EventSink, WriterSink};
use leg::tools::process::Capture;
use leg::tools::read::resolve;
use leg::tools::{add_usage, PreToolHook, ToolHandler, ToolLoop, ToolObserver, ToolRegistry};
use leg::trail::Trail;
use leg::transport::{Transport, TransportCall};
use leg::wire::{block_to_json, read_block};

fn json(text: &str) -> Json {
    parse_json(text).expect("json")
}

fn meta() -> ExchangeMeta {
    ExchangeMeta {
        model: "m".to_string(),
        base_url: "u".to_string(),
    }
}

fn blocks() -> Vec<ContentBlock> {
    vec![
        ContentBlock::text("a \"quoted\"\nline \u{1f600}"),
        ContentBlock::ToolUse {
            id: "t1".to_string(),
            name: "echo".to_string(),
            input: json(r#"{"a": [1, -2, true, null], "b": {"c": "d"}}"#),
        },
        ContentBlock::ToolResult {
            tool_use_id: "t1".to_string(),
            content: "out".to_string(),
            is_error: Some(true),
        },
        ContentBlock::Image {
            source: ImageSource::Base64 {
                media_type: "image/png".to_string(),
                data: "AQID".to_string(),
            },
        },
        ContentBlock::Thinking {
            thinking: "hm".to_string(),
            signature: "s+/=".to_string(),
        },
    ]
}

#[test]
fn every_block_reads_back_as_it_was_written() {
    for block in blocks() {
        let written = block_to_json(&block);
        assert_eq!(read_block(&written).unwrap(), block);
        assert_eq!(read_block(&json(&written.to_text())).unwrap(), block);
    }
    assert!(read_block(&json(r#"{"type": "video"}"#)).is_err());
    assert_eq!(
        read_block(&json(r#"{"type": "text"}"#)).unwrap_err(),
        "missing field `text`"
    );
}

#[test]
fn every_line_of_a_trail_is_one_line_and_reads_back() {
    let input = json(r#"{"text": "two\nlines"}"#);
    let content = blocks();
    let events = vec![
        ExchangeEvent::session_start(1, "sess-1"),
        ExchangeEvent::session_request(2, &meta(), "first\nsecond", "sess-1", 0)
            .with_content(&content),
        ExchangeEvent::from_tool_event(
            3,
            ToolEvent::Round { content: &content },
            Some(("sess-1", 0)),
        ),
        ExchangeEvent::from_tool_event(
            4,
            ToolEvent::Call {
                id: "t1",
                name: "echo",
                input: &input,
            },
            Some(("sess-1", 0)),
        ),
        ExchangeEvent::from_tool_event(
            5,
            ToolEvent::Result {
                id: "t1",
                name: "echo",
                output: "no",
                status: ToolStatus::Denied,
            },
            Some(("sess-1", 0)),
        ),
        ExchangeEvent::session_response_ok(
            6,
            1,
            "done",
            Some(3),
            None,
            Some("end_turn"),
            "sess-1",
            0,
        ),
        ExchangeEvent::session_end(7, "sess-1", 1),
    ];
    let mut sink = WriterSink::new(Vec::new());
    for event in &events {
        sink.record(event).unwrap();
        assert!(!event.to_line().contains('\n'));
    }
    let report = parse_sessions(&sink.writer).expect("parses");
    assert!(report.warnings.is_empty());
    let session = &report.sessions[0];
    assert!(session.started && session.ended);
    let turn = &session.turns[0];
    assert_eq!(turn.request.prompt, "first\nsecond");
    assert_eq!(turn.request.content, Some(blocks()));
    assert_eq!(turn.rounds, vec![blocks()]);
    assert_eq!(turn.tools[0].call.input, input);
    let result = turn.tools[0].result.as_ref().unwrap();
    assert_eq!(result.status, ToolStatus::Denied);
    assert_eq!(result.error.as_deref(), Some("no"));
    assert!(matches!(
        turn.outcome,
        Some(Outcome::Success {
            input_tokens: Some(3),
            ..
        })
    ));
}

#[test]
fn records_mirror_onto_the_trail_and_back() {
    let request = RequestRecord {
        ts_ms: 9,
        model: "m".to_string(),
        base_url: "u".to_string(),
        prompt: "p".to_string(),
        content: None,
        session_id: None,
        turn_index: None,
    };
    let line = json(&ExchangeEvent::from_request_record(&request).to_line());
    match read_line(&line, false).unwrap() {
        TrailLine::Request(read) => assert_eq!(read, request),
        _ => panic!("a request line"),
    }
    let outcome = Outcome::Error {
        ts_ms: 10,
        duration_ms: 1,
        kind: "auth".to_string(),
        message: "no".to_string(),
        session_id: None,
        turn_index: None,
    };
    let line = json(&ExchangeEvent::from_outcome(&outcome).to_line());
    match read_line(&line, false).unwrap() {
        TrailLine::Response(read) => assert_eq!(read, outcome),
        _ => panic!("a response line"),
    }
    assert_eq!(
        read_line(&json(r#"{"event": "request", "ts_ms": 1}"#), false)
            .err()
            .unwrap(),
        "malformed request event: missing field `model`"
    );
}

#[test]
fn shown_exchanges_list_their_tools() {
    let input = json(r#"{"text": "hi"}"#);
    let lines = [
        ExchangeEvent::request(1, &meta(), "p"),
        ExchangeEvent::from_tool_event(
            2,
            ToolEvent::Call {
                id: "t1",
                name: "echo",
                input: &input,
            },
            None,
        ),
        ExchangeEvent::from_tool_event(
            3,
            ToolEvent::Result {
                id: "t1",
                name: "echo",
                output: "echo: hi",
                status: ToolStatus::Completed,
            },
            None,
        ),
        ExchangeEvent::response_ok(4, 7, "r", None, None, None),
    ]
    .iter()
    .map(|event| format!("{}\n", event.to_line()))
    .collect::<String>();
    let report = parse_jsonl(lines.as_bytes()).expect("parses");
    let shown = format_exchange_with_tools(1, &report.exchanges[0], &report.tools[0]);
    assert!(shown.contains("    tool:   echo [t1]\n"), "{shown}");
    assert!(shown.contains("completed: echo: hi\n"), "{shown}");
}

#[test]
fn numbers_keep_their_form() {
    assert_eq!(json("7"), Json::Number(Number::Unsigned(7)));
    assert_eq!(json("-7"), Json::Number(Number::Negative(-7)));
    assert_eq!(json("1.5"), Json::Number(Number::Other("1.5".to_string())));
    assert_eq!(
        Json::Number(Number::Negative(i64::MIN)).to_text(),
        i64::MIN.to_string()
    );
    assert!(parse_json("{").is_err());
}

#[test]
fn usage_sums_count_by_count() {
    let some = |n| TokenUsage {
        input_tokens: Some(n),
        output_tokens: None,
    };
    assert_eq!(add_usage(some(1), some(2)), some(3));
    assert_eq!(add_usage(some(1), TokenUsage::default()), some(1));
    assert_eq!(
        add_usage(TokenUsage::default(), TokenUsage::default()),
        TokenUsage::default()
    );
    assert_eq!(add_usage(some(u64::MAX), some(2)), some(1));
}

#[test]
fn malformed_bytes_are_replaced_and_marked() {
    let mut capture = Capture::default();
    capture.push(b"a\xff");
    capture.push(b"b");
    let output = capture.finish();
    assert_eq!(output.text, "a\u{fffd}b");
    assert!(!output.valid_utf8);
}

#[test]
fn capture_does_not_depend_on_how_the_bytes_arrive() {
    let bytes: Vec<u8> = (0..60_000u32).map(|i| b'a' + (i % 26) as u8).collect();
    let mut whole = Capture::default();
    whole.push(&bytes);
    let mut pieces = Capture::default();
    for piece in bytes.chunks(977) {
        pieces.push(piece);
    }
    let (whole, pieces) = (whole.finish(), pieces.finish());
    assert_eq!(whole.text, pieces.text);
    assert_eq!(whole.omitted_bytes, pieces.omitted_bytes);
}

#[test]
fn a_resolved_path_resolves_to_itself() {
    let full = resolve("/work/dir", "../a/./b//c");
    assert_eq!(full, "/work/a/b/c");
    assert_eq!(resolve("/work/dir", &full), full);
    assert_eq!(resolve("/work", "/.."), "/");
}

#[test]
fn the_calendar_repeats_after_four_hundred_years() {
    let ms_per_day = 86_400_000u64;
    assert_eq!(format_ts(0), "1970-01-01T00:00:00Z");
    assert_eq!(format_ts(146_097 * ms_per_day), "2370-01-01T00:00:00Z");
    assert_eq!(format_ts(951_782_400_000), "2000-02-29T00:00:00Z");
}

struct Scripted {
    replies: RefCell<VecDeque<AssistantReply>>,
    calls: Cell<usize>,
}

impl Transport for Scripted {
    fn send_conversation(&self, _messages: &[Message]) -> Result<AssistantReply> {
        self.calls.set(self.calls.get() + 1);
        self.replies
            .borrow_mut()
            .pop_front()
            .ok_or_else(|| LegError::Transport("no reply left".to_string()))
    }

    fn interrupted(&self) -> Option<InterruptSignal> {
        None
    }

    fn send_conversation_with_attempts(
        &self,
        messages: &[Message],
    ) -> TransportCall<AssistantReply> {
        TransportCall::new(self.send_conversation(messages), 1)
    }

    fn send_observed<O: ToolObserver>(
        &self,
        messages: &[Message],
        _observer: &mut O,
    ) -> TransportCall<AssistantReply> {
        self.send_conversation_with_attempts(messages)
    }
}

struct Echo;

impl ToolHandler for Echo {
    fn call(&self, _input: &Json) -> std::result::Result<String, String> {
        Ok("echoed".to_string())
    }
}

struct DenyAll;

impl PreToolHook for DenyAll {
    fn authorize(&self, name: &str, _input: &Json) -> std::result::Result<(), String> {
        Err(format!("no {name} today"))
    }
}

fn tool_reply(id: &str) -> AssistantReply {
    AssistantReply::from_blocks(
        vec![ContentBlock::ToolUse {
            id: id.to_string(),
            name: "echo".to_string(),
            input: json("{}"),
        }],
        TokenUsage::default(),
        Some(StopReason::ToolUse),
    )
}

fn scripted(replies: Vec<AssistantReply>) -> Scripted {
    Scripted {
        replies: RefCell::new(replies.into()),
        calls: Cell::new(0),
    }
}

/// The tool events on a trail, in order.
fn notes_on(trail: &Trail<WriterSink<Vec<u8>>>) -> Vec<String> {
    let lines = std::str::from_utf8(&trail.sink.writer).unwrap().lines();
    lines
        .map(|line| {
            let event: serde_json::Value = serde_json::from_str(line).unwrap();
            let text = |key: &str| event[key].as_str().unwrap_or("").to_string();
            match event["event"].as_str().unwrap() {
                "tool_round" => format!("round {}", event["content"].as_array().unwrap().len()),
                "tool_call" => format!("call {} {}", text("tool_use_id"), text("tool_name")),
                "tool_result" => format!(
                    "result {} {} {}{}",
                    text("tool_use_id"),
                    text("status"),
                    text("result"),
                    text("error")
                ),
                other => other.to_string(),
            }
        })
        .collect()
}

#[test]
fn a_denied_call_is_answered_and_not_run() {
    let mut registry = ToolRegistry::new().with_pre_tool_hook(Box::new(DenyAll));
    registry.register(ToolSpec::new("echo", "Echo.", json("{}")), Box::new(Echo));
    let (block, status) = registry.dispatch_with_status("t1", "echo", &json("{}"));
    assert_eq!(status, ToolStatus::Denied);
    assert_eq!(
        block,
        ContentBlock::ToolResult {
            tool_use_id: "t1".to_string(),
            content: "no echo today".to_string(),
            is_error: Some(true),
        }
    );
}

/// Raises a signal while the tool runs.
struct SignalDuringTool<'a> {
    inner: Scripted,
    raised: &'a Cell<bool>,
}

impl Transport for SignalDuringTool<'_> {
    fn send_conversation(&self, messages: &[Message]) -> Result<AssistantReply> {
        self.inner.send_conversation(messages)
    }

    fn interrupted(&self) -> Option<InterruptSignal> {
        if self.raised.get() {
            Some(InterruptSignal::Interrupt)
        } else {
            None
        }
    }

    fn send_conversation_with_attempts(
        &self,
        messages: &[Message],
    ) -> TransportCall<AssistantReply> {
        TransportCall::new(self.send_conversation(messages), 1)
    }

    fn send_observed<O: ToolObserver>(
        &self,
        messages: &[Message],
        _observer: &mut O,
    ) -> TransportCall<AssistantReply> {
        self.send_conversation_with_attempts(messages)
    }
}

struct Raise(std::rc::Rc<Cell<bool>>);

impl ToolHandler for Raise {
    fn call(&self, _input: &Json) -> std::result::Result<String, String> {
        self.0.set(true);
        Ok("too late".to_string())
    }
}

#[test]
fn an_interrupted_call_still_gets_its_result_noted() {
    let raised = std::rc::Rc::new(Cell::new(false));
    let mut registry = ToolRegistry::new();
    registry.register(
        ToolSpec::new("echo", "Echo.", json("{}")),
        Box::new(Raise(raised.clone())),
    );
    let transport = SignalDuringTool {
        inner: scripted(vec![tool_reply("t1"), AssistantReply::new("never")]),
        raised: &raised,
    };
    let tool_loop = ToolLoop::new(transport, registry, None);
    let mut notes = Trail::new(WriterSink::new(Vec::new()));
    let err = tool_loop
        .run_observed(&[Message::user("go")], &mut notes)
        .unwrap_err();
    assert_eq!(err.kind(), "interrupted");
    assert_eq!(
        notes_on(&notes),
        [
            "round 1",
            "call t1 echo",
            "result t1 failed interrupted by SIGINT"
        ]
    );
    assert_eq!(tool_loop.transport.inner.calls.get(), 1);
}

#[test]
fn a_provider_failure_in_a_later_round_ends_the_turn() {
    let mut registry = ToolRegistry::new();
    registry.register(ToolSpec::new("echo", "Echo.", json("{}")), Box::new(Echo));
    let tool_loop = ToolLoop::new(scripted(vec![tool_reply("t1")]), registry, None);
    let mut notes = Trail::new(WriterSink::new(Vec::new()));
    let call: TransportCall<_> =
        tool_loop.run_observed_with_attempts(&[Message::user("go")], &mut notes);
    assert_eq!(call.result.unwrap_err().kind(), "transport");
    assert_eq!(call.attempts, 2);
    assert_eq!(
        notes_on(&notes),
        ["round 1", "call t1 echo", "result t1 completed echoed"]
    );
}

#[test]
fn a_prompt_is_sent_as_one_user_turn_and_counts_one_attempt() {
    let transport = scripted(vec![AssistantReply::new("hi")]);
    let call = (&transport).send_with_attempts(&Prompt::new("hello"));
    assert_eq!(call.result.unwrap().text, "hi");
    assert_eq!(call.attempts, 1);
}

#[test]
fn string_literals_escape_quotes_backslashes_and_control_characters() {
    let text = "q\" b\\ \u{8}\t\n\u{c}\r \u{0}\u{1f} \u{7f} / \u{e9}";
    let literal = Json::Text(text.to_string()).to_text();
    assert_eq!(
        literal,
        "\"q\\\" b\\\\ \\b\\t\\n\\f\\r \\u0000\\u001f \u{7f} / \u{e9}\""
    );
    assert_eq!(parse_json(&literal), Ok(Json::Text(text.to_string())));
}
