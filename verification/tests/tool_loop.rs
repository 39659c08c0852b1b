use std::cell::{Cell, RefCell};
use std::collections::VecDeque;

use leg::error::{InterruptSignal, Result};
use leg::events::ToolStatus;
use leg::json::{parse_json, Json};
use leg::model::{
    AssistantReply, ContentBlock, Message, Role, StopReason, TokenUsage, ToolSpec,
};
use leg::sink::WriterSink;
use leg::tools::guard::{decide, Guarded};
use leg::tools::{PreToolHook, ToolHandler, ToolLoop, ToolObserver, ToolRegistry};
use leg::trail::Trail;
use leg::transport::{Transport, TransportCall};

fn json(text: &str) -> Json {
    parse_json(text).expect("json")
}

/// Answers from a queue of canned replies and records every call's history.
struct ScriptedTransport {
    replies: RefCell<VecDeque<AssistantReply>>,
    calls: RefCell<Vec<Vec<Message>>>,
}

impl ScriptedTransport {
    fn new(replies: Vec<AssistantReply>) -> Self {
        Self {
            replies: RefCell::new(replies.into()),
            calls: RefCell::new(Vec::new()),
        }
    }
}

impl Transport for ScriptedTransport {
    fn send_conversation(&self, messages: &[Message]) -> Result<AssistantReply> {
        self.calls.borrow_mut().push(messages.to_vec());
        Ok(self
            .replies
            .borrow_mut()
            .pop_front()
            .expect("test queued enough replies for every expected call"))
    }

    fn send_conversation_with_attempts(
        &self,
        messages: &[Message],
    ) -> TransportCall<AssistantReply> {
        TransportCall::new(self.send_conversation(messages), 1)
    }

    fn send_observed<O: ToolObserver>(
        &self,
        messages: &[Message],
        _observer: &mut O,
    ) -> TransportCall<AssistantReply> {
        self.send_conversation_with_attempts(messages)
    }

    fn interrupted(&self) -> Option<InterruptSignal> {
        None
    }
}

/// A stub handler that echoes its `text` argument and counts calls.
struct EchoTool(std::rc::Rc<Cell<usize>>);

impl ToolHandler for EchoTool {
    fn call(&self, input: &Json) -> std::result::Result<String, String> {
        self.0.set(self.0.get() + 1);
        let text = input.get("text").and_then(|text| text.as_text()).unwrap_or("");
        Ok(format!("echo: {text}"))
    }
}

fn echo_registry(count: std::rc::Rc<Cell<usize>>) -> ToolRegistry {
    let mut registry = ToolRegistry::new();
    registry.register(
        ToolSpec::new("echo", "Echo text.", json(r#"{"type": "object"}"#)),
        Box::new(EchoTool(count)),
    );
    registry
}

fn tool_use_reply(id: &str, name: &str) -> AssistantReply {
    AssistantReply::from_blocks(
        vec![
            ContentBlock::text("calling"),
            ContentBlock::ToolUse {
                id: id.to_string(),
                name: name.to_string(),
                input: json(r#"{"text": "hi"}"#),
            },
        ],
        TokenUsage {
            input_tokens: Some(1),
            output_tokens: Some(2),
        },
        Some(StopReason::ToolUse),
    )
}

/// The tool events on a trail, in order.
fn notes_on(trail: &Trail<WriterSink<Vec<u8>>>) -> Vec<String> {
    let lines = std::str::from_utf8(&trail.sink.writer).unwrap().lines();
    lines
        .map(|line| {
            let event: serde_json::Value = serde_json::from_str(line).unwrap();
            let text = |key: &str| event[key].as_str().unwrap_or("").to_string();
            match event["event"].as_str().unwrap() {
                "tool_round" => format!("round {}", event["content"].as_array().unwrap().len()),
                "tool_call" => format!("call {} {}", text("tool_use_id"), text("tool_name")),
                "tool_result" => format!(
                    "result {} {} {}{}",
                    text("tool_use_id"),
                    text("status"),
                    text("result"),
                    text("error")
                ),
                other => other.to_string(),
            }
        })
        .collect()
}

#[test]
fn loop_executes_registered_handler_and_feeds_back_tool_result() {
    let count = std::rc::Rc::new(Cell::new(0));
    let transport = ScriptedTransport::new(vec![
        tool_use_reply("toolu_1", "echo"),
        AssistantReply::from_blocks(
            vec![ContentBlock::text("done")],
            TokenUsage {
                input_tokens: Some(10),
                output_tokens: None,
            },
            Some(StopReason::EndTurn),
        ),
    ]);
    let tool_loop = ToolLoop::new(transport, echo_registry(count.clone()), None);

    let outcome = tool_loop.run(&[Message::user("go")]).unwrap();

    assert_eq!(outcome.reply.text, "done");
    assert!(!outcome.capped);
    assert_eq!(count.get(), 1);
    assert_eq!(
        outcome.reply.usage,
        TokenUsage {
            input_tokens: Some(11),
            output_tokens: Some(2),
        },
        "usage sums every call in the turn"
    );
    let result = Message::new(
        Role::User,
        vec![ContentBlock::ToolResult {
            tool_use_id: "toolu_1".to_string(),
            content: "echo: hi".to_string(),
            is_error: None,
        }],
    );
    let expected_transcript = vec![
        Message::new(Role::Assistant, tool_use_reply("toolu_1", "echo").content),
        result,
    ];
    assert_eq!(outcome.transcript, expected_transcript);

    let calls = tool_loop.transport.calls.borrow();
    assert_eq!(calls.len(), 2);
    assert_eq!(calls[0], vec![Message::user("go")]);
    assert_eq!(calls[1][1..], expected_transcript[..]);
}

#[test]
fn registry_without_pre_tool_hook_preserves_dispatch() {
    let count = std::rc::Rc::new(Cell::new(0));
    let registry = echo_registry(count.clone());

    let result = registry.dispatch("toolu_1", "echo", &json(r#"{"text": "hi"}"#));

    assert_eq!(count.get(), 1);
    assert_eq!(
        result,
        ContentBlock::ToolResult {
            tool_use_id: "toolu_1".to_string(),
            content: "echo: hi".to_string(),
            is_error: None,
        }
    );
}

#[test]
fn run_observed_reports_each_call_then_its_result_in_order() {
    let count = std::rc::Rc::new(Cell::new(0));
    let mut first = tool_use_reply("toolu_1", "echo");
    first.content.push(ContentBlock::ToolUse {
        id: "toolu_2".to_string(),
        name: "missing".to_string(),
        input: json(r#"{}"#),
    });
    let transport = ScriptedTransport::new(vec![first, AssistantReply::new("done")]);
    let tool_loop = ToolLoop::new(transport, echo_registry(count), None);

    let mut seen = Trail::new(WriterSink::new(Vec::new()));
    tool_loop
        .run_observed(&[Message::user("go")], &mut seen)
        .unwrap();

    assert_eq!(
        notes_on(&seen),
        [
            "round 3",
            "call toolu_1 echo",
            "result toolu_1 completed echo: hi",
            "call toolu_2 missing",
            "result toolu_2 failed unknown tool: missing",
        ]
    );
}

#[test]
fn loop_without_tool_use_makes_a_single_call() {
    let transport = ScriptedTransport::new(vec![AssistantReply::new("hi")]);
    let tool_loop = ToolLoop::new(transport, ToolRegistry::new(), None);

    let outcome = tool_loop.run(&[Message::user("go")]).unwrap();

    assert_eq!(outcome.reply, AssistantReply::new("hi"));
    assert!(outcome.transcript.is_empty());
    assert_eq!(tool_loop.transport.calls.borrow().len(), 1);
}

#[test]
fn loop_runs_more_than_fifty_rounds_when_uncapped() {
    const ROUNDS: usize = 50;
    let count = std::rc::Rc::new(Cell::new(0));
    let mut replies: Vec<_> = (0..ROUNDS)
        .map(|i| tool_use_reply(&format!("toolu_{i}"), "echo"))
        .collect();
    replies.push(AssistantReply::new("done"));
    let tool_loop = ToolLoop::new(
        ScriptedTransport::new(replies),
        echo_registry(count.clone()),
        None,
    );

    let outcome = tool_loop.run(&[Message::user("go")]).unwrap();

    assert_eq!(outcome.reply.text, "done");
    assert!(!outcome.capped);
    assert_eq!(count.get(), ROUNDS);
    assert_eq!(tool_loop.transport.calls.borrow().len(), ROUNDS + 1);
    assert_eq!(outcome.transcript.len(), 2 * ROUNDS);
}

#[test]
fn loop_stops_after_configured_round_limit_without_another_request() {
    const MAX_ROUNDS: usize = 3;
    let count = std::rc::Rc::new(Cell::new(0));
    let replies = (0..=MAX_ROUNDS)
        .map(|i| tool_use_reply(&format!("toolu_{i}"), "echo"))
        .collect();
    let tool_loop = ToolLoop::new(
        ScriptedTransport::new(replies),
        echo_registry(count.clone()),
        Some(MAX_ROUNDS),
    );

    let outcome = tool_loop.run(&[Message::user("go")]).unwrap();

    assert!(outcome.capped);
    assert_eq!(
        count.get(),
        MAX_ROUNDS,
        "the capped reply's tools are not run"
    );
    assert_eq!(
        tool_loop.transport.calls.borrow().len(),
        MAX_ROUNDS + 1,
        "the initial request plus one per round"
    );
    assert_eq!(outcome.transcript.len(), 2 * MAX_ROUNDS);
    assert_eq!(outcome.reply.stop_reason, Some(StopReason::ToolUse));
    assert_eq!(
        outcome.reply.usage.input_tokens,
        Some((MAX_ROUNDS + 1) as u64)
    );
}

#[test]
fn dispatch_reports_unknown_tool_and_handler_error_as_is_error() {
    struct Failing;
    impl ToolHandler for Failing {
        fn call(&self, _input: &Json) -> std::result::Result<String, String> {
            Err("boom".to_string())
        }
    }
    let mut registry = ToolRegistry::new();
    registry.register(
        ToolSpec::new(
            "fail",
            "Always fails.",
            json(r#"{"type": "object"}"#),
        ),
        Box::new(Failing),
    );

    assert_eq!(
        registry.dispatch("t1", "missing", &json(r#"{}"#)),
        ContentBlock::ToolResult {
            tool_use_id: "t1".to_string(),
            content: "unknown tool: missing".to_string(),
            is_error: Some(true),
        }
    );
    assert_eq!(
        registry.dispatch("t2", "fail", &json(r#"{}"#)),
        ContentBlock::ToolResult {
            tool_use_id: "t2".to_string(),
            content: "boom".to_string(),
            is_error: Some(true),
        }
    );
    assert_eq!(registry.specs()[0].name, "fail");
}

/// Answers with a fixed text.
struct Fixed(&'static str);

impl ToolHandler for Fixed {
    fn call(&self, _input: &Json) -> std::result::Result<String, String> {
        Ok(self.0.to_string())
    }
}

/// Denies the calls whose argument says so.
struct ByArgument;

impl PreToolHook for ByArgument {
    fn authorize(&self, name: &str, input: &Json) -> std::result::Result<(), String> {
        match input.get("forbidden").and_then(|why| why.as_text()) {
            Some(why) => Err(format!("{name}: {why}")),
            None => Ok(()),
        }
    }
}

fn result_of(id: &str, content: &str, is_error: Option<bool>) -> ContentBlock {
    ContentBlock::ToolResult {
        tool_use_id: id.to_string(),
        content: content.to_string(),
        is_error,
    }
}

#[test]
fn dispatch_asks_the_hook_and_runs_the_first_tool_of_the_name() {
    let count = std::rc::Rc::new(Cell::new(0));
    let mut registry = ToolRegistry::new().with_pre_tool_hook(Box::new(ByArgument));
    let spec = |name: &str| ToolSpec::new(name, "A tool.", json(r#"{"type": "object"}"#));
    registry.register(spec("other"), Box::new(Fixed("other")));
    registry.register(spec("echo"), Box::new(EchoTool(count.clone())));
    registry.register(spec("echo"), Box::new(Fixed("second")));

    let input = json(r#"{"text": "hi"}"#);
    assert_eq!(
        registry.dispatch_with_status("t1", "echo", &input),
        (result_of("t1", "echo: hi", None), ToolStatus::Completed)
    );
    assert_eq!(count.get(), 1);
    assert_eq!(
        registry.dispatch_with_status("t2", "echo", &json(r#"{"forbidden": "no"}"#)),
        (result_of("t2", "echo: no", Some(true)), ToolStatus::Denied)
    );
    assert_eq!(count.get(), 1, "a denied call runs no tool");
    assert_eq!(
        registry.dispatch("t3", "nothing", &input),
        result_of("t3", "unknown tool: nothing", Some(true))
    );
    assert_eq!(
        registry.dispatch("t4", "nothing", &json(r#"{"forbidden": "no"}"#)),
        result_of("t4", "nothing: no", Some(true)),
        "the hook is asked first"
    );
}

#[test]
fn a_guarded_tool_runs_on_the_permit_of_its_hook() {
    let hook: Option<Box<dyn PreToolHook>> = Some(Box::new(ByArgument));
    let tool: Guarded<Box<dyn ToolHandler>> = Guarded::new(Box::new(Fixed("ran")));
    let allowed = json(r#"{"text": "hi"}"#);
    match decide(&hook, "fixed", &allowed) {
        Ok(permit) => assert_eq!(tool.run("fixed", &allowed, &permit), Ok("ran".to_string())),
        Err(message) => panic!("the call was allowed, not denied with {message}"),
    }
    let denied = json(r#"{"forbidden": "no"}"#);
    assert_eq!(decide(&hook, "fixed", &denied).err().as_deref(), Some("fixed: no"));
    assert!(decide(&None, "fixed", &denied).is_ok(), "without a hook nothing is denied");
}
