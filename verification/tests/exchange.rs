use std::cell::{Cell, RefCell};
use std::collections::VecDeque;
use std::rc::Rc;

use leg::cli::{
    apply_model_override, event_log_path, exchange_meta, exchange_session_file, execute_log_show,
    replay_target, resolve_log_path, select_exchange, session_store_dir,
};
use leg::config::{Credential, LegConfig, Settings, DEFAULT_MODEL};
use leg::error::{unless_interrupted, InterruptSignal, LegError, Result};
use leg::events::{Exchange, ExchangeEvent, ExchangeMeta, Outcome, RequestRecord};
use leg::exchange::{
    execute_exchange_core, execute_exchange_session_core, parse_exchange_request, run_ask,
    session_end_result, write_ask_response, write_exchange_response, ExchangeMode, Output,
};
use leg::json::{parse_json, Json};
use leg::log::{parse_jsonl, ParseReport};
use leg::message::{MessageEnvelope, MessageKind};
use leg::model::{
    AssistantReply, ContentBlock, ImageSource, Message, Role, StopReason, TokenUsage, ToolSpec,
};
use leg::participant::{LocalParticipant, MessageIds, Participant};
use leg::session::{end_session, fresh_session, session_step};
use leg::sink::{
    note_failure, warn_of_loss, CompositeEventSink, EventLog, EventSink, NoopSink, TrailWriter,
    WriterSink,
};
use leg::tools::bash::BashTool;
use leg::tools::{ToolHandler, ToolLoop, ToolObserver, ToolRegistry};
use leg::trail::Trail;
use leg::transport::claude::ClaudeClient;
use leg::transport::http::{HttpCall, HttpClient, HttpResponse};
use leg::transport::{Transport, TransportCall};

fn json(text: &str) -> Json {
    parse_json(text).expect("json")
}

struct FakeTransport(std::result::Result<AssistantReply, LegError>);

impl Transport for FakeTransport {
    fn send_conversation(&self, _messages: &[Message]) -> Result<AssistantReply> {
        match &self.0 {
            Ok(reply) => Ok(reply.clone()),
            Err(LegError::Auth(msg)) => Err(LegError::Auth(msg.clone())),
            Err(LegError::Server {
                status,
                error_type,
                message,
            }) => Err(LegError::Server {
                status: *status,
                error_type: error_type.clone(),
                message: message.clone(),
            }),
            Err(other) => Err(LegError::Transport(other.to_string())),
        }
    }

    fn send_conversation_with_attempts(
        &self,
        messages: &[Message],
    ) -> TransportCall<AssistantReply> {
        TransportCall::new(self.send_conversation(messages), 1)
    }

    fn send_observed<O: ToolObserver>(
        &self,
        messages: &[Message],
        _observer: &mut O,
    ) -> TransportCall<AssistantReply> {
        self.send_conversation_with_attempts(messages)
    }

    fn interrupted(&self) -> Option<InterruptSignal> {
        None
    }
}

/// Records every call's full message history and answers from a queue.
struct CapturingTransport {
    replies: RefCell<VecDeque<AssistantReply>>,
    calls: RefCell<Vec<Vec<Message>>>,
}

impl CapturingTransport {
    fn new(replies: Vec<AssistantReply>) -> Self {
        Self {
            replies: RefCell::new(replies.into()),
            calls: RefCell::new(Vec::new()),
        }
    }
}

impl Transport for CapturingTransport {
    fn send_conversation(&self, messages: &[Message]) -> Result<AssistantReply> {
        self.calls.borrow_mut().push(messages.to_vec());
        Ok(self
            .replies
            .borrow_mut()
            .pop_front()
            .expect("test queued enough replies for every expected call"))
    }

    fn send_conversation_with_attempts(
        &self,
        messages: &[Message],
    ) -> TransportCall<AssistantReply> {
        TransportCall::new(self.send_conversation(messages), 1)
    }

    fn send_observed<O: ToolObserver>(
        &self,
        messages: &[Message],
        _observer: &mut O,
    ) -> TransportCall<AssistantReply> {
        self.send_conversation_with_attempts(messages)
    }

    fn interrupted(&self) -> Option<InterruptSignal> {
        None
    }
}

/// Wraps a test transport in a tool loop with no registered tools.
fn looped<T: Transport>(transport: T) -> ToolLoop<T> {
    ToolLoop::new(transport, ToolRegistry::new(), None)
}

struct EchoTool(Rc<Cell<usize>>);

impl ToolHandler for EchoTool {
    fn call(&self, input: &Json) -> std::result::Result<String, String> {
        self.0.set(self.0.get() + 1);
        let text = input.get("text").and_then(|text| text.as_text()).unwrap_or("");
        Ok(format!("echo: {text}"))
    }
}

const TEST_TOOL_ROUND_LIMIT: usize = 3;

/// A stub `echo` tool loop over `transport`, counting handler calls.
fn echo_looped<T: Transport>(transport: T) -> (ToolLoop<T>, Rc<Cell<usize>>) {
    let count = Rc::new(Cell::new(0));
    let mut registry = ToolRegistry::new();
    registry.register(
        ToolSpec::new("echo", "Echo text.", json(r#"{"type": "object"}"#)),
        Box::new(EchoTool(count.clone())),
    );
    (
        ToolLoop::new(transport, registry, Some(TEST_TOOL_ROUND_LIMIT)),
        count,
    )
}

fn tool_use_reply(id: &str, name: &str) -> AssistantReply {
    AssistantReply::from_blocks(
        vec![
            ContentBlock::text("calling"),
            ContentBlock::ToolUse {
                id: id.to_string(),
                name: name.to_string(),
                input: json(r#"{"text": "hi"}"#),
            },
        ],
        TokenUsage {
            input_tokens: Some(1),
            output_tokens: Some(2),
        },
        Some(StopReason::ToolUse),
    )
}

fn echo_result(id: &str) -> ContentBlock {
    ContentBlock::ToolResult {
        tool_use_id: id.to_string(),
        content: "echo: hi".to_string(),
        is_error: None,
    }
}

fn meta() -> ExchangeMeta {
    ExchangeMeta {
        model: "test-model".to_string(),
        base_url: "https://api.anthropic.com".to_string(),
    }
}

fn envelope() -> MessageEnvelope {
    MessageEnvelope::new(
        "m-1",
        "c-1",
        "user",
        "assistant",
        MessageKind::Request,
        "hello",
        1_700_000_000_000,
    )
}

/// Asks one text prompt and returns what was written and the trail.
fn ask<T: Transport>(transport: T, prompt: &str) -> (Output, String) {
    let mut participant = LocalParticipant::new(transport, meta());
    let mut trail = Trail::new(WriterSink::new(Vec::new()));
    let output = run_ask(
        &mut participant,
        &mut trail,
        &meta(),
        prompt,
        &[ContentBlock::text(prompt)],
        Some(TEST_TOOL_ROUND_LIMIT),
    );
    (output, String::from_utf8(trail.sink.writer).unwrap())
}

/// Runs one exchange without a trail.
fn exchange<T: Transport>(transport: T, raw: &str) -> Output {
    let mut participant = LocalParticipant::new(transport, meta());
    let mut trail = Trail::new(NoopSink::new());
    execute_exchange_core(
        &mut participant,
        &mut trail,
        &meta(),
        raw,
        Some(TEST_TOOL_ROUND_LIMIT),
    )
}

/// The settings of an environment that holds an API key and nothing else.
fn key_alone(key: &str) -> Settings {
    Settings {
        api_key: Some(key.to_string()),
        auth_token: None,
        oauth_token: None,
        base_url: None,
        model: None,
        timeout_secs: None,
        max_tokens: None,
        max_tool_rounds: None,
        system_prompt: None,
        bash_timeout_secs: None,
        pre_tool_hook: None,
        max_retries: None,
        retry_base_delay_ms: None,
    }
}

fn config() -> LegConfig {
    LegConfig::from_settings(&key_alone("secret")).expect("config loads")
}

fn exchange_of(prompt: &str, reply: &str) -> Exchange {
    Exchange {
        request: RequestRecord {
            ts_ms: 1,
            model: "m".to_string(),
            base_url: "u".to_string(),
            prompt: prompt.to_string(),
            content: None,
            session_id: None,
            turn_index: None,
        },
        outcome: Outcome::Success {
            ts_ms: 2,
            duration_ms: 1,
            reply: reply.to_string(),
            content: None,
            input_tokens: None,
            output_tokens: None,
            stop_reason: None,
            session_id: None,
            turn_index: None,
        },
    }
}

#[test]
fn run_ask_prints_only_reply_text_on_success() {
    let (output, _) = ask(FakeTransport(Ok(AssistantReply::new("hi there"))), "hello");
    output.result.expect("infallible per Participant contract");
    assert_eq!(output.text, "hi there\n");
}

#[test]
fn run_ask_propagates_delivery_failure_without_writing_stdout() {
    let (output, _) = ask(
        FakeTransport(Err(LegError::Server {
            status: 503,
            error_type: Some("api_error".to_string()),
            message: "overloaded".to_string(),
        })),
        "hello",
    );
    let err = output
        .result
        .expect_err("delivered errors must fail the command");
    assert_eq!(err.kind(), "turn_failure");
    assert_eq!(
        err.to_string(),
        "turn failed (kind: error): provider server error (503, api_error): overloaded"
    );
    assert!(
        output.text.is_empty(),
        "failed ask must leave stdout empty"
    );
}

#[test]
fn run_ask_emits_request_and_response_ok_events_to_the_sink() {
    let (_, text) = ask(FakeTransport(Ok(AssistantReply::new("hi there"))), "hello");
    let lines: Vec<&str> = text.lines().collect();
    assert_eq!(lines.len(), 2);
    let first: serde_json::Value = serde_json::from_str(lines[0]).unwrap();
    assert_eq!(first["event"], "request");
    assert_eq!(first["prompt"], "hello");
    let second: serde_json::Value = serde_json::from_str(lines[1]).unwrap();
    assert_eq!(second["event"], "response_ok");
    assert_eq!(second["reply"], "hi there");
}

#[test]
fn run_ask_with_image_content_sends_and_records_the_full_user_turn() {
    let content = vec![
        ContentBlock::Image {
            source: ImageSource::Base64 {
                media_type: "image/png".to_string(),
                data: "iVBORw==".to_string(),
            },
        },
        ContentBlock::text("describe"),
    ];
    let transport = CapturingTransport::new(vec![AssistantReply::new("answer")]);
    let mut participant = LocalParticipant::new(looped(&transport), meta());
    let mut trail = Trail::new(WriterSink::new(Vec::new()));
    run_ask(&mut participant, &mut trail, &meta(), "describe", &content, None)
        .result
        .expect("ask completes");

    assert_eq!(
        transport.calls.borrow()[0],
        vec![Message::new(Role::User, content.clone())]
    );
    let report = parse_jsonl(&trail.sink.writer).expect("parses trail");
    assert_eq!(report.exchanges[0].request.prompt, "describe");
    assert_eq!(report.exchanges[0].request.content, Some(content));
}

/// Keeps the kinds of the events whose lines it is given, and shows them to
/// whoever shares it.
struct SharedWriter(Rc<RefCell<Vec<String>>>);

impl TrailWriter for SharedWriter {
    fn append_text(&mut self, text: &str) -> std::result::Result<(), String> {
        let value: serde_json::Value = serde_json::from_str(text).unwrap();
        self.0
            .borrow_mut()
            .push(value["event"].as_str().unwrap().to_string());
        Ok(())
    }
}

struct WatchingTransport(Rc<RefCell<Vec<String>>>);

impl Transport for WatchingTransport {
    fn send_conversation(&self, _messages: &[Message]) -> Result<AssistantReply> {
        assert_eq!(*self.0.borrow(), ["request"], "recorded before the call");
        Ok(AssistantReply::new("hi"))
    }

    fn send_conversation_with_attempts(
        &self,
        messages: &[Message],
    ) -> TransportCall<AssistantReply> {
        TransportCall::new(self.send_conversation(messages), 1)
    }

    fn send_observed<O: ToolObserver>(
        &self,
        messages: &[Message],
        _observer: &mut O,
    ) -> TransportCall<AssistantReply> {
        self.send_conversation_with_attempts(messages)
    }

    fn interrupted(&self) -> Option<InterruptSignal> {
        None
    }
}

#[test]
fn run_ask_records_the_request_event_before_invoking_the_transport() {
    let seen = Rc::new(RefCell::new(Vec::new()));
    let mut participant = LocalParticipant::new(WatchingTransport(seen.clone()), meta());
    let mut trail = Trail::new(WriterSink::new(SharedWriter(seen.clone())));
    run_ask(
        &mut participant,
        &mut trail,
        &meta(),
        "hello",
        &[ContentBlock::text("hello")],
        None,
    )
    .result
    .unwrap();
    assert_eq!(*seen.borrow(), ["request", "response_ok"]);
}

#[test]
fn run_ask_wire_lines_match_batons_field_order_and_omitted_fields() {
    let (_, text) = ask(FakeTransport(Ok(AssistantReply::new("hi there"))), "hello");
    let mut lines = text.lines();
    let request_line = lines.next().expect("request line");
    let response_line = lines.next().expect("response line");
    assert!(lines.next().is_none(), "exactly two lines for a plain ask");

    let request_value: serde_json::Value = serde_json::from_str(request_line).unwrap();
    let ts_ms = request_value["ts_ms"].as_u64().expect("ts_ms");
    assert_eq!(
        request_line,
        format!(
            r#"{{"event":"request","schema":"baton.exchange/v1","ts_ms":{ts_ms},"model":"test-model","base_url":"https://api.anthropic.com","prompt":"hello"}}"#
        ),
    );

    let response_value: serde_json::Value = serde_json::from_str(response_line).unwrap();
    let r_ts_ms = response_value["ts_ms"].as_u64().expect("ts_ms");
    let duration_ms = response_value["duration_ms"].as_u64().expect("duration_ms");
    assert_eq!(
        response_line,
        format!(
            r#"{{"event":"response_ok","schema":"baton.exchange/v1","ts_ms":{r_ts_ms},"duration_ms":{duration_ms},"reply":"hi there"}}"#
        ),
    );
}

struct RecordingHttp {
    captured_body: Rc<RefCell<Option<String>>>,
}

impl HttpClient for RecordingHttp {
    fn post_json(
        &self,
        _url: &str,
        _headers: &[(&str, &str)],
        body: &str,
    ) -> Result<HttpResponse> {
        *self.captured_body.borrow_mut() = Some(body.to_string());
        Ok(HttpResponse {
            status: 200,
            body: r#"{"content":[{"type":"text","text":"hi"}]}"#.to_string(),
            retry_after: None,
        })
    }

    fn post_json_with_attempts(
        &self,
        url: &str,
        headers: &[(&str, &str)],
        body: &str,
    ) -> HttpCall {
        HttpCall::new(self.post_json(url, headers, body), 1)
    }

    fn pause(&self, _nanos: u128) -> Option<InterruptSignal> {
        None
    }
}

#[test]
fn model_override_reaches_the_outgoing_claude_request() {
    let mut config = config();
    apply_model_override(&mut config, None);
    assert_eq!(config.model, DEFAULT_MODEL);
    apply_model_override(&mut config, Some("opus-4-8".to_string()));
    let meta = exchange_meta(&config);

    let captured = Rc::new(RefCell::new(None));
    let http = RecordingHttp {
        captured_body: Rc::clone(&captured),
    };
    let client = ClaudeClient::with_http(config, http);
    let mut participant = LocalParticipant::new(client, meta.clone());
    let mut trail = Trail::new(NoopSink::new());
    run_ask(
        &mut participant,
        &mut trail,
        &meta,
        "hello",
        &[ContentBlock::text("hello")],
        None,
    )
    .result
    .expect("infallible per Participant contract");

    let sent = captured.borrow().clone().expect("request body captured");
    let value: serde_json::Value = serde_json::from_str(&sent).expect("valid json");
    assert_eq!(value["model"], "opus-4-8");
}

#[test]
fn configured_bash_timeout_flows_through_registry_to_spec_and_handler() {
    let settings = Settings {
        bash_timeout_secs: Some("1".to_string()),
        ..key_alone("test-key")
    };
    let config = LegConfig::from_settings(&settings).expect("config loads");
    let spec = BashTool::spec_with_default_timeout_secs(config.bash_timeout_secs);
    let schema: serde_json::Value =
        serde_json::from_str(&spec.input_schema.to_text()).expect("json");
    assert_eq!(schema["properties"]["timeout"]["default"], 1);
    assert!(spec.description.contains("1 second by default"));
    assert_eq!(
        schema["properties"]["timeout"]["description"],
        "Maximum run time in seconds (default 1)"
    );
    let tool = BashTool::with_default_timeout_secs(config.bash_timeout_secs);
    let request = tool.request(&json(r#"{"command": "sleep 2"}"#)).unwrap();
    assert_eq!(request.timeout_secs, 1);
}

#[test]
fn run_ask_iterates_tool_use_and_prints_only_the_final_text() {
    let transport = CapturingTransport::new(vec![
        tool_use_reply("toolu_1", "echo"),
        AssistantReply::new("final answer"),
    ]);
    let (tool_loop, count) = echo_looped(&transport);
    let (output, _) = ask(tool_loop, "hello");

    assert_eq!(output.text, "final answer\n");
    assert_eq!(count.get(), 1);
    let calls = transport.calls.borrow();
    assert_eq!(calls.len(), 2);
    assert_eq!(
        calls[1][2],
        Message::new(Role::User, vec![echo_result("toolu_1")]),
        "the stub handler's output is fed back as tool_result"
    );
}

#[test]
fn run_ask_records_tool_events_between_request_and_outcome() {
    let transport = CapturingTransport::new(vec![
        tool_use_reply("toolu_1", "echo"),
        AssistantReply::new("final answer"),
    ]);
    let (tool_loop, _) = echo_looped(&transport);
    let (_, text) = ask(tool_loop, "hello");

    let events: Vec<serde_json::Value> = text
        .lines()
        .map(|line| serde_json::from_str(line).unwrap())
        .collect();
    let kinds: Vec<&str> = events
        .iter()
        .map(|e| e["event"].as_str().unwrap())
        .collect();
    assert_eq!(
        kinds,
        [
            "request",
            "tool_round",
            "tool_call",
            "tool_result",
            "response_ok"
        ]
    );
    assert_eq!(
        events[1]["content"],
        serde_json::from_str::<serde_json::Value>(
            r#"[{"type": "text", "text": "calling"}, {"type": "tool_use", "id": "toolu_1", "name": "echo", "input": {"text": "hi"}}]"#
        )
        .unwrap()
    );
    assert_eq!(events[2]["tool_use_id"], "toolu_1");
    assert_eq!(events[2]["tool_name"], "echo");
    assert_eq!(events[2]["input"]["text"], "hi");
    assert_eq!(events[3]["tool_use_id"], "toolu_1");
    assert_eq!(events[3]["status"], "completed");
    assert_eq!(events[3]["result"], "echo: hi");
    assert!(events[1].get("session_id").is_none());
    assert!(events[2].get("session_id").is_none());
}

#[test]
fn execute_exchange_core_runs_the_loop_inside_one_envelope() {
    let transport = CapturingTransport::new(vec![
        tool_use_reply("toolu_1", "echo"),
        AssistantReply::new("final answer"),
    ]);
    let (tool_loop, count) = echo_looped(&transport);
    let output = exchange(tool_loop, &envelope().to_text());
    output.result.expect("infallible");
    let printed = output.text;
    assert_eq!(
        printed.lines().count(),
        1,
        "exactly one envelope: {printed}"
    );
    let value: serde_json::Value = serde_json::from_str(printed.trim()).unwrap();
    assert_eq!(value["kind"], "response");
    assert_eq!(value["body"], "final answer");
    assert_eq!(count.get(), 1);
    assert_eq!(transport.calls.borrow().len(), 2);
}

#[test]
fn log_replay_reruns_a_tool_bearing_prompt_through_the_loop() {
    let (tool_loop, _) = echo_looped(CapturingTransport::new(vec![
        tool_use_reply("toolu_1", "echo"),
        AssistantReply::new("first"),
    ]));
    let (_, mut trail) = ask(tool_loop, "use a tool");
    let mut lines = Trail::new(WriterSink::new(Vec::new()));
    let mut session = fresh_session("sess-1".to_string());
    let session_loop = looped(CapturingTransport::new(vec![AssistantReply::new("hi")]));
    session_step(&session_loop, &mut lines, &meta(), &mut session, "later");
    end_session(&mut lines, &session);
    trail.push_str(&String::from_utf8(lines.sink.writer).unwrap());

    let report = parse_jsonl(trail.as_bytes()).expect("parses");
    assert_eq!(report.exchanges.len(), 2, "global indexing spans sessions");
    let chosen = select_exchange(&report.exchanges, Some(1)).expect("selects");
    let target = replay_target(config(), chosen);
    assert_eq!(target.prompt, "use a tool");
    assert_eq!(target.content, vec![ContentBlock::text("use a tool")]);
    assert_eq!(target.config.model, "test-model");
    assert_eq!(target.config.base_url, "https://api.anthropic.com");
    assert_eq!(
        target.config.credential,
        Credential::ApiKey("secret".to_string())
    );

    let rerun = CapturingTransport::new(vec![
        tool_use_reply("toolu_9", "echo"),
        AssistantReply::new("rerun"),
    ]);
    let (tool_loop, count) = echo_looped(&rerun);
    let (_, more) = ask(tool_loop, &target.prompt);
    assert_eq!(count.get(), 1, "the tool executes afresh");
    assert_eq!(rerun.calls.borrow()[0], vec![Message::user("use a tool")]);

    trail.push_str(&more);
    let report = parse_jsonl(trail.as_bytes()).expect("parses");
    assert_eq!(report.exchanges.len(), 3);
    assert_eq!(report.exchanges[2].request.prompt, "use a tool");
    assert_eq!(report.tools[2].len(), 1);
    assert_eq!(report.tools[2][0].call.tool_use_id, "toolu_9");
    assert!(report.tools[2][0].result.is_some());
}

#[test]
fn log_replay_preserves_image_blocks_in_the_provider_request_and_trail() {
    let image = ContentBlock::Image {
        source: ImageSource::Base64 {
            media_type: "image/jpeg".to_string(),
            data: "AQID".to_string(),
        },
    };
    let content = vec![image, ContentBlock::text("describe this")];
    let mut recorded = exchange_of("describe this", "old answer");
    recorded.request.model = "recorded-model".to_string();
    recorded.request.base_url = "https://recorded.example".to_string();
    recorded.request.content = Some(content.clone());
    let exchanges = vec![recorded];
    let chosen = select_exchange(&exchanges, None).expect("selects replay target");
    let target = replay_target(config(), chosen);
    assert_eq!(target.content, content);
    assert_eq!(target.config.model, "recorded-model");
    assert_eq!(target.config.base_url, "https://recorded.example");

    let transport = CapturingTransport::new(vec![AssistantReply::new("new answer")]);
    let meta = exchange_meta(&target.config);
    let mut participant = LocalParticipant::new(looped(&transport), meta.clone());
    let mut trail = Trail::new(WriterSink::new(Vec::new()));
    run_ask(
        &mut participant,
        &mut trail,
        &meta,
        &target.prompt,
        &target.content,
        None,
    )
    .result
    .expect("replays");

    assert_eq!(
        transport.calls.borrow()[0],
        vec![Message::new(Role::User, content.clone())]
    );
    let replayed = parse_jsonl(&trail.sink.writer).expect("parses replay trail");
    assert_eq!(replayed.exchanges[0].request.content, Some(content));
}

#[test]
fn replay_target_reports_a_bad_index_before_loading_config() {
    let report = ParseReport::default();
    let err = select_exchange(&report.exchanges, Some(3)).unwrap_err();
    assert!(matches!(err, LegError::Usage(_)), "{err:?}");
}

#[test]
fn execute_log_show_writes_a_block_per_exchange() {
    let mut exchange = exchange_of("hello", "hi there");
    exchange.request.ts_ms = 1_700_000_000_000;
    let report = ParseReport {
        tools: vec![Vec::new()],
        exchanges: vec![exchange],
        warnings: Vec::new(),
    };
    let text = execute_log_show(&report);
    assert!(text.contains("#1"));
    assert!(text.contains("hello"));
    assert!(text.starts_with("#1  2023-11-14T22:13:20Z  m  (1ms)\n"));
}

#[test]
fn execute_log_show_on_empty_log_writes_nothing() {
    assert!(execute_log_show(&ParseReport::default()).is_empty());
}

#[test]
fn select_exchange_defaults_to_last_and_validates_range() {
    let exchanges = vec![exchange_of("a", "ra"), exchange_of("b", "rb")];
    assert_eq!(
        select_exchange(&exchanges, None).unwrap().request.prompt,
        "b"
    );
    assert_eq!(
        select_exchange(&exchanges, Some(1)).unwrap().request.prompt,
        "a"
    );
    assert!(select_exchange(&exchanges, Some(3)).is_err());
    assert!(select_exchange(&[], None).is_err());
    assert_eq!(
        select_exchange(&exchanges, Some(3)).unwrap_err().to_string(),
        "usage error: --index 3 is out of range; valid range is 1..=2"
    );
}

#[test]
fn parse_exchange_request_valid_envelope_passes_through_unchanged() {
    let raw = envelope().to_text();
    let (request, mode) = parse_exchange_request(&raw);
    assert_eq!(mode, ExchangeMode::Envelope);
    assert_eq!(request, envelope());
}

#[test]
fn parse_exchange_request_plain_text_synthesizes_a_request() {
    let (request, mode) = parse_exchange_request("hello there\n");
    assert_eq!(mode, ExchangeMode::PlainText);
    assert_eq!(request.body, "hello there");
    assert_eq!(request.kind, MessageKind::Request);
}

#[test]
fn parse_exchange_request_trims_trailing_newline_only_preserves_trailing_spaces() {
    let (request, _) = parse_exchange_request("hello   \r\n");
    assert_eq!(request.body, "hello   ");
}

#[test]
fn execute_exchange_core_envelope_mode_success_writes_full_response_envelope() {
    let output = exchange(
        FakeTransport(Ok(AssistantReply::new("hi there"))),
        &envelope().to_text(),
    );
    output.result.expect("infallible");
    let value: serde_json::Value =
        serde_json::from_str(output.text.trim()).expect("valid json");
    assert_eq!(value["kind"], "response");
    assert_eq!(value["body"], "hi there");
    assert_eq!(value["exchange"]["schema"], leg::events::SCHEMA);
    assert_eq!(value["schema"], "baton.message/v1");
    assert_eq!(value["in_reply_to"], "m-1");
    assert_eq!(
        value["exchange"]["exchange"]["outcome"]["event"],
        "response_ok"
    );
}

#[test]
fn execute_exchange_core_envelope_mode_error_still_writes_full_error_envelope() {
    let output = exchange(
        FakeTransport(Err(LegError::Auth("bad credentials".to_string()))),
        &envelope().to_text(),
    );
    let err = output
        .result
        .expect_err("delivered errors must fail the command");
    assert_eq!(err.kind(), "turn_failure");
    let value: serde_json::Value =
        serde_json::from_str(output.text.trim()).expect("valid json");
    assert_eq!(value["kind"], "error");
    assert_eq!(value["body"], "authentication error: bad credentials");
}

#[test]
fn execute_exchange_core_plain_text_success_writes_only_the_reply_body() {
    let output = exchange(FakeTransport(Ok(AssistantReply::new("hi there"))), "hello");
    output.result.expect("infallible");
    assert_eq!(output.text, "hi there\n");
}

#[test]
fn execute_exchange_core_plain_text_failure_writes_nothing_and_returns_error() {
    let output = exchange(
        FakeTransport(Err(LegError::Auth("bad credentials".to_string()))),
        "hello",
    );
    let err = output
        .result
        .expect_err("delivered errors must fail the command");
    assert_eq!(err.kind(), "turn_failure");
    assert!(
        output.text.is_empty(),
        "plain-text failure must leave stdout empty"
    );
}

#[test]
fn written_envelopes_read_back() {
    let mut participant =
        LocalParticipant::new(FakeTransport(Ok(AssistantReply::new("hi there"))), meta());
    let response = participant.respond(&envelope());
    let (read, mode) = parse_exchange_request(&response.to_text());
    assert_eq!(mode, ExchangeMode::Envelope);
    assert_eq!(read, response);
    let (_, mode) = parse_exchange_request(r#"{"schema": "baton.message/v1", "kind": "request"}"#);
    assert_eq!(mode, ExchangeMode::PlainText);
}

#[test]
fn a_response_that_is_no_reply_is_shown_for_what_it_is() {
    let odd = envelope();
    let output = write_exchange_response(ExchangeMode::PlainText, &odd);
    assert_eq!(output.text, "");
    assert_eq!(output.notice, "hello\n");
    assert!(output.result.is_ok());
    let output = write_ask_response(&odd);
    assert_eq!(output.text, format!("{}\n", odd.to_text()));
}

/// Raises a signal once the provider has been called.
struct InterruptedTransport(Cell<bool>);

impl Transport for InterruptedTransport {
    fn send_conversation(&self, _messages: &[Message]) -> Result<AssistantReply> {
        self.0.set(true);
        Ok(AssistantReply::new("too late"))
    }

    fn interrupted(&self) -> Option<InterruptSignal> {
        if self.0.get() {
            Some(InterruptSignal::Terminate)
        } else {
            None
        }
    }

    fn send_conversation_with_attempts(
        &self,
        messages: &[Message],
    ) -> TransportCall<AssistantReply> {
        TransportCall::new(self.send_conversation(messages), 1)
    }

    fn send_observed<O: ToolObserver>(
        &self,
        messages: &[Message],
        _observer: &mut O,
    ) -> TransportCall<AssistantReply> {
        self.send_conversation_with_attempts(messages)
    }
}

#[test]
fn an_interrupted_ask_records_the_interruption_and_writes_nothing() {
    let (output, trail) = ask(InterruptedTransport(Cell::new(false)), "hello");
    assert_eq!(output.text, "");
    let err = output.result.unwrap_err();
    assert_eq!(err.kind(), "interrupted");
    let last: serde_json::Value =
        serde_json::from_str(trail.lines().last().unwrap()).unwrap();
    assert_eq!(last["event"], "response_error");
    assert_eq!(last["kind"], "interrupted");
}

#[test]
fn a_session_exchange_continues_the_session_and_answers_in_its_mode() {
    let transport = CapturingTransport::new(vec![
        AssistantReply::new("one"),
        AssistantReply::new("two"),
    ]);
    let tool_loop = looped(&transport);
    let mut trail = Trail::new(WriterSink::new(Vec::new()));
    let mut session = fresh_session("sess-1".to_string());
    let mut ids = MessageIds::new();
    let done = execute_exchange_session_core(
        &tool_loop,
        &mut trail,
        &meta(),
        "first\n",
        &mut session,
        &mut ids,
    );
    assert_eq!(done.output.text, "one\n");
    assert!(done.warnings.is_empty());
    let done = execute_exchange_session_core(
        &tool_loop,
        &mut trail,
        &meta(),
        &envelope().to_text(),
        &mut session,
        &mut ids,
    );
    let value: serde_json::Value =
        serde_json::from_str(done.output.text.trim()).expect("valid json");
    assert_eq!(value["body"], "two");
    assert_eq!(value["exchange"]["exchange"]["request"]["turn_index"], 1);
    assert_eq!(
        transport.calls.borrow()[1],
        vec![
            Message::user("first"),
            Message::assistant("one"),
            Message::user("hello"),
        ]
    );
    assert_eq!(session.next_turn_index, 2);
    let report = leg::log::parse_sessions(&trail.sink.writer).expect("parses");
    assert_eq!(report.sessions[0].turns.len(), 2);
}

#[test]
fn a_session_trail_that_cannot_be_written_fails_the_exchange() {
    let ended = session_end_result(Ok(()), Some("disk full".to_string()));
    assert_eq!(
        ended.unwrap_err().to_string(),
        "io error: failed to record session trail: disk full"
    );
    assert!(session_end_result(Ok(()), None).is_ok());
    let failed = session_end_result(
        Err(LegError::Auth("no".to_string())),
        Some("disk full".to_string()),
    );
    assert_eq!(failed.unwrap_err().kind(), "auth");
}

/// Fails every write.
struct FullDisk;

impl TrailWriter for FullDisk {
    fn append_text(&mut self, _text: &str) -> std::result::Result<(), String> {
        Err("disk full".to_string())
    }
}

#[test]
fn lost_events_are_warnings_and_the_session_trail_keeps_its_first_failure() {
    let mut trail = Trail::new(CompositeEventSink::new(
        WriterSink::new(FullDisk),
        WriterSink::new(Vec::new()),
    ));
    let event = ExchangeEvent::request(1, &meta(), "hello");
    trail.emit(&event);
    trail.emit(&event);
    assert_eq!(
        trail.warnings,
        ["warning: failed to record exchange event: disk full"; 2]
    );
    assert_eq!(
        trail.sink.session_write_error.as_deref(),
        Some("disk full")
    );
    let kept = String::from_utf8(trail.sink.event_log.writer).unwrap();
    assert_eq!(kept.lines().count(), 2, "the second sink still gets them");
}

#[test]
fn log_and_store_paths_follow_their_precedence() {
    assert_eq!(
        resolve_log_path(Some("a.jsonl"), Some("b.jsonl")).unwrap(),
        "a.jsonl"
    );
    assert_eq!(resolve_log_path(Some("  "), Some("b.jsonl")).unwrap(), "b.jsonl");
    assert_eq!(
        resolve_log_path(None, Some(" ")).unwrap_err().to_string(),
        "usage error: no log file: pass --file <path> or set LEG_EVENT_LOG"
    );
    assert_eq!(event_log_path(Some("t.jsonl")).as_deref(), Some("t.jsonl"));
    assert_eq!(event_log_path(Some("  ")), None);

    let dir = session_store_dir(Some("/s"), Some("/x"), Some("/h"), None).unwrap();
    assert_eq!((dir.base.as_str(), dir.below.len()), ("/s", 0));
    let dir = session_store_dir(None, Some("/x"), Some("/h"), None).unwrap();
    assert_eq!((dir.base.as_str(), dir.below), ("/x", vec!["leg".to_string(), "sessions".to_string()]));
    let dir = session_store_dir(None, Some(""), None, Some("/u")).unwrap();
    assert_eq!(dir.base, "/u");
    assert_eq!(dir.below.join("/"), ".local/state/leg/sessions");
    assert_eq!(
        session_store_dir(Some(""), None, Some("/h"), None)
            .unwrap_err()
            .kind(),
        "config"
    );
    assert!(session_store_dir(None, None, Some(""), None).is_err());

    assert_eq!(
        exchange_session_file("sess-1_A").as_deref(),
        Some("sess-1_A.jsonl")
    );
    assert_eq!(exchange_session_file(""), None);
    assert_eq!(exchange_session_file("../up"), None);
}

#[test]
fn a_capped_ask_warns_about_its_round_limit() {
    let replies = (0..=TEST_TOOL_ROUND_LIMIT)
        .map(|i| tool_use_reply(&format!("toolu_{i}"), "echo"))
        .collect();
    let (tool_loop, count) = echo_looped(CapturingTransport::new(replies));
    let (output, _) = ask(tool_loop, "go");
    assert_eq!(count.get(), TEST_TOOL_ROUND_LIMIT);
    assert_eq!(output.text, "calling\n");
    assert_eq!(
        output.warning,
        "warning: stopped after 3 tool-use rounds; reply still requests tools"
    );
    let (output, _) = ask(FakeTransport(Ok(AssistantReply::new("hi"))), "go");
    assert_eq!(output.warning, "");
}

/// Answers every request with one status and body.
struct FixedHttp(u16, &'static str);

impl HttpClient for FixedHttp {
    fn post_json(
        &self,
        _url: &str,
        _headers: &[(&str, &str)],
        _body: &str,
    ) -> Result<HttpResponse> {
        Ok(HttpResponse {
            status: self.0,
            body: self.1.to_string(),
            retry_after: None,
        })
    }

    fn post_json_with_attempts(
        &self,
        url: &str,
        headers: &[(&str, &str)],
        body: &str,
    ) -> HttpCall {
        HttpCall::new(self.post_json(url, headers, body), 1)
    }

    fn pause(&self, _nanos: u128) -> Option<InterruptSignal> {
        None
    }
}

#[test]
fn plain_text_success_writes_only_the_raw_reply_body() {
    let http = FixedHttp(
        200,
        r#"{"content":[{"type":"text","text":"hi there"}],"stop_reason":"end_turn"}"#,
    );
    let output = exchange(ClaudeClient::with_http(config(), http), "hello");
    assert!(output.result.is_ok());
    assert_eq!(output.text, "hi there\n");
}

#[test]
fn plain_text_provider_failure_leaves_stdout_empty_for_batons_machinery_error_path() {
    let http = FixedHttp(
        401,
        r#"{"error":{"type":"authentication_error","message":"invalid x-api-key"}}"#,
    );
    let output = exchange(ClaudeClient::with_http(config(), http), "hello");
    assert!(output.text.is_empty());
    let diagnostic = output.result.unwrap_err().to_string();
    assert!(
        diagnostic.contains("invalid x-api-key"),
        "the diagnostic must still be observable; got {diagnostic:?}"
    );
}

/// A provider whose signal arrives while a tool runs.
struct SignalledTransport {
    inner: CapturingTransport,
    raised: Rc<Cell<bool>>,
    signal: InterruptSignal,
}

impl Transport for SignalledTransport {
    fn send_conversation(&self, messages: &[Message]) -> Result<AssistantReply> {
        self.inner.send_conversation(messages)
    }

    fn interrupted(&self) -> Option<InterruptSignal> {
        self.raised.get().then_some(self.signal)
    }

    fn send_conversation_with_attempts(
        &self,
        messages: &[Message],
    ) -> TransportCall<AssistantReply> {
        TransportCall::new(self.send_conversation(messages), 1)
    }

    fn send_observed<O: ToolObserver>(
        &self,
        messages: &[Message],
        _observer: &mut O,
    ) -> TransportCall<AssistantReply> {
        self.send_conversation_with_attempts(messages)
    }
}

struct RaisingTool(Rc<Cell<bool>>);

impl ToolHandler for RaisingTool {
    fn call(&self, _input: &Json) -> std::result::Result<String, String> {
        self.0.set(true);
        Ok("unfinished".to_string())
    }
}

fn assert_exchange_interrupt(signal: InterruptSignal, exit_code: u8, signal_name: &str) {
    let raised = Rc::new(Cell::new(false));
    let mut registry = ToolRegistry::new();
    registry.register(
        ToolSpec::new("bash", "Run.", json(r#"{"type": "object"}"#)),
        Box::new(RaisingTool(raised.clone())),
    );
    let transport = SignalledTransport {
        inner: CapturingTransport::new(vec![tool_use_reply("toolu_1", "bash")]),
        raised,
        signal,
    };
    let tool_loop = ToolLoop::new(transport, registry, None);
    let mut participant = LocalParticipant::new(tool_loop, meta());
    let mut trail = Trail::new(WriterSink::new(Vec::new()));
    let output = execute_exchange_core(
        &mut participant,
        &mut trail,
        &meta(),
        &envelope().to_text(),
        None,
    );

    assert!(output.text.is_empty(), "interrupted exchange wrote stdout");
    match output.result {
        Err(LegError::Interrupted { signal: raised }) => {
            assert_eq!(raised.exit_code(), exit_code)
        }
        other => panic!("expected an interruption, got {other:?}"),
    }
    assert_eq!(participant.transport.transport.inner.calls.borrow().len(), 1);

    let text = String::from_utf8(trail.sink.writer).unwrap();
    let events: Vec<serde_json::Value> = text
        .lines()
        .map(|line| serde_json::from_str(line).unwrap())
        .collect();
    let outcome = events.last().expect("interrupted outcome event");
    assert_eq!(outcome["event"], "response_error");
    assert_eq!(outcome["kind"], "interrupted");
    let tool_result = events
        .iter()
        .find(|event| event["event"] == "tool_result")
        .expect("interrupted bash result");
    assert_eq!(tool_result["status"], "failed");
    assert!(tool_result["error"]
        .as_str()
        .expect("tool error")
        .contains(&format!("interrupted by {signal_name}")));
}

#[test]
fn sigterm_stops_bash_and_records_interrupted_outcome() {
    assert_exchange_interrupt(InterruptSignal::Terminate, 143, "SIGTERM");
}

#[test]
fn sigint_stops_bash_and_records_interrupted_outcome() {
    assert_exchange_interrupt(InterruptSignal::Interrupt, 130, "SIGINT");
}

#[test]
fn an_event_log_is_off_or_holds_the_lines() {
    let event = ExchangeEvent::request(1, &meta(), "hello");
    let mut off: EventLog<Vec<u8>> = EventLog::Off(NoopSink::new());
    assert!(off.record(&event).is_ok());
    let mut log = EventLog::Lines(WriterSink::new(Vec::new()));
    assert!(log.record(&event).is_ok());
    assert!(log.record(&event).is_ok());
    match log {
        EventLog::Lines(sink) => {
            let line = format!("{}\n", event.to_line());
            assert_eq!(String::from_utf8(sink.writer).unwrap(), format!("{line}{line}"));
        }
        EventLog::Off(_) => panic!("the log was on"),
    }
    let mut broken = EventLog::Lines(WriterSink::new(FullDisk));
    assert_eq!(broken.record(&event), Err("disk full".to_string()));
}

#[test]
fn only_the_first_failure_is_noted_and_every_loss_is_a_warning() {
    let mut noted = None;
    note_failure(&mut noted, &Ok(()));
    assert_eq!(noted, None);
    note_failure(&mut noted, &Err("first".to_string()));
    note_failure(&mut noted, &Err("second".to_string()));
    assert_eq!(noted.as_deref(), Some("first"));

    let mut warnings = vec!["earlier".to_string()];
    warn_of_loss(&mut warnings, Ok(()));
    assert_eq!(warnings, ["earlier"]);
    warn_of_loss(&mut warnings, Err("disk full".to_string()));
    assert_eq!(
        warnings,
        ["earlier", "warning: failed to record exchange event: disk full"]
    );
}

#[test]
fn a_signal_overrides_the_result_of_a_turn() {
    let kept: Result<u8> = unless_interrupted(Ok(7), None);
    assert_eq!(kept.unwrap(), 7);
    let cut: Result<u8> = unless_interrupted(Ok(7), Some(InterruptSignal::Terminate));
    assert_eq!(cut.unwrap_err().to_string(), "interrupted by SIGTERM");
}

#[test]
fn exchange_event_log_write_failure_warns_without_changing_the_reply() {
    let transport = CapturingTransport::new(vec![AssistantReply::new("hi there")]);
    let mut participant = LocalParticipant::new(looped(&transport), meta());
    let mut trail = Trail::new(EventLog::Lines(WriterSink::new(FullDisk)));
    let output = execute_exchange_core(&mut participant, &mut trail, &meta(), "hello", None);
    assert!(output.result.is_ok(), "log write failure changed the result");
    assert_eq!(output.text, "hi there\n");
    assert_eq!(trail.warnings.len(), 2);
    assert!(trail.warnings[0].contains("warning: failed to record exchange event"));
}
