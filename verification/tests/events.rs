use leg::error::LegError;
use leg::events::{whole_millis, ExchangeEvent, ExchangeMeta, ToolEvent, ToolStatus, SCHEMA};
use leg::json::{parse_json, Json};
use leg::model::ContentBlock;
use leg::sink::{EventSink, NoopSink, WriterSink};
use serde_json::Value;

fn meta() -> ExchangeMeta {
    ExchangeMeta {
        model: "test-model".to_string(),
        base_url: "https://api.anthropic.com".to_string(),
    }
}

fn json(text: &str) -> Json {
    parse_json(text).expect("json")
}

fn parsed_value(text: &str) -> Value {
    serde_json::from_str(text).expect("json")
}

fn value_of(event: &ExchangeEvent) -> Value {
    serde_json::from_str(&event.to_line()).expect("serializes")
}

#[test]
fn request_event_serializes_with_schema_and_replay_fields() {
    let event = ExchangeEvent::request(1_700_000_000_000, &meta(), "hello");
    let value: Value = value_of(&event);
    assert_eq!(value["event"], "request");
    assert_eq!(value["schema"], SCHEMA);
    assert_eq!(value["ts_ms"], 1_700_000_000_000u64);
    assert_eq!(value["model"], "test-model");
    assert_eq!(value["base_url"], "https://api.anthropic.com");
    assert_eq!(value["prompt"], "hello");
    assert!(value.get("session_id").is_none());
    assert!(value.get("turn_index").is_none());
}

#[test]
fn session_request_event_carries_session_framing() {
    let event = ExchangeEvent::session_request(1, &meta(), "hi", "sess-1", 2);
    let value: Value = value_of(&event);
    assert_eq!(value["session_id"], "sess-1");
    assert_eq!(value["turn_index"], 2);
}

#[test]
fn response_ok_event_omits_absent_optional_fields() {
    let event = ExchangeEvent::response_ok(1, 2, "hi", None, None, None);
    let value: Value = value_of(&event);
    assert_eq!(value["event"], "response_ok");
    assert!(value.get("input_tokens").is_none());
    assert!(value.get("output_tokens").is_none());
    assert!(value.get("stop_reason").is_none());
    assert!(value.get("session_id").is_none());
}

#[test]
fn session_start_and_end_serialize_with_session_id() {
    let start = ExchangeEvent::session_start(1, "sess-1");
    let value: Value = value_of(&start);
    assert_eq!(value["event"], "session_start");
    assert_eq!(value["session_id"], "sess-1");

    let end = ExchangeEvent::session_end(2, "sess-1", 3);
    let value: Value = value_of(&end);
    assert_eq!(value["event"], "session_end");
    assert_eq!(value["turns"], 3);
}

#[test]
fn response_error_event_serializes_kind_and_message() {
    let err = LegError::Auth("bad credentials".to_string());
    let event = ExchangeEvent::response_error(1, 2, &err);
    let value: Value = value_of(&event);
    assert_eq!(value["event"], "response_error");
    assert_eq!(value["kind"], "auth");
    assert_eq!(value["message"], err.to_string());
}

#[test]
fn writer_sink_writes_one_json_line_per_event() {
    let mut sink = WriterSink::new(Vec::new());
    sink.record(&ExchangeEvent::request(1, &meta(), "hello"))
        .expect("records");
    sink.record(&ExchangeEvent::response_ok(2, 1, "hi", None, None, None))
        .expect("records");
    let text = String::from_utf8(sink.writer).expect("utf8");
    let lines: Vec<&str> = text.lines().collect();
    assert_eq!(lines.len(), 2);
    let first: Value = serde_json::from_str(lines[0]).expect("json");
    assert_eq!(first["event"], "request");
    let second: Value = serde_json::from_str(lines[1]).expect("json");
    assert_eq!(second["event"], "response_ok");
}

#[test]
fn tool_round_event_serializes_its_field_names() {
    let content = [
        ContentBlock::text("calling"),
        ContentBlock::ToolUse {
            id: "toolu_1".to_string(),
            name: "echo".to_string(),
            input: json(r#"{"text": "hi"}"#),
        },
    ];
    let event = ExchangeEvent::from_tool_event(
        4,
        ToolEvent::Round { content: &content },
        Some(("sess-1", 3)),
    );
    assert_eq!(
        value_of(&event),
        parsed_value(r#"{ "event": "tool_round", "schema": "baton.exchange/v1", "ts_ms": 4, "content": [ {"type": "text", "text": "calling"}, {"type": "tool_use", "id": "toolu_1", "name": "echo", "input": {"text": "hi"}}], "session_id": "sess-1", "turn_index": 3}"#)
    );
}

#[test]
fn tool_call_event_serializes_its_field_names() {
    let input = json(r#"{"text": "hi"}"#);
    let event = ExchangeEvent::from_tool_event(
        5,
        ToolEvent::Call {
            id: "toolu_1",
            name: "echo",
            input: &input,
        },
        None,
    );
    let value: Value = value_of(&event);
    assert_eq!(
        value,
        parsed_value(r#"{ "event": "tool_call", "schema": "baton.exchange/v1", "ts_ms": 5, "tool_use_id": "toolu_1", "tool_name": "echo", "input": {"text": "hi"}}"#)
    );
}

#[test]
fn tool_result_event_serializes_completed_failed_and_denied_payloads() {
    let ok = ExchangeEvent::from_tool_event(
        6,
        ToolEvent::Result {
            id: "toolu_1",
            name: "echo",
            output: "echo: hi",
            status: ToolStatus::Completed,
        },
        Some(("sess-1", 2)),
    );
    assert_eq!(
        value_of(&ok),
        parsed_value(r#"{ "event": "tool_result", "schema": "baton.exchange/v1", "ts_ms": 6, "tool_use_id": "toolu_1", "tool_name": "echo", "status": "completed", "result": "echo: hi", "session_id": "sess-1", "turn_index": 2}"#)
    );

    let failed = ExchangeEvent::from_tool_event(
        7,
        ToolEvent::Result {
            id: "toolu_2",
            name: "missing",
            output: "unknown tool: missing",
            status: ToolStatus::Failed,
        },
        None,
    );
    assert_eq!(
        value_of(&failed),
        parsed_value(r#"{ "event": "tool_result", "schema": "baton.exchange/v1", "ts_ms": 7, "tool_use_id": "toolu_2", "tool_name": "missing", "status": "failed", "error": "unknown tool: missing"}"#)
    );

    let denied = ExchangeEvent::from_tool_event(
        8,
        ToolEvent::Result {
            id: "toolu_3",
            name: "bash",
            output: "denied by pre-tool hook: role policy",
            status: ToolStatus::Denied,
        },
        None,
    );
    assert_eq!(
        value_of(&denied),
        parsed_value(r#"{ "event": "tool_result", "schema": "baton.exchange/v1", "ts_ms": 8, "tool_use_id": "toolu_3", "tool_name": "bash", "status": "denied", "error": "denied by pre-tool hook: role policy"}"#)
    );
}

#[test]
fn noop_sink_discards_events() {
    let mut sink = NoopSink::new();
    sink.record(&ExchangeEvent::request(1, &meta(), "hello"))
        .expect("noop never fails");
}

#[test]
fn a_clock_reading_is_cut_to_whole_milliseconds() {
    assert_eq!(whole_millis(1_700_000_000_123_456_789), 1_700_000_000_123);
    assert_eq!(whole_millis(999_999), 0);
    assert_eq!(whole_millis((u128::from(u64::MAX) + 2) * 1_000_000), 1);
}
