use leg::error::LegError;
use leg::events::{Exchange, ExchangeEvent, ExchangeMeta, Outcome, RequestRecord};
use leg::log::{format_exchange, parse_jsonl, parse_sessions};

fn meta() -> ExchangeMeta {
    ExchangeMeta {
        model: "m".to_string(),
        base_url: "u".to_string(),
    }
}

fn line(event: &ExchangeEvent) -> String {
    format!("{}\n", event.to_line())
}

#[test]
fn parses_valid_two_line_exchange() {
    let log = [
        r#"{"event":"request","schema":"baton.exchange/v1","ts_ms":1700000000000,"model":"sonnet-4-6","base_url":"https://api.anthropic.com","prompt":"hello"}"#,
        "\n",
        r#"{"event":"response_ok","schema":"baton.exchange/v1","ts_ms":1700000000420,"duration_ms":418,"reply":"hi there"}"#,
        "\n",
    ].concat();
    let exchanges = parse_jsonl(log.as_bytes()).expect("parses").exchanges;
    assert_eq!(exchanges.len(), 1);
    assert_eq!(exchanges[0].request.prompt, "hello");
    match &exchanges[0].outcome {
        Outcome::Success { reply, .. } => assert_eq!(reply, "hi there"),
        other => panic!("expected Ok outcome, got {other:?}"),
    }
}

#[test]
fn ask_exchange_is_byte_compatible_with_batons_trail_fixture() {
    let request_line = [
        r#"{"event":"request","schema":"baton.exchange/v1","ts_ms":1700000000000,"#,
        r#""model":"sonnet-4-6","base_url":"https://api.anthropic.com","prompt":"hello"}"#,
    ].concat();
    let response_line = [
        r#"{"event":"response_ok","schema":"baton.exchange/v1","ts_ms":1700000000420,"#,
        r#""duration_ms":418,"reply":"hi there"}"#,
    ].concat();
    let log = format!("{request_line}\n{response_line}\n");

    let exchanges = parse_jsonl(log.as_bytes())
        .expect("parses")
        .exchanges;
    assert_eq!(
        exchanges[0],
        Exchange {
            request: RequestRecord {
                ts_ms: 1_700_000_000_000,
                model: "sonnet-4-6".to_string(),
                base_url: "https://api.anthropic.com".to_string(),
                prompt: "hello".to_string(),
                content: None,
                session_id: None,
                turn_index: None,
            },
            outcome: Outcome::Success {
                ts_ms: 1_700_000_000_420,
                duration_ms: 418,
                reply: "hi there".to_string(),
                content: None,
                input_tokens: None,
                output_tokens: None,
                stop_reason: None,
                session_id: None,
                turn_index: None,
            },
        }
    );

    let request_meta = ExchangeMeta {
        model: "sonnet-4-6".to_string(),
        base_url: "https://api.anthropic.com".to_string(),
    };
    let request_event =
        ExchangeEvent::request(1_700_000_000_000, &request_meta, "hello");
    assert_eq!(line(&request_event), format!("{request_line}\n"));

    let response_event = ExchangeEvent::response_ok(
        1_700_000_000_420,
        418,
        "hi there",
        None,
        None,
        None,
    );
    assert_eq!(line(&response_event), format!("{response_line}\n"));
}

#[test]
fn parses_error_outcome() {
    let log = [
        r#"{"event":"request","ts_ms":1,"model":"m","base_url":"u","prompt":"p"}"#,
        "\n",
        r#"{"event":"response_error","ts_ms":2,"duration_ms":7,"kind":"auth","message":"bad api key"}"#,
        "\n",
    ].concat();
    let exchanges = parse_jsonl(log.as_bytes()).expect("parses").exchanges;
    assert_eq!(exchanges.len(), 1);
    match &exchanges[0].outcome {
        Outcome::Error { kind, message, .. } => {
            assert_eq!(kind, "auth");
            assert_eq!(message, "bad api key");
        }
        other => panic!("expected Error outcome, got {other:?}"),
    }
}

#[test]
fn unknown_event_tags_are_skipped() {
    let log = [
        r#"{"event":"heartbeat","ts_ms":1}"#,
        "\n",
        r#"{"event":"request","ts_ms":1,"model":"m","base_url":"u","prompt":"p"}"#,
        "\n",
        r#"{"event":"response_ok","ts_ms":2,"duration_ms":1,"reply":"r"}"#,
        "\n",
    ].concat();
    let exchanges = parse_jsonl(log.as_bytes()).expect("parses").exchanges;
    assert_eq!(exchanges.len(), 1);
}

#[test]
fn malformed_json_line_is_a_parse_error() {
    let log = [
        r#"{"event":"request","ts_ms":1,"model":"m","base_url":"u","prompt":"p"}"#,
        "\n",
        "<<<not json at all>>>\n",
    ].concat();
    match parse_jsonl(log.as_bytes()).unwrap_err() {
        LegError::Log(msg) => assert!(msg.contains("line 2"), "got: {msg}"),
        other => panic!("expected Log, got {other:?}"),
    }
}

#[test]
fn trailing_partial_line_is_tolerated() {
    let log = [
        r#"{"event":"request","ts_ms":1,"model":"m","base_url":"u","prompt":"p"}"#,
        "\n",
        r#"{"event":"response_ok","ts_ms":2,"duration_ms":1,"reply":"r"}"#,
        "\n",
        r#"{"event":"request","ts_ms":3,"model":"m","base_url":"u","prom"#,
    ].concat();
    let report = parse_jsonl(log.as_bytes()).expect("tolerates trailing partial");
    assert_eq!(report.exchanges.len(), 1);
    assert_eq!(report.warnings.len(), 1);
    assert!(
        report.warnings[0].contains("line 3"),
        "{}",
        report.warnings[0]
    );
}

#[test]
fn dangling_outcome_with_no_pending_request_is_warned() {
    let log = [
        r#"{"event":"response_ok","ts_ms":2,"duration_ms":1,"reply":"r"}"#,
        "\n",
    ].concat();
    let report = parse_jsonl(log.as_bytes()).expect("parses");
    assert_eq!(report.exchanges.len(), 0);
    assert_eq!(report.warnings.len(), 1);
}

#[test]
fn trailing_request_with_no_outcome_is_not_yielded() {
    let log = [
        r#"{"event":"request","ts_ms":1,"model":"m","base_url":"u","prompt":"p"}"#,
        "\n",
    ].concat();
    let exchanges = parse_jsonl(log.as_bytes()).expect("parses").exchanges;
    assert_eq!(exchanges.len(), 0);
}

#[test]
fn parse_sessions_partitions_by_session_id_and_pairs_turns() {
    let meta = meta();
    let trail = [
        line(&ExchangeEvent::session_start(1, "sess-1")),
        line(&ExchangeEvent::session_request(
            2, &meta, "hi", "sess-1", 0,
        )),
        line(&ExchangeEvent::session_response_ok(
            3, 1, "hello", None, None, None, "sess-1", 0,
        )),
        line(&ExchangeEvent::session_end(4, "sess-1", 1)),
    ]
    .concat();

    let report = parse_sessions(trail.as_bytes()).expect("parses");
    assert_eq!(report.sessions.len(), 1);
    let session = &report.sessions[0];
    assert_eq!(session.session_id, "sess-1");
    assert!(session.started);
    assert!(session.ended);
    assert_eq!(session.declared_turns, Some(1));
    assert_eq!(session.turns.len(), 1);
    assert_eq!(session.turns[0].request.prompt, "hi");
    match &session.turns[0].outcome {
        Some(Outcome::Success { reply, .. }) => assert_eq!(reply, "hello"),
        other => panic!("expected Ok outcome, got {other:?}"),
    }
}

#[test]
fn parse_sessions_skips_sessionless_ask_lines() {
    let meta = meta();
    let trail = [
        line(&ExchangeEvent::request(
            1,
            &meta,
            "ask prompt",
        )),
        line(&ExchangeEvent::response_ok(
            2,
            1,
            "ask reply",
            None,
            None,
            None,
        )),
    ]
    .concat();

    let report = parse_sessions(trail.as_bytes()).expect("parses");
    assert_eq!(report.sessions.len(), 0);
}

#[test]
fn parse_sessions_leaves_torn_turn_outcome_none() {
    let trail = [
        r#"{"event":"session_start","ts_ms":1,"session_id":"sess-1"}"#,
        "\n",
        r#"{"event":"request","ts_ms":2,"model":"m","base_url":"u","prompt":"hi","session_id":"sess-1","turn_index":0}"#,
        "\n",
    ].concat();
    let report = parse_sessions(trail.as_bytes()).expect("parses");
    assert_eq!(report.sessions.len(), 1);
    assert!(!report.sessions[0].ended);
    assert_eq!(report.sessions[0].turns.len(), 1);
    assert_eq!(report.sessions[0].turns[0].outcome, None);
}

#[test]
fn format_exchange_renders_ok_and_error_blocks() {
    let ok = Exchange {
        request: RequestRecord {
            ts_ms: 1_700_000_000_000,
            model: "sonnet-4-6".to_string(),
            base_url: "https://api.anthropic.com".to_string(),
            prompt: "hello".to_string(),
            content: None,
            session_id: None,
            turn_index: None,
        },
        outcome: Outcome::Success {
            ts_ms: 1_700_000_000_420,
            duration_ms: 418,
            reply: "hi there".to_string(),
            content: None,
            input_tokens: Some(12),
            output_tokens: Some(34),
            stop_reason: None,
            session_id: None,
            turn_index: None,
        },
    };
    let rendered = format_exchange(1, &ok);
    assert!(rendered.contains("#1"));
    assert!(rendered.contains("hello"));
    assert!(rendered.contains("hi there"));
    assert!(rendered.contains("12 in, 34 out"));
}
