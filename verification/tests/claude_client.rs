use std::cell::{Cell, RefCell};
use std::collections::VecDeque;
use std::rc::Rc;

use leg::config::{Credential, LegConfig, DEFAULT_MAX_TOKENS};
use leg::error::{InterruptSignal, LegError, Result};
use leg::events::{ExchangeMeta, Outcome};
use leg::json::{parse_json, Json};
use leg::message::{MessageEnvelope, MessageKind};
use leg::model::{
    ContentBlock, ImageSource, Message, Prompt, Role, StopReason, ToolSpec,
};
use leg::participant::{LocalParticipant, Participant};
use leg::tools::{ToolHandler, ToolLoop, ToolRegistry};
use leg::transport::claude::{build_request_body, ClaudeClient, ANTHROPIC_VERSION};
use leg::transport::http::{HttpCall, HttpClient, HttpResponse};
use leg::transport::{RetryPolicy, RetryingHttpClient, Transport};

fn json(text: &str) -> Json {
    parse_json(text).expect("json")
}

fn value(text: &str) -> serde_json::Value {
    serde_json::from_str(text).expect("json")
}

struct FakeHttp {
    status: u16,
    body: String,
    last_url: RefCell<Option<String>>,
    last_headers: RefCell<Vec<(String, String)>>,
    last_body: RefCell<Option<String>>,
}

impl FakeHttp {
    fn new(status: u16, body: &str) -> Self {
        Self {
            status,
            body: body.to_string(),
            last_url: RefCell::new(None),
            last_headers: RefCell::new(Vec::new()),
            last_body: RefCell::new(None),
        }
    }
}

impl HttpClient for FakeHttp {
    fn post_json(&self, url: &str, headers: &[(&str, &str)], body: &str) -> Result<HttpResponse> {
        *self.last_url.borrow_mut() = Some(url.to_string());
        *self.last_headers.borrow_mut() = headers
            .iter()
            .map(|(k, v)| (k.to_string(), v.to_string()))
            .collect();
        *self.last_body.borrow_mut() = Some(body.to_string());
        Ok(HttpResponse {
            status: self.status,
            body: self.body.clone(),
            retry_after: None,
        })
    }

    fn post_json_with_attempts(
        &self,
        url: &str,
        headers: &[(&str, &str)],
        body: &str,
    ) -> HttpCall {
        HttpCall::new(self.post_json(url, headers, body), 1)
    }

    fn pause(&self, _nanos: u128) -> Option<InterruptSignal> {
        None
    }
}

struct ScriptedHttp {
    responses: RefCell<VecDeque<(u16, String)>>,
    calls: Rc<Cell<usize>>,
}

impl ScriptedHttp {
    fn new(responses: Vec<(u16, String)>, calls: Rc<Cell<usize>>) -> Self {
        Self {
            responses: RefCell::new(responses.into()),
            calls,
        }
    }
}

impl HttpClient for ScriptedHttp {
    fn post_json(
        &self,
        _url: &str,
        _headers: &[(&str, &str)],
        _body: &str,
    ) -> Result<HttpResponse> {
        self.calls.set(self.calls.get() + 1);
        let Some((status, body)) = self.responses.borrow_mut().pop_front() else {
            return Err(LegError::Transport(
                "scripted HTTP response queue exhausted".to_string(),
            ));
        };
        Ok(HttpResponse {
            status,
            body,
            retry_after: None,
        })
    }

    fn post_json_with_attempts(
        &self,
        url: &str,
        headers: &[(&str, &str)],
        body: &str,
    ) -> HttpCall {
        HttpCall::new(self.post_json(url, headers, body), 1)
    }

    fn pause(&self, _nanos: u128) -> Option<InterruptSignal> {
        None
    }
}

struct FailingHttp;

impl HttpClient for FailingHttp {
    fn post_json(
        &self,
        _url: &str,
        _headers: &[(&str, &str)],
        _body: &str,
    ) -> Result<HttpResponse> {
        Err(LegError::Transport("connection timed out".to_string()))
    }

    fn post_json_with_attempts(
        &self,
        url: &str,
        headers: &[(&str, &str)],
        body: &str,
    ) -> HttpCall {
        HttpCall::new(self.post_json(url, headers, body), 1)
    }

    fn pause(&self, _nanos: u128) -> Option<InterruptSignal> {
        None
    }
}

struct EchoTool(Rc<Cell<usize>>);

impl ToolHandler for EchoTool {
    fn call(&self, input: &Json) -> std::result::Result<String, String> {
        self.0.set(self.0.get() + 1);
        let text = input.get("text").and_then(|text| text.as_text()).unwrap_or("");
        Ok(format!("echo: {text}"))
    }
}

fn echo_registry(count: Rc<Cell<usize>>) -> ToolRegistry {
    let mut registry = ToolRegistry::new();
    registry.register(
        ToolSpec::new("echo", "Echo text.", json(r#"{"type": "object"}"#)),
        Box::new(EchoTool(count)),
    );
    registry
}

fn config_with(base_url: &str, model: &str) -> LegConfig {
    config_with_credential(
        base_url,
        model,
        Credential::ApiKey("secret-key".to_string()),
    )
}

fn config_with_credential(base_url: &str, model: &str, credential: Credential) -> LegConfig {
    LegConfig {
        credential,
        base_url: base_url.to_string(),
        model: model.to_string(),
        timeout_secs: 60,
        max_tokens: DEFAULT_MAX_TOKENS,
        max_tool_rounds: None,
        system_prompt: None,
        bash_timeout_secs: 120,
        pre_tool_hook: None,
        max_retries: 0,
        retry_base_delay_ms: 0,
    }
}

const SUCCESS_BODY: &str = r#"{
    "id": "msg_1",
    "type": "message",
    "role": "assistant",
    "content": [{"type": "text", "text": "Hello there"}],
    "stop_reason": "end_turn"
}"#;

#[test]
fn extracts_assistant_text_from_valid_response() {
    let client = ClaudeClient::with_http(
        config_with("https://api.anthropic.com", "sonnet-4-6"),
        FakeHttp::new(200, SUCCESS_BODY),
    );
    let reply = client.send(&Prompt::new("hi")).expect("should succeed");
    assert_eq!(reply.text, "Hello there");
    assert_eq!(reply.stop_reason, Some(StopReason::EndTurn));
}

#[test]
fn decodes_max_tokens_stop_reason_without_rejecting_reply() {
    let body = r#"{
        "content": [{"type": "text", "text": "unfinished"}],
        "stop_reason": "max_tokens"
    }"#;
    let client = ClaudeClient::with_http(
        config_with("https://api.anthropic.com", "sonnet-4-6"),
        FakeHttp::new(200, body),
    );

    let reply = client.send(&Prompt::new("hi")).expect("should succeed");

    assert_eq!(reply.text, "unfinished");
    assert_eq!(reply.stop_reason, Some(StopReason::MaxTokens));
}

#[test]
fn success_without_stop_reason_remains_backward_compatible() {
    let body = r#"{
        "content": [{"type": "text", "text": "complete enough"}]
    }"#;
    let client = ClaudeClient::with_http(
        config_with("https://api.anthropic.com", "sonnet-4-6"),
        FakeHttp::new(200, body),
    );

    let reply = client.send(&Prompt::new("hi")).expect("should succeed");

    assert_eq!(reply.text, "complete enough");
    assert_eq!(reply.stop_reason, None);
}

#[test]
fn decodes_token_usage_from_response() {
    let body = r#"{
        "content": [{"type": "text", "text": "hi"}],
        "usage": {"input_tokens": 12, "output_tokens": 34}
    }"#;
    let client = ClaudeClient::with_http(
        config_with("https://api.anthropic.com", "sonnet-4-6"),
        FakeHttp::new(200, body),
    );
    let reply = client.send(&Prompt::new("hi")).expect("should succeed");
    assert_eq!(reply.usage.input_tokens, Some(12));
    assert_eq!(reply.usage.output_tokens, Some(34));
}

#[test]
fn success_without_usage_block_records_absent_tokens() {
    // SUCCESS_BODY carries no `usage`: the reply still succeeds and usage is
    // recorded as unknown (None), never a decode error.
    let client = ClaudeClient::with_http(
        config_with("https://api.anthropic.com", "sonnet-4-6"),
        FakeHttp::new(200, SUCCESS_BODY),
    );
    let reply = client.send(&Prompt::new("hi")).expect("should succeed");
    assert_eq!(reply.text, "Hello there");
    assert_eq!(reply.usage.input_tokens, None);
    assert_eq!(reply.usage.output_tokens, None);
}

#[test]
fn partial_usage_block_records_present_field_only() {
    let body = r#"{
        "content": [{"type": "text", "text": "hi"}],
        "usage": {"input_tokens": 7}
    }"#;
    let client = ClaudeClient::with_http(
        config_with("https://api.anthropic.com", "sonnet-4-6"),
        FakeHttp::new(200, body),
    );
    let reply = client.send(&Prompt::new("hi")).expect("should succeed");
    assert_eq!(reply.usage.input_tokens, Some(7));
    assert_eq!(reply.usage.output_tokens, None);
}

#[test]
fn keeps_text_and_tool_use_blocks_in_order() {
    let body = r#"{
        "content": [
            {"type": "text", "text": "part one "},
            {"type": "tool_use", "id": "t1", "name": "x", "input": {}},
            {"type": "text", "text": "part two"}
        ]
    }"#;
    let client = ClaudeClient::with_http(
        config_with("https://api.anthropic.com", "opus-4-8"),
        FakeHttp::new(200, body),
    );
    let reply = client.send(&Prompt::new("hi")).expect("should succeed");
    assert_eq!(reply.text, "part one part two");
    assert_eq!(
        reply.content,
        vec![
            ContentBlock::text("part one "),
            ContentBlock::ToolUse {
                id: "t1".to_string(),
                name: "x".to_string(),
                input: json(r#"{}"#),
            },
            ContentBlock::text("part two"),
        ]
    );
}

#[test]
fn skips_unknown_block_types() {
    let body = r#"{
        "content": [
            {"type": "thinking", "thinking": "hmm", "signature": "s"},
            {"type": "text", "text": "answer"}
        ]
    }"#;
    let client = ClaudeClient::with_http(
        config_with("https://api.anthropic.com", "sonnet-4-6"),
        FakeHttp::new(200, body),
    );
    let reply = client.send(&Prompt::new("hi")).expect("should succeed");
    assert_eq!(reply.content, vec![ContentBlock::text("answer")]);
}

#[test]
fn malformed_tool_use_block_is_decode_error() {
    let body = r#"{"content": [{"type": "tool_use", "name": "x"}]}"#;
    let client = ClaudeClient::with_http(
        config_with("https://api.anthropic.com", "sonnet-4-6"),
        FakeHttp::new(200, body),
    );
    assert!(matches!(
        client.send(&Prompt::new("hi")).unwrap_err(),
        LegError::Decode(_)
    ));
}

#[test]
fn tool_result_follow_up_serializes_block_arrays() {
    let tool_use = ContentBlock::ToolUse {
        id: "toolu_1".to_string(),
        name: "read".to_string(),
        input: json(r#"{"path": "a.txt"}"#),
    };
    let history = [
        Message::user("read a.txt"),
        Message::new(Role::Assistant, vec![tool_use]),
        Message::new(
            Role::User,
            vec![ContentBlock::ToolResult {
                tool_use_id: "toolu_1".to_string(),
                content: "hello".to_string(),
                is_error: Some(false),
            }],
        ),
    ];
    let body = build_request_body("m", 16, &history, None, &[]).expect("serializes");
    assert_eq!(
        body,
        [
            r#"{"model":"m","max_tokens":16,"messages":["#,
            r#"{"role":"user","content":"read a.txt"},"#,
            r#"{"role":"assistant","content":[{"type":"tool_use","id":"toolu_1","name":"read","input":{"path":"a.txt"}}]},"#,
            r#"{"role":"user","content":[{"type":"tool_result","tool_use_id":"toolu_1","content":"hello","is_error":false}]}"#,
            r#"]}"#,
        ].concat()
    );
}

#[test]
fn request_uses_configured_endpoint_model_key_and_version() {
    let http = FakeHttp::new(200, SUCCESS_BODY);
    // Trailing slash on the base URL must not double up in the path.
    let client = ClaudeClient::with_http(
        config_with("https://proxy.example/", "test-model"),
        http,
    );
    client
        .send(&Prompt::new("hello world"))
        .expect("should succeed");

    let FakeHttp {
        last_url,
        last_headers,
        last_body,
        ..
    } = &client.http;
    assert_eq!(
        last_url.borrow().as_deref(),
        Some("https://proxy.example/v1/messages")
    );

    let headers = last_headers.borrow();
    assert!(headers.contains(&("x-api-key".to_string(), "secret-key".to_string())));
    assert!(headers.contains(&(
        "anthropic-version".to_string(),
        ANTHROPIC_VERSION.to_string()
    )));

    let sent = last_body.borrow();
    let sent_value: serde_json::Value =
        serde_json::from_str(sent.as_deref().unwrap()).expect("body is json");
    assert_eq!(sent_value["model"], "test-model");
    assert_eq!(sent_value["max_tokens"], DEFAULT_MAX_TOKENS);
    assert_eq!(sent_value["messages"][0]["role"], "user");
    assert_eq!(sent_value["messages"][0]["content"], "hello world");
}

#[test]
fn request_carries_configured_max_tokens() {
    let mut config = config_with("https://api.anthropic.com", "sonnet-4-6");
    config.max_tokens = 4096;
    let client = ClaudeClient::with_http(config, FakeHttp::new(200, SUCCESS_BODY));
    client.send(&Prompt::new("hi")).expect("should succeed");

    let sent = client.http.last_body.borrow();
    let sent_value: serde_json::Value =
        serde_json::from_str(sent.as_deref().unwrap()).expect("body is json");
    assert_eq!(sent_value["max_tokens"], 4096);
}

#[test]
fn send_conversation_serializes_full_history_in_order() {
    let client = ClaudeClient::with_http(
        config_with("https://api.anthropic.com", "sonnet-4-6"),
        FakeHttp::new(200, SUCCESS_BODY),
    );
    let history = [
        Message::user("first"),
        Message::assistant("reply one"),
        Message::user("second"),
    ];
    client.send_conversation(&history).expect("should succeed");

    let sent = client.http.last_body.borrow();
    let sent_value: serde_json::Value =
        serde_json::from_str(sent.as_deref().unwrap()).expect("body is json");
    let messages = sent_value["messages"].as_array().expect("messages is an array");
    assert_eq!(messages.len(), 3, "the full history is sent, got: {sent_value}");
    assert_eq!(messages[0]["role"], "user");
    assert_eq!(messages[0]["content"], "first");
    assert_eq!(messages[1]["role"], "assistant");
    assert_eq!(messages[1]["content"], "reply one");
    assert_eq!(messages[2]["role"], "user");
    assert_eq!(messages[2]["content"], "second");
}

#[test]
fn request_omits_system_field_when_system_prompt_is_none() {
    let http = FakeHttp::new(200, SUCCESS_BODY);
    let client = ClaudeClient::with_http(
        config_with("https://api.anthropic.com", "sonnet-4-6"),
        http,
    );
    client.send(&Prompt::new("hi")).expect("should succeed");

    let sent = client.http.last_body.borrow();
    let sent_value: serde_json::Value =
        serde_json::from_str(sent.as_deref().unwrap()).expect("body is json");
    assert!(
        sent_value.get("system").is_none(),
        "system field must be absent when system_prompt is None, got: {sent_value}"
    );
}

#[test]
fn request_includes_system_field_when_system_prompt_is_some() {
    let mut config = config_with("https://api.anthropic.com", "sonnet-4-6");
    config.system_prompt = Some("You are a terse agent.".to_string());
    let client = ClaudeClient::with_http(config, FakeHttp::new(200, SUCCESS_BODY));
    client.send(&Prompt::new("hi")).expect("should succeed");

    let sent = client.http.last_body.borrow();
    let sent_value: serde_json::Value =
        serde_json::from_str(sent.as_deref().unwrap()).expect("body is json");
    assert_eq!(sent_value["system"], "You are a terse agent.");
}

#[test]
fn text_only_request_body_is_byte_identical() {
    let body =
        build_request_body("m", 16, &[Message::user("hi")], None, &[]).expect("serializes");
    assert_eq!(
        body,
        r#"{"model":"m","max_tokens":16,"messages":[{"role":"user","content":"hi"}]}"#
    );

    let body = build_request_body("m", 16, &[Message::user("hi")], Some("sys"), &[])
        .expect("serializes");
    assert_eq!(
        body,
        r#"{"model":"m","max_tokens":16,"system":"sys","messages":[{"role":"user","content":"hi"}]}"#
    );
}

#[test]
fn request_includes_tools_when_configured() {
    let schema = json(r#"{ "type": "object", "properties": {"path": {"type": "string"}}, "required": ["path"] }"#);
    let client = ClaudeClient::with_http(
        config_with("https://api.anthropic.com", "sonnet-4-6"),
        FakeHttp::new(200, SUCCESS_BODY),
    )
    .with_tools(vec![ToolSpec::new("read", "Read a file.", schema.clone())]);
    client.send(&Prompt::new("hi")).expect("should succeed");

    let sent = client.http.last_body.borrow();
    let sent_value: serde_json::Value =
        serde_json::from_str(sent.as_deref().unwrap()).expect("body is json");
    assert_eq!(
        sent_value["tools"],
        value(
            r#"[{"name": "read", "description": "Read a file.", "input_schema": {"type": "object", "properties": {"path": {"type": "string"}}, "required": ["path"]}}]"#
        )
    );
}

#[test]
fn request_omits_tools_key_when_list_is_empty() {
    let client = ClaudeClient::with_http(
        config_with("https://api.anthropic.com", "sonnet-4-6"),
        FakeHttp::new(200, SUCCESS_BODY),
    )
    .with_tools(Vec::new());
    client.send(&Prompt::new("hi")).expect("should succeed");

    let sent = client.http.last_body.borrow();
    let sent_value: serde_json::Value =
        serde_json::from_str(sent.as_deref().unwrap()).expect("body is json");
    assert!(
        sent_value.get("tools").is_none(),
        "tools key must be absent when no tools are declared, got: {sent_value}"
    );
}

#[test]
fn request_oauth_credential_emits_bearer_header_and_no_api_key() {
    let http = FakeHttp::new(200, SUCCESS_BODY);
    let client = ClaudeClient::with_http(
        config_with_credential(
            "https://api.anthropic.com",
            "sonnet-4-6",
            Credential::OAuth("tok-123".to_string()),
        ),
        http,
    );
    client
        .send(&Prompt::new("hello world"))
        .expect("should succeed");

    let FakeHttp { last_headers, .. } = &client.http;
    let headers = last_headers.borrow();
    assert!(
        headers
            .iter()
            .any(|(k, v)| k == "Authorization" && v == "Bearer tok-123"),
        "expected `Authorization: Bearer tok-123` header, got: {headers:?}"
    );
    assert!(
        !headers
            .iter()
            .any(|(k, _)| k.eq_ignore_ascii_case("x-api-key")),
        "OAuth credential must not emit an `x-api-key` header, got: {headers:?}"
    );
    // The other pinned headers still ride along.
    assert!(headers.contains(&(
        "anthropic-version".to_string(),
        ANTHROPIC_VERSION.to_string()
    )));
    assert!(headers.contains(&("content-type".to_string(), "application/json".to_string())));
}

#[test]
fn unauthorized_maps_to_auth_error() {
    let body = r#"{"type":"error","error":{"type":"authentication_error","message":"invalid x-api-key"}}"#;
    let client = ClaudeClient::with_http(
        config_with("https://api.anthropic.com", "sonnet-4-6"),
        FakeHttp::new(401, body),
    );
    match client.send(&Prompt::new("hi")).unwrap_err() {
        LegError::Auth(msg) => {
            assert_eq!(msg, "authentication_error: invalid x-api-key")
        }
        other => panic!("expected Auth, got {other:?}"),
    }
}

#[test]
fn too_many_requests_maps_to_rate_limited() {
    let body = r#"{"type":"error","error":{"type":"rate_limit_error","message":"slow down"}}"#;
    let client = ClaudeClient::with_http(
        config_with("https://api.anthropic.com", "sonnet-4-6"),
        FakeHttp::new(429, body),
    );
    match client.send(&Prompt::new("hi")).unwrap_err() {
        LegError::RateLimited(msg) => {
            assert_eq!(msg, "rate_limit_error: slow down")
        }
        other => panic!("expected RateLimited, got {other:?}"),
    }
}

#[test]
fn rate_limit_error_type_overrides_server_status() {
    let body = r#"{"type":"error","error":{"type":"rate_limit_error","message":"Error"}}"#;
    let client = ClaudeClient::with_http(
        config_with("https://api.anthropic.com", "sonnet-4-6"),
        FakeHttp::new(503, body),
    );
    let err = client.send(&Prompt::new("hi")).unwrap_err();
    assert_eq!(err.kind(), "rate_limited");
    assert!(err.to_string().contains("rate_limit_error"));
    match err {
        LegError::RateLimited(message) => {
            assert_eq!(message, "rate_limit_error: Error")
        }
        other => panic!("expected RateLimited, got {other:?}"),
    }
}

#[test]
fn server_error_maps_to_server_variant_with_status() {
    let body = r#"{"type":"error","error":{"type":"overloaded_error","message":"overloaded"}}"#;
    let client = ClaudeClient::with_http(
        config_with("https://api.anthropic.com", "sonnet-4-6"),
        FakeHttp::new(503, body),
    );
    match client.send(&Prompt::new("hi")).unwrap_err() {
        LegError::Server {
            status,
            error_type,
            message,
        } => {
            assert_eq!(status, 503);
            assert_eq!(error_type.as_deref(), Some("overloaded_error"));
            assert_eq!(message, "overloaded");
        }
        other => panic!("expected Server, got {other:?}"),
    }
}

#[test]
fn api_error_type_on_server_status_stays_server_and_is_displayed() {
    let body = r#"{"type":"error","error":{"type":"api_error","message":"Error"}}"#;
    let client = ClaudeClient::with_http(
        config_with("https://api.anthropic.com", "sonnet-4-6"),
        FakeHttp::new(500, body),
    );
    let err = client.send(&Prompt::new("hi")).unwrap_err();
    assert_eq!(err.kind(), "server");
    assert_eq!(
        err.to_string(),
        "provider server error (500, api_error): Error"
    );
    match err {
        LegError::Server {
            status,
            error_type,
            message,
        } => {
            assert_eq!(status, 500);
            assert_eq!(error_type.as_deref(), Some("api_error"));
            assert_eq!(message, "Error");
        }
        other => panic!("expected Server, got {other:?}"),
    }
}

#[test]
fn other_status_maps_to_api_variant() {
    let body =
        r#"{"type":"error","error":{"type":"invalid_request_error","message":"bad model"}}"#;
    let client = ClaudeClient::with_http(
        config_with("https://api.anthropic.com", "sonnet-4-6"),
        FakeHttp::new(400, body),
    );
    match client.send(&Prompt::new("hi")).unwrap_err() {
        LegError::Api {
            status,
            error_type,
            message,
        } => {
            assert_eq!(status, 400);
            assert_eq!(error_type.as_deref(), Some("invalid_request_error"));
            assert_eq!(message, "bad model");
        }
        other => panic!("expected Api, got {other:?}"),
    }
}

#[test]
fn later_round_bad_request_is_delivered_without_retry() {
    const TOOL_USE_BODY: &str = r#"{
        "content": [{
            "type": "tool_use",
            "id": "toolu_1",
            "name": "echo",
            "input": {"text": "hi"}
        }],
        "stop_reason": "tool_use",
        "usage": {"input_tokens": 1, "output_tokens": 2}
    }"#;
    const ERROR_BODY: &str = r#"{
        "type": "error",
        "error": {
            "type": "invalid_request_error",
            "message": "prompt is too long"
        }
    }"#;

    let http_calls = Rc::new(Cell::new(0));
    let tool_calls = Rc::new(Cell::new(0));
    let registry = echo_registry(tool_calls.clone());
    let client = ClaudeClient::with_http(
        config_with("https://api.anthropic.com", "sonnet-4-6"),
        ScriptedHttp::new(
            vec![
                (200, TOOL_USE_BODY.to_string()),
                (400, ERROR_BODY.to_string()),
            ],
            http_calls.clone(),
        ),
    )
    .with_tools(registry.specs());
    let transport = ToolLoop::new(client, registry, None);
    let mut participant = LocalParticipant::new(
        transport,
        ExchangeMeta {
            model: "sonnet-4-6".to_string(),
            base_url: "https://api.anthropic.com".to_string(),
        },
    );
    let request = MessageEnvelope::new(
        "m-1",
        "c-1",
        "user",
        "assistant",
        MessageKind::Request,
        "hello",
        1_700_000_000_000,
    );

    let response = participant.respond(&request);

    assert_eq!(response.kind, MessageKind::Error);
    assert_eq!(
        response.body,
        "provider error (400, invalid_request_error): prompt is too long"
    );
    assert_eq!(tool_calls.get(), 1);
    assert_eq!(http_calls.get(), 2);
    match &response
        .exchange
        .expect("wrapped exchange")
        .exchange
        .outcome
    {
        Outcome::Error { kind, message, .. } => {
            assert_eq!(kind, "api");
            assert_eq!(
                message,
                "provider error (400, invalid_request_error): prompt is too long"
            );
        }
        other => panic!("expected delivered error outcome, got {other:?}"),
    }
}

#[test]
fn error_body_without_json_falls_back_to_raw_text() {
    let client = ClaudeClient::with_http(
        config_with("https://api.anthropic.com", "sonnet-4-6"),
        FakeHttp::new(502, "  upstream timeout  "),
    );
    match client.send(&Prompt::new("hi")).unwrap_err() {
        LegError::Server {
            status,
            error_type,
            message,
        } => {
            assert_eq!(status, 502);
            assert_eq!(error_type, None);
            assert_eq!(message, "upstream timeout");
        }
        other => panic!("expected Server, got {other:?}"),
    }
}

#[test]
fn malformed_success_body_is_decode_error() {
    let client = ClaudeClient::with_http(
        config_with("https://api.anthropic.com", "sonnet-4-6"),
        FakeHttp::new(200, "not json"),
    );
    assert!(matches!(
        client.send(&Prompt::new("hi")).unwrap_err(),
        LegError::Decode(_)
    ));
}

#[test]
fn tool_only_reply_parses_with_tool_use_stop_reason() {
    let body = r#"{
        "content": [{"type": "tool_use", "id": "t1", "name": "x", "input": {"a": 1}}],
        "stop_reason": "tool_use"
    }"#;
    let client = ClaudeClient::with_http(
        config_with("https://api.anthropic.com", "sonnet-4-6"),
        FakeHttp::new(200, body),
    );
    let reply = client.send(&Prompt::new("hi")).expect("should succeed");
    assert_eq!(reply.text, "");
    assert_eq!(reply.stop_reason, Some(StopReason::ToolUse));
    assert_eq!(
        reply.content,
        vec![ContentBlock::ToolUse {
            id: "t1".to_string(),
            name: "x".to_string(),
            input: json(r#"{"a": 1}"#),
        }]
    );
}

#[test]
fn success_with_no_text_or_tool_use_is_decode_error() {
    for body in [
        r#"{"content": []}"#,
        r#"{"content": [{"type": "text", "text": ""}]}"#,
        r#"{"content": [{"type": "thinking", "thinking": "hmm"}]}"#,
    ] {
        let client = ClaudeClient::with_http(
            config_with("https://api.anthropic.com", "sonnet-4-6"),
            FakeHttp::new(200, body),
        );
        assert!(
            matches!(
                client.send(&Prompt::new("hi")).unwrap_err(),
                LegError::Decode(_)
            ),
            "expected Decode for {body}"
        );
    }
}

#[test]
fn timeout_transport_error() {
    let client = ClaudeClient::with_http(
        config_with("https://api.anthropic.com", "sonnet-4-6"),
        FailingHttp,
    );
    match client.send(&Prompt::new("hi")).unwrap_err() {
        LegError::Transport(msg) => assert!(msg.contains("timed out")),
        other => panic!("expected Transport, got {other:?}"),
    }
}

#[test]
fn a_request_with_images_over_the_limit_is_not_sent() {
    let client = ClaudeClient::with_http(
        config_with("https://api.anthropic.com", "sonnet-4-6"),
        FakeHttp::new(200, SUCCESS_BODY),
    );
    let image = |size: usize| ContentBlock::Image {
        source: ImageSource::Base64 {
            media_type: "image/png".to_string(),
            data: "x".repeat(size),
        },
    };
    let call = client.send_conversation_with_attempts(&[Message::new(
        Role::User,
        vec![image(10_000_001)],
    )]);
    assert_eq!(call.attempts, 0);
    assert!(call
        .result
        .unwrap_err()
        .to_string()
        .contains("10 MB Messages API per-image limit"));
    assert!(client.http.last_body.borrow().is_none());
    let call = client
        .send_conversation_with_attempts(&[Message::new(Role::User, vec![image(10_000_000)])]);
    assert_eq!(call.attempts, 1);
    assert!(call.result.is_ok());
}

/// A client that has been told to stop.
struct StoppedHttp;

impl HttpClient for StoppedHttp {
    fn post_json(
        &self,
        _url: &str,
        _headers: &[(&str, &str)],
        _body: &str,
    ) -> Result<HttpResponse> {
        panic!("a stopped client sends nothing");
    }

    fn pause(&self, _nanos: u128) -> Option<InterruptSignal> {
        Some(InterruptSignal::Interrupt)
    }

    fn post_json_with_attempts(
        &self,
        url: &str,
        headers: &[(&str, &str)],
        body: &str,
    ) -> HttpCall {
        HttpCall::new(self.post_json(url, headers, body), 1)
    }
}

#[test]
fn a_pending_signal_is_seen_through_every_layer() {
    let http = RetryingHttpClient::new(StoppedHttp, RetryPolicy::new(2, 0));
    let client = ClaudeClient::with_http(config_with("https://api.anthropic.com", "m"), http);
    assert_eq!((&client).interrupted(), Some(InterruptSignal::Interrupt));
    let call = client.send_conversation_with_attempts(&[Message::user("hi")]);
    assert_eq!(call.result.unwrap_err().kind(), "interrupted");
    assert_eq!(call.attempts, 0);

    let tool_loop = ToolLoop::new(client, ToolRegistry::new(), None);
    assert_eq!(tool_loop.interrupted(), Some(InterruptSignal::Interrupt));
    let participant = LocalParticipant::new(
        tool_loop,
        ExchangeMeta {
            model: "m".to_string(),
            base_url: "u".to_string(),
        },
    );
    assert_eq!(participant.interrupted(), Some(InterruptSignal::Interrupt));

    let quiet = ClaudeClient::with_http(
        config_with("https://api.anthropic.com", "m"),
        FakeHttp::new(200, SUCCESS_BODY),
    );
    assert_eq!(quiet.interrupted(), None);
}
