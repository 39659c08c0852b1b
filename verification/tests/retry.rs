use std::cell::{Cell, RefCell};
use std::collections::VecDeque;
use std::time::{Duration, UNIX_EPOCH};

use leg::config::{LegConfig, Settings};
use leg::error::{InterruptSignal, LegError, Result};
use leg::events::ExchangeMeta;
use leg::json::{parse_json, Json};
use leg::model::{Prompt, ToolSpec};
use leg::session::{fresh_session, session_step, SessionStep};
use leg::sink::NoopSink;
use leg::tools::{ToolHandler, ToolLoop, ToolRegistry};
use leg::trail::Trail;
use leg::transport::claude::ClaudeClient;
use leg::transport::http::{
    is_retryable_connection_error, request_error, HttpCall, HttpClient, HttpResponse, RequestFault,
};
use leg::transport::retry::{
    deadline_delay, full_jitter, jitter, parse_retry_after, RetryPolicy, RetryingHttpClient,
    MAX_RETRY_DELAY,
};
use leg::transport::Transport;

struct ScriptedHttp {
    calls: Cell<usize>,
    results: RefCell<VecDeque<Result<HttpResponse>>>,
}

impl ScriptedHttp {
    fn new(results: Vec<Result<HttpResponse>>) -> Self {
        Self {
            calls: Cell::new(0),
            results: RefCell::new(results.into()),
        }
    }
}

impl HttpClient for ScriptedHttp {
    fn post_json(
        &self,
        _url: &str,
        _headers: &[(&str, &str)],
        _body: &str,
    ) -> Result<HttpResponse> {
        self.calls.set(self.calls.get() + 1);
        self.results
            .borrow_mut()
            .pop_front()
            .expect("scripted HTTP call")
    }

    fn post_json_with_attempts(
        &self,
        url: &str,
        headers: &[(&str, &str)],
        body: &str,
    ) -> HttpCall {
        HttpCall::new(self.post_json(url, headers, body), 1)
    }

    fn pause(&self, _nanos: u128) -> Option<InterruptSignal> {
        None
    }
}

fn response(status: u16, retry_after: Option<&str>) -> Result<HttpResponse> {
    Ok(HttpResponse {
        status,
        body: String::new(),
        retry_after: retry_after.map(str::to_string),
    })
}

fn post(client: &impl HttpClient) -> HttpCall {
    client.post_json_with_attempts("https://provider.invalid", &[], "{}")
}

#[test]
fn retries_connection_failures_and_counts_attempts() {
    let inner = ScriptedHttp::new(vec![
        Err(LegError::Transport("connection refused".to_string())),
        response(200, None),
    ]);
    let client = RetryingHttpClient::new(&inner, RetryPolicy::new(1, 0));

    let call = post(&client);

    assert_eq!(call.result.expect("retry should succeed").status, 200);
    assert_eq!(call.attempts, 2);
    assert_eq!(inner.calls.get(), 2);
}

#[test]
fn retries_only_the_eligible_statuses() {
    for status in [408, 429, 500, 502, 503, 504, 529] {
        let inner = ScriptedHttp::new(vec![response(status, Some("0")), response(200, None)]);
        let client = RetryingHttpClient::new(&inner, RetryPolicy::new(1, 0));

        let call = post(&client);

        assert_eq!(
            call.result.expect("eligible status should retry").status,
            200,
            "status {status}"
        );
        assert_eq!(call.attempts, 2, "status {status}");
        assert_eq!(inner.calls.get(), 2, "status {status}");
    }
}

#[test]
fn other_client_errors_and_response_read_failures_do_not_retry() {
    for error in [
        LegError::Api {
            status: 400,
            error_type: None,
            message: "invalid request".to_string(),
        },
        LegError::ResponseRead("truncated response".to_string()),
        LegError::NonRetryableTransport("invalid URL".to_string()),
    ] {
        let inner = ScriptedHttp::new(vec![Err(error), response(200, None)]);
        let client = RetryingHttpClient::new(&inner, RetryPolicy::new(2, 0));

        let call = post(&client);

        assert!(call.result.is_err());
        assert_eq!(call.attempts, 1);
        assert_eq!(inner.calls.get(), 1);
    }
}

#[test]
fn zero_retry_budget_disables_retries() {
    let inner = ScriptedHttp::new(vec![
        Err(LegError::Transport("connection refused".to_string())),
        response(200, None),
    ]);
    let client = RetryingHttpClient::new(&inner, RetryPolicy::new(0, 0));

    let call = post(&client);

    assert!(call.result.is_err());
    assert_eq!(call.attempts, 1);
    assert_eq!(inner.calls.get(), 1);
}

#[test]
fn retry_budget_caps_status_retries_and_keeps_attempts() {
    let inner = ScriptedHttp::new(vec![
        response(503, Some("0")),
        response(503, Some("0")),
        response(503, Some("0")),
    ]);
    let client = RetryingHttpClient::new(&inner, RetryPolicy::new(1, 0));

    let call = post(&client);

    assert_eq!(
        call.result.expect("last HTTP response is returned").status,
        503
    );
    assert_eq!(call.attempts, 2);
    assert_eq!(inner.calls.get(), 2);
}

#[test]
fn retry_after_supports_seconds_and_http_dates_and_is_capped() {
    let start = UNIX_EPOCH + Duration::from_secs(1_700_000_000);
    let now = Duration::from_secs(1_700_000_000).as_nanos();
    assert_eq!(
        parse_retry_after("120", now),
        Some(Duration::from_secs(120).as_nanos())
    );
    let future = httpdate::fmt_http_date(start + Duration::from_secs(45));
    assert_eq!(
        parse_retry_after(&future, now)
            .unwrap()
            .min(MAX_RETRY_DELAY),
        MAX_RETRY_DELAY
    );
    assert_eq!(
        parse_retry_after("Sun, 06 Nov 1994 08:49:37 GMT", now),
        Some(0)
    );
}

#[test]
fn retry_after_overrides_backoff_and_obeys_the_cap() {
    let policy = RetryPolicy::new(3, Duration::from_secs(2).as_nanos());
    assert_eq!(policy.delay(1, Some("0")), 0);
    assert_eq!(policy.delay(1, Some("120")), MAX_RETRY_DELAY);
}

#[test]
fn full_jitter_stays_inside_its_delay_ceiling() {
    let ceiling = Duration::from_millis(40).as_nanos();
    assert_eq!(full_jitter(0), 0);
    assert!(full_jitter(ceiling) <= ceiling);
}

#[test]
fn backoff_ceiling_doubles_then_caps() {
    let policy = RetryPolicy::new(8, Duration::from_secs(10).as_nanos());
    assert_eq!(policy.backoff_ceiling(1), Duration::from_secs(10).as_nanos());
    assert_eq!(policy.backoff_ceiling(2), Duration::from_secs(20).as_nanos());
    assert_eq!(policy.backoff_ceiling(3), MAX_RETRY_DELAY);
    assert_eq!(policy.backoff_ceiling(8), MAX_RETRY_DELAY);
}

#[test]
fn classifies_only_connection_level_ureq_errors_as_retryable() {
    for fault in [
        RequestFault::Io,
        RequestFault::Timeout,
        RequestFault::HostNotFound,
        RequestFault::ConnectionFailed,
        RequestFault::ConnectProxyFailed,
    ] {
        assert!(is_retryable_connection_error(fault), "{fault:?}");
        assert!(matches!(
            request_error(fault, "lost".to_string()),
            LegError::Transport(_)
        ));
    }
    assert!(!is_retryable_connection_error(RequestFault::Other));
    assert!(matches!(
        request_error(RequestFault::Other, "bad uri".to_string()),
        LegError::NonRetryableTransport(_)
    ));
}

#[test]
fn a_delay_is_fixed_by_the_clock_and_the_sample() {
    let policy = RetryPolicy::new(3, Duration::from_secs(2).as_nanos());
    let now = Duration::from_secs(784_111_770).as_nanos();
    assert_eq!(
        policy.delay_at(1, Some("Sun, 06 Nov 1994 08:49:37 GMT"), now, 5),
        Duration::from_secs(7).as_nanos()
    );
    assert_eq!(policy.delay_at(1, None, now, 5), 5);
    assert_eq!(
        policy.delay_at(2, Some("soon"), now, 4_000_000_003),
        2
    );
    assert_eq!(deadline_delay(10, 12), 9_999_999_988);
    assert_eq!(deadline_delay(1, 2_000_000_000), 0);
    assert_eq!(jitter(u128::MAX, 7), 7);
}

/// A client whose waits a signal cuts short.
struct SignalledHttp;

impl HttpClient for SignalledHttp {
    fn post_json(
        &self,
        _url: &str,
        _headers: &[(&str, &str)],
        _body: &str,
    ) -> Result<HttpResponse> {
        response(503, None)
    }

    fn pause(&self, nanos: u128) -> Option<InterruptSignal> {
        if nanos > 0 {
            Some(InterruptSignal::Terminate)
        } else {
            None
        }
    }

    fn post_json_with_attempts(
        &self,
        url: &str,
        headers: &[(&str, &str)],
        body: &str,
    ) -> HttpCall {
        HttpCall::new(self.post_json(url, headers, body), 1)
    }
}

#[test]
fn a_signal_of_the_inner_client_reaches_the_caller() {
    let quiet = ScriptedHttp::new(vec![]);
    assert_eq!(quiet.pause(5), None);
    let client = RetryingHttpClient::new(SignalledHttp, RetryPolicy::new(3, 0));
    assert_eq!(client.pause(0), None);
    assert_eq!(client.pause(5), Some(InterruptSignal::Terminate));
    assert_eq!((&client).pause(5), Some(InterruptSignal::Terminate));
}

#[test]
fn a_request_is_repeated_exactly_where_a_retry_is_left() {
    let policy = RetryPolicy::new(2, 10);
    let refused: Result<HttpResponse> =
        Err(LegError::Transport("connection refused".to_string()));
    assert_eq!(policy.next_wait(0, &refused, 0, 7), Some(7));
    assert_eq!(policy.next_wait(1, &refused, 0, 25), Some(4));
    assert_eq!(policy.next_wait(2, &refused, 0, 7), None);
    assert_eq!(policy.next_wait(0, &response(200, None), 0, 7), None);
    assert_eq!(policy.next_wait(0, &response(400, Some("1")), 0, 7), None);
    assert_eq!(
        policy.next_wait(0, &response(503, Some("2")), 0, 7),
        Some(2_000_000_000)
    );
    assert_eq!(
        policy.next_wait(1, &response(429, Some("120")), 0, 7),
        Some(MAX_RETRY_DELAY)
    );
}

/// Answers every call with 503 and notes the waits that it is asked for.
struct WaitingHttp(RefCell<Vec<u128>>);

impl HttpClient for WaitingHttp {
    fn post_json(
        &self,
        _url: &str,
        _headers: &[(&str, &str)],
        _body: &str,
    ) -> Result<HttpResponse> {
        response(503, Some("3"))
    }

    fn pause(&self, nanos: u128) -> Option<InterruptSignal> {
        self.0.borrow_mut().push(nanos);
        None
    }

    fn post_json_with_attempts(
        &self,
        url: &str,
        headers: &[(&str, &str)],
        body: &str,
    ) -> HttpCall {
        HttpCall::new(self.post_json(url, headers, body), 1)
    }
}

#[test]
fn the_provider_decides_how_long_a_wait_is() {
    let inner = WaitingHttp(RefCell::new(Vec::new()));
    let client = RetryingHttpClient::new(&inner, RetryPolicy::new(2, 0));
    let call = post(&client);
    assert_eq!(call.attempts, 3);
    assert_eq!(*inner.0.borrow(), [0, 3_000_000_000, 3_000_000_000]);
}

#[test]
fn the_attempts_of_the_inner_client_are_summed() {
    let inner = ScriptedHttp::new((0..6).map(|_| response(503, Some("0"))).collect());
    let thrice = RetryingHttpClient::new(&inner, RetryPolicy::new(2, 0));
    let call = post(&RetryingHttpClient::new(&thrice, RetryPolicy::new(1, 0)));
    assert_eq!(call.result.expect("the last response is returned").status, 503);
    assert_eq!(call.attempts, 6);
    assert_eq!(inner.calls.get(), 6);
}

struct Echo;

impl ToolHandler for Echo {
    fn call(&self, _input: &Json) -> std::result::Result<String, String> {
        Ok("echoed".to_string())
    }
}

/// A loop over a client whose every call is refused once before it is answered:
/// first with a tool request, then with a text.
fn refused_once_each() -> ToolLoop<ClaudeClient<RetryingHttpClient<ScriptedHttp>>> {
    let answered = |body: &str| {
        Ok(HttpResponse {
            status: 200,
            body: body.to_string(),
            retry_after: None,
        })
    };
    let refused = || Err(LegError::Transport("connection refused".to_string()));
    let http = ScriptedHttp::new(vec![
        refused(),
        answered(
            r#"{"content":[{"type":"tool_use","id":"t1","name":"echo","input":{}}],"stop_reason":"tool_use"}"#,
        ),
        refused(),
        answered(r#"{"content":[{"type":"text","text":"done"}]}"#),
    ]);
    let config = LegConfig::from_settings(&Settings {
        api_key: Some("secret".to_string()),
        auth_token: None,
        oauth_token: None,
        base_url: None,
        model: None,
        timeout_secs: None,
        max_tokens: None,
        max_tool_rounds: None,
        system_prompt: None,
        bash_timeout_secs: None,
        pre_tool_hook: None,
        max_retries: None,
        retry_base_delay_ms: None,
    })
    .expect("config loads");
    let client =
        ClaudeClient::with_http(config, RetryingHttpClient::new(http, RetryPolicy::new(1, 0)));
    let mut registry = ToolRegistry::new();
    let schema = parse_json(r#"{"type": "object"}"#).expect("json");
    registry.register(ToolSpec::new("echo", "Echo.", schema), Box::new(Echo));
    ToolLoop::new(client, registry, None)
}

#[test]
fn the_attempts_of_a_turn_are_those_of_all_its_calls() {
    let call = refused_once_each().send_with_attempts(&Prompt::new("go"));
    assert_eq!(call.result.expect("a reply").text, "done");
    assert_eq!(call.attempts, 4);

    let mut trail = Trail::new(NoopSink::new());
    let mut session = fresh_session("sess-1".to_string());
    let meta = ExchangeMeta {
        model: "m".to_string(),
        base_url: "u".to_string(),
    };
    match session_step(&refused_once_each(), &mut trail, &meta, &mut session, "go") {
        SessionStep::Replied(reply) => assert_eq!(reply.attempts, 4),
        _ => panic!("the line was a turn"),
    }
}
