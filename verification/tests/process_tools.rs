use std::time::Duration;

use leg::config::DEFAULT_BASH_TIMEOUT_SECS;
use leg::json::{parse_json, Json};
use leg::tools::bash::{BashRun, BashTool, StartFault};
use leg::tools::pretool::{judge, parse_decision, payload, GENERIC_DENIAL, HOOK_TIMEOUT};
use leg::tools::process::{CappedOutput, Capture, Poll, RunNext, RunState};

fn json(text: &str) -> Json {
    parse_json(text).expect("json")
}

fn value(text: &str) -> serde_json::Value {
    serde_json::from_str(text).expect("json")
}

fn value_of(json: &Json) -> serde_json::Value {
    value(&json.to_text())
}

fn running(now: u128) -> Poll {
    Poll {
        now,
        exited: false,
        pipes_closed: false,
        signaled: false,
    }
}

fn hook_output(bytes: &[u8]) -> CappedOutput {
    let mut capture = Capture::default();
    capture.push(bytes);
    capture.finish()
}

/// The tool result for a finished run.
fn output_of(
    tool: &BashTool,
    run: &RunState,
    code: Option<i32>,
    signal: Option<i32>,
    stdout: Capture,
) -> serde_json::Value {
    let stdout = stdout.finish();
    let text = tool.answer(&BashRun {
        wall_time_seconds: "1.25".to_string(),
        status: run.status().to_string(),
        exit_code: run.exit_code(code, signal),
        stdout: stdout.text,
        stderr: String::new(),
        stdout_omitted_bytes: stdout.omitted_bytes,
        stderr_omitted_bytes: 0,
    });
    value(&text)
}

#[test]
fn spec_declares_command_description_and_timeout() {
    let spec = BashTool::spec();
    let schema = value_of(&spec.input_schema);
    assert_eq!(spec.name, "bash");
    assert_eq!(
        schema["required"],
        value(r#"["command"]"#)
    );
    assert_eq!(
        schema["properties"]["description"]["type"],
        "string"
    );
    assert_eq!(
        schema["properties"]["timeout"]["default"],
        DEFAULT_BASH_TIMEOUT_SECS
    );
    assert!(spec.description.contains("120 seconds by default"));
    assert!(spec.description.contains("2000 lines or 50 KB"));
    assert!(
        spec.description
            .contains("provider credential variables are removed")
    );
    assert!(
        spec.description
            .contains("startup files may re-export them")
    );
    assert_eq!(
        BashTool::new().default_timeout_secs,
        DEFAULT_BASH_TIMEOUT_SECS
    );
}

#[test]
fn configured_timeout_is_reflected_in_the_tool_spec() {
    let spec = BashTool::spec_with_default_timeout_secs(30);
    let schema = value_of(&spec.input_schema);
    assert_eq!(schema["properties"]["timeout"]["default"], 30);
    assert!(spec.description.contains("30 seconds by default"));
    assert_eq!(
        schema["properties"]["timeout"]["description"],
        "Maximum run time in seconds (default 30)"
    );
}

#[test]
fn rejects_invalid_arguments_and_reports_missing_bash() {
    assert_eq!(
        BashTool::new().request(&json(r#"{}"#)).unwrap_err(),
        "bash: `command` must be a string"
    );
    assert_eq!(
        BashTool::new()
            .request(&json(r#"{"command": "true", "timeout": -1}"#))
            .unwrap_err(),
        "bash: `timeout` must be a non-negative integer"
    );
    assert_eq!(
        BashTool::new()
            .request(&json(r#"{"command": "true", "description": 7}"#))
            .unwrap_err(),
        "bash: `description` must be a string"
    );
    let fault = StartFault {
        not_found: true,
        message: "No such file or directory (os error 2)".to_string(),
    };
    assert!(BashTool::new()
        .unstarted(&fault)
        .contains("bash: executable was not found:"));
    let fault = StartFault {
        not_found: false,
        message: "Permission denied (os error 13)".to_string(),
    };
    assert_eq!(
        BashTool::new().unstarted(&fault),
        "bash: failed to start command: Permission denied (os error 13)"
    );
}

#[test]
fn explicit_timeout_keeps_partial_output_and_returns_124() {
    let tool = BashTool::new();
    let request = tool
        .request(&json(r#"{"command": "printf 'before-timeout'; sleep 30", "timeout": 1}"#))
        .unwrap();
    assert_eq!(request.timeout_secs, 1);
    let mut stdout = Capture::default();
    stdout.push(b"before-timeout");
    let mut run = RunState::new(u128::from(request.timeout_secs) * 1_000_000_000);
    let step = run.step(running(500_000_000));
    assert!(!step.terminate && !step.kill && step.next == RunNext::Wait);
    let step = run.step(running(1_000_000_000));
    assert!(step.terminate, "the time limit asks the group to end");
    let step = run.step(Poll {
        now: 1_010_000_000,
        exited: true,
        pipes_closed: true,
        signaled: false,
    });
    assert!(step.next != RunNext::Wait);
    let output = output_of(&tool, &run, None, Some(15), stdout);
    assert_eq!(output["status"], "timed_out");
    assert_eq!(output["exit_code"], 124);
    assert_eq!(output["stdout"], "before-timeout");
    assert_eq!(output["wall_time_seconds"].as_f64(), Some(1.25));
}

#[test]
fn reports_signal_termination_as_128_plus_signal() {
    let tool = BashTool::new();
    let mut run = RunState::new(30_000_000_000);
    let step = run.step(Poll {
        now: 5_000_000,
        exited: true,
        pipes_closed: true,
        signaled: false,
    });
    assert_eq!(step.next, RunNext::Done);
    let output = output_of(&tool, &run, None, Some(15), Capture::default());
    assert_eq!(output["status"], "exited");
    assert_eq!(output["exit_code"], 128 + 15);
    let output = output_of(&tool, &run, Some(3), None, Capture::default());
    assert_eq!(output["exit_code"], 3);
}

#[test]
fn configured_default_timeout_is_used_when_timeout_is_omitted() {
    let tool = BashTool::with_default_timeout_secs(1);
    let request = tool.request(&json(r#"{"command": "sleep 30"}"#)).unwrap();
    assert_eq!(request.command, "sleep 30");
    assert_eq!(request.timeout_secs, 1);
    let mut run = RunState::new(u128::from(request.timeout_secs) * 1_000_000_000);
    assert!(!run.step(running(999_999_999)).terminate);
    assert!(run.step(running(1_000_000_000)).terminate);
    assert!(run.timed_out);
}

#[test]
fn caps_each_stream_by_line_and_byte_limits_and_reports_omitted_bytes() {
    let tool = BashTool::new();
    let mut run = RunState::new(30_000_000_000);
    run.step(Poll {
        now: 5_000_000,
        exited: true,
        pipes_closed: true,
        signaled: false,
    });
    let mut stdout = Capture::default();
    for i in 0..2101 {
        stdout.push(format!("out-{i:04}\n").as_bytes());
    }
    let lines = output_of(&tool, &run, Some(0), None, stdout);
    assert_eq!(lines["stdout_omitted_bytes"], 101 * 9);
    assert!(lines["stdout"].as_str().unwrap().starts_with("out-0000\n"));
    assert!(lines["stdout"].as_str().unwrap().contains("out-2100\n"));
    assert!(lines["stdout"]
        .as_str()
        .unwrap()
        .contains("909 bytes omitted"));

    let mut stdout = Capture::default();
    stdout.push(format!("{:>60000}", "x").as_bytes());
    let bytes = output_of(&tool, &run, Some(0), None, stdout);
    assert_eq!(bytes["stdout_omitted_bytes"], 8_800);
    assert!(bytes["stdout"]
        .as_str()
        .unwrap()
        .contains("8800 bytes omitted"));
}

#[test]
fn stops_waiting_after_the_pipe_drain_guard() {
    let mut run = RunState::new(30_000_000_000);
    let open = |now| Poll {
        now,
        exited: true,
        pipes_closed: false,
        signaled: false,
    };
    assert_eq!(run.step(open(1_000_000_000)).next, RunNext::Wait);
    assert_eq!(run.step(open(2_999_999_999)).next, RunNext::Wait);
    assert_eq!(run.step(open(3_000_000_000)).next, RunNext::Abandon);
}

#[test]
fn empty_output_and_allow_decision_allow_dispatch() {
    assert_eq!(HOOK_TIMEOUT, Duration::from_secs(30).as_nanos());
    assert_eq!(parse_decision(" \n"), Ok(()));
    assert_eq!(parse_decision(r#"{"decision":"allow"}"#), Ok(()));
}

#[test]
fn deny_decision_preserves_its_reason() {
    assert_eq!(
        parse_decision(r#"{"decision":"deny","reason":"role policy"}"#),
        Err("denied by pre-tool hook: role policy".to_string())
    );
}

#[test]
fn malformed_or_incomplete_decisions_fail_closed() {
    for stdout in [
        "not json",
        r#"{"decision":"maybe"}"#,
        r#"{"decision":"deny"}"#,
        r#"{"decision":"deny","reason":""}"#,
    ] {
        assert_eq!(
            parse_decision(stdout),
            Err(GENERIC_DENIAL.to_string()),
            "{stdout}"
        );
    }
}

#[test]
fn sends_the_pretool_event_and_tool_context_on_stdin() {
    let payload = payload("bash", &json(r#"{"command": "echo hi"}"#), "/work");
    assert!(payload.contains(r#""hook_event_name":"PreToolUse""#));
    assert!(payload.contains(r#""tool_name":"bash""#));
    assert!(payload.contains(r#""tool_input":{"command":"echo hi"}"#));
    assert!(payload.contains(r#""cwd":"/work""#));
}

#[test]
fn hook_process_deny_and_allow_decisions_are_enforced() {
    let deny = hook_output(br#"{"decision":"deny","reason":"bash is forbidden"}"#);
    assert_eq!(
        judge(false, 0, &deny).unwrap_err(),
        "denied by pre-tool hook: bash is forbidden"
    );
    let allow = hook_output(br#"{"decision":"allow"}"#);
    assert_eq!(judge(false, 0, &allow), Ok(()));
}

#[test]
fn hook_spawn_nonzero_and_timeout_fail_closed() {
    let allow = hook_output(br#"{"decision":"allow"}"#);
    let generic = Err(GENERIC_DENIAL.to_string());
    assert_eq!(judge(false, 1, &allow), generic);
    assert_eq!(judge(true, 0, &allow), generic);
    assert_eq!(judge(false, 0, &hook_output(b"garbage")), generic);
    let invalid_utf8 = hook_output(b"{\"decision\":\"allow\",\"extra\":\"\xff\"}");
    assert_eq!(judge(false, 0, &invalid_utf8), generic);
    let long = hook_output(&vec![b' '; 60_000]);
    assert_eq!(judge(false, 0, &long), generic);
}
