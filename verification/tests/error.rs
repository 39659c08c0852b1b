use leg::error::{InterruptSignal, LegError};

#[test]
fn every_error_has_its_kind_and_its_text() {
    let message = || "m".to_string();
    let cases = [
        (LegError::Usage(message()), "usage", "usage error: m"),
        (LegError::Config(message()), "config", "configuration error: m"),
        (LegError::Transport(message()), "transport", "transport error: m"),
        (
            LegError::NonRetryableTransport(message()),
            "transport",
            "transport error: m",
        ),
        (
            LegError::ResponseRead(message()),
            "transport",
            "transport error: m",
        ),
        (LegError::Auth(message()), "auth", "authentication error: m"),
        (LegError::RateLimited(message()), "rate_limited", "rate limited: m"),
        (
            LegError::Server {
                status: 503,
                error_type: None,
                message: message(),
            },
            "server",
            "provider server error (503): m",
        ),
        (
            LegError::Api {
                status: 404,
                error_type: Some("not_found_error".to_string()),
                message: message(),
            },
            "api",
            "provider error (404, not_found_error): m",
        ),
        (LegError::Decode(message()), "decode", "response decode error: m"),
        (LegError::Io(message()), "io", "io error: m"),
        (
            LegError::Interrupted {
                signal: InterruptSignal::Interrupt,
            },
            "interrupted",
            "interrupted by SIGINT",
        ),
        (LegError::Log(message()), "log", "log error: m"),
        (
            LegError::SessionNotFound("sess-1".to_string()),
            "session_not_found",
            "no session found: sess-1",
        ),
        (
            LegError::TurnFailure {
                message_kind: "error".to_string(),
                message: message(),
            },
            "turn_failure",
            "turn failed (kind: error): m",
        ),
    ];
    for (error, kind, text) in cases {
        assert_eq!(error.kind(), kind);
        assert_eq!(error.to_string(), text);
    }
}

#[test]
fn signals_have_the_exit_codes_of_a_shell() {
    assert_eq!(InterruptSignal::Interrupt.exit_code(), 130);
    assert_eq!(InterruptSignal::Terminate.exit_code(), 143);
    assert_eq!(
        InterruptSignal::from_number(15),
        Some(InterruptSignal::Terminate)
    );
    assert_eq!(InterruptSignal::from_number(9), None);
    assert_eq!(InterruptSignal::Terminate.name(), "SIGTERM");
}
