use leg::cli::{help_text, parse_args, Command, ExchangeSession, ResumeArgs};
use leg::error::LegError;

fn argv(args: &[&str]) -> Vec<String> {
    args.iter().map(|s| s.to_string()).collect()
}

#[test]
fn no_arguments_is_a_no_op() {
    assert_eq!(parse_args(&argv(&[])).unwrap(), None);
}

#[test]
fn version_flags_parse() {
    assert_eq!(
        parse_args(&argv(&["--version"])).unwrap(),
        Some(Command::Version)
    );
    assert_eq!(parse_args(&argv(&["-V"])).unwrap(), Some(Command::Version));
}

#[test]
fn help_flags_parse() {
    assert_eq!(parse_args(&argv(&["--help"])).unwrap(), Some(Command::Help));
    assert_eq!(parse_args(&argv(&["-h"])).unwrap(), Some(Command::Help));
}

#[test]
fn help_text_documents_usage_env_and_failure_contract() {
    let text = help_text();
    assert!(text.contains("leg ask [--model <model>] [--image <path> ...] <prompt>"));
    assert!(text.contains("JPEG, PNG, GIF, and WebP"));
    assert!(text.contains("ANTHROPIC_API_KEY"));
    assert!(text.contains("ANTHROPIC_AUTH_TOKEN is for bearer keys"));
    assert!(text.contains("Anthropic-compatible endpoints"));
    assert!(text.contains("Subscription OAuth tokens"));
    assert!(text.contains("`setup-token`"));
    assert!(text.contains("unsupported outside their own client"));
    assert!(text.contains("LEG_MODEL"));
    assert!(text.contains("LEG_BASH_TIMEOUT_SECS"));
    assert!(text.contains("LEG_MAX_TOOL_ROUNDS"));
    assert!(text.contains("LEG_EVENT_LOG"));
    assert!(text.contains("`ask`, cold `exchange`"));
    assert!(text.contains("named exchange sessions always write their"));
    assert!(text.contains("headless entry point"));
    assert!(text.contains("exit non-zero"));
    assert!(text.contains("kind:\"error\""));
    assert!(text.contains("--session <id>"));
    assert!(text.contains("--new-session"));
    assert!(text.contains("--session-id-out"));
    assert!(text.contains("XDG_STATE_HOME/leg/sessions"));
}

#[test]
fn ask_parses_positional_prompt() {
    assert_eq!(
        parse_args(&argv(&["ask", "hello"])).unwrap(),
        Some(Command::Ask {
            prompt: "hello".to_string(),
            model: None,
            images: vec![],
        })
    );
}

#[test]
fn ask_parses_model_override_before_or_after_prompt() {
    assert_eq!(
        parse_args(&argv(&["ask", "--model", "opus-4-8", "hello"])).unwrap(),
        Some(Command::Ask {
            prompt: "hello".to_string(),
            model: Some("opus-4-8".to_string()),
            images: vec![],
        })
    );
    assert_eq!(
        parse_args(&argv(&["ask", "hello", "--model", "opus-4-8"])).unwrap(),
        Some(Command::Ask {
            prompt: "hello".to_string(),
            model: Some("opus-4-8".to_string()),
            images: vec![],
        })
    );
}

#[test]
fn ask_parses_repeatable_images_before_and_after_the_prompt() {
    assert_eq!(
        parse_args(&argv(&[
            "ask",
            "--image",
            "first.png",
            "describe",
            "--image",
            "second.jpg"
        ]))
        .unwrap(),
        Some(Command::Ask {
            prompt: "describe".to_string(),
            model: None,
            images: vec!["first.png".to_string(), "second.jpg".to_string()],
        })
    );
}

#[test]
fn ask_without_prompt_is_usage_error() {
    assert!(matches!(
        parse_args(&argv(&["ask"])).unwrap_err(),
        LegError::Usage(_)
    ));
}

#[test]
fn ask_with_blank_prompt_is_usage_error() {
    assert!(matches!(
        parse_args(&argv(&["ask", "   "])).unwrap_err(),
        LegError::Usage(_)
    ));
}

#[test]
fn ask_with_extra_positional_argument_is_usage_error() {
    assert!(matches!(
        parse_args(&argv(&["ask", "hello", "extra"])).unwrap_err(),
        LegError::Usage(_)
    ));
}

#[test]
fn model_flag_without_value_is_usage_error() {
    assert!(matches!(
        parse_args(&argv(&["ask", "--model"])).unwrap_err(),
        LegError::Usage(_)
    ));
}

#[test]
fn image_flag_without_path_is_usage_error() {
    assert!(matches!(
        parse_args(&argv(&["ask", "hello", "--image"])).unwrap_err(),
        LegError::Usage(_)
    ));
}

#[test]
fn unrecognised_argument_is_usage_error() {
    assert!(matches!(
        parse_args(&argv(&["bogus"])).unwrap_err(),
        LegError::Usage(_)
    ));
}

#[test]
fn session_bare_parses_with_no_resume() {
    assert_eq!(
        parse_args(&argv(&["session"])).unwrap(),
        Some(Command::Session { resume: None })
    );
}

#[test]
fn session_resume_parses_file_and_optional_session_id() {
    assert_eq!(
        parse_args(&argv(&["session", "--resume", "/tmp/x.jsonl"])).unwrap(),
        Some(Command::Session {
            resume: Some(ResumeArgs {
                file: "/tmp/x.jsonl".to_string(),
                session_id: None,
            })
        })
    );
    assert_eq!(
        parse_args(&argv(&[
            "session",
            "--resume",
            "/tmp/x.jsonl",
            "--session",
            "sess-1"
        ]))
        .unwrap(),
        Some(Command::Session {
            resume: Some(ResumeArgs {
                file: "/tmp/x.jsonl".to_string(),
                session_id: Some("sess-1".to_string()),
            })
        })
    );
}

#[test]
fn session_without_resume_rejects_bare_session_flag() {
    assert!(matches!(
        parse_args(&argv(&["session", "--session", "sess-1"])).unwrap_err(),
        LegError::Usage(_)
    ));
}

#[test]
fn log_show_parses_optional_file() {
    assert_eq!(
        parse_args(&argv(&["log", "show"])).unwrap(),
        Some(Command::LogShow { file: None })
    );
    assert_eq!(
        parse_args(&argv(&["log", "show", "--file", "/tmp/x.jsonl"])).unwrap(),
        Some(Command::LogShow {
            file: Some("/tmp/x.jsonl".to_string())
        })
    );
}

#[test]
fn log_replay_parses_optional_file_and_index() {
    assert_eq!(
        parse_args(&argv(&["log", "replay"])).unwrap(),
        Some(Command::LogReplay {
            file: None,
            index: None
        })
    );
    assert_eq!(
        parse_args(&argv(&[
            "log",
            "replay",
            "--index",
            "3",
            "--file",
            "/tmp/x.jsonl"
        ]))
        .unwrap(),
        Some(Command::LogReplay {
            file: Some("/tmp/x.jsonl".to_string()),
            index: Some(3),
        })
    );
}

#[test]
fn log_replay_rejects_zero_index() {
    assert!(matches!(
        parse_args(&argv(&["log", "replay", "--index", "0"])).unwrap_err(),
        LegError::Usage(_)
    ));
}

#[test]
fn log_show_rejects_index_flag() {
    assert!(matches!(
        parse_args(&argv(&["log", "show", "--index", "1"])).unwrap_err(),
        LegError::Usage(_)
    ));
}

#[test]
fn log_without_subcommand_is_usage_error() {
    assert!(matches!(
        parse_args(&argv(&["log"])).unwrap_err(),
        LegError::Usage(_)
    ));
}

#[test]
fn log_unknown_subcommand_is_usage_error() {
    assert!(matches!(
        parse_args(&argv(&["log", "bogus"])).unwrap_err(),
        LegError::Usage(_)
    ));
}

#[test]
fn parse_args_exchange_bare_defaults_both_paths_to_none() {
    assert_eq!(
        parse_args(&argv(&["exchange"])).unwrap(),
        Some(Command::Exchange {
            in_path: None,
            out_path: None,
            session: None,
            session_id_out: None,
        })
    );
}

#[test]
fn parse_args_exchange_accepts_in_and_out() {
    assert_eq!(
        parse_args(&argv(&["exchange", "--in", "/tmp/a", "--out", "/tmp/b"])).unwrap(),
        Some(Command::Exchange {
            in_path: Some("/tmp/a".to_string()),
            out_path: Some("/tmp/b".to_string()),
            session: None,
            session_id_out: None,
        })
    );
}

#[test]
fn parse_args_exchange_accepts_session_flags_in_either_order() {
    assert_eq!(
        parse_args(&argv(&[
            "exchange",
            "--session-id-out",
            "/tmp/id",
            "--session",
            "sess-1",
        ]))
        .unwrap(),
        Some(Command::Exchange {
            in_path: None,
            out_path: None,
            session: Some(ExchangeSession::Existing("sess-1".to_string())),
            session_id_out: Some("/tmp/id".to_string()),
        })
    );
    assert_eq!(
        parse_args(&argv(&[
            "exchange",
            "--new-session",
            "--session-id-out",
            "/tmp/id",
        ]))
        .unwrap(),
        Some(Command::Exchange {
            in_path: None,
            out_path: None,
            session: Some(ExchangeSession::New),
            session_id_out: Some("/tmp/id".to_string()),
        })
    );
}

#[test]
fn parse_args_exchange_rejects_conflicting_or_incomplete_session_flags() {
    assert!(
        parse_args(&argv(
            &["exchange", "--session", "sess-1", "--new-session",]
        ))
        .is_err()
    );
    assert!(
        parse_args(&argv(
            &["exchange", "--new-session", "--session", "sess-1",]
        ))
        .is_err()
    );
    assert!(
        parse_args(&argv(&["exchange", "--session", "--new-session"])).is_err(),
        "--new-session must not be consumed as the --session id"
    );
    assert!(parse_args(&argv(&["exchange", "--session-id-out", "/tmp/id"])).is_err());
    assert!(parse_args(&argv(&["exchange", "--session"])).is_err());
    assert!(parse_args(&argv(&["exchange", "--session-id-out"])).is_err());
}

#[test]
fn parse_args_exchange_missing_in_value_is_usage_error() {
    assert!(parse_args(&argv(&["exchange", "--in"])).is_err());
}

#[test]
fn parse_args_exchange_unexpected_argument_is_usage_error() {
    assert!(parse_args(&argv(&["exchange", "--who"])).is_err());
}
