//! The command line: what the arguments ask for, and the choices that follow
//! from them.

use vstd::prelude::*;

use crate::config::LegConfig;
use crate::error::{LegError, Result};
use crate::events::{clone_content, Exchange, ExchangeMeta, ExchangeView};
use crate::log::{exchange_text, format_exchange_with_tools, PairView, ParseReport, ToolPair};
use crate::model::{BlockView, ContentBlock};
use crate::session::session_id_text;
use crate::text::{
    chars_of, concat2, concat3, concat4, debug_text, debugged, decimal, decimal_text, is_digit,
    law_decimal_reads_back, numeral, opt_view, parse_number, same_text, trim, trimmed, views,
};

verus! {

/// The one-line usage summary.
pub const USAGE: &'static str = "usage: leg [--version|-V] [--help|-h] | leg ask [--model <model>] [--image <path> ...] <prompt> | leg session [--resume <file> [--session <id>]] | leg log show [--file <path>] | leg log replay [--file <path>] [--index <N>] | leg exchange [--in <path>] [--out <path>] [--session <id>|--new-session] [--session-id-out <path>]";

/// What the help says after the usage summary.
pub const HELP: &'static str = "\n\n\
         Reads credentials from ANTHROPIC_API_KEY (or ANTHROPIC_AUTH_TOKEN /\n\
         CLAUDE_CODE_OAUTH_TOKEN). ANTHROPIC_AUTH_TOKEN is for bearer keys of\n\
         Anthropic-compatible endpoints. Subscription OAuth tokens\n\
         (including `setup-token`) are unsupported outside their own client;\n\
         use an Anthropic Console API key with ANTHROPIC_API_KEY instead.\n\
         `leg ask --image <path>` accepts JPEG, PNG, GIF, and WebP; repeat the\n\
         flag to attach multiple images. Each base64 image is limited to 10 MB,\n\
         and image requests to 32 MB.\n\
         Also honours ANTHROPIC_BASE_URL, LEG_MODEL, LEG_TIMEOUT_SECS,\n\
         LEG_BASH_TIMEOUT_SECS, LEG_MAX_TOKENS, LEG_MAX_TOOL_ROUNDS,\n\
         LEG_MAX_RETRIES, LEG_RETRY_BASE_DELAY_MS,\n\
         LEG_PRETOOL_HOOK, and LEG_SYSTEM_PROMPT.\n\n\
         LEG_EVENT_LOG names an optional JSONL trail for `ask`, cold `exchange`,\n\
         and a fresh `session`; named exchange sessions always write their\n\
         session store and also append here when this variable is non-blank.\n\
         `leg log show`/`leg log replay` read it back (or `--file <path>`).\n\n\
         `leg exchange` is the headless entry point for adapters; it reads a\n\
         `baton.message/v1` envelope on --in/stdin and writes the response\n\
         envelope on --out/stdout; given plain text instead, it writes just\n\
         the reply body. Provider/delivery failures exit non-zero: `ask` and\n\
         plain-text `exchange` leave stdout empty and report an error on\n\
         stderr; envelope `exchange` writes its `kind:\"error\"` response\n\
         before reporting the failure. `--session <id>` continues a named\n\
         exchange session; `--new-session` creates one. These flags are\n\
         mutually exclusive, and `--session-id-out <path>` writes the id and a\n\
         newline after\n\
         the turn when either is used. The session store is\n\
         LEG_SESSION_DIR, else XDG_STATE_HOME/leg/sessions, else\n\
         ~/.local/state/leg/sessions. `baton serve --agent-cmd <path>\n\
         --agent-arg exchange` expects this protocol.";

/// The environment variable that names the exchange trail.
pub const EVENT_LOG_ENV: &'static str = "LEG_EVENT_LOG";

/// The help text.
pub fn help_text() -> (text: String)
    ensures
        text@ == USAGE@ + HELP@,
{
    concat2(USAGE, HELP)
}

// ---------------------------------------------------------------------------
// Commands

/// The session of one headless exchange.
#[derive(Debug, PartialEq, Eq)]
pub enum ExchangeSession {
    /// The session stored under this id.
    Existing(String),
    /// A new session.
    New,
}

/// The view of an [`ExchangeSession`].
pub enum ExchangeSessionView {
    Existing(Seq<char>),
    New,
}

impl View for ExchangeSession {
    type V = ExchangeSessionView;

    open spec fn view(&self) -> ExchangeSessionView {
        match *self {
            ExchangeSession::Existing(id) => ExchangeSessionView::Existing(id@),
            ExchangeSession::New => ExchangeSessionView::New,
        }
    }
}

/// Which recorded session to resume.
#[derive(Debug, PartialEq, Eq)]
pub struct ResumeArgs {
    /// The trail to read.
    pub file: String,
    /// The session to select; the only one when absent.
    pub session_id: Option<String>,
}

/// The view of [`ResumeArgs`].
pub struct ResumeView {
    pub file: Seq<char>,
    pub session_id: Option<Seq<char>>,
}

impl View for ResumeArgs {
    type V = ResumeView;

    open spec fn view(&self) -> ResumeView {
        ResumeView { file: self.file@, session_id: opt_view(self.session_id) }
    }
}

/// A parsed command line.
#[derive(Debug, PartialEq, Eq)]
pub enum Command {
    /// Prints the version.
    Version,
    /// Prints the help.
    Help,
    /// Asks one prompt.
    Ask {
        /// The prompt.
        prompt: String,
        /// The model to use in place of the configured one.
        model: Option<String>,
        /// The image files to attach.
        images: Vec<String>,
    },
    /// Runs an interactive session.
    Session {
        /// The session to resume; a fresh one when absent.
        resume: Option<ResumeArgs>,
    },
    /// Prints the exchanges of a trail.
    LogShow {
        /// The trail; the configured one when absent.
        file: Option<String>,
    },
    /// Runs a recorded exchange again.
    LogReplay {
        /// The trail; the configured one when absent.
        file: Option<String>,
        /// The exchange, counted from one; the last when absent.
        index: Option<usize>,
    },
    /// Answers one request.
    Exchange {
        /// The request file; standard input when absent.
        in_path: Option<String>,
        /// The response file; standard output when absent.
        out_path: Option<String>,
        /// The session that the turn belongs to, if any.
        session: Option<ExchangeSession>,
        /// The file that gets the session's id.
        session_id_out: Option<String>,
    },
}

/// The view of a [`Command`].
#[allow(inconsistent_fields)]
pub enum CommandView {
    Version,
    Help,
    Ask { prompt: Seq<char>, model: Option<Seq<char>>, images: Seq<Seq<char>> },
    Session { resume: Option<ResumeView> },
    LogShow { file: Option<Seq<char>> },
    LogReplay { file: Option<Seq<char>>, index: Option<usize> },
    Exchange {
        in_path: Option<Seq<char>>,
        out_path: Option<Seq<char>>,
        session: Option<ExchangeSessionView>,
        session_id_out: Option<Seq<char>>,
    },
}

impl View for Command {
    type V = CommandView;

    open spec fn view(&self) -> CommandView {
        match *self {
            Command::Version => CommandView::Version,
            Command::Help => CommandView::Help,
            Command::Ask { prompt, model, images } => CommandView::Ask {
                prompt: prompt@,
                model: opt_view(model),
                images: views(images@),
            },
            Command::Session { resume } => CommandView::Session { resume: opt_view(resume) },
            Command::LogShow { file } => CommandView::LogShow { file: opt_view(file) },
            Command::LogReplay { file, index } => CommandView::LogReplay {
                file: opt_view(file),
                index,
            },
            Command::Exchange { in_path, out_path, session, session_id_out } =>
                CommandView::Exchange {
                in_path: opt_view(in_path),
                out_path: opt_view(out_path),
                session: opt_view(session),
                session_id_out: opt_view(session_id_out),
            },
        }
    }
}

/// What the arguments mean, or the usage error they are.
pub type Parsed = core::result::Result<CommandView, Seq<char>>;

/// Whether `result` is the command, or the usage error, that `meant` says.
pub open spec fn is_parsed(result: Result<Command>, meant: Parsed) -> bool {
    match meant {
        Ok(command) => result matches Ok(c) && c@ == command,
        Err(message) => result matches Err(LegError::Usage(text)) && text@ == message,
    }
}

fn usage(message: &str) -> (error: LegError)
    ensures
        error matches LegError::Usage(text) && text@ == message@,
{
    LegError::Usage(message.to_owned())
}

/// The complaint about an argument that has no place.
pub open spec fn unexpected(arg: Seq<char>) -> Seq<char> {
    "unexpected argument "@ + debugged(arg)
}

fn unexpected_argument(arg: &str) -> (error: LegError)
    ensures
        error matches LegError::Usage(text) && text@ == unexpected(arg@),
{
    LegError::Usage(concat2("unexpected argument ", debug_text(arg).as_str()))
}

fn unexpected_usage(arg: &str) -> (error: LegError)
    ensures
        error matches LegError::Usage(text) && text@ == unexpected(arg@) + "; "@ + USAGE@,
{
    LegError::Usage(concat4("unexpected argument ", debug_text(arg).as_str(), "; ", USAGE))
}

// ---------------------------------------------------------------------------
// ask

/// What the arguments from `i` on make of an `ask` command: flags in any place,
/// and exactly one prompt that is not blank.
pub open spec fn ask_meaning(
    args: Seq<Seq<char>>,
    i: int,
    model: Option<Seq<char>>,
    prompt: Option<Seq<char>>,
    images: Seq<Seq<char>>,
) -> Parsed
    decreases args.len() - i,
{
    if i < 0 || i >= args.len() {
        match prompt {
            None => Err("ask requires a prompt"@),
            Some(text) => if trimmed(text).len() == 0 {
                Err("ask's prompt must not be blank"@)
            } else {
                Ok(CommandView::Ask { prompt: text, model, images })
            },
        }
    } else if args[i] == "--model"@ {
        if i + 1 >= args.len() {
            Err("--model requires a value"@)
        } else {
            ask_meaning(args, i + 2, Some(args[i + 1]), prompt, images)
        }
    } else if args[i] == "--image"@ {
        if i + 1 >= args.len() {
            Err("--image requires a path"@)
        } else if args[i + 1].len() == 0 {
            Err("--image path must not be empty"@)
        } else {
            ask_meaning(args, i + 2, model, prompt, images.push(args[i + 1]))
        }
    } else if prompt is Some {
        Err("unexpected extra argument "@ + debugged(args[i]) + "; ask takes exactly one prompt"@)
    } else {
        ask_meaning(args, i + 1, model, Some(args[i]), images)
    }
}

/// Parses the arguments of `ask`, from `start` on.
pub fn parse_ask(args: &[String], start: usize) -> (result: Result<Command>)
    requires
        start <= args@.len(),
    ensures
        is_parsed(result, ask_meaning(views(args@), start as int, None, None, seq![])),
{
    let ghost all = views(args@);
    let mut model: Option<String> = None;
    let mut prompt: Option<String> = None;
    let mut images: Vec<String> = Vec::new();
    let mut i: usize = start;
    assert(views(images@) =~= Seq::<Seq<char>>::empty());
    while i < args.len()
        invariant
            i <= args.len(),
            all == views(args@),
            ask_meaning(all, start as int, None, None, seq![]) == ask_meaning(
                all,
                i as int,
                opt_view(model),
                opt_view(prompt),
                views(images@),
            ),
        decreases args.len() - i,
    {
        let arg = args[i].as_str();
        assert(all[i as int] == arg@);
        if same_text(arg, "--model") {
            if args.len() - i < 2 {
                return Err(usage("--model requires a value"));
            }
            assert(all[i + 1] == args@[i + 1]@);
            model = Some(args[i + 1].as_str().to_owned());
            i = i + 2;
        } else if same_text(arg, "--image") {
            if args.len() - i < 2 {
                return Err(usage("--image requires a path"));
            }
            assert(all[i + 1] == args@[i + 1]@);
            let path = args[i + 1].as_str();
            if path.unicode_len() == 0 {
                return Err(usage("--image path must not be empty"));
            }
            let ghost before = views(images@);
            images.push(path.to_owned());
            assert(views(images@) =~= before.push(path@));
            i = i + 2;
        } else if prompt.is_some() {
            return Err(
                LegError::Usage(
                    concat3(
                        "unexpected extra argument ",
                        debug_text(arg).as_str(),
                        "; ask takes exactly one prompt",
                    ),
                ),
            );
        } else {
            prompt = Some(arg.to_owned());
            i = i + 1;
        }
    }
    match prompt {
        None => Err(usage("ask requires a prompt")),
        Some(prompt) => {
            if trim(prompt.as_str()).as_str().unicode_len() == 0 {
                return Err(usage("ask's prompt must not be blank"));
            }
            Ok(Command::Ask { prompt, model, images })
        },
    }
}

// ---------------------------------------------------------------------------
// session

/// What the arguments from `i` on make of a `session` command: a trail to
/// resume, and with it a session to select.
pub open spec fn session_meaning(
    args: Seq<Seq<char>>,
    i: int,
    file: Option<Seq<char>>,
    session_id: Option<Seq<char>>,
) -> Parsed
    decreases args.len() - i,
{
    if i < 0 || i >= args.len() {
        match (file, session_id) {
            (Some(file), session_id) => Ok(
                CommandView::Session { resume: Some(ResumeView { file, session_id }) },
            ),
            (None, Some(_)) => Err("--session requires --resume <file>"@),
            (None, None) => Ok(CommandView::Session { resume: None }),
        }
    } else if args[i] == "--resume"@ {
        if i + 1 >= args.len() {
            Err("--resume requires a value"@)
        } else {
            session_meaning(args, i + 2, Some(args[i + 1]), session_id)
        }
    } else if args[i] == "--session"@ {
        if i + 1 >= args.len() {
            Err("--session requires a value"@)
        } else {
            session_meaning(args, i + 2, file, Some(args[i + 1]))
        }
    } else {
        Err(unexpected(args[i]) + "; "@ + USAGE@)
    }
}

/// Parses the arguments of `session`, from `start` on.
pub fn parse_session(args: &[String], start: usize) -> (result: Result<Command>)
    requires
        start <= args@.len(),
    ensures
        is_parsed(result, session_meaning(views(args@), start as int, None, None)),
{
    let ghost all = views(args@);
    let mut file: Option<String> = None;
    let mut session_id: Option<String> = None;
    let mut i: usize = start;
    while i < args.len()
        invariant
            i <= args.len(),
            all == views(args@),
            session_meaning(all, start as int, None, None) == session_meaning(
                all,
                i as int,
                opt_view(file),
                opt_view(session_id),
            ),
        decreases args.len() - i,
    {
        let arg = args[i].as_str();
        assert(all[i as int] == arg@);
        if same_text(arg, "--resume") {
            if args.len() - i < 2 {
                return Err(usage("--resume requires a value"));
            }
            assert(all[i + 1] == args@[i + 1]@);
            file = Some(args[i + 1].as_str().to_owned());
            i = i + 2;
        } else if same_text(arg, "--session") {
            if args.len() - i < 2 {
                return Err(usage("--session requires a value"));
            }
            assert(all[i + 1] == args@[i + 1]@);
            session_id = Some(args[i + 1].as_str().to_owned());
            i = i + 2;
        } else {
            return Err(unexpected_usage(arg));
        }
    }
    match file {
        Some(file) => Ok(Command::Session { resume: Some(ResumeArgs { file, session_id }) }),
        None => {
            if session_id.is_some() {
                return Err(usage("--session requires --resume <file>"));
            }
            Ok(Command::Session { resume: None })
        },
    }
}

// ---------------------------------------------------------------------------
// log

/// The exchange number that `raw` writes, or the usage error it is.
pub open spec fn index_meaning(raw: Seq<char>) -> core::result::Result<usize, Seq<char>> {
    match numeral(raw, usize::MAX as nat) {
        None => Err("--index must be a positive integer, got "@ + debugged(raw)),
        Some(n) => if n == 0 {
            Err("--index is 1-based; 0 is not a valid exchange"@)
        } else {
            Ok(n as usize)
        },
    }
}

/// Reads a 1-based exchange number.
pub fn parse_index(raw: &str) -> (result: Result<usize>)
    ensures
        match index_meaning(raw@) {
            Ok(n) => result matches Ok(index) && index == n,
            Err(message) => result matches Err(LegError::Usage(text)) && text@ == message,
        },
{
    match parse_number(raw, usize::MAX as u64) {
        None => Err(
            LegError::Usage(
                concat2("--index must be a positive integer, got ", debug_text(raw).as_str()),
            ),
        ),
        Some(n) => {
            if n == 0 {
                return Err(usage("--index is 1-based; 0 is not a valid exchange"));
            }
            Ok(n as usize)
        },
    }
}

/// The options of the log commands.
#[derive(Debug, PartialEq, Eq)]
pub struct LogOptions {
    /// The trail.
    pub file: Option<String>,
    /// The exchange, counted from one.
    pub index: Option<usize>,
}

/// What the arguments from `i` on make of the log options; an exchange number
/// only where it is allowed.
pub open spec fn log_meaning(
    args: Seq<Seq<char>>,
    i: int,
    allow_index: bool,
    file: Option<Seq<char>>,
    index: Option<usize>,
) -> core::result::Result<(Option<Seq<char>>, Option<usize>), Seq<char>>
    decreases args.len() - i,
{
    if i < 0 || i >= args.len() {
        Ok((file, index))
    } else if args[i] == "--file"@ {
        if i + 1 >= args.len() {
            Err("--file requires a value"@)
        } else {
            log_meaning(args, i + 2, allow_index, Some(args[i + 1]), index)
        }
    } else if args[i] == "--index"@ && allow_index {
        if i + 1 >= args.len() {
            Err("--index requires a value"@)
        } else {
            match index_meaning(args[i + 1]) {
                Err(message) => Err(message),
                Ok(n) => log_meaning(args, i + 2, allow_index, file, Some(n)),
            }
        }
    } else {
        Err(unexpected(args[i]))
    }
}

/// Parses the options of a log command, from `start` on.
pub fn parse_log_options(args: &[String], start: usize, allow_index: bool) -> (result: Result<
    LogOptions,
>)
    requires
        start <= args@.len(),
    ensures
        match log_meaning(views(args@), start as int, allow_index, None, None) {
            Ok((file, index)) => result matches Ok(options) && opt_view(options.file) == file
                && options.index == index,
            Err(message) => result matches Err(LegError::Usage(text)) && text@ == message,
        },
{
    let ghost all = views(args@);
    let mut file: Option<String> = None;
    let mut index: Option<usize> = None;
    let mut i: usize = start;
    while i < args.len()
        invariant
            i <= args.len(),
            all == views(args@),
            log_meaning(all, start as int, allow_index, None, None) == log_meaning(
                all,
                i as int,
                allow_index,
                opt_view(file),
                index,
            ),
        decreases args.len() - i,
    {
        let arg = args[i].as_str();
        assert(all[i as int] == arg@);
        if same_text(arg, "--file") {
            if args.len() - i < 2 {
                return Err(usage("--file requires a value"));
            }
            assert(all[i + 1] == args@[i + 1]@);
            file = Some(args[i + 1].as_str().to_owned());
            i = i + 2;
        } else if allow_index && same_text(arg, "--index") {
            if args.len() - i < 2 {
                return Err(usage("--index requires a value"));
            }
            assert(all[i + 1] == args@[i + 1]@);
            match parse_index(args[i + 1].as_str()) {
                Ok(n) => {
                    index = Some(n);
                },
                Err(error) => {
                    return Err(error);
                },
            }
            i = i + 2;
        } else {
            return Err(unexpected_argument(arg));
        }
    }
    Ok(LogOptions { file, index })
}

/// What the arguments from `i` on make of a `log` command.
pub open spec fn log_command_meaning(args: Seq<Seq<char>>, i: int) -> Parsed {
    if i < 0 || i >= args.len() {
        Err("log requires a subcommand: show or replay"@)
    } else if args[i] == "show"@ {
        match log_meaning(args, i + 1, false, None, None) {
            Ok((file, _)) => Ok(CommandView::LogShow { file }),
            Err(message) => Err(message),
        }
    } else if args[i] == "replay"@ {
        match log_meaning(args, i + 1, true, None, None) {
            Ok((file, index)) => Ok(CommandView::LogReplay { file, index }),
            Err(message) => Err(message),
        }
    } else {
        Err("unknown log subcommand "@ + debugged(args[i]))
    }
}

/// Parses the arguments of `log`, from `start` on.
pub fn parse_log(args: &[String], start: usize) -> (result: Result<Command>)
    requires
        start <= args@.len(),
    ensures
        is_parsed(result, log_command_meaning(views(args@), start as int)),
{
    if start >= args.len() {
        return Err(usage("log requires a subcommand: show or replay"));
    }
    let mode = args[start].as_str();
    assert(views(args@)[start as int] == mode@);
    if same_text(mode, "show") {
        match parse_log_options(args, start + 1, false) {
            Ok(options) => Ok(Command::LogShow { file: options.file }),
            Err(error) => Err(error),
        }
    } else if same_text(mode, "replay") {
        match parse_log_options(args, start + 1, true) {
            Ok(options) => Ok(Command::LogReplay { file: options.file, index: options.index }),
            Err(error) => Err(error),
        }
    } else {
        Err(LegError::Usage(concat2("unknown log subcommand ", debug_text(mode).as_str())))
    }
}

// ---------------------------------------------------------------------------
// exchange

/// Whether `arg` is one of the flags of `exchange`.
pub open spec fn is_exchange_flag(arg: Seq<char>) -> bool {
    arg == "--in"@ || arg == "--out"@ || arg == "--session"@ || arg == "--new-session"@ || arg
        == "--session-id-out"@
}

/// What the arguments from `i` on make of an `exchange` command: at most one
/// session, whose id is no flag, and a place for the id only with a session.
pub open spec fn exchange_meaning(
    args: Seq<Seq<char>>,
    i: int,
    in_path: Option<Seq<char>>,
    out_path: Option<Seq<char>>,
    session: Option<ExchangeSessionView>,
    session_id_out: Option<Seq<char>>,
) -> Parsed
    decreases args.len() - i,
{
    if i < 0 || i >= args.len() {
        if session_id_out is Some && session is None {
            Err("--session-id-out requires --session or --new-session"@)
        } else {
            Ok(CommandView::Exchange { in_path, out_path, session, session_id_out })
        }
    } else if args[i] == "--in"@ {
        if i + 1 >= args.len() {
            Err("--in requires a value"@)
        } else {
            exchange_meaning(args, i + 2, Some(args[i + 1]), out_path, session, session_id_out)
        }
    } else if args[i] == "--out"@ {
        if i + 1 >= args.len() {
            Err("--out requires a value"@)
        } else {
            exchange_meaning(args, i + 2, in_path, Some(args[i + 1]), session, session_id_out)
        }
    } else if args[i] == "--session"@ {
        if session is Some {
            Err("exchange accepts only one of --session and --new-session"@)
        } else if i + 1 >= args.len() || is_exchange_flag(args[i + 1]) {
            Err("--session requires a value"@)
        } else {
            exchange_meaning(
                args,
                i + 2,
                in_path,
                out_path,
                Some(ExchangeSessionView::Existing(args[i + 1])),
                session_id_out,
            )
        }
    } else if args[i] == "--new-session"@ {
        if session is Some {
            Err("exchange accepts only one of --session and --new-session"@)
        } else {
            exchange_meaning(
                args,
                i + 1,
                in_path,
                out_path,
                Some(ExchangeSessionView::New),
                session_id_out,
            )
        }
    } else if args[i] == "--session-id-out"@ {
        if i + 1 >= args.len() {
            Err("--session-id-out requires a value"@)
        } else {
            exchange_meaning(args, i + 2, in_path, out_path, session, Some(args[i + 1]))
        }
    } else {
        Err(unexpected(args[i]))
    }
}

fn exchange_flag(arg: &str) -> (flag: bool)
    ensures
        flag == is_exchange_flag(arg@),
{
    same_text(arg, "--in") || same_text(arg, "--out") || same_text(arg, "--session") || same_text(
        arg,
        "--new-session",
    ) || same_text(arg, "--session-id-out")
}

/// Parses the arguments of `exchange`, from `start` on.
pub fn parse_exchange(args: &[String], start: usize) -> (result: Result<Command>)
    requires
        start <= args@.len(),
    ensures
        is_parsed(
            result,
            exchange_meaning(views(args@), start as int, None, None, None, None),
        ),
{
    let ghost all = views(args@);
    let mut in_path: Option<String> = None;
    let mut out_path: Option<String> = None;
    let mut session: Option<ExchangeSession> = None;
    let mut session_id_out: Option<String> = None;
    let mut i: usize = start;
    while i < args.len()
        invariant
            i <= args.len(),
            all == views(args@),
            exchange_meaning(all, start as int, None, None, None, None) == exchange_meaning(
                all,
                i as int,
                opt_view(in_path),
                opt_view(out_path),
                opt_view(session),
                opt_view(session_id_out),
            ),
        decreases args.len() - i,
    {
        let arg = args[i].as_str();
        let has_value = args.len() - i >= 2;
        assert(all[i as int] == arg@);
        assert(has_value ==> all[i + 1] == args@[i + 1]@);
        if same_text(arg, "--in") {
            if !has_value {
                return Err(usage("--in requires a value"));
            }
            in_path = Some(args[i + 1].as_str().to_owned());
            i = i + 2;
        } else if same_text(arg, "--out") {
            if !has_value {
                return Err(usage("--out requires a value"));
            }
            out_path = Some(args[i + 1].as_str().to_owned());
            i = i + 2;
        } else if same_text(arg, "--session") {
            if session.is_some() {
                return Err(usage("exchange accepts only one of --session and --new-session"));
            }
            if !has_value {
                return Err(usage("--session requires a value"));
            }
            if exchange_flag(args[i + 1].as_str()) {
                return Err(usage("--session requires a value"));
            }
            session = Some(ExchangeSession::Existing(args[i + 1].as_str().to_owned()));
            i = i + 2;
        } else if same_text(arg, "--new-session") {
            if session.is_some() {
                return Err(usage("exchange accepts only one of --session and --new-session"));
            }
            session = Some(ExchangeSession::New);
            i = i + 1;
        } else if same_text(arg, "--session-id-out") {
            if !has_value {
                return Err(usage("--session-id-out requires a value"));
            }
            session_id_out = Some(args[i + 1].as_str().to_owned());
            i = i + 2;
        } else {
            return Err(unexpected_argument(arg));
        }
    }
    if session_id_out.is_some() && session.is_none() {
        return Err(usage("--session-id-out requires --session or --new-session"));
    }
    Ok(Command::Exchange { in_path, out_path, session, session_id_out })
}

// ---------------------------------------------------------------------------
// The whole command line

/// What a command line asks for; nothing, without arguments.
pub open spec fn command_meaning(args: Seq<Seq<char>>) -> core::result::Result<
    Option<CommandView>,
    Seq<char>,
> {
    if args.len() == 0 {
        Ok(None)
    } else {
        let word = args[0];
        let meant: Parsed = if word == "--version"@ || word == "-V"@ {
            Ok(CommandView::Version)
        } else if word == "--help"@ || word == "-h"@ {
            Ok(CommandView::Help)
        } else if word == "ask"@ {
            ask_meaning(args, 1, None, None, seq![])
        } else if word == "session"@ {
            session_meaning(args, 1, None, None)
        } else if word == "log"@ {
            log_command_meaning(args, 1)
        } else if word == "exchange"@ {
            exchange_meaning(args, 1, None, None, None, None)
        } else {
            Err("unrecognised argument "@ + debugged(word) + "; "@ + USAGE@)
        };
        match meant {
            Ok(command) => Ok(Some(command)),
            Err(message) => Err(message),
        }
    }
}

/// Parses a command line.
pub fn parse_args(args: &[String]) -> (result: Result<Option<Command>>)
    ensures
        match command_meaning(views(args@)) {
            Ok(None) => result matches Ok(None),
            Ok(Some(command)) => result matches Ok(Some(c)) && c@ == command,
            Err(message) => result matches Err(LegError::Usage(text)) && text@ == message,
        },
{
    if args.len() == 0 {
        return Ok(None);
    }
    let word = args[0].as_str();
    assert(views(args@)[0] == word@);
    let parsed = if same_text(word, "--version") || same_text(word, "-V") {
        Ok(Command::Version)
    } else if same_text(word, "--help") || same_text(word, "-h") {
        Ok(Command::Help)
    } else if same_text(word, "ask") {
        parse_ask(args, 1)
    } else if same_text(word, "session") {
        parse_session(args, 1)
    } else if same_text(word, "log") {
        parse_log(args, 1)
    } else if same_text(word, "exchange") {
        parse_exchange(args, 1)
    } else {
        Err(
            LegError::Usage(
                concat4("unrecognised argument ", debug_text(word).as_str(), "; ", USAGE),
            ),
        )
    };
    match parsed {
        Ok(command) => Ok(Some(command)),
        Err(error) => Err(error),
    }
}

// ---------------------------------------------------------------------------
// Trails

/// The trail that the log commands read: the one given, else the configured
/// one; a blank name counts as absent.
pub open spec fn log_path(file: Option<Seq<char>>, configured: Option<Seq<char>>) -> Option<
    Seq<char>,
> {
    match (file, configured) {
        (Some(path), _) if trimmed(path).len() > 0 => Some(path),
        (_, Some(path)) if trimmed(path).len() > 0 => Some(path),
        _ => None,
    }
}

fn named(path: Option<&str>) -> (name: Option<String>)
    ensures
        match path {
            Some(p) if trimmed(p@).len() > 0 => name matches Some(n) && n@ == p@,
            _ => name is None,
        },
{
    match path {
        Some(path) => if trim(path).as_str().unicode_len() == 0 {
            None
        } else {
            Some(path.to_owned())
        },
        None => None,
    }
}

/// Resolves the trail that the log commands read, from the `--file` option and
/// the configured trail.
pub fn resolve_log_path(file: Option<&str>, configured: Option<&str>) -> (result: Result<String>)
    ensures
        match log_path(opt_view(file), opt_view(configured)) {
            Some(path) => result matches Ok(p) && p@ == path,
            None => result matches Err(LegError::Usage(text)) && text@
                == "no log file: pass --file <path> or set "@ + EVENT_LOG_ENV@,
        },
{
    if let Some(path) = named(file) {
        return Ok(path);
    }
    if let Some(path) = named(configured) {
        return Ok(path);
    }
    Err(
        LegError::Usage(concat2("no log file: pass --file <path> or set ", EVENT_LOG_ENV)),
    )
}

/// Whether a run is recorded: only under a trail name that is not blank.
pub fn event_log_path(configured: Option<&str>) -> (path: Option<String>)
    ensures
        match log_path(None, opt_view(configured)) {
            Some(name) => path matches Some(p) && p@ == name,
            None => path is None,
        },
{
    named(configured)
}

/// The place of the exchange to replay, or the usage error.
pub open spec fn exchange_choice(count: nat, index: Option<usize>) -> core::result::Result<
    int,
    Seq<char>,
> {
    if count == 0 {
        Err("log contains no complete exchanges to replay"@)
    } else {
        match index {
            None => Ok(count - 1),
            Some(n) => if 1 <= n <= count {
                Ok(n - 1)
            } else {
                Err(
                    "--index "@ + decimal(n as nat) + " is out of range; valid range is 1..="@
                        + decimal(count),
                )
            },
        }
    }
}

/// Selects the exchange to replay, counted from one; the last without a number.
pub fn select_exchange(exchanges: &[Exchange], index: Option<usize>) -> (result: Result<&Exchange>)
    ensures
        match exchange_choice(exchanges@.len(), index) {
            Ok(place) => result matches Ok(exchange) && *exchange == exchanges@[place],
            Err(message) => result matches Err(LegError::Usage(text)) && text@ == message,
        },
{
    if exchanges.len() == 0 {
        return Err(usage("log contains no complete exchanges to replay"));
    }
    match index {
        None => Ok(&exchanges[exchanges.len() - 1]),
        Some(n) => {
            if 1 <= n && n <= exchanges.len() {
                return Ok(&exchanges[n - 1]);
            }
            Err(
                LegError::Usage(
                    concat4(
                        "--index ",
                        decimal_text(n as u64).as_str(),
                        " is out of range; valid range is 1..=",
                        decimal_text(exchanges.len() as u64).as_str(),
                    ),
                ),
            )
        },
    }
}

/// What a replay runs: today's configuration at the recorded model and address,
/// the recorded prompt, and the recorded user turn.
pub struct ReplayTarget {
    /// The configuration.
    pub config: LegConfig,
    /// The prompt.
    pub prompt: String,
    /// The user turn.
    pub content: Vec<ContentBlock>,
}

/// Aims `config` at the recorded exchange. Nothing of the recorded tool results
/// is fed back: the tools run afresh.
pub fn replay_target(config: LegConfig, exchange: &Exchange) -> (target: ReplayTarget)
    ensures
        target.config.model@ == exchange@.request.model,
        target.config.base_url@ == exchange@.request.base_url,
        target.config == (LegConfig {
            model: target.config.model,
            base_url: target.config.base_url,
            ..config
        }),
        target.prompt@ == exchange@.request.prompt,
        views(target.content@) == match exchange@.request.content {
            Some(blocks) => blocks,
            None => seq![BlockView::Text { text: exchange@.request.prompt }],
        },
{
    let mut config = config;
    config.model = exchange.request.model.as_str().to_owned();
    config.base_url = exchange.request.base_url.as_str().to_owned();
    let prompt = exchange.request.prompt.as_str().to_owned();
    let content = match clone_content(&exchange.request.content) {
        Some(blocks) => blocks,
        None => {
            let mut blocks: Vec<ContentBlock> = Vec::new();
            blocks.push(ContentBlock::text(prompt.as_str()));
            assert(views(blocks@) =~= seq![BlockView::Text { text: exchange@.request.prompt }]);
            blocks
        },
    };
    ReplayTarget { config, prompt, content }
}

/// The tool calls of the exchange at place `i`.
pub open spec fn tools_at(tools: Seq<Vec<ToolPair>>, i: int) -> Seq<PairView> {
    if 0 <= i < tools.len() {
        views(tools[i]@)
    } else {
        seq![]
    }
}

/// The first `n` exchanges of a trail, as they are shown.
pub open spec fn shown(exchanges: Seq<ExchangeView>, tools: Seq<Vec<ToolPair>>, n: nat) -> Seq<char>
    decreases n,
{
    if n == 0 || n > exchanges.len() {
        seq![]
    } else {
        shown(exchanges, tools, (n - 1) as nat) + exchange_text(
            n,
            exchanges[n - 1],
            tools_at(tools, n - 1),
        )
    }
}

/// Shows each exchange of a trail with its tool calls.
pub fn execute_log_show(report: &ParseReport) -> (text: String)
    ensures
        text@ == shown(views(report.exchanges@), report.tools@, report.exchanges@.len()),
{
    let ghost exchanges = views(report.exchanges@);
    let none: Vec<ToolPair> = Vec::new();
    assert(views(none@) =~= Seq::<PairView>::empty());
    let mut text = String::new();
    let mut i: usize = 0;
    while i < report.exchanges.len()
        invariant
            i <= report.exchanges.len(),
            exchanges == views(report.exchanges@),
            views(none@) == Seq::<PairView>::empty(),
            text@ == shown(exchanges, report.tools@, i as nat),
        decreases report.exchanges.len() - i,
    {
        let tools = if i < report.tools.len() {
            report.tools[i].as_slice()
        } else {
            none.as_slice()
        };
        assert(exchanges[i as int] == report.exchanges@[i as int]@);
        let shown_exchange = format_exchange_with_tools(i + 1, &report.exchanges[i], tools);
        text = concat2(text.as_str(), shown_exchange.as_str());
        i = i + 1;
    }
    text
}

// ---------------------------------------------------------------------------
// Configuration

/// The metadata of the records of a run under `config`.
pub fn exchange_meta(config: &LegConfig) -> (meta: ExchangeMeta)
    ensures
        meta.model@ == config.model@,
        meta.base_url@ == config.base_url@,
{
    ExchangeMeta {
        model: config.model.as_str().to_owned(),
        base_url: config.base_url.as_str().to_owned(),
    }
}

/// Puts the `--model` option, if there is one, in place of the configured
/// model.
pub fn apply_model_override(config: &mut LegConfig, model: Option<String>)
    ensures
        *final(config) == (match model {
            Some(model) => LegConfig { model, ..*old(config) },
            None => *old(config),
        }),
{
    if let Some(model) = model {
        config.model = model;
    }
}

/// A directory: a base, and the directories below it.
#[derive(Debug, PartialEq, Eq)]
pub struct StoreDir {
    /// The base directory.
    pub base: String,
    /// The directories below it, outermost first.
    pub below: Vec<String>,
}

/// An environment value, where it is set and not empty.
pub open spec fn set_value(text: Option<Seq<char>>) -> Option<Seq<char>> {
    match text {
        Some(t) if t.len() > 0 => Some(t),
        _ => None,
    }
}

/// Where the session store is, from its own variable, the state directory, and
/// the two names of the home directory; or the configuration error.
pub open spec fn store_choice(
    session_dir: Option<Seq<char>>,
    state_home: Option<Seq<char>>,
    home: Option<Seq<char>>,
    profile: Option<Seq<char>>,
) -> core::result::Result<(Seq<char>, Seq<Seq<char>>), Seq<char>> {
    if session_dir is Some && session_dir.unwrap().len() == 0 {
        Err("LEG_SESSION_DIR must not be blank"@)
    } else if session_dir is Some {
        Ok((session_dir.unwrap(), seq![]))
    } else if set_value(state_home) is Some {
        Ok((state_home.unwrap(), seq!["leg"@, "sessions"@]))
    } else if set_value(home) is Some {
        Ok((home.unwrap(), seq![".local"@, "state"@, "leg"@, "sessions"@]))
    } else if set_value(profile) is Some {
        Ok((profile.unwrap(), seq![".local"@, "state"@, "leg"@, "sessions"@]))
    } else {
        Err("could not determine home directory for session store"@)
    }
}

fn is_set(text: Option<&str>) -> (set: bool)
    ensures
        set == (set_value(opt_view(text)) is Some),
{
    match text {
        Some(text) => text.unicode_len() > 0,
        None => false,
    }
}

fn below_state() -> (below: Vec<String>)
    ensures
        views(below@) == seq!["leg"@, "sessions"@],
{
    let mut below: Vec<String> = Vec::new();
    below.push("leg".to_owned());
    below.push("sessions".to_owned());
    assert(views(below@) =~= seq!["leg"@, "sessions"@]);
    below
}

fn below_home() -> (below: Vec<String>)
    ensures
        views(below@) == seq![".local"@, "state"@, "leg"@, "sessions"@],
{
    let mut below: Vec<String> = Vec::new();
    below.push(".local".to_owned());
    below.push("state".to_owned());
    below.push("leg".to_owned());
    below.push("sessions".to_owned());
    assert(views(below@) =~= seq![".local"@, "state"@, "leg"@, "sessions"@]);
    below
}

/// Resolves the directory of the session store from the values of
/// `LEG_SESSION_DIR`, `XDG_STATE_HOME`, `HOME` and `USERPROFILE`.
pub fn session_store_dir(
    session_dir: Option<&str>,
    state_home: Option<&str>,
    home: Option<&str>,
    profile: Option<&str>,
) -> (result: Result<StoreDir>)
    ensures
        match store_choice(
            opt_view(session_dir),
            opt_view(state_home),
            opt_view(home),
            opt_view(profile),
        ) {
            Ok((base, below)) => result matches Ok(dir) && dir.base@ == base && views(dir.below@)
                == below,
            Err(message) => result matches Err(LegError::Config(text)) && text@ == message,
        },
{
    if let Some(path) = session_dir {
        if path.unicode_len() == 0 {
            return Err(LegError::Config("LEG_SESSION_DIR must not be blank".to_owned()));
        }
        let below: Vec<String> = Vec::new();
        assert(views(below@) =~= Seq::<Seq<char>>::empty());
        return Ok(StoreDir { base: path.to_owned(), below });
    }
    if is_set(state_home) {
        return Ok(StoreDir { base: state_home.unwrap().to_owned(), below: below_state() });
    }
    if is_set(home) {
        return Ok(StoreDir { base: home.unwrap().to_owned(), below: below_home() });
    }
    if is_set(profile) {
        return Ok(StoreDir { base: profile.unwrap().to_owned(), below: below_home() });
    }
    Err(LegError::Config("could not determine home directory for session store".to_owned()))
}

/// Whether `c` may stand in a session id that names a file.
pub open spec fn is_id_char(c: char) -> bool {
    ('0' <= c && c <= '9') || ('a' <= c && c <= 'z') || ('A' <= c && c <= 'Z') || c == '-' || c
        == '_'
}

/// Whether `id` is safe as the name of a file.
pub open spec fn is_safe_id(id: Seq<char>) -> bool {
    id.len() > 0 && forall|i: int| 0 <= i < id.len() ==> is_id_char(#[trigger] id[i])
}

/// The file in the session store for `id`; none where the id is no safe name.
pub fn exchange_session_file(id: &str) -> (name: Option<String>)
    ensures
        if is_safe_id(id@) {
            name matches Some(n) && n@ == id@ + ".jsonl"@
        } else {
            name is None
        },
{
    let chars = chars_of(id);
    if chars.len() == 0 {
        return None;
    }
    let mut i: usize = 0;
    while i < chars.len()
        invariant
            i <= chars.len(),
            chars@ == id@,
            forall|k: int| 0 <= k < i ==> is_id_char(#[trigger] id@[k]),
        decreases chars.len() - i,
    {
        let c = chars[i];
        if !(('0' <= c && c <= '9') || ('a' <= c && c <= 'z') || ('A' <= c && c <= 'Z') || c == '-'
            || c == '_') {
            assert(!is_id_char(id@[i as int]));
            return None;
        }
        i = i + 1;
    }
    Some(concat2(id, ".jsonl"))
}

/// The ids that sessions are started under are safe file names.
pub proof fn law_new_session_ids_are_safe(pid: u32, ts_ms: u64)
    ensures
        is_safe_id(session_id_text(pid, ts_ms)),
{
    law_decimal_reads_back(pid as nat);
    law_decimal_reads_back(ts_ms as nat);
    reveal_strlit("sess-");
    reveal_strlit("-");
    let id = session_id_text(pid, ts_ms);
    let first = decimal(pid as nat);
    let second = decimal(ts_ms as nat);
    assert forall|i: int| 0 <= i < id.len() implies is_id_char(#[trigger] id[i]) by {
        if i < 5 {
            assert(id[i] == "sess-"@[i]);
        } else if i < 5 + first.len() {
            assert(id[i] == first[i - 5]);
            assert(is_digit(first[i - 5]));
        } else if i == 5 + first.len() {
            assert(id[i] == '-');
        } else {
            assert(id[i] == second[i - 6 - first.len()]);
            assert(is_digit(second[i - 6 - first.len()]));
        }
    }
}

} // verus!
