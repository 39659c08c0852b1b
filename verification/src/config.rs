//! What a run of the client is configured with, and how it is resolved from the
//! values of its environment variables.

use vstd::prelude::*;

use crate::error::{LegError, Result};
use crate::text::{
    concat3, debug_text, debugged, numeral, opt_view, parse_number, trim, trimmed,
};

verus! {

/// The provider's address when nothing else is configured.
pub const DEFAULT_BASE_URL: &'static str = "https://api.anthropic.com";

/// The model that answers when nothing else is configured.
pub const DEFAULT_MODEL: &'static str = "sonnet-4-6";

/// How long one request may take when nothing else is configured.
pub const DEFAULT_TIMEOUT_SECS: u64 = 60;

/// The reply length asked for when nothing else is configured.
pub const DEFAULT_MAX_TOKENS: u32 = 8192;

/// How long one shell command may run when nothing else is configured.
pub const DEFAULT_BASH_TIMEOUT_SECS: u64 = 120;

/// The tool rounds of one user turn when nothing else is configured.
pub const DEFAULT_MAX_TOOL_ROUNDS: u64 = 10;

/// How often a request is repeated when nothing else is configured.
pub const DEFAULT_MAX_RETRIES: u64 = 2;

/// The ceiling of the first retry delay when nothing else is configured.
pub const DEFAULT_RETRY_BASE_DELAY_MS: u64 = 500;

/// How the client proves itself to the provider.
#[derive(Debug, PartialEq, Eq)]
pub enum Credential {
    /// An API key.
    ApiKey(String),
    /// An OAuth bearer token.
    OAuth(String),
}

/// The resolved configuration.
#[derive(Debug, PartialEq, Eq)]
pub struct LegConfig {
    /// The credential sent with each request.
    pub credential: Credential,
    /// The provider's base URL.
    pub base_url: String,
    /// The model that answers.
    pub model: String,
    /// The time one request may take, in seconds.
    pub timeout_secs: u64,
    /// The length of a reply, in tokens.
    pub max_tokens: u32,
    /// The tool rounds of one user turn; without a limit when absent.
    pub max_tool_rounds: Option<usize>,
    /// The system prompt, if there is one.
    pub system_prompt: Option<String>,
    /// The time one shell command may take, in seconds.
    pub bash_timeout_secs: u64,
    /// The executable that decides about tool calls, if there is one.
    pub pre_tool_hook: Option<String>,
    /// How often a request is repeated at most.
    pub max_retries: u64,
    /// The ceiling of the first retry delay, in milliseconds.
    pub retry_base_delay_ms: u64,
}

/// The values of the environment variables, each where it is set.
#[derive(Debug, PartialEq, Eq)]
pub struct Settings {
    /// `ANTHROPIC_API_KEY`.
    pub api_key: Option<String>,
    /// `ANTHROPIC_AUTH_TOKEN`.
    pub auth_token: Option<String>,
    /// `CLAUDE_CODE_OAUTH_TOKEN`.
    pub oauth_token: Option<String>,
    /// `ANTHROPIC_BASE_URL`.
    pub base_url: Option<String>,
    /// `LEG_MODEL`.
    pub model: Option<String>,
    /// `LEG_TIMEOUT_SECS`.
    pub timeout_secs: Option<String>,
    /// `LEG_MAX_TOKENS`.
    pub max_tokens: Option<String>,
    /// `LEG_MAX_TOOL_ROUNDS`.
    pub max_tool_rounds: Option<String>,
    /// `LEG_SYSTEM_PROMPT`.
    pub system_prompt: Option<String>,
    /// `LEG_BASH_TIMEOUT_SECS`.
    pub bash_timeout_secs: Option<String>,
    /// `LEG_PRETOOL_HOOK`.
    pub pre_tool_hook: Option<String>,
    /// `LEG_MAX_RETRIES`.
    pub max_retries: Option<String>,
    /// `LEG_RETRY_BASE_DELAY_MS`.
    pub retry_base_delay_ms: Option<String>,
}

/// A value that is set and not blank.
pub open spec fn given(value: Option<Seq<char>>) -> Option<Seq<char>> {
    match value {
        Some(text) if trimmed(text).len() > 0 => Some(text),
        _ => None,
    }
}

fn given_text(value: &Option<String>) -> (text: Option<String>)
    ensures
        opt_view(text) == given(opt_view(*value)),
{
    match value {
        Some(text) => if trim(text.as_str()).as_str().unicode_len() == 0 {
            None
        } else {
            Some(text.as_str().to_owned())
        },
        None => None,
    }
}

/// The number that a value writes, between `least` and `most`; the default when
/// it is not given; else the complaint.
pub open spec fn count_setting(
    name: Seq<char>,
    value: Option<Seq<char>>,
    default: u64,
    least: u64,
    most: u64,
) -> core::result::Result<u64, Seq<char>> {
    match given(value) {
        None => Ok(default),
        Some(text) => match numeral(trimmed(text), most as nat) {
            Some(n) if n >= least => Ok(n as u64),
            _ => Err(
                name + (if least == 0 {
                    " must be a non-negative integer, got "@
                } else {
                    " must be a positive integer, got "@
                }) + debugged(text),
            ),
        },
    }
}

fn read_count_setting(
    name: &str,
    value: &Option<String>,
    default: u64,
    least: u64,
    most: u64,
) -> (result: Result<u64>)
    ensures
        match count_setting(name@, opt_view(*value), default, least, most) {
            Ok(n) => result matches Ok(number) && number == n,
            Err(message) => result matches Err(LegError::Config(text)) && text@ == message,
        },
{
    let text = match given_text(value) {
        None => {
            return Ok(default);
        },
        Some(text) => text,
    };
    if let Some(n) = parse_number(trim(text.as_str()).as_str(), most) {
        if n >= least {
            return Ok(n);
        }
    }
    let complaint = if least == 0 {
        " must be a non-negative integer, got "
    } else {
        " must be a positive integer, got "
    };
    let shown = debug_text(text.as_str());
    Err(LegError::Config(concat3(name, complaint, shown.as_str())))
}

/// Whether `credential` is the one that the settings name: the API key before
/// the bearer tokens.
pub open spec fn is_credential(settings: Settings, credential: Credential) -> bool {
    match given(opt_view(settings.api_key)) {
        Some(key) => credential matches Credential::ApiKey(text) && text@ == key,
        None => match given(opt_view(settings.auth_token)) {
            Some(token) => credential matches Credential::OAuth(text) && text@ == token,
            None => match given(opt_view(settings.oauth_token)) {
                Some(token) => credential matches Credential::OAuth(text) && text@ == token,
                None => false,
            },
        },
    }
}

/// Whether the settings name a credential at all.
pub open spec fn has_credential(settings: Settings) -> bool {
    given(opt_view(settings.api_key)) is Some || given(opt_view(settings.auth_token)) is Some
        || given(opt_view(settings.oauth_token)) is Some
}

/// The credential that the settings name.
pub fn credential_of(settings: &Settings) -> (credential: Option<Credential>)
    ensures
        match credential {
            Some(credential) => is_credential(*settings, credential),
            None => !has_credential(*settings),
        },
{
    if let Some(key) = given_text(&settings.api_key) {
        return Some(Credential::ApiKey(key));
    }
    if let Some(token) = given_text(&settings.auth_token) {
        return Some(Credential::OAuth(token));
    }
    match given_text(&settings.oauth_token) {
        Some(token) => Some(Credential::OAuth(token)),
        None => None,
    }
}

/// The numbers of a configuration.
pub struct Counts {
    pub timeout_secs: u64,
    pub max_tokens: u64,
    pub max_tool_rounds: u64,
    pub bash_timeout_secs: u64,
    pub max_retries: u64,
    pub retry_base_delay_ms: u64,
}

/// The numbers that the settings give, or the complaint about the first that is
/// none.
pub open spec fn counts_of(settings: Settings) -> core::result::Result<Counts, Seq<char>> {
    match (
        count_setting(
            "LEG_TIMEOUT_SECS"@,
            opt_view(settings.timeout_secs),
            DEFAULT_TIMEOUT_SECS,
            1,
            u64::MAX,
        ),
        count_setting(
            "LEG_MAX_TOKENS"@,
            opt_view(settings.max_tokens),
            DEFAULT_MAX_TOKENS as u64,
            1,
            u32::MAX as u64,
        ),
        count_setting(
            "LEG_MAX_TOOL_ROUNDS"@,
            opt_view(settings.max_tool_rounds),
            DEFAULT_MAX_TOOL_ROUNDS,
            1,
            usize::MAX as u64,
        ),
        count_setting(
            "LEG_BASH_TIMEOUT_SECS"@,
            opt_view(settings.bash_timeout_secs),
            DEFAULT_BASH_TIMEOUT_SECS,
            1,
            u64::MAX,
        ),
        count_setting(
            "LEG_MAX_RETRIES"@,
            opt_view(settings.max_retries),
            DEFAULT_MAX_RETRIES,
            0,
            u64::MAX,
        ),
        count_setting(
            "LEG_RETRY_BASE_DELAY_MS"@,
            opt_view(settings.retry_base_delay_ms),
            DEFAULT_RETRY_BASE_DELAY_MS,
            0,
            u64::MAX,
        ),
    ) {
        (Err(m), _, _, _, _, _) => Err(m),
        (_, Err(m), _, _, _, _) => Err(m),
        (_, _, Err(m), _, _, _) => Err(m),
        (_, _, _, Err(m), _, _) => Err(m),
        (_, _, _, _, Err(m), _) => Err(m),
        (_, _, _, _, _, Err(m)) => Err(m),
        (
            Ok(timeout_secs),
            Ok(max_tokens),
            Ok(max_tool_rounds),
            Ok(bash_timeout_secs),
            Ok(max_retries),
            Ok(retry_base_delay_ms),
        ) => Ok(
            Counts {
                timeout_secs,
                max_tokens,
                max_tool_rounds,
                bash_timeout_secs,
                max_retries,
                retry_base_delay_ms,
            },
        ),
    }
}

fn read_counts(settings: &Settings) -> (result: Result<Counts>)
    ensures
        match counts_of(*settings) {
            Ok(counts) => result matches Ok(c) && c == counts,
            Err(message) => result matches Err(LegError::Config(text)) && text@ == message,
        },
        result matches Ok(c) ==> c.max_tokens <= u32::MAX && c.max_tool_rounds <= usize::MAX,
{
    let timeout_secs: u64 = read_count_setting(
        "LEG_TIMEOUT_SECS",
        &settings.timeout_secs,
        DEFAULT_TIMEOUT_SECS,
        1,
        u64::MAX,
    )?;
    let max_tokens: u64 = read_count_setting(
        "LEG_MAX_TOKENS",
        &settings.max_tokens,
        DEFAULT_MAX_TOKENS as u64,
        1,
        u32::MAX as u64,
    )?;
    let max_tool_rounds: u64 = read_count_setting(
        "LEG_MAX_TOOL_ROUNDS",
        &settings.max_tool_rounds,
        DEFAULT_MAX_TOOL_ROUNDS,
        1,
        usize::MAX as u64,
    )?;
    let bash_timeout_secs: u64 = read_count_setting(
        "LEG_BASH_TIMEOUT_SECS",
        &settings.bash_timeout_secs,
        DEFAULT_BASH_TIMEOUT_SECS,
        1,
        u64::MAX,
    )?;
    let max_retries: u64 = read_count_setting(
        "LEG_MAX_RETRIES",
        &settings.max_retries,
        DEFAULT_MAX_RETRIES,
        0,
        u64::MAX,
    )?;
    let retry_base_delay_ms: u64 = read_count_setting(
        "LEG_RETRY_BASE_DELAY_MS",
        &settings.retry_base_delay_ms,
        DEFAULT_RETRY_BASE_DELAY_MS,
        0,
        u64::MAX,
    )?;
    Ok(
        Counts {
            timeout_secs,
            max_tokens,
            max_tool_rounds,
            bash_timeout_secs,
            max_retries,
            retry_base_delay_ms,
        },
    )
}

/// Whether `config` is what complete settings resolve to.
pub open spec fn is_configured(settings: Settings, counts: Counts, config: LegConfig) -> bool {
    &&& is_credential(settings, config.credential)
    &&& config.base_url@ == match given(opt_view(settings.base_url)) {
        Some(url) => url,
        None => DEFAULT_BASE_URL@,
    }
    &&& config.model@ == match given(opt_view(settings.model)) {
        Some(model) => model,
        None => DEFAULT_MODEL@,
    }
    &&& opt_view(config.system_prompt) == given(opt_view(settings.system_prompt))
    &&& opt_view(config.pre_tool_hook) == given(opt_view(settings.pre_tool_hook))
    &&& config.timeout_secs == counts.timeout_secs
    &&& config.max_tokens == counts.max_tokens
    &&& config.bash_timeout_secs == counts.bash_timeout_secs
    &&& config.max_retries == counts.max_retries
    &&& config.retry_base_delay_ms == counts.retry_base_delay_ms
    &&& config.max_tool_rounds == Some(counts.max_tool_rounds as usize)
}

impl LegConfig {
    /// Resolves the settings: a credential has to be there, and what is to be a
    /// number has to be one.
    pub fn from_settings(settings: &Settings) -> (result: Result<LegConfig>)
        ensures
            if !has_credential(*settings) {
                result matches Err(LegError::Config(text)) && text@
                    == "no credential: set ANTHROPIC_API_KEY, ANTHROPIC_AUTH_TOKEN or CLAUDE_CODE_OAUTH_TOKEN"@
            } else {
                match counts_of(*settings) {
                    Ok(counts) => result matches Ok(config) && is_configured(
                        *settings,
                        counts,
                        config,
                    ),
                    Err(message) => result matches Err(LegError::Config(text)) && text@ == message,
                }
            },
    {
        let credential = match credential_of(settings) {
            Some(credential) => credential,
            None => {
                return Err(
                    LegError::Config(
                        "no credential: set ANTHROPIC_API_KEY, ANTHROPIC_AUTH_TOKEN or CLAUDE_CODE_OAUTH_TOKEN".to_owned(),
                    ),
                );
            },
        };
        let model = match given_text(&settings.model) {
            Some(model) => model,
            None => DEFAULT_MODEL.to_owned(),
        };
        let counts = match read_counts(settings) {
            Ok(counts) => counts,
            Err(error) => {
                return Err(error);
            },
        };
        let base_url = match given_text(&settings.base_url) {
            Some(url) => url,
            None => DEFAULT_BASE_URL.to_owned(),
        };
        Ok(
            LegConfig {
                credential,
                base_url,
                model,
                timeout_secs: counts.timeout_secs,
                max_tokens: counts.max_tokens as u32,
                max_tool_rounds: Some(counts.max_tool_rounds as usize),
                system_prompt: given_text(&settings.system_prompt),
                bash_timeout_secs: counts.bash_timeout_secs,
                pre_tool_hook: given_text(&settings.pre_tool_hook),
                max_retries: counts.max_retries,
                retry_base_delay_ms: counts.retry_base_delay_ms,
            },
        )
    }
}

} // verus!
