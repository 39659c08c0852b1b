//! What the environment configures.

use vstd::prelude::*;

use crate::config::{
    count_setting, counts_of, given, has_credential, is_configured, is_credential, Counts,
    Credential, LegConfig, Settings,
};
use crate::laws::text::{
    is_white, law_numbers_are_read_as_they_are_written, law_trimming_takes_white_space_off_the_ends,
    writes,
};
use crate::text::{opt_view, trimmed};

verus! {

/// Whether a variable is set to more than white space.
pub open spec fn is_set(value: Option<String>) -> bool {
    match value {
        Some(text) => exists|i: int| 0 <= i < text@.len() && !is_white(#[trigger] text@[i] as u32),
        None => false,
    }
}

proof fn lemma_given(value: Option<String>)
    ensures
        given(opt_view(value)) == (if is_set(value) {
            Some(value.unwrap()@)
        } else {
            None
        }),
{
    if let Some(text) = value {
        law_trimming_takes_white_space_off_the_ends(text@);
    }
}

/// Whether `n` is what a variable sets: the number it writes, white space around it
/// aside, from `least` to `most`; or `usual`, where it is not set.
pub open spec fn is_count(value: Option<String>, usual: u64, least: u64, most: u64, n: u64) -> bool {
    if !is_set(value) {
        n == usual
    } else {
        let text = trimmed(value.unwrap()@);
        &&& least <= n <= most
        &&& (text.len() > 0 && writes(text, n as nat)) || (text.len() > 1 && text[0] == '+'
            && writes(text.skip(1), n as nat))
    }
}

proof fn lemma_count(
    name: Seq<char>,
    value: Option<String>,
    usual: u64,
    least: u64,
    most: u64,
    n: u64,
)
    ensures
        count_setting(name, opt_view(value), usual, least, most) == Ok::<u64, Seq<char>>(n)
            <==> is_count(value, usual, least, most, n),
{
    lemma_given(value);
    if is_set(value) {
        law_numbers_are_read_as_they_are_written(
            trimmed(value.unwrap()@),
            most as nat,
            n as nat,
        );
    }
}

/// The numbers of a configuration are those that are set, each within its range, and
/// the usual ones where nothing is set: a minute for a request, 8192 tokens for a
/// reply, 10 tool rounds, two minutes for a command, two retries, and half a second
/// before the first of them.
pub proof fn law_numbers_are_those_set(settings: Settings, counts: Counts)
    ensures
        counts_of(settings) == Ok::<Counts, Seq<char>>(counts) <==> {
            &&& is_count(settings.timeout_secs, 60, 1, u64::MAX, counts.timeout_secs)
            &&& is_count(settings.max_tokens, 8192, 1, u32::MAX as u64, counts.max_tokens)
            &&& is_count(settings.max_tool_rounds, 10, 1, usize::MAX as u64, counts.max_tool_rounds)
            &&& is_count(settings.bash_timeout_secs, 120, 1, u64::MAX, counts.bash_timeout_secs)
            &&& is_count(settings.max_retries, 2, 0, u64::MAX, counts.max_retries)
            &&& is_count(
                settings.retry_base_delay_ms,
                500,
                0,
                u64::MAX,
                counts.retry_base_delay_ms,
            )
        },
{
    let c = counts;
    lemma_count("LEG_TIMEOUT_SECS"@, settings.timeout_secs, 60, 1, u64::MAX, c.timeout_secs);
    lemma_count("LEG_MAX_TOKENS"@, settings.max_tokens, 8192, 1, u32::MAX as u64, c.max_tokens);
    lemma_count(
        "LEG_MAX_TOOL_ROUNDS"@,
        settings.max_tool_rounds,
        10,
        1,
        usize::MAX as u64,
        c.max_tool_rounds,
    );
    lemma_count(
        "LEG_BASH_TIMEOUT_SECS"@,
        settings.bash_timeout_secs,
        120,
        1,
        u64::MAX,
        c.bash_timeout_secs,
    );
    lemma_count("LEG_MAX_RETRIES"@, settings.max_retries, 2, 0, u64::MAX, c.max_retries);
    lemma_count(
        "LEG_RETRY_BASE_DELAY_MS"@,
        settings.retry_base_delay_ms,
        500,
        0,
        u64::MAX,
        c.retry_base_delay_ms,
    );
}

/// Whether `text` is what a variable sets, or `usual` where it is not set.
pub open spec fn is_text(value: Option<String>, usual: Option<Seq<char>>, text: Option<Seq<char>>) -> bool {
    text == if is_set(value) {
        Some(value.unwrap()@)
    } else {
        usual
    }
}

/// The credential is the API key, or else a bearer token, the authentication token
/// before the other; there is one exactly where one of the three is set.
pub proof fn law_the_api_key_comes_first(settings: Settings, credential: Credential)
    ensures
        has_credential(settings) <==> is_set(settings.api_key) || is_set(settings.auth_token)
            || is_set(settings.oauth_token),
        is_credential(settings, credential) <==> if is_set(settings.api_key) {
            credential matches Credential::ApiKey(key) && key@ == settings.api_key.unwrap()@
        } else if is_set(settings.auth_token) {
            credential matches Credential::OAuth(token) && token@ == settings.auth_token.unwrap()@
        } else {
            is_set(settings.oauth_token) && (credential matches Credential::OAuth(token) && token@
                == settings.oauth_token.unwrap()@)
        },
{
    lemma_given(settings.api_key);
    lemma_given(settings.auth_token);
    lemma_given(settings.oauth_token);
}

/// Every part of a configuration is what its own variable sets.
pub proof fn law_configurations_follow_the_settings(
    settings: Settings,
    counts: Counts,
    config: LegConfig,
)
    requires
        is_configured(settings, counts, config),
    ensures
        is_credential(settings, config.credential),
        is_text(settings.base_url, Some("https://api.anthropic.com"@), Some(config.base_url@)),
        is_set(settings.model) ==> config.model@ == settings.model.unwrap()@,
        is_text(settings.system_prompt, None, opt_view(config.system_prompt)),
        is_text(settings.pre_tool_hook, None, opt_view(config.pre_tool_hook)),
        config.timeout_secs == counts.timeout_secs,
        config.max_tokens == counts.max_tokens,
        config.bash_timeout_secs == counts.bash_timeout_secs,
        config.max_retries == counts.max_retries,
        config.retry_base_delay_ms == counts.retry_base_delay_ms,
        config.max_tool_rounds == Some(counts.max_tool_rounds as usize),
{
    lemma_given(settings.base_url);
    lemma_given(settings.model);
    lemma_given(settings.system_prompt);
    lemma_given(settings.pre_tool_hook);
}

} // verus!
