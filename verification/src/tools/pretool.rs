//! The optional hook that decides about each tool call before it runs.
//!
//! It fails closed: whatever is not a clear permission is a denial.

use vstd::prelude::*;

use crate::json::{
    add_member, field, json_text, member_trees, object, parse_json, parsed, string, value, Json,
    JsonTree, JsonValue,
};
use crate::text::{concat2, same_text, trim, trimmed};
use crate::tools::process::CappedOutput;
use crate::wire::messaged;

verus! {

/// How long a hook may run, in nanoseconds: 30 seconds.
pub const HOOK_TIMEOUT: u128 = 30_000_000_000;

/// The denial for a hook that gave no usable decision.
pub const GENERIC_DENIAL: &'static str = "denied by pre-tool hook: hook failed";

/// What a hook is told about a call, its keys sorted.
pub open spec fn payload_tree(tool_name: Seq<char>, tool_input: JsonTree, cwd: Seq<char>) -> JsonTree {
    JsonTree::Object(
        seq![
            ("cwd"@, JsonTree::Text(cwd)),
            ("hook_event_name"@, JsonTree::Text("PreToolUse"@)),
            ("tool_input"@, tool_input),
            ("tool_name"@, JsonTree::Text(tool_name)),
        ],
    )
}

/// Writes what a hook is told about a call.
pub fn payload(tool_name: &str, tool_input: &Json, cwd: &str) -> (text: String)
    ensures
        text@ == json_text(payload_tree(tool_name@, tool_input@, cwd@)),
{
    let mut members: Vec<(String, Json)> = Vec::new();
    add_member(&mut members, "cwd", string(cwd));
    add_member(&mut members, "hook_event_name", string("PreToolUse"));
    add_member(&mut members, "tool_input", tool_input.clone());
    add_member(&mut members, "tool_name", string(tool_name));
    assert(member_trees(members@) =~= payload_tree(tool_name@, tool_input@, cwd@)->Object_0);
    object(members).to_text()
}

/// What a decision says: permission, or the denial for the model. A denial
/// without a reason is no usable decision.
pub open spec fn decision(v: JsonValue) -> Result<(), Seq<char>> {
    match field(v, "decision"@) {
        Some(JsonValue::Text(word)) => if word == "allow"@ {
            Ok(())
        } else if word == "deny"@ {
            match field(v, "reason"@) {
                Some(JsonValue::Text(reason)) => if trimmed(reason).len() > 0 {
                    Err("denied by pre-tool hook: "@ + reason)
                } else {
                    Err(GENERIC_DENIAL@)
                },
                _ => Err(GENERIC_DENIAL@),
            }
        } else {
            Err(GENERIC_DENIAL@)
        },
        _ => Err(GENERIC_DENIAL@),
    }
}

/// Reads a decision.
pub fn read_decision(json: &Json) -> (result: Result<(), String>)
    ensures
        messaged(result) == decision(json.value()),
{
    let word = match json.get("decision") {
        Some(word) => match word.as_text() {
            Some(word) => word,
            None => {
                return Err(GENERIC_DENIAL.to_owned());
            },
        },
        None => {
            return Err(GENERIC_DENIAL.to_owned());
        },
    };
    if same_text(word, "allow") {
        return Ok(());
    }
    if !same_text(word, "deny") {
        return Err(GENERIC_DENIAL.to_owned());
    }
    match json.get("reason") {
        Some(reason) => match reason.as_text() {
            Some(reason) => if trim(reason).as_str().unicode_len() > 0 {
                Err(concat2("denied by pre-tool hook: ", reason))
            } else {
                Err(GENERIC_DENIAL.to_owned())
            },
            None => Err(GENERIC_DENIAL.to_owned()),
        },
        None => Err(GENERIC_DENIAL.to_owned()),
    }
}

/// What the output of a hook decides: silence permits.
pub open spec fn decision_text(stdout: Seq<char>) -> Result<(), Seq<char>> {
    if trimmed(stdout).len() == 0 {
        Ok(())
    } else {
        match parsed(stdout) {
            Err(_) => Err(GENERIC_DENIAL@),
            Ok(t) => decision(value(t)),
        }
    }
}

/// Reads the decision in the output of a hook.
pub fn parse_decision(stdout: &str) -> (result: Result<(), String>)
    ensures
        messaged(result) == decision_text(stdout@),
{
    if trim(stdout).as_str().unicode_len() == 0 {
        return Ok(());
    }
    match parse_json(stdout) {
        Err(_) => Err(GENERIC_DENIAL.to_owned()),
        Ok(json) => read_decision(&json),
    }
}

/// Whether a hook ran to its end and its whole output is known.
pub open spec fn is_sound(timed_out: bool, exit_code: i32, stdout: CappedOutput) -> bool {
    !timed_out && exit_code == 0 && stdout.omitted_bytes == 0 && stdout.valid_utf8
}

/// What a hook that ran decides about its call.
pub fn judge(timed_out: bool, exit_code: i32, stdout: &CappedOutput) -> (result: Result<(), String>)
    ensures
        messaged(result) == if is_sound(timed_out, exit_code, *stdout) {
            decision_text(stdout.text@)
        } else {
            Err(GENERIC_DENIAL@)
        },
{
    if timed_out || exit_code != 0 || stdout.omitted_bytes != 0 || !stdout.valid_utf8 {
        return Err(GENERIC_DENIAL.to_owned());
    }
    parse_decision(stdout.text.as_str())
}

/// The hook fails closed: a call that a hook lets pass was permitted by a hook
/// that ran to its end and said nothing, or said `allow`.
pub proof fn law_hook_fails_closed(stdout: Seq<char>)
    requires
        decision_text(stdout) is Ok,
    ensures
        trimmed(stdout).len() == 0 || (parsed(stdout) matches Ok(t) && field(
            value(t),
            "decision"@,
        ) == Some(JsonValue::Text("allow"@))),
{
}

} // verus!
