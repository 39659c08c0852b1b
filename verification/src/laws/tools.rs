//! How the calls of the tools are read and answered.

use vstd::prelude::*;
use vstd::utf8::{decode_utf8, valid_utf8};

use crate::json::{field, parsed, value, JsonTree, JsonValue, NumberTree};
use crate::laws::json::law_the_last_member_counts;
use crate::laws::read::{first_shown, is_shown, law_window_shows_the_file_from_its_offset};
use crate::laws::request::says;
use crate::text::{decimal, split_on, trimmed};
use crate::tools::bash::{
    bash_call, bash_description, run_tree, timeout_property, BashRun, DESCRIPTION,
};
use crate::tools::edit::{edit_call, EditCall};
use crate::tools::pretool::{decision, decision_text, is_sound, payload_tree};
use crate::tools::process::CappedOutput;
use crate::tools::read::{read_answer, read_call, FaultKind, FileFault};
use crate::tools::write::{write_answer, write_call, WriteAttempt};

verus! {

/// Whether the optional argument `key` gives `count`; a `null` gives none.
pub open spec fn gives_count(input: JsonValue, key: Seq<char>, count: Option<u64>) -> bool {
    match count {
        Some(n) => field(input, key) == Some(JsonValue::Number(NumberTree::Unsigned(n))),
        None => field(input, key) is None || field(input, key) == Some(JsonValue::Null),
    }
}

/// A `read` call is made of its arguments, and refused only where one is of the wrong
/// kind or the path is not there.
pub proof fn law_read_calls_take_their_arguments(
    input: JsonValue,
    path: Seq<char>,
    offset: Option<u64>,
    limit: Option<u64>,
)
    ensures
        read_call(input) == Ok::<(Seq<char>, Option<u64>, Option<u64>), Seq<char>>(
            (path, offset, limit),
        ) <==> says(input, "path"@, path) && gives_count(input, "offset"@, offset) && gives_count(
            input,
            "limit"@,
            limit,
        ),
{
}

/// A `write` call is made of its arguments, and refused only where one is missing or no
/// text.
pub proof fn law_write_calls_take_their_arguments(
    input: JsonValue,
    path: Seq<char>,
    content: Seq<char>,
)
    ensures
        write_call(input) == Ok::<(Seq<char>, Seq<char>), Seq<char>>((path, content)) <==> says(
            input,
            "path"@,
            path,
        ) && says(input, "content"@, content),
{
}

/// An `edit` call is made of its arguments. It replaces one place unless it says
/// otherwise, and is refused where there is nothing to look for or nothing to change.
pub proof fn law_edit_calls_take_their_arguments(input: JsonValue, call: EditCall)
    ensures
        edit_call(input) == Ok::<EditCall, Seq<char>>(call) <==> {
            &&& says(input, "path"@, call.path)
            &&& says(input, "oldString"@, call.old_string)
            &&& says(input, "newString"@, call.new_string)
            &&& field(input, "replaceAll"@) == Some(JsonValue::Bool(call.replace_all)) || (field(
                input,
                "replaceAll"@,
            ) is None && !call.replace_all)
            &&& call.old_string.len() > 0
            &&& call.old_string != call.new_string
        },
{
}

/// A `bash` call is made of its command and its time limit, or the usual one.
pub proof fn law_bash_calls_take_their_arguments(
    input: JsonValue,
    usual: u64,
    command: Seq<char>,
    seconds: u64,
)
    ensures
        bash_call(input, usual) == Ok::<(Seq<char>, u64), Seq<char>>((command, seconds)) <==> {
            &&& says(input, "command"@, command)
            &&& field(input, "description"@) is Some ==> field(input, "description"@).unwrap() is Text
            &&& match field(input, "timeout"@) {
                None => seconds == usual,
                Some(v) => v == JsonValue::Number(NumberTree::Unsigned(seconds)),
            }
        },
{
}

/// What the system said of a failed file operation, its errno name in front where it
/// is a known one.
pub open spec fn said_of_fault(fault: FileFault) -> Seq<char> {
    if fault.kind == FaultKind::NotFound {
        "ENOENT: "@ + fault.message@
    } else if fault.kind == FaultKind::PermissionDenied {
        "EACCES: "@ + fault.message@
    } else {
        fault.message@
    }
}

/// A `read` call shows lines of the text that the file holds; where the file cannot be
/// read or holds no text, it says so and names the path.
pub proof fn law_reads_show_the_file(
    offset: Option<u64>,
    limit: Option<u64>,
    full: Seq<char>,
    file: Result<Vec<u8>, FileFault>,
)
    ensures
        match file {
            Err(fault) => read_answer(offset, limit, full, file) == Err::<Seq<char>, Seq<char>>(
                "cannot read "@ + full + ": "@ + said_of_fault(fault),
            ),
            Ok(bytes) => if !valid_utf8(bytes@) {
                read_answer(offset, limit, full, file) == Err::<Seq<char>, Seq<char>>(
                    "cannot read "@ + full + ": not valid UTF-8 text"@,
                )
            } else {
                let lines = split_on(decode_utf8(bytes@), '\n');
                match read_answer(offset, limit, full, file) {
                    Ok(shown) => is_shown(lines, first_shown(offset), limit, shown),
                    Err(_) => first_shown(offset) >= lines.len(),
                }
            },
        },
{
    if let Ok(bytes) = file {
        law_window_shows_the_file_from_its_offset(decode_utf8(bytes@), offset, limit);
    }
}

/// A `write` call that was carried out says so and names the path as it was given; one
/// that failed names what could not be made or written, and why.
pub proof fn law_writes_say_how_they_went(path: Seq<char>, full: Seq<char>, attempt: WriteAttempt)
    ensures
        match attempt {
            WriteAttempt::Written => write_answer(path, full, attempt) == Ok::<
                Seq<char>,
                Seq<char>,
            >("Successfully wrote to "@ + path),
            WriteAttempt::ParentFailed { parent, fault } => write_answer(path, full, attempt)
                == Err::<Seq<char>, Seq<char>>(
                "cannot create "@ + parent@ + ": "@ + said_of_fault(fault),
            ),
            WriteAttempt::WriteFailed(fault) => write_answer(path, full, attempt) == Err::<
                Seq<char>,
                Seq<char>,
            >("cannot write "@ + full + ": "@ + said_of_fault(fault)),
        },
{
}

/// The member `key` of `v` is the count `n`.
pub open spec fn counts(v: JsonValue, key: Seq<char>, n: u64) -> bool {
    field(v, key) == Some(JsonValue::Number(NumberTree::Unsigned(n)))
}

/// The result of a command tells how it ended, its exit code with its sign, what was
/// kept of each stream and how much was not, each under its own name.
pub proof fn law_commands_tell_how_they_ended(run: BashRun)
    ensures
        ({
            let v = value(run_tree(run));
            &&& says(v, "status"@, run.status@)
            &&& says(v, "stdout"@, run.stdout@)
            &&& says(v, "stderr"@, run.stderr@)
            &&& counts(v, "stdout_omitted_bytes"@, run.stdout_omitted_bytes)
            &&& counts(v, "stderr_omitted_bytes"@, run.stderr_omitted_bytes)
            &&& if run.exit_code >= 0 {
                counts(v, "exit_code"@, run.exit_code as u64)
            } else {
                field(v, "exit_code"@) == Some(
                    JsonValue::Number(NumberTree::Negative(run.exit_code as i64)),
                )
            }
            &&& field(v, "wall_time_seconds"@) == Some(
                JsonValue::Number(NumberTree::Other(run.wall_time_seconds@)),
            )
        }),
{
    reveal_strlit("exit_code");
    reveal_strlit("status");
    reveal_strlit("stderr");
    reveal_strlit("stderr_omitted_bytes");
    reveal_strlit("stdout");
    reveal_strlit("stdout_omitted_bytes");
    reveal_strlit("wall_time_seconds");
    assert("exit_code"@.len() == 9 && "status"@.len() == 6 && "stderr"@.len() == 6
        && "stderr_omitted_bytes"@.len() == 20 && "stdout"@.len() == 6
        && "stdout_omitted_bytes"@.len() == 20 && "wall_time_seconds"@.len() == 17);
    assert("status"@[2] != "stderr"@[2] && "status"@[2] != "stdout"@[2] && "stderr"@[3]
        != "stdout"@[3]);
    assert("stderr_omitted_bytes"@[3] != "stdout_omitted_bytes"@[3]);
    let members = run_tree(run)->Object_0;
    assert(members.len() == 7);
    assert(members[0].0 == "exit_code"@ && members[1].0 == "status"@ && members[2].0 == "stderr"@
        && members[3].0 == "stderr_omitted_bytes"@ && members[4].0 == "stdout"@ && members[5].0
        == "stdout_omitted_bytes"@ && members[6].0 == "wall_time_seconds"@);
    law_the_last_member_counts(members, 0);
    law_the_last_member_counts(members, 1);
    law_the_last_member_counts(members, 2);
    law_the_last_member_counts(members, 3);
    law_the_last_member_counts(members, 4);
    law_the_last_member_counts(members, 5);
    law_the_last_member_counts(members, 6);
}

/// A hook is told the name and the arguments of the call, and where it is to run.
pub proof fn law_hooks_are_told_the_call(tool_name: Seq<char>, tool_input: JsonTree, cwd: Seq<char>)
    ensures
        ({
            let v = value(payload_tree(tool_name, tool_input, cwd));
            &&& says(v, "tool_name"@, tool_name)
            &&& field(v, "tool_input"@) == Some(value(tool_input))
            &&& says(v, "cwd"@, cwd)
            &&& says(v, "hook_event_name"@, "PreToolUse"@)
        }),
{
    reveal_strlit("cwd");
    reveal_strlit("hook_event_name");
    reveal_strlit("tool_input");
    reveal_strlit("tool_name");
    assert("cwd"@.len() == 3 && "hook_event_name"@.len() == 15 && "tool_input"@.len() == 10
        && "tool_name"@.len() == 9);
    let members = payload_tree(tool_name, tool_input, cwd)->Object_0;
    assert(members.len() == 4 && members[0].0 == "cwd"@ && members[1].0 == "hook_event_name"@
        && members[2].0 == "tool_input"@ && members[3].0 == "tool_name"@);
    law_the_last_member_counts(members, 0);
    law_the_last_member_counts(members, 1);
    law_the_last_member_counts(members, 2);
    law_the_last_member_counts(members, 3);
}

/// A hook allows a call by saying nothing at all or `allow`, and by nothing else. A
/// denial hands on the reason that was given, if it says anything.
pub proof fn law_hooks_allow_by_silence_or_by_word(stdout: Seq<char>)
    ensures
        decision_text(stdout) is Ok <==> trimmed(stdout).len() == 0 || (parsed(stdout) is Ok && says(
            value(parsed(stdout)->Ok_0),
            "decision"@,
            "allow"@,
        )),
        decision_text(stdout) matches Err(message) ==> {
            ||| message == "denied by pre-tool hook: hook failed"@
            ||| exists|reason: Seq<char>|
                {
                    &&& message == #[trigger] ("denied by pre-tool hook: "@ + reason)
                    &&& trimmed(reason).len() > 0
                    &&& parsed(stdout) is Ok
                    &&& says(value(parsed(stdout)->Ok_0), "decision"@, "deny"@)
                    &&& says(value(parsed(stdout)->Ok_0), "reason"@, reason)
                }
        },
        parsed(stdout) is Ok && trimmed(stdout).len() > 0 && says(
            value(parsed(stdout)->Ok_0),
            "decision"@,
            "deny"@,
        ) ==> forall|reason: Seq<char>|
            says(value(parsed(stdout)->Ok_0), "reason"@, reason) && trimmed(reason).len() > 0
                ==> decision_text(stdout) == Err::<(), Seq<char>>(
                #[trigger] ("denied by pre-tool hook: "@ + reason),
            ),
{
    reveal_strlit("allow");
    reveal_strlit("deny");
    assert("allow"@.len() == 5 && "deny"@.len() == 4);
}

/// The `bash` tool is declared with its usual time limit, in the description and as the
/// default of the argument.
pub proof fn law_bash_declares_its_usual_limit(usual: u64)
    ensures
        ({
            let timeout = value(timeout_property(usual));
            let unit = if usual == 1 {
                " second by default; set timeout to change the limit."@
            } else {
                " seconds by default; set timeout to change the limit."@
            };
            &&& counts(timeout, "default"@, usual)
            &&& counts(timeout, "minimum"@, 0)
            &&& says(timeout, "type"@, "integer"@)
            &&& says(
                timeout,
                "description"@,
                "Maximum run time in seconds (default "@ + decimal(usual as nat) + ")"@,
            )
            &&& bash_description(usual) == DESCRIPTION@ + (" Commands time out after "@ + (decimal(
                usual as nat,
            ) + unit))
        }),
{
    reveal_strlit("default");
    reveal_strlit("description");
    reveal_strlit("minimum");
    reveal_strlit("type");
    assert("default"@.len() == 7 && "description"@.len() == 11 && "minimum"@.len() == 7
        && "type"@.len() == 4);
    assert("default"@[0] != "minimum"@[0]);
    let members = timeout_property(usual)->Object_0;
    assert(members.len() == 4);
    assert(members[0].0 == "default"@ && members[1].0 == "description"@ && members[2].0
        == "minimum"@ && members[3].0 == "type"@);
    law_the_last_member_counts(members, 0);
    law_the_last_member_counts(members, 1);
    law_the_last_member_counts(members, 2);
    law_the_last_member_counts(members, 3);
    reveal_strlit(" second");
    reveal_strlit(" seconds");
    reveal_strlit(" by default; set timeout to change the limit.");
    reveal_strlit(" second by default; set timeout to change the limit.");
    reveal_strlit(" seconds by default; set timeout to change the limit.");
    let rest = " by default; set timeout to change the limit."@;
    assert(" second by default; set timeout to change the limit."@ =~= " second"@ + rest);
    assert(" seconds by default; set timeout to change the limit."@ =~= " seconds"@ + rest);
    let unit = if usual == 1 {
        " second by default; set timeout to change the limit."@
    } else {
        " seconds by default; set timeout to change the limit."@
    };
    assert(bash_description(usual) =~= DESCRIPTION@ + (" Commands time out after "@ + (decimal(
        usual as nat,
    ) + unit)));
}

/// A hook is heard only where it ran to its end in time, said that it went well, and
/// wrote text of which nothing had to be left out.
pub proof fn law_hooks_are_heard_only_when_sound(
    timed_out: bool,
    exit_code: i32,
    stdout: CappedOutput,
)
    ensures
        timed_out ==> !is_sound(timed_out, exit_code, stdout),
        exit_code != 0 ==> !is_sound(timed_out, exit_code, stdout),
        stdout.omitted_bytes > 0 ==> !is_sound(timed_out, exit_code, stdout),
        !stdout.valid_utf8 ==> !is_sound(timed_out, exit_code, stdout),
        !timed_out && exit_code == 0 && stdout.omitted_bytes == 0 && stdout.valid_utf8 ==> is_sound(
            timed_out,
            exit_code,
            stdout,
        ),
{
}

} // verus!
