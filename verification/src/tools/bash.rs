//! The `bash` tool: one bounded shell command in the working directory.
//!
//! Validating the call and writing down its result is done here; running the
//! command is left to the caller, which takes its steps from
//! [`super::process`].

use vstd::prelude::*;

use crate::config::DEFAULT_BASH_TIMEOUT_SECS;
use crate::json::{
    add_member, field, json_text, member_trees, object, string, unsigned, Json, JsonTree,
    JsonValue, Number, NumberTree,
};
use crate::model::ToolSpec;
use crate::text::{concat2, concat3, concat5, decimal, decimal_text};
use crate::tools::args::{
    property, property_tree, schema, schema_tree, string_arg, string_argument, text_trees,
};

verus! {

/// What the tool does, without its time limit.
pub const DESCRIPTION: &'static str = "Run a shell command with Bash in the current working directory. The command runs as the current OS user. Leg's provider credential variables are removed from the command environment; login-shell startup files may re-export them. Each output stream is capped at 2000 lines or 50 KB.";

/// The environment variables that a command does not get to see.
pub fn credential_variables() -> (names: Vec<&'static str>)
    ensures
        names@.len() == 3,
        names@[0]@ == "ANTHROPIC_API_KEY"@,
        names@[1]@ == "ANTHROPIC_AUTH_TOKEN"@,
        names@[2]@ == "CLAUDE_CODE_OAUTH_TOKEN"@,
{
    let mut names: Vec<&'static str> = Vec::new();
    names.push("ANTHROPIC_API_KEY");
    names.push("ANTHROPIC_AUTH_TOKEN");
    names.push("CLAUDE_CODE_OAUTH_TOKEN");
    names
}

/// A validated call.
#[derive(Debug, PartialEq, Eq)]
pub struct BashRequest {
    /// The command for the shell.
    pub command: String,
    /// How long it may run, in seconds.
    pub timeout_secs: u64,
}

/// What a call asks for, or what is wrong with it.
pub open spec fn bash_call(input: JsonValue, default_timeout_secs: u64) -> Result<
    (Seq<char>, u64),
    Seq<char>,
> {
    match string_arg(input, "command"@) {
        None => Err("bash: `command` must be a string"@),
        Some(command) => match field(input, "description"@) {
            Some(description) if description !is Text => Err(
                "bash: `description` must be a string"@,
            ),
            _ => match field(input, "timeout"@) {
                None => Ok((command, default_timeout_secs)),
                Some(JsonValue::Number(NumberTree::Unsigned(seconds))) => Ok((command, seconds)),
                Some(_) => Err("bash: `timeout` must be a non-negative integer"@),
            },
        },
    }
}

/// The declaration of the time limit.
pub open spec fn timeout_property(default_timeout_secs: u64) -> JsonTree {
    JsonTree::Object(
        seq![
            ("default"@, JsonTree::Number(NumberTree::Unsigned(default_timeout_secs))),
            (
                "description"@,
                JsonTree::Text(
                    "Maximum run time in seconds (default "@ + decimal(default_timeout_secs as nat)
                        + ")"@,
                ),
            ),
            ("minimum"@, JsonTree::Number(NumberTree::Unsigned(0))),
            ("type"@, JsonTree::Text("integer"@)),
        ],
    )
}

/// The declarations of the arguments.
pub open spec fn bash_properties(default_timeout_secs: u64) -> Seq<(Seq<char>, JsonTree)> {
    seq![
        ("command"@, property_tree("string"@, "The command to run with bash -lc"@)),
        ("description"@, property_tree("string"@, "Optional short explanation of the command"@)),
        ("timeout"@, timeout_property(default_timeout_secs)),
    ]
}

/// The description of the tool with its default time limit.
pub open spec fn bash_description(default_timeout_secs: u64) -> Seq<char> {
    DESCRIPTION@ + " Commands time out after "@ + decimal(default_timeout_secs as nat) + (
    if default_timeout_secs == 1 {
        " second"@
    } else {
        " seconds"@
    }) + " by default; set timeout to change the limit."@
}

/// How a command ended.
#[derive(Debug)]
pub struct BashRun {
    /// The run time in seconds, as a JSON numeral.
    pub wall_time_seconds: String,
    /// `exited` or `timed_out`.
    pub status: String,
    /// The exit code.
    pub exit_code: i32,
    /// What was kept of the standard output.
    pub stdout: String,
    /// What was kept of the standard error output.
    pub stderr: String,
    /// The bytes of the standard output that were not kept.
    pub stdout_omitted_bytes: u64,
    /// The bytes of the standard error output that were not kept.
    pub stderr_omitted_bytes: u64,
}

/// Why a command could not be started.
#[derive(Debug)]
pub struct StartFault {
    /// Whether the shell itself was not found.
    pub not_found: bool,
    /// What the system said.
    pub message: String,
}

/// A signed integer as a JSON number.
pub open spec fn integer_tree(n: i32) -> JsonTree {
    if n >= 0 {
        JsonTree::Number(NumberTree::Unsigned(n as u64))
    } else {
        JsonTree::Number(NumberTree::Negative(n as i64))
    }
}

fn integer(n: i32) -> (json: Json)
    ensures
        json@ == integer_tree(n),
{
    if n >= 0 {
        Json::Number(Number::Unsigned(n as u64))
    } else {
        Json::Number(Number::Negative(n as i64))
    }
}

/// The result of a command that ran, its keys sorted.
pub open spec fn run_tree(run: BashRun) -> JsonTree {
    JsonTree::Object(
        seq![
            ("exit_code"@, integer_tree(run.exit_code)),
            ("status"@, JsonTree::Text(run.status@)),
            ("stderr"@, JsonTree::Text(run.stderr@)),
            (
                "stderr_omitted_bytes"@,
                JsonTree::Number(NumberTree::Unsigned(run.stderr_omitted_bytes)),
            ),
            ("stdout"@, JsonTree::Text(run.stdout@)),
            (
                "stdout_omitted_bytes"@,
                JsonTree::Number(NumberTree::Unsigned(run.stdout_omitted_bytes)),
            ),
            (
                "wall_time_seconds"@,
                JsonTree::Number(NumberTree::Other(run.wall_time_seconds@)),
            ),
        ],
    )
}

/// The `bash` tool.
#[derive(Debug, Clone, Copy)]
pub struct BashTool {
    /// How long a command may run when its call does not say, in seconds.
    pub default_timeout_secs: u64,
}

impl Default for BashTool {
    fn default() -> (tool: Self)
        ensures
            tool.default_timeout_secs == DEFAULT_BASH_TIMEOUT_SECS,
    {
        BashTool { default_timeout_secs: DEFAULT_BASH_TIMEOUT_SECS }
    }
}

impl BashTool {
    /// The tool with the usual time limit.
    pub fn new() -> (tool: Self)
        ensures
            tool.default_timeout_secs == DEFAULT_BASH_TIMEOUT_SECS,
    {
        BashTool { default_timeout_secs: DEFAULT_BASH_TIMEOUT_SECS }
    }

    /// The tool with a configured time limit.
    pub fn with_default_timeout_secs(default_timeout_secs: u64) -> (tool: Self)
        ensures
            tool.default_timeout_secs == default_timeout_secs,
    {
        BashTool { default_timeout_secs }
    }

    /// The declaration with the usual time limit.
    pub fn spec() -> (spec: ToolSpec)
        ensures
            spec.name@ == "bash"@,
            spec.description@ == bash_description(DEFAULT_BASH_TIMEOUT_SECS),
            spec.input_schema@ == schema_tree(
                bash_properties(DEFAULT_BASH_TIMEOUT_SECS),
                seq![JsonTree::Text("command"@)],
            ),
    {
        BashTool::spec_with_default_timeout_secs(DEFAULT_BASH_TIMEOUT_SECS)
    }

    /// The declaration with a configured time limit.
    pub fn spec_with_default_timeout_secs(default_timeout_secs: u64) -> (spec: ToolSpec)
        ensures
            spec.name@ == "bash"@,
            spec.description@ == bash_description(default_timeout_secs),
            spec.input_schema@ == schema_tree(
                bash_properties(default_timeout_secs),
                seq![JsonTree::Text("command"@)],
            ),
    {
        let number = decimal_text(default_timeout_secs);
        let unit = if default_timeout_secs == 1 {
            " second"
        } else {
            " seconds"
        };
        let description = concat5(
            DESCRIPTION,
            " Commands time out after ",
            number.as_str(),
            unit,
            " by default; set timeout to change the limit.",
        );
        let limit = concat3("Maximum run time in seconds (default ", number.as_str(), ")");
        let mut timeout: Vec<(String, Json)> = Vec::new();
        add_member(&mut timeout, "default", unsigned(default_timeout_secs));
        add_member(&mut timeout, "description", string(limit.as_str()));
        add_member(&mut timeout, "minimum", unsigned(0));
        add_member(&mut timeout, "type", string("integer"));
        assert(member_trees(timeout@) =~= timeout_property(default_timeout_secs)->Object_0);
        let mut properties: Vec<(String, Json)> = Vec::new();
        add_member(
            &mut properties,
            "command",
            property("string", "The command to run with bash -lc"),
        );
        add_member(
            &mut properties,
            "description",
            property("string", "Optional short explanation of the command"),
        );
        add_member(&mut properties, "timeout", object(timeout));
        let mut required: Vec<&str> = Vec::new();
        required.push("command");
        proof {
            assert(text_trees(required@) =~= seq![JsonTree::Text("command"@)]);
            assert(member_trees(properties@) =~= bash_properties(default_timeout_secs));
        }
        ToolSpec::new("bash", description, schema(properties, required))
    }

    /// Validates the arguments of a call.
    pub fn request(&self, input: &Json) -> (result: Result<BashRequest, String>)
        ensures
            match result {
                Ok(request) => bash_call(input.value(), self.default_timeout_secs) == Ok::<
                    (Seq<char>, u64),
                    Seq<char>,
                >((request.command@, request.timeout_secs)),
                Err(message) => bash_call(input.value(), self.default_timeout_secs) == Err::<
                    (Seq<char>, u64),
                    Seq<char>,
                >(message@),
            },
    {
        let command = match string_argument(input, "command") {
            Some(command) => command,
            None => {
                return Err("bash: `command` must be a string".to_owned());
            },
        };
        if let Some(description) = input.get("description") {
            if description.as_text().is_none() {
                return Err("bash: `description` must be a string".to_owned());
            }
        }
        match input.get("timeout") {
            None => Ok(BashRequest { command, timeout_secs: self.default_timeout_secs }),
            Some(timeout) => match timeout.as_u64() {
                Some(timeout_secs) => Ok(BashRequest { command, timeout_secs }),
                None => Err("bash: `timeout` must be a non-negative integer".to_owned()),
            },
        }
    }

    /// The result of a command that ran. Its exit code is part of the result: a
    /// command that fails is no failure of the tool.
    pub fn answer(&self, run: &BashRun) -> (text: String)
        ensures
            text@ == json_text(run_tree(*run)),
    {
        let mut members: Vec<(String, Json)> = Vec::new();
        add_member(&mut members, "exit_code", integer(run.exit_code));
        add_member(&mut members, "status", string(run.status.as_str()));
        add_member(&mut members, "stderr", string(run.stderr.as_str()));
        add_member(&mut members, "stderr_omitted_bytes", unsigned(run.stderr_omitted_bytes));
        add_member(&mut members, "stdout", string(run.stdout.as_str()));
        add_member(&mut members, "stdout_omitted_bytes", unsigned(run.stdout_omitted_bytes));
        let wall_time = Json::Number(Number::Other(run.wall_time_seconds.as_str().to_owned()));
        add_member(&mut members, "wall_time_seconds", wall_time);
        assert(member_trees(members@) =~= run_tree(*run)->Object_0);
        object(members).to_text()
    }

    /// The failure of a command that could not be started.
    pub fn unstarted(&self, fault: &StartFault) -> (message: String)
        ensures
            message@ == if fault.not_found {
                "bash: executable was not found: "@ + fault.message@
            } else {
                "bash: failed to start command: "@ + fault.message@
            },
    {
        if fault.not_found {
            concat2("bash: executable was not found: ", fault.message.as_str())
        } else {
            concat2("bash: failed to start command: ", fault.message.as_str())
        }
    }
}

} // verus!
