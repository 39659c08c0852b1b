//! The `write` tool: create a file, or replace one already read.

use vstd::prelude::*;

use crate::json::{Json, JsonTree, JsonValue, add_member, member_trees};
use crate::model::ToolSpec;
use crate::text::{concat2, concat3, concat4, text_result};
use crate::tools::args::{
    property, property_tree, schema, schema_tree, string_arg, string_argument, text_trees,
};
use crate::tools::read::{FileFault, ReadSet, fault_text, os_error};

verus! {

/// What the `write` declaration tells the model.
pub const DESCRIPTION: &'static str = "Write content to a file. Creates the file if it doesn't exist, overwrites if it does. Automatically creates parent directories. An existing file must be read with the read tool first; overwriting a file that has not been read fails.";

/// A validated `write` call.
#[derive(Debug)]
pub struct WriteRequest {
    /// The path as the model gave it.
    pub path: String,
    /// The content to write.
    pub content: String,
}

/// How an attempt to write a file went.
#[derive(Debug)]
pub enum WriteAttempt {
    /// The content was written.
    Written,
    /// The parent directory could not be created.
    ParentFailed {
        /// The parent directory.
        parent: String,
        /// Why.
        fault: FileFault,
    },
    /// The file could not be written.
    WriteFailed(FileFault),
}

/// The call that `input` asks for, or what is wrong with it.
pub open spec fn write_call(input: JsonValue) -> Result<(Seq<char>, Seq<char>), Seq<char>> {
    match string_arg(input, "path"@) {
        None => Err("write: `path` must be a string"@),
        Some(path) => match string_arg(input, "content"@) {
            None => Err("write: `content` must be a string"@),
            Some(content) => Ok((path, content)),
        },
    }
}

/// The arguments that the `write` declaration names.
pub open spec fn write_schema() -> JsonTree {
    schema_tree(
        seq![
            ("content"@, property_tree("string"@, "Content to write to the file"@)),
            ("path"@, property_tree("string"@, "Path to the file to write (relative or absolute)"@)),
        ],
        seq![JsonTree::Text("path"@), JsonTree::Text("content"@)],
    )
}

/// What a permitted `write` call answers.
pub open spec fn write_answer(path: Seq<char>, full: Seq<char>, attempt: WriteAttempt) -> Result<
    Seq<char>,
    Seq<char>,
> {
    match attempt {
        WriteAttempt::Written => Ok("Successfully wrote to "@ + path),
        WriteAttempt::ParentFailed { parent, fault } => Err(
            "cannot create "@ + parent@ + ": "@ + fault_text(fault),
        ),
        WriteAttempt::WriteFailed(fault) => Err("cannot write "@ + full + ": "@ + fault_text(fault)),
    }
}

/// The `write` tool.
#[derive(Debug, Clone, Copy)]
pub struct WriteTool;

impl WriteTool {
    /// The tool.
    pub fn new() -> (tool: Self)
        ensures
            tool == WriteTool,
    {
        WriteTool
    }

    /// The `write` declaration advertised to the model.
    pub fn spec() -> (spec: ToolSpec)
        ensures
            spec.name@ == "write"@,
            spec.description@ == DESCRIPTION@,
            spec.input_schema@ == write_schema(),
    {
        let mut properties: Vec<(String, Json)> = Vec::new();
        add_member(&mut properties, "content", property("string", "Content to write to the file"));
        add_member(
            &mut properties,
            "path",
            property("string", "Path to the file to write (relative or absolute)"),
        );
        let mut required: Vec<&str> = Vec::new();
        required.push("path");
        required.push("content");
        proof {
            assert(text_trees(required@) =~= seq![
                JsonTree::Text("path"@),
                JsonTree::Text("content"@),
            ]);
            assert(member_trees(properties@) =~= write_schema()->Object_0[0].1->Object_0);
        }
        ToolSpec::new("write", DESCRIPTION, schema(properties, required))
    }

    /// Validates the arguments of a call.
    pub fn request(&self, input: &Json) -> (result: Result<WriteRequest, String>)
        ensures
            match result {
                Ok(request) => write_call(input.value()) == Ok::<
                    (Seq<char>, Seq<char>),
                    Seq<char>,
                >((request.path@, request.content@)),
                Err(message) => write_call(input.value()) == Err::<
                    (Seq<char>, Seq<char>),
                    Seq<char>,
                >(message@),
            },
    {
        match string_argument(input, "path") {
            None => Err("write: `path` must be a string".to_owned()),
            Some(path) => match string_argument(input, "content") {
                None => Err("write: `content` must be a string".to_owned()),
                Some(content) => Ok(WriteRequest { path, content }),
            },
        }
    }

    /// Whether the file at the resolved path `full` may be written: a new file
    /// always, one that is `present` only after it has been read.
    pub fn permit(
        &self,
        request: &WriteRequest,
        full: &str,
        present: bool,
        reads: &ReadSet,
    ) -> (result: Result<(), String>)
        ensures
            result is Ok == (!present || reads@.contains(full@)),
            result matches Err(message) ==> message@ == "cannot write "@ + request.path@
                + ": file exists and has not been read; read it first"@,
    {
        if present && !reads.contains(full) {
            return Err(
                concat3(
                    "cannot write ",
                    request.path.as_str(),
                    ": file exists and has not been read; read it first",
                ),
            );
        }
        Ok(())
    }

    /// Answers a permitted call from how the attempt went.
    pub fn answer(&self, request: &WriteRequest, full: &str, attempt: WriteAttempt) -> (result:
        Result<String, String>)
        ensures
            text_result(result) == write_answer(request.path@, full@, attempt),
    {
        match attempt {
            WriteAttempt::Written => Ok(concat2("Successfully wrote to ", request.path.as_str())),
            WriteAttempt::ParentFailed { parent, fault } => {
                let message = os_error(&fault);
                Err(concat4("cannot create ", parent.as_str(), ": ", message.as_str()))
            },
            WriteAttempt::WriteFailed(fault) => {
                let message = os_error(&fault);
                Err(concat4("cannot write ", full, ": ", message.as_str()))
            },
        }
    }
}

} // verus!
