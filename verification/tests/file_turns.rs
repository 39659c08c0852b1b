use std::cell::RefCell;
use std::collections::{BTreeMap, VecDeque};
use std::rc::Rc;

use leg::error::{InterruptSignal, Result};
use leg::json::{parse_json, Json};
use leg::model::{AssistantReply, ContentBlock, Message, StopReason, TokenUsage};
use leg::tools::bash::credential_variables;
use leg::tools::edit::EditTool;
use leg::tools::read::{resolve, FaultKind, FileFault, ReadSet, ReadTool};
use leg::tools::write::{WriteAttempt, WriteTool};
use leg::tools::{ToolHandler, ToolLoop, ToolObserver, ToolRegistry};
use leg::transport::{Transport, TransportCall};

fn json(text: &str) -> Json {
    parse_json(text).expect("json")
}

/// Files in memory below one working directory, and the paths read so far.
struct Disk {
    files: RefCell<BTreeMap<String, Vec<u8>>>,
    locked: Vec<String>,
    reads: RefCell<ReadSet>,
}

const BASE: &str = "/work";

impl Disk {
    fn new(files: &[(&str, &str)]) -> Rc<Self> {
        let files = files
            .iter()
            .map(|(path, text)| (path.to_string(), text.as_bytes().to_vec()))
            .collect();
        Rc::new(Self {
            files: RefCell::new(files),
            locked: Vec::new(),
            reads: RefCell::new(ReadSet::new()),
        })
    }

    fn load(&self, full: &str) -> std::result::Result<Vec<u8>, FileFault> {
        if self.locked.iter().any(|path| path == full) {
            return Err(FileFault {
                kind: FaultKind::PermissionDenied,
                message: "Permission denied (os error 13)".to_string(),
            });
        }
        self.files.borrow().get(full).cloned().ok_or(FileFault {
            kind: FaultKind::NotFound,
            message: "No such file or directory (os error 2)".to_string(),
        })
    }

    fn text(&self, full: &str) -> String {
        String::from_utf8(self.files.borrow()[full].clone()).unwrap()
    }
}

struct Reader(Rc<Disk>);

impl ToolHandler for Reader {
    fn call(&self, input: &Json) -> std::result::Result<String, String> {
        let tool = ReadTool::new();
        let request = tool.request(input)?;
        let full = resolve(BASE, &request.path);
        let file = self.0.load(&full);
        tool.answer(&request, &full, file, &mut self.0.reads.borrow_mut())
    }
}

struct Writer(Rc<Disk>);

impl ToolHandler for Writer {
    fn call(&self, input: &Json) -> std::result::Result<String, String> {
        let tool = WriteTool::new();
        let request = tool.request(input)?;
        let full = resolve(BASE, &request.path);
        let present = self.0.files.borrow().contains_key(&full);
        tool.permit(&request, &full, present, &self.0.reads.borrow())?;
        let bytes = request.content.as_bytes().to_vec();
        self.0.files.borrow_mut().insert(full.clone(), bytes);
        tool.answer(&request, &full, WriteAttempt::Written)
    }
}

struct Editor(Rc<Disk>);

impl ToolHandler for Editor {
    fn call(&self, input: &Json) -> std::result::Result<String, String> {
        let tool = EditTool::new();
        let request = tool.request(input)?;
        let full = resolve(BASE, &request.path);
        let bytes = match self.0.load(&full) {
            Ok(bytes) => bytes,
            Err(fault) => return Err(tool.unreadable(&full, &fault)),
        };
        let old = String::from_utf8(bytes).unwrap();
        let plan = tool.plan(&request, &old)?;
        let new = plan.content.as_bytes().to_vec();
        self.0.files.borrow_mut().insert(full.clone(), new);
        tool.answer(&request, &full, &old, &plan, Ok(()))
    }
}

/// Answers from a queue of canned replies and records every call's history.
struct ScriptedTransport {
    replies: RefCell<VecDeque<AssistantReply>>,
    calls: RefCell<Vec<Vec<Message>>>,
}

impl Transport for ScriptedTransport {
    fn send_conversation(&self, messages: &[Message]) -> Result<AssistantReply> {
        self.calls.borrow_mut().push(messages.to_vec());
        Ok(self.replies.borrow_mut().pop_front().expect("a reply"))
    }

    fn send_conversation_with_attempts(
        &self,
        messages: &[Message],
    ) -> TransportCall<AssistantReply> {
        TransportCall::new(self.send_conversation(messages), 1)
    }

    fn send_observed<O: ToolObserver>(
        &self,
        messages: &[Message],
        _observer: &mut O,
    ) -> TransportCall<AssistantReply> {
        self.send_conversation_with_attempts(messages)
    }

    fn interrupted(&self) -> Option<InterruptSignal> {
        None
    }
}

/// Runs one turn that calls the tool `name` and returns the result it was sent.
fn turn_with(name: &str, input: Json, registry: ToolRegistry) -> Vec<ContentBlock> {
    let transport = ScriptedTransport {
        replies: RefCell::new(VecDeque::from(vec![
            AssistantReply::from_blocks(
                vec![ContentBlock::ToolUse {
                    id: "toolu_1".to_string(),
                    name: name.to_string(),
                    input,
                }],
                TokenUsage::default(),
                Some(StopReason::ToolUse),
            ),
            AssistantReply::new("done"),
        ])),
        calls: RefCell::new(Vec::new()),
    };
    let tool_loop = ToolLoop::new(transport, registry, None);
    tool_loop.run(&[Message::user("go")]).unwrap();
    let calls = tool_loop.transport.calls.borrow();
    calls[1].last().unwrap().content.clone()
}

fn completed(content: &str) -> Vec<ContentBlock> {
    vec![ContentBlock::ToolResult {
        tool_use_id: "toolu_1".to_string(),
        content: content.to_string(),
        is_error: None,
    }]
}

#[test]
fn creates_a_missing_file() {
    let disk = Disk::new(&[]);
    assert_eq!(
        Writer(disk.clone())
            .call(&json(r#"{"path": "new.txt", "content": "hello\n"}"#))
            .unwrap(),
        "Successfully wrote to new.txt"
    );
    assert_eq!(disk.text("/work/new.txt"), "hello\n");
}

#[test]
fn creates_nested_missing_parent_directories() {
    let disk = Disk::new(&[]);
    assert_eq!(
        Writer(disk.clone())
            .call(&json(r#"{"path": "a/b/c/deep.txt", "content": "x"}"#))
            .unwrap(),
        "Successfully wrote to a/b/c/deep.txt"
    );
    assert_eq!(disk.text("/work/a/b/c/deep.txt"), "x");
}

#[test]
fn unreadable_file_is_an_error() {
    let disk = Rc::new(Disk {
        files: RefCell::new(BTreeMap::new()),
        locked: vec!["/work/secret.txt".to_string()],
        reads: RefCell::new(ReadSet::new()),
    });
    let err = Reader(disk.clone())
        .call(&json(r#"{"path": "secret.txt"}"#))
        .unwrap_err();
    assert!(err.contains("/work/secret.txt"), "{err}");
    assert!(err.contains("EACCES"), "{err}");
    assert!(!disk.reads.borrow().contains("/work/secret.txt"));
}

#[test]
fn loop_turn_receives_file_content_as_tool_result() {
    let disk = Disk::new(&[("/work/notes.txt", "line one\nline two\n")]);
    let mut registry = ToolRegistry::new();
    registry.register(ReadTool::spec(), Box::new(Reader(disk)));
    assert_eq!(
        turn_with("read", json(r#"{"path": "/work/notes.txt"}"#), registry),
        completed("line one\nline two\n")
    );
}

#[test]
fn loop_turn_writes_a_file() {
    let disk = Disk::new(&[]);
    let mut registry = ToolRegistry::new();
    registry.register(WriteTool::spec(), Box::new(Writer(disk.clone())));
    let input = json(r##"{"path": "/work/out/script.sh", "content": "#!/bin/sh\necho hi\n"}"##);
    assert_eq!(
        turn_with("write", input, registry),
        completed("Successfully wrote to /work/out/script.sh")
    );
    assert_eq!(disk.text("/work/out/script.sh"), "#!/bin/sh\necho hi\n");
}

#[test]
fn loop_turn_edits_a_file() {
    let path = "/work/main.rs";
    let disk = Disk::new(&[(path, "fn main() {\n    println!(\"hi\");\n}\n")]);
    let mut registry = ToolRegistry::new();
    registry.register(EditTool::spec(), Box::new(Editor(disk.clone())));
    let input = json(
        r#"{"path": "/work/main.rs", "oldString": "\"hi\"", "newString": "\"bye\""}"#,
    );
    assert_eq!(
        turn_with("edit", input, registry),
        completed(&format!(
            "Successfully replaced 1 occurrence in {path}.\n\
             --- {path}\n\
             +++ {path}\n\
             @@ -1,3 +1,3 @@\n\
             \x20fn main() {{\n\
             -    println!(\"hi\");\n\
             +    println!(\"bye\");\n\
             \x20}}"
        ))
    );
    assert_eq!(disk.text(path), "fn main() {\n    println!(\"bye\");\n}\n");
}

#[test]
fn removes_leg_credentials_but_preserves_other_environment_variables() {
    let mut environment = BTreeMap::from([
        ("ANTHROPIC_API_KEY", "test-api-key"),
        ("ANTHROPIC_AUTH_TOKEN", "test-auth-token"),
        ("CLAUDE_CODE_OAUTH_TOKEN", "test-oauth-token"),
        ("MAT_TEST_MARKER", "visible"),
    ]);
    for name in credential_variables() {
        environment.remove(name);
    }
    assert_eq!(environment, BTreeMap::from([("MAT_TEST_MARKER", "visible")]));
}
