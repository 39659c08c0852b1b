use leg::json::{parse_json, Json};
use leg::model::{
    as_single_text, blocks_text, AssistantReply, ContentBlock, Conversation, Message, Prompt, Role,
    StopReason,
};
use leg::wire::{blocks_to_json, read_blocks};

fn json(text: &str) -> Json {
    parse_json(text).expect("json")
}

fn value(text: &str) -> serde_json::Value {
    serde_json::from_str(text).expect("json")
}

#[test]
fn prompt_new_accepts_str_and_string() {
    assert_eq!(Prompt::new("hi"), Prompt::new(String::from("hi")));
    assert_eq!(Prompt::new("hi").text, "hi");
}

#[test]
fn reply_new_stores_text() {
    assert_eq!(AssistantReply::new("ok").text, "ok");
    assert_eq!(AssistantReply::new("ok").stop_reason, None);
}

#[test]
fn role_wire_values() {
    assert_eq!(Role::User.as_str(), "user");
    assert_eq!(Role::Assistant.as_str(), "assistant");
}

#[test]
fn message_constructors_tag_the_role() {
    assert_eq!(
        Message::user("hi"),
        Message::new(Role::User, vec![ContentBlock::text("hi")])
    );
    assert_eq!(
        Message::assistant("yo"),
        Message::new(Role::Assistant, vec![ContentBlock::text("yo")])
    );
}

#[test]
fn content_blocks_serialize_with_wire_type_tags_and_round_trip() {
    let blocks = vec![
        ContentBlock::text("hi"),
        ContentBlock::ToolUse {
            id: "toolu_1".to_string(),
            name: "lookup".to_string(),
            input: json(r#"{"q": "x"}"#),
        },
        ContentBlock::ToolResult {
            tool_use_id: "toolu_1".to_string(),
            content: "found".to_string(),
            is_error: None,
        },
    ];
    let written = blocks_to_json(&blocks);
    assert_eq!(
        serde_json::from_str::<serde_json::Value>(&written.to_text()).unwrap(),
        value(r#"[ {"type": "text", "text": "hi"}, {"type": "tool_use", "id": "toolu_1", "name": "lookup", "input": {"q": "x"}}, {"type": "tool_result", "tool_use_id": "toolu_1", "content": "found"}]"#)
    );
    let back = match &written {
        Json::List(items) => read_blocks(items).unwrap(),
        _ => panic!("blocks are written as a list"),
    };
    assert_eq!(back, blocks);
}

#[test]
fn text_helpers_ignore_tool_blocks() {
    let tool = ContentBlock::ToolUse {
        id: "t".to_string(),
        name: "n".to_string(),
        input: json(r#"{}"#),
    };
    let blocks = vec![
        ContentBlock::text("a"),
        tool.clone(),
        ContentBlock::text("b"),
    ];
    assert_eq!(blocks_text(&blocks), "ab");
    assert_eq!(as_single_text(&blocks), None);
    assert_eq!(as_single_text(&[ContentBlock::text("a")]), Some("a"));
    assert_eq!(as_single_text(&[tool]), None);
}

#[test]
fn stop_reason_round_trips_known_and_unknown_wire_values() {
    for wire in [
        "end_turn",
        "max_tokens",
        "stop_sequence",
        "tool_use",
        "pause_turn",
        "refusal",
        "something_new",
    ] {
        assert_eq!(StopReason::from_wire(wire).as_str(), wire);
    }
    assert_eq!(StopReason::from_wire("tool_use"), StopReason::ToolUse);
    assert_eq!(
        StopReason::from_wire("something_new"),
        StopReason::Other("something_new".to_string())
    );
}

#[test]
fn conversation_starts_empty() {
    let convo = Conversation::new();
    assert!(convo.is_empty());
    assert_eq!(convo.len(), 0);
    assert_eq!(convo.messages(), &[]);
}

#[test]
fn conversation_accumulates_turns_in_order() {
    let mut convo = Conversation::new();
    convo.push_user("a");
    convo.push_assistant("b");
    convo.push_user("c");

    assert_eq!(convo.len(), 3);
    assert!(!convo.is_empty());
    assert_eq!(
        convo.messages(),
        &[
            Message::user("a"),
            Message::assistant("b"),
            Message::user("c"),
        ]
    );
}

#[test]
fn conversation_pop_removes_most_recent_turn() {
    let mut convo = Conversation::new();
    convo.push_user("a");
    convo.push_assistant("b");

    assert_eq!(convo.pop(), Some(Message::assistant("b")));
    assert_eq!(convo.messages(), &[Message::user("a")]);
    assert_eq!(convo.pop(), Some(Message::user("a")));
    assert_eq!(convo.pop(), None);
    assert!(convo.is_empty());
}
