//! The built-in context managers.

use agent::{JsonValue, KeepLast, Message, NoopContext, Object, ToolCall, ToolResult};

fn user(text: &str) -> Message {
    Message::User(text.to_string())
}

fn system() -> Message {
    Message::System("sys".to_string())
}

fn call(id: &str) -> Message {
    Message::Assistant {
        text: String::new(),
        calls: vec![ToolCall {
            id: id.to_string(),
            name: "read".to_string(),
            arguments: JsonValue::Object(Object::new()),
        }],
        metadata: Object::new(),
    }
}

fn result(id: &str) -> Message {
    Message::Tools(vec![ToolResult {
        id: id.to_string(),
        name: "read".to_string(),
        output: "ok".to_string(),
    }])
}

fn role(message: &Message) -> &'static str {
    match message {
        Message::System(_) => "system",
        Message::User(_) => "user",
        Message::Assistant { .. } => "assistant",
        Message::Tools(_) => "tools",
    }
}

fn trim(keep: usize, messages: &mut Vec<Message>) {
    let manager = KeepLast::new(keep);
    assert!(manager.accepts(messages));
    manager.prepare(messages);
}

#[test]
fn noop_changes_nothing() {
    let mut messages = vec![system(), user("a"), user("b")];
    let before = messages.len();
    NoopContext.prepare(&mut messages);
    assert_eq!(messages.len(), before);
}

#[test]
fn keep_last_always_keeps_the_system_message() {
    let mut messages = vec![system(), user("1"), user("2"), user("3")];
    trim(2, &mut messages);

    assert_eq!(messages.len(), 3);
    assert!(matches!(messages[0], Message::System(_)));
    // The last two messages, plus the system prompt.
    assert!(matches!(&messages[1], Message::User(text) if text == "2"));
    assert!(matches!(&messages[2], Message::User(text) if text == "3"));
}

#[test]
fn keep_last_never_splits_an_assistant_call_from_its_results() {
    // A window of three would start on a bare tool result, so the cut moves
    // back to the assistant turn that asked for it.
    // system | user | assistant(call) | tools | assistant(call) | tools
    let mut messages = vec![system(), user("go"), call("1"), result("1"), call("2"), result("2")];
    trim(3, &mut messages);

    let roles: Vec<&str> = messages.iter().map(role).collect();
    assert_eq!(roles, ["system", "assistant", "tools", "assistant", "tools"]);
}

#[test]
fn keep_last_leaves_short_conversations_alone() {
    let mut messages = vec![system(), user("a")];
    trim(10, &mut messages);
    assert_eq!(messages.len(), 2);
}

#[test]
fn trimming_again_changes_nothing() {
    let mut messages = vec![system(), user("go"), call("1"), result("1"), call("2"), result("2")];
    trim(3, &mut messages);
    trim(3, &mut messages);
    assert_eq!(messages.len(), 5);
    trim(2, &mut messages);
    let roles: Vec<&str> = messages.iter().map(role).collect();
    assert_eq!(roles, ["system", "assistant", "tools"]);
}

#[test]
fn some_conversations_have_no_window() {
    // Nothing but tool results.
    assert!(!KeepLast::new(1).accepts(&vec![result("1"), result("2"), result("3")]));
    // The largest window there is.
    assert!(KeepLast::new(usize::MAX).accepts(&vec![system(), user("a")]));
}

#[test]
fn keeping_none_of_the_last_leaves_the_first() {
    let mut messages = vec![system(), user("a")];
    trim(0, &mut messages);
    assert_eq!(messages.len(), 1);
    assert!(matches!(&messages[0], Message::System(text) if text == "sys"));

    let mut messages = vec![system(), user("go"), call("1"), result("1")];
    trim(0, &mut messages);
    assert_eq!(messages.len(), 1);
    trim(0, &mut messages);
    assert_eq!(messages.len(), 1);

    let mut nothing = Vec::new();
    trim(0, &mut nothing);
    assert!(nothing.is_empty());
}
