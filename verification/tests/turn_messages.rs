use runtime::json::{json_as_str, json_get, json_to_string, parse_json, JsonValue};
use runtime::manas::prompt_messages::{message_tokens_reach, messages_for_turn};
use runtime::prompt_style::task_status::{
    no_tool_retry, no_tool_task_status_retry_parts, NO_TOOL_RETRY_GOAL, NO_TOOL_RETRY_TASK_STATUS,
    NO_TOOL_STATUS_RETRY,
};

fn json(text: &str) -> JsonValue {
    parse_json(text).expect("test input is JSON")
}

fn content(m: &JsonValue) -> Option<&str> {
    json_get(m, "content").and_then(json_as_str)
}

#[test]
fn messages_for_turn_restates_a_missing_task_and_adds_commands() {
    let current = vec![json(r#"{"role":"assistant","content":"working"}"#)];
    let out = messages_for_turn(&current, "  fix the task  ", Some("1. stop"), 1_000_000, "checkpoint now");
    assert_eq!(out.len(), 3);
    assert_eq!(json_to_string(&out[1]), "{\"content\":\"fix the task\",\"role\":\"user\"}");
    assert_eq!(json_to_string(&out[2]), "{\"content\":\"1. stop\",\"role\":\"system\"}");
}

#[test]
fn messages_for_turn_keeps_a_task_already_said() {
    let current = vec![json(r#"{"role":"user","content":" fix the task "}"#)];
    let out = messages_for_turn(&current, "fix the task", None, 1_000_000, "checkpoint now");
    assert_eq!(out.len(), 1);
    let blank = messages_for_turn(&Vec::new(), "   ", None, 1_000_000, "checkpoint now");
    assert!(blank.is_empty());
}

#[test]
fn messages_for_turn_asks_for_a_checkpoint_at_the_threshold() {
    let big = format!("{{\"role\":\"user\",\"content\":\"{}\"}}", "x".repeat(900_000));
    let current = vec![json(&big)];
    let out = messages_for_turn(&current, "continue the long task", None, 220_000, "checkpoint now");
    assert_eq!(content(out.last().expect("messages")), Some("checkpoint now"));
    let small = vec![json(r#"{"role":"user","content":"continue the long task"}"#)];
    let out = messages_for_turn(&small, "continue the long task", None, 220_000, "checkpoint now");
    assert_eq!(out.len(), 1);
    assert!(message_tokens_reach(&small, 0));
    assert!(!message_tokens_reach(&small, 1_000));
}

#[test]
fn no_tool_retry_ignores_the_objective() {
    let a = no_tool_retry("fix the task");
    let b = no_tool_retry("something else");
    assert_eq!(a, b);
    assert_eq!(a, vec![NO_TOOL_RETRY_GOAL.to_string(), NO_TOOL_RETRY_TASK_STATUS.to_string()]);
    assert!(a[0].contains("The last user message in the conversation is the current objective"));
}

#[test]
fn no_tool_task_status_retry_parts_carry_the_objective_block() {
    let parts = no_tool_task_status_retry_parts("[current objective]:\nfix the task\n\nPatch parser");
    assert_eq!(parts.len(), 2);
    assert!(parts[0].contains("[current objective]:\nfix the task\n\nPatch parser"));
    assert!(!parts[0].contains("original_user_task:"));
    assert_eq!(parts[1], NO_TOOL_STATUS_RETRY);
}
