use runtime::context::context_management::{
    accumulate_message, accumulate_tool_result, accumulate_tool_result_with_feedback,
    accumulate_tool_result_with_provider_metadata, append_tool_result, build_context,
    build_messages_from_session, checkpoint_entry, compact_session_context, count_tool_results, last_tool_call_response_from_session,
    messages_with_runtime_context, tool_result_record, ContextOutput, ToolCallRecord,
};
use runtime::json::{json_as_array, json_as_bool, json_as_str, json_eq, json_get, json_to_string, parse_json, JsonValue};

fn json(text: &str) -> JsonValue {
    parse_json(text).expect("test input is JSON")
}

fn field<'a>(v: &'a JsonValue, key: &str) -> &'a JsonValue {
    json_get(v, key).unwrap_or_else(|| panic!("missing member {key}"))
}

fn text_of<'a>(v: &'a JsonValue, key: &str) -> Option<&'a str> {
    json_get(v, key).and_then(json_as_str)
}

fn context(log: &Vec<String>, input: &str, use_last: bool) -> ContextOutput {
    build_context(log, input, use_last, None, "", &Vec::new(), Vec::new())
}

fn joined(messages: &[JsonValue]) -> String {
    messages.iter().map(json_to_string).collect::<Vec<_>>().join("\n")
}

fn has_tool_message_with(messages: &[JsonValue], needle: &str) -> bool {
    messages
        .iter()
        .any(|m| text_of(m, "content").is_some_and(|c| c.starts_with('[') && c.contains(needle)))
}

#[test]
fn build_context_includes_last_tool_call_response() {
    let mut log = Vec::new();
    accumulate_tool_result(&mut log, "grep", json(r#"{"pattern":"needle"}"#), json(r#"{"matches":["src/lib.rs"]}"#), true, None)
        .expect("tool result should be logged");
    let output = context(&log, "inspect", true);
    let last = output.last_tool_call_response.expect("last tool response should be captured");
    assert_eq!(text_of(&last, "tool_name"), Some("grep"));
    assert_eq!(json_as_bool(field(&last, "success")), Some(true));
    assert!(has_tool_message_with(&output.messages, "src/lib.rs"));
}

#[test]
fn build_context_omits_last_tool_call_response_when_session_disables_it() {
    let mut log = Vec::new();
    accumulate_tool_result(&mut log, "grep", json(r#"{"pattern":"needle"}"#), json(r#"{"matches":["src/lib.rs"]}"#), true, None)
        .expect("tool result should be logged");
    let output = context(&log, "inspect", false);
    assert!(output.last_tool_call_response.is_none());
    assert!(!output
        .messages
        .iter()
        .any(|m| text_of(m, "content").is_some_and(|c| c.contains("last_tool_call_response"))));
    assert!(has_tool_message_with(&output.messages, "src/lib.rs"));
}

#[test]
fn build_context_includes_failed_tool_error_in_last_tool_call_response() {
    let mut log = Vec::new();
    accumulate_tool_result(
        &mut log,
        "shell",
        json(r#"{"command":"bad"}"#),
        JsonValue::Null,
        false,
        Some("script failed: missing command"),
    )
    .expect("tool result should be logged");
    let output = context(&log, "inspect", true);
    let last = output.last_tool_call_response.expect("last tool response should be captured");
    assert_eq!(json_as_bool(field(&last, "success")), Some(false));
    assert_eq!(text_of(&last, "error"), Some("script failed: missing command"));
}

#[test]
fn build_context_truncates_large_tool_response() {
    let mut log = Vec::new();
    let big = format!("{{\"content\":\"{}\"}}", "x".repeat(50_000));
    accumulate_tool_result(&mut log, "read_line", json(r#"{"file":"src/lib.rs"}"#), json(&big), true, None)
        .expect("tool result should be logged");
    let output = context(&log, "inspect", true);
    let last = output.last_tool_call_response.expect("last tool response should be captured");
    let content = text_of(&last, "output").expect("large output should become a formatted truncated string");
    assert!(content.contains("Total output lines:"));
    assert!(content.contains("tokens truncated"));
    assert!(!content.contains("maximum context depth reached"));
    assert!(content.len() < 41_000);
}

#[test]
fn context_management_build_context_replays_dialog_entries_without_rewriting_history() {
    let mut log = Vec::new();
    for index in 0..4 {
        accumulate_message(&mut log, "user", JsonValue::Str(format!("user-{index}"))).expect("user message should be logged");
        accumulate_message(&mut log, "assistant", JsonValue::Str(format!("assistant-{index}")))
            .expect("assistant message should be logged");
    }
    let output = context(&log, "inspect", true);
    let contents = output
        .messages
        .iter()
        .filter_map(|m| json_get(m, "content"))
        .map(|c| json_as_str(c).map(str::to_string).unwrap_or_else(|| json_to_string(c)))
        .collect::<Vec<_>>();
    assert!(contents.iter().any(|c| c.contains("user-0")));
    assert!(contents.iter().any(|c| c.contains("assistant-0")));
    assert!(contents.iter().any(|c| c.contains("assistant-1")));
    assert!(contents.iter().any(|c| c.contains("user-3")));
    assert_eq!(
        output
            .messages
            .iter()
            .filter(|m| matches!(text_of(m, "role"), Some("user" | "assistant")))
            .count(),
        9
    );
}

#[test]
fn build_context_keeps_initial_task_before_tool_results_for_cache_prefix() {
    let mut log = Vec::new();
    accumulate_tool_result(
        &mut log,
        "command_run",
        json(r#"{"commands":[{"step":1,"command":"npm test"}]}"#),
        json(r#"{"ok":false,"results":[{"step":1,"command":"shell_command","success":false,"output":"Exit code: 1\nOutput:\nplanner failed"}]}"#),
        false,
        Some("tests failed"),
    )
    .expect("tool result should be logged");
    let output = context(&log, "fix the failing planner tests", true);
    assert_eq!(text_of(&output.messages[0], "role"), Some("user"));
    assert_eq!(text_of(&output.messages[0], "content"), Some("fix the failing planner tests"));
    assert_eq!(text_of(&output.messages[1], "type"), Some("function_call"));
    assert_eq!(text_of(&output.messages[1], "name"), Some("command_run"));
    assert_eq!(text_of(&output.messages[2], "type"), Some("function_call_output"));
    assert!(text_of(&output.messages[2], "output").is_some_and(|c| c.starts_with('{') && c.contains("\"results\"")));
}

#[test]
fn command_run_tool_results_persist_exact_response_items_for_cache_prefix() {
    let mut log = Vec::new();
    accumulate_tool_result(
        &mut log,
        "command_run",
        json(r#"{"commands":[{"step":1,"command_type":"shell_command","command_line":"python -m pytest tests/test_orders.py"}]}"#),
        json(r#"{"results":[{"step":1,"command":"shell_command","success":false,"output":"Exit code: 1\nOutput:\norders failed"}]}"#),
        false,
        Some("tests failed"),
    )
    .expect("tool result should be logged");
    let entry = log
        .iter()
        .filter_map(|e| parse_json(e))
        .find(|v| text_of(v, "type") == Some("tool_result"))
        .expect("tool_result should be persisted");
    let context_messages = json_as_array(field(&entry, "context_messages")).expect("context messages should be persisted");
    assert_eq!(context_messages.len(), 2);
    assert_eq!(text_of(&context_messages[0], "type"), Some("function_call"));
    assert_eq!(text_of(&context_messages[0], "name"), Some("command_run"));
    assert_eq!(text_of(&context_messages[1], "type"), Some("function_call_output"));
    assert!(json_eq(field(&context_messages[0], "call_id"), field(&context_messages[1], "call_id")));
    let output = context(&log, "inspect", true);
    assert!(output
        .messages
        .windows(2)
        .any(|pair| json_eq(&pair[0], &context_messages[0]) && json_eq(&pair[1], &context_messages[1])));
}

#[test]
fn command_run_context_prefix_is_append_only_across_later_tool_results() {
    let mut log = Vec::new();
    let large_output = "Exit code: 0\nOutput:\n".to_string() + &"line\n".repeat(200);
    let first_output = JsonValue::Object(vec![(
        "results".to_string(),
        JsonValue::Array(vec![JsonValue::Object(vec![
            ("step".to_string(), JsonValue::Number("1".to_string())),
            ("command".to_string(), JsonValue::Str("shell_command".to_string())),
            ("success".to_string(), JsonValue::Bool(true)),
            ("output".to_string(), JsonValue::Str(large_output)),
        ])]),
    )]);
    accumulate_tool_result(
        &mut log,
        "command_run",
        json(r#"{"commands":[{"step":1,"command_type":"shell_command","command_line":"Get-Content src/checkout.py"}]}"#),
        first_output,
        true,
        None,
    )
    .expect("first command_run result should be logged");
    let first_messages = context(&log, "fix the checkout bug", true).messages;
    accumulate_tool_result(
        &mut log,
        "command_run",
        json(r#"{"commands":[{"step":1,"command_type":"apply_patch","command_line":"*** Begin Patch\n*** Update File: src/checkout.py\n@@\n-old\n+new\n*** End Patch"}]}"#),
        json(r#"{"results":[{"step":1,"command":"apply_patch","success":true,"output":"Success. Updated the following files:\nM src/checkout.py"}]}"#),
        true,
        None,
    )
    .expect("second command_run result should be logged");
    let second_messages = context(&log, "fix the checkout bug", true).messages;
    assert!(second_messages.len() > first_messages.len());
    for (a, b) in first_messages.iter().zip(second_messages.iter()) {
        assert!(json_eq(a, b));
    }
}

#[test]
fn build_context_never_compacts_older_command_run_results_by_count() {
    let mut log = Vec::new();
    for index in 0..16 {
        let input = format!(
            r#"{{"commands":[{{"step":{},"command":"shell_command","command_line":"echo unique-output-{index}"}}]}}"#,
            index + 1
        );
        let output = format!(
            r#"{{"results":[{{"step":{},"command":"shell_command","success":true,"output":"Exit code: 0\nOutput:\nunique-output-{index}"}}]}}"#,
            index + 1
        );
        accumulate_tool_result(&mut log, "command_run", json(&input), json(&output), true, None)
            .expect("command_run result should be logged");
    }
    let output = context(&log, "inspect", true);
    let joined = output
        .messages
        .iter()
        .filter_map(|m| json_get(m, "output").or_else(|| json_get(m, "content")).and_then(json_as_str))
        .collect::<Vec<_>>()
        .join("\n");
    assert!(joined.contains("unique-output-0"));
    assert!(joined.contains("unique-output-15"));
    assert!(!joined.contains("older command_run output compacted"));
}

#[test]
fn build_context_keeps_prior_tool_result_immutable_even_when_later_evaluated_not_helpful() {
    let mut log = Vec::new();
    accumulate_tool_result(
        &mut log,
        "grep",
        json(r#"{"pattern":"needle","secret_command":"do not retain"}"#),
        json(r#"{"matches":["secret-output.rs"]}"#),
        true,
        None,
    )
    .expect("first tool result should be logged");
    accumulate_tool_result_with_feedback(
        &mut log,
        "read",
        json(r#"{"filePath":"README.md"}"#),
        json(r#"{"content":"latest output"}"#),
        true,
        None,
        Some(json(r#"[{"command":"grep","evaluation":"completed_not_helpful"}]"#)),
        None,
    )
    .expect("second tool result should be logged");
    let output = context(&log, "inspect", true);
    let joined = joined(&output.messages);
    assert!(joined.contains("grep"));
    assert!(joined.contains("secret-output.rs"));
    assert!(joined.contains("secret_command"));
}

#[test]
fn build_context_omits_evaluation_messages_when_agent_disables_them() {
    let mut log = Vec::new();
    accumulate_tool_result(
        &mut log,
        "grep",
        json(r#"{"pattern":"needle","secret_command":"do not retain"}"#),
        json(r#"{"matches":["secret-output.rs"]}"#),
        true,
        None,
    )
    .expect("first tool result should be logged");
    accumulate_tool_result_with_feedback(
        &mut log,
        "read",
        json(r#"{"filePath":"README.md"}"#),
        json(r#"{"content":"latest output"}"#),
        true,
        None,
        Some(json(r#"[{"command":"grep","evaluation":"completed_not_helpful"}]"#)),
        None,
    )
    .expect("second tool result should be logged");
    let output = context(&log, "inspect", false);
    let joined = joined(&output.messages);
    assert!(!joined.contains("Tool result enum evaluations"));
    assert!(joined.contains("latest output"));
    assert!(joined.contains("secret-output.rs"));
}

#[test]
fn build_context_keeps_existing_tool_context_messages_append_only() {
    let mut log = Vec::new();
    accumulate_tool_result(&mut log, "grep", json(r#"{"pattern":"needle"}"#), json(r#"{"matches":["src/lib.rs"]}"#), true, None)
        .expect("first tool result should be logged");
    let first_output = context(&log, "inspect", false);
    let first_tool_message = first_output
        .messages
        .iter()
        .find(|m| text_of(m, "content").is_some_and(|c| c.starts_with('[') && c.contains("src/lib.rs")))
        .expect("first tool context message should exist");
    assert!(text_of(first_tool_message, "content").is_some_and(|c| c.contains("\"cache_id\"")));
    accumulate_tool_result(&mut log, "read", json(r#"{"file":"src/lib.rs"}"#), json(r#"{"content":"latest output"}"#), true, None)
        .expect("second tool result should be logged");
    let second_output = context(&log, "inspect", false);
    assert_eq!(text_of(&second_output.messages[0], "role"), Some("user"));
    assert!(json_eq(&second_output.messages[1], first_tool_message));
    assert!(second_output
        .messages
        .iter()
        .any(|m| text_of(m, "content").is_some_and(|c| c.contains("latest output"))));
}

#[test]
fn build_context_does_not_rewrite_prior_tool_result_when_later_marked_helpful() {
    let mut log = Vec::new();
    accumulate_tool_result(&mut log, "grep", json(r#"{"pattern":"needle"}"#), json(r#"{"matches":["src/lib.rs"]}"#), true, None)
        .expect("first tool result should be logged");
    accumulate_tool_result_with_feedback(
        &mut log,
        "read",
        json(r#"{"filePath":"src/lib.rs"}"#),
        json(r#"{"content":"latest output"}"#),
        true,
        None,
        Some(json(r#"[{"command":"grep","evaluation":"completed_helpful"}]"#)),
        Some("grep was useful but this receipt should not be retained"),
    )
    .expect("second tool result should be logged");
    let output = context(&log, "inspect", true);
    let joined = joined(&output.messages);
    assert!(joined.contains("src/lib.rs"));
    assert!(!joined.contains("grep was useful but this receipt should not be retained"));
    assert!(joined.contains("pattern"));
}

#[test]
fn checkpoint_restarts_the_replayed_context() {
    let mut log = Vec::new();
    accumulate_tool_result(&mut log, "grep", json(r#"{"pattern":"old"}"#), json(r#"{"matches":["old-tool-secret"]}"#), true, None)
        .expect("old tool result");
    log.push(
        r#"{"type":"context_compaction","content":"Checkpoint: continue","workspace_snapshot":"<WORKSPACE_SNAPSHOT>\n\n</WORKSPACE_SNAPSHOT>","environment_context":"env","task_management":{"tasks":[]}}"#
            .to_string(),
    );
    accumulate_tool_result(&mut log, "grep", json(r#"{"pattern":"new"}"#), json(r#"{"matches":["new-output"]}"#), true, None)
        .expect("new tool result");
    let messages = build_messages_from_session(&log, "inspect");
    let joined = joined(&messages);
    assert!(!joined.contains("old-tool-secret"));
    assert!(joined.contains("new-output"));
    assert_eq!(messages.len(), 5);
    assert_eq!(text_of(&messages[0], "content"), Some("Checkpoint: continue"));
    assert_eq!(text_of(&messages[1], "content"), Some("<WORKSPACE_SNAPSHOT>\n\n</WORKSPACE_SNAPSHOT>"));
    assert_eq!(text_of(&messages[2], "content"), Some("env"));
    assert_eq!(text_of(&messages[3], "content"), Some("TASK_MANAGEMENT_STATE:\n{\"tasks\":[]}"));
    assert!(!joined.contains("\"inspect\""));
}

#[test]
fn initial_input_is_put_first_only_when_missing() {
    let mut log = Vec::new();
    accumulate_message(&mut log, "assistant", JsonValue::Str("hello".to_string())).expect("logged");
    let messages = build_messages_from_session(&log, "  inspect  ");
    assert_eq!(messages.len(), 2);
    assert_eq!(text_of(&messages[0], "role"), Some("user"));
    assert_eq!(text_of(&messages[0], "content"), Some("inspect"));
    accumulate_message(&mut log, "user", JsonValue::Str("inspect".to_string())).expect("logged");
    let messages = build_messages_from_session(&log, "inspect");
    assert_eq!(messages.len(), 2);
    assert_eq!(text_of(&messages[0], "role"), Some("assistant"));
    assert!(build_messages_from_session(&Vec::new(), "   ").is_empty());
}

#[test]
fn log_entries_that_are_not_json_or_not_dialog_are_skipped() {
    let log = vec![
        "not json".to_string(),
        r#"{"type":"note","content":"ignored"}"#.to_string(),
        r#"{"role":"tool","content":"ignored"}"#.to_string(),
        r#"{"role":"system","content":"kept"}"#.to_string(),
    ];
    let messages = build_messages_from_session(&log, "");
    assert_eq!(messages.len(), 1);
    assert_eq!(json_to_string(&messages[0]), "{\"content\":\"kept\",\"role\":\"system\"}");
}

#[test]
fn tool_results_are_numbered_in_log_order() {
    let mut log = Vec::new();
    accumulate_message(&mut log, "user", JsonValue::Str("hi".to_string())).expect("logged");
    append_tool_result(&mut log, "grep", json(r#"{"pattern":"a","summary":"drop"}"#), json("1"), true, None, None, "2024-01-01T00:00:00+00:00");
    accumulate_tool_result_with_provider_metadata(&mut log, "grep", json("{}"), json("2"), true, None, Some(json(r#"{"id":"p"}"#)))
        .expect("logged");
    assert_eq!(count_tool_results(&log), 2);
    let first = parse_json(&log[1]).expect("record is JSON");
    assert_eq!(json_to_string(field(&first, "sequence")), "1");
    assert_eq!(text_of(&first, "timestamp"), Some("2024-01-01T00:00:00+00:00"));
    assert_eq!(json_to_string(field(&first, "input")), "{\"pattern\":\"a\"}");
    let cache_id = text_of(field(&first, "context_cache"), "cache_id").expect("cache id");
    assert_eq!(cache_id.len(), 16);
    let second = parse_json(&log[2]).expect("record is JSON");
    assert_eq!(json_to_string(field(&second, "sequence")), "2");
    assert_eq!(text_of(field(&second, "provider_metadata"), "id"), Some("p"));
}

#[test]
fn tool_result_record_is_the_same_for_the_same_call() {
    let a = tool_result_record("read", json(r#"{"file":"a"}"#), json(r#"{"content":"x"}"#), true, None, None, 3, "t");
    let b = tool_result_record("read", json(r#"{"file":"a"}"#), json(r#"{"content":"x"}"#), true, None, None, 3, "t");
    assert!(json_eq(&a, &b));
    let c = tool_result_record("read", json(r#"{"file":"a"}"#), json(r#"{"content":"x"}"#), true, None, None, 4, "t");
    assert!(!json_eq(&a, &c));
}

#[test]
fn build_context_opens_an_empty_context_with_reasoning_and_text() {
    let calls = vec![ToolCallRecord {
        tool_called_name: "grep".to_string(),
        tool_called_input: json(r#"{"pattern":"x"}"#),
        agent_reported_summary: Some("found".to_string()),
        tool_reported_success: None,
    }];
    let output = build_context(&Vec::new(), "", true, Some("thinking"), "answer", &calls, vec![json(r#"{"role":"user","content":"extra"}"#)]);
    assert_eq!(output.messages.len(), 3);
    assert_eq!(json_to_string(&output.messages[0]), "{\"content\":\"thinking\",\"role\":\"system\",\"type\":\"reasoning\"}");
    assert_eq!(json_to_string(&output.messages[1]), "{\"content\":\"answer\",\"role\":\"assistant\"}");
    assert_eq!(text_of(&output.messages[2], "content"), Some("extra"));
    assert_eq!(output.reasoning_history, vec!["thinking".to_string()]);
    assert_eq!(
        json_to_string(&output.tool_results[0]),
        "{\"input\":{\"pattern\":\"x\"},\"success\":null,\"summary\":\"found\",\"tool_name\":\"grep\"}"
    );
    assert!(output.last_tool_call_response.is_none());
    let with_log = build_context(&Vec::new(), "inspect", true, Some(""), "answer", &Vec::new(), Vec::new());
    assert_eq!(with_log.messages.len(), 1);
    assert!(with_log.reasoning_history.is_empty());
}

#[test]
fn last_tool_call_response_reads_the_latest_tool_result() {
    let mut log = Vec::new();
    assert!(last_tool_call_response_from_session(&log).is_none());
    accumulate_tool_result(&mut log, "grep", json("{}"), json("1"), true, None).expect("logged");
    accumulate_tool_result(&mut log, "read", json("{}"), json("2"), false, Some("boom")).expect("logged");
    accumulate_message(&mut log, "user", JsonValue::Str("later".to_string())).expect("logged");
    let last = last_tool_call_response_from_session(&log).expect("a tool result");
    assert_eq!(text_of(&last, "tool_name"), Some("read"));
    assert_eq!(text_of(&last, "error"), Some("boom"));
    assert_eq!(json_to_string(field(&last, "output")), "2");
}

#[test]
fn runtime_context_keeps_the_messages_as_they_are() {
    let messages = vec![json(r#"{"role":"user","content":"temporary user text"}"#)];
    let out = messages_with_runtime_context(&messages, Some("flagship_thinking"), Some("openai/gpt-test"), true);
    assert_eq!(out.len(), 1);
    assert!(json_eq(&out[0], &messages[0]));
}

#[test]
fn checkpoint_makes_earlier_entries_irrelevant() {
    let checkpoint = r#"{"type":"context_compaction","content":"handoff"}"#.to_string();
    let mut a = vec!["{\"role\":\"user\",\"content\":\"first\"}".to_string()];
    let mut b = Vec::new();
    accumulate_tool_result(&mut b, "grep", json("{}"), json("1"), true, None).expect("logged");
    a.push(checkpoint.clone());
    b.push(checkpoint);
    for log in [&mut a, &mut b] {
        accumulate_message(log, "assistant", JsonValue::Str("after".to_string())).expect("logged");
    }
    let ra = build_messages_from_session(&a, "inspect");
    let rb = build_messages_from_session(&b, "inspect");
    assert_eq!(ra.len(), 2);
    assert_eq!(joined(&ra), joined(&rb));
    assert_eq!(text_of(&ra[0], "content"), Some("handoff"));
}

#[test]
fn context_management_compact_session_context_replaces_prior_tool_context_but_keeps_later_results() {
    let mut log = Vec::new();
    accumulate_tool_result(
        &mut log,
        "command_run",
        json(r#"{"commands":[{"command_type":"shell_command","command_line":"echo old"}]}"#),
        json(r#"{"results":[{"step":1,"command_type":"shell_command","success":true,"output":"old-tool-secret"}]}"#),
        true,
        None,
    )
    .expect("old tool result");
    compact_session_context(
        &mut log,
        "Checkpoint: prior tool history is no longer needed. Continue with src/lib.rs.",
        Some("<WORKSPACE_SNAPSHOT>\nsrc/lib.rs\n</WORKSPACE_SNAPSHOT>"),
        "<environment_context>\n</environment_context>",
        json(r#"{"tasks":[]}"#),
    )
    .expect("compact should write");
    accumulate_tool_result(
        &mut log,
        "command_run",
        json(r#"{"commands":[{"command_type":"shell_command","command_line":"echo new"}]}"#),
        json(r#"{"results":[{"step":1,"command_type":"shell_command","success":true,"output":"new-output"}]}"#),
        true,
        None,
    )
    .expect("new tool result");
    let output = context(&log, "inspect", true);
    let joined = joined(&output.messages);
    assert!(joined.contains("Checkpoint: prior tool history is no longer needed"));
    assert!(joined.contains("<WORKSPACE_SNAPSHOT>"));
    assert!(joined.contains("src/lib.rs"));
    assert!(!joined.contains("old-tool-secret"));
    assert!(joined.contains("new-output"));
}

#[test]
fn checkpoint_entry_trims_and_falls_back_to_an_empty_snapshot() {
    let entry = checkpoint_entry("  handoff  ", None, "env", json(r#"{"tasks":[]}"#), "t");
    assert_eq!(
        json_to_string(&entry),
        "{\"content\":\"handoff\",\"environment_context\":\"env\",\"task_management\":{\"tasks\":[]},\"timestamp\":\"t\",\"type\":\"context_compaction\",\"workspace_snapshot\":\"<WORKSPACE_SNAPSHOT>\\n\\n</WORKSPACE_SNAPSHOT>\"}"
    );
}
