use runtime::checkpoint::session_messages::{persisted_message, persisted_messages};
use runtime::json::{json_to_string, JsonValue};

const SESSION: &str = "snapshot-session";

fn value(v: &JsonValue) -> serde_json::Value {
    serde_json::from_str(&json_to_string(v)).expect("written JSON reads back")
}

#[test]
fn persisted_message_wraps_non_object_json_without_panicking() {
    let value = value(&persisted_message(SESSION, 2, "\"plain text\"", 1_000));

    assert_eq!(value["type"], "log");
    assert_eq!(value["content"], "plain text");
    assert_eq!(value["role"], "log");
    assert_eq!(value["created_at"], 1_002);
    assert_eq!(value["session_id"], "snapshot-session");
}

#[test]
fn persisted_message_turns_assistant_content_into_hydratable_message() {
    let entry = r#"{"id":"runtime-1.message","part_id":"runtime-1.message","role":"assistant","content":"final visible reply","created_at":42,"updated_at":43,"runtime_id":"runtime-1"}"#;
    let value = value(&persisted_message(SESSION, 7, entry, 1_000));

    assert_eq!(value["id"], "runtime-1.message");
    assert_eq!(value["session_id"], "snapshot-session");
    assert_eq!(value["role"], "assistant");
    assert_eq!(value["created_at"], 42);
    assert_eq!(value["updated_at"], 43);
    assert_eq!(value["parts"][0]["id"], "runtime-1.message");
    assert_eq!(value["parts"][0]["type"], "text");
    assert_eq!(value["parts"][0]["text"], "final visible reply");
    assert_eq!(value["parts"][0]["content"], "final visible reply");
}

#[test]
fn persisted_messages_merges_runtime_tool_result_into_runtime_assistant_message() {
    let assistant_created_at = chrono::DateTime::parse_from_rfc3339("2026-06-14T08:09:11Z")
        .expect("timestamp")
        .timestamp_millis();
    let assistant_updated_at = assistant_created_at + 100;
    let tool_finished_at = "2026-06-14T08:09:14Z";
    let log = vec![
        format!(
            r#"{{"id":"runtime-merge-1.message","part_id":"runtime-merge-1.message","role":"assistant","content":"I checked the workspace.","created_at":{assistant_created_at},"updated_at":{assistant_updated_at},"runtime_id":"runtime-merge-1"}}"#
        ),
        format!(
            r#"{{"type":"tool_result","runtime_id":"runtime-merge-1","tool_name":"command_run","input":{{"commands":[{{"step":1,"command_type":"shell_command","command_line":"Get-ChildItem"}}]}},"output":{{"streamed_command_run_result":{{"results":[{{"step":1,"command_type":"shell_command","command_line":"Get-ChildItem","success":true}}]}}}},"success":true,"error":null,"timestamp":"{tool_finished_at}"}}"#
        ),
    ];

    let messages: Vec<serde_json::Value> = persisted_messages(SESSION, chrono::Utc::now().timestamp_millis(), &log)
        .iter()
        .map(value)
        .collect();

    assert_eq!(messages.len(), 1, "{messages:#?}");
    let message = &messages[0];
    assert_eq!(message["id"], "runtime-merge-1.message");
    assert_eq!(message["role"], "assistant");
    assert_eq!(message["created_at"], assistant_created_at);
    assert_eq!(
        message["updated_at"],
        chrono::DateTime::parse_from_rfc3339(tool_finished_at)
            .expect("timestamp")
            .timestamp_millis()
    );
    assert_eq!(message["parts"].as_array().expect("parts").len(), 2);
    assert_eq!(message["parts"][0]["id"], "runtime-merge-1.message");
    assert_eq!(message["parts"][0]["text"], "I checked the workspace.");
    assert_eq!(message["parts"][1]["id"], "runtime-merge-1.tool.command_run");
    assert_eq!(message["parts"][1]["tool"], "command_run");
    assert_eq!(message["parts"][1]["call_id"], "runtime-merge-1.tool.command_run");
    assert_eq!(message["parts"][1]["state"]["status"], "completed");
    assert_eq!(
        message["parts"][1]["state"]["input"]["commands"][0]["command_line"],
        "Get-ChildItem"
    );
    assert_eq!(
        message["parts"][1]["state"]["output"]["streamed_command_run_result"]["results"][0]["success"],
        true
    );
}

#[test]
fn persisted_message_keeps_user_context_without_frontend_id_auxiliary() {
    let user = value(&persisted_message(
        SESSION,
        1,
        r#"{"role":"user","content":[{"type":"input_text","text":"hello"},{"text":" world"}]}"#,
        1_000,
    ));
    let user_with_parts = value(&persisted_message(
        SESSION,
        2,
        r#"{"role":"user","parts":[{"id":"synthetic-part","type":"text","text":"hello from context","content":"hello from context"}]}"#,
        1_000,
    ));

    assert_eq!(user["id"], "snapshot-session:context:1");
    assert_eq!(user["role"], "log");
    assert_eq!(user["source_role"], "user");
    assert_eq!(user["type"], "user_context");
    assert_eq!(user["content"][0]["text"], "hello");
    assert!(user.get("parts").is_none());

    assert_eq!(user_with_parts["id"], "snapshot-session:context:2");
    assert_eq!(user_with_parts["role"], "log");
    assert_eq!(user_with_parts["source_role"], "user");
    assert_eq!(user_with_parts["type"], "user_context");
    assert_eq!(user_with_parts["parts"][0]["text"], "hello from context");
}

#[test]
fn persisted_message_keeps_frontend_user_id_hydratable() {
    let value = value(&persisted_message(
        SESSION,
        1,
        r#"{"id":"msg_tui_frontend-1","part_id":"part_tui_frontend-1","role":"user","content":[{"type":"input_text","text":"hello"},{"text":" world"}]}"#,
        1_000,
    ));

    assert_eq!(value["id"], "msg_tui_frontend-1");
    assert_eq!(value["role"], "user");
    assert_eq!(value["parts"][0]["id"], "part_tui_frontend-1");
    assert_eq!(value["parts"][0]["text"], "hello world");
}

#[test]
fn persisted_message_replaces_zero_frontend_user_timestamps_before_session_log_write() {
    let value = value(&persisted_message(
        SESSION,
        4,
        r#"{"id":"msg_tui_frontend-zero-time","role":"user","created_at":0,"updated_at":0,"parts":[{"id":"part_tui_frontend-zero-time","type":"text","text":"user prompt after replay","content":"user prompt after replay"}]}"#,
        1_000,
    ));

    assert_eq!(value["id"], "msg_tui_frontend-zero-time");
    assert_eq!(value["role"], "user");
    assert_eq!(value["created_at"], 1_004);
    assert_eq!(value["updated_at"], 1_004);
    assert_eq!(value["parts"][0]["text"], "user prompt after replay");
}

#[test]
fn persisted_message_uses_explicit_frontend_user_timestamp_instead_of_log_index_fallback() {
    let value = value(&persisted_message(
        SESSION,
        4,
        r#"{"id":"msg_tui_frontend-current-time","part_id":"part_tui_frontend-current-time","role":"user","created_at":123456,"updated_at":123789,"timestamp":"2026-06-19T12:34:56.789Z","content":[{"type":"input_text","text":"fresh user prompt"}]}"#,
        1_000,
    ));

    assert_eq!(value["id"], "msg_tui_frontend-current-time");
    assert_eq!(value["role"], "user");
    assert_eq!(value["created_at"], 123_456);
    assert_eq!(value["updated_at"], 123_789);
    assert_eq!(value["parts"][0]["id"], "part_tui_frontend-current-time");
    assert_eq!(value["parts"][0]["text"], "fresh user prompt");
}

#[test]
fn persisted_message_normalizes_system_content_but_keeps_runtime_usage_auxiliary() {
    let system = value(&persisted_message(
        SESSION,
        2,
        r#"{"role":"system","content":{"text":"guardrail"}}"#,
        1_000,
    ));
    let usage = value(&persisted_message(
        SESSION,
        3,
        r#"{"type":"runtime_usage","runtime_id":"runtime-1","usage":{"total_tokens":9},"timestamp":"2026-06-14T08:09:11Z"}"#,
        1_000,
    ));

    assert_eq!(system["role"], "system");
    assert_eq!(system["parts"][0]["text"], "guardrail");
    assert_eq!(usage["role"], "runtime");
    assert_eq!(usage["type"], "runtime_usage");
    assert!(usage.get("parts").is_none());
}

#[test]
fn persisted_message_keeps_user_agent_context_auxiliary() {
    // The role the runtime gives its own context records to the model.
    let role = "user_agent";
    let entry = format!(
        r#"{{"role":"{role}","content":"<environment_context>internal</environment_context>"}}"#
    );
    let value = value(&persisted_message(SESSION, 4, &entry, 1_000));

    assert_eq!(value["role"], role);
    assert_eq!(value["content"], "<environment_context>internal</environment_context>");
    assert!(value.get("parts").is_none());
}

#[test]
fn unreadable_log_line_is_kept_as_its_text() {
    let value = value(&persisted_message(SESSION, 0, "not json {", 5_000));
    assert_eq!(value["type"], "log");
    assert_eq!(value["content"], "not json {");
    assert_eq!(value["role"], "log");
    assert_eq!(value["id"], "snapshot-session:log:0");
    assert_eq!(value["created_at"], 5_000);
    assert_eq!(value["updated_at"], 5_000);
}

#[test]
fn log_record_time_comes_from_its_timestamp_before_its_position() {
    let expected = chrono::DateTime::parse_from_rfc3339("2026-06-14T08:09:11Z")
        .expect("timestamp")
        .timestamp_millis();
    let usage = value(&persisted_message(
        SESSION,
        3,
        r#"{"type":"runtime_usage","timestamp":"2026-06-14T08:09:11Z"}"#,
        1_000,
    ));
    assert_eq!(usage["created_at"], expected);
    assert_eq!(usage["updated_at"], expected);
    assert_eq!(usage["id"], "snapshot-session:log:3");
}

#[test]
fn position_time_counts_from_a_start_before_the_epoch() {
    let value = value(&persisted_message(SESSION, 3, r#"{"type":"note"}"#, -10));
    assert_eq!(value["created_at"], -7);
    assert_eq!(value["role"], "note");
}

#[test]
fn blank_type_gives_an_event_role() {
    let value = value(&persisted_message(SESSION, 1, r#"{"type":"  "}"#, 0));
    assert_eq!(value["role"], "event");
    let compaction = value_of(r#"{"type":"context_compaction"}"#);
    assert_eq!(compaction["role"], "system");
    let tool = value_of(r#"{"type":"tool_result"}"#);
    assert_eq!(tool["role"], "tool");
}

fn value_of(entry: &str) -> serde_json::Value {
    value(&persisted_message(SESSION, 1, entry, 0))
}

#[test]
fn failed_tool_result_opens_a_runtime_message_with_a_failed_part() {
    let log = vec![
        r#"{"type":"tool_result","runtime_id":" runtime-9 ","tool_name":"command_run","success":false,"error":"boom","created_at":50,"updated_at":60}"#.to_string(),
    ];
    let messages: Vec<serde_json::Value> = persisted_messages(SESSION, 0, &log).iter().map(value).collect();
    assert_eq!(messages.len(), 1);
    let message = &messages[0];
    assert_eq!(message["id"], "runtime-9.message");
    assert_eq!(message["role"], "assistant");
    assert_eq!(message["session_id"], SESSION);
    assert_eq!(message["created_at"], 50);
    assert_eq!(message["updated_at"], 60);
    assert_eq!(message["parts"][0]["id"], "runtime-9.tool.command_run");
    assert_eq!(message["parts"][0]["state"]["status"], "failed");
    assert_eq!(message["parts"][0]["metadata"]["error"], "boom");
    assert_eq!(message["parts"][0]["state"]["time"]["start"], 50);
    assert_eq!(message["parts"][0]["state"]["time"]["end"], 60);
}

#[test]
fn a_later_tool_result_replaces_the_part_with_its_id() {
    let log = vec![
        r#"{"type":"tool_result","runtime_id":"r","tool_name":"t","output":"first","created_at":10}"#.to_string(),
        r#"{"type":"tool_result","runtime_id":"r","tool_name":"t","output":"second","created_at":5,"updated_at":30}"#.to_string(),
        r#"{"id":"r.message","role":"assistant","content":"done","created_at":20,"updated_at":25}"#.to_string(),
    ];
    let messages: Vec<serde_json::Value> = persisted_messages(SESSION, 0, &log).iter().map(value).collect();
    assert_eq!(messages.len(), 1);
    let parts = messages[0]["parts"].as_array().expect("parts");
    assert_eq!(parts.len(), 2);
    assert_eq!(parts[0]["type"], "text");
    assert_eq!(parts[0]["text"], "done");
    assert_eq!(parts[1]["state"]["output"], "second");
    assert_eq!(messages[0]["created_at"], 5);
    assert_eq!(messages[0]["updated_at"], 30);
}

#[test]
fn other_lines_stay_in_log_order() {
    let log = vec![
        r#"{"type":"note","n":1}"#.to_string(),
        "plain".to_string(),
        r#"{"id":"a.message","role":"assistant","content":"hi"}"#.to_string(),
        r#"{"id":"b.message","role":"assistant","content":"there"}"#.to_string(),
    ];
    let messages: Vec<serde_json::Value> = persisted_messages(SESSION, 100, &log).iter().map(value).collect();
    assert_eq!(messages.len(), 4);
    assert_eq!(messages[0]["n"], 1);
    assert_eq!(messages[1]["content"], "plain");
    assert_eq!(messages[2]["id"], "a.message");
    assert_eq!(messages[3]["id"], "b.message");
    assert_eq!(messages[3]["created_at"], 103);
}

#[test]
fn every_log_line_becomes_a_complete_record() {
    let lines = [
        "",
        "42",
        "[1,2]",
        r#"{"role":"user","parts":[]}"#,
        r#"{"role":"assistant","parts":[],"id":"x"}"#,
        r#"{"role":"system","content":"  "}"#,
        r#"{"type":"tool_result","runtime_id":"","tool_name":"t"}"#,
    ];
    for (index, line) in lines.iter().enumerate() {
        let record = value(&persisted_message(SESSION, index, line, 7));
        for key in ["id", "role", "session_id", "created_at", "updated_at"] {
            assert!(record.get(key).is_some(), "{line} lacks {key}: {record}");
        }
    }
}

#[test]
fn tool_results_of_one_runtime_share_one_message() {
    let log = vec![
        r#"{"type":"tool_result","runtime_id":"r","tool_name":"a"}"#.to_string(),
        r#"{"type":"tool_result","runtime_id":"s","tool_name":"a"}"#.to_string(),
        r#"{"type":"tool_result","runtime_id":"r","tool_name":"b"}"#.to_string(),
    ];
    let messages: Vec<serde_json::Value> = persisted_messages(SESSION, 0, &log).iter().map(value).collect();
    assert_eq!(messages.len(), 2);
    assert_eq!(messages[0]["id"], "r.message");
    assert_eq!(messages[0]["parts"].as_array().expect("parts").len(), 2);
    assert_eq!(messages[1]["id"], "s.message");
}
