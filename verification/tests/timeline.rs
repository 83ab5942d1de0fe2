use runtime::context::compaction::{context_compaction_messages, Moment};
use runtime::context::timeline::{
    compact_session_context,
    compaction_timeline_entries, log_timestamp, parse_rfc3339_moment, role_timeline_item,
    tool_result_timeline_item,
};
use runtime::json::{json_to_string, parse_json, JsonValue};
use runtime::manas::runtime_turn::ContextTokens;

fn json(text: &str) -> JsonValue {
    parse_json(text).expect("test input is JSON")
}

fn at(text: &str) -> Moment {
    parse_rfc3339_moment(text).expect("RFC 3339 time")
}

fn millis(text: &str) -> i64 {
    chrono::DateTime::parse_from_rfc3339(text).expect("time").timestamp_millis()
}

#[test]
fn rfc3339_times_are_read_in_utc() {
    let m = at("2026-01-01T02:00:10.5+02:00");
    let utc = chrono::DateTime::parse_from_rfc3339("2026-01-01T00:00:10.5Z").expect("time");
    assert_eq!(m.seconds, utc.timestamp());
    assert_eq!(m.nanos, 500_000_000);
    assert_eq!(m.timestamp, "2026-01-01T00:00:10.500+00:00");
    assert!(parse_rfc3339_moment("yesterday").is_none());
}

#[test]
fn log_time_falls_back_to_created_at_milliseconds() {
    let ms = millis("2026-01-01T00:00:12Z");
    let value = json(&format!(r#"{{"timestamp":"not a time","created_at":{ms}}}"#));
    let m = log_timestamp(&value).expect("time");
    assert_eq!(m.timestamp, "2026-01-01T00:00:12+00:00");
    let negative = json(r#"{"created_at":-1000}"#);
    assert_eq!(log_timestamp(&negative).expect("time").timestamp, "1969-12-31T23:59:59+00:00");
    assert!(log_timestamp(&json(r#"{"created_at":1.5}"#)).is_none());
    assert!(log_timestamp(&json(r#"{"role":"user"}"#)).is_none());
}

#[test]
fn timeline_keeps_the_current_run_and_the_context_since_the_last_checkpoint() {
    let tool_ms = millis("2026-01-01T00:00:12Z");
    let log = vec![
        r#"{"role":"user","content":"old","timestamp":"2026-01-01T00:00:01Z"}"#.to_string(),
        "not json".to_string(),
        r#"{"type":"context_compaction","content":"summary","timestamp":"2026-01-01T00:00:02Z"}"#.to_string(),
        r#"{"role":"assistant","content":"kept","timestamp":"2026-01-01T00:00:03Z"}"#.to_string(),
        r#"{"role":"user","content":"now","timestamp":"2026-01-01T00:00:11Z"}"#.to_string(),
        format!(r#"{{"type":"tool_result","tool_name":"command_run","success":false,"error":" bad ","output":{{"x":1}},"created_at":{tool_ms}}}"#),
        r#"{"role":"other","content":"x","timestamp":"2026-01-01T00:00:13Z"}"#.to_string(),
    ];
    let started = at("2026-01-01T00:00:10Z");
    let entries = compaction_timeline_entries(&log, &started, true, "user_agent");
    let seen: Vec<(String, String, String, usize)> = entries
        .iter()
        .map(|e| (e.scope.clone(), e.role.clone(), e.content.clone(), e.index))
        .collect();
    assert_eq!(
        seen,
        vec![
            ("retained_context".to_string(), "agent_summary".to_string(), "summary".to_string(), 2),
            ("retained_context".to_string(), "agent_summary".to_string(), "kept".to_string(), 3),
            ("current_run".to_string(), "user".to_string(), "now".to_string(), 4),
            (
                "current_run".to_string(),
                "tool".to_string(),
                "command_run success=false error=bad output={\"x\":1}".to_string(),
                5
            ),
        ]
    );
    assert_eq!(entries[0].timestamp, "2026-01-01T00:00:02+00:00");
    for entry in &entries {
        let current = (entry.seconds, entry.nanos) >= (started.seconds, started.nanos);
        assert_eq!(entry.scope == "current_run", current);
    }
    assert!(entries.windows(2).all(|w| w[0].index < w[1].index));
    let without_tools = compaction_timeline_entries(&log, &started, false, "user_agent");
    assert_eq!(without_tools.len(), 3);
}

#[test]
fn checkpoint_place_counts_json_lines_only() {
    let log = vec![
        "garbage".to_string(),
        r#"{"role":"user","content":"before","timestamp":"2026-01-01T00:00:01Z"}"#.to_string(),
        r#"{"type":"context_compaction","content":"summary","timestamp":"2026-01-01T00:00:02Z"}"#.to_string(),
    ];
    let entries = compaction_timeline_entries(&log, &at("2026-01-01T00:00:10Z"), false, "user_agent");
    assert_eq!(entries.len(), 2);
    assert_eq!(entries[0].content, "before");
    assert_eq!(entries[0].role, "user");
}

#[test]
fn runtime_context_role_reads_as_user_context_in_the_current_run() {
    let value = json(r#"{"role":"user_agent","content":{"k":1}}"#);
    assert_eq!(
        role_timeline_item(&value, true, "user_agent"),
        Some(("user_context".to_string(), "{\"k\":1}".to_string()))
    );
    assert_eq!(
        role_timeline_item(&value, false, "user_agent"),
        Some(("user".to_string(), "{\"k\":1}".to_string()))
    );
    assert_eq!(role_timeline_item(&value, true, "other"), None);
}

#[test]
fn tool_result_reads_its_cached_output_first() {
    let value = json(r#"{"type":"tool_result","context_cache":{"output":"cached"},"context_message":"message","output":"raw"}"#);
    assert_eq!(
        tool_result_timeline_item(&value),
        Some(("tool".to_string(), "tool success=true output=cached".to_string()))
    );
    let message = json(r#"{"type":"tool_result","context_cache":{},"context_message":"message","error":"  "}"#);
    assert_eq!(
        tool_result_timeline_item(&message),
        Some(("tool".to_string(), "tool success=true output=message".to_string()))
    );
    assert_eq!(tool_result_timeline_item(&json(r#"{"type":"note"}"#)), None);
}

#[test]
fn checkpoint_record_restarts_the_context() {
    let record = json(
        r#"{"type":"context_compaction","content":"handoff","workspace_snapshot":"<WS/>","environment_context":"<env/>"}"#,
    );
    let messages: Vec<String> = context_compaction_messages(&record, Some("  goal  "), "user_agent")
        .iter()
        .map(json_to_string)
        .collect();
    assert_eq!(messages.len(), 4);
    assert_eq!(messages[0], "{\"content\":\"handoff\",\"role\":\"user\"}");
    assert!(messages[1].contains("<untrusted_objective>\\ngoal\\n</untrusted_objective>"));
    assert_eq!(messages[2], "{\"content\":\"<WS/>\",\"role\":\"user_agent\"}");
    assert_eq!(messages[3], "{\"content\":\"<env/>\",\"role\":\"user_agent\"}");
    assert_eq!(context_compaction_messages(&record, Some("   "), "user_agent").len(), 3);
    assert_eq!(context_compaction_messages(&json("{}"), None, "user_agent").len(), 0);
}

#[test]
fn compaction_appends_a_record_and_resets_the_counts() {
    let mut log = vec![r#"{"role":"user","content":"hello","timestamp":"2026-01-01T00:00:11Z"}"#.to_string()];
    let mut tokens = ContextTokens { input: 1234, limit: 9000 };
    let mut usage = json(r#"{"input_tokens":5}"#);
    let started = at("2026-01-01T00:00:10Z");
    let r = compact_session_context(
        &mut log, &mut tokens, &mut usage, "hello", &started, "handoff", None, false, "user_agent", None, "<env/>",
    );
    assert!(r.is_ok());
    assert_eq!(log.len(), 2);
    let record: serde_json::Value = serde_json::from_str(&log[1]).expect("json");
    assert_eq!(record["type"], "context_compaction");
    assert_eq!(record["environment_context"], "<env/>");
    let content = record["content"].as_str().expect("content");
    assert!(content.contains("current_run/user: hello"));
    assert!(content.ends_with("handoff"));
    assert_eq!(tokens, ContextTokens { input: 0, limit: 9000 });
    assert_eq!(json_to_string(&usage), "null");
}

fn rfc(text: &str) -> String {
    chrono::DateTime::parse_from_rfc3339(text).expect("time").with_timezone(&chrono::Utc).to_rfc3339()
}

#[test]
fn compact_session_context_rebuilds_next_turn_from_timestamped_user_and_agent_timeline() {
    let entry = |role: &str, content: &str, at_text: &str| {
        format!(
            r#"{{"role":"{role}","content":"{content}","timestamp":"{}","created_at":{},"updated_at":{}}}"#,
            rfc(at_text),
            millis(at_text),
            millis(at_text)
        )
    };
    let mut log = vec![
        entry("user", "old user requirement kept from retained context", "2026-01-01T00:01:00Z"),
        format!(
            r#"{{"type":"context_compaction","content":"earlier agent summary that remains in current context","workspace_snapshot":"<WORKSPACE_SNAPSHOT>\nold\n</WORKSPACE_SNAPSHOT>","environment_context":"<environment_context>old</environment_context>","timestamp":"{}"}}"#,
            rfc("2026-01-01T00:02:00Z")
        ),
        entry("user", "current run real user request", "2026-01-01T00:11:00Z"),
        entry("assistant", "current run visible agent progress", "2026-01-01T00:12:00Z"),
    ];
    let mut tokens = ContextTokens { input: 10, limit: 100 };
    let mut usage = json("null");
    let started = at("2026-01-01T00:10:00Z");

    compact_session_context(
        &mut log, &mut tokens, &mut usage, "current run real user request", &started, "new compact handoff text",
        None, false, "user_agent", None, "<environment_context>new</environment_context>",
    )
    .expect("compact should succeed");
    let record: serde_json::Value = serde_json::from_str(log.last().expect("record")).expect("json");
    let joined = record["content"].as_str().expect("content").to_string();

    assert!(joined.contains("Context rebuild timeline before this checkpoint"), "{joined}");
    assert!(joined.contains(&rfc("2026-01-01T00:02:00Z")), "{joined}");
    assert!(joined.contains("retained_context/agent_summary: earlier agent summary"), "{joined}");
    assert!(joined.contains(&rfc("2026-01-01T00:11:00Z")), "{joined}");
    assert!(joined.contains("current_run/user: current run real user request"), "{joined}");
    assert!(joined.contains("current_run/agent: current run visible agent progress"), "{joined}");
    assert!(joined.contains("Compact context handoff"), "{joined}");
    assert!(joined.contains("new compact handoff text"), "{joined}");
    assert!(!joined.contains("old user requirement kept from retained context"), "{joined}");
    let summary = joined.find("earlier agent summary").expect("summary position");
    let user = joined.find("current run real user request").expect("user position");
    let agent = joined.find("current run visible agent progress").expect("agent position");
    assert!(summary < user && user < agent, "timeline must be timestamp sorted: {joined}");
}

#[test]
fn compact_session_context_does_not_append_task_management_state() {
    let mut log: Vec<String> = Vec::new();
    let mut tokens = ContextTokens { input: 10, limit: 100 };
    let mut usage = json("null");
    let started = at("2026-01-01T00:10:00Z");

    compact_session_context(
        &mut log, &mut tokens, &mut usage, "Inspect workspace", &started, "handoff summary", None, false,
        "user_agent", None, "<env/>",
    )
    .expect("compact should succeed");
    let last = log.last().expect("record");

    assert!(!last.starts_with("TASK_MANAGEMENT_STATE:"));
    assert!(!last.contains("\"task_id\":\"compact-task\""));
    assert!(!last.contains("\"status\":\"doing\""));
}
