use runtime::json::{json_to_string, JsonValue};
use runtime::prompt_style::manual_records::{
    append_missing_runtime_prompt_manuals, append_runtime_prompt_manuals_after_compact,
    command_run_capability_content, append_runtime_prompt_manuals_for_task_types,
};
use runtime::prompt_style::runtime_prompt_manual::normalize_task_type_ids;
use runtime::prompt_style::runtime_prompt_manual::RuntimePromptManual;

fn manual(id: &str, prompt: &str) -> RuntimePromptManual {
    RuntimePromptManual {
        id: id.to_string(),
        display_name: format!("{id} manual"),
        description: String::new(),
        father_ids: vec![],
        capabilities: vec![],
        prompt: prompt.to_string(),
    }
}

fn record(line: &str) -> serde_json::Value {
    serde_json::from_str(line).expect("records are JSON")
}

#[test]
fn capability_content_lists_each_command_once() {
    let caps = vec![
        ("command_run".to_string(), Some("- command_run: x".to_string())),
        ("apply_patch".to_string(), Some("- apply_patch: patch".to_string())),
        ("".to_string(), Some("- blank".to_string())),
        ("shell_command".to_string(), None),
        ("apply_patch".to_string(), Some("- apply_patch: again".to_string())),
        ("read_media".to_string(), Some("- read_media: media".to_string())),
        ("shell_command".to_string(), Some("- shell_command: late".to_string())),
    ];
    let (content, names) = command_run_capability_content("frontend", &caps).expect("content");
    assert_eq!(names, vec!["apply_patch".to_string(), "read_media".to_string()]);
    assert_eq!(
        content,
        "[runtime_prompt_command_run_capabilities]\nThe active `frontend` Operation Manual adds these command_run commands. Treat this system message as an additional command_run command format extension for the current context.\nCommand line formats:\n- apply_patch: patch\n- read_media: media"
    );
    let none = vec![("shells".to_string(), None), ("command_run".to_string(), Some("l".to_string()))];
    assert!(command_run_capability_content("debug", &none).is_none());
}

#[test]
fn missing_manuals_are_appended_once_per_checkpoint() {
    let manuals = vec![manual("frontend", "  Build the UI.  "), manual("debug", "   ")];
    let contents = vec![Some(("extension".to_string(), vec!["apply_patch".to_string()])), None];
    let mut log: Vec<String> = vec![r#"{"role":"user","content":"hi"}"#.to_string()];
    let mut messages: Option<Vec<JsonValue>> = Some(vec![]);

    let changed = append_missing_runtime_prompt_manuals(&manuals, &contents, &mut log, &mut messages);
    assert_eq!(changed, Ok(true));
    assert_eq!(log.len(), 3);
    assert_eq!(log[0], r#"{"role":"user","content":"hi"}"#);
    let prompt = record(&log[1]);
    assert_eq!(prompt["type"], "runtime_prompt_manual");
    assert_eq!(prompt["task_type"], "frontend");
    assert_eq!(prompt["manual_name"], "frontend manual");
    assert_eq!(prompt["role"], "system");
    assert_eq!(prompt["content"], "Build the UI.");
    assert_eq!(prompt["created_at"], prompt["updated_at"]);
    assert!(prompt["timestamp"].as_str().expect("timestamp").ends_with("+00:00"));
    let extension = record(&log[2]);
    assert_eq!(extension["type"], "runtime_prompt_command_run_capabilities");
    assert_eq!(extension["capabilities"][0], "apply_patch");
    assert_eq!(extension["content"], "extension");
    let sent: Vec<String> = messages.as_ref().expect("messages").iter().map(json_to_string).collect();
    assert_eq!(
        sent,
        vec![
            "{\"content\":\"Build the UI.\",\"role\":\"system\"}".to_string(),
            "{\"content\":\"extension\",\"role\":\"system\"}".to_string(),
        ]
    );

    assert_eq!(append_missing_runtime_prompt_manuals(&manuals, &contents, &mut log, &mut messages), Ok(false));
    assert_eq!(log.len(), 3);

    log.push(r#"{"type":"context_compaction","content":"summary"}"#.to_string());
    assert_eq!(append_runtime_prompt_manuals_after_compact(&manuals, &contents, &mut log), Ok(true));
    assert_eq!(log.len(), 6);
    assert_eq!(messages.expect("messages").len(), 2);
    let before = log.clone();
    assert_eq!(append_runtime_prompt_manuals_after_compact(&manuals, &contents, &mut log), Ok(false));
    assert_eq!(log, before);
}

#[test]
fn no_manuals_change_nothing() {
    let mut log: Vec<String> = vec![];
    let mut messages: Option<Vec<JsonValue>> = None;
    assert_eq!(append_missing_runtime_prompt_manuals(&vec![], &vec![], &mut log, &mut messages), Ok(false));
    assert!(log.is_empty());
}

/// The manual catalog with the visual manual's prompt filled in (its text
/// lives in a prompt file outside this crate), and the visual manual's
/// command_run extension built from the media commands' format lines.
fn visual_catalog() -> (Vec<RuntimePromptManual>, Vec<Option<(String, Vec<String>)>>) {
    let catalog: Vec<RuntimePromptManual> = runtime::prompt_style::runtime_prompt_manual::available_manuals()
        .into_iter()
        .map(|m| if m.id == "visual" { RuntimePromptManual { prompt: "Visual operation manual.".to_string(), ..m } } else { m })
        .collect();
    let contents = catalog
        .iter()
        .map(|m| {
            if m.id == "visual" {
                let caps = vec![
                    ("web_discover".to_string(), Some("- web_discover: discover".to_string())),
                    ("generate_media".to_string(), Some("- generate_media: generate".to_string())),
                    ("read_media".to_string(), Some("- read_media: read".to_string())),
                ];
                command_run_capability_content("visual", &caps)
            } else {
                None
            }
        })
        .collect();
    (catalog, contents)
}

#[test]
fn append_missing_manuals_places_command_capabilities_after_manual() {
    let (catalog, contents) = visual_catalog();
    let task_type = normalize_task_type_ids(&["visual"]);
    let mut session_log: Vec<String> = Vec::new();
    let mut messages: Option<Vec<JsonValue>> = None;

    assert!(append_runtime_prompt_manuals_for_task_types(&catalog, &contents, &task_type, &mut session_log, &mut messages)
        .expect("manuals should append"));

    let records = session_log
        .iter()
        .filter_map(|entry| serde_json::from_str::<serde_json::Value>(entry).ok())
        .filter(|value| {
            matches!(
                value.get("type").and_then(serde_json::Value::as_str),
                Some("runtime_prompt_manual") | Some("runtime_prompt_command_run_capabilities")
            )
        })
        .collect::<Vec<_>>();

    assert_eq!(records.len(), 2);
    assert_eq!(records[0].get("type").and_then(serde_json::Value::as_str), Some("runtime_prompt_manual"));
    assert_eq!(records[1].get("type").and_then(serde_json::Value::as_str), Some("runtime_prompt_command_run_capabilities"));
    assert_eq!(records[1].get("task_type").and_then(serde_json::Value::as_str), Some("visual"));
    let content = records[1].get("content").and_then(serde_json::Value::as_str).unwrap_or_default();
    assert!(content.contains("[runtime_prompt_command_run_capabilities]"));
    assert!(content.contains("- read_media:"));
    assert!(content.contains("- generate_media:"));
}

#[test]
fn sessions_without_task_types_get_no_manuals() {
    let (catalog, contents) = visual_catalog();
    let mut session_log: Vec<String> = vec!["x".to_string()];
    let mut messages: Option<Vec<JsonValue>> = Some(Vec::new());
    assert_eq!(
        append_runtime_prompt_manuals_for_task_types(&catalog, &contents, &Vec::new(), &mut session_log, &mut messages),
        Ok(false)
    );
    assert_eq!(session_log, vec!["x".to_string()]);
    assert_eq!(messages.map(|m| m.len()), Some(0));
}
