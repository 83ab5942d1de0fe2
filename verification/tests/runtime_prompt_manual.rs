use runtime::prompt_style::runtime_prompt_manual::{
    active_manual_display_names, active_operation_manual_text, active_operation_manual_text_in,
    available_manuals, available_manuals_from, manuals_for_task_type_ids,
    normalize_task_type_ids, normalize_task_type_ids_in, capabilities_for_canonical_commands,
    runtime_prompt_command_run_capability_present_since_last_compact,
    runtime_prompt_manual_present_since_last_compact,
    runtime_prompt_record_present_since_last_compact, task_type_catalog_for_prompt,
    task_type_catalog_for_schema_description, valid_task_type_ids, RuntimePromptManual,
    RUNTIME_PROMPT_COMMAND_RUN_CAPABILITY_RECORD_TYPE, RUNTIME_PROMPT_MANUAL_RECORD_TYPE,
};

fn manual(id: &str, fathers: &[&str], prompt: &str) -> RuntimePromptManual {
    RuntimePromptManual {
        id: id.to_string(),
        display_name: format!("{id} manual"),
        description: format!("about {id}"),
        father_ids: fathers.iter().map(|f| f.to_string()).collect(),
        capabilities: vec![],
        prompt: prompt.to_string(),
    }
}

#[test]
fn normalize_task_type_ids_expands_father_chain() {
    assert_eq!(
        normalize_task_type_ids(&["interactive_and_3d"]),
        vec!["visual", "frontend", "interactive_and_3d"]
    );
    assert_eq!(normalize_task_type_ids(&["frontend"]), vec!["visual", "frontend"]);
    assert_eq!(
        normalize_task_type_ids(&["data_visualization"]),
        vec!["visual", "new_build", "data_visualization"]
    );
}

#[test]
fn normalize_skips_blank_and_unknown_ids_and_keeps_each_once() {
    assert_eq!(
        normalize_task_type_ids(&["  debug ", "", "nope", "debug", " \t"]),
        vec!["debug"]
    );
    assert_eq!(
        normalize_task_type_ids(&["frontend", "interactive_and_3d", "visual"]),
        vec!["visual", "frontend", "interactive_and_3d"]
    );
    assert!(normalize_task_type_ids(&[]).is_empty());
}

#[test]
fn normalize_stops_at_father_cycles() {
    let manuals = vec![manual("a", &["b"], ""), manual("b", &["a"], ""), manual("c", &["zz", "a"], "")];
    assert_eq!(normalize_task_type_ids_in(&manuals, &["a"]), vec!["b", "a"]);
    assert_eq!(normalize_task_type_ids_in(&manuals, &["c"]), vec!["b", "a", "c"]);
}

#[test]
fn normalize_uses_the_last_manual_of_a_repeated_id() {
    let manuals = vec![manual("a", &["b"], ""), manual("b", &[], ""), manual("a", &[], "")];
    assert_eq!(normalize_task_type_ids_in(&manuals, &["a"]), vec!["a"]);
}

#[test]
fn built_in_manuals_and_ids() {
    let manuals = available_manuals();
    assert_eq!(manuals.len(), 9);
    assert_eq!(
        valid_task_type_ids(),
        vec![
            "creative_and_writing",
            "data_visualization",
            "debug",
            "frontend",
            "interactive_and_3d",
            "new_build",
            "refactoring",
            "research_and_learning",
            "visual"
        ]
    );
    assert_eq!(manuals[1].father_ids, vec!["visual", "new_build"]);
    assert_eq!(manuals[3].capabilities, vec!["apply_patch", "shells", "read_media"]);
}

#[test]
fn loaded_manuals_replace_built_in_ones_unless_empty() {
    let loaded = vec![manual("x", &[], "p")];
    assert_eq!(available_manuals_from(Some(loaded.clone())), loaded);
    assert_eq!(available_manuals_from(Some(vec![])).len(), 9);
    assert_eq!(available_manuals_from(None).len(), 9);
}

#[test]
fn catalogs_list_every_manual() {
    let prompt = task_type_catalog_for_prompt();
    assert_eq!(prompt.lines().count(), 9);
    assert!(prompt.starts_with("- \"creative_and_writing\": \"Use for creative writing"));
    assert!(prompt.contains("\n- \"debug\": \"Use for tasks that require reproducing a concrete failure.\"\n"));
    let schema = task_type_catalog_for_schema_description();
    assert!(schema.starts_with("\"creative_and_writing\": \"Use for creative writing"));
    assert!(schema.contains("\" \"debug\": \"Use for tasks that require reproducing a concrete failure.\" \"frontend\""));
    assert!(!schema.contains('\n'));
}

#[test]
fn manuals_for_ids_follow_the_ids() {
    let ids = vec!["visual".to_string(), "nope".to_string(), "debug".to_string()];
    let manuals = manuals_for_task_type_ids(&ids);
    assert_eq!(manuals.len(), 2);
    assert_eq!(manuals[0].id, "visual");
    assert_eq!(manuals[1].id, "debug");
    assert_eq!(
        active_manual_display_names(&ids),
        vec!["Visual Operation Manual", "Debug Operation Manual"]
    );
}

#[test]
fn operation_manual_text_only_in_goal_mode() {
    let manuals = vec![manual("a", &[], "  first \n"), manual("b", &[], "second")];
    let ids = vec!["b".to_string(), "a".to_string()];
    assert_eq!(active_operation_manual_text_in(&manuals, false, &ids), None);
    assert_eq!(
        active_operation_manual_text_in(&manuals, true, &ids),
        Some("second\n\nfirst".to_string())
    );
    assert_eq!(active_operation_manual_text_in(&manuals, true, &["z".to_string()]), None);
    assert_eq!(active_operation_manual_text(true, &[]), None);
    assert_eq!(active_operation_manual_text(true, &["debug".to_string()]), Some(String::new()));
}

#[test]
fn record_presence_reads_back_to_the_last_compaction() {
    let log = vec![
        r#"{"type":"runtime_prompt_manual","task_type":"visual"}"#.to_string(),
        "not json".to_string(),
        r#"{"type":"other","task_type":"debug"}"#.to_string(),
    ];
    assert!(runtime_prompt_manual_present_since_last_compact(&log, "visual"));
    assert!(!runtime_prompt_manual_present_since_last_compact(&log, "debug"));
    assert!(!runtime_prompt_command_run_capability_present_since_last_compact(&log, "visual"));

    let mut compacted = log.clone();
    compacted.push(r#"{"type":"context_compaction","content":"x"}"#.to_string());
    assert!(!runtime_prompt_manual_present_since_last_compact(&compacted, "visual"));
    compacted.push(
        r#"{"type":"runtime_prompt_command_run_capabilities","task_type":"visual"}"#.to_string(),
    );
    assert!(runtime_prompt_command_run_capability_present_since_last_compact(&compacted, "visual"));
    assert!(runtime_prompt_record_present_since_last_compact(
        &compacted,
        RUNTIME_PROMPT_COMMAND_RUN_CAPABILITY_RECORD_TYPE,
        "visual"
    ));
    assert!(!runtime_prompt_record_present_since_last_compact(
        &compacted,
        RUNTIME_PROMPT_MANUAL_RECORD_TYPE,
        "visual"
    ));
    assert!(!runtime_prompt_manual_present_since_last_compact(&vec![], "visual"));
}

#[test]
fn task_types_come_from_string_items_of_a_list() {
    let value = runtime::json::parse_json("[\"frontend\", 3, \" debug \", null]").expect("JSON");
    assert_eq!(
        runtime::prompt_style::runtime_prompt_manual::task_type_ids_from_value(&value),
        vec!["visual", "frontend", "debug"]
    );
    let object = runtime::json::parse_json("{\"frontend\": true}").expect("JSON");
    assert!(runtime::prompt_style::runtime_prompt_manual::task_type_ids_from_value(&object).is_empty());
}

#[test]
fn normalizing_twice_is_normalizing_once() {
    for input in [vec!["interactive_and_3d"], vec![" data_visualization ", "debug", "nope"], vec![]] {
        let once = normalize_task_type_ids(&input);
        let refs: Vec<&str> = once.iter().map(|s| s.as_str()).collect();
        assert_eq!(normalize_task_type_ids(&refs), once);
    }
}

/// The canonical command names of the manuals' capabilities, in order,
/// with `shells` named by the active shell (here `bash`).
fn canonical_capabilities(ids: &[String]) -> Vec<String> {
    manuals_for_task_type_ids(ids)
        .into_iter()
        .flat_map(|m| m.capabilities)
        .map(|c| if c == "shells" { "bash".to_string() } else { c })
        .collect()
}

#[test]
fn capabilities_for_task_type_ids_include_father_manuals() {
    let ids = normalize_task_type_ids(&["interactive_and_3d"]);
    assert_eq!(
        capabilities_for_canonical_commands(&canonical_capabilities(&ids)),
        vec!["web_discover", "generate_media", "read_media", "apply_patch", "bash"]
    );
    let ids = normalize_task_type_ids(&["data_visualization"]);
    assert_eq!(
        capabilities_for_canonical_commands(&canonical_capabilities(&ids)),
        vec!["web_discover", "generate_media", "read_media", "apply_patch", "bash"]
    );
    let odd = vec!["command_run".to_string(), "".to_string(), "x".to_string(), "x".to_string()];
    assert_eq!(capabilities_for_canonical_commands(&odd), vec!["x"]);
}
