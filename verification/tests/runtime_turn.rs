use runtime::json::{json_to_string, parse_json, JsonValue};
use runtime::manas::agent_prompts::{
    agent_prompt_candidates, communication_style_candidates, persona_prompt_candidates, prompt_message,
};
use runtime::manas::runtime_turn::{
    compact_context_token_threshold, dynamic_context_limit_tokens, fixed_context_limit_tokens,
    messages_already_request_compact, model_context_window_tokens, move_command_run_to_end,
    parse_u64, runtime_input_tokens, session_language, session_user_name,
    should_force_compact_prompt, sync_context_tokens_from_provider_usage, tool_choice_for_turn,
    ContextTokens, prepare_turn_tools, turn_context_input_tokens, executable_tool_calls, ToolCallData,
};
use runtime::manas::tool_catalog::tool_schema_name;
use runtime::mano::{agent_has_planning_capability, apply_planning_capability_override, CapabilityItem, OrchestrationConfig};
use runtime::manas::validator_feedback::{
    alaya_executable_candidates, alaya_marker_path, registry_tool_name_for_command_label,
    reliability_command_args, validator_feedback_updates, ToolCallFeedback, RELIABILITY_SERVICE_ID,
};

/// The default context limit that these tests hand to the library.
const DEFAULT_CONTEXT_TOKEN_LIMIT: u64 = 250_000;

fn json(text: &str) -> JsonValue {
    parse_json(text).expect("test input is JSON")
}

fn is_auto(choice: Option<JsonValue>) -> bool {
    matches!(choice, Some(JsonValue::Str(ref s)) if s == "auto")
}

#[test]
fn non_final_turn_uses_auto_tool_choice() {
    assert!(is_auto(tool_choice_for_turn(false)));
}

#[test]
fn final_turn_keeps_auto_tool_choice_for_prompt_cache() {
    assert!(is_auto(tool_choice_for_turn(true)));
}

#[test]
fn force_no_tools_keeps_auto_tool_choice_without_removing_schema() {
    assert!(is_auto(tool_choice_for_turn(true)));
}

#[test]
fn dynamic_context_limit_uses_sixty_percent_of_model_context_when_smaller_than_cap() {
    assert_eq!(dynamic_context_limit_tokens(DEFAULT_CONTEXT_TOKEN_LIMIT, None, Some(128_000)), 76_800);
}

#[test]
fn dynamic_context_limit_caps_at_default_limit_for_large_models() {
    assert_eq!(
        dynamic_context_limit_tokens(DEFAULT_CONTEXT_TOKEN_LIMIT, None, Some(1_000_000)),
        DEFAULT_CONTEXT_TOKEN_LIMIT
    );
}

#[test]
fn dynamic_context_limit_honors_fixed_context_env_override() {
    let fixed = fixed_context_limit_tokens(Some("4096"), None);
    assert_eq!(fixed, Some(4096));
    assert_eq!(dynamic_context_limit_tokens(DEFAULT_CONTEXT_TOKEN_LIMIT, fixed, Some(1_000_000)), 4096);
}

#[test]
fn fixed_limits_must_be_positive_numbers() {
    assert_eq!(fixed_context_limit_tokens(Some(" 0 "), Some(" 77 ")), Some(77));
    assert_eq!(fixed_context_limit_tokens(Some("x"), None), None);
    assert_eq!(fixed_context_limit_tokens(None, None), None);
    assert_eq!(dynamic_context_limit_tokens(100, None, None), 100);
    assert_eq!(dynamic_context_limit_tokens(u64::MAX, None, Some(u64::MAX)), u64::MAX / 100);
    assert_eq!(parse_u64("18446744073709551615"), Some(u64::MAX));
    assert_eq!(parse_u64("18446744073709551616"), None);
    assert_eq!(parse_u64("+5"), Some(5));
}

#[test]
fn force_compact_prompt_uses_previous_provider_usage_when_estimate_lags() {
    let messages = vec![json(r#"{"role":"user","content":"small estimated context"}"#)];

    assert!(should_force_compact_prompt(&messages, 100, 250_000, Some(250_012)));
}

#[test]
fn force_compact_prompt_does_not_duplicate_existing_request() {
    let messages = vec![json(
        r#"{"role":"user","content":"Context checkpoint required. compact_context as the final command"}"#,
    )];

    assert!(!should_force_compact_prompt(&messages, 300_000, 250_000, None));
}

#[test]
fn compact_requests_are_found_in_any_message() {
    let messages = vec![json("{\"content\":\"hello\"}"), json("[\"compact_context as the final command\"]")];
    assert!(messages_already_request_compact(&messages));
    assert!(!messages_already_request_compact(&[json("{\"content\":\"hello\"}")]));
    assert!(!should_force_compact_prompt(&[json("{}")], 10, 250_000, Some(249_999)));
    assert!(should_force_compact_prompt(&[], 250_000, 250_000, None));
}

#[test]
fn provider_usage_replaces_estimated_context_tokens_for_display() {
    let mut session = ContextTokens { input: 255_298, limit: 250_000 };
    let mut runtime = ContextTokens { input: 0, limit: 0 };
    sync_context_tokens_from_provider_usage(&mut session, &mut runtime, Some(1_353_553), 1_050_000);

    assert_eq!(session.input, 1_353_553);
    assert_eq!(session.limit, 1_050_000);
    assert_eq!(runtime, session);
    let mut unreported = ContextTokens { input: 255_298, limit: 250_000 };
    sync_context_tokens_from_provider_usage(&mut unreported, &mut runtime, Some(0), 9);
    assert_eq!(unreported, ContextTokens { input: 255_298, limit: 9 });
    assert_eq!(runtime, unreported);
    assert_eq!(runtime_input_tokens(None), None);
}

#[test]
fn model_context_window_uses_catalog_without_compact_cap() {
    assert_eq!(model_context_window_tokens(DEFAULT_CONTEXT_TOKEN_LIMIT, Some(1_050_000)), 1_050_000);
    assert_eq!(
        dynamic_context_limit_tokens(DEFAULT_CONTEXT_TOKEN_LIMIT, None, Some(1_050_000)),
        DEFAULT_CONTEXT_TOKEN_LIMIT
    );
    assert_eq!(model_context_window_tokens(DEFAULT_CONTEXT_TOKEN_LIMIT, None), DEFAULT_CONTEXT_TOKEN_LIMIT);
}

#[test]
fn session_language_and_user_name_fall_back() {
    assert_eq!(session_language(Some(" fr ")), "fr");
    assert_eq!(session_language(Some("  ")), "en");
    assert_eq!(session_language(None), "en");
    assert_eq!(session_user_name(None, Some(" ana "), Some("root")), "ana");
    assert_eq!(session_user_name(Some(" "), Some("ana"), None), "user");
    assert_eq!(session_user_name(None, None, None), "user");
}

#[test]
fn command_run_moves_to_the_end_keeping_order() {
    let tool = |name: &str| json(&format!("{{\"function\":{{\"name\":\"{name}\"}}}}"));
    let moved = move_command_run_to_end(vec![tool("command_run"), tool("a"), json("{}"), tool("b")]);
    let names: Vec<Option<&str>> = moved.iter().map(tool_schema_name).collect();
    assert_eq!(names, vec![Some("a"), None, Some("b"), Some("command_run")]);
}

#[test]
fn compact_threshold_reads_the_setting() {
    assert_eq!(compact_context_token_threshold(None), 220_000);
    assert_eq!(compact_context_token_threshold(Some(" 1000 ")), 1000);
    assert_eq!(compact_context_token_threshold(Some("many")), 220_000);
}

#[test]
fn registry_names_come_from_command_labels() {
    assert_eq!(registry_tool_name_for_command_label("  py:My Tool--v2 "), "py_my_tool_v2");
    assert_eq!(registry_tool_name_for_command_label("__A__b__"), "a_b");
    assert_eq!(registry_tool_name_for_command_label("***"), "command_run_tool");
    assert_eq!(registry_tool_name_for_command_label("é"), "command_run_tool");
}

#[test]
fn validator_feedback_reports_judged_py_commands() {
    let calls = vec![
        ToolCallFeedback {
            tool_called_name: "command_run".to_string(),
            tool_called_input: json(r#"{"commands":[{"command":" py:check"},{"command":"ls"},{"command":3},{"command":"py:Run"}]}"#),
            validator_reported_success: Some(false),
        },
        ToolCallFeedback {
            tool_called_name: "command_run".to_string(),
            tool_called_input: json(r#"{"commands":[{"command":"py:x"}]}"#),
            validator_reported_success: None,
        },
        ToolCallFeedback {
            tool_called_name: "planning".to_string(),
            tool_called_input: json(r#"{"commands":[{"command":"py:x"}]}"#),
            validator_reported_success: Some(true),
        },
        ToolCallFeedback {
            tool_called_name: "command_run".to_string(),
            tool_called_input: json(r#"{"commands":[{"command":"py:ok"}]}"#),
            validator_reported_success: Some(true),
        },
    ];
    let updates = validator_feedback_updates("rt-1", &calls);
    assert_eq!(updates.len(), 3);
    assert_eq!(updates[0].tool_name, "py_check");
    assert!(!updates[0].success);
    assert_eq!(updates[0].note.as_deref(), Some("validator reported failure for runtime rt-1 command  py:check"));
    assert_eq!(updates[1].tool_name, "py_run");
    assert_eq!(updates[2].tool_name, "py_ok");
    assert!(updates[2].success);
    assert_eq!(updates[2].note, None);

    assert_eq!(
        reliability_command_args(RELIABILITY_SERVICE_ID, &updates[0]),
        vec![
            "registry",
            "update-reliability",
            "--service-id",
            "command-run-auto",
            "--tool-name",
            "py_check",
            "--success",
            "false",
            "--note",
            "validator reported failure for runtime rt-1 command  py:check"
        ]
    );
    assert_eq!(reliability_command_args(RELIABILITY_SERVICE_ID, &updates[2]).len(), 8);
}

#[test]
fn registry_executable_and_marker_paths() {
    assert_eq!(
        alaya_executable_candidates("/repo", false),
        vec![
            "/repo/target/alaya-service-target/debug/alaya_memory_server",
            "/repo/target/debug/alaya_memory_server"
        ]
    );
    assert_eq!(alaya_executable_candidates("/repo", true)[1], "/repo/target/debug/alaya_memory_server.exe");
    assert_eq!(alaya_marker_path("/repo"), "/repo/services/alaya/Cargo.toml");
}

#[test]
fn prompt_paths_are_tried_in_order() {
    assert_eq!(
        agent_prompt_candidates("/a/modes/code"),
        vec!["/a/modes/code/prompt.md", "/a/modes/code/prompt", "/a/modes/code/fallback_agent.md"]
    );
    assert_eq!(
        persona_prompt_candidates("/p/tura", "persona.md"),
        vec!["/p/tura/persona.md", "/p/tura/prompt/persona.md"]
    );
    assert_eq!(
        communication_style_candidates("/root"),
        vec![
            "/root/communication_style/communication_style.md",
            "/root/personas/src/communication_style/communication_style.md"
        ]
    );
    assert_eq!(
        json_to_string(&prompt_message("persona prompt".to_string())),
        "{\"content\":\"persona prompt\",\"role\":\"system\"}"
    );
}

fn capability(name: &str, directory: &str) -> CapabilityItem {
    CapabilityItem { capability_name: name.to_string(), capability_directory: directory.to_string() }
}

fn capability_names(items: &[CapabilityItem]) -> Vec<(String, String)> {
    items.iter().map(|c| (c.capability_name.clone(), c.capability_directory.clone())).collect()
}

#[test]
fn planning_setting_adds_or_removes_planning() {
    let mut on = vec![capability("apply_patch", "/a"), capability("command_run", "/tools")];
    apply_planning_capability_override(&mut on, Some(true), "/session");
    assert!(agent_has_planning_capability(&on));
    assert_eq!(on[2].capability_directory, "/tools");

    let mut empty: Vec<CapabilityItem> = Vec::new();
    apply_planning_capability_override(&mut empty, Some(true), "/session");
    assert_eq!(capability_names(&empty), vec![("planning".to_string(), "/session/crates/tools/src".to_string())]);

    let mut first = vec![capability("bash", "/b")];
    apply_planning_capability_override(&mut first, Some(true), "/session");
    assert_eq!(first[1].capability_directory, "/b");

    let mut off = vec![capability("planning", "/p"), capability("bash", "/b"), capability("planning", "/q")];
    apply_planning_capability_override(&mut off, Some(false), "/session");
    assert_eq!(capability_names(&off), vec![("bash".to_string(), "/b".to_string())]);
    assert!(!agent_has_planning_capability(&off));

    let mut unchanged = vec![capability("planning", "/p")];
    apply_planning_capability_override(&mut unchanged, None, "/session");
    apply_planning_capability_override(&mut unchanged, Some(true), "/session");
    assert_eq!(capability_names(&unchanged), vec![("planning".to_string(), "/p".to_string())]);
}

#[test]
fn orchestration_defaults_to_local_redis() {
    let config = OrchestrationConfig::default();
    assert_eq!(config.redis_url, "redis://localhost:6379");
    assert!(config.session_directory.is_none());
}

fn named_tool(name: &str) -> JsonValue {
    json(&format!("{{\"function\":{{\"name\":\"{name}\"}}}}"))
}

#[test]
fn turn_tools_offer_command_run_and_allow_planning() {
    let tools = vec![named_tool("planning"), named_tool("command_run"), named_tool("other")];
    let prepared = prepare_turn_tools(tools, false, true, false, false);
    let offered: Vec<Option<&str>> = prepared.provider_tools.iter().map(tool_schema_name).collect();
    assert_eq!(offered, vec![Some("command_run")]);
    assert_eq!(prepared.executable_names, vec!["command_run".to_string(), "planning".to_string()]);

    let tools = vec![named_tool("planning"), named_tool("command_run")];
    let disabled = prepare_turn_tools(tools, true, true, false, false);
    assert_eq!(disabled.executable_names, vec!["command_run".to_string()]);

    let tools = vec![named_tool("command_run")];
    let final_turn = prepare_turn_tools(tools, false, true, true, false);
    assert!(final_turn.provider_tools.is_empty());
    assert!(final_turn.executable_names.is_empty());
}

#[test]
fn turn_input_tokens_prefer_a_larger_provider_count() {
    assert_eq!(turn_context_input_tokens(Some(500), 300), 500);
    assert_eq!(turn_context_input_tokens(Some(200), 300), 300);
    assert_eq!(turn_context_input_tokens(Some(0), 300), 300);
    assert_eq!(turn_context_input_tokens(None, 300), 300);
}

#[test]
fn only_calls_of_executable_tools_run() {
    let call = |name: &str| ToolCallData {
        tool_name: name.to_string(),
        arguments: json("{}"),
        provider_metadata: None,
    };
    let calls = vec![call("command_run"), call("browser"), call("planning")];
    let names = vec!["command_run".to_string(), "planning".to_string()];
    let kept = executable_tool_calls(&calls, &names);
    let kept_names: Vec<&str> = kept.iter().map(|c| c.tool_name.as_str()).collect();
    assert_eq!(kept_names, vec!["command_run", "planning"]);
}
