use runtime::json::{json_get, json_member_str, json_to_string, parse_json, JsonValue};
use runtime::manas::provider_schema::{
    restrict_command_run_schema, strict_provider_schema, strip_tura_schema_extensions,
    tool_interface_to_provider_schema_for_agent, tool_interface_to_provider_schema_with_commands,
};
use runtime::manas::tool_catalog::{
    active_shell_command_name, command_list_for_description, command_run_commands_for_agent,
    command_run_description_for_active_shell, command_run_usage_patterns, compact_prompt,
    compact_schema, current_apply_patch_command_format, current_shell_command_format,
    default_command_run_commands, filter_tools_for_turn, flag_enabled, keep_command_run_only,
    long_running_service_guidance, ordered_set, planning_tool_disabled, tool_schema_name,
    CommandPrompts, MEDIA_USAGE_PATTERN, USAGE_PATTERNS,
};

fn json(text: &str) -> JsonValue {
    parse_json(text).expect("test input is JSON")
}

fn tool(name: &str) -> JsonValue {
    json(&format!(
        "{{\"type\":\"function\",\"function\":{{\"name\":\"{name}\",\"description\":\"\",\"parameters\":{{\"type\":\"object\"}}}}}}"
    ))
}

fn names(tools: &[JsonValue]) -> Vec<String> {
    tools
        .iter()
        .filter_map(|tool| tool_schema_name(tool).map(str::to_string))
        .collect()
}

fn strings(items: &[&str]) -> Vec<String> {
    items.iter().map(|s| s.to_string()).collect()
}

fn prompts() -> CommandPrompts {
    CommandPrompts {
        shell_command_prompt: "Run a shell\n  command.".to_string(),
        bash_prompt: "Run a bash\tcommand.".to_string(),
        read_media_prompt: "Read media.".to_string(),
        read_media_schema: "{ \"type\": \"object\" }".to_string(),
        web_discover_prompt: "Discover the web.".to_string(),
        web_discover_schema: "{\"type\":\"object\"}".to_string(),
        compact_context_prompt: "Compact the context.".to_string(),
        compact_context_schema: "not json  at all".to_string(),
        task_status_prompt: "Report the task status.".to_string(),
        task_status_schema: "{\"enum\": [\"question\", \"done\"]}".to_string(),
        planning_prompt: "Plan the work.".to_string(),
        planning_schema: "{}".to_string(),
    }
}

fn command_run_interface() -> JsonValue {
    json(
        r#"{
            "name": "command_run",
            "description": "Run tools as a pure batch+step command runner. Use assistant content only for concise reasoning, progress, and conclusions. Available commands: apply_patch, bash, shell_command.\nCommand line formats:\n- apply_patch: patch\n- bash: bash details\n- shell_command: shell details",
            "input_schema": {
                "type": "object",
                "required": ["commands"],
                "properties": {
                    "commands": {
                        "type": "array",
                        "items": {
                            "type": "object",
                            "required": ["command_type", "command_line"],
                            "properties": {
                                "command_type": { "type": "string" },
                                "command_line": { "type": "string" },
                                "step": { "type": "integer", "x-tura-optional": true }
                            }
                        }
                    }
                }
            }
        }"#,
    )
}

fn description_of(schema: &JsonValue) -> String {
    let function = json_get(schema, "function").expect("function member");
    json_member_str(function, "description").expect("description").to_string()
}

fn pointer<'a>(value: &'a JsonValue, path: &[&str]) -> &'a JsonValue {
    let mut current = value;
    for key in path {
        current = json_get(current, key).unwrap_or_else(|| panic!("missing {key}"));
    }
    current
}

#[test]
fn default_non_final_turn_keeps_only_command_run() {
    let filtered = filter_tools_for_turn(
        vec![tool("command_run"), tool("planning"), tool("apply_diff"), tool("web_search")],
        false,
        false,
        false,
        false,
    )
    .expect("filter should succeed");

    assert_eq!(names(&filtered), vec!["command_run"]);
}

#[test]
fn planning_mode_still_keeps_only_command_run() {
    let filtered = filter_tools_for_turn(
        vec![tool("command_run"), tool("planning"), tool("apply_diff")],
        false,
        false,
        false,
        true,
    )
    .expect("filter should succeed");

    assert_eq!(names(&filtered), vec!["command_run"]);
}

#[test]
fn final_turn_and_forced_turns_offer_no_tools() {
    let final_turn = filter_tools_for_turn(vec![tool("command_run")], true, false, false, false)
        .expect("filter should succeed");
    assert!(final_turn.is_empty());
    let forced = filter_tools_for_turn(vec![tool("command_run")], false, true, false, false)
        .expect("filter should succeed");
    assert!(forced.is_empty());
}

#[test]
fn keeping_command_run_keeps_every_copy_in_order() {
    let kept = keep_command_run_only(vec![
        tool("a"),
        tool("command_run"),
        json("{\"function\":{\"name\":3}}"),
        json("[1]"),
        tool("command_run"),
    ]);
    assert_eq!(kept.len(), 2);
    assert_eq!(names(&kept), vec!["command_run", "command_run"]);
}

#[test]
fn tool_schema_name_reads_the_function_name() {
    assert_eq!(tool_schema_name(&tool("rg")), Some("rg"));
    assert_eq!(tool_schema_name(&json("{\"name\":\"rg\"}")), None);
    assert_eq!(tool_schema_name(&json("{\"function\":{\"name\":true}}")), None);
}

#[test]
fn planning_capability_adds_command_for_configured_agent_capabilities() {
    let commands = command_run_commands_for_agent(
        &strings(&["command_run", "apply_patch", "shell_command", "task_status", "planning"]),
        "bash",
    );

    assert!(commands.contains(&"planning".to_string()));
    assert!(commands.contains(&"task_status".to_string()));
}

#[test]
fn agent_commands_are_sorted_once_each_without_command_run() {
    let commands = command_run_commands_for_agent(
        &strings(&["task_status", "command_run", "apply_patch", "task_status", "bash"]),
        "shell_command",
    );
    assert_eq!(commands, strings(&["apply_patch", "bash", "task_status"]));
}

#[test]
fn agent_with_only_command_run_gets_the_default_commands() {
    let commands = command_run_commands_for_agent(&strings(&["command_run"]), "bash");
    assert_eq!(
        commands,
        strings(&["apply_patch", "bash", "compact_context", "read_media", "task_status", "web_discover"])
    );
    let none = command_run_commands_for_agent(&Vec::new(), "shell_command");
    assert_eq!(
        none,
        strings(&[
            "apply_patch",
            "compact_context",
            "read_media",
            "shell_command",
            "task_status",
            "web_discover"
        ])
    );
}

#[test]
fn default_commands_follow_the_active_shell() {
    assert_eq!(
        default_command_run_commands("bash"),
        strings(&["apply_patch", "bash", "compact_context", "read_media", "task_status", "web_discover"])
    );
}

#[test]
fn ordered_set_sorts_by_code_point_and_drops_repeats() {
    assert_eq!(
        ordered_set(&strings(&["b", "a", "B", "ab", "a", "é", ""])),
        strings(&["", "B", "a", "ab", "b", "é"])
    );
}

#[test]
fn description_lists_commands_in_fixed_order() {
    let commands = strings(&["web_discover", "planning", "apply_patch", "shell_command", "zzz"]);
    assert_eq!(
        command_list_for_description(&commands, "shell_command"),
        strings(&["apply_patch", "shell_command", "web_discover", "planning"])
    );
    assert_eq!(
        command_list_for_description(&commands, "bash"),
        strings(&["apply_patch", "web_discover", "planning"])
    );
}

#[test]
fn usage_patterns_add_media_example_only_with_media_commands() {
    let plain = command_run_usage_patterns(&strings(&["apply_patch"]));
    assert_eq!(plain, USAGE_PATTERNS);
    assert_eq!(plain.lines().count(), 12);
    assert!(plain.starts_with("- Batch investigation:"));
    let media = command_run_usage_patterns(&strings(&["read_media"]));
    assert_eq!(media, format!("{USAGE_PATTERNS}\n{MEDIA_USAGE_PATTERN}"));
    let web = command_run_usage_patterns(&strings(&["web_discover"]));
    assert_eq!(web, media);
}

#[test]
fn shell_names_follow_the_setting_and_platform() {
    assert_eq!(active_shell_command_name(Some(" BASH "), true), "bash");
    assert_eq!(active_shell_command_name(Some("shll"), false), "shell_command");
    assert_eq!(active_shell_command_name(Some("Shell"), false), "shell_command");
    assert_eq!(active_shell_command_name(Some("zsh"), true), "shell_command");
    assert_eq!(active_shell_command_name(Some("zsh"), false), "bash");
    assert_eq!(active_shell_command_name(None, false), "bash");
    assert_eq!(active_shell_command_name(None, true), "shell_command");
}

#[test]
fn flags_accept_the_usual_words() {
    for value in ["1", "true", " YES ", "On"] {
        assert!(flag_enabled(Some(value)), "{value}");
    }
    for value in ["0", "no", "", "enabled"] {
        assert!(!flag_enabled(Some(value)), "{value}");
    }
    assert!(!flag_enabled(None));
    assert!(planning_tool_disabled(None, Some("true")));
    assert!(!planning_tool_disabled(Some("off"), None));
}

#[test]
fn prompts_are_compacted_to_single_spaces() {
    assert_eq!(compact_prompt("  a \n\t b   c  "), "a b c");
    assert_eq!(compact_prompt(""), "");
    assert_eq!(compact_schema("{ \"b\": 1,  \"a\": [ 1, 2 ] }"), "{\"a\":[1,2],\"b\":1}");
    assert_eq!(compact_schema("not   json"), "not json");
}

#[test]
fn command_formats_carry_their_fixed_texts() {
    let patch = current_apply_patch_command_format();
    assert!(patch.starts_with("Use one patch for coordinated multi-file source edits after reads."));
    assert!(patch.ends_with("%import common.LF\n"));
    let shell = current_shell_command_format("bash", "  Runs   bash. ");
    assert!(shell.starts_with("Use for tests, builds, scripts,"));
    assert!(shell.contains("already known. Runs bash. Persistent services must never"));
    assert!(shell.ends_with("\"required\":[\"command\"],\"additionalProperties\":false}"));
    assert!(long_running_service_guidance("bash").ends_with("considered hung and incorrect."));
}

#[test]
fn command_run_provider_description_injects_planning_only_when_enabled() {
    let mut commands = default_command_run_commands("shell_command");
    commands.push("planning".to_string());

    let schema = tool_interface_to_provider_schema_with_commands(
        command_run_interface(),
        Some(&commands),
        "shell_command",
        false,
        &prompts(),
    );
    let description = description_of(&schema);

    assert!(description.contains(
        "Available commands: apply_patch, shell_command, read_media, web_discover, compact_context, task_status, planning."
    ));
    assert!(description.contains("- planning:"));
}

#[test]
fn description_keeps_prefix_and_lists_formats_for_offered_commands() {
    let description = command_run_description_for_active_shell(
        "Intro text. Available commands: apply_patch, bash, shell_command.  \nCommand line formats:\n- old",
        None,
        "bash",
        &prompts(),
    );
    assert!(description.starts_with(
        "Intro text. Available commands: apply_patch, bash, read_media, web_discover, compact_context, task_status.\nCommand run patterns:\n- Batch investigation:"
    ));
    assert!(description.contains("\nCommand line formats:\n- apply_patch: Use one patch"));
    assert!(description.contains("\n- bash: Use for tests"));
    assert!(description.contains("Run a bash command."));
    assert!(!description.contains("Run a shell command."));
    assert!(description.contains("\n- read_media: Read media. Schema: {\"type\":\"object\"}"));
    assert!(description.contains("\n- compact_context: Compact the context. Schema: not json at all"));
    assert!(description.ends_with("- task_status: Report the task status. Schema: {\"enum\":[\"question\",\"done\"]}"));
    assert!(!description.contains("- planning:"));
    assert!(!description.contains("- old"));
}

#[test]
fn provider_schema_preserves_additional_properties_recursively() {
    let schema = tool_interface_to_provider_schema_with_commands(
        json(
            r#"{
                "name": "example",
                "description": "example",
                "input_schema": {
                    "type": "object",
                    "additionalProperties": false,
                    "properties": {
                        "items": {
                            "type": "array",
                            "items": {
                                "type": "object",
                                "additionalProperties": false,
                                "properties": { "name": { "type": "string" } }
                            }
                        }
                    }
                }
            }"#,
        ),
        None,
        "bash",
        false,
        &prompts(),
    );

    assert!(json_to_string(&schema).contains("additionalProperties"));
    let function = json_get(&schema, "function").expect("function");
    assert!(matches!(json_get(function, "strict"), Some(JsonValue::Bool(false))));
    assert_eq!(json_member_str(function, "description"), Some("example"));
}

#[test]
fn strict_json_env_requires_all_provider_object_fields() {
    let schema = tool_interface_to_provider_schema_with_commands(
        command_run_interface(),
        None,
        "bash",
        true,
        &prompts(),
    );
    let function = json_get(&schema, "function").expect("function");
    let parameters = json_get(function, "parameters").expect("parameters");

    assert!(matches!(json_get(function, "strict"), Some(JsonValue::Bool(true))));
    assert_eq!(json_to_string(json_get(parameters, "required").unwrap()), "[\"commands\"]");
    assert_eq!(
        json_to_string(pointer(parameters, &["properties", "commands", "items", "required"])),
        "[\"command_type\",\"command_line\",\"step\"]"
    );
}

#[test]
fn provider_parameters_lose_runtime_marks_and_wrap_arrays() {
    let schema = tool_interface_to_provider_schema_with_commands(
        json(r#"{"name":"batch","input_schema":{"type":"array","x-tura-optional":true,"items":{"type":"string","x-tura-optional":false}}}"#),
        None,
        "bash",
        false,
        &prompts(),
    );
    assert_eq!(
        json_to_string(&schema),
        "{\"function\":{\"description\":\"\",\"name\":\"batch\",\"parameters\":{\"properties\":{\"requests\":{\"items\":{\"type\":\"string\"},\"type\":\"array\"}},\"required\":[\"requests\"],\"type\":\"object\"},\"strict\":false},\"type\":\"function\"}"
    );
    let unnamed = tool_interface_to_provider_schema_with_commands(json("{}"), None, "bash", false, &prompts());
    assert_eq!(
        json_to_string(&unnamed),
        "{\"function\":{\"description\":\"\",\"name\":\"unknown_tool\",\"parameters\":{\"type\":\"object\"},\"strict\":false},\"type\":\"function\"}"
    );
}

#[test]
fn agent_schema_limits_command_types_to_its_commands() {
    let schema = tool_interface_to_provider_schema_for_agent(
        command_run_interface(),
        &strings(&["command_run", "task_status", "bash"]),
        "bash",
        false,
        &prompts(),
    );
    let parameters = pointer(&schema, &["function", "parameters"]);
    assert_eq!(
        json_to_string(pointer(parameters, &["properties", "commands", "items", "properties", "command_type", "enum"])),
        "[\"bash\",\"task_status\"]"
    );
    let description = description_of(&schema);
    assert!(description.contains("Available commands: bash, task_status.\n"));
    assert!(!json_to_string(&schema).contains("x-tura-optional"));
}

#[test]
fn restricting_a_schema_without_the_path_changes_nothing() {
    let schema = json("{\"type\":\"object\",\"properties\":{}}");
    let restricted = restrict_command_run_schema(schema, &strings(&["bash"]));
    assert_eq!(json_to_string(&restricted), "{\"properties\":{},\"type\":\"object\"}");
}

#[test]
fn strict_schema_keeps_existing_additional_properties() {
    let strict = strict_provider_schema(json(
        r#"{"type":"object","additionalProperties":true,"required":["b"],"properties":{"a":{"type":"object"},"b":{}}}"#,
    ));
    assert_eq!(
        json_to_string(&strict),
        "{\"additionalProperties\":true,\"properties\":{\"a\":{\"additionalProperties\":false,\"type\":\"object\"},\"b\":{}},\"required\":[\"b\",\"a\"],\"type\":\"object\"}"
    );
    let stripped = strip_tura_schema_extensions(json("[{\"x-tura-optional\":1,\"k\":[{\"x-tura-optional\":2}]}]"));
    assert_eq!(json_to_string(&stripped), "[{\"k\":[{}]}]");
}

#[test]
fn command_run_description_injects_task_status_command_prompt() {
    let mut command_prompts = prompts();
    command_prompts.task_status_prompt =
        "Report the task status. Reminder: settle the task state with the last task_status command.".to_string();
    let schema = tool_interface_to_provider_schema_with_commands(
        command_run_interface(),
        None,
        "shell_command",
        false,
        &command_prompts,
    );
    let description = description_of(&schema);

    assert!(description.contains("task_status"), "description missing task_status command");
    assert!(
        description.contains("Reminder: settle the task state with the last task_status command."),
        "description missing task_status reminder"
    );
    assert!(description.contains("\"enum\":[\"question\",\"done\"]"), "description missing task_status schema enum");
}
