use runtime::gateway_events::tool_message::{
    extract_tool_argument_string, first_summary_markdown, stable_tool_call_id,
    summarize_command_run_output, summarize_single_tool_output, tool_output_text,
};
use runtime::json::{json_get, json_member_str, json_to_string, parse_json, JsonValue};
use runtime::manas::prompt_messages::{
    accumulate_media_payload_estimate_adjustment, approximate_message_tokens,
    estimate_message_model_visible_chars, parse_base64_media_data_url, planning_objective_block,
    should_append_original_user_task,
};
use runtime::manas::tool_arguments::{
    command_run_steps_to_commands, normalize_tool_arguments, normalize_workspace_paths,
};

fn json(text: &str) -> JsonValue {
    parse_json(text).expect("test input is JSON")
}

#[test]
fn json_reads_and_writes_through_serde_json() {
    let v = json(r#"{"b": [1, 2.5, "x", null, true], "a": {"k": "v"}}"#);
    assert_eq!(json_to_string(&v), r#"{"a":{"k":"v"},"b":[1,2.5,"x",null,true]}"#);
    assert_eq!(json_member_str(json_get(&v, "a").unwrap(), "k"), Some("v"));
    assert!(json_get(&v, "missing").is_none());
    assert!(parse_json("not json").is_none());
}

#[test]
fn base64_data_urls_give_their_payload() {
    assert_eq!(
        parse_base64_media_data_url("data:image/png;base64,AAAA", "image/"),
        Some("AAAA".to_string())
    );
    assert_eq!(
        parse_base64_media_data_url("DATA:Image/PNG;charset=x;BASE64,Zm9v", "image/"),
        Some("Zm9v".to_string())
    );
    assert_eq!(parse_base64_media_data_url("data:image/png,AAAA", "image/"), None);
    assert_eq!(parse_base64_media_data_url("data:audio/mp3;base64,AAAA", "image/"), None);
    assert_eq!(parse_base64_media_data_url("http://x/a.png", "image/"), None);
    assert_eq!(parse_base64_media_data_url("data:image/png;base64", "image/"), None);
    assert_eq!(parse_base64_media_data_url("dat", "image/"), None);
}

#[test]
fn image_data_urls_are_discounted_for_compact_threshold_estimation() {
    let payload = "A".repeat(240_000);
    let message = json(&format!(
        r#"{{"type":"function_call_output","call_id":"call_image","output":[{{"type":"input_image","image_url":"data:image/png;base64,{payload}"}}]}}"#
    ));
    let raw = json_to_string(&message).len();
    let visible = estimate_message_model_visible_chars(&message);
    assert_eq!(visible, raw - 240_000 + 4096);
    let tokens = approximate_message_tokens(&[message]);
    assert!(tokens < 50_000, "{tokens}");
}

#[test]
fn audio_payloads_are_discounted_for_compact_threshold_estimation() {
    let payload = "A".repeat(240_000);
    let message = json(&format!(
        r#"{{"type":"function_call_output","call_id":"call_audio","output":[{{"type":"input_audio","input_audio":{{"format":"mp3","data":"{payload}"}}}}]}}"#
    ));
    let mut payload_chars = 0usize;
    let mut replacement_chars = 0usize;
    accumulate_media_payload_estimate_adjustment(&message, &mut payload_chars, &mut replacement_chars);
    assert_eq!(payload_chars, 240_000);
    assert_eq!(replacement_chars, 8192);
    assert!(approximate_message_tokens(&[message]) < 50_000);
}

#[test]
fn media_totals_saturate() {
    let message = json(r#"{"type":"input_audio","input_audio":{"data":"abc","url":"data:audio/wav;base64,xy"}}"#);
    let mut payload_chars = usize::MAX - 1;
    let mut replacement_chars = 7;
    accumulate_media_payload_estimate_adjustment(&message, &mut payload_chars, &mut replacement_chars);
    assert_eq!(payload_chars, usize::MAX);
    assert_eq!(replacement_chars, 7 + 8192 + 8192);
}

#[test]
fn original_task_is_added_only_when_missing() {
    let messages = vec![
        json(r#"{"role":"system","content":"do it"}"#),
        json(r#"{"role":"user","content":"  other  "}"#),
    ];
    assert!(should_append_original_user_task(&messages, " do it "));
    assert!(!should_append_original_user_task(&messages, "other"));
    assert!(!should_append_original_user_task(&messages, "   "));
    assert!(should_append_original_user_task(&[], "x"));
}

#[test]
fn planning_objective_block_without_task_only_includes_overall_objective() {
    let content = planning_objective_block("ship the feature", None);

    assert_eq!(content, "[current objective]:\nship the feature");
    assert!(!content.contains("[current task]:"));
}

#[test]
fn planning_objective_block_with_task_includes_overall_and_current_task() {
    let content = planning_objective_block("ship the feature", Some("Patch parser"));

    assert_eq!(content, "[current objective]:\nship the feature\n\nPatch parser");
    assert!(!content.contains("[current task]:"));
    assert!(!content.contains("Deliverable:"));
}

#[test]
fn stable_tool_call_id_uses_normalized_execution_arguments() {
    let raw_arguments = json(r#"{"step_summary":"inspect files","requests":[{"command":"pwd"}]}"#);
    let normalized_arguments =
        json(r#"{"commands":[{"command":"shell_command","command_line":"Get-Location"}]}"#);

    let from_normalized = stable_tool_call_id("runtime-1", "command_run", &normalized_arguments);
    let from_raw = stable_tool_call_id("runtime-1", "command_run", &raw_arguments);

    assert_ne!(from_normalized, from_raw);
    assert_eq!(
        from_normalized,
        stable_tool_call_id("runtime-1", "command_run", &normalized_arguments)
    );
}

#[test]
fn stable_tool_call_id_is_fnv1a_of_name_and_arguments() {
    let args = json(r#"{"a":1}"#);
    let source = format!("t:{}", json_to_string(&args));
    let mut hash: u64 = 14_695_981_039_346_656_037;
    for byte in source.as_bytes() {
        hash ^= u64::from(*byte);
        hash = hash.wrapping_mul(1_099_511_628_211);
    }
    assert_eq!(stable_tool_call_id("r", "t", &args), format!("r-{hash:016x}"));
    assert_eq!(stable_tool_call_id("r", "t", &args).len(), 18);
}

#[test]
fn tool_output_summaries() {
    let md = json(r#"{"results":[{"summary_markdown":"  "},{"summary_markdown":" a\nb\r\nc "}]}"#);
    assert_eq!(first_summary_markdown(&md), Some("a\nb\r\nc".to_string()));
    assert_eq!(summarize_single_tool_output("x", &md), "a\nb\nc");

    let run = json(
        r#"{"results":[{"command_type":"shell_command","success":false,"output":"Exit code: 1\nOutput:\nboom"},{"command":"task_status","output":{"task_status":{"status":"done"}}},{"command_type":7}]}"#,
    );
    assert_eq!(
        summarize_command_run_output(&run),
        Some("shell_command failed: boom; task_status ok: task_status done; command ok".to_string())
    );
    assert_eq!(summarize_single_tool_output("command_run", &run), summarize_command_run_output(&run).unwrap());
    assert_eq!(summarize_command_run_output(&json(r#"{"results":[]}"#)), None);

    let glob = json(
        r#"{"results":[{"matches":[{"path":"a.rs"},{"path":"b.rs"}]},{"matched_paths":["c","d","e","f"]}]}"#,
    );
    assert_eq!(summarize_single_tool_output("glob", &glob), "找到 `a.rs`, `b.rs`, `c`, `d`, `e` 等共 6 项。");

    let raw = json(r#"{"raw_output":"\n l1\nl2\nl3\nl4\nl5\nl6\nl7\n"}"#);
    assert_eq!(summarize_single_tool_output("rg", &raw), "l1\nl2\nl3\nl4\nl5\nl6");

    let other = json(r#"{"k":[1,2]}"#);
    assert_eq!(summarize_single_tool_output("rg", &other), "{\n  \"k\": [\n    1,\n    2\n  ]\n}");
    assert_eq!(tool_output_text(&other, Some("bad")), "bad");
    assert_eq!(tool_output_text(&md, None), "a\nb\r\nc");
}

#[test]
fn tool_argument_strings() {
    let direct = json(r#"{"path":"  a.rs ","requests":[{"path":"b.rs"}]}"#);
    assert_eq!(extract_tool_argument_string(&direct, "path"), Some("a.rs".to_string()));
    let nested = json(r#"{"requests":[{"path":" b.rs"}]}"#);
    assert_eq!(extract_tool_argument_string(&nested, "path"), Some("b.rs".to_string()));
    let blank = json(r#"{"path":"  "}"#);
    assert_eq!(extract_tool_argument_string(&blank, "path"), None);
}

#[test]
fn arguments_drop_reporting_fields() {
    let args = json(r#"{"step_summary":"s","summary":"x","description":"d","path":"a","last_tool_call_status":"ok","last_tool_call_summary":"y"}"#);
    assert_eq!(json_to_string(&normalize_tool_arguments(args)), r#"{"path":"a"}"#);
    let wrapped = json(r#"{"requests":{"summary":"x","path":"b"},"other":1}"#);
    assert_eq!(json_to_string(&normalize_tool_arguments(wrapped)), r#"{"path":"b"}"#);
    let list = json(r#"{"requests":[{"summary":"x"}]}"#);
    assert_eq!(json_to_string(&normalize_tool_arguments(list)), r#"[{"summary":"x"}]"#);
}

#[test]
fn steps_become_commands() {
    let steps = json(
        r#"[{"command":" rg ","command_line":" {\"pattern\":\"x\"} ","step":3,"timeout_secs":9},{"tool_name":"glob","command_code":"*.rs"},{"command":"x"},5,{"command_type":7,"command":"rg","command_line":"a"}]"#,
    );
    assert_eq!(
        json_to_string(&command_run_steps_to_commands(&steps)),
        r#"[{"command_line":"{\"pattern\":\"x\"}","command_type":"rg","step":3,"timeout_secs":9},{"command_line":"*.rs","command_type":"glob","step":1}]"#
    );
    assert_eq!(json_to_string(&command_run_steps_to_commands(&json(r#"{"a":1}"#))), "[]");
}

#[test]
fn path_members_are_resolved_into_the_workspace() {
    let args = json(r#"{"path":"src","directory":"/etc","other":"/etc","n":1}"#);
    assert_eq!(
        json_to_string(&normalize_workspace_paths("rg", args, "/ws")),
        r#"{"directory":"/ws","n":1,"other":"/etc","path":"/ws/src"}"#
    );
    let list = json(r#"[{"path":"/ws/a"},{"path":"/tmp/*.rs"},3]"#);
    assert_eq!(
        json_to_string(&normalize_workspace_paths("read_line", list, "/ws")),
        r#"[{"path":"/ws/a"},{"path":"/ws/*.rs"},3]"#
    );
}
