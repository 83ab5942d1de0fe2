use runtime::agent_router::{capability_interface_path, capability_prompt_path, load_capability_prompt};
use runtime::context::media::{
    command_run_media_audio_preview_count, command_run_media_image_urls, command_run_media_input_files,
    strip_media_payload, strip_read_media_payload_data,
};
use runtime::context::user_input::{user_input_content_matches, user_input_content_value};
use runtime::json::{copy_json, json_eq, json_to_string, parse_json, JsonValue};
use runtime::manas::change_tracker::{tool_changes_files, tool_paths, tool_result_changed_files, tracker_path};
use runtime::manas::user_commands::{
    gateway_base_url, numbered_commands, url_escape, user_commands_endpoint, user_commands_from_reply,
};

fn json(text: &str) -> JsonValue {
    parse_json(text).expect("test input is JSON")
}

#[test]
fn only_file_writing_tools_change_files() {
    assert!(tool_changes_files("write_file"));
    assert!(tool_changes_files("apply_diff"));
    assert!(tool_changes_files("delete_file"));
    assert!(!tool_changes_files("read_line"));
    assert!(!tool_changes_files("Write_File"));
}

#[test]
fn tool_paths_come_from_requests_lists_or_the_object() {
    assert_eq!(tool_paths(&json("{\"path\":\"a.rs\"}")), vec!["a.rs"]);
    assert_eq!(
        tool_paths(&json("{\"requests\":[{\"path\":\"a\"},{\"path\":\"  \"},{\"path\":3},{\"path\":\"b\"}],\"path\":\"c\"}")),
        vec!["a", "b"]
    );
    assert_eq!(tool_paths(&json("[{\"path\":\"x\"},{}]")), vec!["x"]);
    assert_eq!(tool_paths(&json("{\"requests\":{\"path\":\"x\"},\"path\":\"y\"}")), vec!["y"]);
    assert!(tool_paths(&json("\"path\"")).is_empty());
}

#[test]
fn results_report_changes_only_when_an_item_succeeded() {
    let ok = json("{\"results\":[{\"success\":false},{\"applied\":true}]}");
    assert!(tool_result_changed_files(true, &ok));
    assert!(!tool_result_changed_files(false, &ok));
    assert!(!tool_result_changed_files(true, &json("{\"ok\":false,\"results\":[{\"success\":true}]}")));
    assert!(tool_result_changed_files(true, &json("{\"ok\":true,\"results\":[{\"deleted\":true}]}")));
    assert!(!tool_result_changed_files(true, &json("{\"results\":[{\"success\":\"true\"}]}")));
    assert!(!tool_result_changed_files(true, &json("{\"results\":{}}")));
    assert!(!tool_result_changed_files(true, &json("{}")));
}

#[test]
fn change_log_lives_under_the_session_directory() {
    assert_eq!(tracker_path("/work", "s1"), "/work/.tura/session_changes/s1.json");
    assert_eq!(tracker_path("/work/", "s1"), "/work/.tura/session_changes/s1.json");
}

#[test]
fn capability_files_sit_under_the_tools_directory() {
    assert_eq!(capability_prompt_path("bash", "/repo"), "/repo/crates/tools/src/bash/prompt.md");
    assert_eq!(capability_interface_path("bash", "/repo/"), "/repo/crates/tools/src/bash/schema.json");
    let prompt = load_capability_prompt("bash", Some("Run bash.".to_string())).expect("prompt");
    assert_eq!(prompt.name, "bash");
    assert_eq!(prompt.content, "Run bash.");
    assert!(load_capability_prompt("bash", None).is_none());
}

#[test]
fn session_ids_are_escaped_byte_by_byte() {
    assert_eq!(url_escape("abc-_.~XYZ019"), "abc-_.~XYZ019");
    assert_eq!(url_escape("a b/c"), "a%20b%2Fc");
    assert_eq!(url_escape("é"), "%C3%A9");
    assert_eq!(
        user_commands_endpoint("http://gw", "s 1"),
        "http://gw/session/s%201/user-commands"
    );
}

#[test]
fn gateway_url_prefers_settings_and_drops_trailing_slashes() {
    assert_eq!(gateway_base_url(Some("http://a//"), Some("http://b"), Some("1")), "http://a");
    assert_eq!(gateway_base_url(None, Some("http://b/"), None), "http://b");
    assert_eq!(gateway_base_url(None, None, Some("5000")), "http://127.0.0.1:5000");
    assert_eq!(gateway_base_url(None, None, Some("70000")), "http://127.0.0.1:4096");
    assert_eq!(gateway_base_url(None, None, Some(" 5000")), "http://127.0.0.1:4096");
    assert_eq!(gateway_base_url(None, None, None), "http://127.0.0.1:4096");
}

#[test]
fn reply_commands_are_trimmed_strings() {
    let reply = json("{\"commands\":[\" ls \",\"\",3,\"  \",\"pwd\"]}");
    assert_eq!(user_commands_from_reply(&reply), vec!["ls", "pwd"]);
    assert!(user_commands_from_reply(&json("{\"commands\":\"ls\"}")).is_empty());
    assert!(user_commands_from_reply(&json("[]")).is_empty());
    assert_eq!(numbered_commands(&vec!["ls".to_string(), "pwd".to_string()]), "1. ls\n2. pwd");
    assert_eq!(numbered_commands(&Vec::new()), "");
}

#[test]
fn user_input_with_images_becomes_content_parts() {
    let plain = user_input_content_value("just text [MEDIA:https://x:MEDIA]");
    assert!(matches!(plain, JsonValue::Str(ref s) if s == "just text [MEDIA:https://x:MEDIA]"));
    let mixed = user_input_content_value("look [MEDIA: data:image/png;base64,AAA :MEDIA] here");
    assert_eq!(
        json_to_string(&mixed),
        "[{\"text\":\"look \",\"type\":\"input_text\"},{\"image_url\":\"data:image/png;base64,AAA\",\"type\":\"input_image\"},{\"text\":\" here\",\"type\":\"input_text\"}]"
    );
    assert!(user_input_content_matches(&mixed, "look [MEDIA: data:image/png;base64,AAA :MEDIA] here"));
    assert!(user_input_content_matches(&json("\" hi \""), "hi"));
    assert!(!user_input_content_matches(&json("\"hi\""), "ho"));
}

#[test]
fn media_results_give_urls_previews_and_files() {
    let value = json(
        r#"{"output":{"results":[{"type":"image_url","image_url":{"url":"data:image/png;base64,A"}},{"type":"audio_url"},{"type":"audio_url"},{"type":"file","file_name":"a.pdf","mime_type":"application/pdf","data_base64":"QQ=="},{"type":"file","data_base64":"QQ=="}]}}"#,
    );
    assert_eq!(command_run_media_image_urls(&value), vec!["data:image/png;base64,A"]);
    assert_eq!(command_run_media_audio_preview_count(&value), 2);
    let files = command_run_media_input_files(&value);
    assert_eq!(files.len(), 1);
    assert_eq!(
        json_to_string(&files[0]),
        "{\"file_data\":\"data:application/pdf;base64,QQ==\",\"filename\":\"a.pdf\",\"type\":\"input_file\"}"
    );
}

#[test]
fn stripping_media_replaces_previews_with_counts() {
    let value = json(r#"{"a":{"visual_previews":[1,2],"visual_preview_count":2,"audio_previews":[1]}}"#);
    let stripped = strip_media_payload(&value);
    assert_eq!(
        json_to_string(&stripped),
        "{\"a\":{\"visual_preview_count\":2,\"visual_previews\":{\"count\":2,\"omitted_from_text\":true}}}"
    );
    let mut in_place = copy_json(&value);
    strip_read_media_payload_data(&mut in_place);
    assert!(json_eq(&in_place, &stripped));
    assert!(!json_eq(&in_place, &value));
}
