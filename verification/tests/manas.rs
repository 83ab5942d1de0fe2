use runtime::manas::permission_gate::{approval_policy, is_high_risk_tool, should_request_permission};
use runtime::manas::tool_arguments::{
    normalize_command_run_tool_name, normalize_for_compare, path_is_inside,
    rebase_absolute_path_to_workspace, resolve_tool_path, resolve_workspace_path,
    strip_command_run_tool_prefix,
};

#[test]
fn command_names_map_to_runtime_tools() {
    for (name, tool) in [
        ("rg", "rg"),
        (" Ripgrep ", "rg"),
        ("grep", "rg"),
        ("find", "glob"),
        ("cat", "read_line"),
        ("Get-Content", "read_line"),
        ("sed", "read_block"),
        ("Set-Content", "write_file"),
        ("out-file", "write_file"),
        ("Remove-Item", "delete_file"),
        ("apply-diff", "apply_patch"),
        ("semantic:outline", "get_file_outline"),
        ("semantic_semantic_definition", "find_definition"),
        ("source-references", "find_references"),
        ("Semantic-Source-Symbols", "get_file_outline"),
        ("read_line", "read_line"),
        ("My-Tool", "my_tool"),
    ] {
        assert_eq!(normalize_command_run_tool_name(name), tool, "{name}");
    }
}

#[test]
fn tool_prefix_is_stripped_only_for_the_same_tool() {
    assert_eq!(strip_command_run_tool_prefix("rg", "  grep   {\"pattern\":\"x\"}"), "{\"pattern\":\"x\"}");
    assert_eq!(strip_command_run_tool_prefix("glob", "  grep {\"a\":1}"), "grep {\"a\":1}");
    assert_eq!(strip_command_run_tool_prefix("rg", "{\"a\":1}"), "{\"a\":1}");
    assert_eq!(strip_command_run_tool_prefix("rg", "rg"), "rg");
}

#[test]
fn paths_compare_without_case_or_backslashes() {
    assert_eq!(normalize_for_compare("C:\\Repo\\A"), "c:/repo/a");
    assert!(path_is_inside("/Work/Repo/src", "/work/repo/"));
    assert!(path_is_inside("/work/repo", "/work/repo"));
    assert!(!path_is_inside("/work/repository", "/work/repo"));
}

#[test]
fn absolute_paths_outside_are_rebased() {
    assert_eq!(rebase_absolute_path_to_workspace("/ws", "/other/dir/*.rs"), "/ws/*.rs");
    assert_eq!(rebase_absolute_path_to_workspace("/ws", "C:\\x\\src\\**\\*.py"), "/ws/**\\*.py".replace('\\', "/"));
    assert_eq!(rebase_absolute_path_to_workspace("/ws", "/etc/passwd"), "/ws");
}

#[test]
fn workspace_paths_resolve_into_the_session_directory() {
    assert_eq!(resolve_workspace_path("/ws", "src/a.rs"), "/ws/src/a.rs");
    assert_eq!(resolve_workspace_path("/ws", "/ws/src/a.rs"), "/ws/src/a.rs");
    assert_eq!(resolve_workspace_path("/ws", "/tmp/a.rs"), "/ws");
    assert_eq!(resolve_workspace_path("/ws", "/tmp/*.rs"), "/ws/*.rs");
    assert_eq!(resolve_tool_path("rg", "/ws/", "a"), "/ws/a");
}

#[test]
fn resolved_paths_stay_in_the_workspace() {
    for raw in ["a", "../x", "/elsewhere/f", "/elsewhere/**/f?", "/ws/in"] {
        let r = resolve_workspace_path("/ws", raw);
        assert!(path_is_inside(&r, "/ws"), "{raw} -> {r}");
    }
}

#[test]
fn approval_policy_decides_permission_requests() {
    assert_eq!(approval_policy(None), None);
    assert_eq!(approval_policy(Some(" Never ")), None);
    assert_eq!(approval_policy(Some("  ")), None);
    assert_eq!(approval_policy(Some(" Always ")), Some("always".to_string()));
    assert!(should_request_permission(Some("always"), "read_line"));
    assert!(should_request_permission(Some("on-request"), "command_run"));
    assert!(should_request_permission(Some("UNTRUSTED"), "write_file"));
    assert!(!should_request_permission(Some("on_request"), "read_line"));
    assert!(!should_request_permission(Some("never"), "command_run"));
    assert!(!should_request_permission(None, "command_run"));
    assert!(is_high_risk_tool("apply_diff"));
    assert!(is_high_risk_tool("delete_file"));
    assert!(!is_high_risk_tool("rg"));
}
