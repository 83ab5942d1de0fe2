use runtime::context::compaction::{compaction_log_entry, compaction_record, EMPTY_WORKSPACE_SNAPSHOT};
use runtime::context::fragment::{fragment_text_matches, render_fragment, ContextType, ContextualUserFragment};
use runtime::context::workspace_snapshot::{
    count_line_chunks, file_suffix, relative_path_text, WorkspaceSnapshot, WorkspaceSnapshotText,
};
use runtime::json::{json_member_str, json_to_string};

fn names(parts: &[&str]) -> Vec<String> {
    parts.iter().map(|s| s.to_string()).collect()
}

#[test]
fn file_suffixes_follow_path_extensions() {
    assert_eq!(file_suffix("root.rs"), ".rs");
    assert_eq!(file_suffix("archive.tar.gz"), ".gz");
    assert_eq!(file_suffix("Makefile"), "(none)");
    assert_eq!(file_suffix(".bashrc"), "(none)");
    assert_eq!(file_suffix(".config.toml"), ".toml");
    assert_eq!(file_suffix("trailing."), ".");
    assert_eq!(file_suffix(".."), "(none)");
}

#[test]
fn relative_paths_join_names_with_slashes() {
    assert_eq!(relative_path_text(&names(&["a", "b", "grandchild.txt"])), "a/b/grandchild.txt");
    assert_eq!(relative_path_text(&names(&["odd\\name.rs"])), "odd/name.rs");
}

#[test]
fn line_chunks_count_a_last_line_without_newline() {
    assert_eq!(count_line_chunks(b""), 0);
    assert_eq!(count_line_chunks(b"one\n"), 1);
    assert_eq!(count_line_chunks(b"one\ntwo"), 2);
    assert_eq!(count_line_chunks(b"\n\n"), 2);
    assert_eq!(count_line_chunks(b"x"), 1);
}

#[test]
fn workspace_snapshot_lists_files_by_path_with_suffix_counts() {
    let mut snapshot = WorkspaceSnapshot::new("/work");
    snapshot.record_file(&names(&["root.rs"]), Some("2024-01-02T03:04:05Z".to_string()), Some(1));
    snapshot.record_dir();
    snapshot.record_file(&names(&["a", "child.py"]), None, Some(2));
    snapshot.record_dir();
    snapshot.record_file(&names(&["a", "b", "grandchild.txt"]), Some("t".to_string()), None);
    snapshot.record_file(&names(&["a", "b", "other.rs"]), Some("t".to_string()), Some(0));
    snapshot.sort_entries();

    assert_eq!(snapshot.extension_counts_text(), ".py=1, .rs=2, .txt=1");
    let text = snapshot.lines_text();
    assert_eq!(
        text,
        "cwd: /work\nscan_depth: 2\ntotal_files: 4\ntotal_dirs: 2\nsuffix_counts: .py=1, .rs=2, .txt=1\ncolumns: modified_utc | lines | suffix | path\nt | unknown | .txt | a/b/grandchild.txt\nt | 0 | .rs | a/b/other.rs\nunknown | 2 | .py | a/child.py\n2024-01-02T03:04:05Z | 1 | .rs | root.rs"
    );

    let fragment = WorkspaceSnapshotText { text };
    let rendered = fragment.render();
    assert!(rendered.starts_with("<WORKSPACE_SNAPSHOT>\ncwd: /work\n"));
    assert!(rendered.ends_with("root.rs\n</WORKSPACE_SNAPSHOT>"));
    assert!(rendered.contains("a/b/grandchild.txt"));
    assert!(rendered.contains(".rs=2"));
    assert!(WorkspaceSnapshotText::matches_text(&rendered));
}

#[test]
fn empty_snapshot_says_none() {
    let snapshot = WorkspaceSnapshot::new("/empty");
    assert_eq!(snapshot.extension_counts_text(), "none");
    assert_eq!(
        snapshot.lines_text(),
        "cwd: /empty\nscan_depth: 2\ntotal_files: 0\ntotal_dirs: 0\nsuffix_counts: none\ncolumns: modified_utc | lines | suffix | path"
    );
}

#[test]
fn fragments_match_their_markers_without_case_and_around_whitespace() {
    assert!(fragment_text_matches("<A>", "</A>", "  <a>body</A>\n"));
    assert!(!fragment_text_matches("<A>", "</A>", "x<A>body</A>"));
    assert!(!fragment_text_matches("<A>", "</A>", "<A>body"));
    assert!(!fragment_text_matches("", "</A>", "</A>"));
    assert!(!fragment_text_matches("<A>", "</A>", "<A"));
    assert!(fragment_text_matches("<É>", "</É>", "<É></É>"));
    assert!(!fragment_text_matches("<É>", "</É>", "<é></é>"));
    assert_eq!(render_fragment("<A>", "</A>", "x"), "<A>x</A>");
    assert_eq!(render_fragment("", "", "x"), "x");
    assert_eq!(render_fragment("<A>", "", "x"), "<A>x");
    assert_eq!(WorkspaceSnapshotText::ROLE, "user");
    assert!(WorkspaceSnapshotText::matches_text(EMPTY_WORKSPACE_SNAPSHOT));
}

#[test]
fn context_types_are_distinct() {
    let kinds = [
        ContextType::UserInput,
        ContextType::AgentOutput,
        ContextType::ToolResult,
        ContextType::Reasoning,
        ContextType::System,
    ];
    for (i, a) in kinds.iter().enumerate() {
        for (j, b) in kinds.iter().enumerate() {
            assert_eq!(i == j, a == b);
        }
    }
}

#[test]
fn compaction_record_trims_content_and_defaults_snapshot() {
    let record = compaction_record("  summary text \n", None, "<environment_context/>", "2024-01-01T00:00:00Z");
    assert_eq!(json_member_str(&record, "content"), Some("summary text"));
    assert_eq!(json_member_str(&record, "type"), Some("context_compaction"));
    assert_eq!(json_member_str(&record, "workspace_snapshot"), Some(EMPTY_WORKSPACE_SNAPSHOT));
    assert_eq!(
        json_to_string(&record),
        "{\"content\":\"summary text\",\"environment_context\":\"<environment_context/>\",\"timestamp\":\"2024-01-01T00:00:00Z\",\"type\":\"context_compaction\",\"workspace_snapshot\":\"<WORKSPACE_SNAPSHOT>\\n\\n</WORKSPACE_SNAPSHOT>\"}"
    );
    let line = compaction_log_entry("x", Some("<WORKSPACE_SNAPSHOT>s</WORKSPACE_SNAPSHOT>"), "e", "t");
    assert!(line.contains("\"workspace_snapshot\":\"<WORKSPACE_SNAPSHOT>s</WORKSPACE_SNAPSHOT>\""));
}

#[test]
fn compaction_record_cuts_long_content_to_the_summary_limit() {
    let long = "x".repeat(60_001);
    let record = compaction_record(&long, None, "e", "t");
    let content = json_member_str(&record, "content").unwrap();
    assert!(content.starts_with(&"x".repeat(60_000)));
    assert!(content.ends_with("[context checkpoint truncated to fit the compact_context summary limit]"));
    let exact = "y".repeat(60_000);
    let kept = compaction_record(&exact, None, "e", "t");
    assert_eq!(json_member_str(&kept, "content"), Some(exact.as_str()));
}
