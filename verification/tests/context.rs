use runtime::context::char_budget::truncate_text_to_char_budget;
use runtime::context::compaction::{
    compact_content_with_trimmed_timeline, compact_rebuild_content, compact_timeline_text,
    ensure_current_user_input_entry, estimated_tokens_from_bytes, render_compact_content,
    sort_timeline, Moment, TimelineEntry,
};
use runtime::context::process_snapshot::{
    command_mentions_path, is_lsp_process, normalize_text_path, process_info_for_session,
    running_file_from_command, session_process_snapshot, session_process_snapshot_text,
    sort_processes, truncate, ProcessFacts, SessionProcessInfo,
};
use runtime::context::text_truncate::{
    command_run_truncate_text, extract_read_targets, formatted_truncate_text,
    truncate_middle_with_token_budget, truncate_text_to_token_budget,
};

fn chars(s: &str) -> Vec<char> {
    s.chars().collect()
}

fn text(v: &[char]) -> String {
    v.iter().collect()
}

#[test]
fn command_run_single_file_read_gets_larger_truncation_budget() {
    let content = format!(
        "Exit code: 0\nWall time: 0.1 seconds\nOutput:\n{}",
        "single file line\n".repeat(1_500)
    );

    let single = command_run_truncate_text(
        &content,
        2_500,
        Some(r#"{"command":"Get-Content src/a.py","timeout_ms":10000}"#),
    );
    let batch = command_run_truncate_text(
        &content,
        2_500,
        Some(r#"{"command":"Get-Content src/a.py; Get-Content src/b.py"}"#),
    );

    assert!(!single.contains("tokens truncated"), "{single}");
    assert!(batch.contains("tokens truncated"), "{batch}");
}

#[test]
fn read_targets_come_from_content_readers() {
    let targets = extract_read_targets(&chars("Get-Content src/a.py; cat -n src/b.py; gc src/a.py"));
    let targets: Vec<String> = targets.iter().map(|t| text(t)).collect();
    assert_eq!(targets, vec!["src/a.py", "src/b.py"]);
}

#[test]
fn middle_truncation_keeps_both_ends() {
    let content = "a".repeat(100);
    assert_eq!(
        truncate_middle_with_token_budget(&content, 10),
        "aaaa…23 tokens truncated…aaaa"
    );
    assert_eq!(truncate_middle_with_token_budget(&content, 0), "…25 tokens truncated…");
    assert_eq!(truncate_middle_with_token_budget("short", 10), "short");
}

#[test]
fn formatted_truncation_reports_total_lines() {
    let content = "line\n".repeat(20);
    assert_eq!(formatted_truncate_text(&content, 100), content);
    let out = formatted_truncate_text(&content, 10);
    assert!(out.starts_with("Total output lines: 20\n\n"), "{out}");
    assert!(out.contains("tokens truncated"));
}

#[test]
fn token_budget_cuts_characters() {
    assert_eq!(truncate_text_to_token_budget("abcdef", 2), "abcdef");
    assert_eq!(
        truncate_text_to_token_budget("abcdefghij", 2),
        "abcdefgh\n\n[context checkpoint truncated to about 20,000 tokens]"
    );
}

#[test]
fn char_budget_cuts_characters() {
    assert_eq!(truncate_text_to_char_budget("xyz", 3), "xyz");
    assert_eq!(
        truncate_text_to_char_budget("xxxxxxxxxx", 4),
        "xxxx\n\n[context checkpoint truncated to fit the compact_context summary limit]"
    );
}

fn facts(pid: u32, name: &str, cmd: &[&str]) -> ProcessFacts {
    ProcessFacts {
        pid,
        name: name.to_string(),
        exe: None,
        cwd: None,
        cmd: cmd.iter().map(|c| c.to_string()).collect(),
        cwd_under_target: false,
        exe_under_target: false,
    }
}

#[test]
fn process_helpers() {
    assert_eq!(normalize_text_path("C:\\Work\\Repo"), "c:/work/repo");
    assert!(command_mentions_path("node C:\\Work\\Repo\\x.js", "c:/work/repo"));
    assert!(!command_mentions_path("node x.js", ""));
    assert!(is_lsp_process("LSP.exe", ""));
    assert!(is_lsp_process("node", "node TURA_LSP"));
    assert!(is_lsp_process("x", "run --kind lsp"));
    assert!(!is_lsp_process("lsp2", "run"));
    assert_eq!(truncate("abcdef", 3), "abc...");
    assert_eq!(truncate("abc", 3), "abc");
    assert_eq!(running_file_from_command(&Some("/bin/x".to_string()), "y z"), Some("/bin/x".to_string()));
    assert_eq!(running_file_from_command(&None, "  y z"), Some("y".to_string()));
    assert_eq!(running_file_from_command(&None, "  "), None);
}

#[test]
fn processes_of_the_session_are_kept_and_kinded() {
    let target = "/work/repo";
    assert!(process_info_for_session(&facts(1, "bash", &["bash"]), target).is_none());

    let mut under = facts(2, "cargo", &["cargo", "build"]);
    under.cwd_under_target = true;
    under.cwd = Some("/work/repo".to_string());
    let info = process_info_for_session(&under, target).expect("cwd under target");
    assert_eq!(info.kind, "workspace");
    assert_eq!(info.command_line, "cargo build");
    assert_eq!(info.running_file, Some("cargo".to_string()));

    let runner = process_info_for_session(&facts(3, "sh", &["command_run", "/work/repo/x"]), target)
        .expect("mentions target");
    assert_eq!(runner.kind, "command_run");

    let lsp = process_info_for_session(&facts(4, "lsp", &["lsp"]), target).expect("lsp");
    assert_eq!(lsp.kind, "lsp");

    let long: String = "y".repeat(600);
    let mut big = facts(5, "z", &[long.as_str()]);
    big.exe_under_target = true;
    let info = process_info_for_session(&big, target).expect("exe under target");
    assert_eq!(info.command_line.chars().count(), 503);
    assert!(info.command_line.ends_with("..."));
}

fn info(pid: u32, name: &str, kind: &str) -> SessionProcessInfo {
    SessionProcessInfo {
        pid,
        name: name.to_string(),
        exe: None,
        cwd: None,
        command_line: format!("{name} run"),
        running_file: None,
        kind: kind.to_string(),
    }
}

#[test]
fn snapshot_lists_language_servers_first_then_by_name_and_pid() {
    let infos = vec![
        info(9, "b", "workspace"),
        info(3, "a", "command_run"),
        info(7, "z", "lsp"),
        info(1, "b", "workspace"),
        info(5, "c", "lsp"),
    ];
    let sorted = sort_processes(&infos);
    let order: Vec<u32> = sorted.iter().map(|p| p.pid).collect();
    assert_eq!(order, vec![5, 7, 3, 1, 9]);

    let snapshot = session_process_snapshot("/work/repo", &infos);
    assert_eq!(snapshot.session_directory, "/work/repo");
    assert_eq!(snapshot.processes.len(), 5);
    let lsp: Vec<u32> = snapshot.lsp_processes.iter().map(|p| p.pid).collect();
    assert_eq!(lsp, vec![5, 7]);
}

#[test]
fn snapshot_keeps_at_most_twenty_four_processes() {
    let infos: Vec<SessionProcessInfo> = (0..30).map(|i| info(100 - i, "p", "workspace")).collect();
    let snapshot = session_process_snapshot("/w", &infos);
    assert_eq!(snapshot.processes.len(), 24);
    assert_eq!(snapshot.processes[0].pid, 71);
    assert!(snapshot.lsp_processes.is_empty());
}

#[test]
fn snapshot_text_lists_each_process() {
    let empty = session_process_snapshot("/w", &vec![]);
    assert_eq!(
        session_process_snapshot_text(&empty),
        "session_directory: /w\nprocesses: none detected under this session directory"
    );

    let mut p = info(12, "node", "lsp");
    p.cwd = Some("/w".to_string());
    let snapshot = session_process_snapshot("/w", &vec![p, info(3, "sh", "workspace")]);
    assert_eq!(
        session_process_snapshot_text(&snapshot),
        "session_directory: /w\nlsp_processes: 1\nprocesses:\n- pid=12 kind=lsp name=node cwd=/w exe=unknown running_file=unknown cmd=node run\n- pid=3 kind=workspace name=sh cwd=unknown exe=unknown running_file=unknown cmd=sh run"
    );

    let snapshot = session_process_snapshot("/w", &vec![info(3, "sh", "workspace")]);
    assert!(session_process_snapshot_text(&snapshot).contains("\nlsp_processes: none detected\n"));
}

fn entry(seconds: i64, index: usize, role: &str, content: &str) -> TimelineEntry {
    TimelineEntry {
        seconds,
        nanos: 0,
        timestamp: format!("T{seconds}"),
        scope: "current_run".to_string(),
        role: role.to_string(),
        content: content.to_string(),
        index,
    }
}

fn moment(seconds: i64) -> Moment {
    Moment { seconds, nanos: 0, timestamp: format!("T{seconds}") }
}

#[test]
fn token_estimate_rounds_up() {
    assert_eq!(estimated_tokens_from_bytes(0), 0);
    assert_eq!(estimated_tokens_from_bytes(1), 1);
    assert_eq!(estimated_tokens_from_bytes(3), 1);
    assert_eq!(estimated_tokens_from_bytes(4), 2);
    assert_eq!(estimated_tokens_from_bytes(36_000), 12_000);
}

#[test]
fn timeline_text_is_one_line() {
    assert_eq!(compact_timeline_text("  a \n b\t\tc "), "a b c");
    let long = "w ".repeat(800);
    let out = compact_timeline_text(&long);
    assert!(out.ends_with("[context checkpoint truncated to fit the compact_context summary limit]"));
}

#[test]
fn rendered_content_shows_entries_and_handoff() {
    assert_eq!(
        render_compact_content(&[], 0, " sum \n"),
        "Context rebuild timeline before this checkpoint (timestamps are UTC):\n- none\n\nCompact context handoff:\nsum"
    );
    assert_eq!(
        render_compact_content(&[entry(5, 0, "user", "hi  there")], 2, "s"),
        "Context rebuild timeline before this checkpoint (timestamps are UTC):\n- [older timeline entries omitted to keep this checkpoint under about 12000 estimated tokens: 2]\n- [T5] current_run/user: hi there\n\nCompact context handoff:\ns"
    );
}

#[test]
fn oldest_entries_are_dropped_to_fit_the_target() {
    let big = "x".repeat(900);
    let entries: Vec<TimelineEntry> = (0..60).map(|i| entry(i, i as usize, "user", &big)).collect();
    let out = compact_content_with_trimmed_timeline(&entries, "handoff");
    assert!(out.len().div_ceil(3) <= 12_000);
    assert!(out.contains("older timeline entries omitted"));
    assert!(out.ends_with("Compact context handoff:\nhandoff"));
    assert!(out.contains("- [T59]"));
    assert!(!out.contains("- [T0]"));

    let small = vec![entry(1, 0, "user", "a")];
    let out = compact_content_with_trimmed_timeline(&small, "h");
    assert!(!out.contains("omitted"));
}

#[test]
fn timeline_is_sorted_by_time_then_log_position() {
    let entries = vec![entry(5, 2, "user", "b"), entry(1, 9, "agent", "a"), entry(5, 1, "user", "c")];
    let sorted = sort_timeline(&entries);
    let order: Vec<String> = sorted.iter().map(|e| e.content.clone()).collect();
    assert_eq!(order, vec!["a", "c", "b"]);
}

#[test]
fn current_user_input_is_added_once() {
    let mut entries = vec![entry(3, 0, "user", " do it ")];
    ensure_current_user_input_entry(&mut entries, "do it", &moment(1));
    assert_eq!(entries.len(), 1);
    ensure_current_user_input_entry(&mut entries, "  ", &moment(1));
    assert_eq!(entries.len(), 1);
    ensure_current_user_input_entry(&mut entries, " other ", &moment(1));
    assert_eq!(entries.len(), 2);
    assert_eq!(entries[1].content, "other");
    assert_eq!(entries[1].index, usize::MAX);
    assert_eq!(entries[1].role, "user");
}

#[test]
fn rebuild_content_orders_user_input_and_agent_message() {
    let entries = vec![entry(5, 3, "agent", "middle")];
    let out = compact_rebuild_content(
        entries,
        "start",
        &moment(1),
        Some((" last words ", &moment(9))),
        "summary",
    );
    assert_eq!(
        out,
        "Context rebuild timeline before this checkpoint (timestamps are UTC):\n- [T1] current_run/user: start\n- [T5] current_run/agent: middle\n- [T9] current_run/agent: last words\n\nCompact context handoff:\nsummary"
    );
}
