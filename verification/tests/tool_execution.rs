use runtime::json::{copy_json, json_to_string, parse_json, JsonValue};
use runtime::manas::tool_execution::{
    apply_task_attribution_to_streamed_result, record_streamed_command_events,
    command_run_result_error, command_run_result_success, planned_task_step,
    planning_output_from_tool_result, random_task_id, streamed_command_run_arguments,
    task_step_from_planning_step, PlanStatus,
};
use runtime::manas::tool_execution::{
    apply_task_summary, command_run_hit_workspace_sandbox, ensure_single_task, failed_tool_result,
    renumber_task_steps, sandbox_blocked_result, settle_active_task, task_status_update,
    task_summary_rename_warning, TaskPlanState, TaskStep, ToolExecutionResult, StartCondition,
    last_task_summary, plan_of_tool_result, plan_summary_after_planning, planned_tasks,
    replace_active_task_with_planning, asks_sandbox_bypass, bypass_step, publishes_tool_start,
    tool_call_route, BypassStep, ToolCallRoute, apply_status_update, with_rename_warning,
    apply_status_results, apply_tool_result_session_state_update, current_task_attribution,
    activate_first_planned_task_if_needed, task_plan_snapshot,
};

fn json(text: &str) -> JsonValue {
    parse_json(text).expect("test input is JSON")
}

#[test]
fn command_run_succeeds_only_when_every_result_does() {
    assert!(command_run_result_success(&json(r#"{"results":[{"success":true},{"success":true}]}"#)));
    assert!(!command_run_result_success(&json(r#"{"results":[{"success":true},{"success":false}]}"#)));
    assert!(!command_run_result_success(&json(r#"{"results":[{"ok":true}]}"#)));
    assert!(command_run_result_success(&json(r#"{"output":"no results"}"#)));
    assert!(command_run_result_success(&json(r#"{"results":[]}"#)));
}

#[test]
fn command_run_error_is_the_first_failure_with_a_message() {
    let output = json(
        r#"{"results":[{"success":true,"error":"ignored"},{"success":false},{"success":false,"output":"from output"},{"success":false,"error":"later"}]}"#,
    );
    assert_eq!(command_run_result_error(&output).as_deref(), Some("from output"));
    let with_error = json(r#"{"results":[{"success":false,"error":"boom","output":"out"}]}"#);
    assert_eq!(command_run_result_error(&with_error).as_deref(), Some("boom"));
    let silent = json(r#"{"results":[{"success":null}]}"#);
    assert_eq!(command_run_result_error(&silent), None);
    let fine = json(r#"{"results":[{"success":true}]}"#);
    assert_eq!(command_run_result_error(&fine), None);
}

#[test]
fn streamed_commands_replace_the_requested_arguments() {
    let fallback = json(r#"{"commands":[{"step":1}],"extra":true}"#);
    let streamed = json(r#"{"commands":[{"step":2}]}"#);
    assert_eq!(
        json_to_string(&streamed_command_run_arguments(&fallback, &streamed)),
        "{\"commands\":[{\"step\":2}]}"
    );
    let empty = json(r#"{"commands":[]}"#);
    assert_eq!(
        json_to_string(&streamed_command_run_arguments(&fallback, &empty)),
        json_to_string(&fallback)
    );
    let none = json(r#"{"results":[]}"#);
    assert_eq!(
        json_to_string(&streamed_command_run_arguments(&fallback, &none)),
        json_to_string(&fallback)
    );
}

#[test]
fn planning_output_is_the_first_planning_command_with_steps() {
    let result = json(
        r#"{"results":[{"command_type":"shell_command","output":{"steps":[1]}},{"command":"planning"},{"command":"planning","output":{"steps":[{"step":1}]}}]}"#,
    );
    let plan = planning_output_from_tool_result(&result).expect("plan");
    assert_eq!(json_to_string(&plan), "{\"steps\":[{\"step\":1}]}");
    let without_steps = json(r#"{"results":[{"command_type":"planning","output":{"note":1}},{"command_type":"planning","output":{"steps":[]}}]}"#);
    assert!(planning_output_from_tool_result(&without_steps).is_none());
    let typed_elsewhere = json(r#"{"results":[{"command_type":5,"command":"planning","output":{"steps":[]}}]}"#);
    assert!(planning_output_from_tool_result(&typed_elsewhere).is_none());
}

#[test]
fn planning_step_fills_a_task_step() {
    let step = json(
        r#"{"step":4,"step_goal":"Ship it","task_instruction":"Build","deliverable":"binary","ok":true,"child_session_turns":3,"tool_needed":"command_run","child_agent_names":["coder","tester"]}"#,
    );
    let task = planned_task_step(0, &step, "abcd1234".to_string()).expect("task");
    assert_eq!(task.task_id, "abcd1234");
    assert_eq!(task.step, 4);
    assert_eq!(task.status, PlanStatus::Done);
    assert_eq!(task.task_summary, "Ship it");
    assert_eq!(task.step_task, "Build");
    assert_eq!(task.step_turn, 3);
    assert_eq!(task.step_memory, "");
    assert_eq!(task.step_tool, "command_run");
    assert_eq!(task.step_context, json_to_string(&step));
    assert_eq!(task.step_agent_name, "coder");
    assert_eq!(task.step_deliverable_description, "binary");
    assert_eq!(task.step_deliverable_path, "");
}

#[test]
fn planning_step_falls_back_to_its_position() {
    let bare = json(r#"{"ok":false,"step":-2}"#);
    let task = planned_task_step(6, &bare, "00000000".to_string()).expect("task");
    assert_eq!(task.task_summary, "Step 7");
    assert_eq!(task.step, 7);
    assert_eq!(task.status, PlanStatus::Archived);
    let deliverable_only = json(r#"{"deliverable":"report","task_summary":"  "}"#);
    let task = planned_task_step(0, &deliverable_only, "00000000".to_string()).expect("task");
    assert_eq!(task.task_summary, "report");
    assert_eq!(task.step_task, "report");
    assert_eq!(task.status, PlanStatus::Todo);
    assert!(planned_task_step(0, &json("[1]"), "00000000".to_string()).is_none());
}

#[test]
fn fresh_task_ids_are_eight_hex_digits() {
    let id = random_task_id();
    assert_eq!(id.len(), 8);
    assert!(id.chars().all(|c| c.is_ascii_hexdigit() && !c.is_ascii_uppercase()));
    let task = task_step_from_planning_step(1, &json(r#"{"step_goal":"g"}"#)).expect("task");
    assert_eq!(task.task_id.len(), 8);
    assert_eq!(task.step, 2);
    assert_ne!(random_task_id(), random_task_id());
}

#[test]
fn streamed_result_and_its_events_name_the_task() {
    let attribution = json(r#"{"task_id":"t1","step":1}"#);
    let streamed = json(r#"{"command_events":[{"event":"start"},{"event":"end","task_attribution":"kept"},7],"task_attribution":"old"}"#);
    let marked = apply_task_attribution_to_streamed_result(Some(&attribution), streamed);
    let v: serde_json::Value = serde_json::from_str(&json_to_string(&marked)).expect("json");
    assert_eq!(v["task_attribution"]["task_id"], "t1");
    assert_eq!(v["command_events"][0]["task_attribution"]["task_id"], "t1");
    assert_eq!(v["command_events"][1]["task_attribution"], "kept");
    assert_eq!(v["command_events"][2], 7);
    let unchanged = apply_task_attribution_to_streamed_result(None, json(r#"{"a":1}"#));
    assert_eq!(json_to_string(&unchanged), "{\"a\":1}");
    let not_object = apply_task_attribution_to_streamed_result(Some(&attribution), json("[1]"));
    assert_eq!(json_to_string(&not_object), "[1]");
}

#[test]
fn streamed_command_events_are_logged_one_per_line() {
    let streamed = json(r#"{"command_events":[{"event":"start","session_id":"other"},"bare"]}"#);
    let mut log: Vec<String> = vec!["first".to_string()];
    record_streamed_command_events(&mut log, "runtime-1", "session-1", &streamed);
    assert_eq!(log.len(), 3);
    let a: serde_json::Value = serde_json::from_str(&log[1]).expect("json");
    let b: serde_json::Value = serde_json::from_str(&log[2]).expect("json");
    assert_eq!(a["type"], "streamed_command_event");
    assert_eq!(a["runtime_id"], "runtime-1");
    assert_eq!(a["session_id"], "other");
    assert_eq!(a["event_index"], 0);
    assert_eq!(b["value"], "bare");
    assert_eq!(b["session_id"], "session-1");
    assert_eq!(b["event_index"], 1);
    assert_eq!(a["timestamp"], b["timestamp"]);
    let mut untouched: Vec<String> = vec![];
    record_streamed_command_events(&mut untouched, "r", "s", &json(r#"{"command_events":{}}"#));
    assert!(untouched.is_empty());
}

fn task(id: &str, status: PlanStatus) -> TaskStep {
    TaskStep {
        task_id: id.to_string(),
        step: 9,
        status,
        start_condition: StartCondition::UserAction,
        task_summary: format!("summary {id}"),
        step_task: String::new(),
        step_turn: 0,
        step_memory: String::new(),
        step_tool: String::new(),
        step_context: String::new(),
        step_agent_name: String::new(),
        step_deliverable_description: String::new(),
        step_deliverable_path: String::new(),
    }
}

fn ran(error: Option<&str>, result: &str) -> Result<ToolExecutionResult, String> {
    Ok(ToolExecutionResult {
        tool_name: "command_run".to_string(),
        arguments: json("{}"),
        result: json(result),
        success: false,
        error: error.map(|e| e.to_string()),
    })
}

#[test]
fn sandbox_hits_are_found_in_the_error_or_the_result() {
    assert!(command_run_hit_workspace_sandbox("command_run", &ran(Some("command denied by sandbox policy"), "{}")));
    assert!(command_run_hit_workspace_sandbox("command_run", &ran(None, r#"{"error":"path outside workspace: /etc"}"#)));
    assert!(command_run_hit_workspace_sandbox("command_run", &Err("path outside workspace".to_string())));
    assert!(!command_run_hit_workspace_sandbox("command_run", &ran(Some("other failure"), "{}")));
    assert!(!command_run_hit_workspace_sandbox("apply_patch", &Err("path outside workspace".to_string())));
}

#[test]
fn refused_sandbox_bypass_gives_a_blocked_result() {
    let refused = sandbox_blocked_result("command_run", &json(r#"{"commands":[]}"#), None);
    assert!(!refused.success);
    assert_eq!(refused.error.as_deref(), Some("permission denied by user"));
    assert_eq!(json_to_string(&refused.result), r#"{"blocked":true,"error":"permission denied by user","ok":false}"#);
    assert_eq!(json_to_string(&refused.arguments), r#"{"commands":[]}"#);
    let failed = sandbox_blocked_result("command_run", &json("{}"), Some("no gateway"));
    assert_eq!(failed.error.as_deref(), Some("no gateway"));
    let broken = failed_tool_result("command_run", &json("{}"), "crashed".to_string());
    assert!(matches!(broken.result, JsonValue::Null));
    assert_eq!(broken.error.as_deref(), Some("crashed"));
}

#[test]
fn done_settles_the_first_open_task() {
    let mut tasks = vec![task("a", PlanStatus::Done), task("b", PlanStatus::Question), task("c", PlanStatus::Todo)];
    assert!(settle_active_task(&mut tasks, true, "plan", "goal"));
    assert_eq!(tasks[1].status, PlanStatus::Done);
    assert_eq!(tasks[2].status, PlanStatus::Todo);

    let mut tasks = vec![task("a", PlanStatus::Question), task("b", PlanStatus::Todo)];
    assert!(settle_active_task(&mut tasks, false, "plan", "goal"));
    assert_eq!(tasks[0].status, PlanStatus::Question);
    assert_eq!(tasks[1].status, PlanStatus::Question);

    let mut tasks = vec![task("a", PlanStatus::Done)];
    assert!(!settle_active_task(&mut tasks, true, "plan", "goal"));
    assert_eq!(tasks[0].status, PlanStatus::Done);
}

#[test]
fn an_empty_plan_gets_one_task() {
    let mut tasks: Vec<TaskStep> = Vec::new();
    ensure_single_task(&mut tasks, "  ", "the goal");
    assert_eq!(tasks.len(), 1);
    assert_eq!(tasks[0].step, 1);
    assert_eq!(tasks[0].status, PlanStatus::Doing);
    assert_eq!(tasks[0].task_summary, "the goal");
    assert_eq!(tasks[0].step_deliverable_description, "the goal");
    assert_eq!(tasks[0].task_id.len(), 8);

    let mut tasks: Vec<TaskStep> = Vec::new();
    assert!(settle_active_task(&mut tasks, true, "plan", "goal"));
    assert_eq!(tasks[0].status, PlanStatus::Done);
    assert_eq!(tasks[0].task_summary, "plan");
}

#[test]
fn renumbering_follows_the_order() {
    let mut tasks = vec![task("a", PlanStatus::Todo), task("b", PlanStatus::Todo)];
    renumber_task_steps(&mut tasks);
    assert_eq!(tasks[0].step, 1);
    assert_eq!(tasks[1].step, 2);
    assert_eq!(tasks[1].task_id, "b");
}

#[test]
fn task_status_items_give_their_request() {
    let item = json(r#"{"success":true,"command_type":"task_status","output":{"task_status":{"task_summary":"  Parser fix ","status":"done"}}}"#);
    let update = task_status_update(&item).expect("a status update");
    assert_eq!(update.summary.as_deref(), Some("Parser fix"));
    assert_eq!(update.status.as_deref(), Some("done"));
    let by_status = json(r#"{"success":true,"command":"task_status","output":{"status":{"status":"question"}}}"#);
    let update = task_status_update(&by_status).expect("a status update");
    assert_eq!(update.summary, None);
    assert_eq!(update.status.as_deref(), Some("question"));
    assert!(task_status_update(&json(r#"{"success":false,"command_type":"task_status","output":{"status":{}}}"#)).is_none());
    assert!(task_status_update(&json(r#"{"success":true,"command_type":"shell_command","output":{"status":{}}}"#)).is_none());
    assert!(task_status_update(&json(r#"{"success":true,"command_type":"task_status","output":{"task_status":"done"}}"#)).is_none());
}

#[test]
fn a_summary_names_an_unnamed_plan_and_is_ignored_otherwise() {
    let mut state = TaskPlanState {
        session_name: "old".to_string(),
        auto_session_name: true,
        plan_summary: String::new(),
        user_goal: "goal".to_string(),
        tasks: Vec::new(),
    };
    assert_eq!(apply_task_summary(&mut state, "Parser fix"), (true, false));
    assert_eq!(state.session_name, "Parser fix");
    assert_eq!(state.plan_summary, "Parser fix");
    assert_eq!(state.tasks.len(), 1);
    assert_eq!(state.tasks[0].task_summary, "Parser fix");

    state.auto_session_name = false;
    assert_eq!(apply_task_summary(&mut state, "Other name"), (false, true));
    assert_eq!(state.plan_summary, "Parser fix");
    assert_eq!(state.session_name, "Parser fix");
    assert_eq!(apply_task_summary(&mut state, " Parser fix "), (false, false));
    assert!(task_summary_rename_warning().starts_with("task_summary rename ignored"));
}

#[test]
fn a_new_plan_takes_the_place_of_the_active_task() {
    let mut tasks = vec![task("a", PlanStatus::Done), task("b", PlanStatus::Doing), task("c", PlanStatus::Todo)];
    replace_active_task_with_planning(&mut tasks, vec![task("x", PlanStatus::Todo), task("y", PlanStatus::Todo)]);
    let ids: Vec<&str> = tasks.iter().map(|t| t.task_id.as_str()).collect();
    assert_eq!(ids, vec!["a", "x", "y", "c"]);
    let steps: Vec<u64> = tasks.iter().map(|t| t.step).collect();
    assert_eq!(steps, vec![1, 2, 3, 4]);

    let mut tasks = vec![task("a", PlanStatus::Done), task("b", PlanStatus::Todo)];
    replace_active_task_with_planning(&mut tasks, vec![task("x", PlanStatus::Todo)]);
    let ids: Vec<&str> = tasks.iter().map(|t| t.task_id.as_str()).collect();
    assert_eq!(ids, vec!["a", "x"]);

    let mut tasks = vec![task("a", PlanStatus::Done)];
    replace_active_task_with_planning(&mut tasks, vec![task("x", PlanStatus::Todo)]);
    let ids: Vec<&str> = tasks.iter().map(|t| t.task_id.as_str()).collect();
    assert_eq!(ids, vec!["a", "x"]);

    let mut tasks = vec![task("a", PlanStatus::Doing)];
    replace_active_task_with_planning(&mut tasks, Vec::new());
    assert_eq!(tasks[0].step, 9);
}

#[test]
fn plans_come_from_planning_results() {
    let own = json(r#"{"steps":[{"step_goal":"one"}],"user_task":"  "}"#);
    assert!(plan_of_tool_result("planning", &own).is_some());
    assert!(plan_of_tool_result("command_run", &own).is_none());
    assert_eq!(plan_summary_after_planning(&own, "", "goal"), "goal");
    assert_eq!(plan_summary_after_planning(&own, "kept", "goal"), "kept");
    let named = json(r#"{"user_task":" Build it "}"#);
    assert_eq!(plan_summary_after_planning(&named, "kept", "goal"), " Build it ");

    let steps = vec![json(r#"{"step_goal":"one"}"#), json("3"), json(r#"{"task_summary":"three"}"#)];
    let planned = planned_tasks(&steps);
    assert_eq!(planned.len(), 2);
    assert_eq!(planned[0].task_summary, "one");
    assert_eq!(planned[0].step, 1);
    assert_eq!(planned[1].task_summary, "three");
    assert_eq!(planned[1].step, 3);
    assert_eq!(last_task_summary(&planned).as_deref(), Some("three"));
    let blank = vec![task("a", PlanStatus::Todo), TaskStep { task_summary: "  ".to_string(), ..task("b", PlanStatus::Todo) }];
    assert_eq!(last_task_summary(&blank).as_deref(), Some("summary a"));
    assert_eq!(last_task_summary(&Vec::new()), None);
}

#[test]
fn tool_calls_are_routed_and_bypasses_decided() {
    assert_eq!(tool_call_route("command_run", true, true), ToolCallRoute::Denied);
    assert_eq!(tool_call_route("command_run", true, false), ToolCallRoute::Streamed);
    assert_eq!(tool_call_route("planning", true, false), ToolCallRoute::Execute);
    assert_eq!(tool_call_route("command_run", false, false), ToolCallRoute::Execute);
    assert!(!publishes_tool_start("command_run", true));
    assert!(publishes_tool_start("command_run", false));
    assert!(publishes_tool_start("planning", true));
    assert!(asks_sandbox_bypass(true, false));
    assert!(!asks_sandbox_bypass(true, true));
    assert!(!asks_sandbox_bypass(false, false));
    assert_eq!(bypass_step(Ok(true)), BypassStep::RunUnrestricted);
    assert_eq!(bypass_step(Ok(false)), BypassStep::Blocked(None));
    assert_eq!(bypass_step(Err("down".to_string())), BypassStep::Blocked(Some("down".to_string())));
}

#[test]
fn status_requests_rename_then_settle() {
    let mut state = TaskPlanState {
        session_name: "s".to_string(),
        auto_session_name: false,
        plan_summary: "Existing plan".to_string(),
        user_goal: "goal".to_string(),
        tasks: vec![task("a", PlanStatus::Doing), task("b", PlanStatus::Todo)],
    };
    assert_eq!(apply_status_update(&mut state, Some("Another name"), Some("done")), (true, true));
    assert_eq!(state.tasks[0].status, PlanStatus::Done);
    assert_eq!(state.tasks[1].status, PlanStatus::Todo);
    assert_eq!(apply_status_update(&mut state, None, Some("question")), (true, false));
    assert_eq!(state.tasks[1].status, PlanStatus::Question);
    assert_eq!(apply_status_update(&mut state, None, Some("doing")), (false, false));
    assert_eq!(apply_status_update(&mut state, None, None), (false, false));
    assert_eq!(state.plan_summary, "Existing plan");
}

#[test]
fn ignored_renames_are_marked_in_the_status_object() {
    let item = json(r#"{"success":true,"command_type":"task_status","output":{"task_status":{"task_summary":"x"}}}"#);
    let warned = with_rename_warning(item);
    assert_eq!(
        json_to_string(&warned),
        r#"{"command_type":"task_status","output":{"task_status":{"task_summary":"x","warning":"task_summary rename ignored because the task already has a name; no other task-management parameter needs updating for this rename"}},"success":true}"#
    );
    let by_status = json(r#"{"output":{"status":{}}}"#);
    let warned = with_rename_warning(by_status);
    assert!(json_to_string(&warned).contains(r#""status":{"warning":"task_summary rename ignored"#));
    let plain = json(r#"{"output":"text"}"#);
    assert_eq!(json_to_string(&with_rename_warning(plain)), r#"{"output":"text"}"#);
}

#[test]
fn status_results_apply_in_order() {
    let mut state = TaskPlanState {
        session_name: "s".to_string(),
        auto_session_name: false,
        plan_summary: "Plan".to_string(),
        user_goal: "goal".to_string(),
        tasks: vec![task("a", PlanStatus::Doing), task("b", PlanStatus::Todo)],
    };
    let items = vec![
        json(r#"{"success":true,"command_type":"shell_command","output":"ok"}"#),
        json(r#"{"success":true,"command_type":"task_status","output":{"task_status":{"task_summary":"Other","status":"done"}}}"#),
        json(r#"{"success":true,"command_type":"task_status","output":{"task_status":{"status":"done"}}}"#),
    ];
    let (changed, out) = apply_status_results(&mut state, &items);
    assert!(changed);
    assert_eq!(out.len(), 3);
    assert_eq!(json_to_string(&out[0]), json_to_string(&items[0]));
    assert!(json_to_string(&out[1]).contains("task_summary rename ignored"));
    assert_eq!(json_to_string(&out[2]), json_to_string(&items[2]));
    assert_eq!(state.tasks[0].status, PlanStatus::Done);
    assert_eq!(state.tasks[1].status, PlanStatus::Done);

    let (changed, out) = apply_status_results(&mut state, &vec![json(r#"{"success":false}"#)]);
    assert!(!changed);
    assert_eq!(out.len(), 1);
}

/// The session of the task-status tests: named automatically, goal
/// "fix the task", no plan yet.
fn status_session() -> TaskPlanState {
    TaskPlanState {
        session_name: "task status".to_string(),
        auto_session_name: true,
        plan_summary: String::new(),
        user_goal: "fix the task".to_string(),
        tasks: Vec::new(),
    }
}

fn result_items(result: &JsonValue) -> Vec<JsonValue> {
    match result {
        JsonValue::Object(members) => members
            .iter()
            .find(|(k, _)| k == "results")
            .map(|(_, v)| match v {
                JsonValue::Array(items) => items.iter().map(copy_json).collect(),
                _ => Vec::new(),
            })
            .unwrap_or_default(),
        _ => Vec::new(),
    }
}

fn planned(id: &str, step: u64, summary: &str, status: PlanStatus) -> TaskStep {
    TaskStep { step, task_summary: summary.to_string(), ..task(id, status) }
}

#[test]
fn status_done_creates_single_task_and_marks_done() {
    let mut session = status_session();
    let result = json(
        r#"{"results": [{"command_type": "task_status", "success": true, "output": {"status": {"task_summary": "Fix startup crash", "status": "done"}}}]}"#,
    );

    let (changed, _) = update(&mut session, "command_run", result);

    assert!(changed);
    assert_eq!(session.plan_summary, "Fix startup crash");
    assert_eq!(session.session_name, "Fix startup crash");
    assert_eq!(session.tasks.len(), 1);
    assert_eq!(session.tasks[0].status, PlanStatus::Done);
    assert_eq!(session.tasks[0].step, 1);
    assert!(!session.tasks[0].task_id.is_empty());
}

#[test]
fn task_status_output_marks_current_planned_task_done() {
    let mut session = status_session();
    session.plan_summary = "ProgramBench rebuild".to_string();
    session.tasks.push(planned("inspect-contract", 1, "Inspect available behavior clues", PlanStatus::Doing));
    session.tasks.push(planned("rebuild-source", 2, "Recreate Rust implementation", PlanStatus::Todo));
    let result = json(
        r#"{"results": [{"command_type": "task_status", "success": true, "output": {"task_status": {"task_summary": "Inspect available behavior clues", "status": "done"}}}]}"#,
    );

    let (changed, _) = update(&mut session, "command_run", result);

    assert!(changed);
    assert_eq!(session.tasks[0].status, PlanStatus::Done);
    assert_eq!(session.tasks[1].status, PlanStatus::Todo);
}

#[test]
fn task_summary_does_not_rename_session_when_auto_name_disabled() {
    let mut session = status_session();
    session.session_name = "Manual title".to_string();
    session.auto_session_name = false;
    let result = json(
        r#"{"results": [{"command_type": "task_status", "success": true, "output": {"status": {"task_summary": "Generated task"}}}]}"#,
    );

    let (changed, _) = update(&mut session, "command_run", result);

    assert!(changed);
    assert_eq!(session.plan_summary, "Generated task");
    assert_eq!(session.session_name, "Manual title");
}

#[test]
fn status_question_marks_current_task_question() {
    let mut session = status_session();
    session.plan_summary = "Fix startup crash".to_string();
    session.tasks.push(planned("nonce-1", 1, "Fix startup crash", PlanStatus::Doing));
    let result = json(
        r#"{"results": [{"command_type": "task_status", "success": true, "output": {"status": {"status": "question"}}}]}"#,
    );

    let (changed, _) = update(&mut session, "command_run", result);

    assert!(changed);
    assert_eq!(session.tasks[0].status, PlanStatus::Question);
    assert_eq!(session.plan_summary, "Fix startup crash");
}

#[test]
fn status_summary_refreshes_auto_session_name_after_summary_exists() {
    let mut session = status_session();
    session.plan_summary = "Existing task".to_string();
    session.session_name = "Existing task".to_string();
    session.tasks.push(planned("nonce-1", 1, "Existing task", PlanStatus::Doing));
    let result = json(
        r#"{"results": [{"command_type": "task_status", "success": true, "output": {"status": {"task_summary": "New task name"}}}]}"#,
    );

    let (changed, out) = update(&mut session, "command_run", result);
    let items = result_items(&out);

    assert!(changed);
    assert_eq!(session.plan_summary, "Existing task");
    assert_eq!(session.session_name, "New task name");
    assert_eq!(session.tasks[0].task_summary, "Existing task");
    assert!(json_to_string(&items[0]).contains(r#""warning":"task_summary rename ignored"#));
}

/// Applies a tool result to the session, with a log of its own.
fn update(session: &mut TaskPlanState, tool_name: &str, result: JsonValue) -> (bool, JsonValue) {
    let mut log: Vec<String> = Vec::new();
    apply_tool_result_session_state_update(session, &mut log, tool_name, result)
}

#[test]
fn planning_plan_uses_unique_sequential_steps() {
    let mut session = status_session();
    let result = json(
        r#"{"results": [{"command_type": "planning", "success": true, "output": {"steps": [
            {"step": 1, "task_summary": "Server module"},
            {"step": 1, "task_summary": "Frontend module"},
            {"step": 2, "task_summary": "E2E acceptance"}]}}]}"#,
    );
    let mut log: Vec<String> = Vec::new();

    let (changed, _) = apply_tool_result_session_state_update(&mut session, &mut log, "command_run", result);

    assert!(changed);
    assert_eq!(session.tasks.len(), 3);
    assert_eq!(session.tasks[0].status, PlanStatus::Doing);
    assert_eq!(session.tasks[1].status, PlanStatus::Todo);
    assert_eq!(session.tasks[0].step, 1);
    assert_eq!(session.tasks[1].step, 2);
    assert_eq!(session.tasks[2].step, 3);
    assert_eq!(session.tasks[0].step_deliverable_description, "");
    let topology_event = log
        .iter()
        .filter_map(|entry| serde_json::from_str::<serde_json::Value>(entry).ok())
        .find(|value| value.get("type").and_then(serde_json::Value::as_str) == Some("task_topology_applied"))
        .expect("planning topology should be audited");
    assert_eq!(topology_event["current_tasks"].as_array().expect("current tasks").len(), 3);
    assert_eq!(topology_event["input_steps"].as_array().expect("input steps").len(), 3);
}

#[test]
fn planning_replaces_active_task_and_preserves_queued_tail() {
    let mut session = status_session();
    session.plan_summary = "Existing task".to_string();
    session.tasks.push(TaskStep {
        step_deliverable_description: "Heavy delivery".to_string(),
        ..planned("a", 1, "Heavy task", PlanStatus::Doing)
    });
    session.tasks.push(planned("b", 2, "Queued b", PlanStatus::Todo));
    session.tasks.push(planned("c", 3, "Queued c", PlanStatus::Todo));
    let result = json(
        r#"{"results": [{"command_type": "planning", "success": true, "output": {"steps": [
            {"step": 1, "task_summary": "Subtask aa"},
            {"step": 2, "task_summary": "Subtask ab"},
            {"step": 2, "task_summary": "Subtask ac"}]}}]}"#,
    );

    let (changed, out) = update(&mut session, "command_run", result);

    assert!(changed);
    assert_eq!(session.plan_summary, "Existing task");
    for task in session.tasks.iter().take(3) {
        assert_eq!(task.task_id.len(), 8);
        assert!(task.task_id.chars().all(|ch| ch.is_ascii_hexdigit()));
    }
    assert_eq!(session.tasks[3].task_id, "b");
    assert_eq!(session.tasks[4].task_id, "c");
    assert_eq!(session.tasks.iter().map(|task| task.step).collect::<Vec<_>>(), vec![1, 2, 3, 4, 5]);
    assert_eq!(session.tasks[0].status, PlanStatus::Doing);
    assert_eq!(session.tasks[1].status, PlanStatus::Todo);
    assert_eq!(session.tasks[3].task_summary, "Queued b");
    let out_value: serde_json::Value = serde_json::from_str(&json_to_string(&out)).expect("json");
    assert_eq!(out_value["results"][0]["success"], true);

    let done = || json(r#"{"results": [{"command_type": "task_status", "success": true, "output": {"task_status": {"status": "done"}}}]}"#);
    assert!(update(&mut session, "command_run", done()).0);
    assert_eq!(session.tasks[0].status, PlanStatus::Done);
    assert_eq!(session.tasks[1].status, PlanStatus::Todo);

    assert!(update(&mut session, "command_run", done()).0);
    assert_eq!(session.tasks[1].status, PlanStatus::Done);
    assert_eq!(session.tasks[2].status, PlanStatus::Todo);

    assert!(update(&mut session, "command_run", done()).0);
    assert_eq!(session.tasks[2].status, PlanStatus::Done);
    assert_eq!(session.tasks[3].status, PlanStatus::Todo);
}

#[test]
fn command_run_applies_status_before_later_planning_topology() {
    let mut session = status_session();
    session.plan_summary = "Existing task".to_string();
    session.tasks.push(planned("active", 1, "Active task", PlanStatus::Doing));
    let result = json(
        r#"{"results": [
            {"command_type": "task_status", "success": true, "output": {"task_status": {"status": "question"}}},
            {"command_type": "planning", "success": true, "output": {"steps": [
                {"step": 1, "task_summary": "First new task"},
                {"step": 2, "task_summary": "Second new task"}]}}]}"#,
    );

    let (changed, _) = update(&mut session, "command_run", result);

    assert!(changed);
    assert_eq!(session.tasks.len(), 2);
    assert_eq!(session.tasks[0].task_summary, "First new task");
    assert_eq!(session.tasks[0].status, PlanStatus::Doing);
    assert_eq!(session.tasks[1].status, PlanStatus::Todo);
}

#[test]
fn streamed_command_events_are_audited_with_active_task_attribution() {
    let mut session = status_session();
    session.tasks.push(TaskStep {
        step_deliverable_description: "Read source and fixtures.".to_string(),
        ..planned("task-aa", 7, "Inspect behavior", PlanStatus::Doing)
    });
    let streamed_result = json(
        r#"{"commands": [{"step": 1, "command_type": "shell_command", "command_line": "rg zip_utils rust-reference/src"}],
            "command_events": [
                {"status": "ready", "provider_tool_call_id": "call_provider_1", "command_index": 0, "step": 1, "command_type": "shell_command"},
                {"status": "completed", "result_index": 0, "step": 1, "command_type": "shell_command", "success": true}],
            "results": [{"step": 1, "command_type": "shell_command", "success": true, "output": "ok"}]}"#,
    );

    let attribution = current_task_attribution(&session.tasks);
    let streamed_result = apply_task_attribution_to_streamed_result(attribution.as_ref(), streamed_result);
    let mut session_log: Vec<String> = Vec::new();
    record_streamed_command_events(&mut session_log, "runtime-streamed", "sess-task-status", &streamed_result);

    let streamed: serde_json::Value = serde_json::from_str(&json_to_string(&streamed_result)).expect("json");
    assert_eq!(streamed["task_attribution"]["task_id"], "task-aa");
    let events = session_log
        .iter()
        .filter_map(|entry| serde_json::from_str::<serde_json::Value>(entry).ok())
        .filter(|value| value.get("type").and_then(serde_json::Value::as_str) == Some("streamed_command_event"))
        .collect::<Vec<_>>();
    assert_eq!(events.len(), 2);
    assert_eq!(events[0]["provider_tool_call_id"], "call_provider_1");
    assert_eq!(events[0]["task_attribution"]["task_id"], "task-aa");
    assert_eq!(events[1]["task_attribution"]["step"], 7);
}

#[test]
fn done_does_not_auto_activate_scheduled_or_polling_task() {
    let mut session = status_session();
    session.tasks.push(planned("current", 1, "Current", PlanStatus::Doing));
    session.tasks.push(TaskStep {
        start_condition: StartCondition::ScheduledTask,
        ..planned("scheduled", 2, "Scheduled", PlanStatus::Todo)
    });
    let result = json(
        r#"{"results": [{"command_type": "task_status", "success": true, "output": {"task_status": {"status": "done"}}}]}"#,
    );

    let (changed, _) = update(&mut session, "command_run", result);

    assert!(changed);
    assert_eq!(session.tasks[0].status, PlanStatus::Done);
    assert_eq!(session.tasks[1].status, PlanStatus::Todo);
}

#[test]
fn the_first_startable_task_is_activated_and_snapshots_name_it() {
    let mut tasks = vec![
        TaskStep { start_condition: StartCondition::PollingTask, ..task("p", PlanStatus::Todo) },
        task("u", PlanStatus::Todo),
    ];
    activate_first_planned_task_if_needed(&mut tasks);
    assert_eq!(tasks[0].status, PlanStatus::Todo);
    assert_eq!(tasks[1].status, PlanStatus::Doing);
    activate_first_planned_task_if_needed(&mut tasks);
    assert_eq!(tasks[0].status, PlanStatus::Todo);
    let snapshot = json_to_string(&task_plan_snapshot(&tasks));
    assert_eq!(
        snapshot,
        r#"[{"deliverable":"","start_condition":"polling_task","status":"todo","step":9,"task_id":"p","task_summary":"summary p"},{"deliverable":"","start_condition":"user_action","status":"doing","step":9,"task_id":"u","task_summary":"summary u"}]"#
    );
    let attribution = current_task_attribution(&tasks).expect("the doing task");
    assert_eq!(
        json_to_string(&attribution),
        r#"{"deliverable":"","status":"doing","step":9,"task_id":"u","task_summary":"summary u"}"#
    );
    assert!(current_task_attribution(&vec![task("d", PlanStatus::Done)]).is_none());
    let mut untouched: Vec<String> = Vec::new();
    let (changed, _) = apply_tool_result_session_state_update(
        &mut status_session(),
        &mut untouched,
        "browser",
        json(r#"{"steps":[{"task_summary":"x"}]}"#),
    );
    assert!(!changed);
    assert!(untouched.is_empty());
}
