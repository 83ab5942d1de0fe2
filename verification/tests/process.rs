use runtime::json::{json_member_str, parse_json, JsonValue};
use runtime::mano::{final_session_state, persisted_record, session_status, SessionRecordInfo, SessionState};
use runtime::manas::process::{
    begin_turn, decide_after_tools, decide_after_turn, failure_runtime_id, final_checkpoint_label,
    initial_counters, media_omitted_message, messages_with_initial_context_prefix,
    next_task_from_todo, provider_retry_message, retries_exhausted_message,
    runtime_failure_text_or_default, unsupported_media_message, CallStatus, LoopCounters,
    LoopSettings, RunOutcome, ToolTurnAction, TurnAction, TurnEvent,
};

fn json(text: &str) -> JsonValue {
    parse_json(text).expect("test input is JSON")
}

fn settings() -> LoopSettings {
    LoopSettings {
        fail_on_runtime_error: false,
        no_tool_retry_limit: 2,
        planning_child: false,
        supports_task_status: true,
        no_write_nudge_threshold: 3,
    }
}

fn finished(status: CallStatus, allows_retry: bool, wait: bool, media: bool, tools: bool) -> TurnEvent {
    TurnEvent::Finished {
        status,
        failure_allows_retry: allows_retry,
        retry_wait_available: wait,
        rejects_required_media: media,
        has_tool_calls: tools,
    }
}

#[test]
fn initial_context_prefix_keeps_only_developer_prefix_without_replaying_history() {
    let initial_messages = vec![
        json(r#"{"role": "developer", "content": "permissions"}"#),
        json(r#"{"role": "assistant", "content": "old answer"}"#),
        json(r#"{"type": "function_call", "name": "command_run", "call_id": "call_old"}"#),
        json(r#"{"type": "function_call_output", "call_id": "call_old", "output": "old output"}"#),
        json(r#"{"role": "user", "content": "new task"}"#),
    ];
    let session_messages = vec![
        json(r#"{"role": "user", "content": "new task"}"#),
        json(r#"{"role": "assistant", "content": "new answer"}"#),
    ];

    let messages =
        messages_with_initial_context_prefix(&initial_messages, session_messages, "new task");

    assert_eq!(messages.len(), 3);
    assert_eq!(json_member_str(&messages[0], "role"), Some("developer"));
    assert!(!messages
        .iter()
        .any(|message| json_member_str(message, "call_id") == Some("call_old")));
}

#[test]
fn a_turn_begins_one_later() {
    let c = begin_turn(initial_counters());
    assert_eq!(c.turn, 1);
    let at_max = begin_turn(LoopCounters { turn: u64::MAX, ..initial_counters() });
    assert_eq!(at_max.turn, u64::MAX);
}

#[test]
fn transient_failure_is_retried_while_a_wait_is_granted() {
    let c = initial_counters();
    let (next, action) = decide_after_turn(c, finished(CallStatus::TimedOut, false, true, false, false), settings());
    assert_eq!(action, TurnAction::RetryProvider);
    assert_eq!(next.provider_timeout_retries, 1);

    let (_, action) = decide_after_turn(next, finished(CallStatus::Other, true, false, false, false), settings());
    assert_eq!(action, TurnAction::PublishRetriesExhausted);

    let (_, action) = decide_after_turn(next, finished(CallStatus::TimedOut, false, true, true, false), settings());
    assert_eq!(action, TurnAction::PublishUnsupportedMedia);
}

#[test]
fn failures_end_the_run_or_return_the_error() {
    let c = initial_counters();
    let (_, action) = decide_after_turn(c, finished(CallStatus::Failed, false, true, false, true), settings());
    assert_eq!(action, TurnAction::PublishFailure);
    let strict = LoopSettings { fail_on_runtime_error: true, ..settings() };
    let (_, action) = decide_after_turn(c, finished(CallStatus::Failed, false, true, false, true), strict);
    assert_eq!(action, TurnAction::ReturnError);
    let (_, action) = decide_after_turn(c, TurnEvent::TurnError, strict);
    assert_eq!(action, TurnAction::ReturnError);
    let (_, action) = decide_after_turn(c, TurnEvent::TurnError, settings());
    assert_eq!(action, TurnAction::PublishFailure);
}

#[test]
fn tool_calls_run_and_reset_the_retry_counts() {
    let c = LoopCounters { provider_timeout_retries: 2, no_tool_retries: 1, ..initial_counters() };
    let (next, action) = decide_after_turn(c, finished(CallStatus::Other, false, true, false, true), settings());
    assert_eq!(action, TurnAction::RunTools);
    assert_eq!(next.provider_timeout_retries, 0);
    assert_eq!(next.no_tool_retries, 0);
}

#[test]
fn a_turn_without_tools_is_retried_up_to_the_limit() {
    let mut c = initial_counters();
    for expected in 1..=2u8 {
        let (next, action) = decide_after_turn(c, finished(CallStatus::Other, false, true, false, false), settings());
        assert_eq!(action, TurnAction::RetryForTools);
        assert_eq!(next.no_tool_retries, expected);
        c = next;
    }
    let (_, action) = decide_after_turn(c, finished(CallStatus::Other, false, true, false, false), settings());
    assert_eq!(action, TurnAction::EndWithoutTools);
    let child = LoopSettings { planning_child: true, ..settings() };
    let (_, action) = decide_after_turn(initial_counters(), finished(CallStatus::Other, false, true, false, false), child);
    assert_eq!(action, TurnAction::EndChild);
}

#[test]
fn read_only_command_run_turns_lead_to_the_nudge() {
    let names = vec!["command_run".to_string()];
    let mut c = initial_counters();
    for turn in 1..=3u64 {
        let (next, action, nudge) = decide_after_tools(c, &names, None, false, false, settings());
        assert_eq!(action, ToolTurnAction::Continue);
        assert_eq!(next.no_write_command_run_turns, turn);
        assert_eq!(nudge, turn >= 3);
        c = next;
    }
    let (next, _, nudge) = decide_after_tools(c, &names, None, true, false, settings());
    assert_eq!(next.no_write_command_run_turns, 0);
    assert!(!nudge);
    let other = vec!["planning".to_string()];
    let (next, _, _) = decide_after_tools(c, &other, None, false, false, settings());
    assert_eq!(next.no_write_command_run_turns, 3);
}

#[test]
fn terminal_status_without_next_task_asks_for_the_final_reply() {
    let names = vec!["command_run".to_string()];
    let c = initial_counters();
    let (_, action, nudge) = decide_after_tools(c, &names, Some("done"), false, false, settings());
    assert_eq!(action, ToolTurnAction::FinishWithFinalResponse);
    assert!(!nudge);
    let (_, action, _) = decide_after_tools(c, &names, Some("question"), false, false, settings());
    assert_eq!(action, ToolTurnAction::FinishWithFinalResponse);
    let (next, action, _) = decide_after_tools(c, &names, Some("done"), false, true, settings());
    assert_eq!(action, ToolTurnAction::FocusNextTask);
    assert_eq!(next.no_write_command_run_turns, 0);
    let (_, action, _) = decide_after_tools(c, &names, Some("doing"), false, false, settings());
    assert_eq!(action, ToolTurnAction::Continue);
    assert!(next_task_from_todo(Some("done")));
    assert!(!next_task_from_todo(Some("question")));
    assert!(!next_task_from_todo(None));
}

#[test]
fn run_end_labels_and_failure_ids() {
    assert_eq!(final_checkpoint_label(RunOutcome::Failed), "failed");
    assert_eq!(final_checkpoint_label(RunOutcome::Completed), "completed");
    assert_eq!(failure_runtime_id(Some("rt-1"), "s1"), "rt-1");
    assert_eq!(failure_runtime_id(None, "s1"), "runtime-error-s1");
}

#[test]
fn provider_failure_messages() {
    assert_eq!(
        runtime_failure_text_or_default(None),
        "Provider runtime failed before producing output."
    );
    assert_eq!(runtime_failure_text_or_default(Some("boom")), "boom");
    assert_eq!(
        provider_retry_message("timeout", 2),
        "Provider failure while waiting for the model response: timeout. This is transient provider failure retry 2 of 3, not task completion. Retry the current task with the normal command_run tool unless the requested edits and validation are actually complete."
    );
    assert_eq!(
        media_omitted_message("image", 12),
        "The provider rejected `image` media content. 12 item(s) were omitted from the next request and replaced with text placeholders; continue using the remaining text and supported media."
    );
    assert_eq!(
        unsupported_media_message("audio", "bad"),
        "Provider/model does not support `audio` media input for this request. Use an image-capable model or a route whose model metadata includes that input modality. Original provider error: bad"
    );
    assert_eq!(
        retries_exhausted_message("gone"),
        "Provider runtime failed after 3 retries before completing the task: gone"
    );
}

#[test]
fn run_outcomes_and_stored_session_status() {
    assert_eq!(final_session_state(RunOutcome::Failed), SessionState::Failed);
    assert_eq!(final_session_state(RunOutcome::Completed), SessionState::Completed);
    assert_eq!(session_status(SessionState::Created), "idle");
    assert_eq!(session_status(SessionState::Completed), "idle");
    assert_eq!(session_status(SessionState::Running), "busy");
    assert_eq!(session_status(SessionState::Paused), "busy");
    assert_eq!(session_status(SessionState::Failed), "error");
    assert_eq!(session_status(SessionState::Cancelled), "error");
    assert_eq!(session_status(SessionState::Interrupted), "error");
}

#[test]
fn stored_session_records_carry_the_session_and_its_status() {
    let info = SessionRecordInfo {
        id: "s1".to_string(),
        name: "Fix it".to_string(),
        created_at_millis: 1000,
        updated_at_millis: 2000,
        directory: "/work".to_string(),
        agent: None,
        session_type: "coding".to_string(),
        disable_permission_restrictions: false,
        use_last_tool_call_response: true,
        state: SessionState::Running,
        message_count: 3,
    };
    let record = persisted_record(&info, &parse_json(r#"{"session_id":"s1"}"#).expect("json"));
    let v: serde_json::Value = serde_json::from_str(&runtime::json::json_to_string(&record)).expect("json");
    assert_eq!(v["info"]["id"], "s1");
    assert_eq!(v["info"]["created_at"], 1000);
    assert_eq!(v["info"]["updated_at"], 2000);
    assert_eq!(v["info"]["agent"], serde_json::Value::Null);
    assert_eq!(v["info"]["lsp"]["mode"], "auto");
    assert_eq!(v["info"]["status"], "busy");
    assert_eq!(v["info"]["message_count"], 3);
    assert_eq!(v["info"]["use_last_tool_call_response"], true);
    assert_eq!(v["info"]["management"]["session_id"], "s1");
    assert_eq!(v["parent_id"], serde_json::Value::Null);
    assert_eq!(v["messages"].as_array().map(|m| m.len()), Some(0));
    assert_eq!(v["todos"].as_array().map(|m| m.len()), Some(0));
}
