use runtime::checkpoint::{
    checkpoint_provider_call_finished, checkpoint_provider_call_started, checkpoint_turn_failed,
    checkpoint_turn_finished, checkpoint_turn_interrupted, checkpoint_turn_started,
};
use runtime::gateway_events::{
    compact_command_output, first_non_empty, gateway_agent_message_delivery,
    gateway_callback_ipc_enabled, gateway_callback_session_id, gateway_callbacks_disabled,
    parse_usize, planning_child_depth, runtime_message_id, runtime_text_part_id,
    runtime_tool_part_id, GatewayDelivery,
};
use runtime::json::{json_to_string, JsonValue};

fn state() -> JsonValue {
    JsonValue::Str("running".to_string())
}

fn status() -> JsonValue {
    JsonValue::Null
}

#[test]
fn stream_message_ids_are_stable_and_runtime_scoped() {
    assert_eq!(runtime_message_id("runtime-123"), "runtime-123.message");
    assert_eq!(runtime_text_part_id("runtime-123"), "runtime-123.message");
    assert_ne!(runtime_message_id("runtime-123"), runtime_message_id("runtime-456"));
}

#[test]
fn tool_part_ids_name_the_tool() {
    assert_eq!(runtime_tool_part_id("r-1", "command_run"), "r-1.tool.command_run");
}

#[test]
fn gateway_callback_ipc_enabled_accepts_known_transports() {
    assert!(!gateway_callback_ipc_enabled(None));
    assert!(gateway_callback_ipc_enabled(Some("ipc")));
    assert!(gateway_callback_ipc_enabled(Some("router-ipc")));
    assert!(gateway_callback_ipc_enabled(Some(" STDOUT ")));
    assert!(!gateway_callback_ipc_enabled(Some("http")));
}

#[test]
fn callbacks_switch_off_only_for_off_words() {
    assert!(!gateway_callbacks_disabled(None));
    for word in ["0", "false", " No ", "OFF", "disabled"] {
        assert!(gateway_callbacks_disabled(Some(word)), "{word}");
    }
    assert!(!gateway_callbacks_disabled(Some("on")));
    assert!(!gateway_callbacks_disabled(Some("")));
}

#[test]
fn callback_session_id_uses_parent_only_for_planning_child_depth() {
    let depth = planning_child_depth(None, None);
    assert_eq!(
        gateway_callback_session_id("child-session", depth, Some(" parent-session ")),
        "child-session"
    );

    let depth = planning_child_depth(Some("1"), None);
    assert_eq!(
        gateway_callback_session_id("child-session", depth, Some(" parent-session ")),
        "parent-session"
    );
    assert_eq!(
        gateway_callback_session_id("child-session", depth, Some("   ")),
        "child-session"
    );

    let depth = planning_child_depth(None, Some("2"));
    assert_eq!(
        gateway_callback_session_id("child-session", depth, Some("execute-parent")),
        "execute-parent"
    );

    let depth = planning_child_depth(None, Some("not-a-number"));
    assert_eq!(depth, 0);
    assert_eq!(
        gateway_callback_session_id("child-session", depth, Some("execute-parent")),
        "child-session"
    );
    assert_eq!(gateway_callback_session_id("s", 3, None), "s");
}

#[test]
fn planning_depth_prefers_the_planning_setting() {
    assert_eq!(planning_child_depth(Some("x"), Some("4")), 0);
    assert_eq!(planning_child_depth(Some("3"), Some("4")), 3);
}

#[test]
fn parse_usize_follows_from_str() {
    assert_eq!(parse_usize("0"), Some(0));
    assert_eq!(parse_usize("+42"), Some(42));
    assert_eq!(parse_usize("007"), Some(7));
    assert_eq!(parse_usize(""), None);
    assert_eq!(parse_usize("+"), None);
    assert_eq!(parse_usize("-1"), None);
    assert_eq!(parse_usize(" 1"), None);
    assert_eq!(parse_usize("1a"), None);
    assert_eq!(parse_usize(&usize::MAX.to_string()), Some(usize::MAX));
    assert_eq!(parse_usize("99999999999999999999999"), None);
    for s in ["12", "+3", "x", "", "-0", "18446744073709551616"] {
        assert_eq!(parse_usize(s), s.parse::<usize>().ok(), "{s}");
    }
}

#[test]
fn publish_gateway_agent_message_returns_ok_when_callbacks_are_disabled() {
    assert!(matches!(gateway_agent_message_delivery(true, false), Ok(GatewayDelivery::Skipped)));
    assert!(matches!(gateway_agent_message_delivery(true, true), Ok(GatewayDelivery::Skipped)));
}

#[test]
fn publish_gateway_agent_message_requires_ipc_transport_when_callbacks_enabled() {
    match gateway_agent_message_delivery(false, false) {
        Err(error) => assert!(error.contains("IPC transport is not enabled")),
        Ok(_) => panic!("gateway callbacks require router IPC"),
    }
    assert!(matches!(gateway_agent_message_delivery(false, true), Ok(GatewayDelivery::SendOverIpc)));
}

#[test]
fn compact_command_output_keeps_three_meaningful_lines() {
    let out = "Exit code: 0\nWall time: 0.1 seconds\nOutput:\n  first  \n\nsecond\r\nthird\nfourth\n";
    assert_eq!(compact_command_output(out), "first / second / third");
    assert_eq!(compact_command_output("Output:\n\n"), "");
    assert_eq!(compact_command_output("only"), "only");
}

#[test]
fn first_non_empty_trims() {
    assert_eq!(first_non_empty(&["", "  ", " b ", "c"]), Some("b".to_string()));
    assert_eq!(first_non_empty(&[" "]), None);
    assert_eq!(first_non_empty(&[]), None);
}

#[test]
fn checkpoint_events_follow_the_turn() {
    let started = checkpoint_turn_started("s-1", "r-1", &state(), &status());
    assert_eq!(started.event_type, "turn_started");
    assert_eq!(started.session_id, "s-1");
    assert_eq!(started.turn_id, "r-1");
    assert_eq!(started.runtime_worker_id, "r-1");
    assert_eq!(started.provider_call_id, None);
    assert_eq!(started.event_seq, Some(1));
    assert_eq!(
        json_to_string(&started.payload),
        "{\"call_result_status\":null,\"event_type\":\"turn_started\",\"runtime_state\":\"running\"}"
    );

    let call = checkpoint_provider_call_started("s-1", "r-1", &state(), &status());
    assert_eq!(call.event_type, "provider_call_started");
    assert_eq!(call.provider_call_id, Some("r-1".to_string()));
    assert_eq!(call.event_seq, Some(2));

    let done = checkpoint_provider_call_finished("s-1", "r-1", &state(), &status());
    assert_eq!(done.event_seq, Some(3));
    assert_eq!(done.provider_call_id, Some("r-1".to_string()));

    for (event, name) in [
        (checkpoint_turn_finished("s", "r", &state(), &status()), "turn_finished"),
        (checkpoint_turn_failed("s", "r", &state(), &status()), "turn_failed"),
        (checkpoint_turn_interrupted("s", "r", &state(), &status()), "turn_interrupted"),
    ] {
        assert_eq!(event.event_type, name);
        assert_eq!(event.event_seq, Some(4));
        assert_eq!(event.command_run_id, None);
        assert_eq!(event.command_id, None);
        assert!(json_to_string(&event.payload).contains(&format!("\"event_type\":\"{name}\"")));
    }
}
