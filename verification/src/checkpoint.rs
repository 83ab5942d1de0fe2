//! The checkpoints that a runtime turn records as it moves through its
//! states: which event, for which session and turn, in which order.
use vstd::prelude::*;
use crate::json::{copy_json, json_data, lemma_object_data, object_data, JsonData, JsonValue};

pub mod session_messages;

verus! {

/// One runtime-state checkpoint to record.
#[derive(Debug)]
pub struct RuntimeCheckpointEvent {
    pub session_id: String,
    /// The turn is the runtime that runs it.
    pub turn_id: String,
    pub runtime_worker_id: String,
    pub provider_call_id: Option<String>,
    pub command_run_id: Option<String>,
    pub command_id: Option<String>,
    /// Position of the event within the turn.
    pub event_seq: Option<i64>,
    pub event_type: String,
    /// What the event records: its type, and the runtime's state and
    /// call-result status as they serialize.
    pub payload: JsonValue,
}

pub open spec fn opt_string_view(o: Option<String>) -> Option<Seq<char>> {
    match o {
        Some(s) => Some(s@),
        None => None,
    }
}

/// The checkpoint event as plain values: (session, turn, worker, provider
/// call, command run, command, sequence number, event type, payload).
pub open spec fn event_view(e: RuntimeCheckpointEvent) -> (
    Seq<char>,
    Seq<char>,
    Seq<char>,
    Option<Seq<char>>,
    Option<Seq<char>>,
    Option<Seq<char>>,
    Option<i64>,
    Seq<char>,
    JsonData,
) {
    (
        e.session_id@,
        e.turn_id@,
        e.runtime_worker_id@,
        opt_string_view(e.provider_call_id),
        opt_string_view(e.command_run_id),
        opt_string_view(e.command_id),
        e.event_seq,
        e.event_type@,
        json_data(e.payload),
    )
}

/// What a runtime-state checkpoint records: the event type, the runtime's
/// state and its call-result status.
pub open spec fn state_payload(event_type: Seq<char>, runtime_state: JsonData, call_result_status: JsonData) -> JsonData {
    JsonData::Object(
        seq![
            ("event_type"@, JsonData::Str(event_type)),
            ("runtime_state"@, runtime_state),
            ("call_result_status"@, call_result_status),
        ],
    )
}

/// A runtime-state event of the turn `runtime_id` in `session_id`: the turn
/// and the worker are the runtime itself; the provider call, when the event
/// concerns one, is the runtime too; the payload records the event type and
/// the runtime's state and call-result status.
pub open spec fn runtime_state_event(
    session_id: Seq<char>,
    runtime_id: Seq<char>,
    event_type: Seq<char>,
    with_provider_call: bool,
    seq: i64,
    runtime_state: JsonData,
    call_result_status: JsonData,
) -> (
    Seq<char>,
    Seq<char>,
    Seq<char>,
    Option<Seq<char>>,
    Option<Seq<char>>,
    Option<Seq<char>>,
    Option<i64>,
    Seq<char>,
    JsonData,
) {
    (
        session_id,
        runtime_id,
        runtime_id,
        if with_provider_call {
            Some(runtime_id)
        } else {
            None
        },
        None,
        None,
        Some(seq),
        event_type,
        state_payload(event_type, runtime_state, call_result_status),
    )
}

fn checkpoint_runtime_state_event(
    session_id: &str,
    runtime_id: &str,
    event_type: &str,
    with_provider_call: bool,
    event_seq: i64,
    runtime_state: &JsonValue,
    call_result_status: &JsonValue,
) -> (e: RuntimeCheckpointEvent)
    ensures
        event_view(e) == runtime_state_event(
            session_id@,
            runtime_id@,
            event_type@,
            with_provider_call,
            event_seq,
            json_data(*runtime_state),
            json_data(*call_result_status),
        ),
{
    let mut ms: Vec<(String, JsonValue)> = Vec::new();
    ms.push(("event_type".to_owned(), JsonValue::Str(event_type.to_owned())));
    ms.push(("runtime_state".to_owned(), copy_json(runtime_state)));
    ms.push(("call_result_status".to_owned(), copy_json(call_result_status)));
    proof {
        lemma_object_data(ms@);
        assert(object_data(ms@) =~= seq![
            ("event_type"@, JsonData::Str(event_type@)),
            ("runtime_state"@, json_data(*runtime_state)),
            ("call_result_status"@, json_data(*call_result_status)),
        ]);
    }
    RuntimeCheckpointEvent {
        session_id: session_id.to_owned(),
        turn_id: runtime_id.to_owned(),
        runtime_worker_id: runtime_id.to_owned(),
        provider_call_id: if with_provider_call {
            Some(runtime_id.to_owned())
        } else {
            None
        },
        command_run_id: None,
        command_id: None,
        event_seq: Some(event_seq),
        event_type: event_type.to_owned(),
        payload: JsonValue::Object(ms),
    }
}

/// The turn started: the first event of a turn.
pub fn checkpoint_turn_started(
    session_id: &str,
    runtime_id: &str,
    runtime_state: &JsonValue,
    call_result_status: &JsonValue,
) -> (e: RuntimeCheckpointEvent)
    ensures
        event_view(e) == runtime_state_event(session_id@, runtime_id@, "turn_started"@, false, 1, json_data(*runtime_state), json_data(*call_result_status)),
{
    checkpoint_runtime_state_event(session_id, runtime_id, "turn_started", false, 1, runtime_state, call_result_status)
}

/// The provider call of the turn started.
pub fn checkpoint_provider_call_started(
    session_id: &str,
    runtime_id: &str,
    runtime_state: &JsonValue,
    call_result_status: &JsonValue,
) -> (e: RuntimeCheckpointEvent)
    ensures
        event_view(e) == runtime_state_event(
            session_id@,
            runtime_id@,
            "provider_call_started"@,
            true,
            2, json_data(*runtime_state), json_data(*call_result_status)),
{
    checkpoint_runtime_state_event(session_id, runtime_id, "provider_call_started", true, 2, runtime_state, call_result_status)
}

/// The provider call of the turn finished.
pub fn checkpoint_provider_call_finished(
    session_id: &str,
    runtime_id: &str,
    runtime_state: &JsonValue,
    call_result_status: &JsonValue,
) -> (e: RuntimeCheckpointEvent)
    ensures
        event_view(e) == runtime_state_event(
            session_id@,
            runtime_id@,
            "provider_call_finished"@,
            true,
            3, json_data(*runtime_state), json_data(*call_result_status)),
{
    checkpoint_runtime_state_event(session_id, runtime_id, "provider_call_finished", true, 3, runtime_state, call_result_status)
}

/// The turn finished.
pub fn checkpoint_turn_finished(
    session_id: &str,
    runtime_id: &str,
    runtime_state: &JsonValue,
    call_result_status: &JsonValue,
) -> (e: RuntimeCheckpointEvent)
    ensures
        event_view(e) == runtime_state_event(session_id@, runtime_id@, "turn_finished"@, false, 4, json_data(*runtime_state), json_data(*call_result_status)),
{
    checkpoint_runtime_state_event(session_id, runtime_id, "turn_finished", false, 4, runtime_state, call_result_status)
}

/// The turn failed.
pub fn checkpoint_turn_failed(
    session_id: &str,
    runtime_id: &str,
    runtime_state: &JsonValue,
    call_result_status: &JsonValue,
) -> (e: RuntimeCheckpointEvent)
    ensures
        event_view(e) == runtime_state_event(session_id@, runtime_id@, "turn_failed"@, false, 4, json_data(*runtime_state), json_data(*call_result_status)),
{
    checkpoint_runtime_state_event(session_id, runtime_id, "turn_failed", false, 4, runtime_state, call_result_status)
}

/// The turn was interrupted.
pub fn checkpoint_turn_interrupted(
    session_id: &str,
    runtime_id: &str,
    runtime_state: &JsonValue,
    call_result_status: &JsonValue,
) -> (e: RuntimeCheckpointEvent)
    ensures
        event_view(e) == runtime_state_event(
            session_id@,
            runtime_id@,
            "turn_interrupted"@,
            false,
            4, json_data(*runtime_state), json_data(*call_result_status)),
{
    checkpoint_runtime_state_event(session_id, runtime_id, "turn_interrupted", false, 4, runtime_state, call_result_status)
}

} // verus!
