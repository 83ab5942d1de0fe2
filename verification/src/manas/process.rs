//! The decisions of the turn loop: after a model turn, whether the provider
//! call is tried again, the tool calls run, the model is asked again or the
//! run ends; after the tools, which task comes next; and how a run ends.
use vstd::prelude::*;
use crate::chars::eq_str;
use crate::json::{array_data, json_data, json_member_str, lemma_array_data, member_text, JsonData, JsonValue};
use crate::context::timeline::opt_str_view;
use crate::manas::runtime_turn::{has_name, listed};
use crate::text::{chars_of, decimal, push_decimal, push_str, string_of};

verus! {

/// How a run of the loop ended; the session and its agents end in the
/// same state.
#[derive(Debug, Clone, Copy, PartialEq, Eq, Structural)]
pub enum RunOutcome {
    Completed,
    Failed,
}

/// The counters the loop carries from turn to turn.
#[derive(Debug, Clone, Copy, PartialEq, Eq, Structural)]
pub struct LoopCounters {
    pub turn: u64,
    pub provider_timeout_retries: u8,
    pub no_tool_retries: u8,
    pub no_write_command_run_turns: u64,
}

/// How the provider call of a turn ended: timed out, failed, or any
/// other status the runtime reports.
#[derive(Debug, Clone, Copy, PartialEq, Eq, Structural)]
pub enum CallStatus {
    TimedOut,
    Failed,
    Other,
}

/// What a turn came back with.
#[derive(Debug, Clone, Copy, PartialEq, Eq, Structural)]
pub enum TurnEvent {
    /// The turn could not be run at all.
    TurnError,
    /// The provider call ended. `failure_allows_retry`: the failure is one
    /// the provider may recover from; `retry_wait_available`: the retry
    /// policy still grants a wait at the current retry count;
    /// `rejects_required_media`: the provider refused media the request
    /// cannot do without.
    Finished {
        status: CallStatus,
        failure_allows_retry: bool,
        retry_wait_available: bool,
        rejects_required_media: bool,
        has_tool_calls: bool,
    },
}

/// The settings of a run: whether runtime errors are handed back to the
/// caller, how often a turn without tool calls is retried, whether the run
/// is a planning child, whether the agent has task_status, and after how
/// many command_run turns without a write a nudge is sent.
#[derive(Debug, Clone, Copy, PartialEq, Eq, Structural)]
pub struct LoopSettings {
    pub fail_on_runtime_error: bool,
    pub no_tool_retry_limit: u8,
    pub planning_child: bool,
    pub supports_task_status: bool,
    pub no_write_nudge_threshold: u64,
}

/// What the loop does after a turn.
#[derive(Debug, Clone, Copy, PartialEq, Eq, Structural)]
pub enum TurnAction {
    /// Hand the error back to the caller.
    ReturnError,
    /// Publish the failure and end the run as failed.
    PublishFailure,
    /// Publish that the provider cannot take the required media; end as failed.
    PublishUnsupportedMedia,
    /// Publish that the provider retries ran out; end as failed.
    PublishRetriesExhausted,
    /// Wait, tell the model of the failure and run the turn again.
    RetryProvider,
    /// Run the tool calls.
    RunTools,
    /// A planning child turn without tool calls: end as completed.
    EndChild,
    /// Ask the model again, this time for tool calls.
    RetryForTools,
    /// Still no tool calls after the retries: end as completed.
    EndWithoutTools,
}

/// The counters at the start of a run.
pub open spec fn start_counters() -> LoopCounters {
    LoopCounters { turn: 0, provider_timeout_retries: 0, no_tool_retries: 0, no_write_command_run_turns: 0 }
}

pub fn initial_counters() -> (c: LoopCounters)
    ensures
        c == start_counters(),
{
    LoopCounters { turn: 0, provider_timeout_retries: 0, no_tool_retries: 0, no_write_command_run_turns: 0 }
}

/// One more, stopping at the largest value.
pub open spec fn sat_inc_u8(n: u8) -> u8 {
    if n == u8::MAX {
        n
    } else {
        (n + 1) as u8
    }
}

/// One more, stopping at the largest value.
pub open spec fn sat_inc_u64(n: u64) -> u64 {
    if n == u64::MAX {
        n
    } else {
        (n + 1) as u64
    }
}

/// The counters as a new turn begins: one more turn, saturating.
pub fn begin_turn(c: LoopCounters) -> (r: LoopCounters)
    ensures
        r == (LoopCounters { turn: sat_inc_u64(c.turn), ..c }),
{
    LoopCounters { turn: c.turn.saturating_add(1), ..c }
}

/// The loop's decision after a turn, and its counters afterwards.
pub open spec fn turn_step(c: LoopCounters, e: TurnEvent, s: LoopSettings) -> (LoopCounters, TurnAction) {
    match e {
        TurnEvent::TurnError => (c, if s.fail_on_runtime_error {
            TurnAction::ReturnError
        } else {
            TurnAction::PublishFailure
        }),
        TurnEvent::Finished { status, failure_allows_retry, retry_wait_available, rejects_required_media, has_tool_calls } => {
            if status == CallStatus::TimedOut || failure_allows_retry {
                if !retry_wait_available {
                    (c, TurnAction::PublishRetriesExhausted)
                } else if rejects_required_media {
                    (c, TurnAction::PublishUnsupportedMedia)
                } else {
                    (LoopCounters { provider_timeout_retries: sat_inc_u8(c.provider_timeout_retries), ..c }, TurnAction::RetryProvider)
                }
            } else if status == CallStatus::Failed {
                (c, if s.fail_on_runtime_error {
                    TurnAction::ReturnError
                } else {
                    TurnAction::PublishFailure
                })
            } else if has_tool_calls {
                (LoopCounters { provider_timeout_retries: 0, no_tool_retries: 0, ..c }, TurnAction::RunTools)
            } else if s.planning_child {
                (c, TurnAction::EndChild)
            } else if c.no_tool_retries < s.no_tool_retry_limit {
                (LoopCounters { no_tool_retries: sat_inc_u8(c.no_tool_retries), ..c }, TurnAction::RetryForTools)
            } else {
                (c, TurnAction::EndWithoutTools)
            }
        },
    }
}

/// How an action ends the run, if it does.
pub open spec fn action_outcome(a: TurnAction) -> Option<RunOutcome> {
    match a {
        TurnAction::PublishFailure | TurnAction::PublishUnsupportedMedia | TurnAction::PublishRetriesExhausted => Some(
            RunOutcome::Failed,
        ),
        TurnAction::EndChild | TurnAction::EndWithoutTools => Some(RunOutcome::Completed),
        _ => None,
    }
}

/// Decides what follows a turn.
pub fn decide_after_turn(c: LoopCounters, e: TurnEvent, s: LoopSettings) -> (r: (LoopCounters, TurnAction))
    ensures
        r == turn_step(c, e, s),
{
    match e {
        TurnEvent::TurnError => (c, if s.fail_on_runtime_error {
            TurnAction::ReturnError
        } else {
            TurnAction::PublishFailure
        }),
        TurnEvent::Finished { status, failure_allows_retry, retry_wait_available, rejects_required_media, has_tool_calls } => {
            let timed_out = match status {
                CallStatus::TimedOut => true,
                _ => false,
            };
            let failed = match status {
                CallStatus::Failed => true,
                _ => false,
            };
            if timed_out || failure_allows_retry {
                if !retry_wait_available {
                    (c, TurnAction::PublishRetriesExhausted)
                } else if rejects_required_media {
                    (c, TurnAction::PublishUnsupportedMedia)
                } else {
                    (LoopCounters { provider_timeout_retries: c.provider_timeout_retries.saturating_add(1), ..c }, TurnAction::RetryProvider)
                }
            } else if failed {
                (c, if s.fail_on_runtime_error {
                    TurnAction::ReturnError
                } else {
                    TurnAction::PublishFailure
                })
            } else if has_tool_calls {
                (LoopCounters { provider_timeout_retries: 0, no_tool_retries: 0, ..c }, TurnAction::RunTools)
            } else if s.planning_child {
                (c, TurnAction::EndChild)
            } else if c.no_tool_retries < s.no_tool_retry_limit {
                (LoopCounters { no_tool_retries: c.no_tool_retries.saturating_add(1), ..c }, TurnAction::RetryForTools)
            } else {
                (c, TurnAction::EndWithoutTools)
            }
        },
    }
}

/// What the loop does once the tool calls of a turn ran.
#[derive(Debug, Clone, Copy, PartialEq, Eq, Structural)]
pub enum ToolTurnAction {
    /// Focus the next task and run another turn.
    FocusNextTask,
    /// Ask the model for its final reply, then end the run as completed.
    FinishWithFinalResponse,
    /// Run another turn.
    Continue,
}

/// Whether the next task is looked for among the tasks still to do (after
/// a `done`) rather than as the active task.
pub fn next_task_from_todo(terminal_task_status: Option<&str>) -> (b: bool)
    ensures
        b == (match terminal_task_status {
            Some(t) => t@ == "done"@,
            None => false,
        }),
{
    match terminal_task_status {
        Some(t) => eq_str(&chars_of(t), "done"),
        None => false,
    }
}

/// The count of consecutive command_run turns that neither wrote nor
/// settled the task: back to zero on a write or a task status, one more on
/// another command_run turn, else as it was.
pub open spec fn no_write_count(count: u64, ran_command_run: bool, wrote_or_set_status: bool, terminal_seen: bool) -> u64 {
    if wrote_or_set_status || terminal_seen {
        0
    } else if ran_command_run {
        sat_inc_u64(count)
    } else {
        count
    }
}

/// Whether the status ends the task for now.
pub open spec fn is_terminal_reply(t: Option<Seq<char>>) -> bool {
    t == Some("done"@) || t == Some("question"@)
}

/// The loop's decision once the tool calls ran, its counters afterwards,
/// and whether the task_status nudge is sent.
pub open spec fn tools_step(
    c: LoopCounters,
    tool_names: Seq<String>,
    terminal: Option<Seq<char>>,
    wrote_or_set_status: bool,
    next_task_found: bool,
    s: LoopSettings,
) -> (LoopCounters, ToolTurnAction, bool) {
    let n = no_write_count(c.no_write_command_run_turns, listed(tool_names, "command_run"@), wrote_or_set_status, terminal is Some);
    let next = LoopCounters { no_write_command_run_turns: n, ..c };
    let nudge = s.supports_task_status && n >= s.no_write_nudge_threshold;
    if next_task_found {
        (next, ToolTurnAction::FocusNextTask, nudge)
    } else if is_terminal_reply(terminal) {
        (next, ToolTurnAction::FinishWithFinalResponse, false)
    } else {
        (next, ToolTurnAction::Continue, nudge)
    }
}

/// Decides what follows the tool calls of a turn.
pub fn decide_after_tools(
    c: LoopCounters,
    tool_names: &Vec<String>,
    terminal_task_status: Option<&str>,
    wrote_or_set_status: bool,
    next_task_found: bool,
    s: LoopSettings,
) -> (r: (LoopCounters, ToolTurnAction, bool))
    ensures
        r == tools_step(c, tool_names@, opt_str_view(terminal_task_status), wrote_or_set_status, next_task_found, s),
{
    let ran_command_run = has_name(tool_names, "command_run");
    let terminal_seen = terminal_task_status.is_some();
    let n = if wrote_or_set_status || terminal_seen {
        0
    } else if ran_command_run {
        c.no_write_command_run_turns.saturating_add(1)
    } else {
        c.no_write_command_run_turns
    };
    let next = LoopCounters { no_write_command_run_turns: n, ..c };
    let nudge = s.supports_task_status && n >= s.no_write_nudge_threshold;
    let terminal_reply = match terminal_task_status {
        Some(t) => eq_str(&chars_of(t), "done") || eq_str(&chars_of(t), "question"),
        None => false,
    };
    if next_task_found {
        (next, ToolTurnAction::FocusNextTask, nudge)
    } else if terminal_reply {
        (next, ToolTurnAction::FinishWithFinalResponse, false)
    } else {
        (next, ToolTurnAction::Continue, nudge)
    }
}

/// The checkpoint stage a run ends with.
pub fn final_checkpoint_label(outcome: RunOutcome) -> (r: &'static str)
    ensures
        r@ == (match outcome {
            RunOutcome::Failed => "failed"@,
            RunOutcome::Completed => "completed"@,
        }),
{
    match outcome {
        RunOutcome::Failed => "failed",
        RunOutcome::Completed => "completed",
    }
}

/// The runtime a failure is published under: the last turn's runtime, or
/// one named after the session when no turn produced one.
pub fn failure_runtime_id(last_runtime_id: Option<&str>, session_id: &str) -> (r: String)
    ensures
        r@ == (match last_runtime_id {
            Some(id) => id@,
            None => "runtime-error-"@ + session_id@,
        }),
{
    match last_runtime_id {
        Some(id) => id.to_string(),
        None => {
            let mut out: Vec<char> = Vec::new();
            push_str(&mut out, "runtime-error-");
            push_str(&mut out, session_id);
            string_of(&out)
        },
    }
}

/// The text of a provider failure, or the stock text when it gave none.
pub fn runtime_failure_text_or_default(text: Option<&str>) -> (r: String)
    ensures
        r@ == (match text {
            Some(t) => t@,
            None => "Provider runtime failed before producing output."@,
        }),
{
    match text {
        Some(t) => t.to_string(),
        None => "Provider runtime failed before producing output.".to_string(),
    }
}

pub open spec fn provider_retry_text(error_text: Seq<char>, retry: nat) -> Seq<char> {
    "Provider failure while waiting for the model response: "@ + error_text + ". This is transient provider failure retry "@
        + decimal(retry) + " of 3, not task completion. Retry the current task with the normal command_run tool unless the requested edits and validation are actually complete."@
}

/// The system message that tells the model of a transient provider
/// failure before the turn is tried again.
pub fn provider_retry_message(error_text: &str, retry: u8) -> (r: String)
    ensures
        r@ == provider_retry_text(error_text@, retry as nat),
{
    let mut out: Vec<char> = Vec::new();
    push_str(&mut out, "Provider failure while waiting for the model response: ");
    push_str(&mut out, error_text);
    push_str(&mut out, ". This is transient provider failure retry ");
    push_decimal(&mut out, retry as u64);
    push_str(
        &mut out,
        " of 3, not task completion. Retry the current task with the normal command_run tool unless the requested edits and validation are actually complete.",
    );
    string_of(&out)
}

pub open spec fn media_omitted_text(content_type: Seq<char>, removed: nat) -> Seq<char> {
    "The provider rejected `"@ + content_type + "` media content. "@ + decimal(removed)
        + " item(s) were omitted from the next request and replaced with text placeholders; continue using the remaining text and supported media."@
}

/// The system message that says how many media items were left out of the
/// next request.
pub fn media_omitted_message(content_type: &str, removed: usize) -> (r: String)
    ensures
        r@ == media_omitted_text(content_type@, removed as nat),
{
    let mut out: Vec<char> = Vec::new();
    push_str(&mut out, "The provider rejected `");
    push_str(&mut out, content_type);
    push_str(&mut out, "` media content. ");
    push_decimal(&mut out, removed as u64);
    push_str(
        &mut out,
        " item(s) were omitted from the next request and replaced with text placeholders; continue using the remaining text and supported media.",
    );
    string_of(&out)
}

pub open spec fn unsupported_media_text(content_type: Seq<char>, error_text: Seq<char>) -> Seq<char> {
    "Provider/model does not support `"@ + content_type
        + "` media input for this request. Use an image-capable model or a route whose model metadata includes that input modality. Original provider error: "@
        + error_text
}

/// The failure published when the provider refuses media the request
/// needs.
pub fn unsupported_media_message(content_type: &str, error_text: &str) -> (r: String)
    ensures
        r@ == unsupported_media_text(content_type@, error_text@),
{
    let mut out: Vec<char> = Vec::new();
    push_str(&mut out, "Provider/model does not support `");
    push_str(&mut out, content_type);
    push_str(
        &mut out,
        "` media input for this request. Use an image-capable model or a route whose model metadata includes that input modality. Original provider error: ",
    );
    push_str(&mut out, error_text);
    string_of(&out)
}

/// The failure published when the provider retries ran out.
pub fn retries_exhausted_message(error_text: &str) -> (r: String)
    ensures
        r@ == "Provider runtime failed after 3 retries before completing the task: "@ + error_text@,
{
    let mut out: Vec<char> = Vec::new();
    push_str(&mut out, "Provider runtime failed after 3 retries before completing the task: ");
    push_str(&mut out, error_text);
    string_of(&out)
}

/// The instruction of the turn that asks for the final reply.
pub fn terminal_final_response_instruction() -> (r: &'static str)
    ensures
        r@ == "The task was marked done. Now send the user-facing assistant reply directly, without calling tools and without mentioning task_status, command_run, or internal status updates."@,
{
    "The task was marked done. Now send the user-facing assistant reply directly, without calling tools and without mentioning task_status, command_run, or internal status updates."
}

/// Whether a message is a developer message.
pub open spec fn is_developer(m: JsonData) -> bool {
    member_text(m, "role"@) == Some("developer"@)
}

/// The messages of the next turn: the developer messages of the first
/// request, then the session's messages; the rest of the first request is
/// not replayed.
pub fn messages_with_initial_context_prefix(
    initial_messages: &Vec<JsonValue>,
    session_messages: Vec<JsonValue>,
    _original_user_task: &str,
) -> (r: Vec<JsonValue>)
    ensures
        array_data(r@) == array_data(initial_messages@).filter(|m: JsonData| is_developer(m)) + array_data(
            session_messages@,
        ),
{
    let ghost d = array_data(initial_messages@);
    proof {
        lemma_array_data(initial_messages@);
    }
    let mut out: Vec<JsonValue> = Vec::new();
    let mut i: usize = 0;
    assert(d.take(0) =~= Seq::<JsonData>::empty());
    proof {
        lemma_array_data(out@);
    }
    while i < initial_messages.len()
        invariant
            i <= initial_messages.len(),
            d == array_data(initial_messages@),
            d.len() == initial_messages.len(),
            forall|j: int| 0 <= j < initial_messages.len() ==> #[trigger] d[j] == json_data(initial_messages@[j]),
            array_data(out@) == d.take(i as int).filter(|m: JsonData| is_developer(m)),
        decreases initial_messages.len() - i,
    {
        proof {
            reveal(Seq::filter);
            assert(d.take(i + 1).drop_last() =~= d.take(i as int));
        }
        let developer = match json_member_str(&initial_messages[i], "role") {
            Some(r) => eq_str(&chars_of(r), "developer"),
            None => false,
        };
        if developer {
            let ghost before = out@;
            out.push(crate::json::copy_json(&initial_messages[i]));
            proof {
                lemma_array_data(before);
                lemma_array_data(out@);
                assert(array_data(out@) =~= array_data(before).push(d[i as int]));
            }
        }
        i = i + 1;
    }
    assert(d.take(i as int) =~= d);
    let ghost prefix = out@;
    let mut rest = session_messages;
    out.append(&mut rest);
    proof {
        lemma_array_data(prefix);
        lemma_array_data(session_messages@);
        lemma_array_data(out@);
        assert(out@ =~= prefix + session_messages@);
        assert(array_data(out@) =~= array_data(prefix) + array_data(session_messages@));
    }
    out
}

/// A run asks the model for tool calls again at most as often as the
/// limit allows: from counters within the limit, every decision after a
/// turn keeps the count of such retries within it, and a turn without tool
/// calls that finds the limit reached ends the run.
pub proof fn law_no_tool_retries_stay_within_limit(c: LoopCounters, e: TurnEvent, s: LoopSettings)
    requires
        c.no_tool_retries <= s.no_tool_retry_limit,
    ensures
        turn_step(c, e, s).0.no_tool_retries <= s.no_tool_retry_limit,
        turn_step(c, e, s).1 == TurnAction::RetryForTools ==> c.no_tool_retries < s.no_tool_retry_limit,
        c.no_tool_retries == s.no_tool_retry_limit && !s.planning_child && (e matches TurnEvent::Finished {
            status: CallStatus::Other,
            failure_allows_retry: false,
            has_tool_calls: false,
            ..
        }) ==> turn_step(c, e, s).1 == TurnAction::EndWithoutTools,
{
}

} // verus!
