//! Settings of an orchestration and the planning capability that a session
//! may switch on or off for its first agent.
use vstd::prelude::*;
use crate::agent_router::{join_path, join_paths};
use crate::manas::tool_catalog::same_text;
use crate::json::{copy_json, json_data, lemma_object_data, object_data, JsonData, JsonValue};
use crate::checkpoint::session_messages::{int_number, int_text};

verus! {

/// Where an orchestration keeps its state and runs its session.
pub struct OrchestrationConfig {
    pub redis_url: String,
    pub session_directory: Option<String>,
}

impl Default for OrchestrationConfig {
    fn default() -> (r: Self)
        ensures
            r.redis_url@ == "redis://localhost:6379"@,
            r.session_directory is None,
    {
        OrchestrationConfig { redis_url: "redis://localhost:6379".to_owned(), session_directory: None }
    }
}

/// A capability of an agent: its command name and the directory of its
/// files.
pub struct CapabilityItem {
    pub capability_name: String,
    pub capability_directory: String,
}

pub open spec fn item_view(c: CapabilityItem) -> (Seq<char>, Seq<char>) {
    (c.capability_name@, c.capability_directory@)
}

pub open spec fn items_view(cs: Seq<CapabilityItem>) -> Seq<(Seq<char>, Seq<char>)> {
    cs.map_values(|c: CapabilityItem| item_view(c))
}

/// Whether the capabilities include planning.
pub open spec fn has_planning(items: Seq<(Seq<char>, Seq<char>)>) -> bool {
    exists|i: int| 0 <= i < items.len() && (#[trigger] items[i]).0 == "planning"@
}

pub fn agent_has_planning_capability(capabilities: &Vec<CapabilityItem>) -> (b: bool)
    ensures
        b == has_planning(items_view(capabilities@)),
{
    let mut i: usize = 0;
    while i < capabilities.len()
        invariant
            i <= capabilities.len(),
            forall|j: int| 0 <= j < i ==> (#[trigger] items_view(capabilities@)[j]).0 != "planning"@,
        decreases capabilities.len() - i,
    {
        if same_text(capabilities[i].capability_name.as_str(), "planning") {
            assert(items_view(capabilities@)[i as int].0 == "planning"@);
            return true;
        }
        i = i + 1;
    }
    false
}

/// The directory a planning capability is given: that of the command_run
/// capability, else that of the first capability, else the tools directory
/// of the session.
pub open spec fn planning_directory(items: Seq<(Seq<char>, Seq<char>)>, session_directory: Seq<char>) -> Seq<char> {
    if exists|i: int| 0 <= i < items.len() && (#[trigger] items[i]).0 == "command_run"@ {
        items[choose|i: int| 0 <= i < items.len() && (#[trigger] items[i]).0 == "command_run"@ && forall|j: int|
            0 <= j < i ==> items[j].0 != "command_run"@].1
    } else if items.len() > 0 {
        items[0].1
    } else {
        join_path(join_path(join_path(session_directory, "crates"@), "tools"@), "src"@)
    }
}

/// The capabilities other than planning, in their order.
pub open spec fn without_planning(items: Seq<(Seq<char>, Seq<char>)>) -> Seq<(Seq<char>, Seq<char>)>
    decreases items.len(),
{
    if items.len() == 0 {
        items
    } else if items.last().0 == "planning"@ {
        without_planning(items.drop_last())
    } else {
        without_planning(items.drop_last()).push(items.last())
    }
}

/// The first agent's capabilities after a session's planning setting: on
/// adds planning when it is missing, off removes it, and no setting leaves
/// them as they are.
pub open spec fn planning_override(
    items: Seq<(Seq<char>, Seq<char>)>,
    planning_mode: Option<bool>,
    session_directory: Seq<char>,
) -> Seq<(Seq<char>, Seq<char>)> {
    match planning_mode {
        None => items,
        Some(true) => if has_planning(items) {
            items
        } else {
            items.push(("planning"@, planning_directory(items, session_directory)))
        },
        Some(false) => without_planning(items),
    }
}

/// A session's planning setting decides: switched on, the first agent has
/// the planning capability; switched off, it has none.
pub proof fn law_planning_override_decides(items: Seq<(Seq<char>, Seq<char>)>, session_directory: Seq<char>)
    ensures
        has_planning(planning_override(items, Some(true), session_directory)),
        !has_planning(planning_override(items, Some(false), session_directory)),
{
    if !has_planning(items) {
        let pushed = items.push(("planning"@, planning_directory(items, session_directory)));
        assert(pushed[items.len() as int].0 == "planning"@);
    }
    lemma_without_planning(items);
}

proof fn lemma_without_planning(items: Seq<(Seq<char>, Seq<char>)>)
    ensures
        !has_planning(without_planning(items)),
    decreases items.len(),
{
    if items.len() > 0 {
        lemma_without_planning(items.drop_last());
        let w = without_planning(items.drop_last());
        if items.last().0 != "planning"@ {
            assert forall|i: int| 0 <= i < w.push(items.last()).len() implies (#[trigger] w.push(items.last())[i]).0
                != "planning"@ by {
                if i < w.len() {
                    assert(w.push(items.last())[i] == w[i]);
                }
            }
        }
    }
}

fn first_command_run(capabilities: &Vec<CapabilityItem>) -> (r: Option<usize>)
    ensures
        match r {
            Some(k) => k < capabilities.len() && items_view(capabilities@)[k as int].0 == "command_run"@ && forall|j: int|
                0 <= j < k ==> (#[trigger] items_view(capabilities@)[j]).0 != "command_run"@,
            None => forall|j: int|
                0 <= j < capabilities.len() ==> (#[trigger] items_view(capabilities@)[j]).0 != "command_run"@,
        },
{
    let mut i: usize = 0;
    while i < capabilities.len()
        invariant
            i <= capabilities.len(),
            forall|j: int| 0 <= j < i ==> (#[trigger] items_view(capabilities@)[j]).0 != "command_run"@,
        decreases capabilities.len() - i,
    {
        if same_text(capabilities[i].capability_name.as_str(), "command_run") {
            return Some(i);
        }
        i = i + 1;
    }
    None
}

/// Applies a session's planning setting to its first agent's capabilities.
pub fn apply_planning_capability_override(
    capabilities: &mut Vec<CapabilityItem>,
    planning_mode: Option<bool>,
    session_directory: &str,
)
    ensures
        items_view(final(capabilities)@) == planning_override(items_view(old(capabilities)@), planning_mode, session_directory@),
{
    let ghost iv = items_view(capabilities@);
    match planning_mode {
        None => {},
        Some(true) => {
            if !agent_has_planning_capability(capabilities) {
                let directory = match first_command_run(capabilities) {
                    Some(k) => {
                        proof {
                            let w = choose|i: int| 0 <= i < iv.len() && (#[trigger] iv[i]).0 == "command_run"@ && forall|j: int|
                                0 <= j < i ==> iv[j].0 != "command_run"@;
                            if w < k {
                                assert(iv[w].0 != "command_run"@);
                            }
                            if k < w {
                                assert(iv[k as int].0 != "command_run"@);
                            }
                        }
                        capabilities[k].capability_directory.clone()
                    },
                    None => {
                        if capabilities.len() > 0 {
                            capabilities[0].capability_directory.clone()
                        } else {
                            let a = join_paths(session_directory, "crates");
                            let b = join_paths(a.as_str(), "tools");
                            join_paths(b.as_str(), "src")
                        }
                    },
                };
                assert(directory@ == planning_directory(iv, session_directory@));
                capabilities.push(CapabilityItem { capability_name: "planning".to_owned(), capability_directory: directory });
                assert(items_view(capabilities@) =~= iv.push(("planning"@, planning_directory(iv, session_directory@))));
            }
        },
        Some(false) => {
            let mut kept: Vec<CapabilityItem> = Vec::new();
            let mut rest: Vec<CapabilityItem> = Vec::new();
            std::mem::swap(&mut rest, capabilities);
            let ghost all = rest@;
            assert(items_view(all) == iv);
            let n = rest.len();
            let mut k: usize = 0;
            assert(all.skip(0) =~= all);
            assert(items_view(kept@) =~= without_planning(iv.take(0)));
            while k < n
                invariant
                    k <= n,
                    n == all.len(),
                    iv == items_view(all),
                    rest@ == all.skip(k as int),
                    items_view(kept@) == without_planning(iv.take(k as int)),
                decreases n - k,
            {
                assert(rest@[0] == all[k as int]);
                let c = rest.remove(0);
                assert(rest@ =~= all.skip(k + 1));
                assert(iv.take(k + 1).drop_last() =~= iv.take(k as int));
                assert(iv.take(k + 1).last() == item_view(c));
                if !same_text(c.capability_name.as_str(), "planning") {
                    let ghost before = items_view(kept@);
                    kept.push(c);
                    assert(items_view(kept@) =~= before.push(iv[k as int]));
                }
                k = k + 1;
            }
            assert(iv.take(k as int) =~= iv);
            *capabilities = kept;
        },
    }
}

/// Where a session stands.
#[derive(Debug, Clone, Copy, PartialEq, Eq, Structural)]
pub enum SessionState {
    Created,
    Running,
    Paused,
    Completed,
    Failed,
    Cancelled,
    Interrupted,
}

/// The status a stored session record shows: idle before and after a
/// run, busy while it runs or is paused, error when it failed or was
/// cancelled or interrupted.
pub fn session_status(state: SessionState) -> (r: &'static str)
    ensures
        r@ == session_status_text(state),
{
    match state {
        SessionState::Created | SessionState::Completed => "idle",
        SessionState::Running | SessionState::Paused => "busy",
        SessionState::Failed | SessionState::Cancelled | SessionState::Interrupted => "error",
    }
}

/// The state a session ends in after a run of the turn loop.
pub open spec fn session_state_after(outcome: crate::manas::process::RunOutcome) -> SessionState {
    match outcome {
        crate::manas::process::RunOutcome::Completed => SessionState::Completed,
        crate::manas::process::RunOutcome::Failed => SessionState::Failed,
    }
}

pub fn final_session_state(outcome: crate::manas::process::RunOutcome) -> (r: SessionState)
    ensures
        r == session_state_after(outcome),
{
    match outcome {
        crate::manas::process::RunOutcome::Completed => SessionState::Completed,
        crate::manas::process::RunOutcome::Failed => SessionState::Failed,
    }
}

/// What a stored session record says of its session.
pub struct SessionRecordInfo {
    pub id: String,
    pub name: String,
    pub created_at_millis: i64,
    pub updated_at_millis: i64,
    pub directory: String,
    pub agent: Option<String>,
    pub session_type: String,
    pub disable_permission_restrictions: bool,
    pub use_last_tool_call_response: bool,
    pub state: SessionState,
    pub message_count: u64,
}

pub open spec fn text_or_null(o: Option<String>) -> JsonData {
    match o {
        Some(t) => JsonData::Str(t@),
        None => JsonData::Null,
    }
}

/// The `info` object of a stored session record: the session's fields,
/// the settings a new record starts with (automatic LSP with nothing
/// enabled or disabled, no model, nothing killed or validated or forced),
/// the status its state shows, and the session itself as `management`.
pub open spec fn record_info(i: SessionRecordInfo, management: JsonData) -> JsonData {
    JsonData::Object(
        seq![
            ("id"@, JsonData::Str(i.id@)),
            ("name"@, JsonData::Str(i.name@)),
            ("created_at"@, JsonData::Number(int_text(i.created_at_millis as int))),
            ("updated_at"@, JsonData::Number(int_text(i.updated_at_millis as int))),
            ("directory"@, JsonData::Str(i.directory@)),
            ("model"@, JsonData::Null),
            ("agent"@, text_or_null(i.agent)),
            ("session_type"@, JsonData::Str(i.session_type@)),
            ("lsp"@, JsonData::Object(seq![
                ("mode"@, JsonData::Str("auto"@)),
                ("enabled"@, JsonData::Array(Seq::empty())),
                ("disabled"@, JsonData::Array(Seq::empty())),
            ])),
            ("kill_processes_on_start"@, JsonData::Bool(false)),
            ("validator_enabled"@, JsonData::Bool(false)),
            ("force_planning"@, JsonData::Bool(false)),
            ("model_variant"@, JsonData::Null),
            ("model_acceleration_enabled"@, JsonData::Bool(false)),
            ("disable_permission_restrictions"@, JsonData::Bool(i.disable_permission_restrictions)),
            ("use_last_tool_call_response"@, JsonData::Bool(i.use_last_tool_call_response)),
            ("status"@, JsonData::Str(session_status_text(i.state))),
            ("message_count"@, JsonData::Number(crate::text::decimal(i.message_count as nat))),
            ("management"@, management),
        ],
    )
}

/// The status text of a state, as `session_status` gives it.
pub open spec fn session_status_text(state: SessionState) -> Seq<char> {
    match state {
        SessionState::Created | SessionState::Completed => "idle"@,
        SessionState::Running | SessionState::Paused => "busy"@,
        SessionState::Failed | SessionState::Cancelled | SessionState::Interrupted => "error"@,
    }
}

/// A stored session record: its info, no parent, and no messages or todos.
pub open spec fn session_record(i: SessionRecordInfo, management: JsonData) -> JsonData {
    JsonData::Object(
        seq![
            ("info"@, record_info(i, management)),
            ("parent_id"@, JsonData::Null),
            ("messages"@, JsonData::Array(Seq::empty())),
            ("todos"@, JsonData::Array(Seq::empty())),
        ],
    )
}

fn str_value(t: &str) -> (r: JsonValue)
    ensures
        json_data(r) == JsonData::Str(t@),
{
    JsonValue::Str(t.to_string())
}

fn empty_array() -> (r: JsonValue)
    ensures
        json_data(r) == JsonData::Array(Seq::empty()),
{
    let items: Vec<JsonValue> = Vec::new();
    proof {
        crate::json::lemma_array_data(items@);
    }
    JsonValue::Array(items)
}

/// The record a session is stored as; `management` is the session itself
/// as JSON.
pub fn persisted_record(info: &SessionRecordInfo, management: &JsonValue) -> (r: JsonValue)
    ensures
        json_data(r) == session_record(*info, json_data(*management)),
{
    let mut lsp: Vec<(String, JsonValue)> = Vec::new();
    lsp.push(("mode".to_string(), str_value("auto")));
    lsp.push(("enabled".to_string(), empty_array()));
    lsp.push(("disabled".to_string(), empty_array()));
    let mut count: Vec<char> = Vec::new();
    crate::text::push_decimal(&mut count, info.message_count);
    let mut ms: Vec<(String, JsonValue)> = Vec::new();
    ms.push(("id".to_string(), str_value(info.id.as_str())));
    ms.push(("name".to_string(), str_value(info.name.as_str())));
    ms.push(("created_at".to_string(), int_number(info.created_at_millis)));
    ms.push(("updated_at".to_string(), int_number(info.updated_at_millis)));
    ms.push(("directory".to_string(), str_value(info.directory.as_str())));
    ms.push(("model".to_string(), JsonValue::Null));
    let agent = match &info.agent {
        Some(a) => str_value(a.as_str()),
        None => JsonValue::Null,
    };
    assert(json_data(agent) == text_or_null(info.agent));
    ms.push(("agent".to_string(), agent));
    ms.push(("session_type".to_string(), str_value(info.session_type.as_str())));
    proof {
        lemma_object_data(lsp@);
        assert(object_data(lsp@) =~= seq![
            ("mode"@, JsonData::Str("auto"@)),
            ("enabled"@, JsonData::Array(Seq::empty())),
            ("disabled"@, JsonData::Array(Seq::empty())),
        ]);
    }
    let lsp_value = JsonValue::Object(lsp);
    ms.push(("lsp".to_string(), lsp_value));
    ms.push(("kill_processes_on_start".to_string(), JsonValue::Bool(false)));
    ms.push(("validator_enabled".to_string(), JsonValue::Bool(false)));
    ms.push(("force_planning".to_string(), JsonValue::Bool(false)));
    ms.push(("model_variant".to_string(), JsonValue::Null));
    ms.push(("model_acceleration_enabled".to_string(), JsonValue::Bool(false)));
    ms.push(("disable_permission_restrictions".to_string(), JsonValue::Bool(info.disable_permission_restrictions)));
    ms.push(("use_last_tool_call_response".to_string(), JsonValue::Bool(info.use_last_tool_call_response)));
    let status = str_value(session_status(info.state));
    assert(json_data(status) == JsonData::Str(session_status_text(info.state)));
    ms.push(("status".to_string(), status));
    ms.push(("message_count".to_string(), JsonValue::Number(crate::text::string_of(&count))));
    ms.push(("management".to_string(), copy_json(management)));
    let mut top: Vec<(String, JsonValue)> = Vec::new();
    let info_value = JsonValue::Object(ms);
    proof {
        lemma_object_data(ms@);
        lemma_object_data(lsp@);
        assert(count@ =~= crate::text::decimal(info.message_count as nat));
        assert(object_data(ms@) =~= record_info(*info, json_data(*management))->Object_0);
    }
    top.push(("info".to_string(), info_value));
    top.push(("parent_id".to_string(), JsonValue::Null));
    top.push(("messages".to_string(), empty_array()));
    top.push(("todos".to_string(), empty_array()));
    proof {
        lemma_object_data(top@);
        assert(object_data(top@) =~= session_record(*info, json_data(*management))->Object_0);
    }
    JsonValue::Object(top)
}

} // verus!
