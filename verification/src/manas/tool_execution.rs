//! What the runtime reads back from a command_run result: whether every
//! command succeeded and the first failure's message, the commands a
//! streamed run executed, and the plan a planning command produced, with
//! each planned step turned into a task step.
use vstd::prelude::*;
use crate::checkpoint::opt_string_view;
use crate::checkpoint::session_messages::{first_index, lemma_first_index, lemma_first_index_some};
use crate::gateway_events::{all_digits, digits_value};
use crate::json::{
    array_data, as_flag, as_items, as_text, copy_json, json_as_bool, json_as_str, json_data, json_get,
    json_member_str, json_text, json_to_string, lemma_array_data, member, member_text, opt_json_data,
    JsonData, JsonValue,
};
use crate::chars::trim;
use crate::checkpoint::session_messages::{copy_members, find_member, or_insert, or_insert_member};
use crate::context::timeline::now_moment;
use crate::manas::provider_schema::{set_member, set_member_exec};
use crate::prompt_style::runtime_prompt_manual::string_views;
use crate::json::member_in;
use crate::chars::trim_ws;
use crate::manas::runtime_turn::parse_u64;
use crate::text::{chars_of, decimal, push_decimal, push_str, string_of};

verus! {

/// Whether one command's result reports success.
pub open spec fn result_succeeded(r: JsonData) -> bool {
    as_flag(member(r, "success"@)) == Some(true)
}

/// Whether a command_run output succeeded: every listed result reports
/// success; an output without a list of results counts as a success.
pub open spec fn all_succeeded(output: JsonData) -> bool {
    match as_items(member(output, "results"@)) {
        Some(rs) => forall|i: int| 0 <= i < rs.len() ==> #[trigger] result_succeeded(rs[i]),
        None => true,
    }
}

proof fn lemma_not_all_succeeded(output: JsonData, rd: Seq<JsonData>, i: int)
    requires
        as_items(member(output, "results"@)) == Some(rd),
        0 <= i < rd.len(),
        !result_succeeded(rd[i]),
    ensures
        !all_succeeded(output),
{
    let rs = as_items(member(output, "results"@)).unwrap();
    assert(rs == rd);
    assert(!result_succeeded(rs[i]));
    if all_succeeded(output) {
        assert(forall|j: int| 0 <= j < rs.len() ==> #[trigger] result_succeeded(rs[j]));
        assert(result_succeeded(rs[i]));
    }
}

pub fn command_run_result_success(output: &JsonValue) -> (b: bool)
    ensures
        b == all_succeeded(json_data(*output)),
{
    let results = match json_get(output, "results") {
        Some(JsonValue::Array(rs)) => rs,
        _ => return true,
    };
    proof {
        lemma_array_data(results@);
    }
    let ghost rd = array_data(results@);
    assert(as_items(member(json_data(*output), "results"@)) == Some(rd));
    let mut i: usize = 0;
    while i < results.len()
        invariant
            i <= results.len(),
            rd == array_data(results@),
            rd.len() == results.len(),
            as_items(member(json_data(*output), "results"@)) == Some(rd),
            forall|j: int| 0 <= j < results.len() ==> #[trigger] rd[j] == json_data(results@[j]),
            forall|j: int| 0 <= j < i ==> #[trigger] result_succeeded(rd[j]),
        decreases results.len() - i,
    {
        let ok = match json_get(&results[i], "success") {
            Some(v) => json_as_bool(v) == Some(true),
            None => false,
        };
        if !ok {
            assert(!result_succeeded(rd[i as int]));
            assert(0 <= i < rd.len());
            proof {
                lemma_not_all_succeeded(json_data(*output), rd, i as int);
            }
            return false;
        }
        i = i + 1;
    }
    true
}

/// The message of a failed result: its error text, or else its output
/// text; none for a result that did not fail or says nothing.
pub open spec fn failure_text(r: JsonData) -> Option<Seq<char>> {
    if as_flag(member(r, "success"@)) == Some(false) {
        match member_text(r, "error"@) {
            Some(e) => Some(e),
            None => member_text(r, "output"@),
        }
    } else {
        None
    }
}

pub open spec fn has_failure_text() -> spec_fn(JsonData) -> bool {
    |r: JsonData| failure_text(r) is Some
}

/// The error of a command_run output that did not succeed: the message of
/// the first failed result that has one.
pub open spec fn run_error(output: JsonData) -> Option<Seq<char>> {
    if all_succeeded(output) {
        None
    } else {
        match as_items(member(output, "results"@)) {
            Some(rs) => match first_index(rs, has_failure_text()) {
                Some(k) => failure_text(rs[k as int]),
                None => None,
            },
            None => None,
        }
    }
}

fn failure_text_of(r: &JsonValue) -> (t: Option<&str>)
    ensures
        match t {
            Some(s) => failure_text(json_data(*r)) == Some(s@),
            None => failure_text(json_data(*r)) is None,
        },
{
    let failed = match json_get(r, "success") {
        Some(v) => json_as_bool(v) == Some(false),
        None => false,
    };
    if !failed {
        return None;
    }
    match json_member_str(r, "error") {
        Some(e) => Some(e),
        None => json_member_str(r, "output"),
    }
}

pub fn command_run_result_error(output: &JsonValue) -> (r: Option<String>)
    ensures
        opt_string_view(r) == run_error(json_data(*output)),
{
    if command_run_result_success(output) {
        return None;
    }
    let results = match json_get(output, "results") {
        Some(JsonValue::Array(rs)) => rs,
        _ => return None,
    };
    proof {
        lemma_array_data(results@);
    }
    let ghost rd = array_data(results@);
    assert(as_items(member(json_data(*output), "results"@)) == Some(rd));
    let mut i: usize = 0;
    while i < results.len()
        invariant
            i <= results.len(),
            rd == array_data(results@),
            rd.len() == results.len(),
            !all_succeeded(json_data(*output)),
            as_items(member(json_data(*output), "results"@)) == Some(rd),
            forall|j: int| 0 <= j < results.len() ==> #[trigger] rd[j] == json_data(results@[j]),
            forall|j: int| 0 <= j < i ==> !has_failure_text()(#[trigger] rd[j]),
        decreases results.len() - i,
    {
        match failure_text_of(&results[i]) {
            Some(t) => {
                proof {
                    lemma_first_index(rd, has_failure_text(), i as int);
                }
                return Some(t.to_string());
            },
            None => {},
        }
        i = i + 1;
    }
    proof {
        lemma_first_index(rd, has_failure_text(), rd.len() as int);
    }
    None
}

/// The arguments a streamed command_run executed: the streamed commands
/// when there is a non-empty list of them, the requested arguments
/// otherwise.
pub open spec fn streamed_arguments(fallback: JsonData, streamed: JsonData) -> JsonData {
    match member(streamed, "commands"@) {
        Some(JsonData::Array(cs)) => if cs.len() > 0 {
            JsonData::Object(seq![("commands"@, JsonData::Array(cs))])
        } else {
            fallback
        },
        _ => fallback,
    }
}

pub fn streamed_command_run_arguments(fallback: &JsonValue, streamed_result: &JsonValue) -> (r: JsonValue)
    ensures
        json_data(r) == streamed_arguments(json_data(*fallback), json_data(*streamed_result)),
{
    let commands = match json_get(streamed_result, "commands") {
        Some(v) => v,
        None => return copy_json(fallback),
    };
    let nonempty = match commands {
        JsonValue::Array(cs) => cs.len() > 0,
        _ => false,
    };
    if !nonempty {
        return copy_json(fallback);
    }
    let mut out: Vec<(String, JsonValue)> = Vec::new();
    out.push(("commands".to_string(), copy_json(commands)));
    proof {
        crate::json::lemma_object_data(out@);
        assert(crate::json::object_data(out@) =~= seq![("commands"@, json_data(out@[0].1))]);
        match commands {
            JsonValue::Array(cs) => {
                lemma_array_data(cs@);
            },
            _ => {},
        }
    }
    JsonValue::Object(out)
}

/// The first of two members that is present.
pub open spec fn either(a: Option<JsonData>, b: Option<JsonData>) -> Option<JsonData> {
    match a {
        Some(x) => Some(x),
        None => b,
    }
}

/// The output of a planning command among a command_run's results.
pub open spec fn planning_item_output(item: JsonData) -> Option<JsonData> {
    if as_text(either(member(item, "command_type"@), member(item, "command"@))) == Some("planning"@) {
        member(item, "output"@)
    } else {
        None
    }
}

pub open spec fn has_planning_output() -> spec_fn(JsonData) -> bool {
    |item: JsonData| planning_item_output(item) is Some
}

/// The plan in a command_run result: the output of its first planning
/// command that has one, when that output lists steps.
pub open spec fn planning_output(result: JsonData) -> Option<JsonData> {
    match as_items(member(result, "results"@)) {
        Some(rs) => match first_index(rs, has_planning_output()) {
            Some(k) => {
                let out = planning_item_output(rs[k as int]).unwrap();
                if member(out, "steps"@) is Some {
                    Some(out)
                } else {
                    None
                }
            },
            None => None,
        },
        None => None,
    }
}

fn planning_item_output_of(item: &JsonValue) -> (r: Option<&JsonValue>)
    ensures
        opt_ref(r) == planning_item_output(json_data(*item)),
{
    let command = match json_get(item, "command_type") {
        Some(c) => Some(c),
        None => json_get(item, "command"),
    };
    let is_planning = match command {
        Some(c) => match json_as_str(c) {
            Some(t) => crate::chars::eq_str(&chars_of(t), "planning"),
            None => false,
        },
        None => false,
    };
    if is_planning {
        json_get(item, "output")
    } else {
        None
    }
}

pub open spec fn opt_ref(o: Option<&JsonValue>) -> Option<JsonData> {
    match o {
        Some(v) => Some(json_data(*v)),
        None => None,
    }
}

pub fn planning_output_from_tool_result(result: &JsonValue) -> (r: Option<JsonValue>)
    ensures
        opt_json_data(r) == planning_output(json_data(*result)),
{
    let results = match json_get(result, "results") {
        Some(JsonValue::Array(rs)) => rs,
        _ => return None,
    };
    proof {
        lemma_array_data(results@);
    }
    let ghost rd = array_data(results@);
    assert(as_items(member(json_data(*result), "results"@)) == Some(rd));
    let mut i: usize = 0;
    while i < results.len()
        invariant
            i <= results.len(),
            rd == array_data(results@),
            rd.len() == results.len(),
            as_items(member(json_data(*result), "results"@)) == Some(rd),
            forall|j: int| 0 <= j < results.len() ==> #[trigger] rd[j] == json_data(results@[j]),
            forall|j: int| 0 <= j < i ==> !has_planning_output()(#[trigger] rd[j]),
        decreases results.len() - i,
    {
        match planning_item_output_of(&results[i]) {
            Some(out) => {
                proof {
                    lemma_first_index(rd, has_planning_output(), i as int);
                }
                return match json_get(out, "steps") {
                    Some(_) => Some(copy_json(out)),
                    None => None,
                };
            },
            None => {},
        }
        i = i + 1;
    }
    proof {
        lemma_first_index(rd, has_planning_output(), rd.len() as int);
    }
    None
}

/// Where a planned task stands.
#[derive(Debug, Clone, Copy, PartialEq, Eq, Structural)]
pub enum PlanStatus {
    Todo,
    Doing,
    Done,
    Question,
    Archived,
}

/// What starts a task: the user's turn, a schedule, or polling.
#[derive(Debug, Clone, Copy, PartialEq, Eq, Structural)]
pub enum StartCondition {
    UserAction,
    ScheduledTask,
    PollingTask,
}

/// A task of the session's plan, as a planning step fills it in.
#[derive(Debug, Clone)]
pub struct TaskStep {
    pub task_id: String,
    pub step: u64,
    pub status: PlanStatus,
    pub start_condition: StartCondition,
    pub task_summary: String,
    pub step_task: String,
    pub step_turn: u64,
    pub step_memory: String,
    pub step_tool: String,
    pub step_context: String,
    pub step_agent_name: String,
    pub step_deliverable_description: String,
    pub step_deliverable_path: String,
}

/// A task step as plain values.
pub struct TaskStepData {
    pub task_id: Seq<char>,
    pub step: nat,
    pub status: PlanStatus,
    pub start_condition: StartCondition,
    pub task_summary: Seq<char>,
    pub step_task: Seq<char>,
    pub step_turn: nat,
    pub step_memory: Seq<char>,
    pub step_tool: Seq<char>,
    pub step_context: Seq<char>,
    pub step_agent_name: Seq<char>,
    pub step_deliverable_description: Seq<char>,
    pub step_deliverable_path: Seq<char>,
}

impl View for TaskStep {
    type V = TaskStepData;

    open spec fn view(&self) -> TaskStepData {
        TaskStepData {
            task_id: self.task_id@,
            step: self.step as nat,
            status: self.status,
            start_condition: self.start_condition,
            task_summary: self.task_summary@,
            step_task: self.step_task@,
            step_turn: self.step_turn as nat,
            step_memory: self.step_memory@,
            step_tool: self.step_tool@,
            step_context: self.step_context@,
            step_agent_name: self.step_agent_name@,
            step_deliverable_description: self.step_deliverable_description@,
            step_deliverable_path: self.step_deliverable_path@,
        }
    }
}

/// A member's text, or nothing.
pub open spec fn text_or_empty(d: Option<JsonData>) -> Seq<char> {
    match as_text(d) {
        Some(t) => t,
        None => Seq::empty(),
    }
}

/// A whole count written with decimal digits alone that fits `u64`
/// (`Value::as_u64`).
pub open spec fn count_of(d: Option<JsonData>) -> Option<nat> {
    match d {
        Some(JsonData::Number(t)) => if t.len() > 0 && all_digits(t) && digits_value(t) <= u64::MAX {
            Some(digits_value(t))
        } else {
            None
        },
        _ => None,
    }
}

/// What a planning step asks to be done: its instruction or deliverable.
pub open spec fn step_instruction(v: JsonData) -> Seq<char> {
    text_or_empty(either(member(v, "task_instruction"@), member(v, "deliverable"@)))
}

/// A planning step's goal or summary.
pub open spec fn step_goal(v: JsonData) -> Seq<char> {
    text_or_empty(either(member(v, "step_goal"@), member(v, "task_summary"@)))
}

/// A planned task's summary: its goal, else its instruction, else `Step n`
/// for its position.
pub open spec fn step_summary(v: JsonData, index: nat) -> Seq<char> {
    if trim_ws(step_goal(v)).len() > 0 {
        step_goal(v)
    } else if trim_ws(step_instruction(v)).len() > 0 {
        step_instruction(v)
    } else {
        "Step "@ + decimal(index + 1)
    }
}

/// A planned task's status from the step's `ok`: done when it succeeded,
/// archived when it failed, to do otherwise.
pub open spec fn step_status(v: JsonData) -> PlanStatus {
    match as_flag(member(v, "ok"@)) {
        Some(true) => PlanStatus::Done,
        Some(false) => PlanStatus::Archived,
        None => PlanStatus::Todo,
    }
}

/// The first agent a step names.
pub open spec fn step_agent(v: JsonData) -> Seq<char> {
    match as_items(member(v, "child_agent_names"@)) {
        Some(items) => if items.len() > 0 {
            match items[0] {
                JsonData::Str(name) => name,
                _ => Seq::empty(),
            }
        } else {
            Seq::empty()
        },
        None => Seq::empty(),
    }
}

/// The task step that the `index`th planning step `v` becomes under the id
/// `task_id`.
pub open spec fn planned_step(v: JsonData, index: nat, task_id: Seq<char>) -> TaskStepData {
    TaskStepData {
        task_id: task_id,
        step: match count_of(member(v, "step"@)) {
            Some(n) => n,
            None => index + 1,
        },
        status: step_status(v),
        start_condition: StartCondition::UserAction,
        task_summary: step_summary(v, index),
        step_task: step_instruction(v),
        step_turn: match count_of(member(v, "child_session_turns"@)) {
            Some(n) => n,
            None => 0,
        },
        step_memory: Seq::empty(),
        step_tool: text_or_empty(member(v, "tool_needed"@)),
        step_context: json_text(v),
        step_agent_name: step_agent(v),
        step_deliverable_description: text_or_empty(member(v, "deliverable"@)),
        step_deliverable_path: Seq::empty(),
    }
}

fn count_member(value: &JsonValue, key: &str) -> (r: Option<u64>)
    ensures
        match r {
            Some(n) => count_of(member(json_data(*value), key@)) == Some(n as nat),
            None => count_of(member(json_data(*value), key@)) is None,
        },
{
    match json_get(value, key) {
        Some(JsonValue::Number(t)) => {
            let cs = chars_of(t.as_str());
            if cs.len() == 0 || cs[0] == '+' {
                return None;
            }
            parse_u64(t.as_str())
        },
        _ => None,
    }
}

fn text_member_or_empty(value: &JsonValue, key: &str) -> (r: String)
    ensures
        r@ == text_or_empty(member(json_data(*value), key@)),
{
    match json_member_str(value, key) {
        Some(t) => t.to_string(),
        None => String::new(),
    }
}

fn either_text(value: &JsonValue, first: &str, second: &str) -> (r: String)
    ensures
        r@ == text_or_empty(either(member(json_data(*value), first@), member(json_data(*value), second@))),
{
    let found = match json_get(value, first) {
        Some(v) => Some(v),
        None => json_get(value, second),
    };
    match found {
        Some(v) => match json_as_str(v) {
            Some(t) => t.to_string(),
            None => String::new(),
        },
        None => String::new(),
    }
}

/// The `index`th planning step as a task step with the id `task_id`; none
/// when the step is no object.
pub fn planned_task_step(index: usize, value: &JsonValue, task_id: String) -> (r: Option<TaskStep>)
    requires
        index < usize::MAX,
    ensures
        match r {
            Some(t) => value is Object && t@ == planned_step(json_data(*value), index as nat, task_id@),
            None => !(value is Object),
        },
{
    match value {
        JsonValue::Object(_) => {},
        _ => return None,
    }
    let ghost v = json_data(*value);
    let task_instruction = either_text(value, "task_instruction", "deliverable");
    let step_goal_text = either_text(value, "step_goal", "task_summary");
    let task_summary = if trim(&chars_of(step_goal_text.as_str())).len() > 0 {
        step_goal_text
    } else if trim(&chars_of(task_instruction.as_str())).len() > 0 {
        task_instruction.clone()
    } else {
        let mut out: Vec<char> = Vec::new();
        push_str(&mut out, "Step ");
        push_decimal(&mut out, (index + 1) as u64);
        assert(out@ =~= "Step "@ + decimal(index as nat + 1));
        string_of(&out)
    };
    let ok = match json_get(value, "ok") {
        Some(f) => json_as_bool(f),
        None => None,
    };
    let status = match ok {
        Some(true) => PlanStatus::Done,
        Some(false) => PlanStatus::Archived,
        None => PlanStatus::Todo,
    };
    let step = match count_member(value, "step") {
        Some(n) => n,
        None => (index + 1) as u64,
    };
    let step_turn = match count_member(value, "child_session_turns") {
        Some(n) => n,
        None => 0,
    };
    let agent = match json_get(value, "child_agent_names") {
        Some(JsonValue::Array(items)) => {
            proof {
                lemma_array_data(items@);
            }
            if items.len() > 0 {
                match &items[0] {
                    JsonValue::Str(name) => name.clone(),
                    _ => String::new(),
                }
            } else {
                String::new()
            }
        },
        _ => String::new(),
    };
    let t = TaskStep {
        task_id,
        step,
        status,
        start_condition: StartCondition::UserAction,
        task_summary,
        step_task: task_instruction,
        step_turn,
        step_memory: String::new(),
        step_tool: text_member_or_empty(value, "tool_needed"),
        step_context: json_to_string(value),
        step_agent_name: agent,
        step_deliverable_description: text_member_or_empty(value, "deliverable"),
        step_deliverable_path: String::new(),
    };
    proof {
        assert(t@.step_memory =~= Seq::<char>::empty());
        assert(t@.step_deliverable_path =~= Seq::<char>::empty());
    }
    Some(t)
}

/// A lowercase hexadecimal digit.
pub open spec fn lower_hex_char(c: char) -> bool {
    ('0' <= c && c <= '9') || ('a' <= c && c <= 'f')
}

/// A task id: eight lowercase hexadecimal digits.
pub open spec fn is_task_id(id: Seq<char>) -> bool {
    id.len() == 8 && forall|i: int| 0 <= i < id.len() ==> #[trigger] lower_hex_char(id[i])
}

/// A random version 4 UUID in its simple form (`Uuid::new_v4().simple()`):
/// whatever is drawn, 32 lowercase hexadecimal digits. uuid panics when the
/// operating system's random source fails; that is a fault of the machine,
/// which no precondition of the caller can rule out.
#[verifier::external_body]
fn random_uuid_simple() -> (s: String)
    ensures
        s@.len() == 32,
        forall|i: int| 0 <= i < s@.len() ==> #[trigger] lower_hex_char(s@[i]),
{
    uuid::Uuid::new_v4().simple().to_string()
}

/// A fresh task id: the first eight digits of a random UUID.
pub fn random_task_id() -> (id: String)
    ensures
        is_task_id(id@),
{
    let full = chars_of(random_uuid_simple().as_str());
    let head = crate::chars::slice_vec(&full, 0, 8);
    string_of(&head)
}

/// The `index`th planning step as a task step with a fresh id; none when
/// the step is no object.
pub fn task_step_from_planning_step(index: usize, value: &JsonValue) -> (r: Option<TaskStep>)
    requires
        index < usize::MAX,
    ensures
        match r {
            Some(t) => value is Object && is_task_id(t@.task_id) && t@ == planned_step(
                json_data(*value),
                index as nat,
                t@.task_id,
            ),
            None => !(value is Object),
        },
{
    planned_task_step(index, value, random_task_id())
}

/// A command event marked with the task it ran for, unless it already
/// names one; values other than objects are left as they are.
pub open spec fn attributed_event(e: JsonData, a: JsonData) -> JsonData {
    match e {
        JsonData::Object(ms) => JsonData::Object(or_insert(ms, "task_attribution"@, a)),
        _ => e,
    }
}

/// A streamed command_run result marked with the task it ran for, and so
/// each of its command events that names none.
pub open spec fn attributed_result(v: JsonData, a: Option<JsonData>) -> JsonData {
    match (v, a) {
        (JsonData::Object(ms), Some(att)) => {
            let ms1 = set_member(ms, "task_attribution"@, att);
            match member_in(ms1, "command_events"@) {
                Some(JsonData::Array(evs)) => JsonData::Object(
                    set_member(
                        ms1,
                        "command_events"@,
                        JsonData::Array(evs.map_values(|e: JsonData| attributed_event(e, att))),
                    ),
                ),
                _ => JsonData::Object(ms1),
            }
        },
        _ => v,
    }
}

pub fn apply_task_attribution_to_streamed_result(attribution: Option<&JsonValue>, streamed_result: JsonValue) -> (r: JsonValue)
    ensures
        json_data(r) == attributed_result(json_data(streamed_result), opt_ref(attribution)),
{
    let att = match attribution {
        Some(a) => a,
        None => return streamed_result,
    };
    let members = match streamed_result {
        JsonValue::Object(ms) => ms,
        other => return other,
    };
    let ms1 = set_member_exec(members, "task_attribution", copy_json(att));
    let events: Vec<JsonValue> = match find_member(&ms1, "command_events") {
        Some(JsonValue::Array(evs)) => {
            proof {
                lemma_array_data(evs@);
            }
            let ghost ed = array_data(evs@);
            let mut out: Vec<JsonValue> = Vec::new();
            let mut i: usize = 0;
            while i < evs.len()
                invariant
                    i <= evs.len(),
                    ed == array_data(evs@),
                    ed.len() == evs.len(),
                    forall|j: int| 0 <= j < evs.len() ==> #[trigger] ed[j] == json_data(evs@[j]),
                    out.len() == i,
                    forall|j: int| 0 <= j < i ==> #[trigger] json_data(out@[j]) == attributed_event(ed[j], json_data(*att)),
                decreases evs.len() - i,
            {
                let e = match &evs[i] {
                    JsonValue::Object(em) => JsonValue::Object(
                        or_insert_member(copy_members(em), "task_attribution", copy_json(att)),
                    ),
                    other => copy_json(other),
                };
                out.push(e);
                i = i + 1;
            }
            proof {
                lemma_array_data(out@);
                assert(array_data(out@) =~= ed.map_values(|e: JsonData| attributed_event(e, json_data(*att))));
            }
            out
        },
        _ => return JsonValue::Object(ms1),
    };
    JsonValue::Object(set_member_exec(ms1, "command_events", JsonValue::Array(events)))
}

/// A streamed command event as the log keeps it: an object (a bare value
/// wrapped as its `value`), typed as a streamed command event, with the
/// runtime, the session, its position and the time added where missing.
pub open spec fn logged_event(
    e: JsonData,
    runtime_id: Seq<char>,
    session_id: Seq<char>,
    index: nat,
    timestamp: Seq<char>,
) -> JsonData {
    let ms = match e {
        JsonData::Object(ms) => ms,
        _ => seq![("value"@, e)],
    };
    let typed = set_member(ms, "type"@, JsonData::Str("streamed_command_event"@));
    let with_runtime = or_insert(typed, "runtime_id"@, JsonData::Str(runtime_id));
    let with_session = or_insert(with_runtime, "session_id"@, JsonData::Str(session_id));
    let with_index = or_insert(with_session, "event_index"@, JsonData::Number(decimal(index)));
    JsonData::Object(or_insert(with_index, "timestamp"@, JsonData::Str(timestamp)))
}

/// The log after a streamed run's command events are recorded at the
/// moment whose RFC 3339 text is `timestamp`.
pub open spec fn logged_events(
    log: Seq<Seq<char>>,
    events: Seq<JsonData>,
    runtime_id: Seq<char>,
    session_id: Seq<char>,
    timestamp: Seq<char>,
) -> Seq<Seq<char>> {
    log + Seq::new(events.len(), |i: int| json_text(logged_event(events[i], runtime_id, session_id, i as nat, timestamp)))
}

fn logged_event_value(
    event: &JsonValue,
    runtime_id: &str,
    session_id: &str,
    index: usize,
    timestamp: &str,
) -> (r: JsonValue)
    ensures
        json_data(r) == logged_event(json_data(*event), runtime_id@, session_id@, index as nat, timestamp@),
{
    let members: Vec<(String, JsonValue)> = match event {
        JsonValue::Object(ms) => copy_members(ms),
        other => {
            let mut ms: Vec<(String, JsonValue)> = Vec::new();
            ms.push(("value".to_string(), copy_json(other)));
            proof {
                crate::json::lemma_object_data(ms@);
                assert(crate::json::object_data(ms@) =~= seq![("value"@, json_data(*event))]);
            }
            ms
        },
    };
    let typed = set_member_exec(members, "type", JsonValue::Str("streamed_command_event".to_string()));
    let with_runtime = or_insert_member(typed, "runtime_id", JsonValue::Str(runtime_id.to_string()));
    let with_session = or_insert_member(with_runtime, "session_id", JsonValue::Str(session_id.to_string()));
    let mut digits: Vec<char> = Vec::new();
    push_decimal(&mut digits, index as u64);
    let with_index = or_insert_member(with_session, "event_index", JsonValue::Number(string_of(&digits)));
    JsonValue::Object(or_insert_member(with_index, "timestamp", JsonValue::Str(timestamp.to_string())))
}

/// Records a streamed run's command events in the session log, each as
/// one line stamped with the time the recording started (read once from
/// the clock).
pub fn record_streamed_command_events(
    session_log: &mut Vec<String>,
    runtime_id: &str,
    session_id: &str,
    streamed_result: &JsonValue,
)
    ensures
        match as_items(member(json_data(*streamed_result), "command_events"@)) {
            Some(events) => exists|timestamp: Seq<char>|
                string_views(final(session_log)@) == #[trigger] logged_events(
                    string_views(old(session_log)@),
                    events,
                    runtime_id@,
                    session_id@,
                    timestamp,
                ),
            None => final(session_log)@ == old(session_log)@,
        },
{
    let events = match json_get(streamed_result, "command_events") {
        Some(JsonValue::Array(evs)) => evs,
        _ => {
            assert(as_items(member(json_data(*streamed_result), "command_events"@)) is None);
            return;
        },
    };
    proof {
        lemma_array_data(events@);
    }
    let ghost ed = array_data(events@);
    let ghost log0 = string_views(session_log@);
    assert(as_items(member(json_data(*streamed_result), "command_events"@)) == Some(ed));
    let now = now_moment();
    let mut i: usize = 0;
    while i < events.len()
        invariant
            i <= events.len(),
            ed == array_data(events@),
            ed.len() == events.len(),
            forall|j: int| 0 <= j < events.len() ==> #[trigger] ed[j] == json_data(events@[j]),
            string_views(session_log@) == logged_events(log0, ed.take(i as int), runtime_id@, session_id@, now.timestamp@),
        decreases events.len() - i,
    {
        let line = json_to_string(&logged_event_value(&events[i], runtime_id, session_id, i, now.timestamp.as_str()));
        let ghost before = string_views(session_log@);
        session_log.push(line);
        proof {
            assert(string_views(session_log@) =~= before.push(line@));
            assert(logged_events(log0, ed.take(i + 1), runtime_id@, session_id@, now.timestamp@) =~= logged_events(
                log0,
                ed.take(i as int),
                runtime_id@,
                session_id@,
                now.timestamp@,
            ).push(line@));
        }
        i = i + 1;
    }
    assert(ed.take(i as int) =~= ed);
    assert(string_views(session_log@) == logged_events(log0, ed, runtime_id@, session_id@, now.timestamp@));
    proof {
        let evs = as_items(member(json_data(*streamed_result), "command_events"@)).unwrap();
        assert(evs == ed);
        assert(string_views(session_log@) == logged_events(log0, evs, runtime_id@, session_id@, now.timestamp@));
    }
}

/// What running a tool gave: the tool, the arguments it ran with, its
/// result, whether it succeeded and its error.
pub struct ToolExecutionResult {
    pub tool_name: String,
    pub arguments: JsonValue,
    pub result: JsonValue,
    pub success: bool,
    pub error: Option<String>,
}

/// Whether a text reports that the workspace sandbox stopped a command.
pub open spec fn sandbox_hit_text(t: Seq<char>) -> bool {
    crate::chars::contains(t, "command denied by sandbox policy"@) || crate::chars::contains(t, "path outside workspace"@)
}

/// The text a tool outcome is searched in: the error (or nothing), a
/// space and the result as JSON; or the failure's text.
pub open spec fn outcome_text(result: Result<ToolExecutionResult, String>) -> Seq<char> {
    match result {
        Ok(r) => error_text_or_empty(r.error) + " "@ + json_text(json_data(r.result)),
        Err(e) => e@,
    }
}

/// The text of an error, or nothing.
pub open spec fn error_text_or_empty(e: Option<String>) -> Seq<char> {
    match e {
        Some(t) => t@,
        None => Seq::<char>::empty(),
    }
}

/// Whether a command_run was stopped by the workspace sandbox, so that the
/// user may be asked to let it run outside.
pub fn command_run_hit_workspace_sandbox(tool_name: &str, result: &Result<ToolExecutionResult, String>) -> (b: bool)
    ensures
        b == (tool_name@ == "command_run"@ && sandbox_hit_text(outcome_text(*result))),
{
    if !crate::chars::eq_str(&chars_of(tool_name), "command_run") {
        return false;
    }
    let mut text: Vec<char> = Vec::new();
    match result {
        Ok(r) => {
            match &r.error {
                Some(e) => push_str(&mut text, e.as_str()),
                None => {},
            }
            push_str(&mut text, " ");
            let shown = json_to_string(&r.result);
            push_str(&mut text, shown.as_str());
        },
        Err(e) => push_str(&mut text, e.as_str()),
    }
    proof {
        assert(text@ =~= outcome_text(*result));
    }
    crate::chars::contains_str(&text, "command denied by sandbox policy") || crate::chars::contains_str(
        &text,
        "path outside workspace",
    )
}

/// The members of the result a blocked command_run gives back.
pub open spec fn blocked_members(error: Seq<char>) -> Seq<(Seq<char>, JsonData)> {
    seq![("ok"@, JsonData::Bool(false)), ("blocked"@, JsonData::Bool(true)), ("error"@, JsonData::Str(error))]
}

/// The result of a command_run whose run outside the sandbox was not
/// granted: refused by the user (`None`), or the request failed with the
/// given error.
pub fn sandbox_blocked_result(tool_name: &str, arguments: &JsonValue, request_error: Option<&str>) -> (r: ToolExecutionResult)
    ensures
        r.tool_name@ == tool_name@,
        json_data(r.arguments) == json_data(*arguments),
        !r.success,
        r.error is Some,
        r.error.unwrap()@ == (match request_error {
            Some(e) => e@,
            None => "permission denied by user"@,
        }),
        json_data(r.result) == JsonData::Object(blocked_members(r.error.unwrap()@)),
{
    let message = match request_error {
        Some(e) => e.to_string(),
        None => "permission denied by user".to_string(),
    };
    let mut ms: Vec<(String, JsonValue)> = Vec::new();
    ms.push(("ok".to_string(), JsonValue::Bool(false)));
    ms.push(("blocked".to_string(), JsonValue::Bool(true)));
    ms.push(("error".to_string(), JsonValue::Str(message.clone())));
    proof {
        crate::json::lemma_object_data(ms@);
        assert(crate::json::object_data(ms@) =~= blocked_members(message@));
    }
    ToolExecutionResult {
        tool_name: tool_name.to_string(),
        arguments: copy_json(arguments),
        result: JsonValue::Object(ms),
        success: false,
        error: Some(message),
    }
}

/// The result recorded for a tool that could not be run: its own
/// arguments, a null result and the failure.
pub fn failed_tool_result(tool_name: &str, arguments: &JsonValue, error: String) -> (r: ToolExecutionResult)
    ensures
        r.tool_name@ == tool_name@,
        json_data(r.arguments) == json_data(*arguments),
        json_data(r.result) == JsonData::Null,
        !r.success,
        r.error == Some(error),
{
    ToolExecutionResult {
        tool_name: tool_name.to_string(),
        arguments: copy_json(arguments),
        result: JsonValue::Null,
        success: false,
        error: Some(error),
    }
}

/// The task views of a plan.
pub open spec fn step_views(ts: Seq<TaskStep>) -> Seq<TaskStepData> {
    ts.map_values(|t: TaskStep| t@)
}

/// Whether a task is one `done` (when `completing`) or `question` settles:
/// doing, to do, or (for `done`) a question.
pub open spec fn settleable(s: PlanStatus, completing: bool) -> bool {
    s == PlanStatus::Doing || s == PlanStatus::Todo || (completing && s == PlanStatus::Question)
}

pub open spec fn settled_status(completing: bool) -> PlanStatus {
    if completing {
        PlanStatus::Done
    } else {
        PlanStatus::Question
    }
}

/// A task with another status.
pub open spec fn with_status_data(t: TaskStepData, s: PlanStatus) -> TaskStepData {
    TaskStepData { status: s, ..t }
}

/// A task with another step number.
pub open spec fn with_step_data(t: TaskStepData, n: nat) -> TaskStepData {
    TaskStepData { step: n, ..t }
}

fn copy_task(t: &TaskStep) -> (r: TaskStep)
    ensures
        r@ == t@,
{
    TaskStep {
        task_id: t.task_id.clone(),
        step: t.step,
        status: t.status,
        start_condition: t.start_condition,
        task_summary: t.task_summary.clone(),
        step_task: t.step_task.clone(),
        step_turn: t.step_turn,
        step_memory: t.step_memory.clone(),
        step_tool: t.step_tool.clone(),
        step_context: t.step_context.clone(),
        step_agent_name: t.step_agent_name.clone(),
        step_deliverable_description: t.step_deliverable_description.clone(),
        step_deliverable_path: t.step_deliverable_path.clone(),
    }
}

/// Marks the first task that `done` (or `question`) settles; the index it
/// marked, if any.
pub fn settle_first_task(tasks: &mut Vec<TaskStep>, completing: bool) -> (r: Option<usize>)
    ensures
        match r {
            Some(k) => k < old(tasks)@.len() && settleable(old(tasks)@[k as int].status, completing) && (forall|j: int|
                0 <= j < k ==> !settleable(#[trigger] old(tasks)@[j].status, completing)) && step_views(final(tasks)@)
                == step_views(old(tasks)@).update(k as int, with_status_data(old(tasks)@[k as int]@, settled_status(completing))),
            None => (forall|j: int| 0 <= j < old(tasks)@.len() ==> !settleable(#[trigger] old(tasks)@[j].status, completing))
                && step_views(final(tasks)@) == step_views(old(tasks)@),
        },
{
    let mut i: usize = 0;
    while i < tasks.len()
        invariant
            i <= tasks.len(),
            tasks@ == old(tasks)@,
            forall|j: int| 0 <= j < i ==> !settleable(#[trigger] tasks@[j].status, completing),
        decreases tasks.len() - i,
    {
        let s = tasks[i].status;
        let hit = match s {
            PlanStatus::Doing | PlanStatus::Todo => true,
            PlanStatus::Question => completing,
            _ => false,
        };
        if hit {
            let mut t = copy_task(&tasks[i]);
            t.status = if completing {
                PlanStatus::Done
            } else {
                PlanStatus::Question
            };
            let ghost before = tasks@;
            tasks.set(i, t);
            proof {
                assert(step_views(tasks@) =~= step_views(before).update(i as int, with_status_data(before[i as int]@, settled_status(completing))));
            }
            return Some(i);
        }
        i = i + 1;
    }
    proof {
        assert(step_views(tasks@) =~= step_views(old(tasks)@));
    }
    None
}

/// The summary a task made up for an empty plan carries: the plan's
/// summary, or the user's goal when that is blank.
pub open spec fn single_task_summary(plan_summary: Seq<char>, user_goal: Seq<char>) -> Seq<char> {
    if trim_ws(plan_summary).len() == 0 {
        user_goal
    } else {
        plan_summary
    }
}

/// The task made up for an empty plan: step 1, doing, with the summary as
/// its summary and deliverable, everything else empty.
pub open spec fn single_task(id: Seq<char>, summary: Seq<char>) -> TaskStepData {
    TaskStepData {
        task_id: id,
        step: 1,
        status: PlanStatus::Doing,
        start_condition: StartCondition::UserAction,
        task_summary: summary,
        step_task: Seq::empty(),
        step_turn: 0,
        step_memory: Seq::empty(),
        step_tool: Seq::empty(),
        step_context: Seq::empty(),
        step_agent_name: Seq::empty(),
        step_deliverable_description: summary,
        step_deliverable_path: Seq::empty(),
    }
}

/// Gives an empty plan one task to work on; a plan with tasks stays as it
/// is.
pub fn ensure_single_task(tasks: &mut Vec<TaskStep>, plan_summary: &str, user_goal: &str)
    ensures
        old(tasks)@.len() > 0 ==> final(tasks)@ == old(tasks)@,
        old(tasks)@.len() == 0 ==> final(tasks)@.len() == 1 && is_task_id(final(tasks)@[0].task_id@) && final(tasks)@[0]@
            == single_task(final(tasks)@[0].task_id@, single_task_summary(plan_summary@, user_goal@)),
{
    if tasks.len() > 0 {
        return;
    }
    let summary = if trim(&chars_of(plan_summary)).len() == 0 {
        user_goal.to_string()
    } else {
        plan_summary.to_string()
    };
    let t = TaskStep {
        task_id: random_task_id(),
        step: 1,
        status: PlanStatus::Doing,
        start_condition: StartCondition::UserAction,
        task_summary: summary.clone(),
        step_task: String::new(),
        step_turn: 0,
        step_memory: String::new(),
        step_tool: String::new(),
        step_context: String::new(),
        step_agent_name: String::new(),
        step_deliverable_description: summary,
        step_deliverable_path: String::new(),
    };
    tasks.push(t);
}

/// What settling the active task does to a plan (`completing`: after a
/// `done`; else after a `question`): an empty plan gets its one task,
/// settled; otherwise the first open task is marked, and `b` says whether
/// there was one.
pub open spec fn task_settled(
    pre: Seq<TaskStep>,
    post: Seq<TaskStep>,
    completing: bool,
    plan_summary: Seq<char>,
    user_goal: Seq<char>,
    b: bool,
) -> bool {
    &&& pre.len() == 0 ==> b && post.len() == 1 && is_task_id(post[0].task_id@) && post[0]@ == with_status_data(
        single_task(post[0].task_id@, single_task_summary(plan_summary, user_goal)),
        settled_status(completing),
    )
    &&& pre.len() > 0 ==> (b <==> exists|k: int| 0 <= k < pre.len() && settleable(#[trigger] pre[k].status, completing))
    &&& pre.len() > 0 && b ==> exists|k: int|
        0 <= k < pre.len() && settleable(pre[k].status, completing) && (forall|j: int|
            0 <= j < k ==> !settleable(#[trigger] pre[j].status, completing)) && #[trigger] step_views(post)
            == step_views(pre).update(k, with_status_data(pre[k]@, settled_status(completing)))
    &&& pre.len() > 0 && !b ==> step_views(post) == step_views(pre)
}

/// Settles the active task after a task_status `done` (when `completing`)
/// or `question`: an empty plan first gets a task, then the first task
/// still open is marked. Whether a task was marked.
pub fn settle_active_task(tasks: &mut Vec<TaskStep>, completing: bool, plan_summary: &str, user_goal: &str) -> (b: bool)
    ensures
        task_settled(old(tasks)@, final(tasks)@, completing, plan_summary@, user_goal@, b),
{
    ensure_single_task(tasks, plan_summary, user_goal);
    let ghost mid = tasks@;
    let r = settle_first_task(tasks, completing);
    proof {
        if old(tasks)@.len() == 0 {
            assert(mid.len() == 1);
            assert(settleable(mid[0].status, completing));
            assert(r == Some(0usize));
            assert(step_views(tasks@).len() == tasks@.len());
            assert(tasks@.len() == 1);
            assert(step_views(tasks@)[0] == tasks@[0]@);
            assert(step_views(mid)[0] == mid[0]@);
        }
    }
    match r {
        Some(k) => {
            assert(settleable(old(tasks)@[k as int].status, completing) || old(tasks)@.len() == 0);
            true
        },
        None => false,
    }
}

/// Numbers the tasks 1, 2, … in their order.
pub fn renumber_task_steps(tasks: &mut Vec<TaskStep>)
    ensures
        final(tasks)@.len() == old(tasks)@.len(),
        forall|i: int| 0 <= i < old(tasks)@.len() ==> #[trigger] final(tasks)@[i]@ == with_step_data(old(tasks)@[i]@, (i + 1) as nat),
{
    let mut i: usize = 0;
    while i < tasks.len()
        invariant
            i <= tasks.len(),
            tasks@.len() == old(tasks)@.len(),
            forall|j: int| 0 <= j < i ==> #[trigger] tasks@[j]@ == with_step_data(old(tasks)@[j]@, (j + 1) as nat),
            forall|j: int| i <= j < tasks@.len() ==> #[trigger] tasks@[j] == old(tasks)@[j],
        decreases tasks.len() - i,
    {
        let mut t = copy_task(&tasks[i]);
        t.step = (i + 1) as u64;
        tasks.set(i, t);
        i = i + 1;
    }
}

/// A task_status command's request: the summary it names (trimmed, when
/// not blank) and the status it sets.
pub struct StatusUpdate {
    pub summary: Option<String>,
    pub status: Option<String>,
}

/// The command a result item is for: its `command_type`, else its
/// `command`.
pub open spec fn item_command(item: JsonData) -> Option<JsonData> {
    match member(item, "command_type"@) {
        Some(c) => Some(c),
        None => member(item, "command"@),
    }
}

/// An object value, or nothing.
pub open spec fn object_only(d: Option<JsonData>) -> Option<JsonData> {
    match d {
        Some(JsonData::Object(ms)) => Some(JsonData::Object(ms)),
        _ => None,
    }
}

/// The status object of a successful task_status result item: the
/// output's `task_status` member when it has one, else its `status`; only
/// an object counts.
pub open spec fn status_object(item: JsonData) -> Option<JsonData> {
    if as_flag(member(item, "success"@)) == Some(true) && as_text(item_command(item)) == Some("task_status"@) {
        match member(item, "output"@) {
            Some(o) => if member(o, "task_status"@) is Some {
                object_only(member(o, "task_status"@))
            } else {
                object_only(member(o, "status"@))
            },
            None => None,
        }
    } else {
        None
    }
}

/// The summary a status object asks for: its `task_summary`, trimmed,
/// when not blank.
pub open spec fn requested_summary(status: JsonData) -> Option<Seq<char>> {
    match member_text(status, "task_summary"@) {
        Some(t) => if trim_ws(t).len() > 0 {
            Some(trim_ws(t))
        } else {
            None
        },
        None => None,
    }
}

fn object_member<'a>(v: &'a JsonValue, key: &str) -> (r: Option<&'a JsonValue>)
    ensures
        crate::json::opt_ref_data(r) == object_only(member(json_data(*v), key@)),
{
    match json_get(v, key) {
        Some(m) => match m {
            JsonValue::Object(_) => Some(m),
            _ => None,
        },
        None => None,
    }
}

/// What a command_run result item asks of the task plan, when it is a
/// successful task_status command with a status object.
pub fn task_status_update(item: &JsonValue) -> (r: Option<StatusUpdate>)
    ensures
        match r {
            Some(u) => status_object(json_data(*item)) is Some && opt_string_view(u.summary) == requested_summary(
                status_object(json_data(*item)).unwrap(),
            ) && opt_string_view(u.status) == member_text(status_object(json_data(*item)).unwrap(), "status"@),
            None => status_object(json_data(*item)) is None,
        },
{
    let succeeded = match json_get(item, "success") {
        Some(v) => match json_as_bool(v) {
            Some(b) => b,
            None => false,
        },
        None => false,
    };
    if !succeeded {
        return None;
    }
    let command = match json_get(item, "command_type") {
        Some(c) => Some(c),
        None => json_get(item, "command"),
    };
    let is_status = match command {
        Some(c) => match json_as_str(c) {
            Some(t) => crate::chars::eq_str(&chars_of(t), "task_status"),
            None => false,
        },
        None => false,
    };
    if !is_status {
        return None;
    }
    let output = match json_get(item, "output") {
        Some(o) => o,
        None => return None,
    };
    let status = match json_get(output, "task_status") {
        Some(_) => object_member(output, "task_status"),
        None => object_member(output, "status"),
    };
    let status = match status {
        Some(st) => st,
        None => return None,
    };
    let summary = match json_member_str(status, "task_summary") {
        Some(t) => {
            let tt = trim(&chars_of(t));
            if tt.len() > 0 {
                Some(string_of(&tt))
            } else {
                None
            }
        },
        None => None,
    };
    let set_status = match json_member_str(status, "status") {
        Some(t) => Some(t.to_string()),
        None => None,
    };
    Some(StatusUpdate { summary, status: set_status })
}

/// The parts of a session that task updates change.
pub struct TaskPlanState {
    pub session_name: String,
    pub auto_session_name: bool,
    pub plan_summary: String,
    pub user_goal: String,
    pub tasks: Vec<TaskStep>,
}

/// The warning added to a status result whose rename was not applied.
pub fn task_summary_rename_warning() -> (r: &'static str)
    ensures
        r@ == "task_summary rename ignored because the task already has a name; no other task-management parameter needs updating for this rename"@,
{
    "task_summary rename ignored because the task already has a name; no other task-management parameter needs updating for this rename"
}

/// What a requested task summary does to the session (see
/// `apply_task_summary`); `r`: whether anything changed, and whether the
/// rename was ignored.
pub open spec fn summary_applied(pre: TaskPlanState, post: TaskPlanState, summary: Seq<char>, r: (bool, bool)) -> bool {
    &&& post.user_goal == pre.user_goal
    &&& post.auto_session_name == pre.auto_session_name
    &&& post.session_name@ == (if pre.auto_session_name && trim_ws(pre.session_name@) != trim_ws(summary) {
        summary
    } else {
        pre.session_name@
    })
    &&& trim_ws(pre.plan_summary@).len() == 0 ==> {
        &&& r == (true, false)
        &&& post.plan_summary@ == summary
        &&& post.tasks@.len() == if pre.tasks@.len() == 0 { 1 } else { pre.tasks@.len() }
        &&& pre.tasks@.len() == 0 ==> is_task_id(post.tasks@[0].task_id@) && post.tasks@[0]@ == TaskStepData {
            task_summary: summary,
            ..single_task(post.tasks@[0].task_id@, single_task_summary(summary, pre.user_goal@))
        }
        &&& pre.tasks@.len() > 0 ==> post.tasks@[0]@ == (TaskStepData { task_summary: summary, ..pre.tasks@[0]@ })
            && forall|i: int| 0 < i < pre.tasks@.len() ==> #[trigger] post.tasks@[i] == pre.tasks@[i]
    }
    &&& trim_ws(pre.plan_summary@).len() > 0 ==> {
        &&& r == (pre.auto_session_name && trim_ws(pre.session_name@) != trim_ws(summary), trim_ws(pre.plan_summary@) != trim_ws(
            summary,
        ))
        &&& post.plan_summary == pre.plan_summary
        &&& post.tasks@ == pre.tasks@
    }
}

/// Applies a requested task summary: an automatically named session takes
/// it as its name; a plan without a summary takes it as its summary and as
/// its first task's summary (a plan without tasks gets one first). Whether
/// anything changed, and whether the rename was ignored because the plan
/// already has another summary.
pub fn apply_task_summary(state: &mut TaskPlanState, summary: &str) -> (r: (bool, bool))
    ensures
        summary_applied(*old(state), *final(state), summary@, r),
{
    let mut changed = false;
    let wanted = trim(&chars_of(summary));
    if state.auto_session_name && !crate::context::text_truncate::same_chars(&trim(&chars_of(state.session_name.as_str())), &wanted) {
        state.session_name = summary.to_string();
        changed = true;
    }
    let plan = trim(&chars_of(state.plan_summary.as_str()));
    if plan.len() == 0 {
        state.plan_summary = summary.to_string();
        let mut tasks: Vec<TaskStep> = Vec::new();
        std::mem::swap(&mut tasks, &mut state.tasks);
        ensure_single_task(&mut tasks, summary, state.user_goal.as_str());
        let mut first = copy_task(&tasks[0]);
        first.task_summary = summary.to_string();
        tasks.set(0, first);
        state.tasks = tasks;
        return (true, false);
    }
    let differs = !crate::context::text_truncate::same_chars(&plan, &wanted);
    (changed, differs)
}

/// A task being worked on or waiting on a question.
pub open spec fn is_active_task() -> spec_fn(TaskStepData) -> bool {
    |t: TaskStepData| t.status == PlanStatus::Doing || t.status == PlanStatus::Question
}

/// A task still to do.
pub open spec fn is_todo_task() -> spec_fn(TaskStepData) -> bool {
    |t: TaskStepData| t.status == PlanStatus::Todo
}

/// The task a new plan takes the place of: the first active task, else
/// the first task still to do.
pub open spec fn plan_replace_index(ts: Seq<TaskStepData>) -> Option<nat> {
    match first_index(ts, is_active_task()) {
        Some(k) => Some(k),
        None => first_index(ts, is_todo_task()),
    }
}

/// The plan with the new tasks in place of the replaced one, or after the
/// others when none is replaced.
pub open spec fn spliced_plan(ts: Seq<TaskStepData>, incoming: Seq<TaskStepData>) -> Seq<TaskStepData> {
    match plan_replace_index(ts) {
        Some(k) => ts.take(k as int) + incoming + ts.skip(k + 1 as int),
        None => ts + incoming,
    }
}

/// The tasks numbered 1, 2, … in their order.
pub open spec fn numbered(ts: Seq<TaskStepData>) -> Seq<TaskStepData> {
    Seq::new(ts.len(), |i: int| with_step_data(ts[i], (i + 1) as nat))
}

fn first_task_where(tasks: &Vec<TaskStep>, active: bool) -> (r: Option<usize>)
    ensures
        opt_nat(r) == first_index(step_views(tasks@), if active {
            is_active_task()
        } else {
            is_todo_task()
        }),
{
    let ghost v = step_views(tasks@);
    let ghost p = if active {
        is_active_task()
    } else {
        is_todo_task()
    };
    let mut i: usize = 0;
    while i < tasks.len()
        invariant
            i <= tasks.len(),
            v == step_views(tasks@),
            v.len() == tasks@.len(),
            p == (if active {
                is_active_task()
            } else {
                is_todo_task()
            }),
            forall|j: int| 0 <= j < i ==> !p(#[trigger] v[j]),
        decreases tasks.len() - i,
    {
        assert(v[i as int] == tasks@[i as int]@);
        let hit = match tasks[i].status {
            PlanStatus::Doing | PlanStatus::Question => active,
            PlanStatus::Todo => !active,
            _ => false,
        };
        if hit {
            proof {
                lemma_first_index(v, p, i as int);
            }
            return Some(i);
        }
        i = i + 1;
    }
    proof {
        lemma_first_index(v, p, i as int);
    }
    None
}

pub open spec fn opt_nat(o: Option<usize>) -> Option<nat> {
    match o {
        Some(k) => Some(k as nat),
        None => None,
    }
}

/// Puts the tasks of a new plan in place of the active task (or the first
/// task to do), or after the others when there is neither, and numbers
/// the plan anew; a plan without tasks changes nothing.
pub fn replace_active_task_with_planning(tasks: &mut Vec<TaskStep>, incoming: Vec<TaskStep>)
    ensures
        incoming@.len() == 0 ==> final(tasks)@ == old(tasks)@,
        incoming@.len() > 0 ==> step_views(final(tasks)@) == numbered(spliced_plan(step_views(old(tasks)@), step_views(incoming@))),
{
    if incoming.len() == 0 {
        return;
    }
    let ghost v = step_views(tasks@);
    let ghost inc = step_views(incoming@);
    let index = match first_task_where(tasks, true) {
        Some(k) => Some(k),
        None => first_task_where(tasks, false),
    };
    assert(opt_nat(index) == plan_replace_index(v));
    let mut out: Vec<TaskStep> = Vec::new();
    let stop = match index {
        Some(k) => k,
        None => tasks.len(),
    };
    proof {
        if let Some(k) = index {
            lemma_first_index_some(v, if first_index(v, is_active_task()) is Some { is_active_task() } else { is_todo_task() });
        }
    }
    assert(stop <= tasks.len());
    let mut i: usize = 0;
    while i < stop
        invariant
            i <= stop <= tasks.len(),
            v == step_views(tasks@),
            v.len() == tasks@.len(),
            step_views(out@) == v.take(i as int),
        decreases stop - i,
    {
        let ghost before = out@;
        out.push(copy_task(&tasks[i]));
        proof {
            assert(v[i as int] == tasks@[i as int]@);
            assert(step_views(out@) =~= step_views(before).push(v[i as int]));
            assert(v.take(i + 1) =~= v.take(i as int).push(v[i as int]));
        }
        i = i + 1;
    }
    let ghost head = out@;
    let mut rest = incoming;
    out.append(&mut rest);
    proof {
        assert(out@ =~= head + incoming@);
        assert(step_views(out@) =~= step_views(head) + inc);
    }
    let mut j: usize = match index {
        Some(k) => k + 1,
        None => tasks.len(),
    };
    let ghost mid = step_views(out@);
    let ghost from = j as int;
    while j < tasks.len()
        invariant
            0 <= from <= j <= tasks.len(),
            v == step_views(tasks@),
            v.len() == tasks@.len(),
            step_views(out@) == mid + v.subrange(from, j as int),
        decreases tasks.len() - j,
    {
        let ghost before = out@;
        out.push(copy_task(&tasks[j]));
        proof {
            assert(v[j as int] == tasks@[j as int]@);
            assert(step_views(out@) =~= step_views(before).push(v[j as int]));
            assert(v.subrange(from, j + 1) =~= v.subrange(from, j as int).push(v[j as int]));
        }
        j = j + 1;
    }
    proof {
        match index {
            Some(k) => {
                assert(v.subrange(from, v.len() as int) =~= v.skip(k + 1 as int));
            },
            None => {
                assert(v.subrange(from, v.len() as int) =~= Seq::<TaskStepData>::empty());
                assert(v.take(v.len() as int) =~= v);
            },
        }
        assert(step_views(out@) =~= spliced_plan(v, inc));
    }
    let ghost spliced = step_views(out@);
    renumber_task_steps(&mut out);
    proof {
        assert(step_views(out@) =~= numbered(spliced));
    }
    *tasks = out;
}

/// The plan a tool result carries: a planning tool's own result when it
/// has steps, else the output of a planning command inside a command_run
/// result.
pub open spec fn result_plan(tool_name: Seq<char>, result: JsonData) -> Option<JsonData> {
    if tool_name == "planning"@ && member(result, "steps"@) is Some {
        Some(result)
    } else {
        planning_output(result)
    }
}

pub fn plan_of_tool_result(tool_name: &str, result: &JsonValue) -> (r: Option<JsonValue>)
    ensures
        opt_json_data(r) == result_plan(tool_name@, json_data(*result)),
{
    if crate::chars::eq_str(&chars_of(tool_name), "planning") && json_get(result, "steps").is_some() {
        Some(copy_json(result))
    } else {
        planning_output_from_tool_result(result)
    }
}

/// The plan summary after a plan arrives: the plan's user task when it is
/// not blank, else the summary as it was, or the user's goal when that is
/// blank too.
pub open spec fn summary_after_plan(plan: JsonData, plan_summary: Seq<char>, user_goal: Seq<char>) -> Seq<char> {
    match member_text(plan, "user_task"@) {
        Some(t) if trim_ws(t).len() > 0 => t,
        _ => if trim_ws(plan_summary).len() == 0 {
            user_goal
        } else {
            plan_summary
        },
    }
}

pub fn plan_summary_after_planning(plan: &JsonValue, plan_summary: &str, user_goal: &str) -> (r: String)
    ensures
        r@ == summary_after_plan(json_data(*plan), plan_summary@, user_goal@),
{
    match json_member_str(plan, "user_task") {
        Some(t) => {
            if trim(&chars_of(t)).len() > 0 {
                return t.to_string();
            }
        },
        None => {},
    }
    if trim(&chars_of(plan_summary)).len() == 0 {
        user_goal.to_string()
    } else {
        plan_summary.to_string()
    }
}

/// The name an automatically named session takes from its plan: the last
/// task summary that is not blank, trimmed.
pub open spec fn last_task_summary_of(ts: Seq<TaskStepData>) -> Option<Seq<char>>
    decreases ts.len(),
{
    if ts.len() == 0 {
        None
    } else if trim_ws(ts.last().task_summary).len() > 0 {
        Some(trim_ws(ts.last().task_summary))
    } else {
        last_task_summary_of(ts.drop_last())
    }
}

pub fn last_task_summary(tasks: &Vec<TaskStep>) -> (r: Option<String>)
    ensures
        opt_string_view(r) == last_task_summary_of(step_views(tasks@)),
{
    let ghost v = step_views(tasks@);
    let mut i: usize = tasks.len();
    assert(v.take(v.len() as int) =~= v);
    while i > 0
        invariant
            i <= tasks.len(),
            v == step_views(tasks@),
            v.len() == tasks@.len(),
            last_task_summary_of(v) == last_task_summary_of(v.take(i as int)),
        decreases i,
    {
        let t = trim(&chars_of(tasks[i - 1].task_summary.as_str()));
        proof {
            assert(v[i - 1] == tasks@[i - 1]@);
            assert(v.take(i as int).last() == v[i - 1]);
            assert(v.take(i as int).drop_last() =~= v.take(i - 1));
        }
        if t.len() > 0 {
            return Some(string_of(&t));
        }
        i = i - 1;
    }
    None
}

/// The object steps among the first `n` steps of a plan, each with its
/// position.
pub open spec fn object_steps(steps: Seq<JsonData>, n: nat) -> Seq<(nat, JsonData)>
    decreases n,
{
    if n == 0 || n > steps.len() {
        Seq::empty()
    } else {
        let prev = object_steps(steps, (n - 1) as nat);
        if steps[n - 1] is Object {
            prev.push(((n - 1) as nat, steps[n - 1]))
        } else {
            prev
        }
    }
}

/// The tasks of a plan's steps: one for each step that is an object, in
/// order, each with a fresh id.
pub fn planned_tasks(steps: &Vec<JsonValue>) -> (r: Vec<TaskStep>)
    ensures
        r@.len() == object_steps(array_data(steps@), steps@.len() as nat).len(),
        forall|k: int|
            0 <= k < r@.len() ==> is_task_id((#[trigger] r@[k])@.task_id) && r@[k]@ == planned_step(
                object_steps(array_data(steps@), steps@.len() as nat)[k].1,
                object_steps(array_data(steps@), steps@.len() as nat)[k].0,
                r@[k]@.task_id,
            ),
{
    let ghost d = array_data(steps@);
    proof {
        lemma_array_data(steps@);
    }
    let mut out: Vec<TaskStep> = Vec::new();
    let mut i: usize = 0;
    while i < steps.len()
        invariant
            i <= steps.len(),
            d == array_data(steps@),
            d.len() == steps@.len(),
            forall|j: int| 0 <= j < steps.len() ==> #[trigger] d[j] == json_data(steps@[j]),
            out@.len() == object_steps(d, i as nat).len(),
            forall|k: int|
                0 <= k < out@.len() ==> is_task_id((#[trigger] out@[k])@.task_id) && out@[k]@ == planned_step(
                    object_steps(d, i as nat)[k].1,
                    object_steps(d, i as nat)[k].0,
                    out@[k]@.task_id,
                ),
        decreases steps.len() - i,
    {
        let ghost prev = object_steps(d, i as nat);
        assert(object_steps(d, (i + 1) as nat) == if d[i as int] is Object {
            prev.push((i as nat, d[i as int]))
        } else {
            prev
        });
        match task_step_from_planning_step(i, &steps[i]) {
            Some(t) => {
                out.push(t);
            },
            None => {},
        }
        i = i + 1;
    }
    out
}

/// How a tool call of a turn is handled.
#[derive(Debug, Clone, Copy, PartialEq, Eq, Structural)]
pub enum ToolCallRoute {
    /// The permission gate denied it: its blocked result is recorded.
    Denied,
    /// A command_run whose result already streamed in: that result is used.
    Streamed,
    /// The tool is run.
    Execute,
}

/// The route of a tool call: denied calls first, then a command_run with a
/// streamed result, else the tool runs.
pub fn tool_call_route(tool_name: &str, has_streamed_result: bool, denied: bool) -> (r: ToolCallRoute)
    ensures
        r == (if denied {
            ToolCallRoute::Denied
        } else if tool_name@ == "command_run"@ && has_streamed_result {
            ToolCallRoute::Streamed
        } else {
            ToolCallRoute::Execute
        }),
{
    if denied {
        ToolCallRoute::Denied
    } else if crate::chars::eq_str(&chars_of(tool_name), "command_run") && has_streamed_result {
        ToolCallRoute::Streamed
    } else {
        ToolCallRoute::Execute
    }
}

/// Whether the start of a tool call is published: not for a command_run
/// whose result streamed in, whose start was already shown.
pub fn publishes_tool_start(tool_name: &str, has_streamed_result: bool) -> (b: bool)
    ensures
        b == !(tool_name@ == "command_run"@ && has_streamed_result),
{
    !(crate::chars::eq_str(&chars_of(tool_name), "command_run") && has_streamed_result)
}

/// What follows the user's answer to running a command outside the
/// sandbox.
#[derive(Debug, Clone, PartialEq, Eq)]
pub enum BypassStep {
    /// Run the command again without the sandbox.
    RunUnrestricted,
    /// Record it as blocked: refused by the user (`None`), or the request
    /// failed with this error.
    Blocked(Option<String>),
}

/// Whether the user is asked to let a command run outside the sandbox:
/// it hit the sandbox and the session keeps its restrictions.
pub fn asks_sandbox_bypass(hit_sandbox: bool, permissions_disabled: bool) -> (b: bool)
    ensures
        b == (hit_sandbox && !permissions_disabled),
{
    hit_sandbox && !permissions_disabled
}

/// The step that follows the user's answer.
pub fn bypass_step(answer: Result<bool, String>) -> (r: BypassStep)
    ensures
        r == (match answer {
            Ok(true) => BypassStep::RunUnrestricted,
            Ok(false) => BypassStep::Blocked(None),
            Err(e) => BypassStep::Blocked(Some(e)),
        }),
{
    match answer {
        Ok(true) => BypassStep::RunUnrestricted,
        Ok(false) => BypassStep::Blocked(None),
        Err(e) => BypassStep::Blocked(Some(e)),
    }
}

/// What a task_status status asks of the active task: `done` settles it
/// as done (`true`), `question` as a question (`false`); other statuses
/// nothing.
pub open spec fn settling(status: Option<Seq<char>>) -> Option<bool> {
    if status == Some("done"@) {
        Some(true)
    } else if status == Some("question"@) {
        Some(false)
    } else {
        None
    }
}

/// One task_status request applied through the state `mid` that follows
/// its summary: `rs` what the summary gave, `b` whether a task was
/// settled, `r` the result.
pub open spec fn status_applied(
    pre: TaskPlanState,
    mid: TaskPlanState,
    post: TaskPlanState,
    summary: Option<Seq<char>>,
    status: Option<Seq<char>>,
    rs: (bool, bool),
    b: bool,
    r: (bool, bool),
) -> bool {
    &&& match summary {
        Some(t) => summary_applied(pre, mid, t, rs),
        None => mid == pre && rs == (false, false),
    }
    &&& match settling(status) {
        Some(completing) => task_settled(mid.tasks@, post.tasks@, completing, mid.plan_summary@, mid.user_goal@, b)
            && post.session_name == mid.session_name && post.auto_session_name == mid.auto_session_name
            && post.plan_summary == mid.plan_summary && post.user_goal == mid.user_goal,
        None => post == mid && !b,
    }
    &&& r == (rs.0 || b, rs.1)
}

/// Applies one task_status request to the session: its summary first,
/// then `done` or `question` settles the active task; any other status
/// leaves the plan alone. Whether anything changed, and whether the
/// rename was ignored.
pub fn apply_status_update(state: &mut TaskPlanState, summary: Option<&str>, status: Option<&str>) -> (r: (bool, bool))
    ensures
        exists|mid: TaskPlanState, rs: (bool, bool), b: bool|
            #[trigger] status_applied(*old(state), mid, *final(state), crate::context::timeline::opt_str_view(summary), crate::context::timeline::opt_str_view(status), rs, b, r),
{
    let mut rs = (false, false);
    match summary {
        Some(t) => {
            rs = apply_task_summary(state, t);
        },
        None => {},
    }
    let ghost mid = *state;
    let settle = match status {
        Some(t) => {
            let tc = chars_of(t);
            if crate::chars::eq_str(&tc, "done") {
                Some(true)
            } else if crate::chars::eq_str(&tc, "question") {
                Some(false)
            } else {
                None
            }
        },
        None => None,
    };
    assert(settle == settling(crate::context::timeline::opt_str_view(status)));
    let mut b = false;
    match settle {
        Some(c) => {
            let mut tasks: Vec<TaskStep> = Vec::new();
            std::mem::swap(&mut tasks, &mut state.tasks);
            b = settle_active_task(&mut tasks, c, state.plan_summary.as_str(), state.user_goal.as_str());
            state.tasks = tasks;
        },
        None => {},
    }
    let r = (rs.0 || b, rs.1);
    assert(status_applied(*old(state), mid, *state, crate::context::timeline::opt_str_view(summary), crate::context::timeline::opt_str_view(status), rs, b, r));
    r
}

/// A result item with the rename warning added to its status object (the
/// output's `task_status` member when it has one, else its `status`); an
/// item without such an object stays as it is.
pub open spec fn warned_item(d: JsonData, warning: Seq<char>) -> JsonData {
    match d {
        JsonData::Object(ms) => match member(d, "output"@) {
            Some(JsonData::Object(oms)) => {
                let key = if member(JsonData::Object(oms), "task_status"@) is Some {
                    "task_status"@
                } else {
                    "status"@
                };
                match member(JsonData::Object(oms), key) {
                    Some(JsonData::Object(sms)) => JsonData::Object(
                        crate::manas::provider_schema::set_member(
                            ms,
                            "output"@,
                            JsonData::Object(
                                crate::manas::provider_schema::set_member(
                                    oms,
                                    key,
                                    JsonData::Object(crate::manas::provider_schema::set_member(sms, "warning"@, JsonData::Str(warning))),
                                ),
                            ),
                        ),
                    ),
                    _ => d,
                }
            },
            _ => d,
        },
        _ => d,
    }
}

/// Adds the rename warning to a task_status result item.
pub fn with_rename_warning(item: JsonValue) -> (r: JsonValue)
    ensures
        json_data(r) == warned_item(
            json_data(item),
            "task_summary rename ignored because the task already has a name; no other task-management parameter needs updating for this rename"@,
        ),
{
    let output = match json_get(&item, "output") {
        Some(o) => copy_json(o),
        None => return item,
    };
    let has_task_status = json_get(&output, "task_status").is_some();
    let key = if has_task_status {
        "task_status"
    } else {
        "status"
    };
    let status = match json_get(&output, key) {
        Some(st) => copy_json(st),
        None => return item,
    };
    let sms = match status {
        JsonValue::Object(sms) => sms,
        _ => return item,
    };
    let oms = match output {
        JsonValue::Object(oms) => oms,
        _ => return item,
    };
    let ms = match item {
        JsonValue::Object(ms) => ms,
        _ => return item,
    };
    let warned = crate::manas::provider_schema::set_member_exec(
        sms,
        "warning",
        JsonValue::Str(task_summary_rename_warning().to_string()),
    );
    let new_output = crate::manas::provider_schema::set_member_exec(oms, key, JsonValue::Object(warned));
    JsonValue::Object(crate::manas::provider_schema::set_member_exec(ms, "output", JsonValue::Object(new_output)))
}

/// The rename warning's text.
pub open spec fn rename_warning_text() -> Seq<char> {
    "task_summary rename ignored because the task already has a name; no other task-management parameter needs updating for this rename"@
}

/// One result item applied: a task_status result takes the session from
/// `pre` to `post` as `status_applied` says and comes out with the rename
/// warning when its rename was ignored, `c` whether it changed the
/// session; any other item leaves both as they are.
pub open spec fn status_item_applied(pre: TaskPlanState, post: TaskPlanState, item: JsonData, out: JsonData, c: bool) -> bool {
    match status_object(item) {
        None => post == pre && out == item && !c,
        Some(st) => exists|after: TaskPlanState, rs: (bool, bool), b: bool, r: (bool, bool)|
            #[trigger] status_applied(pre, after, post, requested_summary(st), member_text(st, "status"@), rs, b, r) && out
                == (if r.1 {
                warned_item(item, rename_warning_text())
            } else {
                item
            }) && c == r.0,
    }
}

/// The result items applied in order through the sessions `states`
/// (`states[k]` before item `k`), item `k` coming out as `out[k]`.
pub open spec fn status_items_applied(
    states: Seq<TaskPlanState>,
    flags: Seq<bool>,
    items: Seq<JsonData>,
    out: Seq<JsonData>,
) -> bool {
    &&& states.len() == items.len() + 1
    &&& flags.len() == items.len()
    &&& out.len() == items.len()
    &&& forall|k: int| 0 <= k < items.len() ==> #[trigger] status_item_applied(states[k], states[k + 1], items[k], out[k], flags[k])
}

/// Applies the task_status results among a command_run's result items to
/// the session, in order; the items come back with the rename warning
/// where a rename was ignored. Whether the session changed.
pub fn apply_status_results(state: &mut TaskPlanState, items: &Vec<JsonValue>) -> (r: (bool, Vec<JsonValue>))
    ensures
        exists|states: Seq<TaskPlanState>, flags: Seq<bool>|
            #[trigger] status_items_applied(states, flags, array_data(items@), array_data(r.1@)) && states[0] == *old(state)
                && states.last() == *final(state) && r.0 == flags.contains(true),
{
    let ghost d = array_data(items@);
    proof {
        lemma_array_data(items@);
    }
    let mut out: Vec<JsonValue> = Vec::new();
    let mut changed = false;
    let mut i: usize = 0;
    let ghost mut states: Seq<TaskPlanState> = seq![*state];
    let ghost mut flags: Seq<bool> = Seq::empty();
    proof {
        lemma_array_data(out@);
        assert(d.take(0) =~= Seq::<JsonData>::empty());
    }
    while i < items.len()
        invariant
            i <= items.len(),
            d == array_data(items@),
            d.len() == items@.len(),
            forall|j: int| 0 <= j < items.len() ==> #[trigger] d[j] == json_data(items@[j]),
            status_items_applied(states, flags, d.take(i as int), array_data(out@)),
            states[0] == *old(state),
            states.last() == *state,
            changed == flags.contains(true),
        decreases items.len() - i,
    {
        let ghost prev_state = *state;
        let ghost prev_out = array_data(out@);
        let item = &items[i];
        assert(d[i as int] == json_data(*item));
        let mut c = false;
        match task_status_update(item) {
            Some(u) => {
                let summary = match &u.summary {
                    Some(t) => Some(t.as_str()),
                    None => None,
                };
                let status = match &u.status {
                    Some(t) => Some(t.as_str()),
                    None => None,
                };
                let ghost st = status_object(d[i as int]).unwrap();
                assert(crate::context::timeline::opt_str_view(summary) == requested_summary(st));
                assert(crate::context::timeline::opt_str_view(status) == member_text(st, "status"@));
                let r = apply_status_update(state, summary, status);
                let next = if r.1 {
                    with_rename_warning(copy_json(item))
                } else {
                    copy_json(item)
                };
                let ghost before = out@;
                out.push(next);
                c = r.0;
                proof {
                    lemma_array_data(before);
                    lemma_array_data(out@);
                    assert(array_data(out@) =~= prev_out.push(json_data(next)));
                    assert(status_item_applied(prev_state, *state, d[i as int], json_data(next), c));
                }
            },
            None => {
                let ghost before = out@;
                out.push(copy_json(item));
                proof {
                    lemma_array_data(before);
                    lemma_array_data(out@);
                    assert(array_data(out@) =~= prev_out.push(d[i as int]));
                    assert(status_item_applied(prev_state, *state, d[i as int], d[i as int], c));
                }
            },
        }
        changed = changed || c;
        proof {
            let ghost old_states = states;
            let ghost old_flags = flags;
            states = states.push(*state);
            flags = flags.push(c);
            let ghost dt = d.take(i + 1);
            let ghost od = array_data(out@);
            assert forall|k: int| 0 <= k < dt.len() implies #[trigger] status_item_applied(states[k], states[k + 1], dt[k], od[k], flags[k]) by {
                if k < i {
                    assert(states[k] == old_states[k]);
                    assert(states[k + 1] == old_states[k + 1]);
                    assert(dt[k] == d.take(i as int)[k]);
                    assert(od[k] == prev_out[k]);
                    assert(flags[k] == old_flags[k]);
                }
            }
            assert(flags.contains(true) == (old_flags.contains(true) || c)) by {
                if c {
                    assert(flags[flags.len() - 1] == true);
                }
                if old_flags.contains(true) {
                    let k = choose|k: int| 0 <= k < old_flags.len() && old_flags[k] == true;
                    assert(flags[k] == true);
                }
                if flags.contains(true) {
                    let k = choose|k: int| 0 <= k < flags.len() && flags[k] == true;
                    if k < old_flags.len() {
                        assert(old_flags[k] == true);
                    }
                }
            }
        }
        i = i + 1;
    }
    assert(d.take(i as int) =~= d);
    assert(status_items_applied(states, flags, array_data(items@), array_data(out@)));
    assert(states[0] == *old(state));
    assert(states.last() == *state);
    assert(changed == flags.contains(true));
    let r = (changed, out);
    assert(array_data(r.1@) == array_data(out@));
    r
}

/// A task status as the task plan writes it.
pub open spec fn status_name(s: PlanStatus) -> Seq<char> {
    match s {
        PlanStatus::Todo => "todo"@,
        PlanStatus::Doing => "doing"@,
        PlanStatus::Done => "done"@,
        PlanStatus::Question => "question"@,
        PlanStatus::Archived => "archived"@,
    }
}

pub fn plan_status_name(s: PlanStatus) -> (r: &'static str)
    ensures
        r@ == status_name(s),
{
    match s {
        PlanStatus::Todo => "todo",
        PlanStatus::Doing => "doing",
        PlanStatus::Done => "done",
        PlanStatus::Question => "question",
        PlanStatus::Archived => "archived",
    }
}

/// A start condition as the task plan writes it.
pub open spec fn condition_name(c: StartCondition) -> Seq<char> {
    match c {
        StartCondition::UserAction => "user_action"@,
        StartCondition::ScheduledTask => "scheduled_task"@,
        StartCondition::PollingTask => "polling_task"@,
    }
}

pub fn start_condition_name(c: StartCondition) -> (r: &'static str)
    ensures
        r@ == condition_name(c),
{
    match c {
        StartCondition::UserAction => "user_action",
        StartCondition::ScheduledTask => "scheduled_task",
        StartCondition::PollingTask => "polling_task",
    }
}

fn u64_number(n: u64) -> (r: JsonValue)
    ensures
        json_data(r) == JsonData::Number(decimal(n as nat)),
{
    let mut out: Vec<char> = Vec::new();
    push_decimal(&mut out, n);
    assert(out@ =~= decimal(n as nat));
    JsonValue::Number(string_of(&out))
}

/// The members that name a task in the plan's records: id, step, summary,
/// deliverable and status.
pub open spec fn task_members(t: TaskStepData) -> Seq<(Seq<char>, JsonData)> {
    seq![
        ("task_id"@, JsonData::Str(t.task_id)),
        ("step"@, JsonData::Number(decimal(t.step))),
        ("task_summary"@, JsonData::Str(t.task_summary)),
        ("deliverable"@, JsonData::Str(t.step_deliverable_description)),
        ("status"@, JsonData::Str(status_name(t.status))),
    ]
}

fn task_member_values(t: &TaskStep) -> (r: Vec<(String, JsonValue)>)
    ensures
        crate::json::object_data(r@) == task_members(t@),
{
    let mut ms: Vec<(String, JsonValue)> = Vec::new();
    ms.push(("task_id".to_string(), JsonValue::Str(t.task_id.clone())));
    ms.push(("step".to_string(), u64_number(t.step)));
    ms.push(("task_summary".to_string(), JsonValue::Str(t.task_summary.clone())));
    ms.push(("deliverable".to_string(), JsonValue::Str(t.step_deliverable_description.clone())));
    ms.push(("status".to_string(), JsonValue::Str(plan_status_name(t.status).to_string())));
    proof {
        crate::json::lemma_object_data(ms@);
        assert(crate::json::object_data(ms@) =~= task_members(t@));
    }
    ms
}

/// The task that command events are attributed to: the first task being
/// worked on, or waiting for the user's turn.
pub open spec fn is_current_task() -> spec_fn(TaskStepData) -> bool {
    |t: TaskStepData| t.status == PlanStatus::Doing || (t.status == PlanStatus::Todo && t.start_condition == StartCondition::UserAction)
}

/// The attribution of command events to the current task, if there is one.
pub fn current_task_attribution(tasks: &Vec<TaskStep>) -> (r: Option<JsonValue>)
    ensures
        opt_json_data(r) == match first_index(step_views(tasks@), is_current_task()) {
            Some(k) => Some(JsonData::Object(task_members(step_views(tasks@)[k as int]))),
            None => None,
        },
{
    let ghost v = step_views(tasks@);
    let mut i: usize = 0;
    while i < tasks.len()
        invariant
            i <= tasks.len(),
            v == step_views(tasks@),
            v.len() == tasks@.len(),
            forall|j: int| 0 <= j < i ==> !is_current_task()(#[trigger] v[j]),
        decreases tasks.len() - i,
    {
        assert(v[i as int] == tasks@[i as int]@);
        let t = &tasks[i];
        let current = match t.status {
            PlanStatus::Doing => true,
            PlanStatus::Todo => match t.start_condition {
                StartCondition::UserAction => true,
                _ => false,
            },
            _ => false,
        };
        if current {
            proof {
                lemma_first_index(v, is_current_task(), i as int);
            }
            return Some(JsonValue::Object(task_member_values(t)));
        }
        i = i + 1;
    }
    proof {
        lemma_first_index(v, is_current_task(), i as int);
    }
    None
}

/// A task in a snapshot of the plan: its naming members and its start
/// condition.
pub open spec fn snapshot_task(t: TaskStepData) -> JsonData {
    JsonData::Object(task_members(t).push(("start_condition"@, JsonData::Str(condition_name(t.start_condition)))))
}

pub open spec fn snapshot_of(ts: Seq<TaskStepData>) -> JsonData {
    JsonData::Array(ts.map_values(|t: TaskStepData| snapshot_task(t)))
}

/// The plan's tasks as the topology record lists them.
pub fn task_plan_snapshot(tasks: &Vec<TaskStep>) -> (r: JsonValue)
    ensures
        json_data(r) == snapshot_of(step_views(tasks@)),
{
    let ghost v = step_views(tasks@);
    let mut out: Vec<JsonValue> = Vec::new();
    let mut i: usize = 0;
    proof {
        lemma_array_data(out@);
    }
    while i < tasks.len()
        invariant
            i <= tasks.len(),
            v == step_views(tasks@),
            v.len() == tasks@.len(),
            array_data(out@) == v.take(i as int).map_values(|t: TaskStepData| snapshot_task(t)),
        decreases tasks.len() - i,
    {
        let t = &tasks[i];
        let mut ms = task_member_values(t);
        let ghost m0 = ms@;
        ms.push(("start_condition".to_string(), JsonValue::Str(start_condition_name(t.start_condition).to_string())));
        let ghost before = out@;
        let item = JsonValue::Object(ms);
        out.push(item);
        proof {
            crate::json::lemma_object_data(m0);
            crate::json::lemma_object_data(ms@);
            assert(crate::json::object_data(ms@) =~= crate::json::object_data(m0).push(("start_condition"@, JsonData::Str(condition_name(t.start_condition)))));
            assert(v[i as int] == t@);
            assert(json_data(item) == snapshot_task(v[i as int]));
            lemma_array_data(before);
            lemma_array_data(out@);
            assert(array_data(out@) =~= array_data(before).push(json_data(item)));
            assert(v.take(i + 1).map_values(|t: TaskStepData| snapshot_task(t)) =~= v.take(i as int).map_values(
                |t: TaskStepData| snapshot_task(t),
            ).push(snapshot_task(v[i as int])));
        }
        i = i + 1;
    }
    assert(v.take(i as int) =~= v);
    JsonValue::Array(out)
}

/// A task to do that waits for the user's turn.
pub open spec fn is_startable_todo() -> spec_fn(TaskStepData) -> bool {
    |t: TaskStepData| t.status == PlanStatus::Todo && t.start_condition == StartCondition::UserAction
}

/// The plan once its first task is started: when no task is active, the
/// first task to do that waits for the user's turn becomes the one being
/// worked on; otherwise the plan stays as it is.
pub open spec fn activated(ts: Seq<TaskStepData>) -> Seq<TaskStepData> {
    if first_index(ts, is_active_task()) is Some {
        ts
    } else {
        match first_index(ts, is_startable_todo()) {
            Some(k) => ts.update(k as int, with_status_data(ts[k as int], PlanStatus::Doing)),
            None => ts,
        }
    }
}

/// Starts the first planned task when no task is active.
pub fn activate_first_planned_task_if_needed(tasks: &mut Vec<TaskStep>)
    ensures
        step_views(final(tasks)@) == activated(step_views(old(tasks)@)),
{
    let ghost v = step_views(tasks@);
    if first_task_where(tasks, true).is_some() {
        return;
    }
    let mut i: usize = 0;
    while i < tasks.len()
        invariant
            i <= tasks.len(),
            tasks@ == old(tasks)@,
            v == step_views(tasks@),
            v.len() == tasks@.len(),
            first_index(v, is_active_task()) is None,
            forall|j: int| 0 <= j < i ==> !is_startable_todo()(#[trigger] v[j]),
        decreases tasks.len() - i,
    {
        assert(v[i as int] == tasks@[i as int]@);
        let startable = match tasks[i].status {
            PlanStatus::Todo => match tasks[i].start_condition {
                StartCondition::UserAction => true,
                _ => false,
            },
            _ => false,
        };
        if startable {
            proof {
                lemma_first_index(v, is_startable_todo(), i as int);
            }
            let mut t = copy_task(&tasks[i]);
            t.status = PlanStatus::Doing;
            let ghost before = tasks@;
            tasks.set(i, t);
            proof {
                assert(step_views(tasks@) =~= v.update(i as int, with_status_data(v[i as int], PlanStatus::Doing)));
            }
            return;
        }
        i = i + 1;
    }
    proof {
        lemma_first_index(v, is_startable_todo(), i as int);
    }
}

/// The record that a plan was applied: its input steps, the tasks before
/// and after, and when.
pub open spec fn topology_record(steps: Seq<JsonData>, previous: JsonData, current: JsonData, timestamp: Seq<char>) -> JsonData {
    JsonData::Object(
        seq![
            ("type"@, JsonData::Str("task_topology_applied"@)),
            ("input_steps"@, JsonData::Array(steps)),
            ("previous_tasks"@, previous),
            ("current_tasks"@, current),
            ("timestamp"@, JsonData::Str(timestamp)),
        ],
    )
}

/// Appends to the log the record that a plan was applied, stamped with
/// the clock.
pub fn record_task_topology_applied(
    session_log: &mut Vec<String>,
    steps: &Vec<JsonValue>,
    previous_tasks: &JsonValue,
    tasks: &Vec<TaskStep>,
)
    ensures
        exists|t: (i64, u32, Seq<char>)|
            #[trigger] crate::context::timeline::moment_in_range(t) && string_views(final(session_log)@) == string_views(
                old(session_log)@,
            ).push(
                json_text(
                    topology_record(array_data(steps@), json_data(*previous_tasks), snapshot_of(step_views(tasks@)), t.2),
                ),
            ),
{
    let now = now_moment();
    let mut input: Vec<JsonValue> = Vec::new();
    let mut i: usize = 0;
    proof {
        lemma_array_data(steps@);
        lemma_array_data(input@);
    }
    while i < steps.len()
        invariant
            i <= steps.len(),
            array_data(input@) == array_data(steps@).take(i as int),
            array_data(steps@).len() == steps@.len(),
            forall|j: int| 0 <= j < steps.len() ==> #[trigger] array_data(steps@)[j] == json_data(steps@[j]),
        decreases steps.len() - i,
    {
        let ghost before = input@;
        input.push(copy_json(&steps[i]));
        proof {
            lemma_array_data(before);
            lemma_array_data(input@);
            assert(array_data(input@) =~= array_data(before).push(json_data(steps@[i as int])));
            assert(array_data(steps@).take(i + 1) =~= array_data(steps@).take(i as int).push(array_data(steps@)[i as int]));
        }
        i = i + 1;
    }
    assert(array_data(steps@).take(i as int) =~= array_data(steps@));
    let mut ms: Vec<(String, JsonValue)> = Vec::new();
    ms.push(("type".to_string(), JsonValue::Str("task_topology_applied".to_string())));
    ms.push(("input_steps".to_string(), JsonValue::Array(input)));
    ms.push(("previous_tasks".to_string(), copy_json(previous_tasks)));
    ms.push(("current_tasks".to_string(), task_plan_snapshot(tasks)));
    ms.push(("timestamp".to_string(), JsonValue::Str(now.timestamp.clone())));
    let record = JsonValue::Object(ms);
    proof {
        crate::json::lemma_object_data(ms@);
        assert(crate::json::object_data(ms@) =~= seq![
            ("type"@, JsonData::Str("task_topology_applied"@)),
            ("input_steps"@, JsonData::Array(array_data(steps@))),
            ("previous_tasks"@, json_data(*previous_tasks)),
            ("current_tasks"@, snapshot_of(step_views(tasks@))),
            ("timestamp"@, JsonData::Str(now.timestamp@)),
        ]);
        assert(json_data(record) == topology_record(
            array_data(steps@),
            json_data(*previous_tasks),
            snapshot_of(step_views(tasks@)),
            now.timestamp@,
        ));
    }
    let text = json_to_string(&record);
    let ghost before = session_log@;
    session_log.push(text);
    proof {
        assert(string_views(session_log@) =~= string_views(before).push(text@));
        assert(crate::context::timeline::moment_in_range(crate::context::compaction::moment_view(now)));
    }
}

/// The steps of a plan: its `steps` array, or none.
pub open spec fn plan_steps(plan: JsonData) -> Seq<JsonData> {
    match member(plan, "steps"@) {
        Some(JsonData::Array(items)) => items,
        _ => Seq::empty(),
    }
}

/// `incoming` are the tasks of the plan's steps: one for each step that
/// is an object, in order, each with a task id of its own.
pub open spec fn planned_from(incoming: Seq<TaskStepData>, steps: Seq<JsonData>) -> bool {
    let objs = object_steps(steps, steps.len());
    &&& incoming.len() == objs.len()
    &&& forall|k: int|
        0 <= k < incoming.len() ==> is_task_id((#[trigger] incoming[k]).task_id) && incoming[k] == planned_step(
            objs[k].1,
            objs[k].0,
            incoming[k].task_id,
        )
}

/// The plan with the new tasks put in: unchanged when there are none.
pub open spec fn replaced_tasks(pre: Seq<TaskStepData>, incoming: Seq<TaskStepData>) -> Seq<TaskStepData> {
    if incoming.len() == 0 {
        pre
    } else {
        numbered(spliced_plan(pre, incoming))
    }
}

/// What applying a plan does to the session and its log: the plan
/// summary follows the plan's user task; the planned tasks `incoming` take
/// the place of the active task; an automatically named session takes the
/// last task summary; the first task is started when none is active; and
/// the topology record stamped `t` is appended.
pub open spec fn plan_applied(
    pre: TaskPlanState,
    post: TaskPlanState,
    pre_log: Seq<Seq<char>>,
    post_log: Seq<Seq<char>>,
    plan: JsonData,
    incoming: Seq<TaskStepData>,
    t: (i64, u32, Seq<char>),
) -> bool {
    let replaced = replaced_tasks(step_views(pre.tasks@), incoming);
    &&& planned_from(incoming, plan_steps(plan))
    &&& post.plan_summary@ == summary_after_plan(plan, pre.plan_summary@, pre.user_goal@)
    &&& post.user_goal == pre.user_goal
    &&& post.auto_session_name == pre.auto_session_name
    &&& post.session_name@ == (if pre.auto_session_name && last_task_summary_of(replaced) is Some {
        last_task_summary_of(replaced).unwrap()
    } else {
        pre.session_name@
    })
    &&& step_views(post.tasks@) == activated(replaced)
    &&& crate::context::timeline::moment_in_range(t)
    &&& post_log == pre_log.push(
        json_text(topology_record(plan_steps(plan), snapshot_of(step_views(pre.tasks@)), snapshot_of(step_views(post.tasks@)), t.2)),
    )
}

/// Applies a plan to the session. The planned tasks keep the status their
/// step gives them (to do, done or archived).
pub fn apply_plan(state: &mut TaskPlanState, session_log: &mut Vec<String>, plan: &JsonValue) -> (r: bool)
    ensures
        r,
        exists|incoming: Seq<TaskStepData>, t: (i64, u32, Seq<char>)|
            #[trigger] plan_applied(
                *old(state),
                *final(state),
                string_views(old(session_log)@),
                string_views(final(session_log)@),
                json_data(*plan),
                incoming,
                t,
            ),
{
    let ghost pre = *state;
    let new_summary = plan_summary_after_planning(plan, state.plan_summary.as_str(), state.user_goal.as_str());
    state.plan_summary = new_summary;
    let empty: Vec<JsonValue> = Vec::new();
    let steps: &Vec<JsonValue> = match json_get(plan, "steps") {
        Some(JsonValue::Array(items)) => items,
        _ => &empty,
    };
    proof {
        lemma_array_data(empty@);
        lemma_array_data(steps@);
    }
    assert(array_data(steps@) == plan_steps(json_data(*plan)));
    let previous = task_plan_snapshot(&state.tasks);
    let incoming = planned_tasks(steps);
    let ghost inc = step_views(incoming@);
    proof {
        let ghost sd = array_data(steps@);
        assert(sd.len() == steps@.len());
        assert forall|k: int| 0 <= k < inc.len() implies is_task_id((#[trigger] inc[k]).task_id) && inc[k] == planned_step(
            object_steps(sd, sd.len())[k].1,
            object_steps(sd, sd.len())[k].0,
            inc[k].task_id,
        ) by {
            assert(inc[k] == incoming@[k]@);
        }
        assert(planned_from(inc, plan_steps(json_data(*plan))));
    }
    let mut tasks: Vec<TaskStep> = Vec::new();
    std::mem::swap(&mut tasks, &mut state.tasks);
    replace_active_task_with_planning(&mut tasks, incoming);
    let ghost replaced = step_views(tasks@);
    proof {
        if inc.len() == 0 {
            assert(step_views(tasks@) == step_views(pre.tasks@));
        }
        assert(replaced == replaced_tasks(step_views(pre.tasks@), inc));
    }
    if state.auto_session_name {
        match last_task_summary(&tasks) {
            Some(n) => {
                state.session_name = n;
            },
            None => {},
        }
    }
    activate_first_planned_task_if_needed(&mut tasks);
    state.tasks = tasks;
    let ghost log0 = string_views(session_log@);
    record_task_topology_applied(session_log, steps, &previous, &state.tasks);
    proof {
        let t = choose|t: (i64, u32, Seq<char>)|
            #[trigger] crate::context::timeline::moment_in_range(t) && string_views(session_log@) == log0.push(
                json_text(topology_record(array_data(steps@), json_data(previous), snapshot_of(step_views(state.tasks@)), t.2)),
            );
        assert(plan_applied(pre, *state, string_views(old(session_log)@), string_views(session_log@), json_data(*plan), inc, t));
    }
    true
}

/// A command_run result with its task_status results applied: its
/// `results` items go through `status_items_applied` and come back in
/// their place; a result without a `results` array changes nothing.
pub open spec fn status_result_applied(pre: TaskPlanState, post: TaskPlanState, result: JsonData, out: JsonData, changed: bool) -> bool {
    match result {
        JsonData::Object(ms) => match member(result, "results"@) {
            Some(JsonData::Array(items)) => results_items_applied(pre, post, ms, items, out, changed),
            _ => post == pre && out == result && !changed,
        },
        _ => post == pre && out == result && !changed,
    }
}

/// The `results` items of a result object with members `ms` applied in
/// order, and put back in their place.
pub open spec fn results_items_applied(
    pre: TaskPlanState,
    post: TaskPlanState,
    ms: Seq<(Seq<char>, JsonData)>,
    items: Seq<JsonData>,
    out: JsonData,
    changed: bool,
) -> bool {
    exists|states: Seq<TaskPlanState>, flags: Seq<bool>, outs: Seq<JsonData>|
        #[trigger] status_items_applied(states, flags, items, outs) && states[0] == pre && states.last() == post
            && changed == flags.contains(true) && out == JsonData::Object(set_member(ms, "results"@, JsonData::Array(outs)))
}

/// Applies the task_status results of a command_run result to the
/// session; the result comes back with its items as
/// `apply_status_results` gives them. Whether the session changed.
pub fn apply_status_result(state: &mut TaskPlanState, result: JsonValue) -> (r: (bool, JsonValue))
    ensures
        status_result_applied(*old(state), *final(state), json_data(result), json_data(r.1), r.0),
{
    let ghost pre = *state;
    let ghost rd = json_data(result);
    let ghost mut idata: Seq<JsonData> = Seq::empty();
    let (changed, outs) = match json_get(&result, "results") {
        Some(JsonValue::Array(items)) => {
            proof {
                lemma_array_data(items@);
                idata = array_data(items@);
                assert(member(rd, "results"@) == Some(JsonData::Array(idata)));
            }
            apply_status_results(state, items)
        },
        _ => return (false, result),
    };
    match result {
        JsonValue::Object(ms) => {
            let ghost md = crate::json::object_data(ms@);
            let ghost od = array_data(outs@);
            proof {
                let (states, flags) = choose|states: Seq<TaskPlanState>, flags: Seq<bool>|
                    #[trigger] status_items_applied(states, flags, idata, od) && states[0] == pre && states.last() == *state
                        && changed == flags.contains(true);
                assert(status_items_applied(states, flags, idata, od));
            }
            let new_ms = set_member_exec(ms, "results", JsonValue::Array(outs));
            let r = (changed, JsonValue::Object(new_ms));
            assert(json_data(r.1) == JsonData::Object(set_member(md, "results"@, JsonData::Array(od))));
            assert(rd == JsonData::Object(md));
            assert(results_items_applied(pre, *state, md, idata, json_data(r.1), r.0));
            assert(status_result_applied(pre, *state, rd, json_data(r.1), r.0));
            r
        },
        _ => {
            assert(false);
            (changed, result)
        },
    }
}

/// What a tool result does to the session: a command_run result first
/// applies its task_status results (`mid`, `c1`); then the plan that a
/// command_run or planning result carries is applied.
pub open spec fn tool_result_applied(
    pre: TaskPlanState,
    mid: TaskPlanState,
    post: TaskPlanState,
    pre_log: Seq<Seq<char>>,
    post_log: Seq<Seq<char>>,
    tool_name: Seq<char>,
    result: JsonData,
    out: JsonData,
    c1: bool,
    incoming: Seq<TaskStepData>,
    t: (i64, u32, Seq<char>),
    changed: bool,
) -> bool {
    let is_command_run = tool_name == "command_run"@;
    &&& if is_command_run {
        status_result_applied(pre, mid, result, out, c1)
    } else {
        mid == pre && out == result && !c1
    }
    &&& if (is_command_run || tool_name == "planning"@) && result_plan(tool_name, out) is Some {
        plan_applied(mid, post, pre_log, post_log, result_plan(tool_name, out).unwrap(), incoming, t) && changed
    } else {
        post == mid && post_log == pre_log && changed == c1
    }
}

/// What a tool result does to the session and its log, for some
/// intermediate session `mid` after the task_status results, their
/// outcome `c1`, the planned tasks and the record's time.
pub open spec fn tool_result_outcome(
    pre: TaskPlanState,
    post: TaskPlanState,
    pre_log: Seq<Seq<char>>,
    post_log: Seq<Seq<char>>,
    tool_name: Seq<char>,
    result: JsonData,
    out: JsonData,
    changed: bool,
) -> bool {
    exists|mid: TaskPlanState, c1: bool, incoming: Seq<TaskStepData>, t: (i64, u32, Seq<char>)|
        #[trigger] tool_result_applied(pre, mid, post, pre_log, post_log, tool_name, result, out, c1, incoming, t, changed)
}

/// Applies what a tool result changes in the session: task_status
/// results and plans. The result comes back with its rename warnings.
/// Whether the session changed.
pub fn apply_tool_result_session_state_update(
    state: &mut TaskPlanState,
    session_log: &mut Vec<String>,
    tool_name: &str,
    result: JsonValue,
) -> (r: (bool, JsonValue))
    ensures
        tool_result_outcome(
            *old(state),
            *final(state),
            string_views(old(session_log)@),
            string_views(final(session_log)@),
            tool_name@,
            json_data(result),
            json_data(r.1),
            r.0,
        ),
{
    let ghost log0 = string_views(session_log@);
    let ghost data0 = json_data(result);
    let is_command_run = crate::chars::eq_str(&chars_of(tool_name), "command_run");
    let is_planning = crate::chars::eq_str(&chars_of(tool_name), "planning");
    let mut changed = false;
    let mut current = result;
    if is_command_run {
        let (c, res) = apply_status_result(&mut *state, current);
        changed = c;
        current = res;
    }
    let ghost mid = *state;
    let ghost c1 = changed;
    let ghost out = json_data(current);
    let plan = if is_command_run || is_planning {
        plan_of_tool_result(tool_name, &current)
    } else {
        None
    };
    let ghost mut incoming = Seq::<TaskStepData>::empty();
    let ghost mut t = (0i64, 0u32, Seq::<char>::empty());
    match plan {
        Some(p) => {
            apply_plan(&mut *state, &mut *session_log, &p);
            changed = true;
            proof {
                let (i0, t0) = choose|i0: Seq<TaskStepData>, t0: (i64, u32, Seq<char>)|
                    #[trigger] plan_applied(mid, *state, log0, string_views(session_log@), json_data(p), i0, t0);
                incoming = i0;
                t = t0;
            }
        },
        None => {},
    }
    proof {
        assert(tool_result_applied(*old(state), mid, *state, string_views(old(session_log)@), string_views(session_log@), tool_name@, data0, out, c1, incoming, t, changed));
        assert(tool_result_outcome(*old(state), *state, string_views(old(session_log)@), string_views(session_log@), tool_name@, data0, out, changed));
    }
    (changed, current)
}

} // verus!
