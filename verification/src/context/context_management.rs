//! The model context rebuilt from a session log: each logged entry gives
//! the messages it always gives, a checkpoint restarts the context, and new
//! entries only add to what came before.
use vstd::prelude::*;
use crate::chars::{trim, trim_ws};
use crate::context::token_budget::{token_budget_text, truncate_text_to_token_budget};
use crate::context::compaction::{EMPTY_WORKSPACE_SNAPSHOT, context_compaction_messages, checkpoint_messages, message_data, message_value};
use crate::context::tool_results::{
    alnum_prefix, call_id_from_cache_id, compact_json_for_context, context_cache_id, context_sized,
    stable_context_cache_id, strip_command_run_context_noise, strip_tool_reporting_fields, without_keys, KeySet,
};
use crate::context::timeline::now_moment;
use crate::context::user_input::{content_matches, user_content, user_input_content_matches, user_input_content_value};
use crate::json::{
    array_data, as_items, as_text, copy_json, json_as_str, json_data, json_get, json_member_str, json_pretty_text,
    json_text, json_to_string, json_to_string_pretty, lemma_array_data, lemma_object_data, member, member_in, member_text,
    object_data, opt_json_data, opt_ref_data, parse_json, parsed_json, JsonData, JsonValue,
};
use crate::manas::tool_catalog::same_text;
use crate::text::{chars_of, decimal, push_decimal, push_str, string_of};

verus! {

/// What each log entry reads as: the JSON value when the entry is JSON.
pub open spec fn log_values(log: Seq<String>) -> Seq<Option<JsonData>> {
    log.map_values(|e: String| parsed_json(e@))
}

/// A member, or null when there is none.
pub open spec fn or_null(o: Option<JsonData>) -> JsonData {
    match o {
        Some(d) => d,
        None => JsonData::Null,
    }
}

/// Whether a value's `type` member is the text `t`.
pub open spec fn has_type(d: JsonData, t: Seq<char>) -> bool {
    member_text(d, "type"@) == Some(t)
}

/// A member of a tool result's `context_cache`.
pub open spec fn cache_member(d: JsonData, key: Seq<char>) -> Option<JsonData> {
    match member(d, "context_cache"@) {
        Some(c) => member(c, key),
        None => None,
    }
}

/// A tool result's output as the context carries it: without the keys
/// that only report on the call.
pub open spec fn tool_context_output(d: JsonData) -> JsonData {
    without_keys(KeySet::Noise, or_null(member(d, "output"@)))
}

/// The output the context shows: the cached one, else the output cut to
/// the context budget.
pub open spec fn cached_output(d: JsonData) -> JsonData {
    match cache_member(d, "output"@) {
        Some(o) => o,
        None => context_sized(tool_context_output(d)),
    }
}

/// The error the context shows: the cached one, else the error cut to the
/// context budget.
pub open spec fn cached_error(d: JsonData) -> JsonData {
    match cache_member(d, "error"@) {
        Some(e) => e,
        None => context_sized(or_null(member(d, "error"@))),
    }
}

/// The `success` member, true when there is none.
pub open spec fn success_flag(d: JsonData) -> JsonData {
    match member(d, "success"@) {
        Some(s) => s,
        None => JsonData::Bool(true),
    }
}

/// The item that stands for a tool result in the context.
pub open spec fn tool_context_item(d: JsonData) -> JsonData {
    JsonData::Object(
        seq![
            ("type"@, JsonData::Str("tool_result"@)),
            ("cache_id"@, or_null(cache_member(d, "cache_id"@))),
            ("tool_name"@, or_null(member(d, "tool_name"@))),
            ("input"@, context_sized(or_null(member(d, "input"@)))),
            ("output"@, cached_output(d)),
            ("success"@, success_flag(d)),
            ("error"@, cached_error(d)),
        ],
    )
}

/// A tool result as a user message: the indented JSON of a list that holds
/// its context item.
pub open spec fn tool_context_message(d: JsonData) -> JsonData {
    message_data("user"@, JsonData::Str(json_pretty_text(JsonData::Array(seq![tool_context_item(d)]))))
}

pub open spec fn is_command_run(d: JsonData) -> bool {
    member_text(d, "tool_name"@) == Some("command_run"@)
}

/// The call id of a command_run result: `call_` and the first 24 ASCII
/// letters and digits of its cached context id (or of `command_run`).
pub open spec fn run_call_id(d: JsonData) -> Seq<char> {
    let id = match as_text(cache_member(d, "cache_id"@)) {
        Some(i) => i,
        None => "command_run"@,
    };
    "call_"@ + alnum_prefix(id, 24)
}

/// The output text of a command_run result: the indented JSON of its
/// output without the reporting keys.
pub open spec fn run_output_text(d: JsonData) -> Seq<char> {
    json_pretty_text(tool_context_output(d))
}

/// The function call that a command_run result answers.
pub open spec fn function_call_item(d: JsonData) -> JsonData {
    let base = seq![
        ("type"@, JsonData::Str("function_call"@)),
        ("name"@, JsonData::Str("command_run"@)),
        ("arguments"@, JsonData::Str(json_text(or_null(member(d, "input"@))))),
        ("call_id"@, JsonData::Str(run_call_id(d))),
        ("status"@, JsonData::Str("completed"@)),
    ];
    match member(d, "provider_metadata"@) {
        Some(p) => JsonData::Object(base.push(("provider_metadata"@, p))),
        None => JsonData::Object(base),
    }
}

/// The output of that function call.
pub open spec fn function_call_output_item(d: JsonData) -> JsonData {
    JsonData::Object(
        seq![
            ("type"@, JsonData::Str("function_call_output"@)),
            ("call_id"@, JsonData::Str(run_call_id(d))),
            ("output"@, JsonData::Str(run_output_text(d))),
        ],
    )
}

/// The context messages computed for a tool result: a function call and its
/// output for command_run, one user message for any other tool.
pub open spec fn computed_tool_messages(d: JsonData) -> Seq<JsonData> {
    if is_command_run(d) {
        seq![function_call_item(d), function_call_output_item(d)]
    } else {
        seq![tool_context_message(d)]
    }
}

pub open spec fn dialog_role(role: Seq<char>) -> bool {
    role == "user"@ || role == "system"@ || role == "assistant"@
}

/// The messages one log entry gives: a dialog entry its role and content, a
/// tool result the context messages stored with it (or computed from it),
/// anything else nothing.
pub open spec fn entry_messages(d: JsonData) -> Seq<JsonData> {
    if !(d is Object) {
        Seq::empty()
    } else if member_text(d, "role"@) is Some && dialog_role(member_text(d, "role"@).unwrap()) {
        match member(d, "content"@) {
            Some(c) => seq![message_data(member_text(d, "role"@).unwrap(), c)],
            None => Seq::empty(),
        }
    } else if !has_type(d, "tool_result"@) {
        Seq::empty()
    } else {
        match as_items(member(d, "context_messages"@)) {
            Some(items) => items,
            None => computed_tool_messages(d),
        }
    }
}

/// The messages a checkpoint entry restarts the context with: its content,
/// workspace snapshot and environment as user messages, then its task
/// state as JSON text.
pub open spec fn compaction_entry_messages(d: JsonData) -> Seq<JsonData> {
    checkpoint_messages(d, None, "user"@) + match member(d, "task_management"@) {
        Some(tm) => seq![message_data("user"@, JsonData::Str("TASK_MANAGEMENT_STATE:\n"@ + json_text(tm)))],
        None => Seq::empty(),
    }
}

/// The messages of a log read in order, and whether a checkpoint was seen:
/// a checkpoint replaces all before it, every other entry adds its own.
pub open spec fn context_fold(vs: Seq<Option<JsonData>>) -> (Seq<JsonData>, bool)
    decreases vs.len(),
{
    if vs.len() == 0 {
        (Seq::empty(), false)
    } else {
        let prev = context_fold(vs.drop_last());
        match vs.last() {
            None => prev,
            Some(d) => if has_type(d, "context_compaction"@) {
                (compaction_entry_messages(d), true)
            } else {
                (prev.0 + entry_messages(d), prev.1)
            },
        }
    }
}

/// A user message whose content is the given input.
pub open spec fn user_message_matches(msg: JsonData, input: Seq<char>) -> bool {
    member_text(msg, "role"@) == Some("user"@) && match member(msg, "content"@) {
        Some(c) => content_matches(c, input),
        None => false,
    }
}

pub open spec fn has_input_message(ms: Seq<JsonData>, input: Seq<char>) -> bool {
    exists|i: int| 0 <= i < ms.len() && user_message_matches(#[trigger] ms[i], input)
}

/// Whether the replay puts the initial input in front: no checkpoint was
/// seen, the input is not blank, and no user message holds it yet.
pub open spec fn initial_input_placed(vs: Seq<Option<JsonData>>, input: Seq<char>) -> bool {
    !context_fold(vs).1 && trim_ws(input).len() > 0 && !has_input_message(context_fold(vs).0, input)
}

/// The context a log replays to, for the session's initial input.
pub open spec fn replayed_context(vs: Seq<Option<JsonData>>, input: Seq<char>) -> Seq<JsonData> {
    if initial_input_placed(vs, input) {
        seq![message_data("user"@, user_content(trim_ws(input)))] + context_fold(vs).0
    } else {
        context_fold(vs).0
    }
}

fn no_messages() -> (r: Vec<JsonValue>)
    ensures
        array_data(r@) == Seq::<JsonData>::empty(),
{
    let out: Vec<JsonValue> = Vec::new();
    assert(out@ =~= Seq::<JsonValue>::empty());
    out
}

fn push_msg(out: &mut Vec<JsonValue>, m: JsonValue)
    ensures
        array_data(final(out)@) == array_data(old(out)@).push(json_data(m)),
{
    let ghost before = out@;
    out.push(m);
    proof {
        lemma_array_data(before);
        lemma_array_data(out@);
        assert(array_data(out@) =~= array_data(before).push(json_data(m)));
    }
}

fn append_messages(out: &mut Vec<JsonValue>, extra: Vec<JsonValue>)
    ensures
        array_data(final(out)@) == array_data(old(out)@) + array_data(extra@),
{
    let ghost before = out@;
    let ghost more = extra@;
    let mut extra = extra;
    out.append(&mut extra);
    proof {
        lemma_array_data(before);
        lemma_array_data(more);
        lemma_array_data(out@);
        assert(array_data(out@) =~= array_data(before) + array_data(more));
    }
}

/// Whether a value's `type` member is the text `t`.
pub fn type_is(v: &JsonValue, t: &str) -> (b: bool)
    ensures
        b == has_type(json_data(*v), t@),
{
    match json_member_str(v, "type") {
        Some(k) => same_text(k, t),
        None => false,
    }
}

/// A copy of the member `key`, or null.
pub fn member_or_null(v: &JsonValue, key: &str) -> (r: JsonValue)
    ensures
        json_data(r) == or_null(member(json_data(*v), key@)),
{
    match json_get(v, key) {
        Some(m) => copy_json(m),
        None => JsonValue::Null,
    }
}

fn cache_member_ref<'a>(v: &'a JsonValue, key: &str) -> (r: Option<&'a JsonValue>)
    ensures
        opt_ref_data(r) == cache_member(json_data(*v), key@),
{
    match json_get(v, "context_cache") {
        Some(c) => json_get(c, key),
        None => None,
    }
}

/// A message with a role and any content.
pub fn role_message(role: &str, content: JsonValue) -> (r: JsonValue)
    ensures
        json_data(r) == message_data(role@, json_data(content)),
{
    let mut ms: Vec<(String, JsonValue)> = Vec::new();
    ms.push(("role".to_string(), JsonValue::Str(role.to_string())));
    let ghost c = json_data(content);
    ms.push(("content".to_string(), content));
    proof {
        lemma_object_data(ms@);
        assert(object_data(ms@) =~= seq![("role"@, JsonData::Str(role@)), ("content"@, c)]);
    }
    JsonValue::Object(ms)
}

/// The output a tool result shows in the context.
pub fn cached_context_output(v: &JsonValue) -> (r: JsonValue)
    ensures
        json_data(r) == cached_output(json_data(*v)),
{
    match cache_member_ref(v, "output") {
        Some(o) => copy_json(o),
        None => compact_json_for_context(strip_command_run_context_noise(member_or_null(v, "output"))),
    }
}

/// The error a tool result shows in the context.
pub fn cached_context_error(v: &JsonValue) -> (r: JsonValue)
    ensures
        json_data(r) == cached_error(json_data(*v)),
{
    match cache_member_ref(v, "error") {
        Some(e) => copy_json(e),
        None => compact_json_for_context(member_or_null(v, "error")),
    }
}

fn success_value(v: &JsonValue) -> (r: JsonValue)
    ensures
        json_data(r) == success_flag(json_data(*v)),
{
    match json_get(v, "success") {
        Some(s) => copy_json(s),
        None => JsonValue::Bool(true),
    }
}

/// The item that stands for a tool result in the context.
pub fn tool_context_item_value(v: &JsonValue) -> (r: JsonValue)
    ensures
        json_data(r) == tool_context_item(json_data(*v)),
{
    let cache_id = match cache_member_ref(v, "cache_id") {
        Some(c) => copy_json(c),
        None => JsonValue::Null,
    };
    let mut ms: Vec<(String, JsonValue)> = Vec::new();
    ms.push(("type".to_string(), JsonValue::Str("tool_result".to_string())));
    ms.push(("cache_id".to_string(), cache_id));
    ms.push(("tool_name".to_string(), member_or_null(v, "tool_name")));
    ms.push(("input".to_string(), compact_json_for_context(member_or_null(v, "input"))));
    ms.push(("output".to_string(), cached_context_output(v)));
    ms.push(("success".to_string(), success_value(v)));
    ms.push(("error".to_string(), cached_context_error(v)));
    proof {
        lemma_object_data(ms@);
        assert(object_data(ms@) =~= tool_context_item(json_data(*v))->Object_0);
    }
    JsonValue::Object(ms)
}

/// A tool result as one user message.
pub fn tool_context_message_value(v: &JsonValue) -> (r: JsonValue)
    ensures
        json_data(r) == tool_context_message(json_data(*v)),
{
    let item = tool_context_item_value(v);
    let ghost d = json_data(item);
    let mut items: Vec<JsonValue> = Vec::new();
    items.push(item);
    proof {
        lemma_array_data(items@);
        assert(array_data(items@) =~= seq![d]);
    }
    let text = json_to_string_pretty(&JsonValue::Array(items));
    message_value("user", text.as_str())
}

fn run_call_id_value(v: &JsonValue) -> (r: String)
    ensures
        r@ == run_call_id(json_data(*v)),
{
    let id: &str = match cache_member_ref(v, "cache_id") {
        Some(c) => match json_as_str(c) {
            Some(s) => s,
            None => "command_run",
        },
        None => "command_run",
    };
    call_id_from_cache_id(id)
}

/// The function call that a command_run result answers.
pub fn function_call_value(v: &JsonValue) -> (r: JsonValue)
    ensures
        json_data(r) == function_call_item(json_data(*v)),
{
    let arguments = json_to_string(&member_or_null(v, "input"));
    let mut ms: Vec<(String, JsonValue)> = Vec::new();
    ms.push(("type".to_string(), JsonValue::Str("function_call".to_string())));
    ms.push(("name".to_string(), JsonValue::Str("command_run".to_string())));
    ms.push(("arguments".to_string(), JsonValue::Str(arguments)));
    ms.push(("call_id".to_string(), JsonValue::Str(run_call_id_value(v))));
    ms.push(("status".to_string(), JsonValue::Str("completed".to_string())));
    match json_get(v, "provider_metadata") {
        Some(p) => ms.push(("provider_metadata".to_string(), copy_json(p))),
        None => {},
    }
    proof {
        lemma_object_data(ms@);
        assert(object_data(ms@) =~= function_call_item(json_data(*v))->Object_0);
    }
    JsonValue::Object(ms)
}

/// The output of the function call that a command_run result answers.
pub fn function_call_output_value(v: &JsonValue) -> (r: JsonValue)
    ensures
        json_data(r) == function_call_output_item(json_data(*v)),
{
    let text = json_to_string_pretty(&strip_command_run_context_noise(member_or_null(v, "output")));
    let mut ms: Vec<(String, JsonValue)> = Vec::new();
    ms.push(("type".to_string(), JsonValue::Str("function_call_output".to_string())));
    ms.push(("call_id".to_string(), JsonValue::Str(run_call_id_value(v))));
    ms.push(("output".to_string(), JsonValue::Str(text)));
    proof {
        lemma_object_data(ms@);
        assert(object_data(ms@) =~= function_call_output_item(json_data(*v))->Object_0);
    }
    JsonValue::Object(ms)
}

fn is_command_run_value(v: &JsonValue) -> (b: bool)
    ensures
        b == is_command_run(json_data(*v)),
{
    match json_member_str(v, "tool_name") {
        Some(n) => same_text(n, "command_run"),
        None => false,
    }
}

/// The context messages computed for a tool result.
pub fn immutable_tool_result_context_messages(v: &JsonValue) -> (r: Vec<JsonValue>)
    ensures
        array_data(r@) == computed_tool_messages(json_data(*v)),
{
    let mut out = no_messages();
    if is_command_run_value(v) {
        push_msg(&mut out, function_call_value(v));
        push_msg(&mut out, function_call_output_value(v));
    } else {
        push_msg(&mut out, tool_context_message_value(v));
    }
    out
}

/// The messages one log entry gives.
pub fn immutable_context_messages_from_log_entry(v: &JsonValue) -> (r: Vec<JsonValue>)
    ensures
        array_data(r@) == entry_messages(json_data(*v)),
{
    match v {
        JsonValue::Object(_) => {},
        _ => return no_messages(),
    }
    match json_member_str(v, "role") {
        Some(role) => {
            if same_text(role, "user") || same_text(role, "system") || same_text(role, "assistant") {
                let mut out = no_messages();
                match json_get(v, "content") {
                    Some(c) => push_msg(&mut out, role_message(role, copy_json(c))),
                    None => {},
                }
                return out;
            }
        },
        None => {},
    }
    if !type_is(v, "tool_result") {
        return no_messages();
    }
    match json_get(v, "context_messages") {
        Some(m) => {
            let c = copy_json(m);
            match c {
                JsonValue::Array(items) => return items,
                _ => {},
            }
        },
        None => {},
    }
    immutable_tool_result_context_messages(v)
}

/// The messages a checkpoint entry restarts the context with.
pub fn context_compaction_entry_messages(v: &JsonValue) -> (r: Vec<JsonValue>)
    ensures
        array_data(r@) == compaction_entry_messages(json_data(*v)),
{
    let mut out = context_compaction_messages(v, None, "user");
    match json_get(v, "task_management") {
        Some(tm) => {
            let mut text: Vec<char> = Vec::new();
            push_str(&mut text, "TASK_MANAGEMENT_STATE:\n");
            let state = json_to_string(tm);
            push_str(&mut text, state.as_str());
            let s = string_of(&text);
            push_msg(&mut out, message_value("user", s.as_str()));
        },
        None => {},
    }
    proof {
        let d = json_data(*v);
        assert(array_data(out@) =~= compaction_entry_messages(d));
    }
    out
}

fn is_user_message_for(msg: &JsonValue, input: &str) -> (b: bool)
    ensures
        b == user_message_matches(json_data(*msg), input@),
{
    match json_member_str(msg, "role") {
        Some(r) => {
            if !same_text(r, "user") {
                return false;
            }
        },
        None => return false,
    }
    match json_get(msg, "content") {
        Some(c) => user_input_content_matches(c, input),
        None => false,
    }
}

/// The context that a session log replays to: each entry that reads as
/// JSON in order, the last checkpoint restarting the context, and the
/// initial user input put first when no checkpoint was seen, it is not
/// blank, and no user message holds it.
pub fn build_messages_from_session(session_log: &Vec<String>, initial_user_input: &str) -> (r: Vec<JsonValue>)
    ensures
        array_data(r@) == replayed_context(log_values(session_log@), initial_user_input@),
{
    let ghost vs = log_values(session_log@);
    let mut messages = no_messages();
    let mut saw = false;
    let mut i: usize = 0;
    assert(vs.take(0) =~= Seq::<Option<JsonData>>::empty());
    while i < session_log.len()
        invariant
            i <= session_log.len(),
            vs == log_values(session_log@),
            (array_data(messages@), saw) == context_fold(vs.take(i as int)),
        decreases session_log.len() - i,
    {
        assert(vs.take(i + 1).drop_last() =~= vs.take(i as int));
        assert(vs.take(i + 1).last() == parsed_json(session_log@[i as int]@));
        match parse_json(session_log[i].as_str()) {
            Some(value) => {
                if type_is(&value, "context_compaction") {
                    messages = context_compaction_entry_messages(&value);
                    saw = true;
                } else {
                    let extra = immutable_context_messages_from_log_entry(&value);
                    append_messages(&mut messages, extra);
                }
            },
            None => {},
        }
        i = i + 1;
    }
    assert(vs.take(i as int) =~= vs);
    let trimmed = trim(&chars_of(initial_user_input));
    if saw || trimmed.len() == 0 {
        return messages;
    }
    let ghost ms = array_data(messages@);
    proof {
        lemma_array_data(messages@);
    }
    let mut found = false;
    let mut j: usize = 0;
    while j < messages.len()
        invariant
            j <= messages.len(),
            ms == array_data(messages@),
            ms.len() == messages.len(),
            forall|k: int| 0 <= k < messages.len() ==> #[trigger] ms[k] == json_data(messages@[k]),
            found == exists|k: int| 0 <= k < j && user_message_matches(#[trigger] ms[k], initial_user_input@),
        decreases messages.len() - j,
    {
        let hit = is_user_message_for(&messages[j], initial_user_input);
        proof {
            if hit {
                assert(user_message_matches(ms[j as int], initial_user_input@));
            }
        }
        found = found || hit;
        j = j + 1;
    }
    if found {
        return messages;
    }
    let text = string_of(&trimmed);
    let mut out = no_messages();
    push_msg(&mut out, role_message("user", user_input_content_value(text.as_str())));
    append_messages(&mut out, messages);
    out
}

/// Whether none of the entries is a checkpoint.
pub open spec fn no_checkpoint(vs: Seq<Option<JsonData>>) -> bool {
    forall|j: int| 0 <= j < vs.len() ==> !(#[trigger] vs[j] matches Some(d) && has_type(d, "context_compaction"@))
}

proof fn lemma_fold_extends(vs: Seq<Option<JsonData>>, more: Seq<Option<JsonData>>)
    requires
        no_checkpoint(more),
    ensures
        context_fold(vs + more).1 == context_fold(vs).1,
        context_fold(vs).0.is_prefix_of(context_fold(vs + more).0),
    decreases more.len(),
{
    if more.len() == 0 {
        assert(vs + more =~= vs);
    } else {
        let shorter = more.drop_last();
        assert(no_checkpoint(shorter)) by {
            assert forall|j: int| 0 <= j < shorter.len() implies !(#[trigger] shorter[j] matches Some(d) && has_type(
                d,
                "context_compaction"@,
            )) by {
                assert(shorter[j] == more[j]);
            }
        }
        lemma_fold_extends(vs, shorter);
        assert((vs + more).drop_last() =~= vs + shorter);
        assert((vs + more).last() == more[more.len() - 1]);
        let a = context_fold(vs).0;
        let b = context_fold(vs + shorter).0;
        let c = context_fold(vs + more).0;
        assert(a =~= b.subrange(0, a.len() as int));
        match more[more.len() - 1] {
            Some(d) => {
                assert(c == b + entry_messages(d));
                assert(a =~= c.subrange(0, a.len() as int));
            },
            None => {},
        }
    }
}

/// Prior context is append-only: while the appended log entries hold no
/// checkpoint, the context the longer log replays to begins with the whole
/// context of the shorter one, so no earlier message, tool results among
/// them, is ever rewritten. The one case left out is an appended user
/// message that brings in the initial input the replay had put in front.
pub proof fn law_context_is_append_only(vs: Seq<Option<JsonData>>, more: Seq<Option<JsonData>>, input: Seq<char>)
    requires
        no_checkpoint(more),
        initial_input_placed(vs, input) ==> initial_input_placed(vs + more, input),
    ensures
        replayed_context(vs, input).is_prefix_of(replayed_context(vs + more, input)),
{
    lemma_fold_extends(vs, more);
    let a = context_fold(vs).0;
    let c = context_fold(vs + more).0;
    assert(a =~= c.subrange(0, a.len() as int));
    if initial_input_placed(vs, input) {
        let u = seq![message_data("user"@, user_content(trim_ws(input)))];
        assert((u + a) =~= (u + c).subrange(0, (u + a).len() as int));
    } else if initial_input_placed(vs + more, input) {
        let k = choose|k: int| 0 <= k < a.len() && user_message_matches(#[trigger] a[k], input);
        assert(c[k] == a[k]);
        assert(has_input_message(c, input));
    }
}

proof fn lemma_fold_after_checkpoint(vs: Seq<Option<JsonData>>, d: JsonData, more: Seq<Option<JsonData>>)
    requires
        has_type(d, "context_compaction"@),
    ensures
        context_fold(vs.push(Some(d)) + more) == context_fold(seq![Some(d)] + more),
    decreases more.len(),
{
    if more.len() == 0 {
        assert(vs.push(Some(d)) + more =~= vs.push(Some(d)));
        assert(seq![Some(d)] + more =~= seq![Some(d)]);
        assert(seq![Some(d)].drop_last() =~= Seq::<Option<JsonData>>::empty());
    } else {
        lemma_fold_after_checkpoint(vs, d, more.drop_last());
        assert((vs.push(Some(d)) + more).drop_last() =~= vs.push(Some(d)) + more.drop_last());
        assert((seq![Some(d)] + more).drop_last() =~= seq![Some(d)] + more.drop_last());
    }
}

/// A checkpoint forgets what came before it: two logs that share a
/// checkpoint entry and everything after it replay to the same context,
/// whatever entries precede the checkpoint.
pub proof fn law_checkpoint_forgets_earlier_entries(
    earlier: Seq<Option<JsonData>>,
    other_earlier: Seq<Option<JsonData>>,
    checkpoint: JsonData,
    later: Seq<Option<JsonData>>,
    input: Seq<char>,
)
    requires
        has_type(checkpoint, "context_compaction"@),
    ensures
        replayed_context(earlier.push(Some(checkpoint)) + later, input) == replayed_context(
            other_earlier.push(Some(checkpoint)) + later,
            input,
        ),
{
    lemma_fold_after_checkpoint(earlier, checkpoint, later);
    lemma_fold_after_checkpoint(other_earlier, checkpoint, later);
}

/// What the last tool call answered, as the context reports it.
pub open spec fn last_response_data(d: JsonData) -> JsonData {
    JsonData::Object(
        seq![
            ("tool_name"@, or_null(member(d, "tool_name"@))),
            ("input"@, context_sized(or_null(member(d, "input"@)))),
            ("output"@, cached_output(d)),
            ("success"@, success_flag(d)),
            ("error"@, cached_error(d)),
            ("timestamp"@, or_null(member(d, "timestamp"@))),
        ],
    )
}

/// The report of the last tool result in a log, if it has one.
pub open spec fn last_tool_response(vs: Seq<Option<JsonData>>) -> Option<JsonData>
    decreases vs.len(),
{
    if vs.len() == 0 {
        None
    } else if vs.last() matches Some(d) && has_type(d, "tool_result"@) {
        Some(last_response_data(vs.last().unwrap()))
    } else {
        last_tool_response(vs.drop_last())
    }
}

fn last_response_value(v: &JsonValue) -> (r: JsonValue)
    ensures
        json_data(r) == last_response_data(json_data(*v)),
{
    let mut ms: Vec<(String, JsonValue)> = Vec::new();
    ms.push(("tool_name".to_string(), member_or_null(v, "tool_name")));
    ms.push(("input".to_string(), compact_json_for_context(member_or_null(v, "input"))));
    ms.push(("output".to_string(), cached_context_output(v)));
    ms.push(("success".to_string(), success_value(v)));
    ms.push(("error".to_string(), cached_context_error(v)));
    ms.push(("timestamp".to_string(), member_or_null(v, "timestamp")));
    proof {
        lemma_object_data(ms@);
        assert(object_data(ms@) =~= last_response_data(json_data(*v))->Object_0);
    }
    JsonValue::Object(ms)
}

/// The report of the last tool result in a session log.
pub fn last_tool_call_response_from_session(session_log: &Vec<String>) -> (r: Option<JsonValue>)
    ensures
        opt_json_data(r) == last_tool_response(log_values(session_log@)),
{
    let ghost vs = log_values(session_log@);
    let mut i: usize = session_log.len();
    assert(vs.take(i as int) =~= vs);
    while i > 0
        invariant
            i <= session_log.len(),
            vs == log_values(session_log@),
            last_tool_response(vs) == last_tool_response(vs.take(i as int)),
        decreases i,
    {
        assert(vs.take(i as int).drop_last() =~= vs.take(i - 1));
        assert(vs.take(i as int).last() == parsed_json(session_log@[i - 1]@));
        match parse_json(session_log[i - 1].as_str()) {
            Some(v) => {
                if type_is(&v, "tool_result") {
                    return Some(last_response_value(&v));
                }
            },
            None => {},
        }
        i = i - 1;
    }
    None
}

/// One tool call of the current turn: the tool, its input, and what the
/// agent reported of it.
pub struct ToolCallRecord {
    pub tool_called_name: String,
    pub tool_called_input: JsonValue,
    pub agent_reported_summary: Option<String>,
    pub tool_reported_success: Option<bool>,
}

pub open spec fn opt_text_data(o: Option<Seq<char>>) -> JsonData {
    match o {
        Some(t) => JsonData::Str(t),
        None => JsonData::Null,
    }
}

/// A tool call of the turn as the context state lists it.
pub open spec fn tool_call_data(c: ToolCallRecord) -> JsonData {
    JsonData::Object(
        seq![
            ("tool_name"@, JsonData::Str(c.tool_called_name@)),
            ("input"@, json_data(c.tool_called_input)),
            ("summary"@, opt_text_data(
                match c.agent_reported_summary {
                    Some(s) => Some(s@),
                    None => None,
                },
            )),
            ("success"@, match c.tool_reported_success {
                Some(b) => JsonData::Bool(b),
                None => JsonData::Null,
            }),
        ],
    )
}

fn tool_call_value(c: &ToolCallRecord) -> (r: JsonValue)
    ensures
        json_data(r) == tool_call_data(*c),
{
    let mut ms: Vec<(String, JsonValue)> = Vec::new();
    ms.push(("tool_name".to_string(), JsonValue::Str(c.tool_called_name.clone())));
    ms.push(("input".to_string(), copy_json(&c.tool_called_input)));
    ms.push((
        "summary".to_string(),
        match &c.agent_reported_summary {
            Some(s) => JsonValue::Str(s.clone()),
            None => JsonValue::Null,
        },
    ));
    ms.push((
        "success".to_string(),
        match c.tool_reported_success {
            Some(b) => JsonValue::Bool(b),
            None => JsonValue::Null,
        },
    ));
    proof {
        lemma_object_data(ms@);
        assert(object_data(ms@) =~= tool_call_data(*c)->Object_0);
    }
    JsonValue::Object(ms)
}

/// The reasoning of the turn as a system message.
pub open spec fn reasoning_message(r: Seq<char>) -> JsonData {
    JsonData::Object(
        seq![
            ("role"@, JsonData::Str("system"@)),
            ("type"@, JsonData::Str("reasoning"@)),
            ("content"@, JsonData::Str(r)),
        ],
    )
}

pub open spec fn opt_str_view(o: Option<&str>) -> Option<Seq<char>> {
    match o {
        Some(s) => Some(s@),
        None => None,
    }
}

/// The turn's reasoning when it is not empty.
pub open spec fn reasoning_history(reasoning: Option<Seq<char>>) -> Seq<Seq<char>> {
    match reasoning {
        Some(r) => if r.len() > 0 {
            seq![r]
        } else {
            Seq::empty()
        },
        None => Seq::empty(),
    }
}

/// What opens a context that the log leaves empty: the reasoning, then the
/// assistant's text, each when it is not empty.
pub open spec fn opening_messages(reasoning: Option<Seq<char>>, text: Seq<char>) -> Seq<JsonData> {
    reasoning_history(reasoning).map_values(|r: Seq<char>| reasoning_message(r)) + if text.len() > 0 {
        seq![message_data("assistant"@, JsonData::Str(text))]
    } else {
        Seq::empty()
    }
}

/// The messages of a built context: the replayed log (or, when it is empty,
/// the opening messages), then the additional messages.
pub open spec fn built_messages(
    vs: Seq<Option<JsonData>>,
    input: Seq<char>,
    reasoning: Option<Seq<char>>,
    text: Seq<char>,
    additional: Seq<JsonData>,
) -> Seq<JsonData> {
    let base = replayed_context(vs, input);
    (if base.len() == 0 {
        opening_messages(reasoning, text)
    } else {
        base
    }) + additional
}

/// A built context: the messages for the model, and the state kept beside
/// them.
pub struct ContextOutput {
    pub messages: Vec<JsonValue>,
    pub tool_results: Vec<JsonValue>,
    pub reasoning_history: Vec<String>,
    pub last_tool_call_response: Option<JsonValue>,
}

/// Builds the context of a turn from the session log.
pub fn build_context(
    session_log: &Vec<String>,
    initial_user_input: &str,
    use_last_tool_call_response: bool,
    reasoning: Option<&str>,
    text: &str,
    tool_calls: &Vec<ToolCallRecord>,
    additional: Vec<JsonValue>,
) -> (r: ContextOutput)
    ensures
        array_data(r.messages@) == built_messages(
            log_values(session_log@),
            initial_user_input@,
            opt_str_view(reasoning),
            text@,
            array_data(additional@),
        ),
        r.reasoning_history@.map_values(|s: String| s@) == reasoning_history(opt_str_view(reasoning)),
        array_data(r.tool_results@) == tool_calls@.map_values(|c: ToolCallRecord| tool_call_data(c)),
        opt_json_data(r.last_tool_call_response) == if use_last_tool_call_response {
            last_tool_response(log_values(session_log@))
        } else {
            None
        },
{
    let mut messages = build_messages_from_session(session_log, initial_user_input);
    let mut history: Vec<String> = Vec::new();
    let ghost rv = opt_str_view(reasoning);
    match reasoning {
        Some(r) => {
            if chars_of(r).len() > 0 {
                history.push(r.to_string());
            }
        },
        None => {},
    }
    proof {
        assert(history@.map_values(|s: String| s@) =~= reasoning_history(rv));
    }
    if messages.len() == 0 {
        proof {
            lemma_array_data(messages@);
        }
        match reasoning {
            Some(r) => {
                if chars_of(r).len() > 0 {
                    let mut ms: Vec<(String, JsonValue)> = Vec::new();
                    ms.push(("role".to_string(), JsonValue::Str("system".to_string())));
                    ms.push(("type".to_string(), JsonValue::Str("reasoning".to_string())));
                    ms.push(("content".to_string(), JsonValue::Str(r.to_string())));
                    proof {
                        lemma_object_data(ms@);
                        assert(object_data(ms@) =~= reasoning_message(r@)->Object_0);
                    }
                    push_msg(&mut messages, JsonValue::Object(ms));
                }
            },
            None => {},
        }
        proof {
            assert(array_data(messages@) =~= reasoning_history(rv).map_values(|r: Seq<char>| reasoning_message(r)));
        }
        if chars_of(text).len() > 0 {
            push_msg(&mut messages, message_value("assistant", text));
        }
        proof {
            assert(array_data(messages@) =~= opening_messages(rv, text@));
        }
    }
    let mut tool_results: Vec<JsonValue> = Vec::new();
    let mut i: usize = 0;
    while i < tool_calls.len()
        invariant
            i <= tool_calls.len(),
            array_data(tool_results@) == tool_calls@.take(i as int).map_values(|c: ToolCallRecord| tool_call_data(c)),
        decreases tool_calls.len() - i,
    {
        push_msg(&mut tool_results, tool_call_value(&tool_calls[i]));
        assert(tool_calls@.take(i + 1).map_values(|c: ToolCallRecord| tool_call_data(c)) =~= tool_calls@.take(
            i as int,
        ).map_values(|c: ToolCallRecord| tool_call_data(c)).push(tool_call_data(tool_calls@[i as int])));
        i = i + 1;
    }
    assert(tool_calls@.take(i as int) =~= tool_calls@);
    let last = if use_last_tool_call_response {
        last_tool_call_response_from_session(session_log)
    } else {
        None
    };
    append_messages(&mut messages, additional);
    ContextOutput { messages, tool_results, reasoning_history: history, last_tool_call_response: last }
}

/// How many entries of a log are tool results.
pub open spec fn tool_result_count(vs: Seq<Option<JsonData>>) -> nat
    decreases vs.len(),
{
    if vs.len() == 0 {
        0
    } else {
        tool_result_count(vs.drop_last()) + if vs.last() matches Some(d) && has_type(d, "tool_result"@) {
            1nat
        } else {
            0nat
        }
    }
}

proof fn lemma_tool_result_count_bound(vs: Seq<Option<JsonData>>)
    ensures
        tool_result_count(vs) <= vs.len(),
    decreases vs.len(),
{
    if vs.len() > 0 {
        lemma_tool_result_count_bound(vs.drop_last());
    }
}

/// The number of tool results already in a session log.
pub fn count_tool_results(session_log: &Vec<String>) -> (n: usize)
    ensures
        n == tool_result_count(log_values(session_log@)),
{
    let ghost vs = log_values(session_log@);
    let mut n: usize = 0;
    let mut i: usize = 0;
    while i < session_log.len()
        invariant
            i <= session_log.len(),
            vs == log_values(session_log@),
            n == tool_result_count(vs.take(i as int)),
        decreases session_log.len() - i,
    {
        assert(vs.take(i + 1).drop_last() =~= vs.take(i as int));
        assert(vs.take(i + 1).last() == parsed_json(session_log@[i as int]@));
        proof {
            lemma_tool_result_count_bound(vs.take(i as int));
        }
        match parse_json(session_log[i].as_str()) {
            Some(v) => {
                if type_is(&v, "tool_result") {
                    n = n + 1;
                }
            },
            None => {},
        }
        i = i + 1;
    }
    assert(vs.take(i as int) =~= vs);
    n
}

/// An object with one more member at its end; any other value as it is.
pub open spec fn with_member(d: JsonData, key: Seq<char>, value: JsonData) -> JsonData {
    match d {
        JsonData::Object(ms) => JsonData::Object(ms.push((key, value))),
        other => other,
    }
}

fn add_member(v: JsonValue, key: &str, value: JsonValue) -> (r: JsonValue)
    ensures
        json_data(r) == with_member(json_data(v), key@, json_data(value)),
{
    let ghost vd = json_data(value);
    match v {
        JsonValue::Object(ms) => {
            let mut ms = ms;
            let ghost before = ms@;
            ms.push((key.to_string(), value));
            proof {
                lemma_object_data(before);
                lemma_object_data(ms@);
                assert(object_data(ms@) =~= object_data(before).push((key@, vd)));
            }
            JsonValue::Object(ms)
        },
        other => other,
    }
}

/// The fields of a tool result as it is logged, before its context fields:
/// the input without its reporting fields, the error as text or null, the
/// sequence number, the time, and the provider's metadata when there is one.
pub open spec fn tool_result_fields(
    tool_name: Seq<char>,
    input: JsonData,
    output: JsonData,
    success: bool,
    error: Option<Seq<char>>,
    provider_metadata: Option<JsonData>,
    sequence: nat,
    timestamp: Seq<char>,
) -> JsonData {
    let base = seq![
        ("type"@, JsonData::Str("tool_result"@)),
        ("tool_name"@, JsonData::Str(tool_name)),
        ("input"@, without_keys(KeySet::Reporting, input)),
        ("output"@, output),
        ("success"@, JsonData::Bool(success)),
        ("error"@, opt_text_data(error)),
        ("sequence"@, JsonData::Number(decimal(sequence))),
        ("timestamp"@, JsonData::Str(timestamp)),
    ];
    match provider_metadata {
        Some(p) => JsonData::Object(base.push(("provider_metadata"@, p))),
        None => JsonData::Object(base),
    }
}

/// The context cache of a tool result: its output and error cut to the
/// context budget, and an id that hashes them with the call.
pub open spec fn context_cache_data(d: JsonData) -> JsonData {
    let output = context_sized(tool_context_output(d));
    let error = context_sized(or_null(member(d, "error"@)));
    let id_input = JsonData::Object(
        seq![
            ("version"@, JsonData::Number("1"@)),
            ("sequence"@, or_null(member(d, "sequence"@))),
            ("tool_name"@, or_null(member(d, "tool_name"@))),
            ("input"@, context_sized(or_null(member(d, "input"@)))),
            ("output"@, output),
            ("success"@, success_flag(d)),
            ("error"@, error),
        ],
    );
    JsonData::Object(
        seq![
            ("version"@, JsonData::Number("1"@)),
            ("cache_id"@, JsonData::Str(context_cache_id(id_input))),
            ("output"@, output),
            ("error"@, error),
        ],
    )
}

/// The context cache of a tool result.
pub fn tool_result_context_cache(v: &JsonValue) -> (r: JsonValue)
    ensures
        json_data(r) == context_cache_data(json_data(*v)),
{
    let output = compact_json_for_context(strip_command_run_context_noise(member_or_null(v, "output")));
    let error = compact_json_for_context(member_or_null(v, "error"));
    let mut ids: Vec<(String, JsonValue)> = Vec::new();
    ids.push(("version".to_string(), JsonValue::Number("1".to_string())));
    ids.push(("sequence".to_string(), member_or_null(v, "sequence")));
    ids.push(("tool_name".to_string(), member_or_null(v, "tool_name")));
    ids.push(("input".to_string(), compact_json_for_context(member_or_null(v, "input"))));
    ids.push(("output".to_string(), copy_json(&output)));
    ids.push(("success".to_string(), success_value(v)));
    ids.push(("error".to_string(), copy_json(&error)));
    let ghost od = json_data(output);
    let ghost ed = json_data(error);
    proof {
        lemma_object_data(ids@);
    }
    let id_input = JsonValue::Object(ids);
    let cache_id = stable_context_cache_id(&id_input);
    let mut ms: Vec<(String, JsonValue)> = Vec::new();
    ms.push(("version".to_string(), JsonValue::Number("1".to_string())));
    ms.push(("cache_id".to_string(), JsonValue::Str(cache_id)));
    ms.push(("output".to_string(), output));
    ms.push(("error".to_string(), error));
    proof {
        let d = json_data(*v);
        assert(object_data(ids@) =~= seq![
            ("version"@, JsonData::Number("1"@)),
            ("sequence"@, or_null(member(d, "sequence"@))),
            ("tool_name"@, or_null(member(d, "tool_name"@))),
            ("input"@, context_sized(or_null(member(d, "input"@)))),
            ("output"@, od),
            ("success"@, success_flag(d)),
            ("error"@, ed),
        ]);
        lemma_object_data(ms@);
        assert(object_data(ms@) =~= context_cache_data(d)->Object_0);
    }
    JsonValue::Object(ms)
}

/// The single context message of a tool result: the output text for
/// command_run, the context item for any other tool.
pub open spec fn context_message_data(d: JsonData) -> JsonData {
    if is_command_run(d) {
        message_data("user"@, JsonData::Str(run_output_text(d)))
    } else {
        tool_context_message(d)
    }
}

fn immutable_tool_result_context_message(v: &JsonValue) -> (r: JsonValue)
    ensures
        json_data(r) == context_message_data(json_data(*v)),
{
    if is_command_run_value(v) {
        let text = json_to_string_pretty(&strip_command_run_context_noise(member_or_null(v, "output")));
        message_value("user", text.as_str())
    } else {
        tool_context_message_value(v)
    }
}

/// A logged tool result: its fields, then its context cache, its context
/// message and its context messages, each computed from what stands
/// before it. These stored messages are what every later replay shows.
pub open spec fn tool_result_record_data(fields: JsonData) -> JsonData {
    let d1 = with_member(fields, "context_cache"@, context_cache_data(fields));
    let d2 = with_member(d1, "context_message"@, context_message_data(d1));
    with_member(d2, "context_messages"@, JsonData::Array(computed_tool_messages(d2)))
}

proof fn lemma_member_absent(ms: Seq<(Seq<char>, JsonData)>, key: Seq<char>)
    requires
        forall|i: int| 0 <= i < ms.len() ==> #[trigger] ms[i].0 != key,
    ensures
        member_in(ms, key) is None,
    decreases ms.len(),
{
    if ms.len() > 0 {
        assert(ms[0].0 != key);
        lemma_member_absent(ms.drop_first(), key);
    }
}

proof fn lemma_member_is_last(ms: Seq<(Seq<char>, JsonData)>, key: Seq<char>)
    requires
        ms.len() > 0,
        ms.last().0 == key,
        forall|i: int| 0 <= i < ms.len() - 1 ==> #[trigger] ms[i].0 != key,
    ensures
        member_in(ms, key) == Some(ms.last().1),
    decreases ms.len(),
{
    if ms.len() > 1 {
        assert(ms[0].0 != key);
        let rest = ms.drop_first();
        assert(rest.last() == ms.last());
        assert forall|i: int| 0 <= i < rest.len() - 1 implies #[trigger] rest[i].0 != key by {
            assert(rest[i] == ms[i + 1]);
        }
        lemma_member_is_last(rest, key);
    }
}

/// A logged tool result replays to the context messages computed when it
/// was logged: the replay reads them back from the record instead of
/// computing them again, so what a tool result shows is fixed once it is
/// in the log.
pub proof fn law_logged_tool_result_replays_its_stored_messages(
    tool_name: Seq<char>,
    input: JsonData,
    output: JsonData,
    success: bool,
    error: Option<Seq<char>>,
    provider_metadata: Option<JsonData>,
    sequence: nat,
    timestamp: Seq<char>,
)
    ensures
        ({
            let fields = tool_result_fields(
                tool_name,
                input,
                output,
                success,
                error,
                provider_metadata,
                sequence,
                timestamp,
            );
            let d1 = with_member(fields, "context_cache"@, context_cache_data(fields));
            let d2 = with_member(d1, "context_message"@, context_message_data(d1));
            entry_messages(tool_result_record_data(fields)) == computed_tool_messages(d2)
        }),
{
    reveal_strlit("type");
    reveal_strlit("tool_name");
    reveal_strlit("input");
    reveal_strlit("output");
    reveal_strlit("success");
    reveal_strlit("error");
    reveal_strlit("sequence");
    reveal_strlit("timestamp");
    reveal_strlit("provider_metadata");
    reveal_strlit("context_cache");
    reveal_strlit("context_message");
    reveal_strlit("context_messages");
    reveal_strlit("role");
    reveal_strlit("tool_result");
    let fields = tool_result_fields(tool_name, input, output, success, error, provider_metadata, sequence, timestamp);
    let d1 = with_member(fields, "context_cache"@, context_cache_data(fields));
    let d2 = with_member(d1, "context_message"@, context_message_data(d1));
    let record = tool_result_record_data(fields);
    let ms = record->Object_0;
    assert(ms[0].0 == "type"@);
    assert(member(record, "type"@) == Some(ms[0].1));
    assert(has_type(record, "tool_result"@));
    assert forall|i: int| 0 <= i < ms.len() implies #[trigger] ms[i].0 != "role"@ by {
        assert(ms[i].0.len() != 4 || ms[i].0[0] != 'r');
    }
    assert forall|i: int| 0 <= i < ms.len() - 1 implies #[trigger] ms[i].0 != "context_messages"@ by {
        assert(ms[i].0.len() != 16);
    }
    assert(ms.last() == ("context_messages"@, JsonData::Array(computed_tool_messages(d2))));
    lemma_member_absent(ms, "role"@);
    lemma_member_is_last(ms, "context_messages"@);
}

/// The tool result that is logged for one tool call.
pub fn tool_result_record(
    tool_name: &str,
    tool_input: JsonValue,
    tool_output: JsonValue,
    tool_success: bool,
    tool_error: Option<&str>,
    provider_metadata: Option<JsonValue>,
    sequence: u64,
    timestamp: &str,
) -> (r: JsonValue)
    ensures
        json_data(r) == tool_result_record_data(
            tool_result_fields(
                tool_name@,
                json_data(tool_input),
                json_data(tool_output),
                tool_success,
                opt_str_view(tool_error),
                opt_json_data(provider_metadata),
                sequence as nat,
                timestamp@,
            ),
        ),
{
    let ghost fields = tool_result_fields(
        tool_name@,
        json_data(tool_input),
        json_data(tool_output),
        tool_success,
        opt_str_view(tool_error),
        opt_json_data(provider_metadata),
        sequence as nat,
        timestamp@,
    );
    let mut digits: Vec<char> = Vec::new();
    push_decimal(&mut digits, sequence);
    let mut ms: Vec<(String, JsonValue)> = Vec::new();
    ms.push(("type".to_string(), JsonValue::Str("tool_result".to_string())));
    ms.push(("tool_name".to_string(), JsonValue::Str(tool_name.to_string())));
    ms.push(("input".to_string(), strip_tool_reporting_fields(tool_input)));
    ms.push(("output".to_string(), tool_output));
    ms.push(("success".to_string(), JsonValue::Bool(tool_success)));
    ms.push((
        "error".to_string(),
        match tool_error {
            Some(e) => JsonValue::Str(e.to_string()),
            None => JsonValue::Null,
        },
    ));
    ms.push(("sequence".to_string(), JsonValue::Number(string_of(&digits))));
    ms.push(("timestamp".to_string(), JsonValue::Str(timestamp.to_string())));
    match provider_metadata {
        Some(p) => ms.push(("provider_metadata".to_string(), p)),
        None => {},
    }
    proof {
        lemma_object_data(ms@);
        assert(object_data(ms@) =~= fields->Object_0);
    }
    let v0 = JsonValue::Object(ms);
    let cache = tool_result_context_cache(&v0);
    let v1 = add_member(v0, "context_cache", cache);
    let message = immutable_tool_result_context_message(&v1);
    let v2 = add_member(v1, "context_message", message);
    let items = immutable_tool_result_context_messages(&v2);
    add_member(v2, "context_messages", JsonValue::Array(items))
}

/// Logs the result of one tool call: the record, numbered one past the
/// tool results already in the log and stamped with `timestamp`, as JSON
/// text at the end of the log.
pub fn append_tool_result(
    session_log: &mut Vec<String>,
    tool_name: &str,
    tool_input: JsonValue,
    tool_output: JsonValue,
    tool_success: bool,
    tool_error: Option<&str>,
    provider_metadata: Option<JsonValue>,
    timestamp: &str,
)
    requires
        old(session_log)@.len() < usize::MAX,
    ensures
        final(session_log)@ == old(session_log)@.push(final(session_log)@.last()),
        final(session_log)@.last()@ == json_text(
            tool_result_record_data(
                tool_result_fields(
                    tool_name@,
                    json_data(tool_input),
                    json_data(tool_output),
                    tool_success,
                    opt_str_view(tool_error),
                    opt_json_data(provider_metadata),
                    tool_result_count(log_values(old(session_log)@)) + 1,
                    timestamp@,
                ),
            ),
        ),
{
    let count = count_tool_results(session_log);
    proof {
        lemma_tool_result_count_bound(log_values(session_log@));
    }
    let sequence: u64 = count as u64 + 1;
    let record = tool_result_record(
        tool_name,
        tool_input,
        tool_output,
        tool_success,
        tool_error,
        provider_metadata,
        sequence,
        timestamp,
    );
    let text = json_to_string(&record);
    session_log.push(text);
}

/// Logs the result of one tool call, stamped with the current time (RFC
/// 3339, from the clock).
pub fn accumulate_tool_result_with_provider_metadata(
    session_log: &mut Vec<String>,
    tool_name: &str,
    tool_input: JsonValue,
    tool_output: JsonValue,
    tool_success: bool,
    tool_error: Option<&str>,
    provider_metadata: Option<JsonValue>,
) -> (r: Result<(), String>)
    requires
        old(session_log)@.len() < usize::MAX,
    ensures
        r is Ok,
        final(session_log)@ == old(session_log)@.push(final(session_log)@.last()),
        exists|timestamp: Seq<char>|
            final(session_log)@.last()@ == json_text(
                tool_result_record_data(
                    #[trigger] tool_result_fields(
                        tool_name@,
                        json_data(tool_input),
                        json_data(tool_output),
                        tool_success,
                        opt_str_view(tool_error),
                        opt_json_data(provider_metadata),
                        tool_result_count(log_values(old(session_log)@)) + 1,
                        timestamp,
                    ),
                ),
            ),
{
    let now = now_moment();
    let ghost fields = tool_result_fields(
        tool_name@,
        json_data(tool_input),
        json_data(tool_output),
        tool_success,
        opt_str_view(tool_error),
        opt_json_data(provider_metadata),
        tool_result_count(log_values(session_log@)) + 1,
        now.timestamp@,
    );
    append_tool_result(
        session_log,
        tool_name,
        tool_input,
        tool_output,
        tool_success,
        tool_error,
        provider_metadata,
        now.timestamp.as_str(),
    );
    assert(final(session_log)@.last()@ == json_text(tool_result_record_data(fields)));
    Ok(())
}

/// Logs the result of one tool call without provider metadata.
pub fn accumulate_tool_result(
    session_log: &mut Vec<String>,
    tool_name: &str,
    tool_input: JsonValue,
    tool_output: JsonValue,
    tool_success: bool,
    tool_error: Option<&str>,
) -> (r: Result<(), String>)
    requires
        old(session_log)@.len() < usize::MAX,
    ensures
        r is Ok,
        final(session_log)@ == old(session_log)@.push(final(session_log)@.last()),
        exists|timestamp: Seq<char>|
            final(session_log)@.last()@ == json_text(
                tool_result_record_data(
                    #[trigger] tool_result_fields(
                        tool_name@,
                        json_data(tool_input),
                        json_data(tool_output),
                        tool_success,
                        opt_str_view(tool_error),
                        None,
                        tool_result_count(log_values(old(session_log)@)) + 1,
                        timestamp,
                    ),
                ),
            ),
{
    accumulate_tool_result_with_provider_metadata(
        session_log,
        tool_name,
        tool_input,
        tool_output,
        tool_success,
        tool_error,
        None,
    )
}

/// Logs one dialog message: its role and content as JSON text.
pub fn accumulate_message(session_log: &mut Vec<String>, role: &str, content: JsonValue) -> (r: Result<(), String>)
    ensures
        r is Ok,
        final(session_log)@ == old(session_log)@.push(final(session_log)@.last()),
        final(session_log)@.last()@ == json_text(message_data(role@, json_data(content))),
{
    let message = role_message(role, content);
    let text = json_to_string(&message);
    session_log.push(text);
    Ok(())
}

/// Logs the result of one tool call. The command feedback and the earlier
/// summary that callers pass along are not logged: a logged tool result is
/// never rewritten by what is said of it later.
pub fn accumulate_tool_result_with_feedback(
    session_log: &mut Vec<String>,
    tool_name: &str,
    tool_input: JsonValue,
    tool_output: JsonValue,
    tool_success: bool,
    tool_error: Option<&str>,
    command_feedback: Option<JsonValue>,
    last_tool_call_summary: Option<&str>,
) -> (r: Result<(), String>)
    requires
        old(session_log)@.len() < usize::MAX,
    ensures
        r is Ok,
        final(session_log)@ == old(session_log)@.push(final(session_log)@.last()),
        exists|timestamp: Seq<char>|
            final(session_log)@.last()@ == json_text(
                tool_result_record_data(
                    #[trigger] tool_result_fields(
                        tool_name@,
                        json_data(tool_input),
                        json_data(tool_output),
                        tool_success,
                        opt_str_view(tool_error),
                        None,
                        tool_result_count(log_values(old(session_log)@)) + 1,
                        timestamp,
                    ),
                ),
            ),
{
    accumulate_tool_result_with_provider_metadata(
        session_log,
        tool_name,
        tool_input,
        tool_output,
        tool_success,
        tool_error,
        None,
    )
}

/// The messages sent for a turn: the context messages as they are. The
/// provider, the model and whether this is the first call add nothing.
pub fn messages_with_runtime_context(
    messages: &Vec<JsonValue>,
    provider_name: Option<&str>,
    model_name: Option<&str>,
    is_first_llm_call: bool,
) -> (r: Vec<JsonValue>)
    ensures
        array_data(r@) == array_data(messages@),
{
    let mut out = no_messages();
    let mut i: usize = 0;
    proof {
        lemma_array_data(messages@);
    }
    while i < messages.len()
        invariant
            i <= messages.len(),
            array_data(out@) == array_data(messages@.take(i as int)),
        decreases messages.len() - i,
    {
        push_msg(&mut out, copy_json(&messages[i]));
        proof {
            lemma_array_data(messages@.take(i + 1));
            lemma_array_data(messages@.take(i as int));
            assert(array_data(messages@.take(i + 1)) =~= array_data(messages@.take(i as int)).push(
                json_data(messages@[i as int]),
            ));
        }
        i = i + 1;
    }
    assert(messages@.take(i as int) =~= messages@);
    out
}

/// The most tokens a checkpoint's content keeps.
pub const COMPACT_CONTENT_MAX_TOKENS: usize = 20_000;

/// The checkpoint entry a compaction logs: the handoff text, trimmed and
/// cut to the token budget; the rendered workspace snapshot (an empty one
/// when none was taken); the environment context; the task state; the time.
pub open spec fn checkpoint_entry_data(
    compact_text: Seq<char>,
    workspace_snapshot: Option<Seq<char>>,
    environment_context: Seq<char>,
    task_management: JsonData,
    timestamp: Seq<char>,
) -> JsonData {
    JsonData::Object(
        seq![
            ("type"@, JsonData::Str("context_compaction"@)),
            ("content"@, JsonData::Str(token_budget_text(trim_ws(compact_text), COMPACT_CONTENT_MAX_TOKENS as nat))),
            ("workspace_snapshot"@, JsonData::Str(
                match workspace_snapshot {
                    Some(w) => w,
                    None => EMPTY_WORKSPACE_SNAPSHOT@,
                },
            )),
            ("environment_context"@, JsonData::Str(environment_context)),
            ("task_management"@, task_management),
            ("timestamp"@, JsonData::Str(timestamp)),
        ],
    )
}

/// The checkpoint entry a compaction logs.
pub fn checkpoint_entry(
    compact_text: &str,
    workspace_snapshot: Option<&str>,
    environment_context: &str,
    task_management: JsonValue,
    timestamp: &str,
) -> (r: JsonValue)
    ensures
        json_data(r) == checkpoint_entry_data(
            compact_text@,
            opt_str_view(workspace_snapshot),
            environment_context@,
            json_data(task_management),
            timestamp@,
        ),
{
    let trimmed = string_of(&trim(&chars_of(compact_text)));
    let content = truncate_text_to_token_budget(trimmed.as_str(), COMPACT_CONTENT_MAX_TOKENS);
    let snapshot = match workspace_snapshot {
        Some(w) => w.to_string(),
        None => EMPTY_WORKSPACE_SNAPSHOT.to_string(),
    };
    let ghost tm = json_data(task_management);
    let mut ms: Vec<(String, JsonValue)> = Vec::new();
    ms.push(("type".to_string(), JsonValue::Str("context_compaction".to_string())));
    ms.push(("content".to_string(), JsonValue::Str(content)));
    ms.push(("workspace_snapshot".to_string(), JsonValue::Str(snapshot)));
    ms.push(("environment_context".to_string(), JsonValue::Str(environment_context.to_string())));
    ms.push(("task_management".to_string(), task_management));
    ms.push(("timestamp".to_string(), JsonValue::Str(timestamp.to_string())));
    proof {
        lemma_object_data(ms@);
        assert(object_data(ms@) =~= checkpoint_entry_data(
            compact_text@,
            opt_str_view(workspace_snapshot),
            environment_context@,
            tm,
            timestamp@,
        )->Object_0);
    }
    JsonValue::Object(ms)
}

/// Logs a context checkpoint, stamped with the current time (RFC 3339,
/// from the clock). Every later replay starts from it.
pub fn compact_session_context(
    session_log: &mut Vec<String>,
    compact_text: &str,
    workspace_snapshot: Option<&str>,
    environment_context: &str,
    task_management: JsonValue,
) -> (r: Result<(), String>)
    ensures
        r is Ok,
        final(session_log)@ == old(session_log)@.push(final(session_log)@.last()),
        exists|timestamp: Seq<char>|
            final(session_log)@.last()@ == json_text(
                #[trigger] checkpoint_entry_data(
                    compact_text@,
                    opt_str_view(workspace_snapshot),
                    environment_context@,
                    json_data(task_management),
                    timestamp,
                ),
            ),
{
    let now = now_moment();
    let ghost d = checkpoint_entry_data(
        compact_text@,
        opt_str_view(workspace_snapshot),
        environment_context@,
        json_data(task_management),
        now.timestamp@,
    );
    let entry = checkpoint_entry(compact_text, workspace_snapshot, environment_context, task_management, now.timestamp.as_str());
    let text = json_to_string(&entry);
    session_log.push(text);
    assert(final(session_log)@.last()@ == json_text(d));
    Ok(())
}

} // verus!
