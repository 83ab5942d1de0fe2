//! The records that put an operation manual into a session's context: the
//! manual's prompt, and the command_run commands it adds, each appended to
//! the log (and to the turn's messages) once per stretch between context
//! checkpoints.
use vstd::prelude::*;
use crate::context::media::text_views;
use crate::manas::tool_catalog::has_text;
use crate::text::{chars_of, join, join_chars, push_chars, push_str, string_of};
use crate::chars::{trim, trim_ws};
use crate::checkpoint::session_messages::{int_number, int_text};
use crate::context::compaction::{message_data, message_value, moment_view, Moment};
use crate::context::timeline::{moment_in_range, now_moment};
use crate::json::{
    flat_object, key_count, member_in, member_text, parsed_json, array_data, json_data, json_text, json_to_string, lemma_array_data, lemma_object_data,
    object_data, JsonData, JsonValue,
};
use crate::prompt_style::runtime_prompt_manual::{
    manual_view, manual_views, record_present_since, runtime_prompt_command_run_capability_present_since_last_compact,
    runtime_prompt_manual_present_since_last_compact, string_views, ManualView, RuntimePromptManual,
    RUNTIME_PROMPT_COMMAND_RUN_CAPABILITY_RECORD_TYPE, RUNTIME_PROMPT_MANUAL_RECORD_TYPE,
};

verus! {

/// A capability of a manual as command_run offers it: its canonical
/// command name, and the command's format line when command_run has one.
pub type CapabilityLine = (Seq<char>, Option<Seq<char>>);

pub open spec fn capability_line_views(caps: Seq<(String, Option<String>)>) -> Seq<CapabilityLine> {
    caps.map_values(
        |c: (String, Option<String>)|
            (
                c.0@,
                match c.1 {
                    Some(l) => Some(l@),
                    None => None,
                },
            ),
    )
}

/// The capabilities taken in order: command_run itself, blank names and
/// names seen before are passed over; the others are seen, and kept with
/// their format line when they have one. The result is (seen, kept names,
/// kept lines).
pub open spec fn capability_fold(caps: Seq<CapabilityLine>) -> (Seq<Seq<char>>, Seq<Seq<char>>, Seq<Seq<char>>)
    decreases caps.len(),
{
    if caps.len() == 0 {
        (Seq::empty(), Seq::empty(), Seq::empty())
    } else {
        let prev = capability_fold(caps.drop_last());
        let name = caps.last().0;
        if name == "command_run"@ || name.len() == 0 || prev.0.contains(name) {
            prev
        } else {
            match caps.last().1 {
                Some(line) => (prev.0.push(name), prev.1.push(name), prev.2.push(line)),
                None => (prev.0.push(name), prev.1, prev.2),
            }
        }
    }
}

/// The system message that extends command_run with a manual's commands,
/// and those commands; none when the manual adds no command with a format.
pub open spec fn capability_content(manual_id: Seq<char>, caps: Seq<CapabilityLine>) -> Option<(Seq<char>, Seq<Seq<char>>)> {
    let folded = capability_fold(caps);
    if folded.2.len() == 0 {
        None
    } else {
        Some(
            (
                "[runtime_prompt_command_run_capabilities]\nThe active `"@ + manual_id
                    + "` Operation Manual adds these command_run commands. Treat this system message as an additional command_run command format extension for the current context.\nCommand line formats:\n"@
                    + join(folded.2, "\n"@),
                folded.1,
            ),
        )
    }
}

pub open spec fn opt_content_view(o: Option<(String, Vec<String>)>) -> Option<(Seq<char>, Seq<Seq<char>>)> {
    match o {
        Some((c, names)) => Some((c@, text_views(names@))),
        None => None,
    }
}

/// The command_run extension of the manual `manual_id`, given each of its
/// capabilities as its canonical command name and that command's format
/// line.
pub fn command_run_capability_content(manual_id: &str, capabilities: &Vec<(String, Option<String>)>) -> (r: Option<(String, Vec<String>)>)
    ensures
        opt_content_view(r) == capability_content(manual_id@, capability_line_views(capabilities@)),
{
    let ghost cv = capability_line_views(capabilities@);
    let mut seen: Vec<String> = Vec::new();
    let mut names: Vec<String> = Vec::new();
    let mut lines: Vec<Vec<char>> = Vec::new();
    let mut i: usize = 0;
    assert(cv.take(0) =~= Seq::<CapabilityLine>::empty());
    assert(text_views(seen@) =~= Seq::<Seq<char>>::empty());
    assert(text_views(names@) =~= Seq::<Seq<char>>::empty());
    assert(lines@.map_values(|w: Vec<char>| w@) =~= Seq::<Seq<char>>::empty());
    while i < capabilities.len()
        invariant
            i <= capabilities.len(),
            cv == capability_line_views(capabilities@),
            cv.len() == capabilities.len(),
            (text_views(seen@), text_views(names@), lines@.map_values(|w: Vec<char>| w@)) == capability_fold(
                cv.take(i as int),
            ),
        decreases capabilities.len() - i,
    {
        assert(cv.take(i + 1).drop_last() =~= cv.take(i as int));
        assert(cv.take(i + 1).last() == cv[i as int]);
        let name = &capabilities[i].0;
        let skip = crate::manas::tool_catalog::same_text(name.as_str(), "command_run")
            || chars_of(name.as_str()).len() == 0 || has_text(&seen, name.as_str());
        if !skip {
            let ghost s0 = seen@;
            seen.push(name.clone());
            assert(text_views(seen@) =~= text_views(s0).push(name@));
            match &capabilities[i].1 {
                Some(line) => {
                    let ghost n0 = names@;
                    let ghost l0 = lines@;
                    names.push(name.clone());
                    lines.push(chars_of(line.as_str()));
                    assert(text_views(names@) =~= text_views(n0).push(name@));
                    assert(lines@.map_values(|w: Vec<char>| w@) =~= l0.map_values(|w: Vec<char>| w@).push(line@));
                },
                None => {},
            }
        }
        i = i + 1;
    }
    assert(cv.take(i as int) =~= cv);
    if lines.len() == 0 {
        return None;
    }
    let mut out: Vec<char> = Vec::new();
    push_str(&mut out, "[runtime_prompt_command_run_capabilities]\nThe active `");
    push_str(&mut out, manual_id);
    push_str(&mut out, "` Operation Manual adds these command_run commands. Treat this system message as an additional command_run command format extension for the current context.\nCommand line formats:\n");
    let joined = join_chars(&lines, "\n");
    push_chars(&mut out, &joined);
    Some((string_of(&out), names))
}

/// A record's time in milliseconds (`DateTime::timestamp_millis`).
pub open spec fn moment_millis(at: (i64, u32, Seq<char>)) -> int {
    at.0 * 1000 + at.1 / 1_000_000
}

/// The record of a manual's prompt put into the context at `at`.
pub open spec fn manual_record(m: ManualView, content: Seq<char>, at: (i64, u32, Seq<char>)) -> JsonData {
    JsonData::Object(
        seq![
            ("type"@, JsonData::Str(RUNTIME_PROMPT_MANUAL_RECORD_TYPE@)),
            ("task_type"@, JsonData::Str(m.0)),
            ("manual_name"@, JsonData::Str(m.1)),
            ("role"@, JsonData::Str("system"@)),
            ("content"@, JsonData::Str(content)),
            ("created_at"@, JsonData::Number(int_text(moment_millis(at)))),
            ("updated_at"@, JsonData::Number(int_text(moment_millis(at)))),
            ("timestamp"@, JsonData::Str(at.2)),
        ],
    )
}

pub open spec fn name_values(names: Seq<Seq<char>>) -> Seq<JsonData> {
    names.map_values(|n: Seq<char>| JsonData::Str(n))
}

/// The record of a manual's command_run extension put into the context at
/// `at`.
pub open spec fn capability_record(
    m: ManualView,
    content: Seq<char>,
    names: Seq<Seq<char>>,
    at: (i64, u32, Seq<char>),
) -> JsonData {
    JsonData::Object(
        seq![
            ("type"@, JsonData::Str(RUNTIME_PROMPT_COMMAND_RUN_CAPABILITY_RECORD_TYPE@)),
            ("task_type"@, JsonData::Str(m.0)),
            ("manual_name"@, JsonData::Str(m.1)),
            ("role"@, JsonData::Str("system"@)),
            ("capabilities"@, JsonData::Array(name_values(names))),
            ("content"@, JsonData::Str(content)),
            ("created_at"@, JsonData::Number(int_text(moment_millis(at)))),
            ("updated_at"@, JsonData::Number(int_text(moment_millis(at)))),
            ("timestamp"@, JsonData::Str(at.2)),
        ],
    )
}

/// What appending manuals works on: the session log, the turn's messages
/// when there are some, whether anything was added, and how many clock
/// readings were used.
pub type AppendState = (Seq<Seq<char>>, Option<Seq<JsonData>>, bool, nat);

pub open spec fn push_message_opt(msgs: Option<Seq<JsonData>>, m: JsonData) -> Option<Seq<JsonData>> {
    match msgs {
        Some(s) => Some(s.push(m)),
        None => None,
    }
}

/// One manual appended: its prompt, when not blank and not already in the
/// context since the last checkpoint; then its command_run extension, when
/// it has one and that is not already there. Each record takes the next
/// clock reading of `times`.
pub open spec fn manual_step(
    state: AppendState,
    m: ManualView,
    content: Option<(Seq<char>, Seq<Seq<char>>)>,
    times: Seq<(i64, u32, Seq<char>)>,
) -> AppendState {
    let prompt = trim_ws(m.5);
    let s1: AppendState = if !record_present_since(state.0, RUNTIME_PROMPT_MANUAL_RECORD_TYPE@, m.0, state.0.len())
        && prompt.len() > 0 {
        (
            state.0.push(json_text(manual_record(m, prompt, times[state.3 as int]))),
            push_message_opt(state.1, message_data("system"@, JsonData::Str(prompt))),
            true,
            state.3 + 1,
        )
    } else {
        state
    };
    if record_present_since(s1.0, RUNTIME_PROMPT_COMMAND_RUN_CAPABILITY_RECORD_TYPE@, m.0, s1.0.len()) {
        s1
    } else {
        match content {
            Some((c, names)) => (
                s1.0.push(json_text(capability_record(m, c, names, times[s1.3 as int]))),
                push_message_opt(s1.1, message_data("system"@, JsonData::Str(c))),
                true,
                s1.3 + 1,
            ),
            None => s1,
        }
    }
}

/// The manuals appended one after the other.
pub open spec fn manuals_fold(
    manuals: Seq<ManualView>,
    contents: Seq<Option<(Seq<char>, Seq<Seq<char>>)>>,
    init: AppendState,
    times: Seq<(i64, u32, Seq<char>)>,
) -> AppendState
    decreases manuals.len(),
{
    if manuals.len() == 0 {
        init
    } else {
        manual_step(
            manuals_fold(manuals.drop_last(), contents, init, times),
            manuals.last(),
            contents[manuals.len() - 1],
            times,
        )
    }
}

pub open spec fn contents_view(contents: Seq<Option<(String, Vec<String>)>>) -> Seq<Option<(Seq<char>, Seq<Seq<char>>)>> {
    contents.map_values(|c: Option<(String, Vec<String>)>| opt_content_view(c))
}

pub open spec fn opt_messages_view(m: Option<Vec<JsonValue>>) -> Option<Seq<JsonData>> {
    match m {
        Some(v) => Some(array_data(v@)),
        None => None,
    }
}

/// A log line that serde_json reads as a record of `record_type` for the
/// task type `id`.
pub open spec fn reads_as_record(line: Seq<char>, record_type: Seq<char>, id: Seq<char>) -> bool {
    &&& parsed_json(line) is Some
    &&& member_text(parsed_json(line).unwrap(), "type"@) == Some(record_type)
    &&& member_text(parsed_json(line).unwrap(), "task_type"@) == Some(id)
}

proof fn lemma_record_keys(ms: Seq<(Seq<char>, JsonData)>, record_type: Seq<char>, id: Seq<char>)
    requires
        ms.len() >= 2,
        ms[0] == ("type"@, JsonData::Str(record_type)),
        ms[1] == ("task_type"@, JsonData::Str(id)),
        forall|i: int| 2 <= i < ms.len() ==> (#[trigger] ms[i]).0 != "type"@ && ms[i].0 != "task_type"@,
    ensures
        key_count(ms, "type"@) == 1,
        key_count(ms, "task_type"@) == 1,
        member_text(JsonData::Object(ms), "type"@) == Some(record_type),
        member_text(JsonData::Object(ms), "task_type"@) == Some(id),
    decreases ms.len(),
{
    reveal_strlit("type");
    reveal_strlit("task_type");
    assert("type"@ != "task_type"@) by {
        assert("type"@.len() != "task_type"@.len());
    }
    if ms.len() > 2 {
        lemma_record_keys(ms.drop_last(), record_type, id);
        assert(ms.drop_last()[0] == ms[0]);
        assert(ms.drop_last()[1] == ms[1]);
        assert(ms.last() == ms[ms.len() - 1]);
    } else {
        let rest = ms.drop_last();
        assert(rest.drop_last().len() == 0);
        assert(rest.last() == ms[0]);
        assert(key_count(rest.drop_last(), "type"@) == 0);
        assert(key_count(rest.drop_last(), "task_type"@) == 0);
        assert(key_count(rest, "type"@) == 1);
        assert(key_count(rest, "task_type"@) == 0);
        assert(ms.last() == ms[1]);
    }
    assert(ms.drop_first()[0] == ms[1]);
    assert(member_in(ms.drop_first(), "task_type"@) == Some(JsonData::Str(id)));
}

fn record_string(m: &RuntimePromptManual, content: &str, names: Option<&Vec<String>>, at: &Moment) -> (r: String)
    requires
        moment_in_range(moment_view(*at)),
    ensures
        r@ == json_text(
            match names {
                Some(n) => capability_record(manual_view(*m), content@, text_views(n@), moment_view(*at)),
                None => manual_record(manual_view(*m), content@, moment_view(*at)),
            },
        ),
        reads_as_record(
            r@,
            match names {
                Some(_) => RUNTIME_PROMPT_COMMAND_RUN_CAPABILITY_RECORD_TYPE@,
                None => RUNTIME_PROMPT_MANUAL_RECORD_TYPE@,
            },
            m.id@,
        ),
{
    let millis: i64 = at.seconds * 1000 + (at.nanos / 1_000_000) as i64;
    let mut ms: Vec<(String, JsonValue)> = Vec::new();
    match names {
        Some(_) => ms.push(("type".to_string(), JsonValue::Str(RUNTIME_PROMPT_COMMAND_RUN_CAPABILITY_RECORD_TYPE.to_string()))),
        None => ms.push(("type".to_string(), JsonValue::Str(RUNTIME_PROMPT_MANUAL_RECORD_TYPE.to_string()))),
    }
    ms.push(("task_type".to_string(), JsonValue::Str(m.id.clone())));
    ms.push(("manual_name".to_string(), JsonValue::Str(m.display_name.clone())));
    ms.push(("role".to_string(), JsonValue::Str("system".to_string())));
    let ghost mut caps_data: Seq<JsonData> = Seq::empty();
    match names {
        Some(n) => {
            let mut items: Vec<JsonValue> = Vec::new();
            let mut i: usize = 0;
            while i < n.len()
                invariant
                    i <= n.len(),
                    items.len() == i,
                    forall|j: int| 0 <= j < i ==> #[trigger] json_data(items@[j]) == JsonData::Str(n@[j]@),
                decreases n.len() - i,
            {
                items.push(JsonValue::Str(n[i].clone()));
                i = i + 1;
            }
            proof {
                lemma_array_data(items@);
                assert(array_data(items@) =~= name_values(text_views(n@)));
                caps_data = array_data(items@);
            }
            ms.push(("capabilities".to_string(), JsonValue::Array(items)));
        },
        None => {},
    }
    ms.push(("content".to_string(), JsonValue::Str(content.to_string())));
    ms.push(("created_at".to_string(), int_number(millis)));
    ms.push(("updated_at".to_string(), int_number(millis)));
    ms.push(("timestamp".to_string(), JsonValue::Str(at.timestamp.clone())));
    proof {
        lemma_object_data(ms@);
        let mv = manual_view(*m);
        let at_v = moment_view(*at);
        match names {
            Some(n) => {
                assert(object_data(ms@) =~= seq![
                    ("type"@, JsonData::Str(RUNTIME_PROMPT_COMMAND_RUN_CAPABILITY_RECORD_TYPE@)),
                    ("task_type"@, JsonData::Str(mv.0)),
                    ("manual_name"@, JsonData::Str(mv.1)),
                    ("role"@, JsonData::Str("system"@)),
                    ("capabilities"@, JsonData::Array(name_values(text_views(n@)))),
                    ("content"@, JsonData::Str(content@)),
                    ("created_at"@, JsonData::Number(int_text(moment_millis(at_v)))),
                    ("updated_at"@, JsonData::Number(int_text(moment_millis(at_v)))),
                    ("timestamp"@, JsonData::Str(at_v.2)),
                ]);
            },
            None => {
                assert(object_data(ms@) =~= seq![
                    ("type"@, JsonData::Str(RUNTIME_PROMPT_MANUAL_RECORD_TYPE@)),
                    ("task_type"@, JsonData::Str(mv.0)),
                    ("manual_name"@, JsonData::Str(mv.1)),
                    ("role"@, JsonData::Str("system"@)),
                    ("content"@, JsonData::Str(content@)),
                    ("created_at"@, JsonData::Number(int_text(moment_millis(at_v)))),
                    ("updated_at"@, JsonData::Number(int_text(moment_millis(at_v)))),
                    ("timestamp"@, JsonData::Str(at_v.2)),
                ]);
            },
        }
    }
    proof {
        let record_type = match names {
            Some(_) => RUNTIME_PROMPT_COMMAND_RUN_CAPABILITY_RECORD_TYPE@,
            None => RUNTIME_PROMPT_MANUAL_RECORD_TYPE@,
        };
        let md = object_data(ms@);
        reveal_strlit("type");
        reveal_strlit("task_type");
        reveal_strlit("manual_name");
        reveal_strlit("role");
        reveal_strlit("capabilities");
        reveal_strlit("content");
        reveal_strlit("created_at");
        reveal_strlit("updated_at");
        reveal_strlit("timestamp");
        assert forall|i: int| 2 <= i < md.len() implies (#[trigger] md[i]).0 != "type"@ && md[i].0 != "task_type"@ by {
            assert(md[i].0.len() != "type"@.len() || md[i].0[0] != "type"@[0]);
            assert(md[i].0.len() != "task_type"@.len() || md[i].0[1] != "task_type"@[1]);
        }
        lemma_record_keys(md, record_type, m.id@);
        assert(flat_object(JsonData::Object(md)));
    }
    json_to_string(&JsonValue::Object(ms))
}

proof fn lemma_step_clock(state: AppendState, m: ManualView, c: Option<(Seq<char>, Seq<Seq<char>>)>, times: Seq<(i64, u32, Seq<char>)>)
    ensures
        manual_step(state, m, c, times).3 >= state.3,
{
}

proof fn lemma_step_frame(
    state: AppendState,
    m: ManualView,
    c: Option<(Seq<char>, Seq<Seq<char>>)>,
    t1: Seq<(i64, u32, Seq<char>)>,
    t2: Seq<(i64, u32, Seq<char>)>,
)
    requires
        t1.len() <= t2.len(),
        t2.take(t1.len() as int) == t1,
        manual_step(state, m, c, t1).3 <= t1.len(),
    ensures
        manual_step(state, m, c, t1) == manual_step(state, m, c, t2),
{
    if state.3 < t1.len() {
        assert(t2[state.3 as int] == t2.take(t1.len() as int)[state.3 as int]);
    }
    if state.3 + 1 < t1.len() {
        assert(t2[state.3 + 1int] == t2.take(t1.len() as int)[state.3 + 1int]);
    }
}

proof fn lemma_fold_frame(
    ms: Seq<ManualView>,
    cv: Seq<Option<(Seq<char>, Seq<Seq<char>>)>>,
    init: AppendState,
    t1: Seq<(i64, u32, Seq<char>)>,
    t2: Seq<(i64, u32, Seq<char>)>,
)
    requires
        t1.len() <= t2.len(),
        t2.take(t1.len() as int) == t1,
        manuals_fold(ms, cv, init, t1).3 <= t1.len(),
    ensures
        manuals_fold(ms, cv, init, t1) == manuals_fold(ms, cv, init, t2),
    decreases ms.len(),
{
    if ms.len() > 0 {
        let prev = manuals_fold(ms.drop_last(), cv, init, t1);
        lemma_step_clock(prev, ms.last(), cv[ms.len() - 1], t1);
        lemma_fold_frame(ms.drop_last(), cv, init, t1, t2);
        lemma_step_frame(prev, ms.last(), cv[ms.len() - 1], t1, t2);
    }
}

fn push_system_message(messages: &mut Option<Vec<JsonValue>>, content: &str)
    ensures
        opt_messages_view(*final(messages)) == push_message_opt(
            opt_messages_view(*old(messages)),
            message_data("system"@, JsonData::Str(content@)),
        ),
{
    match messages {
        Some(v) => {
            let ghost before = v@;
            v.push(message_value("system", content));
            proof {
                lemma_array_data(before);
                lemma_array_data(v@);
                assert(array_data(v@) =~= array_data(before).push(message_data("system"@, JsonData::Str(content@))));
            }
        },
        None => {},
    }
}

/// Puts the manuals of a session's task types into its context: each
/// manual's prompt and command_run extension (`capability_contents`, one
/// for each manual) not already there since the last checkpoint is
/// appended to the log as a record stamped with the clock, and to the
/// turn's messages when there are some. Whether anything was added.
pub fn append_missing_runtime_prompt_manuals(
    manuals: &Vec<RuntimePromptManual>,
    capability_contents: &Vec<Option<(String, Vec<String>)>>,
    session_log: &mut Vec<String>,
    current_messages: &mut Option<Vec<JsonValue>>,
) -> (r: Result<bool, String>)
    requires
        capability_contents.len() == manuals.len(),
    ensures
        exists|times: Seq<(i64, u32, Seq<char>)>|
            #[trigger] manuals_fold(
                manual_views(manuals@),
                contents_view(capability_contents@),
                (string_views(old(session_log)@), opt_messages_view(*old(current_messages)), false, 0),
                times,
            ) == (string_views(final(session_log)@), opt_messages_view(*final(current_messages)), r->Ok_0, times.len())
            && r is Ok,
        all_present(manual_views(manuals@), contents_view(capability_contents@), string_views(final(session_log)@)),
{
    let ghost mv = manual_views(manuals@);
    let ghost cv = contents_view(capability_contents@);
    let ghost init: AppendState = (string_views(session_log@), opt_messages_view(*current_messages), false, 0);
    let ghost mut times: Seq<(i64, u32, Seq<char>)> = Seq::empty();
    let mut changed = false;
    let mut i: usize = 0;
    assert(mv.take(0) =~= Seq::<ManualView>::empty());
    while i < manuals.len()
        invariant
            i <= manuals.len(),
            capability_contents.len() == manuals.len(),
            mv == manual_views(manuals@),
            cv == contents_view(capability_contents@),
            mv.len() == manuals.len(),
            cv.len() == capability_contents.len(),
            manuals_fold(mv.take(i as int), cv, init, times) == (
                string_views(session_log@),
                opt_messages_view(*current_messages),
                changed,
                times.len(),
            ),
            all_present(mv.take(i as int), cv, string_views(session_log@)),
        decreases manuals.len() - i,
    {
        assert(mv.take(i + 1).drop_last() =~= mv.take(i as int));
        assert(mv.take(i + 1).last() == mv[i as int]);
        let m = &manuals[i];
        let ghost s0: AppendState = (string_views(session_log@), opt_messages_view(*current_messages), changed, times.len());
        let ghost times0 = times;
        let prompt_chars = trim(&chars_of(m.prompt.as_str()));
        let prompt = string_of(&prompt_chars);
        let ghost pre = mv.take(i as int);
        let ghost id = mv[i as int].0;
        assert(m.id@ == id);
        if !runtime_prompt_manual_present_since_last_compact(session_log, m.id.as_str()) && prompt_chars.len() > 0 {
            let at = now_moment();
            let record = record_string(m, prompt.as_str(), None, &at);
            let ghost log0 = session_log@;
            session_log.push(record);
            proof {
                assert(string_views(session_log@) =~= string_views(log0).push(record@));
                lemma_all_present_push(pre, cv, string_views(log0), record@, RUNTIME_PROMPT_MANUAL_RECORD_TYPE@, id);
                lemma_present_after_record(
                    string_views(log0),
                    record@,
                    RUNTIME_PROMPT_MANUAL_RECORD_TYPE@,
                    id,
                    RUNTIME_PROMPT_MANUAL_RECORD_TYPE@,
                    id,
                );
            }
            push_system_message(current_messages, prompt.as_str());
            changed = true;
            proof {
                times = times.push(moment_view(at));
            }
        }
        let ghost s1: AppendState = (string_views(session_log@), opt_messages_view(*current_messages), changed, times.len());
        if !runtime_prompt_command_run_capability_present_since_last_compact(session_log, m.id.as_str()) {
            match &capability_contents[i] {
                Some((content, names)) => {
                    let at = now_moment();
                    let record = record_string(m, content.as_str(), Some(names), &at);
                    let ghost log1 = session_log@;
                    session_log.push(record);
                    proof {
                        assert(string_views(session_log@) =~= string_views(log1).push(record@));
                        lemma_all_present_push(
                            pre,
                            cv,
                            string_views(log1),
                            record@,
                            RUNTIME_PROMPT_COMMAND_RUN_CAPABILITY_RECORD_TYPE@,
                            id,
                        );
                        if trim_ws(mv[i as int].5).len() > 0 {
                            lemma_present_after_record(
                                string_views(log1),
                                record@,
                                RUNTIME_PROMPT_COMMAND_RUN_CAPABILITY_RECORD_TYPE@,
                                id,
                                RUNTIME_PROMPT_MANUAL_RECORD_TYPE@,
                                id,
                            );
                        }
                        lemma_present_after_record(
                            string_views(log1),
                            record@,
                            RUNTIME_PROMPT_COMMAND_RUN_CAPABILITY_RECORD_TYPE@,
                            id,
                            RUNTIME_PROMPT_COMMAND_RUN_CAPABILITY_RECORD_TYPE@,
                            id,
                        );
                    }
                    push_system_message(current_messages, content.as_str());
                    changed = true;
                    proof {
                        times = times.push(moment_view(at));
                    }
                },
                None => {},
            }
        }
        proof {
            let lg = string_views(session_log@);
            let nxt = mv.take(i + 1);
            assert forall|j: int| 0 <= j < nxt.len() implies (trim_ws((#[trigger] nxt[j]).5).len() > 0
                ==> record_present_since(lg, RUNTIME_PROMPT_MANUAL_RECORD_TYPE@, nxt[j].0, lg.len())) && (
            cv[j] is Some ==> record_present_since(
                lg,
                RUNTIME_PROMPT_COMMAND_RUN_CAPABILITY_RECORD_TYPE@,
                nxt[j].0,
                lg.len(),
            )) by {
                if j < i {
                    assert(nxt[j] == pre[j]);
                } else {
                    assert(nxt[j] == mv[i as int]);
                }
            }
            assert(times.take(times0.len() as int) =~= times0);
            lemma_fold_frame(mv.take(i as int), cv, init, times0, times);
            assert(manuals_fold(mv.take(i + 1), cv, init, times) == manual_step(s0, mv[i as int], cv[i as int], times));
        }
        i = i + 1;
    }
    assert(mv.take(i as int) =~= mv);
    Ok(changed)
}

/// Puts the manuals back into the context after a checkpoint: as
/// `append_missing_runtime_prompt_manuals`, with no turn messages to add
/// to.
pub fn append_runtime_prompt_manuals_after_compact(
    manuals: &Vec<RuntimePromptManual>,
    capability_contents: &Vec<Option<(String, Vec<String>)>>,
    session_log: &mut Vec<String>,
) -> (r: Result<bool, String>)
    requires
        capability_contents.len() == manuals.len(),
    ensures
        exists|times: Seq<(i64, u32, Seq<char>)>|
            #[trigger] manuals_fold(
                manual_views(manuals@),
                contents_view(capability_contents@),
                (string_views(old(session_log)@), None, false, 0),
                times,
            ) == (string_views(final(session_log)@), None::<Seq<JsonData>>, r->Ok_0, times.len())
            && r is Ok,
        all_present(manual_views(manuals@), contents_view(capability_contents@), string_views(final(session_log)@)),
{
    let ghost log0 = string_views(session_log@);
    let mut none: Option<Vec<JsonValue>> = None;
    let r = append_missing_runtime_prompt_manuals(manuals, capability_contents, session_log, &mut none);
    proof {
        let mv = manual_views(manuals@);
        let cv = contents_view(capability_contents@);
        let times = choose|times: Seq<(i64, u32, Seq<char>)>|
            #[trigger] manuals_fold(mv, cv, (log0, None, false, 0), times) == (
                string_views(session_log@),
                opt_messages_view(none),
                r->Ok_0,
                times.len(),
            ) && r is Ok;
        lemma_fold_without_messages(mv, cv, (log0, None, false, 0), times);
    }
    r
}

proof fn lemma_fold_without_messages(
    ms: Seq<ManualView>,
    cv: Seq<Option<(Seq<char>, Seq<Seq<char>>)>>,
    init: AppendState,
    times: Seq<(i64, u32, Seq<char>)>,
)
    requires
        init.1 is None,
    ensures
        manuals_fold(ms, cv, init, times).1 is None,
    decreases ms.len(),
{
    if ms.len() > 0 {
        lemma_fold_without_messages(ms.drop_last(), cv, init, times);
    }
}

/// Whether `b` begins with `a`.
pub open spec fn extends<A>(a: Seq<A>, b: Seq<A>) -> bool {
    a.len() <= b.len() && b.take(a.len() as int) == a
}

pub open spec fn messages_extend(a: Option<Seq<JsonData>>, b: Option<Seq<JsonData>>) -> bool {
    a is Some ==> (b is Some && extends(a.unwrap(), b.unwrap()))
}

proof fn lemma_extends_push<A>(a: Seq<A>, x: A)
    ensures
        extends(a, a.push(x)),
{
    assert(a.push(x).take(a.len() as int) =~= a);
}

proof fn lemma_extends_trans<A>(a: Seq<A>, b: Seq<A>, c: Seq<A>)
    requires
        extends(a, b),
        extends(b, c),
    ensures
        extends(a, c),
{
    assert forall|k: int| 0 <= k < a.len() implies #[trigger] c.take(a.len() as int)[k] == a[k] by {
        assert(c[k] == c.take(b.len() as int)[k]);
        assert(b[k] == b.take(a.len() as int)[k]);
    }
    assert(c.take(a.len() as int) =~= a);
}

proof fn lemma_step_extends(
    state: AppendState,
    m: ManualView,
    c: Option<(Seq<char>, Seq<Seq<char>>)>,
    times: Seq<(i64, u32, Seq<char>)>,
)
    ensures
        extends(state.0, manual_step(state, m, c, times).0),
        messages_extend(state.1, manual_step(state, m, c, times).1),
{
    let next = manual_step(state, m, c, times);
    assert(state.0.take(state.0.len() as int) =~= state.0);
    let prompt = trim_ws(m.5);
    let first = !record_present_since(state.0, RUNTIME_PROMPT_MANUAL_RECORD_TYPE@, m.0, state.0.len()) && prompt.len() > 0;
    let s1: AppendState = if first {
        (
            state.0.push(json_text(manual_record(m, prompt, times[state.3 as int]))),
            push_message_opt(state.1, message_data("system"@, JsonData::Str(prompt))),
            true,
            state.3 + 1,
        )
    } else {
        state
    };
    if first {
        lemma_extends_push(state.0, json_text(manual_record(m, prompt, times[state.3 as int])));
        if state.1 is Some {
            lemma_extends_push(state.1.unwrap(), message_data("system"@, JsonData::Str(prompt)));
        }
    }
    if state.1 is Some {
        assert(state.1.unwrap().take(state.1.unwrap().len() as int) =~= state.1.unwrap());
    }
    if !record_present_since(s1.0, RUNTIME_PROMPT_COMMAND_RUN_CAPABILITY_RECORD_TYPE@, m.0, s1.0.len()) {
        match c {
            Some((content, names)) => {
                lemma_extends_push(s1.0, json_text(capability_record(m, content, names, times[s1.3 as int])));
                lemma_extends_trans(state.0, s1.0, next.0);
                if state.1 is Some {
                    lemma_extends_push(s1.1.unwrap(), message_data("system"@, JsonData::Str(content)));
                    lemma_extends_trans(state.1.unwrap(), s1.1.unwrap(), next.1.unwrap());
                }
            },
            None => {},
        }
    }
}

/// Putting manuals into the context only appends: every line of the
/// session log stays, in its place, and the turn's messages likewise only
/// grow.
pub proof fn law_manual_records_append_only(
    manuals: Seq<ManualView>,
    contents: Seq<Option<(Seq<char>, Seq<Seq<char>>)>>,
    init: AppendState,
    times: Seq<(i64, u32, Seq<char>)>,
)
    ensures
        extends(init.0, manuals_fold(manuals, contents, init, times).0),
        messages_extend(init.1, manuals_fold(manuals, contents, init, times).1),
    decreases manuals.len(),
{
    if manuals.len() == 0 {
        assert(init.0.take(init.0.len() as int) =~= init.0);
        if init.1 is Some {
            assert(init.1.unwrap().take(init.1.unwrap().len() as int) =~= init.1.unwrap());
        }
    } else {
        law_manual_records_append_only(manuals.drop_last(), contents, init, times);
        let prev = manuals_fold(manuals.drop_last(), contents, init, times);
        lemma_step_extends(prev, manuals.last(), contents[manuals.len() - 1], times);
        let next = manuals_fold(manuals, contents, init, times);
        lemma_extends_trans(init.0, prev.0, next.0);
        if init.1 is Some {
            lemma_extends_trans(init.1.unwrap(), prev.1.unwrap(), next.1.unwrap());
        }
    }
}

proof fn lemma_present_prefix(log: Seq<Seq<char>>, x: Seq<char>, record_type: Seq<char>, id: Seq<char>, n: nat)
    requires
        n <= log.len(),
    ensures
        record_present_since(log.push(x), record_type, id, n) == record_present_since(log, record_type, id, n),
    decreases n,
{
    if n > 0 {
        assert(log.push(x)[n - 1] == log[n - 1]);
        lemma_present_prefix(log, x, record_type, id, (n - 1) as nat);
    }
}

proof fn lemma_record_types_differ()
    ensures
        RUNTIME_PROMPT_MANUAL_RECORD_TYPE@ != "context_compaction"@,
        RUNTIME_PROMPT_COMMAND_RUN_CAPABILITY_RECORD_TYPE@ != "context_compaction"@,
        RUNTIME_PROMPT_MANUAL_RECORD_TYPE@ != RUNTIME_PROMPT_COMMAND_RUN_CAPABILITY_RECORD_TYPE@,
{
    reveal_strlit("runtime_prompt_manual");
    reveal_strlit("runtime_prompt_command_run_capabilities");
    reveal_strlit("context_compaction");
    assert(RUNTIME_PROMPT_MANUAL_RECORD_TYPE@[0] != "context_compaction"@[0]);
    assert(RUNTIME_PROMPT_COMMAND_RUN_CAPABILITY_RECORD_TYPE@[0] != "context_compaction"@[0]);
    assert(RUNTIME_PROMPT_MANUAL_RECORD_TYPE@.len() != RUNTIME_PROMPT_COMMAND_RUN_CAPABILITY_RECORD_TYPE@.len());
}

/// Appending a record line keeps every record that was present since the
/// last checkpoint, and makes its own record present.
proof fn lemma_present_after_record(
    log: Seq<Seq<char>>,
    x: Seq<char>,
    x_type: Seq<char>,
    x_id: Seq<char>,
    record_type: Seq<char>,
    id: Seq<char>,
)
    requires
        reads_as_record(x, x_type, x_id),
        x_type == RUNTIME_PROMPT_MANUAL_RECORD_TYPE@ || x_type == RUNTIME_PROMPT_COMMAND_RUN_CAPABILITY_RECORD_TYPE@,
        record_present_since(log, record_type, id, log.len()) || (record_type == x_type && id == x_id),
    ensures
        record_present_since(log.push(x), record_type, id, log.push(x).len()),
{
    lemma_record_types_differ();
    lemma_present_prefix(log, x, record_type, id, log.len());
    assert(log.push(x)[log.len() as int] == x);
}

/// After a manual pass, every manual's prompt (when not blank) and every
/// command_run extension it was given are in the context since the last
/// checkpoint.
pub open spec fn all_present(
    manuals: Seq<ManualView>,
    contents: Seq<Option<(Seq<char>, Seq<Seq<char>>)>>,
    log: Seq<Seq<char>>,
) -> bool {
    forall|i: int|
        0 <= i < manuals.len() ==> (trim_ws((#[trigger] manuals[i]).5).len() > 0 ==> record_present_since(
            log,
            RUNTIME_PROMPT_MANUAL_RECORD_TYPE@,
            manuals[i].0,
            log.len(),
        )) && (contents[i] is Some ==> record_present_since(
            log,
            RUNTIME_PROMPT_COMMAND_RUN_CAPABILITY_RECORD_TYPE@,
            manuals[i].0,
            log.len(),
        ))
}

/// A second manual pass right after the first adds nothing: when every
/// manual's prompt and extension are already in the context since the last
/// checkpoint, the pass leaves the log and the messages as they are and
/// reports no change.
pub proof fn law_second_manual_pass_adds_nothing(
    manuals: Seq<ManualView>,
    contents: Seq<Option<(Seq<char>, Seq<Seq<char>>)>>,
    log: Seq<Seq<char>>,
    messages: Option<Seq<JsonData>>,
    times: Seq<(i64, u32, Seq<char>)>,
)
    requires
        all_present(manuals, contents, log),
    ensures
        manuals_fold(manuals, contents, (log, messages, false, 0), times) == (log, messages, false, 0nat),
    decreases manuals.len(),
{
    if manuals.len() > 0 {
        let prefix = manuals.drop_last();
        assert forall|i: int| 0 <= i < prefix.len() implies (trim_ws((#[trigger] prefix[i]).5).len() > 0
            ==> record_present_since(log, RUNTIME_PROMPT_MANUAL_RECORD_TYPE@, prefix[i].0, log.len())) && (
        contents[i] is Some ==> record_present_since(
            log,
            RUNTIME_PROMPT_COMMAND_RUN_CAPABILITY_RECORD_TYPE@,
            prefix[i].0,
            log.len(),
        )) by {
            assert(prefix[i] == manuals[i]);
        }
        law_second_manual_pass_adds_nothing(prefix, contents, log, messages, times);
        let last = manuals.len() - 1;
        assert(manuals[last] == manuals.last());
    }
}

proof fn lemma_all_present_push(
    ms: Seq<ManualView>,
    cv: Seq<Option<(Seq<char>, Seq<Seq<char>>)>>,
    log: Seq<Seq<char>>,
    x: Seq<char>,
    x_type: Seq<char>,
    x_id: Seq<char>,
)
    requires
        all_present(ms, cv, log),
        reads_as_record(x, x_type, x_id),
        x_type == RUNTIME_PROMPT_MANUAL_RECORD_TYPE@ || x_type == RUNTIME_PROMPT_COMMAND_RUN_CAPABILITY_RECORD_TYPE@,
    ensures
        all_present(ms, cv, log.push(x)),
{
    assert forall|i: int| 0 <= i < ms.len() implies (trim_ws((#[trigger] ms[i]).5).len() > 0 ==> record_present_since(
        log.push(x),
        RUNTIME_PROMPT_MANUAL_RECORD_TYPE@,
        ms[i].0,
        log.push(x).len(),
    )) && (cv[i] is Some ==> record_present_since(
        log.push(x),
        RUNTIME_PROMPT_COMMAND_RUN_CAPABILITY_RECORD_TYPE@,
        ms[i].0,
        log.push(x).len(),
    )) by {
        if trim_ws(ms[i].5).len() > 0 {
            lemma_present_after_record(log, x, x_type, x_id, RUNTIME_PROMPT_MANUAL_RECORD_TYPE@, ms[i].0);
        }
        if cv[i] is Some {
            lemma_present_after_record(log, x, x_type, x_id, RUNTIME_PROMPT_COMMAND_RUN_CAPABILITY_RECORD_TYPE@, ms[i].0);
        }
    }
}

/// The command_run extension given for the manual `id` in a catalog: that
/// of the first manual of the catalog with the id, none when it has none.
pub open spec fn content_by_id(
    catalog: Seq<ManualView>,
    contents: Seq<Option<(Seq<char>, Seq<Seq<char>>)>>,
    id: Seq<char>,
) -> Option<(Seq<char>, Seq<Seq<char>>)>
    decreases catalog.len(),
{
    if catalog.len() == 0 || contents.len() == 0 {
        None
    } else if catalog[0].0 == id {
        contents[0]
    } else {
        content_by_id(catalog.drop_first(), contents.drop_first(), id)
    }
}

fn copy_content(c: &Option<(String, Vec<String>)>) -> (r: Option<(String, Vec<String>)>)
    ensures
        opt_content_view(r) == opt_content_view(*c),
{
    match c {
        Some((text, names)) => {
            let mut out: Vec<String> = Vec::new();
            let mut i: usize = 0;
            while i < names.len()
                invariant
                    i <= names.len(),
                    text_views(out@) == text_views(names@).take(i as int),
                decreases names.len() - i,
            {
                let ghost before = out@;
                out.push(names[i].clone());
                assert(text_views(out@) =~= text_views(before).push(names@[i as int]@));
                assert(text_views(names@).take(i + 1) =~= text_views(names@).take(i as int).push(names@[i as int]@));
                i = i + 1;
            }
            assert(text_views(names@).take(names.len() as int) =~= text_views(names@));
            Some((text.clone(), out))
        },
        None => None,
    }
}

fn content_for_id(
    catalog: &Vec<RuntimePromptManual>,
    contents: &Vec<Option<(String, Vec<String>)>>,
    id: &str,
) -> (r: Option<(String, Vec<String>)>)
    ensures
        opt_content_view(r) == content_by_id(manual_views(catalog@), contents_view(contents@), id@),
{
    let ghost mv = manual_views(catalog@);
    let ghost cv = contents_view(contents@);
    let mut i: usize = 0;
    assert(mv.skip(0) =~= mv);
    assert(cv.skip(0) =~= cv);
    while i < catalog.len() && i < contents.len()
        invariant
            i <= catalog.len(),
            i <= contents.len(),
            mv == manual_views(catalog@),
            cv == contents_view(contents@),
            mv.len() == catalog.len(),
            cv.len() == contents.len(),
            content_by_id(mv, cv, id@) == content_by_id(mv.skip(i as int), cv.skip(i as int), id@),
        decreases catalog.len() - i,
    {
        assert(mv.skip(i as int)[0] == manual_view(catalog@[i as int]));
        assert(cv.skip(i as int)[0] == opt_content_view(contents@[i as int]));
        assert(mv.skip(i as int).drop_first() =~= mv.skip(i + 1));
        assert(cv.skip(i as int).drop_first() =~= cv.skip(i + 1));
        if crate::manas::tool_catalog::same_text(catalog[i].id.as_str(), id) {
            return copy_content(&contents[i]);
        }
        i = i + 1;
    }
    assert(mv.skip(i as int).len() == 0 || cv.skip(i as int).len() == 0);
    None
}

/// The extensions of the selected manuals, each looked up by its id.
pub open spec fn selected_contents(
    catalog: Seq<ManualView>,
    contents: Seq<Option<(Seq<char>, Seq<Seq<char>>)>>,
    selected: Seq<ManualView>,
) -> Seq<Option<(Seq<char>, Seq<Seq<char>>)>> {
    selected.map_values(|m: ManualView| content_by_id(catalog, contents, m.0))
}

/// Puts the manuals of a session's task types into its context: nothing
/// when the session has no task type; else the manuals of the catalog
/// that the task types name (fathers first) are appended as
/// `append_missing_runtime_prompt_manuals` does, each with the command_run
/// extension given for its id (`capability_contents` follows the catalog).
pub fn append_runtime_prompt_manuals_for_task_types(
    catalog: &Vec<RuntimePromptManual>,
    capability_contents: &Vec<Option<(String, Vec<String>)>>,
    task_type: &Vec<String>,
    session_log: &mut Vec<String>,
    current_messages: &mut Option<Vec<JsonValue>>,
) -> (r: Result<bool, String>)
    ensures
        task_type@.len() == 0 ==> r == Ok::<bool, String>(false) && final(session_log)@ == old(session_log)@
            && *final(current_messages) == *old(current_messages),
        task_type@.len() > 0 ==> {
            let selected = crate::prompt_style::runtime_prompt_manual::manuals_for_ids(
                manual_views(catalog@),
                string_views(task_type@),
            );
            let contents = selected_contents(manual_views(catalog@), contents_view(capability_contents@), selected);
            &&& exists|times: Seq<(i64, u32, Seq<char>)>|
                #[trigger] manuals_fold(
                    selected,
                    contents,
                    (string_views(old(session_log)@), opt_messages_view(*old(current_messages)), false, 0),
                    times,
                ) == (string_views(final(session_log)@), opt_messages_view(*final(current_messages)), r->Ok_0, times.len())
                && r is Ok
            &&& all_present(selected, contents, string_views(final(session_log)@))
        },
{
    if task_type.len() == 0 {
        return Ok(false);
    }
    let manuals = crate::prompt_style::runtime_prompt_manual::manuals_for_task_type_ids_in(catalog, task_type.as_slice());
    let ghost sel = manual_views(manuals@);
    let mut contents: Vec<Option<(String, Vec<String>)>> = Vec::new();
    let mut i: usize = 0;
    while i < manuals.len()
        invariant
            i <= manuals.len(),
            sel == manual_views(manuals@),
            contents_view(contents@) == selected_contents(manual_views(catalog@), contents_view(capability_contents@), sel.take(i as int)),
            contents@.len() == i,
        decreases manuals.len() - i,
    {
        let c = content_for_id(catalog, capability_contents, manuals[i].id.as_str());
        let ghost before = contents@;
        contents.push(c);
        proof {
            assert(sel[i as int] == manual_view(manuals@[i as int]));
            assert(contents_view(contents@) =~= contents_view(before).push(opt_content_view(c)));
            assert(sel.take(i + 1) =~= sel.take(i as int).push(sel[i as int]));
            assert(selected_contents(manual_views(catalog@), contents_view(capability_contents@), sel.take(i + 1))
                =~= selected_contents(manual_views(catalog@), contents_view(capability_contents@), sel.take(i as int)).push(
                content_by_id(manual_views(catalog@), contents_view(capability_contents@), sel[i as int].0),
            ));
        }
        i = i + 1;
    }
    assert(sel.take(i as int) =~= sel);
    append_missing_runtime_prompt_manuals(&manuals, &contents, session_log, current_messages)
}

} // verus!
