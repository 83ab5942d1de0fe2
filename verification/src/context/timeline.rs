//! The timeline a context checkpoint is rebuilt from: the log lines of the
//! current run, and those kept since the last checkpoint, each placed at
//! the time it carries.
use vstd::prelude::*;
use crate::context::compaction::{
    compact_rebuild_content, compaction_log_entry, compaction_record_data, entry_views, moment_view,
    rebuild_content, EntryView, Moment, TimelineEntry,
};
use crate::manas::runtime_turn::ContextTokens;
use crate::prompt_style::runtime_prompt_manual::string_views;
use crate::chars::{eq_str, trim, trim_ws};
use crate::context::text_truncate::same_chars;
use crate::json::{
    opt_json_data, parse_json, parsed_json, as_flag, json_as_bool, json_data, json_get, json_member_str, json_text, json_to_string, member,
    member_text, JsonData, JsonValue,
};
use crate::text::{chars_of, push_chars, push_str, string_of};
use crate::chars::slice_vec;
use crate::gateway_events::{all_digits, digits_value};
use crate::manas::runtime_turn::parse_u64;
use crate::checkpoint::session_messages::{log_parses, parsed_views};

verus! {

/// The instant that `chrono::DateTime::parse_from_rfc3339` reads from a
/// text, in UTC: seconds and nanoseconds since the Unix epoch and the
/// RFC 3339 text `to_rfc3339` writes for it; none when the text is no
/// RFC 3339 date-time.
pub uninterp spec fn rfc3339_moment(text: Seq<char>) -> Option<(i64, u32, Seq<char>)>;

/// The instant `chrono::Utc.timestamp_millis_opt` makes of a count of
/// milliseconds since the Unix epoch, as seconds, nanoseconds and RFC 3339
/// text; none when it is out of chrono's range.
pub uninterp spec fn millis_moment(millis: int) -> Option<(i64, u32, Seq<char>)>;

/// chrono keeps years within ±262143, so the seconds of an instant lie
/// within nine trillion of the epoch; a leap second keeps its nanoseconds
/// under two billion.
pub open spec fn moment_in_range(m: (i64, u32, Seq<char>)) -> bool {
    -9_000_000_000_000 <= m.0 <= 9_000_000_000_000 && m.1 < 2_000_000_000
}

/// Reads an RFC 3339 date-time with `chrono::DateTime::parse_from_rfc3339`,
/// as an instant in UTC. The contract names the result, a function of the
/// text alone, and bounds it as chrono's range does.
#[verifier::external_body]
pub fn parse_rfc3339_moment(text: &str) -> (r: Option<Moment>)
    ensures
        match r {
            Some(m) => rfc3339_moment(text@) == Some(moment_view(m)) && moment_in_range(moment_view(m)),
            None => rfc3339_moment(text@) is None,
        },
{
    match chrono::DateTime::parse_from_rfc3339(text) {
        Ok(t) => {
            let utc = t.with_timezone(&chrono::Utc);
            Some(Moment { seconds: utc.timestamp(), nanos: utc.timestamp_subsec_nanos(), timestamp: utc.to_rfc3339() })
        },
        Err(_) => None,
    }
}

/// The instant `chrono::Utc.timestamp_millis_opt(millis).single()` makes.
/// The contract names the result, a function of the count alone.
#[verifier::external_body]
pub fn moment_from_millis(millis: i64) -> (r: Option<Moment>)
    ensures
        match r {
            Some(m) => millis_moment(millis as int) == Some(moment_view(m)),
            None => millis_moment(millis as int) is None,
        },
{
    match chrono::TimeZone::timestamp_millis_opt(&chrono::Utc, millis).single() {
        Some(t) => Some(Moment { seconds: t.timestamp(), nanos: t.timestamp_subsec_nanos(), timestamp: t.to_rfc3339() }),
        None => None,
    }
}

/// The present moment (`chrono::Utc::now()`). Nothing is promised of which
/// moment it is; like every chrono instant it lies within chrono's range.
/// chrono panics when the system clock reads a time before 1970; that is a
/// fault of the machine, which no precondition of the caller can rule out.
#[verifier::external_body]
pub(crate) fn now_moment() -> (m: Moment)
    ensures
        moment_in_range(moment_view(m)),
{
    let t = chrono::Utc::now();
    Moment { seconds: t.timestamp(), nanos: t.timestamp_subsec_nanos(), timestamp: t.to_rfc3339() }
}

/// How a value reads on the timeline: a string as itself, anything else
/// as its JSON text.
pub open spec fn value_text(d: JsonData) -> Seq<char> {
    match d {
        JsonData::Str(t) => t,
        _ => json_text(d),
    }
}

fn value_text_of(v: &JsonValue) -> (r: String)
    ensures
        r@ == value_text(json_data(*v)),
{
    match v {
        JsonValue::Str(t) => t.clone(),
        _ => json_to_string(v),
    }
}

pub open spec fn opt_pair_view(o: Option<(String, String)>) -> Option<(Seq<char>, Seq<char>)> {
    match o {
        Some((a, b)) => Some((a@, b@)),
        None => None,
    }
}

/// A message of the log on the timeline: the user's, the agent's, or the
/// runtime's own context for the model (`context_role`), which counts as
/// user context in the current run and as the user's before it.
pub open spec fn role_item(v: JsonData, include_user_context: bool, context_role: Seq<char>) -> Option<(Seq<char>, Seq<char>)> {
    match (member_text(v, "role"@), member(v, "content"@)) {
        (Some(role), Some(c)) => if role == "user"@ {
            Some(("user"@, value_text(c)))
        } else if role == "assistant"@ {
            Some(("agent"@, value_text(c)))
        } else if role == context_role {
            if include_user_context {
                Some(("user_context"@, value_text(c)))
            } else {
                Some(("user"@, value_text(c)))
            }
        } else {
            None
        },
        _ => None,
    }
}

pub fn role_timeline_item(value: &JsonValue, include_user_context: bool, context_role: &str) -> (r: Option<(String, String)>)
    ensures
        opt_pair_view(r) == role_item(json_data(*value), include_user_context, context_role@),
{
    let role = match json_member_str(value, "role") {
        Some(role) => role,
        None => return None,
    };
    let content = match json_get(value, "content") {
        Some(c) => value_text_of(c),
        None => return None,
    };
    let rv = chars_of(role);
    if eq_str(&rv, "user") {
        Some(("user".to_string(), content))
    } else if eq_str(&rv, "assistant") {
        Some(("agent".to_string(), content))
    } else if same_chars(&rv, &chars_of(context_role)) {
        if include_user_context {
            Some(("user_context".to_string(), content))
        } else {
            Some(("user".to_string(), content))
        }
    } else {
        None
    }
}

/// What a tool result shows on the timeline.
pub open spec fn tool_result_output(v: JsonData) -> Option<JsonData> {
    match member(v, "context_cache"@) {
        Some(cache) => match member(cache, "output"@) {
            Some(o) => Some(o),
            None => match member(v, "context_message"@) {
                Some(m) => Some(m),
                None => member(v, "output"@),
            },
        },
        None => match member(v, "context_message"@) {
            Some(m) => Some(m),
            None => member(v, "output"@),
        },
    }
}

/// A tool result on the timeline: the tool, whether it succeeded, its
/// error when not blank, and its output.
pub open spec fn tool_item(v: JsonData) -> Option<(Seq<char>, Seq<char>)> {
    if member_text(v, "type"@) != Some("tool_result"@) {
        None
    } else {
        let tool_name = match member_text(v, "tool_name"@) {
            Some(t) => t,
            None => "tool"@,
        };
        let success = match as_flag(member(v, "success"@)) {
            Some(b) => b,
            None => true,
        };
        let head = tool_name + " success="@ + (if success {
            "true"@
        } else {
            "false"@
        });
        let with_error = match member_text(v, "error"@) {
            Some(e) => if trim_ws(e).len() > 0 {
                head + " error="@ + trim_ws(e)
            } else {
                head
            },
            None => head,
        };
        let content = match tool_result_output(v) {
            Some(o) => with_error + " output="@ + value_text(o),
            None => with_error,
        };
        Some(("tool"@, content))
    }
}

pub fn tool_result_timeline_item(value: &JsonValue) -> (r: Option<(String, String)>)
    ensures
        opt_pair_view(r) == tool_item(json_data(*value)),
{
    let is_tool = match json_member_str(value, "type") {
        Some(t) => eq_str(&chars_of(t), "tool_result"),
        None => false,
    };
    if !is_tool {
        return None;
    }
    let mut out: Vec<char> = Vec::new();
    match json_member_str(value, "tool_name") {
        Some(t) => push_str(&mut out, t),
        None => push_str(&mut out, "tool"),
    }
    push_str(&mut out, " success=");
    let success = match json_get(value, "success") {
        Some(f) => match json_as_bool(f) {
            Some(b) => b,
            None => true,
        },
        None => true,
    };
    if success {
        push_str(&mut out, "true");
    } else {
        push_str(&mut out, "false");
    }
    let ghost head = out@;
    match json_member_str(value, "error") {
        Some(e) => {
            let te = trim(&chars_of(e));
            if te.len() > 0 {
                push_str(&mut out, " error=");
                push_chars(&mut out, &te);
            }
        },
        None => {},
    }
    let output = match json_get(value, "context_cache") {
        Some(cache) => match json_get(cache, "output") {
            Some(o) => Some(o),
            None => match json_get(value, "context_message") {
                Some(m) => Some(m),
                None => json_get(value, "output"),
            },
        },
        None => match json_get(value, "context_message") {
            Some(m) => Some(m),
            None => json_get(value, "output"),
        },
    };
    match output {
        Some(o) => {
            push_str(&mut out, " output=");
            let t = value_text_of(o);
            push_str(&mut out, t.as_str());
        },
        None => {},
    }
    Some(("tool".to_string(), string_of(&out)))
}

/// A line kept from before the current run: a checkpoint's content, or a
/// message, the agent's read as its summary.
pub open spec fn retained_item(v: JsonData, context_role: Seq<char>) -> Option<(Seq<char>, Seq<char>)> {
    if member_text(v, "type"@) == Some("context_compaction"@) {
        match member_text(v, "content"@) {
            Some(c) => Some(("agent_summary"@, c)),
            None => None,
        }
    } else {
        match role_item(v, false, context_role) {
            Some((role, content)) => Some((if role == "agent"@ {
                "agent_summary"@
            } else {
                role
            }, content)),
            None => None,
        }
    }
}

pub fn retained_context_timeline_item(value: &JsonValue, context_role: &str) -> (r: Option<(String, String)>)
    ensures
        opt_pair_view(r) == retained_item(json_data(*value), context_role@),
{
    let is_compaction = match json_member_str(value, "type") {
        Some(t) => eq_str(&chars_of(t), "context_compaction"),
        None => false,
    };
    if is_compaction {
        return match json_member_str(value, "content") {
            Some(c) => Some(("agent_summary".to_string(), c.to_string())),
            None => None,
        };
    }
    match role_timeline_item(value, false, context_role) {
        Some((role, content)) => {
            if eq_str(&chars_of(role.as_str()), "agent") {
                Some(("agent_summary".to_string(), content))
            } else {
                Some((role, content))
            }
        },
        None => None,
    }
}

/// A line of the current run: a message, or, when asked for, a tool
/// result.
pub open spec fn current_item(v: JsonData, include_tool_results: bool, context_role: Seq<char>) -> Option<(Seq<char>, Seq<char>)> {
    match role_item(v, true, context_role) {
        Some(item) => Some(item),
        None => if include_tool_results {
            tool_item(v)
        } else {
            None
        },
    }
}

pub fn current_run_timeline_item(value: &JsonValue, include_tool_results: bool, context_role: &str) -> (r: Option<(String, String)>)
    ensures
        opt_pair_view(r) == current_item(json_data(*value), include_tool_results, context_role@),
{
    match role_timeline_item(value, true, context_role) {
        Some(item) => Some(item),
        None => if include_tool_results {
            tool_result_timeline_item(value)
        } else {
            None
        },
    }
}

/// A whole number written with decimal digits, after a `-` for a negative
/// one, within `i64` (`Value::as_i64`).
pub open spec fn as_int(d: Option<JsonData>) -> Option<int> {
    match d {
        Some(JsonData::Number(t)) => if t.len() > 0 && all_digits(t) && digits_value(t) <= i64::MAX {
            Some(digits_value(t) as int)
        } else if t.len() > 1 && t[0] == '-' && all_digits(t.skip(1)) && digits_value(t.skip(1))
            <= 0x8000_0000_0000_0000 {
            Some(-(digits_value(t.skip(1)) as int))
        } else {
            None
        },
        _ => None,
    }
}

fn json_as_i64(v: &JsonValue) -> (r: Option<i64>)
    ensures
        match r {
            Some(n) => as_int(Some(json_data(*v))) == Some(n as int),
            None => as_int(Some(json_data(*v))) is None,
        },
{
    let t = match v {
        JsonValue::Number(t) => t,
        _ => return None,
    };
    let cs = chars_of(t.as_str());
    if cs.len() == 0 || cs[0] == '+' {
        return None;
    }
    if cs[0] != '-' {
        return match parse_u64(t.as_str()) {
            Some(n) => if n <= 9223372036854775807u64 {
                Some(n as i64)
            } else {
                None
            },
            None => None,
        };
    }
    if cs.len() < 2 || cs[1] == '+' {
        proof {
            if cs.len() >= 2 {
                assert(t@.skip(1)[0] == '+');
                assert(!all_digits(t@.skip(1)));
            }
        }
        return None;
    }
    let rest = string_of(&slice_vec(&cs, 1, cs.len()));
    assert(rest@ =~= t@.skip(1));
    match parse_u64(rest.as_str()) {
        Some(n) => if n < 9223372036854775808u64 {
            Some(-(n as i64))
        } else if n == 9223372036854775808u64 {
            Some(i64::MIN)
        } else {
            None
        },
        None => None,
    }
}

pub open spec fn opt_moment_view(o: Option<Moment>) -> Option<(i64, u32, Seq<char>)> {
    match o {
        Some(m) => Some(moment_view(m)),
        None => None,
    }
}

/// When a log line happened: at its RFC 3339 `timestamp`, or else at its
/// `created_at` milliseconds.
pub open spec fn log_moment(v: JsonData) -> Option<(i64, u32, Seq<char>)> {
    let from_stamp = match member_text(v, "timestamp"@) {
        Some(t) => rfc3339_moment(t),
        None => None,
    };
    match from_stamp {
        Some(m) => Some(m),
        None => match as_int(member(v, "created_at"@)) {
            Some(ms) => millis_moment(ms),
            None => None,
        },
    }
}

pub fn log_timestamp(value: &JsonValue) -> (r: Option<Moment>)
    ensures
        opt_moment_view(r) == log_moment(json_data(*value)),
{
    let from_stamp = match json_member_str(value, "timestamp") {
        Some(t) => parse_rfc3339_moment(t),
        None => None,
    };
    match from_stamp {
        Some(m) => Some(m),
        None => match json_get(value, "created_at") {
            Some(c) => match json_as_i64(c) {
                Some(ms) => moment_from_millis(ms),
                None => None,
            },
            None => None,
        },
    }
}

/// The log lines that are JSON, with their positions.
pub open spec fn parsed_values(parses: Seq<Option<JsonData>>) -> Seq<(nat, JsonData)>
    decreases parses.len(),
{
    if parses.len() == 0 {
        Seq::empty()
    } else {
        let rest = parsed_values(parses.drop_last());
        match parses.last() {
            Some(v) => rest.push(((parses.len() - 1) as nat, v)),
            None => rest,
        }
    }
}

pub open spec fn is_compaction(v: JsonData) -> bool {
    member_text(v, "type"@) == Some("context_compaction"@)
}

/// Where the kept context starts: the place of the last checkpoint among
/// the JSON lines, counted over those lines alone, or their start.
pub open spec fn last_compaction(vals: Seq<(nat, JsonData)>) -> nat
    decreases vals.len(),
{
    if vals.len() == 0 {
        0
    } else if is_compaction(vals.last().1) {
        (vals.len() - 1) as nat
    } else {
        last_compaction(vals.drop_last())
    }
}

/// Whether `m` is at or after `start`.
pub open spec fn at_or_after(m: (i64, u32, Seq<char>), start: (i64, u32, Seq<char>)) -> bool {
    m.0 > start.0 || (m.0 == start.0 && m.1 >= start.1)
}

/// One JSON log line added to the timeline: a line of the current run
/// (at or after its start), else a line at or after where the kept context
/// starts; lines with no time are left out.
pub open spec fn timeline_step(
    entries: Seq<EntryView>,
    index: nat,
    v: JsonData,
    moment: Option<(i64, u32, Seq<char>)>,
    started: (i64, u32, Seq<char>),
    retained_start: nat,
    include_tool_results: bool,
    context_role: Seq<char>,
) -> Seq<EntryView> {
    match moment {
        None => entries,
        Some(m) => if at_or_after(m, started) {
            match current_item(v, include_tool_results, context_role) {
                Some((role, content)) => entries.push(
                    (m.0, m.1, m.2, "current_run"@, role, content, index as usize),
                ),
                None => entries,
            }
        } else if index >= retained_start {
            match retained_item(v, context_role) {
                Some((role, content)) => entries.push(
                    (m.0, m.1, m.2, "retained_context"@, role, content, index as usize),
                ),
                None => entries,
            }
        } else {
            entries
        },
    }
}

/// The timeline of the JSON log lines `vals`, each at its moment.
pub open spec fn timeline_fold(
    vals: Seq<(nat, JsonData)>,
    moments: Seq<Option<(i64, u32, Seq<char>)>>,
    started: (i64, u32, Seq<char>),
    retained_start: nat,
    include_tool_results: bool,
    context_role: Seq<char>,
) -> Seq<EntryView>
    decreases vals.len(),
{
    if vals.len() == 0 {
        Seq::empty()
    } else {
        timeline_step(
            timeline_fold(vals.drop_last(), moments, started, retained_start, include_tool_results, context_role),
            vals.last().0,
            vals.last().1,
            moments[vals.last().0 as int],
            started,
            retained_start,
            include_tool_results,
            context_role,
        )
    }
}

pub open spec fn moment_views(moments: Seq<Option<Moment>>) -> Seq<Option<(i64, u32, Seq<char>)>> {
    moments.map_values(|m: Option<Moment>| opt_moment_view(m))
}

/// The checkpoint timeline of a session's log, given what serde_json read
/// from each line and when each line happened.
pub open spec fn timeline_of(
    parses: Seq<Option<JsonData>>,
    moments: Seq<Option<(i64, u32, Seq<char>)>>,
    started: (i64, u32, Seq<char>),
    include_tool_results: bool,
    context_role: Seq<char>,
) -> Seq<EntryView> {
    let vals = parsed_values(parses);
    timeline_fold(vals, moments, started, last_compaction(vals), include_tool_results, context_role)
}

fn retained_start_of(parsed: &Vec<Option<JsonValue>>) -> (r: usize)
    ensures
        r as nat == last_compaction(parsed_values(parsed_views(parsed@))),
{
    let ghost pv = parsed_views(parsed@);
    let mut count: usize = 0;
    let mut last: usize = 0;
    let mut i: usize = 0;
    assert(pv.take(0) =~= Seq::<Option<JsonData>>::empty());
    while i < parsed.len()
        invariant
            i <= parsed.len(),
            pv == parsed_views(parsed@),
            pv.len() == parsed.len(),
            count as nat == parsed_values(pv.take(i as int)).len(),
            count <= i,
            last as nat == last_compaction(parsed_values(pv.take(i as int))),
        decreases parsed.len() - i,
    {
        assert(pv.take(i + 1).drop_last() =~= pv.take(i as int));
        match &parsed[i] {
            Some(v) => {
                let ghost vals = parsed_values(pv.take(i + 1));
                assert(vals.drop_last() =~= parsed_values(pv.take(i as int)));
                assert(vals.last() == (i as nat, json_data(*v)));
                if is_context_compaction(v) {
                    last = count;
                }
                count = count + 1;
            },
            None => {
                assert(parsed_values(pv.take(i + 1)) =~= parsed_values(pv.take(i as int)));
            },
        }
        i = i + 1;
    }
    assert(pv.take(i as int) =~= pv);
    last
}

fn is_context_compaction(v: &JsonValue) -> (b: bool)
    ensures
        b == is_compaction(json_data(*v)),
{
    match json_member_str(v, "type") {
        Some(t) => eq_str(&chars_of(t), "context_compaction"),
        None => false,
    }
}

fn push_item(
    entries: &mut Vec<TimelineEntry>,
    item: Option<(String, String)>,
    at: &Moment,
    scope: &str,
    index: usize,
)
    ensures
        entry_views(final(entries)@) == match opt_pair_view(item) {
            Some((role, content)) => entry_views(old(entries)@).push(
                (at.seconds, at.nanos, at.timestamp@, scope@, role, content, index),
            ),
            None => entry_views(old(entries)@),
        },
{
    match item {
        Some((role, content)) => {
            let ghost before = entry_views(entries@);
            entries.push(
                TimelineEntry {
                    seconds: at.seconds,
                    nanos: at.nanos,
                    timestamp: at.timestamp.clone(),
                    scope: scope.to_string(),
                    role,
                    content,
                    index,
                },
            );
            assert(entry_views(entries@) =~= before.push(
                (at.seconds, at.nanos, at.timestamp@, scope@, role@, content@, index),
            ));
        },
        None => {},
    }
}

/// The checkpoint timeline of a session's log, given what serde_json read
/// from each line and when each line happened (`log_timestamp`).
pub fn timeline_entries_from(
    parsed: &Vec<Option<JsonValue>>,
    moments: &Vec<Option<Moment>>,
    started: &Moment,
    include_tool_results: bool,
    context_role: &str,
) -> (r: Vec<TimelineEntry>)
    requires
        moments.len() == parsed.len(),
    ensures
        entry_views(r@) == timeline_of(
            parsed_views(parsed@),
            moment_views(moments@),
            moment_view(*started),
            include_tool_results,
            context_role@,
        ),
{
    let ghost pv = parsed_views(parsed@);
    let ghost mv = moment_views(moments@);
    let retained_start = retained_start_of(parsed);
    let ghost rs = retained_start as nat;
    let mut entries: Vec<TimelineEntry> = Vec::new();
    let mut i: usize = 0;
    assert(pv.take(0) =~= Seq::<Option<JsonData>>::empty());
    assert(entry_views(entries@) =~= Seq::<EntryView>::empty());
    while i < parsed.len()
        invariant
            i <= parsed.len(),
            moments.len() == parsed.len(),
            pv == parsed_views(parsed@),
            mv == moment_views(moments@),
            pv.len() == parsed.len(),
            mv.len() == moments.len(),
            rs == retained_start as nat,
            entry_views(entries@) == timeline_fold(
                parsed_values(pv.take(i as int)),
                mv,
                moment_view(*started),
                rs,
                include_tool_results,
                context_role@,
            ),
        decreases parsed.len() - i,
    {
        assert(pv.take(i + 1).drop_last() =~= pv.take(i as int));
        match &parsed[i] {
            Some(v) => {
                let ghost vals = parsed_values(pv.take(i + 1));
                assert(vals.drop_last() =~= parsed_values(pv.take(i as int)));
                assert(vals.last() == (i as nat, json_data(*v)));
                match &moments[i] {
                    Some(at) => {
                        let current = at.seconds > started.seconds || (at.seconds == started.seconds
                            && at.nanos >= started.nanos);
                        if current {
                            let item = current_run_timeline_item(v, include_tool_results, context_role);
                            push_item(&mut entries, item, at, "current_run", i);
                        } else if i >= retained_start {
                            let item = retained_context_timeline_item(v, context_role);
                            push_item(&mut entries, item, at, "retained_context", i);
                        }
                    },
                    None => {},
                }
            },
            None => {},
        }
        i = i + 1;
    }
    assert(pv.take(i as int) =~= pv);
    entries
}

pub open spec fn log_moments(log: Seq<String>) -> Seq<Option<(i64, u32, Seq<char>)>> {
    log.map_values(
        |e: String|
            match parsed_json(e@) {
                Some(v) => log_moment(v),
                None => None,
            },
    )
}

/// The checkpoint timeline of a session's log: its lines read with
/// serde_json, their times with chrono, then `timeline_entries_from`.
pub fn compaction_timeline_entries(
    session_log: &Vec<String>,
    started: &Moment,
    include_tool_results: bool,
    context_role: &str,
) -> (r: Vec<TimelineEntry>)
    ensures
        entry_views(r@) == timeline_of(
            log_parses(session_log@),
            log_moments(session_log@),
            moment_view(*started),
            include_tool_results,
            context_role@,
        ),
{
    let mut parsed: Vec<Option<JsonValue>> = Vec::new();
    let mut moments: Vec<Option<Moment>> = Vec::new();
    let mut i: usize = 0;
    while i < session_log.len()
        invariant
            i <= session_log.len(),
            parsed.len() == i,
            moments.len() == i,
            forall|j: int| 0 <= j < i ==> #[trigger] opt_json_data(parsed@[j]) == parsed_json(session_log@[j]@),
            forall|j: int|
                0 <= j < i ==> #[trigger] opt_moment_view(moments@[j]) == match parsed_json(session_log@[j]@) {
                    Some(v) => log_moment(v),
                    None => None,
                },
        decreases session_log.len() - i,
    {
        let p = parse_json(session_log[i].as_str());
        let m = match &p {
            Some(v) => log_timestamp(v),
            None => None,
        };
        parsed.push(p);
        moments.push(m);
        i = i + 1;
    }
    assert(parsed_views(parsed@) =~= log_parses(session_log@));
    assert(moment_views(moments@) =~= log_moments(session_log@));
    timeline_entries_from(&parsed, &moments, started, include_tool_results, context_role)
}

/// What a checkpoint timeline keeps of its entries: those of the current
/// run are at or after its start, those kept from before are before it,
/// and the entries follow the log, each from a later line.
pub open spec fn timeline_ordered(entries: Seq<EntryView>, started: (i64, u32, Seq<char>)) -> bool {
    &&& forall|i: int|
        0 <= i < entries.len() ==> ((#[trigger] entries[i]).3 == "current_run"@ <==> at_or_after(
            (entries[i].0, entries[i].1, entries[i].2),
            started,
        ))
    &&& forall|i: int, j: int| 0 <= i < j < entries.len() ==> (#[trigger] entries[i]).6 < (#[trigger] entries[j]).6
}

proof fn lemma_parsed_values_increasing(parses: Seq<Option<JsonData>>)
    ensures
        forall|i: int, j: int|
            0 <= i < j < parsed_values(parses).len() ==> (#[trigger] parsed_values(parses)[i]).0 < (
            #[trigger] parsed_values(parses)[j]).0,
        forall|i: int| 0 <= i < parsed_values(parses).len() ==> (#[trigger] parsed_values(parses)[i]).0 < parses.len(),
    decreases parses.len(),
{
    if parses.len() > 0 {
        lemma_parsed_values_increasing(parses.drop_last());
        let prev = parsed_values(parses.drop_last());
        let pv = parsed_values(parses);
        match parses.last() {
            Some(v) => {
                assert(pv == prev.push(((parses.len() - 1) as nat, v)));
                assert forall|i: int, j: int| 0 <= i < j < pv.len() implies (#[trigger] pv[i]).0 < (
                #[trigger] pv[j]).0 by {
                    assert(pv[i] == prev[i]);
                    if j < prev.len() {
                        assert(pv[j] == prev[j]);
                    }
                }
                assert forall|i: int| 0 <= i < pv.len() implies (#[trigger] pv[i]).0 < parses.len() by {
                    if i < prev.len() {
                        assert(pv[i] == prev[i]);
                    }
                }
            },
            None => {
                assert(pv == prev);
            },
        }
    }
}

proof fn lemma_fold_ordered(
    vals: Seq<(nat, JsonData)>,
    moments: Seq<Option<(i64, u32, Seq<char>)>>,
    started: (i64, u32, Seq<char>),
    retained_start: nat,
    include_tool_results: bool,
    context_role: Seq<char>,
)
    requires
        forall|i: int, j: int| 0 <= i < j < vals.len() ==> (#[trigger] vals[i]).0 < (#[trigger] vals[j]).0,
        forall|i: int| 0 <= i < vals.len() ==> (#[trigger] vals[i]).0 < usize::MAX,
        "current_run"@ != "retained_context"@,
    ensures
        timeline_ordered(
            timeline_fold(vals, moments, started, retained_start, include_tool_results, context_role),
            started,
        ),
        forall|k: int|
            0 <= k < timeline_fold(vals, moments, started, retained_start, include_tool_results, context_role).len()
                ==> exists|i: int|
                0 <= i < vals.len() && (#[trigger] timeline_fold(
                    vals,
                    moments,
                    started,
                    retained_start,
                    include_tool_results,
                    context_role,
                )[k]).6 == vals[i].0,
    decreases vals.len(),
{
    if vals.len() > 0 {
        let prev_vals = vals.drop_last();
        lemma_fold_ordered(prev_vals, moments, started, retained_start, include_tool_results, context_role);
        let prev = timeline_fold(prev_vals, moments, started, retained_start, include_tool_results, context_role);
        let all = timeline_fold(vals, moments, started, retained_start, include_tool_results, context_role);
        let last = vals.last();
        assert forall|k: int| 0 <= k < prev.len() implies (#[trigger] prev[k]).6 < last.0 by {
            let i = choose|i: int| 0 <= i < prev_vals.len() && (#[trigger] prev[k]).6 == prev_vals[i].0;
            assert(prev_vals[i] == vals[i]);
        }
        if all.len() > prev.len() {
            assert(all.drop_last() =~= prev);
            assert forall|k: int| 0 <= k < all.len() implies exists|i: int|
                0 <= i < vals.len() && (#[trigger] all[k]).6 == vals[i].0 by {
                if k < prev.len() {
                    assert(all[k] == prev[k]);
                    let i = choose|i: int| 0 <= i < prev_vals.len() && (#[trigger] prev[k]).6 == prev_vals[i].0;
                    assert(prev_vals[i] == vals[i]);
                } else {
                    assert(all[k].6 == last.0 as usize);
                    assert(vals[vals.len() - 1] == last);
                }
            }
        } else {
            assert forall|k: int| 0 <= k < all.len() implies exists|i: int|
                0 <= i < vals.len() && (#[trigger] all[k]).6 == vals[i].0 by {
                let i = choose|i: int| 0 <= i < prev_vals.len() && (#[trigger] prev[k]).6 == prev_vals[i].0;
                assert(prev_vals[i] == vals[i]);
            }
        }
    }
}

/// A checkpoint timeline is sorted into its two scopes by time: entries of
/// the current run are at or after its start, entries kept from before are
/// before it, and the entries follow the order of the log lines they come
/// from.
pub proof fn law_timeline_scopes_follow_time(
    parses: Seq<Option<JsonData>>,
    moments: Seq<Option<(i64, u32, Seq<char>)>>,
    started: (i64, u32, Seq<char>),
    include_tool_results: bool,
    context_role: Seq<char>,
)
    requires
        parses.len() < usize::MAX,
    ensures
        timeline_ordered(timeline_of(parses, moments, started, include_tool_results, context_role), started),
{
    lemma_parsed_values_increasing(parses);
    reveal_strlit("current_run");
    reveal_strlit("retained_context");
    assert("current_run"@[0] != "retained_context"@[0]);
    let vals = parsed_values(parses);
    lemma_fold_ordered(vals, moments, started, last_compaction(vals), include_tool_results, context_role);
}

pub open spec fn agent_message_view(o: Option<(&str, &Moment)>) -> Option<(Seq<char>, (i64, u32, Seq<char>))> {
    match o {
        Some((c, m)) => Some((c@, moment_view(*m))),
        None => None,
    }
}

/// An optional text as plain characters.
pub open spec fn opt_str_view(o: Option<&str>) -> Option<Seq<char>> {
    match o {
        Some(w) => Some(w@),
        None => None,
    }
}

/// Compacts a session's context: the checkpoint content is rebuilt from
/// the log's timeline (the current user input and the agent message
/// added, `compact_text` as the handoff), a compaction record stamped with
/// the clock is appended to the log with the workspace snapshot and the
/// environment handed in, the context's input count goes back to zero and
/// the runtime's usage report is cleared.
pub fn compact_session_context(
    session_log: &mut Vec<String>,
    context_tokens: &mut ContextTokens,
    runtime_usage: &mut JsonValue,
    user_input: &str,
    started: &Moment,
    compact_text: &str,
    agent_message: Option<(&str, &Moment)>,
    include_current_tool_results: bool,
    context_role: &str,
    workspace_snapshot: Option<&str>,
    environment_context: &str,
) -> (r: Result<(), String>)
    ensures
        r is Ok,
        exists|timestamp: Seq<char>|
            string_views(final(session_log)@) == string_views(old(session_log)@).push(
                #[trigger] json_text(
                    compaction_record_data(
                        rebuild_content(
                            timeline_of(
                                log_parses(old(session_log)@),
                                log_moments(old(session_log)@),
                                moment_view(*started),
                                include_current_tool_results,
                                context_role@,
                            ),
                            user_input@,
                            moment_view(*started),
                            agent_message_view(agent_message),
                            compact_text@,
                        ),
                        opt_str_view(workspace_snapshot),
                        environment_context@,
                        timestamp,
                    ),
                ),
            ),
        final(context_tokens).input == 0,
        final(context_tokens).limit == old(context_tokens).limit,
        json_data(*final(runtime_usage)) == JsonData::Null,
{
    let now = now_moment();
    let entries = compaction_timeline_entries(session_log, started, include_current_tool_results, context_role);
    let content = compact_rebuild_content(entries, user_input, started, agent_message, compact_text);
    let line = compaction_log_entry(content.as_str(), workspace_snapshot, environment_context, now.timestamp.as_str());
    let ghost before = string_views(session_log@);
    session_log.push(line);
    assert(string_views(session_log@) =~= before.push(line@));
    context_tokens.input = 0;
    *runtime_usage = JsonValue::Null;
    Ok(())
}

} // verus!
