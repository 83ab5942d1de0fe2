//! Validator reliability feedback: which `py:` commands of command_run calls
//! a validator judged, under which registry name they are reported, and the
//! registry command line that reports them. Running that command, and
//! finding the registry's executable, happen outside.
use vstd::prelude::*;
use crate::agent_router::{join_path, join_paths};
use crate::chars::{is_ascii_alnum, is_ascii_alnum_char, lower_char, starts_with, starts_with_str, to_lower_char, trim, trim_by, trim_class, trim_start_by, trim_start_class, trim_ws, CharClass};
use crate::json::{array_data, as_items, json_as_array, json_data, json_get, json_member_str, lemma_array_data, member, member_text, JsonData, JsonValue};
use crate::manas::constants::COMMAND_RUN_TOOL;
use crate::manas::tool_catalog::same_text;
use crate::text::{chars_of, push_str, string_of};

verus! {

/// The registry service that command_run's reliability is reported under.
pub const RELIABILITY_SERVICE_ID: &'static str = "command-run-auto";

/// A character of a registry tool name: ASCII letters and digits lowered,
/// anything else an underscore.
pub open spec fn label_char(c: char) -> char {
    if is_ascii_alnum_char(c) {
        lower_char(c)
    } else {
        '_'
    }
}

/// A text with every run of underscores written as one.
pub open spec fn collapse_underscores(s: Seq<char>) -> Seq<char>
    decreases s.len(),
{
    if s.len() == 0 {
        s
    } else {
        let r = collapse_underscores(s.drop_last());
        if s.last() == '_' && r.len() > 0 && r.last() == '_' {
            r
        } else {
            r.push(s.last())
        }
    }
}

/// The registry name of a command label: the trimmed label with each
/// character mapped, runs of underscores collapsed and underscores trimmed
/// from both ends; `command_run_tool` when nothing is left.
pub open spec fn registry_name(label: Seq<char>) -> Seq<char> {
    let mapped = trim_ws(label).map_values(|c: char| label_char(c));
    let name = trim_class(collapse_underscores(mapped), CharClass::Exactly('_'));
    if name.len() == 0 {
        "command_run_tool"@
    } else {
        name
    }
}

pub fn registry_tool_name_for_command_label(command: &str) -> (r: String)
    ensures
        r@ == registry_name(command@),
{
    let t = trim(&chars_of(command));
    let ghost mapped = t@.map_values(|c: char| label_char(c));
    let mut out: Vec<char> = Vec::new();
    let mut i: usize = 0;
    while i < t.len()
        invariant
            i <= t.len(),
            mapped == t@.map_values(|c: char| label_char(c)),
            out@ == collapse_underscores(mapped.take(i as int)),
        decreases t.len() - i,
    {
        let c = t[i];
        let m = if is_ascii_alnum(c) {
            to_lower_char(c)
        } else {
            '_'
        };
        assert(m == mapped[i as int]);
        assert(mapped.take(i + 1).drop_last() =~= mapped.take(i as int));
        assert(mapped.take(i + 1).last() == m);
        if !(m == '_' && out.len() > 0 && out[out.len() - 1] == '_') {
            out.push(m);
        }
        i = i + 1;
    }
    assert(mapped.take(i as int) =~= mapped);
    let name = trim_by(&out, &CharClass::Exactly('_'));
    if name.len() == 0 {
        return "command_run_tool".to_owned();
    }
    string_of(&name)
}

/// What a validator said of one tool call: the tool, its input, and
/// whether the validator reported it a success (none when it said nothing).
pub struct ToolCallFeedback {
    pub tool_called_name: String,
    pub tool_called_input: JsonValue,
    pub validator_reported_success: Option<bool>,
}

/// One reliability report for the registry.
pub struct ReliabilityUpdate {
    pub tool_name: String,
    pub success: bool,
    pub note: Option<String>,
}

pub open spec fn update_view(u: ReliabilityUpdate) -> (Seq<char>, bool, Option<Seq<char>>) {
    (
        u.tool_name@,
        u.success,
        match u.note {
            Some(n) => Some(n@),
            None => None,
        },
    )
}

pub open spec fn updates_view(us: Seq<ReliabilityUpdate>) -> Seq<(Seq<char>, bool, Option<Seq<char>>)> {
    us.map_values(|u: ReliabilityUpdate| update_view(u))
}

/// The note sent with a reported failure.
pub open spec fn failure_note(runtime_id: Seq<char>, label: Seq<char>) -> Seq<char> {
    "validator reported failure for runtime "@ + runtime_id + " command "@ + label
}

/// The reports for the commands of one judged command_run call: one per
/// command whose label, trimmed at its start, begins with `py:`.
pub open spec fn command_updates(runtime_id: Seq<char>, commands: Seq<JsonData>, success: bool) -> Seq<
    (Seq<char>, bool, Option<Seq<char>>),
>
    decreases commands.len(),
{
    if commands.len() == 0 {
        Seq::empty()
    } else {
        let r = command_updates(runtime_id, commands.drop_last(), success);
        match member_text(commands.last(), "command"@) {
            Some(label) => if starts_with(trim_start_class(label, CharClass::Whitespace), "py:"@) {
                r.push(
                    (
                        registry_name(label),
                        success,
                        if success {
                            None
                        } else {
                            Some(failure_note(runtime_id, label))
                        },
                    ),
                )
            } else {
                r
            },
            None => r,
        }
    }
}

/// The reports for one tool call: none unless a validator judged it and it
/// is a command_run call with a list of commands.
pub open spec fn call_updates(runtime_id: Seq<char>, name: Seq<char>, input: JsonData, success: Option<bool>) -> Seq<
    (Seq<char>, bool, Option<Seq<char>>),
> {
    match success {
        Some(ok) => if name == COMMAND_RUN_TOOL@ {
            match as_items(member(input, "commands"@)) {
                Some(commands) => command_updates(runtime_id, commands, ok),
                None => Seq::empty(),
            }
        } else {
            Seq::empty()
        },
        None => Seq::empty(),
    }
}

/// The reports for a run's tool calls, in order.
pub open spec fn feedback_updates(runtime_id: Seq<char>, calls: Seq<ToolCallFeedback>) -> Seq<
    (Seq<char>, bool, Option<Seq<char>>),
>
    decreases calls.len(),
{
    if calls.len() == 0 {
        Seq::empty()
    } else {
        let c = calls.last();
        feedback_updates(runtime_id, calls.drop_last()) + call_updates(
            runtime_id,
            c.tool_called_name@,
            json_data(c.tool_called_input),
            c.validator_reported_success,
        )
    }
}

fn push_command_updates(runtime_id: &str, commands: &Vec<JsonValue>, success: bool, out: &mut Vec<ReliabilityUpdate>)
    ensures
        updates_view(final(out)@) == updates_view(old(out)@) + command_updates(runtime_id@, array_data(commands@), success),
{
    proof {
        lemma_array_data(commands@);
    }
    let ghost ad = array_data(commands@);
    let ghost start = updates_view(out@);
    let mut i: usize = 0;
    assert(command_updates(runtime_id@, ad.take(0), success) =~= Seq::<(Seq<char>, bool, Option<Seq<char>>)>::empty());
    assert(updates_view(out@) =~= start + command_updates(runtime_id@, ad.take(0), success));
    while i < commands.len()
        invariant
            i <= commands.len(),
            ad == array_data(commands@),
            ad.len() == commands.len(),
            forall|j: int| 0 <= j < commands.len() ==> #[trigger] ad[j] == json_data(commands@[j]),
            updates_view(out@) == start + command_updates(runtime_id@, ad.take(i as int), success),
        decreases commands.len() - i,
    {
        assert(ad.take(i + 1).drop_last() =~= ad.take(i as int));
        assert(ad.take(i + 1).last() == ad[i as int]);
        match json_member_str(&commands[i], "command") {
            Some(label) => {
                let lv = chars_of(label);
                let head = trim_start_by(&lv, &CharClass::Whitespace);
                if starts_with_str(&head, "py:") {
                    let tool_name = registry_tool_name_for_command_label(label);
                    let note = if success {
                        None
                    } else {
                        let mut n: Vec<char> = Vec::new();
                        push_str(&mut n, "validator reported failure for runtime ");
                        push_str(&mut n, runtime_id);
                        push_str(&mut n, " command ");
                        push_str(&mut n, label);
                        assert(n@ =~= failure_note(runtime_id@, label@));
                        Some(string_of(&n))
                    };
                    let ghost before = updates_view(out@);
                    out.push(ReliabilityUpdate { tool_name, success, note });
                    assert(updates_view(out@) =~= before.push(update_view(out@.last())));
                    assert(updates_view(out@) =~= start + command_updates(runtime_id@, ad.take(i + 1), success));
                }
            },
            None => {},
        }
        i = i + 1;
    }
    assert(ad.take(i as int) =~= ad);
}

/// The reliability reports for a run's tool calls.
pub fn validator_feedback_updates(runtime_id: &str, calls: &Vec<ToolCallFeedback>) -> (r: Vec<ReliabilityUpdate>)
    ensures
        updates_view(r@) == feedback_updates(runtime_id@, calls@),
{
    let mut out: Vec<ReliabilityUpdate> = Vec::new();
    let mut i: usize = 0;
    assert(updates_view(out@) =~= feedback_updates(runtime_id@, calls@.take(0)));
    while i < calls.len()
        invariant
            i <= calls.len(),
            updates_view(out@) == feedback_updates(runtime_id@, calls@.take(i as int)),
        decreases calls.len() - i,
    {
        assert(calls@.take(i + 1).drop_last() =~= calls@.take(i as int));
        assert(calls@.take(i + 1).last() == calls@[i as int]);
        let call = &calls[i];
        let ghost before = updates_view(out@);
        match call.validator_reported_success {
            Some(ok) => {
                if same_text(call.tool_called_name.as_str(), COMMAND_RUN_TOOL) {
                    match json_get(&call.tool_called_input, "commands") {
                        Some(c) => match json_as_array(c) {
                            Some(commands) => {
                                push_command_updates(runtime_id, commands, ok, &mut out);
                            },
                            None => {},
                        },
                        None => {},
                    }
                }
            },
            None => {},
        }
        assert(updates_view(out@) =~= before + call_updates(
            runtime_id@,
            call.tool_called_name@,
            json_data(call.tool_called_input),
            call.validator_reported_success,
        ));
        i = i + 1;
    }
    assert(calls@.take(i as int) =~= calls@);
    out
}

/// The registry command line that reports one update.
pub open spec fn reliability_args(service_id: Seq<char>, update: (Seq<char>, bool, Option<Seq<char>>)) -> Seq<
    Seq<char>,
> {
    seq![
        "registry"@,
        "update-reliability"@,
        "--service-id"@,
        service_id,
        "--tool-name"@,
        update.0,
        "--success"@,
        if update.1 {
            "true"@
        } else {
            "false"@
        },
    ] + match update.2 {
        Some(n) => seq!["--note"@, n],
        None => Seq::empty(),
    }
}

pub fn reliability_command_args(service_id: &str, update: &ReliabilityUpdate) -> (r: Vec<String>)
    ensures
        r@.map_values(|s: String| s@) == reliability_args(service_id@, update_view(*update)),
{
    let mut args: Vec<String> = Vec::new();
    args.push("registry".to_owned());
    args.push("update-reliability".to_owned());
    args.push("--service-id".to_owned());
    args.push(service_id.to_owned());
    args.push("--tool-name".to_owned());
    args.push(update.tool_name.clone());
    args.push("--success".to_owned());
    args.push(
        if update.success {
            "true".to_owned()
        } else {
            "false".to_owned()
        },
    );
    match &update.note {
        Some(n) => {
            args.push("--note".to_owned());
            args.push(n.clone());
        },
        None => {},
    }
    assert(args@.map_values(|s: String| s@) =~= reliability_args(service_id@, update_view(*update)));
    args
}

/// The registry's executable name on this platform.
pub open spec fn alaya_exe_name(windows: bool) -> Seq<char> {
    if windows {
        "alaya_memory_server.exe"@
    } else {
        "alaya_memory_server"@
    }
}

/// Where the registry's executable may be, in the order they are tried.
pub open spec fn alaya_candidates(root: Seq<char>, windows: bool) -> Seq<Seq<char>> {
    seq![
        join_path(join_path(join_path(join_path(root, "target"@), "alaya-service-target"@), "debug"@), alaya_exe_name(windows)),
        join_path(join_path(join_path(root, "target"@), "debug"@), alaya_exe_name(windows)),
    ]
}

pub fn alaya_executable_candidates(root: &str, windows: bool) -> (r: Vec<String>)
    ensures
        r@.map_values(|s: String| s@) == alaya_candidates(root@, windows),
{
    let exe = if windows {
        "alaya_memory_server.exe"
    } else {
        "alaya_memory_server"
    };
    let target = join_paths(root, "target");
    let service = join_paths(target.as_str(), "alaya-service-target");
    let service_debug = join_paths(service.as_str(), "debug");
    let first = join_paths(service_debug.as_str(), exe);
    let debug = join_paths(target.as_str(), "debug");
    let second = join_paths(debug.as_str(), exe);
    let mut out: Vec<String> = Vec::new();
    out.push(first);
    out.push(second);
    assert(out@.map_values(|s: String| s@) =~= alaya_candidates(root@, windows));
    out
}

/// The file that marks the project root that holds the registry.
pub fn alaya_marker_path(root: &str) -> (r: String)
    ensures
        r@ == join_path(join_path(join_path(root@, "services"@), "alaya"@), "Cargo.toml"@),
{
    let services = join_paths(root, "services");
    let alaya = join_paths(services.as_str(), "alaya");
    join_paths(alaya.as_str(), "Cargo.toml")
}

} // verus!
