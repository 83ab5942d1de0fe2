//! The command_run tool as the provider sees it: which tools a turn offers,
//! which commands command_run may run, how its description is laid out, and
//! how its parameter schema is made strict.
use vstd::prelude::*;
use crate::chars::{ascii_lower, eq_str, find, find_from_exec, replace_str, replace_str_exec, slice_vec, split_whitespace, split_words, to_ascii_lowercase, trim, trim_end_by, trim_end_class, trim_ws, CharClass};
use crate::gateway_events::opt_view;
use crate::json::{array_data, json_data, json_get, json_member_str, json_text, lemma_array_data, member, member_text, parse_json, json_to_string, parsed_json, JsonData, JsonValue};
use crate::manas::constants::COMMAND_RUN_TOOL;
use crate::text::{chars_of, join, join_chars, lemma_lex_lt_irreflexive, lemma_lex_lt_total, lemma_lex_lt_transitive, lex_less, lex_lt, push_str, string_of};
use crate::context::media::text_views;
use crate::chars::views;

verus! {

/// The name of a provider tool schema: its `function.name`, when a string.
pub open spec fn schema_name(tool: JsonData) -> Option<Seq<char>> {
    match member(tool, "function"@) {
        Some(f) => member_text(f, "name"@),
        None => None,
    }
}

pub fn tool_schema_name(tool: &JsonValue) -> (r: Option<&str>)
    ensures
        opt_view(r) == schema_name(json_data(*tool)),
{
    match json_get(tool, "function") {
        Some(f) => json_member_str(f, "name"),
        None => None,
    }
}

/// The tools named command_run, in their order.
pub open spec fn command_run_tools(tools: Seq<JsonData>) -> Seq<JsonData>
    decreases tools.len(),
{
    if tools.len() == 0 {
        Seq::empty()
    } else {
        let kept = command_run_tools(tools.drop_last());
        if schema_name(tools.last()) == Some(COMMAND_RUN_TOOL@) {
            kept.push(tools.last())
        } else {
            kept
        }
    }
}

pub fn keep_command_run_only(tools: Vec<JsonValue>) -> (r: Vec<JsonValue>)
    ensures
        array_data(r@) == command_run_tools(array_data(tools@)),
{
    proof {
        lemma_array_data(tools@);
    }
    let ghost all = tools@;
    let ghost ad = array_data(all);
    let n = tools.len();
    let mut rest = tools;
    let mut out: Vec<JsonValue> = Vec::new();
    let mut k: usize = 0;
    assert(all.skip(0) =~= all);
    assert(array_data(out@) =~= command_run_tools(ad.take(0)));
    while k < n
        invariant
            k <= n,
            n == all.len(),
            ad == array_data(all),
            ad.len() == all.len(),
            forall|j: int| 0 <= j < all.len() ==> #[trigger] ad[j] == json_data(all[j]),
            rest@ == all.skip(k as int),
            array_data(out@) == command_run_tools(ad.take(k as int)),
        decreases n - k,
    {
        assert(rest@[0] == all[k as int]);
        let t = rest.remove(0);
        assert(rest@ =~= all.skip(k + 1));
        assert(ad.take(k + 1).drop_last() =~= ad.take(k as int));
        assert(ad.take(k + 1).last() == ad[k as int]);
        let keep = match tool_schema_name(&t) {
            Some(name) => {
                let v = chars_of(name);
                eq_str(&v, COMMAND_RUN_TOOL)
            },
            None => false,
        };
        if keep {
            let ghost before = out@;
            out.push(t);
            proof {
                lemma_array_data(out@);
                lemma_array_data(before);
                assert(array_data(out@) =~= array_data(before).push(ad[k as int]));
            }
        }
        k = k + 1;
    }
    assert(ad.take(k as int) =~= ad);
    out
}

/// Only command_run is ever offered: every tool that a turn keeps is named
/// command_run.
pub proof fn law_turn_tools_are_command_run(tools: Seq<JsonData>, is_final_turn: bool, force_no_tools: bool)
    ensures
        forall|i: int|
            0 <= i < turn_tools(tools, is_final_turn, force_no_tools).len() ==> schema_name(
                #[trigger] turn_tools(tools, is_final_turn, force_no_tools)[i],
            ) == Some(COMMAND_RUN_TOOL@),
{
    lemma_command_run_tools(tools);
}

proof fn lemma_command_run_tools(tools: Seq<JsonData>)
    ensures
        forall|i: int|
            0 <= i < command_run_tools(tools).len() ==> schema_name(#[trigger] command_run_tools(tools)[i])
                == Some(COMMAND_RUN_TOOL@),
    decreases tools.len(),
{
    if tools.len() > 0 {
        lemma_command_run_tools(tools.drop_last());
    }
}

/// The tools a turn offers: none on the final turn or when tools are
/// switched off, only command_run otherwise.
pub open spec fn turn_tools(tools: Seq<JsonData>, is_final_turn: bool, force_no_tools: bool) -> Seq<JsonData> {
    if force_no_tools || is_final_turn {
        Seq::empty()
    } else {
        command_run_tools(tools)
    }
}

pub fn filter_tools_for_turn(
    tools: Vec<JsonValue>,
    is_final_turn: bool,
    force_no_tools: bool,
    is_planning_child: bool,
    planning_mode_enabled: bool,
) -> (r: Result<Vec<JsonValue>, String>)
    ensures
        r matches Ok(kept) && array_data(kept@) == turn_tools(array_data(tools@), is_final_turn, force_no_tools),
{
    if force_no_tools || is_final_turn {
        let none: Vec<JsonValue> = Vec::new();
        assert(array_data(none@) =~= Seq::<JsonData>::empty());
        return Ok(none);
    }
    Ok(keep_command_run_only(tools))
}

/// Whether a setting's text switches a flag on: `1`, `true`, `yes` or `on`,
/// in any ASCII case and with surrounding whitespace.
pub open spec fn flag_on(value: Option<Seq<char>>) -> bool {
    match value {
        Some(v) => {
            let w = ascii_lower(trim_ws(v));
            w == "1"@ || w == "true"@ || w == "yes"@ || w == "on"@
        },
        None => false,
    }
}

pub fn flag_enabled(value: Option<&str>) -> (b: bool)
    ensures
        b == flag_on(opt_view(value)),
{
    match value {
        Some(v) => {
            let w = to_ascii_lowercase(&trim(&chars_of(v)));
            eq_str(&w, "1") || eq_str(&w, "true") || eq_str(&w, "yes") || eq_str(&w, "on")
        },
        None => false,
    }
}

/// The planning tool is off when either of its two settings says so.
pub fn planning_tool_disabled(disable_planning: Option<&str>, disable_execute_tools: Option<&str>) -> (b: bool)
    ensures
        b == (flag_on(opt_view(disable_planning)) || flag_on(opt_view(disable_execute_tools))),
{
    flag_enabled(disable_planning) || flag_enabled(disable_execute_tools)
}

/// The shell command that command_run offers: `bash` when configured so,
/// `shell_command` for its aliases, and otherwise `shell_command` on Windows
/// and `bash` elsewhere.
pub open spec fn active_shell(configured: Option<Seq<char>>, windows: bool) -> Seq<char> {
    let v = match configured {
        Some(c) => Some(ascii_lower(trim_ws(c))),
        None => None,
    };
    if v == Some("bash"@) {
        "bash"@
    } else if v == Some("shell"@) || v == Some("shell_command"@) || v == Some("shll"@) || v == Some(
        "shall"@,
    ) {
        "shell_command"@
    } else if windows {
        "shell_command"@
    } else {
        "bash"@
    }
}

pub fn active_shell_command_name(configured: Option<&str>, windows: bool) -> (r: &'static str)
    ensures
        r@ == active_shell(opt_view(configured), windows),
{
    let (is_bash, is_alias) = match configured {
        Some(c) => {
            let w = to_ascii_lowercase(&trim(&chars_of(c)));
            (
                eq_str(&w, "bash"),
                eq_str(&w, "shell") || eq_str(&w, "shell_command") || eq_str(&w, "shll")
                    || eq_str(&w, "shall"),
            )
        },
        None => (false, false),
    };
    if is_bash {
        "bash"
    } else if is_alias {
        "shell_command"
    } else if windows {
        "shell_command"
    } else {
        "bash"
    }
}

pub const LONG_RUNNING_SERVICE_GUIDANCE: &'static str = "Persistent services must never be used as blocking foreground commands. If a command can keep running after readiness, it must be backgrounded or wrapped in a persisted startup script with bounded readiness checks and cleanup; otherwise the command is considered hung and incorrect.";

/// The guidance on long-running services, the same for every shell.
pub fn long_running_service_guidance(active: &str) -> (r: &'static str)
    ensures
        r@ == LONG_RUNNING_SERVICE_GUIDANCE@,
{
    LONG_RUNNING_SERVICE_GUIDANCE
}

/// A text with its runs of whitespace collapsed to single spaces and its
/// ends trimmed: its words joined by spaces.
pub open spec fn compact_text(text: Seq<char>) -> Seq<char> {
    join(split_words(text), " "@)
}

pub fn compact_prompt(text: &str) -> (r: String)
    ensures
        r@ == compact_text(text@),
{
    let words = split_whitespace(&chars_of(text));
    proof {
        assert(words@.map_values(|w: Vec<char>| w@) =~= views(words@));
    }
    string_of(&join_chars(&words, " "))
}

/// A schema text written compactly: as serde_json writes it when it is
/// JSON, with its whitespace collapsed otherwise.
pub open spec fn compact_schema_text(text: Seq<char>) -> Seq<char> {
    match parsed_json(text) {
        Some(d) => json_text(d),
        None => compact_text(text),
    }
}

pub fn compact_schema(text: &str) -> (r: String)
    ensures
        r@ == compact_schema_text(text@),
{
    match parse_json(text) {
        Some(v) => json_to_string(&v),
        None => compact_prompt(text),
    }
}

pub const APPLY_PATCH_FORMAT_INTRO: &'static str = "Use one patch for coordinated multi-file source edits after reads. Patches validate context and fail on mismatch. Raw freeform body. Format type `grammar`, syntax `lark`. Definition: ";

pub const APPLY_PATCH_GRAMMAR: &'static str = "start: begin_patch hunk+ end_patch\nbegin_patch: \"*** Begin Patch\" LF\nend_patch: \"*** End Patch\" LF?\n\nhunk: add_hunk | delete_hunk | update_hunk\nadd_hunk: \"*** Add File: \" filename LF add_line+\ndelete_hunk: \"*** Delete File: \" filename LF\nupdate_hunk: \"*** Update File: \" filename LF change_move? change?\n\nfilename: /(.+)/\nadd_line: \"+\" /(.*)/ LF -> line\n\nchange_move: \"*** Move to: \" filename LF\nchange: (change_context | change_line)+ eof_line?\nchange_context: (\"@@\" | \"@@ \" /(.+)/) LF\nchange_line: (\"+\" | \"-\" | \" \") /(.*)/ LF\neof_line: \"*** End of File\" LF\n\n%import common.LF\n";

/// How command_run's description tells the model to write apply_patch.
pub fn current_apply_patch_command_format() -> (r: String)
    ensures
        r@ == APPLY_PATCH_FORMAT_INTRO@ + APPLY_PATCH_GRAMMAR@,
{
    let mut out: Vec<char> = Vec::new();
    push_str(&mut out, APPLY_PATCH_FORMAT_INTRO);
    push_str(&mut out, APPLY_PATCH_GRAMMAR);
    string_of(&out)
}

pub const SHELL_FORMAT_GUIDANCE: &'static str = "Use for tests, builds, scripts, package tools, and host-shell behavior. Default timeout is 15 seconds; set timeout_ms explicitly for legitimate long-running one-shot commands. Put verification after edits in a later step only when that verification command is already known.";

pub const SHELL_COMMAND_SCHEMA: &'static str = "{\"type\":\"object\",\"properties\":{\"command\":{\"type\":\"string\",\"description\":\"The shell script to execute in the user's default shell\"},\"workdir\":{\"type\":\"string\",\"description\":\"The working directory to execute the command in\"},\"timeout_ms\":{\"type\":\"number\",\"description\":\"The timeout for the command in milliseconds\"}},\"required\":[\"command\"],\"additionalProperties\":false}";

/// How command_run's description tells the model to write a shell command:
/// the guidance, the shell's own prompt compacted, the note on services,
/// and the schema of the request.
pub open spec fn shell_command_format(shell_prompt: Seq<char>) -> Seq<char> {
    SHELL_FORMAT_GUIDANCE@ + " "@ + compact_text(shell_prompt) + " "@ + LONG_RUNNING_SERVICE_GUIDANCE@
        + " JSON object string matching this schema: "@ + SHELL_COMMAND_SCHEMA@
}

pub fn current_shell_command_format(active: &str, shell_prompt: &str) -> (r: String)
    ensures
        r@ == shell_command_format(shell_prompt@),
{
    let mut out: Vec<char> = Vec::new();
    push_str(&mut out, SHELL_FORMAT_GUIDANCE);
    push_str(&mut out, " ");
    let p = compact_prompt(shell_prompt);
    push_str(&mut out, p.as_str());
    push_str(&mut out, " ");
    push_str(&mut out, long_running_service_guidance(active));
    push_str(&mut out, " JSON object string matching this schema: ");
    push_str(&mut out, SHELL_COMMAND_SCHEMA);
    let r = string_of(&out);
    assert(r@ =~= shell_command_format(shell_prompt@));
    r
}

/// Whether two texts are the same.
pub fn same_text(a: &str, b: &str) -> (r: bool)
    ensures
        r == (a@ == b@),
{
    eq_str(&chars_of(a), b)
}

/// Whether a list of strings holds `name`.
pub fn has_text(v: &Vec<String>, name: &str) -> (b: bool)
    ensures
        b == text_views(v@).contains(name@),
{
    let mut i: usize = 0;
    while i < v.len()
        invariant
            i <= v.len(),
            forall|j: int| 0 <= j < i ==> #[trigger] text_views(v@)[j] != name@,
        decreases v.len() - i,
    {
        if same_text(v[i].as_str(), name) {
            assert(text_views(v@)[i as int] == name@);
            return true;
        }
        i = i + 1;
    }
    false
}

/// Each text comes before the next one, in the order of `str`'s `Ord`.
pub open spec fn strictly_sorted(s: Seq<Seq<char>>) -> bool {
    forall|i: int, j: int| 0 <= i < j < s.len() ==> lex_lt(#[trigger] s[i], #[trigger] s[j])
}

/// `r` lists the texts of `names` once each in ascending order, as a
/// `BTreeSet` of them iterates.
pub open spec fn ordered_set_of(r: Seq<Seq<char>>, names: Seq<Seq<char>>) -> bool {
    &&& strictly_sorted(r)
    &&& forall|x: Seq<char>| r.contains(x) <==> names.contains(x)
}

/// Inserts `x` into an ascending list of distinct texts, unless it holds
/// it already.
fn insert_into_set(set: &mut Vec<String>, x: &str)
    requires
        strictly_sorted(text_views(old(set)@)),
    ensures
        strictly_sorted(text_views(final(set)@)),
        forall|y: Seq<char>|
            text_views(final(set)@).contains(y) <==> (text_views(old(set)@).contains(y) || y == x@),
{
    let ghost s0 = text_views(set@);
    let xv = chars_of(x);
    let mut i: usize = 0;
    while i < set.len() && lex_less(&chars_of(set[i].as_str()), &xv)
        invariant
            i <= set.len(),
            set@ == old(set)@,
            s0 == text_views(set@),
            xv@ == x@,
            forall|j: int| 0 <= j < i ==> lex_lt(#[trigger] s0[j], x@),
        decreases set.len() - i,
    {
        assert(s0[i as int] == set@[i as int]@);
        i = i + 1;
    }
    if i < set.len() {
        assert(s0[i as int] == set@[i as int]@);
        proof {
            lemma_lex_lt_total(s0[i as int], x@);
        }
        if same_text(set[i].as_str(), x) {
            assert forall|y: Seq<char>| s0.contains(y) <==> (s0.contains(y) || y == x@) by {
                if y == x@ {
                    assert(s0[i as int] == y);
                }
            }
            return;
        }
        assert(lex_lt(x@, s0[i as int]));
    }
    set.insert(i, x.to_string());
    let ghost s1 = text_views(set@);
    assert(s1 =~= s0.insert(i as int, x@));
    assert forall|a: int, b: int| 0 <= a < b < s1.len() implies lex_lt(#[trigger] s1[a], #[trigger] s1[b]) by {
        if b < i {
            assert(s1[a] == s0[a] && s1[b] == s0[b]);
        } else if b == i {
            assert(s1[a] == s0[a]);
        } else if a < i {
            assert(s1[a] == s0[a] && s1[b] == s0[b - 1]);
            if a + 1 < b {
                lemma_lex_lt_transitive(s0[a], x@, s0[i as int]);
                if (i as int) < b - 1 {
                    lemma_lex_lt_transitive(s0[a], s0[i as int], s0[b - 1]);
                }
            } else {
                lemma_lex_lt_transitive(s0[a], x@, s0[i as int]);
            }
        } else if a == i {
            assert(s1[b] == s0[b - 1]);
            if (i as int) < b - 1 {
                lemma_lex_lt_transitive(x@, s0[i as int], s0[b - 1]);
            }
        } else {
            assert(s1[a] == s0[a - 1] && s1[b] == s0[b - 1]);
        }
    }
    assert forall|y: Seq<char>| s1.contains(y) <==> (s0.contains(y) || y == x@) by {
        if s1.contains(y) {
            let k = choose|k: int| 0 <= k < s1.len() && s1[k] == y;
            if k < i {
                assert(s0[k] == y);
            } else if k > i {
                assert(s0[k - 1] == y);
            }
        }
        if s0.contains(y) {
            let k = choose|k: int| 0 <= k < s0.len() && s0[k] == y;
            if k < i {
                assert(s1[k] == y);
            } else {
                assert(s1[k + 1] == y);
            }
        }
        if y == x@ {
            assert(s1[i as int] == y);
        }
    }
}

/// The texts of `names` once each, in ascending order.
pub fn ordered_set(names: &Vec<String>) -> (r: Vec<String>)
    ensures
        ordered_set_of(text_views(r@), text_views(names@)),
{
    let mut set: Vec<String> = Vec::new();
    let mut i: usize = 0;
    while i < names.len()
        invariant
            i <= names.len(),
            strictly_sorted(text_views(set@)),
            forall|y: Seq<char>| text_views(set@).contains(y) <==> text_views(names@).take(i as int).contains(y),
        decreases names.len() - i,
    {
        let ghost before = text_views(set@);
        insert_into_set(&mut set, names[i].as_str());
        proof {
            let tn = text_views(names@);
            assert(tn.take(i + 1) =~= tn.take(i as int).push(tn[i as int]));
            assert(tn[i as int] == names@[i as int]@);
            assert forall|y: Seq<char>| text_views(set@).contains(y) <==> tn.take(i + 1).contains(y) by {
                assert(before.contains(y) <==> tn.take(i as int).contains(y));
                if y == tn[i as int] {
                    assert(tn.take(i + 1)[i as int] == y);
                }
                if tn.take(i + 1).contains(y) {
                    let k = choose|k: int| 0 <= k < i + 1 && #[trigger] tn.take(i + 1)[k] == y;
                    if k < i {
                        assert(tn.take(i as int)[k] == y);
                    }
                }
                if tn.take(i as int).contains(y) {
                    let k = choose|k: int| 0 <= k < i && #[trigger] tn.take(i as int)[k] == y;
                    assert(tn.take(i + 1)[k] == y);
                }
            }
        }
        i = i + 1;
    }
    assert(text_views(names@).take(i as int) =~= text_views(names@));
    set
}

/// A list is listed in ascending order of distinct texts in one way only:
/// the command sets that contracts speak of are determined by their
/// elements.
pub proof fn law_ordered_set_unique(a: Seq<Seq<char>>, b: Seq<Seq<char>>, names: Seq<Seq<char>>)
    requires
        ordered_set_of(a, names),
        ordered_set_of(b, names),
    ensures
        a == b,
{
    lemma_sorted_same_elements(a, b);
}

proof fn lemma_sorted_same_elements(a: Seq<Seq<char>>, b: Seq<Seq<char>>)
    requires
        strictly_sorted(a),
        strictly_sorted(b),
        forall|x: Seq<char>| a.contains(x) <==> b.contains(x),
    ensures
        a == b,
    decreases a.len(),
{
    if a.len() == 0 {
        if b.len() > 0 {
            assert(b.contains(b[0]));
        }
        assert(a =~= b);
    } else {
        assert(a.contains(a[0]));
        let k = choose|k: int| 0 <= k < b.len() && b[k] == a[0];
        assert(b.contains(b[0]));
        let j = choose|j: int| 0 <= j < a.len() && a[j] == b[0];
        if k > 0 {
            assert(lex_lt(b[0], b[k]));
            if j > 0 {
                assert(lex_lt(a[0], a[j]));
                lemma_lex_lt_transitive(a[0], a[j], a[0]);
            }
            lemma_lex_lt_irreflexive(a[0]);
        }
        assert(a[0] == b[0]);
        let ra = a.drop_first();
        let rb = b.drop_first();
        assert forall|i: int, m: int| 0 <= i < m < ra.len() implies lex_lt(#[trigger] ra[i], #[trigger] ra[m]) by {
            assert(ra[i] == a[i + 1] && ra[m] == a[m + 1]);
        }
        assert forall|i: int, m: int| 0 <= i < m < rb.len() implies lex_lt(#[trigger] rb[i], #[trigger] rb[m]) by {
            assert(rb[i] == b[i + 1] && rb[m] == b[m + 1]);
        }
        assert forall|x: Seq<char>| ra.contains(x) <==> rb.contains(x) by {
            if ra.contains(x) {
                let p = choose|p: int| 0 <= p < ra.len() && ra[p] == x;
                assert(a[p + 1] == x);
                assert(lex_lt(a[0], x));
                lemma_lex_lt_irreflexive(x);
                assert(b.contains(x));
                let q = choose|q: int| 0 <= q < b.len() && b[q] == x;
                assert(q != 0);
                assert(rb[q - 1] == x);
            }
            if rb.contains(x) {
                let p = choose|p: int| 0 <= p < rb.len() && rb[p] == x;
                assert(b[p + 1] == x);
                assert(lex_lt(b[0], x));
                lemma_lex_lt_irreflexive(x);
                assert(a.contains(x));
                let q = choose|q: int| 0 <= q < a.len() && a[q] == x;
                assert(q != 0);
                assert(ra[q - 1] == x);
            }
        }
        lemma_sorted_same_elements(ra, rb);
        assert(a =~= seq![a[0]] + ra);
        assert(b =~= seq![b[0]] + rb);
    }
}

/// The commands command_run offers when an agent names none of its own.
pub open spec fn default_commands(active: Seq<char>) -> Seq<Seq<char>> {
    seq!["apply_patch"@, active, "read_media"@, "web_discover"@, "compact_context"@, "task_status"@]
}

pub fn default_command_run_commands(active: &str) -> (r: Vec<String>)
    ensures
        ordered_set_of(text_views(r@), default_commands(active@)),
{
    let names: Vec<String> = vec![
        "apply_patch".to_string(),
        active.to_string(),
        "read_media".to_string(),
        "web_discover".to_string(),
        "compact_context".to_string(),
        "task_status".to_string(),
    ];
    assert(text_views(names@) =~= default_commands(active@));
    ordered_set(&names)
}

/// The names of a list other than command_run itself.
pub open spec fn other_than_command_run(names: Seq<Seq<char>>) -> Seq<Seq<char>>
    decreases names.len(),
{
    if names.len() == 0 {
        Seq::empty()
    } else {
        let r = other_than_command_run(names.drop_last());
        if names.last() == COMMAND_RUN_TOOL@ {
            r
        } else {
            r.push(names.last())
        }
    }
}

pub proof fn lemma_other_than_command_run(names: Seq<Seq<char>>)
    ensures
        forall|x: Seq<char>| other_than_command_run(names).contains(x) <==> (names.contains(x) && x != COMMAND_RUN_TOOL@),
    decreases names.len(),
{
    if names.len() > 0 {
        let init = names.drop_last();
        lemma_other_than_command_run(init);
        assert forall|x: Seq<char>| other_than_command_run(names).contains(x) <==> (names.contains(x) && x != COMMAND_RUN_TOOL@) by {
            let r = other_than_command_run(init);
            if names.contains(x) && x != COMMAND_RUN_TOOL@ {
                let k = choose|k: int| 0 <= k < names.len() && names[k] == x;
                if k < names.len() - 1 {
                    assert(init[k] == x);
                    assert(init.contains(x));
                    if names.last() != COMMAND_RUN_TOOL@ {
                        let q = choose|q: int| 0 <= q < r.len() && r[q] == x;
                        assert(r.push(names.last())[q] == x);
                    }
                } else {
                    assert(r.push(names.last())[r.len() as int] == x);
                }
            }
            if other_than_command_run(names).contains(x) {
                if names.last() != COMMAND_RUN_TOOL@ {
                    let q = choose|q: int| 0 <= q < r.len() + 1 && #[trigger] r.push(names.last())[q] == x;
                    if q < r.len() {
                        assert(r[q] == x);
                        assert(r.contains(x));
                        assert(init.contains(x));
                        let k = choose|k: int| 0 <= k < init.len() && #[trigger] init[k] == x;
                        assert(names[k] == x);
                    } else {
                        assert(names[names.len() - 1] == x);
                    }
                } else {
                    assert(r.contains(x));
                    assert(init.contains(x));
                    let k = choose|k: int| 0 <= k < init.len() && #[trigger] init[k] == x;
                    assert(names[k] == x);
                }
            }
        }
    }
}

/// The commands command_run offers an agent: its capabilities (by their
/// command names) other than command_run, or the default commands when
/// that leaves none; once each, in ascending order.
pub open spec fn agent_commands(r: Seq<Seq<char>>, capability_commands: Seq<Seq<char>>, active: Seq<char>) -> bool {
    if other_than_command_run(capability_commands).len() > 0 {
        ordered_set_of(r, other_than_command_run(capability_commands))
    } else {
        ordered_set_of(r, default_commands(active))
    }
}

pub fn command_run_commands_for_agent(capability_commands: &Vec<String>, active: &str) -> (r: Vec<String>)
    ensures
        agent_commands(text_views(r@), text_views(capability_commands@), active@),
{
    let ghost names = text_views(capability_commands@);
    let mut kept: Vec<String> = Vec::new();
    let mut i: usize = 0;
    while i < capability_commands.len()
        invariant
            i <= capability_commands.len(),
            names == text_views(capability_commands@),
            text_views(kept@) == other_than_command_run(names.take(i as int)),
        decreases capability_commands.len() - i,
    {
        assert(names.take(i + 1).drop_last() =~= names.take(i as int));
        assert(names.take(i + 1).last() == names[i as int]);
        if !same_text(capability_commands[i].as_str(), COMMAND_RUN_TOOL) {
            let ghost before = text_views(kept@);
            kept.push(capability_commands[i].clone());
            assert(text_views(kept@) =~= before.push(names[i as int]));
        }
        i = i + 1;
    }
    assert(names.take(i as int) =~= names);
    proof {
        lemma_other_than_command_run(names);
        lemma_other_than_command_run(text_views(kept@));
    }
    if kept.len() == 0 {
        return default_command_run_commands(active);
    }
    let r = ordered_set(&kept);
    r
}

/// The order in which command_run's description lists its commands.
pub open spec fn description_order(active: Seq<char>) -> Seq<Seq<char>> {
    seq![
        "apply_patch"@,
        active,
        "read_media"@,
        "web_discover"@,
        "compact_context"@,
        "task_status"@,
        "planning"@,
    ]
}

/// The names of `order` that `commands` holds, in the order of `order`.
pub open spec fn present_in_order(order: Seq<Seq<char>>, commands: Seq<Seq<char>>) -> Seq<Seq<char>>
    decreases order.len(),
{
    if order.len() == 0 {
        Seq::empty()
    } else {
        let r = present_in_order(order.drop_last(), commands);
        if commands.contains(order.last()) {
            r.push(order.last())
        } else {
            r
        }
    }
}

pub fn command_list_for_description(commands: &Vec<String>, active_shell: &str) -> (r: Vec<String>)
    ensures
        text_views(r@) == present_in_order(description_order(active_shell@), text_views(commands@)),
{
    let order: Vec<&str> = vec![
        "apply_patch",
        active_shell,
        "read_media",
        "web_discover",
        "compact_context",
        "task_status",
        "planning",
    ];
    let ghost ov = description_order(active_shell@);
    assert(order@.map_values(|s: &str| s@) =~= ov);
    let mut out: Vec<String> = Vec::new();
    let mut i: usize = 0;
    while i < order.len()
        invariant
            i <= order.len(),
            order.len() == ov.len(),
            forall|j: int| 0 <= j < order.len() ==> (#[trigger] order@[j])@ == ov[j],
            text_views(out@) == present_in_order(ov.take(i as int), text_views(commands@)),
        decreases order.len() - i,
    {
        assert(ov.take(i + 1).drop_last() =~= ov.take(i as int));
        assert(ov.take(i + 1).last() == ov[i as int]);
        assert(order@[i as int]@ == ov[i as int]);
        if has_text(commands, order[i]) {
            let ghost before = text_views(out@);
            out.push(order[i].to_string());
            assert(text_views(out@) =~= before.push(ov[i as int]));
        }
        i = i + 1;
    }
    assert(ov.take(i as int) =~= ov);
    out
}

/// The patterns of command_run use that its description lists, one per line.
pub const USAGE_PATTERNS: &'static str = "- Batch investigation: use early commands for the specific discovery, searches, and file reads needed to understand the failure surface.\n- Keep related path listing, targeted search, and candidate file reads in the same command_run batch; independent commands with no output dependency may share one step.\n- Do not run test/probe invocations before you have read the relevant code and determined the actual CLI command set.\n- Use steps to express execution order and dependency relationships. Commands in the same step may run together; later steps should depend on earlier steps only when their inputs are already known before the batch is created.\n- Code repair loop: after discovery has produced enough facts, use one step for coordinated edits and later steps for already-known tests or focused validation.\n- Avoid embedding long generated source code or complex quoting directly in shell/bash command lines; for complex logic, invoke a script/interpreter from shell/bash rather than encoding the logic in shell syntax.\n- Verification: run the relevant test or build command after edits in the same command_run only when the verification command is already known.\n- Failure handling: inspect each failed item and change the next command based on that failure instead of retrying the same command.\n- Context compaction: after a meaningful phase completes, or when context is near 200,000 tokens and feels crowded, put `compact_context` as the final command in the highest step with a concise handoff summary for the next turn.\n- Example investigation batch: step 1 groups independent `rg --files`, targeted `rg -n`, and candidate file reads.\n- Example repair batch: step 1 `apply_patch` across related files, step 2 write or update a focused test script when needed, step 3 run the narrow test and focused validation searches.\n- Example frontend batch: step 1 write or reuse the focused frontend test script, step 2 run that script and inspect generated textual outputs.";

/// The pattern added when media commands are offered.
pub const MEDIA_USAGE_PATTERN: &'static str = "- Example media batch: step 1 use `web_discover` or generation to collect the needed media, docs, or repo artifacts, step 2 use `read_media` or focused reads to verify the resulting media or repo content.";

/// The patterns of command_run use: the media pattern is added when
/// read_media or web_discover is offered.
pub open spec fn usage_patterns(commands: Seq<Seq<char>>) -> Seq<char> {
    if commands.contains("read_media"@) || commands.contains("web_discover"@) {
        USAGE_PATTERNS@ + "\n"@ + MEDIA_USAGE_PATTERN@
    } else {
        USAGE_PATTERNS@
    }
}

pub fn command_run_usage_patterns(allowed_commands: &Vec<String>) -> (r: String)
    ensures
        r@ == usage_patterns(text_views(allowed_commands@)),
{
    let mut out: Vec<char> = Vec::new();
    push_str(&mut out, USAGE_PATTERNS);
    if has_text(allowed_commands, "read_media") || has_text(allowed_commands, "web_discover") {
        push_str(&mut out, "\n");
        push_str(&mut out, MEDIA_USAGE_PATTERN);
    }
    string_of(&out)
}

/// What command_run's description says of each command, as the command
/// crates give it: the two shells' prompts, and the prompt and request
/// schema of each other command.
pub struct CommandPrompts {
    pub shell_command_prompt: String,
    pub bash_prompt: String,
    pub read_media_prompt: String,
    pub read_media_schema: String,
    pub web_discover_prompt: String,
    pub web_discover_schema: String,
    pub compact_context_prompt: String,
    pub compact_context_schema: String,
    pub task_status_prompt: String,
    pub task_status_schema: String,
    pub planning_prompt: String,
    pub planning_schema: String,
}

/// The text of `s` before the first occurrence of `pat`; all of it when
/// `pat` does not occur (the first piece of `str::split`).
pub open spec fn before_first(s: Seq<char>, pat: Seq<char>) -> Seq<char> {
    match find(s, pat) {
        Some(i) => s.take(i as int),
        None => s,
    }
}

fn before_first_exec(v: &Vec<char>, pat: &str) -> (r: Vec<char>)
    ensures
        r@ == before_first(v@, pat@),
{
    let pv = chars_of(pat);
    match find_from_exec(v, &pv, 0) {
        Some(i) => slice_vec(v, 0, i),
        None => slice_vec(v, 0, v.len()),
    }
}

/// The part of a tool's own description that command_run's keeps: the text
/// before its command details and formats, without the old list of
/// commands, with trailing whitespace trimmed.
pub open spec fn description_prefix(original: Seq<char>) -> Seq<char> {
    trim_end_class(
        replace_str(
            before_first(before_first(original, "\nAvailable command details"@), "\nCommand line formats:\n"@),
            "Available commands: apply_patch, bash, shell_command."@,
            Seq::empty(),
        ),
        CharClass::Whitespace,
    )
}

/// The line of a command's details: its prompt compacted and its schema.
pub open spec fn detail_line(name: Seq<char>, prompt: Seq<char>, schema: Seq<char>) -> Seq<char> {
    "- "@ + name + ": "@ + compact_text(prompt) + " Schema: "@ + compact_schema_text(schema)
}

pub open spec fn line_if(cond: bool, line: Seq<char>) -> Seq<Seq<char>> {
    if cond {
        seq![line]
    } else {
        Seq::empty()
    }
}

/// The shell's prompt: that of shell_command when it is the active shell,
/// that of bash otherwise.
pub open spec fn shell_prompt_for(active: Seq<char>, p: CommandPrompts) -> Seq<char> {
    if active == "shell_command"@ {
        p.shell_command_prompt@
    } else {
        p.bash_prompt@
    }
}

/// The format lines of the offered commands, in a fixed order.
pub open spec fn command_lines(commands: Seq<Seq<char>>, active: Seq<char>, p: CommandPrompts) -> Seq<Seq<char>> {
    line_if(commands.contains("apply_patch"@), "- apply_patch: "@ + APPLY_PATCH_FORMAT_INTRO@ + APPLY_PATCH_GRAMMAR@)
        + line_if(commands.contains(active), "- "@ + active + ": "@ + shell_command_format(shell_prompt_for(active, p)))
        + line_if(commands.contains("read_media"@), detail_line("read_media"@, p.read_media_prompt@, p.read_media_schema@))
        + line_if(commands.contains("web_discover"@), detail_line("web_discover"@, p.web_discover_prompt@, p.web_discover_schema@))
        + line_if(commands.contains("compact_context"@), detail_line("compact_context"@, p.compact_context_prompt@, p.compact_context_schema@))
        + line_if(commands.contains("task_status"@), detail_line("task_status"@, p.task_status_prompt@, p.task_status_schema@))
        + line_if(commands.contains("planning"@), detail_line("planning"@, p.planning_prompt@, p.planning_schema@))
}

/// command_run's description for the offered commands and the active shell.
pub open spec fn description_text(original: Seq<char>, commands: Seq<Seq<char>>, active: Seq<char>, p: CommandPrompts) -> Seq<char> {
    description_prefix(original) + " Available commands: "@ + join(present_in_order(description_order(active), commands), ", "@)
        + ".\nCommand run patterns:\n"@ + usage_patterns(commands) + "\nCommand line formats:\n"@
        + join(command_lines(commands, active, p), "\n"@)
}

fn push_line_if(lines: &mut Vec<Vec<char>>, cond: bool, line: Vec<char>)
    ensures
        views(final(lines)@) == views(old(lines)@) + line_if(cond, line@),
{
    let ghost before = views(lines@);
    if cond {
        lines.push(line);
        assert(views(lines@) =~= before + seq![line@]);
    } else {
        assert(views(lines@) =~= before + Seq::<Seq<char>>::empty());
    }
}

fn detail_line_exec(name: &str, prompt: &str, schema: &str) -> (r: Vec<char>)
    ensures
        r@ == detail_line(name@, prompt@, schema@),
{
    let mut out: Vec<char> = Vec::new();
    push_str(&mut out, "- ");
    push_str(&mut out, name);
    push_str(&mut out, ": ");
    let cp = compact_prompt(prompt);
    push_str(&mut out, cp.as_str());
    push_str(&mut out, " Schema: ");
    let cs = compact_schema(schema);
    push_str(&mut out, cs.as_str());
    assert(out@ =~= detail_line(name@, prompt@, schema@));
    out
}

fn command_lines_exec(commands: &Vec<String>, active: &str, p: &CommandPrompts) -> (r: Vec<Vec<char>>)
    ensures
        views(r@) == command_lines(text_views(commands@), active@, *p),
{
    let ghost cs = text_views(commands@);
    let mut lines: Vec<Vec<char>> = Vec::new();
    assert(views(lines@) =~= Seq::<Seq<char>>::empty());
    let mut l1: Vec<char> = Vec::new();
    push_str(&mut l1, "- apply_patch: ");
    let f = current_apply_patch_command_format();
    push_str(&mut l1, f.as_str());
    assert(l1@ =~= "- apply_patch: "@ + APPLY_PATCH_FORMAT_INTRO@ + APPLY_PATCH_GRAMMAR@);
    push_line_if(&mut lines, has_text(commands, "apply_patch"), l1);
    let shell_prompt = if same_text(active, "shell_command") {
        p.shell_command_prompt.as_str()
    } else {
        p.bash_prompt.as_str()
    };
    let mut l2: Vec<char> = Vec::new();
    push_str(&mut l2, "- ");
    push_str(&mut l2, active);
    push_str(&mut l2, ": ");
    let sf = current_shell_command_format(active, shell_prompt);
    push_str(&mut l2, sf.as_str());
    assert(l2@ =~= "- "@ + active@ + ": "@ + shell_command_format(shell_prompt_for(active@, *p)));
    push_line_if(&mut lines, has_text(commands, active), l2);
    push_line_if(
        &mut lines,
        has_text(commands, "read_media"),
        detail_line_exec("read_media", p.read_media_prompt.as_str(), p.read_media_schema.as_str()),
    );
    push_line_if(
        &mut lines,
        has_text(commands, "web_discover"),
        detail_line_exec("web_discover", p.web_discover_prompt.as_str(), p.web_discover_schema.as_str()),
    );
    push_line_if(
        &mut lines,
        has_text(commands, "compact_context"),
        detail_line_exec("compact_context", p.compact_context_prompt.as_str(), p.compact_context_schema.as_str()),
    );
    push_line_if(
        &mut lines,
        has_text(commands, "task_status"),
        detail_line_exec("task_status", p.task_status_prompt.as_str(), p.task_status_schema.as_str()),
    );
    push_line_if(
        &mut lines,
        has_text(commands, "planning"),
        detail_line_exec("planning", p.planning_prompt.as_str(), p.planning_schema.as_str()),
    );
    assert(views(lines@) =~= command_lines(cs, active@, *p));
    lines
}

/// The description of the listed commands, for one set of offered commands.
fn description_for_commands(original: &str, commands: &Vec<String>, active: &str, p: &CommandPrompts) -> (r: String)
    ensures
        r@ == description_text(original@, text_views(commands@), active@, *p),
{
    let ov = chars_of(original);
    let a = before_first_exec(&ov, "\nAvailable command details");
    let b = before_first_exec(&a, "\nCommand line formats:\n");
    let c = replace_str_exec(&b, "Available commands: apply_patch, bash, shell_command.", "");
    proof {
        reveal_strlit("");
        assert(""@ =~= Seq::<char>::empty());
    }
    let prefix = trim_end_by(&c, &CharClass::Whitespace);
    let listed = command_list_for_description(commands, active);
    let mut listed_chars: Vec<Vec<char>> = Vec::new();
    let mut i: usize = 0;
    while i < listed.len()
        invariant
            i <= listed.len(),
            views(listed_chars@) == text_views(listed@).take(i as int),
        decreases listed.len() - i,
    {
        let ghost before = views(listed_chars@);
        let cv = chars_of(listed[i].as_str());
        assert(cv@ == text_views(listed@)[i as int]);
        listed_chars.push(cv);
        assert(views(listed_chars@) =~= before.push(cv@));
        assert(text_views(listed@).take(i + 1) =~= text_views(listed@).take(i as int).push(cv@));
        i = i + 1;
    }
    assert(text_views(listed@).take(i as int) =~= text_views(listed@));
    let names = join_chars(&listed_chars, ", ");
    let patterns = command_run_usage_patterns(commands);
    let lines = command_lines_exec(commands, active, p);
    let formats = join_chars(&lines, "\n");
    let mut out: Vec<char> = Vec::new();
    crate::text::push_chars(&mut out, &prefix);
    push_str(&mut out, " Available commands: ");
    crate::text::push_chars(&mut out, &names);
    push_str(&mut out, ".\nCommand run patterns:\n");
    push_str(&mut out, patterns.as_str());
    push_str(&mut out, "\nCommand line formats:\n");
    crate::text::push_chars(&mut out, &formats);
    proof {
        assert(listed_chars@.map_values(|w: Vec<char>| w@) =~= views(listed_chars@));
        assert(lines@.map_values(|w: Vec<char>| w@) =~= views(lines@));
    }
    let r = string_of(&out);
    assert(r@ =~= description_text(original@, text_views(commands@), active@, *p));
    r
}

/// The commands' presence alone decides the description.
pub proof fn lemma_description_membership(original: Seq<char>, a: Seq<Seq<char>>, b: Seq<Seq<char>>, active: Seq<char>, p: CommandPrompts)
    requires
        forall|x: Seq<char>| a.contains(x) <==> b.contains(x),
    ensures
        description_text(original, a, active, p) == description_text(original, b, active, p),
{
    lemma_present_in_order_membership(description_order(active), a, b);
}

pub proof fn lemma_present_in_order_membership(order: Seq<Seq<char>>, a: Seq<Seq<char>>, b: Seq<Seq<char>>)
    requires
        forall|x: Seq<char>| a.contains(x) <==> b.contains(x),
    ensures
        present_in_order(order, a) == present_in_order(order, b),
    decreases order.len(),
{
    if order.len() > 0 {
        lemma_present_in_order_membership(order.drop_last(), a, b);
    }
}

/// command_run's description for the active shell: the kept part of its own
/// description, the offered commands in a fixed order, the patterns of use,
/// and the format of each offered command. With no command set given, the
/// default commands are offered.
pub fn command_run_description_for_active_shell(
    original: &str,
    allowed_commands: Option<&Vec<String>>,
    active: &str,
    prompts: &CommandPrompts,
) -> (r: String)
    ensures
        r@ == match allowed_commands {
            Some(c) => description_text(original@, text_views(c@), active@, *prompts),
            None => description_text(original@, default_commands(active@), active@, *prompts),
        },
{
    match allowed_commands {
        Some(c) => description_for_commands(original, c, active, prompts),
        None => {
            let d = default_command_run_commands(active);
            let r = description_for_commands(original, &d, active, prompts);
            proof {
                lemma_description_membership(original@, text_views(d@), default_commands(active@), active@, *prompts);
            }
            r
        },
    }
}


/// The shell that command_run offers: a configured `bash` (in any ASCII
/// case, surrounded by any whitespace) is bash; a configured `shell`,
/// `shell_command`, `shll` or `shall` is shell_command on every platform;
/// anything else, or nothing, is shell_command on Windows and bash
/// elsewhere.
pub proof fn law_configured_shell_decides(configured: Option<Seq<char>>, windows: bool)
    ensures
        ({
            let v = match configured {
                Some(c) => Some(ascii_lower(trim_ws(c))),
                None => None,
            };
            &&& v == Some("bash"@) ==> active_shell(configured, windows) == "bash"@
            &&& (v == Some("shell"@) || v == Some("shell_command"@) || v == Some("shll"@) || v == Some("shall"@))
                ==> active_shell(configured, windows) == "shell_command"@
            &&& (v != Some("bash"@) && v != Some("shell"@) && v != Some("shell_command"@) && v != Some("shll"@)
                && v != Some("shall"@)) ==> active_shell(configured, windows) == if windows {
                "shell_command"@
            } else {
                "bash"@
            }
        }),
{
    reveal_strlit("bash");
    reveal_strlit("shell");
    reveal_strlit("shell_command");
    reveal_strlit("shll");
    reveal_strlit("shall");
    if let Some(c) = configured {
        let w = ascii_lower(trim_ws(c));
        if w == "shll"@ {
            assert(w[0] != "bash"@[0]);
        }
        if w == "shall"@ {
            assert(w[2] != "shell"@[2]);
        }
        if w == "shell"@ {
            assert(w[2] != "shall"@[2]);
        }
    }
}
} // verus!
