//! Tool names and workspace paths in the arguments of tool calls.
use vstd::prelude::*;
use crate::agent_router::{is_absolute_path, join_path, join_paths, path_is_absolute};
use crate::chars::{ascii_lower, eq_str, is_whitespace, is_ws, replace_char, replace_char_exec, rfind, rfind_before, rfind_str, slice_vec, starts_with, starts_with_str, to_ascii_lowercase, trim, trim_end_by, trim_end_class, trim_start_by, trim_start_class, trim_ws, CharClass};
use crate::text::{chars_of, string_of};
use crate::json::{array_data, as_text, copy_json, json_as_str, json_data, json_get, lemma_array_data, lemma_object_data, member, object_data, JsonData, JsonValue};

verus! {

/// `s` without all leading repetitions of `p` (`str::trim_start_matches`).
pub open spec fn strip_prefix_all(s: Seq<char>, p: Seq<char>) -> Seq<char>
    decreases s.len(),
{
    if p.len() > 0 && starts_with(s, p) {
        strip_prefix_all(s.skip(p.len() as int), p)
    } else {
        s
    }
}

fn strip_prefix_all_exec(v: &Vec<char>, p: &str) -> (r: Vec<char>)
    ensures
        r@ == strip_prefix_all(v@, p@),
{
    let pv = chars_of(p);
    if pv.len() == 0 {
        return slice_vec(v, 0, v.len());
    }
    let mut i: usize = 0;
    assert(v@.skip(0) =~= v@);
    loop
        invariant
            i <= v.len(),
            pv@ == p@,
            pv@.len() > 0,
            strip_prefix_all(v@.skip(i as int), p@) == strip_prefix_all(v@, p@),
        decreases v.len() - i,
    {
        let rest = slice_vec(v, i, v.len());
        assert(rest@ =~= v@.skip(i as int));
        if starts_with_str(&rest, p) {
            assert(v@.skip(i as int).skip(pv@.len() as int) =~= v@.skip(i + pv@.len()));
            i = i + pv.len();
        } else {
            return rest;
        }
    }
}

/// The lookup form of a command name: trimmed, lower-cased, `_` and `-`
/// read as `:`, leading `semantic:` and then `source:` prefixes dropped, and
/// `:` written as `_`.
pub open spec fn tool_name_key(command: Seq<char>) -> Seq<char> {
    let a = replace_char(replace_char(ascii_lower(trim_ws(command)), '_', ':'), '-', ':');
    replace_char(strip_prefix_all(strip_prefix_all(a, "semantic:"@), "source:"@), ':', '_')
}

/// The tool that a command name stands for: shell names and aliases map to
/// the runtime's tools, any other name stays as its lookup form.
pub open spec fn canonical_tool_name(key: Seq<char>) -> Seq<char> {
    if key == "rg"@ || key == "ripgrep"@ || key == "grep"@ {
        "rg"@
    } else if key == "find"@ {
        "glob"@
    } else if key == "cat"@ || key == "type"@ || key == "get_content"@ {
        "read_line"@
    } else if key == "sed"@ {
        "read_block"@
    } else if key == "tee"@ || key == "set_content"@ || key == "out_file"@ {
        "write_file"@
    } else if key == "rm"@ || key == "del"@ || key == "erase"@ || key == "remove_item"@ {
        "delete_file"@
    } else if key == "apply_patch"@ || key == "applypatch"@ || key == "patch"@ || key
        == "apply_diff"@ || key == "applydiff"@ {
        "apply_patch"@
    } else if key == "outline"@ || key == "symbols"@ {
        "get_file_outline"@
    } else if key == "definition"@ {
        "find_definition"@
    } else if key == "references"@ {
        "find_references"@
    } else {
        key
    }
}

pub open spec fn normalized_tool_name(command: Seq<char>) -> Seq<char> {
    canonical_tool_name(tool_name_key(command))
}

fn tool_name_key_exec(command: &Vec<char>) -> (r: Vec<char>)
    ensures
        r@ == tool_name_key(command@),
{
    let t = trim(command);
    let l = to_ascii_lowercase(&t);
    let a = replace_char_exec(&replace_char_exec(&l, '_', ':'), '-', ':');
    let b = strip_prefix_all_exec(&a, "semantic:");
    let c = strip_prefix_all_exec(&b, "source:");
    replace_char_exec(&c, ':', '_')
}

fn canonical_name_of(command: &Vec<char>) -> (r: Vec<char>)
    ensures
        r@ == normalized_tool_name(command@),
{
    let k = tool_name_key_exec(command);
    let name: &str = if eq_str(&k, "rg") || eq_str(&k, "ripgrep") || eq_str(&k, "grep") {
        "rg"
    } else if eq_str(&k, "find") {
        "glob"
    } else if eq_str(&k, "cat") || eq_str(&k, "type") || eq_str(&k, "get_content") {
        "read_line"
    } else if eq_str(&k, "sed") {
        "read_block"
    } else if eq_str(&k, "tee") || eq_str(&k, "set_content") || eq_str(&k, "out_file") {
        "write_file"
    } else if eq_str(&k, "rm") || eq_str(&k, "del") || eq_str(&k, "erase") || eq_str(
        &k,
        "remove_item",
    ) {
        "delete_file"
    } else if eq_str(&k, "apply_patch") || eq_str(&k, "applypatch") || eq_str(&k, "patch")
        || eq_str(&k, "apply_diff") || eq_str(&k, "applydiff") {
        "apply_patch"
    } else if eq_str(&k, "outline") || eq_str(&k, "symbols") {
        "get_file_outline"
    } else if eq_str(&k, "definition") {
        "find_definition"
    } else if eq_str(&k, "references") {
        "find_references"
    } else {
        return k;
    };
    chars_of(name)
}

/// The runtime tool that a command name of a command_run step stands for.
pub fn normalize_command_run_tool_name(command: &str) -> (r: String)
    ensures
        r@ == normalized_tool_name(command@),
{
    let v = chars_of(command);
    string_of(&canonical_name_of(&v))
}

/// Index of the first whitespace character of `s` at or after `i`.
pub open spec fn first_ws_from(s: Seq<char>, i: nat) -> Option<nat>
    decreases s.len() - i,
{
    if i >= s.len() {
        None
    } else if is_ws(s[i as int]) {
        Some(i)
    } else {
        first_ws_from(s, i + 1)
    }
}

proof fn lemma_first_ws_from(s: Seq<char>, i: nat)
    ensures
        match first_ws_from(s, i) {
            Some(k) => i <= k < s.len(),
            None => true,
        },
    decreases s.len() - i,
{
    if i < s.len() && !is_ws(s[i as int]) {
        lemma_first_ws_from(s, i + 1);
    }
}

/// The command line of a structured tool without a leading word that names
/// the tool itself: the line with leading whitespace dropped, and, when its
/// first word normalizes to `tool_name`, what follows that word and the one
/// whitespace character after it, again without leading whitespace.
pub open spec fn stripped_command_line(tool_name: Seq<char>, command_line: Seq<char>) -> Seq<
    char,
> {
    let t = trim_start_class(command_line, CharClass::Whitespace);
    match first_ws_from(t, 0) {
        None => t,
        Some(w) => if normalized_tool_name(t.take(w as int)) == tool_name {
            trim_start_class(t.skip(w + 1 as int), CharClass::Whitespace)
        } else {
            t
        },
    }
}

pub fn strip_command_run_tool_prefix(tool_name: &str, command_line: &str) -> (r: String)
    ensures
        r@ == stripped_command_line(tool_name@, command_line@),
{
    let raw = chars_of(command_line);
    let t = trim_start_by(&raw, &CharClass::Whitespace);
    let mut w: usize = 0;
    assert(first_ws_from(t@, 0) == first_ws_from(t@, 0));
    while w < t.len() && !is_whitespace(t[w])
        invariant
            w <= t.len(),
            first_ws_from(t@, w as nat) == first_ws_from(t@, 0),
        decreases t.len() - w,
    {
        w = w + 1;
    }
    if w >= t.len() {
        return string_of(&t);
    }
    let prefix = slice_vec(&t, 0, w);
    assert(prefix@ =~= t@.take(w as int));
    let name = canonical_name_of(&prefix);
    let tn = chars_of(tool_name);
    if crate::context::text_truncate::same_chars(&name, &tn) {
        let rest = slice_vec(&t, w + 1, t.len());
        assert(rest@ =~= t@.skip(w + 1));
        string_of(&trim_start_by(&rest, &CharClass::Whitespace))
    } else {
        string_of(&t)
    }
}

/// The form in which paths are compared: back-slashes read as slashes,
/// ASCII lower-cased.
pub open spec fn compare_form(p: Seq<char>) -> Seq<char> {
    ascii_lower(replace_char(p, '\\', '/'))
}

pub fn normalize_for_compare(path: &str) -> (r: String)
    ensures
        r@ == compare_form(path@),
{
    let v = chars_of(path);
    string_of(&to_ascii_lowercase(&replace_char_exec(&v, '\\', '/')))
}

/// Whether `path` is the workspace or lies below it, compared in
/// `compare_form`.
pub open spec fn inside_workspace(path: Seq<char>, workspace: Seq<char>) -> bool {
    let np = compare_form(path);
    let nw = compare_form(workspace);
    np == nw || starts_with(np, trim_end_class(nw, CharClass::Exactly('/')) + "/"@)
}

pub fn path_is_inside(path: &str, workspace: &str) -> (b: bool)
    ensures
        b == inside_workspace(path@, workspace@),
{
    let np = chars_of(normalize_for_compare(path).as_str());
    let nw = chars_of(normalize_for_compare(workspace).as_str());
    if crate::context::text_truncate::same_chars(&np, &nw) {
        return true;
    }
    let mut base = trim_end_by(&nw, &CharClass::Exactly('/'));
    let ghost trimmed = base@;
    base.push('/');
    proof {
        reveal_strlit("/");
    }
    assert(base@ =~= trimmed + "/"@);
    crate::chars::matches_at_exec(&np, &base, 0)
}

/// Index of the first glob character (`*`, `?` or `[`) of `s` at or after
/// `i`.
pub open spec fn first_glob_from(s: Seq<char>, i: nat) -> Option<nat>
    decreases s.len() - i,
{
    if i >= s.len() {
        None
    } else if s[i as int] == '*' || s[i as int] == '?' || s[i as int] == '[' {
        Some(i)
    } else {
        first_glob_from(s, i + 1)
    }
}

/// An absolute path outside the workspace, brought into it: with a glob, the
/// path from the last directory before the first glob character on, taken
/// inside the workspace; without one, the workspace itself.
pub open spec fn rebased_path(session_directory: Seq<char>, raw_path: Seq<char>) -> Seq<char> {
    let n = replace_char(raw_path, '\\', '/');
    match first_glob_from(n, 0) {
        Some(g) => {
            let prefix = n.take(g as int);
            let start = match rfind(prefix, "/"@) {
                Some(k) => k + 1,
                None => g,
            };
            join_path(session_directory, n.skip(start as int))
        },
        None => session_directory,
    }
}

proof fn lemma_first_glob_from(s: Seq<char>, i: nat)
    ensures
        match first_glob_from(s, i) {
            Some(k) => i <= k < s.len(),
            None => true,
        },
    decreases s.len() - i,
{
    if i < s.len() && !(s[i as int] == '*' || s[i as int] == '?' || s[i as int] == '[') {
        lemma_first_glob_from(s, i + 1);
    }
}

pub fn rebase_absolute_path_to_workspace(session_directory: &str, raw_path: &str) -> (r: String)
    ensures
        r@ == rebased_path(session_directory@, raw_path@),
{
    let raw = chars_of(raw_path);
    let n = replace_char_exec(&raw, '\\', '/');
    let mut g: usize = 0;
    while g < n.len() && !(n[g] == '*' || n[g] == '?' || n[g] == '[')
        invariant
            g <= n.len(),
            first_glob_from(n@, g as nat) == first_glob_from(n@, 0),
        decreases n.len() - g,
    {
        g = g + 1;
    }
    if g >= n.len() {
        return session_directory.to_owned();
    }
    let prefix = slice_vec(&n, 0, g);
    assert(prefix@ =~= n@.take(g as int));
    let start: usize = match rfind_str(&prefix, "/") {
        Some(k) => k + 1,
        None => g,
    };
    let suffix = slice_vec(&n, start, n.len());
    assert(suffix@ =~= n@.skip(start as int));
    join_paths(session_directory, string_of(&suffix).as_str())
}

/// A path argument of a tool call as the tool sees it: relative paths are
/// taken from the session directory, absolute ones inside the workspace are
/// kept, and absolute ones outside it are rebased into it.
pub open spec fn workspace_path(session_directory: Seq<char>, raw_path: Seq<char>) -> Seq<char> {
    if is_absolute_path(raw_path) {
        if !inside_workspace(raw_path, session_directory) {
            rebased_path(session_directory, raw_path)
        } else {
            raw_path
        }
    } else {
        join_path(session_directory, raw_path)
    }
}

pub fn resolve_workspace_path(session_directory: &str, raw_path: &str) -> (r: String)
    ensures
        r@ == workspace_path(session_directory@, raw_path@),
{
    if path_is_absolute(raw_path) {
        if !path_is_inside(raw_path, session_directory) {
            return rebase_absolute_path_to_workspace(session_directory, raw_path);
        }
        return raw_path.to_owned();
    }
    join_paths(session_directory, raw_path)
}

/// A path argument is resolved the same way for every tool.
pub fn resolve_tool_path(tool_name: &str, session_directory: &str, raw_path: &str) -> (r: String)
    ensures
        r@ == workspace_path(session_directory@, raw_path@),
{
    resolve_workspace_path(session_directory, raw_path)
}


proof fn lemma_compare_form_add(a: Seq<char>, b: Seq<char>)
    ensures
        compare_form(a + b) == compare_form(a) + compare_form(b),
{
    assert(compare_form(a + b) =~= compare_form(a) + compare_form(b));
}

proof fn lemma_join_inside(session_directory: Seq<char>, p: Seq<char>)
    requires
        session_directory.len() > 0,
        !is_absolute_path(p),
    ensures
        inside_workspace(join_path(session_directory, p), session_directory),
{
    let sd = session_directory;
    let nw = compare_form(sd);
    let trimmed = trim_end_class(nw, CharClass::Exactly('/'));
    let base = trimmed + "/"@;
    reveal_strlit("/");
    crate::chars::lemma_back_class_bounds(nw, CharClass::Exactly('/'), nw.len());
    let b = crate::chars::back_class(nw, CharClass::Exactly('/'), nw.len());
    assert(trimmed =~= nw.take(b as int));
    let r = join_path(sd, p);
    if sd.last() == '/' {
        lemma_compare_form_add(sd, p);
        assert(nw[nw.len() - 1] == '/');
        assert(b < nw.len());
        assert(nw[b as int] == '/');
        assert(compare_form(r).subrange(0, base.len() as int) =~= base) by {
            assert forall|i: int| 0 <= i < base.len() implies compare_form(r)[i] == base[i] by {
                assert(compare_form(r)[i] == nw[i]);
            }
        }
    } else {
        lemma_compare_form_add(sd, "/"@);
        lemma_compare_form_add(sd + "/"@, p);
        assert(compare_form("/"@) =~= "/"@);
        let cr = compare_form(r);
        assert(cr =~= nw + "/"@ + compare_form(p));
        if nw[nw.len() - 1] == '/' {
            assert(b < nw.len());
            assert(nw[b as int] == '/');
            assert(cr.subrange(0, base.len() as int) =~= base) by {
                assert forall|i: int| 0 <= i < base.len() implies cr[i] == base[i] by {
                    assert(cr[i] == nw[i]);
                }
            }
        } else {
            assert(b == nw.len());
            assert(trimmed =~= nw);
            assert(cr.subrange(0, base.len() as int) =~= base);
        }
    }
}

proof fn lemma_rfind_before_last(s: Seq<char>, p: Seq<char>, j: int)
    ensures
        match rfind_before(s, p, j) {
            Some(k) => k <= j && crate::chars::matches_at(s, p, k as int) && forall|m: int|
                k < m <= j ==> !crate::chars::matches_at(s, p, m),
            None => forall|m: int| 0 <= m <= j ==> !crate::chars::matches_at(s, p, m),
        },
    decreases j + 1,
{
    if j >= 0 && !crate::chars::matches_at(s, p, j) {
        lemma_rfind_before_last(s, p, j - 1);
    }
}

/// Every path argument, once resolved, lies in the session directory (or is
/// it): relative paths are taken from it, and absolute paths outside it are
/// rebased into it.
pub proof fn law_tool_paths_stay_in_workspace(session_directory: Seq<char>, raw_path: Seq<char>)
    requires
        session_directory.len() > 0,
    ensures
        inside_workspace(workspace_path(session_directory, raw_path), session_directory),
{
    let sd = session_directory;
    if !is_absolute_path(raw_path) {
        lemma_join_inside(sd, raw_path);
    } else if inside_workspace(raw_path, sd) {
    } else {
        let n = replace_char(raw_path, '\\', '/');
        lemma_first_glob_from(n, 0);
        match first_glob_from(n, 0) {
            None => {},
            Some(g) => {
                let prefix = n.take(g as int);
                reveal_strlit("/");
                lemma_rfind_before_last(prefix, "/"@, prefix.len() - 1);
                let start: nat = match rfind(prefix, "/"@) {
                    Some(k) => k + 1,
                    None => g,
                };
                let suffix = n.skip(start as int);
                assert(start <= g);
                assert(suffix[0] == n[start as int]);
                assert(suffix[0] != '/') by {
                    match rfind(prefix, "/"@) {
                        Some(k) => {
                            let k1: int = k as int + 1;
                            if k1 < g {
                                assert(!crate::chars::matches_at(prefix, "/"@, k1));
                                if prefix[k1] == '/' {
                                    assert(prefix.subrange(k1, k1 + 1) =~= "/"@);
                                }
                                assert(prefix[k1] == n[k1]);
                            } else {
                                lemma_first_glob_char(n, 0);
                            }
                        },
                        None => {
                            lemma_first_glob_char(n, 0);
                        },
                    }
                }
                lemma_join_inside(sd, suffix);
            },
        }
    }
}

proof fn lemma_first_glob_char(s: Seq<char>, i: nat)
    ensures
        match first_glob_from(s, i) {
            Some(k) => s[k as int] == '*' || s[k as int] == '?' || s[k as int] == '[',
            None => true,
        },
    decreases s.len() - i,
{
    if i < s.len() && !(s[i as int] == '*' || s[i as int] == '?' || s[i as int] == '[') {
        lemma_first_glob_char(s, i + 1);
    }
}


/// The members of an object other than those named `key`.
pub open spec fn without_key(ms: Seq<(Seq<char>, JsonData)>, key: Seq<char>) -> Seq<(Seq<char>, JsonData)>
    decreases ms.len(),
{
    if ms.len() == 0 {
        ms
    } else {
        let r = without_key(ms.drop_last(), key);
        if ms.last().0 == key {
            r
        } else {
            r.push(ms.last())
        }
    }
}

/// The reporting members that tool arguments drop.
pub open spec fn reporting_key(k: Seq<char>) -> bool {
    k == "step_summary"@ || k == "last_tool_call_status"@ || k == "last_tool_call_summary"@ || k
        == "summary"@ || k == "description"@
}

pub open spec fn without_reporting(ms: Seq<(Seq<char>, JsonData)>) -> Seq<(Seq<char>, JsonData)>
    decreases ms.len(),
{
    if ms.len() == 0 {
        ms
    } else {
        let r = without_reporting(ms.drop_last());
        if reporting_key(ms.last().0) {
            r
        } else {
            r.push(ms.last())
        }
    }
}

/// Tool arguments as a tool takes them: the `requests` member when there is
/// one, and, for an object, without the reporting members.
pub open spec fn normalized_arguments(d: JsonData) -> JsonData {
    let a = match member(d, "requests"@) {
        Some(r) => r,
        None => d,
    };
    match a {
        JsonData::Object(ms) => JsonData::Object(without_reporting(ms)),
        other => other,
    }
}

fn is_reporting_key(k: &String) -> (b: bool)
    ensures
        b == reporting_key(k@),
{
    let kv = chars_of(k.as_str());
    crate::chars::eq_str(&kv, "step_summary") || crate::chars::eq_str(&kv, "last_tool_call_status")
        || crate::chars::eq_str(&kv, "last_tool_call_summary") || crate::chars::eq_str(&kv, "summary")
        || crate::chars::eq_str(&kv, "description")
}

pub fn normalize_tool_arguments(arguments: JsonValue) -> (r: JsonValue)
    ensures
        json_data(r) == normalized_arguments(json_data(arguments)),
{
    let a = match json_get(&arguments, "requests") {
        Some(req) => copy_json(req),
        None => arguments,
    };
    match a {
        JsonValue::Object(members) => {
            proof {
                lemma_object_data(members@);
            }
            let ghost md = object_data(members@);
            let mut out: Vec<(String, JsonValue)> = Vec::new();
            let mut i: usize = 0;
            assert(object_data(out@) =~= without_reporting(md.take(0)));
            let mut rest = members;
            let ghost all = rest@;
            assert(all.skip(0) =~= all);
            let n = rest.len();
            while i < n
                invariant
                    i <= n,
                    n == md.len(),
                    md.len() == all.len(),
                    forall|j: int| 0 <= j < md.len() ==> #[trigger] md[j] == (all[j].0@, json_data(all[j].1)),
                    rest@ == all.skip(i as int),
                    object_data(out@) == without_reporting(md.take(i as int)),
                decreases n - i,
            {
                assert(rest@[0] == all[i as int]);
                let m = rest.remove(0);
                assert(rest@ =~= all.skip(i + 1));
                proof {
                    lemma_object_data(out@);
                    assert(md.take(i + 1).drop_last() =~= md.take(i as int));
                    assert(md.take(i + 1).last() == md[i as int]);
                }
                if !is_reporting_key(&m.0) {
                    let ghost before = out@;
                    out.push(m);
                    proof {
                        assert(out@.drop_last() =~= before);
                    }
                }
                i = i + 1;
            }
            assert(md.take(i as int) =~= md);
            JsonValue::Object(out)
        },
        other => other,
    }
}


/// The first of `keys` that the object has, with its value.
pub open spec fn first_present(d: JsonData, keys: Seq<Seq<char>>) -> Option<JsonData>
    decreases keys.len(),
{
    if keys.len() == 0 {
        None
    } else if member(d, keys[0]) is Some {
        member(d, keys[0])
    } else {
        first_present(d, keys.drop_first())
    }
}

/// A trimmed, non-blank string value.
pub open spec fn non_blank(v: Option<JsonData>) -> Option<Seq<char>> {
    match as_text(v) {
        Some(t) => if trim_ws(t).len() > 0 {
            Some(trim_ws(t))
        } else {
            None
        },
        None => None,
    }
}

pub open spec fn command_keys() -> Seq<Seq<char>> {
    seq!["command_type"@, "command"@, "commandType"@, "tool_package_name"@, "tool_name"@]
}

pub open spec fn command_line_keys() -> Seq<Seq<char>> {
    seq!["command_line"@, "command_code"@]
}

/// One planned step as a command_run command: its command and command line
/// (each the first such member present, trimmed and not blank), its step
/// (1 when absent) and its timeout when present; none when the step is no
/// object or lacks either text.
pub open spec fn step_command(step: JsonData) -> Option<JsonData> {
    match step {
        JsonData::Object(_) => match (
            non_blank(first_present(step, command_keys())),
            non_blank(first_present(step, command_line_keys())),
        ) {
            (Some(command), Some(line)) => {
                let base = seq![
                    ("command_line"@, JsonData::Str(line)),
                    ("command_type"@, JsonData::Str(command)),
                    ("step"@, match member(step, "step"@) {
                        Some(v) => v,
                        None => JsonData::Number("1"@),
                    }),
                ];
                Some(JsonData::Object(match member(step, "timeout_secs"@) {
                    Some(t) => base.push(("timeout_secs"@, t)),
                    None => base,
                }))
            },
            _ => None,
        },
        _ => None,
    }
}

pub open spec fn step_commands(steps: Seq<JsonData>) -> Seq<JsonData>
    decreases steps.len(),
{
    if steps.len() == 0 {
        Seq::empty()
    } else {
        let r = step_commands(steps.drop_last());
        match step_command(steps.last()) {
            Some(c) => r.push(c),
            None => r,
        }
    }
}

/// Planned steps as command_run commands: the steps that give a command, in
/// order; an empty list when the steps are no list.
pub open spec fn steps_to_commands(steps: JsonData) -> JsonData {
    match steps {
        JsonData::Array(items) => JsonData::Array(step_commands(items)),
        _ => JsonData::Array(Seq::empty()),
    }
}

fn first_present_exec<'a>(v: &'a JsonValue, keys: &[&str]) -> (r: Option<&'a JsonValue>)
    ensures
        crate::json::opt_ref_data(r) == first_present(json_data(*v), keys@.map_values(|k: &str| k@)),
{
    let ghost kv = keys@.map_values(|k: &str| k@);
    let mut i: usize = 0;
    assert(kv.skip(0) =~= kv);
    while i < keys.len()
        invariant
            i <= keys.len(),
            kv == keys@.map_values(|k: &str| k@),
            first_present(json_data(*v), kv.skip(i as int)) == first_present(json_data(*v), kv),
        decreases keys.len() - i,
    {
        assert(kv.skip(i as int).drop_first() =~= kv.skip(i + 1));
        assert(kv.skip(i as int)[0] == keys@[i as int]@);
        match json_get(v, keys[i]) {
            Some(m) => {
                return Some(m);
            },
            None => {},
        }
        i = i + 1;
    }
    None
}

fn non_blank_exec(v: Option<&JsonValue>) -> (r: Option<String>)
    ensures
        match r {
            Some(s) => non_blank(crate::json::opt_ref_data(v)) == Some(s@),
            None => non_blank(crate::json::opt_ref_data(v)) is None,
        },
{
    match v {
        Some(x) => match json_as_str(x) {
            Some(t) => {
                let tv = trim(&chars_of(t));
                if tv.len() > 0 {
                    Some(string_of(&tv))
                } else {
                    None
                }
            },
            None => None,
        },
        None => None,
    }
}

fn step_command_exec(step: &JsonValue) -> (r: Option<JsonValue>)
    ensures
        crate::json::opt_json_data(r) == step_command(json_data(*step)),
{
    match step {
        JsonValue::Object(_) => {},
        _ => {
            return None;
        },
    }
    let ck = [ "command_type", "command", "commandType", "tool_package_name", "tool_name" ];
    assert(ck@.map_values(|k: &str| k@) =~= command_keys());
    let lk = [ "command_line", "command_code" ];
    assert(lk@.map_values(|k: &str| k@) =~= command_line_keys());
    let command = non_blank_exec(first_present_exec(step, &ck));
    let line = non_blank_exec(first_present_exec(step, &lk));
    match (command, line) {
        (Some(command), Some(line)) => {
            let ghost sd = json_data(*step);
            let step_value = match json_get(step, "step") {
                Some(v) => copy_json(v),
                None => JsonValue::Number("1".to_owned()),
            };
            let ghost base = seq![
                ("command_line"@, JsonData::Str(line@)),
                ("command_type"@, JsonData::Str(command@)),
                ("step"@, match member(sd, "step"@) {
                    Some(v) => v,
                    None => JsonData::Number("1"@),
                }),
            ];
            assert(json_data(step_value) == base[2].1);
            let mut members: Vec<(String, JsonValue)> = Vec::new();
            members.push(("command_line".to_owned(), JsonValue::Str(line)));
            members.push(("command_type".to_owned(), JsonValue::Str(command)));
            members.push(("step".to_owned(), step_value));
            match json_get(step, "timeout_secs") {
                Some(t) => {
                    members.push(("timeout_secs".to_owned(), copy_json(t)));
                    proof {
                        lemma_object_data(members@);
                        assert(object_data(members@) =~= base.push(("timeout_secs"@, json_data(*t))));
                    }
                },
                None => {
                    proof {
                        lemma_object_data(members@);
                        assert(object_data(members@) =~= base);
                    }
                },
            }
            let r = JsonValue::Object(members);
            assert(Some(json_data(r)) == step_command(json_data(*step)));
            Some(r)
        },
        _ => None,
    }
}

pub fn command_run_steps_to_commands(steps: &JsonValue) -> (r: JsonValue)
    ensures
        json_data(r) == steps_to_commands(json_data(*steps)),
{
    let items = match steps {
        JsonValue::Array(items) => items,
        _ => {
            let empty: Vec<JsonValue> = Vec::new();
            assert(array_data(empty@) =~= Seq::<JsonData>::empty());
            return JsonValue::Array(empty);
        },
    };
    proof {
        lemma_array_data(items@);
    }
    let ghost ad = array_data(items@);
    let mut out: Vec<JsonValue> = Vec::new();
    let mut i: usize = 0;
    assert(array_data(out@) =~= step_commands(ad.take(0)));
    while i < items.len()
        invariant
            i <= items.len(),
            ad == array_data(items@),
            ad.len() == items.len(),
            forall|j: int| 0 <= j < items.len() ==> #[trigger] ad[j] == json_data(items@[j]),
            array_data(out@) == step_commands(ad.take(i as int)),
        decreases items.len() - i,
    {
        assert(ad.take(i + 1).drop_last() =~= ad.take(i as int));
        assert(ad.take(i + 1).last() == ad[i as int]);
        match step_command_exec(&items[i]) {
            Some(c) => {
                let ghost before = out@;
                out.push(c);
                proof {
                    assert(out@.drop_last() =~= before);
                }
            },
            None => {},
        }
        i = i + 1;
    }
    assert(ad.take(i as int) =~= ad);
    JsonValue::Array(out)
}


/// The members of tool arguments that name paths.
pub open spec fn path_field(k: Seq<char>) -> bool {
    k == "path"@ || k == "directory"@
}

/// A member with its path resolved into the workspace, when it is a path
/// member holding a string.
pub open spec fn fix_member(m: (Seq<char>, JsonData), session_directory: Seq<char>) -> (Seq<char>, JsonData) {
    if path_field(m.0) {
        match m.1 {
            JsonData::Str(p) => (m.0, JsonData::Str(workspace_path(session_directory, p))),
            _ => m,
        }
    } else {
        m
    }
}

pub open spec fn fixed_members(ms: Seq<(Seq<char>, JsonData)>, session_directory: Seq<char>) -> Seq<(Seq<char>, JsonData)> {
    ms.map_values(|m: (Seq<char>, JsonData)| fix_member(m, session_directory))
}

pub open spec fn fixed_object(d: JsonData, session_directory: Seq<char>) -> JsonData {
    match d {
        JsonData::Object(ms) => JsonData::Object(fixed_members(ms, session_directory)),
        other => other,
    }
}

/// Tool arguments with their path members resolved into the workspace: an
/// object's, or those of each object in a list.
pub open spec fn workspace_paths_data(d: JsonData, session_directory: Seq<char>) -> JsonData {
    match d {
        JsonData::Object(ms) => JsonData::Object(fixed_members(ms, session_directory)),
        JsonData::Array(items) => JsonData::Array(
            items.map_values(|x: JsonData| fixed_object(x, session_directory)),
        ),
        other => other,
    }
}

fn is_path_field(k: &String) -> (b: bool)
    ensures
        b == path_field(k@),
{
    let kv = chars_of(k.as_str());
    crate::chars::eq_str(&kv, "path") || crate::chars::eq_str(&kv, "directory")
}

/// Resolves the path members of an object's members into the workspace.
pub fn normalize_workspace_path_fields(
    tool_name: &str,
    members: Vec<(String, JsonValue)>,
    session_directory: &str,
) -> (r: Vec<(String, JsonValue)>)
    ensures
        object_data(r@) == fixed_members(object_data(members@), session_directory@),
{
    proof {
        lemma_object_data(members@);
    }
    let ghost md = object_data(members@);
    let ghost all = members@;
    let mut rest = members;
    let mut out: Vec<(String, JsonValue)> = Vec::new();
    let n = rest.len();
    let mut i: usize = 0;
    assert(all.skip(0) =~= all);
    while i < n
        invariant
            i <= n,
            n == all.len(),
            md.len() == all.len(),
            forall|j: int| 0 <= j < md.len() ==> #[trigger] md[j] == (all[j].0@, json_data(all[j].1)),
            rest@ == all.skip(i as int),
            out.len() == i,
            forall|j: int|
                0 <= j < i ==> (#[trigger] out@[j].0@, json_data(out@[j].1)) == fix_member(
                    md[j],
                    session_directory@,
                ),
        decreases n - i,
    {
        assert(rest@[0] == all[i as int]);
        let m = rest.remove(0);
        assert(rest@ =~= all.skip(i + 1));
        let (name, value) = m;
        let fixed = if is_path_field(&name) {
            match &value {
                JsonValue::Str(p) => {
                    let resolved = resolve_tool_path(tool_name, session_directory, p.as_str());
                    (name, JsonValue::Str(resolved))
                },
                _ => (name, value),
            }
        } else {
            (name, value)
        };
        out.push(fixed);
        i = i + 1;
    }
    proof {
        lemma_object_data(out@);
        assert(object_data(out@) =~= fixed_members(md, session_directory@));
    }
    out
}

/// Tool arguments with their path members resolved into the workspace.
pub fn normalize_workspace_paths(tool_name: &str, arguments: JsonValue, session_directory: &str) -> (r:
    JsonValue)
    ensures
        json_data(r) == workspace_paths_data(json_data(arguments), session_directory@),
{
    match arguments {
        JsonValue::Object(members) => {
            JsonValue::Object(normalize_workspace_path_fields(tool_name, members, session_directory))
        },
        JsonValue::Array(items) => {
            proof {
                lemma_array_data(items@);
            }
            let ghost ad = array_data(items@);
            let ghost all = items@;
            let mut rest = items;
            let mut out: Vec<JsonValue> = Vec::new();
            let n = rest.len();
            let mut i: usize = 0;
            assert(all.skip(0) =~= all);
            while i < n
                invariant
                    i <= n,
                    n == all.len(),
                    ad.len() == all.len(),
                    forall|j: int| 0 <= j < ad.len() ==> #[trigger] ad[j] == json_data(all[j]),
                    rest@ == all.skip(i as int),
                    out.len() == i,
                    forall|j: int|
                        0 <= j < i ==> #[trigger] json_data(out@[j]) == fixed_object(
                            ad[j],
                            session_directory@,
                        ),
                decreases n - i,
            {
                assert(rest@[0] == all[i as int]);
                let item = rest.remove(0);
                assert(rest@ =~= all.skip(i + 1));
                let fixed = match item {
                    JsonValue::Object(ms) => JsonValue::Object(
                        normalize_workspace_path_fields(tool_name, ms, session_directory),
                    ),
                    other => other,
                };
                out.push(fixed);
                i = i + 1;
            }
            proof {
                lemma_array_data(out@);
                assert(array_data(out@) =~= ad.map_values(
                    |x: JsonData| fixed_object(x, session_directory@),
                ));
            }
            JsonValue::Array(out)
        },
        other => other,
    }
}

/// After normalization every path member that holds a string lies in the
/// session directory.
pub proof fn law_normalized_path_fields_stay_in_workspace(
    ms: Seq<(Seq<char>, JsonData)>,
    session_directory: Seq<char>,
)
    requires
        session_directory.len() > 0,
    ensures
        forall|i: int|
            0 <= i < ms.len() && path_field(ms[i].0) && (#[trigger] fixed_members(
                ms,
                session_directory,
            )[i]).1 is Str ==> inside_workspace(
                fixed_members(ms, session_directory)[i].1->Str_0,
                session_directory,
            ),
{
    assert forall|i: int|
        0 <= i < ms.len() && path_field(ms[i].0) && (#[trigger] fixed_members(
            ms,
            session_directory,
        )[i]).1 is Str implies inside_workspace(
        fixed_members(ms, session_directory)[i].1->Str_0,
        session_directory,
    ) by {
        match ms[i].1 {
            JsonData::Str(p) => {
                law_tool_paths_stay_in_workspace(session_directory, p);
            },
            _ => {},
        }
    }
}


/// The shell names and aliases of a command_run step and the tools they
/// stand for, whatever the case, surrounding whitespace, `-`/`_`/`:`
/// spelling and `semantic:`/`source:` prefixes of the name (its lookup form
/// `k`): rg, ripgrep, grep are rg; find is glob; cat, type, get_content are
/// read_line; sed is read_block; tee, set_content, out_file are write_file;
/// rm, del, erase, remove_item are delete_file; apply_patch, applypatch,
/// patch, apply_diff, applydiff are apply_patch; outline, symbols are
/// get_file_outline; definition is find_definition; references is
/// find_references. Any other name is its lookup form.
pub proof fn law_command_aliases_name_their_tools(command: Seq<char>)
    ensures
        ({
            let k = tool_name_key(command);
            &&& (k == "rg"@ || k == "ripgrep"@ || k == "grep"@) ==> normalized_tool_name(command) == "rg"@
            &&& (k == "find"@) ==> normalized_tool_name(command) == "glob"@
            &&& (k == "cat"@ || k == "type"@ || k == "get_content"@) ==> normalized_tool_name(command) == "read_line"@
            &&& (k == "sed"@) ==> normalized_tool_name(command) == "read_block"@
            &&& (k == "tee"@ || k == "set_content"@ || k == "out_file"@) ==> normalized_tool_name(command) == "write_file"@
            &&& (k == "rm"@ || k == "del"@ || k == "erase"@ || k == "remove_item"@) ==> normalized_tool_name(command) == "delete_file"@
            &&& (k == "apply_patch"@ || k == "applypatch"@ || k == "patch"@ || k == "apply_diff"@ || k == "applydiff"@) ==> normalized_tool_name(command) == "apply_patch"@
            &&& (k == "outline"@ || k == "symbols"@) ==> normalized_tool_name(command) == "get_file_outline"@
            &&& (k == "definition"@) ==> normalized_tool_name(command) == "find_definition"@
            &&& (k == "references"@) ==> normalized_tool_name(command) == "find_references"@
            &&& (k != "rg"@ && k != "ripgrep"@ && k != "grep"@ && k != "find"@ && k != "cat"@ && k != "type"@ && k != "get_content"@ && k != "sed"@ && k != "tee"@ && k != "set_content"@ && k != "out_file"@ && k != "rm"@ && k != "del"@ && k != "erase"@ && k != "remove_item"@ && k != "apply_patch"@ && k != "applypatch"@ && k != "patch"@ && k != "apply_diff"@ && k != "applydiff"@ && k != "outline"@ && k != "symbols"@ && k != "definition"@ && k != "references"@) ==> normalized_tool_name(command) == k
        }),
{
    reveal_strlit("apply_diff");
    reveal_strlit("apply_patch");
    reveal_strlit("applydiff");
    reveal_strlit("applypatch");
    reveal_strlit("cat");
    reveal_strlit("definition");
    reveal_strlit("del");
    reveal_strlit("delete_file");
    reveal_strlit("erase");
    reveal_strlit("find");
    reveal_strlit("find_definition");
    reveal_strlit("find_references");
    reveal_strlit("get_content");
    reveal_strlit("get_file_outline");
    reveal_strlit("glob");
    reveal_strlit("grep");
    reveal_strlit("out_file");
    reveal_strlit("outline");
    reveal_strlit("patch");
    reveal_strlit("read_block");
    reveal_strlit("read_line");
    reveal_strlit("references");
    reveal_strlit("remove_item");
    reveal_strlit("rg");
    reveal_strlit("ripgrep");
    reveal_strlit("rm");
    reveal_strlit("sed");
    reveal_strlit("set_content");
    reveal_strlit("symbols");
    reveal_strlit("tee");
    reveal_strlit("type");
    reveal_strlit("write_file");
    let k = tool_name_key(command);
    if k == "rg"@ {
        assert(k.len() == 2);
        assert(k[1] != "rm"@[1]);
    }
    if k == "ripgrep"@ {
        assert(k.len() == 7);
        assert(k[0] != "outline"@[0]);
        assert(k[0] != "symbols"@[0]);
    }
    if k == "grep"@ {
        assert(k.len() == 4);
        assert(k[0] != "find"@[0]);
        assert(k[0] != "type"@[0]);
    }
    if k == "find"@ {
        assert(k.len() == 4);
        assert(k[0] != "grep"@[0]);
        assert(k[0] != "type"@[0]);
    }
    if k == "cat"@ {
        assert(k.len() == 3);
        assert(k[0] != "sed"@[0]);
        assert(k[0] != "tee"@[0]);
        assert(k[0] != "del"@[0]);
    }
    if k == "type"@ {
        assert(k.len() == 4);
        assert(k[0] != "grep"@[0]);
        assert(k[0] != "find"@[0]);
    }
    if k == "get_content"@ {
        assert(k.len() == 11);
        assert(k[0] != "set_content"@[0]);
        assert(k[0] != "remove_item"@[0]);
        assert(k[0] != "apply_patch"@[0]);
    }
    if k == "sed"@ {
        assert(k.len() == 3);
        assert(k[0] != "cat"@[0]);
        assert(k[0] != "tee"@[0]);
        assert(k[0] != "del"@[0]);
    }
    if k == "tee"@ {
        assert(k.len() == 3);
        assert(k[0] != "cat"@[0]);
        assert(k[0] != "sed"@[0]);
        assert(k[0] != "del"@[0]);
    }
    if k == "set_content"@ {
        assert(k.len() == 11);
        assert(k[0] != "get_content"@[0]);
        assert(k[0] != "remove_item"@[0]);
        assert(k[0] != "apply_patch"@[0]);
    }
    if k == "out_file"@ {
        assert(k.len() == 8);
    }
    if k == "rm"@ {
        assert(k.len() == 2);
        assert(k[1] != "rg"@[1]);
    }
    if k == "del"@ {
        assert(k.len() == 3);
        assert(k[0] != "cat"@[0]);
        assert(k[0] != "sed"@[0]);
        assert(k[0] != "tee"@[0]);
    }
    if k == "erase"@ {
        assert(k.len() == 5);
        assert(k[0] != "patch"@[0]);
    }
    if k == "remove_item"@ {
        assert(k.len() == 11);
        assert(k[0] != "get_content"@[0]);
        assert(k[0] != "set_content"@[0]);
        assert(k[0] != "apply_patch"@[0]);
    }
    if k == "apply_patch"@ {
        assert(k.len() == 11);
        assert(k[0] != "get_content"@[0]);
        assert(k[0] != "set_content"@[0]);
        assert(k[0] != "remove_item"@[0]);
    }
    if k == "applypatch"@ {
        assert(k.len() == 10);
        assert(k[5] != "apply_diff"@[5]);
        assert(k[0] != "definition"@[0]);
        assert(k[0] != "references"@[0]);
    }
    if k == "patch"@ {
        assert(k.len() == 5);
        assert(k[0] != "erase"@[0]);
    }
    if k == "apply_diff"@ {
        assert(k.len() == 10);
        assert(k[5] != "applypatch"@[5]);
        assert(k[0] != "definition"@[0]);
        assert(k[0] != "references"@[0]);
    }
    if k == "applydiff"@ {
        assert(k.len() == 9);
    }
    if k == "outline"@ {
        assert(k.len() == 7);
        assert(k[0] != "ripgrep"@[0]);
        assert(k[0] != "symbols"@[0]);
    }
    if k == "symbols"@ {
        assert(k.len() == 7);
        assert(k[0] != "ripgrep"@[0]);
        assert(k[0] != "outline"@[0]);
    }
    if k == "definition"@ {
        assert(k.len() == 10);
        assert(k[0] != "applypatch"@[0]);
        assert(k[0] != "apply_diff"@[0]);
        assert(k[0] != "references"@[0]);
    }
    if k == "references"@ {
        assert(k.len() == 10);
        assert(k[0] != "applypatch"@[0]);
        assert(k[0] != "apply_diff"@[0]);
        assert(k[0] != "definition"@[0]);
    }
}

} // verus!
