//! The processes that belong to a session: which of the machine's processes
//! concern the session directory, what of them is shown, and the text that
//! lists them for the model.
use vstd::prelude::*;
use crate::chars::{ascii_lower, contains, contains_exec, contains_str, eq_str, replace_char, replace_char_exec, split_whitespace, split_words, to_ascii_lowercase, views};
use crate::text::{chars_of, chars_of_string, decimal, join, join_chars, lex_less, lex_lt, push_decimal, push_str, string_of};

verus! {

pub const MAX_PROCESSES: usize = 24;

pub const MAX_CMD_CHARS: usize = 500;

/// The processes of a session directory, the language-server ones also on
/// their own.
#[derive(Debug, Clone)]
pub struct SessionProcessSnapshot {
    pub session_directory: String,
    pub processes: Vec<SessionProcessInfo>,
    pub lsp_processes: Vec<SessionProcessInfo>,
}

/// One process of a session: `kind` is `lsp`, `command_run` or
/// `workspace`.
#[derive(Debug, Clone)]
pub struct SessionProcessInfo {
    pub pid: u32,
    pub name: String,
    pub exe: Option<String>,
    pub cwd: Option<String>,
    pub command_line: String,
    pub running_file: Option<String>,
    pub kind: String,
}

/// What the machine reports of one process, with the two path checks that
/// need the file system already made: whether its working directory and its
/// executable lie under the session directory.
#[derive(Debug, Clone)]
pub struct ProcessFacts {
    pub pid: u32,
    pub name: String,
    pub exe: Option<String>,
    pub cwd: Option<String>,
    pub cmd: Vec<String>,
    pub cwd_under_target: bool,
    pub exe_under_target: bool,
}

pub open spec fn opt_seq(o: Option<String>) -> Option<Seq<char>> {
    match o {
        Some(s) => Some(s@),
        None => None,
    }
}

/// A process as plain values: (pid, name, exe, cwd, command line, running
/// file, kind).
pub type InfoView = (u32, Seq<char>, Option<Seq<char>>, Option<Seq<char>>, Seq<char>, Option<Seq<char>>, Seq<char>);

pub open spec fn info_view(p: SessionProcessInfo) -> InfoView {
    (p.pid, p.name@, opt_seq(p.exe), opt_seq(p.cwd), p.command_line@, opt_seq(p.running_file), p.kind@)
}

pub open spec fn info_views(s: Seq<SessionProcessInfo>) -> Seq<InfoView> {
    s.map_values(|p: SessionProcessInfo| info_view(p))
}

/// A path or command line in the form in which paths are searched:
/// back-slashes read as slashes, ASCII lower-cased.
pub open spec fn text_path_form(value: Seq<char>) -> Seq<char> {
    ascii_lower(replace_char(value, '\\', '/'))
}

pub fn normalize_text_path(value: &str) -> (r: String)
    ensures
        r@ == text_path_form(value@),
{
    let v = chars_of(value);
    string_of(&to_ascii_lowercase(&replace_char_exec(&v, '\\', '/')))
}

/// Whether a command line names the session directory.
pub open spec fn mentions_path(cmd: Seq<char>, target: Seq<char>) -> bool {
    text_path_form(target).len() > 0 && contains(text_path_form(cmd), text_path_form(target))
}

pub fn command_mentions_path(cmd: &str, target: &str) -> (b: bool)
    ensures
        b == mentions_path(cmd@, target@),
{
    let c = chars_of(normalize_text_path(cmd).as_str());
    let t = chars_of(normalize_text_path(target).as_str());
    t.len() > 0 && contains_exec(&c, &t)
}

/// The first `max_chars` characters of `value`, with `...` after them when
/// some were cut.
pub open spec fn truncated_text(value: Seq<char>, max_chars: nat) -> Seq<char> {
    if value.len() <= max_chars {
        value
    } else {
        value.take(max_chars as int) + "..."@
    }
}

pub fn truncate(value: &str, max_chars: usize) -> (r: String)
    ensures
        r@ == truncated_text(value@, max_chars as nat),
{
    let v = chars_of(value);
    if v.len() <= max_chars {
        return value.to_owned();
    }
    let mut out: Vec<char> = Vec::new();
    crate::text::push_range(&mut out, &v, 0, max_chars);
    push_str(&mut out, "...");
    assert(v@.subrange(0, max_chars as int) =~= v@.take(max_chars as int));
    string_of(&out)
}

/// A language-server process: named `lsp` or `lsp.exe`, or run with
/// `tura_lsp` or `--kind lsp` on its command line (all in any ASCII case).
pub open spec fn lsp_process(name: Seq<char>, cmd: Seq<char>) -> bool {
    let n = ascii_lower(name);
    let c = ascii_lower(cmd);
    n == "lsp"@ || n == "lsp.exe"@ || contains(c, "tura_lsp"@) || contains(c, "--kind lsp"@)
}

pub fn is_lsp_process(name: &str, cmd: &str) -> (b: bool)
    ensures
        b == lsp_process(name@, cmd@),
{
    let n = to_ascii_lowercase(&chars_of(name));
    let c = to_ascii_lowercase(&chars_of(cmd));
    eq_str(&n, "lsp") || eq_str(&n, "lsp.exe") || contains_str(&c, "tura_lsp") || contains_str(
        &c,
        "--kind lsp",
    )
}

/// The file a process runs: its executable, else the first word of its
/// command line.
pub open spec fn running_file_text(exe: Option<Seq<char>>, cmd: Seq<char>) -> Option<Seq<char>> {
    match exe {
        Some(e) => Some(e),
        None => if split_words(cmd).len() > 0 {
            Some(split_words(cmd)[0])
        } else {
            None
        },
    }
}

pub fn running_file_from_command(exe: &Option<String>, cmd: &str) -> (r: Option<String>)
    ensures
        opt_seq(r) == running_file_text(opt_seq(*exe), cmd@),
{
    match exe {
        Some(e) => Some(e.clone()),
        None => {
            let words = split_whitespace(&chars_of(cmd));
            if words.len() > 0 {
                assert(views(words@)[0] == words@[0]@);
                Some(string_of(&words[0]))
            } else {
                None
            }
        },
    }
}

/// The process of a session, when it concerns the session directory
/// `target`: its working directory or executable lies under it, its command
/// line names it, or it is a language server.
pub open spec fn session_process(
    pid: u32,
    name: Seq<char>,
    exe: Option<Seq<char>>,
    cwd: Option<Seq<char>>,
    cmd_parts: Seq<Seq<char>>,
    cwd_under: bool,
    exe_under: bool,
    target: Seq<char>,
) -> Option<InfoView> {
    let cmd = join(cmd_parts, " "@);
    let lsp = lsp_process(name, cmd);
    if !cwd_under && !exe_under && !mentions_path(cmd, target) && !lsp {
        None
    } else {
        Some(
            (
                pid,
                name,
                exe,
                cwd,
                truncated_text(cmd, 500),
                running_file_text(exe, cmd),
                if lsp {
                    "lsp"@
                } else if contains(cmd, "command_run"@) || contains(name, "command_run"@) {
                    "command_run"@
                } else {
                    "workspace"@
                },
            ),
        )
    }
}

pub fn process_info_for_session(facts: &ProcessFacts, target: &str) -> (r: Option<
    SessionProcessInfo,
>)
    ensures
        match r {
            Some(p) => session_process(
                facts.pid,
                facts.name@,
                opt_seq(facts.exe),
                opt_seq(facts.cwd),
                facts.cmd@.map_values(|s: String| s@),
                facts.cwd_under_target,
                facts.exe_under_target,
                target@,
            ) == Some(info_view(p)),
            None => session_process(
                facts.pid,
                facts.name@,
                opt_seq(facts.exe),
                opt_seq(facts.cwd),
                facts.cmd@.map_values(|s: String| s@),
                facts.cwd_under_target,
                facts.exe_under_target,
                target@,
            ) is None,
        },
{
    let ghost pv = facts.cmd@.map_values(|s: String| s@);
    let mut parts: Vec<Vec<char>> = Vec::new();
    let mut i: usize = 0;
    while i < facts.cmd.len()
        invariant
            i <= facts.cmd.len(),
            pv == facts.cmd@.map_values(|s: String| s@),
            parts.len() == i,
            forall|j: int| 0 <= j < i ==> #[trigger] parts@[j]@ == pv[j],
        decreases facts.cmd.len() - i,
    {
        parts.push(chars_of_string(&facts.cmd[i]));
        i = i + 1;
    }
    assert(parts@.map_values(|w: Vec<char>| w@) =~= pv);
    let cmd_chars = join_chars(&parts, " ");
    let cmd = string_of(&cmd_chars);
    let lsp = is_lsp_process(facts.name.as_str(), cmd.as_str());
    if !facts.cwd_under_target && !facts.exe_under_target && !command_mentions_path(
        cmd.as_str(),
        target,
    ) && !lsp {
        return None;
    }
    let kind: &str = if lsp {
        "lsp"
    } else if contains_str(&cmd_chars, "command_run") || contains_str(
        &chars_of(facts.name.as_str()),
        "command_run",
    ) {
        "command_run"
    } else {
        "workspace"
    };
    let exe = match &facts.exe {
        Some(e) => Some(e.clone()),
        None => None,
    };
    let cwd = match &facts.cwd {
        Some(c) => Some(c.clone()),
        None => None,
    };
    Some(
        SessionProcessInfo {
            pid: facts.pid,
            name: facts.name.clone(),
            exe,
            cwd,
            command_line: truncate(cmd.as_str(), MAX_CMD_CHARS),
            running_file: running_file_from_command(&facts.exe, cmd.as_str()),
            kind: kind.to_owned(),
        },
    )
}


/// The order key of a process: language servers first, then by name, then
/// by pid.
pub open spec fn process_key(p: InfoView) -> (bool, Seq<char>, u32) {
    (p.6 != "lsp"@, p.1, p.0)
}

/// Strict order of process keys, field by field (`false` before `true`).
pub open spec fn key_lt(a: (bool, Seq<char>, u32), b: (bool, Seq<char>, u32)) -> bool {
    (!a.0 && b.0) || (a.0 == b.0 && (lex_lt(a.1, b.1) || (a.1 == b.1 && a.2 < b.2)))
}

pub open spec fn process_lt(a: InfoView, b: InfoView) -> bool {
    key_lt(process_key(a), process_key(b))
}

/// `x` inserted into `sorted` after every entry that does not sort after it.
pub open spec fn insert_by_key(sorted: Seq<InfoView>, x: InfoView) -> Seq<InfoView>
    decreases sorted.len(),
{
    if sorted.len() == 0 {
        seq![x]
    } else if process_lt(x, sorted.last()) {
        insert_by_key(sorted.drop_last(), x).push(sorted.last())
    } else {
        sorted.push(x)
    }
}

/// The processes sorted by key, stably (`slice::sort_by_key`).
pub open spec fn sort_by_key(s: Seq<InfoView>) -> Seq<InfoView>
    decreases s.len(),
{
    if s.len() == 0 {
        s
    } else {
        insert_by_key(sort_by_key(s.drop_last()), s.last())
    }
}

fn key_less(a: &SessionProcessInfo, b: &SessionProcessInfo) -> (r: bool)
    ensures
        r == process_lt(info_view(*a), info_view(*b)),
{
    let ka = !eq_str(&chars_of(a.kind.as_str()), "lsp");
    let kb = !eq_str(&chars_of(b.kind.as_str()), "lsp");
    if !ka && kb {
        return true;
    }
    if ka != kb {
        return false;
    }
    let na = chars_of(a.name.as_str());
    let nb = chars_of(b.name.as_str());
    if lex_less(&na, &nb) {
        return true;
    }
    crate::context::text_truncate::same_chars(&na, &nb) && a.pid < b.pid
}

fn insert_sorted(v: &mut Vec<SessionProcessInfo>, x: SessionProcessInfo)
    ensures
        info_views(final(v)@) == insert_by_key(info_views(old(v)@), info_view(x)),
{
    let ghost sv = info_views(v@);
    let ghost xv = info_view(x);
    let mut p: usize = v.len();
    assert(sv.take(p as int) =~= sv);
    assert(sv.skip(p as int) =~= Seq::<InfoView>::empty());
    while p > 0 && key_less(&x, &v[p - 1])
        invariant
            p <= v.len(),
            sv == info_views(v@),
            v@ == old(v)@,
            xv == info_view(x),
            insert_by_key(sv, xv) == insert_by_key(sv.take(p as int), xv) + sv.skip(p as int),
        decreases p,
    {
        assert(sv.take(p as int).drop_last() =~= sv.take(p - 1));
        assert(sv.take(p as int).last() == sv[p - 1]);
        assert(sv.skip(p - 1) =~= seq![sv[p - 1]] + sv.skip(p as int));
        assert(insert_by_key(sv.take(p - 1), xv).push(sv[p - 1]) + sv.skip(p as int)
            =~= insert_by_key(sv.take(p - 1), xv) + sv.skip(p - 1));
        p = p - 1;
    }
    if p == 0 {
        assert(sv.take(0) =~= Seq::<InfoView>::empty());
    }
    assert(insert_by_key(sv.take(p as int), xv) =~= sv.take(p as int).push(xv));
    v.insert(p, x);
    assert(info_views(v@) =~= sv.take(p as int).push(xv) + sv.skip(p as int));
}

fn copy_opt(o: &Option<String>) -> (r: Option<String>)
    ensures
        opt_seq(r) == opt_seq(*o),
{
    match o {
        Some(s) => Some(s.clone()),
        None => None,
    }
}

fn copy_info(p: &SessionProcessInfo) -> (r: SessionProcessInfo)
    ensures
        info_view(r) == info_view(*p),
{
    SessionProcessInfo {
        pid: p.pid,
        name: p.name.clone(),
        exe: copy_opt(&p.exe),
        cwd: copy_opt(&p.cwd),
        command_line: p.command_line.clone(),
        running_file: copy_opt(&p.running_file),
        kind: p.kind.clone(),
    }
}

/// The processes sorted by key.
pub fn sort_processes(infos: &Vec<SessionProcessInfo>) -> (r: Vec<SessionProcessInfo>)
    ensures
        info_views(r@) == sort_by_key(info_views(infos@)),
{
    let ghost iv = info_views(infos@);
    let mut out: Vec<SessionProcessInfo> = Vec::new();
    let mut i: usize = 0;
    assert(info_views(out@) =~= sort_by_key(iv.take(0)));
    while i < infos.len()
        invariant
            i <= infos.len(),
            iv == info_views(infos@),
            info_views(out@) == sort_by_key(iv.take(i as int)),
        decreases infos.len() - i,
    {
        let x = copy_info(&infos[i]);
        assert(iv.take(i + 1).drop_last() =~= iv.take(i as int));
        assert(iv.take(i + 1).last() == info_view(x));
        insert_sorted(&mut out, x);
        i = i + 1;
    }
    assert(iv.take(i as int) =~= iv);
    out
}


/// The language-server processes of `s`, in order.
pub open spec fn lsp_only(s: Seq<InfoView>) -> Seq<InfoView>
    decreases s.len(),
{
    if s.len() == 0 {
        s
    } else {
        let r = lsp_only(s.drop_last());
        if s.last().6 == "lsp"@ {
            r.push(s.last())
        } else {
            r
        }
    }
}

/// The processes a snapshot lists: sorted, at most `MAX_PROCESSES` of them.
pub open spec fn listed_processes(s: Seq<InfoView>) -> Seq<InfoView> {
    let sorted = sort_by_key(s);
    sorted.take(if sorted.len() < 24 { sorted.len() as int } else { 24 })
}

/// The snapshot of a session directory from the processes that concern it.
pub fn session_process_snapshot(session_directory: &str, infos: &Vec<SessionProcessInfo>) -> (r:
    SessionProcessSnapshot)
    ensures
        r.session_directory@ == session_directory@,
        info_views(r.processes@) == listed_processes(info_views(infos@)),
        info_views(r.lsp_processes@) == lsp_only(listed_processes(info_views(infos@))),
{
    let mut processes = sort_processes(infos);
    let ghost sorted = info_views(processes@);
    if processes.len() > MAX_PROCESSES {
        processes.truncate(MAX_PROCESSES);
    }
    assert(info_views(processes@) =~= listed_processes(info_views(infos@)));
    let ghost listed = info_views(processes@);
    let mut lsp: Vec<SessionProcessInfo> = Vec::new();
    let mut i: usize = 0;
    assert(info_views(lsp@) =~= lsp_only(listed.take(0)));
    while i < processes.len()
        invariant
            i <= processes.len(),
            listed == info_views(processes@),
            info_views(lsp@) == lsp_only(listed.take(i as int)),
        decreases processes.len() - i,
    {
        assert(listed.take(i + 1).drop_last() =~= listed.take(i as int));
        assert(listed.take(i + 1).last() == info_view(processes@[i as int]));
        if eq_str(&chars_of(processes[i].kind.as_str()), "lsp") {
            let ghost before = info_views(lsp@);
            let c = copy_info(&processes[i]);
            lsp.push(c);
            assert(info_views(lsp@) =~= before.push(listed[i as int]));
        }
        i = i + 1;
    }
    assert(listed.take(i as int) =~= listed);
    SessionProcessSnapshot { session_directory: session_directory.to_owned(), processes, lsp_processes: lsp }
}

pub open spec fn or_unknown(o: Option<Seq<char>>) -> Seq<char> {
    match o {
        Some(s) => s,
        None => "unknown"@,
    }
}

/// One process line of the snapshot text.
pub open spec fn process_line(p: InfoView) -> Seq<char> {
    "- pid="@ + decimal(p.0 as nat) + " kind="@ + p.6 + " name="@ + p.1 + " cwd="@ + or_unknown(p.3)
        + " exe="@ + or_unknown(p.2) + " running_file="@ + or_unknown(p.5) + " cmd="@ + p.4
}

/// The snapshot as text for the model.
pub open spec fn snapshot_text(
    session_directory: Seq<char>,
    processes: Seq<InfoView>,
    lsp_processes: Seq<InfoView>,
) -> Seq<char> {
    if processes.len() == 0 {
        "session_directory: "@ + session_directory
            + "\nprocesses: none detected under this session directory"@
    } else {
        join(
            seq![
                "session_directory: "@ + session_directory,
                if lsp_processes.len() == 0 {
                    "lsp_processes: none detected"@
                } else {
                    "lsp_processes: "@ + decimal(lsp_processes.len())
                },
                "processes:"@,
            ] + processes.map_values(|p: InfoView| process_line(p)),
            "\n"@,
        )
    }
}

fn push_opt_or_unknown(out: &mut Vec<char>, o: &Option<String>)
    ensures
        final(out)@ == old(out)@ + or_unknown(opt_seq(*o)),
{
    match o {
        Some(s) => push_str(out, s.as_str()),
        None => push_str(out, "unknown"),
    }
}

/// The text that lists the processes of a session snapshot.
pub fn session_process_snapshot_text(snapshot: &SessionProcessSnapshot) -> (r: String)
    ensures
        r@ == snapshot_text(
            snapshot.session_directory@,
            info_views(snapshot.processes@),
            info_views(snapshot.lsp_processes@),
        ),
{
    if snapshot.processes.len() == 0 {
        let mut out: Vec<char> = Vec::new();
        push_str(&mut out, "session_directory: ");
        push_str(&mut out, snapshot.session_directory.as_str());
        push_str(&mut out, "\nprocesses: none detected under this session directory");
        return string_of(&out);
    }
    let ghost pv = info_views(snapshot.processes@);
    let mut lines: Vec<Vec<char>> = Vec::new();
    let mut first: Vec<char> = Vec::new();
    push_str(&mut first, "session_directory: ");
    push_str(&mut first, snapshot.session_directory.as_str());
    lines.push(first);
    let mut second: Vec<char> = Vec::new();
    if snapshot.lsp_processes.len() == 0 {
        push_str(&mut second, "lsp_processes: none detected");
    } else {
        push_str(&mut second, "lsp_processes: ");
        push_decimal(&mut second, snapshot.lsp_processes.len() as u64);
    }
    lines.push(second);
    lines.push(chars_of("processes:"));
    let ghost head = views(lines@);
    let mut i: usize = 0;
    while i < snapshot.processes.len()
        invariant
            i <= snapshot.processes.len(),
            pv == info_views(snapshot.processes@),
            lines.len() == 3 + i,
            views(lines@) == head + pv.take(i as int).map_values(|p: InfoView| process_line(p)),
        decreases snapshot.processes.len() - i,
    {
        let p = &snapshot.processes[i];
        assert(pv[i as int] == info_view(*p));
        let mut line: Vec<char> = Vec::new();
        push_str(&mut line, "- pid=");
        push_decimal(&mut line, p.pid as u64);
        push_str(&mut line, " kind=");
        push_str(&mut line, p.kind.as_str());
        push_str(&mut line, " name=");
        push_str(&mut line, p.name.as_str());
        push_str(&mut line, " cwd=");
        push_opt_or_unknown(&mut line, &p.cwd);
        push_str(&mut line, " exe=");
        push_opt_or_unknown(&mut line, &p.exe);
        push_str(&mut line, " running_file=");
        push_opt_or_unknown(&mut line, &p.running_file);
        push_str(&mut line, " cmd=");
        push_str(&mut line, p.command_line.as_str());
        assert(line@ =~= process_line(pv[i as int]));
        let ghost before = views(lines@);
        let ghost lv = line@;
        lines.push(line);
        assert(views(lines@) =~= before.push(lv));
        assert(pv.take(i + 1).map_values(|p: InfoView| process_line(p)) =~= pv.take(
            i as int,
        ).map_values(|p: InfoView| process_line(p)).push(lv));
        i = i + 1;
    }
    assert(pv.take(i as int) =~= pv);
    assert(lines@.map_values(|w: Vec<char>| w@) =~= seq![
        "session_directory: "@ + snapshot.session_directory@,
        if snapshot.lsp_processes@.len() == 0 {
            "lsp_processes: none detected"@
        } else {
            "lsp_processes: "@ + decimal(snapshot.lsp_processes@.len())
        },
        "processes:"@,
    ] + pv.map_values(|p: InfoView| process_line(p)));
    string_of(&join_chars(&lines, "\n"))
}


proof fn lemma_key_lt_order(a: (bool, Seq<char>, u32), b: (bool, Seq<char>, u32), c: (bool, Seq<char>, u32))
    ensures
        !key_lt(a, a),
        key_lt(a, b) && key_lt(b, c) ==> key_lt(a, c),
        key_lt(a, b) || key_lt(b, a) || a == b,
{
    crate::text::lemma_lex_lt_irreflexive(a.1);
    if key_lt(a, b) && key_lt(b, c) {
        if lex_lt(a.1, b.1) && lex_lt(b.1, c.1) {
            crate::text::lemma_lex_lt_transitive(a.1, b.1, c.1);
        }
    }
    crate::text::lemma_lex_lt_total(a.1, b.1);
}

/// No entry sorts before an earlier one.
pub open spec fn sorted_by_key(s: Seq<InfoView>) -> bool {
    forall|i: int, j: int| 0 <= i < j < s.len() ==> !process_lt(s[j], s[i])
}

proof fn lemma_insert_by_key(s: Seq<InfoView>, x: InfoView)
    requires
        sorted_by_key(s),
    ensures
        sorted_by_key(insert_by_key(s, x)),
        insert_by_key(s, x).len() == s.len() + 1,
        forall|k: int|
            0 <= k < insert_by_key(s, x).len() ==> #[trigger] insert_by_key(s, x)[k] == x
                || s.contains(insert_by_key(s, x)[k]),
    decreases s.len(),
{
    if s.len() > 0 {
        let d = s.drop_last();
        let last = s.last();
        if process_lt(x, last) {
            assert(sorted_by_key(d)) by {
                assert forall|i: int, j: int| 0 <= i < j < d.len() implies !process_lt(d[j], d[i]) by {
                    assert(d[i] == s[i] && d[j] == s[j]);
                }
            }
            lemma_insert_by_key(d, x);
            let m = insert_by_key(d, x);
            let r = m.push(last);
            assert forall|k: int| 0 <= k < r.len() implies #[trigger] r[k] == x || s.contains(r[k]) by {
                if k < m.len() {
                    assert(r[k] == m[k]);
                    if m[k] != x {
                        let q = choose|q: int| 0 <= q < d.len() && d[q] == m[k];
                        assert(s[q] == d[q]);
                    }
                } else {
                    assert(s[s.len() - 1] == last);
                }
            }
            assert forall|i: int, j: int| 0 <= i < j < r.len() implies !process_lt(r[j], r[i]) by {
                if j < m.len() {
                    assert(r[i] == m[i] && r[j] == m[j]);
                } else {
                    assert(r[j] == last);
                    assert(r[i] == m[i]);
                    lemma_key_lt_order(process_key(last), process_key(x), process_key(last));
                    if m[i] == x {
                        lemma_key_lt_order(process_key(x), process_key(last), process_key(x));
                    } else {
                        let q = choose|q: int| 0 <= q < d.len() && d[q] == m[i];
                        assert(s[q] == m[i]);
                        assert(!process_lt(s[s.len() - 1], s[q]));
                    }
                }
            }
        } else {
            let r = s.push(x);
            assert forall|k: int| 0 <= k < r.len() implies #[trigger] r[k] == x || s.contains(r[k]) by {
                if k < s.len() {
                    assert(r[k] == s[k]);
                }
            }
            assert forall|i: int, j: int| 0 <= i < j < r.len() implies !process_lt(r[j], r[i]) by {
                if j < s.len() {
                    assert(r[i] == s[i] && r[j] == s[j]);
                } else {
                    assert(r[j] == x && r[i] == s[i]);
                    if i < s.len() - 1 {
                        assert(!process_lt(last, s[i]));
                        lemma_key_lt_order(process_key(x), process_key(s[i]), process_key(last));
                        lemma_key_lt_order(process_key(s[i]), process_key(last), process_key(s[i]));
                        if process_key(s[i]) == process_key(last) {
                            assert(process_lt(x, s[i]) == process_lt(x, last));
                        }
                    }
                }
            }
        }
    }
}

proof fn lemma_sort_by_key(s: Seq<InfoView>)
    ensures
        sorted_by_key(sort_by_key(s)),
        sort_by_key(s).len() == s.len(),
    decreases s.len(),
{
    if s.len() > 0 {
        lemma_sort_by_key(s.drop_last());
        lemma_insert_by_key(sort_by_key(s.drop_last()), s.last());
    }
}

/// The processes of a snapshot are in key order: language servers first,
/// then by name, then by pid; so no other process is listed before a
/// language server.
pub proof fn law_listed_processes_sorted(s: Seq<InfoView>)
    ensures
        sorted_by_key(listed_processes(s)),
        forall|i: int, j: int|
            0 <= i < j < listed_processes(s).len() && (#[trigger] listed_processes(s)[j]).6 == "lsp"@
                ==> (#[trigger] listed_processes(s)[i]).6 == "lsp"@,
{
    lemma_sort_by_key(s);
    let sorted = sort_by_key(s);
    let l = listed_processes(s);
    assert forall|i: int, j: int| 0 <= i < j < l.len() implies !process_lt(l[j], l[i]) by {
        assert(l[i] == sorted[i] && l[j] == sorted[j]);
    }
    assert forall|i: int, j: int|
        0 <= i < j < l.len() && (#[trigger] l[j]).6 == "lsp"@ implies (#[trigger] l[i]).6 == "lsp"@ by {
        assert(!process_lt(l[j], l[i]));
    }
}

} // verus!
