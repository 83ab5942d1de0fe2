//! What the gateway shows of a tool call: a short summary of its output, and
//! a stable id for the call.
use vstd::prelude::*;
use crate::chars::{eq_str, split_inclusive_lines, split_lines_inclusive, trim, trim_ws, views, trim_end_class, trim_end_by, CharClass};
use crate::gateway_events::{compact_command_output, compact_output_text};
use crate::json::{array_data, as_flag, as_items, as_text, json_as_array, json_as_bool, json_as_str, json_data, json_get, json_member_str, json_pretty_text, json_text, json_to_string, json_to_string_pretty, lemma_array_data, member, member_text, JsonData, JsonValue};
use crate::prompt_style::runtime_fallback::{glob_match_summary, glob_match_summary_text};
use crate::text::{chars_of, join, join_chars, push_chars, push_str, string_of};

verus! {

/// The lines of a text as `str::lines` gives them: split after each line
/// feed, without the line feed and a carriage return before it.
pub open spec fn text_lines(s: Seq<char>) -> Seq<Seq<char>> {
    split_lines_inclusive(s).map_values(
        |l: Seq<char>| trim_end_class(trim_end_class_once(l, '\n'), CharClass::Exactly('\r')),
    )
}

/// `l` without one trailing `c`.
pub open spec fn trim_end_class_once(l: Seq<char>, c: char) -> Seq<char> {
    if l.len() > 0 && l.last() == c {
        l.drop_last()
    } else {
        l
    }
}

/// The first `n` lines of a text, joined by line feeds.
pub open spec fn first_lines(s: Seq<char>, n: nat) -> Seq<char> {
    let ls = text_lines(s);
    join(ls.take(if ls.len() < n { ls.len() as int } else { n as int }), "\n"@)
}

fn strip_line_end(l: &Vec<char>) -> (r: Vec<char>)
    ensures
        r@ == trim_end_class(trim_end_class_once(l@, '\n'), CharClass::Exactly('\r')),
{
    let base = if l.len() > 0 && l[l.len() - 1] == '\n' {
        crate::chars::slice_vec(l, 0, l.len() - 1)
    } else {
        crate::chars::slice_vec(l, 0, l.len())
    };
    assert(l@.len() > 0 && l@.last() == '\n' ==> base@ =~= l@.drop_last());
    assert(!(l@.len() > 0 && l@.last() == '\n') ==> base@ =~= l@);
    trim_end_by(&base, &CharClass::Exactly('\r'))
}

/// The first `n` lines of `s`, joined by line feeds.
pub fn first_lines_text(s: &Vec<char>, n: usize) -> (r: Vec<char>)
    ensures
        r@ == first_lines(s@, n as nat),
{
    let chunks = split_inclusive_lines(s);
    let ghost cv = views(chunks@);
    let ghost ls = text_lines(s@);
    assert(ls.len() == cv.len());
    let k: usize = if chunks.len() < n {
        chunks.len()
    } else {
        n
    };
    let mut lines: Vec<Vec<char>> = Vec::new();
    let mut i: usize = 0;
    while i < k
        invariant
            i <= k <= chunks.len(),
            cv == views(chunks@),
            cv == split_lines_inclusive(s@),
            ls == text_lines(s@),
            lines.len() == i,
            forall|j: int| 0 <= j < i ==> #[trigger] lines@[j]@ == ls[j],
        decreases k - i,
    {
        assert(cv[i as int] == chunks@[i as int]@);
        lines.push(strip_line_end(&chunks[i]));
        i = i + 1;
    }
    assert(lines@.map_values(|w: Vec<char>| w@) =~= ls.take(k as int));
    join_chars(&lines, "\n")
}

/// The first non-blank `summary_markdown` of the results of a tool output,
/// trimmed.
pub open spec fn first_summary(results: Seq<JsonData>) -> Option<Seq<char>>
    decreases results.len(),
{
    if results.len() == 0 {
        None
    } else {
        match member_text(results[0], "summary_markdown"@) {
            Some(t) => if trim_ws(t).len() > 0 {
                Some(trim_ws(t))
            } else {
                first_summary(results.drop_first())
            },
            None => first_summary(results.drop_first()),
        }
    }
}

pub open spec fn summary_markdown(output: JsonData) -> Option<Seq<char>> {
    match as_items(member(output, "results"@)) {
        Some(results) => first_summary(results),
        None => None,
    }
}

pub fn first_summary_markdown(output: &JsonValue) -> (r: Option<String>)
    ensures
        match r {
            Some(s) => summary_markdown(json_data(*output)) == Some(s@),
            None => summary_markdown(json_data(*output)) is None,
        },
{
    let results = match json_get(output, "results") {
        Some(v) => match json_as_array(v) {
            Some(items) => items,
            None => {
                return None;
            },
        },
        None => {
            return None;
        },
    };
    proof {
        lemma_array_data(results@);
    }
    let ghost rd = array_data(results@);
    let mut i: usize = 0;
    assert(rd.skip(0) =~= rd);
    while i < results.len()
        invariant
            i <= results.len(),
            rd == array_data(results@),
            rd.len() == results.len(),
            forall|j: int| 0 <= j < results.len() ==> #[trigger] rd[j] == json_data(results@[j]),
            first_summary(rd.skip(i as int)) == summary_markdown(json_data(*output)),
        decreases results.len() - i,
    {
        assert(rd.skip(i as int).drop_first() =~= rd.skip(i + 1));
        assert(rd.skip(i as int)[0] == rd[i as int]);
        match json_member_str(&results[i], "summary_markdown") {
            Some(t) => {
                let tv = trim(&chars_of(t));
                if tv.len() > 0 {
                    return Some(string_of(&tv));
                }
            },
            None => {},
        }
        i = i + 1;
    }
    None
}

/// The command of a command_run result: its `command_type`, else its
/// `command`, when that is a string; `command` otherwise.
pub open spec fn result_command(r: JsonData) -> Seq<char> {
    let chosen = if member(r, "command_type"@) is Some {
        member(r, "command_type"@)
    } else {
        member(r, "command"@)
    };
    match as_text(chosen) {
        Some(c) => c,
        None => "command"@,
    }
}

/// The detail of a command_run result: its compacted output text, else the
/// status of its task_status output; none when that is empty.
pub open spec fn result_detail(r: JsonData) -> Option<Seq<char>> {
    let d = match member_text(r, "output"@) {
        Some(o) => Some(compact_output_text(o)),
        None => match member(r, "output"@) {
            Some(o) => match member(o, "task_status"@) {
                Some(ts) => match member_text(ts, "status"@) {
                    Some(st) => Some("task_status "@ + st),
                    None => None,
                },
                None => None,
            },
            None => None,
        },
    };
    match d {
        Some(x) => if x.len() > 0 {
            Some(x)
        } else {
            None
        },
        None => None,
    }
}

/// One line of a command_run summary: command, `ok` or `failed`, and the
/// detail.
pub open spec fn result_line(r: JsonData) -> Seq<char> {
    let status = if as_flag(member(r, "success"@)) == Some(false) {
        "failed"@
    } else {
        "ok"@
    };
    match result_detail(r) {
        Some(d) => result_command(r) + " "@ + status + ": "@ + d,
        None => result_command(r) + " "@ + status,
    }
}

/// A command_run output summarized: the lines of its first five results
/// joined by `; `; none without results.
pub open spec fn command_run_summary(output: JsonData) -> Option<Seq<char>> {
    match as_items(member(output, "results"@)) {
        Some(results) => if results.len() == 0 {
            None
        } else {
            Some(
                join(
                    results.take(if results.len() < 5 { results.len() as int } else { 5 }).map_values(
                        |r: JsonData| result_line(r),
                    ),
                    "; "@,
                ),
            )
        },
        None => None,
    }
}

fn result_line_exec(r: &JsonValue) -> (line: Vec<char>)
    ensures
        line@ == result_line(json_data(*r)),
{
    let chosen = match json_get(r, "command_type") {
        Some(c) => Some(c),
        None => json_get(r, "command"),
    };
    let command: Vec<char> = match chosen {
        Some(c) => match json_as_str(c) {
            Some(t) => chars_of(t),
            None => chars_of("command"),
        },
        None => chars_of("command"),
    };
    let failed = match json_get(r, "success") {
        Some(s) => match json_as_bool(s) {
            Some(b) => !b,
            None => false,
        },
        None => false,
    };
    let detail: Option<Vec<char>> = match json_member_str(r, "output") {
        Some(o) => Some(chars_of(compact_command_output(o).as_str())),
        None => match json_get(r, "output") {
            Some(o) => match json_get(o, "task_status") {
                Some(ts) => match json_member_str(ts, "status") {
                    Some(st) => {
                        let mut d: Vec<char> = Vec::new();
                        push_str(&mut d, "task_status ");
                        push_str(&mut d, st);
                        Some(d)
                    },
                    None => None,
                },
                None => None,
            },
            None => None,
        },
    };
    let mut line: Vec<char> = Vec::new();
    push_chars(&mut line, &command);
    push_str(&mut line, " ");
    if failed {
        push_str(&mut line, "failed");
    } else {
        push_str(&mut line, "ok");
    }
    match detail {
        Some(d) => {
            if d.len() > 0 {
                push_str(&mut line, ": ");
                push_chars(&mut line, &d);
            }
        },
        None => {},
    }
    line
}

pub fn summarize_command_run_output(output: &JsonValue) -> (r: Option<String>)
    ensures
        match r {
            Some(s) => command_run_summary(json_data(*output)) == Some(s@),
            None => command_run_summary(json_data(*output)) is None,
        },
{
    let results = match json_get(output, "results") {
        Some(v) => match json_as_array(v) {
            Some(items) => items,
            None => {
                return None;
            },
        },
        None => {
            return None;
        },
    };
    if results.len() == 0 {
        return None;
    }
    proof {
        lemma_array_data(results@);
    }
    let ghost rd = array_data(results@);
    let k: usize = if results.len() < 5 {
        results.len()
    } else {
        5
    };
    let mut lines: Vec<Vec<char>> = Vec::new();
    let mut i: usize = 0;
    while i < k
        invariant
            i <= k <= results.len(),
            rd == array_data(results@),
            rd.len() == results.len(),
            forall|j: int| 0 <= j < results.len() ==> #[trigger] rd[j] == json_data(results@[j]),
            lines.len() == i,
            forall|j: int| 0 <= j < i ==> #[trigger] lines@[j]@ == result_line(rd[j]),
        decreases k - i,
    {
        lines.push(result_line_exec(&results[i]));
        i = i + 1;
    }
    assert(lines@.map_values(|w: Vec<char>| w@) =~= rd.take(k as int).map_values(
        |r: JsonData| result_line(r),
    ));
    Some(string_of(&join_chars(&lines, "; ")))
}


/// The `path` texts of match items.
pub open spec fn item_paths(items: Seq<JsonData>) -> Seq<Seq<char>>
    decreases items.len(),
{
    if items.len() == 0 {
        Seq::empty()
    } else {
        let rest = item_paths(items.drop_last());
        match member_text(items.last(), "path"@) {
            Some(p) => rest.push(p),
            None => rest,
        }
    }
}

/// The string items of a list.
pub open spec fn item_texts(items: Seq<JsonData>) -> Seq<Seq<char>>
    decreases items.len(),
{
    if items.len() == 0 {
        Seq::empty()
    } else {
        let rest = item_texts(items.drop_last());
        match as_text(Some(items.last())) {
            Some(p) => rest.push(p),
            None => rest,
        }
    }
}

/// The paths one find or glob result matched: the paths of its `matches`
/// when it has that list, else its `matched_paths` strings.
pub open spec fn result_paths(r: JsonData) -> Seq<Seq<char>> {
    match as_items(member(r, "matches"@)) {
        Some(ms) => item_paths(ms),
        None => match as_items(member(r, "matched_paths"@)) {
            Some(ps) => item_texts(ps),
            None => Seq::empty(),
        },
    }
}

pub open spec fn results_paths(results: Seq<JsonData>) -> Seq<Seq<char>>
    decreases results.len(),
{
    if results.len() == 0 {
        Seq::empty()
    } else {
        results_paths(results.drop_last()) + result_paths(results.last())
    }
}

/// Every path that a find or glob output matched, in order.
pub open spec fn matched_paths(output: JsonData) -> Seq<Seq<char>> {
    match as_items(member(output, "results"@)) {
        Some(rs) => results_paths(rs),
        None => Seq::empty(),
    }
}

/// The first five paths, each in backticks, joined by commas.
pub open spec fn paths_preview(paths: Seq<Seq<char>>) -> Seq<char> {
    join(
        paths.take(if paths.len() < 5 { paths.len() as int } else { 5 }).map_values(
            |p: Seq<char>| "`"@ + p + "`"@,
        ),
        ", "@,
    )
}

/// The summary of one tool's output shown in the gateway: the first ten
/// lines of its first summary markdown; for command_run, its result lines;
/// for find and glob, the paths it matched; else the first six lines of its
/// raw output, or the first eight lines of its indented JSON.
pub open spec fn tool_output_summary(tool_name: Seq<char>, output: JsonData) -> Seq<char> {
    match summary_markdown(output) {
        Some(md) => first_lines(md, 10),
        None => if tool_name == "command_run"@ && command_run_summary(output) is Some {
            command_run_summary(output)->0
        } else if (tool_name == "find"@ || tool_name == "glob"@) && matched_paths(output).len() > 0 {
            glob_match_summary_text(paths_preview(matched_paths(output)), matched_paths(output).len())
        } else {
            match member_text(output, "raw_output"@) {
                Some(raw) => if trim_ws(raw).len() > 0 {
                    first_lines(trim_ws(raw), 6)
                } else {
                    first_lines(json_pretty_text(output), 8)
                },
                None => first_lines(json_pretty_text(output), 8),
            }
        },
    }
}

/// Appends the `path` texts (with `paths`) or the string items (without)
/// of `items`.
fn push_texts(out: &mut Vec<Vec<char>>, items: &Vec<JsonValue>, paths: bool)
    ensures
        views(final(out)@) == views(old(out)@) + if paths {
            item_paths(array_data(items@))
        } else {
            item_texts(array_data(items@))
        },
{
    proof {
        lemma_array_data(items@);
    }
    let ghost ad = array_data(items@);
    let ghost start = views(out@);
    let mut i: usize = 0;
    assert(item_paths(ad.take(0)) =~= Seq::<Seq<char>>::empty());
    assert(item_texts(ad.take(0)) =~= Seq::<Seq<char>>::empty());
    assert(views(out@) =~= start + Seq::<Seq<char>>::empty());
    while i < items.len()
        invariant
            i <= items.len(),
            ad == array_data(items@),
            ad.len() == items.len(),
            forall|j: int| 0 <= j < items.len() ==> #[trigger] ad[j] == json_data(items@[j]),
            views(out@) == start + if paths {
                item_paths(ad.take(i as int))
            } else {
                item_texts(ad.take(i as int))
            },
        decreases items.len() - i,
    {
        assert(ad.take(i + 1).drop_last() =~= ad.take(i as int));
        assert(ad.take(i + 1).last() == ad[i as int]);
        let text = if paths {
            json_member_str(&items[i], "path")
        } else {
            json_as_str(&items[i])
        };
        match text {
            Some(t) => {
                let ghost before = views(out@);
                let tv = chars_of(t);
                let ghost tvv = tv@;
                out.push(tv);
                assert(views(out@) =~= before.push(tvv));
            },
            None => {},
        }
        i = i + 1;
    }
    assert(ad.take(i as int) =~= ad);
}

/// Every path that a find or glob output matched.
pub fn matched_paths_of(output: &JsonValue) -> (r: Vec<Vec<char>>)
    ensures
        views(r@) == matched_paths(json_data(*output)),
{
    let mut out: Vec<Vec<char>> = Vec::new();
    let results = match json_get(output, "results") {
        Some(v) => match json_as_array(v) {
            Some(items) => items,
            None => {
                assert(views(out@) =~= Seq::<Seq<char>>::empty());
                return out;
            },
        },
        None => {
            assert(views(out@) =~= Seq::<Seq<char>>::empty());
            return out;
        },
    };
    proof {
        lemma_array_data(results@);
    }
    let ghost rd = array_data(results@);
    let mut i: usize = 0;
    assert(views(out@) =~= results_paths(rd.take(0)));
    while i < results.len()
        invariant
            i <= results.len(),
            rd == array_data(results@),
            rd.len() == results.len(),
            forall|j: int| 0 <= j < results.len() ==> #[trigger] rd[j] == json_data(results@[j]),
            views(out@) == results_paths(rd.take(i as int)),
        decreases results.len() - i,
    {
        assert(rd.take(i + 1).drop_last() =~= rd.take(i as int));
        assert(rd.take(i + 1).last() == rd[i as int]);
        let r = &results[i];
        match json_get(r, "matches") {
            Some(m) => match json_as_array(m) {
                Some(ms) => {
                    push_texts(&mut out, ms, true);
                },
                None => {
                    push_matched_paths(&mut out, r);
                },
            },
            None => {
                push_matched_paths(&mut out, r);
            },
        }
        i = i + 1;
    }
    assert(rd.take(i as int) =~= rd);
    out
}

fn push_matched_paths(out: &mut Vec<Vec<char>>, r: &JsonValue)
    requires
        as_items(member(json_data(*r), "matches"@)) is None,
    ensures
        views(final(out)@) == views(old(out)@) + result_paths(json_data(*r)),
{
    match json_get(r, "matched_paths") {
        Some(p) => match json_as_array(p) {
            Some(ps) => {
                push_texts(out, ps, false);
            },
            None => {
                assert(views(out@) =~= views(out@) + Seq::<Seq<char>>::empty());
            },
        },
        None => {
            assert(views(out@) =~= views(out@) + Seq::<Seq<char>>::empty());
        },
    }
}

pub fn summarize_single_tool_output(tool_name: &str, output: &JsonValue) -> (r: String)
    ensures
        r@ == tool_output_summary(tool_name@, json_data(*output)),
{
    match first_summary_markdown(output) {
        Some(md) => {
            return string_of(&first_lines_text(&chars_of(md.as_str()), 10));
        },
        None => {},
    }
    let name = chars_of(tool_name);
    if eq_str(&name, "command_run") {
        match summarize_command_run_output(output) {
            Some(summary) => {
                return summary;
            },
            None => {},
        }
    }
    if eq_str(&name, "find") || eq_str(&name, "glob") {
        let paths = matched_paths_of(output);
        if paths.len() > 0 {
            let ghost pv = views(paths@);
            let k: usize = if paths.len() < 5 {
                paths.len()
            } else {
                5
            };
            let mut quoted: Vec<Vec<char>> = Vec::new();
            let mut i: usize = 0;
            while i < k
                invariant
                    i <= k <= paths.len(),
                    pv == views(paths@),
                    quoted.len() == i,
                    forall|j: int| 0 <= j < i ==> #[trigger] quoted@[j]@ == "`"@ + pv[j] + "`"@,
                decreases k - i,
            {
                let mut q: Vec<char> = Vec::new();
                push_str(&mut q, "`");
                push_chars(&mut q, &paths[i]);
                push_str(&mut q, "`");
                assert(pv[i as int] == paths@[i as int]@);
                quoted.push(q);
                i = i + 1;
            }
            assert(quoted@.map_values(|w: Vec<char>| w@) =~= pv.take(k as int).map_values(
                |p: Seq<char>| "`"@ + p + "`"@,
            ));
            let preview = string_of(&join_chars(&quoted, ", "));
            return glob_match_summary(preview.as_str(), paths.len());
        }
    }
    match json_member_str(output, "raw_output") {
        Some(raw) => {
            let t = trim(&chars_of(raw));
            if t.len() > 0 {
                return string_of(&first_lines_text(&t, 6));
            }
        },
        None => {},
    }
    let pretty = json_to_string_pretty(output);
    string_of(&first_lines_text(&chars_of(pretty.as_str()), 8))
}

/// The text that a tool message shows of an output: the error when there is
/// one, else the first summary markdown, else the indented JSON.
pub open spec fn output_text(output: JsonData, error: Option<Seq<char>>) -> Seq<char> {
    match error {
        Some(e) => e,
        None => match summary_markdown(output) {
            Some(md) => md,
            None => json_pretty_text(output),
        },
    }
}

pub fn tool_output_text(output: &JsonValue, error: Option<&str>) -> (r: String)
    ensures
        r@ == output_text(
            json_data(*output),
            match error {
                Some(e) => Some(e@),
                None => None,
            },
        ),
{
    match error {
        Some(e) => e.to_owned(),
        None => match first_summary_markdown(output) {
            Some(md) => md,
            None => json_to_string_pretty(output),
        },
    }
}

/// A string argument of a tool call, trimmed and not blank: the member
/// `key`, else that member of the first of its `requests`.
pub open spec fn argument_string(arguments: JsonData, key: Seq<char>) -> Option<Seq<char>> {
    let v = if member(arguments, key) is Some {
        member(arguments, key)
    } else {
        match as_items(member(arguments, "requests"@)) {
            Some(rs) => if rs.len() > 0 {
                member(rs[0], key)
            } else {
                None
            },
            None => None,
        }
    };
    match as_text(v) {
        Some(t) => if trim_ws(t).len() > 0 {
            Some(trim_ws(t))
        } else {
            None
        },
        None => None,
    }
}

pub fn extract_tool_argument_string(arguments: &JsonValue, key: &str) -> (r: Option<String>)
    ensures
        match r {
            Some(s) => argument_string(json_data(*arguments), key@) == Some(s@),
            None => argument_string(json_data(*arguments), key@) is None,
        },
{
    let v = match json_get(arguments, key) {
        Some(v) => Some(v),
        None => match json_get(arguments, "requests") {
            Some(rq) => match json_as_array(rq) {
                Some(rs) => {
                    proof {
                        lemma_array_data(rs@);
                    }
                    if rs.len() > 0 {
                        json_get(&rs[0], key)
                    } else {
                        None
                    }
                },
                None => None,
            },
            None => None,
        },
    };
    match v {
        Some(x) => match json_as_str(x) {
            Some(t) => {
                let tv = trim(&chars_of(t));
                if tv.len() > 0 {
                    Some(string_of(&tv))
                } else {
                    None
                }
            },
            None => None,
        },
        None => None,
    }
}


pub const FNV_OFFSET_BASIS: u64 = 14_695_981_039_346_656_037;

pub const FNV_PRIME: u64 = 1_099_511_628_211;

/// The 64-bit FNV-1a hash of `bytes`.
pub open spec fn fnv1a(bytes: Seq<u8>) -> u64
    decreases bytes.len(),
{
    if bytes.len() == 0 {
        FNV_OFFSET_BASIS
    } else {
        (fnv1a(bytes.drop_last()) ^ (bytes.last() as u64)).wrapping_mul(FNV_PRIME)
    }
}

/// Lower-case hexadecimal digit.
pub open spec fn hex_digit(d: nat) -> char {
    if d < 10 {
        ((d + 48) as u8) as char
    } else {
        ((d + 87) as u8) as char
    }
}

/// The last `width` hexadecimal digits of `n`, zero-padded.
pub open spec fn hex_text(n: nat, width: nat) -> Seq<char>
    decreases width,
{
    if width == 0 {
        Seq::empty()
    } else {
        hex_text(n / 16, (width - 1) as nat).push(hex_digit(n % 16))
    }
}

fn push_hex(out: &mut Vec<char>, n: u64, width: usize)
    ensures
        final(out)@ == old(out)@ + hex_text(n as nat, width as nat),
    decreases width,
{
    if width == 0 {
        assert(old(out)@ + hex_text(n as nat, 0) =~= old(out)@);
        return;
    }
    push_hex(out, n / 16, width - 1);
    let d = n % 16;
    let c: char = if d < 10 {
        ((d + 48) as u8) as char
    } else {
        ((d + 87) as u8) as char
    };
    let ghost mid = out@;
    out.push(c);
    assert(out@ =~= old(out)@ + hex_text(n as nat, width as nat));
}

/// The suffix that makes a tool call's id stable: the FNV-1a hash of
/// `tool_name:arguments` (the arguments as compact JSON, in UTF-8), as
/// sixteen hexadecimal digits.
pub open spec fn tool_call_suffix(tool_name: Seq<char>, arguments: JsonData) -> Seq<char> {
    hex_text(fnv1a(vstd::utf8::encode_utf8(tool_name + ":"@ + json_text(arguments))) as nat, 16)
}

/// The FNV-1a hash of a text's UTF-8 bytes, as sixteen hexadecimal digits.
pub fn fnv1a_hex(text: &str) -> (r: String)
    ensures
        r@ == hex_text(fnv1a(vstd::utf8::encode_utf8(text@)) as nat, 16),
{
    let bytes = text.as_bytes();
    let ghost bv = bytes@;
    let mut hash: u64 = FNV_OFFSET_BASIS;
    let mut i: usize = 0;
    assert(bv.take(0) =~= Seq::<u8>::empty());
    while i < bytes.len()
        invariant
            i <= bytes.len(),
            bv == bytes@,
            hash == fnv1a(bv.take(i as int)),
        decreases bytes.len() - i,
    {
        assert(bv.take(i + 1).drop_last() =~= bv.take(i as int));
        assert(bv.take(i + 1).last() == bytes[i as int]);
        hash = hash ^ (bytes[i] as u64);
        hash = hash.wrapping_mul(FNV_PRIME);
        i = i + 1;
    }
    assert(bv.take(i as int) =~= bv);
    let mut out: Vec<char> = Vec::new();
    push_hex(&mut out, hash, 16);
    assert(out@ =~= hex_text(hash as nat, 16));
    string_of(&out)
}

pub fn stable_tool_call_suffix(tool_name: &str, arguments: &JsonValue) -> (r: String)
    ensures
        r@ == tool_call_suffix(tool_name@, json_data(*arguments)),
{
    let mut src: Vec<char> = Vec::new();
    push_str(&mut src, tool_name);
    push_str(&mut src, ":");
    push_str(&mut src, json_to_string(arguments).as_str());
    let source = string_of(&src);
    fnv1a_hex(source.as_str())
}

/// A stable id for a tool call of a runtime: the runtime id, a hyphen, and
/// the stable suffix.
pub fn stable_tool_call_id(runtime_id: &str, tool_name: &str, arguments: &JsonValue) -> (r: String)
    ensures
        r@ == runtime_id@ + "-"@ + tool_call_suffix(tool_name@, json_data(*arguments)),
{
    let mut out: Vec<char> = Vec::new();
    push_str(&mut out, runtime_id);
    push_str(&mut out, "-");
    push_str(&mut out, stable_tool_call_suffix(tool_name, arguments).as_str());
    string_of(&out)
}

} // verus!
