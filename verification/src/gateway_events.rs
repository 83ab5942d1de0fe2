//! Ids and routing decisions for the events that the runtime publishes to the
//! gateway: stable message and part ids, whether callbacks go out and through
//! which transport, and which session receives them.
use vstd::prelude::*;
use crate::chars::{ascii_lower, eq_str, starts_with, starts_with_str, to_ascii_lowercase, trim, trim_ws, views};
use crate::chars::split_lines_inclusive;
use crate::chars::split_inclusive_lines;
use crate::text::{chars_of, join, join_chars, push_str, string_of};

pub mod tool_message;

verus! {

/// The frontend message id of a runtime-owned assistant turn.
pub open spec fn message_id_text(runtime_id: Seq<char>) -> Seq<char> {
    runtime_id + ".message"@
}

/// The tool part id of a runtime-owned assistant turn.
pub open spec fn tool_part_id_text(runtime_id: Seq<char>, tool_name: Seq<char>) -> Seq<char> {
    runtime_id + ".tool."@ + tool_name
}

/// Canonical frontend message id for a runtime-owned assistant turn:
/// callbacks, live overlays and persisted snapshots all derive it from the
/// runtime id, so one provider call has one assistant message.
pub fn runtime_message_id(runtime_id: &str) -> (r: String)
    ensures
        r@ == message_id_text(runtime_id@),
{
    let mut out: Vec<char> = Vec::new();
    push_str(&mut out, runtime_id);
    push_str(&mut out, ".message");
    string_of(&out)
}

/// Canonical text part id, the same as the message id.
pub fn runtime_text_part_id(runtime_id: &str) -> (r: String)
    ensures
        r@ == message_id_text(runtime_id@),
{
    runtime_message_id(runtime_id)
}

/// Canonical tool part id for a runtime-owned assistant turn.
pub fn runtime_tool_part_id(runtime_id: &str, tool_name: &str) -> (r: String)
    ensures
        r@ == tool_part_id_text(runtime_id@, tool_name@),
{
    let mut out: Vec<char> = Vec::new();
    push_str(&mut out, runtime_id);
    push_str(&mut out, ".tool.");
    push_str(&mut out, tool_name);
    string_of(&out)
}

/// Distinct runtimes get distinct message ids, and one runtime always the
/// same one.
pub proof fn law_message_ids_runtime_scoped(a: Seq<char>, b: Seq<char>)
    ensures
        message_id_text(a) == message_id_text(b) <==> a == b,
{
    if message_id_text(a) == message_id_text(b) {
        assert(message_id_text(a).len() == a.len() + ".message"@.len());
        assert(message_id_text(b).len() == b.len() + ".message"@.len());
        assert(a.len() == b.len());
        assert forall|i: int| 0 <= i < a.len() implies a[i] == b[i] by {
            assert(message_id_text(a)[i] == a[i]);
            assert(message_id_text(b)[i] == b[i]);
        }
        assert(a =~= b);
    }
}

/// Whether the callback switch (the raw value of its setting, if set) turns
/// gateway callbacks off: `0`, `false`, `no`, `off` or `disabled`, in any
/// ASCII case and with surrounding whitespace.
pub open spec fn callbacks_off(setting: Option<Seq<char>>) -> bool {
    match setting {
        None => false,
        Some(v) => {
            let l = ascii_lower(trim_ws(v));
            l == "0"@ || l == "false"@ || l == "no"@ || l == "off"@ || l == "disabled"@
        },
    }
}

pub fn gateway_callbacks_disabled(setting: Option<&str>) -> (b: bool)
    ensures
        b == callbacks_off(
            match setting {
                Some(v) => Some(v@),
                None => None,
            },
        ),
{
    match setting {
        None => false,
        Some(v) => {
            let raw = chars_of(v);
            let l = to_ascii_lowercase(&trim(&raw));
            eq_str(&l, "0") || eq_str(&l, "false") || eq_str(&l, "no") || eq_str(&l, "off")
                || eq_str(&l, "disabled")
        },
    }
}

/// Whether the callback transport setting names the IPC transport: `ipc`,
/// `router-ipc` or `stdout`, in any ASCII case and with surrounding
/// whitespace.
pub open spec fn ipc_transport(setting: Option<Seq<char>>) -> bool {
    match setting {
        None => false,
        Some(v) => {
            let l = ascii_lower(trim_ws(v));
            l == "ipc"@ || l == "router-ipc"@ || l == "stdout"@
        },
    }
}

pub fn gateway_callback_ipc_enabled(setting: Option<&str>) -> (b: bool)
    ensures
        b == ipc_transport(
            match setting {
                Some(v) => Some(v@),
                None => None,
            },
        ),
{
    match setting {
        None => false,
        Some(v) => {
            let raw = chars_of(v);
            let l = to_ascii_lowercase(&trim(&raw));
            eq_str(&l, "ipc") || eq_str(&l, "router-ipc") || eq_str(&l, "stdout")
        },
    }
}

/// Value of a decimal digit character.
pub open spec fn digit_value(c: char) -> nat {
    ((c as u32) - 48) as nat
}

pub open spec fn all_digits(s: Seq<char>) -> bool {
    forall|i: int| 0 <= i < s.len() ==> 48 <= (#[trigger] s[i] as u32) <= 57
}

/// The number that a string of decimal digits writes.
pub open spec fn digits_value(s: Seq<char>) -> nat
    decreases s.len(),
{
    if s.len() == 0 {
        0
    } else {
        digits_value(s.drop_last()) * 10 + digit_value(s.last())
    }
}

/// `usize::from_str`: an optional `+` and at least one decimal digit, with
/// nothing else and a value that fits.
pub open spec fn parsed_usize(s: Seq<char>) -> Option<nat> {
    let d = if s.len() > 0 && s[0] == '+' {
        s.skip(1)
    } else {
        s
    };
    if d.len() == 0 || !all_digits(d) || digits_value(d) > usize::MAX {
        None
    } else {
        Some(digits_value(d))
    }
}

pub proof fn lemma_digits_value_grows(s: Seq<char>, i: int)
    requires
        0 <= i <= s.len(),
    ensures
        digits_value(s.take(i)) <= digits_value(s),
    decreases s.len() - i,
{
    if i < s.len() {
        lemma_digits_value_grows(s, i + 1);
        assert(s.take(i + 1).drop_last() =~= s.take(i));
    } else {
        assert(s.take(i) =~= s);
    }
}

pub fn parse_usize(s: &str) -> (r: Option<usize>)
    ensures
        match r {
            Some(n) => parsed_usize(s@) == Some(n as nat),
            None => parsed_usize(s@) is None,
        },
{
    let v = chars_of(s);
    let start: usize = if v.len() > 0 && v[0] == '+' {
        1
    } else {
        0
    };
    let ghost d = if s@.len() > 0 && s@[0] == '+' {
        s@.skip(1)
    } else {
        s@
    };
    assert(d =~= v@.skip(start as int));
    if start >= v.len() {
        return None;
    }
    let mut acc: usize = 0;
    let mut i: usize = start;
    assert(d.take(0) =~= Seq::<char>::empty());
    while i < v.len()
        invariant
            start <= i <= v.len(),
            d == v@.skip(start as int),
            v@ == s@,
            d == (if s@.len() > 0 && s@[0] == '+' {
                s@.skip(1)
            } else {
                s@
            }),
            all_digits(d.take(i - start)),
            acc == digits_value(d.take(i - start)),
        decreases v.len() - i,
    {
        let c = v[i];
        let k: usize = (i - start) as usize;
        assert(d[k as int] == c);
        assert(d.take(k + 1).drop_last() =~= d.take(k as int));
        if !(48 <= (c as u32) && (c as u32) <= 57) {
            assert(!(48 <= (d[k as int] as u32) <= 57));
            assert(!all_digits(d));
            return None;
        }
        let digit: usize = ((c as u32) - 48) as usize;
        assert(d.take(k + 1).last() == c);
        assert(digits_value(d.take(k + 1)) == acc * 10 + digit);
        match acc.checked_mul(10) {
            None => {
                proof {
                    lemma_digits_value_grows(d, k + 1);
                }
                return None;
            },
            Some(m) => match m.checked_add(digit) {
                None => {
                    proof {
                        lemma_digits_value_grows(d, k + 1);
                    }
                    return None;
                },
                Some(n) => {
                    acc = n;
                },
            },
        }
        i = i + 1;
        assert forall|j: int| 0 <= j < d.take(i - start).len() implies 48 <= (#[trigger] d.take(
            i - start,
        )[j] as u32) <= 57 by {
            if j < k {
                assert(d.take(i - start)[j] == d.take(k as int)[j]);
            }
        }
    }
    assert(d.take(i - start) =~= d);
    Some(acc)
}

/// How deep below a planning parent this process runs: the planning depth
/// setting if set, else the tool-execution depth setting, parsed as an
/// unsigned number; zero when unset or not a number.
pub open spec fn child_depth(planning: Option<Seq<char>>, execute: Option<Seq<char>>) -> nat {
    let chosen = match planning {
        Some(p) => Some(p),
        None => execute,
    };
    match chosen {
        Some(v) => match parsed_usize(v) {
            Some(n) => n,
            None => 0,
        },
        None => 0,
    }
}

pub open spec fn opt_view(o: Option<&str>) -> Option<Seq<char>> {
    match o {
        Some(v) => Some(v@),
        None => None,
    }
}

pub fn planning_child_depth(planning: Option<&str>, execute: Option<&str>) -> (n: usize)
    ensures
        n == child_depth(opt_view(planning), opt_view(execute)),
{
    let chosen = match planning {
        Some(p) => Some(p),
        None => execute,
    };
    match chosen {
        Some(v) => match parse_usize(v) {
            Some(n) => n,
            None => 0,
        },
        None => 0,
    }
}

/// The session that receives gateway callbacks: a planning child (depth
/// above zero) reports to its parent session when the parent id, trimmed,
/// is not blank; every other process reports to its own session.
pub open spec fn callback_session_text(session_id: Seq<char>, depth: nat, parent: Option<Seq<char>>) -> Seq<
    char,
> {
    match parent {
        Some(p) => if depth > 0 && trim_ws(p).len() > 0 {
            trim_ws(p)
        } else {
            session_id
        },
        None => session_id,
    }
}

pub fn gateway_callback_session_id(session_id: &str, depth: usize, parent: Option<&str>) -> (r:
    String)
    ensures
        r@ == callback_session_text(session_id@, depth as nat, opt_view(parent)),
{
    if depth > 0 {
        match parent {
            Some(p) => {
                let raw = chars_of(p);
                let t = trim(&raw);
                if t.len() > 0 {
                    return string_of(&t);
                }
            },
            None => {},
        }
    }
    session_id.to_owned()
}

/// What becomes of an agent message for the gateway.
pub enum GatewayDelivery {
    /// Callbacks are off: nothing is sent, and that is no failure.
    Skipped,
    /// The message goes out over the IPC transport.
    SendOverIpc,
}

/// The delivery of an agent message: skipped when callbacks are off, sent
/// over IPC when that transport is on, and otherwise refused.
pub fn gateway_agent_message_delivery(callbacks_disabled: bool, ipc_enabled: bool) -> (r: Result<
    GatewayDelivery,
    String,
>)
    ensures
        callbacks_disabled ==> r matches Ok(GatewayDelivery::Skipped),
        !callbacks_disabled && ipc_enabled ==> r matches Ok(GatewayDelivery::SendOverIpc),
        !callbacks_disabled && !ipc_enabled ==> (r matches Err(e) && e@
            == "gateway callback IPC transport is not enabled"@),
{
    if callbacks_disabled {
        Ok(GatewayDelivery::Skipped)
    } else if ipc_enabled {
        Ok(GatewayDelivery::SendOverIpc)
    } else {
        Err("gateway callback IPC transport is not enabled".to_owned())
    }
}

/// A line of command output that a one-line summary keeps: not blank, not
/// the exit-code or wall-time line, not the bare `Output:` header.
pub open spec fn summary_line(l: Seq<char>) -> bool {
    l.len() > 0 && !starts_with(l, "Exit code:"@) && !starts_with(l, "Wall time:"@) && l
        != "Output:"@
}

/// The kept lines of `lines`, each trimmed.
pub open spec fn summary_lines(lines: Seq<Seq<char>>) -> Seq<Seq<char>>
    decreases lines.len(),
{
    if lines.len() == 0 {
        Seq::empty()
    } else {
        let rest = summary_lines(lines.drop_last());
        let t = trim_ws(lines.last());
        if summary_line(t) {
            rest.push(t)
        } else {
            rest
        }
    }
}

/// The first three kept lines of command output, joined by ` / `.
pub open spec fn compact_output_text(output: Seq<char>) -> Seq<char> {
    let k = summary_lines(split_lines_inclusive(output));
    join(k.take(if k.len() < 3 { k.len() as int } else { 3 }), " / "@)
}

pub fn compact_command_output(output: &str) -> (r: String)
    ensures
        r@ == compact_output_text(output@),
{
    let v = chars_of(output);
    let lines = split_inclusive_lines(&v);
    let ghost lv = views(lines@);
    let mut kept: Vec<Vec<char>> = Vec::new();
    let mut i: usize = 0;
    assert(lv.take(0) =~= Seq::<Seq<char>>::empty());
    while i < lines.len()
        invariant
            i <= lines.len(),
            lv == views(lines@),
            lv == split_lines_inclusive(output@),
            views(kept@) == summary_lines(lv.take(i as int)),
        decreases lines.len() - i,
    {
        assert(lv.take(i + 1).drop_last() =~= lv.take(i as int));
        assert(lv[i as int] == lines@[i as int]@);
        let t = trim(&lines[i]);
        let keep = t.len() > 0 && !starts_with_str(&t, "Exit code:") && !starts_with_str(
            &t,
            "Wall time:",
        ) && !eq_str(&t, "Output:");
        if keep {
            let ghost before = kept@;
            let ghost tv = t@;
            kept.push(t);
            assert(views(kept@) =~= views(before).push(tv));
        }
        i = i + 1;
    }
    assert(lv.take(i as int) =~= lv);
    let ghost k = views(kept@);
    let n: usize = if kept.len() < 3 {
        kept.len()
    } else {
        3
    };
    let mut first: Vec<Vec<char>> = Vec::new();
    let mut j: usize = 0;
    while j < n
        invariant
            j <= n <= kept.len(),
            k == views(kept@),
            first.len() == j,
            forall|q: int| 0 <= q < j ==> #[trigger] first@[q]@ == k[q],
        decreases n - j,
    {
        let mut line: Vec<char> = Vec::new();
        crate::text::push_chars(&mut line, &kept[j]);
        first.push(line);
        j = j + 1;
    }
    assert(first@.map_values(|w: Vec<char>| w@) =~= k.take(n as int));
    string_of(&join_chars(&first, " / "))
}

/// The first of `items` that, trimmed, is not blank, trimmed.
pub open spec fn first_non_blank(items: Seq<Seq<char>>) -> Option<Seq<char>>
    decreases items.len(),
{
    if items.len() == 0 {
        None
    } else if trim_ws(items[0]).len() > 0 {
        Some(trim_ws(items[0]))
    } else {
        first_non_blank(items.drop_first())
    }
}

pub fn first_non_empty(items: &[&str]) -> (r: Option<String>)
    ensures
        match r {
            Some(s) => first_non_blank(items@.map_values(|x: &str| x@)) == Some(s@),
            None => first_non_blank(items@.map_values(|x: &str| x@)) is None,
        },
{
    let ghost iv = items@.map_values(|x: &str| x@);
    let mut i: usize = 0;
    assert(iv.skip(0) =~= iv);
    while i < items.len()
        invariant
            i <= items.len(),
            iv == items@.map_values(|x: &str| x@),
            first_non_blank(iv.skip(i as int)) == first_non_blank(iv),
        decreases items.len() - i,
    {
        assert(iv.skip(i as int).drop_first() =~= iv.skip(i + 1));
        assert(iv.skip(i as int)[0] == items@[i as int]@);
        let raw = chars_of(items[i]);
        let t = trim(&raw);
        if t.len() > 0 {
            return Some(string_of(&t));
        }
        i = i + 1;
    }
    None
}

} // verus!
