//! The content of a context checkpoint: a timeline of what happened before
//! it, trimmed from the oldest end to an estimated token budget, followed by
//! the handoff summary.
use vstd::prelude::*;
use crate::chars::{split_whitespace, split_words, trim, trim_ws, views};
use crate::context::char_budget::{char_budget_text, truncate_text_to_char_budget, COMPACT_CONTEXT_MAX_CHARS};
use crate::json::{
    array_data, json_data, json_member_str, json_text, json_to_string, lemma_array_data,
    lemma_object_data, member_text, object_data, JsonData, JsonValue,
};
use crate::prompt_style::task_status::{planning_objective_context, planning_objective_text};
use crate::text::{
    byte_len, chars_of, decimal, join, join_chars, push_chars, push_decimal, push_str, string_of,
    utf8_len,
};

verus! {

pub const COMPACT_CONTEXT_TARGET_TOKENS: usize = 12_000;

pub const ESTIMATED_TOKEN_BYTES: usize = 3;

/// One entry of the checkpoint timeline: when (as seconds and nanoseconds
/// since the epoch, for ordering, and as RFC 3339 text, for showing), in
/// which scope, from which role, what was said, and its position in the
/// session log.
#[derive(Debug, Clone)]
pub struct TimelineEntry {
    pub seconds: i64,
    pub nanos: u32,
    pub timestamp: String,
    pub scope: String,
    pub role: String,
    pub content: String,
    pub index: usize,
}

/// An entry as plain values: (seconds, nanos, timestamp text, scope, role,
/// content, index).
pub type EntryView = (i64, u32, Seq<char>, Seq<char>, Seq<char>, Seq<char>, usize);

pub open spec fn entry_view(e: TimelineEntry) -> EntryView {
    (e.seconds, e.nanos, e.timestamp@, e.scope@, e.role@, e.content@, e.index)
}

pub open spec fn entry_views(s: Seq<TimelineEntry>) -> Seq<EntryView> {
    s.map_values(|e: TimelineEntry| entry_view(e))
}

/// Tokens estimated from a byte count: a token per three bytes, rounded up.
pub open spec fn estimated_tokens(bytes: nat) -> nat {
    (bytes + 2) / 3
}

pub fn estimated_tokens_from_bytes(bytes: usize) -> (n: usize)
    ensures
        n == estimated_tokens(bytes as nat),
{
    bytes / 3 + if bytes % 3 == 0 {
        0
    } else {
        1
    }
}

/// Timeline content on one line: the words joined by single spaces, cut to
/// a thousand bytes' worth of characters.
pub open spec fn timeline_text(value: Seq<char>) -> Seq<char> {
    char_budget_text(join(split_words(value), " "@), 1000)
}

pub fn compact_timeline_text(value: &str) -> (r: String)
    ensures
        r@ == timeline_text(value@),
{
    let words = split_whitespace(&chars_of(value));
    assert(words@.map_values(|w: Vec<char>| w@) =~= views(words@));
    let one_line = string_of(&join_chars(&words, " "));
    truncate_text_to_char_budget(one_line.as_str(), 1000)
}

/// One timeline line: `- [timestamp] scope/role: content`.
pub open spec fn entry_line(e: EntryView) -> Seq<char> {
    "- ["@ + e.2 + "] "@ + e.3 + "/"@ + e.4 + ": "@ + timeline_text(e.5) + "\n"@
}

pub open spec fn entry_lines(entries: Seq<EntryView>) -> Seq<char>
    decreases entries.len(),
{
    if entries.len() == 0 {
        Seq::empty()
    } else {
        entry_lines(entries.drop_last()) + entry_line(entries.last())
    }
}

/// The checkpoint content for the timeline `entries`, of which `omitted`
/// older ones were left out, and the handoff summary `compact_text`.
pub open spec fn rendered_content(entries: Seq<EntryView>, omitted: nat, compact_text: Seq<char>) -> Seq<char> {
    "Context rebuild timeline before this checkpoint (timestamps are UTC):\n"@ + (if omitted > 0 {
        "- [older timeline entries omitted to keep this checkpoint under about 12000 estimated tokens: "@
            + decimal(omitted) + "]\n"@
    } else {
        Seq::empty()
    }) + (if entries.len() == 0 {
        "- none\n"@
    } else {
        entry_lines(entries)
    }) + "\nCompact context handoff:\n"@ + trim_ws(compact_text)
}

pub fn render_compact_content(entries: &[TimelineEntry], omitted: usize, compact_text: &str) -> (r:
    String)
    ensures
        r@ == rendered_content(entry_views(entries@), omitted as nat, compact_text@),
{
    let ghost ev = entry_views(entries@);
    let mut out: Vec<char> = Vec::new();
    push_str(&mut out, "Context rebuild timeline before this checkpoint (timestamps are UTC):\n");
    let ghost head = out@;
    if omitted > 0 {
        push_str(
            &mut out,
            "- [older timeline entries omitted to keep this checkpoint under about 12000 estimated tokens: ",
        );
        push_decimal(&mut out, omitted as u64);
        push_str(&mut out, "]\n");
    }
    let ghost mid = out@;
    if entries.len() == 0 {
        push_str(&mut out, "- none\n");
    } else {
        let mut i: usize = 0;
        assert(entry_lines(ev.take(0)) =~= Seq::<char>::empty());
        assert(out@ =~= mid + entry_lines(ev.take(0)));
        while i < entries.len()
            invariant
                i <= entries.len(),
                ev == entry_views(entries@),
                out@ == mid + entry_lines(ev.take(i as int)),
            decreases entries.len() - i,
        {
            let e = &entries[i];
            assert(ev[i as int] == entry_view(*e));
            assert(ev.take(i + 1).drop_last() =~= ev.take(i as int));
            push_str(&mut out, "- [");
            push_str(&mut out, e.timestamp.as_str());
            push_str(&mut out, "] ");
            push_str(&mut out, e.scope.as_str());
            push_str(&mut out, "/");
            push_str(&mut out, e.role.as_str());
            push_str(&mut out, ": ");
            push_str(&mut out, compact_timeline_text(e.content.as_str()).as_str());
            push_str(&mut out, "\n");
            i = i + 1;
            assert(out@ =~= mid + entry_lines(ev.take(i as int)));
        }
        assert(ev.take(i as int) =~= ev);
    }
    push_str(&mut out, "\nCompact context handoff:\n");
    let ct = trim(&chars_of(compact_text));
    push_chars(&mut out, &ct);
    string_of(&out)
}

/// How many of the oldest entries, from `k` on, are left out: the first
/// count at which the content is estimated within the token target, or all
/// of them.
pub open spec fn omitted_count(entries: Seq<EntryView>, compact_text: Seq<char>, k: nat) -> nat
    decreases entries.len() - k,
{
    if k < entries.len() && estimated_tokens(
        utf8_len(rendered_content(entries.skip(k as int), k, compact_text)),
    ) > 12_000 {
        omitted_count(entries, compact_text, k + 1)
    } else {
        k
    }
}

/// The checkpoint content: the oldest entries dropped until the estimate is
/// within the token target, then, if still over the byte size of that
/// target, cut to it.
pub open spec fn trimmed_content(entries: Seq<EntryView>, compact_text: Seq<char>) -> Seq<char> {
    let k = omitted_count(entries, compact_text, 0);
    let out = rendered_content(entries.skip(k as int), k, compact_text);
    if utf8_len(out) > 36_000 {
        char_budget_text(out, 36_000)
    } else {
        out
    }
}

pub fn compact_content_with_trimmed_timeline(entries: &Vec<TimelineEntry>, compact_text: &str) -> (r:
    String)
    ensures
        r@ == trimmed_content(entry_views(entries@), compact_text@),
{
    let ghost ev = entry_views(entries@);
    let mut omitted: usize = 0;
    let mut out = render_compact_content(entries.as_slice(), omitted, compact_text);
    assert(entry_views(entries@.skip(0)) =~= ev.skip(0));
    assert(ev.skip(0) =~= ev);
    assert(entries@.skip(0) =~= entries@);
    let max_bytes: usize = COMPACT_CONTEXT_TARGET_TOKENS * ESTIMATED_TOKEN_BYTES;
    while estimated_tokens_from_bytes(byte_len(out.as_str())) > COMPACT_CONTEXT_TARGET_TOKENS
        && omitted < entries.len()
        invariant
            omitted <= entries.len(),
            ev == entry_views(entries@),
            out@ == rendered_content(ev.skip(omitted as int), omitted as nat, compact_text@),
            omitted_count(ev, compact_text@, omitted as nat) == omitted_count(ev, compact_text@, 0),
        decreases entries.len() - omitted,
    {
        omitted = omitted + 1;
        let rest = slice_entries(entries, omitted);
        assert(entry_views(rest@) =~= ev.skip(omitted as int));
        out = render_compact_content(rest.as_slice(), omitted, compact_text);
    }
    if byte_len(out.as_str()) > max_bytes {
        out = truncate_text_to_char_budget(out.as_str(), max_bytes);
    }
    out
}

fn copy_entry(e: &TimelineEntry) -> (r: TimelineEntry)
    ensures
        entry_view(r) == entry_view(*e),
{
    TimelineEntry {
        seconds: e.seconds,
        nanos: e.nanos,
        timestamp: e.timestamp.clone(),
        scope: e.scope.clone(),
        role: e.role.clone(),
        content: e.content.clone(),
        index: e.index,
    }
}

fn slice_entries(entries: &Vec<TimelineEntry>, from: usize) -> (r: Vec<TimelineEntry>)
    requires
        from <= entries.len(),
    ensures
        entry_views(r@) == entry_views(entries@).skip(from as int),
{
    let ghost ev = entry_views(entries@);
    let mut out: Vec<TimelineEntry> = Vec::new();
    let mut i: usize = from;
    while i < entries.len()
        invariant
            from <= i <= entries.len(),
            ev == entry_views(entries@),
            entry_views(out@) == ev.subrange(from as int, i as int),
        decreases entries.len() - i,
    {
        let ghost before = entry_views(out@);
        let e = copy_entry(&entries[i]);
        out.push(e);
        assert(entry_views(out@) =~= before.push(ev[i as int]));
        i = i + 1;
        assert(entry_views(out@) =~= ev.subrange(from as int, i as int));
    }
    assert(ev.subrange(from as int, i as int) =~= ev.skip(from as int));
    out
}


/// A moment: seconds and nanoseconds since the epoch, and its RFC 3339 text.
#[derive(Debug, Clone)]
pub struct Moment {
    pub seconds: i64,
    pub nanos: u32,
    pub timestamp: String,
}

/// Timeline order: by time, then by position in the session log.
pub open spec fn entry_lt(a: EntryView, b: EntryView) -> bool {
    a.0 < b.0 || (a.0 == b.0 && (a.1 < b.1 || (a.1 == b.1 && a.6 < b.6)))
}

pub open spec fn insert_entry(sorted: Seq<EntryView>, x: EntryView) -> Seq<EntryView>
    decreases sorted.len(),
{
    if sorted.len() == 0 {
        seq![x]
    } else if entry_lt(x, sorted.last()) {
        insert_entry(sorted.drop_last(), x).push(sorted.last())
    } else {
        sorted.push(x)
    }
}

/// The entries in timeline order, stably (`slice::sort_by`).
pub open spec fn sort_entries(s: Seq<EntryView>) -> Seq<EntryView>
    decreases s.len(),
{
    if s.len() == 0 {
        s
    } else {
        insert_entry(sort_entries(s.drop_last()), s.last())
    }
}

/// `a` comes no later than `b`: by seconds, then nanoseconds, then log
/// position.
pub open spec fn time_then_index_le(a: EntryView, b: EntryView) -> bool {
    a.0 < b.0 || (a.0 == b.0 && (a.1 < b.1 || (a.1 == b.1 && a.6 <= b.6)))
}

pub open spec fn in_timeline_order(s: Seq<EntryView>) -> bool {
    forall|i: int| 0 <= i < s.len() - 1 ==> !entry_lt(#[trigger] s[i + 1], s[i])
}

proof fn lemma_insert_entry_shape(sorted: Seq<EntryView>, x: EntryView)
    ensures
        insert_entry(sorted, x).len() == sorted.len() + 1,
        insert_entry(sorted, x).last() == if sorted.len() > 0 && entry_lt(x, sorted.last()) {
            sorted.last()
        } else {
            x
        },
    decreases sorted.len(),
{
    if sorted.len() > 0 && entry_lt(x, sorted.last()) {
        lemma_insert_entry_shape(sorted.drop_last(), x);
    }
}

proof fn lemma_insert_entry_ordered(sorted: Seq<EntryView>, x: EntryView)
    requires
        in_timeline_order(sorted),
    ensures
        in_timeline_order(insert_entry(sorted, x)),
    decreases sorted.len(),
{
    if sorted.len() == 0 {
    } else if entry_lt(x, sorted.last()) {
        let s2 = sorted.drop_last();
        assert(in_timeline_order(s2)) by {
            assert forall|i: int| 0 <= i < s2.len() - 1 implies !entry_lt(#[trigger] s2[i + 1], s2[i]) by {
                assert(s2[i + 1] == sorted[i + 1]);
            }
        }
        lemma_insert_entry_ordered(s2, x);
        lemma_insert_entry_shape(s2, x);
        let r = insert_entry(s2, x);
        assert(insert_entry(sorted, x) == r.push(sorted.last()));
        if s2.len() > 0 {
            let j = s2.len() - 1;
            assert(!entry_lt(sorted[j + 1], sorted[j]));
        }
        assert forall|i: int| 0 <= i < r.len() implies !entry_lt(#[trigger] r.push(sorted.last())[i + 1], r.push(sorted.last())[i]) by {
            if i < r.len() - 1 {
                assert(r.push(sorted.last())[i + 1] == r[i + 1]);
            }
        }
    } else {
        let r = sorted.push(x);
        assert forall|i: int| 0 <= i < r.len() - 1 implies !entry_lt(#[trigger] r[i + 1], r[i]) by {
            if i < sorted.len() - 1 {
                assert(r[i + 1] == sorted[i + 1]);
            }
        }
    }
}

proof fn lemma_insert_entry_multiset(sorted: Seq<EntryView>, x: EntryView)
    ensures
        insert_entry(sorted, x).to_multiset() == sorted.to_multiset().insert(x),
    decreases sorted.len(),
{
    broadcast use vstd::seq_lib::group_to_multiset_ensures;
    if sorted.len() > 0 && entry_lt(x, sorted.last()) {
        let s2 = sorted.drop_last();
        lemma_insert_entry_multiset(s2, x);
        assert(sorted == s2.push(sorted.last()));
        assert(insert_entry(sorted, x).to_multiset() =~= sorted.to_multiset().insert(x));
    }
}

proof fn lemma_sort_entries_multiset(s: Seq<EntryView>)
    ensures
        sort_entries(s).to_multiset() == s.to_multiset(),
    decreases s.len(),
{
    broadcast use vstd::seq_lib::group_to_multiset_ensures;
    if s.len() > 0 {
        lemma_sort_entries_multiset(s.drop_last());
        lemma_insert_entry_multiset(sort_entries(s.drop_last()), s.last());
        assert(s == s.drop_last().push(s.last()));
    }
}

proof fn lemma_sort_entries_ordered(s: Seq<EntryView>)
    ensures
        in_timeline_order(sort_entries(s)),
        sort_entries(s).len() == s.len(),
    decreases s.len(),
{
    if s.len() > 0 {
        lemma_sort_entries_ordered(s.drop_last());
        lemma_insert_entry_ordered(sort_entries(s.drop_last()), s.last());
        lemma_insert_entry_shape(sort_entries(s.drop_last()), s.last());
    }
}

/// The timeline comes out ordered by full timestamp, seconds and then
/// nanoseconds, with the log position deciding only between entries of the
/// very same time; the same entries come out as went in.
pub proof fn law_timeline_sorted_by_full_time(entries: Seq<EntryView>)
    ensures
        sort_entries(entries).len() == entries.len(),
        sort_entries(entries).to_multiset() == entries.to_multiset(),
        forall|i: int|
            0 <= i < sort_entries(entries).len() - 1 ==> time_then_index_le(
                #[trigger] sort_entries(entries)[i],
                sort_entries(entries)[i + 1],
            ),
{
    lemma_sort_entries_ordered(entries);
    lemma_sort_entries_multiset(entries);
    let r = sort_entries(entries);
    assert forall|i: int| 0 <= i < r.len() - 1 implies time_then_index_le(#[trigger] r[i], r[i + 1]) by {
        assert(!entry_lt(r[i + 1], r[i]));
    }
}

fn entry_less(a: &TimelineEntry, b: &TimelineEntry) -> (r: bool)
    ensures
        r == entry_lt(entry_view(*a), entry_view(*b)),
{
    a.seconds < b.seconds || (a.seconds == b.seconds && (a.nanos < b.nanos || (a.nanos == b.nanos
        && a.index < b.index)))
}

fn insert_entry_sorted(v: &mut Vec<TimelineEntry>, x: TimelineEntry)
    ensures
        entry_views(final(v)@) == insert_entry(entry_views(old(v)@), entry_view(x)),
{
    let ghost sv = entry_views(v@);
    let ghost xv = entry_view(x);
    let mut p: usize = v.len();
    assert(sv.take(p as int) =~= sv);
    assert(sv.skip(p as int) =~= Seq::<EntryView>::empty());
    while p > 0 && entry_less(&x, &v[p - 1])
        invariant
            p <= v.len(),
            sv == entry_views(v@),
            v@ == old(v)@,
            xv == entry_view(x),
            insert_entry(sv, xv) == insert_entry(sv.take(p as int), xv) + sv.skip(p as int),
        decreases p,
    {
        assert(sv.take(p as int).drop_last() =~= sv.take(p - 1));
        assert(sv.take(p as int).last() == sv[p - 1]);
        assert(sv.skip(p - 1) =~= seq![sv[p - 1]] + sv.skip(p as int));
        assert(insert_entry(sv.take(p - 1), xv).push(sv[p - 1]) + sv.skip(p as int)
            =~= insert_entry(sv.take(p - 1), xv) + sv.skip(p - 1));
        p = p - 1;
    }
    if p == 0 {
        assert(sv.take(0) =~= Seq::<EntryView>::empty());
    }
    assert(insert_entry(sv.take(p as int), xv) =~= sv.take(p as int).push(xv));
    v.insert(p, x);
    assert(entry_views(v@) =~= sv.take(p as int).push(xv) + sv.skip(p as int));
}

/// The entries in timeline order.
pub fn sort_timeline(entries: &Vec<TimelineEntry>) -> (r: Vec<TimelineEntry>)
    ensures
        entry_views(r@) == sort_entries(entry_views(entries@)),
{
    let ghost ev = entry_views(entries@);
    let mut out: Vec<TimelineEntry> = Vec::new();
    let mut i: usize = 0;
    assert(entry_views(out@) =~= sort_entries(ev.take(0)));
    while i < entries.len()
        invariant
            i <= entries.len(),
            ev == entry_views(entries@),
            entry_views(out@) == sort_entries(ev.take(i as int)),
        decreases entries.len() - i,
    {
        let x = copy_entry(&entries[i]);
        assert(ev.take(i + 1).drop_last() =~= ev.take(i as int));
        assert(ev.take(i + 1).last() == entry_view(x));
        insert_entry_sorted(&mut out, x);
        i = i + 1;
    }
    assert(ev.take(i as int) =~= ev);
    out
}

/// The timeline with the current user input added as a current-run user
/// entry at the session start, unless it is blank or already there.
pub open spec fn with_user_input(
    entries: Seq<EntryView>,
    user_input: Seq<char>,
    started: (i64, u32, Seq<char>),
) -> Seq<EntryView> {
    let input = trim_ws(user_input);
    if input.len() == 0 || exists|i: int|
        0 <= i < entries.len() && (#[trigger] entries[i]).3 == "current_run"@ && entries[i].4
            == "user"@ && trim_ws(entries[i].5) == input {
        entries
    } else {
        entries.push((started.0, started.1, started.2, "current_run"@, "user"@, input, usize::MAX))
    }
}

pub open spec fn moment_view(m: Moment) -> (i64, u32, Seq<char>) {
    (m.seconds, m.nanos, m.timestamp@)
}

pub fn ensure_current_user_input_entry(
    entries: &mut Vec<TimelineEntry>,
    user_input: &str,
    started: &Moment,
)
    ensures
        entry_views(final(entries)@) == with_user_input(
            entry_views(old(entries)@),
            user_input@,
            moment_view(*started),
        ),
{
    let ghost ev = entry_views(entries@);
    let input = trim(&chars_of(user_input));
    if input.len() == 0 {
        return;
    }
    let mut i: usize = 0;
    while i < entries.len()
        invariant
            i <= entries.len(),
            ev == entry_views(entries@),
            entries@ == old(entries)@,
            input@ == trim_ws(user_input@),
            forall|j: int|
                0 <= j < i ==> !((#[trigger] ev[j]).3 == "current_run"@ && ev[j].4 == "user"@
                    && trim_ws(ev[j].5) == input@),
        decreases entries.len() - i,
    {
        let e = &entries[i];
        assert(ev[i as int] == entry_view(*e));
        if crate::chars::eq_str(&chars_of(e.scope.as_str()), "current_run") && crate::chars::eq_str(
            &chars_of(e.role.as_str()),
            "user",
        ) && crate::context::text_truncate::same_chars(&trim(&chars_of(e.content.as_str())), &input) {
            return;
        }
        i = i + 1;
    }
    let ghost before = entry_views(entries@);
    entries.push(
        TimelineEntry {
            seconds: started.seconds,
            nanos: started.nanos,
            timestamp: started.timestamp.clone(),
            scope: "current_run".to_owned(),
            role: "user".to_owned(),
            content: string_of(&input),
            index: usize::MAX,
        },
    );
    assert(entry_views(entries@) =~= before.push(
        (started.seconds, started.nanos, started.timestamp@, "current_run"@, "user"@, input@, usize::MAX),
    ));
}

/// An agent message to close the timeline with: its text and when it was
/// said.
pub open spec fn with_agent_message(
    entries: Seq<EntryView>,
    agent_message: Option<(Seq<char>, (i64, u32, Seq<char>))>,
) -> Seq<EntryView> {
    match agent_message {
        Some((content, at)) => if trim_ws(content).len() > 0 {
            entries.push((at.0, at.1, at.2, "current_run"@, "agent"@, trim_ws(content), usize::MAX))
        } else {
            entries
        },
        None => entries,
    }
}

/// The checkpoint content from the collected timeline `entries`: the current
/// user input and the agent message added, the whole sorted by time, then
/// trimmed to the token target with `compact_text` as the handoff.
pub open spec fn rebuild_content(
    entries: Seq<EntryView>,
    user_input: Seq<char>,
    started: (i64, u32, Seq<char>),
    agent_message: Option<(Seq<char>, (i64, u32, Seq<char>))>,
    compact_text: Seq<char>,
) -> Seq<char> {
    trimmed_content(
        sort_entries(with_agent_message(with_user_input(entries, user_input, started), agent_message)),
        compact_text,
    )
}

pub fn compact_rebuild_content(
    entries: Vec<TimelineEntry>,
    user_input: &str,
    started: &Moment,
    agent_message: Option<(&str, &Moment)>,
    compact_text: &str,
) -> (r: String)
    ensures
        r@ == rebuild_content(
            entry_views(entries@),
            user_input@,
            moment_view(*started),
            match agent_message {
                Some((c, m)) => Some((c@, moment_view(*m))),
                None => None,
            },
            compact_text@,
        ),
{
    let mut entries = entries;
    ensure_current_user_input_entry(&mut entries, user_input, started);
    match agent_message {
        Some((content, at)) => {
            let t = trim(&chars_of(content));
            if t.len() > 0 {
                let ghost before = entry_views(entries@);
                entries.push(
                    TimelineEntry {
                        seconds: at.seconds,
                        nanos: at.nanos,
                        timestamp: at.timestamp.clone(),
                        scope: "current_run".to_owned(),
                        role: "agent".to_owned(),
                        content: string_of(&t),
                        index: usize::MAX,
                    },
                );
                assert(entry_views(entries@) =~= before.push(
                    (at.seconds, at.nanos, at.timestamp@, "current_run"@, "agent"@, t@, usize::MAX),
                ));
            }
        },
        None => {},
    }
    let sorted = sort_timeline(&entries);
    compact_content_with_trimmed_timeline(&sorted, compact_text)
}

/// The fragment text put in a compaction record when no workspace snapshot
/// could be taken.
pub const EMPTY_WORKSPACE_SNAPSHOT: &'static str = "<WORKSPACE_SNAPSHOT>\n\n</WORKSPACE_SNAPSHOT>";

/// The record that a compaction appends to the session log: the rebuilt
/// content, trimmed and cut to the summary limit, the rendered workspace
/// snapshot (an empty one when none was taken), the environment context and
/// the time.
pub open spec fn compaction_record_data(
    content: Seq<char>,
    workspace_snapshot: Option<Seq<char>>,
    environment_context: Seq<char>,
    timestamp: Seq<char>,
) -> JsonData {
    JsonData::Object(
        seq![
            ("content"@, JsonData::Str(char_budget_text(trim_ws(content), COMPACT_CONTEXT_MAX_CHARS as nat))),
            ("environment_context"@, JsonData::Str(environment_context)),
            ("timestamp"@, JsonData::Str(timestamp)),
            ("type"@, JsonData::Str("context_compaction"@)),
            ("workspace_snapshot"@, JsonData::Str(
                match workspace_snapshot {
                    Some(w) => w,
                    None => EMPTY_WORKSPACE_SNAPSHOT@,
                },
            )),
        ],
    )
}

pub fn compaction_record(
    content: &str,
    workspace_snapshot: Option<&str>,
    environment_context: &str,
    timestamp: &str,
) -> (r: JsonValue)
    ensures
        json_data(r) == compaction_record_data(
            content@,
            match workspace_snapshot {
                Some(w) => Some(w@),
                None => None,
            },
            environment_context@,
            timestamp@,
        ),
{
    let trimmed = string_of(&trim(&chars_of(content)));
    let compact = truncate_text_to_char_budget(trimmed.as_str(), COMPACT_CONTEXT_MAX_CHARS);
    let snapshot = match workspace_snapshot {
        Some(w) => w.to_owned(),
        None => EMPTY_WORKSPACE_SNAPSHOT.to_owned(),
    };
    let ghost cv = compact@;
    let ghost sv = snapshot@;
    assert(trimmed@ == trim_ws(content@));
    assert(cv == char_budget_text(trim_ws(content@), COMPACT_CONTEXT_MAX_CHARS as nat));
    assert(sv == match workspace_snapshot {
        Some(w) => w@,
        None => EMPTY_WORKSPACE_SNAPSHOT@,
    });
    let mut ms: Vec<(String, JsonValue)> = Vec::new();
    ms.push(("content".to_owned(), JsonValue::Str(compact)));
    ms.push(("environment_context".to_owned(), JsonValue::Str(environment_context.to_owned())));
    ms.push(("timestamp".to_owned(), JsonValue::Str(timestamp.to_owned())));
    ms.push(("type".to_owned(), JsonValue::Str("context_compaction".to_owned())));
    ms.push(("workspace_snapshot".to_owned(), JsonValue::Str(snapshot)));
    proof {
        lemma_object_data(ms@);
        assert(object_data(ms@) =~= seq![
            ("content"@, JsonData::Str(cv)),
            ("environment_context"@, JsonData::Str(environment_context@)),
            ("timestamp"@, JsonData::Str(timestamp@)),
            ("type"@, JsonData::Str("context_compaction"@)),
            ("workspace_snapshot"@, JsonData::Str(sv)),
        ]);
    }
    let ghost md = object_data(ms@);
    let ghost ws = match workspace_snapshot {
        Some(w) => Some(w@),
        None => None,
    };
    let ghost spec_d = compaction_record_data(content@, ws, environment_context@, timestamp@);
    assert(spec_d->Object_0 =~= md);
    let r = JsonValue::Object(ms);
    assert(json_data(r) == JsonData::Object(md));
    r
}

/// The log line of a compaction record, as serde_json writes it.
pub fn compaction_log_entry(
    content: &str,
    workspace_snapshot: Option<&str>,
    environment_context: &str,
    timestamp: &str,
) -> (r: String)
    ensures
        r@ == json_text(
            compaction_record_data(
                content@,
                match workspace_snapshot {
                    Some(w) => Some(w@),
                    None => None,
                },
                environment_context@,
                timestamp@,
            ),
        ),
{
    let record = compaction_record(content, workspace_snapshot, environment_context, timestamp);
    json_to_string(&record)
}

/// A message with a role and a content.
pub open spec fn message_data(role: Seq<char>, content: JsonData) -> JsonData {
    JsonData::Object(seq![("role"@, JsonData::Str(role)), ("content"@, content)])
}

pub fn message_value(role: &str, content: &str) -> (r: JsonValue)
    ensures
        json_data(r) == message_data(role@, JsonData::Str(content@)),
{
    let mut ms: Vec<(String, JsonValue)> = Vec::new();
    ms.push(("role".to_string(), JsonValue::Str(role.to_string())));
    ms.push(("content".to_string(), JsonValue::Str(content.to_string())));
    proof {
        lemma_object_data(ms@);
        assert(object_data(ms@) =~= seq![("role"@, JsonData::Str(role@)), ("content"@, JsonData::Str(content@))]);
    }
    JsonValue::Object(ms)
}

/// The messages a checkpoint record restarts the context with: its content
/// as the user's, the planning objective when planning is on and it is not
/// blank, then the workspace snapshot and the environment as the runtime's
/// own context (`context_role`).
pub open spec fn checkpoint_messages(v: JsonData, objective: Option<Seq<char>>, context_role: Seq<char>) -> Seq<JsonData> {
    let content = match member_text(v, "content"@) {
        Some(c) => seq![message_data("user"@, JsonData::Str(c))],
        None => Seq::empty(),
    };
    let goal = match objective {
        Some(o) => if trim_ws(o).len() > 0 {
            seq![message_data("user"@, JsonData::Str(planning_objective_text(o)))]
        } else {
            Seq::empty()
        },
        None => Seq::empty(),
    };
    let snapshot = match member_text(v, "workspace_snapshot"@) {
        Some(w) => seq![message_data(context_role, JsonData::Str(w))],
        None => Seq::empty(),
    };
    let environment = match member_text(v, "environment_context"@) {
        Some(e) => seq![message_data(context_role, JsonData::Str(e))],
        None => Seq::empty(),
    };
    content + goal + snapshot + environment
}

fn push_message(out: &mut Vec<JsonValue>, m: JsonValue)
    ensures
        array_data(final(out)@) == array_data(old(out)@).push(json_data(m)),
{
    let ghost before = out@;
    out.push(m);
    proof {
        lemma_array_data(before);
        lemma_array_data(out@);
        assert(array_data(out@) =~= array_data(before).push(json_data(m)));
    }
}

/// The messages a checkpoint record restarts the context with, given the
/// planning objective block when planning is on.
pub fn context_compaction_messages(value: &JsonValue, planning_objective: Option<&str>, context_role: &str) -> (r: Vec<JsonValue>)
    ensures
        array_data(r@) == checkpoint_messages(
            json_data(*value),
            match planning_objective {
                Some(o) => Some(o@),
                None => None,
            },
            context_role@,
        ),
{
    let mut out: Vec<JsonValue> = Vec::new();
    proof {
        lemma_array_data(out@);
    }
    match json_member_str(value, "content") {
        Some(c) => push_message(&mut out, message_value("user", c)),
        None => {},
    }
    match planning_objective {
        Some(o) => {
            if trim(&chars_of(o)).len() > 0 {
                let text = planning_objective_context(o);
                push_message(&mut out, message_value("user", text.as_str()));
            }
        },
        None => {},
    }
    match json_member_str(value, "workspace_snapshot") {
        Some(w) => push_message(&mut out, message_value(context_role, w)),
        None => {},
    }
    match json_member_str(value, "environment_context") {
        Some(e) => push_message(&mut out, message_value(context_role, e)),
        None => {},
    }
    proof {
        let v = json_data(*value);
        let o = match planning_objective {
            Some(o) => Some(o@),
            None => None,
        };
        assert(array_data(out@) =~= checkpoint_messages(v, o, context_role@));
    }
    out
}

} // verus!
