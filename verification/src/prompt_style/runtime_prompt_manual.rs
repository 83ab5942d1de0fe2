//! Runtime prompt manuals: operation manuals selected by task type, with the
//! task types that each manual builds on ("fathers").
use vstd::prelude::*;
use crate::chars::{eq_str, trim, trim_ws, views};

use crate::json::{json_data, json_member_str, member_text, parse_json, parsed_json, JsonData, JsonValue};
use crate::text::{chars_of, join, join_chars, push_str, string_of};

verus! {

pub const RUNTIME_PROMPT_MANUAL_RECORD_TYPE: &'static str = "runtime_prompt_manual";

pub const RUNTIME_PROMPT_COMMAND_RUN_CAPABILITY_RECORD_TYPE: &'static str =
    "runtime_prompt_command_run_capabilities";

/// An operation manual: its task-type id, display name, description, the
/// task types it builds on, the command_run capabilities it adds, and its
/// prompt text.
#[derive(Debug, Clone, PartialEq, Eq)]
pub struct RuntimePromptManual {
    pub id: String,
    pub display_name: String,
    pub description: String,
    pub father_ids: Vec<String>,
    pub capabilities: Vec<String>,
    pub prompt: String,
}

/// A manual as plain text: (id, display name, description, father ids,
/// capabilities, prompt).
pub type ManualView = (Seq<char>, Seq<char>, Seq<char>, Seq<Seq<char>>, Seq<Seq<char>>, Seq<char>);

pub open spec fn string_views(v: Seq<String>) -> Seq<Seq<char>> {
    v.map_values(|s: String| s@)
}

pub open spec fn manual_view(m: RuntimePromptManual) -> ManualView {
    (
        m.id@,
        m.display_name@,
        m.description@,
        string_views(m.father_ids@),
        string_views(m.capabilities@),
        m.prompt@,
    )
}

pub open spec fn manual_views(manuals: Seq<RuntimePromptManual>) -> Seq<ManualView> {
    manuals.map_values(|m: RuntimePromptManual| manual_view(m))
}

/// The built-in manuals, sorted by id. Their prompt texts are not part of
/// this crate and are empty here.
pub open spec fn static_manual_table() -> Seq<ManualView> {
    seq![
        ("creative_and_writing"@, "Creative and Writing Operation Manual"@, "Use for creative writing, rewriting, editing, voice matching, narrative development, naming, messaging, and polished long-form or short-form prose."@, Seq::empty(), Seq::empty(), Seq::empty()),
        ("data_visualization"@, "Data Visualization Operation Manual"@, "Use for charts, dashboards, exploratory visual analysis, data storytelling, chart redesigns, and interactive or static data visualization deliverables."@, seq!["visual"@, "new_build"@], Seq::empty(), Seq::empty()),
        ("debug"@, "Debug Operation Manual"@, "Use for tasks that require reproducing a concrete failure."@, Seq::empty(), seq!["shells"@], Seq::empty()),
        ("frontend"@, "Frontend Operation Manual"@, "Use for frontend, webpage, application UI, PDF, or PPT tasks where the main work is user experience structure, interface behavior, and domain-appropriate design."@, seq!["visual"@], seq!["apply_patch"@, "shells"@, "read_media"@], Seq::empty()),
        ("interactive_and_3d"@, "Interactive and 3D Operation Manual"@, "Use for games, simulations, WebGL/WebGPU, Three.js, shader effects, interactive visual systems, and polished browser-based 3D scenes."@, seq!["frontend"@], seq!["generate_media"@, "read_media"@], Seq::empty()),
        ("new_build"@, "New Build Operation Manual"@, "Use for new frontend, backend, or full-stack implementation tasks that need established libraries, clear module contracts, typed boundaries, and production-minded defaults."@, Seq::empty(), seq!["apply_patch"@, "shells"@], Seq::empty()),
        ("refactoring"@, "Source Porting Operation Manual"@, "Use for rebuild, refactor, or compatibility tasks where CLI/API behavior must be inventoried and verified against an official binary or code base."@, Seq::empty(), seq!["apply_patch"@, "shells"@], Seq::empty()),
        ("research_and_learning"@, "Research and Learning Operation Manual"@, "Use for research synthesis, source-grounded explanations, study plans, concept teaching, literature or document review, and learning-oriented analysis."@, Seq::empty(), Seq::empty(), Seq::empty()),
        ("visual"@, "Visual Operation Manual"@, "Use for visual design, frontend, media research, visual asset preparation, static HTML-to-PDF/PPT workflows, page redesigns, and reference-driven visual verification."@, Seq::empty(), seq!["web_discover"@, "generate_media"@, "read_media"@], Seq::empty()),
    ]
}

fn names0() -> (r: Vec<String>)
    ensures
        string_views(r@) == Seq::<Seq<char>>::empty(),
{
    let r: Vec<String> = Vec::new();
    assert(string_views(r@) =~= Seq::<Seq<char>>::empty());
    r
}

fn names1(a: &str) -> (r: Vec<String>)
    ensures
        string_views(r@) == seq![a@],
{
    let mut r: Vec<String> = Vec::new();
    r.push(a.to_owned());
    assert(string_views(r@) =~= seq![a@]);
    r
}

fn names2(a: &str, b: &str) -> (r: Vec<String>)
    ensures
        string_views(r@) == seq![a@, b@],
{
    let mut r: Vec<String> = Vec::new();
    r.push(a.to_owned());
    r.push(b.to_owned());
    assert(string_views(r@) =~= seq![a@, b@]);
    r
}

fn names3(a: &str, b: &str, c: &str) -> (r: Vec<String>)
    ensures
        string_views(r@) == seq![a@, b@, c@],
{
    let mut r: Vec<String> = Vec::new();
    r.push(a.to_owned());
    r.push(b.to_owned());
    r.push(c.to_owned());
    assert(string_views(r@) =~= seq![a@, b@, c@]);
    r
}

fn static_manual(
    id: &str,
    display_name: &str,
    description: &str,
    father_ids: Vec<String>,
    capabilities: Vec<String>,
) -> (m: RuntimePromptManual)
    ensures
        manual_view(m) == (
            id@,
            display_name@,
            description@,
            string_views(father_ids@),
            string_views(capabilities@),
            Seq::<char>::empty(),
        ),
{
    RuntimePromptManual {
        id: id.to_owned(),
        display_name: display_name.to_owned(),
        description: description.to_owned(),
        father_ids,
        capabilities,
        prompt: String::new(),
    }
}

pub fn static_manuals() -> (r: Vec<RuntimePromptManual>)
    ensures
        manual_views(r@) == static_manual_table(),
{
    let mut out: Vec<RuntimePromptManual> = Vec::new();
    out.push(static_manual("creative_and_writing", "Creative and Writing Operation Manual", "Use for creative writing, rewriting, editing, voice matching, narrative development, naming, messaging, and polished long-form or short-form prose.", names0(), names0()));
    out.push(static_manual("data_visualization", "Data Visualization Operation Manual", "Use for charts, dashboards, exploratory visual analysis, data storytelling, chart redesigns, and interactive or static data visualization deliverables.", names2("visual", "new_build"), names0()));
    out.push(static_manual("debug", "Debug Operation Manual", "Use for tasks that require reproducing a concrete failure.", names0(), names1("shells")));
    out.push(static_manual("frontend", "Frontend Operation Manual", "Use for frontend, webpage, application UI, PDF, or PPT tasks where the main work is user experience structure, interface behavior, and domain-appropriate design.", names1("visual"), names3("apply_patch", "shells", "read_media")));
    out.push(static_manual("interactive_and_3d", "Interactive and 3D Operation Manual", "Use for games, simulations, WebGL/WebGPU, Three.js, shader effects, interactive visual systems, and polished browser-based 3D scenes.", names1("frontend"), names2("generate_media", "read_media")));
    out.push(static_manual("new_build", "New Build Operation Manual", "Use for new frontend, backend, or full-stack implementation tasks that need established libraries, clear module contracts, typed boundaries, and production-minded defaults.", names0(), names2("apply_patch", "shells")));
    out.push(static_manual("refactoring", "Source Porting Operation Manual", "Use for rebuild, refactor, or compatibility tasks where CLI/API behavior must be inventoried and verified against an official binary or code base.", names0(), names2("apply_patch", "shells")));
    out.push(static_manual("research_and_learning", "Research and Learning Operation Manual", "Use for research synthesis, source-grounded explanations, study plans, concept teaching, literature or document review, and learning-oriented analysis.", names0(), names0()));
    out.push(static_manual("visual", "Visual Operation Manual", "Use for visual design, frontend, media research, visual asset preparation, static HTML-to-PDF/PPT workflows, page redesigns, and reference-driven visual verification.", names0(), names3("web_discover", "generate_media", "read_media")));
    assert(manual_views(out@) =~= static_manual_table());
    out
}


/// The ids of `manuals`, in order.
pub open spec fn manual_ids(manuals: Seq<ManualView>) -> Seq<Seq<char>> {
    manuals.map_values(|m: ManualView| m.0)
}

/// The manual that `id` names: the last one with that id, as a map keyed by
/// id keeps the last entry it is given.
pub open spec fn manual_index(manuals: Seq<ManualView>, id: Seq<char>) -> Option<int>
    decreases manuals.len(),
{
    if manuals.len() == 0 {
        None
    } else if manuals.last().0 == id {
        Some(manuals.len() - 1)
    } else {
        manual_index(manuals.drop_last(), id)
    }
}

pub proof fn lemma_manual_index(manuals: Seq<ManualView>, id: Seq<char>)
    ensures
        match manual_index(manuals, id) {
            Some(i) => 0 <= i < manuals.len() && manuals[i].0 == id && manual_ids(manuals)[i] == id
                && (forall|j: int| i < j < manuals.len() ==> manuals[j].0 != id),
            None => forall|j: int| 0 <= j < manuals.len() ==> manuals[j].0 != id,
        },
        manual_index(manuals, id) is Some <==> manual_ids(manuals).contains(id),
    decreases manuals.len(),
{
    if manuals.len() > 0 {
        lemma_manual_index(manuals.drop_last(), id);
        let ids = manual_ids(manuals);
        assert(manual_ids(manuals.drop_last()) =~= ids.drop_last());
        if manuals.last().0 == id {
            assert(ids[manuals.len() - 1] == id);
        } else {
            match manual_index(manuals.drop_last(), id) {
                Some(i) => {
                    assert(manuals.drop_last()[i] == manuals[i]);
                    assert(ids[i] == id);
                    assert forall|j: int| i < j < manuals.len() implies manuals[j].0 != id by {
                        if j < manuals.len() - 1 {
                            assert(manuals.drop_last()[j] == manuals[j]);
                        }
                    }
                },
                None => {
                    assert forall|j: int| 0 <= j < manuals.len() implies manuals[j].0 != id by {
                        if j < manuals.len() - 1 {
                            assert(manuals.drop_last()[j] == manuals[j]);
                        }
                    }
                    if ids.contains(id) {
                        let j = choose|j: int| 0 <= j < ids.len() && ids[j] == id;
                        assert(manuals[j].0 == id);
                        if j < manuals.len() - 1 {
                            assert(manuals.drop_last()[j].0 == id);
                        }
                    }
                },
            }
        }
    }
}

/// How many entries of `ids` are not yet in `visiting`: the measure that
/// bounds how deep the expansion of father task types can go.
pub open spec fn unvisited(ids: Seq<Seq<char>>, visiting: Seq<Seq<char>>) -> nat
    decreases ids.len(),
{
    if ids.len() == 0 {
        0
    } else {
        unvisited(ids.drop_last(), visiting) + if visiting.contains(ids.last()) {
            0nat
        } else {
            1nat
        }
    }
}

pub proof fn lemma_unvisited_push(ids: Seq<Seq<char>>, visiting: Seq<Seq<char>>, x: Seq<char>)
    ensures
        unvisited(ids, visiting.push(x)) <= unvisited(ids, visiting),
        ids.contains(x) && !visiting.contains(x) ==> unvisited(ids, visiting.push(x))
            < unvisited(ids, visiting),
    decreases ids.len(),
{
    if ids.len() > 0 {
        lemma_unvisited_push(ids.drop_last(), visiting, x);
        let y = ids.last();
        if visiting.contains(y) {
            let k = choose|k: int| 0 <= k < visiting.len() && visiting[k] == y;
            assert(visiting.push(x)[k] == y);
        }
        if y == x {
            assert(visiting.push(x)[visiting.len() as int] == x);
        }
        if ids.contains(x) && !visiting.contains(x) && y != x {
            let k = choose|k: int| 0 <= k < ids.len() && ids[k] == x;
            assert(ids.drop_last()[k] == x);
        }
    }
}

/// The task types that `id` expands to, appended to `out`: the known fathers
/// of `id` first, each expanded the same way, then `id` itself, each id at
/// most once. An unknown id adds nothing; an id met again on its own father
/// chain (a cycle) is not expanded a second time.
pub open spec fn expand_id(
    manuals: Seq<ManualView>,
    id: Seq<char>,
    visiting: Seq<Seq<char>>,
    out: Seq<Seq<char>>,
) -> Seq<Seq<char>>
    decreases unvisited(manual_ids(manuals), visiting), 0int, 0int,
{
    match manual_index(manuals, id) {
        None => out,
        Some(i) => {
            if visiting.contains(id) {
                out
            } else {
                proof {
                    lemma_manual_index(manuals, id);
                    lemma_unvisited_push(manual_ids(manuals), visiting, id);
                }
                let after = expand_fathers(manuals, manuals[i].3, 0, visiting.push(id), out);
                if after.contains(id) {
                    after
                } else {
                    after.push(id)
                }
            }
        },
    }
}

/// `expand_id` applied to `fathers[k..]` in order.
pub open spec fn expand_fathers(
    manuals: Seq<ManualView>,
    fathers: Seq<Seq<char>>,
    k: nat,
    visiting: Seq<Seq<char>>,
    out: Seq<Seq<char>>,
) -> Seq<Seq<char>>
    decreases unvisited(manual_ids(manuals), visiting), 1int, fathers.len() - k,
{
    if k >= fathers.len() {
        out
    } else {
        expand_fathers(
            manuals,
            fathers,
            k + 1,
            visiting,
            expand_id(manuals, fathers[k as int], visiting, out),
        )
    }
}

/// The requested ids `ids[k..]`, trimmed, blank ones skipped, each expanded
/// with its fathers, appended to `out`.
pub open spec fn normalize_from(
    manuals: Seq<ManualView>,
    ids: Seq<Seq<char>>,
    k: nat,
    out: Seq<Seq<char>>,
) -> Seq<Seq<char>>
    decreases ids.len() - k,
{
    if k >= ids.len() {
        out
    } else {
        let id = trim_ws(ids[k as int]);
        normalize_from(
            manuals,
            ids,
            k + 1,
            if id.len() == 0 {
                out
            } else {
                expand_id(manuals, id, Seq::empty(), out)
            },
        )
    }
}

/// The normalized task types of the requested `ids` against `manuals`.
pub open spec fn normalized_task_types(manuals: Seq<ManualView>, ids: Seq<Seq<char>>) -> Seq<
    Seq<char>,
> {
    normalize_from(manuals, ids, 0, Seq::empty())
}


/// The views of a list of requested ids.
pub open spec fn str_views(ids: Seq<&str>) -> Seq<Seq<char>> {
    ids.map_values(|s: &str| s@)
}

/// Position of the manual that `id` names.
fn find_manual(manuals: &Vec<RuntimePromptManual>, id: &String) -> (r: Option<usize>)
    ensures
        match r {
            Some(i) => manual_index(manual_views(manuals@), id@) == Some(i as int),
            None => manual_index(manual_views(manuals@), id@) is None,
        },
{
    let ghost mv = manual_views(manuals@);
    let mut i: usize = manuals.len();
    assert(mv.take(i as int) =~= mv);
    while i > 0
        invariant
            i <= manuals.len(),
            mv == manual_views(manuals@),
            manual_index(mv.take(i as int), id@) == manual_index(mv, id@),
        decreases i,
    {
        assert(mv.take(i as int).drop_last() =~= mv.take(i - 1));
        if manuals[i - 1].id == *id {
            return Some(i - 1);
        }
        i = i - 1;
    }
    None
}

/// Whether `s` is one of `v`.
fn contains_string(v: &Vec<String>, s: &String) -> (b: bool)
    ensures
        b == string_views(v@).contains(s@),
{
    let mut i: usize = 0;
    while i < v.len()
        invariant
            i <= v.len(),
            forall|j: int| 0 <= j < i ==> v@[j]@ != s@,
        decreases v.len() - i,
    {
        if v[i] == *s {
            assert(string_views(v@)[i as int] == s@);
            return true;
        }
        i = i + 1;
    }
    assert forall|j: int| 0 <= j < string_views(v@).len() implies string_views(v@)[j] != s@ by {
        assert(string_views(v@)[j] == v@[j]@);
    }
    false
}

/// Appends `id` to `out` after its father task types, each expanded the same
/// way, skipping ids already in `out`; `visiting` holds the ids whose fathers
/// are being expanded, so that a cycle stops.
fn append_task_type_with_fathers(
    id: &String,
    manuals: &Vec<RuntimePromptManual>,
    out: &mut Vec<String>,
    visiting: &mut Vec<String>,
)
    ensures
        string_views(final(out)@) == expand_id(
            manual_views(manuals@),
            id@,
            string_views(old(visiting)@),
            string_views(old(out)@),
        ),
        final(visiting)@ == old(visiting)@,
    decreases unvisited(manual_ids(manual_views(manuals@)), string_views(old(visiting)@)), 0int,
        0int,
{
    let ghost mv = manual_views(manuals@);
    let ghost vis0 = string_views(visiting@);
    let ghost out0 = string_views(out@);
    let found = find_manual(manuals, id);
    let i = match found {
        None => {
            return;
        },
        Some(i) => i,
    };
    if contains_string(visiting, id) {
        return;
    }
    proof {
        lemma_manual_index(mv, id@);
        lemma_unvisited_push(manual_ids(mv), vis0, id@);
    }
    let ghost vis1 = vis0.push(id@);
    visiting.push(id.clone());
    assert(string_views(visiting@) =~= vis1);
    let ghost pushed = visiting@;
    assert(pushed.drop_last() =~= old(visiting)@);
    let fathers = &manuals[i].father_ids;
    let ghost fs = string_views(fathers@);
    assert(fs == mv[i as int].3);
    let mut k: usize = 0;
    while k < fathers.len()
        invariant
            k <= fathers.len(),
            mv == manual_views(manuals@),
            fs == string_views(fathers@),
            string_views(visiting@) == vis1,
            visiting@ == pushed,
            pushed.drop_last() == old(visiting)@,
            pushed.len() == old(visiting)@.len() + 1,
            unvisited(manual_ids(mv), vis1) < unvisited(manual_ids(mv), string_views(old(visiting)@)),
            expand_fathers(mv, fs, k as nat, vis1, string_views(out@)) == expand_fathers(
                mv,
                fs,
                0,
                vis1,
                out0,
            ),
        decreases fathers.len() - k,
    {
        append_task_type_with_fathers(&fathers[k], manuals, out, visiting);
        k = k + 1;
    }
    visiting.pop();
    assert(visiting@ =~= old(visiting)@);
    if !contains_string(out, id) {
        out.push(id.clone());
        assert(string_views(out@) =~= expand_fathers(mv, fs, 0, vis1, out0).push(id@));
    }
}

/// The requested task types with their father task types, against `manuals`:
/// each id trimmed, blank ones skipped, unknown ones dropped, fathers before
/// the task types that build on them, each id once.
pub fn normalize_task_type_ids_in(manuals: &Vec<RuntimePromptManual>, ids: &[&str]) -> (r: Vec<
    String,
>)
    ensures
        string_views(r@) == normalized_task_types(manual_views(manuals@), str_views(ids@)),
{
    let ghost mv = manual_views(manuals@);
    let ghost iv = str_views(ids@);
    let mut out: Vec<String> = Vec::new();
    let mut k: usize = 0;
    assert(string_views(out@) =~= Seq::<Seq<char>>::empty());
    while k < ids.len()
        invariant
            k <= ids.len(),
            mv == manual_views(manuals@),
            iv == str_views(ids@),
            normalize_from(mv, iv, k as nat, string_views(out@)) == normalized_task_types(mv, iv),
        decreases ids.len() - k,
    {
        let raw = chars_of(ids[k]);
        let id_chars = trim(&raw);
        assert(id_chars@ == trim_ws(iv[k as int]));
        if id_chars.len() > 0 {
            let id = string_of(&id_chars);
            let mut visiting: Vec<String> = Vec::new();
            assert(string_views(visiting@) =~= Seq::<Seq<char>>::empty());
            append_task_type_with_fathers(&id, manuals, &mut out, &mut visiting);
        }
        k = k + 1;
    }
    out
}


/// Every entry of `out` is the id of one of `manuals`.
pub open spec fn all_known(manuals: Seq<ManualView>, out: Seq<Seq<char>>) -> bool {
    forall|p: int| 0 <= p < out.len() ==> manual_ids(manuals).contains(#[trigger] out[p])
}

/// `r` is `out` with entries appended.
pub open spec fn extends(out: Seq<Seq<char>>, r: Seq<Seq<char>>) -> bool {
    out.len() <= r.len() && r.subrange(0, out.len() as int) == out
}

proof fn lemma_extends_contains(out: Seq<Seq<char>>, r: Seq<Seq<char>>, x: Seq<char>)
    requires
        extends(out, r),
        out.contains(x),
    ensures
        r.contains(x),
{
    let q = choose|q: int| 0 <= q < out.len() && out[q] == x;
    assert(r.subrange(0, out.len() as int)[q] == r[q]);
}

proof fn lemma_extends_trans(a: Seq<Seq<char>>, b: Seq<Seq<char>>, c: Seq<Seq<char>>)
    requires
        extends(a, b),
        extends(b, c),
    ensures
        extends(a, c),
{
    assert(c.subrange(0, a.len() as int) =~= c.subrange(0, b.len() as int).subrange(0, a.len() as int));
}

proof fn lemma_expand_id_shape(
    manuals: Seq<ManualView>,
    id: Seq<char>,
    visiting: Seq<Seq<char>>,
    out: Seq<Seq<char>>,
)
    requires
        out.no_duplicates(),
        all_known(manuals, out),
    ensures
        expand_id(manuals, id, visiting, out).no_duplicates(),
        all_known(manuals, expand_id(manuals, id, visiting, out)),
        extends(out, expand_id(manuals, id, visiting, out)),
        manual_ids(manuals).contains(id) && !visiting.contains(id) ==> expand_id(
            manuals,
            id,
            visiting,
            out,
        ).contains(id),
    decreases unvisited(manual_ids(manuals), visiting), 0int, 0int,
{
    lemma_manual_index(manuals, id);
    assert(out.subrange(0, out.len() as int) =~= out);
    match manual_index(manuals, id) {
        None => {},
        Some(i) => {
            if !visiting.contains(id) {
                lemma_unvisited_push(manual_ids(manuals), visiting, id);
                let vis1 = visiting.push(id);
                lemma_expand_fathers_shape(manuals, manuals[i].3, 0, vis1, out);
                let after = expand_fathers(manuals, manuals[i].3, 0, vis1, out);
                if !after.contains(id) {
                    let r = after.push(id);
                    assert(r[after.len() as int] == id);
                    assert(r.subrange(0, out.len() as int) =~= after.subrange(0, out.len() as int));
                    assert forall|p: int, q: int| 0 <= p < r.len() && 0 <= q < r.len() && p != q
                        implies r[p] != r[q] by {
                        if p < after.len() && q < after.len() {
                        } else if p < after.len() {
                            assert(after[p] == r[p]);
                        } else {
                            assert(after[q] == r[q]);
                        }
                    }
                    assert forall|p: int| 0 <= p < r.len() implies manual_ids(manuals).contains(
                        #[trigger] r[p],
                    ) by {
                        if p < after.len() {
                            assert(after[p] == r[p]);
                        }
                    }
                }
            }
        },
    }
}

proof fn lemma_expand_fathers_shape(
    manuals: Seq<ManualView>,
    fathers: Seq<Seq<char>>,
    k: nat,
    visiting: Seq<Seq<char>>,
    out: Seq<Seq<char>>,
)
    requires
        out.no_duplicates(),
        all_known(manuals, out),
    ensures
        expand_fathers(manuals, fathers, k, visiting, out).no_duplicates(),
        all_known(manuals, expand_fathers(manuals, fathers, k, visiting, out)),
        extends(out, expand_fathers(manuals, fathers, k, visiting, out)),
    decreases unvisited(manual_ids(manuals), visiting), 1int, fathers.len() - k,
{
    assert(out.subrange(0, out.len() as int) =~= out);
    if k < fathers.len() {
        lemma_expand_id_shape(manuals, fathers[k as int], visiting, out);
        let mid = expand_id(manuals, fathers[k as int], visiting, out);
        lemma_expand_fathers_shape(manuals, fathers, k + 1, visiting, mid);
        lemma_extends_trans(out, mid, expand_fathers(manuals, fathers, k + 1, visiting, mid));
    }
}


/// The father ids of the manual that `id` names (none for an unknown id).
pub open spec fn fathers_of(manuals: Seq<ManualView>, id: Seq<char>) -> Seq<Seq<char>> {
    match manual_index(manuals, id) {
        Some(i) => manuals[i].3,
        None => Seq::empty(),
    }
}

/// `rank` strictly decreases from each manual to each of its known fathers:
/// the father relation has no cycle.
pub open spec fn fathers_ranked(manuals: Seq<ManualView>, rank: spec_fn(Seq<char>) -> int) -> bool {
    forall|id: Seq<char>, j: int|
        manual_ids(manuals).contains(id) && 0 <= j < fathers_of(manuals, id).len()
            && manual_ids(manuals).contains(#[trigger] fathers_of(manuals, id)[j]) ==> rank(
            fathers_of(manuals, id)[j],
        ) < rank(id)
}

/// Each known father of each entry of `out` stands earlier in `out`.
pub open spec fn fathers_first(manuals: Seq<ManualView>, out: Seq<Seq<char>>) -> bool {
    forall|p: int, j: int|
        0 <= p < out.len() && 0 <= j < fathers_of(manuals, out[p]).len() && manual_ids(
            manuals,
        ).contains(#[trigger] fathers_of(manuals, out[p])[j]) ==> out.take(p).contains(
            fathers_of(manuals, out[p])[j],
        )
}

proof fn lemma_expand_id_order(
    manuals: Seq<ManualView>,
    rank: spec_fn(Seq<char>) -> int,
    id: Seq<char>,
    visiting: Seq<Seq<char>>,
    out: Seq<Seq<char>>,
)
    requires
        out.no_duplicates(),
        all_known(manuals, out),
        fathers_ranked(manuals, rank),
        fathers_first(manuals, out),
        manual_ids(manuals).contains(id) ==> forall|v: Seq<char>|
            visiting.contains(v) ==> rank(id) < rank(v),
    ensures
        fathers_first(manuals, expand_id(manuals, id, visiting, out)),
    decreases unvisited(manual_ids(manuals), visiting), 0int, 0int,
{
    lemma_manual_index(manuals, id);
    match manual_index(manuals, id) {
        None => {},
        Some(i) => {
            if !visiting.contains(id) {
                lemma_unvisited_push(manual_ids(manuals), visiting, id);
                let vis1 = visiting.push(id);
                let fs = manuals[i].3;
                assert(fs == fathers_of(manuals, id));
                assert forall|j: int|
                    0 <= j < fs.len() && manual_ids(manuals).contains(#[trigger] fs[j]) implies (
                    forall|v: Seq<char>| vis1.contains(v) ==> rank(fs[j]) < rank(v)) by {
                    assert(rank(fs[j]) < rank(id));
                    assert forall|v: Seq<char>| vis1.contains(v) implies rank(fs[j]) < rank(v) by {
                        let q = choose|q: int| 0 <= q < vis1.len() && vis1[q] == v;
                        if q < visiting.len() {
                            assert(visiting[q] == v);
                            assert(visiting.contains(v));
                        }
                    }
                }
                lemma_expand_fathers_order(manuals, rank, fs, 0, vis1, out);
                lemma_expand_fathers_shape(manuals, fs, 0, vis1, out);
                let after = expand_fathers(manuals, fs, 0, vis1, out);
                if !after.contains(id) {
                    let r = after.push(id);
                    assert forall|p: int, j: int|
                        0 <= p < r.len() && 0 <= j < fathers_of(manuals, r[p]).len()
                            && manual_ids(manuals).contains(
                            #[trigger] fathers_of(manuals, r[p])[j],
                        ) implies r.take(p).contains(fathers_of(manuals, r[p])[j]) by {
                        if p < after.len() {
                            assert(r[p] == after[p]);
                            assert(r.take(p) =~= after.take(p));
                        } else {
                            assert(r[p] == id);
                            assert(r.take(p) =~= after);
                        }
                    }
                }
            }
        },
    }
}

proof fn lemma_expand_fathers_order(
    manuals: Seq<ManualView>,
    rank: spec_fn(Seq<char>) -> int,
    fathers: Seq<Seq<char>>,
    k: nat,
    visiting: Seq<Seq<char>>,
    out: Seq<Seq<char>>,
)
    requires
        out.no_duplicates(),
        all_known(manuals, out),
        fathers_ranked(manuals, rank),
        fathers_first(manuals, out),
        forall|j: int|
            k <= j < fathers.len() && manual_ids(manuals).contains(#[trigger] fathers[j]) ==> (
            forall|v: Seq<char>| visiting.contains(v) ==> rank(fathers[j]) < rank(v)),
    ensures
        fathers_first(manuals, expand_fathers(manuals, fathers, k, visiting, out)),
        forall|j: int|
            k <= j < fathers.len() && manual_ids(manuals).contains(#[trigger] fathers[j])
                ==> expand_fathers(manuals, fathers, k, visiting, out).contains(fathers[j]),
    decreases unvisited(manual_ids(manuals), visiting), 1int, fathers.len() - k,
{
    if k < fathers.len() {
        let f = fathers[k as int];
        lemma_expand_id_order(manuals, rank, f, visiting, out);
        lemma_expand_id_shape(manuals, f, visiting, out);
        let mid = expand_id(manuals, f, visiting, out);
        lemma_expand_fathers_order(manuals, rank, fathers, k + 1, visiting, mid);
        lemma_expand_fathers_shape(manuals, fathers, k + 1, visiting, mid);
        let r = expand_fathers(manuals, fathers, k + 1, visiting, mid);
        if manual_ids(manuals).contains(f) {
            if visiting.contains(f) {
                assert(rank(f) < rank(f));
            }
            lemma_extends_contains(mid, r, f);
        }
    }
}


proof fn lemma_normalize_from(
    manuals: Seq<ManualView>,
    ids: Seq<Seq<char>>,
    k: nat,
    out: Seq<Seq<char>>,
)
    requires
        out.no_duplicates(),
        all_known(manuals, out),
    ensures
        normalize_from(manuals, ids, k, out).no_duplicates(),
        all_known(manuals, normalize_from(manuals, ids, k, out)),
        extends(out, normalize_from(manuals, ids, k, out)),
        forall|j: int|
            k <= j < ids.len() && trim_ws(#[trigger] ids[j]).len() > 0 && manual_ids(
                manuals,
            ).contains(trim_ws(ids[j])) ==> normalize_from(manuals, ids, k, out).contains(
                trim_ws(ids[j]),
            ),
    decreases ids.len() - k,
{
    assert(out.subrange(0, out.len() as int) =~= out);
    if k < ids.len() {
        let id = trim_ws(ids[k as int]);
        let next = if id.len() == 0 {
            out
        } else {
            expand_id(manuals, id, Seq::empty(), out)
        };
        if id.len() > 0 {
            lemma_expand_id_shape(manuals, id, Seq::empty(), out);
        }
        lemma_normalize_from(manuals, ids, k + 1, next);
        let r = normalize_from(manuals, ids, k + 1, next);
        lemma_extends_trans(out, next, r);
        if id.len() > 0 && manual_ids(manuals).contains(id) {
            lemma_extends_contains(next, r, id);
        }
    }
}

proof fn lemma_normalize_from_order(
    manuals: Seq<ManualView>,
    rank: spec_fn(Seq<char>) -> int,
    ids: Seq<Seq<char>>,
    k: nat,
    out: Seq<Seq<char>>,
)
    requires
        out.no_duplicates(),
        all_known(manuals, out),
        fathers_ranked(manuals, rank),
        fathers_first(manuals, out),
    ensures
        fathers_first(manuals, normalize_from(manuals, ids, k, out)),
    decreases ids.len() - k,
{
    if k < ids.len() {
        let id = trim_ws(ids[k as int]);
        let next = if id.len() == 0 {
            out
        } else {
            expand_id(manuals, id, Seq::empty(), out)
        };
        if id.len() > 0 {
            lemma_expand_id_shape(manuals, id, Seq::empty(), out);
            lemma_expand_id_order(manuals, rank, id, Seq::empty(), out);
        }
        lemma_normalize_from_order(manuals, rank, ids, k + 1, next);
    }
}

/// Normalized task types hold each id at most once, and only ids of known
/// manuals.
pub proof fn law_normalized_task_types_unique_and_known(
    manuals: Seq<ManualView>,
    ids: Seq<Seq<char>>,
)
    ensures
        normalized_task_types(manuals, ids).no_duplicates(),
        forall|p: int|
            0 <= p < normalized_task_types(manuals, ids).len() ==> manual_ids(manuals).contains(
                #[trigger] normalized_task_types(manuals, ids)[p],
            ),
{
    lemma_normalize_from(manuals, ids, 0, Seq::empty());
}

/// Every requested id that, trimmed, is not blank and names a known manual
/// is among the normalized task types.
pub proof fn law_normalized_task_types_keep_requested(
    manuals: Seq<ManualView>,
    ids: Seq<Seq<char>>,
    k: int,
)
    requires
        0 <= k < ids.len(),
        trim_ws(ids[k]).len() > 0,
        manual_ids(manuals).contains(trim_ws(ids[k])),
    ensures
        normalized_task_types(manuals, ids).contains(trim_ws(ids[k])),
{
    lemma_normalize_from(manuals, ids, 0, Seq::empty());
}

/// Where the father relation has no cycle (some rank decreases from each
/// manual to each of its known fathers), each known father of a normalized
/// task type comes before it.
pub proof fn law_normalized_task_types_fathers_first(
    manuals: Seq<ManualView>,
    ids: Seq<Seq<char>>,
    rank: spec_fn(Seq<char>) -> int,
)
    requires
        fathers_ranked(manuals, rank),
    ensures
        fathers_first(manuals, normalized_task_types(manuals, ids)),
{
    lemma_normalize_from_order(manuals, rank, ids, 0, Seq::empty());
}


/// Every entry of `out` names a known manual, and every known father of an
/// entry is in `out` too.
pub open spec fn closed_under_fathers(manuals: Seq<ManualView>, out: Seq<Seq<char>>) -> bool {
    &&& all_known(manuals, out)
    &&& forall|p: int, j: int|
        0 <= p < out.len() && 0 <= j < fathers_of(manuals, out[p]).len() && manual_ids(manuals).contains(
            #[trigger] fathers_of(manuals, out[p])[j],
        ) ==> out.contains(fathers_of(manuals, out[p])[j])
}

/// Whether every known father of `id` is in `out`.
pub open spec fn fathers_in(manuals: Seq<ManualView>, id: Seq<char>, out: Seq<Seq<char>>) -> bool {
    forall|j: int|
        0 <= j < fathers_of(manuals, id).len() && manual_ids(manuals).contains(
            #[trigger] fathers_of(manuals, id)[j],
        ) ==> out.contains(fathers_of(manuals, id)[j])
}

proof fn lemma_expand_closed(
    manuals: Seq<ManualView>,
    id: Seq<char>,
    visiting: Seq<Seq<char>>,
    out: Seq<Seq<char>>,
)
    requires
        closed_under_fathers(manuals, out),
        fathers_in(manuals, id, out),
    ensures
        expand_id(manuals, id, visiting, out) == if manual_ids(manuals).contains(id) && !visiting.contains(id)
            && !out.contains(id) {
            out.push(id)
        } else {
            out
        },
    decreases unvisited(manual_ids(manuals), visiting), 0int, 0int,
{
    lemma_manual_index(manuals, id);
    match manual_index(manuals, id) {
        None => {},
        Some(i) => {
            if !visiting.contains(id) {
                lemma_unvisited_push(manual_ids(manuals), visiting, id);
                assert(fathers_of(manuals, id) == manuals[i].3);
                lemma_fathers_closed(manuals, id, 0, visiting.push(id), out);
            }
        },
    }
}

proof fn lemma_fathers_closed(
    manuals: Seq<ManualView>,
    id: Seq<char>,
    k: nat,
    visiting: Seq<Seq<char>>,
    out: Seq<Seq<char>>,
)
    requires
        closed_under_fathers(manuals, out),
        fathers_in(manuals, id, out),
    ensures
        expand_fathers(manuals, fathers_of(manuals, id), k, visiting, out) == out,
    decreases unvisited(manual_ids(manuals), visiting), 1int, fathers_of(manuals, id).len() - k,
{
    let fathers = fathers_of(manuals, id);
    if k < fathers.len() {
        let f = fathers[k as int];
        if manual_ids(manuals).contains(f) {
            assert(out.contains(f));
            let q = choose|q: int| 0 <= q < out.len() && out[q] == f;
            assert forall|j: int|
                0 <= j < fathers_of(manuals, f).len() && manual_ids(manuals).contains(
                    #[trigger] fathers_of(manuals, f)[j],
                ) implies out.contains(fathers_of(manuals, f)[j]) by {
                assert(fathers_of(manuals, out[q])[j] == fathers_of(manuals, f)[j]);
            }
        } else {
            lemma_manual_index(manuals, f);
        }
        lemma_expand_closed(manuals, f, visiting, out);
        lemma_fathers_closed(manuals, id, k + 1, visiting, out);
    }
}

proof fn lemma_normalize_own_result(
    manuals: Seq<ManualView>,
    r: Seq<Seq<char>>,
    k: nat,
)
    requires
        k <= r.len(),
        r.no_duplicates(),
        all_known(manuals, r),
        fathers_first(manuals, r),
        forall|i: int| 0 <= i < manuals.len() ==> trim_ws(#[trigger] manuals[i].0) == manuals[i].0 && manuals[i].0.len() > 0,
    ensures
        normalize_from(manuals, r, k, r.take(k as int)) == r,
    decreases r.len() - k,
{
    if k >= r.len() {
        assert(r.take(k as int) =~= r);
    } else {
        let out = r.take(k as int);
        let id = r[k as int];
        let ids = manual_ids(manuals);
        assert(ids.contains(id));
        let m = choose|m: int| 0 <= m < ids.len() && ids[m] == id;
        assert(manuals[m].0 == id);
        assert(trim_ws(id) == id);
        assert forall|p: int| 0 <= p < out.len() implies ids.contains(#[trigger] out[p]) by {
            assert(out[p] == r[p]);
        }
        assert forall|p: int, j: int|
            0 <= p < out.len() && 0 <= j < fathers_of(manuals, out[p]).len() && ids.contains(
                #[trigger] fathers_of(manuals, out[p])[j],
            ) implies out.contains(fathers_of(manuals, out[p])[j]) by {
            assert(out[p] == r[p]);
            let f = fathers_of(manuals, r[p])[j];
            assert(r.take(p).contains(f));
            let q = choose|q: int| 0 <= q < r.take(p).len() && r.take(p)[q] == f;
            assert(out[q] == f);
        }
        assert forall|j: int|
            0 <= j < fathers_of(manuals, id).len() && ids.contains(#[trigger] fathers_of(manuals, id)[j])
                implies out.contains(fathers_of(manuals, id)[j]) by {
            assert(r.take(k as int).contains(fathers_of(manuals, r[k as int])[j]));
        }
        assert(!out.contains(id)) by {
            if out.contains(id) {
                let q = choose|q: int| 0 <= q < out.len() && out[q] == id;
                assert(r[q] == r[k as int]);
            }
        }
        assert(!Seq::<Seq<char>>::empty().contains(id));
        lemma_expand_closed(manuals, id, Seq::empty(), out);
        assert(out.push(id) =~= r.take(k + 1int));
        lemma_normalize_own_result(manuals, r, k + 1);
    }
}

/// Normalizing is idempotent: where the father relation has no cycle and
/// every manual id is a trimmed, non-blank text, normalizing the normalized
/// task types gives them back unchanged.
pub proof fn law_normalized_task_types_idempotent(
    manuals: Seq<ManualView>,
    ids: Seq<Seq<char>>,
    rank: spec_fn(Seq<char>) -> int,
)
    requires
        fathers_ranked(manuals, rank),
        forall|i: int| 0 <= i < manuals.len() ==> trim_ws(#[trigger] manuals[i].0) == manuals[i].0 && manuals[i].0.len() > 0,
    ensures
        normalized_task_types(manuals, normalized_task_types(manuals, ids)) == normalized_task_types(manuals, ids),
{
    let r = normalized_task_types(manuals, ids);
    law_normalized_task_types_unique_and_known(manuals, ids);
    law_normalized_task_types_fathers_first(manuals, ids, rank);
    assert(r.take(0) =~= Seq::<Seq<char>>::empty());
    lemma_normalize_own_result(manuals, r, 0);
}


/// In a table whose ids differ, an id names its own entry.
pub proof fn lemma_manual_index_unique(m: Seq<ManualView>, i: int)
    requires
        0 <= i < m.len(),
        forall|j: int| 0 <= j < m.len() && j != i ==> #[trigger] m[j].0 != m[i].0,
    ensures
        manual_index(m, m[i].0) == Some(i),
    decreases m.len(),
{
    if i < m.len() - 1 {
        assert(m.last() == m[m.len() - 1]);
        let d = m.drop_last();
        assert forall|j: int| 0 <= j < d.len() && j != i implies #[trigger] d[j].0 != d[i].0 by {
            assert(d[j] == m[j]);
        }
        lemma_manual_index_unique(d, i);
        assert(d[i] == m[i]);
    }
}

/// A ranking of the built-in manuals under which each father ranks below
/// its child.
pub open spec fn builtin_rank(id: Seq<char>) -> int {
    if id == "interactive_and_3d"@ {
        2
    } else if id == "frontend"@ || id == "data_visualization"@ {
        1
    } else {
        0
    }
}

/// Against the built-in manuals, whose father relation has no cycle and
/// whose ids are trimmed and not blank, normalizing puts every known
/// father before its child, and normalizing normalized task types gives
/// them back unchanged.
pub proof fn law_builtin_task_types_normalize_once(ids: Seq<Seq<char>>)
    ensures
        fathers_first(static_manual_table(), normalized_task_types(static_manual_table(), ids)),
        normalized_task_types(static_manual_table(), normalized_task_types(static_manual_table(), ids))
            == normalized_task_types(static_manual_table(), ids),
{
    reveal_strlit("creative_and_writing");
    reveal_strlit("data_visualization");
    reveal_strlit("debug");
    reveal_strlit("frontend");
    reveal_strlit("interactive_and_3d");
    reveal_strlit("new_build");
    reveal_strlit("refactoring");
    reveal_strlit("research_and_learning");
    reveal_strlit("visual");
    let m = static_manual_table();
    let rank = |id: Seq<char>| builtin_rank(id);
    assert(manual_ids(m) =~= seq![
        "creative_and_writing"@,
        "data_visualization"@,
        "debug"@,
        "frontend"@,
        "interactive_and_3d"@,
        "new_build"@,
        "refactoring"@,
        "research_and_learning"@,
        "visual"@,
    ]);
    let ids9 = manual_ids(m);
    assert forall|a: int, b: int| 0 <= a < 9 && 0 <= b < 9 && a != b implies #[trigger] ids9[a] != #[trigger] ids9[b] by {
        if ids9[a] == ids9[b] {
            assert(ids9[a].len() == ids9[b].len());
            assert(ids9[a][0] == ids9[b][0]);
        }
    }
    assert forall|i: int| 0 <= i < 9 implies #[trigger] manual_index(m, m[i].0) == Some(i) by {
        assert forall|j: int| 0 <= j < m.len() && j != i implies #[trigger] m[j].0 != m[i].0 by {
            assert(m[j].0 == ids9[j]);
            assert(m[i].0 == ids9[i]);
        }
        lemma_manual_index_unique(m, i);
    }
    assert(fathers_of(m, m[0].0) =~= Seq::<Seq<char>>::empty());
    assert(fathers_of(m, m[1].0) =~= seq!["visual"@, "new_build"@]);
    assert(fathers_of(m, m[2].0) =~= Seq::<Seq<char>>::empty());
    assert(fathers_of(m, m[3].0) =~= seq!["visual"@]);
    assert(fathers_of(m, m[4].0) =~= seq!["frontend"@]);
    assert(fathers_of(m, m[5].0) =~= Seq::<Seq<char>>::empty());
    assert(fathers_of(m, m[6].0) =~= Seq::<Seq<char>>::empty());
    assert(fathers_of(m, m[7].0) =~= Seq::<Seq<char>>::empty());
    assert(fathers_of(m, m[8].0) =~= Seq::<Seq<char>>::empty());
    assert(fathers_ranked(m, rank)) by {
        assert forall|id: Seq<char>, j: int|
            manual_ids(m).contains(id) && 0 <= j < fathers_of(m, id).len() && manual_ids(m).contains(
                #[trigger] fathers_of(m, id)[j],
            ) implies rank(fathers_of(m, id)[j]) < rank(id) by {
            let i = choose|i: int| 0 <= i < manual_ids(m).len() && manual_ids(m)[i] == id;
            assert(0 <= i < 9);
            assert(id == m[i].0);
            assert(manual_index(m, m[i].0) == Some(i));
        }
    }
    assert forall|i: int| 0 <= i < m.len() implies trim_ws(#[trigger] m[i].0) == m[i].0 && m[i].0.len() > 0 by {
        assert(m[i].0 == manual_ids(m)[i]);
        crate::chars::lemma_trim_ws_plain("creative_and_writing"@);
        crate::chars::lemma_trim_ws_plain("data_visualization"@);
        crate::chars::lemma_trim_ws_plain("debug"@);
        crate::chars::lemma_trim_ws_plain("frontend"@);
        crate::chars::lemma_trim_ws_plain("interactive_and_3d"@);
        crate::chars::lemma_trim_ws_plain("new_build"@);
        crate::chars::lemma_trim_ws_plain("refactoring"@);
        crate::chars::lemma_trim_ws_plain("research_and_learning"@);
        crate::chars::lemma_trim_ws_plain("visual"@);
    }
    law_normalized_task_types_fathers_first(m, ids, rank);
    law_normalized_task_types_idempotent(m, ids, rank);
}

/// The manuals to use: those read from disk when there are any, the built-in
/// ones otherwise.
pub fn available_manuals_from(loaded: Option<Vec<RuntimePromptManual>>) -> (r: Vec<
    RuntimePromptManual,
>)
    ensures
        match loaded {
            Some(v) => v.len() > 0 ==> r@ == v@,
            None => true,
        },
        (loaded is None || loaded->0.len() == 0) ==> manual_views(r@) == static_manual_table(),
{
    match loaded {
        Some(v) => {
            if v.len() > 0 {
                v
            } else {
                static_manuals()
            }
        },
        None => static_manuals(),
    }
}

/// The built-in manuals, the ones this library knows without reading disk.
pub fn available_manuals() -> (r: Vec<RuntimePromptManual>)
    ensures
        manual_views(r@) == static_manual_table(),
{
    static_manuals()
}

/// The ids of `manuals`, in order.
pub fn valid_task_type_ids_in(manuals: &Vec<RuntimePromptManual>) -> (r: Vec<String>)
    ensures
        string_views(r@) == manual_ids(manual_views(manuals@)),
{
    let ghost mv = manual_views(manuals@);
    let mut out: Vec<String> = Vec::new();
    let mut i: usize = 0;
    while i < manuals.len()
        invariant
            i <= manuals.len(),
            mv == manual_views(manuals@),
            string_views(out@) == manual_ids(mv).take(i as int),
        decreases manuals.len() - i,
    {
        let ghost before = out@;
        let id = manuals[i].id.clone();
        assert(mv[i as int] == manual_view(manuals@[i as int]));
        assert(manual_ids(mv)[i as int] == id@);
        out.push(id);
        assert(string_views(out@) =~= string_views(before).push(id@));
        assert(manual_ids(mv).take(i + 1) =~= manual_ids(mv).take(i as int).push(id@));
        i = i + 1;
    }
    assert(manual_ids(mv).take(i as int) =~= manual_ids(mv));
    out
}

/// The ids of the built-in manuals.
pub fn valid_task_type_ids() -> (r: Vec<String>)
    ensures
        string_views(r@) == manual_ids(static_manual_table()),
{
    valid_task_type_ids_in(&available_manuals())
}

/// The requested task types with their father task types, against the
/// built-in manuals.
pub fn normalize_task_type_ids(ids: &[&str]) -> (r: Vec<String>)
    ensures
        string_views(r@) == normalized_task_types(static_manual_table(), str_views(ids@)),
{
    normalize_task_type_ids_in(&available_manuals(), ids)
}

/// One catalog line: `- "id": "description"`.
pub open spec fn catalog_line(m: ManualView) -> Seq<char> {
    "- \""@ + m.0 + "\": \""@ + m.2 + "\""@
}

/// One catalog entry for a schema description: `"id": "description"`.
pub open spec fn schema_entry(m: ManualView) -> Seq<char> {
    "\""@ + m.0 + "\": \""@ + m.2 + "\""@
}

/// The task-type catalog for a prompt: one line per manual.
pub open spec fn catalog_for_prompt(manuals: Seq<ManualView>) -> Seq<char> {
    join(manuals.map_values(|m: ManualView| catalog_line(m)), "\n"@)
}

/// The task-type catalog for a schema description: the entries separated by
/// spaces.
pub open spec fn catalog_for_schema(manuals: Seq<ManualView>) -> Seq<char> {
    join(manuals.map_values(|m: ManualView| schema_entry(m)), " "@)
}

fn catalog_entries(manuals: &Vec<RuntimePromptManual>, bullet: bool) -> (r: Vec<Vec<char>>)
    ensures
        r.len() == manuals.len(),
        forall|i: int|
            0 <= i < r.len() ==> #[trigger] r@[i]@ == if bullet {
                catalog_line(manual_views(manuals@)[i])
            } else {
                schema_entry(manual_views(manuals@)[i])
            },
{
    let ghost mv = manual_views(manuals@);
    let ghost want = mv.map_values(
        |m: ManualView|
            if bullet {
                catalog_line(m)
            } else {
                schema_entry(m)
            },
    );
    let mut out: Vec<Vec<char>> = Vec::new();
    let mut i: usize = 0;
    while i < manuals.len()
        invariant
            i <= manuals.len(),
            mv == manual_views(manuals@),
            want == mv.map_values(
                |m: ManualView|
                    if bullet {
                        catalog_line(m)
                    } else {
                        schema_entry(m)
                    },
            ),
            views(out@) == want.take(i as int),
        decreases manuals.len() - i,
    {
        let mut line: Vec<char> = Vec::new();
        if bullet {
            push_str(&mut line, "- \"");
        } else {
            push_str(&mut line, "\"");
        }
        push_str(&mut line, manuals[i].id.as_str());
        push_str(&mut line, "\": \"");
        push_str(&mut line, manuals[i].description.as_str());
        push_str(&mut line, "\"");
        assert(mv[i as int] == manual_view(manuals@[i as int]));
        assert(line@ == want[i as int]);
        let ghost before = out@;
        let ghost lv = line@;
        out.push(line);
        assert(views(out@) =~= views(before).push(lv));
        assert(want.take(i + 1) =~= want.take(i as int).push(lv));
        i = i + 1;
    }
    assert(want.take(i as int) =~= want);
    assert forall|k: int| 0 <= k < out.len() implies #[trigger] out@[k]@ == want[k] by {
        assert(views(out@)[k] == out@[k]@);
    }
    out
}

/// The task-type catalog of `manuals` for a prompt.
pub fn task_type_catalog_for_prompt_in(manuals: &Vec<RuntimePromptManual>) -> (r: String)
    ensures
        r@ == catalog_for_prompt(manual_views(manuals@)),
{
    let entries = catalog_entries(manuals, true);
    assert(entries@.map_values(|w: Vec<char>| w@) =~= manual_views(manuals@).map_values(
        |m: ManualView| catalog_line(m),
    ));
    string_of(&join_chars(&entries, "\n"))
}

/// The task-type catalog of the built-in manuals for a prompt.
pub fn task_type_catalog_for_prompt() -> (r: String)
    ensures
        r@ == catalog_for_prompt(static_manual_table()),
{
    task_type_catalog_for_prompt_in(&available_manuals())
}

/// The task-type catalog of `manuals` for a schema description.
pub fn task_type_catalog_for_schema_description_in(manuals: &Vec<RuntimePromptManual>) -> (r:
    String)
    ensures
        r@ == catalog_for_schema(manual_views(manuals@)),
{
    let entries = catalog_entries(manuals, false);
    assert(entries@.map_values(|w: Vec<char>| w@) =~= manual_views(manuals@).map_values(
        |m: ManualView| schema_entry(m),
    ));
    string_of(&join_chars(&entries, " "))
}

/// The task-type catalog of the built-in manuals for a schema description.
pub fn task_type_catalog_for_schema_description() -> (r: String)
    ensures
        r@ == catalog_for_schema(static_manual_table()),
{
    task_type_catalog_for_schema_description_in(&available_manuals())
}


/// The first of `manuals` with the id `id`.
pub open spec fn first_manual_index(manuals: Seq<ManualView>, id: Seq<char>) -> Option<int>
    decreases manuals.len(),
{
    if manuals.len() == 0 {
        None
    } else if manuals[0].0 == id {
        Some(0)
    } else {
        match first_manual_index(manuals.drop_first(), id) {
            Some(i) => Some(i + 1),
            None => None,
        }
    }
}

/// The manuals that `ids` name, in the order of `ids`, each the first manual
/// with that id; ids that name none are skipped.
pub open spec fn manuals_for_ids(manuals: Seq<ManualView>, ids: Seq<Seq<char>>) -> Seq<ManualView>
    decreases ids.len(),
{
    if ids.len() == 0 {
        Seq::empty()
    } else {
        let rest = manuals_for_ids(manuals, ids.drop_last());
        match first_manual_index(manuals, ids.last()) {
            Some(i) => rest.push(manuals[i]),
            None => rest,
        }
    }
}

fn copy_names(v: &Vec<String>) -> (r: Vec<String>)
    ensures
        string_views(r@) == string_views(v@),
{
    let mut out: Vec<String> = Vec::new();
    let mut i: usize = 0;
    while i < v.len()
        invariant
            i <= v.len(),
            string_views(out@) == string_views(v@).take(i as int),
        decreases v.len() - i,
    {
        let ghost before = out@;
        let s = v[i].clone();
        out.push(s);
        assert(string_views(out@) =~= string_views(before).push(v@[i as int]@));
        assert(string_views(v@).take(i + 1) =~= string_views(v@).take(i as int).push(
            v@[i as int]@,
        ));
        i = i + 1;
    }
    assert(string_views(v@).take(i as int) =~= string_views(v@));
    out
}

fn copy_manual(m: &RuntimePromptManual) -> (r: RuntimePromptManual)
    ensures
        manual_view(r) == manual_view(*m),
{
    RuntimePromptManual {
        id: m.id.clone(),
        display_name: m.display_name.clone(),
        description: m.description.clone(),
        father_ids: copy_names(&m.father_ids),
        capabilities: copy_names(&m.capabilities),
        prompt: m.prompt.clone(),
    }
}

fn first_manual(manuals: &Vec<RuntimePromptManual>, id: &String) -> (r: Option<usize>)
    ensures
        match r {
            Some(i) => first_manual_index(manual_views(manuals@), id@) == Some(i as int),
            None => first_manual_index(manual_views(manuals@), id@) is None,
        },
{
    let ghost mv = manual_views(manuals@);
    let mut i: usize = 0;
    assert(mv.skip(0) =~= mv);
    while i < manuals.len()
        invariant
            i <= manuals.len(),
            mv == manual_views(manuals@),
            first_manual_index(mv, id@) == match first_manual_index(mv.skip(i as int), id@) {
                Some(j) => Some(j + i),
                None => None,
            },
        decreases manuals.len() - i,
    {
        assert(mv.skip(i as int).drop_first() =~= mv.skip(i + 1));
        assert(mv.skip(i as int)[0] == mv[i as int]);
        if manuals[i].id == *id {
            return Some(i);
        }
        i = i + 1;
    }
    None
}

/// The manuals of `manuals` that `ids` name, in the order of `ids`.
pub fn manuals_for_task_type_ids_in(manuals: &Vec<RuntimePromptManual>, ids: &[String]) -> (r: Vec<
    RuntimePromptManual,
>)
    ensures
        manual_views(r@) == manuals_for_ids(manual_views(manuals@), string_views(ids@)),
{
    let ghost mv = manual_views(manuals@);
    let ghost iv = string_views(ids@);
    let mut out: Vec<RuntimePromptManual> = Vec::new();
    let mut k: usize = 0;
    assert(manual_views(out@) =~= manuals_for_ids(mv, iv.take(0)));
    while k < ids.len()
        invariant
            k <= ids.len(),
            mv == manual_views(manuals@),
            iv == string_views(ids@),
            manual_views(out@) == manuals_for_ids(mv, iv.take(k as int)),
        decreases ids.len() - k,
    {
        assert(iv.take(k + 1).drop_last() =~= iv.take(k as int));
        assert(iv.take(k + 1).last() == ids@[k as int]@);
        match first_manual(manuals, &ids[k]) {
            Some(i) => {
                proof {
                    lemma_first_manual_index(mv, ids@[k as int]@);
                }
                let ghost before = out@;
                let m = copy_manual(&manuals[i]);
                out.push(m);
                assert(manual_views(out@) =~= manual_views(before).push(mv[i as int]));
            },
            None => {},
        }
        k = k + 1;
    }
    assert(iv.take(k as int) =~= iv);
    out
}

pub proof fn lemma_first_manual_index(manuals: Seq<ManualView>, id: Seq<char>)
    ensures
        match first_manual_index(manuals, id) {
            Some(i) => 0 <= i < manuals.len() && manuals[i].0 == id,
            None => forall|j: int| 0 <= j < manuals.len() ==> manuals[j].0 != id,
        },
    decreases manuals.len(),
{
    if manuals.len() > 0 {
        lemma_first_manual_index(manuals.drop_first(), id);
        if manuals[0].0 != id {
            assert forall|j: int| 1 <= j < manuals.len() implies manuals.drop_first()[j - 1]
                == manuals[j] by {}
        }
    }
}

/// The manuals of the built-in ones that `ids` name, in the order of `ids`.
pub fn manuals_for_task_type_ids(ids: &[String]) -> (r: Vec<RuntimePromptManual>)
    ensures
        manual_views(r@) == manuals_for_ids(static_manual_table(), string_views(ids@)),
{
    manuals_for_task_type_ids_in(&available_manuals(), ids)
}

/// The operation-manual text of a session: in goal mode, the trimmed prompts
/// of the manuals that its task types name, separated by blank lines; none
/// outside goal mode or when no manual is named.
pub open spec fn operation_manual_text(
    manuals: Seq<ManualView>,
    goal_mode: bool,
    task_type: Seq<Seq<char>>,
) -> Option<Seq<char>> {
    let ms = manuals_for_ids(manuals, task_type);
    if !goal_mode || ms.len() == 0 {
        None
    } else {
        Some(join(ms.map_values(|m: ManualView| trim_ws(m.5)), "\n\n"@))
    }
}

/// The operation-manual text for a session in `goal_mode` with the task
/// types `task_type`, against `manuals`.
pub fn active_operation_manual_text_in(
    manuals: &Vec<RuntimePromptManual>,
    goal_mode: bool,
    task_type: &[String],
) -> (r: Option<String>)
    ensures
        match r {
            Some(s) => operation_manual_text(manual_views(manuals@), goal_mode, string_views(
                task_type@,
            )) == Some(s@),
            None => operation_manual_text(
                manual_views(manuals@),
                goal_mode,
                string_views(task_type@),
            ) is None,
        },
{
    if !goal_mode {
        return None;
    }
    let ms = manuals_for_task_type_ids_in(manuals, task_type);
    if ms.len() == 0 {
        return None;
    }
    let ghost msv = manual_views(ms@);
    let mut parts: Vec<Vec<char>> = Vec::new();
    let mut i: usize = 0;
    while i < ms.len()
        invariant
            i <= ms.len(),
            msv == manual_views(ms@),
            parts.len() == i,
            forall|j: int| 0 <= j < i ==> #[trigger] parts@[j]@ == trim_ws(msv[j].5),
        decreases ms.len() - i,
    {
        let p = chars_of(ms[i].prompt.as_str());
        let t = trim(&p);
        assert(msv[i as int] == manual_view(ms@[i as int]));
        parts.push(t);
        i = i + 1;
    }
    assert(parts@.map_values(|w: Vec<char>| w@) =~= msv.map_values(|m: ManualView| trim_ws(m.5)));
    Some(string_of(&join_chars(&parts, "\n\n")))
}

/// The operation-manual text for a session, against the built-in manuals.
pub fn active_operation_manual_text(goal_mode: bool, task_type: &[String]) -> (r: Option<String>)
    ensures
        match r {
            Some(s) => operation_manual_text(static_manual_table(), goal_mode, string_views(
                task_type@,
            )) == Some(s@),
            None => operation_manual_text(
                static_manual_table(),
                goal_mode,
                string_views(task_type@),
            ) is None,
        },
{
    active_operation_manual_text_in(&available_manuals(), goal_mode, task_type)
}


/// What one session-log entry says about a record of a runtime prompt: the
/// context was compacted there, the entry is the record, or neither.
pub enum LogEntryVerdict {
    Compaction,
    Record,
    Other,
}

/// The verdict on a parsed session-log entry: one whose `type` is
/// `context_compaction` marks a compaction; one whose `type` is
/// `record_type` and whose `task_type` is `id` is the record.
pub open spec fn entry_verdict(entry: Option<JsonData>, record_type: Seq<char>, id: Seq<char>) -> LogEntryVerdict {
    match entry {
        Some(d) => {
            let t = member_text(d, "type"@);
            if t == Some("context_compaction"@) {
                LogEntryVerdict::Compaction
            } else if t == Some(record_type) && member_text(d, "task_type"@) == Some(id) {
                LogEntryVerdict::Record
            } else {
                LogEntryVerdict::Other
            }
        },
        None => LogEntryVerdict::Other,
    }
}

pub fn log_entry_verdict(entry: &Option<JsonValue>, record_type: &str, id: &str) -> (r: LogEntryVerdict)
    ensures
        r == entry_verdict(crate::json::opt_json_data(*entry), record_type@, id@),
{
    match entry {
        Some(v) => {
            match json_member_str(v, "type") {
                Some(ts) => {
                    let tv = chars_of(ts);
                    if eq_str(&tv, "context_compaction") {
                        return LogEntryVerdict::Compaction;
                    }
                    if eq_str(&tv, record_type) {
                        match json_member_str(v, "task_type") {
                            Some(task) => {
                                let kv = chars_of(task);
                                if eq_str(&kv, id) {
                                    return LogEntryVerdict::Record;
                                }
                            },
                            None => {},
                        }
                    }
                    LogEntryVerdict::Other
                },
                None => LogEntryVerdict::Other,
            }
        },
        None => LogEntryVerdict::Other,
    }
}

/// Whether the first `n` entries of `log`, read from the last back to the
/// most recent compaction, hold the record of `record_type` for `id`.
pub open spec fn record_present_since(
    log: Seq<Seq<char>>,
    record_type: Seq<char>,
    id: Seq<char>,
    n: nat,
) -> bool
    decreases n,
{
    if n == 0 || n > log.len() {
        false
    } else {
        match entry_verdict(parsed_json(log[n - 1]), record_type, id) {
            LogEntryVerdict::Compaction => false,
            LogEntryVerdict::Record => true,
            LogEntryVerdict::Other => record_present_since(log, record_type, id, (n - 1) as nat),
        }
    }
}

/// Whether `session_log` holds, after its last compaction, the record of
/// `record_type` for the task type `id`.
pub fn runtime_prompt_record_present_since_last_compact(
    session_log: &Vec<String>,
    record_type: &str,
    id: &str,
) -> (b: bool)
    ensures
        b == record_present_since(string_views(session_log@), record_type@, id@, session_log@.len()),
{
    let ghost log = string_views(session_log@);
    let mut n: usize = session_log.len();
    while n > 0
        invariant
            n <= session_log.len(),
            log == string_views(session_log@),
            record_present_since(log, record_type@, id@, n as nat) == record_present_since(
                log,
                record_type@,
                id@,
                session_log@.len(),
            ),
        decreases n,
    {
        let shape = parse_json(session_log[n - 1].as_str());
        assert(log[n - 1] == session_log@[n - 1]@);
        match log_entry_verdict(&shape, record_type, id) {
            LogEntryVerdict::Compaction => {
                return false;
            },
            LogEntryVerdict::Record => {
                return true;
            },
            LogEntryVerdict::Other => {},
        }
        n = n - 1;
    }
    false
}

/// Whether the manual prompt of `id` was recorded since the last compaction.
pub fn runtime_prompt_manual_present_since_last_compact(session_log: &Vec<String>, id: &str) -> (b:
    bool)
    ensures
        b == record_present_since(
            string_views(session_log@),
            RUNTIME_PROMPT_MANUAL_RECORD_TYPE@,
            id@,
            session_log@.len(),
        ),
{
    runtime_prompt_record_present_since_last_compact(
        session_log,
        RUNTIME_PROMPT_MANUAL_RECORD_TYPE,
        id,
    )
}

/// Whether the command_run capabilities of `id` were recorded since the last
/// compaction.
pub fn runtime_prompt_command_run_capability_present_since_last_compact(
    session_log: &Vec<String>,
    id: &str,
) -> (b: bool)
    ensures
        b == record_present_since(
            string_views(session_log@),
            RUNTIME_PROMPT_COMMAND_RUN_CAPABILITY_RECORD_TYPE@,
            id@,
            session_log@.len(),
        ),
{
    runtime_prompt_record_present_since_last_compact(
        session_log,
        RUNTIME_PROMPT_COMMAND_RUN_CAPABILITY_RECORD_TYPE,
        id,
    )
}


/// The display names of the manuals that `task_type` names, in order.
pub open spec fn display_names(manuals: Seq<ManualView>, task_type: Seq<Seq<char>>) -> Seq<
    Seq<char>,
> {
    manuals_for_ids(manuals, task_type).map_values(|m: ManualView| m.1)
}

/// The display names of the manuals of `manuals` that `task_type` names.
pub fn active_manual_display_names_in(manuals: &Vec<RuntimePromptManual>, task_type: &[String]) -> (r:
    Vec<String>)
    ensures
        string_views(r@) == display_names(manual_views(manuals@), string_views(task_type@)),
{
    let ms = manuals_for_task_type_ids_in(manuals, task_type);
    let ghost msv = manual_views(ms@);
    let mut out: Vec<String> = Vec::new();
    let mut i: usize = 0;
    while i < ms.len()
        invariant
            i <= ms.len(),
            msv == manual_views(ms@),
            msv == manuals_for_ids(manual_views(manuals@), string_views(task_type@)),
            string_views(out@) == msv.map_values(|m: ManualView| m.1).take(i as int),
        decreases ms.len() - i,
    {
        let ghost before = out@;
        let name = ms[i].display_name.clone();
        assert(msv[i as int] == manual_view(ms@[i as int]));
        out.push(name);
        assert(string_views(out@) =~= string_views(before).push(msv[i as int].1));
        assert(msv.map_values(|m: ManualView| m.1).take(i + 1) =~= msv.map_values(
            |m: ManualView| m.1,
        ).take(i as int).push(msv[i as int].1));
        i = i + 1;
    }
    assert(msv.map_values(|m: ManualView| m.1).take(i as int) =~= msv.map_values(
        |m: ManualView| m.1,
    ));
    out
}

/// The display names of the built-in manuals that `task_type` names.
pub fn active_manual_display_names(task_type: &[String]) -> (r: Vec<String>)
    ensures
        string_views(r@) == display_names(static_manual_table(), string_views(task_type@)),
{
    active_manual_display_names_in(&available_manuals(), task_type)
}

/// The text items of a list, in order; none for other values.
pub open spec fn text_items_of(d: JsonData) -> Seq<Seq<char>> {
    match d {
        JsonData::Array(items) => text_items_in(items),
        _ => Seq::empty(),
    }
}

pub open spec fn text_items_in(items: Seq<JsonData>) -> Seq<Seq<char>>
    decreases items.len(),
{
    if items.len() == 0 {
        Seq::empty()
    } else {
        match items.last() {
            JsonData::Str(s) => text_items_in(items.drop_last()).push(s),
            _ => text_items_in(items.drop_last()),
        }
    }
}

/// The task types that a value names: the string items of a list,
/// normalized; none for other values.
pub fn task_type_ids_from_value(value: &JsonValue) -> (r: Vec<String>)
    ensures
        string_views(r@) == normalized_task_types(static_manual_table(), text_items_of(json_data(*value))),
{
    let items = match value {
        JsonValue::Array(items) => items,
        _ => {
            let none: Vec<&str> = Vec::new();
            assert(str_views(none@) =~= Seq::<Seq<char>>::empty());
            return normalize_task_type_ids(none.as_slice());
        },
    };
    proof {
        crate::json::lemma_array_data(items@);
    }
    let ghost ad = crate::json::array_data(items@);
    let mut ids: Vec<&str> = Vec::new();
    let mut i: usize = 0;
    assert(str_views(ids@) =~= text_items_in(ad.take(0)));
    while i < items.len()
        invariant
            i <= items.len(),
            ad == crate::json::array_data(items@),
            ad.len() == items.len(),
            forall|j: int| 0 <= j < items.len() ==> #[trigger] ad[j] == json_data(items@[j]),
            str_views(ids@) == text_items_in(ad.take(i as int)),
        decreases items.len() - i,
    {
        assert(ad.take(i + 1).drop_last() =~= ad.take(i as int));
        assert(ad.take(i + 1).last() == ad[i as int]);
        match &items[i] {
            JsonValue::Str(s) => {
                let ghost before = str_views(ids@);
                ids.push(s.as_str());
                assert(str_views(ids@) =~= before.push(s@));
            },
            _ => {},
        }
        i = i + 1;
    }
    assert(ad.take(i as int) =~= ad);
    normalize_task_type_ids(ids.as_slice())
}

/// The capabilities the manuals add to an agent, from their canonical
/// command names in order: command_run and blank names are left out, and
/// each name is kept once, where it first appears.
pub open spec fn added_capabilities(caps: Seq<Seq<char>>) -> Seq<Seq<char>>
    decreases caps.len(),
{
    if caps.len() == 0 {
        Seq::empty()
    } else {
        let prev = added_capabilities(caps.drop_last());
        let c = caps.last();
        if c == "command_run"@ || c.len() == 0 || prev.contains(c) {
            prev
        } else {
            prev.push(c)
        }
    }
}

/// The capabilities that the manuals of a session's task types add, given
/// the canonical command name of each of their capabilities in order (the
/// command catalog that names them is not part of this crate).
pub fn capabilities_for_canonical_commands(canonical: &Vec<String>) -> (r: Vec<String>)
    ensures
        string_views(r@) == added_capabilities(string_views(canonical@)),
{
    let ghost cv = string_views(canonical@);
    let mut out: Vec<String> = Vec::new();
    let mut i: usize = 0;
    assert(cv.take(0) =~= Seq::<Seq<char>>::empty());
    while i < canonical.len()
        invariant
            i <= canonical.len(),
            cv == string_views(canonical@),
            cv.len() == canonical.len(),
            string_views(out@) == added_capabilities(cv.take(i as int)),
        decreases canonical.len() - i,
    {
        assert(cv.take(i + 1).drop_last() =~= cv.take(i as int));
        assert(cv.take(i + 1).last() == canonical@[i as int]@);
        let c = &canonical[i];
        assert(crate::context::media::text_views(out@) =~= string_views(out@));
        let skip = crate::manas::tool_catalog::same_text(c.as_str(), "command_run") || chars_of(c.as_str()).len() == 0
            || crate::manas::tool_catalog::has_text(&out, c.as_str());
        if !skip {
            let ghost before = out@;
            out.push(c.clone());
            assert(string_views(out@) =~= string_views(before).push(c@));
        }
        i = i + 1;
    }
    assert(cv.take(i as int) =~= cv);
    out
}

} // verus!
