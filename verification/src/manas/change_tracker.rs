//! Which files a tool call changes: the paths its arguments name, whether
//! its result reports a change, and where the session's change log lives.
use vstd::prelude::*;
use crate::agent_router::{join_path, join_paths};
use crate::chars::{eq_str, trim_ws};
use crate::json::{
    array_data, as_flag, as_items, json_as_array, json_as_bool, json_data, json_get,
    json_member_str, lemma_array_data, member, member_text, JsonData, JsonValue,
};
use crate::text::{chars_of, push_str, string_of};

verus! {

/// Whether a tool writes, patches or deletes files.
pub open spec fn changes_files(tool_name: Seq<char>) -> bool {
    tool_name == "write_file"@ || tool_name == "apply_diff"@ || tool_name == "delete_file"@
}

pub fn tool_changes_files(tool_name: &str) -> (b: bool)
    ensures
        b == changes_files(tool_name@),
{
    let t = chars_of(tool_name);
    eq_str(&t, "write_file") || eq_str(&t, "apply_diff") || eq_str(&t, "delete_file")
}

/// The `path` of one request, when it is a string that is not blank.
pub open spec fn request_path(d: JsonData) -> Seq<Seq<char>> {
    match member_text(d, "path"@) {
        Some(p) => if trim_ws(p).len() > 0 {
            seq![p]
        } else {
            Seq::empty()
        },
        None => Seq::empty(),
    }
}

pub open spec fn requests_paths(items: Seq<JsonData>) -> Seq<Seq<char>>
    decreases items.len(),
{
    if items.len() == 0 {
        Seq::empty()
    } else {
        requests_paths(items.drop_last()) + request_path(items.last())
    }
}

/// The paths that tool arguments name: those of each request of a list, of
/// each of the object's `requests` when it has that list, or of the object
/// itself.
pub open spec fn argument_paths(arguments: JsonData) -> Seq<Seq<char>> {
    match arguments {
        JsonData::Array(items) => requests_paths(items),
        JsonData::Object(_) => match as_items(member(arguments, "requests"@)) {
            Some(rs) => requests_paths(rs),
            None => request_path(arguments),
        },
        _ => Seq::empty(),
    }
}

fn collect_path(value: &JsonValue, paths: &mut Vec<String>)
    ensures
        final(paths)@.map_values(|s: String| s@) == old(paths)@.map_values(|s: String| s@) + request_path(
            json_data(*value),
        ),
{
    let ghost start = paths@.map_values(|s: String| s@);
    match json_member_str(value, "path") {
        Some(p) => {
            let t = crate::chars::trim(&chars_of(p));
            if t.len() > 0 {
                let ghost before = paths@;
                paths.push(p.to_owned());
                assert(paths@.map_values(|s: String| s@) =~= start + seq![p@]);
                return;
            }
        },
        None => {},
    }
    assert(paths@.map_values(|s: String| s@) =~= start + Seq::<Seq<char>>::empty());
}

fn collect_paths(items: &Vec<JsonValue>, paths: &mut Vec<String>)
    ensures
        final(paths)@.map_values(|s: String| s@) == old(paths)@.map_values(|s: String| s@) + requests_paths(
            array_data(items@),
        ),
{
    proof {
        lemma_array_data(items@);
    }
    let ghost ad = array_data(items@);
    let ghost start = paths@.map_values(|s: String| s@);
    let mut i: usize = 0;
    assert(requests_paths(ad.take(0)) =~= Seq::<Seq<char>>::empty());
    assert(paths@.map_values(|s: String| s@) =~= start + Seq::<Seq<char>>::empty());
    while i < items.len()
        invariant
            i <= items.len(),
            ad == array_data(items@),
            ad.len() == items.len(),
            forall|j: int| 0 <= j < items.len() ==> #[trigger] ad[j] == json_data(items@[j]),
            paths@.map_values(|s: String| s@) == start + requests_paths(ad.take(i as int)),
        decreases items.len() - i,
    {
        assert(ad.take(i + 1).drop_last() =~= ad.take(i as int));
        assert(ad.take(i + 1).last() == ad[i as int]);
        collect_path(&items[i], paths);
        i = i + 1;
    }
    assert(ad.take(i as int) =~= ad);
}

/// The paths that tool arguments name.
pub fn tool_paths(arguments: &JsonValue) -> (r: Vec<String>)
    ensures
        r@.map_values(|s: String| s@) == argument_paths(json_data(*arguments)),
{
    let mut paths: Vec<String> = Vec::new();
    assert(paths@.map_values(|s: String| s@) =~= Seq::<Seq<char>>::empty());
    match arguments {
        JsonValue::Array(items) => {
            collect_paths(items, &mut paths);
        },
        JsonValue::Object(_) => {
            let requests = match json_get(arguments, "requests") {
                Some(r) => json_as_array(r),
                None => None,
            };
            match requests {
                Some(rs) => collect_paths(rs, &mut paths),
                None => collect_path(arguments, &mut paths),
            }
        },
        _ => {},
    }
    paths
}

/// Whether an item of a tool result reports a change.
pub open spec fn item_changed(d: JsonData) -> bool {
    as_flag(member(d, "success"@)) == Some(true) || as_flag(member(d, "applied"@)) == Some(true)
        || as_flag(member(d, "deleted"@)) == Some(true)
}

/// Whether one of the items of a result list reports a change.
pub open spec fn some_item_changed(items: Seq<JsonData>) -> bool {
    exists|i: int| 0 <= i < items.len() && item_changed(#[trigger] items[i])
}

/// Whether a tool call changed files: it succeeded, its result is not marked
/// `ok: false`, and one of its results succeeded, applied or deleted.
pub open spec fn result_changed_files(success: bool, result: JsonData) -> bool {
    success && as_flag(member(result, "ok"@)) != Some(false) && match as_items(
        member(result, "results"@),
    ) {
        Some(items) => some_item_changed(items),
        None => false,
    }
}

fn flag_is(v: Option<&JsonValue>, want: bool) -> (b: bool)
    ensures
        b == (as_flag(crate::json::opt_ref_data(v)) == Some(want)),
{
    match v {
        Some(x) => match json_as_bool(x) {
            Some(f) => f == want,
            None => false,
        },
        None => false,
    }
}

pub fn tool_result_changed_files(success: bool, result: &JsonValue) -> (b: bool)
    ensures
        b == result_changed_files(success, json_data(*result)),
{
    if !success {
        return false;
    }
    if flag_is(json_get(result, "ok"), false) {
        return false;
    }
    let items = match json_get(result, "results") {
        Some(r) => match json_as_array(r) {
            Some(items) => items,
            None => {
                return false;
            },
        },
        None => {
            return false;
        },
    };
    proof {
        lemma_array_data(items@);
    }
    let ghost ad = array_data(items@);
    let mut i: usize = 0;
    while i < items.len()
        invariant
            i <= items.len(),
            ad == array_data(items@),
            ad.len() == items.len(),
            forall|j: int| 0 <= j < items.len() ==> #[trigger] ad[j] == json_data(items@[j]),
            forall|j: int| 0 <= j < i ==> !item_changed(#[trigger] ad[j]),
            success,
            as_flag(member(json_data(*result), "ok"@)) != Some(false),
            as_items(member(json_data(*result), "results"@)) == Some(ad),
        decreases items.len() - i,
    {
        let item = &items[i];
        if flag_is(json_get(item, "success"), true) || flag_is(json_get(item, "applied"), true)
            || flag_is(json_get(item, "deleted"), true) {
            assert(json_data(*item) == ad[i as int]);
            assert(item_changed(ad[i as int]));
            assert(some_item_changed(ad));
            return true;
        }
        i = i + 1;
    }
    assert(!some_item_changed(ad));
    false
}

/// Where the change log of a session is kept.
pub open spec fn tracker_path_text(session_directory: Seq<char>, session_id: Seq<char>) -> Seq<char> {
    join_path(join_path(join_path(session_directory, ".tura"@), "session_changes"@), session_id + ".json"@)
}

pub fn tracker_path(session_directory: &str, session_id: &str) -> (r: String)
    ensures
        r@ == tracker_path_text(session_directory@, session_id@),
{
    let a = join_paths(session_directory, ".tura");
    let b = join_paths(a.as_str(), "session_changes");
    let mut file: Vec<char> = Vec::new();
    push_str(&mut file, session_id);
    push_str(&mut file, ".json");
    join_paths(b.as_str(), string_of(&file).as_str())
}

} // verus!
