//! Tool interfaces as the provider receives them: the function schema of a
//! tool, with command_run's description and command list filled in, and
//! the parameter schema stripped of the runtime's own extensions.
use vstd::prelude::*;
use crate::context::media::{has_key, with_value, without};
use crate::context::text_truncate::same_chars;
use crate::json::{
    array_data, copy_json, json_data, json_get, lemma_array_data, lemma_object_data, member_in,
    object_data, JsonData, JsonValue,
};
use crate::json::{json_member_str, member, member_text};
use crate::manas::constants::COMMAND_RUN_TOOL;
use crate::manas::tool_catalog::{
    command_list_for_description, command_run_commands_for_agent,
    command_run_description_for_active_shell, default_commands, description_order, description_text,
    lemma_description_membership, lemma_present_in_order_membership, other_than_command_run,
    present_in_order, same_text, CommandPrompts,
};
use crate::context::media::text_views;
use crate::text::chars_of;

verus! {

/// The member named `key` of an object given the value `v`: every member so
/// named is replaced, and a new member is added at the end when there is
/// none (`Map::insert`).
pub open spec fn set_member(ms: Seq<(Seq<char>, JsonData)>, key: Seq<char>, v: JsonData) -> Seq<(Seq<char>, JsonData)> {
    if has_key(ms, key) {
        with_value(ms, key, v)
    } else {
        ms.push((key, v))
    }
}

/// The members of an object other than those named `key`.
pub fn remove_member(members: Vec<(String, JsonValue)>, key: &str) -> (r: Vec<(String, JsonValue)>)
    ensures
        object_data(r@) == without(object_data(members@), key@),
{
    proof {
        lemma_object_data(members@);
    }
    let ghost all = members@;
    let ghost md = object_data(all);
    let kv = chars_of(key);
    let n = members.len();
    let mut rest = members;
    let mut out: Vec<(String, JsonValue)> = Vec::new();
    let mut k: usize = 0;
    assert(all.skip(0) =~= all);
    assert(object_data(out@) =~= without(md.take(0), key@));
    while k < n
        invariant
            k <= n,
            n == all.len(),
            md == object_data(all),
            md.len() == all.len(),
            forall|j: int| 0 <= j < md.len() ==> #[trigger] md[j] == (all[j].0@, json_data(all[j].1)),
            rest@ == all.skip(k as int),
            kv@ == key@,
            object_data(out@) == without(md.take(k as int), key@),
        decreases n - k,
    {
        assert(rest@[0] == all[k as int]);
        let m = rest.remove(0);
        assert(rest@ =~= all.skip(k + 1));
        proof {
            lemma_object_data(out@);
            assert(md.take(k + 1).drop_last() =~= md.take(k as int));
            assert(md.take(k + 1).last() == md[k as int]);
        }
        if !same_chars(&chars_of(m.0.as_str()), &kv) {
            let ghost before = out@;
            out.push(m);
            proof {
                lemma_object_data(out@);
                assert(out@.drop_last() =~= before);
            }
        }
        k = k + 1;
    }
    assert(md.take(k as int) =~= md);
    out
}

/// Whether an object's members include `key`.
pub fn has_member(members: &Vec<(String, JsonValue)>, key: &str) -> (b: bool)
    ensures
        b == has_key(object_data(members@), key@),
{
    proof {
        lemma_object_data(members@);
    }
    let ghost md = object_data(members@);
    let kv = chars_of(key);
    let mut i: usize = 0;
    while i < members.len()
        invariant
            i <= members.len(),
            md == object_data(members@),
            md.len() == members.len(),
            forall|j: int| 0 <= j < members.len() ==> #[trigger] md[j] == (members@[j].0@, json_data(members@[j].1)),
            kv@ == key@,
            forall|j: int| 0 <= j < i ==> (#[trigger] md[j]).0 != key@,
        decreases members.len() - i,
    {
        if same_chars(&chars_of(members[i].0.as_str()), &kv) {
            assert(md[i as int].0 == key@);
            return true;
        }
        i = i + 1;
    }
    false
}

/// Gives every member named `key` the value `v`, or adds the member at the
/// end when there is none.
pub fn set_member_exec(members: Vec<(String, JsonValue)>, key: &str, v: JsonValue) -> (r: Vec<(String, JsonValue)>)
    ensures
        object_data(r@) == set_member(object_data(members@), key@, json_data(v)),
{
    proof {
        lemma_object_data(members@);
    }
    if !has_member(&members, key) {
        let ghost before = members@;
        let mut out = members;
        out.push((key.to_string(), v));
        proof {
            lemma_object_data(out@);
            lemma_object_data(before);
            assert(object_data(out@) =~= object_data(before).push((key@, json_data(v))));
        }
        return out;
    }
    let ghost all = members@;
    let ghost md = object_data(all);
    let ghost vd = json_data(v);
    let kv = chars_of(key);
    let n = members.len();
    let mut rest = members;
    let mut out: Vec<(String, JsonValue)> = Vec::new();
    let mut k: usize = 0;
    assert(all.skip(0) =~= all);
    assert(object_data(out@) =~= with_value(md.take(0), key@, vd));
    while k < n
        invariant
            k <= n,
            n == all.len(),
            md == object_data(all),
            md.len() == all.len(),
            forall|j: int| 0 <= j < md.len() ==> #[trigger] md[j] == (all[j].0@, json_data(all[j].1)),
            rest@ == all.skip(k as int),
            kv@ == key@,
            vd == json_data(v),
            object_data(out@) == with_value(md.take(k as int), key@, vd),
        decreases n - k,
    {
        assert(rest@[0] == all[k as int]);
        let m = rest.remove(0);
        assert(rest@ =~= all.skip(k + 1));
        proof {
            lemma_object_data(out@);
            assert(with_value(md.take(k + 1), key@, vd) =~= with_value(md.take(k as int), key@, vd).push(
                with_value(md.take(k + 1), key@, vd)[k as int],
            ));
        }
        let ghost before = out@;
        if same_chars(&chars_of(m.0.as_str()), &kv) {
            out.push((m.0, copy_json(&v)));
        } else {
            out.push(m);
        }
        proof {
            lemma_object_data(out@);
            assert(out@.drop_last() =~= before);
            assert(object_data(out@) =~= object_data(before).push(object_data(out@)[k as int]));
        }
        k = k + 1;
    }
    assert(md.take(k as int) =~= md);
    out
}

/// A value without the runtime's `x-tura-optional` marks: every object at
/// every depth loses its member of that name.
pub open spec fn without_extensions(d: JsonData) -> JsonData
    decreases d,
{
    match d {
        JsonData::Object(ms) => JsonData::Object(without(extension_free_members(ms), "x-tura-optional"@)),
        JsonData::Array(items) => JsonData::Array(extension_free_items(items)),
        other => other,
    }
}

pub open spec fn extension_free_members(ms: Seq<(Seq<char>, JsonData)>) -> Seq<(Seq<char>, JsonData)>
    decreases ms,
{
    if ms.len() == 0 {
        Seq::empty()
    } else {
        extension_free_members(ms.drop_last()).push((ms.last().0, without_extensions(ms.last().1)))
    }
}

pub open spec fn extension_free_items(items: Seq<JsonData>) -> Seq<JsonData>
    decreases items,
{
    if items.len() == 0 {
        Seq::empty()
    } else {
        extension_free_items(items.drop_last()).push(without_extensions(items.last()))
    }
}

fn strip_extensions(value: &JsonValue) -> (r: JsonValue)
    ensures
        json_data(r) == without_extensions(json_data(*value)),
    decreases value,
{
    match value {
        JsonValue::Object(members) => {
            proof {
                lemma_object_data(members@);
            }
            let ghost md = object_data(members@);
            let mut out: Vec<(String, JsonValue)> = Vec::new();
            let mut i: usize = 0;
            assert(object_data(out@) =~= extension_free_members(md.take(0)));
            while i < members.len()
                invariant
                    i <= members.len(),
                    *value == JsonValue::Object(*members),
                    md == object_data(members@),
                    md.len() == members.len(),
                    forall|j: int| 0 <= j < members.len() ==> #[trigger] md[j] == (members@[j].0@, json_data(members@[j].1)),
                    object_data(out@) == extension_free_members(md.take(i as int)),
                decreases members.len() - i,
            {
                proof {
                    assert(decreases_to!(*value => value->Object_0));
                    assert(decreases_to!(value->Object_0 => value->Object_0@));
                    assert(decreases_to!(value->Object_0@ => value->Object_0@[i as int]));
                    assert(decreases_to!(value->Object_0@[i as int] => value->Object_0@[i as int].1));
                    lemma_object_data(out@);
                    assert(md.take(i + 1).drop_last() =~= md.take(i as int));
                    assert(md.take(i + 1).last() == md[i as int]);
                }
                let s = strip_extensions(&members[i].1);
                let ghost before = out@;
                out.push((members[i].0.clone(), s));
                proof {
                    assert(out@.drop_last() =~= before);
                    assert(object_data(out@) =~= object_data(before).push((md[i as int].0, without_extensions(md[i as int].1))));
                }
                i = i + 1;
            }
            assert(md.take(i as int) =~= md);
            JsonValue::Object(remove_member(out, "x-tura-optional"))
        },
        JsonValue::Array(items) => {
            proof {
                lemma_array_data(items@);
            }
            let ghost ad = array_data(items@);
            let mut out: Vec<JsonValue> = Vec::new();
            let mut i: usize = 0;
            assert(array_data(out@) =~= extension_free_items(ad.take(0)));
            while i < items.len()
                invariant
                    i <= items.len(),
                    *value == JsonValue::Array(*items),
                    ad == array_data(items@),
                    ad.len() == items.len(),
                    forall|j: int| 0 <= j < items.len() ==> #[trigger] ad[j] == json_data(items@[j]),
                    array_data(out@) == extension_free_items(ad.take(i as int)),
                decreases items.len() - i,
            {
                proof {
                    assert(decreases_to!(*value => value->Array_0));
                    assert(decreases_to!(value->Array_0 => value->Array_0@));
                    assert(decreases_to!(value->Array_0@ => value->Array_0@[i as int]));
                    lemma_array_data(out@);
                    assert(ad.take(i + 1).drop_last() =~= ad.take(i as int));
                    assert(ad.take(i + 1).last() == ad[i as int]);
                }
                let s = strip_extensions(&items[i]);
                let ghost before = out@;
                out.push(s);
                proof {
                    lemma_array_data(out@);
                    assert(out@.drop_last() =~= before);
                }
                i = i + 1;
            }
            assert(ad.take(i as int) =~= ad);
            JsonValue::Array(out)
        },
        other => copy_json(other),
    }
}

/// A schema without the runtime's `x-tura-optional` marks.
pub fn strip_tura_schema_extensions(value: JsonValue) -> (r: JsonValue)
    ensures
        json_data(r) == without_extensions(json_data(value)),
{
    strip_extensions(&value)
}

/// The value with the object reached by following `path` (member by
/// member, as a JSON pointer does) given the member `key` = `v`; unchanged
/// when the path leads nowhere or not to an object.
pub open spec fn update_at(d: JsonData, path: Seq<Seq<char>>, key: Seq<char>, v: JsonData) -> JsonData
    decreases path.len(),
{
    match d {
        JsonData::Object(ms) => if path.len() == 0 {
            JsonData::Object(set_member(ms, key, v))
        } else {
            match member_in(ms, path[0]) {
                Some(child) => JsonData::Object(with_value(ms, path[0], update_at(child, path.drop_first(), key, v))),
                None => d,
            }
        },
        _ => d,
    }
}

fn update_at_exec(value: JsonValue, path: &Vec<&str>, depth: usize, key: &str, v: JsonValue) -> (r: JsonValue)
    requires
        depth <= path.len(),
    ensures
        json_data(r) == update_at(json_data(value), path@.map_values(|s: &str| s@).skip(depth as int), key@, json_data(v)),
    decreases path.len() - depth,
{
    let ghost pv = path@.map_values(|s: &str| s@).skip(depth as int);
    match value {
        JsonValue::Object(members) => {
            if depth == path.len() {
                assert(pv.len() == 0);
                return JsonValue::Object(set_member_exec(members, key, v));
            }
            assert(pv[0] == path@[depth as int]@);
            assert(pv.drop_first() =~= path@.map_values(|s: &str| s@).skip(depth + 1));
            let probe = JsonValue::Object(members);
            let child = match json_get(&probe, path[depth]) {
                Some(c) => copy_json(c),
                None => {
                    return probe;
                },
            };
            let updated = update_at_exec(child, path, depth + 1, key, v);
            proof {
                lemma_member_in_has_key(object_data(members@), path@[depth as int]@);
            }
            match probe {
                JsonValue::Object(ms) => JsonValue::Object(set_member_exec(ms, path[depth], updated)),
                other => other,
            }
        },
        other => other,
    }
}

proof fn lemma_member_in_has_key(ms: Seq<(Seq<char>, JsonData)>, key: Seq<char>)
    ensures
        member_in(ms, key) is Some ==> has_key(ms, key),
    decreases ms.len(),
{
    if ms.len() > 0 {
        if ms[0].0 == key {
            assert(ms[0].0 == key);
        } else {
            lemma_member_in_has_key(ms.drop_first(), key);
            if member_in(ms, key) is Some {
                let k = choose|k: int| 0 <= k < ms.drop_first().len() && (#[trigger] ms.drop_first()[k]).0 == key;
                assert(ms[k + 1].0 == key);
            }
        }
    }
}

/// The JSON pointer path of command_run's `command_type` schema.
pub open spec fn command_type_path() -> Seq<Seq<char>> {
    seq!["properties"@, "commands"@, "items"@, "properties"@, "command_type"@]
}

/// command_run's schema with the `command_type` of its commands limited to
/// the listed names (`enum`).
pub fn restrict_command_run_schema(schema: JsonValue, command_names: &Vec<String>) -> (r: JsonValue)
    ensures
        json_data(r) == update_at(
            json_data(schema),
            command_type_path(),
            "enum"@,
            JsonData::Array(command_names@.map_values(|s: String| JsonData::Str(s@))),
        ),
{
    let path: Vec<&str> = vec!["properties", "commands", "items", "properties", "command_type"];
    assert(path@.map_values(|s: &str| s@).skip(0) =~= command_type_path());
    let mut names: Vec<JsonValue> = Vec::new();
    let mut i: usize = 0;
    while i < command_names.len()
        invariant
            i <= command_names.len(),
            array_data(names@) == command_names@.map_values(|s: String| JsonData::Str(s@)).take(i as int),
        decreases command_names.len() - i,
    {
        let ghost before = names@;
        names.push(JsonValue::Str(command_names[i].clone()));
        proof {
            lemma_array_data(names@);
            lemma_array_data(before);
            assert(names@.drop_last() =~= before);
            assert(array_data(names@) =~= command_names@.map_values(|s: String| JsonData::Str(s@)).take(i + 1));
        }
        i = i + 1;
    }
    assert(command_names@.map_values(|s: String| JsonData::Str(s@)).take(i as int) =~= command_names@.map_values(
        |s: String| JsonData::Str(s@),
    ));
    update_at_exec(schema, &path, 0, "enum", JsonValue::Array(names))
}

/// Whether an object is a schema of type `object`.
pub open spec fn object_schema(ms: Seq<(Seq<char>, JsonData)>) -> bool {
    member_in(ms, "type"@) == Some(JsonData::Str("object"@))
}

/// The items of an array value; none for other values.
pub open spec fn array_items_of(d: Option<JsonData>) -> Seq<JsonData> {
    match d {
        Some(JsonData::Array(items)) => items,
        _ => Seq::empty(),
    }
}

/// The names of `props` that `required` does not list, once each, in the
/// order of `props`.
pub open spec fn missing_required(required: Seq<JsonData>, props: Seq<(Seq<char>, JsonData)>) -> Seq<JsonData>
    decreases props.len(),
{
    if props.len() == 0 {
        Seq::empty()
    } else {
        let r = missing_required(required, props.drop_last());
        let k = JsonData::Str(props.last().0);
        if (required + r).contains(k) {
            r
        } else {
            r.push(k)
        }
    }
}

/// The members of an object schema made strict, from its members `ms` and
/// those members with their values already made strict (`rec`): an object
/// schema forbids additional properties unless it says otherwise, and
/// requires every property it names, after those it already required.
pub open spec fn strict_top(ms: Seq<(Seq<char>, JsonData)>, rec: Seq<(Seq<char>, JsonData)>) -> Seq<(Seq<char>, JsonData)> {
    if object_schema(ms) {
        let with_ap = if has_key(ms, "additionalProperties"@) {
            rec
        } else {
            rec.push(("additionalProperties"@, JsonData::Bool(false)))
        };
        match member_in(ms, "properties"@) {
            Some(JsonData::Object(props)) => set_member(
                with_ap,
                "required"@,
                JsonData::Array(
                    array_items_of(member_in(rec, "required"@)) + missing_required(
                        array_items_of(member_in(ms, "required"@)),
                        props,
                    ),
                ),
            ),
            _ => with_ap,
        }
    } else {
        rec
    }
}

/// A schema as strict providers want it: every object schema, at every
/// depth, made strict.
pub open spec fn strict_schema(d: JsonData) -> JsonData
    decreases d,
{
    match d {
        JsonData::Object(ms) => JsonData::Object(strict_top(ms, strict_members(ms))),
        JsonData::Array(items) => JsonData::Array(strict_items(items)),
        other => other,
    }
}

pub open spec fn strict_members(ms: Seq<(Seq<char>, JsonData)>) -> Seq<(Seq<char>, JsonData)>
    decreases ms,
{
    if ms.len() == 0 {
        Seq::empty()
    } else {
        strict_members(ms.drop_last()).push((ms.last().0, strict_schema(ms.last().1)))
    }
}

pub open spec fn strict_items(items: Seq<JsonData>) -> Seq<JsonData>
    decreases items,
{
    if items.len() == 0 {
        Seq::empty()
    } else {
        strict_items(items.drop_last()).push(strict_schema(items.last()))
    }
}

/// Whether a list holds the string `k`.
fn holds_text_item(items: &Vec<JsonValue>, k: &str) -> (b: bool)
    ensures
        b == array_data(items@).contains(JsonData::Str(k@)),
{
    proof {
        lemma_array_data(items@);
    }
    let ghost ad = array_data(items@);
    let mut i: usize = 0;
    while i < items.len()
        invariant
            i <= items.len(),
            ad == array_data(items@),
            ad.len() == items.len(),
            forall|j: int| 0 <= j < items.len() ==> #[trigger] ad[j] == json_data(items@[j]),
            forall|j: int| 0 <= j < i ==> #[trigger] ad[j] != JsonData::Str(k@),
        decreases items.len() - i,
    {
        match &items[i] {
            JsonValue::Str(t) => {
                if crate::manas::tool_catalog::same_text(t.as_str(), k) {
                    assert(ad[i as int] == JsonData::Str(k@));
                    return true;
                }
            },
            _ => {},
        }
        i = i + 1;
    }
    false
}

fn missing_required_exec(required: &Vec<JsonValue>, props: &Vec<(String, JsonValue)>) -> (r: Vec<JsonValue>)
    ensures
        array_data(r@) == missing_required(array_data(required@), object_data(props@)),
{
    proof {
        lemma_object_data(props@);
    }
    let ghost pd = object_data(props@);
    let ghost rd = array_data(required@);
    let mut out: Vec<JsonValue> = Vec::new();
    let mut i: usize = 0;
    assert(array_data(out@) =~= missing_required(rd, pd.take(0)));
    while i < props.len()
        invariant
            i <= props.len(),
            pd == object_data(props@),
            rd == array_data(required@),
            pd.len() == props.len(),
            forall|j: int| 0 <= j < props.len() ==> #[trigger] pd[j] == (props@[j].0@, json_data(props@[j].1)),
            array_data(out@) == missing_required(rd, pd.take(i as int)),
        decreases props.len() - i,
    {
        assert(pd.take(i + 1).drop_last() =~= pd.take(i as int));
        assert(pd.take(i + 1).last() == pd[i as int]);
        let key = props[i].0.as_str();
        let ghost kd = JsonData::Str(key@);
        let in_required = holds_text_item(required, key);
        let in_out = holds_text_item(&out, key);
        proof {
            let od = array_data(out@);
            assert((rd + od).contains(kd) <==> (rd.contains(kd) || od.contains(kd))) by {
                if (rd + od).contains(kd) {
                    let q = choose|q: int| 0 <= q < (rd + od).len() && (#[trigger] (rd + od)[q]) == kd;
                    if q < rd.len() {
                        assert(rd[q] == kd);
                    } else {
                        assert(od[q - rd.len()] == kd);
                    }
                }
                if rd.contains(kd) {
                    let q = choose|q: int| 0 <= q < rd.len() && #[trigger] rd[q] == kd;
                    assert((rd + od)[q] == kd);
                }
                if od.contains(kd) {
                    let q = choose|q: int| 0 <= q < od.len() && #[trigger] od[q] == kd;
                    assert((rd + od)[q + rd.len()] == kd);
                }
            }
        }
        if !in_required && !in_out {
            let ghost before = out@;
            out.push(JsonValue::Str(props[i].0.clone()));
            proof {
                lemma_array_data(out@);
                lemma_array_data(before);
                assert(out@.drop_last() =~= before);
                assert(array_data(out@) =~= array_data(before).push(kd));
            }
        }
        i = i + 1;
    }
    assert(pd.take(i as int) =~= pd);
    out
}

/// The items of the array member `key` of an object value, copied; none
/// when it is not an array.
fn array_member_items(value: &JsonValue, key: &str) -> (r: Vec<JsonValue>)
    ensures
        array_data(r@) == array_items_of(crate::json::member(json_data(*value), key@)),
{
    match json_get(value, key) {
        Some(m) => match copy_json(m) {
            JsonValue::Array(items) => items,
            _ => {
                let none: Vec<JsonValue> = Vec::new();
                assert(array_data(none@) =~= Seq::<JsonData>::empty());
                none
            },
        },
        None => {
            let none: Vec<JsonValue> = Vec::new();
            assert(array_data(none@) =~= Seq::<JsonData>::empty());
            none
        },
    }
}

fn strict_value(value: &JsonValue) -> (r: JsonValue)
    ensures
        json_data(r) == strict_schema(json_data(*value)),
    decreases value,
{
    match value {
        JsonValue::Object(members) => {
            proof {
                lemma_object_data(members@);
            }
            let ghost md = object_data(members@);
            let mut rec: Vec<(String, JsonValue)> = Vec::new();
            let mut i: usize = 0;
            assert(object_data(rec@) =~= strict_members(md.take(0)));
            while i < members.len()
                invariant
                    i <= members.len(),
                    *value == JsonValue::Object(*members),
                    md == object_data(members@),
                    md.len() == members.len(),
                    forall|j: int| 0 <= j < members.len() ==> #[trigger] md[j] == (members@[j].0@, json_data(members@[j].1)),
                    object_data(rec@) == strict_members(md.take(i as int)),
                decreases members.len() - i,
            {
                proof {
                    assert(decreases_to!(*value => value->Object_0));
                    assert(decreases_to!(value->Object_0 => value->Object_0@));
                    assert(decreases_to!(value->Object_0@ => value->Object_0@[i as int]));
                    assert(decreases_to!(value->Object_0@[i as int] => value->Object_0@[i as int].1));
                    lemma_object_data(rec@);
                    assert(md.take(i + 1).drop_last() =~= md.take(i as int));
                    assert(md.take(i + 1).last() == md[i as int]);
                }
                let s = strict_value(&members[i].1);
                let ghost before = rec@;
                rec.push((members[i].0.clone(), s));
                proof {
                    assert(rec@.drop_last() =~= before);
                    assert(object_data(rec@) =~= object_data(before).push((md[i as int].0, strict_schema(md[i as int].1))));
                }
                i = i + 1;
            }
            assert(md.take(i as int) =~= md);
            let ghost recd = object_data(rec@);
            let is_object = match crate::json::json_member_str(value, "type") {
                Some(t) => crate::manas::tool_catalog::same_text(t, "object"),
                None => false,
            };
            if !is_object {
                return JsonValue::Object(rec);
            }
            let rec_value = JsonValue::Object(rec);
            let strict_required = array_member_items(&rec_value, "required");
            let mut out = match rec_value {
                JsonValue::Object(ms) => ms,
                _ => Vec::new(),
            };
            assert(object_data(out@) == recd);
            if !has_member(members, "additionalProperties") {
                let ghost before = out@;
                out.push(("additionalProperties".to_string(), JsonValue::Bool(false)));
                proof {
                    lemma_object_data(out@);
                    lemma_object_data(before);
                    assert(out@.drop_last() =~= before);
                    assert(object_data(out@) =~= object_data(before).push(("additionalProperties"@, JsonData::Bool(false))));
                }
            }
            match json_get(value, "properties") {
                Some(p) => match p {
                    JsonValue::Object(props) => {
                        let pre_required = array_member_items(value, "required");
                        let missing = missing_required_exec(&pre_required, props);
                        let mut all = strict_required;
                        let ghost a0 = all@;
                        let mut extra = missing;
                        let ghost e0 = extra@;
                        all.append(&mut extra);
                        proof {
                            lemma_array_data(all@);
                            lemma_array_data(a0);
                            lemma_array_data(e0);
                            assert(all@ =~= a0 + e0);
                            assert(array_data(all@) =~= array_data(a0) + array_data(e0));
                        }
                        out = set_member_exec(out, "required", JsonValue::Array(all));
                    },
                    _ => {},
                },
                None => {},
            }
            JsonValue::Object(out)
        },
        JsonValue::Array(items) => {
            proof {
                lemma_array_data(items@);
            }
            let ghost ad = array_data(items@);
            let mut out: Vec<JsonValue> = Vec::new();
            let mut i: usize = 0;
            assert(array_data(out@) =~= strict_items(ad.take(0)));
            while i < items.len()
                invariant
                    i <= items.len(),
                    *value == JsonValue::Array(*items),
                    ad == array_data(items@),
                    ad.len() == items.len(),
                    forall|j: int| 0 <= j < items.len() ==> #[trigger] ad[j] == json_data(items@[j]),
                    array_data(out@) == strict_items(ad.take(i as int)),
                decreases items.len() - i,
            {
                proof {
                    assert(decreases_to!(*value => value->Array_0));
                    assert(decreases_to!(value->Array_0 => value->Array_0@));
                    assert(decreases_to!(value->Array_0@ => value->Array_0@[i as int]));
                    lemma_array_data(out@);
                    assert(ad.take(i + 1).drop_last() =~= ad.take(i as int));
                    assert(ad.take(i + 1).last() == ad[i as int]);
                }
                let s = strict_value(&items[i]);
                let ghost before = out@;
                out.push(s);
                proof {
                    lemma_array_data(out@);
                    assert(out@.drop_last() =~= before);
                }
                i = i + 1;
            }
            assert(ad.take(i as int) =~= ad);
            JsonValue::Array(out)
        },
        other => copy_json(other),
    }
}

proof fn lemma_strict_members(ms: Seq<(Seq<char>, JsonData)>)
    ensures
        strict_members(ms).len() == ms.len(),
        forall|i: int| 0 <= i < ms.len() ==> #[trigger] strict_members(ms)[i] == (ms[i].0, strict_schema(ms[i].1)),
    decreases ms.len(),
{
    if ms.len() > 0 {
        lemma_strict_members(ms.drop_last());
        assert forall|i: int| 0 <= i < ms.len() implies #[trigger] strict_members(ms)[i] == (ms[i].0, strict_schema(ms[i].1)) by {
            if i < ms.len() - 1 {
                assert(ms.drop_last()[i] == ms[i]);
            }
        }
    }
}

proof fn lemma_strict_items(items: Seq<JsonData>)
    ensures
        strict_items(items).len() == items.len(),
        forall|i: int| 0 <= i < items.len() ==> #[trigger] strict_items(items)[i] == strict_schema(items[i]),
    decreases items.len(),
{
    if items.len() > 0 {
        lemma_strict_items(items.drop_last());
        assert forall|i: int| 0 <= i < items.len() implies #[trigger] strict_items(items)[i] == strict_schema(items[i]) by {
            if i < items.len() - 1 {
                assert(items.drop_last()[i] == items[i]);
            }
        }
    }
}

/// A member found in an object is found, made strict, among its strict
/// members.
proof fn lemma_member_in_strict(ms: Seq<(Seq<char>, JsonData)>, key: Seq<char>)
    ensures
        member_in(strict_members(ms), key) == match member_in(ms, key) {
            Some(v) => Some(strict_schema(v)),
            None => None,
        },
    decreases ms.len(),
{
    lemma_strict_members(ms);
    if ms.len() > 0 {
        lemma_strict_members(ms.drop_first());
        assert(strict_members(ms).drop_first() =~= strict_members(ms.drop_first()));
        lemma_member_in_strict(ms.drop_first(), key);
    }
}

proof fn lemma_has_key_strict(ms: Seq<(Seq<char>, JsonData)>, key: Seq<char>)
    ensures
        has_key(strict_members(ms), key) == has_key(ms, key),
{
    lemma_strict_members(ms);
    if has_key(ms, key) {
        let i = choose|i: int| 0 <= i < ms.len() && (#[trigger] ms[i]).0 == key;
        assert(strict_members(ms)[i].0 == key);
    }
    if has_key(strict_members(ms), key) {
        let i = choose|i: int| 0 <= i < strict_members(ms).len() && (#[trigger] strict_members(ms)[i]).0 == key;
        assert(ms[i].0 == key);
    }
}

proof fn lemma_member_in_with_value(ms: Seq<(Seq<char>, JsonData)>, key: Seq<char>, v: JsonData)
    requires
        has_key(ms, key),
    ensures
        member_in(with_value(ms, key, v), key) == Some(v),
    decreases ms.len(),
{
    let w = with_value(ms, key, v);
    if ms[0].0 == key {
        assert(w[0] == (key, v));
    } else {
        let i = choose|i: int| 0 <= i < ms.len() && (#[trigger] ms[i]).0 == key;
        assert(ms.drop_first()[i - 1].0 == key);
        lemma_member_in_with_value(ms.drop_first(), key, v);
        assert(w.drop_first() =~= with_value(ms.drop_first(), key, v));
    }
}

proof fn lemma_member_in_push_new(ms: Seq<(Seq<char>, JsonData)>, key: Seq<char>, v: JsonData)
    requires
        !has_key(ms, key),
    ensures
        member_in(ms.push((key, v)), key) == Some(v),
    decreases ms.len(),
{
    if ms.len() > 0 {
        assert(ms[0].0 != key);
        assert(ms.push((key, v)).drop_first() =~= ms.drop_first().push((key, v)));
        assert forall|i: int| 0 <= i < ms.drop_first().len() implies (#[trigger] ms.drop_first()[i]).0 != key by {
            assert(ms[i + 1].0 != key);
        }
        lemma_member_in_push_new(ms.drop_first(), key, v);
    }
}

proof fn lemma_set_member(ms: Seq<(Seq<char>, JsonData)>, key: Seq<char>, v: JsonData, other: Seq<char>)
    ensures
        member_in(set_member(ms, key, v), key) == Some(v),
        has_key(ms, other) ==> has_key(set_member(ms, key, v), other),
{
    if has_key(ms, key) {
        lemma_member_in_with_value(ms, key, v);
        if has_key(ms, other) {
            let i = choose|i: int| 0 <= i < ms.len() && (#[trigger] ms[i]).0 == other;
            assert(with_value(ms, key, v)[i].0 == other);
        }
    } else {
        lemma_member_in_push_new(ms, key, v);
        if has_key(ms, other) {
            let i = choose|i: int| 0 <= i < ms.len() && (#[trigger] ms[i]).0 == other;
            assert(ms.push((key, v))[i].0 == other);
        }
    }
}

proof fn lemma_missing_required(required: Seq<JsonData>, props: Seq<(Seq<char>, JsonData)>, i: int)
    requires
        0 <= i < props.len(),
    ensures
        (required + missing_required(required, props)).contains(JsonData::Str(props[i].0)),
    decreases props.len(),
{
    let r = missing_required(required, props.drop_last());
    let k = JsonData::Str(props.last().0);
    if i < props.len() - 1 {
        lemma_missing_required(required, props.drop_last(), i);
        assert(props.drop_last()[i] == props[i]);
        let q = choose|q: int| 0 <= q < (required + r).len() && (#[trigger] (required + r)[q]) == JsonData::Str(props[i].0);
        if !(required + r).contains(k) {
            assert((required + r.push(k))[q] == JsonData::Str(props[i].0));
        }
    } else {
        if !(required + r).contains(k) {
            assert((required + r.push(k))[required.len() + r.len() as int] == k);
        }
    }
}

/// A strict object schema forbids additional properties unless it says
/// otherwise, and requires every property it names.
pub proof fn law_strict_object_schema_requires_every_property(
    ms: Seq<(Seq<char>, JsonData)>,
    props: Seq<(Seq<char>, JsonData)>,
    i: int,
)
    requires
        object_schema(ms),
        member_in(ms, "properties"@) == Some(JsonData::Object(props)),
        0 <= i < props.len(),
    ensures
        has_key(strict_top(ms, strict_members(ms)), "additionalProperties"@),
        array_items_of(member_in(strict_top(ms, strict_members(ms)), "required"@)).contains(JsonData::Str(props[i].0)),
{
    let rec = strict_members(ms);
    lemma_has_key_strict(ms, "additionalProperties"@);
    let with_ap = if has_key(ms, "additionalProperties"@) {
        rec
    } else {
        rec.push(("additionalProperties"@, JsonData::Bool(false)))
    };
    if !has_key(ms, "additionalProperties"@) {
        assert(with_ap[rec.len() as int].0 == "additionalProperties"@);
    }
    assert(has_key(with_ap, "additionalProperties"@));
    let req0 = array_items_of(member_in(ms, "required"@));
    let strict_req = array_items_of(member_in(rec, "required"@));
    let missing = missing_required(req0, props);
    let v = JsonData::Array(strict_req + missing);
    lemma_set_member(with_ap, "required"@, v, "additionalProperties"@);
    assert(strict_top(ms, rec) == set_member(with_ap, "required"@, v));
    lemma_missing_required(req0, props, i);
    let k = JsonData::Str(props[i].0);
    let q = choose|q: int| 0 <= q < (req0 + missing).len() && (#[trigger] (req0 + missing)[q]) == k;
    lemma_member_in_strict(ms, "required"@);
    if q < req0.len() {
        let items = req0;
        assert(member_in(ms, "required"@) == Some(JsonData::Array(items)));
        lemma_strict_items(items);
        assert(strict_req == strict_items(items));
        assert(items[q] == k);
        assert(strict_req[q] == k);
        assert((strict_req + missing)[q] == k);
    } else {
        match member_in(ms, "required"@) {
            Some(JsonData::Array(items)) => {
                lemma_strict_items(items);
            },
            _ => {},
        }
        assert(strict_req.len() == req0.len());
        assert((strict_req + missing)[q] == k);
    }
}

/// A provider schema made strict: every object schema forbids additional
/// properties unless it says otherwise and requires all its properties.
pub fn strict_provider_schema(value: JsonValue) -> (r: JsonValue)
    ensures
        json_data(r) == strict_schema(json_data(value)),
{
    strict_value(&value)
}

/// A tool's parameter schema as it is handed on; the provider takes it as
/// the interface gives it.
pub fn sanitize_provider_schema(value: JsonValue) -> (r: JsonValue)
    ensures
        json_data(r) == json_data(value),
{
    value
}

/// The name of a tool interface; `unknown_tool` when it gives none.
pub open spec fn interface_name(interface: JsonData) -> Seq<char> {
    match member_text(interface, "name"@) {
        Some(n) => n,
        None => "unknown_tool"@,
    }
}

/// The description of a tool interface; empty when it gives none.
pub open spec fn interface_description(interface: JsonData) -> Seq<char> {
    match member_text(interface, "description"@) {
        Some(d) => d,
        None => Seq::empty(),
    }
}

/// The input schema of a tool interface; `{"type": "object"}` when it gives
/// none.
pub open spec fn interface_input_schema(interface: JsonData) -> JsonData {
    match member(interface, "input_schema"@) {
        Some(s) => s,
        None => JsonData::Object(seq![("type"@, JsonData::Str("object"@))]),
    }
}

/// A schema of type `array` becomes the `requests` property of an object
/// schema that requires it; other schemas stay as they are.
pub open spec fn wrap_array_schema(schema: JsonData) -> JsonData {
    if member_text(schema, "type"@) == Some("array"@) {
        JsonData::Object(
            seq![
                ("properties"@, JsonData::Object(seq![("requests"@, schema)])),
                ("required"@, JsonData::Array(seq![JsonData::Str("requests"@)])),
                ("type"@, JsonData::Str("object"@)),
            ],
        )
    } else {
        schema
    }
}

pub open spec fn text_items(names: Seq<Seq<char>>) -> Seq<JsonData> {
    names.map_values(|t: Seq<char>| JsonData::Str(t))
}

/// The parameters of a tool's function schema: its input schema, with
/// command_run's `command_type` limited to the listed commands when a set
/// is given, wrapped when it is an array, made strict when asked, and
/// without the runtime's own marks.
pub open spec fn provider_parameters(
    interface: JsonData,
    allowed: Option<Seq<Seq<char>>>,
    active: Seq<char>,
    strict: bool,
) -> JsonData {
    let input = interface_input_schema(interface);
    let restricted = match allowed {
        Some(c) => if interface_name(interface) == COMMAND_RUN_TOOL@ {
            update_at(input, command_type_path(), "enum"@, JsonData::Array(text_items(present_in_order(description_order(active), c))))
        } else {
            input
        },
        None => input,
    };
    let wrapped = wrap_array_schema(restricted);
    without_extensions(
        if strict {
            strict_schema(wrapped)
        } else {
            wrapped
        },
    )
}

/// The description in a tool's function schema: command_run's own for the
/// offered commands (the default ones when no set is given), the
/// interface's for other tools.
pub open spec fn provider_description(
    interface: JsonData,
    allowed: Option<Seq<Seq<char>>>,
    active: Seq<char>,
    prompts: CommandPrompts,
) -> Seq<char> {
    if interface_name(interface) == COMMAND_RUN_TOOL@ {
        match allowed {
            Some(c) => description_text(interface_description(interface), c, active, prompts),
            None => description_text(interface_description(interface), default_commands(active), active, prompts),
        }
    } else {
        interface_description(interface)
    }
}

/// A function schema as the provider receives it.
pub open spec fn function_schema(description: Seq<char>, name: Seq<char>, parameters: JsonData, strict: bool) -> JsonData {
    JsonData::Object(
        seq![
            ("function"@, JsonData::Object(
                seq![
                    ("description"@, JsonData::Str(description)),
                    ("name"@, JsonData::Str(name)),
                    ("parameters"@, parameters),
                    ("strict"@, JsonData::Bool(strict)),
                ],
            )),
            ("type"@, JsonData::Str("function"@)),
        ],
    )
}

/// The function schema that the provider receives for a tool interface.
pub open spec fn provider_tool(
    interface: JsonData,
    allowed: Option<Seq<Seq<char>>>,
    active: Seq<char>,
    strict: bool,
    prompts: CommandPrompts,
) -> JsonData {
    function_schema(
        provider_description(interface, allowed, active, prompts),
        interface_name(interface),
        provider_parameters(interface, allowed, active, strict),
        strict,
    )
}

fn object_of(members: Vec<(String, JsonValue)>) -> (r: JsonValue)
    ensures
        json_data(r) == JsonData::Object(object_data(members@)),
{
    JsonValue::Object(members)
}

fn member_pair(key: &str, v: JsonValue) -> (r: (String, JsonValue))
    ensures
        r.0@ == key@,
        json_data(r.1) == json_data(v),
{
    (key.to_owned(), v)
}

fn function_schema_exec(description: String, name: String, parameters: JsonValue, strict: bool) -> (r: JsonValue)
    ensures
        json_data(r) == function_schema(description@, name@, json_data(parameters), strict),
{
    let ghost dv = description@;
    let ghost nv = name@;
    let ghost pd = json_data(parameters);
    let mut function: Vec<(String, JsonValue)> = Vec::new();
    function.push(member_pair("description", JsonValue::Str(description)));
    function.push(member_pair("name", JsonValue::Str(name)));
    function.push(member_pair("parameters", parameters));
    function.push(member_pair("strict", JsonValue::Bool(strict)));
    proof {
        lemma_object_data(function@);
        assert(object_data(function@) =~= seq![
            ("description"@, JsonData::Str(dv)),
            ("name"@, JsonData::Str(nv)),
            ("parameters"@, pd),
            ("strict"@, JsonData::Bool(strict)),
        ]);
    }
    let f = object_of(function);
    let mut outer: Vec<(String, JsonValue)> = Vec::new();
    outer.push(member_pair("function", f));
    outer.push(member_pair("type", JsonValue::Str("function".to_owned())));
    proof {
        lemma_object_data(outer@);
        assert(object_data(outer@) =~= seq![
            ("function"@, json_data(f)),
            ("type"@, JsonData::Str("function"@)),
        ]);
    }
    object_of(outer)
}

fn provider_parameters_exec(
    interface: &JsonValue,
    allowed_commands: Option<&Vec<String>>,
    is_command_run: bool,
    active: &str,
    strict: bool,
) -> (r: JsonValue)
    requires
        is_command_run == (interface_name(json_data(*interface)) == COMMAND_RUN_TOOL@),
    ensures
        json_data(r) == provider_parameters(
            json_data(*interface),
            match allowed_commands {
                Some(c) => Some(text_views(c@)),
                None => None,
            },
            active@,
            strict,
        ),
{
    let input_default = match json_get(interface, "input_schema") {
        Some(s) => copy_json(s),
        None => {
            let mut ms: Vec<(String, JsonValue)> = Vec::new();
            ms.push(member_pair("type", JsonValue::Str("object".to_owned())));
            proof {
                lemma_object_data(ms@);
                assert(object_data(ms@) =~= seq![("type"@, JsonData::Str("object"@))]);
            }
            object_of(ms)
        },
    };
    let input = sanitize_provider_schema(input_default);
    let restricted = match allowed_commands {
        Some(c) => if is_command_run {
            let listed = command_list_for_description(c, active);
            let r = restrict_command_run_schema(input, &listed);
            assert(listed@.map_values(|s: String| JsonData::Str(s@)) =~= text_items(text_views(listed@)));
            r
        } else {
            input
        },
        None => input,
    };
    let is_array = match json_member_str(&restricted, "type") {
        Some(t) => same_text(t, "array"),
        None => false,
    };
    let wrapped = if is_array {
        let ghost rd = json_data(restricted);
        let mut inner: Vec<(String, JsonValue)> = Vec::new();
        inner.push(member_pair("requests", restricted));
        let mut required: Vec<JsonValue> = Vec::new();
        required.push(JsonValue::Str("requests".to_owned()));
        let mut ms: Vec<(String, JsonValue)> = Vec::new();
        proof {
            lemma_object_data(inner@);
            lemma_array_data(required@);
            assert(object_data(inner@) =~= seq![("requests"@, rd)]);
            assert(array_data(required@) =~= seq![JsonData::Str("requests"@)]);
        }
        ms.push(member_pair("properties", object_of(inner)));
        ms.push(member_pair("required", JsonValue::Array(required)));
        ms.push(member_pair("type", JsonValue::Str("object".to_owned())));
        proof {
            lemma_object_data(ms@);
            assert(object_data(ms@) =~= seq![
                ("properties"@, JsonData::Object(seq![("requests"@, rd)])),
                ("required"@, JsonData::Array(seq![JsonData::Str("requests"@)])),
                ("type"@, JsonData::Str("object"@)),
            ]);
        }
        let w = object_of(ms);
        assert(member_text(rd, "type"@) == Some("array"@));
        assert(json_data(w) == wrap_array_schema(rd));
        w
    } else {
        restricted
    };
    let tightened = if strict {
        strict_provider_schema(wrapped)
    } else {
        wrapped
    };
    strip_tura_schema_extensions(tightened)
}

/// The provider's function schema for a tool interface.
pub fn tool_interface_to_provider_schema_with_commands(
    interface: JsonValue,
    allowed_commands: Option<&Vec<String>>,
    active: &str,
    strict: bool,
    prompts: &CommandPrompts,
) -> (r: JsonValue)
    ensures
        json_data(r) == provider_tool(
            json_data(interface),
            match allowed_commands {
                Some(c) => Some(text_views(c@)),
                None => None,
            },
            active@,
            strict,
            *prompts,
        ),
{
    let name: String = match json_member_str(&interface, "name") {
        Some(n) => n.to_owned(),
        None => "unknown_tool".to_owned(),
    };
    let original: String = match json_member_str(&interface, "description") {
        Some(d) => d.to_owned(),
        None => {
            proof {
                reveal_strlit("");
            }
            "".to_owned()
        },
    };
    let is_command_run = same_text(name.as_str(), COMMAND_RUN_TOOL);
    let description = if is_command_run {
        command_run_description_for_active_shell(original.as_str(), allowed_commands, active, prompts)
    } else {
        original
    };
    let ghost allowed_v = match allowed_commands {
        Some(c) => Some(text_views(c@)),
        None => None,
    };
    assert(name@ == interface_name(json_data(interface)));
    assert(original@ == interface_description(json_data(interface)));
    assert(description@ == provider_description(json_data(interface), allowed_v, active@, *prompts));
    let parameters = provider_parameters_exec(&interface, allowed_commands, is_command_run, active, strict);
    function_schema_exec(description, name, parameters, strict)
}

/// The commands that an agent's capabilities offer: those other than
/// command_run, or the default ones when that leaves none.
pub open spec fn agent_command_names(capability_commands: Seq<Seq<char>>, active: Seq<char>) -> Seq<Seq<char>> {
    if other_than_command_run(capability_commands).len() > 0 {
        other_than_command_run(capability_commands)
    } else {
        default_commands(active)
    }
}

/// The provider's function schema of a tool interface for an agent, whose
/// capabilities are given by their command names.
pub fn tool_interface_to_provider_schema_for_agent(
    interface: JsonValue,
    capability_commands: &Vec<String>,
    active: &str,
    strict: bool,
    prompts: &CommandPrompts,
) -> (r: JsonValue)
    ensures
        json_data(r) == provider_tool(
            json_data(interface),
            Some(agent_command_names(text_views(capability_commands@), active@)),
            active@,
            strict,
            *prompts,
        ),
{
    let allowed = command_run_commands_for_agent(capability_commands, active);
    let ghost a = text_views(allowed@);
    let ghost b = agent_command_names(text_views(capability_commands@), active@);
    let ghost idata = json_data(interface);
    let r = tool_interface_to_provider_schema_with_commands(interface, Some(&allowed), active, strict, prompts);
    proof {
        assert forall|x: Seq<char>| a.contains(x) <==> b.contains(x) by {}
        lemma_description_membership(interface_description(idata), a, b, active@, *prompts);
        lemma_present_in_order_membership(description_order(active@), a, b);
    }
    r
}

} // verus!
