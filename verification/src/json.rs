//! JSON values as the runtime reads them from logs, tool arguments and tool
//! results: a tree of plain values, with serde_json doing the reading and the
//! writing of JSON text.
use vstd::prelude::*;
use crate::text::chars_of;

verus! {

/// A JSON value. A number keeps the text that serde_json writes for it.
#[derive(Debug)]
pub enum JsonValue {
    Null,
    Bool(bool),
    Number(String),
    Str(String),
    Array(Vec<JsonValue>),
    Object(Vec<(String, JsonValue)>),
}

/// A JSON value as plain values: the model that contracts speak of.
pub enum JsonData {
    Null,
    Bool(bool),
    Number(Seq<char>),
    Str(Seq<char>),
    Array(Seq<JsonData>),
    Object(Seq<(Seq<char>, JsonData)>),
}

pub open spec fn json_data(v: JsonValue) -> JsonData
    decreases v,
{
    match v {
        JsonValue::Null => JsonData::Null,
        JsonValue::Bool(b) => JsonData::Bool(b),
        JsonValue::Number(t) => JsonData::Number(t@),
        JsonValue::Str(s) => JsonData::Str(s@),
        JsonValue::Array(items) => JsonData::Array(array_data(items@)),
        JsonValue::Object(members) => JsonData::Object(object_data(members@)),
    }
}

pub open spec fn array_data(items: Seq<JsonValue>) -> Seq<JsonData>
    decreases items,
{
    if items.len() == 0 {
        Seq::empty()
    } else {
        array_data(items.drop_last()).push(json_data(items.last()))
    }
}

pub open spec fn object_data(members: Seq<(String, JsonValue)>) -> Seq<(Seq<char>, JsonData)>
    decreases members,
{
    if members.len() == 0 {
        Seq::empty()
    } else {
        object_data(members.drop_last()).push(
            (members.last().0@, json_data(members.last().1)),
        )
    }
}

pub proof fn lemma_array_data(items: Seq<JsonValue>)
    ensures
        array_data(items).len() == items.len(),
        forall|i: int| 0 <= i < items.len() ==> #[trigger] array_data(items)[i] == json_data(items[i]),
    decreases items.len(),
{
    if items.len() > 0 {
        lemma_array_data(items.drop_last());
        assert forall|i: int| 0 <= i < items.len() implies #[trigger] array_data(items)[i]
            == json_data(items[i]) by {
            if i < items.len() - 1 {
                assert(items.drop_last()[i] == items[i]);
            }
        }
    }
}

pub proof fn lemma_object_data(members: Seq<(String, JsonValue)>)
    ensures
        object_data(members).len() == members.len(),
        forall|i: int|
            0 <= i < members.len() ==> #[trigger] object_data(members)[i] == (
                members[i].0@,
                json_data(members[i].1),
            ),
    decreases members.len(),
{
    if members.len() > 0 {
        lemma_object_data(members.drop_last());
        assert forall|i: int| 0 <= i < members.len() implies #[trigger] object_data(members)[i] == (
            members[i].0@,
            json_data(members[i].1),
        ) by {
            if i < members.len() - 1 {
                assert(members.drop_last()[i] == members[i]);
            }
        }
    }
}

pub open spec fn opt_json_data(o: Option<JsonValue>) -> Option<JsonData> {
    match o {
        Some(v) => Some(json_data(v)),
        None => None,
    }
}

/// What `serde_json::from_str::<serde_json::Value>` reads from a text, when
/// the text is JSON.
pub uninterp spec fn parsed_json(text: Seq<char>) -> Option<JsonData>;

/// The compact JSON text that serde_json writes for a value.
pub uninterp spec fn json_text(v: JsonData) -> Seq<char>;

/// The indented JSON text that `serde_json::to_string_pretty` writes for a
/// value.
pub uninterp spec fn json_pretty_text(v: JsonData) -> Seq<char>;

#[verifier::external_type_specification]
#[verifier::external_body]
pub struct ExSerdeJsonValue(serde_json::Value);

/// The serde_json value of a `JsonValue`, member for member.
#[verifier::external_body]
fn to_serde(v: &JsonValue) -> serde_json::Value {
    match v {
        JsonValue::Null => serde_json::Value::Null,
        JsonValue::Bool(b) => serde_json::Value::Bool(*b),
        JsonValue::Number(t) => t.parse::<serde_json::Number>().map(serde_json::Value::Number).unwrap_or(serde_json::Value::Null),
        JsonValue::Str(s) => serde_json::Value::String(s.clone()),
        JsonValue::Array(items) => serde_json::Value::Array(items.iter().map(to_serde).collect()),
        JsonValue::Object(members) => serde_json::Value::Object(members.iter().map(|(k, x)| (k.clone(), to_serde(x))).collect()),
    }
}

/// The `JsonValue` of a serde_json value, member for member.
#[verifier::external_body]
fn from_serde(v: &serde_json::Value) -> JsonValue {
    match v {
        serde_json::Value::Null => JsonValue::Null,
        serde_json::Value::Bool(b) => JsonValue::Bool(*b),
        serde_json::Value::Number(n) => JsonValue::Number(n.to_string()),
        serde_json::Value::String(s) => JsonValue::Str(s.clone()),
        serde_json::Value::Array(items) => JsonValue::Array(items.iter().map(from_serde).collect()),
        serde_json::Value::Object(members) => JsonValue::Object(members.iter().map(|(k, x)| (k.clone(), from_serde(x))).collect()),
    }
}

/// Reads `text` with `serde_json::from_str::<serde_json::Value>`: the value
/// when the text is JSON, none otherwise. The contract names the result: it
/// is a function of the text alone.
#[verifier::external_body]
pub fn parse_json(text: &str) -> (r: Option<JsonValue>)
    ensures
        opt_json_data(r) == parsed_json(text@),
{
    match serde_json::from_str::<serde_json::Value>(text) {
        Ok(v) => Some(from_serde(&v)),
        Err(_) => None,
    }
}

/// How many members of an object are named `key`.
pub open spec fn key_count(ms: Seq<(Seq<char>, JsonData)>, key: Seq<char>) -> nat
    decreases ms.len(),
{
    if ms.len() == 0 {
        0
    } else {
        key_count(ms.drop_last(), key) + if ms.last().0 == key {
            1nat
        } else {
            0nat
        }
    }
}

/// A value that is not a list or an object.
pub open spec fn scalar(d: JsonData) -> bool {
    !(d is Array) && !(d is Object)
}

/// An object whose members are scalars or lists of scalars: well within
/// the nesting depth that serde_json reads back.
pub open spec fn flat_object(d: JsonData) -> bool {
    match d {
        JsonData::Object(ms) => forall|i: int|
            0 <= i < ms.len() ==> match #[trigger] ms[i].1 {
                JsonData::Array(items) => forall|j: int| 0 <= j < items.len() ==> scalar(#[trigger] items[j]),
                other => scalar(other),
            },
        _ => false,
    }
}

/// Writes a value with `serde_json::to_string` (the text that `Display`
/// gives too). The contract names the result: it is a function of the
/// value alone. serde_json reads what it writes back: for a flat object,
/// the text is read as JSON again, and a member named only once has the
/// same text there.
#[verifier::external_body]
pub fn json_to_string(v: &JsonValue) -> (s: String)
    ensures
        s@ == json_text(json_data(*v)),
        flat_object(json_data(*v)) ==> parsed_json(s@) is Some,
        flat_object(json_data(*v)) ==> forall|key: Seq<char>|
            #![trigger member_text(parsed_json(s@).unwrap(), key)]
            key_count(json_data(*v)->Object_0, key) == 1 ==> member_text(parsed_json(s@).unwrap(), key)
                == member_text(json_data(*v), key),
{
    serde_json::to_string(&to_serde(v)).unwrap_or_default()
}

/// Writes a value with `serde_json::to_string_pretty`. The contract names
/// the result: it is a function of the value alone.
#[verifier::external_body]
pub fn json_to_string_pretty(v: &JsonValue) -> (s: String)
    ensures
        s@ == json_pretty_text(json_data(*v)),
{
    serde_json::to_string_pretty(&to_serde(v)).unwrap_or_default()
}

/// The member `key` of an object (the first one so named); none for other
/// values (`Value::get` with a string index).
pub open spec fn member(d: JsonData, key: Seq<char>) -> Option<JsonData> {
    match d {
        JsonData::Object(ms) => member_in(ms, key),
        _ => None,
    }
}

pub open spec fn member_in(ms: Seq<(Seq<char>, JsonData)>, key: Seq<char>) -> Option<JsonData>
    decreases ms.len(),
{
    if ms.len() == 0 {
        None
    } else if ms[0].0 == key {
        Some(ms[0].1)
    } else {
        member_in(ms.drop_first(), key)
    }
}

/// The text of a string value (`Value::as_str`).
pub open spec fn as_text(d: Option<JsonData>) -> Option<Seq<char>> {
    match d {
        Some(JsonData::Str(s)) => Some(s),
        _ => None,
    }
}

/// The flag of a boolean value (`Value::as_bool`).
pub open spec fn as_flag(d: Option<JsonData>) -> Option<bool> {
    match d {
        Some(JsonData::Bool(b)) => Some(b),
        _ => None,
    }
}

/// The items of an array value (`Value::as_array`).
pub open spec fn as_items(d: Option<JsonData>) -> Option<Seq<JsonData>> {
    match d {
        Some(JsonData::Array(items)) => Some(items),
        _ => None,
    }
}

pub open spec fn opt_ref_data(o: Option<&JsonValue>) -> Option<JsonData> {
    match o {
        Some(v) => Some(json_data(*v)),
        None => None,
    }
}

/// The member `key` of an object value.
pub fn json_get<'a>(v: &'a JsonValue, key: &str) -> (r: Option<&'a JsonValue>)
    ensures
        opt_ref_data(r) == member(json_data(*v), key@),
{
    match v {
        JsonValue::Object(members) => {
            let ghost md = object_data(members@);
            proof {
                lemma_object_data(members@);
            }
            let kv = chars_of(key);
            let mut i: usize = 0;
            assert(md.skip(0) =~= md);
            while i < members.len()
                invariant
                    i <= members.len(),
                    md == object_data(members@),
                    json_data(*v) == JsonData::Object(md),
                    md.len() == members.len(),
                    forall|j: int| 0 <= j < members.len() ==> #[trigger] md[j] == (
                        members@[j].0@,
                        json_data(members@[j].1),
                    ),
                    kv@ == key@,
                    member_in(md.skip(i as int), key@) == member_in(md, key@),
                decreases members.len() - i,
            {
                assert(md.skip(i as int).drop_first() =~= md.skip(i + 1));
                assert(md.skip(i as int)[0] == md[i as int]);
                let name = chars_of(members[i].0.as_str());
                if crate::context::text_truncate::same_chars(&name, &kv) {
                    assert(md[i as int].0 == key@);
                    assert(member_in(md.skip(i as int), key@) == Some(md[i as int].1));
                    assert(json_data(*v) == JsonData::Object(md));
                    return Some(&members[i].1);
                }
                i = i + 1;
            }
            None
        },
        _ => None,
    }
}

/// The text of a string value.
pub fn json_as_str(v: &JsonValue) -> (r: Option<&str>)
    ensures
        match r {
            Some(s) => as_text(Some(json_data(*v))) == Some(s@),
            None => as_text(Some(json_data(*v))) is None,
        },
{
    match v {
        JsonValue::Str(s) => Some(s.as_str()),
        _ => None,
    }
}

/// The flag of a boolean value.
pub fn json_as_bool(v: &JsonValue) -> (r: Option<bool>)
    ensures
        r == as_flag(Some(json_data(*v))),
{
    match v {
        JsonValue::Bool(b) => Some(*b),
        _ => None,
    }
}

/// The items of an array value.
pub fn json_as_array(v: &JsonValue) -> (r: Option<&Vec<JsonValue>>)
    ensures
        match r {
            Some(items) => as_items(Some(json_data(*v))) == Some(array_data(items@)),
            None => as_items(Some(json_data(*v))) is None,
        },
{
    match v {
        JsonValue::Array(items) => Some(items),
        _ => None,
    }
}

/// The text of the string member `key` of a value, if it has one.
pub open spec fn member_text(d: JsonData, key: Seq<char>) -> Option<Seq<char>> {
    as_text(member(d, key))
}

pub fn json_member_str<'a>(v: &'a JsonValue, key: &str) -> (r: Option<&'a str>)
    ensures
        match r {
            Some(s) => member_text(json_data(*v), key@) == Some(s@),
            None => member_text(json_data(*v), key@) is None,
        },
{
    match json_get(v, key) {
        Some(m) => json_as_str(m),
        None => None,
    }
}


/// A copy of a value, member for member.
pub fn copy_json(v: &JsonValue) -> (r: JsonValue)
    ensures
        json_data(r) == json_data(*v),
    decreases v,
{
    match v {
        JsonValue::Null => JsonValue::Null,
        JsonValue::Bool(b) => JsonValue::Bool(*b),
        JsonValue::Number(t) => JsonValue::Number(t.clone()),
        JsonValue::Str(s) => JsonValue::Str(s.clone()),
        JsonValue::Array(items) => {
            proof {
                lemma_array_data(items@);
            }
            let mut out: Vec<JsonValue> = Vec::new();
            let mut i: usize = 0;
            while i < items.len()
                invariant
                    i <= items.len(),
                    *v == JsonValue::Array(*items),
                    out.len() == i,
                    forall|j: int| 0 <= j < i ==> #[trigger] json_data(out@[j]) == json_data(items@[j]),
                decreases items.len() - i,
            {
                proof {
                    assert(decreases_to!(*v => v->Array_0));
                    assert(decreases_to!(v->Array_0 => v->Array_0@));
                    assert(decreases_to!(v->Array_0@ => v->Array_0@[i as int]));
                }
                let c = copy_json(&items[i]);
                out.push(c);
                i = i + 1;
            }
            proof {
                lemma_array_data(out@);
                assert(array_data(out@) =~= array_data(items@));
            }
            JsonValue::Array(out)
        },
        JsonValue::Object(members) => {
            proof {
                lemma_object_data(members@);
            }
            let mut out: Vec<(String, JsonValue)> = Vec::new();
            let mut i: usize = 0;
            while i < members.len()
                invariant
                    i <= members.len(),
                    *v == JsonValue::Object(*members),
                    out.len() == i,
                    forall|j: int|
                        0 <= j < i ==> #[trigger] out@[j].0@ == members@[j].0@ && json_data(out@[j].1)
                            == json_data(members@[j].1),
                decreases members.len() - i,
            {
                proof {
                    assert(decreases_to!(*v => v->Object_0));
                    assert(decreases_to!(v->Object_0 => v->Object_0@));
                    assert(decreases_to!(v->Object_0@ => v->Object_0@[i as int]));
                    assert(decreases_to!(v->Object_0@[i as int] => v->Object_0@[i as int].1));
                }
                let c = copy_json(&members[i].1);
                out.push((members[i].0.clone(), c));
                i = i + 1;
            }
            proof {
                lemma_object_data(out@);
                assert(object_data(out@) =~= object_data(members@));
            }
            JsonValue::Object(out)
        },
    }
}


/// Whether two values are equal: the same kind, the same texts and flags,
/// and equal items and members in the same order.
pub fn json_eq(a: &JsonValue, b: &JsonValue) -> (r: bool)
    ensures
        r == (json_data(*a) == json_data(*b)),
    decreases a,
{
    match (a, b) {
        (JsonValue::Null, JsonValue::Null) => true,
        (JsonValue::Bool(x), JsonValue::Bool(y)) => *x == *y,
        (JsonValue::Number(x), JsonValue::Number(y)) => {
            let r = *x == *y;
            proof {
                if json_data(*a) == json_data(*b) {
                    assert(x@ == y@);
                }
            }
            r
        },
        (JsonValue::Str(x), JsonValue::Str(y)) => *x == *y,
        (JsonValue::Array(xs), JsonValue::Array(ys)) => {
            proof {
                lemma_array_data(xs@);
                lemma_array_data(ys@);
            }
            if xs.len() != ys.len() {
                return false;
            }
            let mut i: usize = 0;
            while i < xs.len()
                invariant
                    i <= xs.len() == ys.len(),
                    *a == JsonValue::Array(*xs),
                    *b == JsonValue::Array(*ys),
                    array_data(xs@).len() == xs.len(),
                    array_data(ys@).len() == ys.len(),
                    forall|j: int| 0 <= j < xs.len() ==> #[trigger] array_data(xs@)[j] == json_data(xs@[j]),
                    forall|j: int| 0 <= j < ys.len() ==> #[trigger] array_data(ys@)[j] == json_data(ys@[j]),
                    forall|j: int| 0 <= j < i ==> json_data(#[trigger] xs@[j]) == json_data(ys@[j]),
                decreases xs.len() - i,
            {
                proof {
                    assert(decreases_to!(*a => a->Array_0));
                    assert(decreases_to!(a->Array_0 => a->Array_0@));
                    assert(decreases_to!(a->Array_0@ => a->Array_0@[i as int]));
                }
                if !json_eq(&xs[i], &ys[i]) {
                    proof {
                        assert(array_data(xs@)[i as int] != array_data(ys@)[i as int]);
                    }
                    return false;
                }
                i = i + 1;
            }
            proof {
                assert(array_data(xs@) =~= array_data(ys@));
            }
            true
        },
        (JsonValue::Object(xs), JsonValue::Object(ys)) => {
            proof {
                lemma_object_data(xs@);
                lemma_object_data(ys@);
            }
            if xs.len() != ys.len() {
                return false;
            }
            let mut i: usize = 0;
            while i < xs.len()
                invariant
                    i <= xs.len() == ys.len(),
                    *a == JsonValue::Object(*xs),
                    *b == JsonValue::Object(*ys),
                    object_data(xs@).len() == xs.len(),
                    object_data(ys@).len() == ys.len(),
                    forall|j: int| 0 <= j < xs.len() ==> #[trigger] object_data(xs@)[j] == (xs@[j].0@, json_data(xs@[j].1)),
                    forall|j: int| 0 <= j < ys.len() ==> #[trigger] object_data(ys@)[j] == (ys@[j].0@, json_data(ys@[j].1)),
                    forall|j: int| 0 <= j < i ==> #[trigger] object_data(xs@)[j] == object_data(ys@)[j],
                decreases xs.len() - i,
            {
                proof {
                    assert(decreases_to!(*a => a->Object_0));
                    assert(decreases_to!(a->Object_0 => a->Object_0@));
                    assert(decreases_to!(a->Object_0@ => a->Object_0@[i as int]));
                    assert(decreases_to!(a->Object_0@[i as int] => a->Object_0@[i as int].1));
                }
                if xs[i].0 != ys[i].0 {
                    proof {
                        assert(object_data(xs@)[i as int] != object_data(ys@)[i as int]);
                    }
                    return false;
                }
                if !json_eq(&xs[i].1, &ys[i].1) {
                    proof {
                        assert(object_data(xs@)[i as int] != object_data(ys@)[i as int]);
                    }
                    return false;
                }
                i = i + 1;
            }
            proof {
                assert(object_data(xs@) =~= object_data(ys@));
            }
            true
        },
        _ => false,
    }
}

} // verus!
