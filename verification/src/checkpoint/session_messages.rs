//! The messages that a session's log is replayed into for a client: each
//! log line becomes a record with an id, a role and times, conversation
//! lines become hydratable messages with parts, and the tool results of a
//! runtime are merged into that runtime's assistant message.
use vstd::prelude::*;
use crate::gateway_events::{
    all_digits, digits_value, message_id_text, runtime_message_id, runtime_tool_part_id,
    tool_part_id_text,
};
use crate::json::{
    array_data, member_text, as_flag, as_items, as_text, copy_json, json_as_bool, json_data, json_get, json_member_str, parse_json, parsed_json, lemma_array_data, lemma_object_data, member,
    member_in, object_data, opt_json_data, opt_ref_data, JsonData, JsonValue,
};
use crate::chars::{
    contains, contains_str, ends_with, ends_with_str, eq_str, slice_vec, trim, trim_ws,
};
use crate::checkpoint::opt_string_view;
use crate::manas::provider_schema::{has_member, set_member, set_member_exec};
use crate::context::media::has_key;
use crate::context::text_truncate::same_chars;
use crate::manas::runtime_turn::parse_u64;
use crate::text::{chars_of, decimal, push_decimal, push_str, string_of};
use crate::context::timeline::{parse_rfc3339_moment, rfc3339_moment};

verus! {

/// A timestamp member that counts: a whole number of milliseconds written
/// with decimal digits alone, above zero and within `i64`
/// (`Value::as_i64` kept when positive).
pub open spec fn valid_millis(d: Option<JsonData>) -> Option<int> {
    match d {
        Some(JsonData::Number(t)) => if t.len() > 0 && all_digits(t) && 0 < digits_value(t)
            <= i64::MAX {
            Some(digits_value(t) as int)
        } else {
            None
        },
        _ => None,
    }
}

/// The positive millisecond value of a JSON number, if it has one.
pub fn valid_timestamp_millis(v: &JsonValue) -> (r: Option<i64>)
    ensures
        match r {
            Some(n) => valid_millis(Some(json_data(*v))) == Some(n as int),
            None => valid_millis(Some(json_data(*v))) is None,
        },
{
    match v {
        JsonValue::Number(t) => {
            let s = t.as_str();
            let cs = chars_of(s);
            if cs.len() == 0 || cs[0] == '+' {
                return None;
            }
            assert(s@.len() > 0 && s@[0] != '+');
            match parse_u64(s) {
                Some(n) => {
                    if 0 < n && n <= 9223372036854775807u64 {
                        Some(n as i64)
                    } else {
                        None
                    }
                },
                None => None,
            }
        },
        _ => None,
    }
}

/// The text that serde_json writes for an `i64`.
pub open spec fn int_text(n: int) -> Seq<char> {
    if n < 0 {
        seq!['-'] + decimal((-n) as nat)
    } else {
        decimal(n as nat)
    }
}

/// The JSON number of an `i64`.
pub fn int_number(n: i64) -> (r: JsonValue)
    ensures
        json_data(r) == JsonData::Number(int_text(n as int)),
{
    let mut out: Vec<char> = Vec::new();
    if n < 0 {
        out.push('-');
        let m: u64 = if n == i64::MIN {
            9223372036854775808u64
        } else {
            (-n) as u64
        };
        push_decimal(&mut out, m);
        assert(out@ =~= seq!['-'] + decimal((-n) as nat));
    } else {
        push_decimal(&mut out, n as u64);
        assert(out@ =~= decimal(n as nat));
    }
    JsonValue::Number(string_of(&out))
}

/// A log position as an `i64`: positions past `i64::MAX` wrap as `as`
/// makes them.
pub open spec fn position_offset(index: nat) -> int {
    if index <= i64::MAX {
        index as int
    } else {
        index - 0x1_0000_0000_0000_0000
    }
}

/// `i64::saturating_add`.
pub open spec fn saturating_sum(a: int, b: int) -> int {
    if a + b > i64::MAX {
        i64::MAX as int
    } else if a + b < i64::MIN {
        i64::MIN as int
    } else {
        a + b
    }
}

/// The time a log line gets when it carries none: the session's start
/// plus its position in the log.
pub open spec fn fallback_time(base_time: int, index: nat) -> int {
    saturating_sum(base_time, position_offset(index))
}

fn fallback_millis(base_time: i64, index: usize) -> (r: i64)
    ensures
        r == fallback_time(base_time as int, index as nat),
{
    let wide = index as u64;
    let offset: i64 = if wide <= 9223372036854775807u64 {
        wide as i64
    } else {
        let high: i64 = (wide - 9223372036854775808u64) as i64;
        high - 9223372036854775807i64 - 1
    };
    if offset >= 0 {
        if base_time > i64::MAX - offset {
            i64::MAX
        } else {
            base_time + offset
        }
    } else {
        if base_time < i64::MIN - offset {
            i64::MIN
        } else {
            base_time + offset
        }
    }
}

/// The member `key` of an object's members (the first so named).
pub fn find_member<'a>(members: &'a Vec<(String, JsonValue)>, key: &str) -> (r: Option<&'a JsonValue>)
    ensures
        opt_ref_data(r) == member_in(object_data(members@), key@),
{
    proof {
        lemma_object_data(members@);
    }
    let ghost md = object_data(members@);
    let kv = chars_of(key);
    let mut i: usize = 0;
    assert(md.skip(0) =~= md);
    while i < members.len()
        invariant
            i <= members.len(),
            md == object_data(members@),
            md.len() == members.len(),
            forall|j: int| 0 <= j < members.len() ==> #[trigger] md[j] == (
                members@[j].0@,
                json_data(members@[j].1),
            ),
            kv@ == key@,
            member_in(md.skip(i as int), key@) == member_in(md, key@),
        decreases members.len() - i,
    {
        assert(md.skip(i as int).drop_first() =~= md.skip(i + 1));
        assert(md.skip(i as int)[0] == md[i as int]);
        let name = chars_of(members[i].0.as_str());
        if same_chars(&name, &kv) {
            return Some(&members[i].1);
        }
        i = i + 1;
    }
    None
}

/// The text of the string member `key`, if there is one.
pub fn find_member_str<'a>(members: &'a Vec<(String, JsonValue)>, key: &str) -> (r: Option<&'a str>)
    ensures
        match r {
            Some(s) => as_text(member_in(object_data(members@), key@)) == Some(s@),
            None => as_text(member_in(object_data(members@), key@)) is None,
        },
{
    match find_member(members, key) {
        Some(JsonValue::Str(s)) => Some(s.as_str()),
        _ => None,
    }
}

/// `entry(key).or_insert(v)`: the members unchanged when one is named
/// `key`, the new member added at the end otherwise.
pub open spec fn or_insert(ms: Seq<(Seq<char>, JsonData)>, key: Seq<char>, v: JsonData) -> Seq<(Seq<char>, JsonData)> {
    if has_key(ms, key) {
        ms
    } else {
        ms.push((key, v))
    }
}

pub fn or_insert_member(members: Vec<(String, JsonValue)>, key: &str, v: JsonValue) -> (r: Vec<(String, JsonValue)>)
    ensures
        object_data(r@) == or_insert(object_data(members@), key@, json_data(v)),
{
    if has_member(&members, key) {
        members
    } else {
        let ghost before = members@;
        let mut out = members;
        out.push((key.to_string(), v));
        proof {
            lemma_object_data(out@);
            lemma_object_data(before);
            assert(object_data(out@) =~= object_data(before).push((key@, json_data(v))));
        }
        out
    }
}

/// A time member kept when it is a valid timestamp and set to `t`
/// otherwise, added when missing.
pub open spec fn fix_time(ms: Seq<(Seq<char>, JsonData)>, key: Seq<char>, t: int) -> Seq<(Seq<char>, JsonData)> {
    if valid_millis(member_in(ms, key)) is Some {
        ms
    } else {
        set_member(ms, key, JsonData::Number(int_text(t)))
    }
}

pub fn fix_time_member(members: Vec<(String, JsonValue)>, key: &str, t: i64) -> (r: Vec<(String, JsonValue)>)
    ensures
        object_data(r@) == fix_time(object_data(members@), key@, t as int),
{
    let valid = match find_member(&members, key) {
        Some(v) => valid_timestamp_millis(v).is_some(),
        None => false,
    };
    if valid {
        members
    } else {
        set_member_exec(members, key, int_number(t))
    }
}

/// The text a content item gives: a string item itself, the `text` string
/// of another, nothing otherwise.
pub open spec fn item_text(d: JsonData) -> Seq<char> {
    match d {
        JsonData::Str(t) => t,
        _ => match as_text(member(d, "text"@)) {
            Some(t) => t,
            None => Seq::empty(),
        },
    }
}

/// The texts of content items, joined.
pub open spec fn items_text(items: Seq<JsonData>) -> Seq<char>
    decreases items.len(),
{
    if items.len() == 0 {
        Seq::empty()
    } else {
        items_text(items.drop_last()) + item_text(items.last())
    }
}

/// A text trimmed, when something is left of it.
pub open spec fn nonblank_trimmed(t: Seq<char>) -> Option<Seq<char>> {
    if trim_ws(t).len() > 0 {
        Some(trim_ws(t))
    } else {
        None
    }
}

/// The visible text of a message's content: a string, the joined texts of
/// a list of items, or the `text` of an object, trimmed and not blank.
pub open spec fn content_text(d: JsonData) -> Option<Seq<char>> {
    match d {
        JsonData::Str(t) => nonblank_trimmed(t),
        JsonData::Array(items) => nonblank_trimmed(items_text(items)),
        JsonData::Object(ms) => match as_text(member_in(ms, "text"@)) {
            Some(t) => nonblank_trimmed(t),
            None => None,
        },
        _ => None,
    }
}

fn nonblank_trimmed_exec(v: &Vec<char>) -> (r: Option<String>)
    ensures
        opt_string_view(r) == nonblank_trimmed(v@),
{
    let t = trim(v);
    if t.len() > 0 {
        Some(string_of(&t))
    } else {
        None
    }
}

pub fn conversation_content_text(value: &JsonValue) -> (r: Option<String>)
    ensures
        opt_string_view(r) == content_text(json_data(*value)),
{
    match value {
        JsonValue::Str(t) => nonblank_trimmed_exec(&chars_of(t.as_str())),
        JsonValue::Array(items) => {
            proof {
                lemma_array_data(items@);
            }
            let ghost ad = array_data(items@);
            let mut text: Vec<char> = Vec::new();
            let mut i: usize = 0;
            assert(ad.take(0) =~= Seq::<JsonData>::empty());
            while i < items.len()
                invariant
                    i <= items.len(),
                    ad == array_data(items@),
                    ad.len() == items.len(),
                    forall|j: int| 0 <= j < items.len() ==> #[trigger] ad[j] == json_data(items@[j]),
                    text@ == items_text(ad.take(i as int)),
                decreases items.len() - i,
            {
                assert(ad.take(i + 1).drop_last() =~= ad.take(i as int));
                assert(ad.take(i + 1).last() == json_data(items@[i as int]));
                let item = &items[i];
                match item {
                    JsonValue::Str(t) => {
                        push_str(&mut text, t.as_str());
                    },
                    _ => {
                        match json_member_str(item, "text") {
                            Some(t) => {
                                push_str(&mut text, t);
                            },
                            None => {
                                assert(text@ =~= text@ + Seq::<char>::empty());
                            },
                        }
                    },
                }
                i = i + 1;
            }
            assert(ad.take(i as int) =~= ad);
            nonblank_trimmed_exec(&text)
        },
        JsonValue::Object(members) => match find_member_str(members, "text") {
            Some(t) => nonblank_trimmed_exec(&chars_of(t)),
            None => None,
        },
        _ => None,
    }
}

/// The role a log record without one gets from its type.
pub open spec fn role_of_type(kind: Option<Seq<char>>) -> Seq<char> {
    match kind {
        Some(k) => if k == "tool_result"@ {
            "tool"@
        } else if k == "runtime_usage"@ {
            "runtime"@
        } else if k == "context_compaction"@ {
            "system"@
        } else if trim_ws(k).len() > 0 {
            k
        } else {
            "event"@
        },
        None => "event"@,
    }
}

pub fn record_role(members: &Vec<(String, JsonValue)>) -> (r: String)
    ensures
        r@ == role_of_type(as_text(member_in(object_data(members@), "type"@))),
{
    match find_member_str(members, "type") {
        Some(k) => {
            let kv = chars_of(k);
            if eq_str(&kv, "tool_result") {
                "tool".to_string()
            } else if eq_str(&kv, "runtime_usage") {
                "runtime".to_string()
            } else if eq_str(&kv, "context_compaction") {
                "system".to_string()
            } else if trim(&kv).len() > 0 {
                k.to_string()
            } else {
                "event".to_string()
            }
        },
        None => "event".to_string(),
    }
}

/// Whether a record carries an id that a client gave it: a string id that
/// is not blank and is no log position.
pub open spec fn frontend_id(ms: Seq<(Seq<char>, JsonData)>) -> bool {
    match as_text(member_in(ms, "id"@)) {
        Some(id) => trim_ws(id).len() > 0 && !contains(trim_ws(id), ":log:"@),
        None => false,
    }
}

pub fn has_frontend_message_id(members: &Vec<(String, JsonValue)>) -> (b: bool)
    ensures
        b == frontend_id(object_data(members@)),
{
    match find_member_str(members, "id") {
        Some(id) => {
            let t = trim(&chars_of(id));
            t.len() > 0 && !contains_str(&t, ":log:")
        },
        None => false,
    }
}

/// A user record with no client id: context the runtime added, not a
/// message the user typed.
pub open spec fn user_context_without_frontend_id(ms: Seq<(Seq<char>, JsonData)>) -> bool {
    as_text(member_in(ms, "role"@)) == Some("user"@) && !frontend_id(ms)
}

pub fn is_user_context_without_frontend_id(members: &Vec<(String, JsonValue)>) -> (b: bool)
    ensures
        b == user_context_without_frontend_id(object_data(members@)),
{
    let user = match find_member_str(members, "role") {
        Some(role) => eq_str(&chars_of(role), "user"),
        None => false,
    };
    user && !has_frontend_message_id(members)
}

/// The id of the `index`th log line taken as context.
pub open spec fn context_record_id(session_id: Seq<char>, index: nat) -> Seq<char> {
    session_id + ":context:"@ + decimal(index)
}

/// The id of the `index`th log line.
pub open spec fn log_record_id(session_id: Seq<char>, index: nat) -> Seq<char> {
    session_id + ":log:"@ + decimal(index)
}

fn position_id(session_id: &str, kind: &str, index: usize) -> (r: String)
    ensures
        r@ == session_id@ + kind@ + decimal(index as nat),
{
    let mut out: Vec<char> = Vec::new();
    push_str(&mut out, session_id);
    push_str(&mut out, kind);
    push_decimal(&mut out, index as u64);
    assert(out@ =~= session_id@ + kind@ + decimal(index as nat));
    string_of(&out)
}

/// A user context record kept as a log entry: an id, its type and source
/// role where missing, the role `log`, valid times and the session.
pub open spec fn user_context_record(
    ms: Seq<(Seq<char>, JsonData)>,
    session_id: Seq<char>,
    index: nat,
    created_at: int,
    updated_at: int,
) -> Seq<(Seq<char>, JsonData)> {
    let with_id = or_insert(ms, "id"@, JsonData::Str(context_record_id(session_id, index)));
    let with_type = or_insert(with_id, "type"@, JsonData::Str("user_context"@));
    let with_source = or_insert(with_type, "source_role"@, JsonData::Str("user"@));
    let as_log = set_member(with_source, "role"@, JsonData::Str("log"@));
    let timed = fix_time(fix_time(as_log, "created_at"@, created_at), "updated_at"@, updated_at);
    or_insert(timed, "session_id"@, JsonData::Str(session_id))
}

pub fn normalize_user_context_record(
    session_id: &str,
    index: usize,
    members: Vec<(String, JsonValue)>,
    created_at: i64,
    updated_at: i64,
) -> (r: Vec<(String, JsonValue)>)
    ensures
        object_data(r@) == user_context_record(
            object_data(members@),
            session_id@,
            index as nat,
            created_at as int,
            updated_at as int,
        ),
{
    let with_id = or_insert_member(
        members,
        "id",
        JsonValue::Str(position_id(session_id, ":context:", index)),
    );
    let with_type = or_insert_member(with_id, "type", JsonValue::Str("user_context".to_string()));
    let with_source = or_insert_member(with_type, "source_role", JsonValue::Str("user".to_string()));
    let as_log = set_member_exec(with_source, "role", JsonValue::Str("log".to_string()));
    let created = fix_time_member(as_log, "created_at", created_at);
    let timed = fix_time_member(created, "updated_at", updated_at);
    or_insert_member(timed, "session_id", JsonValue::Str(session_id.to_string()))
}

/// The members of an object, copied value for value.
pub fn copy_members(members: &Vec<(String, JsonValue)>) -> (r: Vec<(String, JsonValue)>)
    ensures
        object_data(r@) == object_data(members@),
{
    proof {
        lemma_object_data(members@);
    }
    let mut out: Vec<(String, JsonValue)> = Vec::new();
    let mut i: usize = 0;
    while i < members.len()
        invariant
            i <= members.len(),
            out.len() == i,
            forall|j: int|
                0 <= j < i ==> #[trigger] out@[j].0@ == members@[j].0@ && json_data(out@[j].1)
                    == json_data(members@[j].1),
        decreases members.len() - i,
    {
        let value = copy_json(&members[i].1);
        out.push((members[i].0.clone(), value));
        i = i + 1;
    }
    proof {
        lemma_object_data(out@);
        assert(object_data(out@) =~= object_data(members@));
    }
    out
}

/// The roles of conversation messages.
pub open spec fn conversation_role(role: Seq<char>) -> bool {
    role == "user"@ || role == "assistant"@ || role == "system"@
}

/// Whether a record with this role may become a conversation message: a
/// conversation role, and a client id when it is the user's.
pub open spec fn hydratable_role(ms: Seq<(Seq<char>, JsonData)>, role: Seq<char>) -> bool {
    conversation_role(role) && !(role == "user"@ && !frontend_id(ms))
}

/// The text part of a message.
pub open spec fn text_part(part_id: Seq<char>, content: Seq<char>, metadata: Option<JsonData>) -> JsonData {
    let head = seq![
        ("id"@, JsonData::Str(part_id)),
        ("type"@, JsonData::Str("text"@)),
        ("content"@, JsonData::Str(content)),
        ("text"@, JsonData::Str(content)),
    ];
    let meta = match metadata {
        Some(m) => seq![("metadata"@, m)],
        None => Seq::empty(),
    };
    JsonData::Object(
        head + meta + seq![
            ("call_id"@, JsonData::Null),
            ("tool"@, JsonData::Null),
            ("state"@, JsonData::Null),
        ],
    )
}

/// A log record as a conversation message a client can show: a record
/// that already has parts keeps them and gets an id, the session and
/// valid times; one with visible content gets a single text part. Other
/// roles, users' records without a client id and records with nothing to
/// show give none.
pub open spec fn conversation_record(
    ms: Seq<(Seq<char>, JsonData)>,
    session_id: Seq<char>,
    index: nat,
    created_at: int,
    updated_at: int,
) -> Option<JsonData> {
    match as_text(member_in(ms, "role"@)) {
        None => None,
        Some(role) => if !hydratable_role(ms, role) {
            None
        } else if as_items(member_in(ms, "parts"@)) is Some {
            let with_id = or_insert(ms, "id"@, JsonData::Str(log_record_id(session_id, index)));
            let with_session = or_insert(with_id, "session_id"@, JsonData::Str(session_id));
            Some(
                JsonData::Object(
                    fix_time(fix_time(with_session, "created_at"@, created_at), "updated_at"@, updated_at),
                ),
            )
        } else {
            match member_in(ms, "content"@) {
                None => None,
                Some(c) => match content_text(c) {
                    None => None,
                    Some(content) => {
                        let message_id = match as_text(member_in(ms, "id"@)) {
                            Some(id) => id,
                            None => log_record_id(session_id, index),
                        };
                        let part_id = match as_text(member_in(ms, "part_id"@)) {
                            Some(p) => p,
                            None => message_id + ":part"@,
                        };
                        let parent = match member_in(ms, "parent_id"@) {
                            Some(p) => p,
                            None => JsonData::Null,
                        };
                        Some(
                            JsonData::Object(
                                seq![
                                    ("id"@, JsonData::Str(message_id)),
                                    ("session_id"@, JsonData::Str(session_id)),
                                    ("role"@, JsonData::Str(role)),
                                    ("parent_id"@, parent),
                                    (
                                        "parts"@,
                                        JsonData::Array(
                                            seq![text_part(part_id, content, member_in(ms, "metadata"@))],
                                        ),
                                    ),
                                    ("created_at"@, JsonData::Number(int_text(created_at))),
                                    ("updated_at"@, JsonData::Number(int_text(updated_at))),
                                ],
                            ),
                        )
                    },
                },
            }
        },
    }
}

fn text_part_value(part_id: String, content: &String, metadata: Option<&JsonValue>) -> (r: JsonValue)
    ensures
        json_data(r) == text_part(part_id@, content@, opt_ref_data(metadata)),
{
    let mut ms: Vec<(String, JsonValue)> = Vec::new();
    ms.push(("id".to_string(), JsonValue::Str(part_id)));
    ms.push(("type".to_string(), JsonValue::Str("text".to_string())));
    ms.push(("content".to_string(), JsonValue::Str(content.clone())));
    ms.push(("text".to_string(), JsonValue::Str(content.clone())));
    match metadata {
        Some(m) => {
            ms.push(("metadata".to_string(), copy_json(m)));
        },
        None => {},
    }
    ms.push(("call_id".to_string(), JsonValue::Null));
    ms.push(("tool".to_string(), JsonValue::Null));
    ms.push(("state".to_string(), JsonValue::Null));
    proof {
        lemma_object_data(ms@);
        let meta: Seq<(Seq<char>, JsonData)> = match opt_ref_data(metadata) {
            Some(m) => seq![("metadata"@, m)],
            None => Seq::empty(),
        };
        assert(object_data(ms@) =~= seq![
            ("id"@, JsonData::Str(part_id@)),
            ("type"@, JsonData::Str("text"@)),
            ("content"@, JsonData::Str(content@)),
            ("text"@, JsonData::Str(content@)),
        ] + meta + seq![
            ("call_id"@, JsonData::Null),
            ("tool"@, JsonData::Null),
            ("state"@, JsonData::Null),
        ]);
    }
    JsonValue::Object(ms)
}

fn is_conversation_role(role: &str) -> (b: bool)
    ensures
        b == conversation_role(role@),
{
    let rv = chars_of(role);
    eq_str(&rv, "user") || eq_str(&rv, "assistant") || eq_str(&rv, "system")
}

pub fn conversation_message_record(
    session_id: &str,
    index: usize,
    members: &Vec<(String, JsonValue)>,
    created_at: i64,
    updated_at: i64,
) -> (r: Option<JsonValue>)
    ensures
        opt_json_data(r) == conversation_record(
            object_data(members@),
            session_id@,
            index as nat,
            created_at as int,
            updated_at as int,
        ),
{
    let ghost ms = object_data(members@);
    let role = match find_member_str(members, "role") {
        Some(role) => role,
        None => return None,
    };
    if !is_conversation_role(role) {
        return None;
    }
    if eq_str(&chars_of(role), "user") && !has_frontend_message_id(members) {
        return None;
    }
    let has_parts = match find_member(members, "parts") {
        Some(JsonValue::Array(_)) => true,
        _ => false,
    };
    if has_parts {
        let copied = copy_members(members);
        let with_id = or_insert_member(
            copied,
            "id",
            JsonValue::Str(position_id(session_id, ":log:", index)),
        );
        let with_session = or_insert_member(with_id, "session_id", JsonValue::Str(session_id.to_string()));
        let created = fix_time_member(with_session, "created_at", created_at);
        let timed = fix_time_member(created, "updated_at", updated_at);
        return Some(JsonValue::Object(timed));
    }
    let content_value = match find_member(members, "content") {
        Some(c) => c,
        None => return None,
    };
    let content = match conversation_content_text(content_value) {
        Some(c) => c,
        None => return None,
    };
    let message_id = match find_member_str(members, "id") {
        Some(id) => id.to_string(),
        None => position_id(session_id, ":log:", index),
    };
    let part_id = match find_member_str(members, "part_id") {
        Some(p) => p.to_string(),
        None => {
            let mut out: Vec<char> = Vec::new();
            push_str(&mut out, message_id.as_str());
            push_str(&mut out, ":part");
            string_of(&out)
        },
    };
    let parent = match find_member(members, "parent_id") {
        Some(p) => copy_json(p),
        None => JsonValue::Null,
    };
    let part = text_part_value(part_id, &content, find_member(members, "metadata"));
    let mut parts: Vec<JsonValue> = Vec::new();
    parts.push(part);
    let mut out: Vec<(String, JsonValue)> = Vec::new();
    out.push(("id".to_string(), JsonValue::Str(message_id)));
    out.push(("session_id".to_string(), JsonValue::Str(session_id.to_string())));
    out.push(("role".to_string(), JsonValue::Str(role.to_string())));
    out.push(("parent_id".to_string(), parent));
    out.push(("parts".to_string(), JsonValue::Array(parts)));
    out.push(("created_at".to_string(), int_number(created_at)));
    out.push(("updated_at".to_string(), int_number(updated_at)));
    proof {
        lemma_object_data(out@);
        lemma_array_data(parts@);
    }
    let r = JsonValue::Object(out);
    proof {
        let expected = conversation_record(ms, session_id@, index as nat, created_at as int, updated_at as int);
        assert(array_data(parts@) =~= seq![json_data(parts@[0])]);
        assert(object_data(out@) =~= seq![
            ("id"@, JsonData::Str(message_id@)),
            ("session_id"@, JsonData::Str(session_id@)),
            ("role"@, JsonData::Str(role@)),
            ("parent_id"@, json_data(out@[3].1)),
            ("parts"@, JsonData::Array(array_data(parts@))),
            ("created_at"@, JsonData::Number(int_text(created_at as int))),
            ("updated_at"@, JsonData::Number(int_text(updated_at as int))),
        ]);
        assert(expected is Some);
    }
    Some(r)
}

pub open spec fn opt_int(o: Option<i64>) -> Option<int> {
    match o {
        Some(n) => Some(n as int),
        None => None,
    }
}

/// A log line as an object: the object it holds, or a `log` record whose
/// content is the value it holds, or its text when it is no JSON.
pub open spec fn wrapped_record(entry: Seq<char>, parsed: Option<JsonData>) -> Seq<(Seq<char>, JsonData)> {
    match parsed {
        Some(JsonData::Object(ms)) => ms,
        Some(v) => seq![("type"@, JsonData::Str("log"@)), ("content"@, v)],
        None => seq![("type"@, JsonData::Str("log"@)), ("content"@, JsonData::Str(entry))],
    }
}

/// The time read from a record's `timestamp` member, when that is an
/// RFC 3339 text.
pub open spec fn record_stamp(ms: Seq<(Seq<char>, JsonData)>) -> Option<int> {
    match as_text(member_in(ms, "timestamp"@)) {
        Some(t) => match rfc3339_moment(t) {
            Some(m) => Some(moment_millis(m)),
            None => None,
        },
        None => None,
    }
}

/// An instant in whole milliseconds (`DateTime::timestamp_millis`).
pub open spec fn moment_millis(m: (i64, u32, Seq<char>)) -> int {
    m.0 * 1000 + m.1 / 1_000_000
}

/// The time read from a parsed log line's `timestamp` member.
pub open spec fn parsed_stamp(parsed: Option<JsonData>) -> Option<int> {
    match parsed {
        Some(JsonData::Object(ms)) => record_stamp(ms),
        _ => None,
    }
}

/// A time member when valid, else the record's timestamp when positive,
/// else `default`.
pub open spec fn time_or(ms: Seq<(Seq<char>, JsonData)>, key: Seq<char>, stamp: Option<int>, default: int) -> int {
    match valid_millis(member_in(ms, key)) {
        Some(t) => t,
        None => match stamp {
            Some(t) => if t > 0 {
                t
            } else {
                default
            },
            None => default,
        },
    }
}

/// When a record was created: its own valid time, its timestamp, or its
/// position after the session's start.
pub open spec fn record_created(ms: Seq<(Seq<char>, JsonData)>, stamp: Option<int>, fallback: int) -> int {
    time_or(ms, "created_at"@, stamp, fallback)
}

/// When a record was last updated: its own valid time, its timestamp, or
/// when it was created.
pub open spec fn record_updated(ms: Seq<(Seq<char>, JsonData)>, stamp: Option<int>, fallback: int) -> int {
    time_or(ms, "updated_at"@, stamp, record_created(ms, stamp, fallback))
}

/// Any other log record, completed with a log id, a role from its type,
/// valid times and the session.
pub open spec fn log_record(
    ms: Seq<(Seq<char>, JsonData)>,
    session_id: Seq<char>,
    index: nat,
    created_at: int,
    updated_at: int,
) -> Seq<(Seq<char>, JsonData)> {
    let with_id = or_insert(ms, "id"@, JsonData::Str(log_record_id(session_id, index)));
    let with_role = or_insert(
        with_id,
        "role"@,
        JsonData::Str(role_of_type(as_text(member_in(with_id, "type"@)))),
    );
    let timed = fix_time(fix_time(with_role, "created_at"@, created_at), "updated_at"@, updated_at);
    or_insert(timed, "session_id"@, JsonData::Str(session_id))
}

/// The `index`th line of a session's log as the client gets it: user
/// context stays a log record, conversation lines become messages, and
/// the rest are completed log records.
pub open spec fn persisted_record(
    session_id: Seq<char>,
    index: nat,
    entry: Seq<char>,
    parsed: Option<JsonData>,
    stamp: Option<int>,
    base_time: int,
) -> JsonData {
    let ms = wrapped_record(entry, parsed);
    let created = record_created(ms, stamp, fallback_time(base_time, index));
    let updated = record_updated(ms, stamp, fallback_time(base_time, index));
    if user_context_without_frontend_id(ms) {
        JsonData::Object(user_context_record(ms, session_id, index, created, updated))
    } else {
        match conversation_record(ms, session_id, index, created, updated) {
            Some(m) => m,
            None => JsonData::Object(log_record(ms, session_id, index, created, updated)),
        }
    }
}

fn member_time_or(members: &Vec<(String, JsonValue)>, key: &str, stamp: Option<i64>, default: i64) -> (r: i64)
    ensures
        r == time_or(object_data(members@), key@, opt_int(stamp), default as int),
{
    let own = match find_member(members, key) {
        Some(v) => valid_timestamp_millis(v),
        None => None,
    };
    match own {
        Some(t) => t,
        None => match stamp {
            Some(t) => if t > 0 {
                t
            } else {
                default
            },
            None => default,
        },
    }
}

/// The time in a log record's `timestamp` member.
pub fn log_record_stamp(members: &Vec<(String, JsonValue)>) -> (r: Option<i64>)
    ensures
        opt_int(r) == record_stamp(object_data(members@)),
{
    match find_member_str(members, "timestamp") {
        Some(t) => match parse_rfc3339_moment(t) {
            Some(m) => Some(m.seconds * 1000 + (m.nanos / 1_000_000) as i64),
            None => None,
        },
        None => None,
    }
}

/// A log line, given what serde_json read from it and the time in its
/// `timestamp` member, as the client gets it.
pub fn normalized_log_record(
    session_id: &str,
    index: usize,
    entry: &str,
    parsed: Option<JsonValue>,
    stamp: Option<i64>,
    base_time: i64,
) -> (r: JsonValue)
    ensures
        json_data(r) == persisted_record(
            session_id@,
            index as nat,
            entry@,
            opt_json_data(parsed),
            opt_int(stamp),
            base_time as int,
        ),
{
    let members: Vec<(String, JsonValue)> = match parsed {
        Some(JsonValue::Object(ms)) => ms,
        Some(v) => {
            let mut ms: Vec<(String, JsonValue)> = Vec::new();
            ms.push(("type".to_string(), JsonValue::Str("log".to_string())));
            ms.push(("content".to_string(), v));
            proof {
                lemma_object_data(ms@);
                assert(object_data(ms@) =~= seq![("type"@, JsonData::Str("log"@)), ("content"@, json_data(ms@[1].1))]);
            }
            ms
        },
        None => {
            let mut ms: Vec<(String, JsonValue)> = Vec::new();
            ms.push(("type".to_string(), JsonValue::Str("log".to_string())));
            ms.push(("content".to_string(), JsonValue::Str(entry.to_string())));
            proof {
                lemma_object_data(ms@);
                assert(object_data(ms@) =~= seq![("type"@, JsonData::Str("log"@)), ("content"@, JsonData::Str(entry@))]);
            }
            ms
        },
    };
    let ghost ms = object_data(members@);
    assert(ms == wrapped_record(entry@, opt_json_data(parsed)));
    let fallback = fallback_millis(base_time, index);
    let created = member_time_or(&members, "created_at", stamp, fallback);
    let updated = member_time_or(&members, "updated_at", stamp, created);
    if is_user_context_without_frontend_id(&members) {
        return JsonValue::Object(
            normalize_user_context_record(session_id, index, members, created, updated),
        );
    }
    match conversation_message_record(session_id, index, &members, created, updated) {
        Some(m) => {
            return m;
        },
        None => {},
    }
    let with_id = or_insert_member(
        members,
        "id",
        JsonValue::Str(position_id(session_id, ":log:", index)),
    );
    let role = record_role(&with_id);
    let with_role = or_insert_member(with_id, "role", JsonValue::Str(role));
    let created_fixed = fix_time_member(with_role, "created_at", created);
    let timed = fix_time_member(created_fixed, "updated_at", updated);
    JsonValue::Object(or_insert_member(timed, "session_id", JsonValue::Str(session_id.to_string())))
}

/// The `index`th line of a session's log as the client gets it. The line
/// is read with serde_json and its `timestamp` with chrono; what follows
/// is `normalized_log_record`.
pub fn persisted_message(session_id: &str, index: usize, entry: &str, base_time: i64) -> (r: JsonValue)
    ensures
        json_data(r) == persisted_record(
            session_id@,
            index as nat,
            entry@,
            parsed_json(entry@),
            parsed_stamp(parsed_json(entry@)),
            base_time as int,
        ),
{
    let parsed = parse_json(entry);
    let stamp = match &parsed {
        Some(JsonValue::Object(ms)) => log_record_stamp(ms),
        _ => None,
    };
    normalized_log_record(session_id, index, entry, parsed, stamp, base_time)
}

/// A member's value, or null when it is missing.
pub open spec fn or_null(d: Option<JsonData>) -> JsonData {
    match d {
        Some(v) => v,
        None => JsonData::Null,
    }
}

/// A flag, or null when there is none.
pub open spec fn flag_or_null(b: Option<bool>) -> JsonData {
    match b {
        Some(f) => JsonData::Bool(f),
        None => JsonData::Null,
    }
}

/// What a tool part records of the call: the runtime and tool, its input,
/// output, success and error, marked as a transient tool call.
pub open spec fn tool_metadata(runtime_id: Seq<char>, tool_name: Seq<char>, ms: Seq<(Seq<char>, JsonData)>) -> JsonData {
    JsonData::Object(
        seq![
            ("kind"@, JsonData::Str("mano_tool_call"@)),
            ("tool"@, JsonData::Str(tool_name)),
            ("runtime_id"@, JsonData::Str(runtime_id)),
            ("input"@, or_null(member_in(ms, "input"@))),
            ("output"@, or_null(member_in(ms, "output"@))),
            ("success"@, flag_or_null(as_flag(member_in(ms, "success"@)))),
            ("error"@, or_null(member_in(ms, "error"@))),
            ("transient"@, JsonData::Bool(true)),
            ("streaming_partial"@, JsonData::Bool(false)),
        ],
    )
}

/// A tool result of a runtime as a tool part of its assistant message:
/// failed when the result says it did not succeed, completed otherwise.
pub open spec fn tool_part(
    runtime_id: Seq<char>,
    tool_name: Seq<char>,
    ms: Seq<(Seq<char>, JsonData)>,
    created_at: int,
    updated_at: int,
) -> JsonData {
    let part_id = tool_part_id_text(runtime_id, tool_name);
    let status = if as_flag(member_in(ms, "success"@)) == Some(false) {
        "failed"@
    } else {
        "completed"@
    };
    let metadata = tool_metadata(runtime_id, tool_name, ms);
    JsonData::Object(
        seq![
            ("id"@, JsonData::Str(part_id)),
            ("type"@, JsonData::Str("tool"@)),
            ("content"@, JsonData::Null),
            ("text"@, JsonData::Null),
            ("metadata"@, metadata),
            ("call_id"@, JsonData::Str(part_id)),
            ("tool"@, JsonData::Str(tool_name)),
            (
                "state"@,
                JsonData::Object(
                    seq![
                        ("status"@, JsonData::Str(status)),
                        ("input"@, or_null(member_in(ms, "input"@))),
                        ("output"@, or_null(member_in(ms, "output"@))),
                        ("metadata"@, metadata),
                        (
                            "time"@,
                            JsonData::Object(
                                seq![
                                    ("start"@, JsonData::Number(int_text(created_at))),
                                    ("end"@, JsonData::Number(int_text(updated_at))),
                                ],
                            ),
                        ),
                    ],
                ),
            ),
        ],
    )
}

fn member_or_null(members: &Vec<(String, JsonValue)>, key: &str) -> (r: JsonValue)
    ensures
        json_data(r) == or_null(member_in(object_data(members@), key@)),
{
    match find_member(members, key) {
        Some(v) => copy_json(v),
        None => JsonValue::Null,
    }
}

fn tool_metadata_value(runtime_id: &str, tool_name: &str, members: &Vec<(String, JsonValue)>) -> (r: JsonValue)
    ensures
        json_data(r) == tool_metadata(runtime_id@, tool_name@, object_data(members@)),
{
    let success = match find_member(members, "success") {
        Some(v) => json_as_bool(v),
        None => None,
    };
    let mut out: Vec<(String, JsonValue)> = Vec::new();
    out.push(("kind".to_string(), JsonValue::Str("mano_tool_call".to_string())));
    out.push(("tool".to_string(), JsonValue::Str(tool_name.to_string())));
    out.push(("runtime_id".to_string(), JsonValue::Str(runtime_id.to_string())));
    out.push(("input".to_string(), member_or_null(members, "input")));
    out.push(("output".to_string(), member_or_null(members, "output")));
    out.push((
        "success".to_string(),
        match success {
            Some(f) => JsonValue::Bool(f),
            None => JsonValue::Null,
        },
    ));
    out.push(("error".to_string(), member_or_null(members, "error")));
    out.push(("transient".to_string(), JsonValue::Bool(true)));
    out.push(("streaming_partial".to_string(), JsonValue::Bool(false)));
    proof {
        lemma_object_data(out@);
        let ms = object_data(members@);
        assert(object_data(out@) =~= seq![
            ("kind"@, JsonData::Str("mano_tool_call"@)),
            ("tool"@, JsonData::Str(tool_name@)),
            ("runtime_id"@, JsonData::Str(runtime_id@)),
            ("input"@, or_null(member_in(ms, "input"@))),
            ("output"@, or_null(member_in(ms, "output"@))),
            ("success"@, flag_or_null(as_flag(member_in(ms, "success"@)))),
            ("error"@, or_null(member_in(ms, "error"@))),
            ("transient"@, JsonData::Bool(true)),
            ("streaming_partial"@, JsonData::Bool(false)),
        ]);
    }
    JsonValue::Object(out)
}

pub fn runtime_tool_part(
    runtime_id: &str,
    tool_name: &str,
    members: &Vec<(String, JsonValue)>,
    created_at: i64,
    updated_at: i64,
) -> (r: JsonValue)
    ensures
        json_data(r) == tool_part(
            runtime_id@,
            tool_name@,
            object_data(members@),
            created_at as int,
            updated_at as int,
        ),
{
    let ghost ms = object_data(members@);
    let part_id = runtime_tool_part_id(runtime_id, tool_name);
    let failed = match find_member(members, "success") {
        Some(v) => match json_as_bool(v) {
            Some(f) => !f,
            None => false,
        },
        None => false,
    };
    let status = if failed {
        "failed".to_string()
    } else {
        "completed".to_string()
    };
    let mut time: Vec<(String, JsonValue)> = Vec::new();
    time.push(("start".to_string(), int_number(created_at)));
    time.push(("end".to_string(), int_number(updated_at)));
    let mut state: Vec<(String, JsonValue)> = Vec::new();
    state.push(("status".to_string(), JsonValue::Str(status)));
    state.push(("input".to_string(), member_or_null(members, "input")));
    state.push(("output".to_string(), member_or_null(members, "output")));
    state.push(("metadata".to_string(), tool_metadata_value(runtime_id, tool_name, members)));
    state.push(("time".to_string(), JsonValue::Object(time)));
    let mut out: Vec<(String, JsonValue)> = Vec::new();
    out.push(("id".to_string(), JsonValue::Str(part_id.clone())));
    out.push(("type".to_string(), JsonValue::Str("tool".to_string())));
    out.push(("content".to_string(), JsonValue::Null));
    out.push(("text".to_string(), JsonValue::Null));
    out.push(("metadata".to_string(), tool_metadata_value(runtime_id, tool_name, members)));
    out.push(("call_id".to_string(), JsonValue::Str(part_id)));
    out.push(("tool".to_string(), JsonValue::Str(tool_name.to_string())));
    out.push(("state".to_string(), JsonValue::Object(state)));
    proof {
        lemma_object_data(time@);
        lemma_object_data(state@);
        lemma_object_data(out@);
        let metadata = tool_metadata(runtime_id@, tool_name@, ms);
        let pid = tool_part_id_text(runtime_id@, tool_name@);
        let st = if as_flag(member_in(ms, "success"@)) == Some(false) {
            "failed"@
        } else {
            "completed"@
        };
        assert(object_data(time@) =~= seq![
            ("start"@, JsonData::Number(int_text(created_at as int))),
            ("end"@, JsonData::Number(int_text(updated_at as int))),
        ]);
        assert(object_data(state@) =~= seq![
            ("status"@, JsonData::Str(st)),
            ("input"@, or_null(member_in(ms, "input"@))),
            ("output"@, or_null(member_in(ms, "output"@))),
            ("metadata"@, metadata),
            ("time"@, JsonData::Object(object_data(time@))),
        ]);
        assert(object_data(out@) =~= seq![
            ("id"@, JsonData::Str(pid)),
            ("type"@, JsonData::Str("tool"@)),
            ("content"@, JsonData::Null),
            ("text"@, JsonData::Null),
            ("metadata"@, metadata),
            ("call_id"@, JsonData::Str(pid)),
            ("tool"@, JsonData::Str(tool_name@)),
            ("state"@, JsonData::Object(object_data(state@))),
        ]);
    }
    JsonValue::Object(out)
}

/// A log line that is a tool result of a runtime, with a runtime id and a
/// tool name that are not blank: the runtime (trimmed), its tool part and
/// the times of the result.
pub open spec fn tool_entry(
    index: nat,
    parsed: Option<JsonData>,
    stamp: Option<int>,
    base_time: int,
) -> Option<(Seq<char>, JsonData, int, int)> {
    match parsed {
        Some(JsonData::Object(ms)) => if as_text(member_in(ms, "type"@)) != Some("tool_result"@) {
            None
        } else {
            match (as_text(member_in(ms, "runtime_id"@)), as_text(member_in(ms, "tool_name"@))) {
                (Some(r), Some(t)) => if trim_ws(r).len() == 0 || trim_ws(t).len() == 0 {
                    None
                } else {
                    let created = record_created(ms, stamp, fallback_time(base_time, index));
                    let updated = record_updated(ms, stamp, fallback_time(base_time, index));
                    Some((trim_ws(r), tool_part(trim_ws(r), trim_ws(t), ms, created, updated), created, updated))
                },
                _ => None,
            }
        },
        _ => None,
    }
}

pub open spec fn tool_entry_view(o: Option<(String, JsonValue, i64, i64)>) -> Option<(Seq<char>, JsonData, int, int)> {
    match o {
        Some((r, p, c, u)) => Some((r@, json_data(p), c as int, u as int)),
        None => None,
    }
}

/// A log line, given what serde_json read from it and the time in its
/// `timestamp` member, as a runtime's tool part, when it is one.
pub fn runtime_tool_part_from_record(
    index: usize,
    parsed: &Option<JsonValue>,
    stamp: Option<i64>,
    base_time: i64,
) -> (r: Option<(String, JsonValue, i64, i64)>)
    ensures
        tool_entry_view(r) == tool_entry(index as nat, opt_json_data(*parsed), opt_int(stamp), base_time as int),
{
    let members = match parsed {
        Some(JsonValue::Object(ms)) => ms,
        _ => return None,
    };
    let is_tool_result = match find_member_str(members, "type") {
        Some(t) => eq_str(&chars_of(t), "tool_result"),
        None => false,
    };
    if !is_tool_result {
        return None;
    }
    let runtime_id = match find_member_str(members, "runtime_id") {
        Some(r) => trim(&chars_of(r)),
        None => return None,
    };
    let tool_name = match find_member_str(members, "tool_name") {
        Some(t) => trim(&chars_of(t)),
        None => return None,
    };
    if runtime_id.len() == 0 || tool_name.len() == 0 {
        return None;
    }
    let fallback = fallback_millis(base_time, index);
    let created = member_time_or(members, "created_at", stamp, fallback);
    let updated = member_time_or(members, "updated_at", stamp, created);
    let rid = string_of(&runtime_id);
    let tool = string_of(&tool_name);
    let part = runtime_tool_part(rid.as_str(), tool.as_str(), members, created, updated);
    Some((rid, part, created, updated))
}

/// The position of the first item of `s` that `p` holds of.
pub open spec fn first_index<A>(s: Seq<A>, p: spec_fn(A) -> bool) -> Option<nat>
    decreases s.len(),
{
    if s.len() == 0 {
        None
    } else if p(s[0]) {
        Some(0)
    } else {
        match first_index(s.drop_first(), p) {
            Some(k) => Some(k + 1),
            None => None,
        }
    }
}

pub proof fn lemma_first_index<A>(s: Seq<A>, p: spec_fn(A) -> bool, k: int)
    requires
        0 <= k <= s.len(),
        forall|j: int| 0 <= j < k ==> !p(#[trigger] s[j]),
    ensures
        k < s.len() && p(s[k]) ==> first_index(s, p) == Some(k as nat),
        k == s.len() ==> first_index(s, p) is None,
    decreases k,
{
    if k > 0 {
        assert forall|j: int| 0 <= j < k - 1 implies !p(#[trigger] s.drop_first()[j]) by {
            assert(s.drop_first()[j] == s[j + 1]);
        }
        lemma_first_index(s.drop_first(), p, k - 1);
    }
}

/// Whether a part has the id `id`.
pub open spec fn has_part_id(id: Seq<char>) -> spec_fn(JsonData) -> bool {
    |d: JsonData| member_text(d, "id"@) == Some(id)
}

/// Where a part goes in a message: text parts first, then tool parts,
/// then the rest.
pub open spec fn part_order(d: JsonData) -> nat {
    match member_text(d, "type"@) {
        Some(t) => if t == "text"@ {
            0
        } else if t == "tool"@ {
            1
        } else {
            2
        },
        None => 2,
    }
}

pub open spec fn has_order(k: nat) -> spec_fn(JsonData) -> bool {
    |d: JsonData| part_order(d) == k
}

/// Parts in a stable order by kind (`sort_by_key`).
pub open spec fn sorted_parts(ps: Seq<JsonData>) -> Seq<JsonData> {
    ps.filter(has_order(0)) + ps.filter(has_order(1)) + ps.filter(has_order(2))
}

/// A part merged into a message's parts: it replaces the first part with
/// its id, or joins them, the parts then put in order.
pub open spec fn merged_part_list(ps: Seq<JsonData>, part: JsonData) -> Seq<JsonData> {
    match member_text(part, "id"@) {
        Some(id) => match first_index(ps, has_part_id(id)) {
            Some(k) => ps.update(k as int, part),
            None => sorted_parts(ps.push(part)),
        },
        None => sorted_parts(ps.push(part)),
    }
}

/// A part merged into a message, when the message has a list of parts.
pub open spec fn merge_part(message: JsonData, part: JsonData) -> JsonData {
    match message {
        JsonData::Object(ms) => match member_in(ms, "parts"@) {
            Some(JsonData::Array(ps)) => JsonData::Object(
                set_member(ms, "parts"@, JsonData::Array(merged_part_list(ps, part))),
            ),
            _ => message,
        },
        _ => message,
    }
}

fn part_order_of(part: &JsonValue) -> (r: u8)
    ensures
        r as nat == part_order(json_data(*part)),
{
    match json_member_str(part, "type") {
        Some(t) => {
            let tv = chars_of(t);
            if eq_str(&tv, "text") {
                0
            } else if eq_str(&tv, "tool") {
                1
            } else {
                2
            }
        },
        None => 2,
    }
}

fn sort_parts(ps: &Vec<JsonValue>) -> (r: Vec<JsonValue>)
    ensures
        array_data(r@) == sorted_parts(array_data(ps@)),
{
    proof {
        lemma_array_data(ps@);
    }
    let ghost ad = array_data(ps@);
    let mut texts: Vec<JsonValue> = Vec::new();
    let mut tools: Vec<JsonValue> = Vec::new();
    let mut others: Vec<JsonValue> = Vec::new();
    let mut i: usize = 0;
    assert(ad.take(0) =~= Seq::<JsonData>::empty());
    while i < ps.len()
        invariant
            i <= ps.len(),
            ad == array_data(ps@),
            ad.len() == ps.len(),
            forall|j: int| 0 <= j < ps.len() ==> #[trigger] ad[j] == json_data(ps@[j]),
            array_data(texts@) == ad.take(i as int).filter(has_order(0)),
            array_data(tools@) == ad.take(i as int).filter(has_order(1)),
            array_data(others@) == ad.take(i as int).filter(has_order(2)),
        decreases ps.len() - i,
    {
        let ghost before = ad.take(i as int);
        assert(ad.take(i + 1).drop_last() =~= before);
        assert(ad.take(i + 1).last() == ad[i as int]);
        let item = copy_json(&ps[i]);
        let order = part_order_of(&item);
        proof {
            reveal(Seq::filter);
            let next = ad.take(i + 1);
            assert(next.filter(has_order(0)) == if has_order(0)(ad[i as int]) {
                before.filter(has_order(0)).push(ad[i as int])
            } else {
                before.filter(has_order(0))
            });
            assert(next.filter(has_order(1)) == if has_order(1)(ad[i as int]) {
                before.filter(has_order(1)).push(ad[i as int])
            } else {
                before.filter(has_order(1))
            });
            assert(next.filter(has_order(2)) == if has_order(2)(ad[i as int]) {
                before.filter(has_order(2)).push(ad[i as int])
            } else {
                before.filter(has_order(2))
            });
        }
        if order == 0 {
            let ghost old_texts = texts@;
            texts.push(item);
            proof {
                lemma_array_data(texts@);
                lemma_array_data(old_texts);
                assert(array_data(texts@) =~= array_data(old_texts).push(ad[i as int]));
            }
        } else if order == 1 {
            let ghost old_tools = tools@;
            tools.push(item);
            proof {
                lemma_array_data(tools@);
                lemma_array_data(old_tools);
                assert(array_data(tools@) =~= array_data(old_tools).push(ad[i as int]));
            }
        } else {
            let ghost old_others = others@;
            others.push(item);
            proof {
                lemma_array_data(others@);
                lemma_array_data(old_others);
                assert(array_data(others@) =~= array_data(old_others).push(ad[i as int]));
            }
        }
        i = i + 1;
    }
    assert(ad.take(i as int) =~= ad);
    let ghost t = texts@;
    let ghost o = tools@;
    let ghost e = others@;
    texts.append(&mut tools);
    texts.append(&mut others);
    proof {
        lemma_array_data(t);
        lemma_array_data(o);
        lemma_array_data(e);
        lemma_array_data(texts@);
        assert(texts@ == t + o + e);
        assert(array_data(texts@) =~= array_data(t) + array_data(o) + array_data(e));
    }
    texts
}

/// The copies of a message's parts with `part` merged in.
fn merged_parts(ps: &Vec<JsonValue>, part: JsonValue) -> (r: Vec<JsonValue>)
    ensures
        array_data(r@) == merged_part_list(array_data(ps@), json_data(part)),
{
    proof {
        lemma_array_data(ps@);
    }
    let ghost ad = array_data(ps@);
    let ghost pd = json_data(part);
    let part_id: Option<Vec<char>> = match json_member_str(&part, "id") {
        Some(id) => Some(chars_of(id)),
        None => None,
    };
    let mut found: Option<usize> = None;
    match &part_id {
        Some(idv) => {
            let mut i: usize = 0;
            while i < ps.len() && found.is_none()
                invariant
                    i <= ps.len(),
                    ad == array_data(ps@),
                    ad.len() == ps.len(),
                    forall|j: int| 0 <= j < ps.len() ==> #[trigger] ad[j] == json_data(ps@[j]),
                    found is None ==> forall|j: int| 0 <= j < i ==> !has_part_id(idv@)(#[trigger] ad[j]),
                    found matches Some(k) ==> k < ps.len() && first_index(ad, has_part_id(idv@)) == Some(k as nat),
                decreases ps.len() - i,
            {
                let same = match json_member_str(&ps[i], "id") {
                    Some(other) => same_chars(&chars_of(other), idv),
                    None => false,
                };
                if same {
                    proof {
                        lemma_first_index(ad, has_part_id(idv@), i as int);
                    }
                    found = Some(i);
                }
                i = i + 1;
            }
            proof {
                if found is None {
                    lemma_first_index(ad, has_part_id(idv@), ad.len() as int);
                }
            }
        },
        None => {},
    }
    let mut out: Vec<JsonValue> = Vec::new();
    let mut j: usize = 0;
    while j < ps.len()
        invariant
            j <= ps.len(),
            ad == array_data(ps@),
            ad.len() == ps.len(),
            forall|k: int| 0 <= k < ps.len() ==> #[trigger] ad[k] == json_data(ps@[k]),
            out.len() == j,
            forall|k: int| 0 <= k < j ==> #[trigger] json_data(out@[k]) == ad[k],
        decreases ps.len() - j,
    {
        out.push(copy_json(&ps[j]));
        j = j + 1;
    }
    proof {
        lemma_array_data(out@);
        assert(array_data(out@) =~= ad);
    }
    match found {
        Some(k) => {
            let ghost before = out@;
            out.set(k, part);
            proof {
                lemma_array_data(out@);
                lemma_array_data(before);
                assert(array_data(out@) =~= ad.update(k as int, pd));
            }
            out
        },
        None => {
            let ghost before = out@;
            out.push(part);
            proof {
                lemma_array_data(out@);
                lemma_array_data(before);
                assert(array_data(out@) =~= ad.push(pd));
            }
            sort_parts(&out)
        },
    }
}

/// Merges `part` into a message's parts, when it has a list of them.
pub fn merge_part_into_message(message: JsonValue, part: JsonValue) -> (r: JsonValue)
    ensures
        json_data(r) == merge_part(json_data(message), json_data(part)),
{
    match message {
        JsonValue::Object(members) => {
            let new_parts = match find_member(&members, "parts") {
                Some(JsonValue::Array(ps)) => merged_parts(ps, part),
                _ => {
                    return JsonValue::Object(members);
                },
            };
            JsonValue::Object(set_member_exec(members, "parts", JsonValue::Array(new_parts)))
        },
        other => other,
    }
}

/// A message's time member merged with `t`: the earlier of the two for
/// `earliest`, the later otherwise, `t` alone when the message has no valid
/// time. Values other than objects are left as they are.
pub open spec fn merge_time(message: JsonData, key: Seq<char>, t: int, earliest: bool) -> JsonData {
    match message {
        JsonData::Object(ms) => {
            let existing = match valid_millis(member_in(ms, key)) {
                Some(e) => e,
                None => t,
            };
            let merged = if earliest == (existing < t) {
                existing
            } else {
                t
            };
            JsonData::Object(set_member(ms, key, JsonData::Number(int_text(merged))))
        },
        _ => message,
    }
}

/// A message's times widened to cover `created_at` and `updated_at`.
pub open spec fn merge_times(message: JsonData, created_at: int, updated_at: int) -> JsonData {
    merge_time(merge_time(message, "created_at"@, created_at, true), "updated_at"@, updated_at, false)
}

pub fn merge_message_time(message: JsonValue, key: &str, t: i64, earliest: bool) -> (r: JsonValue)
    ensures
        json_data(r) == merge_time(json_data(message), key@, t as int, earliest),
{
    match message {
        JsonValue::Object(members) => {
            let existing = match find_member(&members, key) {
                Some(v) => match valid_timestamp_millis(v) {
                    Some(e) => e,
                    None => t,
                },
                None => t,
            };
            let merged = if earliest == (existing < t) {
                existing
            } else {
                t
            };
            JsonValue::Object(set_member_exec(members, key, int_number(merged)))
        },
        other => other,
    }
}

pub fn merge_message_times(message: JsonValue, created_at: i64, updated_at: i64) -> (r: JsonValue)
    ensures
        json_data(r) == merge_times(json_data(message), created_at as int, updated_at as int),
{
    let created = merge_message_time(message, "created_at", created_at, true);
    merge_message_time(created, "updated_at", updated_at, false)
}

/// The runtime an assistant message belongs to: its id without the
/// `.message` ending.
pub open spec fn assistant_runtime(m: JsonData) -> Option<Seq<char>> {
    if member_text(m, "role"@) == Some("assistant"@) {
        match member_text(m, "id"@) {
            Some(id) => if ends_with(id, ".message"@) {
                Some(id.take(id.len() - ".message"@.len()))
            } else {
                None
            },
            None => None,
        }
    } else {
        None
    }
}

pub fn assistant_runtime_id(message: &JsonValue) -> (r: Option<String>)
    ensures
        opt_string_view(r) == assistant_runtime(json_data(*message)),
{
    let is_assistant = match json_member_str(message, "role") {
        Some(role) => eq_str(&chars_of(role), "assistant"),
        None => false,
    };
    if !is_assistant {
        return None;
    }
    match json_member_str(message, "id") {
        Some(id) => {
            let iv = chars_of(id);
            if ends_with_str(&iv, ".message") {
                proof {
                    reveal_strlit(".message");
                }
                let kept = slice_vec(&iv, 0, iv.len() - 8);
                assert(kept@ =~= id@.take(id@.len() - ".message"@.len()));
                Some(string_of(&kept))
            } else {
                None
            }
        },
        None => None,
    }
}

/// A message with parts merged in one after the other.
pub open spec fn merge_parts_fold(message: JsonData, parts: Seq<JsonData>) -> JsonData
    decreases parts.len(),
{
    if parts.len() == 0 {
        message
    } else {
        merge_part(merge_parts_fold(message, parts.drop_last()), parts.last())
    }
}

/// A later record of a runtime's assistant message merged into the first:
/// its parts merged in, and the times widened to its valid ones.
pub open spec fn merge_runtime(existing: JsonData, incoming: JsonData) -> JsonData {
    let parts = match as_items(member(incoming, "parts"@)) {
        Some(ps) => ps,
        None => Seq::empty(),
    };
    let with_parts = merge_parts_fold(existing, parts);
    let with_created = match valid_millis(member(incoming, "created_at"@)) {
        Some(c) => merge_time(with_parts, "created_at"@, c, true),
        None => with_parts,
    };
    match valid_millis(member(incoming, "updated_at"@)) {
        Some(u) => merge_time(with_created, "updated_at"@, u, false),
        None => with_created,
    }
}

fn valid_member_millis(value: &JsonValue, key: &str) -> (r: Option<i64>)
    ensures
        opt_int(r) == valid_millis(member(json_data(*value), key@)),
{
    match json_get(value, key) {
        Some(v) => valid_timestamp_millis(v),
        None => None,
    }
}

pub fn merge_runtime_message(existing: JsonValue, incoming: &JsonValue) -> (r: JsonValue)
    ensures
        json_data(r) == merge_runtime(json_data(existing), json_data(*incoming)),
{
    let created = valid_member_millis(incoming, "created_at");
    let updated = valid_member_millis(incoming, "updated_at");
    let mut acc = existing;
    let ghost start = json_data(existing);
    match json_get(incoming, "parts") {
        Some(JsonValue::Array(ps)) => {
            proof {
                lemma_array_data(ps@);
            }
            let ghost pd = array_data(ps@);
            let mut i: usize = 0;
            assert(pd.take(0) =~= Seq::<JsonData>::empty());
            while i < ps.len()
                invariant
                    i <= ps.len(),
                    pd == array_data(ps@),
                    pd.len() == ps.len(),
                    forall|j: int| 0 <= j < ps.len() ==> #[trigger] pd[j] == json_data(ps@[j]),
                    json_data(acc) == merge_parts_fold(start, pd.take(i as int)),
                decreases ps.len() - i,
            {
                assert(pd.take(i + 1).drop_last() =~= pd.take(i as int));
                acc = merge_part_into_message(acc, copy_json(&ps[i]));
                i = i + 1;
            }
            assert(pd.take(i as int) =~= pd);
        },
        _ => {},
    }
    let with_created = match created {
        Some(c) => merge_message_time(acc, "created_at", c, true),
        None => acc,
    };
    match updated {
        Some(u) => merge_message_time(with_created, "updated_at", u, false),
        None => with_created,
    }
}

/// Whether a slot belongs to the runtime `rid`.
pub open spec fn is_runtime(rid: Seq<char>) -> spec_fn((Seq<char>, nat)) -> bool {
    |e: (Seq<char>, nat)| e.0 == rid
}

/// Where the assistant message of runtime `rid` stands among the messages.
pub open spec fn runtime_slot(slots: Seq<(Seq<char>, nat)>, rid: Seq<char>) -> Option<nat> {
    match first_index(slots, is_runtime(rid)) {
        Some(k) => Some(slots[k as int].1),
        None => None,
    }
}

/// The assistant message a runtime's first tool result opens.
pub open spec fn new_runtime_message(session_id: Seq<char>, runtime_id: Seq<char>, created_at: int, updated_at: int) -> JsonData {
    JsonData::Object(
        seq![
            ("id"@, JsonData::Str(message_id_text(runtime_id))),
            ("session_id"@, JsonData::Str(session_id)),
            ("role"@, JsonData::Str("assistant"@)),
            ("parent_id"@, JsonData::Null),
            ("parts"@, JsonData::Array(Seq::empty())),
            ("created_at"@, JsonData::Number(int_text(created_at))),
            ("updated_at"@, JsonData::Number(int_text(updated_at))),
        ],
    )
}

/// One log line replayed onto the messages so far and the slots of the
/// runtimes' assistant messages: a runtime's tool result joins its
/// assistant message (opened when there is none yet), a later assistant
/// record of a runtime is merged into the first, anything else is added.
pub open spec fn replay_step(
    state: (Seq<JsonData>, Seq<(Seq<char>, nat)>),
    session_id: Seq<char>,
    index: nat,
    entry: Seq<char>,
    parsed: Option<JsonData>,
    stamp: Option<int>,
    base_time: int,
) -> (Seq<JsonData>, Seq<(Seq<char>, nat)>) {
    let msgs = state.0;
    let slots = state.1;
    match tool_entry(index, parsed, stamp, base_time) {
        Some((rid, part, created, updated)) => match runtime_slot(slots, rid) {
            Some(k) => (msgs.update(k as int, merge_times(merge_part(msgs[k as int], part), created, updated)), slots),
            None => (
                msgs.push(
                    merge_times(
                        merge_part(new_runtime_message(session_id, rid, created, updated), part),
                        created,
                        updated,
                    ),
                ),
                slots.push((rid, msgs.len())),
            ),
        },
        None => {
            let m = persisted_record(session_id, index, entry, parsed, stamp, base_time);
            match assistant_runtime(m) {
                Some(rid) => match runtime_slot(slots, rid) {
                    Some(k) => (msgs.update(k as int, merge_runtime(msgs[k as int], m)), slots),
                    None => (msgs.push(m), slots.push((rid, msgs.len()))),
                },
                None => (msgs.push(m), slots),
            }
        },
    }
}

/// A session's log lines replayed in order, given what serde_json read
/// from each and the time in each one's `timestamp`.
pub open spec fn replay(
    session_id: Seq<char>,
    base_time: int,
    entries: Seq<Seq<char>>,
    parsed: Seq<Option<JsonData>>,
    stamps: Seq<Option<int>>,
) -> (Seq<JsonData>, Seq<(Seq<char>, nat)>)
    decreases entries.len(),
{
    if entries.len() == 0 {
        (Seq::empty(), Seq::empty())
    } else {
        let n = entries.len() - 1;
        replay_step(
            replay(session_id, base_time, entries.drop_last(), parsed, stamps),
            session_id,
            n as nat,
            entries.last(),
            parsed[n],
            stamps[n],
            base_time,
        )
    }
}

pub open spec fn slot_views(slots: Seq<(String, usize)>) -> Seq<(Seq<char>, nat)> {
    slots.map_values(|e: (String, usize)| (e.0@, e.1 as nat))
}

pub open spec fn slots_in_range(slots: Seq<(String, usize)>, n: nat) -> bool {
    forall|j: int| 0 <= j < slots.len() ==> (#[trigger] slots[j]).1 < n
}

fn find_runtime_slot(slots: &Vec<(String, usize)>, rid: &str) -> (r: Option<usize>)
    ensures
        opt_int_of_usize(r) == runtime_slot(slot_views(slots@), rid@),
        r matches Some(k) ==> exists|j: int| 0 <= j < slots@.len() && #[trigger] slots@[j].1 == k,
{
    let ghost sv = slot_views(slots@);
    let rv = chars_of(rid);
    let mut i: usize = 0;
    while i < slots.len()
        invariant
            i <= slots.len(),
            sv == slot_views(slots@),
            sv.len() == slots.len(),
            rv@ == rid@,
            forall|j: int| 0 <= j < i ==> !is_runtime(rid@)(#[trigger] sv[j]),
        decreases slots.len() - i,
    {
        if same_chars(&chars_of(slots[i].0.as_str()), &rv) {
            proof {
                lemma_first_index(sv, is_runtime(rid@), i as int);
            }
            return Some(slots[i].1);
        }
        i = i + 1;
    }
    proof {
        lemma_first_index(sv, is_runtime(rid@), sv.len() as int);
    }
    None
}

pub open spec fn opt_int_of_usize(o: Option<usize>) -> Option<nat> {
    match o {
        Some(n) => Some(n as nat),
        None => None,
    }
}

fn new_runtime_message_value(session_id: &str, runtime_id: &str, created_at: i64, updated_at: i64) -> (r: JsonValue)
    ensures
        json_data(r) == new_runtime_message(session_id@, runtime_id@, created_at as int, updated_at as int),
{
    let parts: Vec<JsonValue> = Vec::new();
    let mut out: Vec<(String, JsonValue)> = Vec::new();
    out.push(("id".to_string(), JsonValue::Str(runtime_message_id(runtime_id))));
    out.push(("session_id".to_string(), JsonValue::Str(session_id.to_string())));
    out.push(("role".to_string(), JsonValue::Str("assistant".to_string())));
    out.push(("parent_id".to_string(), JsonValue::Null));
    out.push(("parts".to_string(), JsonValue::Array(parts)));
    out.push(("created_at".to_string(), int_number(created_at)));
    out.push(("updated_at".to_string(), int_number(updated_at)));
    proof {
        lemma_object_data(out@);
        assert(array_data(parts@) =~= Seq::<JsonData>::empty());
        assert(object_data(out@) =~= seq![
            ("id"@, JsonData::Str(message_id_text(runtime_id@))),
            ("session_id"@, JsonData::Str(session_id@)),
            ("role"@, JsonData::Str("assistant"@)),
            ("parent_id"@, JsonData::Null),
            ("parts"@, JsonData::Array(Seq::empty())),
            ("created_at"@, JsonData::Number(int_text(created_at as int))),
            ("updated_at"@, JsonData::Number(int_text(updated_at as int))),
        ]);
    }
    JsonValue::Object(out)
}

fn copy_parsed(parsed: &Option<JsonValue>) -> (r: Option<JsonValue>)
    ensures
        opt_json_data(r) == opt_json_data(*parsed),
{
    match parsed {
        Some(v) => Some(copy_json(v)),
        None => None,
    }
}

/// Takes the message at `k` out, leaving null in its place.
fn take_message(messages: &mut Vec<JsonValue>, k: usize) -> (r: JsonValue)
    requires
        k < old(messages).len(),
    ensures
        json_data(r) == json_data(old(messages)@[k as int]),
        final(messages)@ == old(messages)@.update(k as int, JsonValue::Null),
{
    let mut current = JsonValue::Null;
    messages.set_and_swap(k, &mut current);
    current
}

proof fn lemma_array_update(vs: Seq<JsonValue>, k: int, v: JsonValue)
    requires
        0 <= k < vs.len(),
    ensures
        array_data(vs.update(k, v)) == array_data(vs).update(k, json_data(v)),
{
    lemma_array_data(vs);
    lemma_array_data(vs.update(k, v));
    assert(array_data(vs.update(k, v)) =~= array_data(vs).update(k, json_data(v)));
}

proof fn lemma_array_push(vs: Seq<JsonValue>, v: JsonValue)
    ensures
        array_data(vs.push(v)) == array_data(vs).push(json_data(v)),
{
    lemma_array_data(vs);
    lemma_array_data(vs.push(v));
    assert(array_data(vs.push(v)) =~= array_data(vs).push(json_data(v)));
}

/// Replays the `index`th log line, given what serde_json read from it and
/// the time in its `timestamp`, onto the messages and runtime slots.
fn replay_entry(
    session_id: &str,
    index: usize,
    entry: &str,
    parsed: &Option<JsonValue>,
    stamp: Option<i64>,
    base_time: i64,
    messages: &mut Vec<JsonValue>,
    slots: &mut Vec<(String, usize)>,
)
    requires
        slots_in_range(old(slots)@, old(messages).len() as nat),
    ensures
        slots_in_range(final(slots)@, final(messages).len() as nat),
        (array_data(final(messages)@), slot_views(final(slots)@)) == replay_step(
            (array_data(old(messages)@), slot_views(old(slots)@)),
            session_id@,
            index as nat,
            entry@,
            opt_json_data(*parsed),
            opt_int(stamp),
            base_time as int,
        ),
{
    let ghost msgs0 = messages@;
    let ghost slots0 = slots@;
    proof {
        lemma_array_data(msgs0);
    }
    match runtime_tool_part_from_record(index, parsed, stamp, base_time) {
        Some((rid, part, created, updated)) => {
            match find_runtime_slot(slots, rid.as_str()) {
                Some(k) => {
                    let current = take_message(messages, k);
                    let merged = merge_message_times(merge_part_into_message(current, part), created, updated);
                    messages.set(k, merged);
                    proof {
                        assert(messages@ =~= msgs0.update(k as int, merged));
                        lemma_array_update(msgs0, k as int, merged);
                    }
                },
                None => {
                    let fresh = new_runtime_message_value(session_id, rid.as_str(), created, updated);
                    let merged = merge_message_times(merge_part_into_message(fresh, part), created, updated);
                    let n = messages.len();
                    messages.push(merged);
                    slots.push((rid, n));
                    proof {
                        lemma_array_push(msgs0, merged);
                        assert(slot_views(slots@) =~= slot_views(slots0).push((rid@, n as nat)));
                    }
                },
            }
        },
        None => {
            let m = normalized_log_record(session_id, index, entry, copy_parsed(parsed), stamp, base_time);
            match assistant_runtime_id(&m) {
                Some(rid) => match find_runtime_slot(slots, rid.as_str()) {
                    Some(k) => {
                        let current = take_message(messages, k);
                        let merged = merge_runtime_message(current, &m);
                        messages.set(k, merged);
                        proof {
                            assert(messages@ =~= msgs0.update(k as int, merged));
                            lemma_array_update(msgs0, k as int, merged);
                        }
                    },
                    None => {
                        let n = messages.len();
                        messages.push(m);
                        slots.push((rid, n));
                        proof {
                            lemma_array_push(msgs0, m);
                            assert(slot_views(slots@) =~= slot_views(slots0).push((rid@, n as nat)));
                        }
                    },
                },
                None => {
                    messages.push(m);
                    proof {
                        lemma_array_push(msgs0, m);
                    }
                },
            }
        },
    }
}

pub open spec fn entry_views(log: Seq<String>) -> Seq<Seq<char>> {
    log.map_values(|e: String| e@)
}

pub open spec fn parsed_views(parsed: Seq<Option<JsonValue>>) -> Seq<Option<JsonData>> {
    parsed.map_values(|p: Option<JsonValue>| opt_json_data(p))
}

pub open spec fn stamp_views(stamps: Seq<Option<i64>>) -> Seq<Option<int>> {
    stamps.map_values(|t: Option<i64>| opt_int(t))
}

/// A session's log replayed into the messages a client gets, given what
/// serde_json read from each line and the time in each line's
/// `timestamp`.
pub fn replay_log_records(
    session_id: &str,
    base_time: i64,
    log: &Vec<String>,
    parsed: &Vec<Option<JsonValue>>,
    stamps: &Vec<Option<i64>>,
) -> (r: Vec<JsonValue>)
    requires
        parsed.len() == log.len(),
        stamps.len() == log.len(),
    ensures
        array_data(r@) == replay(
            session_id@,
            base_time as int,
            entry_views(log@),
            parsed_views(parsed@),
            stamp_views(stamps@),
        ).0,
{
    let ghost ev = entry_views(log@);
    let ghost pv = parsed_views(parsed@);
    let ghost tv = stamp_views(stamps@);
    let mut messages: Vec<JsonValue> = Vec::new();
    let mut slots: Vec<(String, usize)> = Vec::new();
    let mut i: usize = 0;
    proof {
        lemma_array_data(messages@);
        assert(ev.take(0) =~= Seq::<Seq<char>>::empty());
        assert(slot_views(slots@) =~= Seq::<(Seq<char>, nat)>::empty());
    }
    while i < log.len()
        invariant
            i <= log.len(),
            parsed.len() == log.len(),
            stamps.len() == log.len(),
            ev == entry_views(log@),
            pv == parsed_views(parsed@),
            tv == stamp_views(stamps@),
            slots_in_range(slots@, messages.len() as nat),
            (array_data(messages@), slot_views(slots@)) == replay(
                session_id@,
                base_time as int,
                ev.take(i as int),
                pv,
                tv,
            ),
        decreases log.len() - i,
    {
        assert(ev.take(i + 1).drop_last() =~= ev.take(i as int));
        assert(ev.take(i + 1).last() == log@[i as int]@);
        replay_entry(
            session_id,
            i,
            log[i].as_str(),
            &parsed[i],
            stamps[i],
            base_time,
            &mut messages,
            &mut slots,
        );
        i = i + 1;
    }
    assert(ev.take(i as int) =~= ev);
    messages
}

pub open spec fn log_parses(log: Seq<String>) -> Seq<Option<JsonData>> {
    log.map_values(|e: String| parsed_json(e@))
}

pub open spec fn log_stamps(log: Seq<String>) -> Seq<Option<int>> {
    log.map_values(|e: String| parsed_stamp(parsed_json(e@)))
}

/// A session's log replayed into the messages a client gets. Each line is
/// read with serde_json and its `timestamp` with chrono; what follows is
/// `replay_log_records`.
pub fn persisted_messages(session_id: &str, base_time: i64, log: &Vec<String>) -> (r: Vec<JsonValue>)
    ensures
        array_data(r@) == replay(
            session_id@,
            base_time as int,
            entry_views(log@),
            log_parses(log@),
            log_stamps(log@),
        ).0,
{
    let mut parsed: Vec<Option<JsonValue>> = Vec::new();
    let mut stamps: Vec<Option<i64>> = Vec::new();
    let mut i: usize = 0;
    while i < log.len()
        invariant
            i <= log.len(),
            parsed.len() == i,
            stamps.len() == i,
            forall|j: int| 0 <= j < i ==> #[trigger] opt_json_data(parsed@[j]) == parsed_json(log@[j]@),
            forall|j: int| 0 <= j < i ==> #[trigger] opt_int(stamps@[j]) == parsed_stamp(parsed_json(log@[j]@)),
        decreases log.len() - i,
    {
        let p = parse_json(log[i].as_str());
        let stamp = match &p {
            Some(JsonValue::Object(ms)) => log_record_stamp(ms),
            _ => None,
        };
        parsed.push(p);
        stamps.push(stamp);
        i = i + 1;
    }
    assert(parsed_views(parsed@) =~= log_parses(log@));
    assert(stamp_views(stamps@) =~= log_stamps(log@));
    replay_log_records(session_id, base_time, log, &parsed, &stamps)
}

pub proof fn lemma_first_index_none<A>(s: Seq<A>, p: spec_fn(A) -> bool)
    requires
        first_index(s, p) is None,
    ensures
        forall|j: int| 0 <= j < s.len() ==> !p(#[trigger] s[j]),
    decreases s.len(),
{
    if s.len() > 0 {
        lemma_first_index_none(s.drop_first(), p);
        assert forall|j: int| 0 <= j < s.len() implies !p(#[trigger] s[j]) by {
            if j > 0 {
                assert(s[j] == s.drop_first()[j - 1]);
            }
        }
    }
}

pub proof fn lemma_first_index_some<A>(s: Seq<A>, p: spec_fn(A) -> bool)
    requires
        first_index(s, p) is Some,
    ensures
        first_index(s, p).unwrap() < s.len(),
        p(s[first_index(s, p).unwrap() as int]),
    decreases s.len(),
{
    if s.len() > 0 && !p(s[0]) {
        lemma_first_index_some(s.drop_first(), p);
        assert(s[first_index(s, p).unwrap() as int] == s.drop_first()[first_index(s.drop_first(), p).unwrap() as int]);
    }
}

/// The runtime slots of a replay: each within the messages, no runtime
/// twice, no message twice.
pub open spec fn slots_distinct(slots: Seq<(Seq<char>, nat)>, n: nat) -> bool {
    &&& forall|i: int| 0 <= i < slots.len() ==> (#[trigger] slots[i]).1 < n
    &&& forall|i: int, j: int|
        0 <= i < j < slots.len() ==> (#[trigger] slots[i]).0 != (#[trigger] slots[j]).0 && slots[i].1
            != slots[j].1
}

proof fn lemma_slot_push(slots: Seq<(Seq<char>, nat)>, n: nat, rid: Seq<char>)
    requires
        slots_distinct(slots, n),
        runtime_slot(slots, rid) is None,
    ensures
        slots_distinct(slots.push((rid, n)), n + 1),
{
    lemma_first_index_none(slots, is_runtime(rid));
    let pushed = slots.push((rid, n));
    assert forall|i: int, j: int| 0 <= i < j < pushed.len() implies (#[trigger] pushed[i]).0 != (
    #[trigger] pushed[j]).0 && pushed[i].1 != pushed[j].1 by {
        if j == slots.len() {
            assert(!is_runtime(rid)(slots[i]));
        }
    }
}

proof fn lemma_replay_step_slots(
    state: (Seq<JsonData>, Seq<(Seq<char>, nat)>),
    session_id: Seq<char>,
    index: nat,
    entry: Seq<char>,
    parsed: Option<JsonData>,
    stamp: Option<int>,
    base_time: int,
)
    requires
        slots_distinct(state.1, state.0.len()),
    ensures
        ({
            let next = replay_step(state, session_id, index, entry, parsed, stamp, base_time);
            slots_distinct(next.1, next.0.len()) && next.0.len() <= state.0.len() + 1
        }),
{
    let msgs = state.0;
    let slots = state.1;
    match tool_entry(index, parsed, stamp, base_time) {
        Some((rid, part, created, updated)) => {
            if runtime_slot(slots, rid) is None {
                lemma_slot_push(slots, msgs.len(), rid);
            } else {
                lemma_first_index_some(slots, is_runtime(rid));
            }
        },
        None => {
            let m = persisted_record(session_id, index, entry, parsed, stamp, base_time);
            match assistant_runtime(m) {
                Some(rid) => {
                    if runtime_slot(slots, rid) is None {
                        lemma_slot_push(slots, msgs.len(), rid);
                    } else {
                        lemma_first_index_some(slots, is_runtime(rid));
                    }
                },
                None => {},
            }
        },
    }
}

/// A replayed log holds one assistant message per runtime: no runtime
/// has two slots, no two runtimes share a message, every slot points at a
/// message, and no log line adds more than one message.
pub proof fn law_one_message_per_runtime(
    session_id: Seq<char>,
    base_time: int,
    entries: Seq<Seq<char>>,
    parsed: Seq<Option<JsonData>>,
    stamps: Seq<Option<int>>,
)
    ensures
        slots_distinct(
            replay(session_id, base_time, entries, parsed, stamps).1,
            replay(session_id, base_time, entries, parsed, stamps).0.len(),
        ),
        replay(session_id, base_time, entries, parsed, stamps).0.len() <= entries.len(),
    decreases entries.len(),
{
    if entries.len() > 0 {
        law_one_message_per_runtime(session_id, base_time, entries.drop_last(), parsed, stamps);
        let n = entries.len() - 1;
        lemma_replay_step_slots(
            replay(session_id, base_time, entries.drop_last(), parsed, stamps),
            session_id,
            n as nat,
            entries.last(),
            parsed[n],
            stamps[n],
            base_time,
        );
    }
}

/// A record a client can list: an object with an id, a role, its session
/// and both times.
pub open spec fn record_complete(d: JsonData) -> bool {
    match d {
        JsonData::Object(ms) => has_key(ms, "id"@) && has_key(ms, "role"@) && has_key(ms, "session_id"@)
            && has_key(ms, "created_at"@) && has_key(ms, "updated_at"@),
        _ => false,
    }
}

proof fn lemma_member_in_has_key(ms: Seq<(Seq<char>, JsonData)>, key: Seq<char>)
    requires
        member_in(ms, key) is Some,
    ensures
        has_key(ms, key),
    decreases ms.len(),
{
    if ms[0].0 != key {
        lemma_member_in_has_key(ms.drop_first(), key);
        let i = choose|i: int| 0 <= i < ms.drop_first().len() && (#[trigger] ms.drop_first()[i]).0 == key;
        assert(ms[i + 1] == ms.drop_first()[i]);
    }
}

proof fn lemma_keys_kept(ms: Seq<(Seq<char>, JsonData)>, key: Seq<char>, v: JsonData, other: Seq<char>)
    ensures
        (has_key(ms, other) || other == key) ==> has_key(or_insert(ms, key, v), other),
        (has_key(ms, other) || other == key) ==> has_key(set_member(ms, key, v), other),
        has_key(ms, other) ==> has_key(or_insert(ms, key, v), other),
{
    if has_key(ms, other) {
        let i = choose|i: int| 0 <= i < ms.len() && (#[trigger] ms[i]).0 == other;
        assert(or_insert(ms, key, v)[i] == ms[i]);
        if has_key(ms, key) {
            assert(set_member(ms, key, v)[i].0 == other);
        } else {
            assert(set_member(ms, key, v)[i] == ms[i]);
        }
    }
    if other == key {
        if has_key(ms, key) {
            let i = choose|i: int| 0 <= i < ms.len() && (#[trigger] ms[i]).0 == key;
            assert(set_member(ms, key, v)[i].0 == key);
        } else {
            assert(or_insert(ms, key, v)[ms.len() as int].0 == key);
            assert(set_member(ms, key, v)[ms.len() as int].0 == key);
        }
    }
}

proof fn lemma_fix_time_keys(ms: Seq<(Seq<char>, JsonData)>, key: Seq<char>, t: int, other: Seq<char>)
    ensures
        (has_key(ms, other) || other == key) ==> has_key(fix_time(ms, key, t), other),
{
    lemma_keys_kept(ms, key, JsonData::Number(int_text(t)), other);
    if valid_millis(member_in(ms, key)) is Some {
        lemma_member_in_has_key(ms, key);
    }
}

/// Every log line becomes a record a client can list: an object with an
/// id, a role, the session and both times, whatever the line holds.
pub proof fn law_persisted_record_complete(
    session_id: Seq<char>,
    index: nat,
    entry: Seq<char>,
    parsed: Option<JsonData>,
    stamp: Option<int>,
    base_time: int,
)
    ensures
        record_complete(persisted_record(session_id, index, entry, parsed, stamp, base_time)),
{
    let ms = wrapped_record(entry, parsed);
    let created = record_created(ms, stamp, fallback_time(base_time, index));
    let updated = record_updated(ms, stamp, fallback_time(base_time, index));
    let keys = seq!["id"@, "role"@, "session_id"@, "created_at"@, "updated_at"@];
    if user_context_without_frontend_id(ms) {
        let with_id = or_insert(ms, "id"@, JsonData::Str(context_record_id(session_id, index)));
        let with_type = or_insert(with_id, "type"@, JsonData::Str("user_context"@));
        let with_source = or_insert(with_type, "source_role"@, JsonData::Str("user"@));
        let as_log = set_member(with_source, "role"@, JsonData::Str("log"@));
        let c = fix_time(as_log, "created_at"@, created);
        let u = fix_time(c, "updated_at"@, updated);
        assert forall|k: int| 0 <= k < keys.len() implies has_key(
            user_context_record(ms, session_id, index, created, updated),
            #[trigger] keys[k],
        ) by {
            let key = keys[k];
            lemma_keys_kept(ms, "id"@, JsonData::Str(context_record_id(session_id, index)), key);
            lemma_keys_kept(with_id, "type"@, JsonData::Str("user_context"@), key);
            lemma_keys_kept(with_type, "source_role"@, JsonData::Str("user"@), key);
            lemma_keys_kept(with_source, "role"@, JsonData::Str("log"@), key);
            lemma_fix_time_keys(as_log, "created_at"@, created, key);
            lemma_fix_time_keys(c, "updated_at"@, updated, key);
            lemma_keys_kept(u, "session_id"@, JsonData::Str(session_id), key);
        }
        assert(has_key(user_context_record(ms, session_id, index, created, updated), keys[0]));
        assert(has_key(user_context_record(ms, session_id, index, created, updated), keys[1]));
        assert(has_key(user_context_record(ms, session_id, index, created, updated), keys[2]));
        assert(has_key(user_context_record(ms, session_id, index, created, updated), keys[3]));
        assert(has_key(user_context_record(ms, session_id, index, created, updated), keys[4]));
    } else {
        match conversation_record(ms, session_id, index, created, updated) {
            Some(m) => {
                let role = as_text(member_in(ms, "role"@)).unwrap();
                if as_items(member_in(ms, "parts"@)) is Some {
                    let with_id = or_insert(ms, "id"@, JsonData::Str(log_record_id(session_id, index)));
                    let with_session = or_insert(with_id, "session_id"@, JsonData::Str(session_id));
                    let c = fix_time(with_session, "created_at"@, created);
                    lemma_member_in_has_key(ms, "role"@);
                    assert forall|k: int| 0 <= k < keys.len() implies has_key(
                        fix_time(c, "updated_at"@, updated),
                        #[trigger] keys[k],
                    ) by {
                        let key = keys[k];
                        lemma_keys_kept(ms, "id"@, JsonData::Str(log_record_id(session_id, index)), key);
                        lemma_keys_kept(with_id, "session_id"@, JsonData::Str(session_id), key);
                        lemma_fix_time_keys(with_session, "created_at"@, created, key);
                        lemma_fix_time_keys(c, "updated_at"@, updated, key);
                    }
                    assert(has_key(fix_time(c, "updated_at"@, updated), keys[0]));
                    assert(has_key(fix_time(c, "updated_at"@, updated), keys[1]));
                    assert(has_key(fix_time(c, "updated_at"@, updated), keys[2]));
                    assert(has_key(fix_time(c, "updated_at"@, updated), keys[3]));
                    assert(has_key(fix_time(c, "updated_at"@, updated), keys[4]));
                } else {
                    let mm = m->Object_0;
                    assert(mm[0].0 == "id"@);
                    assert(mm[1].0 == "session_id"@);
                    assert(mm[2].0 == "role"@);
                    assert(mm[5].0 == "created_at"@);
                    assert(mm[6].0 == "updated_at"@);
                }
            },
            None => {
                let with_id = or_insert(ms, "id"@, JsonData::Str(log_record_id(session_id, index)));
                let with_role = or_insert(
                    with_id,
                    "role"@,
                    JsonData::Str(role_of_type(as_text(member_in(with_id, "type"@)))),
                );
                let c = fix_time(with_role, "created_at"@, created);
                let u = fix_time(c, "updated_at"@, updated);
                assert forall|k: int| 0 <= k < keys.len() implies has_key(
                    log_record(ms, session_id, index, created, updated),
                    #[trigger] keys[k],
                ) by {
                    let key = keys[k];
                    lemma_keys_kept(ms, "id"@, JsonData::Str(log_record_id(session_id, index)), key);
                    lemma_keys_kept(
                        with_id,
                        "role"@,
                        JsonData::Str(role_of_type(as_text(member_in(with_id, "type"@)))),
                        key,
                    );
                    lemma_fix_time_keys(with_role, "created_at"@, created, key);
                    lemma_fix_time_keys(c, "updated_at"@, updated, key);
                    lemma_keys_kept(u, "session_id"@, JsonData::Str(session_id), key);
                }
                assert(has_key(log_record(ms, session_id, index, created, updated), keys[0]));
                assert(has_key(log_record(ms, session_id, index, created, updated), keys[1]));
                assert(has_key(log_record(ms, session_id, index, created, updated), keys[2]));
                assert(has_key(log_record(ms, session_id, index, created, updated), keys[3]));
                assert(has_key(log_record(ms, session_id, index, created, updated), keys[4]));
            },
        }
    }
}

} // verus!
