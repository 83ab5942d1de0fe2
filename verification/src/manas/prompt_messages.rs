//! Messages of a turn: whether the original task is restated, how large the
//! messages are for the model (inline media counted at a fixed size), and
//! the blocks that state the current objective.
use vstd::prelude::*;
use crate::chars::{ascii_lower, eq_str, find_char, find_char_from, lemma_find_char_from, slice_vec, split_char, split_on, to_ascii_lowercase, trim, trim_ws, views};
use crate::json::{array_data, copy_json, json_data, json_get, json_member_str, json_to_string, json_text, lemma_array_data, lemma_object_data, member, member_text, object_data, JsonData, JsonValue};
use crate::context::compaction::{message_data, message_value};
use crate::text::{byte_len, chars_of, push_chars, push_str, string_of, utf8_len};

verus! {

/// The base64 payload of a `data:` URL whose media type starts with
/// `mime_prefix` and which is marked `base64`, all compared in any ASCII
/// case: what follows the first comma.
pub open spec fn media_payload(url: Seq<char>, mime_prefix: Seq<char>) -> Option<Seq<char>> {
    if !(url.len() >= 5 && ascii_lower(url.take(5)) == "data:"@) {
        None
    } else {
        match find_char_from(url, ',', 0) {
            None => None,
            Some(c) => {
                let parts = split_on(url.subrange(5, c as int), ';');
                let mime = parts[0];
                if !(mime.len() >= mime_prefix.len() && ascii_lower(mime.take(mime_prefix.len() as int))
                    == ascii_lower(mime_prefix)) {
                    None
                } else if exists|k: int| 1 <= k < parts.len() && ascii_lower(#[trigger] parts[k]) == "base64"@ {
                    Some(url.skip(c as int + 1))
                } else {
                    None
                }
            },
        }
    }
}

pub fn parse_base64_media_data_url(url: &str, mime_prefix: &str) -> (r: Option<String>)
    ensures
        match r {
            Some(p) => media_payload(url@, mime_prefix@) == Some(p@),
            None => media_payload(url@, mime_prefix@) is None,
        },
{
    let u = chars_of(url);
    if u.len() < 5 {
        return None;
    }
    let head = to_ascii_lowercase(&slice_vec(&u, 0, 5));
    assert(u@.subrange(0, 5) =~= u@.take(5));
    if !eq_str(&head, "data:") {
        return None;
    }
    let c = match find_char(&u, ',', 0) {
        None => {
            return None;
        },
        Some(c) => c,
    };
    proof {
        lemma_find_char_from(u@, ',', 0);
    }
    if c < 5 {
        proof {
            reveal_strlit("data:");
            assert(ascii_lower(u@.take(5))[c as int] == u@[c as int]);
        }
        return None;
    }
    let meta = slice_vec(&u, 5, c);
    let parts = split_char(&meta, ';');
    let ghost pv = views(parts@);
    assert(pv.len() >= 1);
    let mime = &parts[0];
    let prefix = chars_of(mime_prefix);
    if mime.len() < prefix.len() {
        return None;
    }
    let mime_head = to_ascii_lowercase(&slice_vec(mime, 0, prefix.len()));
    assert(mime@.subrange(0, prefix@.len() as int) =~= mime@.take(prefix@.len() as int));
    if !crate::context::text_truncate::same_chars(&mime_head, &to_ascii_lowercase(&prefix)) {
        return None;
    }
    let mut k: usize = 1;
    while k < parts.len()
        invariant
            1 <= k <= parts.len(),
            pv == views(parts@),
            u@ == url@,
            5 <= c < u.len(),
            u.len() == u@.len(),
            u@.len() >= 5,
            ascii_lower(u@.take(5)) == "data:"@,
            find_char_from(u@, ',', 0) == Some(c as nat),
            pv == split_on(u@.subrange(5, c as int), ';'),
            pv[0].len() >= mime_prefix@.len(),
            ascii_lower(pv[0].take(mime_prefix@.len() as int)) == ascii_lower(mime_prefix@),
            forall|j: int| 1 <= j < k ==> ascii_lower(#[trigger] pv[j]) != "base64"@,
        decreases parts.len() - k,
    {
        let low = to_ascii_lowercase(&parts[k]);
        if eq_str(&low, "base64") {
            assert(pv[k as int] == parts@[k as int]@);
            assert(ascii_lower(pv[k as int]) == "base64"@);
            let payload = slice_vec(&u, c + 1, u.len());
            assert(payload@ =~= u@.skip(c + 1));
            return Some(string_of(&payload));
        }
        k = k + 1;
    }
    None
}

/// The media bytes that a message value carries inline, and the size that
/// stands for them in the estimate, summed over the whole value: an
/// `input_image` with a base64 image URL counts 4096 for its payload, an
/// `input_audio` counts 8192 for its inline data and 8192 for a base64 audio
/// URL.
pub open spec fn media_adjustment(d: JsonData) -> (nat, nat)
    decreases d,
{
    match d {
        JsonData::Object(ms) => {
            let own = own_media(d);
            let rest = members_media(ms);
            (own.0 + rest.0, own.1 + rest.1)
        },
        JsonData::Array(items) => items_media(items),
        _ => (0, 0),
    }
}

/// The media of an object itself, without its members' media.
pub open spec fn own_media(d: JsonData) -> (nat, nat) {
    let t = member_text(d, "type"@);
    let image: (nat, nat) = if t == Some("input_image"@) {
        match member_text(d, "image_url"@) {
            Some(url) => match media_payload(url, "image/"@) {
                Some(p) => (utf8_len(p), 4096),
                None => (0, 0),
            },
            None => (0, 0),
        }
    } else {
        (0, 0)
    };
    let audio_data: (nat, nat) = if t == Some("input_audio"@) {
        match member(d, "input_audio"@) {
            Some(a) => match member_text(a, "data"@) {
                Some(p) => (utf8_len(p), 8192),
                None => (0, 0),
            },
            None => (0, 0),
        }
    } else {
        (0, 0)
    };
    let audio_url: (nat, nat) = if t == Some("input_audio"@) {
        let holder = if member(d, "audio_url"@) is Some {
            member(d, "audio_url"@)
        } else {
            member(d, "input_audio"@)
        };
        match holder {
            Some(h) => match member_text(h, "url"@) {
                Some(url) => match media_payload(url, "audio/"@) {
                    Some(p) => (utf8_len(p), 8192),
                    None => (0, 0),
                },
                None => (0, 0),
            },
            None => (0, 0),
        }
    } else {
        (0, 0)
    };
    (image.0 + audio_data.0 + audio_url.0, image.1 + audio_data.1 + audio_url.1)
}

pub open spec fn members_media(ms: Seq<(Seq<char>, JsonData)>) -> (nat, nat)
    decreases ms,
{
    if ms.len() == 0 {
        (0, 0)
    } else {
        let a = members_media(ms.drop_last());
        let b = media_adjustment(ms.last().1);
        (a.0 + b.0, a.1 + b.1)
    }
}

pub open spec fn items_media(items: Seq<JsonData>) -> (nat, nat)
    decreases items,
{
    if items.len() == 0 {
        (0, 0)
    } else {
        let a = items_media(items.drop_last());
        let b = media_adjustment(items.last());
        (a.0 + b.0, a.1 + b.1)
    }
}

/// `a + b`, saturating at `usize::MAX`.
pub open spec fn sat(n: int) -> nat {
    if n > usize::MAX {
        usize::MAX as nat
    } else if n < 0 {
        0
    } else {
        n as nat
    }
}

fn add_sat(acc: &mut usize, n: usize)
    ensures
        *final(acc) as nat == sat(*old(acc) + n),
{
    *acc = acc.saturating_add(n);
}

fn add_media_of_url(url: &str, mime_prefix: &str, weight: usize, payload: &mut usize, replacement: &mut usize)
    ensures
        match media_payload(url@, mime_prefix@) {
            Some(p) => *final(payload) as nat == sat(*old(payload) + utf8_len(p))
                && *final(replacement) as nat == sat(*old(replacement) + weight),
            None => *final(payload) == *old(payload) && *final(replacement) == *old(replacement),
        },
{
    match parse_base64_media_data_url(url, mime_prefix) {
        Some(p) => {
            add_sat(payload, byte_len(p.as_str()));
            add_sat(replacement, weight);
        },
        None => {},
    }
}

proof fn lemma_sat_add(a: int, b: nat)
    requires
        a >= 0,
    ensures
        sat(sat(a) as int + b) == sat(a + b),
{
}

/// Adds the media of `value` and of everything inside it to the two
/// running totals, each saturating at `usize::MAX`.
pub fn accumulate_media_payload_estimate_adjustment(
    value: &JsonValue,
    payload_chars: &mut usize,
    replacement_chars: &mut usize,
)
    ensures
        *final(payload_chars) as nat == sat(*old(payload_chars) + media_adjustment(json_data(*value)).0),
        *final(replacement_chars) as nat == sat(
            *old(replacement_chars) + media_adjustment(json_data(*value)).1,
        ),
    decreases value,
{
    let ghost p0: int = *payload_chars as int;
    let ghost r0: int = *replacement_chars as int;
    match value {
        JsonValue::Object(members) => {
            let ghost d = json_data(*value);
            proof {
                lemma_object_data(members@);
            }
            let t = json_member_str(value, "type");
            let is_image = match t {
                Some(ts) => eq_str(&chars_of(ts), "input_image"),
                None => false,
            };
            let is_audio = match t {
                Some(ts) => eq_str(&chars_of(ts), "input_audio"),
                None => false,
            };
            if is_image {
                match json_member_str(value, "image_url") {
                    Some(url) => add_media_of_url(url, "image/", 4096, payload_chars, replacement_chars),
                    None => {},
                }
            }
            if is_audio {
                match json_get(value, "input_audio") {
                    Some(a) => match json_member_str(a, "data") {
                        Some(p) => {
                            add_sat(payload_chars, byte_len(p));
                            add_sat(replacement_chars, 8192);
                        },
                        None => {},
                    },
                    None => {},
                }
                let holder = match json_get(value, "audio_url") {
                    Some(h) => Some(h),
                    None => json_get(value, "input_audio"),
                };
                match holder {
                    Some(h) => match json_member_str(h, "url") {
                        Some(url) => add_media_of_url(url, "audio/", 8192, payload_chars, replacement_chars),
                        None => {},
                    },
                    None => {},
                }
            }
            let ghost own = own_media(d);
            assert(*payload_chars as nat == sat(p0 + own.0));
            assert(*replacement_chars as nat == sat(r0 + own.1));
            let ghost md = object_data(members@);
            let mut i: usize = 0;
            assert(members_media(md.take(0)) == (0nat, 0nat));
            while i < members.len()
                invariant
                    i <= members.len(),
                    p0 >= 0,
                    r0 >= 0,
                    *value == JsonValue::Object(*members),
                    md == object_data(members@),
                    md.len() == members.len(),
                    forall|j: int| 0 <= j < members.len() ==> #[trigger] md[j] == (
                        members@[j].0@,
                        json_data(members@[j].1),
                    ),
                    *payload_chars as nat == sat(p0 + own.0 + members_media(md.take(i as int)).0),
                    *replacement_chars as nat == sat(r0 + own.1 + members_media(md.take(i as int)).1),
                decreases members.len() - i,
            {
                proof {
                    assert(decreases_to!(*value => value->Object_0));
                    assert(decreases_to!(value->Object_0 => value->Object_0@));
                    assert(decreases_to!(value->Object_0@ => value->Object_0@[i as int]));
                    assert(decreases_to!(value->Object_0@[i as int] => value->Object_0@[i as int].1));
                    assert(md.take(i + 1).drop_last() =~= md.take(i as int));
                    assert(md.take(i + 1).last() == md[i as int]);
                }
                let ghost before_p = *payload_chars as nat;
                let ghost before_r = *replacement_chars as nat;
                accumulate_media_payload_estimate_adjustment(&members[i].1, payload_chars, replacement_chars);
                proof {
                    let c = media_adjustment(json_data(members@[i as int].1));
                    lemma_sat_add(p0 + own.0 + members_media(md.take(i as int)).0, c.0);
                    lemma_sat_add(r0 + own.1 + members_media(md.take(i as int)).1, c.1);
                }
                i = i + 1;
            }
            assert(md.take(i as int) =~= md);
        },
        JsonValue::Array(items) => {
            proof {
                lemma_array_data(items@);
            }
            let ghost ad = array_data(items@);
            let mut i: usize = 0;
            assert(items_media(ad.take(0)) == (0nat, 0nat));
            while i < items.len()
                invariant
                    i <= items.len(),
                    p0 >= 0,
                    r0 >= 0,
                    *value == JsonValue::Array(*items),
                    ad == array_data(items@),
                    ad.len() == items.len(),
                    forall|j: int| 0 <= j < items.len() ==> #[trigger] ad[j] == json_data(items@[j]),
                    *payload_chars as nat == sat(p0 + items_media(ad.take(i as int)).0),
                    *replacement_chars as nat == sat(r0 + items_media(ad.take(i as int)).1),
                decreases items.len() - i,
            {
                proof {
                    assert(decreases_to!(*value => value->Array_0));
                    assert(decreases_to!(value->Array_0 => value->Array_0@));
                    assert(decreases_to!(value->Array_0@ => value->Array_0@[i as int]));
                    assert(ad.take(i + 1).drop_last() =~= ad.take(i as int));
                    assert(ad.take(i + 1).last() == ad[i as int]);
                }
                accumulate_media_payload_estimate_adjustment(&items[i], payload_chars, replacement_chars);
                proof {
                    let c = media_adjustment(json_data(items@[i as int]));
                    lemma_sat_add(p0 + items_media(ad.take(i as int)).0, c.0);
                    lemma_sat_add(r0 + items_media(ad.take(i as int)).1, c.1);
                }
                i = i + 1;
            }
            assert(ad.take(i as int) =~= ad);
        },
        _ => {},
    }
}


/// The characters of a message that the model sees, estimated: its JSON
/// text, with inline media payloads replaced by their fixed sizes (both
/// saturating).
pub open spec fn visible_chars(d: JsonData) -> nat {
    let raw = utf8_len(json_text(d));
    let adj = media_adjustment(d);
    sat(sat(raw - sat(adj.0 as int)) as int + sat(adj.1 as int))
}

pub fn estimate_message_model_visible_chars(message: &JsonValue) -> (n: usize)
    ensures
        n as nat == visible_chars(json_data(*message)),
{
    let raw = byte_len(json_to_string(message).as_str());
    let mut payload: usize = 0;
    let mut replacement: usize = 0;
    accumulate_media_payload_estimate_adjustment(message, &mut payload, &mut replacement);
    raw.saturating_sub(payload).saturating_add(replacement)
}

/// Estimated tokens of messages: a quarter of each message's visible
/// characters, summed.
pub open spec fn message_tokens(messages: Seq<JsonData>) -> nat
    decreases messages.len(),
{
    if messages.len() == 0 {
        0
    } else {
        message_tokens(messages.drop_last()) + visible_chars(messages.last()) / 4
    }
}

pub fn approximate_message_tokens(messages: &[JsonValue]) -> (n: usize)
    requires
        message_tokens(array_data(messages@)) <= usize::MAX,
    ensures
        n as nat == message_tokens(array_data(messages@)),
{
    proof {
        lemma_array_data(messages@);
    }
    let ghost md = array_data(messages@);
    let mut total: usize = 0;
    let mut i: usize = 0;
    assert(message_tokens(md.take(0)) == 0);
    while i < messages.len()
        invariant
            i <= messages.len(),
            md == array_data(messages@),
            md.len() == messages.len(),
            forall|j: int| 0 <= j < messages.len() ==> #[trigger] md[j] == json_data(messages@[j]),
            message_tokens(md) <= usize::MAX,
            total as nat == message_tokens(md.take(i as int)),
        decreases messages.len() - i,
    {
        assert(md.take(i + 1).drop_last() =~= md.take(i as int));
        assert(md.take(i + 1).last() == md[i as int]);
        proof {
            lemma_message_tokens_prefix(md, i as int + 1);
        }
        let n = estimate_message_model_visible_chars(&messages[i]);
        total = total + n / 4;
        i = i + 1;
    }
    assert(md.take(i as int) =~= md);
    total
}

proof fn lemma_message_tokens_prefix(s: Seq<JsonData>, k: int)
    requires
        0 <= k <= s.len(),
    ensures
        message_tokens(s.take(k)) <= message_tokens(s),
    decreases s.len() - k,
{
    if k < s.len() {
        lemma_message_tokens_prefix(s, k + 1);
        assert(s.take(k + 1).drop_last() =~= s.take(k));
    } else {
        assert(s.take(k) =~= s);
    }
}

/// Whether the original user task has to be added to the messages: it is not
/// blank and no user message already says it (compared trimmed).
pub open spec fn task_missing(messages: Seq<JsonData>, task: Seq<char>) -> bool {
    let t = trim_ws(task);
    t.len() > 0 && !exists|i: int|
        0 <= i < messages.len() && member_text(#[trigger] messages[i], "role"@) == Some("user"@)
            && match member_text(messages[i], "content"@) {
            Some(c) => trim_ws(c) == t,
            None => false,
        }
}

pub fn should_append_original_user_task(messages: &[JsonValue], original_user_task: &str) -> (b:
    bool)
    ensures
        b == task_missing(array_data(messages@), original_user_task@),
{
    proof {
        lemma_array_data(messages@);
    }
    let ghost md = array_data(messages@);
    let task = trim(&chars_of(original_user_task));
    if task.len() == 0 {
        return false;
    }
    let mut i: usize = 0;
    while i < messages.len()
        invariant
            i <= messages.len(),
            md == array_data(messages@),
            md.len() == messages.len(),
            forall|j: int| 0 <= j < messages.len() ==> #[trigger] md[j] == json_data(messages@[j]),
            task@ == trim_ws(original_user_task@),
            forall|j: int|
                0 <= j < i ==> !(member_text(#[trigger] md[j], "role"@) == Some("user"@)
                    && match member_text(md[j], "content"@) {
                    Some(c) => trim_ws(c) == task@,
                    None => false,
                }),
        decreases messages.len() - i,
    {
        let m = &messages[i];
        assert(md[i as int] == json_data(*m));
        let is_user = match json_member_str(m, "role") {
            Some(r) => eq_str(&chars_of(r), "user"),
            None => false,
        };
        if is_user {
            match json_member_str(m, "content") {
                Some(c) => {
                    if crate::context::text_truncate::same_chars(&trim(&chars_of(c)), &task) {
                        return false;
                    }
                },
                None => {},
            }
        }
        i = i + 1;
    }
    true
}

/// The objective block of a planning turn: the overall objective and, when
/// a planned task is current, its summary, both trimmed.
pub open spec fn objective_block_text(objective: Seq<char>, current_task: Option<Seq<char>>) -> Seq<char> {
    match current_task {
        None => "[current objective]:\n"@ + trim_ws(objective),
        Some(t) => "[current objective]:\n"@ + trim_ws(objective) + "\n\n"@ + trim_ws(t),
    }
}

pub fn planning_objective_block(objective: &str, current_task_summary: Option<&str>) -> (r: String)
    ensures
        r@ == objective_block_text(
            objective@,
            match current_task_summary {
                Some(t) => Some(t@),
                None => None,
            },
        ),
{
    let mut out: Vec<char> = Vec::new();
    push_str(&mut out, "[current objective]:\n");
    push_chars(&mut out, &trim(&chars_of(objective)));
    match current_task_summary {
        Some(t) => {
            push_str(&mut out, "\n\n");
            push_chars(&mut out, &trim(&chars_of(t)));
        },
        None => {},
    }
    string_of(&out)
}

/// Whether the estimated tokens of the messages reach `threshold`. The sum
/// saturates, which leaves the answer exact.
pub fn message_tokens_reach(messages: &Vec<JsonValue>, threshold: usize) -> (b: bool)
    ensures
        b == (message_tokens(array_data(messages@)) >= threshold),
{
    proof {
        lemma_array_data(messages@);
    }
    let ghost md = array_data(messages@);
    let mut total: usize = 0;
    let mut i: usize = 0;
    assert(message_tokens(md.take(0)) == 0);
    while i < messages.len()
        invariant
            i <= messages.len(),
            md == array_data(messages@),
            md.len() == messages.len(),
            forall|j: int| 0 <= j < messages.len() ==> #[trigger] md[j] == json_data(messages@[j]),
            total as nat == if message_tokens(md.take(i as int)) <= usize::MAX {
                message_tokens(md.take(i as int))
            } else {
                usize::MAX as nat
            },
        decreases messages.len() - i,
    {
        assert(md.take(i + 1).drop_last() =~= md.take(i as int));
        assert(md.take(i + 1).last() == md[i as int]);
        let n = estimate_message_model_visible_chars(&messages[i]);
        total = total.saturating_add(n / 4);
        i = i + 1;
    }
    assert(md.take(i as int) =~= md);
    total >= threshold
}

/// The messages of a turn: the context messages; the original user task,
/// trimmed, when no user message says it yet; the user's new commands as a
/// system message when there are any; and the request for a context
/// checkpoint once the estimated tokens reach the threshold.
pub open spec fn turn_messages(
    current: Seq<JsonData>,
    task: Seq<char>,
    command_message: Option<Seq<char>>,
    threshold: nat,
    compact_required: Seq<char>,
) -> Seq<JsonData> {
    let with_task = if task_missing(current, task) {
        current.push(message_data("user"@, JsonData::Str(trim_ws(task))))
    } else {
        current
    };
    let with_commands = match command_message {
        Some(c) => with_task.push(message_data("system"@, JsonData::Str(c))),
        None => with_task,
    };
    if message_tokens(with_commands) >= threshold {
        with_commands.push(message_data("user"@, JsonData::Str(compact_required)))
    } else {
        with_commands
    }
}

fn push_message_value(out: &mut Vec<JsonValue>, m: JsonValue)
    ensures
        array_data(final(out)@) == array_data(old(out)@).push(json_data(m)),
{
    let ghost before = out@;
    out.push(m);
    proof {
        lemma_array_data(before);
        lemma_array_data(out@);
        assert(array_data(out@) =~= array_data(before).push(json_data(m)));
    }
}

/// The messages of a turn, given the rendered new-command message (when the
/// user sent commands), the checkpoint threshold and the rendered checkpoint
/// request.
pub fn messages_for_turn(
    current_messages: &Vec<JsonValue>,
    original_user_task: &str,
    user_new_command_message: Option<&str>,
    compact_context_token_threshold: usize,
    compact_context_required_message: &str,
) -> (r: Vec<JsonValue>)
    ensures
        array_data(r@) == turn_messages(
            array_data(current_messages@),
            original_user_task@,
            match user_new_command_message {
                Some(c) => Some(c@),
                None => None,
            },
            compact_context_token_threshold as nat,
            compact_context_required_message@,
        ),
{
    let mut messages: Vec<JsonValue> = Vec::new();
    let mut i: usize = 0;
    proof {
        lemma_array_data(current_messages@);
    }
    while i < current_messages.len()
        invariant
            i <= current_messages.len(),
            array_data(messages@) == array_data(current_messages@.take(i as int)),
        decreases current_messages.len() - i,
    {
        push_message_value(&mut messages, copy_json(&current_messages[i]));
        proof {
            lemma_array_data(current_messages@.take(i + 1));
            lemma_array_data(current_messages@.take(i as int));
            assert(array_data(current_messages@.take(i + 1)) =~= array_data(current_messages@.take(i as int)).push(
                json_data(current_messages@[i as int]),
            ));
        }
        i = i + 1;
    }
    assert(current_messages@.take(i as int) =~= current_messages@);
    if should_append_original_user_task(current_messages.as_slice(), original_user_task) {
        let task = string_of(&trim(&chars_of(original_user_task)));
        push_message_value(&mut messages, message_value("user", task.as_str()));
    }
    match user_new_command_message {
        Some(c) => push_message_value(&mut messages, message_value("system", c)),
        None => {},
    }
    if message_tokens_reach(&messages, compact_context_token_threshold) {
        push_message_value(&mut messages, message_value("user", compact_context_required_message));
    }
    messages
}

} // verus!
