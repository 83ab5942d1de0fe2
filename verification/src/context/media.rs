//! The media that command_run results carry: image URLs, attached files and
//! audio previews, found anywhere in a result's output.
use vstd::prelude::*;
use crate::chars::eq_str;
use crate::json::{copy_json, member_in, array_data, json_data, json_get, json_member_str, lemma_array_data, lemma_object_data, member, member_text, object_data, JsonData, JsonValue};
use crate::text::{chars_of, push_str, string_of};

verus! {

/// The part of a tool result where media are looked for: its `output`, or
/// the whole result.
pub open spec fn media_root(d: JsonData) -> JsonData {
    match member(d, "output"@) {
        Some(o) => o,
        None => d,
    }
}

/// The URL of an `image_url` object itself.
pub open spec fn own_image_url(d: JsonData) -> Seq<Seq<char>> {
    if member_text(d, "type"@) == Some("image_url"@) {
        match member(d, "image_url"@) {
            Some(iu) => match member_text(iu, "url"@) {
                Some(u) => seq![u],
                None => Seq::empty(),
            },
            None => Seq::empty(),
        }
    } else {
        Seq::empty()
    }
}

/// Every image URL in a value, in document order.
pub open spec fn image_urls(d: JsonData) -> Seq<Seq<char>>
    decreases d,
{
    match d {
        JsonData::Object(ms) => own_image_url(d) + members_image_urls(ms),
        JsonData::Array(items) => items_image_urls(items),
        _ => Seq::empty(),
    }
}

pub open spec fn members_image_urls(ms: Seq<(Seq<char>, JsonData)>) -> Seq<Seq<char>>
    decreases ms,
{
    if ms.len() == 0 {
        Seq::empty()
    } else {
        members_image_urls(ms.drop_last()) + image_urls(ms.last().1)
    }
}

pub open spec fn items_image_urls(items: Seq<JsonData>) -> Seq<Seq<char>>
    decreases items,
{
    if items.len() == 0 {
        Seq::empty()
    } else {
        items_image_urls(items.drop_last()) + image_urls(items.last())
    }
}

pub open spec fn text_views(v: Seq<String>) -> Seq<Seq<char>> {
    v.map_values(|s: String| s@)
}

fn push_image_urls(value: &JsonValue, urls: &mut Vec<String>)
    ensures
        text_views(final(urls)@) == text_views(old(urls)@) + image_urls(json_data(*value)),
    decreases value,
{
    let ghost start = text_views(urls@);
    match value {
        JsonValue::Object(members) => {
            proof {
                lemma_object_data(members@);
            }
            let is_image = match json_member_str(value, "type") {
                Some(t) => eq_str(&chars_of(t), "image_url"),
                None => false,
            };
            if is_image {
                match json_get(value, "image_url") {
                    Some(iu) => match json_member_str(iu, "url") {
                        Some(u) => {
                            let ghost before = urls@;
                            urls.push(u.to_owned());
                            assert(text_views(urls@) =~= text_views(before).push(u@));
                        },
                        None => {},
                    },
                    None => {},
                }
            }
            let ghost own = own_image_url(json_data(*value));
            assert(text_views(urls@) =~= start + own);
            let ghost md = object_data(members@);
            let mut i: usize = 0;
            assert(members_image_urls(md.take(0)) =~= Seq::<Seq<char>>::empty());
            while i < members.len()
                invariant
                    i <= members.len(),
                    *value == JsonValue::Object(*members),
                    md == object_data(members@),
                    md.len() == members.len(),
                    forall|j: int| 0 <= j < members.len() ==> #[trigger] md[j] == (members@[j].0@, json_data(members@[j].1)),
                    text_views(urls@) == start + own + members_image_urls(md.take(i as int)),
                decreases members.len() - i,
            {
                proof {
                    assert(decreases_to!(*value => value->Object_0));
                    assert(decreases_to!(value->Object_0 => value->Object_0@));
                    assert(decreases_to!(value->Object_0@ => value->Object_0@[i as int]));
                    assert(decreases_to!(value->Object_0@[i as int] => value->Object_0@[i as int].1));
                    assert(md.take(i + 1).drop_last() =~= md.take(i as int));
                    assert(md.take(i + 1).last() == md[i as int]);
                }
                push_image_urls(&members[i].1, urls);
                i = i + 1;
            }
            assert(md.take(i as int) =~= md);
        },
        JsonValue::Array(items) => {
            proof {
                lemma_array_data(items@);
            }
            let ghost ad = array_data(items@);
            let mut i: usize = 0;
            assert(items_image_urls(ad.take(0)) =~= Seq::<Seq<char>>::empty());
            assert(text_views(urls@) =~= start + Seq::<Seq<char>>::empty());
            while i < items.len()
                invariant
                    i <= items.len(),
                    *value == JsonValue::Array(*items),
                    ad == array_data(items@),
                    ad.len() == items.len(),
                    forall|j: int| 0 <= j < items.len() ==> #[trigger] ad[j] == json_data(items@[j]),
                    text_views(urls@) == start + items_image_urls(ad.take(i as int)),
                decreases items.len() - i,
            {
                proof {
                    assert(decreases_to!(*value => value->Array_0));
                    assert(decreases_to!(value->Array_0 => value->Array_0@));
                    assert(decreases_to!(value->Array_0@ => value->Array_0@[i as int]));
                    assert(ad.take(i + 1).drop_last() =~= ad.take(i as int));
                    assert(ad.take(i + 1).last() == ad[i as int]);
                }
                push_image_urls(&items[i], urls);
                i = i + 1;
            }
            assert(ad.take(i as int) =~= ad);
        },
        _ => {
            assert(text_views(urls@) =~= start + Seq::<Seq<char>>::empty());
        },
    }
}

/// Every image URL in the output of a command_run result.
pub fn command_run_media_image_urls(value: &JsonValue) -> (r: Vec<String>)
    ensures
        text_views(r@) == image_urls(media_root(json_data(*value))),
{
    let root = match json_get(value, "output") {
        Some(o) => o,
        None => value,
    };
    let mut urls: Vec<String> = Vec::new();
    assert(text_views(urls@) =~= Seq::<Seq<char>>::empty());
    push_image_urls(root, &mut urls);
    urls
}

/// How many `audio_url` objects a value holds.
pub open spec fn audio_previews(d: JsonData) -> nat
    decreases d,
{
    match d {
        JsonData::Object(ms) => (if member_text(d, "type"@) == Some("audio_url"@) {
            1nat
        } else {
            0nat
        }) + members_audio(ms),
        JsonData::Array(items) => items_audio(items),
        _ => 0,
    }
}

pub open spec fn members_audio(ms: Seq<(Seq<char>, JsonData)>) -> nat
    decreases ms,
{
    if ms.len() == 0 {
        0
    } else {
        members_audio(ms.drop_last()) + audio_previews(ms.last().1)
    }
}

pub open spec fn items_audio(items: Seq<JsonData>) -> nat
    decreases items,
{
    if items.len() == 0 {
        0
    } else {
        items_audio(items.drop_last()) + audio_previews(items.last())
    }
}

proof fn lemma_members_audio_prefix(ms: Seq<(Seq<char>, JsonData)>, k: int)
    requires
        0 <= k <= ms.len(),
    ensures
        members_audio(ms.take(k)) <= members_audio(ms),
    decreases ms.len() - k,
{
    if k < ms.len() {
        lemma_members_audio_prefix(ms, k + 1);
        assert(ms.take(k + 1).drop_last() =~= ms.take(k));
    } else {
        assert(ms.take(k) =~= ms);
    }
}

proof fn lemma_items_audio_prefix(items: Seq<JsonData>, k: int)
    requires
        0 <= k <= items.len(),
    ensures
        items_audio(items.take(k)) <= items_audio(items),
    decreases items.len() - k,
{
    if k < items.len() {
        lemma_items_audio_prefix(items, k + 1);
        assert(items.take(k + 1).drop_last() =~= items.take(k));
    } else {
        assert(items.take(k) =~= items);
    }
}

fn count_audio_previews(value: &JsonValue, count: &mut usize)
    requires
        *old(count) + audio_previews(json_data(*value)) <= usize::MAX,
    ensures
        *final(count) == *old(count) + audio_previews(json_data(*value)),
    decreases value,
{
    let ghost c0 = *count as int;
    let ghost total = audio_previews(json_data(*value));
    match value {
        JsonValue::Object(members) => {
            proof {
                lemma_object_data(members@);
            }
            let is_audio = match json_member_str(value, "type") {
                Some(t) => eq_str(&chars_of(t), "audio_url"),
                None => false,
            };
            if is_audio {
                *count = *count + 1;
            }
            let ghost own: int = if is_audio { 1 } else { 0 };
            let ghost md = object_data(members@);
            let mut i: usize = 0;
            assert(members_audio(md.take(0)) == 0);
            while i < members.len()
                invariant
                    i <= members.len(),
                    *value == JsonValue::Object(*members),
                    md == object_data(members@),
                    md.len() == members.len(),
                    forall|j: int| 0 <= j < members.len() ==> #[trigger] md[j] == (members@[j].0@, json_data(members@[j].1)),
                    c0 + own + members_audio(md) <= usize::MAX,
                    *count == c0 + own + members_audio(md.take(i as int)),
                decreases members.len() - i,
            {
                proof {
                    assert(decreases_to!(*value => value->Object_0));
                    assert(decreases_to!(value->Object_0 => value->Object_0@));
                    assert(decreases_to!(value->Object_0@ => value->Object_0@[i as int]));
                    assert(decreases_to!(value->Object_0@[i as int] => value->Object_0@[i as int].1));
                    assert(md.take(i + 1).drop_last() =~= md.take(i as int));
                    assert(md.take(i + 1).last() == md[i as int]);
                    lemma_members_audio_prefix(md, i + 1);
                }
                count_audio_previews(&members[i].1, count);
                i = i + 1;
            }
            assert(md.take(i as int) =~= md);
        },
        JsonValue::Array(items) => {
            proof {
                lemma_array_data(items@);
            }
            let ghost ad = array_data(items@);
            let mut i: usize = 0;
            assert(items_audio(ad.take(0)) == 0);
            while i < items.len()
                invariant
                    i <= items.len(),
                    *value == JsonValue::Array(*items),
                    ad == array_data(items@),
                    ad.len() == items.len(),
                    forall|j: int| 0 <= j < items.len() ==> #[trigger] ad[j] == json_data(items@[j]),
                    c0 + items_audio(ad) <= usize::MAX,
                    *count == c0 + items_audio(ad.take(i as int)),
                decreases items.len() - i,
            {
                proof {
                    assert(decreases_to!(*value => value->Array_0));
                    assert(decreases_to!(value->Array_0 => value->Array_0@));
                    assert(decreases_to!(value->Array_0@ => value->Array_0@[i as int]));
                    assert(ad.take(i + 1).drop_last() =~= ad.take(i as int));
                    assert(ad.take(i + 1).last() == ad[i as int]);
                    lemma_items_audio_prefix(ad, i + 1);
                }
                count_audio_previews(&items[i], count);
                i = i + 1;
            }
            assert(ad.take(i as int) =~= ad);
        },
        _ => {},
    }
}

/// How many audio previews the output of a command_run result holds.
pub fn command_run_media_audio_preview_count(value: &JsonValue) -> (n: usize)
    requires
        audio_previews(media_root(json_data(*value))) <= usize::MAX,
    ensures
        n == audio_previews(media_root(json_data(*value))),
{
    let root = match json_get(value, "output") {
        Some(o) => o,
        None => value,
    };
    let mut count: usize = 0;
    count_audio_previews(root, &mut count);
    count
}


/// The `input_file` part for an attached file.
pub open spec fn file_part(name: Seq<char>, mime: Seq<char>, data: Seq<char>) -> JsonData {
    JsonData::Object(
        seq![
            ("file_data"@, JsonData::Str("data:"@ + mime + ";base64,"@ + data)),
            ("filename"@, JsonData::Str(name)),
            ("type"@, JsonData::Str("input_file"@)),
        ],
    )
}

pub open spec fn text_or(t: Option<Seq<char>>, default_value: Seq<char>) -> Seq<char> {
    match t {
        Some(x) => x,
        None => default_value,
    }
}

/// The files a value attaches, in document order: a `file` object with
/// base64 data becomes an `input_file` part (named `attachment` when it has
/// no name); one whose media type is unknown (`application/octet-stream`,
/// also when absent) ends the search inside that object.
pub open spec fn media_files(d: JsonData) -> Seq<JsonData>
    decreases d,
{
    match d {
        JsonData::Object(ms) => {
            if member_text(d, "type"@) == Some("file"@) && member_text(d, "data_base64"@) is Some {
                let mime = text_or(member_text(d, "mime_type"@), "application/octet-stream"@);
                if mime == "application/octet-stream"@ {
                    Seq::empty()
                } else {
                    seq![
                        file_part(
                            text_or(member_text(d, "file_name"@), "attachment"@),
                            mime,
                            member_text(d, "data_base64"@)->0,
                        ),
                    ] + members_files(ms)
                }
            } else {
                members_files(ms)
            }
        },
        JsonData::Array(items) => items_files(items),
        _ => Seq::empty(),
    }
}

pub open spec fn members_files(ms: Seq<(Seq<char>, JsonData)>) -> Seq<JsonData>
    decreases ms,
{
    if ms.len() == 0 {
        Seq::empty()
    } else {
        members_files(ms.drop_last()) + media_files(ms.last().1)
    }
}

pub open spec fn items_files(items: Seq<JsonData>) -> Seq<JsonData>
    decreases items,
{
    if items.len() == 0 {
        Seq::empty()
    } else {
        items_files(items.drop_last()) + media_files(items.last())
    }
}

fn push_media_files(value: &JsonValue, inputs: &mut Vec<JsonValue>)
    ensures
        array_data(final(inputs)@) == array_data(old(inputs)@) + media_files(json_data(*value)),
    decreases value,
{
    proof {
        lemma_array_data(inputs@);
    }
    let ghost start = array_data(inputs@);
    match value {
        JsonValue::Object(members) => {
            proof {
                lemma_object_data(members@);
            }
            let is_file = match json_member_str(value, "type") {
                Some(t) => eq_str(&chars_of(t), "file"),
                None => false,
            };
            let ghost own: Seq<JsonData> = Seq::empty();
            if is_file {
                match json_member_str(value, "data_base64") {
                    Some(data) => {
                        let name: &str = match json_member_str(value, "file_name") {
                            Some(n) => n,
                            None => "attachment",
                        };
                        let mime: &str = match json_member_str(value, "mime_type") {
                            Some(m) => m,
                            None => "application/octet-stream",
                        };
                        if eq_str(&chars_of(mime), "application/octet-stream") {
                            assert(start + Seq::<JsonData>::empty() =~= start);
                            return;
                        }
                        let mut file_data: Vec<char> = Vec::new();
                        push_str(&mut file_data, "data:");
                        push_str(&mut file_data, mime);
                        push_str(&mut file_data, ";base64,");
                        push_str(&mut file_data, data);
                        let mut part: Vec<(String, JsonValue)> = Vec::new();
                        part.push(("file_data".to_owned(), JsonValue::Str(string_of(&file_data))));
                        part.push(("filename".to_owned(), JsonValue::Str(name.to_owned())));
                        part.push(("type".to_owned(), JsonValue::Str("input_file".to_owned())));
                        proof {
                            lemma_object_data(part@);
                            assert(object_data(part@) =~= seq![
                                ("file_data"@, JsonData::Str("data:"@ + mime@ + ";base64,"@ + data@)),
                                ("filename"@, JsonData::Str(name@)),
                                ("type"@, JsonData::Str("input_file"@)),
                            ]);
                        }
                        let ghost before = inputs@;
                        inputs.push(JsonValue::Object(part));
                        proof {
                            lemma_array_data(inputs@);
                            assert(inputs@.drop_last() =~= before);
                            assert(array_data(inputs@) =~= array_data(before).push(file_part(name@, mime@, data@)));
                            own = seq![file_part(name@, mime@, data@)];
                        }
                    },
                    None => {},
                }
            }
            assert(array_data(inputs@) =~= start + own);
            let ghost md = object_data(members@);
            let mut i: usize = 0;
            assert(members_files(md.take(0)) =~= Seq::<JsonData>::empty());
            while i < members.len()
                invariant
                    i <= members.len(),
                    *value == JsonValue::Object(*members),
                    md == object_data(members@),
                    md.len() == members.len(),
                    forall|j: int| 0 <= j < members.len() ==> #[trigger] md[j] == (members@[j].0@, json_data(members@[j].1)),
                    array_data(inputs@) == start + own + members_files(md.take(i as int)),
                    media_files(json_data(*value)) == own + members_files(md),
                decreases members.len() - i,
            {
                proof {
                    assert(decreases_to!(*value => value->Object_0));
                    assert(decreases_to!(value->Object_0 => value->Object_0@));
                    assert(decreases_to!(value->Object_0@ => value->Object_0@[i as int]));
                    assert(decreases_to!(value->Object_0@[i as int] => value->Object_0@[i as int].1));
                    assert(md.take(i + 1).drop_last() =~= md.take(i as int));
                    assert(md.take(i + 1).last() == md[i as int]);
                }
                push_media_files(&members[i].1, inputs);
                i = i + 1;
            }
            assert(md.take(i as int) =~= md);
        },
        JsonValue::Array(items) => {
            proof {
                lemma_array_data(items@);
            }
            let ghost ad = array_data(items@);
            let mut i: usize = 0;
            assert(items_files(ad.take(0)) =~= Seq::<JsonData>::empty());
            assert(array_data(inputs@) =~= start + Seq::<JsonData>::empty());
            while i < items.len()
                invariant
                    i <= items.len(),
                    *value == JsonValue::Array(*items),
                    ad == array_data(items@),
                    ad.len() == items.len(),
                    forall|j: int| 0 <= j < items.len() ==> #[trigger] ad[j] == json_data(items@[j]),
                    array_data(inputs@) == start + items_files(ad.take(i as int)),
                decreases items.len() - i,
            {
                proof {
                    assert(decreases_to!(*value => value->Array_0));
                    assert(decreases_to!(value->Array_0 => value->Array_0@));
                    assert(decreases_to!(value->Array_0@ => value->Array_0@[i as int]));
                    assert(ad.take(i + 1).drop_last() =~= ad.take(i as int));
                    assert(ad.take(i + 1).last() == ad[i as int]);
                }
                push_media_files(&items[i], inputs);
                i = i + 1;
            }
            assert(ad.take(i as int) =~= ad);
        },
        _ => {
            assert(array_data(inputs@) =~= start + Seq::<JsonData>::empty());
        },
    }
}

/// The files that the output of a command_run result attaches, as
/// `input_file` parts.
pub fn command_run_media_input_files(value: &JsonValue) -> (r: Vec<JsonValue>)
    ensures
        array_data(r@) == media_files(media_root(json_data(*value))),
{
    let root = match json_get(value, "output") {
        Some(o) => o,
        None => value,
    };
    let mut inputs: Vec<JsonValue> = Vec::new();
    assert(array_data(inputs@) =~= Seq::<JsonData>::empty());
    push_media_files(root, &mut inputs);
    inputs
}


/// Whether an object's members include `key`.
pub open spec fn has_key(ms: Seq<(Seq<char>, JsonData)>, key: Seq<char>) -> bool {
    exists|i: int| 0 <= i < ms.len() && (#[trigger] ms[i]).0 == key
}

/// The members with every member named `key` given the value `v`.
pub open spec fn with_value(ms: Seq<(Seq<char>, JsonData)>, key: Seq<char>, v: JsonData) -> Seq<(Seq<char>, JsonData)> {
    ms.map_values(|m: (Seq<char>, JsonData)| if m.0 == key { (key, v) } else { m })
}

/// The members other than those named `key`.
pub open spec fn without(ms: Seq<(Seq<char>, JsonData)>, key: Seq<char>) -> Seq<(Seq<char>, JsonData)>
    decreases ms.len(),
{
    if ms.len() == 0 {
        ms
    } else {
        let r = without(ms.drop_last(), key);
        if ms.last().0 == key {
            r
        } else {
            r.push(ms.last())
        }
    }
}

/// A list of previews replaced by a note of how many there were, when the
/// count is there; dropped otherwise.
pub open spec fn settle(ms: Seq<(Seq<char>, JsonData)>, key: Seq<char>, count_key: Seq<char>) -> Seq<(Seq<char>, JsonData)> {
    if has_key(ms, key) {
        match member_in(ms, count_key) {
            Some(c) => with_value(
                ms,
                key,
                JsonData::Object(seq![("count"@, c), ("omitted_from_text"@, JsonData::Bool(true))]),
            ),
            None => without(ms, key),
        }
    } else {
        ms
    }
}

/// A value without inline media data: in every object, the visual and
/// audio previews and the file attachments are replaced by a count note (or
/// dropped when no count is given).
pub open spec fn stripped(d: JsonData) -> JsonData
    decreases d,
{
    match d {
        JsonData::Object(ms) => JsonData::Object(
            settle(
                settle(
                    settle(stripped_members(ms), "visual_previews"@, "visual_preview_count"@),
                    "audio_previews"@,
                    "audio_preview_count"@,
                ),
                "file_attachments"@,
                "file_attachment_count"@,
            ),
        ),
        JsonData::Array(items) => JsonData::Array(stripped_items(items)),
        other => other,
    }
}

pub open spec fn stripped_members(ms: Seq<(Seq<char>, JsonData)>) -> Seq<(Seq<char>, JsonData)>
    decreases ms,
{
    if ms.len() == 0 {
        Seq::empty()
    } else {
        stripped_members(ms.drop_last()).push((ms.last().0, stripped(ms.last().1)))
    }
}

pub open spec fn stripped_items(items: Seq<JsonData>) -> Seq<JsonData>
    decreases items,
{
    if items.len() == 0 {
        Seq::empty()
    } else {
        stripped_items(items.drop_last()).push(stripped(items.last()))
    }
}

fn settle_members(members: Vec<(String, JsonValue)>, key: &str, count_key: &str) -> (r: Vec<(String, JsonValue)>)
    ensures
        object_data(r@) == settle(object_data(members@), key@, count_key@),
{
    proof {
        lemma_object_data(members@);
    }
    let ghost md = object_data(members@);
    let kv = chars_of(key);
    let mut found = false;
    let mut i: usize = 0;
    while i < members.len()
        invariant
            i <= members.len(),
            md == object_data(members@),
            md.len() == members.len(),
            forall|j: int| 0 <= j < members.len() ==> #[trigger] md[j] == (members@[j].0@, json_data(members@[j].1)),
            kv@ == key@,
            found == exists|j: int| 0 <= j < i && (#[trigger] md[j]).0 == key@,
        decreases members.len() - i,
    {
        if crate::context::text_truncate::same_chars(&chars_of(members[i].0.as_str()), &kv) {
            assert(md[i as int].0 == key@);
            found = true;
        }
        i = i + 1;
    }
    if !found {
        return members;
    }
    let count = match json_get_member(&members, count_key) {
        Some(c) => Some(copy_json(c)),
        None => None,
    };
    let ghost all = members@;
    let mut rest = members;
    let mut out: Vec<(String, JsonValue)> = Vec::new();
    let n = rest.len();
    let mut k: usize = 0;
    assert(all.skip(0) =~= all);
    match count {
        Some(c) => {
            let ghost cd = json_data(c);
            let ghost note = JsonData::Object(seq![("count"@, cd), ("omitted_from_text"@, JsonData::Bool(true))]);
            let mut cc = c;
            assert(object_data(out@) =~= with_value(md.take(0), key@, note));
            while k < n
                invariant
                    k <= n,
                    n == all.len(),
                    md.len() == all.len(),
                    forall|j: int| 0 <= j < md.len() ==> #[trigger] md[j] == (all[j].0@, json_data(all[j].1)),
                    rest@ == all.skip(k as int),
                    kv@ == key@,
                    json_data(cc) == cd,
                    note == JsonData::Object(seq![("count"@, cd), ("omitted_from_text"@, JsonData::Bool(true))]),
                    object_data(out@) == with_value(md.take(k as int), key@, note),
                decreases n - k,
            {
                assert(rest@[0] == all[k as int]);
                let m = rest.remove(0);
                assert(rest@ =~= all.skip(k + 1));
                proof {
                    lemma_object_data(out@);
                }
                if crate::context::text_truncate::same_chars(&chars_of(m.0.as_str()), &kv) {
                    let mut note_members: Vec<(String, JsonValue)> = Vec::new();
                    note_members.push(("count".to_owned(), copy_json(&cc)));
                    note_members.push(("omitted_from_text".to_owned(), JsonValue::Bool(true)));
                    proof {
                        lemma_object_data(note_members@);
                        assert(object_data(note_members@) =~= seq![("count"@, cd), ("omitted_from_text"@, JsonData::Bool(true))]);
                    }
                    let ghost before = out@;
                    let ghost name_v = m.0@;
                    let note_value = JsonValue::Object(note_members);
                    assert(json_data(note_value) == note);
                    out.push((m.0, note_value));
                    proof {
                        lemma_object_data(out@);
                        assert(name_v == key@);
                        assert(out@.drop_last() =~= before);
                        assert(object_data(out@)[k as int] == (key@, note));
                        assert(object_data(out@) =~= object_data(before).push((key@, note)));
                        assert(with_value(md.take(k + 1), key@, note) =~= with_value(md.take(k as int), key@, note).push((key@, note)));
                    }
                } else {
                    let ghost before = out@;
                    out.push(m);
                    proof {
                        lemma_object_data(out@);
                        assert(out@.drop_last() =~= before);
                        assert(object_data(out@) =~= object_data(before).push(md[k as int]));
                        assert(with_value(md.take(k + 1), key@, note) =~= with_value(md.take(k as int), key@, note).push(md[k as int]));
                    }
                }
                k = k + 1;
            }
            assert(md.take(k as int) =~= md);
            out
        },
        None => {
            assert(object_data(out@) =~= without(md.take(0), key@));
            while k < n
                invariant
                    k <= n,
                    n == all.len(),
                    md.len() == all.len(),
                    forall|j: int| 0 <= j < md.len() ==> #[trigger] md[j] == (all[j].0@, json_data(all[j].1)),
                    rest@ == all.skip(k as int),
                    kv@ == key@,
                    object_data(out@) == without(md.take(k as int), key@),
                decreases n - k,
            {
                assert(rest@[0] == all[k as int]);
                let m = rest.remove(0);
                assert(rest@ =~= all.skip(k + 1));
                proof {
                    lemma_object_data(out@);
                    assert(md.take(k + 1).drop_last() =~= md.take(k as int));
                    assert(md.take(k + 1).last() == md[k as int]);
                }
                if !crate::context::text_truncate::same_chars(&chars_of(m.0.as_str()), &kv) {
                    let ghost before = out@;
                    out.push(m);
                    proof {
                        lemma_object_data(out@);
                        assert(out@.drop_last() =~= before);
                    }
                }
                k = k + 1;
            }
            assert(md.take(k as int) =~= md);
            out
        },
    }
}

/// The value of the member `key` among `members`.
fn json_get_member<'a>(members: &'a Vec<(String, JsonValue)>, key: &str) -> (r: Option<&'a JsonValue>)
    ensures
        crate::json::opt_ref_data(r) == member_in(object_data(members@), key@),
{
    proof {
        lemma_object_data(members@);
    }
    let ghost md = object_data(members@);
    let kv = chars_of(key);
    let mut i: usize = 0;
    assert(md.skip(0) =~= md);
    while i < members.len()
        invariant
            i <= members.len(),
            md == object_data(members@),
            md.len() == members.len(),
            forall|j: int| 0 <= j < members.len() ==> #[trigger] md[j] == (members@[j].0@, json_data(members@[j].1)),
            kv@ == key@,
            member_in(md.skip(i as int), key@) == member_in(md, key@),
        decreases members.len() - i,
    {
        assert(md.skip(i as int).drop_first() =~= md.skip(i + 1));
        assert(md.skip(i as int)[0] == md[i as int]);
        if crate::context::text_truncate::same_chars(&chars_of(members[i].0.as_str()), &kv) {
            return Some(&members[i].1);
        }
        i = i + 1;
    }
    None
}

/// A value with its inline media data stripped.
pub fn strip_media_payload(value: &JsonValue) -> (r: JsonValue)
    ensures
        json_data(r) == stripped(json_data(*value)),
    decreases value,
{
    match value {
        JsonValue::Object(members) => {
            proof {
                lemma_object_data(members@);
            }
            let ghost md = object_data(members@);
            let mut out: Vec<(String, JsonValue)> = Vec::new();
            let mut i: usize = 0;
            assert(object_data(out@) =~= stripped_members(md.take(0)));
            while i < members.len()
                invariant
                    i <= members.len(),
                    *value == JsonValue::Object(*members),
                    md == object_data(members@),
                    md.len() == members.len(),
                    forall|j: int| 0 <= j < members.len() ==> #[trigger] md[j] == (members@[j].0@, json_data(members@[j].1)),
                    object_data(out@) == stripped_members(md.take(i as int)),
                decreases members.len() - i,
            {
                proof {
                    assert(decreases_to!(*value => value->Object_0));
                    assert(decreases_to!(value->Object_0 => value->Object_0@));
                    assert(decreases_to!(value->Object_0@ => value->Object_0@[i as int]));
                    assert(decreases_to!(value->Object_0@[i as int] => value->Object_0@[i as int].1));
                    lemma_object_data(out@);
                    assert(md.take(i + 1).drop_last() =~= md.take(i as int));
                    assert(md.take(i + 1).last() == md[i as int]);
                }
                let s = strip_media_payload(&members[i].1);
                let ghost before = out@;
                out.push((members[i].0.clone(), s));
                proof {
                    assert(out@.drop_last() =~= before);
                    assert(object_data(out@) =~= object_data(before).push((md[i as int].0, stripped(md[i as int].1))));
                }
                i = i + 1;
            }
            assert(md.take(i as int) =~= md);
            let a = settle_members(out, "visual_previews", "visual_preview_count");
            let b = settle_members(a, "audio_previews", "audio_preview_count");
            let c = settle_members(b, "file_attachments", "file_attachment_count");
            JsonValue::Object(c)
        },
        JsonValue::Array(items) => {
            proof {
                lemma_array_data(items@);
            }
            let ghost ad = array_data(items@);
            let mut out: Vec<JsonValue> = Vec::new();
            let mut i: usize = 0;
            assert(array_data(out@) =~= stripped_items(ad.take(0)));
            while i < items.len()
                invariant
                    i <= items.len(),
                    *value == JsonValue::Array(*items),
                    ad == array_data(items@),
                    ad.len() == items.len(),
                    forall|j: int| 0 <= j < items.len() ==> #[trigger] ad[j] == json_data(items@[j]),
                    array_data(out@) == stripped_items(ad.take(i as int)),
                decreases items.len() - i,
            {
                proof {
                    assert(decreases_to!(*value => value->Array_0));
                    assert(decreases_to!(value->Array_0 => value->Array_0@));
                    assert(decreases_to!(value->Array_0@ => value->Array_0@[i as int]));
                    lemma_array_data(out@);
                    assert(ad.take(i + 1).drop_last() =~= ad.take(i as int));
                    assert(ad.take(i + 1).last() == ad[i as int]);
                }
                let s = strip_media_payload(&items[i]);
                let ghost before = out@;
                out.push(s);
                proof {
                    lemma_array_data(out@);
                    assert(out@.drop_last() =~= before);
                }
                i = i + 1;
            }
            assert(ad.take(i as int) =~= ad);
            JsonValue::Array(out)
        },
        other => copy_json(other),
    }
}

/// Strips the inline media data of a value in place.
pub fn strip_read_media_payload_data(value: &mut JsonValue)
    ensures
        json_data(*final(value)) == stripped(json_data(*old(value))),
{
    let stripped_value = strip_media_payload(value);
    *value = stripped_value;
}

} // verus!
