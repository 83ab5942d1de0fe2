//! The content of a user message: plain text, or, when the text embeds
//! images as `[MEDIA:data:image/...:MEDIA]` markers, a list of text and
//! image parts.
use vstd::prelude::*;
use crate::chars::{find_from, find_from_exec, slice_vec, starts_with, starts_with_str, trim, trim_ws};
use crate::json::{json_eq, array_data, as_text, json_as_str, json_data, lemma_array_data, lemma_object_data, object_data, JsonData, JsonValue};
use crate::text::{chars_of, string_of};

verus! {

pub const USER_MEDIA_START: &'static str = "[MEDIA:";

pub const USER_MEDIA_END: &'static str = ":MEDIA]";

/// A text part, unless the text is empty.
pub open spec fn with_text_part(parts: Seq<JsonData>, text: Seq<char>) -> Seq<JsonData> {
    if text.len() == 0 {
        parts
    } else {
        parts.push(JsonData::Object(seq![("text"@, JsonData::Str(text)), ("type"@, JsonData::Str("input_text"@))]))
    }
}

pub open spec fn image_part(url: Seq<char>) -> JsonData {
    JsonData::Object(seq![("image_url"@, JsonData::Str(url)), ("type"@, JsonData::Str("input_image"@))])
}

pub proof fn lemma_find_from_at_least(s: Seq<char>, p: Seq<char>, i: nat)
    ensures
        match find_from(s, p, i) {
            Some(k) => i <= k && k + p.len() <= s.len(),
            None => true,
        },
    decreases s.len() + 1 - i,
{
    if i + p.len() <= s.len() && !crate::chars::matches_at(s, p, i as int) {
        lemma_find_from_at_least(s, p, i + 1);
    }
}

/// The parts of `input` from `cursor` on, after `parts`: each complete
/// media marker whose (trimmed) content is an image data URL becomes the
/// text before it and an image part; any other marker stays in the text.
/// Returns the parts, whether an image was seen, and where the unread text
/// starts.
pub open spec fn media_parts(input: Seq<char>, cursor: nat, parts: Seq<JsonData>, saw: bool) -> (Seq<JsonData>, bool, nat)
    decreases input.len() + 1 - cursor,
{
    if cursor > input.len() {
        (parts, saw, cursor)
    } else {
        match find_from(input, "[MEDIA:"@, cursor) {
            None => (parts, saw, cursor),
            Some(start) => {
                let data_start = start + 7;
                match find_from(input, ":MEDIA]"@, data_start) {
                    None => (parts, saw, cursor),
                    Some(end) => {
                        let marker_end = end + 7;
                        proof {
                            reveal_strlit("[MEDIA:");
                            reveal_strlit(":MEDIA]");
                            lemma_find_from_at_least(input, "[MEDIA:"@, cursor);
                            lemma_find_from_at_least(input, ":MEDIA]"@, data_start);
                        }
                        let url = trim_ws(input.subrange(data_start as int, end as int));
                        if starts_with(url, "data:image/"@) {
                            media_parts(
                                input,
                                marker_end,
                                with_text_part(parts, input.subrange(cursor as int, start as int)).push(image_part(url)),
                                true,
                            )
                        } else {
                            media_parts(
                                input,
                                marker_end,
                                with_text_part(parts, input.subrange(cursor as int, marker_end as int)),
                                saw,
                            )
                        }
                    },
                }
            },
        }
    }
}

/// The content value of a user input: the text itself when it embeds no
/// image, else its text and image parts in order.
pub open spec fn user_content(input: Seq<char>) -> JsonData {
    let (parts, saw, cursor) = media_parts(input, 0, Seq::empty(), false);
    if !saw {
        JsonData::Str(input)
    } else {
        JsonData::Array(with_text_part(parts, input.skip(cursor as int)))
    }
}

fn push_text_part(parts: &mut Vec<JsonValue>, text: &Vec<char>)
    ensures
        array_data(final(parts)@) == with_text_part(array_data(old(parts)@), text@),
{
    proof {
        lemma_array_data(parts@);
    }
    if text.len() > 0 {
        let mut members: Vec<(String, JsonValue)> = Vec::new();
        members.push(("text".to_owned(), JsonValue::Str(string_of(text))));
        members.push(("type".to_owned(), JsonValue::Str("input_text".to_owned())));
        proof {
            lemma_object_data(members@);
            assert(object_data(members@) =~= seq![("text"@, JsonData::Str(text@)), ("type"@, JsonData::Str("input_text"@))]);
        }
        let ghost before = parts@;
        parts.push(JsonValue::Object(members));
        proof {
            lemma_array_data(parts@);
            assert(parts@.drop_last() =~= before);
            assert(array_data(parts@) =~= array_data(before).push(json_data(parts@.last())));
        }
    }
}

pub fn user_input_content_value(input: &str) -> (r: JsonValue)
    ensures
        json_data(r) == user_content(input@),
{
    let v = chars_of(input);
    let start_marker = chars_of(USER_MEDIA_START);
    let end_marker = chars_of(USER_MEDIA_END);
    proof {
        reveal_strlit("[MEDIA:");
        reveal_strlit(":MEDIA]");
    }
    let mut parts: Vec<JsonValue> = Vec::new();
    let mut cursor: usize = 0;
    let mut saw_image = false;
    assert(array_data(parts@) =~= Seq::<JsonData>::empty());
    loop
        invariant
            cursor <= v.len(),
            v@ == input@,
            start_marker@ == "[MEDIA:"@,
            end_marker@ == ":MEDIA]"@,
            start_marker@.len() == 7,
            end_marker@.len() == 7,
            media_parts(v@, cursor as nat, array_data(parts@), saw_image) == media_parts(v@, 0, Seq::empty(), false),
        ensures
            cursor <= v.len(),
            v@ == input@,
            media_parts(v@, cursor as nat, array_data(parts@), saw_image) == (array_data(parts@), saw_image, cursor as nat),
            media_parts(v@, cursor as nat, array_data(parts@), saw_image) == media_parts(v@, 0, Seq::empty(), false),
        decreases v.len() + 1 - cursor,
    {
        proof {
            lemma_find_from_at_least(v@, "[MEDIA:"@, cursor as nat);
        }
        let start = match find_from_exec(&v, &start_marker, cursor) {
            None => {
                break;
            },
            Some(s) => s,
        };
        let data_start = start + 7;
        proof {
            lemma_find_from_at_least(v@, ":MEDIA]"@, data_start as nat);
        }
        let end = match find_from_exec(&v, &end_marker, data_start) {
            None => {
                break;
            },
            Some(e) => e,
        };
        let marker_end = end + 7;
        let url_chars = trim(&slice_vec(&v, data_start, end));
        if starts_with_str(&url_chars, "data:image/") {
            push_text_part(&mut parts, &slice_vec(&v, cursor, start));
            let mut members: Vec<(String, JsonValue)> = Vec::new();
            members.push(("image_url".to_owned(), JsonValue::Str(string_of(&url_chars))));
            members.push(("type".to_owned(), JsonValue::Str("input_image".to_owned())));
            proof {
                lemma_object_data(members@);
                assert(object_data(members@) =~= seq![("image_url"@, JsonData::Str(url_chars@)), ("type"@, JsonData::Str("input_image"@))]);
                lemma_array_data(parts@);
            }
            let ghost before = parts@;
            parts.push(JsonValue::Object(members));
            proof {
                lemma_array_data(parts@);
                assert(parts@.drop_last() =~= before);
                assert(array_data(parts@) =~= array_data(before).push(image_part(url_chars@)));
            }
            saw_image = true;
        } else {
            push_text_part(&mut parts, &slice_vec(&v, cursor, marker_end));
        }
        cursor = marker_end;
    }
    if !saw_image {
        return JsonValue::Str(input.to_owned());
    }
    push_text_part(&mut parts, &slice_vec(&v, cursor, v.len()));
    assert(v@.subrange(cursor as int, v@.len() as int) =~= v@.skip(cursor as int));
    JsonValue::Array(parts)
}


/// Whether a stored message content is the given user input: a text equal
/// to it once both are trimmed, or exactly the content value of the input.
pub open spec fn content_matches(content: JsonData, input: Seq<char>) -> bool {
    (match as_text(Some(content)) {
        Some(t) => trim_ws(t) == trim_ws(input),
        None => false,
    }) || content == user_content(input)
}

pub fn user_input_content_matches(content: &JsonValue, input: &str) -> (b: bool)
    ensures
        b == content_matches(json_data(*content), input@),
{
    match json_as_str(content) {
        Some(t) => {
            if crate::context::text_truncate::same_chars(&trim(&chars_of(t)), &trim(&chars_of(input))) {
                return true;
            }
        },
        None => {},
    }
    let value = user_input_content_value(input);
    json_eq(content, &value)
}

/// A user input always matches its own content value.
pub proof fn law_user_input_matches_its_content(input: Seq<char>)
    ensures
        content_matches(user_content(input), input),
{
}


/// A user input without any `[MEDIA:` marker is kept as plain text.
pub proof fn law_plain_input_stays_text(input: Seq<char>)
    requires
        !crate::chars::contains(input, "[MEDIA:"@),
    ensures
        user_content(input) == JsonData::Str(input),
{
}

} // verus!
