//! Tool results as the model context carries them: reporting noise
//! stripped, command_run's batch results flattened, large values cut to the
//! context budget, and the ids that keep cached context stable.
use vstd::prelude::*;
use crate::chars::{is_ascii_alnum, is_ascii_alnum_char, trim, trim_ws};

use crate::context::token_budget::{context_output_byte_budget, formatted_token_budget_text, formatted_truncate_text, CONTEXT_OUTPUT_MAX_TOKENS};
use crate::gateway_events::tool_message::{fnv1a, fnv1a_hex, hex_text};
use crate::json::{array_data, as_items, copy_json, json_as_array, json_data, json_get, json_member_str, json_pretty_text, json_text, json_to_string, json_to_string_pretty, lemma_array_data, lemma_object_data, member, member_text, object_data, JsonData, JsonValue};
use crate::text::{byte_len, chars_of, push_str, string_of, utf8_len};

verus! {

/// Keys that only report on a call and are left out of the context.
pub open spec fn noise_key(key: Seq<char>) -> bool {
    key == "step_summary"@ || key == "last_tool_call_status"@ || key == "last_tool_call_summary"@ || key
        == "summary"@ || key == "description"@ || key == "interface"@ || key == "used_prompt"@ || key
        == "notes"@ || key == "receipt"@ || key == "should_register_tool"@
}

/// The reporting keys that tool results drop.
pub open spec fn reporting_key(key: Seq<char>) -> bool {
    key == "step_summary"@ || key == "last_tool_call_status"@ || key == "last_tool_call_summary"@ || key
        == "summary"@ || key == "description"@
}

/// Which of the two key sets a filter drops.
pub enum KeySet {
    Noise,
    Reporting,
}

pub open spec fn dropped(set: KeySet, key: Seq<char>) -> bool {
    match set {
        KeySet::Noise => noise_key(key),
        KeySet::Reporting => reporting_key(key),
    }
}

/// A value with the keys of a set dropped from every object at every depth.
pub open spec fn without_keys(set: KeySet, d: JsonData) -> JsonData
    decreases d,
{
    match d {
        JsonData::Object(ms) => JsonData::Object(kept_members(set, ms)),
        JsonData::Array(items) => JsonData::Array(kept_items(set, items)),
        other => other,
    }
}

pub open spec fn kept_members(set: KeySet, ms: Seq<(Seq<char>, JsonData)>) -> Seq<(Seq<char>, JsonData)>
    decreases ms,
{
    if ms.len() == 0 {
        Seq::empty()
    } else {
        let r = kept_members(set, ms.drop_last());
        if dropped(set, ms.last().0) {
            r
        } else {
            r.push((ms.last().0, without_keys(set, ms.last().1)))
        }
    }
}

pub open spec fn kept_items(set: KeySet, items: Seq<JsonData>) -> Seq<JsonData>
    decreases items,
{
    if items.len() == 0 {
        Seq::empty()
    } else {
        kept_items(set, items.drop_last()).push(without_keys(set, items.last()))
    }
}

fn is_dropped(set: &KeySet, key: &str) -> (b: bool)
    ensures
        b == dropped(*set, key@),
{
    let k = chars_of(key);
    let reporting = crate::chars::eq_str(&k, "step_summary") || crate::chars::eq_str(&k, "last_tool_call_status")
        || crate::chars::eq_str(&k, "last_tool_call_summary") || crate::chars::eq_str(&k, "summary")
        || crate::chars::eq_str(&k, "description");
    match set {
        KeySet::Reporting => reporting,
        KeySet::Noise => reporting || crate::chars::eq_str(&k, "interface") || crate::chars::eq_str(&k, "used_prompt")
            || crate::chars::eq_str(&k, "notes") || crate::chars::eq_str(&k, "receipt") || crate::chars::eq_str(
            &k,
            "should_register_tool",
        ),
    }
}

fn drop_keys(set: &KeySet, value: &JsonValue) -> (r: JsonValue)
    ensures
        json_data(r) == without_keys(*set, json_data(*value)),
    decreases value,
{
    match value {
        JsonValue::Object(members) => {
            proof {
                lemma_object_data(members@);
            }
            let ghost md = object_data(members@);
            let mut out: Vec<(String, JsonValue)> = Vec::new();
            let mut i: usize = 0;
            assert(object_data(out@) =~= kept_members(*set, md.take(0)));
            while i < members.len()
                invariant
                    i <= members.len(),
                    *value == JsonValue::Object(*members),
                    md == object_data(members@),
                    md.len() == members.len(),
                    forall|j: int| 0 <= j < members.len() ==> #[trigger] md[j] == (members@[j].0@, json_data(members@[j].1)),
                    object_data(out@) == kept_members(*set, md.take(i as int)),
                decreases members.len() - i,
            {
                proof {
                    assert(decreases_to!(*value => value->Object_0));
                    assert(decreases_to!(value->Object_0 => value->Object_0@));
                    assert(decreases_to!(value->Object_0@ => value->Object_0@[i as int]));
                    assert(decreases_to!(value->Object_0@[i as int] => value->Object_0@[i as int].1));
                    lemma_object_data(out@);
                    assert(md.take(i + 1).drop_last() =~= md.take(i as int));
                    assert(md.take(i + 1).last() == md[i as int]);
                }
                if !is_dropped(set, members[i].0.as_str()) {
                    let s = drop_keys(set, &members[i].1);
                    let ghost before = out@;
                    out.push((members[i].0.clone(), s));
                    proof {
                        assert(out@.drop_last() =~= before);
                        assert(object_data(out@) =~= object_data(before).push(
                            (md[i as int].0, without_keys(*set, md[i as int].1)),
                        ));
                    }
                }
                i = i + 1;
            }
            assert(md.take(i as int) =~= md);
            JsonValue::Object(out)
        },
        JsonValue::Array(items) => {
            proof {
                lemma_array_data(items@);
            }
            let ghost ad = array_data(items@);
            let mut out: Vec<JsonValue> = Vec::new();
            let mut i: usize = 0;
            assert(array_data(out@) =~= kept_items(*set, ad.take(0)));
            while i < items.len()
                invariant
                    i <= items.len(),
                    *value == JsonValue::Array(*items),
                    ad == array_data(items@),
                    ad.len() == items.len(),
                    forall|j: int| 0 <= j < items.len() ==> #[trigger] ad[j] == json_data(items@[j]),
                    array_data(out@) == kept_items(*set, ad.take(i as int)),
                decreases items.len() - i,
            {
                proof {
                    assert(decreases_to!(*value => value->Array_0));
                    assert(decreases_to!(value->Array_0 => value->Array_0@));
                    assert(decreases_to!(value->Array_0@ => value->Array_0@[i as int]));
                    lemma_array_data(out@);
                    assert(ad.take(i + 1).drop_last() =~= ad.take(i as int));
                    assert(ad.take(i + 1).last() == ad[i as int]);
                }
                let s = drop_keys(set, &items[i]);
                let ghost before = out@;
                out.push(s);
                proof {
                    lemma_array_data(out@);
                    assert(out@.drop_last() =~= before);
                }
                i = i + 1;
            }
            assert(ad.take(i as int) =~= ad);
            JsonValue::Array(out)
        },
        other => copy_json(other),
    }
}

/// A command_run result without the keys that only report on the call.
pub fn strip_command_run_context_noise(value: JsonValue) -> (r: JsonValue)
    ensures
        json_data(r) == without_keys(KeySet::Noise, json_data(value)),
{
    drop_keys(&KeySet::Noise, &value)
}

/// A tool result without its reporting fields.
pub fn strip_tool_reporting_fields(value: JsonValue) -> (r: JsonValue)
    ensures
        json_data(r) == without_keys(KeySet::Reporting, json_data(value)),
{
    drop_keys(&KeySet::Reporting, &value)
}

/// The results of a command_run output, a batch result standing for the
/// results it holds.
pub open spec fn flattened_results(output: JsonData) -> Seq<JsonData> {
    match as_items(member(output, "results"@)) {
        Some(results) => flatten_batches(results),
        None => Seq::empty(),
    }
}

pub open spec fn flatten_batches(results: Seq<JsonData>) -> Seq<JsonData>
    decreases results.len(),
{
    if results.len() == 0 {
        Seq::empty()
    } else {
        let r = flatten_batches(results.drop_last());
        let result = results.last();
        if member_text(result, "mode"@) == Some("batch"@) && as_items(member(result, "results"@)) is Some {
            r + as_items(member(result, "results"@))->0
        } else {
            r.push(result)
        }
    }
}

fn append_copies(out: &mut Vec<JsonValue>, items: &Vec<JsonValue>)
    ensures
        array_data(final(out)@) == array_data(old(out)@) + array_data(items@),
{
    proof {
        lemma_array_data(items@);
        lemma_array_data(out@);
    }
    let ghost start = array_data(out@);
    let mut i: usize = 0;
    assert(array_data(items@).take(0) =~= Seq::<JsonData>::empty());
    while i < items.len()
        invariant
            i <= items.len(),
            array_data(items@).len() == items.len(),
            forall|j: int| 0 <= j < items.len() ==> #[trigger] array_data(items@)[j] == json_data(items@[j]),
            array_data(out@) == start + array_data(items@).take(i as int),
        decreases items.len() - i,
    {
        let ghost before = out@;
        out.push(copy_json(&items[i]));
        proof {
            lemma_array_data(out@);
            lemma_array_data(before);
            assert(out@.drop_last() =~= before);
            assert(array_data(items@).take(i + 1) =~= array_data(items@).take(i as int).push(array_data(items@)[i as int]));
        }
        i = i + 1;
    }
    assert(array_data(items@).take(i as int) =~= array_data(items@));
}

pub fn flattened_command_run_results(output: &JsonValue) -> (r: Vec<JsonValue>)
    ensures
        array_data(r@) == flattened_results(json_data(*output)),
{
    let mut out: Vec<JsonValue> = Vec::new();
    let results = match json_get(output, "results") {
        Some(r) => match json_as_array(r) {
            Some(items) => items,
            None => {
                assert(array_data(out@) =~= Seq::<JsonData>::empty());
                return out;
            },
        },
        None => {
            assert(array_data(out@) =~= Seq::<JsonData>::empty());
            return out;
        },
    };
    proof {
        lemma_array_data(results@);
    }
    let ghost ad = array_data(results@);
    let mut i: usize = 0;
    assert(array_data(out@) =~= flatten_batches(ad.take(0)));
    while i < results.len()
        invariant
            i <= results.len(),
            ad == array_data(results@),
            ad.len() == results.len(),
            forall|j: int| 0 <= j < results.len() ==> #[trigger] ad[j] == json_data(results@[j]),
            array_data(out@) == flatten_batches(ad.take(i as int)),
        decreases results.len() - i,
    {
        assert(ad.take(i + 1).drop_last() =~= ad.take(i as int));
        assert(ad.take(i + 1).last() == ad[i as int]);
        let result = &results[i];
        let is_batch = match json_member_str(result, "mode") {
            Some(m) => crate::manas::tool_catalog::same_text(m, "batch"),
            None => false,
        };
        let batch = if is_batch {
            match json_get(result, "results") {
                Some(r) => json_as_array(r),
                None => None,
            }
        } else {
            None
        };
        match batch {
            Some(items) => {
                append_copies(&mut out, items);
            },
            None => {
                let ghost before = out@;
                out.push(copy_json(result));
                proof {
                    lemma_array_data(out@);
                    lemma_array_data(before);
                    assert(out@.drop_last() =~= before);
                    assert(array_data(out@) =~= array_data(before).push(ad[i as int]));
                }
            },
        }
        i = i + 1;
    }
    assert(ad.take(i as int) =~= ad);
    out
}

/// The id of a cached context entry: the FNV-1a hash of the value's compact
/// JSON text, as sixteen hexadecimal digits.
pub open spec fn context_cache_id(d: JsonData) -> Seq<char> {
    hex_text(fnv1a(vstd::utf8::encode_utf8(json_text(d))) as nat, 16)
}

pub fn stable_context_cache_id(value: &JsonValue) -> (r: String)
    ensures
        r@ == context_cache_id(json_data(*value)),
{
    let text = json_to_string(value);
    fnv1a_hex(text.as_str())
}

/// The first (up to) `n` ASCII letters and digits of a text, in order.
pub open spec fn alnum_prefix(s: Seq<char>, n: nat) -> Seq<char>
    decreases s.len(),
{
    if s.len() == 0 || n == 0 {
        Seq::empty()
    } else if is_ascii_alnum_char(s[0]) {
        seq![s[0]] + alnum_prefix(s.drop_first(), (n - 1) as nat)
    } else {
        alnum_prefix(s.drop_first(), n)
    }
}

/// `call_` and the first 24 ASCII letters and digits of a cached context id.
pub fn call_id_from_cache_id(cache_id: &str) -> (r: String)
    ensures
        r@ == "call_"@ + alnum_prefix(cache_id@, 24),
{
    let cv = chars_of(cache_id);
    let mut out: Vec<char> = Vec::new();
    push_str(&mut out, "call_");
    let ghost head = out@;
    let mut taken: usize = 0;
    let mut i: usize = 0;
    assert(cv@.skip(0) =~= cv@);
    while i < cv.len() && taken < 24
        invariant
            i <= cv.len(),
            taken <= 24,
            out@ + alnum_prefix(cv@.skip(i as int), (24 - taken) as nat) == head + alnum_prefix(cv@, 24),
        decreases cv.len() - i,
    {
        assert(cv@.skip(i as int).drop_first() =~= cv@.skip(i + 1));
        assert(cv@.skip(i as int)[0] == cv[i as int]);
        if is_ascii_alnum(cv[i]) {
            out.push(cv[i]);
            taken = taken + 1;
            assert(out@ + alnum_prefix(cv@.skip(i + 1), (24 - taken) as nat) =~= head + alnum_prefix(cv@, 24));
        }
        i = i + 1;
    }
    if i >= cv.len() {
        assert(cv@.skip(i as int) =~= Seq::<char>::empty());
    }
    assert(alnum_prefix(cv@.skip(i as int), (24 - taken) as nat) =~= Seq::<char>::empty());
    assert(out@ =~= head + alnum_prefix(cv@, 24));
    string_of(&out)
}

/// The call id of a command_run result in the context: the provider's id
/// when it gave one that is not blank, else `call_` and the first 24 ASCII
/// letters and digits of the cached context id (or of `command_run`).
pub open spec fn context_call_id(value: JsonData) -> Seq<char> {
    let provider = match member(value, "provider_metadata"@) {
        Some(m) => member_text(m, "id"@),
        None => None,
    };
    match provider {
        Some(id) if trim_ws(id).len() > 0 => id,
        _ => {
            let cache_id = match member(value, "context_cache"@) {
                Some(c) => match member_text(c, "cache_id"@) {
                    Some(id) => id,
                    None => "command_run"@,
                },
                None => "command_run"@,
            };
            "call_"@ + alnum_prefix(cache_id, 24)
        },
    }
}

pub fn command_run_context_call_id(value: &JsonValue) -> (r: String)
    ensures
        r@ == context_call_id(json_data(*value)),
{
    let provider = match json_get(value, "provider_metadata") {
        Some(m) => json_member_str(m, "id"),
        None => None,
    };
    match provider {
        Some(id) => {
            if trim(&chars_of(id)).len() > 0 {
                return id.to_owned();
            }
        },
        None => {},
    }
    let cache_id: &str = match json_get(value, "context_cache") {
        Some(c) => match json_member_str(c, "cache_id") {
            Some(id) => id,
            None => "command_run",
        },
        None => "command_run",
    };
    call_id_from_cache_id(cache_id)
}

/// The command line of a command_run input, when it has one.
pub fn command_line_from_input(input: Option<&JsonValue>) -> (r: Option<&str>)
    ensures
        match r {
            Some(s) => input matches Some(i) && member_text(json_data(*i), "command_line"@) == Some(s@),
            None => input matches Some(i) ==> member_text(json_data(*i), "command_line"@) is None,
        },
{
    match input {
        Some(i) => json_member_str(i, "command_line"),
        None => None,
    }
}

/// A value as context text: a string as it is, anything else as indented
/// JSON.
pub open spec fn compact_json_text(d: JsonData) -> Seq<char> {
    match d {
        JsonData::Str(s) => s,
        other => json_pretty_text(other),
    }
}

pub fn compact_json_to_string(value: &JsonValue) -> (r: String)
    ensures
        r@ == compact_json_text(json_data(*value)),
{
    match value {
        JsonValue::Str(s) => s.clone(),
        other => json_to_string_pretty(other),
    }
}

/// A value for the context: as it is when its indented JSON fits the
/// context budget, otherwise that text cut to the budget as a string.
pub open spec fn context_sized(d: JsonData) -> JsonData {
    if utf8_len(json_pretty_text(d)) <= CONTEXT_OUTPUT_MAX_TOKENS * 4 {
        d
    } else {
        JsonData::Str(formatted_token_budget_text(json_pretty_text(d), CONTEXT_OUTPUT_MAX_TOKENS as nat))
    }
}

pub fn compact_json_for_context(value: JsonValue) -> (r: JsonValue)
    ensures
        json_data(r) == context_sized(json_data(value)),
{
    let serialized = json_to_string_pretty(&value);
    if byte_len(serialized.as_str()) <= context_output_byte_budget() {
        return value;
    }
    JsonValue::Str(formatted_truncate_text(serialized.as_str(), CONTEXT_OUTPUT_MAX_TOKENS))
}

} // verus!
