//! Decisions of a model turn that do not need the provider: the session's
//! language and user name, the context limit, when to ask for a context
//! checkpoint, which input token count to show, and the order of tools.
use vstd::prelude::*;
use crate::chars::{contains, contains_str, trim, trim_ws};
use crate::gateway_events::{all_digits, digits_value, lemma_digits_value_grows, opt_view, parse_usize, parsed_usize};
use crate::json::{array_data, json_data, json_text, json_to_string, lemma_array_data, opt_json_data, JsonData, JsonValue};
use crate::manas::constants::COMMAND_RUN_TOOL;
use crate::manas::tool_catalog::{schema_name, tool_schema_name, turn_tools};
use crate::text::{chars_of, string_of};

verus! {

/// The session's language: the setting, trimmed, when it is not blank;
/// `en` otherwise.
pub open spec fn language_of(setting: Option<Seq<char>>) -> Seq<char> {
    match setting {
        Some(v) => if trim_ws(v).len() > 0 {
            trim_ws(v)
        } else {
            "en"@
        },
        None => "en"@,
    }
}

pub fn session_language(setting: Option<&str>) -> (r: String)
    ensures
        r@ == language_of(opt_view(setting)),
{
    match setting {
        Some(v) => {
            let t = trim(&chars_of(v));
            if t.len() > 0 {
                return string_of(&t);
            }
            "en".to_owned()
        },
        None => "en".to_owned(),
    }
}

/// The user's name: the first of the session setting, `USERNAME` and `USER`
/// that is set, trimmed, when it is not blank; `user` otherwise.
pub open spec fn user_name_of(session: Option<Seq<char>>, username: Option<Seq<char>>, user: Option<Seq<char>>) -> Seq<char> {
    let chosen = match session {
        Some(s) => Some(s),
        None => match username {
            Some(u) => Some(u),
            None => user,
        },
    };
    match chosen {
        Some(v) => if trim_ws(v).len() > 0 {
            trim_ws(v)
        } else {
            "user"@
        },
        None => "user"@,
    }
}

pub fn session_user_name(session: Option<&str>, username: Option<&str>, user: Option<&str>) -> (r: String)
    ensures
        r@ == user_name_of(opt_view(session), opt_view(username), opt_view(user)),
{
    let chosen = match session {
        Some(s) => Some(s),
        None => match username {
            Some(u) => Some(u),
            None => user,
        },
    };
    match chosen {
        Some(v) => {
            let t = trim(&chars_of(v));
            if t.len() > 0 {
                return string_of(&t);
            }
            "user".to_owned()
        },
        None => "user".to_owned(),
    }
}

/// `u64::from_str`: an optional `+` and at least one decimal digit, with
/// nothing else and a value that fits.
pub open spec fn parsed_u64(s: Seq<char>) -> Option<nat> {
    let d = if s.len() > 0 && s[0] == '+' {
        s.skip(1)
    } else {
        s
    };
    if d.len() == 0 || !all_digits(d) || digits_value(d) > u64::MAX {
        None
    } else {
        Some(digits_value(d))
    }
}

pub fn parse_u64(s: &str) -> (r: Option<u64>)
    ensures
        match r {
            Some(n) => parsed_u64(s@) == Some(n as nat),
            None => parsed_u64(s@) is None,
        },
{
    let v = chars_of(s);
    let start: usize = if v.len() > 0 && v[0] == '+' {
        1
    } else {
        0
    };
    let ghost d = if s@.len() > 0 && s@[0] == '+' {
        s@.skip(1)
    } else {
        s@
    };
    assert(d =~= v@.skip(start as int));
    if start >= v.len() {
        return None;
    }
    let mut acc: u64 = 0;
    let mut i: usize = start;
    assert(d.take(0) =~= Seq::<char>::empty());
    while i < v.len()
        invariant
            start <= i <= v.len(),
            d == v@.skip(start as int),
            v@ == s@,
            d == (if s@.len() > 0 && s@[0] == '+' {
                s@.skip(1)
            } else {
                s@
            }),
            all_digits(d.take(i - start)),
            acc == digits_value(d.take(i - start)),
        decreases v.len() - i,
    {
        let c = v[i];
        let k: usize = (i - start) as usize;
        assert(d[k as int] == c);
        assert(d.take(k + 1).drop_last() =~= d.take(k as int));
        if !(48 <= (c as u32) && (c as u32) <= 57) {
            assert(!(48 <= (d[k as int] as u32) <= 57));
            assert(!all_digits(d));
            return None;
        }
        let digit: u64 = ((c as u32) - 48) as u64;
        assert(d.take(k + 1).last() == c);
        assert(digits_value(d.take(k + 1)) == acc * 10 + digit);
        match acc.checked_mul(10) {
            None => {
                proof {
                    lemma_digits_value_grows(d, k + 1);
                }
                return None;
            },
            Some(m) => match m.checked_add(digit) {
                None => {
                    proof {
                        lemma_digits_value_grows(d, k + 1);
                    }
                    return None;
                },
                Some(n) => {
                    acc = n;
                },
            },
        }
        i = i + 1;
        assert forall|j: int| 0 <= j < d.take(i - start).len() implies 48 <= (#[trigger] d.take(
            i - start,
        )[j] as u32) <= 57 by {
            if j < k {
                assert(d.take(i - start)[j] == d.take(k as int)[j]);
            }
        }
    }
    assert(d.take(i - start) =~= d);
    Some(acc)
}


/// A fixed context limit from one setting: its trimmed text as a positive
/// number.
pub open spec fn fixed_limit(setting: Option<Seq<char>>) -> Option<nat> {
    match setting {
        Some(v) => match parsed_u64(trim_ws(v)) {
            Some(n) => if n > 0 {
                Some(n)
            } else {
                None
            },
            None => None,
        },
        None => None,
    }
}

fn fixed_limit_exec(setting: Option<&str>) -> (r: Option<u64>)
    ensures
        match r {
            Some(n) => fixed_limit(opt_view(setting)) == Some(n as nat),
            None => fixed_limit(opt_view(setting)) is None,
        },
{
    match setting {
        Some(v) => {
            let t = string_of(&trim(&chars_of(v)));
            match parse_u64(t.as_str()) {
                Some(n) => if n > 0 {
                    Some(n)
                } else {
                    None
                },
                None => None,
            }
        },
        None => None,
    }
}

/// The fixed context limit: the first of the two settings that gives one.
pub fn fixed_context_limit_tokens(agent_fixed: Option<&str>, tura_limit: Option<&str>) -> (r: Option<u64>)
    ensures
        match r {
            Some(n) => match fixed_limit(opt_view(agent_fixed)) {
                Some(a) => a == n,
                None => fixed_limit(opt_view(tura_limit)) == Some(n as nat),
            },
            None => fixed_limit(opt_view(agent_fixed)) is None && fixed_limit(opt_view(tura_limit)) is None,
        },
{
    match fixed_limit_exec(agent_fixed) {
        Some(n) => Some(n),
        None => fixed_limit_exec(tura_limit),
    }
}

/// The context limit of a turn: the fixed one when set; otherwise sixty
/// percent of the model's context window (its product saturating), but no
/// more than the default limit; the default limit when the model's window
/// is not known.
pub open spec fn context_limit(default_limit: nat, fixed: Option<nat>, model_context: Option<nat>) -> nat {
    match fixed {
        Some(f) => f,
        None => match model_context {
            Some(m) => {
                let scaled = if m * 60 > u64::MAX {
                    u64::MAX as nat
                } else {
                    m * 60
                };
                let share = scaled / 100;
                if default_limit <= share {
                    default_limit
                } else {
                    share
                }
            },
            None => default_limit,
        },
    }
}

pub fn dynamic_context_limit_tokens(default_limit: u64, fixed: Option<u64>, model_context: Option<u64>) -> (r: u64)
    ensures
        r == context_limit(
            default_limit as nat,
            match fixed {
                Some(f) => Some(f as nat),
                None => None,
            },
            match model_context {
                Some(m) => Some(m as nat),
                None => None,
            },
        ),
{
    match fixed {
        Some(f) => f,
        None => match model_context {
            Some(m) => {
                let scaled = match m.checked_mul(60) {
                    Some(x) => x,
                    None => u64::MAX,
                };
                let share = scaled / 100;
                if default_limit <= share {
                    default_limit
                } else {
                    share
                }
            },
            None => default_limit,
        },
    }
}

/// The model's context window: the catalog's, or the default limit.
pub fn model_context_window_tokens(default_limit: u64, model_context: Option<u64>) -> (r: u64)
    ensures
        r == match model_context {
            Some(m) => m,
            None => default_limit,
        },
{
    match model_context {
        Some(m) => m,
        None => default_limit,
    }
}

/// Whether a message already asks for a context checkpoint: its JSON text
/// says so.
pub open spec fn requests_compact(message: JsonData) -> bool {
    contains(json_text(message), "Context checkpoint required"@) || contains(
        json_text(message),
        "compact_context as the final command"@,
    )
}

pub fn messages_already_request_compact(messages: &[JsonValue]) -> (b: bool)
    ensures
        b == exists|i: int| 0 <= i < messages@.len() && requests_compact(json_data(#[trigger] messages@[i])),
{
    let mut i: usize = 0;
    while i < messages.len()
        invariant
            i <= messages.len(),
            forall|j: int| 0 <= j < i ==> !requests_compact(json_data(#[trigger] messages@[j])),
        decreases messages.len() - i,
    {
        let text = chars_of(json_to_string(&messages[i]).as_str());
        if contains_str(&text, "Context checkpoint required") || contains_str(&text, "compact_context as the final command") {
            assert(requests_compact(json_data(messages@[i as int])));
            return true;
        }
        i = i + 1;
    }
    false
}

/// Whether a turn must ask for a context checkpoint: no message asks for
/// one yet, and the estimated input, or the input that the provider last
/// reported, reaches the limit.
pub open spec fn force_compact(
    messages: Seq<JsonValue>,
    estimated_input_tokens: nat,
    context_limit_tokens: nat,
    previous_input_tokens: Option<nat>,
) -> bool {
    &&& !(exists|i: int| 0 <= i < messages.len() && requests_compact(json_data(#[trigger] messages[i])))
    &&& (estimated_input_tokens >= context_limit_tokens || match previous_input_tokens {
        Some(p) => p >= context_limit_tokens,
        None => false,
    })
}

pub fn should_force_compact_prompt(
    messages: &[JsonValue],
    estimated_input_tokens: u64,
    context_limit_tokens: u64,
    previous_input_tokens: Option<u64>,
) -> (b: bool)
    ensures
        b == force_compact(
            messages@,
            estimated_input_tokens as nat,
            context_limit_tokens as nat,
            match previous_input_tokens {
                Some(p) => Some(p as nat),
                None => None,
            },
        ),
{
    if messages_already_request_compact(messages) {
        return false;
    }
    estimated_input_tokens >= context_limit_tokens || match previous_input_tokens {
        Some(p) => p >= context_limit_tokens,
        None => false,
    }
}

/// The input tokens that a provider reported, when it reported any.
pub fn runtime_input_tokens(usage_input_tokens: Option<u64>) -> (r: Option<u64>)
    ensures
        r == match usage_input_tokens {
            Some(n) => if n > 0 {
                Some(n)
            } else {
                None
            },
            None => None,
        },
{
    match usage_input_tokens {
        Some(n) => if n > 0 {
            Some(n)
        } else {
            None
        },
        None => None,
    }
}

/// A session's context token counts: what is in the context and its limit.
#[derive(Clone, Copy, Debug, PartialEq, Eq)]
pub struct ContextTokens {
    pub input: u64,
    pub limit: u64,
}

/// The context counts shown after a turn: the session's input count
/// becomes the provider's when it reported one (it stays otherwise), its
/// limit becomes the model's context window, and the runtime's copy of
/// the counts becomes the session's.
pub fn sync_context_tokens_from_provider_usage(
    session_tokens: &mut ContextTokens,
    runtime_tokens: &mut ContextTokens,
    usage_input_tokens: Option<u64>,
    context_window_tokens: u64,
)
    ensures
        final(session_tokens).input == match usage_input_tokens {
            Some(n) => if n > 0 {
                n
            } else {
                old(session_tokens).input
            },
            None => old(session_tokens).input,
        },
        final(session_tokens).limit == context_window_tokens,
        *final(runtime_tokens) == *final(session_tokens),
{
    match runtime_input_tokens(usage_input_tokens) {
        Some(n) => {
            session_tokens.input = n;
        },
        None => {},
    }
    session_tokens.limit = context_window_tokens;
    *runtime_tokens = *session_tokens;
}

/// The tool choice of every turn: `auto`, which keeps the tool list (and
/// the provider's prompt cache) the same on the final turn.
pub fn tool_choice_for_turn(disable_tool_invocation: bool) -> (r: Option<JsonValue>)
    ensures
        r matches Some(v) && json_data(v) == JsonData::Str("auto"@),
{
    Some(JsonValue::Str("auto".to_owned()))
}

/// The tools with command_run's schemas moved to the end, each group in its
/// order.
pub open spec fn command_run_last(tools: Seq<JsonData>) -> Seq<JsonData> {
    tools.filter(|t: JsonData| schema_name(t) != Some(COMMAND_RUN_TOOL@)) + tools.filter(
        |t: JsonData| schema_name(t) == Some(COMMAND_RUN_TOOL@),
    )
}

pub fn move_command_run_to_end(tools: Vec<JsonValue>) -> (r: Vec<JsonValue>)
    ensures
        array_data(r@) == command_run_last(array_data(tools@)),
{
    proof {
        lemma_array_data(tools@);
    }
    let ghost all = tools@;
    let ghost ad = array_data(all);
    let n = tools.len();
    let mut rest = tools;
    let mut others: Vec<JsonValue> = Vec::new();
    let mut runs: Vec<JsonValue> = Vec::new();
    let mut k: usize = 0;
    assert(all.skip(0) =~= all);
    assert(ad.take(0).filter(|t: JsonData| schema_name(t) != Some(COMMAND_RUN_TOOL@)) =~= Seq::<JsonData>::empty());
    assert(ad.take(0).filter(|t: JsonData| schema_name(t) == Some(COMMAND_RUN_TOOL@)) =~= Seq::<JsonData>::empty());
    proof {
        lemma_array_data(others@);
        lemma_array_data(runs@);
    }
    while k < n
        invariant
            k <= n,
            n == all.len(),
            ad == array_data(all),
            ad.len() == all.len(),
            forall|j: int| 0 <= j < all.len() ==> #[trigger] ad[j] == json_data(all[j]),
            rest@ == all.skip(k as int),
            array_data(others@) == ad.take(k as int).filter(|t: JsonData| schema_name(t) != Some(COMMAND_RUN_TOOL@)),
            array_data(runs@) == ad.take(k as int).filter(|t: JsonData| schema_name(t) == Some(COMMAND_RUN_TOOL@)),
        decreases n - k,
    {
        assert(rest@[0] == all[k as int]);
        let t = rest.remove(0);
        assert(rest@ =~= all.skip(k + 1));
        assert(ad.take(k + 1).drop_last() =~= ad.take(k as int));
        assert(ad.take(k + 1).last() == ad[k as int]);
        proof {
            reveal(Seq::filter);
        }
        let is_run = match tool_schema_name(&t) {
            Some(name) => crate::manas::tool_catalog::same_text(name, COMMAND_RUN_TOOL),
            None => false,
        };
        if is_run {
            let ghost before = runs@;
            runs.push(t);
            proof {
                lemma_array_data(runs@);
                lemma_array_data(before);
                assert(array_data(runs@) =~= array_data(before).push(ad[k as int]));
            }
        } else {
            let ghost before = others@;
            others.push(t);
            proof {
                lemma_array_data(others@);
                lemma_array_data(before);
                assert(array_data(others@) =~= array_data(before).push(ad[k as int]));
            }
        }
        k = k + 1;
    }
    assert(ad.take(k as int) =~= ad);
    let ghost o = others@;
    let ghost c = runs@;
    others.append(&mut runs);
    proof {
        lemma_array_data(others@);
        lemma_array_data(o);
        lemma_array_data(c);
        assert(others@ =~= o + c);
        assert(array_data(others@) =~= array_data(o) + array_data(c));
    }
    others
}

/// The token count at which a checkpoint is asked for: the setting, trimmed,
/// as a number; 220,000 otherwise.
pub fn compact_context_token_threshold(setting: Option<&str>) -> (n: usize)
    ensures
        n == match setting {
            Some(v) => match parsed_usize(trim_ws(v@)) {
                Some(k) => k,
                None => 220_000nat,
            },
            None => 220_000nat,
        },
{
    match setting {
        Some(v) => {
            let t = string_of(&trim(&chars_of(v)));
            match parse_usize(t.as_str()) {
                Some(k) => k,
                None => 220_000,
            }
        },
        None => 220_000,
    }
}

/// The tools without those named planning.
pub open spec fn without_planning_tools(tools: Seq<JsonData>) -> Seq<JsonData> {
    tools.filter(|t: JsonData| schema_name(t) != Some("planning"@))
}

/// The tools offered to the provider on a turn: planning left out when it
/// is disabled, then the turn's filter (command_run only, none on a final
/// or tool-less turn), command_run last.
pub open spec fn turn_provider_tools(tools: Seq<JsonData>, planning_disabled: bool, is_final_turn: bool, force_no_tools: bool) -> Seq<JsonData> {
    command_run_last(turn_tools(kept_tools(tools, planning_disabled), is_final_turn, force_no_tools))
}

/// The agent's tools, planning left out when it is disabled.
pub open spec fn kept_tools(tools: Seq<JsonData>, planning_disabled: bool) -> Seq<JsonData> {
    if planning_disabled {
        without_planning_tools(tools)
    } else {
        tools
    }
}

/// Whether the tool calls of a turn may run a tool of this name: never on
/// a final or tool-less turn; otherwise a tool offered on the turn, or
/// planning when the agent has it and it is not disabled.
pub open spec fn executable_on_turn(
    tools: Seq<JsonData>,
    planning_disabled: bool,
    planning_enabled: bool,
    is_final_turn: bool,
    force_no_tools: bool,
    name: Seq<char>,
) -> bool {
    let offered = turn_tools(kept_tools(tools, planning_disabled), is_final_turn, force_no_tools);
    !(is_final_turn || force_no_tools) && ((exists|i: int| 0 <= i < offered.len() && schema_name(#[trigger] offered[i]) == Some(name))
        || (planning_enabled && !planning_disabled && name == "planning"@))
}

/// The tools of a turn: what the provider is offered, and the names of the
/// tools whose calls may run.
pub struct TurnTools {
    pub provider_tools: Vec<JsonValue>,
    pub executable_names: Vec<String>,
}

fn drop_planning_tools(tools: Vec<JsonValue>) -> (r: Vec<JsonValue>)
    ensures
        array_data(r@) == without_planning_tools(array_data(tools@)),
{
    proof {
        lemma_array_data(tools@);
    }
    let ghost ad = array_data(tools@);
    let mut out: Vec<JsonValue> = Vec::new();
    let mut i: usize = 0;
    assert(ad.take(0) =~= Seq::<JsonData>::empty());
    proof {
        lemma_array_data(out@);
    }
    while i < tools.len()
        invariant
            i <= tools.len(),
            ad == array_data(tools@),
            ad.len() == tools.len(),
            forall|j: int| 0 <= j < tools.len() ==> #[trigger] ad[j] == json_data(tools@[j]),
            array_data(out@) == ad.take(i as int).filter(|t: JsonData| schema_name(t) != Some("planning"@)),
        decreases tools.len() - i,
    {
        proof {
            reveal(Seq::filter);
            assert(ad.take(i + 1).drop_last() =~= ad.take(i as int));
        }
        let is_planning = match tool_schema_name(&tools[i]) {
            Some(n) => crate::chars::eq_str(&chars_of(n), "planning"),
            None => false,
        };
        if !is_planning {
            let ghost before = out@;
            out.push(crate::json::copy_json(&tools[i]));
            proof {
                lemma_array_data(before);
                lemma_array_data(out@);
                assert(array_data(out@) =~= array_data(before).push(ad[i as int]));
            }
        }
        i = i + 1;
    }
    assert(ad.take(i as int) =~= ad);
    out
}

/// Whether `names` lists `name`.
pub fn has_name(names: &Vec<String>, name: &str) -> (b: bool)
    ensures
        b == listed(names@, name@),
{
    let mut i: usize = 0;
    while i < names.len()
        invariant
            i <= names.len(),
            forall|j: int| 0 <= j < i ==> (#[trigger] names@[j])@ != name@,
        decreases names.len() - i,
    {
        if crate::chars::eq_str(&chars_of(names[i].as_str()), name) {
            return true;
        }
        i = i + 1;
    }
    false
}

/// Whether `names` lists `name`.
pub open spec fn listed(names: Seq<String>, name: Seq<char>) -> bool {
    exists|j: int| 0 <= j < names.len() && (#[trigger] names[j])@ == name
}

/// Whether one of the first `n` tools is named `name`.
pub open spec fn offered_name(tools: Seq<JsonData>, n: int, name: Seq<char>) -> bool {
    exists|k: int| 0 <= k < n && schema_name(#[trigger] tools[k]) == Some(name)
}

/// The tools of a turn from the agent's tools.
pub fn prepare_turn_tools(
    tools: Vec<JsonValue>,
    planning_disabled: bool,
    planning_enabled: bool,
    is_final_turn: bool,
    force_no_tools: bool,
) -> (r: TurnTools)
    ensures
        array_data(r.provider_tools@) == turn_provider_tools(array_data(tools@), planning_disabled, is_final_turn, force_no_tools),
        forall|name: Seq<char>|
            #[trigger] listed(r.executable_names@, name) <==> executable_on_turn(
                array_data(tools@),
                planning_disabled,
                planning_enabled,
                is_final_turn,
                force_no_tools,
                name,
            ),
{
    let ghost td = array_data(tools@);
    let kept = if planning_disabled {
        drop_planning_tools(tools)
    } else {
        tools
    };
    let ghost kd = array_data(kept@);
    assert(kd == kept_tools(td, planning_disabled));
    let offered = match crate::manas::tool_catalog::filter_tools_for_turn(kept, is_final_turn, force_no_tools, false, false) {
        Ok(t) => t,
        Err(_) => Vec::new(),
    };
    let ghost od = array_data(offered@);
    assert(od == turn_tools(kd, is_final_turn, force_no_tools));
    proof {
        lemma_array_data(offered@);
    }
    let mut names: Vec<String> = Vec::new();
    if !(is_final_turn || force_no_tools) {
        let mut i: usize = 0;
        while i < offered.len()
            invariant
                i <= offered.len(),
                od == array_data(offered@),
                od.len() == offered.len(),
                forall|j: int| 0 <= j < offered.len() ==> #[trigger] od[j] == json_data(offered@[j]),
                forall|name: Seq<char>| #[trigger] listed(names@, name) <==> offered_name(od, i as int, name),
            decreases offered.len() - i,
        {
            let ghost before = names@;
            assert(forall|name: Seq<char>| #[trigger] listed(before, name) <==> offered_name(od, i as int, name));
            match tool_schema_name(&offered[i]) {
                Some(n) => {
                    names.push(n.to_string());
                    proof {
                        assert forall|name: Seq<char>| #[trigger] listed(names@, name) <==> offered_name(od, i + 1, name) by {
                            if listed(names@, name) {
                                let j = choose|j: int| 0 <= j < names@.len() && (#[trigger] names@[j])@ == name;
                                if j < before.len() {
                                    assert(before[j] == names@[j]);
                                    assert(listed(before, name));
                                } else {
                                    assert(schema_name(od[i as int]) == Some(name));
                                }
                            }
                            if offered_name(od, i + 1, name) {
                                let k = choose|k: int| 0 <= k < i + 1 && schema_name(#[trigger] od[k]) == Some(name);
                                if k < i {
                                    assert(offered_name(od, i as int, name));
                                    assert(listed(before, name));
                                    let j = choose|j: int| 0 <= j < before.len() && (#[trigger] before[j])@ == name;
                                    assert(names@[j] == before[j]);
                                } else {
                                    assert(names@[before.len() as int]@ == name);
                                }
                            }
                        }
                    }
                },
                None => {
                    proof {
                        assert forall|name: Seq<char>| #[trigger] listed(names@, name) <==> offered_name(od, i + 1, name) by {
                            if offered_name(od, i + 1, name) {
                                let k = choose|k: int| 0 <= k < i + 1 && schema_name(#[trigger] od[k]) == Some(name);
                                assert(k != i);
                                assert(offered_name(od, i as int, name));
                            }
                            if offered_name(od, i as int, name) {
                                let k = choose|k: int| 0 <= k < i && schema_name(#[trigger] od[k]) == Some(name);
                                assert(offered_name(od, i + 1, name));
                            }
                        }
                    }
                },
            }
            i = i + 1;
        }
        let ghost base = names@;
        assert(forall|name: Seq<char>| #[trigger] listed(base, name) <==> offered_name(od, od.len() as int, name));
        let add_planning = planning_enabled && !planning_disabled && !has_name(&names, "planning");
        if add_planning {
            names.push("planning".to_string());
            proof {
                assert forall|name: Seq<char>| #[trigger] listed(names@, name) <==> (listed(base, name) || name == "planning"@) by {
                    if listed(names@, name) {
                        let j = choose|j: int| 0 <= j < names@.len() && (#[trigger] names@[j])@ == name;
                        if j < base.len() {
                            assert(base[j] == names@[j]);
                        }
                    }
                    if listed(base, name) {
                        let j = choose|j: int| 0 <= j < base.len() && (#[trigger] base[j])@ == name;
                        assert(names@[j] == base[j]);
                    }
                    if name == "planning"@ {
                        assert(names@[base.len() as int]@ == name);
                    }
                }
            }
        }
        proof {
            assert forall|name: Seq<char>| #[trigger] listed(names@, name) <==> executable_on_turn(td, planning_disabled, planning_enabled, is_final_turn, force_no_tools, name) by {
                assert(offered_name(od, od.len() as int, name) == (exists|k: int| 0 <= k < od.len() && schema_name(#[trigger] od[k]) == Some(name)));
                if !add_planning {
                    assert(names@ == base);
                    if planning_enabled && !planning_disabled && name == "planning"@ {
                        assert(listed(base, name));
                    }
                }
                assert(listed(names@, name) <==> (listed(base, name) || (planning_enabled && !planning_disabled && name == "planning"@)));
                let offered_d = turn_tools(kept_tools(td, planning_disabled), is_final_turn, force_no_tools);
                assert(offered_d == od);
                if offered_name(od, od.len() as int, name) {
                    let k = choose|k: int| 0 <= k < od.len() && schema_name(#[trigger] od[k]) == Some(name);
                    assert(schema_name(offered_d[k]) == Some(name));
                }
            }
        }
    } else {
        proof {
            assert forall|name: Seq<char>| #[trigger] listed(names@, name) <==> executable_on_turn(td, planning_disabled, planning_enabled, is_final_turn, force_no_tools, name) by {
                assert(names@.len() == 0);
            }
        }
    }
    TurnTools { provider_tools: move_command_run_to_end(offered), executable_names: names }
}

/// The context input count a turn goes in with: the provider's last input
/// count when it reported a positive one and it is larger, else the
/// estimate of the turn's messages.
pub fn turn_context_input_tokens(previous_provider_input: Option<u64>, estimated: u64) -> (r: u64)
    ensures
        r == match previous_provider_input {
            Some(p) => if p > 0 && p > estimated {
                p
            } else {
                estimated
            },
            None => estimated,
        },
{
    match previous_provider_input {
        Some(p) => if p > 0 && p > estimated {
            p
        } else {
            estimated
        },
        None => estimated,
    }
}

/// A tool call the model made: the tool, its arguments and what the
/// provider attached to it.
pub struct ToolCallData {
    pub tool_name: String,
    pub arguments: JsonValue,
    pub provider_metadata: Option<JsonValue>,
}

/// A tool call as plain values: (tool, arguments, provider metadata).
pub open spec fn call_view(c: ToolCallData) -> (Seq<char>, JsonData, Option<JsonData>) {
    (c.tool_name@, json_data(c.arguments), opt_json_data(c.provider_metadata))
}

pub open spec fn call_views(cs: Seq<ToolCallData>) -> Seq<(Seq<char>, JsonData, Option<JsonData>)> {
    cs.map_values(|c: ToolCallData| call_view(c))
}

pub open spec fn named_in(names: Seq<String>) -> spec_fn((Seq<char>, JsonData, Option<JsonData>)) -> bool {
    |c: (Seq<char>, JsonData, Option<JsonData>)| listed(names, c.0)
}

/// The tool calls of a turn that may run: those of executable tools, in
/// their order.
pub fn executable_tool_calls(calls: &Vec<ToolCallData>, executable_names: &Vec<String>) -> (r: Vec<ToolCallData>)
    ensures
        call_views(r@) == call_views(calls@).filter(named_in(executable_names@)),
{
    let ghost cv = call_views(calls@);
    let mut out: Vec<ToolCallData> = Vec::new();
    let mut i: usize = 0;
    assert(cv.take(0) =~= Seq::<(Seq<char>, JsonData, Option<JsonData>)>::empty());
    assert(call_views(out@) =~= Seq::<(Seq<char>, JsonData, Option<JsonData>)>::empty());
    while i < calls.len()
        invariant
            i <= calls.len(),
            cv == call_views(calls@),
            cv.len() == calls.len(),
            call_views(out@) == cv.take(i as int).filter(named_in(executable_names@)),
        decreases calls.len() - i,
    {
        proof {
            reveal(Seq::filter);
            assert(cv.take(i + 1).drop_last() =~= cv.take(i as int));
            assert(cv.take(i + 1).last() == call_view(calls@[i as int]));
        }
        let c = &calls[i];
        if has_name(executable_names, c.tool_name.as_str()) {
            let copy = ToolCallData {
                tool_name: c.tool_name.clone(),
                arguments: crate::json::copy_json(&c.arguments),
                provider_metadata: match &c.provider_metadata {
                    Some(m) => Some(crate::json::copy_json(m)),
                    None => None,
                },
            };
            let ghost before = out@;
            out.push(copy);
            assert(call_views(out@) =~= call_views(before).push(call_view(copy)));
        }
        i = i + 1;
    }
    assert(cv.take(i as int) =~= cv);
    out
}

} // verus!
