//! The identity system prompt that opens every runtime conversation.
use vstd::prelude::*;
use crate::chars::{ascii_lower, eq_str, to_ascii_lowercase, trim, trim_ws};
use crate::text::{chars_of, join, join_chars, push_chars, push_str, string_of};

verus! {

/// `value` trimmed, or `default_value` when that leaves nothing.
pub open spec fn fallback_text(value: Seq<char>, default_value: Seq<char>) -> Seq<char> {
    if trim_ws(value).len() == 0 {
        default_value
    } else {
        trim_ws(value)
    }
}

pub fn fallback(value: &str, default_value: &str) -> (r: Vec<char>)
    ensures
        r@ == fallback_text(value@, default_value@),
{
    let v = chars_of(value);
    let t = trim(&v);
    if t.len() == 0 {
        chars_of(default_value)
    } else {
        t
    }
}

/// A fallback with a non-empty default is never empty.
pub proof fn law_fallback_never_empty(value: Seq<char>, default_value: Seq<char>)
    requires
        default_value.len() > 0,
    ensures
        fallback_text(value, default_value).len() > 0,
{
}

pub open spec fn english_instruction() -> Seq<char> {
    "Respond in English when the user's language is unclear; otherwise mirror the user's language."@
}

pub open spec fn chinese_instruction() -> Seq<char> {
    "用户语言不明确时使用简体中文回复；否则跟随用户当前使用的语言。"@
}

pub open spec fn default_language_instruction() -> Seq<char> {
    "Respond in the configured application language when the user's language is unclear; otherwise mirror the user's language."@
}

/// The language instruction for a configured language, matched on the
/// trimmed, ASCII-lower-cased name.
pub open spec fn language_instruction_text(language: Seq<char>) -> Seq<char> {
    let l = ascii_lower(trim_ws(language));
    if l == "en"@ || l == "en-us"@ || l == "en-gb"@ || l == "english"@ {
        english_instruction()
    } else if l == "zh"@ || l == "zh-cn"@ || l == "zh-hans"@ || l == "chinese"@ || l
        == "simplified chinese"@ || l == "简体中文"@ {
        chinese_instruction()
    } else {
        default_language_instruction()
    }
}

pub fn language_instruction(language: &str) -> (r: &'static str)
    ensures
        r@ == language_instruction_text(language@),
{
    let raw = chars_of(language);
    let t = trim(&raw);
    let l = to_ascii_lowercase(&t);
    if eq_str(&l, "en") || eq_str(&l, "en-us") || eq_str(&l, "en-gb") || eq_str(&l, "english") {
        "Respond in English when the user's language is unclear; otherwise mirror the user's language."
    } else if eq_str(&l, "zh") || eq_str(&l, "zh-cn") || eq_str(&l, "zh-hans") || eq_str(
        &l,
        "chinese",
    ) || eq_str(&l, "simplified chinese") || eq_str(&l, "简体中文") {
        "用户语言不明确时使用简体中文回复；否则跟随用户当前使用的语言。"
    } else {
        "Respond in the configured application language when the user's language is unclear; otherwise mirror the user's language."
    }
}

/// The persona part of the identity: `default persona` without personas,
/// else the personas (each trimmed, `unknown persona` when blank) joined by
/// commas.
pub open spec fn persona_text(persona_names: Seq<Seq<char>>) -> Seq<char> {
    if persona_names.len() == 0 {
        "default persona"@
    } else {
        join(
            persona_names.map_values(|p: Seq<char>| fallback_text(p, "unknown persona"@)),
            ", "@,
        )
    }
}

/// The identity system prompt.
pub open spec fn agent_identity_text(
    agent_name: Seq<char>,
    user_name: Seq<char>,
    persona_names: Seq<Seq<char>>,
    model_name: Seq<char>,
    llm_provider_name: Seq<char>,
    language: Seq<char>,
) -> Seq<char> {
    "You are "@ + fallback_text(agent_name, "Tura"@) + ", an agent using persona: "@
        + persona_text(persona_names) + ". Current user: "@ + fallback_text(user_name, "user"@)
        + ". Runtime model: "@ + fallback_text(model_name, "unknown"@) + ". LLM provider: "@
        + fallback_text(llm_provider_name, "unknown"@) + ". "@ + language_instruction_text(language)
        + " Follow the persona and communication style supplied in the following system messages."@
}

pub fn agent_identity(
    agent_name: &str,
    user_name: &str,
    persona_names: &[String],
    model_name: &str,
    llm_provider_name: &str,
    language: &str,
) -> (r: String)
    ensures
        r@ == agent_identity_text(
            agent_name@,
            user_name@,
            persona_names@.map_values(|p: String| p@),
            model_name@,
            llm_provider_name@,
            language@,
        ),
{
    let ghost pv = persona_names@.map_values(|p: String| p@);
    let mut persona: Vec<char> = Vec::new();
    if persona_names.len() == 0 {
        push_str(&mut persona, "default persona");
    } else {
        let mut parts: Vec<Vec<char>> = Vec::new();
        let mut i: usize = 0;
        while i < persona_names.len()
            invariant
                i <= persona_names.len(),
                pv == persona_names@.map_values(|p: String| p@),
                parts.len() == i,
                forall|j: int|
                    0 <= j < i ==> #[trigger] parts@[j]@ == fallback_text(pv[j], "unknown persona"@),
            decreases persona_names.len() - i,
        {
            let f = fallback(persona_names[i].as_str(), "unknown persona");
            parts.push(f);
            i = i + 1;
        }
        assert(parts@.map_values(|w: Vec<char>| w@) =~= pv.map_values(
            |p: Seq<char>| fallback_text(p, "unknown persona"@),
        ));
        persona = join_chars(&parts, ", ");
    }
    let mut out: Vec<char> = Vec::new();
    push_str(&mut out, "You are ");
    push_chars(&mut out, &fallback(agent_name, "Tura"));
    push_str(&mut out, ", an agent using persona: ");
    push_chars(&mut out, &persona);
    push_str(&mut out, ". Current user: ");
    push_chars(&mut out, &fallback(user_name, "user"));
    push_str(&mut out, ". Runtime model: ");
    push_chars(&mut out, &fallback(model_name, "unknown"));
    push_str(&mut out, ". LLM provider: ");
    push_chars(&mut out, &fallback(llm_provider_name, "unknown"));
    push_str(&mut out, ". ");
    push_str(&mut out, language_instruction(language));
    push_str(
        &mut out,
        " Follow the persona and communication style supplied in the following system messages.",
    );
    string_of(&out)
}

} // verus!
