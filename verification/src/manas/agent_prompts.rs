//! Where an agent's prompt files and its persona's prompt files may be, in
//! the order they are tried, and the system message each one becomes.
//! Whether a file exists, and reading it, happen outside.
use vstd::prelude::*;
use crate::agent_router::{join_path, join_paths};
use crate::json::{json_data, lemma_object_data, object_data, JsonData, JsonValue};

verus! {

/// The files that may hold an agent's prompt, in the order they are tried:
/// `prompt.md`, the older `prompt`, then `fallback_agent.md`.
pub open spec fn agent_prompt_files(dir: Seq<char>) -> Seq<Seq<char>> {
    seq![join_path(dir, "prompt.md"@), join_path(dir, "prompt"@), join_path(dir, "fallback_agent.md"@)]
}

pub fn agent_prompt_candidates(prompt_directory: &str) -> (r: Vec<String>)
    ensures
        r@.map_values(|s: String| s@) == agent_prompt_files(prompt_directory@),
{
    let mut out: Vec<String> = Vec::new();
    out.push(join_paths(prompt_directory, "prompt.md"));
    out.push(join_paths(prompt_directory, "prompt"));
    out.push(join_paths(prompt_directory, "fallback_agent.md"));
    assert(out@.map_values(|s: String| s@) =~= agent_prompt_files(prompt_directory@));
    out
}

/// The places of one persona prompt file, in the order they are tried: in
/// the persona directory, then in its `prompt` directory.
pub open spec fn persona_prompt_files(dir: Seq<char>, prompt_name: Seq<char>) -> Seq<Seq<char>> {
    seq![join_path(dir, prompt_name), join_path(join_path(dir, "prompt"@), prompt_name)]
}

pub fn persona_prompt_candidates(persona_directory: &str, prompt_name: &str) -> (r: Vec<String>)
    ensures
        r@.map_values(|s: String| s@) == persona_prompt_files(persona_directory@, prompt_name@),
{
    let mut out: Vec<String> = Vec::new();
    out.push(join_paths(persona_directory, prompt_name));
    let prompt_dir = join_paths(persona_directory, "prompt");
    out.push(join_paths(prompt_dir.as_str(), prompt_name));
    assert(out@.map_values(|s: String| s@) =~= persona_prompt_files(persona_directory@, prompt_name@));
    out
}

/// The places of the shared communication style below one ancestor of a
/// persona directory, in the order they are tried.
pub open spec fn communication_style_files(ancestor: Seq<char>) -> Seq<Seq<char>> {
    seq![
        join_path(join_path(ancestor, "communication_style"@), "communication_style.md"@),
        join_path(
            join_path(join_path(join_path(ancestor, "personas"@), "src"@), "communication_style"@),
            "communication_style.md"@,
        ),
    ]
}

pub fn communication_style_candidates(ancestor: &str) -> (r: Vec<String>)
    ensures
        r@.map_values(|s: String| s@) == communication_style_files(ancestor@),
{
    let mut out: Vec<String> = Vec::new();
    let a = join_paths(ancestor, "communication_style");
    out.push(join_paths(a.as_str(), "communication_style.md"));
    let p = join_paths(ancestor, "personas");
    let s = join_paths(p.as_str(), "src");
    let c = join_paths(s.as_str(), "communication_style");
    out.push(join_paths(c.as_str(), "communication_style.md"));
    assert(out@.map_values(|s: String| s@) =~= communication_style_files(ancestor@));
    out
}

/// The system message that a prompt file's text becomes.
pub open spec fn system_message(content: Seq<char>) -> JsonData {
    JsonData::Object(seq![("content"@, JsonData::Str(content)), ("role"@, JsonData::Str("system"@))])
}

pub fn prompt_message(content: String) -> (r: JsonValue)
    ensures
        json_data(r) == system_message(content@),
{
    let ghost cv = content@;
    let mut ms: Vec<(String, JsonValue)> = Vec::new();
    ms.push(("content".to_owned(), JsonValue::Str(content)));
    ms.push(("role".to_owned(), JsonValue::Str("system".to_owned())));
    proof {
        lemma_object_data(ms@);
        assert(object_data(ms@) =~= seq![("content"@, JsonData::Str(cv)), ("role"@, JsonData::Str("system"@))]);
    }
    JsonValue::Object(ms)
}

} // verus!
