//! Paths of the agent registry: where an agent's files are, relative to the
//! project, and which file marks a project root.
use vstd::prelude::*;
use crate::text::{chars_of, push_str, string_of};
use crate::chars::{ascii_lower, eq_str, to_ascii_lowercase};
use crate::context::text_truncate::same_chars;
use crate::json::{copy_json, json_get, json_member_str, member, opt_json_data, parse_json, parsed_json, JsonData, JsonValue};
use crate::manas::tool_execution::text_or_empty;
use crate::manas::process::RunOutcome;
use crate::mano::SessionState;

verus! {

/// A path that starts at the file-system root (Unix rules: a leading `/`).
pub open spec fn is_absolute_path(p: Seq<char>) -> bool {
    p.len() > 0 && p[0] == '/'
}

/// `Path::join` under Unix rules: an absolute `p` replaces `base`; else `p`
/// follows `base`, with a `/` between them unless `base` is empty or already
/// ends with one.
pub open spec fn join_path(base: Seq<char>, p: Seq<char>) -> Seq<char> {
    if is_absolute_path(p) {
        p
    } else if base.len() == 0 || base.last() == '/' {
        base + p
    } else {
        base + "/"@ + p
    }
}

pub fn path_is_absolute(p: &str) -> (b: bool)
    ensures
        b == is_absolute_path(p@),
{
    let v = chars_of(p);
    v.len() > 0 && v[0] == '/'
}

pub fn join_paths(base: &str, p: &str) -> (r: String)
    ensures
        r@ == join_path(base@, p@),
{
    if path_is_absolute(p) {
        return p.to_owned();
    }
    let b = chars_of(base);
    let mut out: Vec<char> = Vec::new();
    push_str(&mut out, base);
    if b.len() > 0 && b[b.len() - 1] != '/' {
        push_str(&mut out, "/");
    }
    push_str(&mut out, p);
    string_of(&out)
}

/// An agent path of the registry: absolute paths stay as they are, relative
/// ones are taken from the project directory.
pub open spec fn project_path(project_directory: Seq<char>, path: Seq<char>) -> Seq<char> {
    if is_absolute_path(path) {
        path
    } else {
        join_path(project_directory, path)
    }
}

pub fn resolve_project_path(project_directory: &str, path: &str) -> (r: String)
    ensures
        r@ == project_path(project_directory@, path@),
{
    if path_is_absolute(path) {
        path.to_owned()
    } else {
        join_paths(project_directory, path)
    }
}

/// A resolved agent path is never relative when the project directory is
/// absolute.
pub proof fn law_project_path_absolute(project_directory: Seq<char>, path: Seq<char>)
    requires
        is_absolute_path(project_directory),
    ensures
        is_absolute_path(project_path(project_directory, path)),
{
    let r = project_path(project_directory, path);
    if !is_absolute_path(path) {
        assert(r[0] == project_directory[0]);
    }
}

/// A prompt file of a registry agent.
pub struct AgentPromptEntry {
    pub agent_prompt: String,
    pub prompt_directory: String,
}

/// A capability of a registry agent, with the directory of its files.
pub struct AgentCapabilityEntry {
    pub capability_name: String,
    pub capability_directory: String,
}

/// An agent as the registry describes it. The provider and validator
/// settings are carried as the JSON values the registry holds.
pub struct AgentRegistryEntry {
    pub agent_name: String,
    pub agent_directory: String,
    pub parent_agent_id: Option<String>,
    pub report_to_user: bool,
    pub default_config: bool,
    pub reflection: bool,
    pub provider: JsonValue,
    pub validator: JsonValue,
    pub agent_prompt: Vec<AgentPromptEntry>,
    pub agent_capabilities: Vec<AgentCapabilityEntry>,
}

/// An agent built from a registry entry, its paths resolved in the project.
pub struct RegistryAgent {
    pub agent_id: String,
    pub agent_name: String,
    pub agent_directory: String,
    pub parent_agent_id: Option<String>,
    pub report_to_user: bool,
    pub default_config: bool,
    pub reflection: bool,
    pub provider: JsonValue,
    pub validator: JsonValue,
    pub prompts: Vec<AgentPromptEntry>,
    pub capabilities: Vec<AgentCapabilityEntry>,
}

pub open spec fn prompt_entry_view(p: AgentPromptEntry) -> (Seq<char>, Seq<char>) {
    (p.agent_prompt@, p.prompt_directory@)
}

pub open spec fn capability_entry_view(c: AgentCapabilityEntry) -> (Seq<char>, Seq<char>) {
    (c.capability_name@, c.capability_directory@)
}

/// Each prompt with its directory resolved in the project.
pub open spec fn resolved_prompts(project_directory: Seq<char>, ps: Seq<AgentPromptEntry>) -> Seq<(Seq<char>, Seq<char>)> {
    ps.map_values(|p: AgentPromptEntry| (p.agent_prompt@, project_path(project_directory, p.prompt_directory@)))
}

/// Each capability with its directory resolved in the project.
pub open spec fn resolved_capabilities(project_directory: Seq<char>, cs: Seq<AgentCapabilityEntry>) -> Seq<(Seq<char>, Seq<char>)> {
    cs.map_values(|c: AgentCapabilityEntry| (c.capability_name@, project_path(project_directory, c.capability_directory@)))
}

/// Builds an agent from a registry entry under a fresh id: its own
/// directory, and the directory of each prompt and capability, resolved in
/// the project; every other setting as the entry gives it.
pub fn build_agent_from_registry_entry(project_directory: &str, entry: AgentRegistryEntry, agent_id: String) -> (r: Result<
    RegistryAgent,
    String,
>)
    ensures
        r matches Ok(a) && {
            &&& a.agent_id@ == agent_id@
            &&& a.agent_name@ == entry.agent_name@
            &&& a.agent_directory@ == project_path(project_directory@, entry.agent_directory@)
            &&& a.parent_agent_id == entry.parent_agent_id
            &&& a.report_to_user == entry.report_to_user
            &&& a.default_config == entry.default_config
            &&& a.reflection == entry.reflection
            &&& a.provider == entry.provider
            &&& a.validator == entry.validator
            &&& a.prompts@.map_values(|p: AgentPromptEntry| prompt_entry_view(p)) == resolved_prompts(
                project_directory@,
                entry.agent_prompt@,
            )
            &&& a.capabilities@.map_values(|c: AgentCapabilityEntry| capability_entry_view(c))
                == resolved_capabilities(project_directory@, entry.agent_capabilities@)
        },
{
    let mut prompts: Vec<AgentPromptEntry> = Vec::new();
    let mut i: usize = 0;
    while i < entry.agent_prompt.len()
        invariant
            i <= entry.agent_prompt.len(),
            prompts.len() == i,
            prompts@.map_values(|p: AgentPromptEntry| prompt_entry_view(p)) == resolved_prompts(
                project_directory@,
                entry.agent_prompt@.take(i as int),
            ),
        decreases entry.agent_prompt.len() - i,
    {
        let p = &entry.agent_prompt[i];
        let resolved = AgentPromptEntry {
            agent_prompt: p.agent_prompt.clone(),
            prompt_directory: resolve_project_path(project_directory, p.prompt_directory.as_str()),
        };
        let ghost before = prompts@;
        prompts.push(resolved);
        proof {
            let lhs = prompts@.map_values(|p: AgentPromptEntry| prompt_entry_view(p));
            let rhs = resolved_prompts(project_directory@, entry.agent_prompt@.take(i + 1));
            let prev = resolved_prompts(project_directory@, entry.agent_prompt@.take(i as int));
            assert forall|k: int| 0 <= k < lhs.len() implies lhs[k] == rhs[k] by {
                if k < i {
                    assert(prompts@[k] == before[k]);
                    assert(before.map_values(|p: AgentPromptEntry| prompt_entry_view(p))[k] == prev[k]);
                    assert(entry.agent_prompt@.take(i + 1)[k] == entry.agent_prompt@.take(i as int)[k]);
                }
            }
            assert(lhs =~= rhs);
        }
        i = i + 1;
    }
    assert(entry.agent_prompt@.take(i as int) =~= entry.agent_prompt@);
    let mut capabilities: Vec<AgentCapabilityEntry> = Vec::new();
    let mut j: usize = 0;
    while j < entry.agent_capabilities.len()
        invariant
            j <= entry.agent_capabilities.len(),
            capabilities.len() == j,
            capabilities@.map_values(|c: AgentCapabilityEntry| capability_entry_view(c)) == resolved_capabilities(
                project_directory@,
                entry.agent_capabilities@.take(j as int),
            ),
        decreases entry.agent_capabilities.len() - j,
    {
        let c = &entry.agent_capabilities[j];
        let resolved = AgentCapabilityEntry {
            capability_name: c.capability_name.clone(),
            capability_directory: resolve_project_path(project_directory, c.capability_directory.as_str()),
        };
        let ghost before = capabilities@;
        capabilities.push(resolved);
        proof {
            let lhs = capabilities@.map_values(|c: AgentCapabilityEntry| capability_entry_view(c));
            let rhs = resolved_capabilities(project_directory@, entry.agent_capabilities@.take(j + 1));
            let prev = resolved_capabilities(project_directory@, entry.agent_capabilities@.take(j as int));
            assert forall|k: int| 0 <= k < lhs.len() implies lhs[k] == rhs[k] by {
                if k < j {
                    assert(capabilities@[k] == before[k]);
                    assert(before.map_values(|c: AgentCapabilityEntry| capability_entry_view(c))[k] == prev[k]);
                    assert(entry.agent_capabilities@.take(j + 1)[k] == entry.agent_capabilities@.take(j as int)[k]);
                }
            }
            assert(lhs =~= rhs);
        }
        j = j + 1;
    }
    assert(entry.agent_capabilities@.take(j as int) =~= entry.agent_capabilities@);
    let agent_directory = resolve_project_path(project_directory, entry.agent_directory.as_str());
    Ok(RegistryAgent {
        agent_id,
        agent_name: entry.agent_name,
        agent_directory,
        parent_agent_id: entry.parent_agent_id,
        report_to_user: entry.report_to_user,
        default_config: entry.default_config,
        reflection: entry.reflection,
        provider: entry.provider,
        validator: entry.validator,
        prompts,
        capabilities,
    })
}

/// The file whose presence marks the root of a project with an agent
/// registry.
pub open spec fn project_schema_path(root: Seq<char>) -> Seq<char> {
    join_path(root, "crates/tools/src/command_run/schema.json"@)
}

pub fn tura_project_schema_path(root: &str) -> (r: String)
    ensures
        r@ == project_schema_path(root@),
{
    join_paths(root, "crates/tools/src/command_run/schema.json")
}

/// Where the command crates keep each command's files, below the project.
pub const TOOLS_DIR: &'static str = "crates/tools/src";

/// The prompt text of a capability, read from its `prompt.md`.
pub struct CapabilityPrompt {
    pub name: String,
    pub content: String,
}

/// A file of a capability's directory: `<base>/crates/tools/src/<name>/<file>`.
pub open spec fn capability_file(base_dir: Seq<char>, capability_name: Seq<char>, file: Seq<char>) -> Seq<char> {
    join_path(join_path(join_path(base_dir, TOOLS_DIR@), capability_name), file)
}

fn capability_file_path(capability_name: &str, base_dir: &str, file: &str) -> (r: String)
    ensures
        r@ == capability_file(base_dir@, capability_name@, file@),
{
    let tools = join_paths(base_dir, TOOLS_DIR);
    let dir = join_paths(tools.as_str(), capability_name);
    join_paths(dir.as_str(), file)
}

/// Where a capability's interface schema is.
pub fn capability_interface_path(capability_name: &str, base_dir: &str) -> (r: String)
    ensures
        r@ == capability_file(base_dir@, capability_name@, "schema.json"@),
{
    capability_file_path(capability_name, base_dir, "schema.json")
}

/// Where a capability's prompt is.
pub fn capability_prompt_path(capability_name: &str, base_dir: &str) -> (r: String)
    ensures
        r@ == capability_file(base_dir@, capability_name@, "prompt.md"@),
{
    capability_file_path(capability_name, base_dir, "prompt.md")
}

/// A capability's prompt from the text of its `prompt.md`: none when the
/// file was not there or could not be read.
pub fn load_capability_prompt(capability_name: &str, content: Option<String>) -> (r: Option<CapabilityPrompt>)
    ensures
        match content {
            Some(c) => r matches Some(p) && p.name@ == capability_name@ && p.content@ == c@,
            None => r is None,
        },
{
    match content {
        Some(c) => Some(CapabilityPrompt { name: capability_name.to_owned(), content: c }),
        None => None,
    }
}

/// Why a router agent spec could not be used.
#[derive(Debug, Clone, Copy, PartialEq, Eq, Structural)]
pub enum RouterSpecError {
    /// The spec text is no JSON.
    InvalidSpec,
}

/// The agent configuration a router spec gives for `agent_name`: none when
/// the spec names another agent (names compared without regard to ASCII
/// case; a spec without a name names the empty one) or gives no `config`;
/// an error when the spec is no JSON.
pub open spec fn router_spec_config(parsed: Option<JsonData>, agent_name: Seq<char>) -> Result<Option<JsonData>, RouterSpecError> {
    match parsed {
        None => Err(RouterSpecError::InvalidSpec),
        Some(v) => {
            let spec_name = text_or_empty(member(v, "agent_name"@));
            if ascii_lower(spec_name) != ascii_lower(agent_name) {
                Ok(None)
            } else {
                Ok(member(v, "config"@))
            }
        },
    }
}

pub open spec fn config_view(r: Result<Option<JsonValue>, RouterSpecError>) -> Result<Option<JsonData>, RouterSpecError> {
    match r {
        Ok(c) => Ok(opt_json_data(c)),
        Err(e) => Err(e),
    }
}

/// The agent configuration that the router spec text `spec_text` gives for
/// `agent_name`. The text is read with serde_json; what follows is
/// `router_spec_config`.
pub fn router_spec_agent_config(spec_text: &str, agent_name: &str) -> (r: Result<Option<JsonValue>, RouterSpecError>)
    ensures
        config_view(r) == router_spec_config(parsed_json(spec_text@), agent_name@),
{
    let value = match parse_json(spec_text) {
        Some(v) => v,
        None => return Err(RouterSpecError::InvalidSpec),
    };
    let spec_name: Vec<char> = match json_member_str(&value, "agent_name") {
        Some(n) => chars_of(n),
        None => Vec::new(),
    };
    let a = to_ascii_lowercase(&spec_name);
    let b = to_ascii_lowercase(&chars_of(agent_name));
    if !same_chars(&a, &b) {
        return Ok(None);
    }
    match json_get(&value, "config") {
        Some(c) => Ok(Some(copy_json(c))),
        None => Ok(None),
    }
}

/// Which built-in agent a requested name stands for (when the registry has
/// no agent of that name).
#[derive(Debug, Clone, PartialEq, Eq)]
pub enum BuiltinAgent {
    /// A coding agent, under its canonical name.
    Coding(String),
    /// The general agent.
    General,
    /// No built-in agent has the name.
    Unknown,
}

/// The canonical name of a coding-agent alias: `thoughtful` for the
/// planning and plain coding names, `balanced` for the thinking ones,
/// `direct` for the fast ones, `direct-text-only` for the fast text-only
/// one; none for a name that is no coding alias.
pub open spec fn coding_canonical(name: Seq<char>) -> Option<Seq<char>> {
    if name == "thinking-planning"@ || name == "coding_agent_planning"@ || name == "coding_agent"@
        || name == "coding"@ || name == "thoughtful"@ {
        Some("thoughtful"@)
    } else if name == "thinking"@ || name == "coding_agent_thinking"@ || name == "balanced"@ {
        Some("balanced"@)
    } else if name == "fast"@ || name == "coding_agent_fast"@ || name == "direct"@ {
        Some("direct"@)
    } else if name == "fast-text-only"@ || name == "direct-text-only"@ {
        Some("direct-text-only"@)
    } else {
        None
    }
}

pub fn builtin_agent_for_name(agent_name: &str) -> (r: BuiltinAgent)
    ensures
        match r {
            BuiltinAgent::Coding(c) => coding_canonical(agent_name@) == Some(c@),
            BuiltinAgent::General => coding_canonical(agent_name@) is None && (agent_name@ == "general"@
                || agent_name@ == "general_agent"@),
            BuiltinAgent::Unknown => coding_canonical(agent_name@) is None && agent_name@ != "general"@
                && agent_name@ != "general_agent"@,
        },
{
    let v = chars_of(agent_name);
    if eq_str(&v, "thinking-planning") || eq_str(&v, "coding_agent_planning") || eq_str(&v, "coding_agent")
        || eq_str(&v, "coding") || eq_str(&v, "thoughtful") {
        BuiltinAgent::Coding("thoughtful".to_string())
    } else if eq_str(&v, "thinking") || eq_str(&v, "coding_agent_thinking") || eq_str(&v, "balanced") {
        BuiltinAgent::Coding("balanced".to_string())
    } else if eq_str(&v, "fast") || eq_str(&v, "coding_agent_fast") || eq_str(&v, "direct") {
        BuiltinAgent::Coding("direct".to_string())
    } else if eq_str(&v, "fast-text-only") || eq_str(&v, "direct-text-only") {
        BuiltinAgent::Coding("direct-text-only".to_string())
    } else if eq_str(&v, "general") || eq_str(&v, "general_agent") {
        BuiltinAgent::General
    } else {
        BuiltinAgent::Unknown
    }
}

/// The error for a name that no agent has.
pub fn unknown_agent_error(agent_name: &str) -> (r: String)
    ensures
        r@ == "unknown agent `"@ + agent_name@ + "`"@,
{
    let mut out: Vec<char> = Vec::new();
    push_str(&mut out, "unknown agent `");
    push_str(&mut out, agent_name);
    push_str(&mut out, "`");
    string_of(&out)
}

/// What a built-in coding agent is made of that its canonical name
/// decides: its name, whether it reflects, its prompts, its capabilities,
/// and its provider's model name and tier.
pub struct CodingAgentShape {
    pub agent_name: String,
    pub reflection: bool,
    pub prompts: Vec<String>,
    pub capabilities: Vec<String>,
    pub llm_name: String,
    pub model_tier: Option<String>,
}

pub open spec fn names_view(v: Seq<String>) -> Seq<Seq<char>> {
    v.map_values(|s: String| s@)
}

/// The capabilities a canonical coding agent keeps: the balanced and
/// thoughtful agents leave out planning, the text-only agent reading media.
pub open spec fn kept_capabilities(canonical: Seq<char>, caps: Seq<Seq<char>>) -> Seq<Seq<char>> {
    let no_planning = if canonical == "balanced"@ || canonical == "thoughtful"@ {
        caps.filter(|c: Seq<char>| c != "planning"@)
    } else {
        caps
    };
    if canonical == "direct-text-only"@ {
        no_planning.filter(|c: Seq<char>| c != "read_media"@)
    } else {
        no_planning
    }
}

fn without_name(caps: Vec<String>, name: &str) -> (r: Vec<String>)
    ensures
        names_view(r@) == names_view(caps@).filter(|c: Seq<char>| c != name@),
{
    let ghost cv = names_view(caps@);
    let mut out: Vec<String> = Vec::new();
    let mut i: usize = 0;
    assert(cv.take(0) =~= Seq::<Seq<char>>::empty());
    assert(names_view(out@) =~= Seq::<Seq<char>>::empty());
    while i < caps.len()
        invariant
            i <= caps.len(),
            cv == names_view(caps@),
            names_view(out@) == cv.take(i as int).filter(|c: Seq<char>| c != name@),
        decreases caps.len() - i,
    {
        proof {
            reveal(Seq::filter);
            assert(cv.take(i + 1).drop_last() =~= cv.take(i as int));
        }
        let ghost before = out@;
        if !eq_str(&chars_of(caps[i].as_str()), name) {
            out.push(caps[i].clone());
            assert(names_view(out@) =~= names_view(before).push(caps@[i as int]@));
        }
        i = i + 1;
    }
    assert(cv.take(i as int) =~= cv);
    out
}

/// The built-in coding agent `base` made into the canonical agent
/// `canonical`: named so, reflecting only when thoughtful, with the
/// canonical name as its one prompt, its capabilities thinned as
/// `kept_capabilities` says, and the fast model for the direct agents.
pub fn shape_coding_agent(canonical: &str, base: CodingAgentShape) -> (r: CodingAgentShape)
    ensures
        r.agent_name@ == canonical@,
        r.reflection == (canonical@ == "thoughtful"@),
        names_view(r.prompts@) == seq![canonical@],
        names_view(r.capabilities@) == kept_capabilities(canonical@, names_view(base.capabilities@)),
        (canonical@ == "direct"@ || canonical@ == "direct-text-only"@) ==> r.llm_name@ == "fast"@ && (r.model_tier
            matches Some(t) && t@ == "fast"@),
        !(canonical@ == "direct"@ || canonical@ == "direct-text-only"@) ==> r.llm_name == base.llm_name
            && r.model_tier == base.model_tier,
{
    let cv = chars_of(canonical);
    let thoughtful = eq_str(&cv, "thoughtful");
    let mut prompts: Vec<String> = Vec::new();
    prompts.push(canonical.to_string());
    assert(names_view(prompts@) =~= seq![canonical@]);
    let caps = if thoughtful || eq_str(&cv, "balanced") {
        without_name(base.capabilities, "planning")
    } else {
        base.capabilities
    };
    let caps = if eq_str(&cv, "direct-text-only") {
        without_name(caps, "read_media")
    } else {
        caps
    };
    let fast = eq_str(&cv, "direct") || eq_str(&cv, "direct-text-only");
    let (llm_name, model_tier) = if fast {
        ("fast".to_string(), Some("fast".to_string()))
    } else {
        (base.llm_name, base.model_tier)
    };
    CodingAgentShape {
        agent_name: canonical.to_string(),
        reflection: thoughtful,
        prompts,
        capabilities: caps,
        llm_name,
        model_tier,
    }
}

/// Where an agent stands.
#[derive(Debug, Clone, Copy, PartialEq, Eq, Structural)]
pub enum AgentState {
    Idle,
    Waiting,
    Completed,
    Failed,
}

/// The state an agent starts in for a session in `state`: idle while the
/// session is new or running, waiting while it is paused, completed when
/// it completed, failed when it failed, was cancelled or was interrupted.
pub open spec fn agent_state_for(state: SessionState) -> AgentState {
    match state {
        SessionState::Created | SessionState::Running => AgentState::Idle,
        SessionState::Paused => AgentState::Waiting,
        SessionState::Completed => AgentState::Completed,
        SessionState::Failed | SessionState::Cancelled | SessionState::Interrupted => AgentState::Failed,
    }
}

pub fn agent_state_for_session(state: SessionState) -> (r: AgentState)
    ensures
        r == agent_state_for(state),
{
    match state {
        SessionState::Created | SessionState::Running => AgentState::Idle,
        SessionState::Paused => AgentState::Waiting,
        SessionState::Completed => AgentState::Completed,
        SessionState::Failed | SessionState::Cancelled | SessionState::Interrupted => AgentState::Failed,
    }
}

/// Sets every agent to the state `state` gives.
pub fn set_agent_states(agent_states: &mut Vec<AgentState>, state: AgentState)
    ensures
        final(agent_states)@.len() == old(agent_states)@.len(),
        forall|i: int| 0 <= i < final(agent_states)@.len() ==> #[trigger] final(agent_states)@[i] == state,
{
    let mut i: usize = 0;
    while i < agent_states.len()
        invariant
            i <= agent_states.len(),
            agent_states@.len() == old(agent_states)@.len(),
            forall|j: int| 0 <= j < i ==> #[trigger] agent_states@[j] == state,
        decreases agent_states.len() - i,
    {
        agent_states.set(i, state);
        i = i + 1;
    }
}

/// Puts the session's agents in the state that matches the session's
/// state. It cannot fail.
pub fn initialize_agent_state_machine(agent_states: &mut Vec<AgentState>, session_state: SessionState) -> (r: Result<(), String>)
    ensures
        r is Ok,
        final(agent_states)@.len() == old(agent_states)@.len(),
        forall|i: int| 0 <= i < final(agent_states)@.len() ==> #[trigger] final(agent_states)@[i] == agent_state_for(session_state),
{
    let state = agent_state_for_session(session_state);
    set_agent_states(agent_states, state);
    Ok(())
}

/// The state the agents end in after a run: failed when the run failed,
/// completed otherwise, as the session.
pub fn final_agent_state(outcome: RunOutcome) -> (r: AgentState)
    ensures
        r == (match outcome {
            RunOutcome::Completed => AgentState::Completed,
            RunOutcome::Failed => AgentState::Failed,
        }),
{
    match outcome {
        RunOutcome::Completed => AgentState::Completed,
        RunOutcome::Failed => AgentState::Failed,
    }
}

/// Ends a run: every agent takes the run's final state, which is the
/// state the session ends in.
pub fn finish_agents(agent_states: &mut Vec<AgentState>, outcome: RunOutcome)
    ensures
        final(agent_states)@.len() == old(agent_states)@.len(),
        forall|i: int|
            0 <= i < final(agent_states)@.len() ==> #[trigger] final(agent_states)@[i] == (match outcome {
                RunOutcome::Completed => AgentState::Completed,
                RunOutcome::Failed => AgentState::Failed,
            }),
        forall|i: int| 0 <= i < final(agent_states)@.len() ==> #[trigger] final(agent_states)@[i] == agent_state_for(
            crate::mano::session_state_after(outcome),
        ),
{
    let state = final_agent_state(outcome);
    set_agent_states(agent_states, state);
}

/// Which agent a session starts with: the agent it names, else the coding
/// agent for a coding, programming, development or testing session, else
/// the general agent.
#[derive(Debug, Clone, PartialEq, Eq)]
pub enum SessionAgent {
    Named(String),
    Coding,
    General,
}

pub fn agent_for_session(agent_name: Option<&str>, session_topic: &str) -> (r: SessionAgent)
    ensures
        match agent_name {
            Some(n) => r is Named && r->Named_0@ == n@,
            None => r == (if session_topic@ == "coding"@ || session_topic@ == "programming"@ || session_topic@
                == "development"@ || session_topic@ == "testing"@ {
                SessionAgent::Coding
            } else {
                SessionAgent::General
            }),
        },
{
    match agent_name {
        Some(n) => SessionAgent::Named(n.to_string()),
        None => {
            let t = chars_of(session_topic);
            if eq_str(&t, "coding") || eq_str(&t, "programming") || eq_str(&t, "development") || eq_str(&t, "testing") {
                SessionAgent::Coding
            } else {
                SessionAgent::General
            }
        },
    }
}

} // verus!
