use runtime::agent_router::{agent_for_session, agent_state_for_session, final_agent_state, finish_agents, initialize_agent_state_machine, AgentState, SessionAgent};
use runtime::manas::process::RunOutcome;
use runtime::mano::{final_session_state, SessionState};
use runtime::agent_router::{
    builtin_agent_for_name, join_paths, resolve_project_path, router_spec_agent_config, shape_coding_agent,
    tura_project_schema_path, unknown_agent_error, BuiltinAgent, CodingAgentShape, RouterSpecError,
};
use runtime::agent_router::{build_agent_from_registry_entry, AgentCapabilityEntry, AgentPromptEntry, AgentRegistryEntry};
use runtime::json::{json_to_string, JsonValue};

#[test]
fn project_path_resolution_keeps_absolute_paths_and_roots_relative_paths() {
    let project = "C:/repo/tura";
    let absolute = "/external/agent";

    let expected = std::path::Path::new(project).join("agents/custom");
    assert_eq!(
        resolve_project_path(project, "agents/custom"),
        expected.to_string_lossy()
    );
    assert_eq!(resolve_project_path(project, absolute), absolute);
}

#[test]
fn joins_follow_path_join() {
    for (base, p) in [("a", "b"), ("a/", "b"), ("", "b"), ("/x", "/y"), ("a//", "c/d")] {
        let expected = std::path::Path::new(base).join(p);
        assert_eq!(join_paths(base, p), expected.to_string_lossy(), "{base} {p}");
    }
}

#[test]
fn project_schema_path_sits_under_the_root() {
    assert_eq!(
        tura_project_schema_path("/repo"),
        "/repo/crates/tools/src/command_run/schema.json"
    );
}

#[test]
fn router_spec_gives_the_named_agents_config() {
    let spec = r#"{"agent_name":"Coding_Agent","config":{"agent_name":"coding_agent","reflection":true}}"#;
    let config = router_spec_agent_config(spec, "coding_agent").expect("spec is JSON").expect("config");
    assert_eq!(json_to_string(&config), "{\"agent_name\":\"coding_agent\",\"reflection\":true}");
    assert!(router_spec_agent_config(spec, "general_agent").expect("spec is JSON").is_none());
    let no_config = r#"{"agent_name":"coding_agent"}"#;
    assert!(router_spec_agent_config(no_config, "CODING_AGENT").expect("spec is JSON").is_none());
    let unnamed = r#"{"config":{}}"#;
    assert!(router_spec_agent_config(unnamed, "").expect("spec is JSON").is_some());
    assert!(matches!(router_spec_agent_config("not json", "coding_agent"), Err(RouterSpecError::InvalidSpec)));
}

#[test]
fn agent_aliases_map_to_canonical_agents() {
    for (name, canonical) in [
        ("coding", "thoughtful"),
        ("coding_agent_planning", "thoughtful"),
        ("thinking", "balanced"),
        ("coding_agent_fast", "direct"),
        ("fast-text-only", "direct-text-only"),
        ("direct", "direct"),
    ] {
        assert_eq!(builtin_agent_for_name(name), BuiltinAgent::Coding(canonical.to_string()));
    }
    assert_eq!(builtin_agent_for_name("general_agent"), BuiltinAgent::General);
    assert_eq!(builtin_agent_for_name("Coding"), BuiltinAgent::Unknown);
    assert_eq!(unknown_agent_error("x"), "unknown agent `x`");
}

fn base() -> CodingAgentShape {
    CodingAgentShape {
        agent_name: "coding_agent".to_string(),
        reflection: false,
        prompts: vec!["a".to_string(), "b".to_string()],
        capabilities: vec!["planning".to_string(), "read_media".to_string(), "command_run".to_string()],
        llm_name: "main".to_string(),
        model_tier: None,
    }
}

#[test]
fn coding_agent_is_shaped_by_its_canonical_name() {
    let thoughtful = shape_coding_agent("thoughtful", base());
    assert_eq!(thoughtful.agent_name, "thoughtful");
    assert!(thoughtful.reflection);
    assert_eq!(thoughtful.prompts, vec!["thoughtful".to_string()]);
    assert_eq!(thoughtful.capabilities, vec!["read_media".to_string(), "command_run".to_string()]);
    assert_eq!(thoughtful.llm_name, "main");
    let text_only = shape_coding_agent("direct-text-only", base());
    assert!(!text_only.reflection);
    assert_eq!(text_only.capabilities, vec!["planning".to_string(), "command_run".to_string()]);
    assert_eq!(text_only.llm_name, "fast");
    assert_eq!(text_only.model_tier, Some("fast".to_string()));
}

#[test]
fn agents_end_in_the_state_of_the_run() {
    let mut states = vec![AgentState::Idle, AgentState::Waiting];
    finish_agents(&mut states, RunOutcome::Failed);
    assert_eq!(states, vec![AgentState::Failed, AgentState::Failed]);
    finish_agents(&mut states, RunOutcome::Completed);
    assert_eq!(states, vec![AgentState::Completed, AgentState::Completed]);
    assert_eq!(final_agent_state(RunOutcome::Failed), AgentState::Failed);
    assert_eq!(final_agent_state(RunOutcome::Completed), AgentState::Completed);
    assert_eq!(
        agent_state_for_session(final_session_state(RunOutcome::Failed)),
        final_agent_state(RunOutcome::Failed)
    );
}

#[test]
fn agents_start_in_the_state_of_their_session() {
    let mut states = vec![AgentState::Completed, AgentState::Failed];
    assert!(initialize_agent_state_machine(&mut states, SessionState::Running).is_ok());
    assert_eq!(states, vec![AgentState::Idle, AgentState::Idle]);
    assert_eq!(agent_state_for_session(SessionState::Created), AgentState::Idle);
    assert_eq!(agent_state_for_session(SessionState::Paused), AgentState::Waiting);
    assert_eq!(agent_state_for_session(SessionState::Completed), AgentState::Completed);
    assert_eq!(agent_state_for_session(SessionState::Cancelled), AgentState::Failed);
    assert_eq!(agent_state_for_session(SessionState::Interrupted), AgentState::Failed);
    let mut none: Vec<AgentState> = Vec::new();
    assert!(initialize_agent_state_machine(&mut none, SessionState::Failed).is_ok());
    assert!(none.is_empty());
}

#[test]
fn sessions_pick_their_agent_by_name_or_topic() {
    assert_eq!(agent_for_session(Some("thoughtful"), "general"), SessionAgent::Named("thoughtful".to_string()));
    assert_eq!(agent_for_session(None, "coding"), SessionAgent::Coding);
    assert_eq!(agent_for_session(None, "programming"), SessionAgent::Coding);
    assert_eq!(agent_for_session(None, "development"), SessionAgent::Coding);
    assert_eq!(agent_for_session(None, "testing"), SessionAgent::Coding);
    assert_eq!(agent_for_session(None, "general"), SessionAgent::General);
    assert_eq!(agent_for_session(None, "poetry"), SessionAgent::General);
}

#[test]
fn initialize_agent_state_machine_maps_session_states_to_agent_states() {
    for (session_state, expected_agent_state) in [
        (SessionState::Created, AgentState::Idle),
        (SessionState::Running, AgentState::Idle),
        (SessionState::Paused, AgentState::Waiting),
        (SessionState::Completed, AgentState::Completed),
        (SessionState::Failed, AgentState::Failed),
        (SessionState::Cancelled, AgentState::Failed),
        (SessionState::Interrupted, AgentState::Failed),
    ] {
        let mut agents = vec![AgentState::Idle, AgentState::Completed];

        initialize_agent_state_machine(&mut agents, session_state)
            .expect("agent state initialization should succeed");

        assert!(
            agents.iter().all(|agent| *agent == expected_agent_state),
            "session state {session_state:?} should map all agents to {expected_agent_state:?}"
        );
    }
}

#[test]
fn registry_entry_paths_are_resolved_in_the_project() {
    let entry = AgentRegistryEntry {
        agent_name: "coder".to_string(),
        agent_directory: "agents/coder".to_string(),
        parent_agent_id: Some("root".to_string()),
        report_to_user: true,
        default_config: false,
        reflection: true,
        provider: JsonValue::Null,
        validator: JsonValue::Bool(false),
        agent_prompt: vec![
            AgentPromptEntry { agent_prompt: "main.md".to_string(), prompt_directory: "prompts".to_string() },
            AgentPromptEntry { agent_prompt: "abs.md".to_string(), prompt_directory: "/etc/prompts".to_string() },
        ],
        agent_capabilities: vec![AgentCapabilityEntry {
            capability_name: "code_tools".to_string(),
            capability_directory: "caps/code".to_string(),
        }],
    };
    let agent = build_agent_from_registry_entry("/work/project", entry, "coder-1".to_string()).expect("agent");
    assert_eq!(agent.agent_id, "coder-1");
    assert_eq!(agent.agent_name, "coder");
    assert_eq!(agent.agent_directory, "/work/project/agents/coder");
    assert_eq!(agent.parent_agent_id, Some("root".to_string()));
    assert!(agent.report_to_user && agent.reflection && !agent.default_config);
    assert_eq!(agent.prompts[0].prompt_directory, "/work/project/prompts");
    assert_eq!(agent.prompts[1].prompt_directory, "/etc/prompts");
    assert_eq!(agent.prompts[1].agent_prompt, "abs.md");
    assert_eq!(agent.capabilities[0].capability_directory, "/work/project/caps/code");
    assert!(matches!(agent.validator, JsonValue::Bool(false)));
}
