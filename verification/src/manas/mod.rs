//! Decisions of the orchestration loop that do not depend on the model:
//! tool names and arguments, workspace paths, and the approval policy.

pub mod constants;
pub mod tool_arguments;
pub mod permission_gate;
pub mod prompt_messages;
pub mod change_tracker;
pub mod tool_catalog;
pub mod provider_schema;
pub mod user_commands;
pub mod validator_feedback;
pub mod agent_prompts;
pub mod runtime_turn;
pub mod tool_execution;
pub mod process;
