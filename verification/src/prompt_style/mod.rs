//! Prompt and message texts that the runtime sends to the model or shows to
//! the user.

pub mod provider_retry;
pub mod runtime_fallback;
pub mod session_processes;
pub mod tool_context;
pub mod turn_status;
pub mod workspace_context;
pub mod runtime_prompt_manual;
pub mod agent_identity;
pub mod compact_context;
pub mod self_reflection;
pub mod task_status;
pub mod task_continuity;
pub mod task_delivered;
pub mod manual_records;
