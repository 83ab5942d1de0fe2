//! Context and prompt logic of the agent runtime: text budgets and truncation,
//! prompt text builders, runtime prompt manuals, and the small decision rules
//! of the orchestration loop.

pub mod text;
pub mod context;
pub mod chars;
pub mod json;
pub mod prompt_style;
pub mod gateway_events;
pub mod checkpoint;
pub mod agent_router;
pub mod manas;
pub mod mano;
