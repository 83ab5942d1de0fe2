//! Budgets and truncation applied to text before it enters the model context.

pub mod char_budget;
pub mod token_budget;
pub mod text_truncate;
pub mod process_snapshot;
pub mod compaction;
pub mod user_input;
pub mod media;
pub mod fragment;
pub mod workspace_snapshot;
pub mod tool_results;
pub mod timeline;
pub mod context_management;
