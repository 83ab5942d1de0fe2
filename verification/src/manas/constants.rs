//! Tool names and setting names that the orchestration loop refers to.
use vstd::prelude::*;

verus! {

pub const PLANNING_TOOL: &'static str = "planning";

pub const COMMAND_RUN_TOOL: &'static str = "command_run";

pub const TASK_STATUS_COMMAND: &'static str = "task_status";

pub const APPLY_DIFF_TOOL: &'static str = "apply_diff";

pub const DELETE_FILE_TOOL: &'static str = "delete_file";

pub const WRITE_FILE_TOOL: &'static str = "write_file";

pub const DISABLE_PLANNING_TOOL_ENV: &'static str = "TURA_DISABLE_PLANNING_TOOL";

pub const DISABLE_EXECUTE_TOOLS_TOOL_ENV: &'static str = "TURA_DISABLE_EXECUTE_TOOLS_TOOL";

pub const PROJECT_ROOT_ENV: &'static str = "TURA_PROJECT_ROOT";

pub const APPROVAL_POLICY_ENV: &'static str = "TURA_APPROVAL_POLICY";

pub const GATEWAY_CALLBACKS_ENV: &'static str = "TURA_GATEWAY_CALLBACKS";

} // verus!
