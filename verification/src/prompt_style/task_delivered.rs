//! The instructions for delivering planned tasks one by one.
use vstd::prelude::*;

verus! {

pub const TASK_DELIVERED: &'static str = "Multiple-tasks delivery.\nWhen multiple_tasks mode is active, each planned task must be completed in order.\nUse command_run only while work remains.\nWhen the active planned task is complete and verified, call task_delivered with task_delivered true instead of rerunning verification.\nDo not call task_delivered for partial progress, intent, elapsed effort, or an unverified result.\nAfter task_delivered succeeds, continue with the next planned task if one remains. If no planned task remains, provide the final user-facing answer.";

} // verus!
