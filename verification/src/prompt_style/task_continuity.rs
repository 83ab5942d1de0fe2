//! The reminder that keeps the model on the original task.
use vstd::prelude::*;

verus! {

pub const TASK_CONTINUITY: &'static str = "Task continuity reminder.\nDo not drift away from the original user task.\nEach child task must receive only its own scoped task instruction, goal, deliverable, dependencies, and needed tool or capability.\nUse command_run for workspace actions. Only end the user turn with normal assistant text after the requested work and verification are complete.";

} // verus!
