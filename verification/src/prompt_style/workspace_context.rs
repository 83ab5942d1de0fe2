//! Context message naming the workspace.
use vstd::prelude::*;
use crate::text::{push_str, string_of};

verus! {

/// Context message naming the workspace directory.
pub open spec fn workspace_context_text(workspace_directory: Seq<char>) -> Seq<char> {
    "Current workspace directory: "@ + workspace_directory + ". Treat relative file and directory paths as relative to this workspace. When the user says this directory or current directory, they mean this workspace."@
}

pub fn workspace_context(workspace_directory: &str) -> (r: String)
    ensures
        r@ == workspace_context_text(workspace_directory@),
{
    let mut out: Vec<char> = Vec::new();
    push_str(&mut out, "Current workspace directory: ");
    push_str(&mut out, workspace_directory);
    push_str(&mut out, ". Treat relative file and directory paths as relative to this workspace. When the user says this directory or current directory, they mean this workspace.");
    string_of(&out)
}
} // verus!
