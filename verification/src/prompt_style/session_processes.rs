//! Context message about the session's running processes.
use vstd::prelude::*;
use crate::text::{push_str, string_of};

verus! {

/// Context message describing the processes and containers of the session.
pub open spec fn session_processes_text(process_snapshot: Seq<char>, docker_snapshot: Seq<char>) -> Seq<char> {
    "Session process snapshot:\n"@ + process_snapshot + "\n\nRunning Docker containers snapshot (sanitized JSON):\n"@ + docker_snapshot + "\n\nUse this to understand foreground commands, background services, LSP workers, and Docker containers already running for the session. Do not restart a healthy service just because it is long-lived; inspect its pid/location/logs or use the background service path when appropriate. Docker details are read-only context and intentionally omit environment variables, mounts, and full container commands."@
}

pub fn session_processes(process_snapshot: &str, docker_snapshot: &str) -> (r: String)
    ensures
        r@ == session_processes_text(process_snapshot@, docker_snapshot@),
{
    let mut out: Vec<char> = Vec::new();
    push_str(&mut out, "Session process snapshot:\n");
    push_str(&mut out, process_snapshot);
    push_str(&mut out, "\n\nRunning Docker containers snapshot (sanitized JSON):\n");
    push_str(&mut out, docker_snapshot);
    push_str(&mut out, "\n\nUse this to understand foreground commands, background services, LSP workers, and Docker containers already running for the session. Do not restart a healthy service just because it is long-lived; inspect its pid/location/logs or use the background service path when appropriate. Docker details are read-only context and intentionally omit environment variables, mounts, and full container commands.");
    string_of(&out)
}
} // verus!
