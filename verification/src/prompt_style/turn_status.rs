//! Status line for a finished turn.
use vstd::prelude::*;
use crate::text::{decimal, push_decimal, push_str, string_of};

verus! {

/// Status line for a finished turn.
pub open spec fn turn_completed_text(turn: nat, tool_call_count: nat) -> Seq<char> {
    "Turn "@ + decimal(turn) + " completed with "@ + decimal(tool_call_count) + " tool calls"@
}

pub fn turn_completed_with_tool_calls(turn: u64, tool_call_count: usize) -> (r: String)
    ensures
        r@ == turn_completed_text(turn as nat, tool_call_count as nat),
{
    let mut out: Vec<char> = Vec::new();
    push_str(&mut out, "Turn ");
    push_decimal(&mut out, turn);
    push_str(&mut out, " completed with ");
    push_decimal(&mut out, tool_call_count as u64);
    push_str(&mut out, " tool calls");
    string_of(&out)
}
} // verus!
