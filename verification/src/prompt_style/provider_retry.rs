//! Prompts sent when the model provider fails or refuses content.
use vstd::prelude::*;
use crate::text::{decimal, push_decimal, push_str, string_of};

verus! {

/// Notice that media of one content type was dropped from the next request.
pub open spec fn media_fallback_text(content_type: Seq<char>, removed: nat) -> Seq<char> {
    "The provider rejected `"@ + content_type + "` media content. "@ + decimal(removed) + " item(s) were omitted from the next request and replaced with text placeholders; continue using the remaining text and supported media."@
}

pub fn media_fallback(content_type: &str, removed: usize) -> (r: String)
    ensures
        r@ == media_fallback_text(content_type@, removed as nat),
{
    let mut out: Vec<char> = Vec::new();
    push_str(&mut out, "The provider rejected `");
    push_str(&mut out, content_type);
    push_str(&mut out, "` media content. ");
    push_decimal(&mut out, removed as u64);
    push_str(&mut out, " item(s) were omitted from the next request and replaced with text placeholders; continue using the remaining text and supported media.");
    string_of(&out)
}
/// Retry prompt after a transient provider failure, with the retry count.
pub open spec fn transient_failure_retry_text(error_text: Seq<char>, retry: nat, max_retries: nat) -> Seq<char> {
    "Provider failure while waiting for the model response: "@ + error_text + ". This is transient provider failure retry "@ + decimal(retry) + " of "@ + decimal(max_retries) + ", not task completion. Retry the current task with the normal command_run tool unless the requested edits and validation are actually complete."@
}

pub fn transient_failure_retry(error_text: &str, retry: u8, max_retries: u8) -> (r: String)
    ensures
        r@ == transient_failure_retry_text(error_text@, retry as nat, max_retries as nat),
{
    let mut out: Vec<char> = Vec::new();
    push_str(&mut out, "Provider failure while waiting for the model response: ");
    push_str(&mut out, error_text);
    push_str(&mut out, ". This is transient provider failure retry ");
    push_decimal(&mut out, retry as u64);
    push_str(&mut out, " of ");
    push_decimal(&mut out, max_retries as u64);
    push_str(&mut out, ", not task completion. Retry the current task with the normal command_run tool unless the requested edits and validation are actually complete.");
    string_of(&out)
}
} // verus!
