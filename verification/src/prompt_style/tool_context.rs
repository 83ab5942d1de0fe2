//! Context messages that replay tool results to the model.
use vstd::prelude::*;
use crate::text::{push_chars, push_str, string_of};

verus! {

/// `true` or `false`, as a `bool` is displayed.
pub open spec fn bool_text(b: bool) -> Seq<char> {
    if b {
        "true"@
    } else {
        "false"@
    }
}

pub fn bool_chars(b: bool) -> (r: Vec<char>)
    ensures
        r@ == bool_text(b),
{
    if b {
        crate::text::chars_of("true")
    } else {
        crate::text::chars_of("false")
    }
}

/// Context message replaying the last tool call response.
pub open spec fn last_tool_call_response_text(serialized_response: Seq<char>) -> Seq<char> {
    "last_tool_call_response:\n"@ + serialized_response + "\n\nUse this callback strictly as evidence for the next step. Do not repeat a command unless the previous output was missing, truncated, failed in an actionable way, or a neighboring range is needed."@
}

pub fn last_tool_call_response(serialized_response: &str) -> (r: String)
    ensures
        r@ == last_tool_call_response_text(serialized_response@),
{
    let mut out: Vec<char> = Vec::new();
    push_str(&mut out, "last_tool_call_response:\n");
    push_str(&mut out, serialized_response);
    push_str(&mut out, "\n\nUse this callback strictly as evidence for the next step. Do not repeat a command unless the previous output was missing, truncated, failed in an actionable way, or a neighboring range is needed.");
    string_of(&out)
}
/// A tool result marked helpful.
pub open spec fn helpful_tool_callback_result_text(tool_name: Seq<char>, success: bool, output: Seq<char>, error: Seq<char>) -> Seq<char> {
    "Helpful tool callback result from `"@ + tool_name + "`:\nsuccess: "@ + bool_text(success) + "\noutput: "@ + output + "\nerror: "@ + error
}

pub fn helpful_tool_callback_result(tool_name: &str, success: bool, output: &str, error: &str) -> (r: String)
    ensures
        r@ == helpful_tool_callback_result_text(tool_name@, success, output@, error@),
{
    let success_text = bool_chars(success);
    let mut out: Vec<char> = Vec::new();
    push_str(&mut out, "Helpful tool callback result from `");
    push_str(&mut out, tool_name);
    push_str(&mut out, "`:\nsuccess: ");
    push_chars(&mut out, &success_text);
    push_str(&mut out, "\noutput: ");
    push_str(&mut out, output);
    push_str(&mut out, "\nerror: ");
    push_str(&mut out, error);
    string_of(&out)
}
/// A tool result kept in context.
pub open spec fn retained_tool_callback_result_text(tool_name: Seq<char>, success: bool, output: Seq<char>, error: Seq<char>) -> Seq<char> {
    "Retained tool callback result from `"@ + tool_name + "`:\nsuccess: "@ + bool_text(success) + "\noutput: "@ + output + "\nerror: "@ + error
}

pub fn retained_tool_callback_result(tool_name: &str, success: bool, output: &str, error: &str) -> (r: String)
    ensures
        r@ == retained_tool_callback_result_text(tool_name@, success, output@, error@),
{
    let success_text = bool_chars(success);
    let mut out: Vec<char> = Vec::new();
    push_str(&mut out, "Retained tool callback result from `");
    push_str(&mut out, tool_name);
    push_str(&mut out, "`:\nsuccess: ");
    push_chars(&mut out, &success_text);
    push_str(&mut out, "\noutput: ");
    push_str(&mut out, output);
    push_str(&mut out, "\nerror: ");
    push_str(&mut out, error);
    string_of(&out)
}
/// The most recent tool result.
pub open spec fn recent_tool_callback_result_text(tool_name: Seq<char>, success: bool, output: Seq<char>, error: Seq<char>) -> Seq<char> {
    "Recent tool callback result from `"@ + tool_name + "`:\nsuccess: "@ + bool_text(success) + "\noutput: "@ + output + "\nerror: "@ + error + "\n\nUse this callback strictly as evidence for the next step. Do not repeat commands that already produced enough evidence; continue with edits, validation, or final response when the task is complete."@
}

pub fn recent_tool_callback_result(tool_name: &str, success: bool, output: &str, error: &str) -> (r: String)
    ensures
        r@ == recent_tool_callback_result_text(tool_name@, success, output@, error@),
{
    let success_text = bool_chars(success);
    let mut out: Vec<char> = Vec::new();
    push_str(&mut out, "Recent tool callback result from `");
    push_str(&mut out, tool_name);
    push_str(&mut out, "`:\nsuccess: ");
    push_chars(&mut out, &success_text);
    push_str(&mut out, "\noutput: ");
    push_str(&mut out, output);
    push_str(&mut out, "\nerror: ");
    push_str(&mut out, error);
    push_str(&mut out, "\n\nUse this callback strictly as evidence for the next step. Do not repeat commands that already produced enough evidence; continue with edits, validation, or final response when the task is complete.");
    string_of(&out)
}
/// The evaluations of a tool result.
pub open spec fn tool_result_evaluation_text(tool_name: Seq<char>, evaluations: Seq<char>) -> Seq<char> {
    "Tool result enum evaluations from `"@ + tool_name + "`:\n"@ + evaluations
}

pub fn tool_result_evaluation(tool_name: &str, evaluations: &str) -> (r: String)
    ensures
        r@ == tool_result_evaluation_text(tool_name@, evaluations@),
{
    let mut out: Vec<char> = Vec::new();
    push_str(&mut out, "Tool result enum evaluations from `");
    push_str(&mut out, tool_name);
    push_str(&mut out, "`:\n");
    push_str(&mut out, evaluations);
    string_of(&out)
}
/// The status of a tool result.
pub open spec fn tool_result_status_text(tool_name: Seq<char>, success: bool, status: Seq<char>) -> Seq<char> {
    "Tool result status from `"@ + tool_name + "`:\nsuccess: "@ + bool_text(success) + "\nevaluation: "@ + status
}

pub fn tool_result_status(tool_name: &str, success: bool, status: &str) -> (r: String)
    ensures
        r@ == tool_result_status_text(tool_name@, success, status@),
{
    let success_text = bool_chars(success);
    let mut out: Vec<char> = Vec::new();
    push_str(&mut out, "Tool result status from `");
    push_str(&mut out, tool_name);
    push_str(&mut out, "`:\nsuccess: ");
    push_chars(&mut out, &success_text);
    push_str(&mut out, "\nevaluation: ");
    push_str(&mut out, status);
    string_of(&out)
}
/// Note that a later tool call did not mark a result helpful.
pub fn subsequent_tool_not_helpful() -> (r: &'static str)
    ensures
        r@ == "The subsequent tool call did not mark this result as helpful."@,
{
    "The subsequent tool call did not mark this result as helpful."
}

} // verus!
