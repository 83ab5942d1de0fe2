//! Replies shown to the user when the runtime cannot finish a turn normally.
use vstd::prelude::*;
use crate::text::{decimal, push_decimal, push_str, string_of};

verus! {

/// Reply when the final summary turn could not be generated.
pub open spec fn final_runtime_failed_text(error: Seq<char>) -> Seq<char> {
    "模型调用失败，无法生成新的总结轮次。\n\n错误："@ + error
}

pub fn final_runtime_failed(error: &str) -> (r: String)
    ensures
        r@ == final_runtime_failed_text(error@),
{
    let mut out: Vec<char> = Vec::new();
    push_str(&mut out, "模型调用失败，无法生成新的总结轮次。\n\n错误：");
    push_str(&mut out, error);
    string_of(&out)
}
/// Header placed before a summary of tool results.
pub fn tool_chain_summary_header() -> (r: &'static str)
    ensures
        r@ == "我已经完成工具调用链路，并根据工具返回结果整理如下："@,
{
    "我已经完成工具调用链路，并根据工具返回结果整理如下："
}

/// Reply when the run ended without a final answer from the model.
pub fn missing_final_answer() -> (r: &'static str)
    ensures
        r@ == "我这边的运行已经结束，但模型没有返回可展示的最终回复。我已经保留当前会话上下文，你可以继续发送消息，我会接着处理。"@,
{
    "我这边的运行已经结束，但模型没有返回可展示的最终回复。我已经保留当前会话上下文，你可以继续发送消息，我会接着处理。"
}

/// Reply when the model failed before any tool result was available.
pub open spec fn no_tool_results_runtime_failed_text(error: Seq<char>) -> Seq<char> {
    "模型调用失败，暂时没有可汇总的工具结果。\n\n错误："@ + error
}

pub fn no_tool_results_runtime_failed(error: &str) -> (r: String)
    ensures
        r@ == no_tool_results_runtime_failed_text(error@),
{
    let mut out: Vec<char> = Vec::new();
    push_str(&mut out, "模型调用失败，暂时没有可汇总的工具结果。\n\n错误：");
    push_str(&mut out, error);
    string_of(&out)
}
/// Reply that shows the tool results gathered before the model failed.
pub open spec fn tool_results_then_runtime_failed_text(summary: Seq<char>, error: Seq<char>) -> Seq<char> {
    summary + "\n\n后续模型调用失败，所以我先把已经完成的工具结果展示出来。\n\n错误："@ + error
}

pub fn tool_results_then_runtime_failed(summary: &str, error: &str) -> (r: String)
    ensures
        r@ == tool_results_then_runtime_failed_text(summary@, error@),
{
    let mut out: Vec<char> = Vec::new();
    push_str(&mut out, summary);
    push_str(&mut out, "\n\n后续模型调用失败，所以我先把已经完成的工具结果展示出来。\n\n错误：");
    push_str(&mut out, error);
    string_of(&out)
}
/// Summary of glob matches: the preview, and the total when it exceeds five.
pub open spec fn glob_match_summary_text(preview: Seq<char>, total_count: nat) -> Seq<char> {
    let suffix = if total_count > 5 {
        " 等共 "@ + decimal(total_count) + " 项"@
    } else {
        Seq::empty()
    };
    "找到 "@ + preview + suffix + "。"@
}

pub fn glob_match_summary(preview: &str, total_count: usize) -> (r: String)
    ensures
        r@ == glob_match_summary_text(preview@, total_count as nat),
{
    let mut out: Vec<char> = Vec::new();
    push_str(&mut out, "找到 ");
    push_str(&mut out, preview);
    if total_count > 5 {
        push_str(&mut out, " 等共 ");
        push_decimal(&mut out, total_count as u64);
        push_str(&mut out, " 项");
    }
    push_str(&mut out, "。");
    proof {
        if total_count <= 5 {
            assert("找到 "@ + preview@ + Seq::<char>::empty() =~= "找到 "@ + preview@);
        }
    }
    string_of(&out)
}

} // verus!
