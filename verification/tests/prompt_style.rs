use runtime::prompt_style::agent_identity::{agent_identity, fallback, language_instruction};
use runtime::prompt_style::compact_context::{compact_context_required, format_token_count};
use runtime::prompt_style::provider_retry::{media_fallback, transient_failure_retry};
use runtime::prompt_style::runtime_fallback::{
    final_runtime_failed, glob_match_summary, missing_final_answer, no_tool_results_runtime_failed,
    tool_chain_summary_header, tool_results_then_runtime_failed,
};
use runtime::prompt_style::self_reflection::self_reflection_tail_prompt;
use runtime::prompt_style::runtime_prompt_manual::normalize_task_type_ids;
use runtime::prompt_style::task_status::{planning_objective_context, TASK_STATUS};
use runtime::prompt_style::task_continuity::TASK_CONTINUITY;
use runtime::prompt_style::task_delivered::TASK_DELIVERED;
use runtime::prompt_style::session_processes::session_processes;
use runtime::prompt_style::turn_status::turn_completed_with_tool_calls;
use runtime::prompt_style::workspace_context::workspace_context;
use runtime::prompt_style::tool_context::{
    helpful_tool_callback_result, last_tool_call_response, recent_tool_callback_result,
    retained_tool_callback_result, subsequent_tool_not_helpful, tool_result_evaluation,
    tool_result_status,
};

fn text(v: Vec<char>) -> String {
    v.into_iter().collect()
}

#[test]
fn provider_retry_prompts_keep_retry_context() {
    let retry = transient_failure_retry("timeout", 2, 3);

    assert!(retry.contains("retry 2 of 3"));
    assert!(retry.contains("not task completion"));
    assert!(retry.contains("normal command_run tool"));
}

#[test]
fn media_fallback_prompt_names_removed_content() {
    let prompt = media_fallback("image/png", 4);

    assert!(prompt.contains("image/png"));
    assert!(prompt.contains("4 item(s)"));
}

#[test]
fn identity_includes_dynamic_context_as_first_system_payload() {
    let identity = agent_identity(
        "Coding Agent Planning",
        "Tura User",
        &["tura".to_string()],
        "gpt-5.5",
        "openai",
        "zh-CN",
    );

    assert!(identity.contains("You are Coding Agent Planning"));
    assert!(identity.contains("persona: tura"));
    assert!(identity.contains("Current user: Tura User"));
    assert!(identity.contains("Runtime model: gpt-5.5"));
    assert!(identity.contains("LLM provider: openai"));
    assert!(identity.contains("用户语言不明确时使用简体中文回复"));
}

#[test]
fn identity_falls_back_for_blank_fields_and_empty_personas() {
    let identity = agent_identity("  ", "", &[], " ", "\t", "EN ");
    assert_eq!(
        identity,
        "You are Tura, an agent using persona: default persona. Current user: user. Runtime model: unknown. LLM provider: unknown. Respond in English when the user's language is unclear; otherwise mirror the user's language. Follow the persona and communication style supplied in the following system messages."
    );
}

#[test]
fn identity_joins_personas_and_names_blank_ones() {
    let identity = agent_identity(
        "A",
        "B",
        &[" tura ".to_string(), " ".to_string(), "x".to_string()],
        "m",
        "p",
        "fr",
    );
    assert!(identity.contains("persona: tura, unknown persona, x."));
    assert!(identity.contains("Respond in the configured application language"));
}

#[test]
fn fallback_trims_or_defaults() {
    assert_eq!(text(fallback("  value ", "d")), "value");
    assert_eq!(text(fallback(" \n ", "d")), "d");
}

#[test]
fn language_instruction_matches_known_names() {
    assert!(language_instruction(" English ").starts_with("Respond in English"));
    assert!(language_instruction("en-GB").starts_with("Respond in English"));
    assert!(language_instruction("Simplified Chinese").starts_with("用户语言不明确时"));
    assert!(language_instruction("简体中文").starts_with("用户语言不明确时"));
    assert!(language_instruction("de").starts_with("Respond in the configured"));
}

#[test]
fn compact_context_required_formats_dynamic_limit_and_current_turn_instruction() {
    let prompt = compact_context_required(76_800);

    assert!(prompt.contains("above about 76,800 tokens"));
    assert!(!prompt.contains("above about 250,000 tokens"));
    assert!(prompt.contains("this assistant turn must call command_run"));
    assert!(prompt.contains("task_status update carrying compact_context"));
    assert!(prompt.contains("Do not use a standalone compact_context command"));
    assert!(prompt.contains("\"command_type\":\"task_status\""));
    assert!(prompt.contains("compact_context"));
    assert!(prompt.contains("<handoff summary for the next turn>"));
}

#[test]
fn format_token_count_groups_thousands() {
    assert_eq!(text(format_token_count(0)), "0");
    assert_eq!(text(format_token_count(999)), "999");
    assert_eq!(text(format_token_count(1000)), "1,000");
    assert_eq!(text(format_token_count(76_800)), "76,800");
    assert_eq!(text(format_token_count(250_000)), "250,000");
    assert_eq!(text(format_token_count(1_234_567)), "1,234,567");
    assert_eq!(
        text(format_token_count(u64::MAX)),
        "18,446,744,073,709,551,615"
    );
}

#[test]
fn format_token_count_without_commas_is_the_decimal_count() {
    for n in [0u64, 7, 1_000, 12_345, 9_876_543_210] {
        let grouped = text(format_token_count(n));
        assert_eq!(grouped.replace(',', ""), n.to_string());
    }
}

#[test]
fn tail_prompt_lists_active_manual_display_names_once() {
    let task_type = normalize_task_type_ids(&["interactive_and_3d", "visual"]);

    let prompt = self_reflection_tail_prompt(&task_type);

    assert!(
        prompt.contains(
            "Visual Operation Manual, Frontend Operation Manual, Interactive and 3D Operation Manual"
        ),
        "{prompt}"
    );
    assert_eq!(prompt.matches("Visual Operation Manual").count(), 1);
    assert!(prompt.contains("complete the required `Self Reflection`"));
    assert!(prompt.contains("confirm the complete chain before making any judgment"));
    assert!(prompt.contains("full source-to-output path is still incomplete"));
    assert!(prompt.contains("correct the previous mistaks before continuing"));
}

#[test]
fn tail_prompt_has_fallback_without_task_type() {
    let prompt = self_reflection_tail_prompt(&[]);

    assert!(prompt.contains("review the active Operation Manual(s)"));
}

#[test]
fn planning_objective_context_trims_and_fences_the_objective() {
    let prompt = planning_objective_context("  ship it \n");
    assert!(prompt.starts_with("Continue working toward the active thread goal."));
    assert!(prompt.contains("<untrusted_objective>\nship it\n</untrusted_objective>"));
    assert!(prompt.ends_with("Choose the next concrete action toward the objective."));
}

#[test]
fn fixed_reminders_keep_their_instructions() {
    assert!(TASK_STATUS.starts_with("Reminder: task_status only updates internal task state"));
    assert!(TASK_STATUS.contains("do not exceed 10 sentences"));
    assert!(TASK_CONTINUITY.starts_with("Task continuity reminder."));
    assert!(TASK_DELIVERED.starts_with("Multiple-tasks delivery."));
}

#[test]
fn runtime_fallback_replies() {
    assert_eq!(final_runtime_failed("boom"), "模型调用失败，无法生成新的总结轮次。\n\n错误：boom");
    assert_eq!(
        no_tool_results_runtime_failed("x"),
        "模型调用失败，暂时没有可汇总的工具结果。\n\n错误：x"
    );
    assert_eq!(
        tool_results_then_runtime_failed("S", "E"),
        "S\n\n后续模型调用失败，所以我先把已经完成的工具结果展示出来。\n\n错误：E"
    );
    assert!(tool_chain_summary_header().starts_with("我已经完成工具调用链路"));
    assert!(missing_final_answer().contains("模型没有返回可展示的最终回复"));
    assert_eq!(glob_match_summary("`a`", 3), "找到 `a`。");
    assert_eq!(glob_match_summary("`a`", 6), "找到 `a` 等共 6 项。");
}

#[test]
fn tool_context_texts_carry_their_fields() {
    assert_eq!(
        helpful_tool_callback_result("rg", true, "out", ""),
        "Helpful tool callback result from `rg`:\nsuccess: true\noutput: out\nerror: "
    );
    assert_eq!(
        retained_tool_callback_result("rg", false, "o", "bad"),
        "Retained tool callback result from `rg`:\nsuccess: false\noutput: o\nerror: bad"
    );
    let recent = recent_tool_callback_result("glob", true, "o2", "");
    assert!(recent.starts_with("Recent tool callback result from `glob`:\nsuccess: true\noutput: o2\nerror: \n\nUse this callback"));
    assert!(last_tool_call_response("{\"a\":1}").starts_with("last_tool_call_response:\n{\"a\":1}\n\n"));
    assert_eq!(
        tool_result_evaluation("rg", "helpful"),
        "Tool result enum evaluations from `rg`:\nhelpful"
    );
    assert_eq!(
        tool_result_status("rg", true, "done"),
        "Tool result status from `rg`:\nsuccess: true\nevaluation: done"
    );
    assert!(!subsequent_tool_not_helpful().is_empty());
}

#[test]
fn small_status_texts() {
    assert_eq!(turn_completed_with_tool_calls(3, 12), "Turn 3 completed with 12 tool calls");
    assert!(workspace_context("/w").starts_with("Current workspace directory: /w. Treat relative"));
    let s = session_processes("P", "D");
    assert!(s.starts_with("Session process snapshot:\nP\n\nRunning Docker containers snapshot (sanitized JSON):\nD\n\n"));
}
