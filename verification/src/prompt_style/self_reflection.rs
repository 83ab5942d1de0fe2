//! The reminder appended at the end of a turn's prompt to review the active
//! operation manuals.
use vstd::prelude::*;
use crate::prompt_style::runtime_prompt_manual::{
    active_manual_display_names, display_names, static_manual_table, string_views,
};
use crate::text::{join, join_chars, push_chars, push_str, string_of, chars_of_string};

verus! {

/// The manual list of the reminder: the display names joined by commas, or
/// `active Operation Manual(s)` when there are none.
pub open spec fn manual_list_text(names: Seq<Seq<char>>) -> Seq<char> {
    if names.len() == 0 {
        "active Operation Manual(s)"@
    } else {
        join(names, ", "@)
    }
}

/// The self-reflection reminder for a given manual list.
pub open spec fn self_reflection_text(manual_list: Seq<char>) -> Seq<char> {
    "Before running the next `command_run` batch or providing the final answer, review the "@
        + manual_list
        + " and complete the required `Self Reflection` to ensure you are still aligned with the user's goal and the manual(s). ***Even if you think you have found the answer, confirm the complete chain before making any judgment; do not settle on a conclusion while the full source-to-output path is still incomplete.*** If you notice any mistakes, stop now and correct the previous mistaks before continuing."@
}

/// The self-reflection reminder for a session with the task types
/// `task_type`, naming the built-in manuals they select.
pub fn self_reflection_tail_prompt(task_type: &[String]) -> (r: String)
    ensures
        r@ == self_reflection_text(
            manual_list_text(display_names(static_manual_table(), string_views(task_type@))),
        ),
{
    let names = active_manual_display_names(task_type);
    let ghost nv = string_views(names@);
    let mut list: Vec<char> = Vec::new();
    if names.len() == 0 {
        push_str(&mut list, "active Operation Manual(s)");
    } else {
        let mut parts: Vec<Vec<char>> = Vec::new();
        let mut i: usize = 0;
        while i < names.len()
            invariant
                i <= names.len(),
                nv == string_views(names@),
                parts.len() == i,
                forall|j: int| 0 <= j < i ==> #[trigger] parts@[j]@ == nv[j],
            decreases names.len() - i,
        {
            parts.push(chars_of_string(&names[i]));
            i = i + 1;
        }
        assert(parts@.map_values(|w: Vec<char>| w@) =~= nv);
        list = join_chars(&parts, ", ");
    }
    let mut out: Vec<char> = Vec::new();
    push_str(
        &mut out,
        "Before running the next `command_run` batch or providing the final answer, review the ",
    );
    push_chars(&mut out, &list);
    push_str(
        &mut out,
        " and complete the required `Self Reflection` to ensure you are still aligned with the user's goal and the manual(s). ***Even if you think you have found the answer, confirm the complete chain before making any judgment; do not settle on a conclusion while the full source-to-output path is still incomplete.*** If you notice any mistakes, stop now and correct the previous mistaks before continuing.",
    );
    string_of(&out)
}

} // verus!
