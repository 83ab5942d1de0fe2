//! Character budgets for compact-context summaries and tool output.
use vstd::prelude::*;
use crate::text::{
    byte_len, chars_of, count_lines, decimal, line_count, push_decimal, push_range, push_str,
    string_of, take_chars, utf8_len, utf8_len_range,
};

verus! {

pub const CONTEXT_OUTPUT_MAX_CHARS: usize = 10_000;

pub const COMMAND_RUN_RESULT_OUTPUT_MAX_CHARS: usize = 10_000;

pub const COMPACT_CONTEXT_MAX_CHARS: usize = 60_000;

/// Note appended to a text cut to a character budget.
pub open spec fn char_budget_note() -> Seq<char> {
    "\n\n[context checkpoint truncated to fit the compact_context summary limit]"@
}

/// A text whose bytes fit `max_chars` unchanged; otherwise its first
/// `max_chars` characters followed by the truncation note.
pub open spec fn char_budget_text(text: Seq<char>, max_chars: nat) -> Seq<char> {
    if utf8_len(text) <= max_chars {
        text
    } else {
        take_chars(text, max_chars) + char_budget_note()
    }
}

pub fn truncate_text_to_char_budget(text: &str, max_chars: usize) -> (r: String)
    ensures
        r@ == char_budget_text(text@, max_chars as nat),
{
    if byte_len(text) <= max_chars {
        return text.to_owned();
    }
    let c = chars_of(text);
    let k = if max_chars < c.len() {
        max_chars
    } else {
        c.len()
    };
    let mut out: Vec<char> = Vec::new();
    push_range(&mut out, &c, 0, k);
    push_str(&mut out, "\n\n[context checkpoint truncated to fit the compact_context summary limit]");
    proof {
        assert(c@.subrange(0, k as int) =~= take_chars(text@, max_chars as nat));
    }
    string_of(&out)
}

pub fn context_output_byte_budget() -> (n: usize)
    ensures
        n == CONTEXT_OUTPUT_MAX_CHARS,
{
    CONTEXT_OUTPUT_MAX_CHARS
}

/// Keeps `max_chars / 2` characters from each end of `content` and reports the
/// bytes left out between them; a text whose two kept ends meet or overlap is
/// kept whole.
pub open spec fn middle_char_budget_text(content: Seq<char>, max_chars: nat) -> Seq<char> {
    let n = content.len();
    let keep = max_chars / 2;
    if max_chars == 0 {
        "..."@ + decimal(utf8_len(content)) + " characters truncated..."@
    } else if 2 * keep >= n {
        content
    } else {
        content.take(keep as int) + "..."@ + decimal(
            utf8_len(content.subrange(keep as int, n - keep)),
        ) + " characters truncated..."@ + content.subrange(n - keep, n as int)
    }
}

pub fn truncate_middle_with_char_budget(content: &str, max_chars: usize) -> (r: String)
    ensures
        r@ == middle_char_budget_text(content@, max_chars as nat),
{
    let total = byte_len(content);
    let mut out: Vec<char> = Vec::new();
    if max_chars == 0 {
        push_str(&mut out, "...");
        push_decimal(&mut out, total as u64);
        push_str(&mut out, " characters truncated...");
        return string_of(&out);
    }
    let c = chars_of(content);
    let n = c.len();
    let keep = max_chars / 2;
    if keep >= n || keep >= n - keep {
        return content.to_owned();
    }
    let removed = utf8_len_range(&c, keep, n - keep);
    push_range(&mut out, &c, 0, keep);
    push_str(&mut out, "...");
    push_decimal(&mut out, removed as u64);
    push_str(&mut out, " characters truncated...");
    push_range(&mut out, &c, n - keep, n);
    string_of(&out)
}

/// A text whose bytes fit the budget unchanged; otherwise its line count
/// followed by its middle-truncated form.
pub open spec fn formatted_char_budget_text(content: Seq<char>, max_chars: nat) -> Seq<char> {
    if utf8_len(content) <= max_chars {
        content
    } else {
        "Total output lines: "@ + decimal(line_count(content)) + "\n\n"@ + middle_char_budget_text(
            content,
            max_chars,
        )
    }
}

pub fn formatted_truncate_text(content: &str, max_chars: usize) -> (r: String)
    ensures
        r@ == formatted_char_budget_text(content@, max_chars as nat),
{
    if byte_len(content) <= max_chars {
        return content.to_owned();
    }
    let c = chars_of(content);
    let lines = count_lines(&c);
    let truncated = truncate_middle_with_char_budget(content, max_chars);
    let mut out: Vec<char> = Vec::new();
    push_str(&mut out, "Total output lines: ");
    push_decimal(&mut out, lines as u64);
    push_str(&mut out, "\n\n");
    push_str(&mut out, truncated.as_str());
    string_of(&out)
}

} // verus!
