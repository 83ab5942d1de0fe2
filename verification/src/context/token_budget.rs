//! Token budgets for context output, with four characters counted per token.
use vstd::prelude::*;
use crate::text::{
    byte_len, chars_of, count_lines, decimal, line_count, push_decimal, push_range, push_str,
    string_of, take_chars, utf8_len, utf8_len_range,
};

verus! {

pub const CONTEXT_OUTPUT_MAX_TOKENS: usize = 2_500;

pub const COMMAND_RUN_RESULT_OUTPUT_MAX_TOKENS: usize = 2_500;

pub const APPROX_CHARS_PER_TOKEN: usize = 4;

/// `tokens * 4`, saturated at `usize::MAX`.
pub open spec fn token_chars(tokens: nat) -> nat {
    if tokens * 4 <= usize::MAX {
        tokens * 4
    } else {
        usize::MAX as nat
    }
}

/// Tokens estimated for `bytes` bytes: four bytes per token, rounded up.
pub open spec fn approx_tokens(bytes: nat) -> nat {
    if bytes % 4 == 0 {
        bytes / 4
    } else {
        bytes / 4 + 1
    }
}

pub fn saturating_token_chars(max_tokens: usize) -> (n: usize)
    ensures
        n == token_chars(max_tokens as nat),
{
    if max_tokens <= usize::MAX / APPROX_CHARS_PER_TOKEN {
        max_tokens * APPROX_CHARS_PER_TOKEN
    } else {
        usize::MAX
    }
}

pub fn approx_token_count(byte_count: usize) -> (n: usize)
    ensures
        n == approx_tokens(byte_count as nat),
{
    if byte_count % APPROX_CHARS_PER_TOKEN == 0 {
        byte_count / APPROX_CHARS_PER_TOKEN
    } else {
        byte_count / APPROX_CHARS_PER_TOKEN + 1
    }
}

/// Note appended to a text cut to a token budget.
pub open spec fn token_budget_note() -> Seq<char> {
    "\n\n[context checkpoint truncated to about 20,000 tokens]"@
}

/// A text whose bytes fit `max_tokens * 4` unchanged; otherwise its first
/// `max_tokens * 4` characters followed by the truncation note.
pub open spec fn token_budget_text(text: Seq<char>, max_tokens: nat) -> Seq<char> {
    let max_chars = token_chars(max_tokens);
    if utf8_len(text) <= max_chars {
        text
    } else {
        take_chars(text, max_chars) + token_budget_note()
    }
}

pub fn truncate_text_to_token_budget(text: &str, max_tokens: usize) -> (r: String)
    ensures
        r@ == token_budget_text(text@, max_tokens as nat),
{
    let max_chars = saturating_token_chars(max_tokens);
    if byte_len(text) <= max_chars {
        return text.to_owned();
    }
    let c = chars_of(text);
    let k = if max_chars < c.len() {
        max_chars
    } else {
        c.len()
    };
    let mut out: Vec<char> = Vec::new();
    push_range(&mut out, &c, 0, k);
    push_str(&mut out, "\n\n[context checkpoint truncated to about 20,000 tokens]");
    proof {
        assert(c@.subrange(0, k as int) =~= take_chars(text@, max_chars as nat));
    }
    string_of(&out)
}

pub fn context_output_byte_budget() -> (n: usize)
    ensures
        n == CONTEXT_OUTPUT_MAX_TOKENS * APPROX_CHARS_PER_TOKEN,
{
    CONTEXT_OUTPUT_MAX_TOKENS * APPROX_CHARS_PER_TOKEN
}

/// Keeps `max_tokens * 2` characters from each end of `content` and reports
/// the estimated tokens left out between them; a text whose two kept ends meet
/// or overlap is kept whole.
pub open spec fn middle_token_budget_text(content: Seq<char>, max_tokens: nat) -> Seq<char> {
    let n = content.len();
    let max_chars = token_chars(max_tokens);
    let keep = max_chars / 2;
    if max_chars == 0 {
        "..."@ + decimal(approx_tokens(utf8_len(content))) + " tokens truncated..."@
    } else if 2 * keep >= n {
        content
    } else {
        content.take(keep as int) + "..."@ + decimal(
            approx_tokens(utf8_len(content.subrange(keep as int, n - keep))),
        ) + " tokens truncated..."@ + content.subrange(n - keep, n as int)
    }
}

pub fn truncate_middle_with_token_budget(content: &str, max_tokens: usize) -> (r: String)
    ensures
        r@ == middle_token_budget_text(content@, max_tokens as nat),
{
    let max_chars = saturating_token_chars(max_tokens);
    let total = byte_len(content);
    let mut out: Vec<char> = Vec::new();
    if max_chars == 0 {
        push_str(&mut out, "...");
        push_decimal(&mut out, approx_token_count(total) as u64);
        push_str(&mut out, " tokens truncated...");
        return string_of(&out);
    }
    let c = chars_of(content);
    let n = c.len();
    let keep = max_chars / 2;
    if keep >= n || keep >= n - keep {
        return content.to_owned();
    }
    let removed = utf8_len_range(&c, keep, n - keep);
    push_range(&mut out, &c, 0, keep);
    push_str(&mut out, "...");
    push_decimal(&mut out, approx_token_count(removed) as u64);
    push_str(&mut out, " tokens truncated...");
    push_range(&mut out, &c, n - keep, n);
    string_of(&out)
}

/// A text whose bytes fit `max_tokens * 4` unchanged; otherwise its line count
/// followed by its middle-truncated form.
pub open spec fn formatted_token_budget_text(content: Seq<char>, max_tokens: nat) -> Seq<char> {
    if utf8_len(content) <= max_tokens * 4 {
        content
    } else {
        "Total output lines: "@ + decimal(line_count(content)) + "\n\n"@ + middle_token_budget_text(
            content,
            max_tokens,
        )
    }
}

pub fn formatted_truncate_text(content: &str, max_tokens: usize) -> (r: String)
    requires
        max_tokens * APPROX_CHARS_PER_TOKEN <= usize::MAX,
    ensures
        r@ == formatted_token_budget_text(content@, max_tokens as nat),
{
    if byte_len(content) <= max_tokens * APPROX_CHARS_PER_TOKEN {
        return content.to_owned();
    }
    let c = chars_of(content);
    let lines = count_lines(&c);
    let truncated = truncate_middle_with_token_budget(content, max_tokens);
    let mut out: Vec<char> = Vec::new();
    push_str(&mut out, "Total output lines: ");
    push_decimal(&mut out, lines as u64);
    push_str(&mut out, "\n\n");
    push_str(&mut out, truncated.as_str());
    string_of(&out)
}

} // verus!
