//! The prompt that asks the model for a context checkpoint.
use vstd::prelude::*;
use crate::text::{decimal, push_chars, push_decimal, push_range, push_str, string_of};

verus! {

/// Decimal digits grouped by commas in threes from the right: `76800`
/// becomes `76,800`.
pub open spec fn group_thousands(d: Seq<char>) -> Seq<char>
    decreases d.len(),
{
    if d.len() <= 3 {
        d
    } else {
        group_thousands(d.subrange(0, d.len() - 3)) + ","@ + d.subrange(d.len() - 3, d.len() as int)
    }
}

/// A token count as the prompts write it: decimal, with thousands separators.
pub open spec fn token_count_text(tokens: nat) -> Seq<char> {
    group_thousands(decimal(tokens))
}

pub fn format_token_count(tokens: u64) -> (r: Vec<char>)
    ensures
        r@ == token_count_text(tokens as nat),
{
    let mut d: Vec<char> = Vec::new();
    push_decimal(&mut d, tokens);
    assert(d@ =~= decimal(tokens as nat));
    let mut end: usize = d.len();
    let mut acc: Vec<char> = Vec::new();
    assert(d@.subrange(0, end as int) =~= d@);
    assert(acc@ =~= Seq::<char>::empty());
    while end > 3
        invariant
            end <= d.len(),
            group_thousands(d@) == group_thousands(d@.subrange(0, end as int)) + acc@,
        decreases end,
    {
        let ghost pre = d@.subrange(0, end as int);
        assert(pre.subrange(0, pre.len() - 3) =~= d@.subrange(0, end - 3));
        assert(pre.subrange(pre.len() - 3, pre.len() as int) =~= d@.subrange(end - 3, end as int));
        let mut next: Vec<char> = Vec::new();
        push_str(&mut next, ",");
        push_range(&mut next, &d, end - 3, end);
        push_chars(&mut next, &acc);
        assert(next@ =~= ","@ + d@.subrange(end - 3, end as int) + acc@);
        acc = next;
        end = end - 3;
    }
    assert(group_thousands(d@.subrange(0, end as int)) == d@.subrange(0, end as int));
    let mut out: Vec<char> = Vec::new();
    push_range(&mut out, &d, 0, end);
    push_chars(&mut out, &acc);
    assert(out@ =~= d@.subrange(0, end as int) + acc@);
    out
}

/// The characters of `s` other than commas.
pub open spec fn without_commas(s: Seq<char>) -> Seq<char>
    decreases s.len(),
{
    if s.len() == 0 {
        s
    } else {
        without_commas(s.drop_last()) + if s.last() == ',' {
            Seq::<char>::empty()
        } else {
            seq![s.last()]
        }
    }
}

proof fn lemma_without_commas_add(a: Seq<char>, b: Seq<char>)
    ensures
        without_commas(a + b) == without_commas(a) + without_commas(b),
    decreases b.len(),
{
    if b.len() == 0 {
        assert(a + b =~= a);
        assert(without_commas(a) + without_commas(b) =~= without_commas(a));
    } else {
        assert((a + b).drop_last() =~= a + b.drop_last());
        lemma_without_commas_add(a, b.drop_last());
    }
}

proof fn lemma_without_commas_plain(s: Seq<char>)
    requires
        forall|i: int| 0 <= i < s.len() ==> s[i] != ',',
    ensures
        without_commas(s) == s,
    decreases s.len(),
{
    if s.len() > 0 {
        lemma_without_commas_plain(s.drop_last());
        assert(s.drop_last().push(s.last()) =~= s);
    }
}

proof fn lemma_decimal_digits(n: nat)
    ensures
        forall|i: int| 0 <= i < decimal(n).len() ==> decimal(n)[i] != ',',
        decimal(n).len() > 0,
    decreases n,
{
    if n >= 10 {
        lemma_decimal_digits(n / 10);
        assert forall|i: int| 0 <= i < decimal(n).len() implies decimal(n)[i] != ',' by {
            if i < decimal(n / 10).len() {
                assert(decimal(n)[i] == decimal(n / 10)[i]);
            }
        }
    }
}

proof fn lemma_group_thousands_digits(d: Seq<char>)
    requires
        forall|i: int| 0 <= i < d.len() ==> d[i] != ',',
    ensures
        without_commas(group_thousands(d)) == d,
    decreases d.len(),
{
    if d.len() > 3 {
        let head = d.subrange(0, d.len() - 3);
        let tail = d.subrange(d.len() - 3, d.len() as int);
        assert forall|i: int| 0 <= i < head.len() implies head[i] != ',' by {
            assert(head[i] == d[i]);
        }
        assert forall|i: int| 0 <= i < tail.len() implies tail[i] != ',' by {
            assert(tail[i] == d[i + d.len() - 3]);
        }
        lemma_group_thousands_digits(head);
        lemma_without_commas_add(group_thousands(head) + ","@, tail);
        lemma_without_commas_add(group_thousands(head), ","@);
        lemma_without_commas_plain(tail);
        assert(without_commas(","@) =~= Seq::<char>::empty()) by {
            reveal_strlit(",");
            reveal_with_fuel(without_commas, 2);
            assert(","@.drop_last() =~= Seq::<char>::empty());
        }
        assert(head + tail =~= d);
    } else {
        lemma_without_commas_plain(d);
    }
}

/// A formatted token count, with its commas taken out, is the plain decimal
/// count.
pub proof fn law_token_count_digits(tokens: nat)
    ensures
        without_commas(token_count_text(tokens)) == decimal(tokens),
{
    lemma_decimal_digits(tokens);
    lemma_group_thousands_digits(decimal(tokens));
}

/// The request for a context checkpoint once the visible context is above
/// `limit` tokens.
pub open spec fn compact_context_required_text(limit: nat) -> Seq<char> {
    "Context checkpoint required.\n\nThe visible context is above about "@ + token_count_text(limit)
        + " tokens and is now crowded. Continue the original task, but this assistant turn must call command_run. Put any required final work first, then finish the highest step with a task_status update carrying compact_context. Do not use a standalone compact_context command and do not answer only in prose before checkpointing.\n\nExample shape:\n{\"commands\":[{\"command_type\":\"shell_command\",\"command_line\":\"<any required final check>\",\"step\":1},{\"command_type\":\"task_status\",\"command_line\":\"{\\\"task_group\\\":\\\"storefront frontend\\\",\\\"compact_context\\\":\\\"<handoff summary for the next turn>\\\"}\",\"step\":2}]}\n\nThe task_status compact_context value becomes the new handoff context. Preserve the task goal, completed work, incomplete work, deliverables, relevant files, validation state, and next steps. The user will receive the current task conversation and any previous summary; include only details not already covered there. Keep it concise."@
}

pub fn compact_context_required(limit_tokens: u64) -> (r: String)
    ensures
        r@ == compact_context_required_text(limit_tokens as nat),
{
    let mut out: Vec<char> = Vec::new();
    push_str(&mut out, "Context checkpoint required.\n\nThe visible context is above about ");
    push_chars(&mut out, &format_token_count(limit_tokens));
    push_str(
        &mut out,
        " tokens and is now crowded. Continue the original task, but this assistant turn must call command_run. Put any required final work first, then finish the highest step with a task_status update carrying compact_context. Do not use a standalone compact_context command and do not answer only in prose before checkpointing.\n\nExample shape:\n{\"commands\":[{\"command_type\":\"shell_command\",\"command_line\":\"<any required final check>\",\"step\":1},{\"command_type\":\"task_status\",\"command_line\":\"{\\\"task_group\\\":\\\"storefront frontend\\\",\\\"compact_context\\\":\\\"<handoff summary for the next turn>\\\"}\",\"step\":2}]}\n\nThe task_status compact_context value becomes the new handoff context. Preserve the task goal, completed work, incomplete work, deliverables, relevant files, validation state, and next steps. The user will receive the current task conversation and any previous summary; include only details not already covered there. Keep it concise.",
    );
    string_of(&out)
}

} // verus!
