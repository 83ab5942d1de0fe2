//! Fragments of context that the runtime puts in user messages between a
//! start marker and an end marker, and the kinds of context items.
use vstd::prelude::*;
use crate::chars::{is_ws, skip_class, back_class, ascii_lower, slice_vec, to_ascii_lowercase, trim_end_by, trim_end_class, trim_start_by, trim_start_class, CharClass};
use crate::context::text_truncate::same_chars;
use crate::text::{chars_of, push_str, string_of};

verus! {

/// The kind of a context item.
#[derive(Debug, Clone, Copy, PartialEq, Eq)]
pub enum ContextType {
    UserInput,
    AgentOutput,
    ToolResult,
    Reasoning,
    System,
}

/// Whether two texts are equal when ASCII letters are compared without
/// case (`str::eq_ignore_ascii_case`).
pub open spec fn same_ignoring_ascii_case(a: Seq<char>, b: Seq<char>) -> bool {
    ascii_lower(a) == ascii_lower(b)
}

/// Whether a text is a fragment with these markers: both markers are
/// non-empty, and the text, once trimmed, starts with the start marker and
/// ends with the end marker, ASCII case aside.
pub open spec fn fragment_matches(start: Seq<char>, end: Seq<char>, text: Seq<char>) -> bool {
    if start.len() == 0 || end.len() == 0 {
        false
    } else {
        let t = trim_start_class(text, CharClass::Whitespace);
        let u = trim_end_class(t, CharClass::Whitespace);
        &&& t.len() >= start.len()
        &&& same_ignoring_ascii_case(t.take(start.len() as int), start)
        &&& u.len() >= end.len()
        &&& same_ignoring_ascii_case(u.skip(u.len() - end.len()), end)
    }
}

fn same_ignoring_case_exec(a: &Vec<char>, b: &Vec<char>) -> (r: bool)
    ensures
        r == same_ignoring_ascii_case(a@, b@),
{
    same_chars(&to_ascii_lowercase(a), &to_ascii_lowercase(b))
}

/// Whether `text` is a fragment with the markers `start` and `end`.
pub fn fragment_text_matches(start: &str, end: &str, text: &str) -> (b: bool)
    ensures
        b == fragment_matches(start@, end@, text@),
{
    let sv = chars_of(start);
    let ev = chars_of(end);
    if sv.len() == 0 || ev.len() == 0 {
        return false;
    }
    let t = trim_start_by(&chars_of(text), &CharClass::Whitespace);
    let u = trim_end_by(&t, &CharClass::Whitespace);
    if t.len() < sv.len() || u.len() < ev.len() {
        return false;
    }
    let head = slice_vec(&t, 0, sv.len());
    let tail = slice_vec(&u, u.len() - ev.len(), u.len());
    assert(head@ =~= t@.take(sv@.len() as int));
    assert(tail@ =~= u@.skip(u@.len() - ev@.len()));
    same_ignoring_case_exec(&head, &sv) && same_ignoring_case_exec(&tail, &ev)
}

/// A fragment's text: its body between its markers, or the body alone when
/// both markers are empty.
pub open spec fn rendered_fragment(start: Seq<char>, end: Seq<char>, body: Seq<char>) -> Seq<char> {
    if start.len() == 0 && end.len() == 0 {
        body
    } else {
        start + body + end
    }
}

pub fn render_fragment(start: &str, end: &str, body: &str) -> (r: String)
    ensures
        r@ == rendered_fragment(start@, end@, body@),
{
    let mut out: Vec<char> = Vec::new();
    let sv = chars_of(start);
    let ev = chars_of(end);
    if sv.len() == 0 && ev.len() == 0 {
        push_str(&mut out, body);
    } else {
        push_str(&mut out, start);
        push_str(&mut out, body);
        push_str(&mut out, end);
    }
    string_of(&out)
}

/// A rendered fragment is recognised as one: when its markers begin and
/// end with characters other than whitespace, the text that rendering gives
/// is a text that matching accepts.
pub proof fn law_rendered_fragment_matches(start: Seq<char>, end: Seq<char>, body: Seq<char>)
    requires
        start.len() > 0,
        end.len() > 0,
        !is_ws(start[0]),
        !is_ws(end.last()),
    ensures
        fragment_matches(start, end, rendered_fragment(start, end, body)),
{
    let r = start + body + end;
    assert(r[0] == start[0]);
    assert(r.last() == end.last());
    assert(skip_class(r, CharClass::Whitespace, 0) == 0);
    let t = trim_start_class(r, CharClass::Whitespace);
    assert(t =~= r);
    assert(back_class(t, CharClass::Whitespace, t.len()) == t.len());
    let u = trim_end_class(t, CharClass::Whitespace);
    assert(u =~= r);
    assert(t.take(start.len() as int) =~= start);
    assert(u.skip(u.len() - end.len()) =~= end);
}

/// Context that enters a user message as a marked fragment.
pub trait ContextualUserFragment: Sized {
    /// The role of the message that carries the fragment.
    const ROLE: &'static str;
    const START_MARKER: &'static str;
    const END_MARKER: &'static str;

    /// The text between the markers.
    spec fn body_text(&self) -> Seq<char>;

    fn body(&self) -> (r: String)
        ensures
            r@ == self.body_text(),
    ;

    /// Whether a message text is such a fragment.
    fn matches_text(text: &str) -> (b: bool)
        ensures
            b == fragment_matches(Self::START_MARKER@, Self::END_MARKER@, text@),
    {
        fragment_text_matches(Self::START_MARKER, Self::END_MARKER, text)
    }

    /// The fragment with its markers.
    fn render(&self) -> (r: String)
        ensures
            r@ == rendered_fragment(Self::START_MARKER@, Self::END_MARKER@, self.body_text()),
    {
        let b = self.body();
        render_fragment(Self::START_MARKER, Self::END_MARKER, b.as_str())
    }
}

} // verus!
