//! Truncation of tool output for the model context: token budgets, and
//! grouped truncation of multi-file, multi-query and ripgrep output so that
//! each file or query keeps its own share of the budget.
use vstd::prelude::*;
use crate::chars::{ascii_lower, contains, contains_exec, contains_str, ends_with, ends_with_str, eq_str, find, find_char, find_char_from, find_from_exec, is_ascii_alnum, is_ascii_alnum_char, is_ascii_digit, is_ascii_digit_char, is_ascii_upper, is_ascii_upper_char, is_whitespace, is_ws, lemma_find_char_from, replace_char, replace_char_exec, replace_str, replace_str_exec, slice_vec, starts_with, starts_with_str, to_ascii_lowercase, trim, trim_by, trim_class, trim_end_by, trim_end_class, trim_ws, views, CharClass};
use crate::json::{as_text, json_as_str, json_get, member, parse_json, parsed_json, JsonData, JsonValue};
use crate::text::{byte_len, char_width, chars_of, count_lines, decimal, lemma_utf8_len_push, lemma_utf8_len_subrange, line_count, push_chars, push_decimal, push_range, push_str, string_of, utf8_len, utf8_len_range, width_of};
use crate::context::token_budget::{approx_tokens, saturating_token_chars, token_chars};

verus! {

pub const CONTEXT_OUTPUT_MAX_TOKENS: usize = 2_500;

pub const COMMAND_RUN_RESULT_OUTPUT_MAX_TOKENS: usize = 2_500;

pub const APPROX_CHARS_PER_TOKEN: usize = 4;

/// Characters allowed in the label of a `---LABEL---` section marker.
pub open spec fn is_label_char(c: char) -> bool {
    is_ascii_upper_char(c) || is_ascii_digit_char(c) || c == '_' || c == ' '
}

/// A line that opens a section of grouped command output: `---FILE--- path`
/// with a non-blank path, a bare `---FILE---`, or `---LABEL---` followed by
/// whitespace, where the label is non-empty and made of upper-case ASCII
/// letters, digits, underscores and spaces.
pub open spec fn section_marker(line: Seq<char>) -> bool {
    let t = trim_end_class(line, CharClass::LineEnd);
    if starts_with(t, "---FILE--- "@) {
        trim_ws(t.skip(11)).len() > 0
    } else if t == "---FILE---"@ {
        true
    } else if !starts_with(t, "---"@) {
        false
    } else {
        let rest = t.skip(3);
        match find(rest, "---"@) {
            None => false,
            Some(e) => {
                &&& e > 0
                &&& forall|i: int| 0 <= i < e ==> is_label_char(#[trigger] rest[i])
                &&& e + 3 < rest.len()
                &&& is_ws(rest[e + 3 as int])
            },
        }
    }
}

fn all_label_chars(rest: &Vec<char>, end: usize) -> (b: bool)
    requires
        end <= rest.len(),
    ensures
        b == forall|i: int| 0 <= i < end ==> is_label_char(#[trigger] rest@[i]),
{
    let mut i: usize = 0;
    while i < end
        invariant
            i <= end <= rest.len(),
            forall|k: int| 0 <= k < i ==> is_label_char(#[trigger] rest@[k]),
        decreases end - i,
    {
        let c = rest[i];
        if !(is_ascii_upper(c) || is_ascii_digit(c) || c == '_' || c == ' ') {
            assert(!is_label_char(rest@[i as int]));
            return false;
        }
        i = i + 1;
    }
    true
}

pub fn is_command_run_section_marker(line: &str) -> (b: bool)
    ensures
        b == section_marker(line@),
{
    proof {
        reveal_strlit("---FILE--- ");
        reveal_strlit("---");
    }
    let v = chars_of(line);
    let t = trim_end_by(&v, &CharClass::LineEnd);
    if starts_with_str(&t, "---FILE--- ") {
        let path = slice_vec(&t, 11, t.len());
        let tp = trim(&path);
        return tp.len() > 0;
    }
    if eq_str(&t, "---FILE---") {
        return true;
    }
    if !starts_with_str(&t, "---") {
        return false;
    }
    let rest = slice_vec(&t, 3, t.len());
    let dashes = chars_of("---");
    let found = find_from_exec(&rest, &dashes, 0);
    let label_end = match found {
        None => {
            return false;
        },
        Some(e) => e,
    };
    if label_end == 0 {
        return false;
    }
    assert(rest@ == trim_end_class(line@, CharClass::LineEnd).skip(3));
    assert(find(rest@, "---"@) == Some(label_end as nat));
    if !all_label_chars(&rest, label_end) {
        return false;
    }
    if label_end < rest.len() && 3 < rest.len() - label_end {
        is_whitespace(rest[label_end + 3])
    } else {
        false
    }
}

/// `n + 1`, saturated at `usize::MAX`.
pub open spec fn sat_inc(n: nat) -> nat {
    if n < usize::MAX {
        n + 1
    } else {
        n
    }
}

/// Line ending of a line: `"\r\n"`, `"\n"` or none.
pub open spec fn line_ending(line: Seq<char>) -> Seq<char> {
    if ends_with(line, "\r\n"@) {
        "\r\n"@
    } else if ends_with(line, "\n"@) {
        "\n"@
    } else {
        Seq::empty()
    }
}

/// A bare `---FILE---` marker line names the read target after the one the
/// counter points at, and the counter moves on; other lines are kept, and so
/// is a bare marker with no such target. Returns the line and the counter.
pub open spec fn rewritten_marker(line: Seq<char>, targets: Seq<Seq<char>>, index: nat) -> (
    Seq<char>,
    nat,
) {
    let t = trim_end_class(line, CharClass::LineEnd);
    if t != "---FILE---"@ {
        (line, index)
    } else {
        let target = sat_inc(index);
        if target < targets.len() {
            ("---FILE--- "@ + targets[target as int] + line_ending(line), target)
        } else {
            (line, target)
        }
    }
}

pub fn rewrite_bare_file_marker(
    line: &Vec<char>,
    read_targets: &Vec<Vec<char>>,
    bare_file_marker_index: &mut usize,
) -> (r: Vec<char>)
    ensures
        (r@, *final(bare_file_marker_index) as nat) == rewritten_marker(
            line@,
            views(read_targets@),
            *old(bare_file_marker_index) as nat,
        ),
{
    let t = trim_end_by(line, &CharClass::LineEnd);
    if !eq_str(&t, "---FILE---") {
        return slice_vec(line, 0, line.len());
    }
    let target_index = if *bare_file_marker_index < usize::MAX {
        *bare_file_marker_index + 1
    } else {
        *bare_file_marker_index
    };
    *bare_file_marker_index = target_index;
    if target_index >= read_targets.len() {
        return slice_vec(line, 0, line.len());
    }
    let mut out: Vec<char> = Vec::new();
    push_str(&mut out, "---FILE--- ");
    push_chars(&mut out, &read_targets[target_index]);
    if ends_with_str(line, "\r\n") {
        push_str(&mut out, "\r\n");
    } else if ends_with_str(line, "\n") {
        push_str(&mut out, "\n");
    }
    out
}

/// The file path of a ripgrep match line `path:line:text` (or `path:line`):
/// a non-empty path containing a dot, followed by an all-digit, non-empty
/// line number. Backslashes in the path become slashes.
pub open spec fn ripgrep_path(line: Seq<char>) -> Option<Seq<char>> {
    let t = trim_end_class(line, CharClass::LineEnd);
    match find_char_from(t, ':', 0) {
        None => None,
        Some(c) => {
            let path = t.take(c as int);
            let rest = t.skip(c + 1 as int);
            let number = match find_char_from(rest, ':', 0) {
                Some(d) => rest.take(d as int),
                None => rest,
            };
            if path.len() == 0 || !path.contains('.') {
                None
            } else if number.len() == 0 || !all_digit_chars(number) {
                None
            } else {
                Some(replace_char(path, '\\', '/'))
            }
        },
    }
}

fn has_char(v: &Vec<char>, c: char) -> (b: bool)
    ensures
        b == v@.contains(c),
{
    let r = find_char(v, c, 0);
    proof {
        lemma_find_char_from(v@, c, 0);
    }
    r.is_some()
}

/// Every character is an ASCII digit.
pub open spec fn all_digit_chars(s: Seq<char>) -> bool {
    forall|i: int| 0 <= i < s.len() ==> is_ascii_digit_char(#[trigger] s[i])
}

fn all_digits(v: &Vec<char>) -> (b: bool)
    ensures
        b == all_digit_chars(v@),
{
    let mut i: usize = 0;
    while i < v.len()
        invariant
            i <= v.len(),
            forall|k: int| 0 <= k < i ==> is_ascii_digit_char(#[trigger] v@[k]),
        decreases v.len() - i,
    {
        if !is_ascii_digit(v[i]) {
            return false;
        }
        i = i + 1;
    }
    true
}

pub fn ripgrep_result_path(line: &Vec<char>) -> (r: Option<Vec<char>>)
    ensures
        match r {
            Some(p) => ripgrep_path(line@) == Some(p@),
            None => ripgrep_path(line@) is None,
        },
{
    let t = trim_end_by(line, &CharClass::LineEnd);
    let c = match find_char(&t, ':', 0) {
        None => {
            return None;
        },
        Some(c) => c,
    };
    proof {
        lemma_find_char_from(t@, ':', 0);
    }
    let path = slice_vec(&t, 0, c);
    let rest = slice_vec(&t, c + 1, t.len());
    let number = match find_char(&rest, ':', 0) {
        Some(d) => {
            proof {
                lemma_find_char_from(rest@, ':', 0);
            }
            slice_vec(&rest, 0, d)
        },
        None => slice_vec(&rest, 0, rest.len()),
    };
    assert(rest@.subrange(0, rest@.len() as int) =~= rest@);
    if path.len() == 0 || !has_char(&path, '.') {
        return None;
    }
    if number.len() == 0 || !all_digits(&number) {
        return None;
    }
    Some(replace_char_exec(&path, '\\', '/'))
}

/// A read target named on a command line: the token with surrounding
/// whitespace, `;`, `,` and quotes trimmed; nothing when it is empty, starts
/// with `$` or `|`, or holds no `/`, `\` or `.`; backslashes become slashes.
pub open spec fn read_target(value: Seq<char>) -> Option<Seq<char>> {
    let t = trim_class(
        trim_class(
            trim_class(
                trim_class(trim_ws(value), CharClass::Exactly(';')),
                CharClass::Exactly(','),
            ),
            CharClass::Exactly('"'),
        ),
        CharClass::Exactly('\''),
    );
    if t.len() == 0 || t[0] == '$' || t[0] == '|' {
        None
    } else if !(t.contains('/') || t.contains('\\') || t.contains('.')) {
        None
    } else {
        Some(replace_char(t, '\\', '/'))
    }
}

pub fn normalize_read_target(value: &Vec<char>) -> (r: Option<Vec<char>>)
    ensures
        match r {
            Some(p) => read_target(value@) == Some(p@),
            None => read_target(value@) is None,
        },
{
    let t0 = trim(value);
    let t1 = trim_by(&t0, &CharClass::Exactly(';'));
    let t2 = trim_by(&t1, &CharClass::Exactly(','));
    let t3 = trim_by(&t2, &CharClass::Exactly('"'));
    let t = trim_by(&t3, &CharClass::Exactly('\''));
    if t.len() == 0 || t[0] == '$' || t[0] == '|' {
        return None;
    }
    if !(has_char(&t, '/') || has_char(&t, '\\') || has_char(&t, '.')) {
        return None;
    }
    Some(replace_char_exec(&t, '\\', '/'))
}

/// A query term: between 1 and 80 characters, with at least one ASCII
/// letter, digit or underscore, and no `**/` or `*.` glob.
pub open spec fn query_term(value: Seq<char>) -> bool {
    &&& 1 <= value.len() <= 80
    &&& exists|i: int| 0 <= i < value.len() && (is_ascii_alnum_char(#[trigger] value[i]) || value[i] == '_')
    &&& !contains(value, "**/"@)
    &&& !contains(value, "*."@)
}

pub fn is_query_term(value: &Vec<char>) -> (b: bool)
    ensures
        b == query_term(value@),
{
    if value.len() < 1 || value.len() > 80 {
        return false;
    }
    let mut i: usize = 0;
    let mut found = false;
    while i < value.len()
        invariant
            i <= value.len(),
            found == exists|k: int| 0 <= k < i && (is_ascii_alnum_char(#[trigger] value@[k]) || value@[k] == '_'),
        decreases value.len() - i,
    {
        let c = value[i];
        if is_ascii_alnum(c) || c == '_' {
            found = true;
        }
        i = i + 1;
    }
    found && !contains_str(value, "**/") && !contains_str(value, "*.")
}

/// A query fragment with parentheses, `\b`, `.*` and surrounding whitespace
/// removed and `\s+` read as a space.
pub open spec fn query_term_text(value: Seq<char>) -> Seq<char> {
    trim_ws(
        replace_str(
            replace_str(
                replace_str(
                    trim_class(
                        trim_class(trim_ws(value), CharClass::Exactly('(')),
                        CharClass::Exactly(')'),
                    ),
                    "\\b"@,
                    Seq::empty(),
                ),
                "\\s+"@,
                " "@,
            ),
            ".*"@,
            Seq::empty(),
        ),
    )
}

pub fn normalize_query_term(value: &Vec<char>) -> (r: Vec<char>)
    ensures
        r@ == query_term_text(value@),
{
    proof {
        reveal_strlit("");
        assert(""@ =~= Seq::<char>::empty());
    }
    let t0 = trim(value);
    let t1 = trim_by(&t0, &CharClass::Exactly('('));
    let t2 = trim_by(&t1, &CharClass::Exactly(')'));
    let t3 = replace_str_exec(&t2, "\\b", "");
    let t4 = replace_str_exec(&t3, "\\s+", " ");
    let t5 = replace_str_exec(&t4, ".*", "");
    trim(&t5)
}

/// Tokenizer state: tokens so far, the open token, the open quote, and
/// whether the previous character was a backslash inside quotes.
pub type TokenState = (Seq<Seq<char>>, Seq<char>, Option<char>, bool);

pub open spec fn token_step(st: TokenState, ch: char) -> TokenState {
    let (tokens, current, quote, escaped) = st;
    if escaped {
        (tokens, current.push(ch), quote, false)
    } else if ch == '\\' && quote is Some {
        (tokens, current, quote, true)
    } else if quote is Some {
        if ch == quote->0 {
            (tokens, current, None, false)
        } else {
            (tokens, current.push(ch), quote, false)
        }
    } else if ch == '"' || ch == '\'' {
        (tokens, current, Some(ch), false)
    } else if is_ws(ch) || ch == ';' {
        if current.len() > 0 {
            (tokens.push(current), Seq::empty(), quote, false)
        } else {
            (tokens, current, quote, false)
        }
    } else {
        (tokens, current.push(ch), quote, false)
    }
}

pub open spec fn tokens_fold(s: Seq<char>) -> TokenState
    decreases s.len(),
{
    if s.len() == 0 {
        (Seq::empty(), Seq::empty(), None, false)
    } else {
        token_step(tokens_fold(s.drop_last()), s.last())
    }
}

/// Shell-like words of a command line: whitespace and `;` separate words,
/// single or double quotes group characters (and are dropped), and a
/// backslash inside quotes takes the next character literally.
pub open spec fn shell_tokens(s: Seq<char>) -> Seq<Seq<char>> {
    let (tokens, current, _, _) = tokens_fold(s);
    if current.len() > 0 {
        tokens.push(current)
    } else {
        tokens
    }
}

pub fn shell_like_tokens(value: &Vec<char>) -> (r: Vec<Vec<char>>)
    ensures
        views(r@) == shell_tokens(value@),
{
    let mut tokens: Vec<Vec<char>> = Vec::new();
    let mut current: Vec<char> = Vec::new();
    let mut quote: Option<char> = None;
    let mut escaped = false;
    let mut i: usize = 0;
    while i < value.len()
        invariant
            i <= value.len(),
            (views(tokens@), current@, quote, escaped) == tokens_fold(value@.take(i as int)),
        decreases value.len() - i,
    {
        proof {
            assert(value@.take(i + 1).drop_last() =~= value@.take(i as int));
        }
        let ch = value[i];
        if escaped {
            current.push(ch);
            escaped = false;
        } else if ch == '\\' && quote.is_some() {
            escaped = true;
        } else if let Some(active) = quote {
            if ch == active {
                quote = None;
            } else {
                current.push(ch);
            }
        } else if ch == '"' || ch == '\'' {
            quote = Some(ch);
        } else if is_whitespace(ch) || ch == ';' {
            if current.len() > 0 {
                let piece = current;
                tokens.push(piece);
                current = Vec::new();
                assert(views(tokens@) =~= tokens_fold(value@.take(i + 1)).0);
            }
        } else {
            current.push(ch);
        }
        i = i + 1;
    }
    assert(value@.take(value.len() as int) =~= value@);
    if current.len() > 0 {
        tokens.push(current);
        assert(views(tokens@) =~= shell_tokens(value@));
    }
    tokens
}

pub open spec fn fragment_step(st: TokenState, ch: char) -> TokenState {
    let (fragments, current, quote, escaped) = st;
    if escaped {
        (fragments, current.push(ch), quote, false)
    } else if ch == '\\' {
        (fragments, current, quote, quote is Some)
    } else if quote is Some {
        if ch == quote->0 {
            (fragments.push(current), Seq::empty(), None, false)
        } else {
            (fragments, current.push(ch), quote, false)
        }
    } else if ch == '"' || ch == '\'' {
        (fragments, current, Some(ch), false)
    } else {
        st
    }
}

pub open spec fn fragments_fold(s: Seq<char>) -> TokenState
    decreases s.len(),
{
    if s.len() == 0 {
        (Seq::empty(), Seq::empty(), None, false)
    } else {
        fragment_step(fragments_fold(s.drop_last()), s.last())
    }
}

/// The closed single- or double-quoted fragments of a command line, without
/// their quotes; a backslash inside quotes takes the next character
/// literally, and one outside quotes is dropped.
pub open spec fn quoted_parts(s: Seq<char>) -> Seq<Seq<char>> {
    fragments_fold(s).0
}

pub fn quoted_fragments(value: &Vec<char>) -> (r: Vec<Vec<char>>)
    ensures
        views(r@) == quoted_parts(value@),
{
    let mut fragments: Vec<Vec<char>> = Vec::new();
    let mut current: Vec<char> = Vec::new();
    let mut quote: Option<char> = None;
    let mut escaped = false;
    let mut i: usize = 0;
    while i < value.len()
        invariant
            i <= value.len(),
            (views(fragments@), current@, quote, escaped) == fragments_fold(value@.take(i as int)),
        decreases value.len() - i,
    {
        proof {
            assert(value@.take(i + 1).drop_last() =~= value@.take(i as int));
        }
        let ch = value[i];
        if escaped {
            current.push(ch);
            escaped = false;
        } else if ch == '\\' {
            if quote.is_some() {
                escaped = true;
            }
        } else if let Some(active) = quote {
            if ch == active {
                let piece = current;
                fragments.push(piece);
                current = Vec::new();
                quote = None;
                assert(views(fragments@) =~= fragments_fold(value@.take(i + 1)).0);
            } else {
                current.push(ch);
            }
        } else if ch == '"' || ch == '\'' {
            quote = Some(ch);
        }
        i = i + 1;
    }
    assert(value@.take(value.len() as int) =~= value@);
    fragments
}

/// `list` holds a text equal to `x`.
pub fn list_contains(list: &Vec<Vec<char>>, x: &Vec<char>) -> (b: bool)
    ensures
        b == views(list@).contains(x@),
{
    let mut i: usize = 0;
    while i < list.len()
        invariant
            i <= list.len(),
            forall|k: int| 0 <= k < i ==> list@[k]@ != x@,
        decreases list.len() - i,
    {
        if same_chars(&list[i], x) {
            assert(views(list@)[i as int] == x@);
            return true;
        }
        i = i + 1;
    }
    assert(!views(list@).contains(x@)) by {
        if views(list@).contains(x@) {
            let k = choose|k: int| 0 <= k < views(list@).len() && views(list@)[k] == x@;
            assert(list@[k]@ == x@);
        }
    }
    false
}

/// Two character vectors hold the same text.
pub fn same_chars(a: &Vec<char>, b: &Vec<char>) -> (r: bool)
    ensures
        r == (a@ == b@),
{
    if a.len() != b.len() {
        return false;
    }
    let mut i: usize = 0;
    while i < a.len()
        invariant
            i <= a.len() == b.len(),
            forall|k: int| 0 <= k < i ==> a@[k] == b@[k],
        decreases a.len() - i,
    {
        if a[i] != b[i] {
            return false;
        }
        i = i + 1;
    }
    assert(a@ =~= b@);
    true
}

/// A quoted query whose whitespace-separated parts, two or more, are each a
/// query term once normalized.
pub open spec fn splits_into_terms(value: Seq<char>) -> bool {
    let parts = crate::chars::split_words(value);
    parts.len() >= 2 && forall|i: int| 0 <= i < parts.len() ==> query_term(query_term_text(#[trigger] parts[i]))
}

pub fn should_split_space_separated_query(value: &Vec<char>) -> (b: bool)
    ensures
        b == splits_into_terms(value@),
{
    let parts = crate::chars::split_whitespace(value);
    if parts.len() < 2 {
        return false;
    }
    let mut i: usize = 0;
    while i < parts.len()
        invariant
            i <= parts.len(),
            views(parts@) == crate::chars::split_words(value@),
            forall|k: int| 0 <= k < i ==> query_term(query_term_text(#[trigger] views(parts@)[k])),
        decreases parts.len() - i,
    {
        let term = normalize_query_term(&parts[i]);
        if !is_query_term(&term) {
            assert(!query_term(query_term_text(views(parts@)[i as int])));
            return false;
        }
        i = i + 1;
    }
    true
}

/// The candidate terms of one quoted query: its `|`-separated alternatives,
/// its whitespace-separated words when they are all terms, or the whole.
pub open spec fn query_candidates(quoted: Seq<char>) -> Seq<Seq<char>> {
    if quoted.contains('|') {
        crate::chars::split_on(quoted, '|')
    } else if splits_into_terms(quoted) {
        crate::chars::split_words(quoted)
    } else {
        seq![quoted]
    }
}

/// Adds the normalized candidates that are terms and not yet listed.
pub open spec fn add_terms(terms: Seq<Seq<char>>, candidates: Seq<Seq<char>>) -> Seq<Seq<char>>
    decreases candidates.len(),
{
    if candidates.len() == 0 {
        terms
    } else {
        let t = add_terms(terms, candidates.drop_last());
        let term = query_term_text(candidates.last());
        if query_term(term) && !t.contains(term) {
            t.push(term)
        } else {
            t
        }
    }
}

pub open spec fn terms_of_fragments(fragments: Seq<Seq<char>>) -> Seq<Seq<char>>
    decreases fragments.len(),
{
    if fragments.len() == 0 {
        Seq::empty()
    } else {
        add_terms(terms_of_fragments(fragments.drop_last()), query_candidates(fragments.last()))
    }
}

/// The query terms of a ripgrep or `Select-String` command line, in order of
/// first appearance; none for other command lines.
pub open spec fn query_terms(command_line: Seq<char>) -> Seq<Seq<char>> {
    let lower = ascii_lower(command_line);
    if !(contains(lower, "rg "@) || contains(lower, "ripgrep"@) || contains(lower, "select-string"@)) {
        Seq::empty()
    } else {
        terms_of_fragments(quoted_parts(command_line))
    }
}

fn query_candidates_of(quoted: &Vec<char>) -> (r: Vec<Vec<char>>)
    ensures
        views(r@) == query_candidates(quoted@),
{
    if has_char(quoted, '|') {
        crate::chars::split_char(quoted, '|')
    } else if should_split_space_separated_query(quoted) {
        crate::chars::split_whitespace(quoted)
    } else {
        let mut r: Vec<Vec<char>> = Vec::new();
        r.push(slice_vec(quoted, 0, quoted.len()));
        assert(quoted@.subrange(0, quoted@.len() as int) =~= quoted@);
        assert(views(r@) =~= seq![quoted@]);
        r
    }
}

pub fn extract_query_terms(command_line: &Vec<char>) -> (r: Vec<Vec<char>>)
    ensures
        views(r@) == query_terms(command_line@),
{
    let lower = to_ascii_lowercase(command_line);
    let mut terms: Vec<Vec<char>> = Vec::new();
    if !(contains_str(&lower, "rg ") || contains_str(&lower, "ripgrep") || contains_str(
        &lower,
        "select-string",
    )) {
        assert(views(terms@) =~= Seq::<Seq<char>>::empty());
        return terms;
    }
    let fragments = quoted_fragments(command_line);
    let mut f: usize = 0;
    assert(views(terms@) =~= terms_of_fragments(views(fragments@).take(0)));
    while f < fragments.len()
        invariant
            f <= fragments.len(),
            views(fragments@) == quoted_parts(command_line@),
            views(terms@) == terms_of_fragments(views(fragments@).take(f as int)),
        decreases fragments.len() - f,
    {
        let candidates = query_candidates_of(&fragments[f]);
        let ghost before = views(terms@);
        let mut c: usize = 0;
        while c < candidates.len()
            invariant
                c <= candidates.len(),
                views(terms@) == add_terms(before, views(candidates@).take(c as int)),
            decreases candidates.len() - c,
        {
            proof {
                assert(views(candidates@).take(c + 1).drop_last() =~= views(candidates@).take(
                    c as int,
                ));
            }
            let term = normalize_query_term(&candidates[c]);
            if is_query_term(&term) && !list_contains(&terms, &term) {
                terms.push(term);
                assert(views(terms@) =~= add_terms(before, views(candidates@).take(c + 1)));
            }
            c = c + 1;
        }
        proof {
            assert(views(candidates@).take(candidates.len() as int) =~= views(candidates@));
            assert(views(fragments@).take(f + 1).drop_last() =~= views(fragments@).take(f as int));
        }
        f = f + 1;
    }
    assert(views(fragments@).take(fragments.len() as int) =~= views(fragments@));
    terms
}

/// The first of the `command`, `cmd` and `command_line` members present.
pub open spec fn first_member(d: JsonData) -> Option<JsonData> {
    if member(d, "command"@) is Some {
        member(d, "command"@)
    } else if member(d, "cmd"@) is Some {
        member(d, "cmd"@)
    } else {
        member(d, "command_line"@)
    }
}

/// The command text inside a JSON candidate: a JSON string is unwrapped
/// (and parsed again, up to three levels deep), and an object gives its
/// first command member when that member is a string.
pub open spec fn candidate_text(candidate: Seq<char>, depth: nat) -> Option<Seq<char>>
    decreases 4 - depth,
{
    if depth > 3 {
        None
    } else {
        match parsed_json(candidate) {
            Some(JsonData::Str(inner)) => {
                let t = trim_ws(inner);
                match candidate_text(t, depth + 1) {
                    Some(x) => Some(x),
                    None => Some(t),
                }
            },
            Some(JsonData::Object(members)) => {
                match as_text(first_member(JsonData::Object(members))) {
                    Some(text) => Some(trim_ws(text)),
                    None => None,
                }
            },
            _ => None,
        }
    }
}

/// The shell command carried by a command line that is JSON (possibly with
/// escaped quotes), if any.
pub open spec fn shell_command_text(command_line: Seq<char>) -> Option<Seq<char>> {
    let t = trim_ws(command_line);
    match candidate_text(t, 0) {
        Some(x) => Some(x),
        None => if contains(t, "\\\""@) {
            candidate_text(replace_str(t, "\\\""@, "\""@), 0)
        } else {
            None
        },
    }
}

fn parse_candidate(candidate: &Vec<char>, depth: usize) -> (r: Option<Vec<char>>)
    requires
        depth <= 4,
    ensures
        match r {
            Some(x) => candidate_text(candidate@, depth as nat) == Some(x@),
            None => candidate_text(candidate@, depth as nat) is None,
        },
    decreases 4 - depth,
{
    if depth > 3 {
        return None;
    }
    let text = string_of(candidate);
    let parsed = parse_json(text.as_str());
    match &parsed {
        Some(JsonValue::Str(inner)) => {
            let iv = chars_of(inner.as_str());
            let t = trim(&iv);
            match parse_candidate(&t, depth + 1) {
                Some(x) => Some(x),
                None => Some(t),
            }
        },
        Some(v) => {
            match v {
                JsonValue::Object(_) => {},
                _ => {
                    return None;
                },
            }
            let command = json_get(v, "command");
            let chosen = if command.is_some() {
                command
            } else {
                let cmd = json_get(v, "cmd");
                if cmd.is_some() {
                    cmd
                } else {
                    json_get(v, "command_line")
                }
            };
            match chosen {
                Some(m) => match json_as_str(m) {
                    Some(text) => {
                        let tv = chars_of(text);
                        Some(trim(&tv))
                    },
                    None => None,
                },
                None => None,
            }
        },
        None => None,
    }
}

pub fn shell_command_text_for_read_targets(command_line: &Vec<char>) -> (r: Option<Vec<char>>)
    ensures
        match r {
            Some(x) => shell_command_text(command_line@) == Some(x@),
            None => shell_command_text(command_line@) is None,
        },
{
    let t = trim(command_line);
    match parse_candidate(&t, 0) {
        Some(x) => Some(x),
        None => {
            if contains_str(&t, "\\\"") {
                let unescaped = replace_str_exec(&t, "\\\"", "\"");
                parse_candidate(&unescaped, 0)
            } else {
                None
            }
        },
    }
}

/// A command word that reads a file: `Get-Content`, `gc`, `cat` or `type`,
/// in any ASCII case.
pub open spec fn is_read_command(token: Seq<char>) -> bool {
    let l = ascii_lower(token);
    l == "get-content"@ || l == "gc"@ || l == "cat"@ || l == "type"@
}

/// Index of the first token at or after `next` that is not a `-` flag.
pub open spec fn skip_flags(tokens: Seq<Seq<char>>, next: nat) -> nat
    decreases tokens.len() - next,
{
    if next < tokens.len() && starts_with(tokens[next as int], "-"@) {
        skip_flags(tokens, next + 1)
    } else {
        next
    }
}

pub proof fn lemma_skip_flags(tokens: Seq<Seq<char>>, next: nat)
    ensures
        next <= skip_flags(tokens, next),
        next <= tokens.len() ==> skip_flags(tokens, next) <= tokens.len(),
    decreases tokens.len() - next,
{
    if next < tokens.len() && starts_with(tokens[next as int], "-"@) {
        lemma_skip_flags(tokens, next + 1);
    }
}

/// Scans the tokens from `index`: after each read command, the first
/// non-flag token names a read target, kept once in order of appearance.
pub open spec fn read_targets_scan(
    tokens: Seq<Seq<char>>,
    index: nat,
    acc: Seq<Seq<char>>,
) -> Seq<Seq<char>>
    decreases tokens.len() + 1 - index,
{
    if index >= tokens.len() {
        acc
    } else if is_read_command(tokens[index as int]) && index + 1 < tokens.len() {
        let next = skip_flags(tokens, index + 1);
        let acc2 = if next < tokens.len() {
            match read_target(tokens[next as int]) {
                Some(p) => if acc.contains(p) {
                    acc
                } else {
                    acc.push(p)
                },
                None => acc,
            }
        } else {
            acc
        };
        proof {
            lemma_skip_flags(tokens, index + 1);
        }
        read_targets_scan(tokens, next + 1, acc2)
    } else {
        read_targets_scan(tokens, index + 1, acc)
    }
}

/// The files that a command line reads with `Get-Content`, `gc`, `cat` or
/// `type`, each once, in order.
pub open spec fn read_targets(command_line: Seq<char>) -> Seq<Seq<char>> {
    let text = match shell_command_text(command_line) {
        Some(t) => t,
        None => trim_ws(command_line),
    };
    read_targets_scan(shell_tokens(text), 0, Seq::empty())
}

fn is_read_command_exec(token: &Vec<char>) -> (b: bool)
    ensures
        b == is_read_command(token@),
{
    let l = to_ascii_lowercase(token);
    eq_str(&l, "get-content") || eq_str(&l, "gc") || eq_str(&l, "cat") || eq_str(&l, "type")
}

pub fn extract_read_targets(command_line: &Vec<char>) -> (r: Vec<Vec<char>>)
    ensures
        views(r@) == read_targets(command_line@),
{
    let text = match shell_command_text_for_read_targets(command_line) {
        Some(t) => t,
        None => trim(command_line),
    };
    let tokens = shell_like_tokens(&text);
    let ghost tv = views(tokens@);
    let mut targets: Vec<Vec<char>> = Vec::new();
    let mut index: usize = 0;
    assert(views(targets@) =~= Seq::<Seq<char>>::empty());
    while index < tokens.len()
        invariant
            tv == views(tokens@),
            tv == shell_tokens(text@),
            read_targets(command_line@) == read_targets_scan(tv, 0, Seq::empty()),
            read_targets_scan(tv, index as nat, views(targets@)) == read_targets_scan(
                tv,
                0,
                Seq::empty(),
            ),
        decreases tokens.len() - index,
    {
        if is_read_command_exec(&tokens[index]) && index + 1 < tokens.len() {
            let mut next = index + 1;
            proof {
                lemma_skip_flags(tv, (index + 1) as nat);
            }
            while next < tokens.len() && starts_with_str(&tokens[next], "-")
                invariant
                    index + 1 <= next <= tokens.len(),
                    tv == views(tokens@),
                    skip_flags(tv, next as nat) == skip_flags(tv, (index + 1) as nat),
                decreases tokens.len() - next,
            {
                next = next + 1;
            }
            let ghost before = views(targets@);
            if next < tokens.len() {
                match normalize_read_target(&tokens[next]) {
                    Some(path) => {
                        if !list_contains(&targets, &path) {
                            targets.push(path);
                            assert(views(targets@) =~= before.push(path@));
                        }
                    },
                    None => {},
                }
            }
            if next >= tokens.len() {
                assert(skip_flags(tv, next as nat) == next as nat);
                assert(skip_flags(tv, (index + 1) as nat) == next as nat);
                assert(views(targets@) == before);
                assert(read_targets_scan(tv, index as nat, before) == read_targets_scan(
                    tv,
                    (next + 1) as nat,
                    before,
                ));
                assert(read_targets_scan(tv, (next + 1) as nat, views(targets@)) == views(
                    targets@,
                ));
                return targets;
            }
            index = next + 1;
        } else {
            index = index + 1;
        }
    }
    targets
}

/// The token budget for a command's output: three times the budget when the
/// command reads exactly one file.
pub open spec fn effective_max_tokens(max_tokens: nat, command_line: Option<Seq<char>>) -> nat {
    match command_line {
        None => max_tokens,
        Some(cl) => if read_targets(cl).len() == 1 {
            if max_tokens * 3 <= usize::MAX {
                max_tokens * 3
            } else {
                usize::MAX as nat
            }
        } else {
            max_tokens
        },
    }
}

pub fn command_run_effective_max_tokens(max_tokens: usize, command_line: Option<&Vec<char>>) -> (n:
    usize)
    ensures
        n == effective_max_tokens(
            max_tokens as nat,
            match command_line {
                Some(c) => Some(c@),
                None => None,
            },
        ),
{
    match command_line {
        None => max_tokens,
        Some(cl) => {
            if extract_read_targets(cl).len() == 1 {
                if max_tokens <= usize::MAX / 3 {
                    max_tokens * 3
                } else {
                    usize::MAX
                }
            } else {
                max_tokens
            }
        },
    }
}

/// Number of leading characters of `s[i..]` whose bytes fit `budget`.
pub open spec fn floor_from(s: Seq<char>, i: nat, budget: nat) -> nat
    decreases s.len() - i,
{
    if i >= s.len() || char_width(s[i as int]) > budget {
        0
    } else {
        1 + floor_from(s, i + 1, (budget - char_width(s[i as int])) as nat)
    }
}

/// Number of leading characters of `s[i..]` needed to reach `target` bytes
/// (all of them when the text is shorter).
pub open spec fn ceil_from(s: Seq<char>, i: nat, target: int) -> nat
    decreases s.len() - i,
{
    if target <= 0 || i >= s.len() {
        0
    } else {
        1 + ceil_from(s, i + 1, target - char_width(s[i as int]))
    }
}

pub proof fn lemma_floor_from(s: Seq<char>, i: nat, budget: nat)
    requires
        i <= s.len(),
    ensures
        i + floor_from(s, i, budget) <= s.len(),
        utf8_len(s.subrange(i as int, (i + floor_from(s, i, budget)) as int)) <= budget,
    decreases s.len() - i,
{
    let k = floor_from(s, i, budget);
    if i >= s.len() || char_width(s[i as int]) > budget {
        assert(s.subrange(i as int, i as int) =~= Seq::<char>::empty());
    } else {
        let w = char_width(s[i as int]);
        lemma_floor_from(s, i + 1, (budget - w) as nat);
        let sub = s.subrange(i as int, (i + k) as int);
        assert(sub.drop_first() =~= s.subrange((i + 1) as int, (i + k) as int));
    }
}

pub proof fn lemma_ceil_from(s: Seq<char>, i: nat, target: int)
    requires
        i <= s.len(),
        target <= utf8_len(s.subrange(i as int, s.len() as int)),
    ensures
        i + ceil_from(s, i, target) <= s.len(),
        utf8_len(s.subrange(i as int, (i + ceil_from(s, i, target)) as int)) >= target,
    decreases s.len() - i,
{
    let k = ceil_from(s, i, target);
    if target <= 0 || i >= s.len() {
        assert(s.subrange(i as int, i as int) =~= Seq::<char>::empty());
    } else {
        let w = char_width(s[i as int]);
        let rest = s.subrange(i as int, s.len() as int);
        assert(rest.drop_first() =~= s.subrange((i + 1) as int, s.len() as int));
        lemma_ceil_from(s, i + 1, target - w);
        let sub = s.subrange(i as int, (i + k) as int);
        assert(sub.drop_first() =~= s.subrange((i + 1) as int, (i + k) as int));
    }
}

/// Prefix byte lengths grow strictly with the prefix.
pub proof fn lemma_prefix_bytes_strict(s: Seq<char>, a: int, b: int)
    requires
        0 <= a < b <= s.len(),
    ensures
        utf8_len(s.take(a)) < utf8_len(s.take(b)),
{
    lemma_utf8_len_subrange(s.take(b), a, b);
    assert(s.take(b).subrange(0, a) =~= s.take(a));
    crate::text::lemma_utf8_len_bounds(s.take(b).subrange(a, b));
    assert(s.take(b).subrange(b, b) =~= Seq::<char>::empty());
}

/// (characters, bytes) of the longest prefix of `v` whose bytes fit `budget`.
fn floor_prefix(v: &Vec<char>, budget: usize) -> (r: (usize, usize))
    requires
        crate::text::utf8_len(v@) <= usize::MAX,
    ensures
        r.0 == floor_from(v@, 0, budget as nat),
        r.1 == utf8_len(v@.take(r.0 as int)),
        r.0 <= v.len(),
{
    let mut i: usize = 0;
    let mut acc: usize = 0;
    proof {
        assert(v@.take(0) =~= Seq::<char>::empty());
    }
    while i < v.len() && width_of(v[i]) <= budget - acc
        invariant
            i <= v.len(),
            acc <= budget,
            acc == utf8_len(v@.take(i as int)),
            utf8_len(v@) <= usize::MAX,
            floor_from(v@, 0, budget as nat) == i + floor_from(v@, i as nat, (budget - acc) as nat),
        decreases v.len() - i,
    {
        proof {
            assert(v@.take(i + 1) =~= v@.take(i as int).push(v@[i as int]));
            lemma_utf8_len_push(v@.take(i as int), v@[i as int]);
        }
        acc = acc + width_of(v[i]);
        i = i + 1;
    }
    (i, acc)
}

/// (characters, bytes) of the shortest prefix of `v` with at least `target` bytes.
fn ceil_prefix(v: &Vec<char>, target: usize) -> (r: (usize, usize))
    requires
        utf8_len(v@) <= usize::MAX,
    ensures
        r.0 == ceil_from(v@, 0, target as int),
        r.1 == utf8_len(v@.take(r.0 as int)),
        r.0 <= v.len(),
{
    let mut i: usize = 0;
    let mut acc: usize = 0;
    proof {
        assert(v@.take(0) =~= Seq::<char>::empty());
    }
    while i < v.len() && acc < target
        invariant
            i <= v.len(),
            acc == utf8_len(v@.take(i as int)),
            utf8_len(v@) <= usize::MAX,
            ceil_from(v@, 0, target as int) == i + ceil_from(v@, i as nat, target - acc),
        decreases v.len() - i,
    {
        proof {
            assert(v@.take(i + 1) =~= v@.take(i as int).push(v@[i as int]));
            lemma_utf8_len_push(v@.take(i as int), v@[i as int]);
            lemma_utf8_len_subrange(v@, 0, i + 1);
            assert(v@.subrange(0, i + 1) =~= v@.take(i + 1));
        }
        acc = acc + width_of(v[i]);
        i = i + 1;
    }
    (i, acc)
}

/// Largest character boundary of `text` at or before byte `target`.
pub open spec fn floor_boundary(text: Seq<char>, target: nat) -> nat {
    if target >= utf8_len(text) {
        utf8_len(text)
    } else {
        utf8_len(text.take(floor_from(text, 0, target) as int))
    }
}

/// Smallest character boundary of `text` at or after byte `target`.
pub open spec fn ceil_boundary(text: Seq<char>, target: nat) -> nat {
    if target >= utf8_len(text) {
        utf8_len(text)
    } else {
        utf8_len(text.take(ceil_from(text, 0, target as int) as int))
    }
}

pub fn byte_floor_char_boundary(text: &str, target: usize) -> (r: usize)
    ensures
        r == floor_boundary(text@, target as nat),
{
    let n = byte_len(text);
    if target >= n {
        return n;
    }
    let v = chars_of(text);
    let (_, bytes) = floor_prefix(&v, target);
    bytes
}

pub fn byte_ceil_char_boundary(text: &str, target: usize) -> (r: usize)
    ensures
        r == ceil_boundary(text@, target as nat),
{
    let n = byte_len(text);
    if target >= n {
        return n;
    }
    let v = chars_of(text);
    let (_, bytes) = ceil_prefix(&v, target);
    bytes
}

pub fn approx_token_count(byte_count: usize) -> (n: usize)
    ensures
        n == approx_tokens(byte_count as nat),
{
    crate::context::token_budget::approx_token_count(byte_count)
}

/// Byte-bounded middle truncation: the head keeps whole characters within
/// half the visible budget (the budget less 32 bytes for the marker, and at
/// least 2), the tail the rest, and the marker reports the estimated tokens
/// left out.
pub open spec fn byte_middle_text(content: Seq<char>, max_tokens: nat) -> Seq<char> {
    let n = utf8_len(content);
    let max_chars = token_chars(max_tokens);
    if n <= max_chars {
        content
    } else if max_chars == 0 {
        "\u{2026}"@ + decimal(approx_tokens(n)) + " tokens truncated\u{2026}"@
    } else {
        let visible: nat = if max_chars >= 34 {
            (max_chars - 32) as nat
        } else {
            2
        };
        let head_budget = visible / 2;
        let tail_budget = (visible - head_budget) as nat;
        let hc = floor_from(content, 0, head_budget);
        let tc = ceil_from(content, 0, n - tail_budget);
        content.take(hc as int) + "\u{2026}"@ + decimal(
            approx_tokens(utf8_len(content.subrange(hc as int, tc as int))),
        ) + " tokens truncated\u{2026}"@ + content.skip(tc as int)
    }
}

pub fn truncate_middle_with_token_budget(content: &str, max_tokens: usize) -> (r: String)
    ensures
        r@ == byte_middle_text(content@, max_tokens as nat),
{
    let max_chars = saturating_token_chars(max_tokens);
    let n = byte_len(content);
    if n <= max_chars {
        return content.to_owned();
    }
    let mut out: Vec<char> = Vec::new();
    if max_chars == 0 {
        push_str(&mut out, "\u{2026}");
        push_decimal(&mut out, approx_token_count(n) as u64);
        push_str(&mut out, " tokens truncated\u{2026}");
        return string_of(&out);
    }
    let visible: usize = if max_chars >= 34 {
        max_chars - 32
    } else {
        2
    };
    let head_budget = visible / 2;
    let tail_budget = visible - head_budget;
    let v = chars_of(content);
    let (hc, hb) = floor_prefix(&v, head_budget);
    let (tc, tb) = ceil_prefix(&v, n - tail_budget);
    proof {
        lemma_floor_from(v@, 0, head_budget as nat);
        assert(v@.subrange(0, v@.len() as int) =~= v@);
        lemma_ceil_from(v@, 0, n - tail_budget);
        assert(v@.subrange(0, hc as int) =~= v@.take(hc as int));
        assert(v@.subrange(0, tc as int) =~= v@.take(tc as int));
        if hc > tc {
            lemma_prefix_bytes_strict(v@, tc as int, hc as int);
        }
    }
    let removed = utf8_len_range(&v, hc, tc);
    push_range(&mut out, &v, 0, hc);
    push_str(&mut out, "\u{2026}");
    push_decimal(&mut out, approx_token_count(removed) as u64);
    push_str(&mut out, " tokens truncated\u{2026}");
    push_range(&mut out, &v, tc, v.len());
    string_of(&out)
}

/// The line count and middle truncation of a text over `max_tokens * 4`
/// bytes; a text within the budget is kept.
pub open spec fn formatted_text(content: Seq<char>, max_tokens: nat) -> Seq<char> {
    if utf8_len(content) <= max_tokens * 4 {
        content
    } else {
        "Total output lines: "@ + decimal(line_count(content)) + "\n\n"@ + byte_middle_text(
            content,
            max_tokens,
        )
    }
}

pub fn formatted_truncate_text(content: &str, max_tokens: usize) -> (r: String)
    requires
        max_tokens * APPROX_CHARS_PER_TOKEN <= usize::MAX,
    ensures
        r@ == formatted_text(content@, max_tokens as nat),
{
    if byte_len(content) <= max_tokens * APPROX_CHARS_PER_TOKEN {
        return content.to_owned();
    }
    let c = chars_of(content);
    let lines = count_lines(&c);
    let truncated = truncate_middle_with_token_budget(content, max_tokens);
    let mut out: Vec<char> = Vec::new();
    push_str(&mut out, "Total output lines: ");
    push_decimal(&mut out, lines as u64);
    push_str(&mut out, "\n\n");
    push_str(&mut out, truncated.as_str());
    string_of(&out)
}

fn formatted_chars(v: &Vec<char>, max_tokens: usize) -> (r: Vec<char>)
    requires
        max_tokens * 4 <= usize::MAX,
    ensures
        r@ == formatted_text(v@, max_tokens as nat),
{
    let s = string_of(v);
    let f = formatted_truncate_text(s.as_str(), max_tokens);
    chars_of(f.as_str())
}

/// `out` with a line feed added unless it already ends with one.
pub open spec fn with_newline(out: Seq<char>) -> Seq<char> {
    if ends_with(out, "\n"@) {
        out
    } else {
        out.push('\n')
    }
}

/// Each section, formatted for the budget, on lines of its own after `out`.
pub open spec fn append_sections(out: Seq<char>, sections: Seq<Seq<char>>, max_tokens: nat) -> Seq<
    char,
>
    decreases sections.len(),
{
    if sections.len() == 0 {
        out
    } else {
        with_newline(
            append_sections(out, sections.drop_last(), max_tokens) + formatted_text(
                sections.last(),
                max_tokens,
            ),
        )
    }
}

/// The grouped output: the preamble (when kept) and then every section, each
/// formatted for the budget and ending with a line feed.
pub open spec fn render_grouped(
    keep_preamble: bool,
    preamble: Seq<char>,
    sections: Seq<Seq<char>>,
    max_tokens: nat,
) -> Seq<char> {
    let start = if keep_preamble {
        with_newline(formatted_text(preamble, max_tokens))
    } else {
        Seq::empty()
    };
    append_sections(start, sections, max_tokens)
}

fn push_newline_if_missing(out: &mut Vec<char>)
    ensures
        final(out)@ == with_newline(old(out)@),
{
    if !ends_with_str(out, "\n") {
        out.push('\n');
    }
}

fn render_grouped_exec(
    keep_preamble: bool,
    preamble: &Vec<char>,
    sections: &Vec<Vec<char>>,
    max_tokens: usize,
) -> (r: Vec<char>)
    requires
        max_tokens * 4 <= usize::MAX,
    ensures
        r@ == render_grouped(keep_preamble, preamble@, views(sections@), max_tokens as nat),
{
    let mut out: Vec<char> = Vec::new();
    if keep_preamble {
        let f = formatted_chars(preamble, max_tokens);
        push_chars(&mut out, &f);
        push_newline_if_missing(&mut out);
    }
    let ghost start = out@;
    assert(start =~= if keep_preamble {
        with_newline(formatted_text(preamble@, max_tokens as nat))
    } else {
        Seq::empty()
    });
    let mut i: usize = 0;
    while i < sections.len()
        invariant
            i <= sections.len(),
            max_tokens * 4 <= usize::MAX,
            out@ == append_sections(start, views(sections@).take(i as int), max_tokens as nat),
        decreases sections.len() - i,
    {
        proof {
            assert(views(sections@).take(i + 1).drop_last() =~= views(sections@).take(i as int));
        }
        let f = formatted_chars(&sections[i], max_tokens);
        push_chars(&mut out, &f);
        push_newline_if_missing(&mut out);
        i = i + 1;
    }
    assert(views(sections@).take(sections.len() as int) =~= views(sections@));
    out
}

/// Splitting state of marker-delimited output: preamble, closed sections,
/// open section, bare-marker counter, and whether a bare marker was seen.
pub type MarkerState = (Seq<char>, Seq<Seq<char>>, Seq<char>, nat, bool);

pub open spec fn marker_step(st: MarkerState, chunk: Seq<char>, targets: Seq<Seq<char>>) -> MarkerState {
    let (pre, secs, cur, idx, saw) = st;
    if section_marker(chunk) {
        let saw2 = saw || trim_end_class(chunk, CharClass::LineEnd) == "---FILE---"@;
        let (c2, idx2) = rewritten_marker(chunk, targets, idx);
        if cur.len() == 0 {
            (pre, secs, c2, idx2, saw2)
        } else {
            (pre, secs.push(cur), c2, idx2, saw2)
        }
    } else if cur.len() == 0 {
        (pre + chunk, secs, cur, idx, saw)
    } else {
        (pre, secs, cur + chunk, idx, saw)
    }
}

pub open spec fn marker_fold(chunks: Seq<Seq<char>>, targets: Seq<Seq<char>>) -> MarkerState
    decreases chunks.len(),
{
    if chunks.len() == 0 {
        (Seq::empty(), Seq::empty(), Seq::empty(), 0, false)
    } else {
        marker_step(marker_fold(chunks.drop_last(), targets), chunks.last(), targets)
    }
}

/// Moves the file body that follows the last `Output:` line of the preamble
/// into a first `---FILE--- path` section.
pub open spec fn split_first_bare(pre: Seq<char>, secs: Seq<Seq<char>>, path: Seq<char>) -> (
    Seq<char>,
    Seq<Seq<char>>,
) {
    match crate::chars::rfind(pre, "Output:\n"@) {
        None => (pre, secs),
        Some(k) => {
            let start = k + "Output:\n"@.len();
            if start >= pre.len() {
                (pre, secs)
            } else {
                (
                    pre.take(start as int),
                    seq!["---FILE--- "@ + path + "\n"@ + pre.skip(start as int)] + secs,
                )
            }
        },
    }
}

pub fn split_first_bare_file_section(
    preamble: &mut Vec<char>,
    sections: &mut Vec<Vec<char>>,
    first_path: &Vec<char>,
)
    ensures
        (final(preamble)@, views(final(sections)@)) == split_first_bare(
            old(preamble)@,
            views(old(sections)@),
            first_path@,
        ),
{
    proof {
        reveal_strlit("Output:\n");
    }
    let found = crate::chars::rfind_str(preamble, "Output:\n");
    let output_marker = match found {
        None => {
            return;
        },
        Some(k) => k,
    };
    assert("Output:\n"@.len() == 8);
    let plen = preamble.len();
    assert(output_marker + 8 <= plen);
    let file_body_start = output_marker + 8;
    if file_body_start >= preamble.len() {
        return;
    }
    let header = slice_vec(preamble, 0, file_body_start);
    let first_body = slice_vec(preamble, file_body_start, preamble.len());
    let mut section: Vec<char> = Vec::new();
    push_str(&mut section, "---FILE--- ");
    push_chars(&mut section, first_path);
    push_str(&mut section, "\n");
    push_chars(&mut section, &first_body);
    *preamble = header;
    sections.insert(0, section);
    assert(views(sections@) =~= seq![views(sections@)[0]] + views(old(sections)@));
}

/// Output grouped by `---FILE---` and other `---LABEL---` markers, each file
/// or section truncated on its own, with bare `---FILE---` markers named after
/// the files the command line reads; nothing when there is no marker.
pub open spec fn marker_sections_text(
    content: Seq<char>,
    max_tokens: nat,
    command_line: Option<Seq<char>>,
) -> Option<Seq<char>> {
    let targets = match command_line {
        Some(cl) => read_targets(cl),
        None => Seq::empty(),
    };
    let (pre0, secs0, cur, _, saw) = marker_fold(
        crate::chars::split_lines_inclusive(content),
        targets,
    );
    let secs1 = if cur.len() > 0 {
        secs0.push(cur)
    } else {
        secs0
    };
    let (pre, secs) = if saw && targets.len() > 0 {
        split_first_bare(pre0, secs1, targets[0])
    } else {
        (pre0, secs1)
    };
    if secs.len() == 0 {
        None
    } else {
        Some(render_grouped(pre.len() > 0, pre, secs, max_tokens))
    }
}

pub fn truncate_marker_sections_for_command_run(
    content: &Vec<char>,
    max_tokens: usize,
    command_line: Option<&Vec<char>>,
) -> (r: Option<Vec<char>>)
    requires
        max_tokens * 4 <= usize::MAX,
    ensures
        match r {
            Some(x) => marker_sections_text(
                content@,
                max_tokens as nat,
                match command_line {
                    Some(c) => Some(c@),
                    None => None,
                },
            ) == Some(x@),
            None => marker_sections_text(
                content@,
                max_tokens as nat,
                match command_line {
                    Some(c) => Some(c@),
                    None => None,
                },
            ) is None,
        },
{
    let read_targets_v = match command_line {
        Some(cl) => extract_read_targets(cl),
        None => Vec::new(),
    };
    let ghost targets = views(read_targets_v@);
    assert(targets =~= match command_line {
        Some(cl) => read_targets(cl@),
        None => Seq::<Seq<char>>::empty(),
    });
    let chunks = crate::chars::split_inclusive_lines(content);
    let mut preamble: Vec<char> = Vec::new();
    let mut sections: Vec<Vec<char>> = Vec::new();
    let mut current: Vec<char> = Vec::new();
    let mut index: usize = 0;
    let mut saw_bare = false;
    let mut k: usize = 0;
    assert(views(sections@) =~= Seq::<Seq<char>>::empty());
    while k < chunks.len()
        invariant
            k <= chunks.len(),
            targets == views(read_targets_v@),
            (preamble@, views(sections@), current@, index as nat, saw_bare) == marker_fold(
                views(chunks@).take(k as int),
                targets,
            ),
        decreases chunks.len() - k,
    {
        proof {
            assert(views(chunks@).take(k + 1).drop_last() =~= views(chunks@).take(k as int));
        }
        let chunk = &chunks[k];
        let chunk_text = string_of(chunk);
        if is_command_run_section_marker(chunk_text.as_str()) {
            let t = trim_end_by(chunk, &CharClass::LineEnd);
            if eq_str(&t, "---FILE---") {
                saw_bare = true;
            }
            let rewritten = rewrite_bare_file_marker(chunk, &read_targets_v, &mut index);
            if current.len() == 0 {
                current = rewritten;
            } else {
                let closed = current;
                sections.push(closed);
                current = rewritten;
                assert(views(sections@) =~= marker_fold(views(chunks@).take(k + 1), targets).1);
            }
        } else if current.len() == 0 {
            push_chars(&mut preamble, chunk);
        } else {
            push_chars(&mut current, chunk);
        }
        k = k + 1;
    }
    assert(views(chunks@).take(chunks.len() as int) =~= views(chunks@));
    if current.len() > 0 {
        let ghost before = views(sections@);
        sections.push(current);
        assert(views(sections@) =~= before.push(current@));
    }
    if saw_bare && read_targets_v.len() > 0 {
        split_first_bare_file_section(&mut preamble, &mut sections, &read_targets_v[0]);
    }
    if sections.len() == 0 {
        return None;
    }
    Some(render_grouped_exec(preamble.len() > 0, &preamble, &sections, max_tokens))
}

/// Index of the first key that the lower-cased line contains.
pub open spec fn first_key_in(keys: Seq<Seq<char>>, lower_line: Seq<char>, i: nat) -> Option<nat>
    decreases keys.len() - i,
{
    if i >= keys.len() {
        None
    } else if contains(lower_line, keys[i as int]) {
        Some(i)
    } else {
        first_key_in(keys, lower_line, i + 1)
    }
}

pub proof fn lemma_first_key_in(keys: Seq<Seq<char>>, lower_line: Seq<char>, i: nat)
    ensures
        first_key_in(keys, lower_line, i) matches Some(k) ==> i <= k < keys.len(),
    decreases keys.len() - i,
{
    if i < keys.len() && !contains(lower_line, keys[i as int]) {
        lemma_first_key_in(keys, lower_line, i + 1);
    }
}

/// Lines go to the section of the first query term they mention (case
/// folded), others to the preamble.
pub open spec fn query_fold(lines: Seq<Seq<char>>, keys: Seq<Seq<char>>, init: Seq<Seq<char>>) -> (
    Seq<char>,
    Seq<Seq<char>>,
)
    decreases lines.len(),
{
    if lines.len() == 0 {
        (Seq::empty(), init)
    } else {
        let (pre, secs) = query_fold(lines.drop_last(), keys, init);
        let line = lines.last();
        match first_key_in(keys, ascii_lower(line), 0) {
            Some(i) => (pre, secs.update(i as int, secs[i as int] + line)),
            None => (pre + line, secs),
        }
    }
}

/// Output of a multi-term ripgrep or `Select-String` command grouped into one
/// `---QUERY--- term` section per term, each truncated on its own; nothing
/// when there are fewer than two terms or no section gets a line.
pub open spec fn query_sections_text(
    content: Seq<char>,
    max_tokens: nat,
    command_line: Option<Seq<char>>,
) -> Option<Seq<char>> {
    match command_line {
        None => None,
        Some(cl) => {
            let terms = query_terms(cl);
            if terms.len() < 2 {
                None
            } else {
                let keys = Seq::new(terms.len(), |i: int| ascii_lower(terms[i]));
                let init = Seq::new(terms.len(), |i: int| "---QUERY--- "@ + terms[i] + "\n"@);
                let (pre, secs) = query_fold(
                    crate::chars::split_lines_inclusive(content),
                    keys,
                    init,
                );
                if forall|i: int| 0 <= i < secs.len() ==> line_count(#[trigger] secs[i]) <= 1 {
                    None
                } else {
                    Some(render_grouped(trim_ws(pre).len() > 0, pre, secs, max_tokens))
                }
            }
        },
    }
}

fn first_key_index(keys: &Vec<Vec<char>>, lower_line: &Vec<char>) -> (r: Option<usize>)
    ensures
        match first_key_in(views(keys@), lower_line@, 0) {
            Some(k) => r == Some(k as usize) && k < keys.len(),
            None => r is None,
        },
{
    let mut i: usize = 0;
    while i < keys.len()
        invariant
            i <= keys.len(),
            first_key_in(views(keys@), lower_line@, i as nat) == first_key_in(
                views(keys@),
                lower_line@,
                0,
            ),
        decreases keys.len() - i,
    {
        if contains_exec(lower_line, &keys[i]) {
            proof {
                lemma_first_key_in(views(keys@), lower_line@, 0);
            }
            return Some(i);
        }
        i = i + 1;
    }
    None
}

fn all_single_line(sections: &Vec<Vec<char>>) -> (b: bool)
    ensures
        b == forall|i: int| 0 <= i < views(sections@).len() ==> line_count(#[trigger] views(sections@)[i]) <= 1,
{
    let mut i: usize = 0;
    while i < sections.len()
        invariant
            i <= sections.len(),
            forall|k: int| 0 <= k < i ==> line_count(#[trigger] views(sections@)[k]) <= 1,
        decreases sections.len() - i,
    {
        if count_lines(&sections[i]) > 1 {
            assert(line_count(views(sections@)[i as int]) > 1);
            return false;
        }
        i = i + 1;
    }
    true
}

#[verifier::spinoff_prover]
#[verifier::rlimit(40)]
pub fn truncate_query_sections_for_command_run(
    content: &Vec<char>,
    max_tokens: usize,
    command_line: Option<&Vec<char>>,
) -> (r: Option<Vec<char>>)
    requires
        max_tokens * 4 <= usize::MAX,
    ensures
        match r {
            Some(x) => query_sections_text(
                content@,
                max_tokens as nat,
                match command_line {
                    Some(c) => Some(c@),
                    None => None,
                },
            ) == Some(x@),
            None => query_sections_text(
                content@,
                max_tokens as nat,
                match command_line {
                    Some(c) => Some(c@),
                    None => None,
                },
            ) is None,
        },
{
    let cl = match command_line {
        None => {
            return None;
        },
        Some(c) => c,
    };
    let terms = extract_query_terms(cl);
    if terms.len() < 2 {
        return None;
    }
    let ghost tv = views(terms@);
    let mut keys: Vec<Vec<char>> = Vec::new();
    let mut sections: Vec<Vec<char>> = Vec::new();
    let mut t: usize = 0;
    while t < terms.len()
        invariant
            t <= terms.len(),
            tv == views(terms@),
            views(keys@) == Seq::new(t as nat, |i: int| ascii_lower(tv[i])),
            views(sections@) == Seq::new(t as nat, |i: int| "---QUERY--- "@ + tv[i] + "\n"@),
        decreases terms.len() - t,
    {
        let ghost old_keys = views(keys@);
        let ghost old_sections = views(sections@);
        keys.push(to_ascii_lowercase(&terms[t]));
        let mut section: Vec<char> = Vec::new();
        push_str(&mut section, "---QUERY--- ");
        push_chars(&mut section, &terms[t]);
        push_str(&mut section, "\n");
        sections.push(section);
        assert(views(keys@) =~= old_keys.push(ascii_lower(tv[t as int])));
        assert(views(sections@) =~= old_sections.push("---QUERY--- "@ + tv[t as int] + "\n"@));
        t = t + 1;
        assert(views(keys@) =~= Seq::new(t as nat, |i: int| ascii_lower(tv[i])));
        assert(views(sections@) =~= Seq::new(t as nat, |i: int| "---QUERY--- "@ + tv[i] + "\n"@));
    }
    let ghost init = views(sections@);
    let lines = crate::chars::split_inclusive_lines(content);
    let mut preamble: Vec<char> = Vec::new();
    let mut k: usize = 0;
    while k < lines.len()
        invariant
            k <= lines.len(),
            keys.len() == sections.len(),
            (preamble@, views(sections@)) == query_fold(views(lines@).take(k as int), views(keys@), init),
        decreases lines.len() - k,
    {
        proof {
            assert(views(lines@).take(k + 1).drop_last() =~= views(lines@).take(k as int));
        }
        let lower = to_ascii_lowercase(&lines[k]);
        match first_key_index(&keys, &lower) {
            Some(i) => {
                let ghost before = views(sections@);
                let mut grown = slice_vec(&sections[i], 0, sections[i].len());
                assert(grown@ =~= before[i as int]);
                push_chars(&mut grown, &lines[k]);
                sections.set(i, grown);
                assert(views(sections@) =~= before.update(i as int, before[i as int] + views(lines@)[k as int]));
            },
            None => {
                push_chars(&mut preamble, &lines[k]);
            },
        }
        k = k + 1;
    }
    assert(views(lines@).take(lines.len() as int) =~= views(lines@));
    proof {
        assert(tv == query_terms(cl@));
        assert(views(keys@) =~= Seq::new(tv.len(), |i: int| ascii_lower(tv[i])));
        assert(init =~= Seq::new(tv.len(), |i: int| "---QUERY--- "@ + tv[i] + "\n"@));
        assert((preamble@, views(sections@)) == query_fold(
            crate::chars::split_lines_inclusive(content@),
            Seq::new(tv.len(), |i: int| ascii_lower(tv[i])),
            Seq::new(tv.len(), |i: int| "---QUERY--- "@ + tv[i] + "\n"@),
        ));
    }
    if all_single_line(&sections) {
        return None;
    }
    let tp = trim(&preamble);
    Some(render_grouped_exec(tp.len() > 0, &preamble, &sections, max_tokens))
}

/// Index of `path` among the section paths.
pub open spec fn path_index(paths: Seq<Seq<char>>, path: Seq<char>, i: nat) -> Option<nat>
    decreases paths.len() - i,
{
    if i >= paths.len() {
        None
    } else if paths[i as int] == path {
        Some(i)
    } else {
        path_index(paths, path, i + 1)
    }
}

/// Ripgrep match lines grouped per file, in order of first match; other
/// lines go to the preamble.
pub open spec fn ripgrep_fold(lines: Seq<Seq<char>>) -> (Seq<char>, Seq<Seq<char>>, Seq<Seq<char>>)
    decreases lines.len(),
{
    if lines.len() == 0 {
        (Seq::empty(), Seq::empty(), Seq::empty())
    } else {
        let (pre, paths, secs) = ripgrep_fold(lines.drop_last());
        let line = lines.last();
        match ripgrep_path(line) {
            Some(p) => match path_index(paths, p, 0) {
                Some(i) => (pre, paths, secs.update(i as int, secs[i as int] + line)),
                None => (pre, paths.push(p), secs.push("---MATCHES--- "@ + p + "\n"@ + line)),
            },
            None => (pre + line, paths, secs),
        }
    }
}

/// Ripgrep output over two or more files grouped into one `---MATCHES---`
/// section per file, each truncated on its own; nothing otherwise.
pub open spec fn ripgrep_sections_text(content: Seq<char>, max_tokens: nat) -> Option<Seq<char>> {
    let (pre, _, secs) = ripgrep_fold(crate::chars::split_lines_inclusive(content));
    if secs.len() < 2 {
        None
    } else {
        Some(render_grouped(trim_ws(pre).len() > 0, pre, secs, max_tokens))
    }
}

pub proof fn lemma_path_index(paths: Seq<Seq<char>>, path: Seq<char>, i: nat)
    ensures
        path_index(paths, path, i) matches Some(k) ==> i <= k < paths.len(),
    decreases paths.len() - i,
{
    if i < paths.len() && paths[i as int] != path {
        lemma_path_index(paths, path, i + 1);
    }
}

fn path_index_exec(paths: &Vec<Vec<char>>, path: &Vec<char>) -> (r: Option<usize>)
    ensures
        match path_index(views(paths@), path@, 0) {
            Some(k) => r == Some(k as usize) && k < paths.len(),
            None => r is None,
        },
{
    let mut i: usize = 0;
    while i < paths.len()
        invariant
            i <= paths.len(),
            path_index(views(paths@), path@, i as nat) == path_index(views(paths@), path@, 0),
        decreases paths.len() - i,
    {
        if same_chars(&paths[i], path) {
            proof {
                lemma_path_index(views(paths@), path@, 0);
            }
            return Some(i);
        }
        i = i + 1;
    }
    None
}

pub fn truncate_ripgrep_file_sections_for_command_run(content: &Vec<char>, max_tokens: usize) -> (r:
    Option<Vec<char>>)
    requires
        max_tokens * 4 <= usize::MAX,
    ensures
        match r {
            Some(x) => ripgrep_sections_text(content@, max_tokens as nat) == Some(x@),
            None => ripgrep_sections_text(content@, max_tokens as nat) is None,
        },
{
    let lines = crate::chars::split_inclusive_lines(content);
    let mut preamble: Vec<char> = Vec::new();
    let mut paths: Vec<Vec<char>> = Vec::new();
    let mut sections: Vec<Vec<char>> = Vec::new();
    let mut k: usize = 0;
    assert(views(paths@) =~= Seq::<Seq<char>>::empty());
    assert(views(sections@) =~= Seq::<Seq<char>>::empty());
    while k < lines.len()
        invariant
            k <= lines.len(),
            paths.len() == sections.len(),
            (preamble@, views(paths@), views(sections@)) == ripgrep_fold(
                views(lines@).take(k as int),
            ),
        decreases lines.len() - k,
    {
        proof {
            assert(views(lines@).take(k + 1).drop_last() =~= views(lines@).take(k as int));
        }
        match ripgrep_result_path(&lines[k]) {
            Some(path) => {
                match path_index_exec(&paths, &path) {
                    Some(i) => {
                        let ghost before = views(sections@);
                        let mut grown = slice_vec(&sections[i], 0, sections[i].len());
                        assert(grown@ =~= before[i as int]);
                        push_chars(&mut grown, &lines[k]);
                        sections.set(i, grown);
                        assert(views(sections@) =~= before.update(
                            i as int,
                            before[i as int] + views(lines@)[k as int],
                        ));
                    },
                    None => {
                        let ghost before_p = views(paths@);
                        let ghost before_s = views(sections@);
                        let mut section: Vec<char> = Vec::new();
                        push_str(&mut section, "---MATCHES--- ");
                        push_chars(&mut section, &path);
                        push_str(&mut section, "\n");
                        push_chars(&mut section, &lines[k]);
                        sections.push(section);
                        paths.push(path);
                        assert(views(paths@) =~= before_p.push(path@));
                        assert(views(sections@) =~= before_s.push(
                            "---MATCHES--- "@ + path@ + "\n"@ + views(lines@)[k as int],
                        ));
                    },
                }
            },
            None => {
                push_chars(&mut preamble, &lines[k]);
            },
        }
        k = k + 1;
    }
    assert(views(lines@).take(lines.len() as int) =~= views(lines@));
    if sections.len() < 2 {
        return None;
    }
    let tp = trim(&preamble);
    Some(render_grouped_exec(tp.len() > 0, &preamble, &sections, max_tokens))
}

pub open spec fn opt_view(v: Option<&str>) -> Option<Seq<char>> {
    match v {
        Some(s) => Some(s@),
        None => None,
    }
}

/// Command output cut to the command's token budget: kept whole when it
/// fits; otherwise truncated per file marker, per query term, or per ripgrep
/// file, in that order of preference, and as a whole when none applies.
pub open spec fn command_run_text(content: Seq<char>, max_tokens: nat, command_line: Option<
    Seq<char>,
>) -> Seq<char> {
    let eff = effective_max_tokens(max_tokens, command_line);
    if utf8_len(content) <= eff * 4 {
        content
    } else {
        match marker_sections_text(content, eff, command_line) {
            Some(x) => x,
            None => match query_sections_text(content, eff, command_line) {
                Some(x) => x,
                None => match ripgrep_sections_text(content, eff) {
                    Some(x) => x,
                    None => formatted_text(content, eff),
                },
            },
        }
    }
}

pub fn command_run_truncate_text(content: &str, max_tokens: usize, command_line: Option<&str>) -> (r:
    String)
    requires
        effective_max_tokens(max_tokens as nat, opt_view(command_line)) * 4 <= usize::MAX,
    ensures
        r@ == command_run_text(content@, max_tokens as nat, opt_view(command_line)),
{
    let cl: Option<Vec<char>> = match command_line {
        Some(c) => Some(chars_of(c)),
        None => None,
    };
    let clr: Option<&Vec<char>> = match &cl {
        Some(c) => Some(c),
        None => None,
    };
    let eff = command_run_effective_max_tokens(max_tokens, clr);
    if byte_len(content) <= eff * APPROX_CHARS_PER_TOKEN {
        return content.to_owned();
    }
    let v = chars_of(content);
    if let Some(x) = truncate_marker_sections_for_command_run(&v, eff, clr) {
        return string_of(&x);
    }
    if let Some(x) = truncate_query_sections_for_command_run(&v, eff, clr) {
        return string_of(&x);
    }
    if let Some(x) = truncate_ripgrep_file_sections_for_command_run(&v, eff) {
        return string_of(&x);
    }
    formatted_truncate_text(content, eff)
}

/// Budget check in front of `command_run_truncate_text`: nothing when the
/// command's effective budget, in bytes, does not fit a `usize`.
pub fn command_run_truncate_text_checked(
    content: &str,
    max_tokens: usize,
    command_line: Option<&str>,
) -> (r: Option<String>)
    ensures
        match r {
            Some(t) => effective_max_tokens(max_tokens as nat, opt_view(command_line)) * 4
                <= usize::MAX && t@ == command_run_text(
                content@,
                max_tokens as nat,
                opt_view(command_line),
            ),
            None => effective_max_tokens(max_tokens as nat, opt_view(command_line)) * 4
                > usize::MAX,
        },
{
    let cl: Option<Vec<char>> = match command_line {
        Some(c) => Some(chars_of(c)),
        None => None,
    };
    let clr: Option<&Vec<char>> = match &cl {
        Some(c) => Some(c),
        None => None,
    };
    let eff = command_run_effective_max_tokens(max_tokens, clr);
    if eff > usize::MAX / APPROX_CHARS_PER_TOKEN {
        return None;
    }
    Some(command_run_truncate_text(content, max_tokens, command_line))
}

pub fn truncate_text_to_token_budget(text: &str, max_tokens: usize) -> (r: String)
    ensures
        r@ == crate::context::token_budget::token_budget_text(text@, max_tokens as nat),
{
    crate::context::token_budget::truncate_text_to_token_budget(text, max_tokens)
}

pub fn context_output_byte_budget() -> (n: usize)
    ensures
        n == CONTEXT_OUTPUT_MAX_TOKENS * APPROX_CHARS_PER_TOKEN,
{
    CONTEXT_OUTPUT_MAX_TOKENS * APPROX_CHARS_PER_TOKEN
}

/// Shell that the context names: `bash` when configured so, PowerShell on
/// Windows for the shell-command aliases or no setting, bash elsewhere.
pub open spec fn shell_name_for(configured: Option<Seq<char>>, windows: bool) -> Seq<char> {
    let v = match configured {
        Some(c) => Some(ascii_lower(trim_ws(c))),
        None => None,
    };
    if v == Some("bash"@) {
        "bash"@
    } else if windows {
        "powershell"@
    } else {
        "bash"@
    }
}

/// Shell named in the environment context, from the `TURA_COMMAND_RUN_SHELL`
/// setting and the platform.
pub fn context_shell_name(configured: Option<&str>, windows: bool) -> (r: &'static str)
    ensures
        r@ == shell_name_for(opt_view(configured), windows),
{
    let is_bash = match configured {
        Some(c) => {
            let v = chars_of(c);
            let t = trim(&v);
            let l = to_ascii_lowercase(&t);
            eq_str(&l, "bash")
        },
        None => false,
    };
    if is_bash {
        "bash"
    } else if windows {
        "powershell"
    } else {
        "bash"
    }
}

/// The `<environment_context>` block given to the model.
pub open spec fn environment_context_text(
    cwd: Seq<char>,
    shell: Seq<char>,
    date: Seq<char>,
    timezone: Seq<char>,
) -> Seq<char> {
    "<environment_context>\n  <cwd>"@ + cwd + "</cwd>\n  <shell>"@ + shell
        + "</shell>\n  <current_date>"@ + date + "</current_date>\n  <timezone>"@ + timezone
        + "</timezone>\n</environment_context>"@
}

pub fn environment_context_message(cwd: &str, shell: &str, date: &str, timezone: &str) -> (r:
    String)
    ensures
        r@ == environment_context_text(cwd@, shell@, date@, timezone@),
{
    let mut out: Vec<char> = Vec::new();
    push_str(&mut out, "<environment_context>\n  <cwd>");
    push_str(&mut out, cwd);
    push_str(&mut out, "</cwd>\n  <shell>");
    push_str(&mut out, shell);
    push_str(&mut out, "</shell>\n  <current_date>");
    push_str(&mut out, date);
    push_str(&mut out, "</current_date>\n  <timezone>");
    push_str(&mut out, timezone);
    push_str(&mut out, "</timezone>\n</environment_context>");
    string_of(&out)
}


/// The budget of a command's output is tripled only for a command line
/// that reads exactly one file (capped at the largest `usize`). Without a
/// command line, or when it reads no file or two or more, the budget is the
/// one given, so output longer than four bytes a token is cut.
pub proof fn law_budget_tripled_only_for_one_read_target(max_tokens: nat, command_line: Option<Seq<char>>)
    ensures
        command_line is None ==> effective_max_tokens(max_tokens, command_line) == max_tokens,
        command_line matches Some(cl) && read_targets(cl).len() != 1 ==> effective_max_tokens(
            max_tokens,
            command_line,
        ) == max_tokens,
        command_line matches Some(cl) && read_targets(cl).len() == 1 && max_tokens * 3 <= usize::MAX
            ==> effective_max_tokens(max_tokens, command_line) == 3 * max_tokens,
        command_line matches Some(cl) && read_targets(cl).len() == 1 && max_tokens * 3 > usize::MAX
            ==> effective_max_tokens(max_tokens, command_line) == usize::MAX,
{
}

/// Targets are found only after a read command word (`Get-Content`, `gc`,
/// `cat`, `type`): tokens with none add no target, so such a command keeps
/// the budget it is given.
pub proof fn law_no_read_command_no_read_target(tokens: Seq<Seq<char>>, index: nat, acc: Seq<Seq<char>>)
    requires
        forall|i: int| 0 <= i < tokens.len() ==> {
            let l = ascii_lower(#[trigger] tokens[i]);
            l != "get-content"@ && l != "gc"@ && l != "cat"@ && l != "type"@
        },
    ensures
        read_targets_scan(tokens, index, acc) == acc,
    decreases tokens.len() + 1 - index,
{
    if index < tokens.len() {
        assert(!is_read_command(tokens[index as int]));
        law_no_read_command_no_read_target(tokens, index + 1, acc);
    }
}

/// Output that fits the given budget (four bytes a token) is kept whole,
/// whatever the command line.
pub proof fn law_command_output_within_budget_is_kept(
    content: Seq<char>,
    max_tokens: nat,
    command_line: Option<Seq<char>>,
)
    requires
        max_tokens <= usize::MAX,
        utf8_len(content) <= max_tokens * 4,
    ensures
        command_run_text(content, max_tokens, command_line) == content,
{
    law_budget_tripled_only_for_one_read_target(max_tokens, command_line);
}

} // verus!
