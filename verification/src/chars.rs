//! Character classes and scans over character sequences: trimming, case
//! folding, searching and replacing, as the standard library's `str` methods
//! do them.
use vstd::prelude::*;

verus! {

/// `char::is_whitespace`: the Unicode `White_Space` property.
pub open spec fn is_ws(c: char) -> bool {
    let v = c as u32;
    ||| 9 <= v <= 13
    ||| v == 32
    ||| v == 0x85
    ||| v == 0xA0
    ||| v == 0x1680
    ||| 0x2000 <= v <= 0x200A
    ||| v == 0x2028
    ||| v == 0x2029
    ||| v == 0x202F
    ||| v == 0x205F
    ||| v == 0x3000
}

pub fn is_whitespace(c: char) -> (b: bool)
    ensures
        b == is_ws(c),
{
    let v = c as u32;
    (9 <= v && v <= 13) || v == 32 || v == 0x85 || v == 0xA0 || v == 0x1680 || (0x2000 <= v && v
        <= 0x200A) || v == 0x2028 || v == 0x2029 || v == 0x202F || v == 0x205F || v == 0x3000
}

/// `char::to_ascii_lowercase`.
pub open spec fn lower_char(c: char) -> char {
    if 65 <= (c as u32) <= 90 {
        (((c as u32) + 32) as u8) as char
    } else {
        c
    }
}

pub fn to_lower_char(c: char) -> (r: char)
    ensures
        r == lower_char(c),
{
    if 65 <= (c as u32) && (c as u32) <= 90 {
        (((c as u32) + 32) as u8) as char
    } else {
        c
    }
}

pub open spec fn is_ascii_digit_char(c: char) -> bool {
    48 <= (c as u32) <= 57
}

pub open spec fn is_ascii_upper_char(c: char) -> bool {
    65 <= (c as u32) <= 90
}

pub open spec fn is_ascii_alnum_char(c: char) -> bool {
    ||| 48 <= (c as u32) <= 57
    ||| 65 <= (c as u32) <= 90
    ||| 97 <= (c as u32) <= 122
}

pub fn is_ascii_digit(c: char) -> (b: bool)
    ensures
        b == is_ascii_digit_char(c),
{
    48 <= (c as u32) && (c as u32) <= 57
}

pub fn is_ascii_upper(c: char) -> (b: bool)
    ensures
        b == is_ascii_upper_char(c),
{
    65 <= (c as u32) && (c as u32) <= 90
}

pub fn is_ascii_alnum(c: char) -> (b: bool)
    ensures
        b == is_ascii_alnum_char(c),
{
    let v = c as u32;
    (48 <= v && v <= 57) || (65 <= v && v <= 90) || (97 <= v && v <= 122)
}

/// A set of characters that a trim removes.
pub enum CharClass {
    /// Unicode whitespace.
    Whitespace,
    /// One given character.
    Exactly(char),
    /// Carriage return and line feed.
    LineEnd,
}

pub open spec fn in_class(class: CharClass, c: char) -> bool {
    match class {
        CharClass::Whitespace => is_ws(c),
        CharClass::Exactly(x) => c == x,
        CharClass::LineEnd => c == '\r' || c == '\n',
    }
}

pub fn class_has(class: &CharClass, c: char) -> (b: bool)
    ensures
        b == in_class(*class, c),
{
    match class {
        CharClass::Whitespace => is_whitespace(c),
        CharClass::Exactly(x) => c == *x,
        CharClass::LineEnd => c == '\r' || c == '\n',
    }
}

/// Index of the first character at or after `i` outside `class`.
pub open spec fn skip_class(s: Seq<char>, class: CharClass, i: nat) -> nat
    decreases s.len() - i,
{
    if i >= s.len() {
        s.len()
    } else if in_class(class, s[i as int]) {
        skip_class(s, class, i + 1)
    } else {
        i
    }
}

/// End of `s[..j]` once the characters of `class` at its end are dropped.
pub open spec fn back_class(s: Seq<char>, class: CharClass, j: nat) -> nat
    decreases j,
{
    if j == 0 {
        0
    } else if j <= s.len() && in_class(class, s[j - 1]) {
        back_class(s, class, (j - 1) as nat)
    } else {
        j
    }
}

/// `str::trim_start_matches` for a class of characters.
pub open spec fn trim_start_class(s: Seq<char>, class: CharClass) -> Seq<char> {
    s.skip(skip_class(s, class, 0) as int)
}

/// `str::trim_end_matches` for a class of characters.
pub open spec fn trim_end_class(s: Seq<char>, class: CharClass) -> Seq<char> {
    s.take(back_class(s, class, s.len()) as int)
}

/// `str::trim_matches` for a class of characters.
pub open spec fn trim_class(s: Seq<char>, class: CharClass) -> Seq<char> {
    let a = skip_class(s, class, 0);
    let b = back_class(s, class, s.len());
    if a >= b {
        Seq::<char>::empty()
    } else {
        s.subrange(a as int, b as int)
    }
}

/// `str::trim`.
pub open spec fn trim_ws(s: Seq<char>) -> Seq<char> {
    trim_class(s, CharClass::Whitespace)
}

/// A text that neither starts nor ends with whitespace trims to itself.
pub proof fn lemma_trim_ws_plain(s: Seq<char>)
    requires
        s.len() > 0,
        !is_ws(s[0]),
        !is_ws(s[s.len() - 1]),
    ensures
        trim_ws(s) == s,
{
    assert(skip_class(s, CharClass::Whitespace, 0) == 0);
    assert(back_class(s, CharClass::Whitespace, s.len()) == s.len());
    assert(s.subrange(0, s.len() as int) =~= s);
}

pub proof fn lemma_skip_class_bounds(s: Seq<char>, class: CharClass, i: nat)
    requires
        i <= s.len(),
    ensures
        i <= skip_class(s, class, i) <= s.len(),
        forall|k: int| i <= k < skip_class(s, class, i) ==> in_class(class, #[trigger] s[k]),
        skip_class(s, class, i) < s.len() ==> !in_class(class, s[skip_class(s, class, i) as int]),
    decreases s.len() - i,
{
    if i < s.len() && in_class(class, s[i as int]) {
        lemma_skip_class_bounds(s, class, i + 1);
    }
}

pub proof fn lemma_back_class_bounds(s: Seq<char>, class: CharClass, j: nat)
    requires
        j <= s.len(),
    ensures
        back_class(s, class, j) <= j,
        forall|k: int| back_class(s, class, j) <= k < j ==> in_class(class, #[trigger] s[k]),
        back_class(s, class, j) > 0 ==> !in_class(class, s[back_class(s, class, j) - 1]),
    decreases j,
{
    if j > 0 && in_class(class, s[j - 1]) {
        lemma_back_class_bounds(s, class, (j - 1) as nat);
    }
}

/// Index of the first character at or after `i` outside `class`.
pub fn skip_class_from(v: &Vec<char>, class: &CharClass, i: usize) -> (r: usize)
    requires
        i <= v.len(),
    ensures
        r == skip_class(v@, *class, i as nat),
{
    let mut k = i;
    while k < v.len() && class_has(class, v[k])
        invariant
            i <= k <= v.len(),
            skip_class(v@, *class, k as nat) == skip_class(v@, *class, i as nat),
        decreases v.len() - k,
    {
        k = k + 1;
    }
    k
}

/// End of `v[..j]` once the characters of `class` at its end are dropped.
pub fn back_class_from(v: &Vec<char>, class: &CharClass, j: usize) -> (r: usize)
    requires
        j <= v.len(),
    ensures
        r == back_class(v@, *class, j as nat),
{
    let mut k = j;
    while k > 0 && class_has(class, v[k - 1])
        invariant
            k <= j <= v.len(),
            back_class(v@, *class, k as nat) == back_class(v@, *class, j as nat),
        decreases k,
    {
        k = k - 1;
    }
    k
}

/// The characters of `v[lo..hi]`.
pub fn slice_vec(v: &Vec<char>, lo: usize, hi: usize) -> (r: Vec<char>)
    requires
        lo <= hi <= v.len(),
    ensures
        r@ == v@.subrange(lo as int, hi as int),
{
    let mut out: Vec<char> = Vec::new();
    let mut i = lo;
    while i < hi
        invariant
            lo <= i <= hi <= v.len(),
            out@ == v@.subrange(lo as int, i as int),
        decreases hi - i,
    {
        out.push(v[i]);
        i = i + 1;
        assert(out@ =~= v@.subrange(lo as int, i as int));
    }
    out
}

pub fn trim_start_by(v: &Vec<char>, class: &CharClass) -> (r: Vec<char>)
    ensures
        r@ == trim_start_class(v@, *class),
{
    let a = skip_class_from(v, class, 0);
    proof {
        lemma_skip_class_bounds(v@, *class, 0);
    }
    slice_vec(v, a, v.len())
}

pub fn trim_end_by(v: &Vec<char>, class: &CharClass) -> (r: Vec<char>)
    ensures
        r@ == trim_end_class(v@, *class),
{
    let b = back_class_from(v, class, v.len());
    proof {
        lemma_back_class_bounds(v@, *class, v.len() as nat);
    }
    slice_vec(v, 0, b)
}

pub fn trim_by(v: &Vec<char>, class: &CharClass) -> (r: Vec<char>)
    ensures
        r@ == trim_class(v@, *class),
{
    let a = skip_class_from(v, class, 0);
    let b = back_class_from(v, class, v.len());
    proof {
        lemma_skip_class_bounds(v@, *class, 0);
        lemma_back_class_bounds(v@, *class, v.len() as nat);
    }
    if a >= b {
        Vec::new()
    } else {
        slice_vec(v, a, b)
    }
}

pub fn trim(v: &Vec<char>) -> (r: Vec<char>)
    ensures
        r@ == trim_ws(v@),
{
    trim_by(v, &CharClass::Whitespace)
}

/// `str::to_ascii_lowercase`.
pub open spec fn ascii_lower(s: Seq<char>) -> Seq<char> {
    Seq::new(s.len(), |i: int| lower_char(s[i]))
}

pub fn to_ascii_lowercase(v: &Vec<char>) -> (r: Vec<char>)
    ensures
        r@ == ascii_lower(v@),
{
    let mut out: Vec<char> = Vec::new();
    let mut i: usize = 0;
    while i < v.len()
        invariant
            i <= v.len(),
            out@ =~= ascii_lower(v@.subrange(0, i as int)),
        decreases v.len() - i,
    {
        out.push(to_lower_char(v[i]));
        i = i + 1;
        assert(out@ =~= ascii_lower(v@.subrange(0, i as int)));
    }
    assert(v@.subrange(0, v.len() as int) =~= v@);
    out
}

/// `p` occurs in `s` at index `i`.
pub open spec fn matches_at(s: Seq<char>, p: Seq<char>, i: int) -> bool {
    0 <= i && i + p.len() <= s.len() && s.subrange(i, i + p.len()) == p
}

/// Index of the first occurrence of `p` in `s` at or after `i`.
pub open spec fn find_from(s: Seq<char>, p: Seq<char>, i: nat) -> Option<nat>
    decreases s.len() + 1 - i,
{
    if i + p.len() > s.len() {
        None
    } else if matches_at(s, p, i as int) {
        Some(i)
    } else {
        find_from(s, p, i + 1)
    }
}

/// `str::find` for a string pattern.
pub open spec fn find(s: Seq<char>, p: Seq<char>) -> Option<nat> {
    find_from(s, p, 0)
}

/// `str::contains` for a string pattern.
pub open spec fn contains(s: Seq<char>, p: Seq<char>) -> bool {
    find(s, p) is Some
}

/// `str::starts_with`.
pub open spec fn starts_with(s: Seq<char>, p: Seq<char>) -> bool {
    matches_at(s, p, 0)
}

/// `str::ends_with`.
pub open spec fn ends_with(s: Seq<char>, p: Seq<char>) -> bool {
    matches_at(s, p, s.len() - p.len())
}

pub fn matches_at_exec(v: &Vec<char>, p: &Vec<char>, i: usize) -> (b: bool)
    ensures
        b == matches_at(v@, p@, i as int),
{
    if i > v.len() || p.len() > v.len() - i {
        return false;
    }
    let mut k: usize = 0;
    while k < p.len()
        invariant
            i + p.len() <= v.len(),
            k <= p.len(),
            forall|t: int| 0 <= t < k ==> v@[i + t] == p@[t],
        decreases p.len() - k,
    {
        if v[i + k] != p[k] {
            assert(v@.subrange(i as int, i + p.len())[k as int] != p@[k as int]);
            return false;
        }
        k = k + 1;
    }
    assert(v@.subrange(i as int, i + p.len()) =~= p@);
    true
}

pub fn find_from_exec(v: &Vec<char>, p: &Vec<char>, i: usize) -> (r: Option<usize>)
    ensures
        match find_from(v@, p@, i as nat) {
            Some(k) => r == Some(k as usize) && k + p@.len() <= v@.len(),
            None => r is None,
        },
{
    if p.len() == 0 {
        if i <= v.len() {
            assert(v@.subrange(i as int, i as int) =~= p@);
            return Some(i);
        }
        return None;
    }
    let mut k = i;
    loop
        invariant
            i <= k,
            p.len() > 0,
            find_from(v@, p@, k as nat) == find_from(v@, p@, i as nat),
        decreases v.len() + 1 - k,
    {
        if k > v.len() || p.len() > v.len() - k {
            return None;
        }
        if matches_at_exec(v, p, k) {
            return Some(k);
        }
        k = k + 1;
    }
}

pub fn contains_exec(v: &Vec<char>, p: &Vec<char>) -> (b: bool)
    ensures
        b == contains(v@, p@),
{
    find_from_exec(v, p, 0).is_some()
}

pub fn contains_str(v: &Vec<char>, p: &str) -> (b: bool)
    ensures
        b == contains(v@, p@),
{
    let pv = crate::text::chars_of(p);
    contains_exec(v, &pv)
}

pub fn starts_with_str(v: &Vec<char>, p: &str) -> (b: bool)
    ensures
        b == starts_with(v@, p@),
{
    let pv = crate::text::chars_of(p);
    matches_at_exec(v, &pv, 0)
}

pub fn ends_with_str(v: &Vec<char>, p: &str) -> (b: bool)
    ensures
        b == ends_with(v@, p@),
{
    let pv = crate::text::chars_of(p);
    if pv.len() > v.len() {
        return false;
    }
    matches_at_exec(v, &pv, v.len() - pv.len())
}

/// `v` equals the string `p`.
pub fn eq_str(v: &Vec<char>, p: &str) -> (b: bool)
    ensures
        b == (v@ == p@),
{
    let pv = crate::text::chars_of(p);
    if pv.len() != v.len() {
        return false;
    }
    let b = matches_at_exec(v, &pv, 0);
    assert(v@.subrange(0, v@.len() as int) =~= v@);
    b
}

/// `str::replace` for one character replaced by another.
pub open spec fn replace_char(s: Seq<char>, from: char, to: char) -> Seq<char> {
    Seq::new(s.len(), |i: int| if s[i] == from { to } else { s[i] })
}

pub fn replace_char_exec(v: &Vec<char>, from: char, to: char) -> (r: Vec<char>)
    ensures
        r@ == replace_char(v@, from, to),
{
    let mut out: Vec<char> = Vec::new();
    let mut i: usize = 0;
    while i < v.len()
        invariant
            i <= v.len(),
            out@ =~= replace_char(v@.subrange(0, i as int), from, to),
        decreases v.len() - i,
    {
        if v[i] == from {
            out.push(to);
        } else {
            out.push(v[i]);
        }
        i = i + 1;
        assert(out@ =~= replace_char(v@.subrange(0, i as int), from, to));
    }
    assert(v@.subrange(0, v.len() as int) =~= v@);
    out
}

/// `str::replace` for a non-empty string pattern: occurrences are replaced
/// from left to right without overlapping.
pub open spec fn replace_str(s: Seq<char>, pat: Seq<char>, rep: Seq<char>) -> Seq<char>
    recommends
        pat.len() > 0,
    decreases s.len(),
{
    if s.len() == 0 || pat.len() == 0 {
        s
    } else if matches_at(s, pat, 0) {
        rep + replace_str(s.skip(pat.len() as int), pat, rep)
    } else {
        seq![s[0]] + replace_str(s.drop_first(), pat, rep)
    }
}

pub fn replace_str_exec(v: &Vec<char>, pat: &str, rep: &str) -> (r: Vec<char>)
    ensures
        r@ == replace_str(v@, pat@, rep@),
{
    let pv = crate::text::chars_of(pat);
    let rv = crate::text::chars_of(rep);
    if pv.len() == 0 {
        return slice_vec(v, 0, v.len());
    }
    let mut out: Vec<char> = Vec::new();
    let mut i: usize = 0;
    assert(v@.skip(0) =~= v@);
    while i < v.len()
        invariant
            i <= v.len(),
            pv@.len() > 0,
            out@ + replace_str(v@.skip(i as int), pv@, rv@) == replace_str(v@, pv@, rv@),
        decreases v.len() - i,
    {
        let ghost rest = v@.skip(i as int);
        if matches_at_exec(v, &pv, i) {
            proof {
                assert(rest.subrange(0, pv@.len() as int) =~= v@.subrange(i as int, i + pv@.len()));
                assert(rest.skip(pv@.len() as int) =~= v@.skip(i + pv@.len()));
            }
            crate::text::push_chars(&mut out, &rv);
            assert(out@ + replace_str(v@.skip(i + pv@.len()), pv@, rv@) =~= replace_str(
                v@,
                pv@,
                rv@,
            ));
            i = i + pv.len();
        } else {
            proof {
                if pv@.len() <= rest.len() {
                    assert(rest.subrange(0, pv@.len() as int) =~= v@.subrange(
                        i as int,
                        i + pv@.len(),
                    ));
                }
                assert(rest.drop_first() =~= v@.skip(i + 1));
            }
            out.push(v[i]);
            assert(out@ + replace_str(v@.skip(i + 1), pv@, rv@) =~= replace_str(v@, pv@, rv@));
            i = i + 1;
        }
    }
    assert(v@.skip(i as int) =~= Seq::<char>::empty());
    assert(out@ + replace_str(v@.skip(i as int), pv@, rv@) =~= out@);
    out
}

/// The views of a list of character vectors.
pub open spec fn views(v: Seq<Vec<char>>) -> Seq<Seq<char>> {
    v.map_values(|w: Vec<char>| w@)
}

/// Pieces of `str::split_inclusive('\n')` read so far, and the open piece.
pub open spec fn lines_fold(s: Seq<char>) -> (Seq<Seq<char>>, Seq<char>)
    decreases s.len(),
{
    if s.len() == 0 {
        (Seq::empty(), Seq::empty())
    } else {
        let (done, cur) = lines_fold(s.drop_last());
        if s.last() == '\n' {
            (done.push(cur.push('\n')), Seq::empty())
        } else {
            (done, cur.push(s.last()))
        }
    }
}

/// `str::split_inclusive('\n')`: the lines of `s`, each with its line feed.
pub open spec fn split_lines_inclusive(s: Seq<char>) -> Seq<Seq<char>> {
    let (done, cur) = lines_fold(s);
    if cur.len() > 0 {
        done.push(cur)
    } else {
        done
    }
}

pub fn split_inclusive_lines(v: &Vec<char>) -> (r: Vec<Vec<char>>)
    ensures
        views(r@) == split_lines_inclusive(v@),
{
    let mut done: Vec<Vec<char>> = Vec::new();
    let mut cur: Vec<char> = Vec::new();
    let mut i: usize = 0;
    while i < v.len()
        invariant
            i <= v.len(),
            (views(done@), cur@) == lines_fold(v@.take(i as int)),
        decreases v.len() - i,
    {
        proof {
            assert(v@.take(i + 1).drop_last() =~= v@.take(i as int));
        }
        let c = v[i];
        if c == '\n' {
            cur.push(c);
            let piece = cur;
            done.push(piece);
            cur = Vec::new();
            assert(views(done@) =~= lines_fold(v@.take(i + 1)).0);
        } else {
            cur.push(c);
        }
        i = i + 1;
    }
    assert(v@.take(v.len() as int) =~= v@);
    if cur.len() > 0 {
        done.push(cur);
        assert(views(done@) =~= split_lines_inclusive(v@));
    }
    done
}

/// Words of `str::split_whitespace` read so far, and the open word.
pub open spec fn words_fold(s: Seq<char>) -> (Seq<Seq<char>>, Seq<char>)
    decreases s.len(),
{
    if s.len() == 0 {
        (Seq::empty(), Seq::empty())
    } else {
        let (done, cur) = words_fold(s.drop_last());
        if is_ws(s.last()) {
            if cur.len() > 0 {
                (done.push(cur), Seq::empty())
            } else {
                (done, cur)
            }
        } else {
            (done, cur.push(s.last()))
        }
    }
}

/// `str::split_whitespace`.
pub open spec fn split_words(s: Seq<char>) -> Seq<Seq<char>> {
    let (done, cur) = words_fold(s);
    if cur.len() > 0 {
        done.push(cur)
    } else {
        done
    }
}

pub fn split_whitespace(v: &Vec<char>) -> (r: Vec<Vec<char>>)
    ensures
        views(r@) == split_words(v@),
{
    let mut done: Vec<Vec<char>> = Vec::new();
    let mut cur: Vec<char> = Vec::new();
    let mut i: usize = 0;
    while i < v.len()
        invariant
            i <= v.len(),
            (views(done@), cur@) == words_fold(v@.take(i as int)),
        decreases v.len() - i,
    {
        proof {
            assert(v@.take(i + 1).drop_last() =~= v@.take(i as int));
        }
        let c = v[i];
        if is_whitespace(c) {
            if cur.len() > 0 {
                let piece = cur;
                done.push(piece);
                cur = Vec::new();
                assert(views(done@) =~= words_fold(v@.take(i + 1)).0);
            }
        } else {
            cur.push(c);
        }
        i = i + 1;
    }
    assert(v@.take(v.len() as int) =~= v@);
    if cur.len() > 0 {
        done.push(cur);
        assert(views(done@) =~= split_words(v@));
    }
    done
}

/// Pieces of `str::split(sep)` read so far, and the open piece.
pub open spec fn pieces_fold(s: Seq<char>, sep: char) -> (Seq<Seq<char>>, Seq<char>)
    decreases s.len(),
{
    if s.len() == 0 {
        (Seq::empty(), Seq::empty())
    } else {
        let (done, cur) = pieces_fold(s.drop_last(), sep);
        if s.last() == sep {
            (done.push(cur), Seq::empty())
        } else {
            (done, cur.push(s.last()))
        }
    }
}

/// `str::split(sep)` for a character: always at least one piece.
pub open spec fn split_on(s: Seq<char>, sep: char) -> Seq<Seq<char>> {
    let (done, cur) = pieces_fold(s, sep);
    done.push(cur)
}

pub fn split_char(v: &Vec<char>, sep: char) -> (r: Vec<Vec<char>>)
    ensures
        views(r@) == split_on(v@, sep),
{
    let mut done: Vec<Vec<char>> = Vec::new();
    let mut cur: Vec<char> = Vec::new();
    let mut i: usize = 0;
    while i < v.len()
        invariant
            i <= v.len(),
            (views(done@), cur@) == pieces_fold(v@.take(i as int), sep),
        decreases v.len() - i,
    {
        proof {
            assert(v@.take(i + 1).drop_last() =~= v@.take(i as int));
        }
        let c = v[i];
        if c == sep {
            let piece = cur;
            done.push(piece);
            cur = Vec::new();
            assert(views(done@) =~= pieces_fold(v@.take(i + 1), sep).0);
        } else {
            cur.push(c);
        }
        i = i + 1;
    }
    assert(v@.take(v.len() as int) =~= v@);
    done.push(cur);
    assert(views(done@) =~= split_on(v@, sep));
    done
}

/// Index of the first `c` in `s` at or after `i`.
pub open spec fn find_char_from(s: Seq<char>, c: char, i: nat) -> Option<nat>
    decreases s.len() - i,
{
    if i >= s.len() {
        None
    } else if s[i as int] == c {
        Some(i)
    } else {
        find_char_from(s, c, i + 1)
    }
}

pub proof fn lemma_find_char_from(s: Seq<char>, c: char, i: nat)
    ensures
        find_char_from(s, c, i) matches Some(k) ==> i <= k < s.len() && s[k as int] == c && (
        forall|t: int| i <= t < k ==> s[t] != c),
        find_char_from(s, c, i) is None ==> forall|t: int| i <= t < s.len() ==> s[t] != c,
    decreases s.len() - i,
{
    if i < s.len() && s[i as int] != c {
        lemma_find_char_from(s, c, i + 1);
    }
}

pub fn find_char(v: &Vec<char>, c: char, i: usize) -> (r: Option<usize>)
    ensures
        match find_char_from(v@, c, i as nat) {
            Some(k) => r == Some(k as usize) && k < v@.len(),
            None => r is None,
        },
{
    proof {
        lemma_find_char_from(v@, c, i as nat);
    }
    let mut k = i;
    while k < v.len() && v[k] != c
        invariant
            i <= k,
            find_char_from(v@, c, k as nat) == find_char_from(v@, c, i as nat),
        decreases v.len() - k,
    {
        k = k + 1;
    }
    if k < v.len() {
        Some(k)
    } else {
        None
    }
}

/// Index of the last occurrence of `p` in `s`, as `str::rfind` finds it.
pub open spec fn rfind_before(s: Seq<char>, p: Seq<char>, j: int) -> Option<nat>
    decreases j + 1,
{
    if j < 0 {
        None
    } else if matches_at(s, p, j) {
        Some(j as nat)
    } else {
        rfind_before(s, p, j - 1)
    }
}

pub open spec fn rfind(s: Seq<char>, p: Seq<char>) -> Option<nat> {
    rfind_before(s, p, s.len() - p.len())
}

pub fn rfind_str(v: &Vec<char>, p: &str) -> (r: Option<usize>)
    ensures
        match rfind(v@, p@) {
            Some(k) => r == Some(k as usize) && k + p@.len() <= v@.len(),
            None => r is None,
        },
        r matches Some(k) ==> k + p@.len() <= v@.len(),
{
    let pv = crate::text::chars_of(p);
    if pv.len() > v.len() {
        return None;
    }
    let mut j: usize = v.len() - pv.len();
    loop
        invariant
            j <= v.len() - pv.len(),
            pv.len() <= v.len(),
            pv@ == p@,
            rfind_before(v@, pv@, j as int) == rfind(v@, pv@),
        decreases j,
    {
        if matches_at_exec(v, &pv, j) {
            return Some(j);
        }
        if j == 0 {
            return None;
        }
        j = j - 1;
    }
}

} // verus!
