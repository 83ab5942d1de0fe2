//! A snapshot of the files around the session directory, to a depth of two
//! directories below it: how many files and directories there are, how
//! many files have each suffix, and one line per file. The directory walk
//! itself and the reading of file times and contents happen outside; they
//! hand each file's place and facts to the snapshot here.
use vstd::prelude::*;
use crate::chars::{replace_char, replace_char_exec, rfind, rfind_str, slice_vec};
use crate::context::fragment::ContextualUserFragment;
use crate::text::{chars_of, decimal, join, join_chars, lex_less, lex_lt, push_decimal, push_str, string_of};

verus! {

/// How many directory levels below the session directory are scanned.
pub const MAX_DEPTH: usize = 2;

/// How many lines of the snapshot text are kept.
pub const MAX_SNAPSHOT_LINES: usize = 8000;

/// One file of the snapshot.
pub struct WorkspaceSnapshotEntry {
    pub relative_path: String,
    pub modified_utc: String,
    pub line_count: String,
    pub suffix: String,
}

/// The files and directories around a session directory.
pub struct WorkspaceSnapshot {
    pub cwd: String,
    pub total_files: usize,
    pub total_dirs: usize,
    /// How many files have each suffix, by suffix in ascending order.
    pub extension_counts: Vec<(String, usize)>,
    pub entries: Vec<WorkspaceSnapshotEntry>,
}

/// A suffix count as plain values.
pub open spec fn count_view(c: (String, usize)) -> (Seq<char>, nat) {
    (c.0@, c.1 as nat)
}

pub open spec fn counts_view(cs: Seq<(String, usize)>) -> Seq<(Seq<char>, nat)> {
    cs.map_values(|c: (String, usize)| count_view(c))
}

/// The counts with one more file of suffix `key`: its count goes up by one,
/// or a count of one is added in its place in ascending order of suffixes
/// (`BTreeMap::entry`, then `+= 1`).
pub open spec fn bump(counts: Seq<(Seq<char>, nat)>, key: Seq<char>) -> Seq<(Seq<char>, nat)>
    decreases counts.len(),
{
    if counts.len() == 0 {
        seq![(key, 1nat)]
    } else if counts.last().0 == key {
        counts.drop_last().push((key, counts.last().1 + 1))
    } else if lex_lt(key, counts.last().0) {
        bump(counts.drop_last(), key).push(counts.last())
    } else {
        counts.push((key, 1nat))
    }
}

/// The state of a snapshot: the counts add up to no more than the files.
pub open spec fn snapshot_wf(s: WorkspaceSnapshot) -> bool {
    forall|i: int| 0 <= i < s.extension_counts@.len() ==> (#[trigger] s.extension_counts@[i]).1 <= s.total_files
}

/// `Path::extension` of a file name: the text after its last dot, unless it
/// has none, or its only dot starts it, or it is `..`.
pub open spec fn extension_of(name: Seq<char>) -> Option<Seq<char>> {
    if name == ".."@ {
        None
    } else {
        match rfind(name, "."@) {
            Some(i) => if i == 0 {
                None
            } else {
                Some(name.skip(i as int + 1))
            },
            None => None,
        }
    }
}

/// The suffix a file is counted under: a dot and its extension, or
/// `(none)`.
pub open spec fn suffix_text(name: Seq<char>) -> Seq<char> {
    match extension_of(name) {
        Some(e) => "."@ + e,
        None => "(none)"@,
    }
}

pub fn file_suffix(file_name: &str) -> (r: String)
    ensures
        r@ == suffix_text(file_name@),
{
    let v = chars_of(file_name);
    proof {
        reveal_strlit(".");
    }
    let mut out: Vec<char> = Vec::new();
    let is_parent = crate::chars::eq_str(&v, "..");
    if !is_parent {
        match rfind_str(&v, ".") {
            Some(i) => if i > 0 {
                assert("."@ =~= seq!['.']);
                assert(i + 1 <= v.len());
                push_str(&mut out, ".");
                let e = slice_vec(&v, i + 1, v.len());
                crate::text::push_chars(&mut out, &e);
                assert(e@ =~= v@.skip(i + 1));
                return string_of(&out);
            },
            None => {},
        }
    }
    push_str(&mut out, "(none)");
    string_of(&out)
}

/// A file's path below the session directory: the names on the way to it
/// joined by `/`, with any backslash written as `/`.
pub open spec fn relative_text(names: Seq<Seq<char>>) -> Seq<char> {
    replace_char(join(names, "/"@), '\\', '/')
}

pub fn relative_path_text(names: &Vec<String>) -> (r: String)
    ensures
        r@ == relative_text(names@.map_values(|s: String| s@)),
{
    let mut parts: Vec<Vec<char>> = Vec::new();
    let mut i: usize = 0;
    while i < names.len()
        invariant
            i <= names.len(),
            parts@.map_values(|w: Vec<char>| w@) == names@.map_values(|s: String| s@).take(i as int),
        decreases names.len() - i,
    {
        let c = chars_of(names[i].as_str());
        let ghost before = parts@.map_values(|w: Vec<char>| w@);
        parts.push(c);
        assert(parts@.map_values(|w: Vec<char>| w@) =~= before.push(c@));
        assert(names@.map_values(|s: String| s@).take(i + 1) =~= names@.map_values(|s: String| s@).take(
            i as int,
        ).push(c@));
        i = i + 1;
    }
    assert(names@.map_values(|s: String| s@).take(i as int) =~= names@.map_values(|s: String| s@));
    let joined = join_chars(&parts, "/");
    string_of(&replace_char_exec(&joined, '\\', '/'))
}

/// How many line feeds the bytes hold.
pub open spec fn newline_bytes(bytes: Seq<u8>) -> nat
    decreases bytes.len(),
{
    if bytes.len() == 0 {
        0
    } else {
        newline_bytes(bytes.drop_last()) + if bytes.last() == 10u8 {
            1nat
        } else {
            0nat
        }
    }
}

/// How many lines a file's bytes hold, as reading it line by line counts
/// them: one per line feed, and one more for a last line without one.
pub open spec fn line_chunks(bytes: Seq<u8>) -> nat {
    newline_bytes(bytes) + if bytes.len() > 0 && bytes.last() != 10u8 {
        1nat
    } else {
        0nat
    }
}

proof fn lemma_newline_bytes_bound(bytes: Seq<u8>)
    ensures
        newline_bytes(bytes) <= bytes.len(),
        bytes.len() > 0 && bytes.last() != 10u8 ==> newline_bytes(bytes) < bytes.len(),
    decreases bytes.len(),
{
    if bytes.len() > 0 {
        lemma_newline_bytes_bound(bytes.drop_last());
    }
}

pub fn count_line_chunks(bytes: &[u8]) -> (n: usize)
    ensures
        n == line_chunks(bytes@),
{
    let mut count: usize = 0;
    let mut i: usize = 0;
    while i < bytes.len()
        invariant
            i <= bytes.len(),
            count == newline_bytes(bytes@.take(i as int)),
            count <= i,
        decreases bytes.len() - i,
    {
        proof {
            assert(bytes@.take(i + 1).drop_last() =~= bytes@.take(i as int));
            lemma_newline_bytes_bound(bytes@.take(i as int));
        }
        if bytes[i] == 10u8 {
            count = count + 1;
        }
        i = i + 1;
    }
    assert(bytes@.take(i as int) =~= bytes@);
    proof {
        lemma_newline_bytes_bound(bytes@);
    }
    if bytes.len() > 0 && bytes[bytes.len() - 1] != 10u8 {
        count = count + 1;
    }
    count
}

/// An entry as plain values.
pub open spec fn entry_view(e: WorkspaceSnapshotEntry) -> (Seq<char>, Seq<char>, Seq<char>, Seq<char>) {
    (e.relative_path@, e.modified_utc@, e.line_count@, e.suffix@)
}

pub open spec fn entry_views(es: Seq<WorkspaceSnapshotEntry>) -> Seq<(Seq<char>, Seq<char>, Seq<char>, Seq<char>)> {
    es.map_values(|e: WorkspaceSnapshotEntry| entry_view(e))
}

/// The entry of a file: its path below the session directory, its
/// modification time (`unknown` when it could not be read), its line count
/// (`unknown` when the file could not be read) and its suffix.
pub open spec fn file_entry(
    names: Seq<Seq<char>>,
    modified_utc: Option<Seq<char>>,
    line_count: Option<nat>,
) -> (Seq<char>, Seq<char>, Seq<char>, Seq<char>) {
    (
        relative_text(names),
        match modified_utc {
            Some(m) => m,
            None => "unknown"@,
        },
        match line_count {
            Some(n) => decimal(n),
            None => "unknown"@,
        },
        suffix_text(names.last()),
    )
}

fn bump_count(counts: &mut Vec<(String, usize)>, key: &str, limit: usize)
    requires
        forall|i: int| 0 <= i < old(counts)@.len() ==> (#[trigger] old(counts)@[i]).1 < limit,
        limit >= 1,
    ensures
        counts_view(final(counts)@) == bump(counts_view(old(counts)@), key@),
        forall|i: int| 0 <= i < final(counts)@.len() ==> (#[trigger] final(counts)@[i]).1 <= limit,
{
    let ghost sv = counts_view(counts@);
    let kv = chars_of(key);
    let mut p: usize = counts.len();
    assert(sv.take(p as int) =~= sv);
    assert(sv.skip(p as int) =~= Seq::<(Seq<char>, nat)>::empty());
    while p > 0 && lex_less(&kv, &chars_of(counts[p - 1].0.as_str()))
        invariant
            p <= counts.len(),
            sv == counts_view(counts@),
            counts@ == old(counts)@,
            kv@ == key@,
            bump(sv, key@) == bump(sv.take(p as int), key@) + sv.skip(p as int),
            forall|i: int| p <= i < sv.len() ==> lex_lt(key@, #[trigger] sv[i].0),
        decreases p,
    {
        assert(sv[p - 1] == count_view(counts@[p - 1]));
        assert(sv.take(p as int).drop_last() =~= sv.take(p - 1));
        assert(sv.take(p as int).last() == sv[p - 1]);
        proof {
            crate::text::lemma_lex_lt_irreflexive(key@);
        }
        assert(sv.skip(p - 1) =~= seq![sv[p - 1]] + sv.skip(p as int));
        assert(bump(sv.take(p - 1), key@).push(sv[p - 1]) + sv.skip(p as int) =~= bump(sv.take(p - 1), key@)
            + sv.skip(p - 1));
        p = p - 1;
    }
    if p > 0 && crate::manas::tool_catalog::same_text(counts[p - 1].0.as_str(), key) {
        assert(sv[p - 1] == count_view(counts@[p - 1]));
        let name = counts[p - 1].0.clone();
        let n = counts[p - 1].1;
        assert(sv.take(p as int).last() == sv[p - 1]);
        assert(sv.take(p as int).drop_last() =~= sv.take(p - 1));
        let ghost c0 = counts@;
        counts.set(p - 1, (name, n + 1));
        assert(counts_view(counts@) =~= sv.take(p - 1).push((key@, sv[p - 1].1 + 1)) + sv.skip(p as int));
        assert forall|i: int| 0 <= i < counts@.len() implies (#[trigger] counts@[i]).1 <= limit by {
            if i != p - 1 {
                assert(counts@[i] == c0[i]);
            }
        }
    } else {
        if p == 0 {
            assert(sv.take(0) =~= Seq::<(Seq<char>, nat)>::empty());
        } else {
            assert(sv[p - 1] == count_view(counts@[p - 1]));
            assert(sv.take(p as int).last() == sv[p - 1]);
        }
        assert(bump(sv.take(p as int), key@) =~= sv.take(p as int).push((key@, 1nat)));
        let ghost c0 = counts@;
        counts.insert(p, (key.to_owned(), 1));
        assert(counts_view(counts@) =~= sv.take(p as int).push((key@, 1nat)) + sv.skip(p as int));
        assert forall|i: int| 0 <= i < counts@.len() implies (#[trigger] counts@[i]).1 <= limit by {
            if i < p {
                assert(counts@[i] == c0[i]);
            } else if i > p {
                assert(counts@[i] == c0[i - 1]);
            }
        }
    }
}

/// An entry as one line of the snapshot.
pub open spec fn entry_line(e: (Seq<char>, Seq<char>, Seq<char>, Seq<char>)) -> Seq<char> {
    e.1 + " | "@ + e.2 + " | "@ + e.3 + " | "@ + e.0
}

pub open spec fn entries_text(es: Seq<(Seq<char>, Seq<char>, Seq<char>, Seq<char>)>) -> Seq<char>
    decreases es.len(),
{
    if es.len() == 0 {
        Seq::empty()
    } else {
        entries_text(es.drop_last()) + "\n"@ + entry_line(es.last())
    }
}

/// The suffix counts as text: `none`, or `suffix=count` pairs separated by
/// commas.
pub open spec fn counts_text(counts: Seq<(Seq<char>, nat)>) -> Seq<char> {
    if counts.len() == 0 {
        "none"@
    } else {
        join(counts.map_values(|c: (Seq<char>, nat)| c.0 + "="@ + decimal(c.1)), ", "@)
    }
}

/// The snapshot's text before it is cut to its line limit: the header
/// lines, then one line per file.
pub open spec fn snapshot_text(s: WorkspaceSnapshot) -> Seq<char> {
    "cwd: "@ + s.cwd@ + "\nscan_depth: "@ + decimal(MAX_DEPTH as nat) + "\ntotal_files: "@ + decimal(
        s.total_files as nat,
    ) + "\ntotal_dirs: "@ + decimal(s.total_dirs as nat) + "\nsuffix_counts: "@ + counts_text(
        counts_view(s.extension_counts@),
    ) + "\ncolumns: modified_utc | lines | suffix | path"@ + entries_text(entry_views(s.entries@))
}

/// Paths in ascending order, stably.
pub open spec fn insert_by_path(
    sorted: Seq<(Seq<char>, Seq<char>, Seq<char>, Seq<char>)>,
    x: (Seq<char>, Seq<char>, Seq<char>, Seq<char>),
) -> Seq<(Seq<char>, Seq<char>, Seq<char>, Seq<char>)>
    decreases sorted.len(),
{
    if sorted.len() == 0 {
        seq![x]
    } else if lex_lt(x.0, sorted.last().0) {
        insert_by_path(sorted.drop_last(), x).push(sorted.last())
    } else {
        sorted.push(x)
    }
}

/// The entries in ascending order of their paths, stably
/// (`slice::sort_by` on the path).
pub open spec fn sort_by_path(
    s: Seq<(Seq<char>, Seq<char>, Seq<char>, Seq<char>)>,
) -> Seq<(Seq<char>, Seq<char>, Seq<char>, Seq<char>)>
    decreases s.len(),
{
    if s.len() == 0 {
        s
    } else {
        insert_by_path(sort_by_path(s.drop_last()), s.last())
    }
}

fn insert_entry_by_path(v: &mut Vec<WorkspaceSnapshotEntry>, x: WorkspaceSnapshotEntry)
    ensures
        entry_views(final(v)@) == insert_by_path(entry_views(old(v)@), entry_view(x)),
{
    let ghost sv = entry_views(v@);
    let ghost xv = entry_view(x);
    let xp = chars_of(x.relative_path.as_str());
    let mut p: usize = v.len();
    assert(sv.take(p as int) =~= sv);
    assert(sv.skip(p as int) =~= Seq::<(Seq<char>, Seq<char>, Seq<char>, Seq<char>)>::empty());
    while p > 0 && lex_less(&xp, &chars_of(v[p - 1].relative_path.as_str()))
        invariant
            p <= v.len(),
            sv == entry_views(v@),
            v@ == old(v)@,
            xv == entry_view(x),
            xp@ == xv.0,
            insert_by_path(sv, xv) == insert_by_path(sv.take(p as int), xv) + sv.skip(p as int),
        decreases p,
    {
        assert(sv[p - 1] == entry_view(v@[p - 1]));
        assert(sv.take(p as int).drop_last() =~= sv.take(p - 1));
        assert(sv.take(p as int).last() == sv[p - 1]);
        assert(sv.skip(p - 1) =~= seq![sv[p - 1]] + sv.skip(p as int));
        assert(insert_by_path(sv.take(p - 1), xv).push(sv[p - 1]) + sv.skip(p as int) =~= insert_by_path(
            sv.take(p - 1),
            xv,
        ) + sv.skip(p - 1));
        p = p - 1;
    }
    if p == 0 {
        assert(sv.take(0) =~= Seq::<(Seq<char>, Seq<char>, Seq<char>, Seq<char>)>::empty());
    } else {
        assert(sv[p - 1] == entry_view(v@[p - 1]));
        assert(sv.take(p as int).last() == sv[p - 1]);
    }
    assert(insert_by_path(sv.take(p as int), xv) =~= sv.take(p as int).push(xv));
    v.insert(p, x);
    assert(entry_views(v@) =~= sv.take(p as int).push(xv) + sv.skip(p as int));
}

/// Suffixes listed in ascending order, each once.
pub open spec fn suffix_order(counts: Seq<(Seq<char>, nat)>) -> bool {
    forall|i: int, j: int| 0 <= i < j < counts.len() ==> lex_lt(#[trigger] counts[i].0, #[trigger] counts[j].0)
}

/// How many files the counts give to suffix `k`.
pub open spec fn count_in(counts: Seq<(Seq<char>, nat)>, k: Seq<char>) -> nat
    decreases counts.len(),
{
    if counts.len() == 0 {
        0
    } else {
        count_in(counts.drop_last(), k) + if counts.last().0 == k {
            counts.last().1
        } else {
            0nat
        }
    }
}

/// Counting a file keeps the suffixes in ascending order, each once, adds
/// one to the count of its suffix, and leaves every other count as it was.
pub proof fn law_bump_counts(counts: Seq<(Seq<char>, nat)>, key: Seq<char>)
    requires
        suffix_order(counts),
    ensures
        suffix_order(bump(counts, key)),
        forall|k: Seq<char>| #[trigger] count_in(bump(counts, key), k) == count_in(counts, k) + if k == key {
            1nat
        } else {
            0nat
        },
        forall|i: int|
            0 <= i < bump(counts, key).len() ==> (#[trigger] bump(counts, key)[i]).0 == key || exists|j: int|
                0 <= j < counts.len() && counts[j].0 == bump(counts, key)[i].0,
    decreases counts.len(),
{
    let b = bump(counts, key);
    if counts.len() == 0 {
        assert forall|k: Seq<char>| #[trigger] count_in(b, k) == count_in(counts, k) + if k == key {
            1nat
        } else {
            0nat
        } by {
            assert(b =~= seq![(key, 1nat)]);
            assert(b.drop_last() =~= Seq::<(Seq<char>, nat)>::empty());
            assert(count_in(b.drop_last(), k) == 0);
        }
    } else {
        let dl = counts.drop_last();
        let last = counts.last();
        assert forall|i: int, j: int| 0 <= i < j < dl.len() implies lex_lt(#[trigger] dl[i].0, #[trigger] dl[j].0) by {
            assert(dl[i] == counts[i] && dl[j] == counts[j]);
        }
        if last.0 == key {
            assert(b.drop_last() =~= dl);
            assert forall|k: Seq<char>| #[trigger] count_in(b, k) == count_in(counts, k) + if k == key {
                1nat
            } else {
                0nat
            } by {
                assert(b.last() == (key, last.1 + 1));
            }
            assert forall|i: int, j: int| 0 <= i < j < b.len() implies lex_lt(#[trigger] b[i].0, #[trigger] b[j].0) by {
                assert(b[i].0 == counts[i].0 && b[j].0 == counts[j].0);
            }
            assert forall|i: int| 0 <= i < b.len() implies (#[trigger] b[i]).0 == key || exists|j: int|
                0 <= j < counts.len() && counts[j].0 == b[i].0 by {
                assert(counts[i].0 == b[i].0);
            }
        } else if lex_lt(key, last.0) {
            law_bump_counts(dl, key);
            let bd = bump(dl, key);
            assert(b.drop_last() =~= bd);
            assert forall|k: Seq<char>| #[trigger] count_in(b, k) == count_in(counts, k) + if k == key {
                1nat
            } else {
                0nat
            } by {
                assert(b.last() == last);
                assert(count_in(bd, k) == count_in(dl, k) + if k == key {
                    1nat
                } else {
                    0nat
                });
            }
            assert forall|i: int, j: int| 0 <= i < j < b.len() implies lex_lt(#[trigger] b[i].0, #[trigger] b[j].0) by {
                if j == b.len() - 1 {
                    assert(b[j] == last);
                    assert(b[i] == bd[i]);
                    if bd[i].0 != key {
                        let q = choose|q: int| 0 <= q < dl.len() && dl[q].0 == bd[i].0;
                        assert(dl[q] == counts[q]);
                        assert(lex_lt(counts[q].0, counts[counts.len() - 1].0));
                    }
                } else {
                    assert(b[i] == bd[i] && b[j] == bd[j]);
                }
            }
            assert forall|i: int| 0 <= i < b.len() implies (#[trigger] b[i]).0 == key || exists|j: int|
                0 <= j < counts.len() && counts[j].0 == b[i].0 by {
                if i == b.len() - 1 {
                    assert(counts[counts.len() - 1].0 == b[i].0);
                } else {
                    assert(b[i] == bd[i]);
                    if bd[i].0 != key {
                        let q = choose|q: int| 0 <= q < dl.len() && dl[q].0 == bd[i].0;
                        assert(counts[q].0 == b[i].0);
                    }
                }
            }
        } else {
            crate::text::lemma_lex_lt_total(key, last.0);
            assert(b.drop_last() =~= counts);
            assert forall|k: Seq<char>| #[trigger] count_in(b, k) == count_in(counts, k) + if k == key {
                1nat
            } else {
                0nat
            } by {
                assert(b.last() == (key, 1nat));
            }
            assert forall|i: int, j: int| 0 <= i < j < b.len() implies lex_lt(#[trigger] b[i].0, #[trigger] b[j].0) by {
                if j == b.len() - 1 {
                    assert(b[j].0 == key);
                    assert(b[i] == counts[i]);
                    if i < counts.len() - 1 {
                        crate::text::lemma_lex_lt_transitive(counts[i].0, last.0, key);
                    }
                } else {
                    assert(b[i] == counts[i] && b[j] == counts[j]);
                }
            }
            assert forall|i: int| 0 <= i < b.len() implies (#[trigger] b[i]).0 == key || exists|j: int|
                0 <= j < counts.len() && counts[j].0 == b[i].0 by {
                if i < b.len() - 1 {
                    assert(counts[i].0 == b[i].0);
                }
            }
        }
    }
}

impl WorkspaceSnapshot {
    /// An empty snapshot of a directory.
    pub fn new(cwd: &str) -> (s: Self)
        ensures
            s.cwd@ == cwd@,
            s.total_files == 0,
            s.total_dirs == 0,
            s.extension_counts@.len() == 0,
            s.entries@.len() == 0,
            snapshot_wf(s),
    {
        WorkspaceSnapshot {
            cwd: cwd.to_owned(),
            total_files: 0,
            total_dirs: 0,
            extension_counts: Vec::new(),
            entries: Vec::new(),
        }
    }

    /// Counts one more directory.
    pub fn record_dir(&mut self)
        requires
            old(self).total_dirs < usize::MAX,
        ensures
            final(self).total_dirs == old(self).total_dirs + 1,
            final(self).cwd == old(self).cwd,
            final(self).total_files == old(self).total_files,
            final(self).extension_counts == old(self).extension_counts,
            final(self).entries == old(self).entries,
    {
        self.total_dirs = self.total_dirs + 1;
    }

    /// Counts one more file, reached through `names` from the session
    /// directory, and adds its entry.
    pub fn record_file(&mut self, names: &Vec<String>, modified_utc: Option<String>, line_count: Option<usize>)
        requires
            snapshot_wf(*old(self)),
            old(self).total_files < usize::MAX,
            names.len() > 0,
        ensures
            snapshot_wf(*final(self)),
            final(self).total_files == old(self).total_files + 1,
            final(self).total_dirs == old(self).total_dirs,
            final(self).cwd == old(self).cwd,
            counts_view(final(self).extension_counts@) == bump(
                counts_view(old(self).extension_counts@),
                suffix_text(names@.last()@),
            ),
            entry_views(final(self).entries@) == entry_views(old(self).entries@).push(
                file_entry(
                    names@.map_values(|s: String| s@),
                    match modified_utc {
                        Some(m) => Some(m@),
                        None => None,
                    },
                    match line_count {
                        Some(n) => Some(n as nat),
                        None => None,
                    },
                ),
            ),
    {
        let ghost nv = names@.map_values(|s: String| s@);
        assert(nv.last() == names@.last()@);
        let suffix = file_suffix(names[names.len() - 1].as_str());
        let limit = self.total_files + 1;
        bump_count(&mut self.extension_counts, suffix.as_str(), limit);
        self.total_files = limit;
        let relative_path = relative_path_text(names);
        let modified = match modified_utc {
            Some(m) => m,
            None => "unknown".to_owned(),
        };
        let lines = match line_count {
            Some(n) => {
                let mut d: Vec<char> = Vec::new();
                push_decimal(&mut d, n as u64);
                assert(d@ =~= decimal(n as nat));
                string_of(&d)
            },
            None => "unknown".to_owned(),
        };
        let ghost before = entry_views(self.entries@);
        self.entries.push(WorkspaceSnapshotEntry { relative_path, modified_utc: modified, line_count: lines, suffix });
        assert(entry_views(self.entries@) =~= before.push(entry_view(self.entries@.last())));
    }

    /// Puts the entries in ascending order of their paths.
    pub fn sort_entries(&mut self)
        ensures
            entry_views(final(self).entries@) == sort_by_path(entry_views(old(self).entries@)),
            final(self).cwd == old(self).cwd,
            final(self).total_files == old(self).total_files,
            final(self).total_dirs == old(self).total_dirs,
            final(self).extension_counts == old(self).extension_counts,
    {
        let ghost ev = entry_views(self.entries@);
        let mut rest: Vec<WorkspaceSnapshotEntry> = Vec::new();
        std::mem::swap(&mut rest, &mut self.entries);
        let ghost all = rest@;
        assert(entry_views(all) == ev);
        let n = rest.len();
        let mut out: Vec<WorkspaceSnapshotEntry> = Vec::new();
        let mut k: usize = 0;
        assert(all.skip(0) =~= all);
        assert(entry_views(out@) =~= sort_by_path(ev.take(0)));
        while k < n
            invariant
                k <= n,
                n == all.len(),
                ev == entry_views(all),
                rest@ == all.skip(k as int),
                entry_views(out@) == sort_by_path(ev.take(k as int)),
            decreases n - k,
        {
            assert(rest@[0] == all[k as int]);
            let x = rest.remove(0);
            assert(rest@ =~= all.skip(k + 1));
            assert(ev.take(k + 1).drop_last() =~= ev.take(k as int));
            assert(ev.take(k + 1).last() == entry_view(x));
            insert_entry_by_path(&mut out, x);
            k = k + 1;
        }
        assert(ev.take(k as int) =~= ev);
        self.entries = out;
    }

    /// The suffix counts as text.
    pub fn extension_counts_text(&self) -> (r: String)
        ensures
            r@ == counts_text(counts_view(self.extension_counts@)),
    {
        if self.extension_counts.len() == 0 {
            return "none".to_owned();
        }
        let ghost cv = counts_view(self.extension_counts@);
        let ghost pv = cv.map_values(|c: (Seq<char>, nat)| c.0 + "="@ + decimal(c.1));
        let mut parts: Vec<Vec<char>> = Vec::new();
        let mut i: usize = 0;
        while i < self.extension_counts.len()
            invariant
                i <= self.extension_counts.len(),
                cv == counts_view(self.extension_counts@),
                pv == cv.map_values(|c: (Seq<char>, nat)| c.0 + "="@ + decimal(c.1)),
                parts@.map_values(|w: Vec<char>| w@) == pv.take(i as int),
            decreases self.extension_counts.len() - i,
        {
            let mut part: Vec<char> = Vec::new();
            push_str(&mut part, self.extension_counts[i].0.as_str());
            push_str(&mut part, "=");
            push_decimal(&mut part, self.extension_counts[i].1 as u64);
            assert(part@ =~= pv[i as int]);
            let ghost before = parts@.map_values(|w: Vec<char>| w@);
            parts.push(part);
            assert(parts@.map_values(|w: Vec<char>| w@) =~= before.push(pv[i as int]));
            assert(pv.take(i + 1) =~= pv.take(i as int).push(pv[i as int]));
            i = i + 1;
        }
        assert(pv.take(i as int) =~= pv);
        string_of(&join_chars(&parts, ", "))
    }

    /// The snapshot's text before it is cut to its line limit.
    pub fn lines_text(&self) -> (r: String)
        ensures
            r@ == snapshot_text(*self),
    {
        let mut out: Vec<char> = Vec::new();
        push_str(&mut out, "cwd: ");
        push_str(&mut out, self.cwd.as_str());
        push_str(&mut out, "\nscan_depth: ");
        push_decimal(&mut out, MAX_DEPTH as u64);
        push_str(&mut out, "\ntotal_files: ");
        push_decimal(&mut out, self.total_files as u64);
        push_str(&mut out, "\ntotal_dirs: ");
        push_decimal(&mut out, self.total_dirs as u64);
        push_str(&mut out, "\nsuffix_counts: ");
        let counts = self.extension_counts_text();
        push_str(&mut out, counts.as_str());
        push_str(&mut out, "\ncolumns: modified_utc | lines | suffix | path");
        let ghost head = out@;
        let ghost ev = entry_views(self.entries@);
        let mut i: usize = 0;
        while i < self.entries.len()
            invariant
                i <= self.entries.len(),
                ev == entry_views(self.entries@),
                out@ == head + entries_text(ev.take(i as int)),
            decreases self.entries.len() - i,
        {
            let e = &self.entries[i];
            assert(ev[i as int] == entry_view(*e));
            push_str(&mut out, "\n");
            push_str(&mut out, e.modified_utc.as_str());
            push_str(&mut out, " | ");
            push_str(&mut out, e.line_count.as_str());
            push_str(&mut out, " | ");
            push_str(&mut out, e.suffix.as_str());
            push_str(&mut out, " | ");
            push_str(&mut out, e.relative_path.as_str());
            assert(ev.take(i + 1).drop_last() =~= ev.take(i as int));
            assert(ev.take(i + 1).last() == ev[i as int]);
            assert(out@ =~= head + entries_text(ev.take(i + 1)));
            i = i + 1;
        }
        assert(ev.take(i as int) =~= ev);
        let r = string_of(&out);
        assert(r@ =~= snapshot_text(*self));
        r
    }
}

/// A snapshot's text, cut to its line limit, as a context fragment.
pub struct WorkspaceSnapshotText {
    pub text: String,
}

impl ContextualUserFragment for WorkspaceSnapshotText {
    const ROLE: &'static str = "user";
    const START_MARKER: &'static str = "<WORKSPACE_SNAPSHOT>";
    const END_MARKER: &'static str = "</WORKSPACE_SNAPSHOT>";

    open spec fn body_text(&self) -> Seq<char> {
        "\n"@ + self.text@ + "\n"@
    }

    fn body(&self) -> (r: String) {
        let mut out: Vec<char> = Vec::new();
        push_str(&mut out, "\n");
        push_str(&mut out, self.text.as_str());
        push_str(&mut out, "\n");
        string_of(&out)
    }
}

} // verus!
