//! The decisions of the git layer: which `git` arguments each diff mode
//! needs, how `git diff --name-status` and `--numstat` output becomes the
//! changed-file list, where each side of a file's diff is read from, and
//! how command output is cleaned up. Running `git` is left to the caller.

use vstd::prelude::*;
use vstd::string::*;

use crate::text::{
    lex_sorted, lines_of, lines_spec, parse_usize, parse_usize_spec, sort_strings, split_on,
    split_sep, str_eq, strs_view, trim, trim_spec,
};
use crate::types::{DiffMode, EntrySpec, FileEntry, FileStatus, ModeSpec, StatusSpec};

verus! {

// ---------------------------------------------------------------------
// Arguments
// ---------------------------------------------------------------------

/// The revision arguments of `git diff` for a mode: `base...HEAD`, `HEAD`,
/// `--cached`, or none.
pub open spec fn diff_args_spec(m: ModeSpec) -> Seq<Seq<char>> {
    match m {
        ModeSpec::BranchToBase(base) => seq![base + "...HEAD"@],
        ModeSpec::WorkingTree => seq!["HEAD"@],
        ModeSpec::Staged => seq!["--cached"@],
        ModeSpec::Unstaged => Seq::empty(),
    }
}

fn push_str(v: &mut Vec<String>, s: &str)
    ensures
        strs_view(final(v)@) == strs_view(old(v)@).push(s@),
{
    v.push(s.to_owned());
    assert(strs_view(v@) =~= strs_view(old(v)@).push(s@));
}

fn push_all(v: &mut Vec<String>, w: &Vec<String>)
    ensures
        strs_view(final(v)@) == strs_view(old(v)@) + strs_view(w@),
{
    let ghost base = strs_view(v@);
    let mut i: usize = 0;
    while i < w.len()
        invariant
            i <= w@.len(),
            strs_view(v@) == base + strs_view(w@).take(i as int),
        decreases w@.len() - i,
    {
        push_str(v, w[i].as_str());
        assert(strs_view(v@) =~= base + strs_view(w@).take(i + 1));
        i = i + 1;
    }
    assert(strs_view(w@).take(i as int) =~= strs_view(w@));
}

/// Diff range arguments for `git diff` corresponding to `mode`.
pub fn diff_args(mode: &DiffMode) -> (r: Vec<String>)
    ensures
        strs_view(r@) == diff_args_spec(mode@),
{
    let mut r: Vec<String> = Vec::new();
    match mode {
        DiffMode::BranchToBase { base } => {
            let arg = String::from_str(base.as_str()).concat("...HEAD");
            push_str(&mut r, arg.as_str());
        },
        DiffMode::WorkingTree => push_str(&mut r, "HEAD"),
        DiffMode::Staged => push_str(&mut r, "--cached"),
        DiffMode::Unstaged => {},
    }
    assert(strs_view(r@) =~= diff_args_spec(mode@));
    r
}

/// The arguments of `git diff --<kind> -M <range>`, where `kind` is
/// `name-status` or `numstat`.
pub open spec fn listing_args_spec(kind: Seq<char>, m: ModeSpec) -> Seq<Seq<char>> {
    seq!["diff"@, kind, "-M"@] + diff_args_spec(m)
}

/// Arguments listing changed files with their status letters.
pub fn name_status_args(mode: &DiffMode) -> (r: Vec<String>)
    ensures
        strs_view(r@) == listing_args_spec("--name-status"@, mode@),
{
    let mut r: Vec<String> = Vec::new();
    push_str(&mut r, "diff");
    push_str(&mut r, "--name-status");
    push_str(&mut r, "-M");
    let range = diff_args(mode);
    push_all(&mut r, &range);
    assert(strs_view(r@) =~= listing_args_spec("--name-status"@, mode@));
    r
}

/// Arguments listing changed files with their added/deleted line counts.
pub fn numstat_args(mode: &DiffMode) -> (r: Vec<String>)
    ensures
        strs_view(r@) == listing_args_spec("--numstat"@, mode@),
{
    let mut r: Vec<String> = Vec::new();
    push_str(&mut r, "diff");
    push_str(&mut r, "--numstat");
    push_str(&mut r, "-M");
    let range = diff_args(mode);
    push_all(&mut r, &range);
    assert(strs_view(r@) =~= listing_args_spec("--numstat"@, mode@));
    r
}

/// The arguments of plain unified `git diff` for a mode, optionally
/// limited to one path (`-- <path>`).
pub open spec fn unified_args_spec(m: ModeSpec, path: Option<Seq<char>>) -> Seq<Seq<char>> {
    let base = seq!["diff"@] + diff_args_spec(m);
    match path {
        Some(p) => base + seq!["--"@, p],
        None => base,
    }
}

/// Arguments of the plain unified `git diff` for `mode`, optionally limited
/// to one path.
pub fn unified_diff_args(mode: &DiffMode, path: Option<&str>) -> (r: Vec<String>)
    ensures
        strs_view(r@) == unified_args_spec(
            mode@,
            match path {
                Some(p) => Some(p@),
                None => None,
            },
        ),
{
    let mut r: Vec<String> = Vec::new();
    push_str(&mut r, "diff");
    let range = diff_args(mode);
    push_all(&mut r, &range);
    match path {
        Some(p) => {
            push_str(&mut r, "--");
            push_str(&mut r, p);
        },
        None => {},
    }
    assert(strs_view(r@) =~= unified_args_spec(
        mode@,
        match path {
            Some(p) => Some(p@),
            None => None,
        },
    ));
    r
}

/// The argument of `git show` for a file at a revision: `<rev>:<path>`.
pub fn show_arg(rev: &str, path: &str) -> (r: String)
    ensures
        r@ == rev@ + ":"@ + path@,
{
    String::from_str(rev).concat(":").concat(path)
}

// ---------------------------------------------------------------------
// Changed-file listing
// ---------------------------------------------------------------------

/// The status of a `--name-status` letter other than 'R'.
pub open spec fn status_from_letter(c: char) -> StatusSpec {
    if c == 'A' {
        StatusSpec::Added
    } else if c == 'M' {
        StatusSpec::Modified
    } else if c == 'D' {
        StatusSpec::Deleted
    } else {
        StatusSpec::Other(c)
    }
}

/// One `--name-status` line: tab-separated status field and path (for a
/// rename, the old and the new path); `None` when fields are missing or
/// the status field is empty.
pub open spec fn status_line_spec(line: Seq<char>) -> Option<(StatusSpec, Seq<char>)> {
    let p = split_sep(line, '\t');
    let f = p[0];
    if f.len() == 0 {
        None
    } else if f[0] == 'R' {
        if p.len() >= 3 {
            Some((StatusSpec::Renamed(p[1]), p[2]))
        } else {
            None
        }
    } else if p.len() >= 2 {
        Some((status_from_letter(f[0]), p[1]))
    } else {
        None
    }
}

/// The parsed rows of the first `n` lines, skipping empty and malformed ones.
pub open spec fn status_rows_upto(lines: Seq<Seq<char>>, n: int) -> Seq<(StatusSpec, Seq<char>)>
    decreases n,
{
    if n <= 0 {
        Seq::empty()
    } else {
        let prev = status_rows_upto(lines, n - 1);
        let line = lines[n - 1];
        if line.len() == 0 {
            prev
        } else {
            match status_line_spec(line) {
                Some(row) => prev.push(row),
                None => prev,
            }
        }
    }
}

/// The status rows of `git diff --name-status` output.
pub open spec fn status_rows_spec(out: Seq<char>) -> Seq<(StatusSpec, Seq<char>)> {
    status_rows_upto(lines_spec(out), lines_spec(out).len() as int)
}

/// A count field of `--numstat`: its number, or 0 when it does not parse.
pub open spec fn count_or_zero(s: Seq<char>) -> usize {
    match parse_usize_spec(s) {
        Some(v) => v,
        None => 0,
    }
}

/// One `--numstat` line: added and deleted counts, or binary when either
/// count is "-"; `None` when a field is missing.
pub open spec fn numstat_line_spec(line: Seq<char>) -> Option<(usize, usize, bool)> {
    let p = split_sep(line, '\t');
    if p.len() < 2 {
        None
    } else if p[0] == "-"@ || p[1] == "-"@ {
        Some((0usize, 0usize, true))
    } else {
        Some((count_or_zero(p[0]), count_or_zero(p[1]), false))
    }
}

/// The parsed rows of the first `n` lines, skipping empty and malformed ones.
pub open spec fn numstat_rows_upto(lines: Seq<Seq<char>>, n: int) -> Seq<(usize, usize, bool)>
    decreases n,
{
    if n <= 0 {
        Seq::empty()
    } else {
        let prev = numstat_rows_upto(lines, n - 1);
        let line = lines[n - 1];
        if line.len() == 0 {
            prev
        } else {
            match numstat_line_spec(line) {
                Some(row) => prev.push(row),
                None => prev,
            }
        }
    }
}

/// The count rows of `git diff --numstat` output.
pub open spec fn numstat_rows_spec(out: Seq<char>) -> Seq<(usize, usize, bool)> {
    numstat_rows_upto(lines_spec(out), lines_spec(out).len() as int)
}

/// The changed files: one entry per status row, with the counts of the
/// numstat row at the same position (zero and not binary when there is
/// none).
pub open spec fn changed_files_spec(name_status: Seq<char>, numstat: Seq<char>) -> Seq<EntrySpec> {
    let st = status_rows_spec(name_status);
    let ns = numstat_rows_spec(numstat);
    Seq::new(
        st.len(),
        |i: int|
            {
                let (a, d, b) = if i < ns.len() {
                    ns[i]
                } else {
                    (0usize, 0usize, false)
                };
                EntrySpec { path: st[i].1, status: st[i].0, additions: a, deletions: d, binary: b }
            },
    )
}

/// One parsed `--name-status` line.
fn status_line(line: &str) -> (r: Option<(FileStatus, String)>)
    ensures
        match r {
            Some((st, p)) => status_line_spec(line@) == Some((st@, p@)),
            None => status_line_spec(line@) is None,
        },
{
    let parts = split_on(line, '\t');
    let ghost p = split_sep(line@, '\t');
    assert(strs_view(parts@)[0] == parts@[0]@);
    let first = parts[0].as_str();
    if first.unicode_len() == 0 {
        return None;
    }
    let c = first.get_char(0);
    if c == 'R' {
        if parts.len() >= 3 {
            assert(strs_view(parts@)[1] == parts@[1]@);
            assert(strs_view(parts@)[2] == parts@[2]@);
            Some((FileStatus::Renamed { from: parts[1].clone() }, parts[2].clone()))
        } else {
            None
        }
    } else if parts.len() >= 2 {
        assert(strs_view(parts@)[1] == parts@[1]@);
        let status = if c == 'A' {
            FileStatus::Added
        } else if c == 'M' {
            FileStatus::Modified
        } else if c == 'D' {
            FileStatus::Deleted
        } else {
            FileStatus::Other(c)
        };
        Some((status, parts[1].clone()))
    } else {
        None
    }
}

fn count_field(s: &str) -> (r: usize)
    ensures
        r == count_or_zero(s@),
{
    match parse_usize(s) {
        Some(v) => v,
        None => 0,
    }
}

/// One parsed `--numstat` line.
fn numstat_line(line: &str) -> (r: Option<(usize, usize, bool)>)
    ensures
        r == numstat_line_spec(line@),
{
    let parts = split_on(line, '\t');
    if parts.len() < 2 {
        return None;
    }
    assert(strs_view(parts@)[0] == parts@[0]@);
    assert(strs_view(parts@)[1] == parts@[1]@);
    let adds = parts[0].as_str();
    let dels = parts[1].as_str();
    if str_eq(adds, "-") || str_eq(dels, "-") {
        Some((0, 0, true))
    } else {
        Some((count_field(adds), count_field(dels), false))
    }
}

/// The model of a list of changed files.
pub open spec fn entries_view(v: Seq<FileEntry>) -> Seq<EntrySpec> {
    v.map_values(|e: FileEntry| e@)
}

/// Changed files from the output of `git diff --name-status -M` and
/// `git diff --numstat -M` over the same range.
pub fn changed_files_from(name_status_out: &str, numstat_out: &str) -> (r: Vec<FileEntry>)
    ensures
        entries_view(r@) == changed_files_spec(name_status_out@, numstat_out@),
{
    let ns_lines = lines_of(name_status_out);
    let ghost nl = lines_spec(name_status_out@);
    let mut status_rows: Vec<(FileStatus, String)> = Vec::new();
    let mut i: usize = 0;
    while i < ns_lines.len()
        invariant
            strs_view(ns_lines@) == nl,
            i <= nl.len(),
            status_rows@.len() == status_rows_upto(nl, i as int).len(),
            forall|k: int|
                0 <= k < status_rows@.len() ==> ((#[trigger] status_rows@[k]).0@, status_rows@[k].1@)
                    == status_rows_upto(nl, i as int)[k],
        decreases nl.len() - i,
    {
        assert(strs_view(ns_lines@)[i as int] == ns_lines@[i as int]@);
        let line = ns_lines[i].as_str();
        if line.unicode_len() != 0 {
            match status_line(line) {
                Some(row) => {
                    status_rows.push(row);
                },
                None => {},
            }
        }
        i = i + 1;
    }
    let num_lines = lines_of(numstat_out);
    let ghost ml = lines_spec(numstat_out@);
    let mut numstat_rows: Vec<(usize, usize, bool)> = Vec::new();
    let mut j: usize = 0;
    while j < num_lines.len()
        invariant
            strs_view(num_lines@) == ml,
            j <= ml.len(),
            numstat_rows@ == numstat_rows_upto(ml, j as int),
        decreases ml.len() - j,
    {
        assert(strs_view(num_lines@)[j as int] == num_lines@[j as int]@);
        let line = num_lines[j].as_str();
        if line.unicode_len() != 0 {
            match numstat_line(line) {
                Some(row) => {
                    numstat_rows.push(row);
                },
                None => {},
            }
        }
        j = j + 1;
    }
    let ghost st = status_rows_spec(name_status_out@);
    let ghost ns = numstat_rows_spec(numstat_out@);
    let mut entries: Vec<FileEntry> = Vec::new();
    let mut k: usize = 0;
    while k < status_rows.len()
        invariant
            st == status_rows_spec(name_status_out@),
            ns == numstat_rows_spec(numstat_out@),
            status_rows@.len() == st.len(),
            forall|m: int| 0 <= m < status_rows@.len() ==> ((#[trigger] status_rows@[m]).0@, status_rows@[m].1@) == st[m],
            numstat_rows@ == ns,
            k <= st.len(),
            entries_view(entries@) == changed_files_spec(name_status_out@, numstat_out@).take(k as int),
        decreases st.len() - k,
    {
        let (additions, deletions, binary) = if k < numstat_rows.len() {
            numstat_rows[k]
        } else {
            (0, 0, false)
        };
        let entry = FileEntry {
            path: status_rows[k].1.clone(),
            status: status_rows[k].0.duplicate(),
            additions,
            deletions,
            binary,
        };
        let ghost before = entries@;
        proof {
            let spec_e = changed_files_spec(name_status_out@, numstat_out@)[k as int];
            assert(spec_e.path == st[k as int].1);
            assert(spec_e.status == st[k as int].0);
            assert(spec_e.additions == additions && spec_e.deletions == deletions && spec_e.binary == binary);
            assert(entry@ == spec_e);
        }
        entries.push(entry);
        assert(entries_view(entries@) =~= entries_view(before).push(entry@));
        assert(entries_view(entries@) =~= changed_files_spec(name_status_out@, numstat_out@).take(k + 1));
        k = k + 1;
    }
    assert(changed_files_spec(name_status_out@, numstat_out@).take(k as int) =~= changed_files_spec(
        name_status_out@,
        numstat_out@,
    ));
    entries
}

// ---------------------------------------------------------------------
// Reading the two sides of a file
// ---------------------------------------------------------------------

/// Where one side of a file's diff is read from.
#[derive(Debug, Clone, PartialEq, Eq)]
pub enum Source {
    /// Nothing to read: the side is empty (added or deleted file).
    Empty,
    /// `git show <rev>:<path>`, trying each revision in turn until one
    /// succeeds.
    Show { revs: Vec<String>, path: String },
    /// `git show <merge-base>:<path>`, where the merge base is the trimmed
    /// output of `git merge-base <base> HEAD`.
    MergeBase { base: String, path: String },
    /// The file as it is in the working tree.
    WorkTree { path: String },
}

/// Mathematical model of a [`Source`].
pub enum SourceSpec {
    Empty,
    Show(Seq<Seq<char>>, Seq<char>),
    MergeBase(Seq<char>, Seq<char>),
    WorkTree(Seq<char>),
}

impl View for Source {
    type V = SourceSpec;

    open spec fn view(&self) -> SourceSpec {
        match self {
            Source::Empty => SourceSpec::Empty,
            Source::Show { revs, path } => SourceSpec::Show(strs_view(revs@), path@),
            Source::MergeBase { base, path } => SourceSpec::MergeBase(base@, path@),
            Source::WorkTree { path } => SourceSpec::WorkTree(path@),
        }
    }
}

/// The old side of a diff: the merge base (branch mode), HEAD (working
/// tree and staged modes), or the index (unstaged mode, stage 0 first).
pub open spec fn old_source_spec(m: ModeSpec, path: Seq<char>) -> SourceSpec {
    match m {
        ModeSpec::BranchToBase(base) => SourceSpec::MergeBase(base, path),
        ModeSpec::WorkingTree => SourceSpec::Show(seq!["HEAD"@], path),
        ModeSpec::Staged => SourceSpec::Show(seq!["HEAD"@], path),
        ModeSpec::Unstaged => SourceSpec::Show(seq![":0"@, ":"@], path),
    }
}

/// The new side of a diff: HEAD (branch mode), the working tree (working
/// tree and unstaged modes) or the index (staged mode, stage 0 first).
pub open spec fn new_source_spec(m: ModeSpec, path: Seq<char>) -> SourceSpec {
    match m {
        ModeSpec::BranchToBase(_) => SourceSpec::Show(seq!["HEAD"@], path),
        ModeSpec::WorkingTree => SourceSpec::WorkTree(path),
        ModeSpec::Staged => SourceSpec::Show(seq![":0"@, ":"@], path),
        ModeSpec::Unstaged => SourceSpec::WorkTree(path),
    }
}

/// Where both sides of `entry` are read from: none for a binary file; an
/// added file has an empty old side, a deleted one an empty new side, and
/// a renamed file's old side is read at its old path.
pub open spec fn version_plan_spec(m: ModeSpec, e: EntrySpec) -> Option<(SourceSpec, SourceSpec)> {
    if e.binary {
        None
    } else {
        let old_path = match e.status {
            StatusSpec::Renamed(from) => from,
            _ => e.path,
        };
        let old = match e.status {
            StatusSpec::Added => SourceSpec::Empty,
            _ => old_source_spec(m, old_path),
        };
        let new = match e.status {
            StatusSpec::Deleted => SourceSpec::Empty,
            _ => new_source_spec(m, e.path),
        };
        Some((old, new))
    }
}

/// The three local modes chain through the index: working tree vs HEAD
/// starts where staged starts (the committed version at HEAD) and ends
/// where unstaged ends (the file in the working tree), and the staged
/// diff ends at the index, exactly where the unstaged diff starts. So in
/// unstaged mode the new side is the working-tree file, never the index
/// the old side is read from, and in working-tree mode the old side is
/// revision HEAD alone.
pub proof fn lemma_local_modes_chain(path: Seq<char>)
    ensures
        old_source_spec(ModeSpec::WorkingTree, path) == SourceSpec::Show(seq!["HEAD"@], path),
        old_source_spec(ModeSpec::Staged, path) == old_source_spec(ModeSpec::WorkingTree, path),
        new_source_spec(ModeSpec::Staged, path) == old_source_spec(ModeSpec::Unstaged, path),
        new_source_spec(ModeSpec::Unstaged, path) == SourceSpec::WorkTree(path),
        new_source_spec(ModeSpec::WorkingTree, path) == new_source_spec(ModeSpec::Unstaged, path),
        old_source_spec(ModeSpec::Unstaged, path) is Show,
        old_source_spec(ModeSpec::Unstaged, path) != old_source_spec(ModeSpec::WorkingTree, path),
{
    assert(seq![":0"@, ":"@].len() != seq!["HEAD"@].len());
}

/// In every mode the two sides of a file are read from different places,
/// so a diff compares two distinct versions; and both sides are read at
/// the path they are asked for.
pub proof fn lemma_sides_differ(m: ModeSpec, path: Seq<char>)
    ensures
        old_source_spec(m, path) != new_source_spec(m, path),
        match old_source_spec(m, path) {
            SourceSpec::Show(_, p) => p == path,
            SourceSpec::MergeBase(_, p) => p == path,
            SourceSpec::WorkTree(p) => p == path,
            SourceSpec::Empty => false,
        },
        match new_source_spec(m, path) {
            SourceSpec::Show(_, p) => p == path,
            SourceSpec::MergeBase(_, p) => p == path,
            SourceSpec::WorkTree(p) => p == path,
            SourceSpec::Empty => false,
        },
{
    assert(seq![":0"@, ":"@].len() != seq!["HEAD"@].len());
}

/// The path a source reads, if it reads one.
pub open spec fn source_path(s: SourceSpec) -> Option<Seq<char>> {
    match s {
        SourceSpec::Empty => None,
        SourceSpec::Show(_, p) => Some(p),
        SourceSpec::MergeBase(_, p) => Some(p),
        SourceSpec::WorkTree(p) => Some(p),
    }
}

/// A binary file gets no plan; otherwise the old side is empty exactly
/// for an added file and the new side exactly for a deleted one, the new
/// side reads the entry's path, the old side reads the path the file had
/// before (the rename's source for a renamed file), and each side that is
/// read comes from where the mode reads that side.
pub proof fn lemma_version_plan_sides(m: ModeSpec, e: EntrySpec)
    ensures
        version_plan_spec(m, e) is None <==> e.binary,
        !e.binary ==> {
            let (o, n) = version_plan_spec(m, e)->0;
            &&& (o is Empty <==> e.status is Added)
            &&& (n is Empty <==> e.status is Deleted)
            &&& (!(n is Empty) ==> n == new_source_spec(m, e.path) && source_path(n) == Some(e.path))
            &&& (!(o is Empty) ==> source_path(o) == Some(
                match e.status {
                    StatusSpec::Renamed(from) => from,
                    _ => e.path,
                },
            ))
            &&& (!(o is Empty) && !(e.status is Renamed) ==> o == old_source_spec(m, e.path))
        },
{
}

fn one_rev(rev: &str, path: &str) -> (r: Source)
    ensures
        r@ == SourceSpec::Show(seq![rev@], path@),
{
    let mut revs: Vec<String> = Vec::new();
    push_str(&mut revs, rev);
    assert(strs_view(revs@) =~= seq![rev@]);
    Source::Show { revs, path: path.to_owned() }
}

fn index_revs(path: &str) -> (r: Source)
    ensures
        r@ == SourceSpec::Show(seq![":0"@, ":"@], path@),
{
    let mut revs: Vec<String> = Vec::new();
    push_str(&mut revs, ":0");
    push_str(&mut revs, ":");
    assert(strs_view(revs@) =~= seq![":0"@, ":"@]);
    Source::Show { revs, path: path.to_owned() }
}

/// Where the old side of a diff is read from for `mode`.
pub fn old_source(mode: &DiffMode, old_path: &str) -> (r: Source)
    ensures
        r@ == old_source_spec(mode@, old_path@),
{
    match mode {
        DiffMode::BranchToBase { base } => Source::MergeBase { base: base.clone(), path: old_path.to_owned() },
        DiffMode::WorkingTree => one_rev("HEAD", old_path),
        DiffMode::Staged => one_rev("HEAD", old_path),
        DiffMode::Unstaged => index_revs(old_path),
    }
}

/// Where the new side of a diff is read from for `mode`.
pub fn new_source(mode: &DiffMode, path: &str) -> (r: Source)
    ensures
        r@ == new_source_spec(mode@, path@),
{
    match mode {
        DiffMode::BranchToBase { .. } => one_rev("HEAD", path),
        DiffMode::WorkingTree => Source::WorkTree { path: path.to_owned() },
        DiffMode::Staged => index_revs(path),
        DiffMode::Unstaged => Source::WorkTree { path: path.to_owned() },
    }
}

/// Where the old and new contents of `entry` are read from for `mode`;
/// `None` for a binary file, whose versions are both empty.
pub fn version_plan(mode: &DiffMode, entry: &FileEntry) -> (r: Option<(Source, Source)>)
    ensures
        version_plan_spec(mode@, entry@) == match r {
            Some((o, n)) => Some((o@, n@)),
            None => None,
        },
{
    if entry.binary {
        return None;
    }
    let old_path = match &entry.status {
        FileStatus::Renamed { from } => from.as_str(),
        _ => entry.path.as_str(),
    };
    let old = match &entry.status {
        FileStatus::Added => Source::Empty,
        _ => old_source(mode, old_path),
    };
    let new = match &entry.status {
        FileStatus::Deleted => Source::Empty,
        _ => new_source(mode, entry.path.as_str()),
    };
    Some((old, new))
}

/// Neither version of a modified file could be read.
#[derive(Debug, Clone, PartialEq, Eq)]
pub struct VersionsError {
    pub path: String,
    pub mode: DiffMode,
}

/// The contents of both sides: a side that could not be read is empty,
/// except that a modified file with neither side readable is an error.
pub open spec fn settle_spec(
    e: EntrySpec,
    old: Option<Seq<char>>,
    new: Option<Seq<char>>,
) -> Option<(Seq<char>, Seq<char>)> {
    if e.status is Modified && old is None && new is None {
        None
    } else {
        Some(
            (
                match old {
                    Some(o) => o,
                    None => Seq::empty(),
                },
                match new {
                    Some(n) => n,
                    None => Seq::empty(),
                },
            ),
        )
    }
}

/// The (old, new) contents of `entry` from what could be read of each
/// side (`None` where reading failed; an empty side reads as `Some("")`).
pub fn settle_versions(mode: &DiffMode, entry: &FileEntry, old: Option<String>, new: Option<String>) -> (r: Result<(String, String), VersionsError>)
    ensures
        match r {
            Ok((o, n)) => settle_spec(
                entry@,
                match old {
                    Some(s) => Some(s@),
                    None => None,
                },
                match new {
                    Some(s) => Some(s@),
                    None => None,
                },
            ) == Some((o@, n@)),
            Err(err) => settle_spec(
                entry@,
                match old {
                    Some(s) => Some(s@),
                    None => None,
                },
                match new {
                    Some(s) => Some(s@),
                    None => None,
                },
            ) is None && err.path@ == entry.path@ && err.mode@ == mode@,
        },
{
    let modified = match &entry.status {
        FileStatus::Modified => true,
        _ => false,
    };
    if modified && old.is_none() && new.is_none() {
        return Err(VersionsError { path: entry.path.clone(), mode: mode.duplicate() });
    }
    let o = match old {
        Some(s) => s,
        None => String::new(),
    };
    let n = match new {
        Some(s) => s,
        None => String::new(),
    };
    Ok((o, n))
}

// ---------------------------------------------------------------------
// Command output
// ---------------------------------------------------------------------

/// The current branch: the trimmed output of `git rev-parse --abbrev-ref
/// HEAD`, or "HEAD" when the command failed or printed nothing.
pub open spec fn branch_spec(out: Option<Seq<char>>) -> Seq<char> {
    match out {
        Some(o) => if trim_spec(o).len() > 0 {
            trim_spec(o)
        } else {
            "HEAD"@
        },
        None => "HEAD"@,
    }
}

/// Current branch name from the output of `git rev-parse --abbrev-ref
/// HEAD` (`None` when the command failed), or "HEAD" if it cannot be
/// determined (e.g. detached HEAD, empty repo).
pub fn branch_from(out: Option<&str>) -> (r: String)
    ensures
        r@ == branch_spec(
            match out {
                Some(o) => Some(o@),
                None => None,
            },
        ),
{
    match out {
        Some(o) => {
            let t = trim(o);
            if t.as_str().unicode_len() > 0 {
                t
            } else {
                String::from_str("HEAD")
            }
        },
        None => String::from_str("HEAD"),
    }
}

/// The candidates for the default base branch, in order of preference:
/// "main", then "master"; after them the current branch is used.
pub fn base_candidate(i: usize) -> (r: Option<&'static str>)
    ensures
        i == 0 ==> r == Some("main"),
        i == 1 ==> r == Some("master"),
        i > 1 ==> r is None,
{
    if i == 0 {
        Some("main")
    } else if i == 1 {
        Some("master")
    } else {
        None
    }
}

/// The non-empty trimmed lines of the first `n` lines.
pub open spec fn branch_names_upto(lines: Seq<Seq<char>>, n: int) -> Seq<Seq<char>>
    decreases n,
{
    if n <= 0 {
        Seq::empty()
    } else {
        let prev = branch_names_upto(lines, n - 1);
        let t = trim_spec(lines[n - 1]);
        if t.len() > 0 {
            prev.push(t)
        } else {
            prev
        }
    }
}

/// The branch names of `git branch --format=%(refname:short)` output: its
/// non-empty trimmed lines.
pub open spec fn branch_names_spec(out: Seq<char>) -> Seq<Seq<char>> {
    branch_names_upto(lines_spec(out), lines_spec(out).len() as int)
}

/// All local branches, sorted, from the output of
/// `git branch --format=%(refname:short)`.
pub fn branches_from(out: &str) -> (r: Vec<String>)
    ensures
        lex_sorted(strs_view(r@)),
        strs_view(r@).to_multiset() == branch_names_spec(out@).to_multiset(),
{
    let lines = lines_of(out);
    let ghost ls = lines_spec(out@);
    let mut names: Vec<String> = Vec::new();
    let mut i: usize = 0;
    while i < lines.len()
        invariant
            strs_view(lines@) == ls,
            i <= ls.len(),
            strs_view(names@) == branch_names_upto(ls, i as int),
        decreases ls.len() - i,
    {
        assert(strs_view(lines@)[i as int] == lines@[i as int]@);
        let t = trim(lines[i].as_str());
        if t.as_str().unicode_len() > 0 {
            let ghost before = names@;
            names.push(t);
            assert(strs_view(names@) =~= strs_view(before).push(t@));
        }
        i = i + 1;
    }
    sort_strings(names)
}

/// The repository root from the output of `git rev-parse --show-toplevel`:
/// the trimmed output, or `None` when it is empty.
pub fn toplevel_from(out: &str) -> (r: Option<String>)
    ensures
        match r {
            Some(root) => root@ == trim_spec(out@) && root@.len() > 0,
            None => trim_spec(out@).len() == 0,
        },
{
    let t = trim(out);
    if t.as_str().unicode_len() == 0 {
        None
    } else {
        Some(t)
    }
}

} // verus!
