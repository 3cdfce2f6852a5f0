//! Searching every changed file at once: the lines of each file that
//! contain a query, for the results popup.

use vstd::prelude::*;
use vstd::string::*;

use crate::git::entries_view;
use crate::search::{contains_match, has_match};
use crate::text::{lines_of, lines_spec, strs_view};
use crate::types::{EntrySpec, FileEntry, StatusSpec};

verus! {

/// A line of a changed file that contains the query.
#[derive(Debug, Clone, PartialEq, Eq)]
pub struct ProjectMatch {
    /// Index of the file in the file list.
    pub file_idx: usize,
    pub path: String,
    /// 1-based line number in the version searched.
    pub line_no: usize,
    pub line: String,
    /// Whether the line is from the old version (of a deleted file).
    pub in_old: bool,
}

/// Mathematical model of a [`ProjectMatch`].
pub struct MatchSpec {
    pub file_idx: usize,
    pub path: Seq<char>,
    pub line_no: usize,
    pub line: Seq<char>,
    pub in_old: bool,
}

impl View for ProjectMatch {
    type V = MatchSpec;

    open spec fn view(&self) -> MatchSpec {
        MatchSpec {
            file_idx: self.file_idx,
            path: self.path@,
            line_no: self.line_no,
            line: self.line@,
            in_old: self.in_old,
        }
    }
}

/// The model of a list of matches.
pub open spec fn matches_view(v: Seq<ProjectMatch>) -> Seq<MatchSpec> {
    v.map_values(|m: ProjectMatch| m@)
}

/// The model of the two versions of each file.
pub open spec fn texts_view(v: Seq<(String, String)>) -> Seq<(Seq<char>, Seq<char>)> {
    v.map_values(|t: (String, String)| (t.0@, t.1@))
}

/// The matches among the first `n` lines of `lines`, in order.
pub open spec fn line_hits(
    i: int,
    path: Seq<char>,
    lines: Seq<Seq<char>>,
    q: Seq<char>,
    in_old: bool,
    n: int,
) -> Seq<MatchSpec>
    decreases n,
{
    if n <= 0 {
        Seq::empty()
    } else {
        let prev = line_hits(i, path, lines, q, in_old, n - 1);
        if has_match(lines[n - 1], q) {
            prev.push(MatchSpec { file_idx: i as usize, path, line_no: n as usize, line: lines[n - 1], in_old })
        } else {
            prev
        }
    }
}

/// The version of a file that is searched: the new one, or the old one of
/// a deleted file.
pub open spec fn searched_side(e: EntrySpec, old: Seq<char>, new: Seq<char>) -> (Seq<char>, bool) {
    match e.status {
        StatusSpec::Deleted => (old, true),
        _ => (new, false),
    }
}

/// The matches in the first `n` files, in file order then line order.
pub open spec fn project_spec(files: Seq<EntrySpec>, texts: Seq<(Seq<char>, Seq<char>)>, q: Seq<char>, n: int) -> Seq<MatchSpec>
    decreases n,
{
    if n <= 0 {
        Seq::empty()
    } else {
        let prev = project_spec(files, texts, q, n - 1);
        if n - 1 < texts.len() {
            let (t, in_old) = searched_side(files[n - 1], texts[n - 1].0, texts[n - 1].1);
            let ls = lines_spec(t);
            prev + line_hits(n - 1, files[n - 1].path, ls, q, in_old, ls.len() as int)
        } else {
            prev
        }
    }
}

/// Append the lines of `text` that contain `query`.
fn push_hits(out: &mut Vec<ProjectMatch>, i: usize, path: &str, text: &str, query: &str, in_old: bool)
    ensures
        matches_view(final(out)@) == matches_view(old(out)@) + line_hits(
            i as int,
            path@,
            lines_spec(text@),
            query@,
            in_old,
            lines_spec(text@).len() as int,
        ),
{
    let lines = lines_of(text);
    let ghost ls = lines_spec(text@);
    let ghost base = matches_view(out@);
    let mut k: usize = 0;
    while k < lines.len()
        invariant
            strs_view(lines@) == ls,
            k <= lines@.len(),
            matches_view(out@) == base + line_hits(i as int, path@, ls, query@, in_old, k as int),
        decreases lines@.len() - k,
    {
        assert(ls[k as int] == lines@[k as int]@);
        if contains_match(lines[k].as_str(), query) {
            let m = ProjectMatch {
                file_idx: i,
                path: path.to_owned(),
                line_no: k + 1,
                line: lines[k].clone(),
                in_old,
            };
            let ghost before = out@;
            out.push(m);
            assert(matches_view(out@) =~= matches_view(before).push(m@));
        }
        k = k + 1;
    }
}

/// The lines of the changed files that contain `query` (smart-case): in
/// each file's new version, or the old version of a deleted file, given
/// as `texts[i]` = (old, new) for file `i`; none for an empty query.
pub fn project_matches(files: &Vec<FileEntry>, texts: &Vec<(String, String)>, query: &str) -> (r: Vec<ProjectMatch>)
    ensures
        matches_view(r@) == project_spec(entries_view(files@), texts_view(texts@), query@, files@.len() as int),
{
    let ghost es = entries_view(files@);
    let ghost ts = texts_view(texts@);
    let mut out: Vec<ProjectMatch> = Vec::new();
    let mut i: usize = 0;
    while i < files.len()
        invariant
            es == entries_view(files@),
            ts == texts_view(texts@),
            i <= files@.len(),
            matches_view(out@) == project_spec(es, ts, query@, i as int),
        decreases files@.len() - i,
    {
        assert(matches_view(out@) =~= project_spec(es, ts, query@, i as int));
        if i < texts.len() {
            assert(es[i as int] == files@[i as int]@);
            assert(ts[i as int] == (texts@[i as int].0@, texts@[i as int].1@));
            let deleted = match files[i].status {
                crate::types::FileStatus::Deleted => true,
                _ => false,
            };
            if deleted {
                push_hits(&mut out, i, files[i].path.as_str(), texts[i].0.as_str(), query, true);
            } else {
                push_hits(&mut out, i, files[i].path.as_str(), texts[i].1.as_str(), query, false);
            }
        }
        i = i + 1;
    }
    out
}

/// The results popup of a project-wide search: the query, its matches and
/// the selected match.
pub struct ProjectSearch {
    pub query: String,
    pub matches: Vec<ProjectMatch>,
    pub selected: usize,
}

/// The model of an optional results popup.
pub open spec fn project_view(p: Option<ProjectSearch>) -> Option<(Seq<char>, Seq<MatchSpec>, usize)> {
    match p {
        Some(p) => Some((p.query@, matches_view(p.matches@), p.selected)),
        None => None,
    }
}

} // verus!
