//! Search logic: smart-case matching within the current diff, path
//! filtering for the file panel, and the changed lines of a unified diff
//! for content filtering.

use vstd::prelude::*;
use vstd::string::*;

use crate::text::{
    chars_of, copy_str, fold, fold_char, has_prefix, is_upper, lines_of, lines_spec, parse_usize,
    parse_usize_spec, split_on, split_sep, starts_with, str_eq, strip_prefix, strs_view,
};
use crate::segments::{copy_segments, cut_segments, cut_segments_spec, lemma_cut_keeps_text, segments_text, segs_text, segs_view};
use crate::types::{cell_view, CellSpec, LineCell, RowSpec, SideBySideDiff};

use ratatui::style::Style;

verus! {

/// Which search prompt the user is typing into.
#[derive(Debug, Clone, Copy, PartialEq, Eq, Structural)]
pub enum SearchKind {
    /// Code search within the currently selected file's diff.
    File,
    /// Filter the file panel to files whose changed lines (added/removed
    /// lines only) contain the query.
    Content,
    /// Filter the file panel by file/folder name.
    PathFilter,
}

/// An in-progress search prompt (the user is still typing).
#[derive(Debug, Clone)]
pub struct SearchInput {
    pub kind: SearchKind,
    pub query: String,
}

/// A match within the aligned diff rows of the current file.
#[derive(Debug, Clone, Copy, PartialEq, Eq, Structural)]
pub struct RowMatch {
    /// Index into `SideBySideDiff::rows`.
    pub row: usize,
    /// The old (left) cell content matched.
    pub in_left: bool,
    /// The new (right) cell content matched.
    pub in_right: bool,
}

/// A committed in-file search: highlighted matches plus n/N cursor.
#[derive(Debug, Clone)]
pub struct FileSearch {
    pub query: String,
    pub matches: Vec<RowMatch>,
    /// Index into `matches` of the current match.
    pub current: usize,
}

// ---------------------------------------------------------------------
// Smart-case matching
// ---------------------------------------------------------------------

/// Smart case: a query with an ASCII uppercase letter is case-sensitive.
pub open spec fn case_sensitive(q: Seq<char>) -> bool {
    exists|i: int| 0 <= i < q.len() && is_upper(q[i])
}

/// Two characters match: exactly when case-sensitive, else up to ASCII case.
pub open spec fn char_match(a: char, b: char, cs: bool) -> bool {
    if cs {
        a == b
    } else {
        fold(a) == fold(b)
    }
}

/// `q` occurs in `h` at character position `i`.
pub open spec fn matches_at(h: Seq<char>, q: Seq<char>, i: int, cs: bool) -> bool {
    &&& 0 <= i
    &&& i + q.len() <= h.len()
    &&& forall|k: int| 0 <= k < q.len() ==> char_match(#[trigger] h[i + k], q[k], cs)
}

/// Leftmost non-overlapping occurrences of `q` in `h` at or after `i`:
/// scanning left to right, an occurrence is taken and the scan resumes at
/// its end; otherwise the scan moves one character on.
pub open spec fn ranges_from(h: Seq<char>, q: Seq<char>, i: int, cs: bool) -> Seq<(usize, usize)>
    decreases h.len() - i,
{
    if q.len() == 0 || i < 0 || i + q.len() > h.len() {
        Seq::empty()
    } else if matches_at(h, q, i, cs) {
        seq![(i as usize, (i + q.len()) as usize)] + ranges_from(h, q, i + q.len(), cs)
    } else {
        ranges_from(h, q, i + 1, cs)
    }
}

/// Char-index ranges of every non-overlapping occurrence of `q` in `h`,
/// smart-case.
pub open spec fn match_ranges_spec(h: Seq<char>, q: Seq<char>) -> Seq<(usize, usize)> {
    ranges_from(h, q, 0, case_sensitive(q))
}

/// `h` contains `q` (smart-case); never true of an empty query.
pub open spec fn has_match(h: Seq<char>, q: Seq<char>) -> bool {
    q.len() > 0 && exists|j: int| matches_at(h, q, j, case_sensitive(q))
}

/// Smart-case: a query containing any ASCII uppercase letter matches
/// case-sensitively; otherwise matching is ASCII-case-insensitive.
pub fn smart_case_sensitive(query: &str) -> (r: bool)
    ensures
        r == case_sensitive(query@),
{
    let q = chars_of(query);
    let mut i: usize = 0;
    while i < q.len()
        invariant
            q@ == query@,
            i <= q@.len(),
            forall|k: int| 0 <= k < i ==> !is_upper(q@[k]),
        decreases q@.len() - i,
    {
        if 'A' <= q[i] && q[i] <= 'Z' {
            return true;
        }
        i = i + 1;
    }
    false
}

/// Whether `q` occurs in `h` at position `i`.
fn matches_at_exec(h: &Vec<char>, q: &Vec<char>, i: usize, cs: bool) -> (r: bool)
    requires
        i + q@.len() <= h@.len(),
    ensures
        r == matches_at(h@, q@, i as int, cs),
{
    let hl = h.len();
    let mut k: usize = 0;
    while k < q.len()
        invariant
            hl == h@.len(),
            i + q@.len() <= h@.len(),
            k <= q@.len(),
            forall|j: int| 0 <= j < k ==> char_match(#[trigger] h@[i + j], q@[j], cs),
        decreases q@.len() - k,
    {
        let a = h[i + k];
        let b = q[k];
        let same = if cs {
            a == b
        } else {
            fold_char(a) == fold_char(b)
        };
        if !same {
            assert(!char_match(h@[i + k as int], q@[k as int], cs));
            return false;
        }
        k = k + 1;
    }
    true
}

/// Char-index ranges `(start, end)` (end exclusive) of every
/// non-overlapping occurrence of `query` in `haystack`, smart-case.
/// Empty query yields no ranges.
pub fn match_ranges(haystack: &str, query: &str) -> (r: Vec<(usize, usize)>)
    ensures
        r@ == match_ranges_spec(haystack@, query@),
{
    if query.is_empty() {
        return Vec::new();
    }
    let case_sensitive = smart_case_sensitive(query);
    let h = chars_of(haystack);
    let q = chars_of(query);
    let qlen = q.len();
    if qlen == 0 || h.len() < qlen {
        return Vec::new();
    }
    let mut ranges: Vec<(usize, usize)> = Vec::new();
    let mut i: usize = 0;
    while i <= h.len() - qlen
        invariant
            h@ == haystack@,
            q@ == query@,
            qlen == q@.len(),
            0 < qlen <= h@.len(),
            case_sensitive == crate::search::case_sensitive(query@),
            ranges@ + ranges_from(h@, q@, i as int, case_sensitive) == ranges_from(
                h@,
                q@,
                0,
                case_sensitive,
            ),
        decreases h@.len() - i,
    {
        if matches_at_exec(&h, &q, i, case_sensitive) {
            let ghost before = ranges@;
            ranges.push((i, i + qlen));
            proof {
                assert(ranges_from(h@, q@, i as int, case_sensitive) == seq![(i, (i + qlen) as usize)]
                    + ranges_from(h@, q@, i + qlen, case_sensitive));
                assert(before + (seq![(i, (i + qlen) as usize)] + ranges_from(
                    h@,
                    q@,
                    i + qlen,
                    case_sensitive,
                )) =~= ranges@ + ranges_from(h@, q@, i + qlen, case_sensitive));
            }
            i = i + qlen;
        } else {
            i = i + 1;
        }
    }
    assert(ranges_from(h@, q@, i as int, case_sensitive) =~= Seq::empty());
    assert(ranges@ =~= ranges@ + Seq::<(usize, usize)>::empty());
    ranges
}

/// One range of a search: an occurrence of `q` at or after `i`.
pub open spec fn good_range(h: Seq<char>, q: Seq<char>, i: int, cs: bool, r: (usize, usize)) -> bool {
    &&& i <= r.0
    &&& r.1 == r.0 + q.len()
    &&& matches_at(h, q, r.0 as int, cs)
}

/// Every range found from `i` on is a genuine occurrence, at or after
/// `i`, and the ranges are in order and do not overlap.
proof fn lemma_ranges_from_sound(h: Seq<char>, q: Seq<char>, i: int, cs: bool)
    requires
        0 <= i,
        h.len() <= usize::MAX,
    ensures
        forall|j: int|
            0 <= j < ranges_from(h, q, i, cs).len() ==> good_range(h, q, i, cs, #[trigger] ranges_from(h, q, i, cs)[j]),
        forall|j: int, k: int|
            0 <= j < k < ranges_from(h, q, i, cs).len() ==> (#[trigger] ranges_from(h, q, i, cs)[j]).1
                <= (#[trigger] ranges_from(h, q, i, cs)[k]).0,
    decreases h.len() - i,
{
    let all = ranges_from(h, q, i, cs);
    if q.len() == 0 || i + q.len() > h.len() {
    } else if matches_at(h, q, i, cs) {
        lemma_ranges_from_sound(h, q, i + q.len(), cs);
        let rest = ranges_from(h, q, i + q.len(), cs);
        let first = (i as usize, (i + q.len()) as usize);
        assert(all == seq![first] + rest);
        assert(first.0 as int == i);
        assert(first.1 as int == i + q.len());
        assert forall|j: int| 0 <= j < all.len() implies good_range(h, q, i, cs, #[trigger] all[j]) by {
            if j > 0 {
                assert(all[j] == rest[j - 1]);
                assert(good_range(h, q, i + q.len(), cs, rest[j - 1]));
            } else {
                assert(all[j] == first);
            }
        }
        assert forall|j: int, k: int| 0 <= j < k < all.len() implies (#[trigger] all[j]).1
            <= (#[trigger] all[k]).0 by {
            assert(all[k] == rest[k - 1]);
            assert(good_range(h, q, i + q.len(), cs, rest[k - 1]));
            if j > 0 {
                assert(all[j] == rest[j - 1]);
            } else {
                assert(all[j] == first);
            }
        }
    } else {
        lemma_ranges_from_sound(h, q, i + 1, cs);
        assert(all == ranges_from(h, q, i + 1, cs));
        assert forall|j: int| 0 <= j < all.len() implies good_range(h, q, i, cs, #[trigger] all[j]) by {
            assert(good_range(h, q, i + 1, cs, all[j]));
        }
    }
}

/// Some range is found from `i` on exactly when `q` occurs at or after `i`.
proof fn lemma_ranges_from_nonempty(h: Seq<char>, q: Seq<char>, i: int, cs: bool)
    requires
        0 <= i,
        q.len() > 0,
    ensures
        (ranges_from(h, q, i, cs).len() > 0) <==> (exists|j: int| i <= j && matches_at(h, q, j, cs)),
    decreases h.len() - i,
{
    if i + q.len() > h.len() {
        assert forall|j: int| i <= j implies !matches_at(h, q, j, cs) by {
        }
    } else if matches_at(h, q, i, cs) {
        assert(ranges_from(h, q, i, cs)[0] == (i as usize, (i + q.len()) as usize));
    } else {
        lemma_ranges_from_nonempty(h, q, i + 1, cs);
        if exists|j: int| i <= j && matches_at(h, q, j, cs) {
            let j = choose|j: int| i <= j && matches_at(h, q, j, cs);
            assert(j != i);
            assert(i + 1 <= j);
        }
    }
}

/// The ranges of a search are nonempty exactly when there is a match.
pub proof fn lemma_match_ranges_nonempty(h: Seq<char>, q: Seq<char>)
    ensures
        (match_ranges_spec(h, q).len() > 0) == has_match(h, q),
{
    if q.len() > 0 {
        lemma_ranges_from_nonempty(h, q, 0, case_sensitive(q));
        if has_match(h, q) {
            let j = choose|j: int| matches_at(h, q, j, case_sensitive(q));
            assert(0 <= j && matches_at(h, q, j, case_sensitive(q)));
        }
    }
}

/// Every range that a search returns is an occurrence of the query (under
/// smart case), with the query's length, inside the haystack; the ranges
/// come in order and do not overlap.
pub proof fn lemma_match_ranges_sound(h: Seq<char>, q: Seq<char>)
    requires
        h.len() <= usize::MAX,
    ensures
        forall|j: int|
            0 <= j < match_ranges_spec(h, q).len() ==> good_range(h, q, 0, case_sensitive(q), #[trigger] match_ranges_spec(h, q)[j]),
        forall|j: int|
            0 <= j < match_ranges_spec(h, q).len() ==> (#[trigger] match_ranges_spec(h, q)[j]).1 <= h.len(),
        forall|j: int, k: int|
            0 <= j < k < match_ranges_spec(h, q).len() ==> (#[trigger] match_ranges_spec(h, q)[j]).1
                <= (#[trigger] match_ranges_spec(h, q)[k]).0,
{
    lemma_ranges_from_sound(h, q, 0, case_sensitive(q));
}

/// Whether `h` contains `q` (smart-case); false for an empty query.
pub(crate) fn contains_match(h: &str, q: &str) -> (r: bool)
    ensures
        r == has_match(h@, q@),
{
    let ranges = match_ranges(h, q);
    proof {
        lemma_match_ranges_nonempty(h@, q@);
    }
    ranges.len() > 0
}

// ---------------------------------------------------------------------
// Searching the aligned rows of a diff
// ---------------------------------------------------------------------

/// A pane cell contains the query.
pub open spec fn cell_hit(c: Option<CellSpec>, q: Seq<char>) -> bool {
    match c {
        Some(c) => has_match(c.content, q),
        None => false,
    }
}

/// The matches among the first `n` rows, in row order.
pub open spec fn search_rows(rows: Seq<RowSpec>, q: Seq<char>, n: int) -> Seq<RowMatch>
    decreases n,
{
    if n <= 0 {
        Seq::empty()
    } else {
        let prev = search_rows(rows, q, n - 1);
        let l = cell_hit(rows[n - 1].left, q);
        let r = cell_hit(rows[n - 1].right, q);
        if l || r {
            prev.push(RowMatch { row: (n - 1) as usize, in_left: l, in_right: r })
        } else {
            prev
        }
    }
}

/// Whether an optional cell contains the query.
fn cell_contains(c: &Option<LineCell>, query: &str) -> (r: bool)
    ensures
        r == cell_hit(cell_view(*c), query@),
{
    match c {
        Some(cell) => contains_match(cell.content.as_str(), query),
        None => false,
    }
}

/// All rows of `diff` whose left or right cell content contains `query`
/// (smart-case), in row order. Empty query yields no matches.
pub fn search_diff(diff: &SideBySideDiff, query: &str) -> (r: Vec<RowMatch>)
    ensures
        r@ == search_rows(diff@, query@, diff@.len() as int),
{
    if query.is_empty() {
        proof {
            lemma_search_rows_empty(diff@, query@, diff@.len() as int);
        }
        return Vec::new();
    }
    let mut out: Vec<RowMatch> = Vec::new();
    let mut idx: usize = 0;
    while idx < diff.rows.len()
        invariant
            idx <= diff.rows@.len(),
            out@ == search_rows(diff@, query@, idx as int),
        decreases diff.rows@.len() - idx,
    {
        let row = &diff.rows[idx];
        let in_left = cell_contains(&row.left, query);
        let in_right = cell_contains(&row.right, query);
        assert(diff@[idx as int] == row@);
        if in_left || in_right {
            out.push(RowMatch { row: idx, in_left, in_right });
        }
        idx = idx + 1;
    }
    out
}

/// With an empty query no row matches.
proof fn lemma_search_rows_empty(rows: Seq<RowSpec>, q: Seq<char>, n: int)
    requires
        q.len() == 0,
    ensures
        search_rows(rows, q, n) == Seq::<RowMatch>::empty(),
    decreases n,
{
    if n > 0 {
        lemma_search_rows_empty(rows, q, n - 1);
    }
}

// ---------------------------------------------------------------------
// Path filter
// ---------------------------------------------------------------------

/// `path` passes the file-panel filter: ASCII-case-insensitive substring.
pub open spec fn path_filter_spec(path: Seq<char>, filter: Seq<char>) -> bool {
    filter.len() == 0 || exists|i: int| matches_at(path, filter, i, false)
}

/// Whether `path` passes the file-panel filter: ASCII-case-insensitive
/// substring match on the full path (so folder names match too).
/// An empty filter matches everything.
pub fn path_matches(path: &str, filter: &str) -> (r: bool)
    ensures
        r == path_filter_spec(path@, filter@),
{
    if filter.is_empty() {
        return true;
    }
    let p = chars_of(path);
    let f = chars_of(filter);
    if f.len() > p.len() {
        assert forall|i: int| !matches_at(path@, filter@, i, false) by {
        }
        return false;
    }
    let mut i: usize = 0;
    while i <= p.len() - f.len()
        invariant
            p@ == path@,
            f@ == filter@,
            f@.len() <= p@.len(),
            forall|j: int| 0 <= j < i ==> !matches_at(path@, filter@, j, false),
        decreases p@.len() - i,
    {
        if matches_at_exec(&p, &f, i, false) {
            return true;
        }
        i = i + 1;
    }
    assert forall|j: int| !matches_at(path@, filter@, j, false) by {
    }
    false
}

/// Whether some line contains `q` (smart-case); an empty query matches
/// everything.
pub open spec fn any_line_spec(lines: Seq<Seq<char>>, q: Seq<char>) -> bool {
    q.len() == 0 || exists|i: int| 0 <= i < lines.len() && has_match(#[trigger] lines[i], q)
}

/// Whether any of `lines` contains `query` (smart-case). An empty query
/// matches everything, mirroring `path_matches`.
pub fn any_line_matches(lines: &[String], query: &str) -> (r: bool)
    ensures
        r == (query@.len() == 0 || exists|i: int| 0 <= i < lines@.len() && has_match(#[trigger] lines@[i]@, query@)),
{
    if query.is_empty() {
        return true;
    }
    let mut i: usize = 0;
    while i < lines.len()
        invariant
            query@.len() > 0,
            i <= lines@.len(),
            forall|k: int| 0 <= k < i ==> !has_match(#[trigger] lines@[k]@, query@),
        decreases lines@.len() - i,
    {
        if contains_match(lines[i].as_str(), query) {
            return true;
        }
        i = i + 1;
    }
    false
}

// ---------------------------------------------------------------------
// Changed lines of a unified diff
// ---------------------------------------------------------------------

/// Changed-line contents per file: a map from path to the added and
/// removed lines of that file, in diff order.
pub struct ChangedLines {
    keys: Vec<String>,
    vals: Vec<Vec<String>>,
}

/// Position of `k` among distinct keys.
pub open spec fn key_index(keys: Seq<Seq<char>>, k: Seq<char>) -> int {
    choose|i: int| 0 <= i < keys.len() && keys[i] == k
}

impl View for ChangedLines {
    type V = Map<Seq<char>, Seq<Seq<char>>>;

    closed spec fn view(&self) -> Map<Seq<char>, Seq<Seq<char>>> {
        Map::new(
            |k: Seq<char>| strs_view(self.keys@).contains(k),
            |k: Seq<char>| strs_view(self.vals@[key_index(strs_view(self.keys@), k)]@),
        )
    }
}

/// Deep copy of a list of strings.
pub fn copy_strings(v: &Vec<String>) -> (r: Vec<String>)
    ensures
        strs_view(r@) == strs_view(v@),
{
    let mut r: Vec<String> = Vec::new();
    let mut i: usize = 0;
    while i < v.len()
        invariant
            i <= v@.len(),
            strs_view(r@) == strs_view(v@).take(i as int),
        decreases v@.len() - i,
    {
        let ghost before = r@;
        let c = copy_str(v[i].as_str());
        r.push(c);
        assert(strs_view(r@) =~= strs_view(before).push(c@));
        assert(strs_view(r@) =~= strs_view(v@).take(i + 1));
        i = i + 1;
    }
    assert(strs_view(v@).take(i as int) =~= strs_view(v@));
    r
}

impl ChangedLines {
    /// Well-formedness: one value per key, and no key twice.
    pub closed spec fn wf(&self) -> bool {
        &&& self.keys@.len() == self.vals@.len()
        &&& strs_view(self.keys@).no_duplicates()
    }

    /// An empty map.
    pub fn new() -> (r: ChangedLines)
        ensures
            r.wf(),
            r@ == Map::<Seq<char>, Seq<Seq<char>>>::empty(),
    {
        let r = ChangedLines { keys: Vec::new(), vals: Vec::new() };
        assert(r@ =~= Map::<Seq<char>, Seq<Seq<char>>>::empty());
        r
    }

    /// Number of paths with changed lines.
    pub fn len(&self) -> (r: usize)
        requires
            self.wf(),
        ensures
            r == self@.dom().len(),
    {
        proof {
            self.lemma_dom();
        }
        self.keys.len()
    }

    /// Whether no path has changed lines.
    pub fn is_empty(&self) -> (r: bool)
        requires
            self.wf(),
        ensures
            r == (self@.dom().len() == 0),
    {
        proof {
            self.lemma_dom();
        }
        self.keys.len() == 0
    }

    proof fn lemma_dom(&self)
        requires
            self.wf(),
        ensures
            self@.dom() == strs_view(self.keys@).to_set(),
            self@.dom().len() == self.keys@.len(),
    {
        assert(self@.dom() =~= strs_view(self.keys@).to_set());
        strs_view(self.keys@).unique_seq_to_set();
    }

    /// Position of `path` among the keys.
    fn find(&self, path: &str) -> (r: Option<usize>)
        requires
            self.wf(),
        ensures
            match r {
                Some(i) => i < self.keys@.len() && self.keys@[i as int]@ == path@,
                None => !strs_view(self.keys@).contains(path@),
            },
    {
        let mut i: usize = 0;
        while i < self.keys.len()
            invariant
                self.wf(),
                i <= self.keys@.len(),
                forall|j: int| 0 <= j < i ==> self.keys@[j]@ != path@,
            decreases self.keys@.len() - i,
        {
            if str_eq(self.keys[i].as_str(), path) {
                return Some(i);
            }
            i = i + 1;
        }
        assert forall|j: int| 0 <= j < strs_view(self.keys@).len() implies strs_view(self.keys@)[j]
            != path@ by {
            assert(strs_view(self.keys@)[j] == self.keys@[j]@);
        }
        None
    }

    proof fn lemma_index(&self, i: int)
        requires
            self.wf(),
            0 <= i < self.keys@.len(),
        ensures
            key_index(strs_view(self.keys@), self.keys@[i]@) == i,
            self@.contains_key(self.keys@[i]@),
            self@[self.keys@[i]@] == strs_view(self.vals@[i]@),
    {
        let ks = strs_view(self.keys@);
        assert(ks[i] == self.keys@[i]@);
        let j = key_index(ks, self.keys@[i]@);
        assert(0 <= j < ks.len() && ks[j] == ks[i]);
    }

    /// The changed lines of `path`, if it has any.
    pub fn get(&self, path: &str) -> (r: Option<&Vec<String>>)
        requires
            self.wf(),
        ensures
            match r {
                Some(v) => self@.contains_key(path@) && strs_view(v@) == self@[path@],
                None => !self@.contains_key(path@),
            },
    {
        match self.find(path) {
            Some(i) => {
                proof {
                    self.lemma_index(i as int);
                }
                Some(&self.vals[i])
            },
            None => None,
        }
    }

    /// Append `lines` to the lines of `key` (a new key starts empty).
    fn add(&mut self, key: &str, lines: &Vec<String>)
        requires
            old(self).wf(),
        ensures
            final(self).wf(),
            final(self)@ == old(self)@.insert(
                key@,
                (if old(self)@.contains_key(key@) {
                    old(self)@[key@]
                } else {
                    Seq::empty()
                }) + strs_view(lines@),
            ),
    {
        let ghost old_map = self@;
        let ghost old_keys = strs_view(self.keys@);
        match self.find(key) {
            Some(i) => {
                proof {
                    self.lemma_index(i as int);
                }
                let mut merged = copy_strings(&self.vals[i]);
                let mut j: usize = 0;
                let ghost base = strs_view(merged@);
                while j < lines.len()
                    invariant
                        j <= lines@.len(),
                        strs_view(merged@) == base + strs_view(lines@).take(j as int),
                    decreases lines@.len() - j,
                {
                    let ghost before = merged@;
                    let c = copy_str(lines[j].as_str());
                    merged.push(c);
                    assert(strs_view(merged@) =~= strs_view(before).push(c@));
                    assert(strs_view(merged@) =~= base + strs_view(lines@).take(j + 1));
                    j = j + 1;
                }
                assert(strs_view(lines@).take(j as int) =~= strs_view(lines@));
                self.vals.set(i, merged);
                assert(strs_view(self.keys@) == old_keys);
                assert forall|k: Seq<char>| #![auto] self@.contains_key(k) == old_map.insert(
                    key@,
                    old_map[key@] + strs_view(lines@),
                ).contains_key(k) by {
                }
                assert forall|k: Seq<char>| #![auto] self@.contains_key(k) implies self@[k]
                    == old_map.insert(key@, old_map[key@] + strs_view(lines@))[k] by {
                    let ix = key_index(old_keys, k);
                    if k == key@ {
                        assert(old_keys[i as int] == key@);
                    } else {
                        assert(0 <= ix < old_keys.len() && old_keys[ix] == k);
                        assert(ix != i);
                    }
                }
                assert(self@ =~= old_map.insert(key@, old_map[key@] + strs_view(lines@)));
            },
            None => {
                let k = copy_str(key);
                let v = copy_strings(lines);
                self.keys.push(k);
                self.vals.push(v);
                let ghost new_keys = strs_view(self.keys@);
                assert(new_keys =~= old_keys.push(key@));
                assert forall|a: int, b: int|
                    0 <= a < new_keys.len() && 0 <= b < new_keys.len() && a != b implies new_keys[a]
                    != new_keys[b] by {
                    if a < old_keys.len() && b < old_keys.len() {
                        assert(new_keys[a] == old_keys[a]);
                        assert(new_keys[b] == old_keys[b]);
                    } else if a < old_keys.len() {
                        assert(new_keys[a] == old_keys[a]);
                        assert(old_keys.contains(new_keys[a]));
                    } else {
                        assert(new_keys[b] == old_keys[b]);
                        assert(old_keys.contains(new_keys[b]));
                    }
                }
                assert forall|k: Seq<char>| #![auto] self@.contains_key(k) == old_map.insert(
                    key@,
                    Seq::empty() + strs_view(lines@),
                ).contains_key(k) by {
                    if new_keys.contains(k) {
                        let ix = choose|ix: int| 0 <= ix < new_keys.len() && new_keys[ix] == k;
                        if ix < old_keys.len() {
                            assert(old_keys[ix] == k);
                        }
                    }
                    if old_keys.contains(k) {
                        let ix = choose|ix: int| 0 <= ix < old_keys.len() && old_keys[ix] == k;
                        assert(new_keys[ix] == k);
                    }
                    if k == key@ {
                        assert(new_keys[old_keys.len() as int] == k);
                    }
                }
                assert forall|k: Seq<char>| #![auto] self@.contains_key(k) implies self@[k]
                    == old_map.insert(key@, Seq::empty() + strs_view(lines@))[k] by {
                    let ix = key_index(new_keys, k);
                    assert(0 <= ix < new_keys.len() && new_keys[ix] == k);
                    if k == key@ {
                        assert(ix == old_keys.len());
                        assert(Seq::empty() + strs_view(lines@) =~= strs_view(lines@));
                    } else {
                        assert(ix < old_keys.len());
                        assert(old_keys[ix] == k);
                        let ox = key_index(old_keys, k);
                        assert(0 <= ox < old_keys.len() && old_keys[ox] == k);
                        assert(new_keys[ox] == k);
                        assert(ox == ix);
                    }
                }
                assert(self@ =~= old_map.insert(key@, Seq::empty() + strs_view(lines@)));
            },
        }
    }
}

/// The scanner's state after reading some lines of a unified diff.
pub struct ParseState {
    /// Changed lines collected so far.
    pub out: Map<Seq<char>, Seq<Seq<char>>>,
    /// Path of the last `--- ` header (None for `/dev/null`).
    pub pre_path: Option<Seq<char>>,
    /// Path the current section's lines belong to.
    pub key: Option<Seq<char>>,
    /// Changed lines of the current section not yet collected.
    pub lines: Seq<Seq<char>>,
    /// Whether a `+++ ` header has been read in the current file.
    pub in_section: bool,
    /// Whether the scanner is inside a hunk (after an `@@` line, until the
    /// lines its header counts have been read): there every line starting
    /// with '+' or '-' is a changed line, even one that reads like a `--- `
    /// or `+++ ` header.
    pub in_hunk: bool,
    /// Whether the current hunk's header gave its line counts; a hunk whose
    /// header does not lasts until the next `diff --git` line.
    pub counted: bool,
    /// Lines of the old version the current hunk still covers.
    pub old_left: usize,
    /// Lines of the new version the current hunk still covers.
    pub new_left: usize,
}

/// The number of lines a hunk range covers: "A,B" covers B lines and a
/// lone "A" covers one, where A and B are decimal `usize` numbers.
pub open spec fn range_count(r: Seq<char>) -> Option<usize> {
    let parts = split_sep(r, ',');
    if parts.len() == 1 {
        match parse_usize_spec(parts[0]) {
            Some(_) => Some(1usize),
            None => None,
        }
    } else if parts.len() == 2 {
        match (parse_usize_spec(parts[0]), parse_usize_spec(parts[1])) {
            (Some(_), Some(b)) => Some(b),
            _ => None,
        }
    } else {
        None
    }
}

/// The old and new line counts of a hunk header `@@ -A,B +C,D @@ ...`,
/// when the line has that form.
pub open spec fn hunk_counts(line: Seq<char>) -> Option<(usize, usize)> {
    let words = split_sep(line, ' ');
    if words.len() >= 4 && words[0] == "@@"@ && words[3] == "@@"@ && has_prefix(words[1], "-"@)
        && has_prefix(words[2], "+"@) {
        match (range_count(after(words[1], 1)), range_count(after(words[2], 1))) {
            (Some(o), Some(n)) => Some((o, n)),
            _ => None,
        }
    } else {
        None
    }
}

/// One line of a hunk counted off: a removed line uses up a line of the
/// old version, an added line one of the new, a context line one of each,
/// and a `\` note none. The hunk ends when both counts are used up.
pub open spec fn count_off(st: ParseState, line: Seq<char>) -> ParseState {
    if !st.counted || has_prefix(line, "\\"@) {
        st
    } else {
        let o = if has_prefix(line, "+"@) || st.old_left == 0 {
            st.old_left
        } else {
            (st.old_left - 1) as usize
        };
        let n = if has_prefix(line, "-"@) || st.new_left == 0 {
            st.new_left
        } else {
            (st.new_left - 1) as usize
        };
        ParseState { old_left: o, new_left: n, in_hunk: o > 0 || n > 0, ..st }
    }
}

/// The state at an `@@` line: a hunk begins, with the counts its header
/// gives when it gives them.
pub open spec fn hunk_start(st: ParseState, line: Seq<char>) -> ParseState {
    match hunk_counts(line) {
        Some((o, n)) => ParseState { in_hunk: o > 0 || n > 0, counted: true, old_left: o, new_left: n, ..st },
        None => ParseState { in_hunk: true, counted: false, old_left: 0, new_left: 0, ..st },
    }
}

/// Collect `lines` under `key`, appended to what the key already has.
pub open spec fn flush_spec(
    out: Map<Seq<char>, Seq<Seq<char>>>,
    key: Option<Seq<char>>,
    lines: Seq<Seq<char>>,
) -> Map<Seq<char>, Seq<Seq<char>>> {
    match key {
        Some(k) => if lines.len() > 0 {
            out.insert(
                k,
                (if out.contains_key(k) {
                    out[k]
                } else {
                    Seq::empty()
                }) + lines,
            )
        } else {
            out
        },
        None => out,
    }
}

/// A header path without its leading `a/` or `b/`.
pub open spec fn strip_ab(p: Seq<char>) -> Seq<char> {
    if has_prefix(p, "a/"@) {
        p.subrange("a/"@.len() as int, p.len() as int)
    } else if has_prefix(p, "b/"@) {
        p.subrange("b/"@.len() as int, p.len() as int)
    } else {
        p
    }
}

/// A header path: `/dev/null` stands for no file.
pub open spec fn header_path(p: Seq<char>) -> Option<Seq<char>> {
    if p == "/dev/null"@ {
        None
    } else {
        Some(strip_ab(p))
    }
}

/// `s` without its first `n` characters.
pub open spec fn after(s: Seq<char>, n: nat) -> Seq<char> {
    s.subrange(n as int, s.len() as int)
}

/// A changed line of the current section collected, when `line` is one.
pub open spec fn collect(st: ParseState, line: Seq<char>) -> ParseState {
    if !st.in_section || has_prefix(line, "\\"@) {
        st
    } else if has_prefix(line, "+"@) {
        ParseState { lines: st.lines.push(after(line, "+"@.len())), ..st }
    } else if has_prefix(line, "-"@) {
        ParseState { lines: st.lines.push(after(line, "-"@.len())), ..st }
    } else {
        st
    }
}

/// Reading one line of a unified diff. A `diff --git` line starts a new
/// file; outside hunks, `--- ` and `+++ ` lines name a file's paths and an
/// `@@` line starts a hunk; inside a hunk, lines are content.
pub open spec fn parse_step(st: ParseState, line: Seq<char>) -> ParseState {
    if has_prefix(line, "diff --git "@) {
        ParseState {
            out: flush_spec(st.out, st.key, st.lines),
            pre_path: None,
            key: None,
            lines: Seq::empty(),
            in_section: false,
            in_hunk: false,
            counted: false,
            old_left: 0,
            new_left: 0,
        }
    } else if st.in_hunk {
        count_off(collect(st, line), line)
    } else if has_prefix(line, "--- "@) {
        ParseState {
            out: flush_spec(st.out, st.key, st.lines),
            pre_path: header_path(after(line, "--- "@.len())),
            key: None,
            lines: Seq::empty(),
            in_section: false,
            in_hunk: false,
            counted: false,
            old_left: 0,
            new_left: 0,
        }
    } else if has_prefix(line, "+++ "@) {
        let path = after(line, "+++ "@.len());
        ParseState {
            key: if path == "/dev/null"@ {
                st.pre_path
            } else {
                Some(strip_ab(path))
            },
            in_section: true,
            ..st
        }
    } else if st.in_section && has_prefix(line, "@@"@) {
        hunk_start(st, line)
    } else {
        collect(st, line)
    }
}

/// The scanner's state after reading `lines`.
pub open spec fn parse_run(lines: Seq<Seq<char>>) -> ParseState
    decreases lines.len(),
{
    if lines.len() == 0 {
        ParseState {
            out: Map::empty(),
            pre_path: None,
            key: None,
            lines: Seq::empty(),
            in_section: false,
            in_hunk: false,
            counted: false,
            old_left: 0,
            new_left: 0,
        }
    } else {
        parse_step(parse_run(lines.drop_last()), lines.last())
    }
}

/// The changed lines of each file in unified diff text: added and removed
/// lines with their marker stripped, keyed by post-change path
/// (pre-change path for deletions).
pub open spec fn changed_lines_spec(diff: Seq<char>) -> Map<Seq<char>, Seq<Seq<char>>> {
    let st = parse_run(lines_spec(diff));
    flush_spec(st.out, st.key, st.lines)
}

/// The view of an optional string.
pub open spec fn opt_view(o: Option<String>) -> Option<Seq<char>> {
    match o {
        Some(s) => Some(s@),
        None => None,
    }
}

fn copy_opt(o: &Option<String>) -> (r: Option<String>)
    ensures
        opt_view(r) == opt_view(*o),
{
    match o {
        Some(s) => Some(s.clone()),
        None => None,
    }
}

/// Collect the in-progress section's lines under its path.
fn flush(out: &mut ChangedLines, key: &Option<String>, lines: &mut Vec<String>)
    requires
        old(out).wf(),
    ensures
        final(out).wf(),
        final(out)@ == flush_spec(old(out)@, opt_view(*key), strs_view(old(lines)@)),
        final(lines)@.len() == 0,
{
    match key {
        Some(k) => {
            if lines.len() > 0 {
                out.add(k.as_str(), lines);
            }
        },
        None => {},
    }
    *lines = Vec::new();
}

/// Keep `line` as a changed line of the current section when it is one.
fn collect_line(line: &str, in_section: bool, lines: &mut Vec<String>)
    ensures
        strs_view(final(lines)@) == collect(
            ParseState {
                out: Map::empty(),
                pre_path: None,
                key: None,
                lines: strs_view(old(lines)@),
                in_section,
                in_hunk: false,
                counted: false,
                old_left: 0,
                new_left: 0,
            },
            line@,
        ).lines,
{
    if !in_section || starts_with(line, "\\") {
    } else if let Some(content) = strip_prefix(line, "+") {
        let ghost before = lines@;
        lines.push(content);
        assert(strs_view(lines@) =~= strs_view(before).push(content@));
    } else if let Some(content) = strip_prefix(line, "-") {
        let ghost before = lines@;
        lines.push(content);
        assert(strs_view(lines@) =~= strs_view(before).push(content@));
    }
}

/// The number of lines a hunk range ("A,B" or "A") covers.
fn range_count_of(r: &str) -> (c: Option<usize>)
    ensures
        c == range_count(r@),
{
    let parts = split_on(r, ',');
    if parts.len() == 1 {
        match parse_usize(parts[0].as_str()) {
            Some(_) => Some(1usize),
            None => None,
        }
    } else if parts.len() == 2 {
        let a = parse_usize(parts[0].as_str());
        let b = parse_usize(parts[1].as_str());
        match (a, b) {
            (Some(_), Some(b)) => Some(b),
            _ => None,
        }
    } else {
        None
    }
}

/// The old and new line counts of a hunk header, when `line` is one.
fn hunk_counts_of(line: &str) -> (c: Option<(usize, usize)>)
    ensures
        c == hunk_counts(line@),
{
    let words = split_on(line, ' ');
    proof {
        reveal_strlit("@@");
    }
    if words.len() >= 4 && str_eq(words[0].as_str(), "@@") && str_eq(words[3].as_str(), "@@") {
        match (strip_prefix(words[1].as_str(), "-"), strip_prefix(words[2].as_str(), "+")) {
            (Some(o), Some(n)) => {
                proof {
                    reveal_strlit("-");
                    reveal_strlit("+");
                }
                match (range_count_of(o.as_str()), range_count_of(n.as_str())) {
                    (Some(a), Some(b)) => Some((a, b)),
                    _ => None,
                }
            },
            _ => None,
        }
    } else {
        None
    }
}

/// Strip a leading `a/` or `b/` prefix from a unified-diff header path.
fn strip_ab_prefix(path: &str) -> (r: String)
    ensures
        r@ == strip_ab(path@),
{
    match strip_prefix(path, "a/") {
        Some(rest) => rest,
        None => match strip_prefix(path, "b/") {
            Some(rest) => rest,
            None => copy_str(path),
        },
    }
}

/// Changed-line contents per file, parsed from unified `git diff` text.
/// Values are the contents of added and removed lines (marker char
/// stripped); keys are post-change paths (pre-change for deletions).
/// Inside a hunk every '+' or '-' line is content, also one that reads
/// like a header (a removed `-- comment` shows as `--- comment`). A hunk
/// ends once the lines its `@@ -A,B +C,D @@` header counts have been read
/// (or, when the header gives no counts, at the next `diff --git` line),
/// so that `--- ` and `+++ ` after it name the next file.
///
/// Git's quoted-path escaping for paths with unusual characters is not
/// undone: such paths are used as-is, quotes and all.
pub fn parse_changed_lines(diff: &str) -> (r: ChangedLines)
    ensures
        r.wf(),
        r@ == changed_lines_spec(diff@),
{
    let mut out = ChangedLines::new();
    let mut pre_path: Option<String> = None;
    let mut current_key: Option<String> = None;
    let mut current_lines: Vec<String> = Vec::new();
    let mut in_section = false;
    let mut in_hunk = false;
    let mut counted = false;
    let mut old_left: usize = 0;
    let mut new_left: usize = 0;
    let lines = lines_of(diff);
    let ghost ls = lines_spec(diff@);
    let mut i: usize = 0;
    while i < lines.len()
        invariant
            strs_view(lines@) == ls,
            ls == lines_spec(diff@),
            i <= lines@.len(),
            out.wf(),
            ({
                let st = parse_run(ls.take(i as int));
                &&& out@ == st.out
                &&& opt_view(pre_path) == st.pre_path
                &&& opt_view(current_key) == st.key
                &&& strs_view(current_lines@) == st.lines
                &&& in_section == st.in_section
                &&& in_hunk == st.in_hunk
                &&& counted == st.counted
                &&& old_left == st.old_left
                &&& new_left == st.new_left
            }),
        decreases lines@.len() - i,
    {
        let line = lines[i].as_str();
        proof {
            assert(ls.take(i + 1).drop_last() =~= ls.take(i as int));
            assert(ls.take(i + 1).last() == line@);
        }
        let ghost st = parse_run(ls.take(i as int));
        if starts_with(line, "diff --git ") {
            flush(&mut out, &current_key, &mut current_lines);
            assert(strs_view(current_lines@) =~= Seq::empty());
            pre_path = None;
            current_key = None;
            in_section = false;
            in_hunk = false;
            counted = false;
            old_left = 0;
            new_left = 0;
        } else if in_hunk {
            collect_line(line, in_section, &mut current_lines);
            if counted && !starts_with(line, "\\") {
                if !starts_with(line, "+") && old_left > 0 {
                    old_left = old_left - 1;
                }
                if !starts_with(line, "-") && new_left > 0 {
                    new_left = new_left - 1;
                }
                in_hunk = old_left > 0 || new_left > 0;
            }
        } else if let Some(path) = strip_prefix(line, "--- ") {
            flush(&mut out, &current_key, &mut current_lines);
            assert(strs_view(current_lines@) =~= Seq::empty());
            current_key = None;
            in_section = false;
            in_hunk = false;
            counted = false;
            old_left = 0;
            new_left = 0;
            pre_path = if str_eq(path.as_str(), "/dev/null") {
                None
            } else {
                Some(strip_ab_prefix(path.as_str()))
            };
        } else if let Some(path) = strip_prefix(line, "+++ ") {
            current_key = if str_eq(path.as_str(), "/dev/null") {
                copy_opt(&pre_path)
            } else {
                Some(strip_ab_prefix(path.as_str()))
            };
            in_section = true;
        } else if in_section && starts_with(line, "@@") {
            match hunk_counts_of(line) {
                Some((o, n)) => {
                    counted = true;
                    old_left = o;
                    new_left = n;
                    in_hunk = o > 0 || n > 0;
                },
                None => {
                    counted = false;
                    old_left = 0;
                    new_left = 0;
                    in_hunk = true;
                },
            }
        } else {
            collect_line(line, in_section, &mut current_lines);
        }
        i = i + 1;
    }
    assert(ls.take(i as int) =~= ls);
    flush(&mut out, &current_key, &mut current_lines);
    out
}

// ---------------------------------------------------------------------
// Highlighting matches in styled text
// ---------------------------------------------------------------------

/// Styled segments with every occurrence of `q` (smart-case, across
/// segment boundaries) patched with `style`: segments are split exactly at
/// the match boundaries. Unchanged when `q` is empty or does not occur.
pub open spec fn highlight_spec(segs: Seq<(Style, Seq<char>)>, q: Seq<char>, style: Style) -> Seq<(Style, Seq<char>)> {
    let ranges = match_ranges_spec(segs_text(segs), q);
    if q.len() == 0 || ranges.len() == 0 {
        segs
    } else {
        cut_segments_spec(segs, ranges, style)
    }
}

/// Overlay `style` (via `Style::patch`) on every occurrence of `query`
/// within a run of styled segments, matching across segment boundaries
/// and splitting segments as needed. Char-boundary safe; smart-case.
/// Returns the segments unchanged when `query` is empty or unmatched.
pub fn highlight_segments(segments: &[(Style, String)], query: &str, style: Style) -> (r: Vec<(Style, String)>)
    ensures
        segs_view(r@) == highlight_spec(segs_view(segments@), query@, style),
{
    if query.is_empty() {
        return copy_segments(segments);
    }
    let full = segments_text(segments);
    let ranges = match_ranges(full.as_str(), query);
    if ranges.len() == 0 {
        return copy_segments(segments);
    }
    let _n = full.as_str().unicode_len();
    cut_segments(segments, ranges.as_slice(), style)
}

/// Tinting search matches changes styles only: the characters, in order,
/// stay the same.
pub proof fn lemma_highlight_keeps_text(segs: Seq<(Style, Seq<char>)>, q: Seq<char>, style: Style)
    ensures
        segs_text(highlight_spec(segs, q, style)) == segs_text(segs),
{
    lemma_cut_keeps_text(segs, match_ranges_spec(segs_text(segs), q), style);
}

} // verus!
