//! The rows of the changed-files panel: a flat list of the files the
//! filters show, or those files as a directory tree drawn with `tree`-style
//! guides (`├── `, `└── `, `│   `). Files keep their order (git lists paths
//! sorted, so siblings arrive together); a directory is reused while the
//! next file stays in it, and opened anew otherwise.

use vstd::prelude::*;
use vstd::string::*;

use crate::app::App;
use crate::keys::{filter_of_view, shown, FilterSpec};
use crate::text::{split_on, split_sep, str_eq, strs_view};
use crate::types::EntrySpec;

verus! {

/// One row of the file panel: a file (with its index in the file list) or,
/// in tree view, a directory; its tree guide and its text.
#[derive(Debug, Clone)]
pub struct PanelRow {
    pub file_idx: Option<usize>,
    pub guide: String,
    pub label: String,
}

/// Mathematical model of a [`PanelRow`].
pub struct PanelRowSpec {
    pub file_idx: Option<usize>,
    pub guide: Seq<char>,
    pub label: Seq<char>,
}

impl View for PanelRow {
    type V = PanelRowSpec;

    open spec fn view(&self) -> PanelRowSpec {
        PanelRowSpec { file_idx: self.file_idx, guide: self.guide@, label: self.label@ }
    }
}

/// The model of a run of panel rows.
pub open spec fn rows_view(rows: Seq<PanelRow>) -> Seq<PanelRowSpec> {
    rows.map_values(|r: PanelRow| r@)
}

/// The indices of the files the filter shows, in order.
pub open spec fn shown_indices(files: Seq<EntrySpec>, filter: FilterSpec, n: int) -> Seq<int>
    decreases n,
{
    if n <= 0 {
        Seq::empty()
    } else {
        let p = shown_indices(files, filter, n - 1);
        if shown(files, filter, n - 1) {
            p.push(n - 1)
        } else {
            p
        }
    }
}

/// The flat list: each shown file under its full path.
pub open spec fn list_rows_spec(files: Seq<EntrySpec>, filter: FilterSpec) -> Seq<PanelRowSpec> {
    shown_indices(files, filter, files.len() as int).map_values(
        |i: int| PanelRowSpec { file_idx: Some(i as usize), guide: Seq::empty(), label: files[i].path },
    )
}

proof fn lemma_shown_indices(files: Seq<EntrySpec>, filter: FilterSpec, n: int)
    requires
        n <= files.len(),
    ensures
        forall|k: int|
            0 <= k < shown_indices(files, filter, n).len() ==> 0 <= #[trigger] shown_indices(files, filter, n)[k] < n,
        shown_indices(files, filter, n).len() <= if n > 0 { n } else { 0 },
    decreases n,
{
    if n > 0 {
        lemma_shown_indices(files, filter, n - 1);
    }
}

/// The indices of the files the filters show.
fn shown_list(app: &App) -> (r: Vec<usize>)
    ensures
        r@.len() == shown_indices(app@.files, filter_of_view(app@), app.files@.len() as int).len(),
        forall|k: int|
            0 <= k < r@.len() ==> r@[k] as int == shown_indices(app@.files, filter_of_view(app@), app.files@.len() as int)[k],
{
    let ghost es = app@.files;
    let ghost f = filter_of_view(app@);
    let mut r: Vec<usize> = Vec::new();
    let mut i: usize = 0;
    while i < app.files.len()
        invariant
            es == app@.files,
            f == filter_of_view(app@),
            i <= app.files@.len(),
            r@.len() == shown_indices(es, f, i as int).len(),
            forall|k: int| 0 <= k < r@.len() ==> r@[k] as int == shown_indices(es, f, i as int)[k],
        decreases app.files@.len() - i,
    {
        if app.shown_exec(i) {
            r.push(i);
        }
        i = i + 1;
    }
    r
}

/// The flat list of the files the application's filters leave.
pub fn list_rows(app: &App) -> (r: Vec<PanelRow>)
    ensures
        rows_view(r@) == list_rows_spec(app@.files, filter_of_view(app@)),
{
    let files = &app.files;
    let ghost es = crate::git::entries_view(files@);
    let ghost f = filter_of_view(app@);
    let idx = shown_list(app);
    proof {
        lemma_shown_indices(es, f, files@.len() as int);
    }
    let ghost want = list_rows_spec(es, f);
    let mut r: Vec<PanelRow> = Vec::new();
    let mut k: usize = 0;
    while k < idx.len()
        invariant
            es == crate::git::entries_view(files@),
            want == list_rows_spec(es, f),
            idx@.len() == want.len(),
            forall|m: int| 0 <= m < idx@.len() ==> idx@[m] as int == shown_indices(es, f, files@.len() as int)[m],
            forall|m: int| 0 <= m < idx@.len() ==> idx@[m] < files@.len(),
            k <= idx@.len(),
            rows_view(r@) =~= want.take(k as int),
        decreases idx@.len() - k,
    {
        let i = idx[k];
        assert(es[i as int] == files@[i as int]@);
        let row = PanelRow { file_idx: Some(i), guide: String::new(), label: files[i].path.clone() };
        let ghost before = rows_view(r@);
        r.push(row);
        assert(rows_view(r@) =~= before.push(row@));
        assert(want.take(k + 1) =~= want.take(k as int).push(want[k as int]));
        k = k + 1;
    }
    assert(want.take(k as int) =~= want);
    r
}

// ---------------------------------------------------------------------
// Tree view
// ---------------------------------------------------------------------

/// The directories of a path: its '/'-separated parts but the last.
pub open spec fn dirs_of(path: Seq<char>) -> Seq<Seq<char>> {
    split_sep(path, '/').drop_last()
}

/// The file name of a path: its last '/'-separated part.
pub open spec fn name_of(path: Seq<char>) -> Seq<char> {
    split_sep(path, '/').last()
}

/// How many leading parts two directory lists share.
pub open spec fn common_len(a: Seq<Seq<char>>, b: Seq<Seq<char>>) -> int
    decreases a.len(),
{
    if a.len() == 0 || b.len() == 0 || a[0] != b[0] {
        0
    } else {
        1 + common_len(a.drop_first(), b.drop_first())
    }
}

/// How many directories item `k` shares with the item before it: those
/// are already open, the rest of its directories are opened anew.
pub open spec fn reused(ds: Seq<Seq<Seq<char>>>, k: int) -> int {
    if k <= 0 {
        0
    } else {
        common_len(ds[k - 1], ds[k])
    }
}

/// The first item at `i` or later that reuses at most `j` directories.
pub open spec fn first_reusing_at_most(ds: Seq<Seq<Seq<char>>>, i: int, j: int) -> Option<int>
    decreases ds.len() - i,
{
    if i < 0 || i >= ds.len() {
        None
    } else if reused(ds, i) <= j {
        Some(i)
    } else {
        first_reusing_at_most(ds, i + 1, j)
    }
}

/// The node at depth `j` opened by item `k` is the last of its siblings:
/// the next item that leaves that depth does not open a sibling there.
pub open spec fn is_last(ds: Seq<Seq<Seq<char>>>, k: int, j: int) -> bool {
    match first_reusing_at_most(ds, k + 1, j) {
        Some(i) => reused(ds, i) < j,
        None => true,
    }
}

/// The item that opened the directory at depth `a` on item `k`'s path: the
/// last item up to `k` that reuses at most `a` directories.
pub open spec fn opener(ds: Seq<Seq<Seq<char>>>, k: int, a: int) -> int
    decreases k + 1,
{
    if k <= 0 || reused(ds, k) <= a {
        k
    } else {
        opener(ds, k - 1, a)
    }
}

/// The guides owed to the first `j` ancestors of a node of item `k`: a bar
/// where an ancestor has siblings still to come.
pub open spec fn bars(ds: Seq<Seq<Seq<char>>>, k: int, j: int) -> Seq<char>
    decreases j,
{
    if j <= 0 {
        Seq::empty()
    } else {
        bars(ds, k, j - 1) + if is_last(ds, opener(ds, k, j - 1), j - 1) {
            "    "@
        } else {
            "│   "@
        }
    }
}

/// The full guide of the node at depth `j` of item `k`.
pub open spec fn guide_of(ds: Seq<Seq<Seq<char>>>, k: int, j: int) -> Seq<char> {
    bars(ds, k, j) + if is_last(ds, k, j) {
        "└── "@
    } else {
        "├── "@
    }
}

/// The directory rows item `k` opens at depths `lo` up to `hi`.
pub open spec fn dir_rows(ds: Seq<Seq<Seq<char>>>, k: int, lo: int, hi: int) -> Seq<PanelRowSpec>
    decreases hi - lo,
{
    if hi <= lo {
        Seq::empty()
    } else {
        dir_rows(ds, k, lo, hi - 1).push(
            PanelRowSpec { file_idx: None, guide: guide_of(ds, k, hi - 1), label: ds[k][hi - 1] + "/"@ },
        )
    }
}

/// The rows of item `k` (file `idx[k]` named `names[k]`): the directories
/// it opens, then the file.
pub open spec fn item_rows(ds: Seq<Seq<Seq<char>>>, names: Seq<Seq<char>>, idx: Seq<int>, k: int) -> Seq<PanelRowSpec> {
    dir_rows(ds, k, reused(ds, k), ds[k].len() as int).push(
        PanelRowSpec { file_idx: Some(idx[k] as usize), guide: guide_of(ds, k, ds[k].len() as int), label: names[k] },
    )
}

/// The rows of the first `n` items.
pub open spec fn tree_rows_upto(ds: Seq<Seq<Seq<char>>>, names: Seq<Seq<char>>, idx: Seq<int>, n: int) -> Seq<PanelRowSpec>
    decreases n,
{
    if n <= 0 {
        Seq::empty()
    } else {
        tree_rows_upto(ds, names, idx, n - 1) + item_rows(ds, names, idx, n - 1)
    }
}

/// The tree view of the files the filter shows.
pub open spec fn tree_rows_spec(files: Seq<EntrySpec>, filter: FilterSpec) -> Seq<PanelRowSpec> {
    let idx = shown_indices(files, filter, files.len() as int);
    let ds = idx.map_values(|i: int| dirs_of(files[i].path));
    let names = idx.map_values(|i: int| name_of(files[i].path));
    tree_rows_upto(ds, names, idx, idx.len() as int)
}

/// The shared leading parts of two directory lists.
fn common_len_exec(a: &Vec<String>, b: &Vec<String>) -> (r: usize)
    ensures
        r == common_len(strs_view(a@), strs_view(b@)),
{
    let ghost av = strs_view(a@);
    let ghost bv = strs_view(b@);
    let mut n: usize = 0;
    assert(av.skip(0) =~= av);
    assert(bv.skip(0) =~= bv);
    while n < a.len() && n < b.len() && str_eq(a[n].as_str(), b[n].as_str())
        invariant
            av == strs_view(a@),
            bv == strs_view(b@),
            n <= a@.len(),
            n <= b@.len(),
            common_len(av, bv) == n + common_len(av.skip(n as int), bv.skip(n as int)),
        decreases a@.len() - n,
    {
        proof {
            assert(av.skip(n as int)[0] == a@[n as int]@);
            assert(bv.skip(n as int)[0] == b@[n as int]@);
            assert(av.skip(n as int).drop_first() =~= av.skip(n + 1));
            assert(bv.skip(n as int).drop_first() =~= bv.skip(n + 1));
        }
        n = n + 1;
    }
    proof {
        if n < a@.len() && n < b@.len() {
            assert(av.skip(n as int)[0] == a@[n as int]@);
            assert(bv.skip(n as int)[0] == b@[n as int]@);
        }
    }
    n
}

/// Whether the node at depth `j` of item `k` is the last of its siblings.
fn is_last_exec(reuse: &Vec<usize>, Ghost(ds): Ghost<Seq<Seq<Seq<char>>>>, k: usize, j: usize) -> (r: bool)
    requires
        reuse@.len() == ds.len(),
        forall|m: int| 0 <= m < ds.len() ==> reuse@[m] == reused(ds, m),
        k < ds.len(),
    ensures
        r == is_last(ds, k as int, j as int),
{
    let n = reuse.len();
    let mut i = k + 1;
    while i < n
        invariant
            n == reuse@.len(),
            reuse@.len() == ds.len(),
            forall|m: int| 0 <= m < ds.len() ==> reuse@[m] == reused(ds, m),
            k + 1 <= i <= ds.len(),
            first_reusing_at_most(ds, k + 1, j as int) == first_reusing_at_most(ds, i as int, j as int),
        decreases ds.len() - i,
    {
        if reuse[i] <= j {
            return reuse[i] < j;
        }
        i = i + 1;
    }
    true
}

/// The item that opened the directory at depth `a` on item `k`'s path.
fn opener_exec(reuse: &Vec<usize>, Ghost(ds): Ghost<Seq<Seq<Seq<char>>>>, k: usize, a: usize) -> (r: usize)
    requires
        reuse@.len() == ds.len(),
        forall|m: int| 0 <= m < ds.len() ==> reuse@[m] == reused(ds, m),
        k < ds.len(),
    ensures
        r == opener(ds, k as int, a as int),
        r <= k,
{
    let mut i = k;
    while i > 0 && reuse[i] > a
        invariant
            reuse@.len() == ds.len(),
            forall|m: int| 0 <= m < ds.len() ==> reuse@[m] == reused(ds, m),
            i <= k < ds.len(),
            opener(ds, k as int, a as int) == opener(ds, i as int, a as int),
        decreases i,
    {
        i = i - 1;
    }
    i
}

/// The guide of the node at depth `j` of item `k`.
fn guide_exec(reuse: &Vec<usize>, Ghost(ds): Ghost<Seq<Seq<Seq<char>>>>, k: usize, j: usize) -> (r: String)
    requires
        reuse@.len() == ds.len(),
        forall|m: int| 0 <= m < ds.len() ==> reuse@[m] == reused(ds, m),
        k < ds.len(),
    ensures
        r@ == guide_of(ds, k as int, j as int),
{
    let mut g = String::new();
    let mut a: usize = 0;
    while a < j
        invariant
            reuse@.len() == ds.len(),
            forall|m: int| 0 <= m < ds.len() ==> reuse@[m] == reused(ds, m),
            k < ds.len(),
            a <= j,
            g@ == bars(ds, k as int, a as int),
        decreases j - a,
    {
        let o = opener_exec(reuse, Ghost(ds), k, a);
        if is_last_exec(reuse, Ghost(ds), o, a) {
            g = g.concat("    ");
        } else {
            g = g.concat("│   ");
        }
        a = a + 1;
    }
    if is_last_exec(reuse, Ghost(ds), k, j) {
        g.concat("└── ")
    } else {
        g.concat("├── ")
    }
}

/// The tree view of the files the filter shows: each directory on a row of
/// its own above its contents, with guides, for the files the
/// application's filters leave.
pub fn tree_rows(app: &App) -> (r: Vec<PanelRow>)
    ensures
        rows_view(r@) == tree_rows_spec(app@.files, filter_of_view(app@)),
{
    let files = &app.files;
    let ghost es = crate::git::entries_view(files@);
    let ghost f = filter_of_view(app@);
    let idx = shown_list(app);
    proof {
        lemma_shown_indices(es, f, files@.len() as int);
    }
    let ghost iv = shown_indices(es, f, files@.len() as int);
    let ghost ds = iv.map_values(|i: int| dirs_of(es[i].path));
    let ghost names = iv.map_values(|i: int| name_of(es[i].path));
    // The directories and the name of each shown file.
    let mut dirs: Vec<Vec<String>> = Vec::new();
    let mut base: Vec<String> = Vec::new();
    let mut k: usize = 0;
    while k < idx.len()
        invariant
            es == crate::git::entries_view(files@),
            iv == shown_indices(es, f, files@.len() as int),
            ds == iv.map_values(|i: int| dirs_of(es[i].path)),
            names == iv.map_values(|i: int| name_of(es[i].path)),
            idx@.len() == iv.len(),
            forall|m: int| 0 <= m < idx@.len() ==> idx@[m] as int == iv[m],
            forall|m: int| 0 <= m < iv.len() ==> 0 <= #[trigger] iv[m] < files@.len(),
            k <= idx@.len(),
            dirs@.len() == k,
            base@.len() == k,
            forall|m: int| 0 <= m < k ==> strs_view(#[trigger] dirs@[m]@) == ds[m],
            forall|m: int| 0 <= m < k ==> (#[trigger] base@[m])@ == names[m],
        decreases idx@.len() - k,
    {
        let i = idx[k];
        assert(iv[k as int] < files@.len());
        assert(es[i as int] == files@[i as int]@);
        let mut parts = split_on(files[i].path.as_str(), '/');
        let ghost pv = strs_view(parts@);
        assert(pv.len() >= 1);
        let name = parts.pop().unwrap();
        assert(strs_view(parts@) =~= pv.drop_last());
        dirs.push(parts);
        base.push(name);
        k = k + 1;
    }
    // How many directories each item shares with the one before.
    let mut reuse: Vec<usize> = Vec::new();
    let mut k: usize = 0;
    while k < dirs.len()
        invariant
            dirs@.len() == ds.len(),
            forall|m: int| 0 <= m < ds.len() ==> strs_view(#[trigger] dirs@[m]@) == ds[m],
            k <= ds.len(),
            reuse@.len() == k,
            forall|m: int| 0 <= m < k ==> reuse@[m] == reused(ds, m),
        decreases ds.len() - k,
    {
        if k == 0 {
            reuse.push(0);
        } else {
            let c = common_len_exec(&dirs[k - 1], &dirs[k]);
            reuse.push(c);
        }
        k = k + 1;
    }
    // The rows, item by item.
    let ghost idxs = iv;
    let mut out: Vec<PanelRow> = Vec::new();
    let mut k: usize = 0;
    while k < dirs.len()
        invariant
            dirs@.len() == ds.len(),
            base@.len() == ds.len(),
            idx@.len() == ds.len(),
            ds.len() == iv.len(),
            forall|m: int| 0 <= m < ds.len() ==> strs_view(#[trigger] dirs@[m]@) == ds[m],
            forall|m: int| 0 <= m < ds.len() ==> (#[trigger] base@[m])@ == names[m],
            forall|m: int| 0 <= m < ds.len() ==> idx@[m] as int == iv[m],
            names.len() == ds.len(),
            reuse@.len() == ds.len(),
            forall|m: int| 0 <= m < ds.len() ==> reuse@[m] == reused(ds, m),
            k <= ds.len(),
            rows_view(out@) == tree_rows_upto(ds, names, iv, k as int),
        decreases ds.len() - k,
    {
        let lo = reuse[k];
        let hi = dirs[k].len();
        proof {
            lemma_common_len_bound(ds, k as int);
        }
        let ghost start = rows_view(out@);
        let mut j = lo;
        while j < hi
            invariant
                dirs@.len() == ds.len(),
                forall|m: int| 0 <= m < ds.len() ==> strs_view(#[trigger] dirs@[m]@) == ds[m],
                reuse@.len() == ds.len(),
                forall|m: int| 0 <= m < ds.len() ==> reuse@[m] == reused(ds, m),
                k < ds.len(),
                hi == dirs@[k as int]@.len(),
                lo <= j <= hi,
                lo == reused(ds, k as int),
                rows_view(out@) == start + dir_rows(ds, k as int, lo as int, j as int),
            decreases hi - j,
        {
            let g = guide_exec(&reuse, Ghost(ds), k, j);
            assert(ds[k as int][j as int] == dirs@[k as int]@[j as int]@);
            let label = dirs[k][j].clone().concat("/");
            let row = PanelRow { file_idx: None, guide: g, label };
            let ghost before = rows_view(out@);
            out.push(row);
            assert(rows_view(out@) =~= before.push(row@));
            j = j + 1;
        }
        let g = guide_exec(&reuse, Ghost(ds), k, hi);
        let row = PanelRow { file_idx: Some(idx[k]), guide: g, label: base[k].clone() };
        let ghost before = rows_view(out@);
        out.push(row);
        assert(rows_view(out@) =~= before.push(row@));
        assert(rows_view(out@) =~= tree_rows_upto(ds, names, iv, k + 1));
        k = k + 1;
    }
    out
}

/// An item never reuses more directories than it has.
proof fn lemma_common_len_bound(ds: Seq<Seq<Seq<char>>>, k: int)
    requires
        0 <= k < ds.len(),
    ensures
        0 <= reused(ds, k) <= ds[k].len(),
{
    if k > 0 {
        lemma_common_len_le(ds[k - 1], ds[k]);
    }
}

proof fn lemma_common_len_le(a: Seq<Seq<char>>, b: Seq<Seq<char>>)
    ensures
        0 <= common_len(a, b) <= b.len(),
        common_len(a, b) <= a.len(),
    decreases a.len(),
{
    if !(a.len() == 0 || b.len() == 0 || a[0] != b[0]) {
        lemma_common_len_le(a.drop_first(), b.drop_first());
    }
}

} // verus!
