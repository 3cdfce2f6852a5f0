//! What one pane of the side-by-side view shows: its title, which aligned
//! rows are on screen, and the styled text of each line (line number,
//! syntax or role styling, changed-span emphasis, search tint, horizontal
//! scroll). Drawing the result is left to the terminal front end.

use vstd::prelude::*;
use vstd::string::*;

use ratatui::style::Style;

use crate::diff::{ordered, row_ok};
use crate::layout::{count_tabs, expand_pos, expand_tab_range, overlay_ranges, slice_segments, slice_state};
use crate::search::{highlight_segments, highlight_spec, FileSearch, RowMatch};
use crate::segments::{copy_segments, cut_segments_spec, patch_style, segments_text, segs_text, segs_view, style_patch};
use crate::text::{chars_of, string_of};
use crate::types::{cell_view, CellSpec, DiffRow, LineCell, RowKind, RowSpec, SideBySideDiff};

verus! {

// ---------------------------------------------------------------------
// Title
// ---------------------------------------------------------------------

/// A pane's title; with the file panel hidden it also names the selected
/// file.
pub open spec fn pane_title_spec(is_left: bool, show_files: bool, selected: Option<Seq<char>>) -> Seq<char> {
    let name = if is_left {
        "Old [1]"@
    } else {
        "New [2]"@
    };
    if !show_files && selected is Some {
        name + " — "@ + selected->0
    } else {
        name
    }
}

/// The title of the old (left) or new (right) pane.
pub fn pane_title(is_left: bool, show_files: bool, selected: Option<&str>) -> (r: String)
    ensures
        r@ == pane_title_spec(
            is_left,
            show_files,
            match selected {
                Some(p) => Some(p@),
                None => None,
            },
        ),
{
    let name = if is_left {
        "Old [1]"
    } else {
        "New [2]"
    };
    let t = String::from_str(name);
    match selected {
        Some(p) => {
            if !show_files {
                return t.concat(" — ").concat(p);
            }
        },
        None => {},
    }
    t
}

// ---------------------------------------------------------------------
// Rows on screen
// ---------------------------------------------------------------------

/// Whether a row has a cell on the given side.
pub open spec fn has_side(r: RowSpec, is_left: bool) -> bool {
    if is_left {
        r.left is Some
    } else {
        r.right is Some
    }
}

/// The aligned indices of the rows a pane lists: all rows, or in compact
/// mode only those with a cell on the pane's side.
pub open spec fn pane_rows(rows: Seq<RowSpec>, compact: bool, is_left: bool) -> Seq<int>
    decreases rows.len(),
{
    if rows.len() == 0 {
        Seq::empty()
    } else {
        let prev = pane_rows(rows.drop_last(), compact, is_left);
        if !compact || has_side(rows.last(), is_left) {
            prev.push(rows.len() - 1)
        } else {
            prev
        }
    }
}

/// The first listed row on screen: the scroll position, kept on the last
/// row.
pub open spec fn window_start(len: int, scroll: int) -> int {
    let last = if len >= 1 {
        len - 1
    } else {
        0
    };
    if scroll <= last {
        scroll
    } else {
        last
    }
}

/// One past the last listed row on screen.
pub open spec fn window_end(len: int, start: int, height: int) -> int {
    if start + height <= len {
        start + height
    } else {
        len
    }
}

/// The rows on screen, as aligned indices.
pub open spec fn visible_spec(rows: Seq<RowSpec>, compact: bool, is_left: bool, scroll: int, height: int) -> Seq<int> {
    let idx = pane_rows(rows, compact, is_left);
    let s = window_start(idx.len() as int, scroll);
    idx.subrange(s, window_end(idx.len() as int, s, height))
}

proof fn lemma_pane_rows_bounds(rows: Seq<RowSpec>, compact: bool, is_left: bool)
    ensures
        pane_rows(rows, compact, is_left).len() <= rows.len(),
        forall|k: int|
            0 <= k < pane_rows(rows, compact, is_left).len() ==> 0 <= #[trigger] pane_rows(
                rows,
                compact,
                is_left,
            )[k] < rows.len(),
    decreases rows.len(),
{
    if rows.len() > 0 {
        lemma_pane_rows_bounds(rows.drop_last(), compact, is_left);
    }
}

/// The aligned indices of the rows a pane shows, given its scroll position
/// and height.
pub fn visible_rows(diff: &SideBySideDiff, compact: bool, is_left: bool, scroll: usize, height: usize) -> (r: Vec<usize>)
    ensures
        r@.len() == visible_spec(diff@, compact, is_left, scroll as int, height as int).len(),
        forall|k: int|
            0 <= k < r@.len() ==> r@[k] as int == visible_spec(
                diff@,
                compact,
                is_left,
                scroll as int,
                height as int,
            )[k],
{
    let ghost rows = diff@;
    let mut idx: Vec<usize> = Vec::new();
    let mut i: usize = 0;
    while i < diff.rows.len()
        invariant
            rows == diff@,
            i <= rows.len(),
            idx@.len() == pane_rows(rows.take(i as int), compact, is_left).len(),
            forall|k: int| 0 <= k < idx@.len() ==> idx@[k] as int == pane_rows(rows.take(i as int), compact, is_left)[k],
        decreases rows.len() - i,
    {
        proof {
            assert(rows.take(i + 1).drop_last() =~= rows.take(i as int));
            assert(rows[i as int] == diff.rows@[i as int]@);
        }
        let keep = if !compact {
            true
        } else if is_left {
            diff.rows[i].left.is_some()
        } else {
            diff.rows[i].right.is_some()
        };
        if keep {
            idx.push(i);
        }
        i = i + 1;
    }
    proof {
        assert(rows.take(i as int) =~= rows);
        lemma_pane_rows_bounds(rows, compact, is_left);
    }
    let len = idx.len();
    let last = if len >= 1 {
        len - 1
    } else {
        0
    };
    let start = if scroll <= last {
        scroll
    } else {
        last
    };
    let end = if height <= len - start {
        start + height
    } else {
        len
    };
    let mut r: Vec<usize> = Vec::new();
    let mut j: usize = start;
    while j < end
        invariant
            start <= j <= end <= idx@.len(),
            r@.len() == j - start,
            forall|k: int| 0 <= k < r@.len() ==> r@[k] == idx@[start + k],
        decreases end - j,
    {
        r.push(idx[j]);
        j = j + 1;
    }
    r
}

// ---------------------------------------------------------------------
// Line numbers
// ---------------------------------------------------------------------

/// The decimal digit for `d < 10`.
pub open spec fn digit_char(d: nat) -> char {
    if d == 0 {
        '0'
    } else if d == 1 {
        '1'
    } else if d == 2 {
        '2'
    } else if d == 3 {
        '3'
    } else if d == 4 {
        '4'
    } else if d == 5 {
        '5'
    } else if d == 6 {
        '6'
    } else if d == 7 {
        '7'
    } else if d == 8 {
        '8'
    } else {
        '9'
    }
}

/// The decimal representation of `n`, without leading zeros.
pub open spec fn decimal(n: nat) -> Seq<char>
    decreases n,
{
    if n < 10 {
        seq![digit_char(n)]
    } else {
        decimal(n / 10).push(digit_char(n % 10))
    }
}

/// `k` spaces.
pub open spec fn spaces(k: int) -> Seq<char> {
    Seq::new(if k > 0 { k as nat } else { 0 }, |i: int| ' ')
}

/// A line number right-aligned in four columns, then a space; a filler
/// row shows five spaces.
pub open spec fn line_label_spec(line_no: Option<usize>) -> Seq<char> {
    match line_no {
        Some(n) => spaces(4 - decimal(n as nat).len()) + decimal(n as nat) + seq![' '],
        None => spaces(5),
    }
}

fn digit(d: usize) -> (c: char)
    requires
        d < 10,
    ensures
        c == digit_char(d as nat),
{
    if d == 0 {
        '0'
    } else if d == 1 {
        '1'
    } else if d == 2 {
        '2'
    } else if d == 3 {
        '3'
    } else if d == 4 {
        '4'
    } else if d == 5 {
        '5'
    } else if d == 6 {
        '6'
    } else if d == 7 {
        '7'
    } else if d == 8 {
        '8'
    } else {
        '9'
    }
}

/// The decimal digits of `n`.
fn decimal_chars(n: usize) -> (r: Vec<char>)
    ensures
        r@ == decimal(n as nat),
{
    let mut m = n;
    let mut acc: Vec<char> = Vec::new();
    while m >= 10
        invariant
            decimal(n as nat) == decimal(m as nat) + acc@,
        decreases m,
    {
        let d = digit(m % 10);
        let ghost before = acc@;
        acc.insert(0, d);
        proof {
            assert(acc@ =~= seq![d] + before);
            assert(decimal(m as nat) == decimal((m / 10) as nat).push(d));
            assert(decimal((m / 10) as nat).push(d) + before =~= decimal((m / 10) as nat) + acc@);
        }
        m = m / 10;
    }
    let d = digit(m);
    let ghost before = acc@;
    acc.insert(0, d);
    assert(acc@ =~= decimal(m as nat) + before);
    acc
}

/// The decimal representation of `n`.
pub fn decimal_string(n: usize) -> (r: String)
    ensures
        r@ == decimal(n as nat),
{
    let ds = decimal_chars(n);
    let r = string_of(&ds, 0, ds.len());
    assert(ds@.subrange(0, ds@.len() as int) =~= ds@);
    r
}

/// The line-number column of a pane line (`None` for a filler row).
pub fn line_label(line_no: Option<usize>) -> (r: String)
    ensures
        r@ == line_label_spec(line_no),
{
    let mut out: Vec<char> = Vec::new();
    match line_no {
        Some(n) => {
            let ds = decimal_chars(n);
            let mut k: usize = ds.len();
            while k < 4
                invariant
                    ds@.len() <= k <= 4 || (k == ds@.len() && k > 4),
                    out@ =~= spaces(k - ds@.len()),
                decreases 4 - k,
            {
                out.push(' ');
                k = k + 1;
            }
            assert(out@ =~= spaces(4 - ds@.len()));
            let mut j: usize = 0;
            while j < ds.len()
                invariant
                    j <= ds@.len(),
                    out@ =~= spaces(4 - ds@.len()) + ds@.take(j as int),
                decreases ds@.len() - j,
            {
                out.push(ds[j]);
                j = j + 1;
            }
            out.push(' ');
            assert(ds@.take(j as int) =~= ds@);
        },
        None => {
            let mut k: usize = 0;
            while k < 5
                invariant
                    k <= 5,
                    out@ =~= spaces(k as int),
                decreases 5 - k,
            {
                out.push(' ');
                k = k + 1;
            }
        },
    }
    string_of(&out, 0, out.len())
}

// ---------------------------------------------------------------------
// Tabs
// ---------------------------------------------------------------------

/// Text with each tab replaced by four spaces.
pub open spec fn expand_tabs_spec(t: Seq<char>) -> Seq<char>
    decreases t.len(),
{
    if t.len() == 0 {
        Seq::empty()
    } else if t.last() == '\t' {
        expand_tabs_spec(t.drop_last()) + spaces(4)
    } else {
        expand_tabs_spec(t.drop_last()).push(t.last())
    }
}

/// `text.replace('\t', "    ")`.
pub fn expand_tabs(text: &str) -> (r: String)
    ensures
        r@ == expand_tabs_spec(text@),
{
    let cs = chars_of(text);
    let mut r = String::new();
    let mut i: usize = 0;
    while i < cs.len()
        invariant
            i <= cs@.len(),
            cs@ == text@,
            r@ == expand_tabs_spec(cs@.take(i as int)),
        decreases cs@.len() - i,
    {
        proof {
            assert(cs@.take(i + 1).drop_last() =~= cs@.take(i as int));
        }
        if cs[i] == '\t' {
            let ghost before = r@;
            r.push(' ');
            r.push(' ');
            r.push(' ');
            r.push(' ');
            assert(r@ =~= before + spaces(4));
        } else {
            r.push(cs[i]);
        }
        i = i + 1;
    }
    assert(cs@.take(i as int) =~= cs@);
    r
}

// ---------------------------------------------------------------------
// Styled line text
// ---------------------------------------------------------------------

/// The styles a pane paints with.
#[derive(Clone, Copy)]
pub struct Palette {
    /// Unstyled text.
    pub plain: Style,
    /// Dimmed text (filler rows, line numbers, the other side's role).
    pub dim: Style,
    /// A removed line's foreground when highlighting is off.
    pub removed: Style,
    /// An added line's foreground when highlighting is off.
    pub added: Style,
    /// A modified line's foreground when highlighting is off.
    pub modified: Style,
    /// Background tint of removed and modified lines in the old pane.
    pub old_tint: Style,
    /// Background tint of added and modified lines in the new pane.
    pub new_tint: Style,
    /// Background of changed spans in the old pane.
    pub old_emphasis: Style,
    /// Background of changed spans in the new pane.
    pub new_emphasis: Style,
    /// Background of search matches.
    pub search_match: Style,
    /// Background of matches on the row of the current match.
    pub current_match: Style,
}

/// The model of a file's highlighted lines.
pub open spec fn hl_view(hl: Seq<Vec<(Style, String)>>) -> Seq<Seq<(Style, Seq<char>)>> {
    hl.map_values(|l: Vec<(Style, String)>| segs_view(l@))
}

/// A cell's segments before styling: its highlighted line when syntax
/// highlighting is on and the line was highlighted, else its plain text.
pub open spec fn base_spec(c: CellSpec, syntax: bool, hl: Seq<Seq<(Style, Seq<char>)>>, plain: Style) -> Seq<(Style, Seq<char>)> {
    if syntax && 1 <= c.line_no && c.line_no - 1 < hl.len() {
        hl[c.line_no - 1]
    } else {
        seq![(plain, c.content)]
    }
}

/// Segments with their tabs expanded.
pub open spec fn expand_segs(segs: Seq<(Style, Seq<char>)>) -> Seq<(Style, Seq<char>)> {
    segs.map_values(|p: (Style, Seq<char>)| (p.0, expand_tabs_spec(p.1)))
}

/// The background tint of a row's role in a pane, if any.
pub open spec fn role_tint(kind: RowKind, is_left: bool, pal: Palette) -> Option<Style> {
    match kind {
        RowKind::Removed => if is_left { Some(pal.old_tint) } else { None },
        RowKind::Added => if is_left { None } else { Some(pal.new_tint) },
        RowKind::Modified => if is_left { Some(pal.old_tint) } else { Some(pal.new_tint) },
        RowKind::Context => None,
    }
}

/// The foreground style of a row's role in a pane.
pub open spec fn role_style(kind: RowKind, is_left: bool, pal: Palette) -> Style {
    match kind {
        RowKind::Context => pal.plain,
        RowKind::Removed => if is_left { pal.removed } else { pal.dim },
        RowKind::Added => if is_left { pal.dim } else { pal.added },
        RowKind::Modified => pal.modified,
    }
}

/// Role styling: with highlighting on, the syntax colors stay and the
/// role tints the background; with it off the line becomes one segment
/// in the role's foreground.
pub open spec fn styled_spec(kind: RowKind, is_left: bool, syntax: bool, segs: Seq<(Style, Seq<char>)>, pal: Palette) -> Seq<(Style, Seq<char>)> {
    if syntax {
        match role_tint(kind, is_left, pal) {
            Some(bg) => segs.map_values(|p: (Style, Seq<char>)| (style_patch(p.0, bg), p.1)),
            None => segs,
        }
    } else {
        seq![(role_style(kind, is_left, pal), segs_text(segs))]
    }
}

/// A changed range moved into tab-expanded coordinates.
pub open spec fn expand_range(content: Seq<char>, r: (usize, usize)) -> (usize, usize) {
    (expand_pos(content, r.0 as int) as usize, expand_pos(content, r.1 as int) as usize)
}

/// Changed spans of a modified line patched with the pane's emphasis.
pub open spec fn emphasis_spec(kind: RowKind, c: CellSpec, is_left: bool, segs: Seq<(Style, Seq<char>)>, pal: Palette) -> Seq<(Style, Seq<char>)> {
    if kind == RowKind::Modified && c.changed.len() > 0 {
        cut_segments_spec(
            segs,
            c.changed.map_values(|r: (usize, usize)| expand_range(c.content, r)),
            if is_left { pal.old_emphasis } else { pal.new_emphasis },
        )
    } else {
        segs
    }
}

/// Whether the current search match is on row `row_idx`.
pub open spec fn is_current_row(matches: Seq<RowMatch>, current: usize, row_idx: usize) -> bool {
    current < matches.len() && matches[current as int].row == row_idx
}

/// Search matches tinted, the current match's row more brightly.
pub open spec fn search_spec(search: Option<FileSearch>, row_idx: usize, segs: Seq<(Style, Seq<char>)>, pal: Palette) -> Seq<(Style, Seq<char>)> {
    match search {
        Some(fs) => highlight_spec(
            segs,
            fs.query@,
            if is_current_row(fs.matches@, fs.current, row_idx) { pal.current_match } else { pal.search_match },
        ),
        None => segs,
    }
}

/// A pane line before horizontal scrolling: the cell's text styled, its
/// changed spans emphasized and search matches tinted; a filler row is
/// one empty dimmed segment.
pub open spec fn line_segs_spec(
    row: RowSpec,
    row_idx: usize,
    is_left: bool,
    syntax: bool,
    hl: Seq<Seq<(Style, Seq<char>)>>,
    search: Option<FileSearch>,
    pal: Palette,
) -> Seq<(Style, Seq<char>)> {
    let cell = if is_left { row.left } else { row.right };
    let styled = match cell {
        Some(c) => emphasis_spec(
            row.kind,
            c,
            is_left,
            styled_spec(row.kind, is_left, syntax, expand_segs(base_spec(c, syntax, hl, pal.plain)), pal),
            pal,
        ),
        None => seq![(pal.dim, Seq::<char>::empty())],
    };
    search_spec(search, row_idx, styled, pal)
}

/// A pane line: its line-number column and its styled text, scrolled by
/// `h_scroll` characters and cut to what fits beside the column in
/// `width`.
pub open spec fn pane_line_spec(
    row: RowSpec,
    row_idx: usize,
    is_left: bool,
    syntax: bool,
    hl: Seq<Seq<(Style, Seq<char>)>>,
    search: Option<FileSearch>,
    pal: Palette,
    h_scroll: usize,
    width: usize,
) -> (Seq<char>, Seq<(Style, Seq<char>)>) {
    let cell = if is_left { row.left } else { row.right };
    let label = line_label_spec(
        match cell {
            Some(c) => Some(c.line_no),
            None => None,
        },
    );
    let content_width = if width >= label.len() { width - label.len() } else { 0 };
    (
        label,
        slice_state(
            line_segs_spec(row, row_idx, is_left, syntax, hl, search, pal),
            h_scroll as int,
            content_width,
        ).2,
    )
}

/// Whether a cell's changed ranges can be emphasized: sorted and apart,
/// and small enough that tab expansion keeps them within `usize`.
pub open spec fn ranges_fit(c: CellSpec) -> bool {
    &&& ordered(c.changed)
    &&& forall|k: int| 0 <= k < c.changed.len() ==> (#[trigger] c.changed[k]).1 + 3 * c.content.len() <= usize::MAX
}

/// Every row of the shape its kind asks for, as all rows of
/// `side_by_side` are (its `rows_ok`), can be drawn with its emphasis.
pub proof fn lemma_shaped_rows_fit(r: RowSpec)
    requires
        row_ok(r),
    ensures
        r.left matches Some(c) ==> ranges_fit(c),
        r.right matches Some(c) ==> ranges_fit(c),
{
}

/// Whether a cell's changed ranges can be emphasized (see [`ranges_fit`]).
pub fn ranges_fit_check(c: &LineCell) -> (r: bool)
    ensures
        r == ranges_fit(c@),
{
    let len = chars_of(c.content.as_str()).len();
    let ghost rs = c@.changed;
    let mut i: usize = 0;
    while i < c.changed.len()
        invariant
            rs == c@.changed,
            len == c@.content.len(),
            i <= rs.len(),
            ordered(rs.take(i as int)),
            forall|k: int| 0 <= k < i ==> (#[trigger] rs[k]).1 + 3 * len <= usize::MAX,
        decreases rs.len() - i,
    {
        let r = c.changed[i];
        if r.0 > r.1 {
            assert(!ordered(rs)) by {
                assert(rs[i as int].0 > rs[i as int].1);
            }
            return false;
        }
        if i > 0 && c.changed[i - 1].1 > r.0 {
            assert(!ordered(rs)) by {
                assert(rs[i - 1].1 > rs[i as int].0);
            }
            return false;
        }
        if len > (usize::MAX - r.1) / 3 {
            assert(rs[i as int].1 + 3 * len > usize::MAX) by (nonlinear_arith)
                requires
                    len > (usize::MAX - rs[i as int].1) / 3,
                    rs[i as int].1 <= usize::MAX,
            ;
            return false;
        }
        assert(r.1 + 3 * len <= usize::MAX) by (nonlinear_arith)
            requires
                len <= (usize::MAX - r.1) / 3,
                r.1 <= usize::MAX,
        ;
        proof {
            let t = rs.take(i + 1);
            assert forall|a: int, b: int| 0 <= a < b < t.len() implies (#[trigger] t[a]).1 <= (#[trigger] t[b]).0 by {
                if b == i {
                    if a < i - 1 {
                        assert(rs.take(i as int)[a].1 <= rs.take(i as int)[i - 1].0);
                    }
                } else {
                    assert(rs.take(i as int)[a].1 <= rs.take(i as int)[b].0);
                }
            }
            assert forall|a: int| 0 <= a < t.len() implies (#[trigger] t[a]).0 <= t[a].1 by {
                if a < i {
                    assert(rs.take(i as int)[a].0 <= rs.take(i as int)[a].1);
                }
            }
        }
        i = i + 1;
    }
    assert(rs.take(i as int) =~= rs);
    true
}

proof fn lemma_count_tabs_take(s: Seq<char>, n: int, m: int)
    requires
        0 <= n <= m <= s.len(),
    ensures
        count_tabs(s.take(n)) <= count_tabs(s.take(m)),
        count_tabs(s.take(m)) <= m,
    decreases m,
{
    if m > 0 {
        assert(s.take(m).drop_last() =~= s.take(m - 1));
        if n < m {
            lemma_count_tabs_take(s, n, m - 1);
        } else {
            lemma_count_tabs_take(s, m - 1, m - 1);
        }
    } else {
        assert(s.take(0) =~= Seq::<char>::empty());
    }
}

proof fn lemma_expand_pos_mono(c: Seq<char>, p: int, q: int)
    requires
        0 <= p <= q,
    ensures
        p <= expand_pos(c, p) <= expand_pos(c, q),
        expand_pos(c, q) <= q + 3 * c.len(),
{
    let np = if p <= c.len() { p } else { c.len() as int };
    let nq = if q <= c.len() { q } else { c.len() as int };
    lemma_count_tabs_take(c, np, nq);
    lemma_count_tabs_take(c, 0, np);
}

proof fn lemma_expanded_ordered(c: CellSpec)
    requires
        ranges_fit(c),
    ensures
        ordered(c.changed.map_values(|r: (usize, usize)| expand_range(c.content, r))),
{
    let m = c.changed.map_values(|r: (usize, usize)| expand_range(c.content, r));
    assert forall|i: int| 0 <= i < m.len() implies (#[trigger] m[i]).0 <= m[i].1 by {
        let r = c.changed[i];
        lemma_expand_pos_mono(c.content, r.0 as int, r.1 as int);
    }
    assert forall|i: int, j: int| 0 <= i < j < m.len() implies (#[trigger] m[i]).1 <= (#[trigger] m[j]).0 by {
        let a = c.changed[i];
        let b = c.changed[j];
        lemma_expand_pos_mono(c.content, a.1 as int, b.0 as int);
        lemma_expand_pos_mono(c.content, b.0 as int, b.1 as int);
    }
}

fn base_segments(c: &LineCell, syntax: bool, hl: &Vec<Vec<(Style, String)>>, plain: Style) -> (r: Vec<(Style, String)>)
    ensures
        segs_view(r@) == base_spec(c@, syntax, hl_view(hl@), plain),
{
    if syntax && c.line_no >= 1 && c.line_no - 1 < hl.len() {
        assert(hl_view(hl@)[c.line_no - 1] == segs_view(hl@[c.line_no - 1]@));
        copy_segments(hl[c.line_no - 1].as_slice())
    } else {
        let r = vec![(plain, c.content.clone())];
        assert(segs_view(r@) =~= seq![(plain, c.content@)]);
        r
    }
}

fn expand_segments(segs: &Vec<(Style, String)>) -> (r: Vec<(Style, String)>)
    ensures
        segs_view(r@) == expand_segs(segs_view(segs@)),
{
    let ghost sv = segs_view(segs@);
    let mut r: Vec<(Style, String)> = Vec::new();
    let mut i: usize = 0;
    while i < segs.len()
        invariant
            sv == segs_view(segs@),
            i <= segs@.len(),
            segs_view(r@) =~= expand_segs(sv).take(i as int),
        decreases segs@.len() - i,
    {
        let t = expand_tabs(segs[i].1.as_str());
        let ghost before = segs_view(r@);
        r.push((segs[i].0, t));
        assert(segs_view(r@) =~= before.push((segs@[i as int].0, t@)));
        assert(expand_segs(sv).take(i + 1) =~= expand_segs(sv).take(i as int).push(expand_segs(sv)[i as int]));
        i = i + 1;
    }
    assert(expand_segs(sv).take(i as int) =~= expand_segs(sv));
    r
}

fn tint_of(kind: RowKind, is_left: bool, pal: &Palette) -> (r: Option<Style>)
    ensures
        r == role_tint(kind, is_left, *pal),
{
    match kind {
        RowKind::Removed => if is_left { Some(pal.old_tint) } else { None },
        RowKind::Added => if is_left { None } else { Some(pal.new_tint) },
        RowKind::Modified => if is_left { Some(pal.old_tint) } else { Some(pal.new_tint) },
        RowKind::Context => None,
    }
}

fn style_of(kind: RowKind, is_left: bool, pal: &Palette) -> (r: Style)
    ensures
        r == role_style(kind, is_left, *pal),
{
    match kind {
        RowKind::Context => pal.plain,
        RowKind::Removed => if is_left { pal.removed } else { pal.dim },
        RowKind::Added => if is_left { pal.dim } else { pal.added },
        RowKind::Modified => pal.modified,
    }
}

fn apply_role(kind: RowKind, is_left: bool, syntax: bool, segs: Vec<(Style, String)>, pal: &Palette) -> (r: Vec<(Style, String)>)
    ensures
        segs_view(r@) == styled_spec(kind, is_left, syntax, segs_view(segs@), *pal),
{
    if !syntax {
        let text = segments_text(segs.as_slice());
        let r = vec![(style_of(kind, is_left, pal), text)];
        assert(segs_view(r@) =~= seq![(role_style(kind, is_left, *pal), segs_text(segs_view(segs@)))]);
        return r;
    }
    match tint_of(kind, is_left, pal) {
        None => segs,
        Some(bg) => {
            let ghost sv = segs_view(segs@);
            let ghost want = sv.map_values(|p: (Style, Seq<char>)| (style_patch(p.0, bg), p.1));
            let mut r: Vec<(Style, String)> = Vec::new();
            let mut i: usize = 0;
            while i < segs.len()
                invariant
                    sv == segs_view(segs@),
                    want == sv.map_values(|p: (Style, Seq<char>)| (style_patch(p.0, bg), p.1)),
                    i <= segs@.len(),
                    segs_view(r@) =~= want.take(i as int),
                decreases segs@.len() - i,
            {
                let st = patch_style(segs[i].0, bg);
                let t = segs[i].1.clone();
                let ghost before = segs_view(r@);
                r.push((st, t));
                assert(segs_view(r@) =~= before.push((st, t@)));
                assert(want.take(i + 1) =~= want.take(i as int).push(want[i as int]));
                i = i + 1;
            }
            assert(want.take(i as int) =~= want);
            r
        },
    }
}

fn emphasize(kind: RowKind, c: &LineCell, is_left: bool, segs: Vec<(Style, String)>, pal: &Palette) -> (r: Vec<(Style, String)>)
    requires
        ranges_fit(c@),
    ensures
        segs_view(r@) == emphasis_spec(kind, c@, is_left, segs_view(segs@), *pal),
{
    if kind != RowKind::Modified || c.changed.len() == 0 {
        return segs;
    }
    let ghost want = c@.changed.map_values(|r: (usize, usize)| expand_range(c@.content, r));
    let mut adjusted: Vec<(usize, usize)> = Vec::new();
    let mut i: usize = 0;
    while i < c.changed.len()
        invariant
            ranges_fit(c@),
            want == c@.changed.map_values(|r: (usize, usize)| expand_range(c@.content, r)),
            i <= c.changed@.len(),
            adjusted@ =~= want.take(i as int),
        decreases c.changed@.len() - i,
    {
        let r = c.changed[i];
        proof {
            assert(r == c@.changed[i as int]);
            lemma_expand_pos_mono(c@.content, r.0 as int, r.1 as int);
            lemma_expand_pos_mono(c@.content, 0, r.0 as int);
        }
        let e = expand_tab_range(c.content.as_str(), r);
        adjusted.push(e);
        assert(want.take(i + 1) =~= want.take(i as int).push(want[i as int]));
        i = i + 1;
    }
    proof {
        assert(want.take(i as int) =~= want);
        lemma_expanded_ordered(c@);
    }
    let emph = if is_left {
        pal.old_emphasis
    } else {
        pal.new_emphasis
    };
    overlay_ranges(segs.as_slice(), adjusted.as_slice(), emph)
}

fn search_tint(search: Option<&FileSearch>, row_idx: usize, segs: Vec<(Style, String)>, pal: &Palette) -> (r: Vec<(Style, String)>)
    ensures
        segs_view(r@) == search_spec(
            match search {
                Some(fs) => Some(*fs),
                None => None,
            },
            row_idx,
            segs_view(segs@),
            *pal,
        ),
{
    match search {
        None => segs,
        Some(fs) => {
            let current = fs.current < fs.matches.len() && fs.matches[fs.current].row == row_idx;
            let tint = if current {
                pal.current_match
            } else {
                pal.search_match
            };
            highlight_segments(segs.as_slice(), fs.query.as_str(), tint)
        },
    }
}

/// One line of a pane for aligned row `row` (at index `row_idx`): its
/// line-number column and its styled, scrolled text. `hl` holds the
/// highlighted lines of this side's file.
pub fn pane_line(
    row: &DiffRow,
    row_idx: usize,
    is_left: bool,
    syntax: bool,
    hl: &Vec<Vec<(Style, String)>>,
    search: Option<&FileSearch>,
    pal: &Palette,
    h_scroll: usize,
    width: usize,
) -> (r: (String, Vec<(Style, String)>))
    requires
        is_left ==> (row.left matches Some(c) ==> ranges_fit(c@)),
        !is_left ==> (row.right matches Some(c) ==> ranges_fit(c@)),
    ensures
        (r.0@, segs_view(r.1@)) == pane_line_spec(
            row@,
            row_idx,
            is_left,
            syntax,
            hl_view(hl@),
            match search {
                Some(fs) => Some(*fs),
                None => None,
            },
            *pal,
            h_scroll,
            width,
        ),
{
    let cell = if is_left {
        &row.left
    } else {
        &row.right
    };
    let (label, styled) = match cell {
        Some(c) => {
            let base = base_segments(c, syntax, hl, pal.plain);
            let expanded = expand_segments(&base);
            let styled = apply_role(row.kind, is_left, syntax, expanded, pal);
            (line_label(Some(c.line_no)), emphasize(row.kind, c, is_left, styled, pal))
        },
        None => {
            let r = vec![(pal.dim, String::new())];
            assert(segs_view(r@) =~= seq![(pal.dim, Seq::<char>::empty())]);
            (line_label(None), r)
        },
    };
    let tinted = search_tint(search, row_idx, styled, pal);
    let label_len = chars_of(label.as_str()).len();
    let content_width = if width >= label_len {
        width - label_len
    } else {
        0
    };
    let sliced = slice_segments(tinted.as_slice(), h_scroll, content_width);
    (label, sliced)
}

} // verus!
