//! Screen geometry and per-line rendering decisions of the diff view:
//! scroll windows, popup placement, horizontal slicing of styled lines,
//! tab expansion of changed spans and the emphasis of changed spans.

use vstd::prelude::*;
use vstd::string::*;

use ratatui::style::Style;

use crate::diff::ordered;
use crate::segments::{
    copy_segments, cut_segments, cut_segments_spec, segments_text, segs_text, segs_view,
};
use crate::text::{chars_of, string_of};

verus! {

// ---------------------------------------------------------------------
// Scroll windows
// ---------------------------------------------------------------------

/// The first visible item of a list of `total` items in a viewport of
/// `height` rows, keeping `selected` visible: no scrolling when everything
/// fits or the selection is on the first page, the last page when the last
/// item is selected, else the selection centered (clamped to the last page).
pub open spec fn window_offset_spec(selected: int, total: int, height: int) -> int {
    if height == 0 || total <= height {
        0
    } else if selected < height {
        0
    } else if selected >= total - 1 {
        total - height
    } else {
        let centered = if selected >= height / 2 {
            selected - height / 2
        } else {
            0
        };
        if centered <= total - height {
            centered
        } else {
            total - height
        }
    }
}

/// Compute a scroll offset that keeps `selected` visible within a list of
/// `total` items rendered in a viewport of `height` rows.
pub fn window_offset(selected: usize, total: usize, height: usize) -> (r: usize)
    ensures
        r == window_offset_spec(selected as int, total as int, height as int),
{
    if height == 0 || total <= height {
        return 0;
    }
    if selected < height {
        0
    } else if selected >= total.saturating_sub(1) {
        total - height
    } else {
        let centered = selected.saturating_sub(height / 2);
        if centered <= total - height {
            centered
        } else {
            total - height
        }
    }
}

/// The window keeps the selected item on screen, starts on an item, and
/// never leaves rows empty below the last item when the list overflows.
pub proof fn lemma_window_shows_selection(selected: int, total: int, height: int)
    requires
        0 <= selected < total,
        height > 0,
    ensures
        0 <= window_offset_spec(selected, total, height) <= selected,
        selected < window_offset_spec(selected, total, height) + height,
        total > height ==> window_offset_spec(selected, total, height) + height <= total,
{
}

// ---------------------------------------------------------------------
// Rectangles
// ---------------------------------------------------------------------

/// A screen rectangle (the plain values of a terminal `Rect`).
#[derive(Debug, Clone, Copy, PartialEq, Eq, Structural)]
pub struct Area {
    pub x: u16,
    pub y: u16,
    pub width: u16,
    pub height: u16,
}

/// A rectangle of `content_height` rows centered vertically in `area`, or
/// `area` itself when it is not taller than that.
pub open spec fn center_vertically_spec(area: Area, content_height: u16) -> Area {
    if area.height <= content_height {
        area
    } else {
        Area {
            x: area.x,
            y: (area.y + (area.height - content_height) / 2) as u16,
            width: area.width,
            height: content_height,
        }
    }
}

/// Center a rectangle of `content_height` rows vertically within `area`.
pub fn center_vertically(area: Area, content_height: u16) -> (r: Area)
    requires
        area.y + area.height <= u16::MAX,
    ensures
        r == center_vertically_spec(area, content_height),
{
    if area.height <= content_height {
        return area;
    }
    let top = (area.height - content_height) / 2;
    Area { x: area.x, y: area.y + top, width: area.width, height: content_height }
}

/// A popup of at most `width` x `height` cells centered in `area` (clipped
/// to the area's size).
pub open spec fn popup_spec(area: Area, width: u16, height: u16) -> Area {
    let w = if width <= area.width {
        width
    } else {
        area.width
    };
    let h = if height <= area.height {
        height
    } else {
        area.height
    };
    Area {
        x: (area.x + (area.width - w) / 2) as u16,
        y: (area.y + (area.height - h) / 2) as u16,
        width: w,
        height: h,
    }
}

/// Center a popup of at most `width` x `height` cells in `area`.
pub fn popup(area: Area, width: u16, height: u16) -> (r: Area)
    requires
        area.x + area.width <= u16::MAX,
        area.y + area.height <= u16::MAX,
    ensures
        r == popup_spec(area, width, height),
        r.x + r.width <= area.x + area.width,
        r.y + r.height <= area.y + area.height,
{
    let w = if width <= area.width { width } else { area.width };
    let h = if height <= area.height { height } else { area.height };
    let x = area.x + (area.width - w) / 2;
    let y = area.y + (area.height - h) / 2;
    Area { x, y, width: w, height: h }
}

/// The size of the project-search results popup: 90% of the width (at
/// least 20 cells) and 70% of the height (at least 8 rows), clipped to
/// the area.
pub open spec fn results_popup_size(area: Area) -> (u16, u16) {
    let w0 = (area.width * 90 / 100) as u16;
    let h0 = (area.height * 70 / 100) as u16;
    let w1 = if w0 >= 20 {
        w0
    } else {
        20u16
    };
    let h1 = if h0 >= 8 {
        h0
    } else {
        8u16
    };
    (
        if w1 <= area.width {
            w1
        } else {
            area.width
        },
        if h1 <= area.height {
            h1
        } else {
            area.height
        },
    )
}

/// The centered popup listing project-search results.
pub fn results_popup(area: Area) -> (r: Area)
    requires
        area.x + area.width <= u16::MAX,
        area.y + area.height <= u16::MAX,
    ensures
        r == popup_spec(area, results_popup_size(area).0, results_popup_size(area).1),
{
    let w0 = ((area.width as u32) * 90 / 100) as u16;
    let h0 = ((area.height as u32) * 70 / 100) as u16;
    let w1 = if w0 >= 20 {
        w0
    } else {
        20u16
    };
    let h1 = if h0 >= 8 {
        h0
    } else {
        8u16
    };
    let w = if w1 <= area.width {
        w1
    } else {
        area.width
    };
    let h = if h1 <= area.height {
        h1
    } else {
        area.height
    };
    popup(area, w, h)
}

/// Default width of the file panel.
pub const FILE_PANEL_WIDTH: u16 = 34;

/// The largest of a list of widths (0 for none).
pub open spec fn max_width(ws: Seq<usize>) -> int
    decreases ws.len(),
{
    if ws.len() == 0 {
        0
    } else {
        let m = max_width(ws.drop_last());
        if ws.last() > m {
            ws.last() as int
        } else {
            m
        }
    }
}

/// Width of the file panel: fixed by default (clipped to the screen);
/// when widened, the widest row plus borders, at least the default and at
/// most two thirds of the screen (or the default, if that is larger).
pub open spec fn file_panel_width_spec(row_widths: Seq<usize>, wide: bool, total_width: u16) -> u16 {
    if !wide {
        if FILE_PANEL_WIDTH <= total_width {
            FILE_PANEL_WIDTH
        } else {
            total_width
        }
    } else {
        let content = max_width(row_widths) + 2;
        let cap = total_width * 2 / 3;
        let hi = if cap >= FILE_PANEL_WIDTH {
            cap
        } else {
            FILE_PANEL_WIDTH as int
        };
        (if content < FILE_PANEL_WIDTH {
            FILE_PANEL_WIDTH as int
        } else if content > hi {
            hi
        } else {
            content
        }) as u16
    }
}

/// Width of the file panel, given the display width of each of its rows.
pub fn file_panel_width(row_widths: &[usize], wide: bool, total_width: u16) -> (r: u16)
    requires
        forall|i: int| 0 <= i < row_widths@.len() ==> row_widths@[i] < usize::MAX - 2,
    ensures
        r == file_panel_width_spec(row_widths@, wide, total_width),
{
    if !wide {
        return if FILE_PANEL_WIDTH <= total_width { FILE_PANEL_WIDTH } else { total_width };
    }
    let mut content: usize = 0;
    let mut i: usize = 0;
    while i < row_widths.len()
        invariant
            i <= row_widths@.len(),
            content == max_width(row_widths@.take(i as int)),
            forall|k: int| 0 <= k < row_widths@.len() ==> row_widths@[k] < usize::MAX - 2,
            content < usize::MAX - 2,
        decreases row_widths@.len() - i,
    {
        proof {
            assert(row_widths@.take(i + 1).drop_last() =~= row_widths@.take(i as int));
        }
        if row_widths[i] > content {
            content = row_widths[i];
        }
        i = i + 1;
    }
    assert(row_widths@.take(i as int) =~= row_widths@);
    let cap = (total_width as usize) * 2 / 3;
    let hi = if cap >= FILE_PANEL_WIDTH as usize { cap } else { FILE_PANEL_WIDTH as usize };
    let c = content + 2;
    let clamped = if c < FILE_PANEL_WIDTH as usize {
        FILE_PANEL_WIDTH as usize
    } else if c > hi {
        hi
    } else {
        c
    };
    clamped as u16
}

// ---------------------------------------------------------------------
// Styled lines
// ---------------------------------------------------------------------

/// Slicing segments: characters still to skip, characters still to take,
/// and the pieces kept so far.
pub open spec fn slice_state(segs: Seq<(Style, Seq<char>)>, skip: int, take: int) -> (int, int, Seq<(Style, Seq<char>)>)
    decreases segs.len(),
{
    if segs.len() == 0 {
        (skip, take, Seq::empty())
    } else {
        let (sk, tk, out) = slice_state(segs.drop_last(), skip, take);
        let (st, t) = segs.last();
        if tk == 0 {
            (sk, tk, out)
        } else if sk >= t.len() {
            (sk - t.len(), tk, out)
        } else {
            let end = if sk + tk <= t.len() {
                sk + tk
            } else {
                t.len() as int
            };
            (0, tk - (end - sk), out.push((st, t.subrange(sk, end))))
        }
    }
}

/// Skip `skip` characters and keep at most `take` characters across a
/// sequence of styled segments, preserving per-segment styles and staying
/// char-boundary-safe.
pub fn slice_segments(segments: &[(Style, String)], skip: usize, take: usize) -> (r: Vec<(Style, String)>)
    ensures
        segs_view(r@) == slice_state(segs_view(segments@), skip as int, take as int).2,
{
    let ghost sv = segs_view(segments@);
    let mut skip_remaining = skip;
    let mut take_remaining = take;
    let mut result: Vec<(Style, String)> = Vec::new();
    let mut i: usize = 0;
    while i < segments.len()
        invariant
            sv == segs_view(segments@),
            i <= segments@.len(),
            ({
                let (sk, tk, out) = slice_state(sv.take(i as int), skip as int, take as int);
                sk == skip_remaining && tk == take_remaining && out == segs_view(result@)
            }),
        decreases segments@.len() - i,
    {
        proof {
            assert(sv.take(i + 1).drop_last() =~= sv.take(i as int));
            assert(sv.take(i + 1).last() == sv[i as int]);
        }
        let style = segments[i].0;
        let text = segments[i].1.as_str();
        let cs = chars_of(text);
        let count = cs.len();
        if take_remaining == 0 {
        } else if skip_remaining >= count {
            skip_remaining = skip_remaining - count;
        } else {
            let end = if take_remaining <= count - skip_remaining {
                skip_remaining + take_remaining
            } else {
                count
            };
            let piece = string_of(&cs, skip_remaining, end);
            let ghost before = segs_view(result@);
            result.push((style, piece));
            assert(segs_view(result@) =~= before.push((style, piece@)));
            take_remaining = take_remaining - (end - skip_remaining);
            skip_remaining = 0;
        }
        i = i + 1;
    }
    assert(sv.take(i as int) =~= sv);
    result
}

/// Number of tab characters in `s`.
pub open spec fn count_tabs(s: Seq<char>) -> int
    decreases s.len(),
{
    if s.len() == 0 {
        0
    } else {
        count_tabs(s.drop_last()) + if s.last() == '\t' {
            1int
        } else {
            0
        }
    }
}

/// A character position after expanding each tab before it to 4 spaces.
pub open spec fn expand_pos(content: Seq<char>, pos: int) -> int {
    let n = if pos <= content.len() {
        pos
    } else {
        content.len() as int
    };
    pos + 3 * count_tabs(content.take(n))
}

/// The tabs among the first `n` characters.
fn tabs_before(cs: &Vec<char>, n: usize) -> (r: usize)
    requires
        n <= cs@.len(),
    ensures
        r == count_tabs(cs@.take(n as int)),
        r <= n,
{
    let mut r: usize = 0;
    let mut i: usize = 0;
    while i < n
        invariant
            n <= cs@.len(),
            i <= n,
            r == count_tabs(cs@.take(i as int)),
            r <= i,
        decreases n - i,
    {
        proof {
            assert(cs@.take(i + 1).drop_last() =~= cs@.take(i as int));
        }
        if cs[i] == '\t' {
            r = r + 1;
        }
        i = i + 1;
    }
    r
}

/// Shift a char range from raw-content coordinates into
/// tab-expanded coordinates, given tabs are rendered as 4 spaces. Each tab
/// before a position adds 3 extra chars ahead of it.
pub fn expand_tab_range(content: &str, range: (usize, usize)) -> (r: (usize, usize))
    requires
        expand_pos(content@, range.0 as int) <= usize::MAX,
        expand_pos(content@, range.1 as int) <= usize::MAX,
    ensures
        r.0 == expand_pos(content@, range.0 as int),
        r.1 == expand_pos(content@, range.1 as int),
{
    let cs = chars_of(content);
    let (start, end) = range;
    let ns = if start <= cs.len() { start } else { cs.len() };
    let ne = if end <= cs.len() { end } else { cs.len() };
    let ts = tabs_before(&cs, ns);
    let te = tabs_before(&cs, ne);
    (start + 3 * ts, end + 3 * te)
}

/// Patch `patch` over the given char ranges of a styled-segment line,
/// splitting segments at range boundaries. Ranges are char-indexed into
/// the concatenated segment text, sorted and non-overlapping; with no
/// ranges the segments come back unchanged.
pub fn overlay_ranges(segments: &[(Style, String)], ranges: &[(usize, usize)], patch: Style) -> (r: Vec<(Style, String)>)
    requires
        ordered(ranges@),
    ensures
        ranges@.len() == 0 ==> segs_view(r@) == segs_view(segments@),
        ranges@.len() > 0 ==> segs_view(r@) == cut_segments_spec(segs_view(segments@), ranges@, patch),
{
    if ranges.len() == 0 {
        return copy_segments(segments);
    }
    let full = segments_text(segments);
    let _n = full.as_str().unicode_len();
    cut_segments(segments, ranges, patch)
}

// ---------------------------------------------------------------------
// Laws: slicing shows a window of the text
// ---------------------------------------------------------------------

/// The smaller of two integers.
pub open spec fn at_most(a: int, b: int) -> int {
    if a <= b {
        a
    } else {
        b
    }
}

proof fn lemma_slice_state_text(segs: Seq<(Style, Seq<char>)>, skip: int, take: int)
    requires
        skip >= 0,
        take >= 0,
    ensures
        ({
            let (sk, tk, out) = slice_state(segs, skip, take);
            let tl = segs_text(segs).len() as int;
            &&& segs_text(out) == segs_text(segs).subrange(at_most(skip, tl), at_most(skip + take, tl))
            &&& tk == take - (at_most(skip + take, tl) - at_most(skip, tl))
            &&& tk > 0 ==> sk == (if skip >= tl { skip - tl } else { 0 })
        }),
    decreases segs.len(),
{
    if segs.len() == 0 {
        assert(segs_text(segs) =~= Seq::<char>::empty());
        assert(segs_text(Seq::<(Style, Seq<char>)>::empty()) =~= Seq::<char>::empty());
    } else {
        let init = segs.drop_last();
        lemma_slice_state_text(init, skip, take);
        let (sk, tk, out) = slice_state(init, skip, take);
        let (st, t) = segs.last();
        let pre = segs_text(init);
        let all = segs_text(segs);
        assert(all == pre + t);
        let l1 = pre.len() as int;
        let l2 = all.len() as int;
        let a1 = at_most(skip, l1);
        let b1 = at_most(skip + take, l1);
        let a2 = at_most(skip, l2);
        let b2 = at_most(skip + take, l2);
        if tk == 0 {
            assert(all.subrange(a2, b2) =~= pre.subrange(a1, b1));
        } else if sk >= t.len() {
            assert(all.subrange(a2, b2) =~= pre.subrange(a1, b1));
        } else {
            let end = if sk + tk <= t.len() {
                sk + tk
            } else {
                t.len() as int
            };
            let piece = (st, t.subrange(sk, end));
            assert(out.push(piece).drop_last() =~= out);
            assert(segs_text(out.push(piece)) == segs_text(out) + t.subrange(sk, end));
            assert(all.subrange(a2, b2) =~= pre.subrange(a1, b1) + t.subrange(sk, end));
        }
    }
}

/// Slicing a styled line keeps exactly its characters from `skip` up to
/// `skip + take` (fewer where the line ends first), in order.
pub proof fn lemma_slice_is_window(segs: Seq<(Style, Seq<char>)>, skip: usize, take: usize)
    ensures
        segs_text(slice_state(segs, skip as int, take as int).2) == segs_text(segs).subrange(
            at_most(skip as int, segs_text(segs).len() as int),
            at_most(skip + take, segs_text(segs).len() as int),
        ),
{
    lemma_slice_state_text(segs, skip as int, take as int);
}

} // verus!
