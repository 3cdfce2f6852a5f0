//! Styled text segments: a line is a run of `(style, text)` pieces, cut
//! and re-styled at character positions. Styles are `ratatui` styles;
//! this module only moves them around and patches one over another.

use vstd::prelude::*;
use vstd::string::*;

use ratatui::style::Style;

use crate::text::{chars_of, string_of};

verus! {

/// The terminal style of a piece of text (`ratatui::style::Style`).
#[verifier::external_type_specification]
#[verifier::external_body]
pub struct ExStyle(ratatui::style::Style);

/// The style `base.patch(over)` returns.
pub uninterp spec fn style_patch(base: Style, over: Style) -> Style;

/// `ratatui::style::Style::patch`: overlays `over` on `base` (colors set in
/// `over` win, modifiers are added and removed). The result depends on the
/// two styles alone, which is what the name `style_patch` states.
#[verifier::external_body]
pub fn patch_style(base: Style, over: Style) -> (r: Style)
    ensures
        r == style_patch(base, over),
{
    base.patch(over)
}

/// The model of a run of segments: each style with its characters.
pub open spec fn segs_view(segs: Seq<(Style, String)>) -> Seq<(Style, Seq<char>)> {
    segs.map_values(|s: (Style, String)| (s.0, s.1@))
}

/// The characters of a run of segments, concatenated.
pub open spec fn segs_text(segs: Seq<(Style, Seq<char>)>) -> Seq<char>
    decreases segs.len(),
{
    if segs.len() == 0 {
        Seq::empty()
    } else {
        segs_text(segs.drop_last()) + segs.last().1
    }
}

/// A copy of a run of segments.
pub fn copy_segments(segs: &[(Style, String)]) -> (r: Vec<(Style, String)>)
    ensures
        segs_view(r@) == segs_view(segs@),
{
    let mut r: Vec<(Style, String)> = Vec::new();
    let mut i: usize = 0;
    while i < segs.len()
        invariant
            i <= segs@.len(),
            segs_view(r@) == segs_view(segs@).take(i as int),
        decreases segs@.len() - i,
    {
        let ghost before = r@;
        let text = segs[i].1.clone();
        r.push((segs[i].0, text));
        assert(segs_view(r@) =~= segs_view(before).push((segs@[i as int].0, text@)));
        assert(segs_view(r@) =~= segs_view(segs@).take(i + 1));
        i = i + 1;
    }
    assert(segs_view(segs@).take(i as int) =~= segs_view(segs@));
    r
}

// ---------------------------------------------------------------------
// Cutting segments at range boundaries
// ---------------------------------------------------------------------

/// Position `p` is where one of the ranges starts or ends.
pub open spec fn is_cut(ranges: Seq<(usize, usize)>, p: int) -> bool {
    exists|k: int| 0 <= k < ranges.len() && (ranges[k].0 == p || ranges[k].1 == p)
}

/// The interval `a..b` lies inside one of the ranges.
pub open spec fn inside(ranges: Seq<(usize, usize)>, a: int, b: int) -> bool {
    exists|k: int| 0 <= k < ranges.len() && ranges[k].0 <= a && b <= ranges[k].1
}

/// The first local position at or after `p` (and at most `len`) that is a
/// cut, with the segment starting at global offset `off`.
pub open spec fn next_cut(ranges: Seq<(usize, usize)>, len: int, off: int, p: int) -> int
    decreases len - p,
{
    if p >= len {
        len
    } else if is_cut(ranges, off + p) {
        p
    } else {
        next_cut(ranges, len, off, p + 1)
    }
}

/// The pieces of one segment from local position `from` on: cut at every
/// range boundary, each piece patched with `patch` when it lies inside a
/// range and keeping the segment's style otherwise.
pub open spec fn seg_pieces(
    style: Style,
    t: Seq<char>,
    off: int,
    ranges: Seq<(usize, usize)>,
    patch: Style,
    from: int,
) -> Seq<(Style, Seq<char>)>
    decreases t.len() - from,
{
    if from < 0 || from >= t.len() {
        Seq::empty()
    } else {
        let e = next_cut(ranges, t.len() as int, off, from + 1);
        proof {
            lemma_next_cut_bounds(ranges, t.len() as int, off, from + 1);
        }
        let st = if inside(ranges, off + from, off + e) {
            style_patch(style, patch)
        } else {
            style
        };
        if e <= from {
            Seq::empty()
        } else {
            seq![(st, t.subrange(from, e))] + seg_pieces(style, t, off, ranges, patch, e)
        }
    }
}

/// The pieces of the first `n` segments.
pub open spec fn cut_upto(
    segs: Seq<(Style, Seq<char>)>,
    ranges: Seq<(usize, usize)>,
    patch: Style,
    n: int,
) -> Seq<(Style, Seq<char>)>
    decreases n,
{
    if n <= 0 {
        Seq::empty()
    } else {
        cut_upto(segs, ranges, patch, n - 1) + seg_pieces(
            segs[n - 1].0,
            segs[n - 1].1,
            segs_text(segs.take(n - 1)).len() as int,
            ranges,
            patch,
            0,
        )
    }
}

/// All segments cut at the boundaries of `ranges` (char offsets into the
/// concatenated text), with pieces inside a range patched with `patch`;
/// empty segments disappear.
pub open spec fn cut_segments_spec(
    segs: Seq<(Style, Seq<char>)>,
    ranges: Seq<(usize, usize)>,
    patch: Style,
) -> Seq<(Style, Seq<char>)> {
    cut_upto(segs, ranges, patch, segs.len() as int)
}

/// Whether global position `p` is a cut.
fn is_cut_exec(ranges: &[(usize, usize)], p: usize) -> (r: bool)
    ensures
        r == is_cut(ranges@, p as int),
{
    let mut k: usize = 0;
    while k < ranges.len()
        invariant
            k <= ranges@.len(),
            forall|j: int| 0 <= j < k ==> !(ranges@[j].0 == p || ranges@[j].1 == p),
        decreases ranges@.len() - k,
    {
        if ranges[k].0 == p || ranges[k].1 == p {
            return true;
        }
        k = k + 1;
    }
    false
}

/// Whether `a..b` lies inside a range.
fn inside_exec(ranges: &[(usize, usize)], a: usize, b: usize) -> (r: bool)
    ensures
        r == inside(ranges@, a as int, b as int),
{
    let mut k: usize = 0;
    while k < ranges.len()
        invariant
            k <= ranges@.len(),
            forall|j: int| 0 <= j < k ==> !(ranges@[j].0 <= a && b <= ranges@[j].1),
        decreases ranges@.len() - k,
    {
        if ranges[k].0 <= a && b <= ranges[k].1 {
            return true;
        }
        k = k + 1;
    }
    false
}

/// The next cut from `p` lies between `p` and `len`.
pub proof fn lemma_next_cut_bounds(ranges: Seq<(usize, usize)>, len: int, off: int, p: int)
    requires
        p <= len,
    ensures
        p <= next_cut(ranges, len, off, p) <= len,
    decreases len - p,
{
    if p < len && !is_cut(ranges, off + p) {
        lemma_next_cut_bounds(ranges, len, off, p + 1);
    }
}

/// Append the pieces of one segment starting at global offset `off`.
fn push_seg_pieces(
    out: &mut Vec<(Style, String)>,
    style: Style,
    text: &str,
    off: usize,
    ranges: &[(usize, usize)],
    patch: Style,
)
    requires
        off + text@.len() <= usize::MAX,
    ensures
        segs_view(final(out)@) == segs_view(old(out)@) + seg_pieces(style, text@, off as int, ranges@, patch, 0),
{
    let cs = chars_of(text);
    let len = cs.len();
    let ghost base = segs_view(out@);
    let mut from: usize = 0;
    while from < len
        invariant
            cs@ == text@,
            len == cs@.len(),
            off + len <= usize::MAX,
            from <= len,
            segs_view(out@) + seg_pieces(style, text@, off as int, ranges@, patch, from as int) == base
                + seg_pieces(style, text@, off as int, ranges@, patch, 0),
        decreases len - from,
    {
        let mut e = from + 1;
        while e < len && !is_cut_exec(ranges, off + e)
            invariant
                from < e <= len,
                off + len <= usize::MAX,
                next_cut(ranges@, len as int, off as int, from + 1) == next_cut(ranges@, len as int, off as int, e as int),
            decreases len - e,
        {
            e = e + 1;
        }
        assert(next_cut(ranges@, len as int, off as int, e as int) == e);
        let st = if inside_exec(ranges, off + from, off + e) {
            patch_style(style, patch)
        } else {
            style
        };
        let piece = string_of(&cs, from, e);
        let ghost before = segs_view(out@);
        out.push((st, piece));
        proof {
            assert(segs_view(out@) =~= before.push((st, piece@)));
            let rest = seg_pieces(style, text@, off as int, ranges@, patch, e as int);
            assert(seg_pieces(style, text@, off as int, ranges@, patch, from as int) == seq![(st, piece@)]
                + rest);
            assert(before + (seq![(st, piece@)] + rest) =~= segs_view(out@) + rest);
        }
        from = e;
    }
    assert(seg_pieces(style, text@, off as int, ranges@, patch, from as int) =~= Seq::empty());
    assert(segs_view(out@) =~= segs_view(out@) + Seq::<(Style, Seq<char>)>::empty());
}

/// Cut every segment at the boundaries of `ranges` and patch the pieces
/// inside a range.
pub fn cut_segments(segments: &[(Style, String)], ranges: &[(usize, usize)], patch: Style) -> (r: Vec<(Style, String)>)
    requires
        segs_text(segs_view(segments@)).len() <= usize::MAX,
    ensures
        segs_view(r@) == cut_segments_spec(segs_view(segments@), ranges@, patch),
{
    let ghost sv = segs_view(segments@);
    let mut out: Vec<(Style, String)> = Vec::new();
    let mut offset: usize = 0;
    let mut i: usize = 0;
    while i < segments.len()
        invariant
            sv == segs_view(segments@),
            segs_text(sv).len() <= usize::MAX,
            i <= segments@.len(),
            offset == segs_text(sv.take(i as int)).len(),
            segs_view(out@) == cut_upto(sv, ranges@, patch, i as int),
        decreases segments@.len() - i,
    {
        let text = segments[i].1.as_str();
        proof {
            assert(sv.take(i + 1).drop_last() =~= sv.take(i as int));
            assert(sv.take(i + 1).last() == sv[i as int]);
            assert(sv[i as int].1 == text@);
            lemma_segs_text_prefix(sv, i + 1);
        }
        push_seg_pieces(&mut out, segments[i].0, text, offset, ranges, patch);
        offset = offset + text.unicode_len();
        i = i + 1;
    }
    out
}

/// The text of a prefix of the segments is no longer than the whole text.
proof fn lemma_segs_text_prefix(segs: Seq<(Style, Seq<char>)>, n: int)
    requires
        0 <= n <= segs.len(),
    ensures
        segs_text(segs.take(n)).len() <= segs_text(segs).len(),
    decreases segs.len() - n,
{
    if n < segs.len() {
        lemma_segs_text_prefix(segs, n + 1);
        assert(segs.take(n + 1).drop_last() =~= segs.take(n));
    } else {
        assert(segs.take(n) =~= segs);
    }
}

/// The concatenated text of a run of segments.
pub fn segments_text(segs: &[(Style, String)]) -> (r: String)
    ensures
        r@ == segs_text(segs_view(segs@)),
{
    let ghost sv = segs_view(segs@);
    let mut r = String::new();
    let mut i: usize = 0;
    while i < segs.len()
        invariant
            sv == segs_view(segs@),
            i <= segs@.len(),
            r@ == segs_text(sv.take(i as int)),
        decreases segs@.len() - i,
    {
        proof {
            assert(sv.take(i + 1).drop_last() =~= sv.take(i as int));
            assert(sv.take(i + 1).last() == sv[i as int]);
        }
        r.append(segs[i].1.as_str());
        i = i + 1;
    }
    assert(sv.take(i as int) =~= sv);
    r
}

// ---------------------------------------------------------------------
// Laws: cutting keeps the text
// ---------------------------------------------------------------------

/// The text of two runs of segments one after the other.
pub proof fn lemma_segs_text_append(a: Seq<(Style, Seq<char>)>, b: Seq<(Style, Seq<char>)>)
    ensures
        segs_text(a + b) == segs_text(a) + segs_text(b),
    decreases b.len(),
{
    if b.len() == 0 {
        assert(a + b =~= a);
        assert(segs_text(a) + segs_text(b) =~= segs_text(a));
    } else {
        lemma_segs_text_append(a, b.drop_last());
        assert((a + b).drop_last() =~= a + b.drop_last());
        assert((a + b).last() == b.last());
        assert(segs_text(a) + segs_text(b) =~= segs_text(a) + segs_text(b.drop_last()) + b.last().1);
    }
}

/// The pieces of a segment from `from` on spell the rest of its text.
proof fn lemma_seg_pieces_text(
    style: Style,
    t: Seq<char>,
    off: int,
    ranges: Seq<(usize, usize)>,
    patch: Style,
    from: int,
)
    requires
        0 <= from <= t.len(),
    ensures
        segs_text(seg_pieces(style, t, off, ranges, patch, from)) == t.subrange(from, t.len() as int),
    decreases t.len() - from,
{
    if from >= t.len() {
        assert(t.subrange(from, t.len() as int) =~= Seq::<char>::empty());
    } else {
        let e = next_cut(ranges, t.len() as int, off, from + 1);
        lemma_next_cut_bounds(ranges, t.len() as int, off, from + 1);
        let st = if inside(ranges, off + from, off + e) {
            style_patch(style, patch)
        } else {
            style
        };
        let head = seq![(st, t.subrange(from, e))];
        lemma_seg_pieces_text(style, t, off, ranges, patch, e);
        lemma_segs_text_append(head, seg_pieces(style, t, off, ranges, patch, e));
        assert(head.drop_last() =~= Seq::<(Style, Seq<char>)>::empty());
        assert(segs_text(head.drop_last()) =~= Seq::<char>::empty());
        assert(head.last() == (st, t.subrange(from, e)));
        assert(segs_text(head) =~= t.subrange(from, e));
        assert(t.subrange(from, e) + t.subrange(e, t.len() as int) =~= t.subrange(from, t.len() as int));
    }
}

proof fn lemma_cut_upto_text(segs: Seq<(Style, Seq<char>)>, ranges: Seq<(usize, usize)>, patch: Style, n: int)
    requires
        0 <= n <= segs.len(),
    ensures
        segs_text(cut_upto(segs, ranges, patch, n)) == segs_text(segs.take(n)),
    decreases n,
{
    if n == 0 {
        assert(segs.take(0) =~= Seq::<(Style, Seq<char>)>::empty());
    } else {
        let t = segs[n - 1].1;
        let off = segs_text(segs.take(n - 1)).len() as int;
        lemma_cut_upto_text(segs, ranges, patch, n - 1);
        lemma_seg_pieces_text(segs[n - 1].0, t, off, ranges, patch, 0);
        lemma_segs_text_append(cut_upto(segs, ranges, patch, n - 1), seg_pieces(segs[n - 1].0, t, off, ranges, patch, 0));
        assert(t.subrange(0, t.len() as int) =~= t);
        assert(segs.take(n).drop_last() =~= segs.take(n - 1));
        assert(segs.take(n).last() == segs[n - 1]);
    }
}

/// Cutting segments at range boundaries and patching the pieces changes
/// styles only: the characters, in order, stay the same.
pub proof fn lemma_cut_keeps_text(segs: Seq<(Style, Seq<char>)>, ranges: Seq<(usize, usize)>, patch: Style)
    ensures
        segs_text(cut_segments_spec(segs, ranges, patch)) == segs_text(segs),
{
    lemma_cut_upto_text(segs, ranges, patch, segs.len() as int);
    assert(segs.take(segs.len() as int) =~= segs);
}

} // verus!
