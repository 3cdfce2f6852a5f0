//! Line-level side-by-side diff engine built on top of the `similar` crate:
//! `similar` computes the line and word diffs, and this module aligns them
//! into rows and finds the changed spans of modified lines.

use vstd::prelude::*;
use vstd::string::*;

use crate::text::{split_inclusive_newline, split_incl, strip_eol, strip_line_end, strs_view};
use crate::types::{CellSpec, DiffRow, LineCell, RowKind, RowSpec, SideBySideDiff};

verus! {

/// The kind of a diff operation over line ranges.
#[derive(Debug, Clone, Copy, PartialEq, Eq, Structural)]
pub enum OpTag {
    Equal,
    Delete,
    Insert,
    Replace,
}

/// A diff operation: lines `old_start..old_end` of the old text against
/// lines `new_start..new_end` of the new text.
#[derive(Debug, Clone, Copy, PartialEq, Eq, Structural)]
pub struct LineOp {
    pub tag: OpTag,
    pub old_start: usize,
    pub old_end: usize,
    pub new_start: usize,
    pub new_end: usize,
}

/// The kind of one change of a word diff.
#[derive(Debug, Clone, Copy, PartialEq, Eq, Structural)]
pub enum ChangeKind {
    Equal,
    Delete,
    Insert,
}

/// The operations of `similar`'s line diff of two texts.
pub uninterp spec fn similar_line_ops(old: Seq<char>, new: Seq<char>) -> Seq<LineOp>;

/// The changes of `similar`'s word diff of two texts, each with its token.
pub uninterp spec fn similar_word_changes(old: Seq<char>, new: Seq<char>) -> Seq<(ChangeKind, Seq<char>)>;

/// Every '\r' of `s` stands right before a '\n'.
pub open spec fn no_lone_cr(s: Seq<char>) -> bool {
    forall|i: int| 0 <= i < s.len() && #[trigger] s[i] == '\r' ==> i + 1 < s.len() && s[i + 1] == '\n'
}

/// Operations that walk both line lists from first to last (see
/// [`is_script`]), pairing equal lines in their equal runs.
pub open spec fn walks_lines(ops: Seq<LineOp>, ol: Seq<Seq<char>>, nl: Seq<Seq<char>>) -> bool {
    &&& is_script(ops, ol.len() as int, nl.len() as int)
    &&& pairs_equal(ops, ol, nl)
}

/// The equal runs of `ops` pair equal lines.
pub open spec fn pairs_equal(ops: Seq<LineOp>, ol: Seq<Seq<char>>, nl: Seq<Seq<char>>) -> bool {
    forall|i: int, j: int|
        0 <= i < ops.len() && (#[trigger] ops[i]).tag == OpTag::Equal && 0 <= j < ops[i].old_end - ops[i].old_start
            ==> #[trigger] ol[ops[i].old_start + j] == nl[ops[i].new_start + j]
}

/// `similar::TextDiff::from_lines(old, new).ops()`, each operation given as
/// its tag and its old and new line ranges. The operations depend on the
/// two texts alone (no deadline is configured), which is what the name
/// `similar_line_ops` states. similar splits a text into lines after each
/// '\n', after each "\r\n" and after each lone '\r'; its operations cover
/// both line lists in order, one after the other, and an equal run pairs
/// equal lines, deletions and insertions reading nothing of the other
/// side. When no lone '\r' occurs its lines are those split after each
/// '\n', and the contract states that.
#[verifier::external_body]
pub fn line_diff_ops(old: &str, new: &str) -> (r: Vec<LineOp>)
    ensures
        r@ == similar_line_ops(old@, new@),
        no_lone_cr(old@) && no_lone_cr(new@) ==> walks_lines(r@, split_incl(old@), split_incl(new@)),
{
    let diff = similar::TextDiff::from_lines(old, new);
    let mut out = Vec::new();
    for op in diff.ops() {
        let (tag, o, n) = op.as_tag_tuple();
        let tag = match tag {
            similar::DiffTag::Equal => OpTag::Equal,
            similar::DiffTag::Delete => OpTag::Delete,
            similar::DiffTag::Insert => OpTag::Insert,
            similar::DiffTag::Replace => OpTag::Replace,
        };
        out.push(LineOp { tag, old_start: o.start, old_end: o.end, new_start: n.start, new_end: n.end });
    }
    out
}

/// The tokens of a word diff on one side, concatenated: the equal and
/// deleted tokens for the old side, the equal and inserted ones for the
/// new side.
pub open spec fn side_text(ch: Seq<(ChangeKind, Seq<char>)>, old_side: bool) -> Seq<char>
    decreases ch.len(),
{
    if ch.len() == 0 {
        Seq::empty()
    } else {
        let k = ch.last().0;
        let keep = if old_side {
            k != ChangeKind::Insert
        } else {
            k != ChangeKind::Delete
        };
        side_text(ch.drop_last(), old_side) + if keep {
            ch.last().1
        } else {
            Seq::empty()
        }
    }
}

/// The model of a word diff's changes.
pub open spec fn changes_view(ch: Seq<(ChangeKind, String)>) -> Seq<(ChangeKind, Seq<char>)> {
    ch.map_values(|c: (ChangeKind, String)| (c.0, c.1@))
}

/// `similar::TextDiff::from_words(old, new).iter_all_changes()`, each
/// change given as its tag and its token (`Change::value`). The changes
/// depend on the two texts alone, which is what the name
/// `similar_word_changes` states. similar cuts each text into non-empty
/// runs of whitespace and of other characters, and its changes walk both
/// token lists in order, so the equal and deleted tokens make up `old` and
/// the equal and inserted ones make up `new`, which the contract states.
#[verifier::external_body]
pub fn word_changes(old: &str, new: &str) -> (r: Vec<(ChangeKind, String)>)
    ensures
        r@.len() == similar_word_changes(old@, new@).len(),
        forall|i: int|
            0 <= i < r@.len() ==> (#[trigger] r@[i]).0 == similar_word_changes(old@, new@)[i].0
                && r@[i].1@ == similar_word_changes(old@, new@)[i].1,
        forall|i: int| 0 <= i < r@.len() ==> (#[trigger] r@[i]).1@.len() > 0,
        side_text(changes_view(r@), true) == old@,
        side_text(changes_view(r@), false) == new@,
{
    let diff = similar::TextDiff::from_words(old, new);
    let mut out = Vec::new();
    for change in diff.iter_all_changes() {
        let kind = match change.tag() {
            similar::ChangeTag::Equal => ChangeKind::Equal,
            similar::ChangeTag::Delete => ChangeKind::Delete,
            similar::ChangeTag::Insert => ChangeKind::Insert,
        };
        out.push((kind, change.value().to_string()));
    }
    out
}

// ---------------------------------------------------------------------
// Intra-line changed ranges
// ---------------------------------------------------------------------

/// Ranges where each starts no earlier than the previous one ends and none
/// is reversed.
pub open spec fn ordered(rs: Seq<(usize, usize)>) -> bool {
    &&& forall|i: int| 0 <= i < rs.len() ==> (#[trigger] rs[i]).0 <= rs[i].1
    &&& forall|i: int, j: int| 0 <= i < j < rs.len() ==> (#[trigger] rs[i]).1 <= (#[trigger] rs[j]).0
}

/// Contiguous ranges (the next starts where the previous ends) merged.
pub open spec fn merge_spec(rs: Seq<(usize, usize)>) -> Seq<(usize, usize)>
    decreases rs.len(),
{
    if rs.len() == 0 {
        Seq::empty()
    } else {
        let m = merge_spec(rs.drop_last());
        let r = rs.last();
        if m.len() > 0 && r.0 == m.last().1 {
            m.update(m.len() - 1, (m.last().0, r.1))
        } else {
            m.push(r)
        }
    }
}

/// Merging keeps ordered ranges ordered, never longer, and ending where the
/// input ends.
proof fn lemma_merge_ordered(rs: Seq<(usize, usize)>)
    requires
        ordered(rs),
    ensures
        ordered(merge_spec(rs)),
        merge_spec(rs).len() <= rs.len(),
        rs.len() > 0 ==> merge_spec(rs).len() > 0 && merge_spec(rs).last().1 == rs.last().1,
        rs.len() > 0 ==> merge_spec(rs)[0].0 == rs[0].0,
    decreases rs.len(),
{
    if rs.len() > 0 {
        let p = rs.drop_last();
        assert(ordered(p));
        lemma_merge_ordered(p);
        let m = merge_spec(p);
        let r = rs.last();
        if m.len() > 0 {
            assert(m.last().1 == p.last().1);
            assert(p.last() == rs[rs.len() - 2]);
            assert(m.last().1 <= r.0);
        }
        if m.len() > 0 && r.0 == m.last().1 {
            let n = m.update(m.len() - 1, (m.last().0, r.1));
            assert forall|i: int, j: int| 0 <= i < j < n.len() implies (#[trigger] n[i]).1 <= (#[trigger] n[j]).0 by {
                if j == n.len() - 1 {
                    assert(m[i].1 <= m[j].0);
                }
            }
        } else {
            let n = m.push(r);
            assert forall|i: int, j: int| 0 <= i < j < n.len() implies (#[trigger] n[i]).1 <= (#[trigger] n[j]).0 by {
                if j == n.len() - 1 && i < m.len() {
                    if i < m.len() - 1 {
                        assert(m[i].1 <= m[m.len() - 1].0);
                        assert(m[m.len() - 1].0 <= m[m.len() - 1].1);
                    }
                }
            }
        }
    }
}

/// Merge adjacent/contiguous ranges (where the next range's start equals
/// the previous range's end) in place.
pub fn merge_adjacent(ranges: &mut Vec<(usize, usize)>)
    ensures
        final(ranges)@ == merge_spec(old(ranges)@),
{
    let mut merged: Vec<(usize, usize)> = Vec::new();
    let mut i: usize = 0;
    while i < ranges.len()
        invariant
            i <= ranges@.len(),
            merged@ == merge_spec(ranges@.take(i as int)),
        decreases ranges@.len() - i,
    {
        let (start, end) = ranges[i];
        proof {
            assert(ranges@.take(i + 1).drop_last() =~= ranges@.take(i as int));
        }
        let n = merged.len();
        if n > 0 && start == merged[n - 1].1 {
            let first = merged[n - 1].0;
            merged.set(n - 1, (first, end));
        } else {
            merged.push((start, end));
        }
        i = i + 1;
    }
    assert(ranges@.take(i as int) =~= ranges@);
    *ranges = merged;
}

/// Scanning the changes of a word diff: the character positions reached in
/// the old and new line and the ranges deleted from the old line and
/// inserted into the new one.
pub open spec fn scan_changes(ch: Seq<(ChangeKind, Seq<char>)>) -> (int, int, Seq<(usize, usize)>, Seq<(usize, usize)>)
    decreases ch.len(),
{
    if ch.len() == 0 {
        (0, 0, Seq::empty(), Seq::empty())
    } else {
        let (op, np, ors, nrs) = scan_changes(ch.drop_last());
        let (kind, tok) = ch.last();
        let len = tok.len() as int;
        match kind {
            ChangeKind::Equal => (op + len, np + len, ors, nrs),
            ChangeKind::Delete => (op + len, np, ors.push((op as usize, (op + len) as usize)), nrs),
            ChangeKind::Insert => (op, np + len, ors, nrs.push((np as usize, (np + len) as usize))),
        }
    }
}

/// Total length of a list of ranges.
pub open spec fn total_len(rs: Seq<(usize, usize)>) -> int
    decreases rs.len(),
{
    if rs.len() == 0 {
        0
    } else {
        total_len(rs.drop_last()) + (rs.last().1 - rs.last().0)
    }
}

/// Word-level intra-line diff of a modified pair: the changed char ranges
/// of `old` and of `new`, each list merged where contiguous. Both lists
/// are empty ("the whole line changed") when either line is empty or
/// longer than 2000 chars, when more than 70% of either line changed, or
/// when the scan positions would not fit in `usize`.
pub open spec fn inline_spec(old: Seq<char>, new: Seq<char>) -> (Seq<(usize, usize)>, Seq<(usize, usize)>) {
    if old.len() == 0 || new.len() == 0 || old.len() > 2000 || new.len() > 2000 {
        (Seq::empty(), Seq::empty())
    } else {
        let (op, np, ors, nrs) = scan_changes(similar_word_changes(old, new));
        if op > usize::MAX || np > usize::MAX {
            (Seq::empty(), Seq::empty())
        } else {
            let mo = merge_spec(ors);
            let mn = merge_spec(nrs);
            if 10 * total_len(mo) > 7 * old.len() || 10 * total_len(mn) > 7 * new.len() {
                (Seq::empty(), Seq::empty())
            } else {
                (mo, mn)
            }
        }
    }
}

/// The scan moves forward, and the ranges it finds are ordered and lie
/// before the positions reached.
proof fn lemma_scan(ch: Seq<(ChangeKind, Seq<char>)>)
    ensures
        ({
            let (op, np, ors, nrs) = scan_changes(ch);
            &&& 0 <= op
            &&& 0 <= np
            &&& (op <= usize::MAX && np <= usize::MAX) ==> {
                &&& ordered(ors)
                &&& ordered(nrs)
                &&& ors.len() > 0 ==> ors.last().1 <= op
                &&& nrs.len() > 0 ==> nrs.last().1 <= np
            }
        }),
    decreases ch.len(),
{
    if ch.len() > 0 {
        lemma_scan(ch.drop_last());
        let (op, np, ors, nrs) = scan_changes(ch.drop_last());
        let (op2, np2, ors2, nrs2) = scan_changes(ch);
        if op2 <= usize::MAX && np2 <= usize::MAX {
            assert(op <= op2 && np <= np2);
            assert(ordered(ors2)) by {
                assert forall|i: int, j: int| 0 <= i < j < ors2.len() implies (#[trigger] ors2[i]).1 <= (#[trigger] ors2[j]).0 by {
                    if j == ors2.len() - 1 && ors2.len() > ors.len() {
                        assert(ors[i].1 <= ors.last().1);
                    }
                }
            }
            assert(ordered(nrs2)) by {
                assert forall|i: int, j: int| 0 <= i < j < nrs2.len() implies (#[trigger] nrs2[i]).1 <= (#[trigger] nrs2[j]).0 by {
                    if j == nrs2.len() - 1 && nrs2.len() > nrs.len() {
                        assert(nrs[i].1 <= nrs.last().1);
                    }
                }
            }
        }
    }
}

/// The total length of ordered ranges is at most where the last one ends.
proof fn lemma_total_len(rs: Seq<(usize, usize)>)
    requires
        ordered(rs),
    ensures
        0 <= total_len(rs),
        rs.len() > 0 ==> total_len(rs) <= rs.last().1,
    decreases rs.len(),
{
    if rs.len() > 0 {
        let p = rs.drop_last();
        assert(ordered(p));
        lemma_total_len(p);
        if p.len() > 0 {
            assert(p.last() == rs[rs.len() - 2]);
        }
    }
}

/// Sum of the lengths of ordered ranges.
fn range_total(rs: &Vec<(usize, usize)>) -> (r: usize)
    requires
        ordered(rs@),
    ensures
        r == total_len(rs@),
{
    let mut t: usize = 0;
    let mut i: usize = 0;
    while i < rs.len()
        invariant
            ordered(rs@),
            i <= rs@.len(),
            t == total_len(rs@.take(i as int)),
        decreases rs@.len() - i,
    {
        proof {
            let p = rs@.take(i + 1);
            assert(p.drop_last() =~= rs@.take(i as int));
            assert(ordered(p));
            lemma_total_len(p);
            assert(p.last() == rs@[i as int]);
        }
        t = t + (rs[i].1 - rs[i].0);
        i = i + 1;
    }
    assert(rs@.take(i as int) =~= rs@);
    t
}

/// Word-level intra-line diff of a Modified pair: returns the changed
/// char ranges of (old_line, new_line). Empty vecs mean "treat the whole
/// line as changed".
pub fn inline_ranges(old: &str, new: &str) -> (r: (Vec<(usize, usize)>, Vec<(usize, usize)>))
    ensures
        (r.0@, r.1@) == inline_spec(old@, new@),
        spans_in(r.0@, old@.len() as int),
        spans_in(r.1@, new@.len() as int),
        r.0@.len() > 0 || r.1@.len() > 0 ==> old@.len() <= 2000 && new@.len() <= 2000,
{
    let old_chars = old.unicode_len();
    let new_chars = new.unicode_len();
    if old_chars == 0 || new_chars == 0 || old_chars > 2000 || new_chars > 2000 {
        return (Vec::new(), Vec::new());
    }
    let changes = word_changes(old, new);
    let ghost ch = similar_word_changes(old@, new@);
    assert forall|k: int| 0 <= k < ch.len() implies (#[trigger] ch[k]).1.len() > 0 by {
        assert(changes@[k].1@.len() > 0);
    }
    assert(changes_view(changes@) =~= ch);
    let mut old_ranges: Vec<(usize, usize)> = Vec::new();
    let mut new_ranges: Vec<(usize, usize)> = Vec::new();
    let mut old_pos: usize = 0;
    let mut new_pos: usize = 0;
    let mut i: usize = 0;
    while i < changes.len()
        invariant
            ch == similar_word_changes(old@, new@),
            0 < old@.len() <= 2000,
            0 < new@.len() <= 2000,
            old_chars == old@.len(),
            new_chars == new@.len(),
            changes@.len() == ch.len(),
            forall|k: int| 0 <= k < changes@.len() ==> (#[trigger] changes@[k]).0 == ch[k].0 && changes@[k].1@ == ch[k].1,
            forall|k: int| 0 <= k < ch.len() ==> (#[trigger] ch[k]).1.len() > 0,
            side_text(ch, true) == old@,
            side_text(ch, false) == new@,
            i <= ch.len(),
            ({
                let (op, np, ors, nrs) = scan_changes(ch.take(i as int));
                op == old_pos && np == new_pos && ors == old_ranges@ && nrs == new_ranges@
            }),
        decreases ch.len() - i,
    {
        proof {
            assert(ch.take(i + 1).drop_last() =~= ch.take(i as int));
            assert(ch.take(i + 1).last() == ch[i as int]);
        }
        let len = changes[i].1.as_str().unicode_len();
        match changes[i].0 {
            ChangeKind::Equal => {
                if old_pos > usize::MAX - len || new_pos > usize::MAX - len {
                    proof { lemma_scan_grows(ch, i as int + 1); }
                    return (Vec::new(), Vec::new());
                }
                old_pos = old_pos + len;
                new_pos = new_pos + len;
            },
            ChangeKind::Delete => {
                if old_pos > usize::MAX - len {
                    proof { lemma_scan_grows(ch, i as int + 1); }
                    return (Vec::new(), Vec::new());
                }
                old_ranges.push((old_pos, old_pos + len));
                old_pos = old_pos + len;
            },
            ChangeKind::Insert => {
                if new_pos > usize::MAX - len {
                    proof { lemma_scan_grows(ch, i as int + 1); }
                    return (Vec::new(), Vec::new());
                }
                new_ranges.push((new_pos, new_pos + len));
                new_pos = new_pos + len;
            },
        }
        i = i + 1;
    }
    assert(ch.take(i as int) =~= ch);
    proof {
        lemma_scan(ch);
        lemma_scan_sides(ch);
        lemma_merge_ordered(old_ranges@);
        lemma_merge_ordered(new_ranges@);
        lemma_merge_spans(old_ranges@, old@.len() as int);
        lemma_merge_spans(new_ranges@, new@.len() as int);
    }
    merge_adjacent(&mut old_ranges);
    merge_adjacent(&mut new_ranges);
    let old_changed = range_total(&old_ranges);
    let new_changed = range_total(&new_ranges);
    // Exact integer form of `changed / chars > 0.7`.
    if 10 * (old_changed as u128) > 7 * (old_chars as u128) || 10 * (new_changed as u128) > 7 * (
    new_chars as u128) {
        return (Vec::new(), Vec::new());
    }
    (old_ranges, new_ranges)
}

/// The positions of a scan only grow as more changes are read.
proof fn lemma_scan_grows(ch: Seq<(ChangeKind, Seq<char>)>, k: int)
    requires
        0 <= k <= ch.len(),
    ensures
        scan_changes(ch.take(k)).0 <= scan_changes(ch).0,
        scan_changes(ch.take(k)).1 <= scan_changes(ch).1,
    decreases ch.len() - k,
{
    if k < ch.len() {
        lemma_scan_grows(ch, k + 1);
        assert(ch.take(k + 1).drop_last() =~= ch.take(k));
    } else {
        assert(ch.take(k) =~= ch);
    }
}

/// Ranges that are ordered, each non-empty and ending within `len`.
pub open spec fn spans_in(rs: Seq<(usize, usize)>, len: int) -> bool {
    &&& ordered(rs)
    &&& forall|k: int| 0 <= k < rs.len() ==> (#[trigger] rs[k]).0 < rs[k].1 && rs[k].1 <= len
}

/// With non-empty tokens, the scan reaches the end of each side's text,
/// and each range it finds is non-empty and ends within the positions
/// reached.
proof fn lemma_scan_sides(ch: Seq<(ChangeKind, Seq<char>)>)
    requires
        forall|i: int| 0 <= i < ch.len() ==> (#[trigger] ch[i]).1.len() > 0,
        scan_changes(ch).0 <= usize::MAX,
        scan_changes(ch).1 <= usize::MAX,
    ensures
        ({
            let (op, np, ors, nrs) = scan_changes(ch);
            &&& op == side_text(ch, true).len()
            &&& np == side_text(ch, false).len()
            &&& forall|k: int| 0 <= k < ors.len() ==> (#[trigger] ors[k]).0 < ors[k].1 && ors[k].1 <= op
            &&& forall|k: int| 0 <= k < nrs.len() ==> (#[trigger] nrs[k]).0 < nrs[k].1 && nrs[k].1 <= np
        }),
    decreases ch.len(),
{
    if ch.len() > 0 {
        let init = ch.drop_last();
        assert forall|i: int| 0 <= i < init.len() implies (#[trigger] init[i]).1.len() > 0 by {
            assert(init[i] == ch[i]);
        }
        assert(ch.last().1.len() > 0);
        lemma_scan_sides(init);
    }
}

/// Merging keeps ranges non-empty and within `len`.
proof fn lemma_merge_spans(rs: Seq<(usize, usize)>, len: int)
    requires
        spans_in(rs, len),
    ensures
        spans_in(merge_spec(rs), len),
    decreases rs.len(),
{
    lemma_merge_ordered(rs);
    if rs.len() > 0 {
        let p = rs.drop_last();
        assert forall|k: int| 0 <= k < p.len() implies (#[trigger] p[k]).0 < p[k].1 && p[k].1 <= len by {
            assert(p[k] == rs[k]);
        }
        assert(ordered(p));
        lemma_merge_spans(p, len);
        let m = merge_spec(p);
        let r = rs.last();
        assert(r.0 < r.1 && r.1 <= len);
        if m.len() > 0 && r.0 == m.last().1 {
            let n = m.update(m.len() - 1, (m.last().0, r.1));
            assert(m.last().0 < m.last().1);
            assert forall|k: int| 0 <= k < n.len() implies (#[trigger] n[k]).0 < n[k].1 && n[k].1 <= len by {
                if k < n.len() - 1 {
                    assert(n[k] == m[k]);
                }
            }
        } else {
            let n = m.push(r);
            assert forall|k: int| 0 <= k < n.len() implies (#[trigger] n[k]).0 < n[k].1 && n[k].1 <= len by {
                if k < n.len() - 1 {
                    assert(n[k] == m[k]);
                }
            }
        }
    }
}

// ---------------------------------------------------------------------
// Aligned rows
// ---------------------------------------------------------------------

/// Number of indices in `s..e` (zero when reversed).
pub open spec fn span(s: usize, e: usize) -> int {
    if s <= e {
        e - s
    } else {
        0
    }
}

/// The cell of line `idx` (0-based) of a text split into lines.
pub open spec fn line_cell(lines: Seq<Seq<char>>, idx: int) -> CellSpec {
    CellSpec { line_no: (idx + 1) as usize, content: strip_eol(lines[idx]), changed: Seq::empty() }
}

/// A row of an unchanged line present on both sides.
pub open spec fn context_row(ol: Seq<Seq<char>>, nl: Seq<Seq<char>>, oi: int, ni: int) -> RowSpec {
    RowSpec { left: Some(line_cell(ol, oi)), right: Some(line_cell(nl, ni)), kind: RowKind::Context }
}

/// A row of a line only in the old text.
pub open spec fn removed_row(ol: Seq<Seq<char>>, oi: int) -> RowSpec {
    RowSpec { left: Some(line_cell(ol, oi)), right: None, kind: RowKind::Removed }
}

/// A row of a line only in the new text.
pub open spec fn added_row(nl: Seq<Seq<char>>, ni: int) -> RowSpec {
    RowSpec { left: None, right: Some(line_cell(nl, ni)), kind: RowKind::Added }
}

/// A removed line paired with an added line, each with its changed spans.
pub open spec fn modified_row(ol: Seq<Seq<char>>, nl: Seq<Seq<char>>, oi: int, ni: int) -> RowSpec {
    let l = line_cell(ol, oi);
    let r = line_cell(nl, ni);
    let (lc, rc) = inline_spec(l.content, r.content);
    RowSpec {
        left: Some(CellSpec { changed: lc, ..l }),
        right: Some(CellSpec { changed: rc, ..r }),
        kind: RowKind::Modified,
    }
}

pub open spec fn min(a: int, b: int) -> int {
    if a <= b {
        a
    } else {
        b
    }
}

/// The rows of one operation: equal lines pair up as context; a
/// replacement pairs its first lines as modified rows and shows the rest
/// as removed, then added, rows.
pub open spec fn op_rows(ol: Seq<Seq<char>>, nl: Seq<Seq<char>>, op: LineOp) -> Seq<RowSpec> {
    let os = op.old_start as int;
    let ns = op.new_start as int;
    let lo = span(op.old_start, op.old_end);
    let ln = span(op.new_start, op.new_end);
    let c = min(lo, ln);
    match op.tag {
        OpTag::Equal => Seq::new(c as nat, |j: int| context_row(ol, nl, os + j, ns + j)),
        OpTag::Delete => Seq::new(lo as nat, |j: int| removed_row(ol, os + j)),
        OpTag::Insert => Seq::new(ln as nat, |j: int| added_row(nl, ns + j)),
        OpTag::Replace => Seq::new(c as nat, |j: int| modified_row(ol, nl, os + j, ns + j))
            + Seq::new((lo - c) as nat, |j: int| removed_row(ol, os + c + j))
            + Seq::new((ln - c) as nat, |j: int| added_row(nl, ns + c + j)),
    }
}

/// The lines an operation reads lie within the two texts.
pub open spec fn op_fits(op: LineOp, no: int, nn: int) -> bool {
    let lo = span(op.old_start, op.old_end);
    let ln = span(op.new_start, op.new_end);
    match op.tag {
        OpTag::Equal => op.old_start + min(lo, ln) <= no && op.new_start + min(lo, ln) <= nn,
        OpTag::Delete => op.old_start + lo <= no,
        OpTag::Insert => op.new_start + ln <= nn,
        OpTag::Replace => op.old_start + lo <= no && op.new_start + ln <= nn,
    }
}

/// Every operation reads only lines within the two texts.
pub open spec fn ops_fit(ops: Seq<LineOp>, no: int, nn: int) -> bool {
    forall|i: int| 0 <= i < ops.len() ==> op_fits(#[trigger] ops[i], no, nn)
}

/// The rows of a list of operations, in order.
pub open spec fn rows_of_ops(ol: Seq<Seq<char>>, nl: Seq<Seq<char>>, ops: Seq<LineOp>) -> Seq<RowSpec>
    decreases ops.len(),
{
    if ops.len() == 0 {
        Seq::empty()
    } else {
        rows_of_ops(ol, nl, ops.drop_last()) + op_rows(ol, nl, ops.last())
    }
}

/// The aligned side-by-side diff of two texts: the rows of `similar`'s
/// line operations over the texts split after each '\n'; no rows when an
/// operation would read past the end of either text.
pub open spec fn side_by_side_spec(old: Seq<char>, new: Seq<char>) -> Seq<RowSpec> {
    let ol = split_incl(old);
    let nl = split_incl(new);
    let ops = similar_line_ops(old, new);
    if ops_fit(ops, ol.len() as int, nl.len() as int) {
        rows_of_ops(ol, nl, ops)
    } else {
        Seq::empty()
    }
}

/// The view of a list of rows.
pub open spec fn rows_view(rows: Seq<DiffRow>) -> Seq<RowSpec> {
    rows.map_values(|r: DiffRow| r@)
}

/// A cell with no changed spans (or no cell).
pub open spec fn cell_plain(c: Option<CellSpec>) -> bool {
    match c {
        Some(x) => x.changed.len() == 0,
        None => true,
    }
}

/// A cell whose changed spans are ordered, non-empty and inside its text,
/// on a line of at most 2000 characters when there are any.
pub open spec fn cell_spans_ok(c: Option<CellSpec>) -> bool {
    match c {
        Some(x) => spans_in(x.changed, x.content.len() as int) && (x.changed.len() > 0 ==> x.content.len() <= 2000),
        None => false,
    }
}

/// The shape of a row of its kind: a context row has both cells, a
/// removed row only the old one, an added row only the new one, none of
/// them with changed spans; a modified row has both cells, with their
/// changed spans inside their texts.
pub open spec fn row_ok(r: RowSpec) -> bool {
    match r.kind {
        RowKind::Context => r.left is Some && r.right is Some && cell_plain(r.left) && cell_plain(r.right),
        RowKind::Removed => r.left is Some && r.right is None && cell_plain(r.left),
        RowKind::Added => r.left is None && r.right is Some && cell_plain(r.right),
        RowKind::Modified => cell_spans_ok(r.left) && cell_spans_ok(r.right),
    }
}

/// Every row has the shape of its kind.
pub open spec fn rows_ok(rows: Seq<RowSpec>) -> bool {
    forall|k: int| 0 <= k < rows.len() ==> row_ok(#[trigger] rows[k])
}

/// Every context row shows the same text on both sides.
pub open spec fn context_equal(rows: Seq<RowSpec>) -> bool {
    forall|k: int|
        0 <= k < rows.len() && (#[trigger] rows[k]).kind == RowKind::Context ==> rows[k].left->0.content
            == rows[k].right->0.content
}

proof fn lemma_rows_ok_append(a: Seq<RowSpec>, b: Seq<RowSpec>)
    requires
        rows_ok(a),
        rows_ok(b),
    ensures
        rows_ok(a + b),
{
    assert forall|k: int| 0 <= k < (a + b).len() implies row_ok(#[trigger] (a + b)[k]) by {
        if k < a.len() {
            assert((a + b)[k] == a[k]);
        } else {
            assert((a + b)[k] == b[k - a.len()]);
        }
    }
}

/// The rows of an operation have the shape of their kinds, given that its
/// modified rows do.
proof fn lemma_op_rows_ok(ol: Seq<Seq<char>>, nl: Seq<Seq<char>>, op: LineOp)
    requires
        op.tag == OpTag::Replace ==> forall|j: int|
            0 <= j < min(span(op.old_start, op.old_end), span(op.new_start, op.new_end)) ==> row_ok(
                #[trigger] modified_row(ol, nl, op.old_start + j, op.new_start + j),
            ),
    ensures
        rows_ok(op_rows(ol, nl, op)),
{
    let os = op.old_start as int;
    let ns = op.new_start as int;
    let lo = span(op.old_start, op.old_end);
    let ln = span(op.new_start, op.new_end);
    let c = min(lo, ln);
    if op.tag == OpTag::Replace {
        let s1 = Seq::new(c as nat, |j: int| modified_row(ol, nl, os + j, ns + j));
        let s2 = Seq::new((lo - c) as nat, |j: int| removed_row(ol, os + c + j));
        let s3 = Seq::new((ln - c) as nat, |j: int| added_row(nl, ns + c + j));
        assert(rows_ok(s1)) by {
            assert forall|k: int| 0 <= k < s1.len() implies row_ok(#[trigger] s1[k]) by {
                assert(s1[k] == modified_row(ol, nl, op.old_start + k, op.new_start + k));
            }
        }
        lemma_rows_ok_append(s1, s2);
        lemma_rows_ok_append(s1 + s2, s3);
    }
}

/// The context rows of operations whose equal runs pair equal lines show
/// the same text on both sides.
proof fn lemma_context_equal(ol: Seq<Seq<char>>, nl: Seq<Seq<char>>, ops: Seq<LineOp>)
    requires
        pairs_equal(ops, ol, nl),
    ensures
        context_equal(rows_of_ops(ol, nl, ops)),
    decreases ops.len(),
{
    if ops.len() > 0 {
        let init = ops.drop_last();
        let op = ops.last();
        assert(pairs_equal(init, ol, nl)) by {
            assert forall|i: int, j: int|
                0 <= i < init.len() && (#[trigger] init[i]).tag == OpTag::Equal && 0 <= j < init[i].old_end
                    - init[i].old_start implies #[trigger] ol[init[i].old_start + j] == nl[init[i].new_start + j] by {
                assert(init[i] == ops[i]);
            }
        }
        lemma_context_equal(ol, nl, init);
        let a = rows_of_ops(ol, nl, init);
        let b = op_rows(ol, nl, op);
        assert(context_equal(b)) by {
            assert forall|k: int| 0 <= k < b.len() && (#[trigger] b[k]).kind == RowKind::Context implies b[k].left->0.content
                == b[k].right->0.content by {
                if op.tag == OpTag::Replace {
                    let os = op.old_start as int;
                    let ns = op.new_start as int;
                    let lo = span(op.old_start, op.old_end);
                    let ln = span(op.new_start, op.new_end);
                    let c = min(lo, ln);
                    let s1 = Seq::new(c as nat, |j: int| modified_row(ol, nl, os + j, ns + j));
                    let s2 = Seq::new((lo - c) as nat, |j: int| removed_row(ol, os + c + j));
                    let s3 = Seq::new((ln - c) as nat, |j: int| added_row(nl, ns + c + j));
                    assert(b == s1 + s2 + s3);
                    if k < s1.len() {
                        assert(b[k] == s1[k]);
                    } else if k < s1.len() + s2.len() {
                        assert(b[k] == s2[k - s1.len()]);
                    } else {
                        assert(b[k] == s3[k - s1.len() - s2.len()]);
                    }
                } else if op.tag == OpTag::Equal {
                    assert(ops[ops.len() - 1] == op);
                    assert(ol[op.old_start + k] == nl[op.new_start + k]);
                }
            }
        }
        assert(rows_of_ops(ol, nl, ops) == a + b);
        assert forall|k: int|
            0 <= k < (a + b).len() && (#[trigger] (a + b)[k]).kind == RowKind::Context implies (a + b)[k].left->0.content
                == (a + b)[k].right->0.content by {
            if k < a.len() {
                assert((a + b)[k] == a[k]);
            } else {
                assert((a + b)[k] == b[k - a.len()]);
            }
        }
    }
}

/// The cell of line `idx` of `lines`, with no changed spans.
fn cell(lines: &Vec<String>, idx: usize) -> (r: LineCell)
    requires
        idx < lines@.len(),
    ensures
        r@ == line_cell(strs_view(lines@), idx as int),
{
    let n = lines.len();
    LineCell { line_no: idx + 1, content: strip_line_end(lines[idx].as_str()), changed: Vec::new() }
}

/// Append one row to a list of rows.
fn push_row(rows: &mut Vec<DiffRow>, row: DiffRow)
    ensures
        rows_view(final(rows)@) == rows_view(old(rows)@).push(row@),
{
    rows.push(row);
    assert(rows_view(rows@) =~= rows_view(old(rows)@).push(row@));
}

/// Append the rows of one operation.
fn push_op_rows(rows: &mut Vec<DiffRow>, old_lines: &Vec<String>, new_lines: &Vec<String>, op: LineOp)
    requires
        op_fits(op, old_lines@.len() as int, new_lines@.len() as int),
    ensures
        rows_view(final(rows)@) == rows_view(old(rows)@) + op_rows(strs_view(old_lines@), strs_view(new_lines@), op),
        rows_ok(op_rows(strs_view(old_lines@), strs_view(new_lines@), op)),
{
    let ghost ol = strs_view(old_lines@);
    let ghost nl = strs_view(new_lines@);
    let ghost base = rows_view(rows@);
    let _old_count = old_lines.len();
    let _new_count = new_lines.len();
    let old_len: usize = if op.old_start <= op.old_end { op.old_end - op.old_start } else { 0 };
    let new_len: usize = if op.new_start <= op.new_end { op.new_end - op.new_start } else { 0 };
    let common: usize = if old_len <= new_len { old_len } else { new_len };
    let os = op.old_start;
    let ns = op.new_start;
    match op.tag {
        OpTag::Equal => {
            let mut j: usize = 0;
            while j < common
                invariant
                    old_lines@.len() <= usize::MAX,
                    new_lines@.len() <= usize::MAX,
                    j <= common,
                    common == min(span(op.old_start, op.old_end), span(op.new_start, op.new_end)),
                    os + common <= old_lines@.len(),
                    ns + common <= new_lines@.len(),
                    ol == strs_view(old_lines@),
                    nl == strs_view(new_lines@),
                    rows_view(rows@) == base + Seq::new(j as nat, |k: int| context_row(ol, nl, os + k, ns + k)),
                decreases common - j,
            {
                let left = cell(old_lines, os + j);
                let right = cell(new_lines, ns + j);
                push_row(rows, DiffRow { left: Some(left), right: Some(right), kind: RowKind::Context });
                assert(rows_view(rows@) =~= base + Seq::new((j + 1) as nat, |k: int| context_row(ol, nl, os + k, ns + k)));
                j = j + 1;
            }
        },
        OpTag::Delete => {
            let mut j: usize = 0;
            while j < old_len
                invariant
                    old_lines@.len() <= usize::MAX,
                    new_lines@.len() <= usize::MAX,
                    j <= old_len,
                    old_len == span(op.old_start, op.old_end),
                    os + old_len <= old_lines@.len(),
                    ol == strs_view(old_lines@),
                    rows_view(rows@) == base + Seq::new(j as nat, |k: int| removed_row(ol, os + k)),
                decreases old_len - j,
            {
                let left = cell(old_lines, os + j);
                push_row(rows, DiffRow { left: Some(left), right: None, kind: RowKind::Removed });
                assert(rows_view(rows@) =~= base + Seq::new((j + 1) as nat, |k: int| removed_row(ol, os + k)));
                j = j + 1;
            }
        },
        OpTag::Insert => {
            let mut j: usize = 0;
            while j < new_len
                invariant
                    old_lines@.len() <= usize::MAX,
                    new_lines@.len() <= usize::MAX,
                    j <= new_len,
                    new_len == span(op.new_start, op.new_end),
                    ns + new_len <= new_lines@.len(),
                    nl == strs_view(new_lines@),
                    rows_view(rows@) == base + Seq::new(j as nat, |k: int| added_row(nl, ns + k)),
                decreases new_len - j,
            {
                let right = cell(new_lines, ns + j);
                push_row(rows, DiffRow { left: None, right: Some(right), kind: RowKind::Added });
                assert(rows_view(rows@) =~= base + Seq::new((j + 1) as nat, |k: int| added_row(nl, ns + k)));
                j = j + 1;
            }
        },
        OpTag::Replace => {
            let ghost s1 = Seq::new(common as nat, |k: int| modified_row(ol, nl, os + k, ns + k));
            let ghost s2 = Seq::new((old_len - common) as nat, |k: int| removed_row(ol, os + common + k));
            let ghost s3 = Seq::new((new_len - common) as nat, |k: int| added_row(nl, ns + common + k));
            let mut j: usize = 0;
            while j < common
                invariant
                    old_lines@.len() <= usize::MAX,
                    new_lines@.len() <= usize::MAX,
                    j <= common <= old_len,
                    common <= new_len,
                    os + old_len <= old_lines@.len(),
                    ns + new_len <= new_lines@.len(),
                    ol == strs_view(old_lines@),
                    nl == strs_view(new_lines@),
                    rows_view(rows@) == base + Seq::new(j as nat, |k: int| modified_row(ol, nl, os + k, ns + k)),
                    os == op.old_start,
                    ns == op.new_start,
                    forall|k: int| 0 <= k < j ==> row_ok(#[trigger] modified_row(ol, nl, os + k, ns + k)),
                decreases common - j,
            {
                let mut left = cell(old_lines, os + j);
                let mut right = cell(new_lines, ns + j);
                let (old_changed, new_changed) = inline_ranges(left.content.as_str(), right.content.as_str());
                left.changed = old_changed;
                right.changed = new_changed;
                assert(row_ok(modified_row(ol, nl, os + j, ns + j)));
                push_row(rows, DiffRow { left: Some(left), right: Some(right), kind: RowKind::Modified });
                assert(rows_view(rows@) =~= base + Seq::new((j + 1) as nat, |k: int| modified_row(ol, nl, os + k, ns + k)));
                j = j + 1;
            }
            assert(rows_view(rows@) =~= base + s1);
            let mut oi: usize = os + common;
            while oi < os + old_len
                invariant
                    old_lines@.len() <= usize::MAX,
                    new_lines@.len() <= usize::MAX,
                    os + common <= oi <= os + old_len,
                    os + old_len <= old_lines@.len(),
                    ol == strs_view(old_lines@),
                    rows_view(rows@) == base + s1 + Seq::new((oi - os - common) as nat, |k: int| removed_row(ol, os + common + k)),
                decreases os + old_len - oi,
            {
                let left = cell(old_lines, oi);
                push_row(rows, DiffRow { left: Some(left), right: None, kind: RowKind::Removed });
                assert(rows_view(rows@) =~= base + s1 + Seq::new((oi + 1 - os - common) as nat, |k: int| removed_row(ol, os + common + k)));
                oi = oi + 1;
            }
            assert(rows_view(rows@) =~= base + s1 + s2);
            let mut ni: usize = ns + common;
            while ni < ns + new_len
                invariant
                    old_lines@.len() <= usize::MAX,
                    new_lines@.len() <= usize::MAX,
                    ns + common <= ni <= ns + new_len,
                    ns + new_len <= new_lines@.len(),
                    nl == strs_view(new_lines@),
                    rows_view(rows@) == base + s1 + s2 + Seq::new((ni - ns - common) as nat, |k: int| added_row(nl, ns + common + k)),
                decreases ns + new_len - ni,
            {
                let right = cell(new_lines, ni);
                push_row(rows, DiffRow { left: None, right: Some(right), kind: RowKind::Added });
                assert(rows_view(rows@) =~= base + s1 + s2 + Seq::new((ni + 1 - ns - common) as nat, |k: int| added_row(nl, ns + common + k)));
                ni = ni + 1;
            }
            assert(rows_view(rows@) =~= base + s1 + s2 + s3);
            assert(op_rows(ol, nl, op) == s1 + s2 + s3);
            assert(rows_view(rows@) =~= base + op_rows(ol, nl, op));
            assert(common == min(span(op.old_start, op.old_end), span(op.new_start, op.new_end)));
            proof {
                lemma_op_rows_ok(ol, nl, op);
            }
        },
    }
    proof {
        if op.tag != OpTag::Replace {
            lemma_op_rows_ok(ol, nl, op);
        }
    }
}

/// Whether every operation reads only lines within the two texts.
pub fn ops_in_bounds(ops: &Vec<LineOp>, old_count: usize, new_count: usize) -> (r: bool)
    ensures
        r == ops_fit(ops@, old_count as int, new_count as int),
{
    let mut i: usize = 0;
    while i < ops.len()
        invariant
            i <= ops@.len(),
            forall|k: int| 0 <= k < i ==> op_fits(#[trigger] ops@[k], old_count as int, new_count as int),
        decreases ops@.len() - i,
    {
        let op = ops[i];
        let lo: usize = if op.old_start <= op.old_end { op.old_end - op.old_start } else { 0 };
        let ln: usize = if op.new_start <= op.new_end { op.new_end - op.new_start } else { 0 };
        let c: usize = if lo <= ln { lo } else { ln };
        let ok = match op.tag {
            OpTag::Equal => op.old_start as u128 + c as u128 <= old_count as u128
                && op.new_start as u128 + c as u128 <= new_count as u128,
            OpTag::Delete => op.old_start as u128 + lo as u128 <= old_count as u128,
            OpTag::Insert => op.new_start as u128 + ln as u128 <= new_count as u128,
            OpTag::Replace => op.old_start as u128 + lo as u128 <= old_count as u128
                && op.new_start as u128 + ln as u128 <= new_count as u128,
        };
        if !ok {
            return false;
        }
        i = i + 1;
    }
    true
}

/// The aligned rows of `ops` over two texts already split into lines
/// (each line keeping its '\n').
pub fn rows_from_ops(old_lines: &Vec<String>, new_lines: &Vec<String>, ops: &Vec<LineOp>) -> (r: SideBySideDiff)
    requires
        ops_fit(ops@, old_lines@.len() as int, new_lines@.len() as int),
    ensures
        r@ == rows_of_ops(strs_view(old_lines@), strs_view(new_lines@), ops@),
        rows_ok(r@),
{
    let mut rows: Vec<DiffRow> = Vec::new();
    let ghost ol = strs_view(old_lines@);
    let ghost nl = strs_view(new_lines@);
    let mut i: usize = 0;
    while i < ops.len()
        invariant
            i <= ops@.len(),
            ops_fit(ops@, old_lines@.len() as int, new_lines@.len() as int),
            ol == strs_view(old_lines@),
            nl == strs_view(new_lines@),
            rows_view(rows@) == rows_of_ops(ol, nl, ops@.take(i as int)),
            rows_ok(rows_view(rows@)),
        decreases ops@.len() - i,
    {
        proof {
            assert(ops@.take(i + 1).drop_last() =~= ops@.take(i as int));
            assert(ops@.take(i + 1).last() == ops@[i as int]);
        }
        let ghost before = rows_view(rows@);
        push_op_rows(&mut rows, old_lines, new_lines, ops[i]);
        proof {
            lemma_rows_ok_append(before, op_rows(ol, nl, ops@[i as int]));
        }
        i = i + 1;
    }
    assert(ops@.take(i as int) =~= ops@);
    SideBySideDiff { rows }
}

/// Build an aligned side-by-side diff of two file contents. When an
/// operation of the line diff would read past the end of either text (the
/// line diff splits at a lone '\r' too, this module only after '\n'), no
/// rows are produced.
pub fn side_by_side(old: &str, new: &str) -> (r: SideBySideDiff)
    ensures
        r@ == side_by_side_spec(old@, new@),
        rows_ok(r@),
        no_lone_cr(old@) && no_lone_cr(new@) ==> {
            &&& column(r@, true) == numbered(split_incl(old@), split_incl(old@).len() as int)
            &&& column(r@, false) == numbered(split_incl(new@), split_incl(new@).len() as int)
            &&& context_equal(r@)
        },
{
    let old_lines = split_inclusive_newline(old);
    let new_lines = split_inclusive_newline(new);
    let ops = line_diff_ops(old, new);
    proof {
        if no_lone_cr(old@) && no_lone_cr(new@) {
            let ol = split_incl(old@);
            let nl = split_incl(new@);
            lemma_script_fits(ops@, ol.len() as int, nl.len() as int, ol.len() as int, nl.len() as int);
            lemma_side_by_side_shows_both_texts(old@, new@);
            lemma_context_equal(ol, nl, ops@);
        }
    }
    if !ops_in_bounds(&ops, old_lines.len(), new_lines.len()) {
        let r = SideBySideDiff { rows: Vec::new() };
        assert(r@ =~= Seq::empty());
        return r;
    }
    rows_from_ops(&old_lines, &new_lines, &ops)
}

// ---------------------------------------------------------------------
// Laws: each side shows its whole text
// ---------------------------------------------------------------------

/// The cell on one side of a row.
pub open spec fn side_cell(row: RowSpec, left: bool) -> Option<CellSpec> {
    if left {
        row.left
    } else {
        row.right
    }
}

/// The line numbers and texts of the cells on one side, top to bottom.
pub open spec fn column(rows: Seq<RowSpec>, left: bool) -> Seq<(usize, Seq<char>)>
    decreases rows.len(),
{
    if rows.len() == 0 {
        Seq::empty()
    } else {
        let p = column(rows.drop_last(), left);
        match side_cell(rows.last(), left) {
            Some(c) => p.push((c.line_no, c.content)),
            None => p,
        }
    }
}

/// The first `n` lines of a text, numbered from 1, without terminators.
pub open spec fn numbered(lines: Seq<Seq<char>>, n: int) -> Seq<(usize, Seq<char>)> {
    Seq::new(n as nat, |i: int| ((i + 1) as usize, strip_eol(lines[i])))
}

/// Operations that walk the first `no` old and `nn` new lines from the
/// start, each beginning where the previous one ended: equal runs as long
/// on both sides, deletions reading no new line, insertions no old line.
pub open spec fn is_script(ops: Seq<LineOp>, no: int, nn: int) -> bool
    decreases ops.len(),
{
    if ops.len() == 0 {
        no == 0 && nn == 0
    } else {
        let op = ops.last();
        &&& op.old_start <= op.old_end
        &&& op.new_start <= op.new_end
        &&& op.old_end == no
        &&& op.new_end == nn
        &&& match op.tag {
            OpTag::Equal => op.old_end - op.old_start == op.new_end - op.new_start,
            OpTag::Delete => op.new_start == op.new_end,
            OpTag::Insert => op.old_start == op.old_end,
            OpTag::Replace => true,
        }
        &&& is_script(ops.drop_last(), op.old_start as int, op.new_start as int)
    }
}

proof fn lemma_column_append(a: Seq<RowSpec>, b: Seq<RowSpec>, left: bool)
    ensures
        column(a + b, left) == column(a, left) + column(b, left),
    decreases b.len(),
{
    if b.len() == 0 {
        assert(a + b =~= a);
        assert(column(b, left) =~= Seq::<(usize, Seq<char>)>::empty());
        assert(column(a, left) + column(b, left) =~= column(a, left));
    } else {
        lemma_column_append(a, b.drop_last(), left);
        assert((a + b).drop_last() =~= a + b.drop_last());
        assert((a + b).last() == b.last());
        match side_cell(b.last(), left) {
            Some(c) => {
                assert(column(a, left) + column(b, left) =~= (column(a, left) + column(b.drop_last(), left)).push(
                    (c.line_no, c.content),
                ));
            },
            None => {},
        }
    }
}

/// Whether a row's cell on one side is line `i` (0-based) of `lines`.
pub open spec fn shows_line(row: RowSpec, left: bool, lines: Seq<Seq<char>>, i: int) -> bool {
    match side_cell(row, left) {
        Some(c) => c.line_no == (i + 1) as usize && c.content == strip_eol(lines[i]),
        None => false,
    }
}

/// A run of rows whose cells on one side are the given numbered lines.
proof fn lemma_column_run(rs: Seq<RowSpec>, left: bool, lines: Seq<Seq<char>>, start: int)
    requires
        forall|j: int| 0 <= j < rs.len() ==> shows_line(#[trigger] rs[j], left, lines, start + j),
    ensures
        column(rs, left) == Seq::new(rs.len(), |j: int| ((start + j + 1) as usize, strip_eol(lines[start + j]))),
    decreases rs.len(),
{
    if rs.len() > 0 {
        let init = rs.drop_last();
        assert forall|j: int| 0 <= j < init.len() implies shows_line(#[trigger] init[j], left, lines, start + j) by {
            assert(init[j] == rs[j]);
        }
        lemma_column_run(init, left, lines, start);
        assert(side_cell(rs[rs.len() - 1], left) is Some);
        assert(column(rs, left) =~= Seq::new(rs.len(), |j: int| ((start + j + 1) as usize, strip_eol(lines[start + j]))));
    }
}

/// A run of rows with no cell on one side.
proof fn lemma_column_gap(rs: Seq<RowSpec>, left: bool)
    requires
        forall|j: int| 0 <= j < rs.len() ==> side_cell(#[trigger] rs[j], left) is None,
    ensures
        column(rs, left) == Seq::<(usize, Seq<char>)>::empty(),
    decreases rs.len(),
{
    if rs.len() > 0 {
        let init = rs.drop_last();
        assert forall|j: int| 0 <= j < init.len() implies side_cell(#[trigger] init[j], left) is None by {
            assert(init[j] == rs[j]);
        }
        lemma_column_gap(init, left);
        assert(side_cell(rs[rs.len() - 1], left) is None);
    }
}

/// One operation of a script shows, on each side, the lines it reads.
proof fn lemma_op_column(ol: Seq<Seq<char>>, nl: Seq<Seq<char>>, op: LineOp)
    requires
        op.old_start <= op.old_end,
        op.new_start <= op.new_end,
        op.tag == OpTag::Equal ==> op.old_end - op.old_start == op.new_end - op.new_start,
        op.tag == OpTag::Delete ==> op.new_start == op.new_end,
        op.tag == OpTag::Insert ==> op.old_start == op.old_end,
    ensures
        column(op_rows(ol, nl, op), true) == Seq::new(
            (op.old_end - op.old_start) as nat,
            |j: int| ((op.old_start + j + 1) as usize, strip_eol(ol[op.old_start + j])),
        ),
        column(op_rows(ol, nl, op), false) == Seq::new(
            (op.new_end - op.new_start) as nat,
            |j: int| ((op.new_start + j + 1) as usize, strip_eol(nl[op.new_start + j])),
        ),
{
    let os = op.old_start as int;
    let ns = op.new_start as int;
    let lo = span(op.old_start, op.old_end);
    let ln = span(op.new_start, op.new_end);
    let c = min(lo, ln);
    let rows = op_rows(ol, nl, op);
    let want_l = Seq::new(lo as nat, |j: int| ((os + j + 1) as usize, strip_eol(ol[os + j])));
    let want_r = Seq::new(ln as nat, |j: int| ((ns + j + 1) as usize, strip_eol(nl[ns + j])));
    match op.tag {
        OpTag::Equal => {
            lemma_column_run(rows, true, ol, os);
            lemma_column_run(rows, false, nl, ns);
        },
        OpTag::Delete => {
            lemma_column_run(rows, true, ol, os);
            lemma_column_gap(rows, false);
            assert(want_r =~= Seq::<(usize, Seq<char>)>::empty());
        },
        OpTag::Insert => {
            lemma_column_gap(rows, true);
            lemma_column_run(rows, false, nl, ns);
            assert(want_l =~= Seq::<(usize, Seq<char>)>::empty());
        },
        OpTag::Replace => {
            let s1 = Seq::new(c as nat, |j: int| modified_row(ol, nl, os + j, ns + j));
            let s2 = Seq::new((lo - c) as nat, |j: int| removed_row(ol, os + c + j));
            let s3 = Seq::new((ln - c) as nat, |j: int| added_row(nl, ns + c + j));
            assert(rows == s1 + s2 + s3);
            lemma_column_append(s1 + s2, s3, true);
            lemma_column_append(s1, s2, true);
            lemma_column_append(s1 + s2, s3, false);
            lemma_column_append(s1, s2, false);
            lemma_column_run(s1, true, ol, os);
            lemma_column_run(s1, false, nl, ns);
            lemma_column_run(s2, true, ol, os + c);
            lemma_column_gap(s2, false);
            lemma_column_gap(s3, true);
            lemma_column_run(s3, false, nl, ns + c);
            assert(column(rows, true) =~= want_l);
            assert(column(rows, false) =~= want_r);
        },
    }
}

/// The rows of a script show, down each side, the lines it walked.
proof fn lemma_script_columns(ol: Seq<Seq<char>>, nl: Seq<Seq<char>>, ops: Seq<LineOp>, no: int, nn: int)
    requires
        is_script(ops, no, nn),
    ensures
        column(rows_of_ops(ol, nl, ops), true) == numbered(ol, no),
        column(rows_of_ops(ol, nl, ops), false) == numbered(nl, nn),
    decreases ops.len(),
{
    if ops.len() == 0 {
        assert(numbered(ol, no) =~= Seq::<(usize, Seq<char>)>::empty());
        assert(numbered(nl, nn) =~= Seq::<(usize, Seq<char>)>::empty());
    } else {
        let op = ops.last();
        let init = ops.drop_last();
        lemma_script_columns(ol, nl, init, op.old_start as int, op.new_start as int);
        lemma_op_column(ol, nl, op);
        lemma_column_append(rows_of_ops(ol, nl, init), op_rows(ol, nl, op), true);
        lemma_column_append(rows_of_ops(ol, nl, init), op_rows(ol, nl, op), false);
        assert(column(rows_of_ops(ol, nl, ops), true) =~= numbered(ol, no));
        assert(column(rows_of_ops(ol, nl, ops), false) =~= numbered(nl, nn));
    }
}

/// A script over `no` and `nn` lines reads only lines within texts of at
/// least that many lines.
proof fn lemma_script_fits(ops: Seq<LineOp>, no: int, nn: int, total_o: int, total_n: int)
    requires
        is_script(ops, no, nn),
        no <= total_o,
        nn <= total_n,
    ensures
        ops_fit(ops, total_o, total_n),
    decreases ops.len(),
{
    if ops.len() > 0 {
        let op = ops.last();
        let init = ops.drop_last();
        lemma_script_fits(init, op.old_start as int, op.new_start as int, total_o, total_n);
        assert forall|i: int| 0 <= i < ops.len() implies op_fits(#[trigger] ops[i], total_o, total_n) by {
            if i < ops.len() - 1 {
                assert(ops[i] == init[i]);
            }
        }
    }
}

/// Each side of the side-by-side view shows its whole text: the old
/// text's lines, in order and numbered from 1, down the left cells, and
/// the new text's lines down the right cells, whenever the line
/// operations walk both texts line by line (which `line_diff_ops` states
/// of texts where every '\r' stands before a '\n').
pub proof fn lemma_side_by_side_shows_both_texts(old: Seq<char>, new: Seq<char>)
    requires
        walks_lines(similar_line_ops(old, new), split_incl(old), split_incl(new)),
    ensures
        column(side_by_side_spec(old, new), true) == numbered(split_incl(old), split_incl(old).len() as int),
        column(side_by_side_spec(old, new), false) == numbered(split_incl(new), split_incl(new).len() as int),
{
    let ol = split_incl(old);
    let nl = split_incl(new);
    let ops = similar_line_ops(old, new);
    lemma_script_fits(ops, ol.len() as int, nl.len() as int, ol.len() as int, nl.len() as int);
    lemma_script_columns(ol, nl, ops, ol.len() as int, nl.len() as int);
}

} // verus!
