use gispect::diff::{
    inline_ranges, line_diff_ops, merge_adjacent, ops_in_bounds, rows_from_ops, side_by_side,
    word_changes, ChangeKind, LineOp, OpTag,
};
use gispect::types::RowKind;

#[test]
fn pure_insert() {
    let old = "a\nb\n";
    let new = "a\nb\nc\nd\n";
    let diff = side_by_side(old, new);

    assert_eq!(diff.rows.len(), 4);
    assert_eq!(diff.rows[0].kind, RowKind::Context);
    assert_eq!(diff.rows[1].kind, RowKind::Context);
    assert_eq!(diff.rows[2].kind, RowKind::Added);
    assert_eq!(diff.rows[3].kind, RowKind::Added);

    let added: Vec<&str> = diff.rows[2..]
        .iter()
        .map(|r| r.right.as_ref().unwrap().content.as_str())
        .collect();
    assert_eq!(added, vec!["c", "d"]);
    for row in &diff.rows[2..] {
        assert!(row.left.is_none());
    }
}

#[test]
fn pure_delete() {
    let old = "a\nb\nc\n";
    let new = "a\n";
    let diff = side_by_side(old, new);

    assert_eq!(diff.rows.len(), 3);
    assert_eq!(diff.rows[0].kind, RowKind::Context);
    assert_eq!(diff.rows[1].kind, RowKind::Removed);
    assert_eq!(diff.rows[2].kind, RowKind::Removed);

    assert_eq!(diff.rows[1].left.as_ref().unwrap().content, "b");
    assert_eq!(diff.rows[2].left.as_ref().unwrap().content, "c");
    for row in &diff.rows[1..] {
        assert!(row.right.is_none());
    }
}

#[test]
fn replace_block_with_unequal_lengths() {
    let old = "x\none\ntwo\ny\n";
    let new = "x\nONE\nTWO\nTHREE\nFOUR\ny\n";
    let diff = side_by_side(old, new);

    assert_eq!(diff.rows.len(), 6);
    assert_eq!(diff.rows[0].kind, RowKind::Context);

    assert_eq!(diff.rows[1].kind, RowKind::Modified);
    assert_eq!(diff.rows[1].left.as_ref().unwrap().content, "one");
    assert_eq!(diff.rows[1].right.as_ref().unwrap().content, "ONE");

    assert_eq!(diff.rows[2].kind, RowKind::Modified);
    assert_eq!(diff.rows[2].left.as_ref().unwrap().content, "two");
    assert_eq!(diff.rows[2].right.as_ref().unwrap().content, "TWO");

    assert_eq!(diff.rows[3].kind, RowKind::Added);
    assert!(diff.rows[3].left.is_none());
    assert_eq!(diff.rows[3].right.as_ref().unwrap().content, "THREE");

    assert_eq!(diff.rows[4].kind, RowKind::Added);
    assert!(diff.rows[4].left.is_none());
    assert_eq!(diff.rows[4].right.as_ref().unwrap().content, "FOUR");

    assert_eq!(diff.rows[5].kind, RowKind::Context);
}

#[test]
fn context_preserves_line_numbers() {
    let old = "one\ntwo\nthree\n";
    let new = "one\nTWO\nthree\n";
    let diff = side_by_side(old, new);

    assert_eq!(diff.rows.len(), 3);

    let first = &diff.rows[0];
    assert_eq!(first.kind, RowKind::Context);
    assert_eq!(first.left.as_ref().unwrap().line_no, 1);
    assert_eq!(first.right.as_ref().unwrap().line_no, 1);
    assert_eq!(first.left.as_ref().unwrap().content, "one");

    let last = &diff.rows[2];
    assert_eq!(last.kind, RowKind::Context);
    assert_eq!(last.left.as_ref().unwrap().line_no, 3);
    assert_eq!(last.right.as_ref().unwrap().line_no, 3);
    assert_eq!(last.left.as_ref().unwrap().content, "three");
}

#[test]
fn modified_pair_has_intra_line_changes() {
    let old = "let x = foo(1);\n";
    let new = "let x = bar(1);\n";
    let diff = side_by_side(old, new);

    assert_eq!(diff.rows.len(), 1);
    let row = &diff.rows[0];
    assert_eq!(row.kind, RowKind::Modified);

    let left = row.left.as_ref().unwrap();
    let right = row.right.as_ref().unwrap();

    assert!(!left.changed.is_empty());
    assert!(!right.changed.is_empty());

    let right_chars: Vec<char> = right.content.chars().collect();
    let full_len = right_chars.len();
    let mut covered = vec![false; full_len];
    for &(start, end) in &right.changed {
        assert!(end <= full_len);
        for c in covered.iter_mut().take(end).skip(start) {
            *c = true;
        }
    }
    assert!(!covered.iter().all(|&c| c));

    let bar_start = right.content.find("bar").unwrap();
    let bar_range: Vec<usize> = (bar_start..bar_start + 3).collect();
    assert!(bar_range.iter().all(|&i| covered[i]));
}

#[test]
fn completely_rewritten_pair_has_no_intra_line_changes() {
    let old = "aaaa bbbb cccc\n";
    let new = "x y z q r\n";
    let diff = side_by_side(old, new);

    assert_eq!(diff.rows.len(), 1);
    let row = &diff.rows[0];
    assert_eq!(row.kind, RowKind::Modified);

    assert!(row.left.as_ref().unwrap().changed.is_empty());
    assert!(row.right.as_ref().unwrap().changed.is_empty());
}

#[test]
fn unicode_ranges_are_char_indexed_and_safe() {
    let old = "let s = \"héllo wörld\";\n";
    let new = "let s = \"héllo wörms\";\n";
    let diff = side_by_side(old, new);

    assert_eq!(diff.rows.len(), 1);
    let row = &diff.rows[0];
    assert_eq!(row.kind, RowKind::Modified);

    let left = row.left.as_ref().unwrap();
    let right = row.right.as_ref().unwrap();

    let left_len = left.content.chars().count();
    let right_len = right.content.chars().count();

    for &(start, end) in &left.changed {
        assert!(start <= end);
        assert!(left_len >= end);
    }
    for &(start, end) in &right.changed {
        assert!(start <= end);
        assert!(right_len >= end);
    }

    let _: Vec<char> = left
        .content
        .chars()
        .enumerate()
        .filter(|(i, _)| left.changed.iter().any(|&(s, e)| *i >= s && *i < e))
        .map(|(_, c)| c)
        .collect();
    let _: Vec<char> = right
        .content
        .chars()
        .enumerate()
        .filter(|(i, _)| right.changed.iter().any(|&(s, e)| *i >= s && *i < e))
        .map(|(_, c)| c)
        .collect();
}

#[test]
fn non_modified_rows_have_empty_changed() {
    let old = "a\nb\nc\n";
    let new = "a\nX\nc\nd\n";
    let diff = side_by_side(old, new);

    for row in &diff.rows {
        if row.kind != RowKind::Modified {
            if let Some(left) = &row.left {
                assert!(left.changed.is_empty());
            }
            if let Some(right) = &row.right {
                assert!(right.changed.is_empty());
            }
        }
    }
}

#[test]
fn identical_texts_give_context_rows_only() {
    let text = "one\ntwo\r\nthree";
    let diff = side_by_side(text, text);
    assert_eq!(diff.rows.len(), 3);
    for (i, row) in diff.rows.iter().enumerate() {
        assert_eq!(row.kind, RowKind::Context);
        assert_eq!(row.left.as_ref().unwrap().line_no, i + 1);
        assert_eq!(row.right.as_ref().unwrap().line_no, i + 1);
    }
    assert_eq!(diff.rows[1].left.as_ref().unwrap().content, "two");
    assert_eq!(diff.rows[2].right.as_ref().unwrap().content, "three");
}

#[test]
fn empty_texts_give_no_rows() {
    assert!(side_by_side("", "").rows.is_empty());
    let added = side_by_side("", "x\n");
    assert_eq!(added.rows.len(), 1);
    assert_eq!(added.rows[0].kind, RowKind::Added);
    assert_eq!(added.rows[0].right.as_ref().unwrap().line_no, 1);
}

#[test]
fn line_ops_cover_both_texts() {
    let ops = line_diff_ops("a\nb\nc\n", "a\nB\nc\n");
    assert_eq!(
        ops,
        vec![
            LineOp { tag: OpTag::Equal, old_start: 0, old_end: 1, new_start: 0, new_end: 1 },
            LineOp { tag: OpTag::Replace, old_start: 1, old_end: 2, new_start: 1, new_end: 2 },
            LineOp { tag: OpTag::Equal, old_start: 2, old_end: 3, new_start: 2, new_end: 3 },
        ]
    );
    assert!(ops_in_bounds(&ops, 3, 3));
    assert!(!ops_in_bounds(&ops, 2, 3));
}

#[test]
fn rows_follow_the_given_operations() {
    let old = vec!["a\n".to_string(), "b\n".to_string()];
    let new = vec!["b\n".to_string()];
    let ops = vec![
        LineOp { tag: OpTag::Delete, old_start: 0, old_end: 1, new_start: 0, new_end: 0 },
        LineOp { tag: OpTag::Equal, old_start: 1, old_end: 2, new_start: 0, new_end: 1 },
    ];
    let diff = rows_from_ops(&old, &new, &ops);
    assert_eq!(diff.rows.len(), 2);
    assert_eq!(diff.rows[0].kind, RowKind::Removed);
    assert_eq!(diff.rows[0].left.as_ref().unwrap().content, "a");
    assert_eq!(diff.rows[1].kind, RowKind::Context);
    assert_eq!(diff.rows[1].left.as_ref().unwrap().line_no, 2);
    assert_eq!(diff.rows[1].right.as_ref().unwrap().line_no, 1);
}

#[test]
fn word_changes_reproduce_both_lines() {
    let changes = word_changes("let x = foo(1);", "let x = bar(1);");
    let old: String = changes
        .iter()
        .filter(|(k, _)| *k != ChangeKind::Insert)
        .map(|(_, t)| t.as_str())
        .collect();
    let new: String = changes
        .iter()
        .filter(|(k, _)| *k != ChangeKind::Delete)
        .map(|(_, t)| t.as_str())
        .collect();
    assert_eq!(old, "let x = foo(1);");
    assert_eq!(new, "let x = bar(1);");
    assert!(changes.iter().any(|(k, _)| *k == ChangeKind::Delete));
    assert!(changes.iter().any(|(k, _)| *k == ChangeKind::Insert));
}

#[test]
fn inline_ranges_mark_the_changed_word() {
    let (old, new) = inline_ranges("let x = foo(1);", "let x = bar(1);");
    assert!(!old.is_empty());
    assert!(!new.is_empty());
    for (s, e) in old.iter().chain(new.iter()) {
        assert!(s < e);
        assert!(*e <= 15);
    }
    assert!(new.iter().any(|&(s, e)| s <= 8 && 11 <= e));
}

#[test]
fn inline_ranges_give_up_on_empty_or_rewritten_lines() {
    assert_eq!(inline_ranges("", "abc"), (Vec::new(), Vec::new()));
    assert_eq!(inline_ranges("abc", ""), (Vec::new(), Vec::new()));
    assert_eq!(inline_ranges("aaaa bbbb cccc", "x y z q r"), (Vec::new(), Vec::new()));
}

#[test]
fn merge_adjacent_joins_touching_ranges() {
    let mut r = vec![(0, 2), (2, 4), (6, 7), (7, 9), (10, 11)];
    merge_adjacent(&mut r);
    assert_eq!(r, vec![(0, 4), (6, 9), (10, 11)]);
    let mut empty: Vec<(usize, usize)> = Vec::new();
    merge_adjacent(&mut empty);
    assert!(empty.is_empty());
}

fn side_column(old: &str, new: &str, left: bool) -> Vec<(usize, String)> {
    side_by_side(old, new)
        .rows
        .iter()
        .filter_map(|r| if left { r.left.as_ref() } else { r.right.as_ref() })
        .map(|c| (c.line_no, c.content.clone()))
        .collect()
}

#[test]
fn each_side_shows_its_whole_text_in_order() {
    let old = "fn a() {\n    one();\n    two();\n}\nlast\n";
    let new = "fn a() {\n    uno();\n}\nextra\nlast\nmore";
    let expect = |text: &str| -> Vec<(usize, String)> {
        text.lines().enumerate().map(|(i, l)| (i + 1, l.to_string())).collect()
    };
    assert_eq!(side_column(old, new, true), expect(old));
    assert_eq!(side_column(old, new, false), expect(new));
}

#[test]
fn rows_have_the_shape_of_their_kind() {
    let old = "fn main() {\n    let a = 1;\n    let b = 2;\n}\nend\n";
    let new = "fn main() {\n    let a = 10;\n    let c = 3;\n    extra();\n}\n";
    let diff = side_by_side(old, new);
    for row in &diff.rows {
        match row.kind {
            RowKind::Context => {
                let (l, r) = (row.left.as_ref().unwrap(), row.right.as_ref().unwrap());
                assert_eq!(l.content, r.content);
                assert!(l.changed.is_empty() && r.changed.is_empty());
            }
            RowKind::Removed => assert!(row.left.is_some() && row.right.is_none()),
            RowKind::Added => assert!(row.left.is_none() && row.right.is_some()),
            RowKind::Modified => {
                for c in [row.left.as_ref().unwrap(), row.right.as_ref().unwrap()] {
                    let n = c.content.chars().count();
                    for w in c.changed.windows(2) {
                        assert!(w[0].1 <= w[1].0);
                    }
                    for &(s, e) in &c.changed {
                        assert!(s < e && e <= n);
                    }
                }
            }
        }
    }
    assert!(diff.rows.iter().any(|r| r.kind == RowKind::Modified && !r.left.as_ref().unwrap().changed.is_empty()));
}
