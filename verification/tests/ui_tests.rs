use gispect::layout::{
    center_vertically, expand_tab_range, file_panel_width, overlay_ranges, popup,
    slice_segments, window_offset, Area,
};
use gispect::pane::{expand_tabs, line_label, pane_line, pane_title, visible_rows, Palette};
use gispect::search::{FileSearch, RowMatch};
use gispect::segments::{cut_segments, patch_style, segments_text};
use gispect::types::{DiffRow, LineCell, RowKind, SideBySideDiff};
use ratatui::style::{Color, Modifier, Style};

fn plain(text: &str) -> Vec<(Style, String)> {
    vec![(Style::default(), text.to_string())]
}

fn text_of(segments: &[(Style, String)]) -> String {
    segments.iter().map(|(_, t)| t.as_str()).collect()
}

#[test]
fn overlay_range_inside_one_segment_splits_into_three() {
    let segments = plain("hello");
    let patch = Style::default().bg(Color::Red);
    let out = overlay_ranges(&segments, &[(1, 3)], patch);

    assert_eq!(out.len(), 3);
    assert_eq!(out[0], (Style::default(), "h".to_string()));
    assert_eq!(out[1], (Style::default().patch(patch), "el".to_string()));
    assert_eq!(out[2], (Style::default(), "lo".to_string()));
    assert_eq!(text_of(&out), "hello");
}

#[test]
fn overlay_range_spans_two_segments() {
    let s1 = Style::default().fg(Color::Blue);
    let s2 = Style::default().fg(Color::Green);
    let segments = vec![(s1, "foo".to_string()), (s2, "bar".to_string())];
    let patch = Style::default().bg(Color::Red);
    let out = overlay_ranges(&segments, &[(2, 5)], patch);

    assert_eq!(text_of(&out), "foobar");
    assert_eq!(out[0], (s1, "fo".to_string()));
    assert_eq!(out[1], (s1.patch(patch), "o".to_string()));
    assert_eq!(out[2], (s2.patch(patch), "ba".to_string()));
    assert_eq!(out[3], (s2, "r".to_string()));
}

#[test]
fn overlay_multiple_ranges() {
    let segments = plain("abcdefgh");
    let patch = Style::default().bg(Color::Red);
    let out = overlay_ranges(&segments, &[(1, 2), (4, 6)], patch);

    assert_eq!(text_of(&out), "abcdefgh");
    let patched: String = out
        .iter()
        .filter(|(s, _)| *s == Style::default().patch(patch))
        .map(|(_, t)| t.as_str())
        .collect();
    assert_eq!(patched, "bef");
}

#[test]
fn overlay_multi_byte_chars_split_at_char_positions_without_panicking() {
    let segments = plain("héllo");
    let patch = Style::default().bg(Color::Red);
    let out = overlay_ranges(&segments, &[(1, 3)], patch);

    assert_eq!(text_of(&out), "héllo");
    assert_eq!(out[0].1, "h");
    assert_eq!(out[1].1, "él");
    assert_eq!(out[2].1, "lo");
}

#[test]
fn overlay_empty_ranges_returns_input_unchanged() {
    let segments = vec![
        (Style::default().fg(Color::Blue), "foo".to_string()),
        (Style::default().fg(Color::Green), "bar".to_string()),
    ];
    let out = overlay_ranges(&segments, &[], Style::default().bg(Color::Red));
    assert_eq!(out, segments);
}

#[test]
fn expand_tab_range_shifts_by_tabs_before_position() {
    assert_eq!(expand_tab_range("a\tb\tc", (2, 3)), (5, 6));
}

#[test]
fn expand_tab_range_no_tabs_is_identity() {
    assert_eq!(expand_tab_range("hello", (1, 3)), (1, 3));
}

#[test]
fn expand_tab_range_multiple_tabs_before_start() {
    assert_eq!(expand_tab_range("\t\tx", (2, 3)), (8, 9));
}

#[test]
fn window_offset_keeps_the_selection_visible() {
    assert_eq!(window_offset(3, 5, 10), 0);
    assert_eq!(window_offset(3, 20, 0), 0);
    assert_eq!(window_offset(4, 20, 5), 0);
    assert_eq!(window_offset(19, 20, 5), 15);
    assert_eq!(window_offset(10, 20, 5), 8);
    assert_eq!(window_offset(17, 20, 5), 15);
    for sel in 0..20 {
        let off = window_offset(sel, 20, 6);
        assert!(off <= sel && sel < off + 6);
        assert!(off + 6 <= 20);
    }
}

#[test]
fn center_and_popup_geometry() {
    let area = Area { x: 2, y: 4, width: 40, height: 10 };
    assert_eq!(center_vertically(area, 1), Area { x: 2, y: 8, width: 40, height: 1 });
    assert_eq!(center_vertically(area, 12), area);
    assert_eq!(popup(area, 20, 4), Area { x: 12, y: 7, width: 20, height: 4 });
    assert_eq!(popup(area, 100, 100), area);
}

#[test]
fn file_panel_width_fixed_or_fitted() {
    assert_eq!(file_panel_width(&[10, 80], false, 100), 34);
    assert_eq!(file_panel_width(&[10, 80], false, 20), 20);
    assert_eq!(file_panel_width(&[10, 20], true, 100), 34);
    assert_eq!(file_panel_width(&[10, 50], true, 100), 52);
    assert_eq!(file_panel_width(&[10, 90], true, 90), 60);
    assert_eq!(file_panel_width(&[], true, 30), 34);
}

#[test]
fn slice_segments_skips_and_takes_characters() {
    let s1 = Style::default().fg(Color::Blue);
    let segments = vec![(s1, "héllo".to_string()), (Style::default(), " wörld".to_string())];
    let out = slice_segments(&segments, 3, 5);
    assert_eq!(out, vec![(s1, "lo".to_string()), (Style::default(), " wö".to_string())]);
    assert!(slice_segments(&segments, 20, 5).is_empty());
    assert!(slice_segments(&segments, 0, 0).is_empty());
    assert_eq!(text_of(&slice_segments(&segments, 0, 100)), "héllo wörld");
}

#[test]
fn patch_style_overlays_colors() {
    let base = Style::default().fg(Color::Red).bg(Color::Blue);
    let over = Style::default().bg(Color::Green).add_modifier(Modifier::BOLD);
    let out = patch_style(base, over);
    assert_eq!(out.fg, Some(Color::Red));
    assert_eq!(out.bg, Some(Color::Green));
    assert!(out.add_modifier.contains(Modifier::BOLD));
    assert_ne!(out, base);
}

#[test]
fn cut_segments_patches_only_the_ranges() {
    let patch = Style::default().bg(Color::Red);
    let out = cut_segments(&plain("abcdef"), &[(2, 4)], patch);
    assert_eq!(
        out,
        vec![
            (Style::default(), "ab".to_string()),
            (Style::default().patch(patch), "cd".to_string()),
            (Style::default(), "ef".to_string()),
        ]
    );
    assert_eq!(segments_text(&out), "abcdef");
}

fn palette() -> Palette {
    Palette {
        plain: Style::default(),
        dim: Style::default().add_modifier(Modifier::DIM),
        removed: Style::default().fg(Color::Red),
        added: Style::default().fg(Color::Green),
        modified: Style::default().fg(Color::Yellow),
        old_tint: Style::default().bg(Color::Rgb(52, 18, 18)),
        new_tint: Style::default().bg(Color::Rgb(16, 45, 22)),
        old_emphasis: Style::default().bg(Color::Rgb(110, 36, 36)),
        new_emphasis: Style::default().bg(Color::Rgb(30, 95, 45)),
        search_match: Style::default().bg(Color::Rgb(88, 68, 0)),
        current_match: Style::default().bg(Color::Rgb(150, 110, 0)),
    }
}

fn cell(line_no: usize, content: &str, changed: Vec<(usize, usize)>) -> LineCell {
    LineCell { line_no, content: content.to_string(), changed }
}

#[test]
fn pane_titles_name_the_file_when_the_panel_is_hidden() {
    assert_eq!(pane_title(true, true, Some("a.rs")), "Old [1]");
    assert_eq!(pane_title(false, true, Some("a.rs")), "New [2]");
    assert_eq!(pane_title(true, false, Some("a.rs")), "Old [1] — a.rs");
    assert_eq!(pane_title(false, false, Some("src/b.rs")), "New [2] — src/b.rs");
    assert_eq!(pane_title(false, false, None), "New [2]");
}

#[test]
fn line_labels_are_right_aligned() {
    assert_eq!(line_label(Some(7)), "   7 ");
    assert_eq!(line_label(Some(1234)), "1234 ");
    assert_eq!(line_label(Some(98765)), "98765 ");
    assert_eq!(line_label(Some(0)), "   0 ");
    assert_eq!(line_label(None), "     ");
}

#[test]
fn tabs_expand_to_four_spaces() {
    assert_eq!(expand_tabs("a\tb"), "a    b");
    assert_eq!(expand_tabs("\t\t"), "        ");
    assert_eq!(expand_tabs("none"), "none");
}

fn compact_diff() -> SideBySideDiff {
    SideBySideDiff {
        rows: vec![
            DiffRow { left: Some(cell(1, "a", vec![])), right: Some(cell(1, "a", vec![])), kind: RowKind::Context },
            DiffRow { left: Some(cell(2, "b", vec![])), right: None, kind: RowKind::Removed },
            DiffRow { left: None, right: Some(cell(2, "c", vec![])), kind: RowKind::Added },
            DiffRow { left: None, right: Some(cell(3, "d", vec![])), kind: RowKind::Added },
            DiffRow { left: Some(cell(3, "e", vec![])), right: Some(cell(4, "e", vec![])), kind: RowKind::Context },
        ],
    }
}

#[test]
fn visible_rows_follow_scroll_and_compaction() {
    let d = compact_diff();
    assert_eq!(visible_rows(&d, false, true, 0, 10), vec![0, 1, 2, 3, 4]);
    assert_eq!(visible_rows(&d, false, true, 1, 2), vec![1, 2]);
    assert_eq!(visible_rows(&d, true, true, 0, 10), vec![0, 1, 4]);
    assert_eq!(visible_rows(&d, true, false, 1, 2), vec![2, 3]);
    assert_eq!(visible_rows(&d, true, true, 99, 10), vec![4]);
    assert!(visible_rows(&SideBySideDiff { rows: vec![] }, true, true, 3, 10).is_empty());
    assert!(visible_rows(&d, false, true, 0, 0).is_empty());
}

#[test]
fn pane_line_plain_roles() {
    let pal = palette();
    let d = compact_diff();
    let none: Vec<Vec<(Style, String)>> = Vec::new();
    let (label, segs) = pane_line(&d.rows[1], 1, true, false, &none, None, &pal, 0, 40);
    assert_eq!(label, "   2 ");
    assert_eq!(segs, vec![(pal.removed, "b".to_string())]);
    let (label, segs) = pane_line(&d.rows[1], 1, false, false, &none, None, &pal, 0, 40);
    assert_eq!(label, "     ");
    // The filler's single empty segment has no characters to show.
    assert!(segs.is_empty());
    let (_, segs) = pane_line(&d.rows[2], 2, false, false, &none, None, &pal, 0, 40);
    assert_eq!(segs, vec![(pal.added, "c".to_string())]);
}

#[test]
fn pane_line_uses_highlighted_line_and_tints_the_role() {
    let pal = palette();
    let row = DiffRow {
        left: Some(cell(2, "x\ty", vec![])),
        right: None,
        kind: RowKind::Removed,
    };
    let red = Style::default().fg(Color::Red);
    let hl = vec![
        vec![(Style::default(), "first".to_string())],
        vec![(red, "x\t".to_string()), (Style::default(), "y".to_string())],
    ];
    let (_, segs) = pane_line(&row, 0, true, true, &hl, None, &pal, 0, 40);
    assert_eq!(
        segs,
        vec![
            (red.patch(pal.old_tint), "x    ".to_string()),
            (Style::default().patch(pal.old_tint), "y".to_string()),
        ]
    );
    // A line the highlighter did not cover falls back to the plain text.
    let short = vec![vec![(Style::default(), "first".to_string())]];
    let (_, segs) = pane_line(&row, 0, true, true, &short, None, &pal, 0, 40);
    assert_eq!(segs, vec![(Style::default().patch(pal.old_tint), "x    y".to_string())]);
}

#[test]
fn pane_line_emphasizes_changed_spans_and_scrolls() {
    let pal = palette();
    let row = DiffRow {
        left: Some(cell(1, "\tfoo bar", vec![(1, 4)])),
        right: Some(cell(1, "\tbaz bar", vec![(1, 4)])),
        kind: RowKind::Modified,
    };
    let none: Vec<Vec<(Style, String)>> = Vec::new();
    let (_, segs) = pane_line(&row, 0, false, false, &none, None, &pal, 0, 40);
    assert_eq!(
        segs,
        vec![
            (pal.modified, "    ".to_string()),
            (pal.modified.patch(pal.new_emphasis), "baz".to_string()),
            (pal.modified, " bar".to_string()),
        ]
    );
    // Scrolled by 5 and cut to 2 characters beside the 5-column label.
    let (label, segs) = pane_line(&row, 0, false, false, &none, None, &pal, 5, 7);
    assert_eq!(label, "   1 ");
    assert_eq!(segs, vec![(pal.modified.patch(pal.new_emphasis), "az".to_string())]);
}

#[test]
fn pane_line_tints_search_matches() {
    let pal = palette();
    let d = compact_diff();
    let none: Vec<Vec<(Style, String)>> = Vec::new();
    let fs = FileSearch {
        query: "e".to_string(),
        matches: vec![RowMatch { row: 4, in_left: true, in_right: true }],
        current: 0,
    };
    let (_, segs) = pane_line(&d.rows[4], 4, true, false, &none, Some(&fs), &pal, 0, 40);
    assert_eq!(segs, vec![(pal.plain.patch(pal.current_match), "e".to_string())]);
    let (_, segs) = pane_line(&d.rows[4], 3, true, false, &none, Some(&fs), &pal, 0, 40);
    assert_eq!(segs, vec![(pal.plain.patch(pal.search_match), "e".to_string())]);
}

#[test]
fn slicing_keeps_a_window_of_the_text() {
    let segs = vec![
        (Style::default().fg(Color::Blue), "héllo".to_string()),
        (Style::default(), " wörld".to_string()),
    ];
    for skip in 0..13 {
        for take in 0..13 {
            let want: String = "héllo wörld".chars().skip(skip).take(take).collect();
            assert_eq!(text_of(&slice_segments(&segs, skip, take)), want);
        }
    }
}

#[test]
fn tinting_matches_keeps_the_text() {
    let segs = vec![
        (Style::default().fg(Color::Blue), "let foo".to_string()),
        (Style::default(), "bar = Foo;".to_string()),
    ];
    let out = gispect::search::highlight_segments(&segs, "foo", Style::default().bg(Color::Red));
    assert_eq!(text_of(&out), "let foobar = Foo;");
    assert!(out.len() > segs.len());
}

#[test]
fn window_always_contains_the_selection() {
    for total in 1..12usize {
        for height in 1..8usize {
            for selected in 0..total {
                let off = window_offset(selected, total, height);
                assert!(off <= selected && selected < off + height);
                if total > height {
                    assert!(off + height <= total);
                }
            }
        }
    }
}
