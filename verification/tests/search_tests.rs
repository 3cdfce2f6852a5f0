use gispect::search::{
    any_line_matches, highlight_segments, match_ranges, parse_changed_lines, path_matches,
    search_diff, smart_case_sensitive, ChangedLines, RowMatch,
};
use gispect::types::{DiffRow, LineCell, RowKind, SideBySideDiff};
use ratatui::style::{Color, Style};

fn cell(line_no: usize, content: &str) -> LineCell {
    LineCell {
        line_no,
        content: content.to_string(),
        changed: Vec::new(),
    }
}

#[test]
fn smart_case_lowercase_query_is_insensitive() {
    assert!(!smart_case_sensitive("hello"));
    assert!(!smart_case_sensitive("héllo"));
}

#[test]
fn smart_case_uppercase_query_is_sensitive() {
    assert!(smart_case_sensitive("Hello"));
    assert!(smart_case_sensitive("HELLO"));
}

#[test]
fn match_ranges_lowercase_query_matches_mixed_case() {
    let ranges = match_ranges("Hello World hello", "hello");
    assert_eq!(ranges, vec![(0, 5), (12, 17)]);
}

#[test]
fn match_ranges_uppercase_query_is_exact() {
    let ranges = match_ranges("Hello hello HELLO", "Hello");
    assert_eq!(ranges, vec![(0, 5)]);
}

#[test]
fn match_ranges_empty_query_yields_none() {
    assert_eq!(match_ranges("hello", ""), Vec::new());
}

#[test]
fn match_ranges_adjacent_non_overlapping_occurrences() {
    let ranges = match_ranges("aaaa", "aa");
    assert_eq!(ranges, vec![(0, 2), (2, 4)]);
}

#[test]
fn match_ranges_non_ascii_haystack_uses_char_indices() {
    let haystack = "héllo wörld héllo";
    let ranges = match_ranges(haystack, "héllo");
    assert_eq!(ranges, vec![(0, 5), (12, 17)]);
    let chars: Vec<char> = haystack.chars().collect();
    for (s, e) in &ranges {
        let slice: String = chars[*s..*e].iter().collect();
        assert_eq!(slice, "héllo");
    }
}

fn make_diff() -> SideBySideDiff {
    SideBySideDiff {
        rows: vec![
            DiffRow {
                left: Some(cell(1, "left only match")),
                right: None,
                kind: RowKind::Removed,
            },
            DiffRow {
                left: None,
                right: Some(cell(1, "right only match")),
                kind: RowKind::Added,
            },
            DiffRow {
                left: Some(cell(2, "match on both sides")),
                right: Some(cell(2, "match on both sides")),
                kind: RowKind::Modified,
            },
            DiffRow {
                left: Some(cell(3, "no hit here")),
                right: Some(cell(3, "no hit here")),
                kind: RowKind::Context,
            },
        ],
    }
}

#[test]
fn search_diff_finds_left_only_right_only_and_both() {
    let diff = make_diff();
    let matches = search_diff(&diff, "match");
    assert_eq!(matches.len(), 3);
    assert_eq!(
        matches[0],
        RowMatch {
            row: 0,
            in_left: true,
            in_right: false
        }
    );
    assert_eq!(
        matches[1],
        RowMatch {
            row: 1,
            in_left: false,
            in_right: true
        }
    );
    assert_eq!(
        matches[2],
        RowMatch {
            row: 2,
            in_left: true,
            in_right: true
        }
    );
}

#[test]
fn search_diff_empty_query_yields_none() {
    let diff = make_diff();
    assert!(search_diff(&diff, "").is_empty());
}

#[test]
fn path_matches_folder_segment() {
    assert!(path_matches("src/app.rs", "src/"));
    assert!(path_matches("src/app.rs", "app"));
    assert!(!path_matches("src/app.rs", "lib"));
}

#[test]
fn path_matches_case_insensitive() {
    assert!(path_matches("src/App.rs", "app"));
    assert!(path_matches("src/app.rs", "APP"));
}

#[test]
fn path_matches_empty_filter_matches_everything() {
    assert!(path_matches("anything.rs", ""));
}

const MULTI_FILE_DIFF: &str = "\
diff --git a/src/lib.rs b/src/lib.rs
index 1234567..89abcde 100644
--- a/src/lib.rs
+++ b/src/lib.rs
@@ -10,7 +10,8 @@ fn foo() {
 context line
-    old code
+    new code
+    x += 1;
diff --git a/new.rs b/new.rs
new file mode 100644
index 0000000..abc1234
--- /dev/null
+++ b/new.rs
@@ -0,0 +1,2 @@
+fn added() {}
+// new file
diff --git a/gone.rs b/gone.rs
deleted file mode 100644
index abc1234..0000000
--- a/gone.rs
+++ /dev/null
@@ -1,2 +0,0 @@
-fn removed() {}
-// bye
diff --git a/img.png b/img.png
index abc1234..def5678 100644
Binary files a/img.png and b/img.png differ
diff --git a/nonl.rs b/nonl.rs
index abc1234..def5678 100644
--- a/nonl.rs
+++ b/nonl.rs
@@ -1 +1 @@
-old
\\ No newline at end of file
+new
\\ No newline at end of file
";

#[test]
fn parse_changed_lines_modified_file_strips_only_marker_char() {
    let parsed = parse_changed_lines(MULTI_FILE_DIFF);
    let lib = parsed.get("src/lib.rs").expect("src/lib.rs should have changed lines");
    assert_eq!(
        lib,
        &vec![
            "    old code".to_string(),
            "    new code".to_string(),
            "    x += 1;".to_string(),
        ]
    );
}

#[test]
fn parse_changed_lines_added_file_keyed_by_new_path() {
    let parsed = parse_changed_lines(MULTI_FILE_DIFF);
    let new_file = parsed.get("new.rs").expect("new.rs should have changed lines");
    assert_eq!(
        new_file,
        &vec!["fn added() {}".to_string(), "// new file".to_string()]
    );
}

#[test]
fn parse_changed_lines_deleted_file_keyed_by_pre_change_path() {
    let parsed = parse_changed_lines(MULTI_FILE_DIFF);
    let gone = parsed.get("gone.rs").expect("gone.rs should have changed lines");
    assert_eq!(
        gone,
        &vec!["fn removed() {}".to_string(), "// bye".to_string()]
    );
}

#[test]
fn parse_changed_lines_binary_file_produces_no_entry() {
    let parsed = parse_changed_lines(MULTI_FILE_DIFF);
    assert!(parsed.get("img.png").is_none());
}

#[test]
fn parse_changed_lines_headers_and_hunk_markers_not_captured() {
    let parsed = parse_changed_lines(MULTI_FILE_DIFF);
    let lib = parsed.get("src/lib.rs").unwrap();
    assert!(!lib.iter().any(|l| l.contains("@@")));
    assert!(!lib.iter().any(|l| l.starts_with("- a/") || l.starts_with("+ b/")));
    assert!(!lib.contains(&"context line".to_string()));
}

#[test]
fn parse_changed_lines_skips_no_newline_marker() {
    let parsed = parse_changed_lines(MULTI_FILE_DIFF);
    let nonl = parsed.get("nonl.rs").expect("nonl.rs should have changed lines");
    assert_eq!(nonl, &vec!["old".to_string(), "new".to_string()]);
}

#[test]
fn parse_changed_lines_empty_diff_yields_empty_map() {
    assert!(parse_changed_lines("").is_empty());
}

#[test]
fn any_line_matches_smart_case() {
    let lines = vec!["Hello World".to_string(), "other".to_string()];
    assert!(any_line_matches(&lines, "hello"));
    assert!(any_line_matches(&lines, "Hello"));
    assert!(!any_line_matches(&lines, "Goodbye"));
    assert!(!any_line_matches(&lines, "OTHER"));
}

#[test]
fn any_line_matches_empty_query_matches_everything() {
    let lines = vec!["anything".to_string()];
    assert!(any_line_matches(&lines, ""));
    let empty: Vec<String> = Vec::new();
    assert!(any_line_matches(&empty, ""));
}

#[test]
fn any_line_matches_no_lines_no_match() {
    let empty: Vec<String> = Vec::new();
    assert!(!any_line_matches(&empty, "needle"));
}

#[test]
fn highlight_segments_splits_across_segment_boundary() {
    let segments = vec![
        (Style::default().fg(Color::Red), "hel".to_string()),
        (Style::default().fg(Color::Blue), "lo world".to_string()),
    ];
    let highlight = Style::default().bg(Color::Yellow);
    let result = highlight_segments(&segments, "hello", highlight);

    let joined: String = result.iter().map(|(_, s)| s.as_str()).collect();
    assert_eq!(joined, "hello world");

    let mut consumed = 0usize;
    for (style, text) in &result {
        let is_within_hello = consumed < 5;
        if is_within_hello {
            assert_eq!(style.bg, Some(Color::Yellow), "piece {text:?} should be highlighted");
        } else {
            assert_eq!(style.bg, None, "piece {text:?} should not be highlighted");
        }
        consumed += text.chars().count();
    }
}

#[test]
fn highlight_segments_empty_query_returns_unchanged() {
    let segments = vec![(Style::default(), "hello".to_string())];
    let result = highlight_segments(&segments, "", Style::default().bg(Color::Yellow));
    assert_eq!(result, segments);
}

#[test]
fn highlight_segments_no_match_returns_unchanged() {
    let segments = vec![(Style::default(), "hello".to_string())];
    let result = highlight_segments(&segments, "xyz", Style::default().bg(Color::Yellow));
    assert_eq!(result, segments);
}

#[test]
fn match_ranges_lie_on_the_query_in_the_text() {
    let haystack = "ab AB aB";
    let ranges = match_ranges(haystack, "ab");
    assert_eq!(ranges, vec![(0, 2), (3, 5), (6, 8)]);
    let ranges = match_ranges(haystack, "aB");
    assert_eq!(ranges, vec![(6, 8)]);
    assert!(match_ranges("short", "much longer").is_empty());
}

#[test]
fn search_diff_is_smart_case() {
    let diff = make_diff();
    assert_eq!(search_diff(&diff, "MATCH").len(), 0);
    assert_eq!(search_diff(&diff, "Match").len(), 0);
    let hits = search_diff(&diff, "hit");
    assert_eq!(hits, vec![RowMatch { row: 3, in_left: true, in_right: true }]);
}

#[test]
fn changed_lines_of_repeated_file_sections_are_joined() {
    let diff = "diff --git a/x b/x\n--- a/x\n+++ b/x\n@@ -1 +1 @@\n-a\n+b\n\
diff --git a/x b/x\n--- a/x\n+++ b/x\n@@ -5 +5 @@\n-c\n";
    let parsed = parse_changed_lines(diff);
    assert_eq!(parsed.len(), 1);
    assert_eq!(
        parsed.get("x").unwrap(),
        &vec!["a".to_string(), "b".to_string(), "c".to_string()]
    );
    let empty = ChangedLines::new();
    assert!(empty.is_empty());
    assert!(empty.get("x").is_none());
}

#[test]
fn parse_changed_lines_reads_header_like_lines_inside_a_hunk_as_content() {
    let diff = "diff --git a/q.sql b/q.sql\n--- a/q.sql\n+++ b/q.sql\n@@ -1 +1 @@\n--- old comment\n+++ new comment\n diff context\ndiff --git a/r.sql b/r.sql\n--- a/r.sql\n+++ b/r.sql\n@@ -1 +1 @@\n-x\n+y\n";
    let parsed = parse_changed_lines(diff);
    assert_eq!(parsed.len(), 2);
    assert_eq!(parsed.get("q.sql").unwrap(), &vec!["-- old comment".to_string(), "++ new comment".to_string()]);
    assert_eq!(parsed.get("r.sql").unwrap(), &vec!["x".to_string(), "y".to_string()]);
}

#[test]
fn parse_changed_lines_keeps_a_removed_sql_comment() {
    let diff = "--- a/q.sql\n+++ b/q.sql\n@@ -1 +1 @@\n--- old comment\n+-- new comment\n";
    let parsed = parse_changed_lines(diff);
    assert_eq!(parsed.get("q.sql").unwrap(), &vec!["-- old comment".to_string(), "-- new comment".to_string()]);
}

#[test]
fn parse_changed_lines_ends_a_hunk_after_its_counted_lines() {
    let diff = "--- a/x.rs\n+++ b/x.rs\n@@ -1,2 +1,2 @@\n-a\n+b\n c\n--- a/y.rs\n+++ b/y.rs\n@@ -1 +1 @@\n-d\n+e\n";
    let parsed = parse_changed_lines(diff);
    assert_eq!(parsed.len(), 2);
    assert_eq!(parsed.get("x.rs").unwrap(), &vec!["a".to_string(), "b".to_string()]);
    assert_eq!(parsed.get("y.rs").unwrap(), &vec!["d".to_string(), "e".to_string()]);
}

#[test]
fn parse_changed_lines_hunk_without_counts_lasts_to_the_next_file() {
    let diff = "--- a/x.rs\n+++ b/x.rs\n@@ bad @@\n-a\n--- b\n+c\ndiff --git a/y.rs b/y.rs\n--- a/y.rs\n+++ b/y.rs\n@@ -0,0 +1 @@\n+d\n";
    let parsed = parse_changed_lines(diff);
    assert_eq!(parsed.get("x.rs").unwrap(), &vec!["a".to_string(), "-- b".to_string(), "c".to_string()]);
    assert_eq!(parsed.get("y.rs").unwrap(), &vec!["d".to_string()]);
}
