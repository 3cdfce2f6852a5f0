use gispect::app::{App, Effect};
use gispect::config::Config;
use gispect::highlight::Highlighter;
use gispect::keys::Key;
use gispect::layout::{results_popup, Area};
use gispect::project::{project_matches, ProjectMatch, ProjectSearch};
use gispect::screen::{popup_rows, project_row, project_title};
use gispect::types::{DiffMode, FileEntry, FileStatus};

fn entry(path: &str, status: FileStatus) -> FileEntry {
    FileEntry { path: path.to_string(), status, additions: 1, deletions: 1, binary: false }
}

fn texts(pairs: &[(&str, &str)]) -> Vec<(String, String)> {
    pairs.iter().map(|(o, n)| (o.to_string(), n.to_string())).collect()
}

fn m(file_idx: usize, path: &str, line_no: usize, line: &str, in_old: bool) -> ProjectMatch {
    ProjectMatch { file_idx, path: path.to_string(), line_no, line: line.to_string(), in_old }
}

#[test]
fn project_matches_search_new_versions_and_deleted_files() {
    let files = vec![
        entry("a.rs", FileStatus::Modified),
        entry("gone.rs", FileStatus::Deleted),
        entry("b.rs", FileStatus::Added),
    ];
    let t = texts(&[
        ("fn old_foo() {}\n", "fn foo() {}\nlet x = 1;\n  Foo::new()\n"),
        ("// foo was here\nbar\n", ""),
        ("", "nothing\n"),
    ]);
    assert_eq!(
        project_matches(&files, &t, "foo"),
        vec![
            m(0, "a.rs", 1, "fn foo() {}", false),
            m(0, "a.rs", 3, "  Foo::new()", false),
            m(1, "gone.rs", 1, "// foo was here", true),
        ]
    );
    // Smart case, and nothing for an empty query.
    assert_eq!(project_matches(&files, &t, "Foo"), vec![m(0, "a.rs", 3, "  Foo::new()", false)]);
    assert!(project_matches(&files, &t, "").is_empty());
}

#[test]
fn popup_rows_and_title() {
    assert_eq!(project_title("foo", 3), "Search \"foo\" — 3 matches  (j/k move · Enter open · Esc close)");
    let row = m(0, "src/a.rs", 12, "   let foo = 1;  ", false);
    assert_eq!(
        project_row(&row, 80),
        ("src/a.rs:12: ".to_string(), String::new(), "let foo = 1;".to_string())
    );
    assert_eq!(project_row(&row, 16), ("src/a.rs:12: ".to_string(), String::new(), "let".to_string()));
    let old = m(1, "x.rs", 3, "abc", true);
    assert_eq!(project_row(&old, 9), ("x.rs:3: ".to_string(), "(".to_string(), String::new()));
    assert_eq!(project_row(&old, 4), ("x.rs".to_string(), String::new(), String::new()));
    let screen = Area { x: 0, y: 0, width: 100, height: 40 };
    assert_eq!(results_popup(screen), Area { x: 5, y: 6, width: 90, height: 28 });
    let tiny = Area { x: 0, y: 0, width: 10, height: 5 };
    assert_eq!(results_popup(tiny), tiny);
}

#[test]
fn search_all_opens_the_popup_and_enter_opens_the_match() {
    let mut app = App::new(DiffMode::WorkingTree, "main".to_string(), "dev".to_string(), Vec::new(), Config::default());
    app.apply_files(Ok(vec![entry("a.rs", FileStatus::Modified), entry("b.rs", FileStatus::Modified)]));
    assert_eq!(app.handle_key(Key::Char('S'), false), Effect::LoadChangedLines);
    for c in "foo".chars() {
        app.handle_key(Key::Char(c), false);
    }
    assert_eq!(app.handle_key(Key::Enter, false), Effect::SearchProject { query: "foo".to_string() });
    let t = texts(&[("x\n", "x\n"), ("a\nb\n", "a\nb\nfoo 1\nfoo 2\n")]);
    app.show_project("foo".to_string(), t);
    let ps = app.ui.project.as_ref().unwrap();
    assert_eq!(ps.matches.len(), 2);
    assert_eq!(ps.selected, 0);
    // Keys move within the popup and nothing else happens.
    app.handle_key(Key::Char('j'), false);
    app.handle_key(Key::Char('j'), false);
    assert_eq!(app.ui.project.as_ref().unwrap().selected, 1);
    app.handle_key(Key::Up, false);
    app.handle_key(Key::Down, false);
    assert_eq!(app.handle_key(Key::Char('q'), false), Effect::Nothing);
    assert!(!app.quit);
    let effect = app.handle_key(Key::Enter, false);
    assert_eq!(effect, Effect::OpenMatch { query: "foo".to_string(), line_no: 4, in_old: false });
    assert!(app.ui.project.is_none());
    assert_eq!(app.selected, 1);
    // The runner loads the file's diff, then opens the match.
    let hl = Highlighter::new();
    let e = app.begin_reload_diff().unwrap();
    app.finish_reload_diff(&hl, &e, Ok(("a\nb\n".to_string(), "a\nb\nfoo 1\nfoo 2\n".to_string())));
    app.open_match("foo".to_string(), 4, false);
    assert_eq!(app.scroll, 3);
    assert_eq!(app.ui.file_search.as_ref().unwrap().query, "foo");
    // Esc closes a popup.
    app.show_project("zzz".to_string(), Vec::new());
    assert!(app.ui.project.as_ref().unwrap().matches.is_empty());
    assert_eq!(app.handle_key(Key::Enter, false), Effect::Nothing);
    app.handle_key(Key::Esc, false);
    assert!(app.ui.project.is_none());
}

#[test]
fn popup_rows_keep_the_selected_match_in_view() {
    let matches: Vec<ProjectMatch> = (0..10).map(|i| m(0, "a.rs", i + 1, "x", false)).collect();
    let ps = ProjectSearch { query: "x".to_string(), matches, selected: 7 };
    let rows = popup_rows(&ps, 20, 4);
    assert_eq!(rows.len(), 4);
    assert_eq!(rows[0], ("a.rs:6: ".to_string(), String::new(), "x".to_string(), false));
    assert_eq!(rows[2], ("a.rs:8: ".to_string(), String::new(), "x".to_string(), true));
    let last = ProjectSearch { selected: 9, ..ps };
    let rows = popup_rows(&last, 20, 4);
    assert_eq!(rows[0].0, "a.rs:7: ");
    assert!(rows[3].3);
    let few = ProjectSearch { query: "x".to_string(), matches: vec![m(0, "b.rs", 2, "y", true)], selected: 0 };
    assert_eq!(popup_rows(&few, 20, 4), vec![("b.rs:2: ".to_string(), "(old) ".to_string(), "y".to_string(), true)]);
}
