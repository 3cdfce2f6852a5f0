use gispect::app::{App, Effect};
use gispect::config::{Config, ConfigField, ModeKind};
use gispect::highlight::Highlighter;
use gispect::keys::Key;
use gispect::search::SearchKind;
use gispect::types::{DiffMode, FileEntry, FileStatus};

fn entry(path: &str) -> FileEntry {
    FileEntry { path: path.to_string(), status: FileStatus::Modified, additions: 1, deletions: 1, binary: false }
}

fn app_with(paths: &[&str]) -> App {
    let mut app = App::new(
        DiffMode::WorkingTree,
        "main".to_string(),
        "dev".to_string(),
        vec!["main".to_string()],
        Config::default(),
    );
    app.apply_files(Ok(paths.iter().map(|p| entry(p)).collect()));
    app
}

fn load(app: &mut App, old: &str, new: &str) {
    let hl = Highlighter::new();
    let e = app.begin_reload_diff().unwrap();
    app.finish_reload_diff(&hl, &e, Ok((old.to_string(), new.to_string())));
}

fn typed(app: &mut App, text: &str) {
    for c in text.chars() {
        assert_eq!(app.handle_key(Key::Char(c), false), Effect::Nothing);
    }
}

#[test]
fn in_file_search_jumps_between_matches() {
    let mut app = app_with(&["a.rs"]);
    load(&mut app, "x\nfoo 1\ny\nz\nfoo 2\nw\n", "x\nfoo 1\ny\nz\nfoo 2\nw\n");
    app.handle_key(Key::Char('/'), false);
    assert_eq!(app.ui.search_input.as_ref().unwrap().kind, SearchKind::File);
    typed(&mut app, "Foo");
    app.handle_key(Key::Backspace, false);
    app.handle_key(Key::Backspace, false);
    typed(&mut app, "oo");
    // Ctrl-modified characters are not typed.
    app.handle_key(Key::Char('x'), true);
    assert_eq!(app.ui.search_input.as_ref().unwrap().query, "Foo");
    app.handle_key(Key::Backspace, false);
    app.handle_key(Key::Backspace, false);
    app.handle_key(Key::Backspace, false);
    typed(&mut app, "foo");
    app.handle_key(Key::Enter, false);
    assert!(app.ui.search_input.is_none());
    let fs = app.ui.file_search.as_ref().unwrap();
    assert_eq!(fs.matches.len(), 2);
    assert_eq!(fs.current, 0);
    assert_eq!(app.scroll, 1);
    app.handle_key(Key::Char('n'), false);
    assert_eq!(app.ui.file_search.as_ref().unwrap().current, 1);
    assert_eq!(app.scroll, 4);
    app.handle_key(Key::Char('n'), false);
    assert_eq!(app.ui.file_search.as_ref().unwrap().current, 0);
    assert_eq!(app.scroll, 1);
    app.handle_key(Key::Char('N'), false);
    assert_eq!(app.ui.file_search.as_ref().unwrap().current, 1);
    // Esc clears the search before it quits.
    app.handle_key(Key::Esc, false);
    assert!(app.ui.file_search.is_none());
    assert!(!app.quit);
    app.handle_key(Key::Esc, false);
    assert!(app.quit);
}

#[test]
fn empty_or_cancelled_searches() {
    let mut app = app_with(&["a.rs"]);
    load(&mut app, "a\n", "b\n");
    app.handle_key(Key::Char('/'), false);
    app.handle_key(Key::Enter, false);
    assert!(app.ui.file_search.is_none());
    app.handle_key(Key::Char('/'), false);
    typed(&mut app, "zzz");
    app.handle_key(Key::Enter, false);
    assert_eq!(app.ui.file_search.as_ref().unwrap().matches.len(), 0);
    // With no matches, n/N do nothing.
    app.handle_key(Key::Char('n'), false);
    assert_eq!(app.scroll, 0);
    app.handle_key(Key::Char('/'), false);
    typed(&mut app, "a");
    app.handle_key(Key::Esc, false);
    assert!(app.ui.search_input.is_none());
    assert_eq!(app.ui.file_search.as_ref().unwrap().query, "zzz");
}

#[test]
fn changes_are_visited_in_order() {
    let mut app = app_with(&["a.rs"]);
    load(&mut app, "1\n2\n3\n4\n5\n6\n7\n", "1\nX\n3\n4\n5\nY\nZ\n7\n");
    // rows: 1 ctx, 2/X mod, 3,4,5 ctx, 6/Y mod, Z add, 7 ctx
    app.handle_key(Key::Char('n'), false);
    assert_eq!(app.scroll, 1);
    app.handle_key(Key::Char('n'), false);
    assert_eq!(app.scroll, 5);
    app.handle_key(Key::Char('n'), false);
    assert_eq!(app.scroll, 5);
    app.handle_key(Key::Char('N'), false);
    assert_eq!(app.scroll, 1);
    app.handle_key(Key::Char('N'), false);
    assert_eq!(app.scroll, 1);
}

#[test]
fn path_filter_follows_typing_and_limits_selection() {
    let mut app = app_with(&["src/a.rs", "docs/b.md", "src/c.rs"]);
    app.handle_key(Key::Char('p'), false);
    typed(&mut app, "SRC");
    assert_eq!(app.ui.path_filter.as_deref(), Some("SRC"));
    app.handle_key(Key::Enter, false);
    assert!(app.ui.search_input.is_none());
    assert_eq!(app.ui.path_filter.as_deref(), Some("SRC"));
    // j skips the file the filter hides.
    assert_eq!(
        app.handle_key(Key::Char('j'), false),
        Effect::ReloadDiff { keep_scroll: None, then_status: None }
    );
    assert_eq!(app.selected, 2);
    app.handle_key(Key::Char('j'), false);
    assert_eq!(app.selected, 2);
    app.handle_key(Key::Char('k'), false);
    assert_eq!(app.selected, 0);
    // Reopening starts from the filter; erasing it clears the filter.
    app.handle_key(Key::Char('p'), false);
    assert_eq!(app.ui.search_input.as_ref().unwrap().query, "SRC");
    app.handle_key(Key::Backspace, false);
    app.handle_key(Key::Backspace, false);
    app.handle_key(Key::Backspace, false);
    assert!(app.ui.path_filter.is_none());
    typed(&mut app, "doc");
    app.handle_key(Key::Esc, false);
    assert!(app.ui.path_filter.is_none());
    assert!(app.ui.search_input.is_none());
    // Esc in the main view clears a kept filter before quitting.
    app.handle_key(Key::Char('p'), false);
    typed(&mut app, "b");
    app.handle_key(Key::Enter, false);
    app.handle_key(Key::Esc, false);
    assert!(app.ui.path_filter.is_none());
    assert!(!app.quit);
}

#[test]
fn panel_and_pane_toggles() {
    let mut app = app_with(&["a.rs"]);
    app.handle_key(Key::Char('t'), false);
    assert!(app.ui.tree_view);
    app.handle_key(Key::Char('F'), false);
    assert!(app.ui.wide_files);
    app.handle_key(Key::Char('1'), false);
    assert!(!app.ui.show_old && app.ui.show_new);
    // The last shown pane stays.
    app.handle_key(Key::Char('2'), false);
    assert!(!app.ui.show_old && app.ui.show_new);
    app.handle_key(Key::Char('1'), false);
    app.handle_key(Key::Char('2'), false);
    assert!(app.ui.show_old && !app.ui.show_new);
    app.handle_key(Key::Char('1'), false);
    assert!(app.ui.show_old && !app.ui.show_new);
}

#[test]
fn config_editor_edits_and_saves_startup_defaults() {
    let mut app = app_with(&["a.rs"]);
    app.handle_key(Key::Char('C'), false);
    let m = app.ui.config_modal.as_ref().unwrap();
    assert_eq!((m.selected, m.draft), (0, Config::default()));
    // While the editor is open other keys do not reach the main view.
    app.handle_key(Key::Char('q'), false);
    assert!(!app.quit);
    app.handle_key(Key::Char(' '), false);
    assert_eq!(app.ui.config_modal.as_ref().unwrap().draft.default_mode, ModeKind::WorkingTree);
    app.handle_key(Key::Left, false);
    assert_eq!(app.ui.config_modal.as_ref().unwrap().draft.default_mode, ModeKind::BranchToBase);
    app.handle_key(Key::Char('j'), false);
    assert_eq!(app.ui.config_modal.as_ref().unwrap().selected, 1);
    app.handle_key(Key::Char(' '), false);
    assert!(app.ui.config_modal.as_ref().unwrap().draft.compact);
    app.handle_key(Key::Char('k'), false);
    app.handle_key(Key::Up, false);
    assert_eq!(app.ui.config_modal.as_ref().unwrap().selected, 7);
    let saved = app.handle_key(Key::Char('s'), false);
    let expected = Config { compact: true, ..Config::default() };
    assert_eq!(saved, Effect::SaveConfig(expected));
    assert!(app.ui.config_modal.is_none());
    assert_eq!(app.ui.config, expected);

    // 'u' takes the settings in use; Esc leaves the defaults alone.
    app.handle_key(Key::Char('t'), false);
    app.handle_key(Key::Char('C'), false);
    assert_eq!(app.ui.config_modal.as_ref().unwrap().draft, expected);
    app.handle_key(Key::Char('u'), false);
    let current = app.ui.config_modal.as_ref().unwrap().draft;
    assert_eq!(current.default_mode, ModeKind::WorkingTree);
    assert!(current.tree_view && !current.compact);
    app.handle_key(Key::Esc, false);
    assert!(app.ui.config_modal.is_none());
    assert_eq!(app.ui.config, expected);
    assert_eq!(ConfigField::at(7), ConfigField::ShowNew);
}

#[test]
fn startup_defaults_set_the_view() {
    let c = Config { compact: true, syntax: false, show_files: false, tree_view: true, ..Config::default() };
    let app = App::new(DiffMode::Staged, "main".to_string(), "b".to_string(), Vec::new(), c);
    assert!(app.compact && !app.syntax && !app.show_files && app.ui.tree_view);
    assert!(app.ui.show_old && app.ui.show_new && !app.ui.wide_files);
    assert_eq!(app.ui.config, c);
}

const UNIFIED: &str = "diff --git a/src/a.rs b/src/a.rs
--- a/src/a.rs
+++ b/src/a.rs
@@ -1,2 +1,2 @@
 keep
-fn old_name() {}
+fn new_name() {}
diff --git a/docs/b.md b/docs/b.md
--- a/docs/b.md
+++ b/docs/b.md
@@ -1 +1 @@
-Intro
+Introduction
diff --git a/src/c.rs b/src/c.rs
--- a/src/c.rs
+++ b/src/c.rs
@@ -3 +3,2 @@
+let name = 1;
";

#[test]
fn changed_text_filter_follows_typing_and_limits_selection() {
    let mut app = app_with(&["src/a.rs", "docs/b.md", "src/c.rs"]);
    assert_eq!(app.handle_key(Key::Char('S'), false), Effect::LoadChangedLines);
    assert_eq!(app.ui.search_input.as_ref().unwrap().kind, SearchKind::Content);
    assert!(app.needs_changed_lines());
    app.set_changed_lines(Ok(UNIFIED.to_string()));
    assert_eq!(
        app.changed_lines,
        vec![
            vec!["fn old_name() {}".to_string(), "fn new_name() {}".to_string()],
            vec!["Intro".to_string(), "Introduction".to_string()],
            vec!["let name = 1;".to_string()],
        ]
    );
    typed(&mut app, "name");
    assert_eq!(app.ui.content_filter.as_deref(), Some("name"));
    app.handle_key(Key::Enter, false);
    assert!(app.ui.search_input.is_none());
    assert!(app.needs_changed_lines());
    // j skips the file whose changed lines lack the text.
    app.handle_key(Key::Char('j'), false);
    assert_eq!(app.selected, 2);
    app.handle_key(Key::Char('k'), false);
    assert_eq!(app.selected, 0);
    // Smart case: an uppercase query is exact.
    app.handle_key(Key::Char('S'), false);
    assert_eq!(app.ui.search_input.as_ref().unwrap().query, "name");
    for _ in 0..4 {
        app.handle_key(Key::Backspace, false);
    }
    assert!(app.ui.content_filter.is_none());
    typed(&mut app, "Intro");
    app.handle_key(Key::Enter, false);
    app.selected = 0;
    app.handle_key(Key::Char('j'), false);
    assert_eq!(app.selected, 1);
    // Esc clears the filters before quitting.
    app.handle_key(Key::Esc, false);
    assert!(app.ui.content_filter.is_none());
    assert!(!app.quit);
    assert!(!app.needs_changed_lines());
}

#[test]
fn reading_changed_lines_can_fail() {
    let mut app = app_with(&["a.rs"]);
    app.set_changed_lines(Err("git failed".to_string()));
    assert_eq!(app.status.as_deref(), Some("error: git failed"));
    assert!(app.changed_lines.is_empty());
    // A new file list drops the lines of the old one.
    app.set_changed_lines(Ok(String::new()));
    assert_eq!(app.changed_lines, vec![Vec::<String>::new()]);
    app.apply_files(Ok(vec![entry("b.rs")]));
    assert!(app.changed_lines.is_empty());
}

#[test]
fn k_steps_up_whenever_above_the_first_file() {
    let mut app = app_with(&[]);
    app.selected = 1;
    app.handle_key(Key::Char('k'), false);
    assert_eq!(app.selected, 0);
    app.handle_key(Key::Char('k'), false);
    assert_eq!(app.selected, 0);
    let mut three = app_with(&["a", "b", "c"]);
    three.selected = 2;
    three.handle_key(Key::Up, false);
    assert_eq!(three.selected, 1);
}
