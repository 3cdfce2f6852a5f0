use gispect::app::{highlight_paths, initial_base, App, Effect};
use gispect::config::{Config, ModeKind};
use gispect::keys::Key;
use gispect::diff::side_by_side;
use gispect::highlight::Highlighter;
use gispect::types::{DiffMode, FileEntry, FileStatus};

fn entry(path: &str, status: FileStatus, binary: bool) -> FileEntry {
    FileEntry { path: path.to_string(), status, additions: 0, deletions: 0, binary }
}

fn app_with_files(n: usize) -> App {
    let mut app = App::new(
        DiffMode::BranchToBase { base: "main".to_string() },
        "main".to_string(),
        "feature".to_string(),
        vec!["dev".to_string(), "main".to_string(), "zeta".to_string()],
        Config::default(),
    );
    let files = (0..n).map(|i| entry(&format!("f{i}.rs"), FileStatus::Modified, false)).collect();
    app.apply_files(Ok(files));
    app
}

fn load_diff(app: &mut App, old: &str, new: &str) {
    let hl = Highlighter::new();
    let entry = app.begin_reload_diff().unwrap();
    app.finish_reload_diff(&hl, &entry, Ok((old.to_string(), new.to_string())));
}

#[test]
fn new_app_starts_empty() {
    let app = App::new(DiffMode::Staged, "main".to_string(), "b".to_string(), Vec::new(), Config::default());
    assert!(app.files.is_empty());
    assert!(app.diff.rows.is_empty());
    assert_eq!((app.selected, app.scroll, app.h_scroll), (0, 0, 0));
    assert!(app.show_files && app.syntax && !app.compact && !app.show_help && !app.quit);
    assert_eq!(app.last_viewport_height, 20);
    assert!(!app.pending_update());
    assert_eq!(app.row_count(), 0);
}

#[test]
fn quitting_and_help() {
    let mut app = app_with_files(2);
    assert_eq!(app.handle_key(Key::Char('?'), false), Effect::Nothing);
    assert!(app.show_help);
    // While help is open, other keys do nothing.
    assert_eq!(app.handle_key(Key::Char('j'), false), Effect::Nothing);
    assert_eq!(app.selected, 0);
    assert_eq!(app.handle_key(Key::Esc, false), Effect::Nothing);
    assert!(!app.show_help && !app.quit);
    app.handle_key(Key::Char('?'), false);
    app.handle_key(Key::Char('q'), false);
    assert!(app.quit);
    let mut app = app_with_files(1);
    app.handle_key(Key::Esc, false);
    assert!(app.quit);
}

#[test]
fn file_selection_stays_on_the_list() {
    let mut app = app_with_files(3);
    let reload = Effect::ReloadDiff { keep_scroll: None, then_status: None };
    assert_eq!(app.handle_key(Key::Char('k'), false), reload);
    assert_eq!(app.selected, 0);
    assert_eq!(app.handle_key(Key::Down, false), reload);
    assert_eq!(app.handle_key(Key::Char('j'), false), reload);
    assert_eq!(app.handle_key(Key::Char('j'), false), reload);
    assert_eq!(app.selected, 2);
    assert_eq!(app.handle_key(Key::Up, false), reload);
    assert_eq!(app.selected, 1);
    let mut empty = app_with_files(0);
    assert_eq!(empty.handle_key(Key::Char('j'), false), Effect::Nothing);
}

#[test]
fn scrolling_is_clamped_to_the_rows() {
    let mut app = app_with_files(1);
    load_diff(&mut app, "a\nb\nc\n", "a\nB\nc\nd\ne\n");
    assert_eq!(app.row_count(), 5);
    app.handle_key(Key::Char('G'), false);
    assert_eq!(app.scroll, 4);
    app.handle_key(Key::Char('J'), false);
    assert_eq!(app.scroll, 4);
    app.handle_key(Key::Char('g'), false);
    assert_eq!(app.scroll, 0);
    app.handle_key(Key::Char('K'), false);
    assert_eq!(app.scroll, 0);
    app.last_viewport_height = 4;
    app.handle_key(Key::PageDown, false);
    assert_eq!(app.scroll, 2);
    app.handle_key(Key::Char('d'), true);
    assert_eq!(app.scroll, 4);
    app.handle_key(Key::Char('u'), true);
    assert_eq!(app.scroll, 2);
    app.handle_key(Key::PageUp, false);
    assert_eq!(app.scroll, 0);
    // Without ctrl, 'd' and 'u' do nothing.
    app.handle_key(Key::Char('d'), false);
    assert_eq!(app.scroll, 0);
}

#[test]
fn horizontal_scroll_moves_by_four() {
    let mut app = app_with_files(1);
    app.handle_key(Key::Char('l'), false);
    app.handle_key(Key::Right, false);
    assert_eq!(app.h_scroll, 8);
    app.handle_key(Key::Left, false);
    assert_eq!(app.h_scroll, 4);
    app.handle_key(Key::Char('h'), false);
    app.handle_key(Key::Char('h'), false);
    assert_eq!(app.h_scroll, 0);
}

#[test]
fn compact_view_counts_the_longer_pane() {
    let mut app = app_with_files(1);
    load_diff(&mut app, "a\nb\nc\n", "a\nc\nd\ne\nf\n");
    let total = app.diff.rows.len();
    app.handle_key(Key::Char('G'), false);
    assert_eq!(app.scroll, total - 1);
    assert_eq!(app.handle_key(Key::Char('c'), false), Effect::Nothing);
    assert!(app.compact);
    assert_eq!(app.row_count(), 5);
    assert_eq!(app.scroll, 4);
    assert_eq!(
        app.status.as_deref(),
        Some("compact view: filler rows hidden (panes scroll independently)")
    );
    app.handle_key(Key::Char('c'), false);
    assert_eq!(app.status.as_deref(), Some("aligned view: filler rows shown"));
}

#[test]
fn mode_syntax_and_reload_keys_ask_for_work() {
    let mut app = app_with_files(1);
    assert_eq!(
        app.handle_key(Key::Char('m'), false),
        Effect::Reload { then_status: Some("working tree vs HEAD".to_string()) }
    );
    assert_eq!(app.mode, DiffMode::WorkingTree);
    app.handle_key(Key::Char('m'), false);
    app.handle_key(Key::Char('m'), false);
    assert_eq!(
        app.handle_key(Key::Char('m'), false),
        Effect::Reload { then_status: Some("branch vs main".to_string()) }
    );
    app.scroll = 0;
    app.h_scroll = 8;
    assert_eq!(
        app.handle_key(Key::Char('s'), false),
        Effect::ReloadDiff { keep_scroll: Some((0, 8)), then_status: Some("syntax highlighting off".to_string()) }
    );
    assert!(!app.syntax);
    assert_eq!(
        app.handle_key(Key::Char('r'), false),
        Effect::Reload { then_status: Some("reloaded".to_string()) }
    );
    assert_eq!(app.handle_key(Key::Char('f'), false), Effect::Nothing);
    assert!(!app.show_files);
    assert_eq!(app.handle_key(Key::Other, false), Effect::Nothing);
}

#[test]
fn base_branch_cycles_through_local_branches() {
    let mut app = app_with_files(1);
    assert_eq!(
        app.handle_key(Key::Char('b'), false),
        Effect::Reload { then_status: Some("base: zeta".to_string()) }
    );
    assert_eq!(app.base, "zeta");
    assert_eq!(app.mode, DiffMode::BranchToBase { base: "zeta".to_string() });
    app.handle_key(Key::Char('b'), false);
    assert_eq!(app.base, "dev");

    let mut staged = App::new(DiffMode::Staged, "nope".to_string(), "b".to_string(), vec!["x".to_string(), "y".to_string()], Config::default());
    assert_eq!(staged.handle_key(Key::Char('b'), false), Effect::Nothing);
    assert_eq!(staged.base, "x");
    assert_eq!(staged.status.as_deref(), Some("base: x"));
    assert_eq!(staged.mode, DiffMode::Staged);

    let mut lonely = App::new(DiffMode::Staged, "main".to_string(), "b".to_string(), Vec::new(), Config::default());
    assert_eq!(lonely.handle_key(Key::Char('b'), false), Effect::Nothing);
    assert_eq!(lonely.status.as_deref(), Some("no local branches found"));
}

#[test]
fn loading_files_keeps_the_selection_on_a_file() {
    let mut app = app_with_files(5);
    app.selected = 4;
    app.apply_files(Ok(vec![entry("a", FileStatus::Added, false), entry("b", FileStatus::Added, false)]));
    assert_eq!(app.selected, 1);
    app.apply_files(Ok(Vec::new()));
    assert_eq!(app.selected, 0);
    app.apply_files(Err("boom".to_string()));
    assert!(app.files.is_empty());
    assert_eq!(app.status.as_deref(), Some("error: boom"));
}

#[test]
fn reloading_a_diff() {
    let mut app = app_with_files(2);
    app.scroll = 3;
    app.h_scroll = 2;
    let hl = Highlighter::new();
    let e = app.begin_reload_diff().unwrap();
    assert_eq!(e.path, "f0.rs");
    assert_eq!((app.scroll, app.h_scroll), (0, 0));
    app.finish_reload_diff(&hl, &e, Ok(("x\n".to_string(), "y\nz\n".to_string())));
    assert_eq!(app.diff.rows.len(), side_by_side("x\n", "y\nz\n").rows.len());
    assert_eq!(app.left_hl.len(), 1);
    assert_eq!(app.right_hl.len(), 2);
    app.finish_reload_diff(&hl, &e, Err("cannot read".to_string()));
    assert_eq!(app.status.as_deref(), Some("error: cannot read"));
    assert_eq!(app.right_hl.len(), 2);
    app.begin_reload_diff();
    assert!(app.left_hl.is_empty() && app.right_hl.is_empty());
    app.syntax = false;
    app.finish_reload_diff(&hl, &e, Ok(("a\n".to_string(), "b\n".to_string())));
    assert!(app.left_hl.is_empty() && app.right_hl.is_empty());

    app.apply_files(Ok(vec![entry("img.png", FileStatus::Modified, true)]));
    assert!(app.begin_reload_diff().is_none());
    assert_eq!(app.status.as_deref(), Some("binary file"));
    assert!(app.diff.rows.is_empty());

    app.apply_files(Ok(Vec::new()));
    assert!(app.begin_reload_diff().is_none());
}

#[test]
fn restored_scroll_is_clamped() {
    let mut app = app_with_files(1);
    load_diff(&mut app, "a\nb\n", "a\nb\n");
    app.after_reload(Some((10, 3)), Some("syntax highlighting on".to_string()));
    assert_eq!((app.scroll, app.h_scroll), (1, 3));
    assert_eq!(app.status.as_deref(), Some("syntax highlighting on"));
    app.after_reload(None, None);
    assert_eq!((app.scroll, app.h_scroll), (1, 3));
    app.scroll = 7;
    app.clamp_scroll();
    assert_eq!(app.scroll, 1);
}

#[test]
fn update_requests() {
    let mut app = app_with_files(1);
    app.handle_key(Key::Char('U'), false);
    assert!(app.trigger_update);
    app.after_key(false);
    assert!(!app.trigger_update && !app.quit);
    assert_eq!(app.status.as_deref(), Some("no update available"));
    app.handle_key(Key::Char('U'), false);
    app.after_key(true);
    assert!(app.quit);
    assert!(app.pending_update());
    let mut idle = app_with_files(1);
    idle.after_key(true);
    assert!(!idle.quit);
}

#[test]
fn starting_base_and_highlight_paths() {
    assert_eq!(initial_base(&DiffMode::BranchToBase { base: "main".to_string() }), Some("main".to_string()));
    assert_eq!(initial_base(&DiffMode::Unstaged), None);
    let renamed = entry("new/path.rs", FileStatus::Renamed { from: "old/path.rs".to_string() }, false);
    assert_eq!(highlight_paths(&renamed), ("old/path.rs".to_string(), "new/path.rs".to_string()));
    let plain = entry("a.rs", FileStatus::Modified, false);
    assert_eq!(highlight_paths(&plain), ("a.rs".to_string(), "a.rs".to_string()));
}

#[test]
fn mode_labels_and_markers() {
    assert_eq!(DiffMode::BranchToBase { base: "main".to_string() }.label(), "branch vs main");
    assert_eq!(DiffMode::Unstaged.next("dev"), DiffMode::BranchToBase { base: "dev".to_string() });
    assert_eq!(DiffMode::Staged.next("dev"), DiffMode::Unstaged);
    assert_eq!(FileStatus::Other('T').marker(), 'T');
    assert_eq!(FileStatus::Renamed { from: "x".to_string() }.marker(), 'R');
}
