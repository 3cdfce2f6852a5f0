use gispect::app::App;
use gispect::config::Config;
use gispect::pane::ranges_fit_check;
use gispect::panel::{list_rows, tree_rows, PanelRow};
use gispect::types::{DiffMode, FileEntry, FileStatus, LineCell};

fn entry(path: &str) -> FileEntry {
    FileEntry { path: path.to_string(), status: FileStatus::Modified, additions: 1, deletions: 0, binary: false }
}

fn sample() -> Vec<FileEntry> {
    vec![
        entry("src/app.rs"),
        entry("src/ui/draw.rs"),
        entry("src/ui/mod.rs"),
        entry("README.md"),
        entry("tests/a.rs"),
    ]
}

fn app_of(files: Vec<FileEntry>, filter: Option<&str>) -> App {
    let mut app = App::new(DiffMode::Staged, "main".to_string(), "dev".to_string(), Vec::new(), Config::default());
    app.files = files;
    app.ui.path_filter = filter.map(|f| f.to_string());
    app
}

fn parts(rows: &[PanelRow]) -> Vec<(Option<usize>, String, String)> {
    rows.iter().map(|r| (r.file_idx, r.guide.clone(), r.label.clone())).collect()
}

fn row(idx: Option<usize>, guide: &str, label: &str) -> (Option<usize>, String, String) {
    (idx, guide.to_string(), label.to_string())
}

#[test]
fn list_rows_show_every_file_by_full_path() {
    let rows = list_rows(&app_of(sample(), None));
    assert_eq!(
        parts(&rows),
        vec![
            row(Some(0), "", "src/app.rs"),
            row(Some(1), "", "src/ui/draw.rs"),
            row(Some(2), "", "src/ui/mod.rs"),
            row(Some(3), "", "README.md"),
            row(Some(4), "", "tests/a.rs"),
        ]
    );
}

#[test]
fn list_rows_keep_only_files_the_filter_matches() {
    let rows = list_rows(&app_of(sample(), Some("UI/")));
    assert_eq!(parts(&rows), vec![row(Some(1), "", "src/ui/draw.rs"), row(Some(2), "", "src/ui/mod.rs")]);
}

#[test]
fn tree_rows_draw_directories_with_guides() {
    let rows = tree_rows(&app_of(sample(), None));
    assert_eq!(
        parts(&rows),
        vec![
            row(None, "├── ", "src/"),
            row(Some(0), "│   ├── ", "app.rs"),
            row(None, "│   └── ", "ui/"),
            row(Some(1), "│       ├── ", "draw.rs"),
            row(Some(2), "│       └── ", "mod.rs"),
            row(Some(3), "├── ", "README.md"),
            row(None, "└── ", "tests/"),
            row(Some(4), "    └── ", "a.rs"),
        ]
    );
}

#[test]
fn tree_rows_under_a_filter() {
    let rows = tree_rows(&app_of(sample(), Some("ui")));
    assert_eq!(
        parts(&rows),
        vec![
            row(None, "└── ", "src/"),
            row(None, "    └── ", "ui/"),
            row(Some(1), "        ├── ", "draw.rs"),
            row(Some(2), "        └── ", "mod.rs"),
        ]
    );
}

#[test]
fn tree_rows_reopen_a_directory_that_was_left() {
    let files = vec![entry("a/x.rs"), entry("b.rs"), entry("a/y.rs")];
    let rows = tree_rows(&app_of(files, None));
    assert_eq!(
        parts(&rows),
        vec![
            row(None, "├── ", "a/"),
            row(Some(0), "│   └── ", "x.rs"),
            row(Some(1), "├── ", "b.rs"),
            row(None, "└── ", "a/"),
            row(Some(2), "    └── ", "y.rs"),
        ]
    );
}

#[test]
fn tree_rows_of_no_files_are_empty() {
    assert!(tree_rows(&app_of(Vec::new(), None)).is_empty());
    assert!(list_rows(&app_of(sample(), Some("zzz"))).is_empty());
}

#[test]
fn ranges_fit_only_when_sorted_and_apart() {
    let cell = |changed: Vec<(usize, usize)>| LineCell { line_no: 1, content: "hello".to_string(), changed };
    assert!(ranges_fit_check(&cell(vec![])));
    assert!(ranges_fit_check(&cell(vec![(0, 1), (2, 4)])));
    assert!(!ranges_fit_check(&cell(vec![(2, 4), (0, 1)])));
    assert!(!ranges_fit_check(&cell(vec![(3, 1)])));
    assert!(!ranges_fit_check(&cell(vec![(0, usize::MAX)])));
}

#[test]
fn rows_under_the_changed_text_filter() {
    let mut app = app_of(sample(), None);
    app.changed_lines = vec![
        vec!["fn run() {}".to_string()],
        vec![],
        vec!["let Run = 1;".to_string()],
        vec!["# title".to_string()],
        vec!["run()".to_string()],
    ];
    app.ui.content_filter = Some("run".to_string());
    assert_eq!(
        parts(&list_rows(&app)),
        vec![row(Some(0), "", "src/app.rs"), row(Some(2), "", "src/ui/mod.rs"), row(Some(4), "", "tests/a.rs")]
    );
    // Both filters at once: the path filter narrows further.
    app.ui.path_filter = Some("src".to_string());
    assert_eq!(
        parts(&tree_rows(&app)),
        vec![
            row(None, "└── ", "src/"),
            row(Some(0), "    ├── ", "app.rs"),
            row(None, "    └── ", "ui/"),
            row(Some(2), "        └── ", "mod.rs"),
        ]
    );
    // Without its changed lines read, no file passes the changed-text filter.
    app.changed_lines.clear();
    assert!(list_rows(&app).is_empty());
}
