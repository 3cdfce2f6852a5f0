use gispect::config::{Config, ConfigField, ModeKind};
use gispect::screen::{
    change_counts, footer, modal_row_text, panel_empty_message, panel_title, status_bar_text, update_banner, Footer,
};
use gispect::search::{FileSearch, RowMatch, SearchInput, SearchKind};
use gispect::types::DiffMode;

fn search(query: &str, n: usize, current: usize) -> FileSearch {
    FileSearch {
        query: query.to_string(),
        matches: (0..n).map(|row| RowMatch { row, in_left: true, in_right: false }).collect(),
        current,
    }
}

#[test]
fn status_bar_names_branch_mode_base_and_count() {
    let mode = DiffMode::BranchToBase { base: "main".to_string() };
    assert_eq!(
        status_bar_text("feature", &mode, "main", 12),
        " gispect | feature | mode: branch vs main | base: main | 12 files changed"
    );
    assert_eq!(update_banner("abc1234"), "  UPDATE AVAILABLE: abc1234 (press U)");
}

#[test]
fn footer_prefers_the_prompt_then_the_status_then_the_search() {
    let input = Some(SearchInput { kind: SearchKind::PathFilter, query: "src".to_string() });
    let status = Some("reloaded".to_string());
    let fs = Some(search("foo", 3, 1));
    assert_eq!(
        footer(&status, &input, &fs),
        Footer::Prompt {
            prefix: " filter: ".to_string(),
            query: "src".to_string(),
            hint: "  (Enter keep filter · Esc clear)".to_string()
        }
    );
    assert_eq!(footer(&status, &None, &fs), Footer::Status(" reloaded".to_string()));
    assert_eq!(
        footer(&None, &None, &fs),
        Footer::Search { query: " /foo".to_string(), detail: " — match 2/3  n/N next/prev · Esc clear".to_string() }
    );
    assert_eq!(
        footer(&None, &None, &Some(search("zz", 0, 0))),
        Footer::Search { query: " /zz".to_string(), detail: " — no matches  Esc clear".to_string() }
    );
    assert_eq!(
        footer(&None, &None, &None),
        Footer::Hints(" j/k files  J/K scroll  n/N change  / search  ? help  q quit".to_string())
    );
    let file_prompt = Some(SearchInput { kind: SearchKind::File, query: String::new() });
    assert_eq!(
        footer(&None, &file_prompt, &None),
        Footer::Prompt { prefix: " /".to_string(), query: String::new(), hint: "  (Enter search · Esc cancel)".to_string() }
    );
}

#[test]
fn panel_title_counts_shown_files_under_a_filter() {
    assert_eq!(panel_title(3, 10, true, true, false), "Files (3/10) [f] tree [t] auto [F]");
    assert_eq!(panel_title(10, 10, false, false, true), "Files (10) [f] list [t] wide [F]");
    assert_eq!(panel_empty_message(0), "(no changed files)");
    assert_eq!(panel_empty_message(4), "(no files match filter)");
    assert_eq!(change_counts(120, 0), ("+120".to_string(), "-0".to_string()));
}

#[test]
fn modal_rows_pad_the_label_to_twenty_columns() {
    let c = Config { default_mode: ModeKind::Staged, compact: true, ..Config::default() };
    assert_eq!(modal_row_text(ConfigField::DefaultMode, &c), " default mode         staged ");
    assert_eq!(modal_row_text(ConfigField::Compact, &c), " compact view         on ");
    assert_eq!(modal_row_text(ConfigField::Syntax, &c), " syntax highlighting  on ");
}
