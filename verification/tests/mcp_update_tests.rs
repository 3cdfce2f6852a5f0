use gispect::mcp::{
    parse_mode_arg, protocol_version, route, summarize, tool_route, ModeArg, Route, RpcError, Tool,
};
use gispect::types::{DiffMode, FileEntry, FileStatus};
use gispect::update::{remote_head_from, short, up_to_date_message, update_available, updating_message};

#[test]
fn requests_are_routed_by_method() {
    assert_eq!(route(Some("initialize"), true), Some(Route::Initialize));
    assert_eq!(route(Some("ping"), true), Some(Route::Ping));
    assert_eq!(route(Some("tools/list"), true), Some(Route::ToolsList));
    assert_eq!(route(Some("tools/call"), true), Some(Route::ToolsCall));
    assert_eq!(
        route(Some("bogus"), true),
        Some(Route::NotFound(RpcError { code: -32601, message: "method not found: bogus".to_string() }))
    );
    assert_eq!(
        route(None, true),
        Some(Route::NotFound(RpcError { code: -32601, message: "method not found: ".to_string() }))
    );
}

#[test]
fn notifications_get_no_answer() {
    assert_eq!(route(Some("initialize"), false), None);
    assert_eq!(route(Some("notifications/initialized"), false), None);
    assert_eq!(route(None, false), None);
}

#[test]
fn protocol_version_echoes_the_client() {
    assert_eq!(protocol_version(Some("2025-03-26")), "2025-03-26");
    assert_eq!(protocol_version(None), "2024-11-05");
}

#[test]
fn tools_are_chosen_by_name() {
    assert_eq!(tool_route(Some("list_changed_files")), Ok(Tool::ListChangedFiles));
    assert_eq!(tool_route(Some("get_file_diff")), Ok(Tool::GetFileDiff));
    assert_eq!(tool_route(Some("diff_summary")), Ok(Tool::DiffSummary));
    assert_eq!(
        tool_route(Some("rm_rf")),
        Err(RpcError { code: -32602, message: "unknown tool: rm_rf".to_string() })
    );
    assert_eq!(
        tool_route(None),
        Err(RpcError { code: -32602, message: "missing required param: name".to_string() })
    );
}

#[test]
fn mode_arguments() {
    assert_eq!(parse_mode_arg(None, None), ModeArg::Mode(DiffMode::WorkingTree));
    assert_eq!(parse_mode_arg(Some("staged"), Some("x")), ModeArg::Mode(DiffMode::Staged));
    assert_eq!(parse_mode_arg(Some("unstaged"), None), ModeArg::Mode(DiffMode::Unstaged));
    assert_eq!(
        parse_mode_arg(Some("branch"), Some("dev")),
        ModeArg::Mode(DiffMode::BranchToBase { base: "dev".to_string() })
    );
    assert_eq!(parse_mode_arg(Some("branch"), None), ModeArg::BranchDefaultBase);
    assert_eq!(parse_mode_arg(Some("Working"), None), ModeArg::Invalid("Working".to_string()));
}

fn entry(path: &str, status: FileStatus, additions: usize, deletions: usize) -> FileEntry {
    FileEntry { path: path.to_string(), status, additions, deletions, binary: false }
}

#[test]
fn summary_totals_and_counts_per_status() {
    let entries = vec![
        entry("a", FileStatus::Modified, 3, 1),
        entry("b", FileStatus::Added, 10, 0),
        entry("c", FileStatus::Modified, 2, 2),
        entry("d", FileStatus::Renamed { from: "e".to_string() }, 0, 0),
        entry("f", FileStatus::Deleted, 0, 7),
    ];
    let s = summarize(&entries);
    assert_eq!(s.file_count, 5);
    assert_eq!(s.additions, 15);
    assert_eq!(s.deletions, 10);
    assert_eq!(s.by_status, vec![('A', 1), ('D', 1), ('M', 2), ('R', 1)]);
    let empty = summarize(&[]);
    assert_eq!((empty.file_count, empty.additions, empty.deletions), (0, 0, 0));
    assert!(empty.by_status.is_empty());
}

#[test]
fn remote_head_is_the_first_word() {
    assert_eq!(
        remote_head_from("0123456789abcdef\tHEAD\n"),
        Some("0123456789abcdef".to_string())
    );
    assert_eq!(remote_head_from("  \n abc def"), Some("abc".to_string()));
    assert_eq!(remote_head_from(" \n\t "), None);
    assert_eq!(remote_head_from(""), None);
}

#[test]
fn update_decision() {
    assert_eq!(update_available("abc", "abc".to_string()), None);
    assert_eq!(update_available("abc", "def".to_string()), Some("def".to_string()));
    assert_eq!(update_available("unknown", "unknown".to_string()), Some("unknown".to_string()));
}

#[test]
fn short_hashes_and_messages() {
    assert_eq!(short("0123456789abcdef"), "0123456");
    assert_eq!(short("abc"), "abc");
    assert_eq!(up_to_date_message("0123456"), "already up to date (0123456)");
    assert_eq!(updating_message("0123456", "89abcde"), "updating 0123456 -> 89abcde");
}

#[test]
fn status_counts_add_up_to_the_file_count() {
    let statuses = [
        FileStatus::Other('T'),
        FileStatus::Added,
        FileStatus::Modified,
        FileStatus::Other('C'),
        FileStatus::Added,
        FileStatus::Deleted,
        FileStatus::Modified,
        FileStatus::Modified,
    ];
    let entries: Vec<FileEntry> = statuses
        .iter()
        .enumerate()
        .map(|(i, s)| FileEntry { path: format!("f{i}"), status: s.clone(), additions: i, deletions: 1, binary: false })
        .collect();
    let s = summarize(&entries);
    assert_eq!(s.by_status.iter().map(|(_, n)| n).sum::<usize>(), s.file_count);
    assert_eq!(s.by_status, vec![('A', 2), ('C', 1), ('D', 1), ('M', 3), ('T', 1)]);
}
