use gispect::git::{
    base_candidate, branch_from, branches_from, changed_files_from, diff_args, name_status_args,
    new_source, numstat_args, old_source, settle_versions, show_arg, toplevel_from,
    unified_diff_args, version_plan, Source,
};
use gispect::types::{DiffMode, FileEntry, FileStatus};

fn branch(base: &str) -> DiffMode {
    DiffMode::BranchToBase { base: base.to_string() }
}

fn entry(path: &str, status: FileStatus, binary: bool) -> FileEntry {
    FileEntry { path: path.to_string(), status, additions: 1, deletions: 2, binary }
}

#[test]
fn diff_arguments_per_mode() {
    assert_eq!(diff_args(&branch("main")), vec!["main...HEAD".to_string()]);
    assert_eq!(diff_args(&DiffMode::WorkingTree), vec!["HEAD".to_string()]);
    assert_eq!(diff_args(&DiffMode::Staged), vec!["--cached".to_string()]);
    assert!(diff_args(&DiffMode::Unstaged).is_empty());
    assert_eq!(
        name_status_args(&DiffMode::Staged),
        vec!["diff", "--name-status", "-M", "--cached"]
    );
    assert_eq!(numstat_args(&DiffMode::Unstaged), vec!["diff", "--numstat", "-M"]);
    assert_eq!(
        unified_diff_args(&branch("dev"), Some("src/a.rs")),
        vec!["diff", "dev...HEAD", "--", "src/a.rs"]
    );
    assert_eq!(unified_diff_args(&DiffMode::WorkingTree, None), vec!["diff", "HEAD"]);
    assert_eq!(show_arg(":0", "a/b.rs"), ":0:a/b.rs");
}

#[test]
fn changed_files_join_status_and_counts() {
    let name_status = "M\tsrc/app.rs\nA\tnew.rs\nD\tgone.rs\nR087\told.rs\tmoved.rs\nT\tlink\n\n";
    let numstat = "3\t1\tsrc/app.rs\n10\t0\tnew.rs\n0\t4\tgone.rs\n-\t-\tmoved.rs\n";
    let files = changed_files_from(name_status, numstat);
    assert_eq!(files.len(), 5);
    assert_eq!(files[0].path, "src/app.rs");
    assert_eq!(files[0].status, FileStatus::Modified);
    assert_eq!((files[0].additions, files[0].deletions, files[0].binary), (3, 1, false));
    assert_eq!(files[1].status, FileStatus::Added);
    assert_eq!(files[1].additions, 10);
    assert_eq!(files[2].status, FileStatus::Deleted);
    assert_eq!(files[2].deletions, 4);
    assert_eq!(files[3].path, "moved.rs");
    assert_eq!(files[3].status, FileStatus::Renamed { from: "old.rs".to_string() });
    assert!(files[3].binary);
    assert_eq!((files[3].additions, files[3].deletions), (0, 0));
    assert_eq!(files[4].status, FileStatus::Other('T'));
    assert_eq!((files[4].additions, files[4].deletions, files[4].binary), (0, 0, false));
}

#[test]
fn changed_files_skip_malformed_lines() {
    let files = changed_files_from("M\n\tnothing\nR100\tonly-one\nM\tok.rs\n", "x\ty\tok.rs\n");
    assert_eq!(files.len(), 1);
    assert_eq!(files[0].path, "ok.rs");
    assert_eq!((files[0].additions, files[0].deletions), (0, 0));
    assert!(changed_files_from("", "").is_empty());
}

#[test]
fn sources_per_mode() {
    assert_eq!(
        old_source(&branch("main"), "a.rs"),
        Source::MergeBase { base: "main".to_string(), path: "a.rs".to_string() }
    );
    assert_eq!(
        old_source(&DiffMode::Unstaged, "a.rs"),
        Source::Show { revs: vec![":0".to_string(), ":".to_string()], path: "a.rs".to_string() }
    );
    assert_eq!(
        new_source(&DiffMode::Staged, "a.rs"),
        Source::Show { revs: vec![":0".to_string(), ":".to_string()], path: "a.rs".to_string() }
    );
    assert_eq!(new_source(&DiffMode::WorkingTree, "a.rs"), Source::WorkTree { path: "a.rs".to_string() });
    assert_eq!(
        new_source(&branch("main"), "a.rs"),
        Source::Show { revs: vec!["HEAD".to_string()], path: "a.rs".to_string() }
    );
}

#[test]
fn version_plans_follow_the_status() {
    let m = DiffMode::Staged;
    assert_eq!(version_plan(&m, &entry("x.png", FileStatus::Modified, true)), None);
    let (o, n) = version_plan(&m, &entry("new.rs", FileStatus::Added, false)).unwrap();
    assert_eq!(o, Source::Empty);
    assert_eq!(n, new_source(&m, "new.rs"));
    let (o, n) = version_plan(&m, &entry("gone.rs", FileStatus::Deleted, false)).unwrap();
    assert_eq!(o, old_source(&m, "gone.rs"));
    assert_eq!(n, Source::Empty);
    let renamed = entry("to.rs", FileStatus::Renamed { from: "from.rs".to_string() }, false);
    let (o, n) = version_plan(&m, &renamed).unwrap();
    assert_eq!(o, old_source(&m, "from.rs"));
    assert_eq!(n, new_source(&m, "to.rs"));
}

#[test]
fn unreadable_sides_are_empty_except_for_a_modified_file() {
    let m = DiffMode::WorkingTree;
    let modified = entry("a.rs", FileStatus::Modified, false);
    let err = settle_versions(&m, &modified, None, None).unwrap_err();
    assert_eq!(err.path, "a.rs");
    assert_eq!(err.mode, m);
    assert_eq!(
        settle_versions(&m, &modified, Some("old".to_string()), None).unwrap(),
        ("old".to_string(), String::new())
    );
    let added = entry("b.rs", FileStatus::Added, false);
    assert_eq!(
        settle_versions(&m, &added, None, None).unwrap(),
        (String::new(), String::new())
    );
}

#[test]
fn branch_names_from_command_output() {
    assert_eq!(branch_from(Some("feature/x\n")), "feature/x");
    assert_eq!(branch_from(Some("  \n")), "HEAD");
    assert_eq!(branch_from(None), "HEAD");
    assert_eq!(base_candidate(0), Some("main"));
    assert_eq!(base_candidate(1), Some("master"));
    assert_eq!(base_candidate(2), None);
    assert_eq!(
        branches_from("  zeta\nmain\n\n  alpha \nbeta\n"),
        vec!["alpha".to_string(), "beta".to_string(), "main".to_string(), "zeta".to_string()]
    );
    assert!(branches_from("\n \n").is_empty());
    assert_eq!(toplevel_from("/home/u/repo\n"), Some("/home/u/repo".to_string()));
    assert_eq!(toplevel_from("  \n"), None);
}
