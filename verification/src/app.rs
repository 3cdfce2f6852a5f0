//! The state of the terminal application and its reaction to keys: every
//! decision of the event loop, from state and key to next state and the
//! work (reloading files or the current diff) the caller must do.

use vstd::prelude::*;
use vstd::string::*;

use ratatui::style::Style;

use crate::config::{Config, ConfigModal};
use crate::diff::{side_by_side, side_by_side_spec};
use crate::git::entries_view;
use crate::highlight::{highlight_result, Highlighter};
use crate::project::{project_matches, project_spec, project_view, texts_view, MatchSpec, ProjectSearch};
use crate::search::{changed_lines_spec, copy_strings, parse_changed_lines, FileSearch, RowMatch, SearchInput, SearchKind};
use crate::text::{str_eq, strs_view};
use crate::types::{
    mode_label, mode_next, DiffMode, DiffRow, EntrySpec, FileEntry, ModeSpec, RowKind, RowSpec,
    SideBySideDiff, StatusSpec,
};

verus! {

/// Work the caller must do after a key: reload the file list and then the
/// diff, or only the diff of the selected file, and afterwards restore the
/// given scroll positions and set the given status message; save the
/// startup defaults; or read the changed lines of every file.
#[derive(Debug, Clone, PartialEq, Eq)]
pub enum Effect {
    Nothing,
    ReloadDiff { keep_scroll: Option<(usize, usize)>, then_status: Option<String> },
    Reload { then_status: Option<String> },
    /// Store these startup defaults.
    SaveConfig(Config),
    /// Read the changed lines of every file, for the changed-text filter.
    LoadChangedLines,
    /// Read both versions of every file and search them for `query`.
    SearchProject { query: String },
    /// Show the selected file's diff, search it for `query` and jump to
    /// line `line_no` of its old (or new) side.
    OpenMatch { query: String, line_no: usize, in_old: bool },
}

/// Mathematical model of an [`Effect`].
pub enum EffectSpec {
    Nothing,
    ReloadDiff(Option<(usize, usize)>, Option<Seq<char>>),
    Reload(Option<Seq<char>>),
    SaveConfig(Config),
    LoadChangedLines,
    SearchProject(Seq<char>),
    OpenMatch(Seq<char>, usize, bool),
}

pub open spec fn opt_str(o: Option<String>) -> Option<Seq<char>> {
    match o {
        Some(s) => Some(s@),
        None => None,
    }
}

/// The model of a search prompt: its kind and what was typed.
pub open spec fn input_view(s: Option<SearchInput>) -> Option<(SearchKind, Seq<char>)> {
    match s {
        Some(i) => Some((i.kind, i.query@)),
        None => None,
    }
}

/// The model of a committed search: query, matches and cursor.
pub open spec fn search_view(s: Option<FileSearch>) -> Option<(Seq<char>, Seq<RowMatch>, usize)> {
    match s {
        Some(f) => Some((f.query@, f.matches@, f.current)),
        None => None,
    }
}

/// The model of the config editor: selected row and draft.
pub open spec fn modal_view(m: Option<ConfigModal>) -> Option<(usize, Config)> {
    match m {
        Some(m) => Some((m.selected, m.draft)),
        None => None,
    }
}

impl View for Effect {
    type V = EffectSpec;

    open spec fn view(&self) -> EffectSpec {
        match self {
            Effect::Nothing => EffectSpec::Nothing,
            Effect::ReloadDiff { keep_scroll, then_status } => EffectSpec::ReloadDiff(*keep_scroll, opt_str(*then_status)),
            Effect::Reload { then_status } => EffectSpec::Reload(opt_str(*then_status)),
            Effect::SaveConfig(c) => EffectSpec::SaveConfig(*c),
            Effect::LoadChangedLines => EffectSpec::LoadChangedLines,
            Effect::SearchProject { query } => EffectSpec::SearchProject(query@),
            Effect::OpenMatch { query, line_no, in_old } => EffectSpec::OpenMatch(query@, *line_no, *in_old),
        }
    }
}

/// The file panel's layout, the searches and the config editor.
pub struct Ui {
    /// Whether the file panel shows a directory tree (else a flat list).
    pub tree_view: bool,
    /// Whether the file panel widens to fit its rows.
    pub wide_files: bool,
    /// Whether the old (left) pane is shown.
    pub show_old: bool,
    /// Whether the new (right) pane is shown.
    pub show_new: bool,
    /// The search prompt being typed into, if any.
    pub search_input: Option<SearchInput>,
    /// The committed search in the current file, with its match cursor.
    pub file_search: Option<FileSearch>,
    /// The file-panel name filter, if any.
    pub path_filter: Option<String>,
    /// The file-panel filter on changed text, if any.
    pub content_filter: Option<String>,
    /// The startup defaults in effect.
    pub config: Config,
    /// The open config editor, if any.
    pub config_modal: Option<ConfigModal>,
    /// The open results popup of a project-wide search, if any.
    pub project: Option<ProjectSearch>,
}

/// Mathematical model of a [`Ui`].
pub struct UiView {
    pub tree_view: bool,
    pub wide_files: bool,
    pub show_old: bool,
    pub show_new: bool,
    pub search_input: Option<(SearchKind, Seq<char>)>,
    pub file_search: Option<(Seq<char>, Seq<RowMatch>, usize)>,
    pub path_filter: Option<Seq<char>>,
    pub content_filter: Option<Seq<char>>,
    pub config: Config,
    pub config_modal: Option<(usize, Config)>,
    pub project: Option<(Seq<char>, Seq<MatchSpec>, usize)>,
}

impl View for Ui {
    type V = UiView;

    open spec fn view(&self) -> UiView {
        UiView {
            tree_view: self.tree_view,
            wide_files: self.wide_files,
            show_old: self.show_old,
            show_new: self.show_new,
            search_input: input_view(self.search_input),
            file_search: search_view(self.file_search),
            path_filter: opt_str(self.path_filter),
            content_filter: opt_str(self.content_filter),
            config: self.config,
            config_modal: modal_view(self.config_modal),
            project: project_view(self.project),
        }
    }
}

/// All state needed to render and drive the user interface, apart from
/// the repository handle, the highlighter and the background update check.
pub struct App {
    pub mode: DiffMode,
    pub base: String,
    pub branch: String,
    pub files: Vec<FileEntry>,
    pub selected: usize,
    pub diff: SideBySideDiff,
    pub scroll: usize,
    pub h_scroll: usize,
    pub show_help: bool,
    /// Compact view: hide alignment filler rows so each pane shows its
    /// version of the file contiguously.
    pub compact: bool,
    /// Whether the changed-files panel is visible.
    pub show_files: bool,
    pub status: Option<String>,
    /// Panel layout, searches and the config editor.
    pub ui: Ui,
    pub base_choices: Vec<String>,
    pub quit: bool,
    pub last_viewport_height: usize,
    /// Whether syntax highlighting is enabled for the diff panes.
    pub syntax: bool,
    /// Highlighted segments of the old side's lines (index 0 = line 1).
    pub left_hl: Vec<Vec<(Style, String)>>,
    /// Highlighted segments of the new side's lines (index 0 = line 1).
    pub right_hl: Vec<Vec<(Style, String)>>,
    /// The added and removed lines of each file (index as in `files`),
    /// read for the changed-text filter.
    pub changed_lines: Vec<Vec<String>>,
    pub trigger_update: bool,
    pub awaiting_update_exit: bool,
}

/// Mathematical model of an [`App`] (without the highlighted lines).
pub struct AppView {
    pub mode: ModeSpec,
    pub base: Seq<char>,
    pub branch: Seq<char>,
    pub files: Seq<EntrySpec>,
    pub selected: usize,
    pub diff: Seq<RowSpec>,
    pub scroll: usize,
    pub h_scroll: usize,
    pub show_help: bool,
    pub compact: bool,
    pub show_files: bool,
    pub status: Option<Seq<char>>,
    pub ui: UiView,
    pub base_choices: Seq<Seq<char>>,
    pub quit: bool,
    pub last_viewport_height: usize,
    pub syntax: bool,
    pub changed_lines: Seq<Seq<Seq<char>>>,
    pub trigger_update: bool,
    pub awaiting_update_exit: bool,
}

impl View for App {
    type V = AppView;

    open spec fn view(&self) -> AppView {
        AppView {
            mode: self.mode@,
            base: self.base@,
            branch: self.branch@,
            files: entries_view(self.files@),
            selected: self.selected,
            diff: self.diff@,
            scroll: self.scroll,
            h_scroll: self.h_scroll,
            show_help: self.show_help,
            compact: self.compact,
            show_files: self.show_files,
            status: opt_str(self.status),
            ui: self.ui@,
            base_choices: strs_view(self.base_choices@),
            quit: self.quit,
            last_viewport_height: self.last_viewport_height,
            syntax: self.syntax,
            changed_lines: lines_view(self.changed_lines@),
            trigger_update: self.trigger_update,
            awaiting_update_exit: self.awaiting_update_exit,
        }
    }
}

/// The model of the changed lines of each file.
pub open spec fn lines_view(v: Seq<Vec<String>>) -> Seq<Seq<Seq<char>>> {
    v.map_values(|l: Vec<String>| strs_view(l@))
}

/// Number of rows with a left (respectively right) cell among the first `n`.
pub open spec fn side_count(rows: Seq<RowSpec>, left: bool, n: int) -> int
    decreases n,
{
    if n <= 0 {
        0
    } else {
        side_count(rows, left, n - 1) + if (if left {
            rows[n - 1].left is Some
        } else {
            rows[n - 1].right is Some
        }) {
            1int
        } else {
            0
        }
    }
}

/// Number of scrollable rows: the aligned rows, or in compact mode the
/// longer of the two compacted panes.
pub open spec fn row_count_spec(v: AppView) -> int {
    if v.compact {
        let l = side_count(v.diff, true, v.diff.len() as int);
        let r = side_count(v.diff, false, v.diff.len() as int);
        if l >= r {
            l
        } else {
            r
        }
    } else {
        v.diff.len() as int
    }
}

/// The last row the view may scroll to.
pub open spec fn max_scroll(v: AppView) -> int {
    if row_count_spec(v) >= 1 {
        row_count_spec(v) - 1
    } else {
        0
    }
}

/// The view with its scroll clamped to the last row.
pub open spec fn clamp_spec(v: AppView) -> AppView {
    if v.scroll > max_scroll(v) {
        AppView { scroll: max_scroll(v) as usize, ..v }
    } else {
        v
    }
}

/// Half a viewport, at least one row.
pub open spec fn half_page(v: AppView) -> usize {
    if v.last_viewport_height / 2 >= 1 {
        (v.last_viewport_height / 2) as usize
    } else {
        1
    }
}

pub open spec fn sat_add(a: usize, b: usize) -> usize {
    if a + b > usize::MAX {
        usize::MAX
    } else {
        (a + b) as usize
    }
}

pub open spec fn sat_sub(a: usize, b: usize) -> usize {
    if a >= b {
        (a - b) as usize
    } else {
        0
    }
}

/// The base branch an application starts with when its mode names one.
pub fn initial_base(mode: &DiffMode) -> (r: Option<String>)
    ensures
        match mode@ {
            ModeSpec::BranchToBase(b) => r matches Some(s) && s@ == b,
            _ => r is None,
        },
{
    match mode {
        DiffMode::BranchToBase { base } => Some(base.clone()),
        _ => None,
    }
}

/// The path a file's old side has: a renamed file's old path.
pub open spec fn old_path_spec(e: EntrySpec) -> Seq<char> {
    match e.status {
        StatusSpec::Renamed(from) => from,
        _ => e.path,
    }
}

/// The paths a file's two sides are highlighted as: a renamed file's old
/// side under its old path.
pub fn highlight_paths(entry: &FileEntry) -> (r: (String, String))
    ensures
        r.0@ == match entry.status@ {
            StatusSpec::Renamed(from) => from,
            _ => entry.path@,
        },
        r.1@ == entry.path@,
{
    let old_path = match &entry.status {
        crate::types::FileStatus::Renamed { from } => from.clone(),
        _ => entry.path.clone(),
    };
    (old_path, entry.path.clone())
}

impl App {
    /// A fresh application comparing `mode`, with nothing loaded yet and
    /// the view settings of the startup defaults `config`.
    pub fn new(mode: DiffMode, base: String, branch: String, base_choices: Vec<String>, config: Config) -> (r: App)
        ensures
            r@ == (AppView {
                mode: mode@,
                base: base@,
                branch: branch@,
                files: Seq::empty(),
                selected: 0,
                diff: Seq::empty(),
                scroll: 0,
                h_scroll: 0,
                show_help: false,
                compact: config.compact,
                show_files: config.show_files,
                status: None,
                ui: UiView {
                    tree_view: config.tree_view,
                    wide_files: config.wide_files,
                    show_old: config.show_old,
                    show_new: config.show_new,
                    search_input: None,
                    file_search: None,
                    path_filter: None,
                    content_filter: None,
                    config,
                    config_modal: None,
                    project: None,
                },
                base_choices: strs_view(base_choices@),
                quit: false,
                last_viewport_height: 20,
                syntax: config.syntax,
                changed_lines: Seq::empty(),
                trigger_update: false,
                awaiting_update_exit: false,
            }),
    {
        let r = App {
            mode,
            base,
            branch,
            files: Vec::new(),
            selected: 0,
            diff: SideBySideDiff { rows: Vec::new() },
            scroll: 0,
            h_scroll: 0,
            show_help: false,
            compact: config.compact,
            show_files: config.show_files,
            status: None,
            ui: Ui {
                tree_view: config.tree_view,
                wide_files: config.wide_files,
                show_old: config.show_old,
                show_new: config.show_new,
                search_input: None,
                file_search: None,
                path_filter: None,
                content_filter: None,
                config,
                config_modal: None,
                project: None,
            },
            base_choices,
            quit: false,
            last_viewport_height: 20,
            syntax: config.syntax,
            left_hl: Vec::new(),
            right_hl: Vec::new(),
            changed_lines: Vec::new(),
            trigger_update: false,
            awaiting_update_exit: false,
        };
        assert(r@.files =~= Seq::<EntrySpec>::empty());
        assert(r@.diff =~= Seq::<RowSpec>::empty());
        assert(r@.changed_lines =~= Seq::<Seq<Seq<char>>>::empty());
        r
    }

    /// Whether the app is exiting specifically to perform a self-update.
    pub fn pending_update(&self) -> (r: bool)
        ensures
            r == self.awaiting_update_exit,
    {
        self.awaiting_update_exit
    }

    /// Number of scrollable rows in the diff view: aligned rows normally,
    /// the longer of the two compacted panes in compact mode.
    pub fn row_count(&self) -> (r: usize)
        ensures
            r == row_count_spec(self@),
    {
        if self.compact {
            let mut left: usize = 0;
            let mut right: usize = 0;
            let mut i: usize = 0;
            while i < self.diff.rows.len()
                invariant
                    i <= self.diff.rows@.len(),
                    left == side_count(self.diff@, true, i as int),
                    right == side_count(self.diff@, false, i as int),
                    left <= i,
                    right <= i,
                decreases self.diff.rows@.len() - i,
            {
                assert(self.diff@[i as int] == self.diff.rows@[i as int]@);
                if self.diff.rows[i].left.is_some() {
                    left = left + 1;
                }
                if self.diff.rows[i].right.is_some() {
                    right = right + 1;
                }
                i = i + 1;
            }
            if left >= right {
                left
            } else {
                right
            }
        } else {
            self.diff.rows.len()
        }
    }

    /// Clamp the scroll position to the last row.
    pub fn clamp_scroll(&mut self)
        ensures
            final(self).left_hl == old(self).left_hl,
            final(self).right_hl == old(self).right_hl,
            final(self)@ == clamp_spec(old(self)@),
    {
        let max = self.row_count().saturating_sub(1);
        if self.scroll > max {
            self.scroll = max;
        }
    }

    /// Show `msg` in the status line.
    pub fn set_status(&mut self, msg: &str)
        ensures
            final(self)@ == (AppView { status: Some(msg@), ..old(self)@ }),
            final(self).left_hl == old(self).left_hl,
            final(self).right_hl == old(self).right_hl,
    {
        self.status = Some(msg.to_owned());
    }
}

// ---------------------------------------------------------------------
// Loading files and diffs
// ---------------------------------------------------------------------

/// Taking a freshly read file list: the selection moves to the last file
/// when it is past the end; a failed read empties the list and shows the
/// error. The changed lines of the old list are dropped either way.
pub open spec fn apply_files_spec(v: AppView, res: Result<Seq<EntrySpec>, Seq<char>>) -> AppView {
    match res {
        Ok(files) => AppView {
            files,
            selected: if v.selected >= files.len() {
                sat_sub(files.len() as usize, 1)
            } else {
                v.selected
            },
            changed_lines: Seq::empty(),
            ..v
        },
        Err(e) => AppView { files: Seq::empty(), status: Some("error: "@ + e), changed_lines: Seq::empty(), ..v },
    }
}

/// Starting to reload the diff: the diff, both scroll positions and the
/// in-file search reset; the selected file's versions are wanted unless
/// there is no selected file or it is binary (which the status line says).
pub open spec fn begin_reload_spec(v: AppView) -> (AppView, Option<EntrySpec>) {
    let v1 = AppView { diff: Seq::empty(), scroll: 0, h_scroll: 0, ui: UiView { file_search: None, ..v.ui }, ..v };
    if v.selected >= v.files.len() {
        (v1, None)
    } else if v.files[v.selected as int].binary {
        (AppView { status: Some("binary file"@), ..v1 }, None)
    } else {
        (v1, Some(v.files[v.selected as int]))
    }
}

/// Finishing a diff reload: the side-by-side diff of the two versions, or
/// the read error in the status line.
pub open spec fn finish_reload_spec(v: AppView, res: Result<(Seq<char>, Seq<char>), Seq<char>>) -> AppView {
    match res {
        Ok((o, n)) => AppView { diff: side_by_side_spec(o, n), ..v },
        Err(e) => AppView { status: Some("error: "@ + e), ..v },
    }
}

/// After a reload: scroll positions restored (and clamped) when kept, and
/// the status message set when given.
pub open spec fn after_reload_spec(v: AppView, keep: Option<(usize, usize)>, status: Option<Seq<char>>) -> AppView {
    let v1 = match keep {
        Some((s, h)) => clamp_spec(AppView { scroll: s, h_scroll: h, ..v }),
        None => v,
    };
    match status {
        Some(st) => AppView { status: Some(st), ..v1 },
        None => v1,
    }
}

/// After each key: a requested update quits the app for updating when an
/// update is available, and otherwise says that there is none.
pub open spec fn after_key_spec(v: AppView, update_available: bool) -> AppView {
    if v.trigger_update {
        if update_available {
            AppView { trigger_update: false, awaiting_update_exit: true, quit: true, ..v }
        } else {
            AppView { trigger_update: false, status: Some("no update available"@), ..v }
        }
    } else {
        v
    }
}

impl App {
    /// Take the result of reading the changed-file list (the error as its
    /// message).
    pub fn apply_files(&mut self, result: Result<Vec<FileEntry>, String>)
        ensures
            final(self)@ == apply_files_spec(
                old(self)@,
                match result {
                    Ok(f) => Ok(entries_view(f@)),
                    Err(e) => Err(e@),
                },
            ),
    {
        self.changed_lines = Vec::new();
        assert(lines_view(self.changed_lines@) =~= Seq::<Seq<Seq<char>>>::empty());
        match result {
            Ok(files) => {
                self.files = files;
                if self.selected >= self.files.len() {
                    self.selected = self.files.len().saturating_sub(1);
                }
            },
            Err(e) => {
                self.files = Vec::new();
                self.status = Some(String::from_str("error: ").concat(e.as_str()));
                assert(entries_view(self.files@) =~= Seq::<EntrySpec>::empty());
            },
        }
    }

    /// Reset the diff view; returns the file whose versions must be read,
    /// if any.
    #[verifier::rlimit(80)]
    #[verifier::spinoff_prover]
    pub fn begin_reload_diff(&mut self) -> (r: Option<FileEntry>)
        ensures
            (final(self)@, match r {
                Some(e) => Some(e@),
                None => None,
            }) == begin_reload_spec(old(self)@),
            final(self).left_hl@.len() == 0,
            final(self).right_hl@.len() == 0,
    {
        self.left_hl = Vec::new();
        self.right_hl = Vec::new();
        self.ui.file_search = None;
        self.diff = SideBySideDiff { rows: Vec::new() };
        self.scroll = 0;
        self.h_scroll = 0;
        assert(self.diff@ =~= Seq::<RowSpec>::empty());
        if self.selected >= self.files.len() {
            return None;
        }
        assert(self@.files[self.selected as int] == self.files@[self.selected as int]@);
        let entry = self.files[self.selected].duplicate();
        if entry.binary {
            self.set_status("binary file");
            return None;
        }
        Some(entry)
    }

    /// Take the result of reading the old and new versions of `entry` (the
    /// error as its message); with syntax highlighting on, both versions
    /// are highlighted, the old one under its old path.
    pub fn finish_reload_diff(&mut self, highlighter: &Highlighter, entry: &FileEntry, result: Result<(String, String), String>)
        ensures
            final(self)@ == finish_reload_spec(
                old(self)@,
                match result {
                    Ok((o, n)) => Ok((o@, n@)),
                    Err(e) => Err(e@),
                },
            ),
            match result {
                Ok((o, n)) => if old(self).syntax {
                    &&& highlight_result(*highlighter, old_path_spec(entry@), o@, final(self).left_hl@)
                    &&& highlight_result(*highlighter, entry.path@, n@, final(self).right_hl@)
                } else {
                    final(self).left_hl == old(self).left_hl && final(self).right_hl == old(self).right_hl
                },
                Err(_) => final(self).left_hl == old(self).left_hl && final(self).right_hl == old(self).right_hl,
            },
    {
        match result {
            Ok((old, new)) => {
                self.diff = side_by_side(old.as_str(), new.as_str());
                if self.syntax {
                    let (old_path, new_path) = highlight_paths(entry);
                    self.left_hl = highlighter.highlight(old_path.as_str(), old.as_str());
                    self.right_hl = highlighter.highlight(new_path.as_str(), new.as_str());
                }
            },
            Err(e) => {
                self.status = Some(String::from_str("error: ").concat(e.as_str()));
            },
        }
    }

    /// Finish the work of a key: restore kept scroll positions and set the
    /// status message.
    #[verifier::rlimit(80)]
    #[verifier::spinoff_prover]
    pub fn after_reload(&mut self, keep_scroll: Option<(usize, usize)>, then_status: Option<String>)
        ensures
            final(self)@ == after_reload_spec(old(self)@, keep_scroll, opt_str(then_status)),
    {
        match keep_scroll {
            Some((s, h)) => {
                self.scroll = s;
                self.h_scroll = h;
                self.clamp_scroll();
            },
            None => {},
        }
        match then_status {
            Some(st) => self.status = Some(st),
            None => {},
        }
    }

    /// Act on an update request after a key, given whether the background
    /// check found an update.
    #[verifier::spinoff_prover]
    pub fn after_key(&mut self, update_available: bool)
        ensures
            final(self)@ == after_key_spec(old(self)@, update_available),
    {
        if self.trigger_update {
            self.trigger_update = false;
            if update_available {
                self.awaiting_update_exit = true;
                self.quit = true;
            } else {
                self.set_status("no update available");
            }
        }
    }
}

// ---------------------------------------------------------------------
// Changed lines for the changed-text filter
// ---------------------------------------------------------------------

/// The changed lines a map gives a path: none when it has none.
pub open spec fn lines_for(m: Map<Seq<char>, Seq<Seq<char>>>, path: Seq<char>) -> Seq<Seq<char>> {
    if m.contains_key(path) {
        m[path]
    } else {
        Seq::empty()
    }
}

/// Taking the unified diff of all files: each file gets its added and
/// removed lines; a failed read shows the error and leaves no lines.
pub open spec fn set_lines_spec(v: AppView, res: Result<Seq<char>, Seq<char>>) -> AppView {
    match res {
        Ok(d) => AppView {
            changed_lines: Seq::new(v.files.len(), |i: int| lines_for(changed_lines_spec(d), v.files[i].path)),
            ..v
        },
        Err(e) => AppView { changed_lines: Seq::empty(), status: Some("error: "@ + e), ..v },
    }
}

/// Whether the changed lines are wanted: a changed-text filter is set or
/// being typed.
pub open spec fn wants_lines(v: AppView) -> bool {
    v.ui.content_filter is Some || match v.ui.search_input {
        Some((k, _)) => k == SearchKind::Content,
        None => false,
    }
}

impl App {
    /// Take the result of reading the unified diff of all files (the error
    /// as its message).
    pub fn set_changed_lines(&mut self, result: Result<String, String>)
        ensures
            final(self)@ == set_lines_spec(
                old(self)@,
                match result {
                    Ok(d) => Ok(d@),
                    Err(e) => Err(e@),
                },
            ),
    {
        match result {
            Ok(diff) => {
                let map = parse_changed_lines(diff.as_str());
                let ghost m = changed_lines_spec(diff@);
                let mut lines: Vec<Vec<String>> = Vec::new();
                let mut i: usize = 0;
                while i < self.files.len()
                    invariant
                        i <= self.files@.len(),
                        map.wf(),
                        map@ == m,
                        lines_view(lines@) == Seq::new(i as nat, |k: int| lines_for(m, self@.files[k].path)),
                    decreases self.files@.len() - i,
                {
                    assert(self@.files[i as int] == self.files@[i as int]@);
                    let l = match map.get(self.files[i].path.as_str()) {
                        Some(found) => copy_strings(found),
                        None => Vec::new(),
                    };
                    assert(strs_view(l@) == lines_for(m, self@.files[i as int].path)) by {
                        if !m.contains_key(self@.files[i as int].path) {
                            assert(strs_view(l@) =~= Seq::<Seq<char>>::empty());
                        }
                    }
                    let ghost before = lines@;
                    let ghost lv = strs_view(l@);
                    lines.push(l);
                    assert(lines_view(lines@) =~= lines_view(before).push(lv));
                    assert(lines_view(lines@) =~= Seq::new((i + 1) as nat, |k: int| lines_for(m, self@.files[k].path)));
                    i = i + 1;
                }
                self.changed_lines = lines;
            },
            Err(e) => {
                self.changed_lines = Vec::new();
                assert(lines_view(self.changed_lines@) =~= Seq::<Seq<Seq<char>>>::empty());
                self.status = Some(String::from_str("error: ").concat(e.as_str()));
            },
        }
    }

    /// Whether the changed lines should be read (see [`wants_lines`]).
    pub fn needs_changed_lines(&self) -> (r: bool)
        ensures
            r == wants_lines(self@),
    {
        self.ui.content_filter.is_some() || match &self.ui.search_input {
            Some(i) => i.kind == SearchKind::Content,
            None => false,
        }
    }
}

// ---------------------------------------------------------------------
// Project-wide search
// ---------------------------------------------------------------------

/// Taking both versions of every file (`texts[i]` for file `i`): the
/// results popup opens on the matches of `q`, the first one selected.
pub open spec fn show_project_spec(v: AppView, q: Seq<char>, texts: Seq<(Seq<char>, Seq<char>)>) -> AppView {
    AppView {
        ui: UiView { project: Some((q, project_spec(v.files, texts, q, v.files.len() as int), 0usize)), ..v.ui },
        ..v
    }
}

impl App {
    /// Open the results popup on the matches of `query` in `texts`, both
    /// versions of each file (empty where a file could not be read).
    pub fn show_project(&mut self, query: String, texts: Vec<(String, String)>)
        ensures
            final(self)@ == show_project_spec(old(self)@, query@, texts_view(texts@)),
            final(self).left_hl == old(self).left_hl,
            final(self).right_hl == old(self).right_hl,
    {
        let matches = project_matches(&self.files, &texts, query.as_str());
        self.ui.project = Some(ProjectSearch { query, matches, selected: 0 });
    }
}

// ---------------------------------------------------------------------
// Laws
// ---------------------------------------------------------------------

/// The scroll position is on a row (or 0 when there are none).
pub open spec fn scroll_ok(v: AppView) -> bool {
    v.scroll <= max_scroll(v)
}

/// The selection is on a file whenever there are files.
pub open spec fn selection_ok(v: AppView) -> bool {
    v.files.len() > 0 ==> v.selected < v.files.len()
}

/// The last scroll row depends on the rows and the compact flag alone.
pub proof fn lemma_max_scroll_rows(v: AppView, w: AppView)
    requires
        v.diff == w.diff,
        v.compact == w.compact,
    ensures
        max_scroll(v) == max_scroll(w),
{
}

/// A clamped view is scrolled within its rows.
pub proof fn lemma_clamp_scroll_ok(v: AppView)
    requires
        v.diff.len() <= usize::MAX,
    ensures
        scroll_ok(clamp_spec(v)),
        clamp_spec(v).diff == v.diff,
        clamp_spec(v).compact == v.compact,
{
    lemma_max_scroll_rows(v, clamp_spec(v));
    lemma_max_scroll_nonneg(v);
}

pub proof fn lemma_max_scroll_nonneg(v: AppView)
    requires
        v.diff.len() <= usize::MAX,
    ensures
        0 <= max_scroll(v) <= usize::MAX,
{
    lemma_side_count_bounds(v.diff, true, v.diff.len() as int);
    lemma_side_count_bounds(v.diff, false, v.diff.len() as int);
}

pub proof fn lemma_side_count_bounds(rows: Seq<RowSpec>, left: bool, n: int)
    ensures
        0 <= side_count(rows, left, n) <= if n >= 0 { n } else { 0 },
    decreases n,
{
    if n > 0 {
        lemma_side_count_bounds(rows, left, n - 1);
    }
}

/// A freshly read file list leaves the selection on a file.
pub proof fn lemma_apply_files_selection(v: AppView, res: Result<Seq<EntrySpec>, Seq<char>>)
    requires
        res is Ok ==> res->Ok_0.len() <= usize::MAX,
    ensures
        selection_ok(apply_files_spec(v, res)),
{
}

/// Reloading a diff starts at the top, and restoring kept scroll positions
/// never scrolls past the last row.
pub proof fn lemma_reload_scroll(v: AppView, keep: Option<(usize, usize)>, status: Option<Seq<char>>)
    requires
        v.diff.len() <= usize::MAX,
    ensures
        begin_reload_spec(v).0.scroll == 0,
        keep is Some ==> scroll_ok(after_reload_spec(v, keep, status)),
{
}

} // verus!
