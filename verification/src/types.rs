//! Shared data types: the contract between the git layer, the diff engine,
//! the search logic and the terminal front end.

use vstd::prelude::*;
use vstd::string::*;

verus! {

/// Which two states of the repository are being compared.
#[derive(Debug, Clone, PartialEq, Eq)]
pub enum DiffMode {
    /// Current branch vs its merge-base with `base` (`git diff base...HEAD`).
    BranchToBase { base: String },
    /// HEAD vs working tree: everything not yet committed (`git diff HEAD`).
    WorkingTree,
    /// HEAD vs index: staged changes only (`git diff --cached`).
    Staged,
    /// Index vs working tree: unstaged changes only (`git diff`).
    Unstaged,
}

/// Mathematical model of a [`DiffMode`]: the base branch as a character
/// sequence.
pub enum ModeSpec {
    BranchToBase(Seq<char>),
    WorkingTree,
    Staged,
    Unstaged,
}

impl View for DiffMode {
    type V = ModeSpec;

    open spec fn view(&self) -> ModeSpec {
        match self {
            DiffMode::BranchToBase { base } => ModeSpec::BranchToBase(base@),
            DiffMode::WorkingTree => ModeSpec::WorkingTree,
            DiffMode::Staged => ModeSpec::Staged,
            DiffMode::Unstaged => ModeSpec::Unstaged,
        }
    }
}

/// The status-bar label of a mode, e.g. "branch vs main".
pub open spec fn mode_label(m: ModeSpec) -> Seq<char> {
    match m {
        ModeSpec::BranchToBase(base) => "branch vs "@ + base,
        ModeSpec::WorkingTree => "working tree vs HEAD"@,
        ModeSpec::Staged => "staged"@,
        ModeSpec::Unstaged => "unstaged"@,
    }
}

/// The mode that follows `m` in the cycle
/// branch -> working tree -> staged -> unstaged -> branch (with `base`).
pub open spec fn mode_next(m: ModeSpec, base: Seq<char>) -> ModeSpec {
    match m {
        ModeSpec::BranchToBase(_) => ModeSpec::WorkingTree,
        ModeSpec::WorkingTree => ModeSpec::Staged,
        ModeSpec::Staged => ModeSpec::Unstaged,
        ModeSpec::Unstaged => ModeSpec::BranchToBase(base),
    }
}

impl DiffMode {
    /// Short human label for the status bar, e.g. "branch vs main".
    pub fn label(&self) -> (r: String)
        ensures
            r@ == mode_label(self@),
    {
        match self {
            DiffMode::BranchToBase { base } => String::from_str("branch vs ").concat(base.as_str()),
            DiffMode::WorkingTree => String::from_str("working tree vs HEAD"),
            DiffMode::Staged => String::from_str("staged"),
            DiffMode::Unstaged => String::from_str("unstaged"),
        }
    }

    /// Cycle to the next mode. `base` is the configured base branch, used
    /// when cycling back into `BranchToBase`.
    pub fn next(&self, base: &str) -> (r: DiffMode)
        ensures
            r@ == mode_next(self@, base@),
    {
        match self {
            DiffMode::BranchToBase { .. } => DiffMode::WorkingTree,
            DiffMode::WorkingTree => DiffMode::Staged,
            DiffMode::Staged => DiffMode::Unstaged,
            DiffMode::Unstaged => DiffMode::BranchToBase { base: base.to_owned() },
        }
    }

    /// A copy of this mode with the same model.
    pub fn duplicate(&self) -> (r: DiffMode)
        ensures
            r@ == self@,
    {
        match self {
            DiffMode::BranchToBase { base } => DiffMode::BranchToBase { base: base.clone() },
            DiffMode::WorkingTree => DiffMode::WorkingTree,
            DiffMode::Staged => DiffMode::Staged,
            DiffMode::Unstaged => DiffMode::Unstaged,
        }
    }
}

/// Status of a changed file, as reported by `git diff --name-status`.
#[derive(Debug, Clone, PartialEq, Eq)]
pub enum FileStatus {
    Added,
    Modified,
    Deleted,
    /// Renamed; `from` is the old path (the entry's `path` is the new one).
    Renamed { from: String },
    /// Any other status letter git reports (C, T, U, ...).
    Other(char),
}

/// Mathematical model of a [`FileStatus`].
pub enum StatusSpec {
    Added,
    Modified,
    Deleted,
    Renamed(Seq<char>),
    Other(char),
}

impl View for FileStatus {
    type V = StatusSpec;

    open spec fn view(&self) -> StatusSpec {
        match self {
            FileStatus::Added => StatusSpec::Added,
            FileStatus::Modified => StatusSpec::Modified,
            FileStatus::Deleted => StatusSpec::Deleted,
            FileStatus::Renamed { from } => StatusSpec::Renamed(from@),
            FileStatus::Other(c) => StatusSpec::Other(*c),
        }
    }
}

/// The one-character marker of a status: 'A', 'M', 'D', 'R', or git's own
/// letter for any other status.
pub open spec fn status_marker(s: StatusSpec) -> char {
    match s {
        StatusSpec::Added => 'A',
        StatusSpec::Modified => 'M',
        StatusSpec::Deleted => 'D',
        StatusSpec::Renamed(_) => 'R',
        StatusSpec::Other(c) => c,
    }
}

impl FileStatus {
    /// One-character marker for the file list, e.g. 'A', 'M', 'D', 'R'.
    pub fn marker(&self) -> (r: char)
        ensures
            r == status_marker(self@),
    {
        match self {
            FileStatus::Added => 'A',
            FileStatus::Modified => 'M',
            FileStatus::Deleted => 'D',
            FileStatus::Renamed { .. } => 'R',
            FileStatus::Other(c) => *c,
        }
    }

    /// A copy of this status with the same model.
    pub fn duplicate(&self) -> (r: FileStatus)
        ensures
            r@ == self@,
    {
        match self {
            FileStatus::Added => FileStatus::Added,
            FileStatus::Modified => FileStatus::Modified,
            FileStatus::Deleted => FileStatus::Deleted,
            FileStatus::Renamed { from } => FileStatus::Renamed { from: from.clone() },
            FileStatus::Other(c) => FileStatus::Other(*c),
        }
    }
}

/// One changed file in the active diff.
#[derive(Debug, Clone)]
pub struct FileEntry {
    /// Path relative to the repo root (the new path for renames).
    pub path: String,
    pub status: FileStatus,
    /// Added line count (0 for binary files).
    pub additions: usize,
    /// Removed line count (0 for binary files).
    pub deletions: usize,
    /// True when git reports the file as binary (numstat shows "-").
    pub binary: bool,
}

/// Mathematical model of a [`FileEntry`].
pub struct EntrySpec {
    pub path: Seq<char>,
    pub status: StatusSpec,
    pub additions: usize,
    pub deletions: usize,
    pub binary: bool,
}

impl View for FileEntry {
    type V = EntrySpec;

    open spec fn view(&self) -> EntrySpec {
        EntrySpec {
            path: self.path@,
            status: self.status@,
            additions: self.additions,
            deletions: self.deletions,
            binary: self.binary,
        }
    }
}

impl FileEntry {
    /// A copy of this entry with the same model.
    pub fn duplicate(&self) -> (r: FileEntry)
        ensures
            r@ == self@,
    {
        FileEntry {
            path: self.path.clone(),
            status: self.status.duplicate(),
            additions: self.additions,
            deletions: self.deletions,
            binary: self.binary,
        }
    }
}

/// A single line shown in one of the two panes.
#[derive(Debug, Clone)]
pub struct LineCell {
    /// 1-based line number in that version of the file.
    pub line_no: usize,
    /// Line content without trailing newline.
    pub content: String,
    /// Changed character ranges `(start, end)` of a modified line; empty
    /// means the whole line counts as changed.
    pub changed: Vec<(usize, usize)>,
}

/// Mathematical model of a [`LineCell`].
pub struct CellSpec {
    pub line_no: usize,
    pub content: Seq<char>,
    pub changed: Seq<(usize, usize)>,
}

impl View for LineCell {
    type V = CellSpec;

    open spec fn view(&self) -> CellSpec {
        CellSpec { line_no: self.line_no, content: self.content@, changed: self.changed@ }
    }
}

/// Classification of an aligned diff row.
#[derive(Debug, Clone, Copy, PartialEq, Eq, Structural)]
pub enum RowKind {
    /// Unchanged line: present in both panes.
    Context,
    /// Line only in the old version: left pane only.
    Removed,
    /// Line only in the new version: right pane only.
    Added,
    /// A removed line paired with an added line on the same row.
    Modified,
}

/// One visual row of the side-by-side view: old version on the left, new
/// version on the right. Either side may be empty (filler).
#[derive(Debug, Clone)]
pub struct DiffRow {
    pub left: Option<LineCell>,
    pub right: Option<LineCell>,
    pub kind: RowKind,
}

/// Mathematical model of a [`DiffRow`].
pub struct RowSpec {
    pub left: Option<CellSpec>,
    pub right: Option<CellSpec>,
    pub kind: RowKind,
}

pub open spec fn cell_view(c: Option<LineCell>) -> Option<CellSpec> {
    match c {
        Some(c) => Some(c@),
        None => None,
    }
}

impl View for DiffRow {
    type V = RowSpec;

    open spec fn view(&self) -> RowSpec {
        RowSpec { left: cell_view(self.left), right: cell_view(self.right), kind: self.kind }
    }
}

/// Fully aligned side-by-side diff for one file.
#[derive(Debug, Clone)]
pub struct SideBySideDiff {
    pub rows: Vec<DiffRow>,
}

impl View for SideBySideDiff {
    type V = Seq<RowSpec>;

    open spec fn view(&self) -> Seq<RowSpec> {
        self.rows@.map_values(|r: DiffRow| r@)
    }
}

impl Default for SideBySideDiff {
    fn default() -> (r: SideBySideDiff)
        ensures
            r.rows@.len() == 0,
    {
        SideBySideDiff { rows: Vec::new() }
    }
}

} // verus!
