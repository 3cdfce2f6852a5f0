//! Startup defaults and the config modal that edits them.

use vstd::prelude::*;
use vstd::string::*;

use crate::types::{DiffMode, ModeSpec};

verus! {

/// Which diff mode to open in, without the repo-specific base branch.
#[derive(Debug, Clone, Copy, PartialEq, Eq, Structural)]
pub enum ModeKind {
    BranchToBase,
    WorkingTree,
    Staged,
    Unstaged,
}

/// The config-modal label of a mode kind.
pub open spec fn mode_kind_label(k: ModeKind) -> Seq<char> {
    match k {
        ModeKind::BranchToBase => "branch vs base"@,
        ModeKind::WorkingTree => "working tree vs HEAD"@,
        ModeKind::Staged => "staged"@,
        ModeKind::Unstaged => "unstaged"@,
    }
}

/// The mode kind after `k` in declaration order, wrapping
/// (BranchToBase -> WorkingTree -> Staged -> Unstaged -> BranchToBase),
/// or before it when `forward` is false.
pub open spec fn cycle_spec(k: ModeKind, forward: bool) -> ModeKind {
    if forward {
        match k {
            ModeKind::BranchToBase => ModeKind::WorkingTree,
            ModeKind::WorkingTree => ModeKind::Staged,
            ModeKind::Staged => ModeKind::Unstaged,
            ModeKind::Unstaged => ModeKind::BranchToBase,
        }
    } else {
        match k {
            ModeKind::BranchToBase => ModeKind::Unstaged,
            ModeKind::WorkingTree => ModeKind::BranchToBase,
            ModeKind::Staged => ModeKind::WorkingTree,
            ModeKind::Unstaged => ModeKind::Staged,
        }
    }
}

/// The full diff mode of a kind, with `base` for `BranchToBase`.
pub open spec fn to_mode_spec(k: ModeKind, base: Seq<char>) -> ModeSpec {
    match k {
        ModeKind::BranchToBase => ModeSpec::BranchToBase(base),
        ModeKind::WorkingTree => ModeSpec::WorkingTree,
        ModeKind::Staged => ModeSpec::Staged,
        ModeKind::Unstaged => ModeSpec::Unstaged,
    }
}

/// The kind of a diff mode.
pub open spec fn kind_of(m: ModeSpec) -> ModeKind {
    match m {
        ModeSpec::BranchToBase(_) => ModeKind::BranchToBase,
        ModeSpec::WorkingTree => ModeKind::WorkingTree,
        ModeSpec::Staged => ModeKind::Staged,
        ModeSpec::Unstaged => ModeKind::Unstaged,
    }
}

/// Position of a kind in declaration order.
pub open spec fn kind_index(k: ModeKind) -> int {
    match k {
        ModeKind::BranchToBase => 0,
        ModeKind::WorkingTree => 1,
        ModeKind::Staged => 2,
        ModeKind::Unstaged => 3,
    }
}

impl ModeKind {
    /// Short human label for the config modal.
    pub fn label(self) -> (r: &'static str)
        ensures
            r@ == mode_kind_label(self),
    {
        match self {
            ModeKind::BranchToBase => "branch vs base",
            ModeKind::WorkingTree => "working tree vs HEAD",
            ModeKind::Staged => "staged",
            ModeKind::Unstaged => "unstaged",
        }
    }

    /// Materialize into a full `DiffMode`, filling in `base` for `BranchToBase`.
    pub fn to_diff_mode(self, base: &str) -> (r: DiffMode)
        ensures
            r@ == to_mode_spec(self, base@),
    {
        match self {
            ModeKind::BranchToBase => DiffMode::BranchToBase { base: base.to_owned() },
            ModeKind::WorkingTree => DiffMode::WorkingTree,
            ModeKind::Staged => DiffMode::Staged,
            ModeKind::Unstaged => DiffMode::Unstaged,
        }
    }

    /// Inverse of `to_diff_mode`, dropping the `base` string.
    pub fn from_diff_mode(mode: &DiffMode) -> (r: ModeKind)
        ensures
            r == kind_of(mode@),
    {
        match mode {
            DiffMode::BranchToBase { .. } => ModeKind::BranchToBase,
            DiffMode::WorkingTree => ModeKind::WorkingTree,
            DiffMode::Staged => ModeKind::Staged,
            DiffMode::Unstaged => ModeKind::Unstaged,
        }
    }

    fn index(self) -> (r: usize)
        ensures
            r == kind_index(self),
    {
        match self {
            ModeKind::BranchToBase => 0,
            ModeKind::WorkingTree => 1,
            ModeKind::Staged => 2,
            ModeKind::Unstaged => 3,
        }
    }

    fn at(i: usize) -> (r: ModeKind)
        requires
            i < 4,
        ensures
            kind_index(r) == i,
    {
        if i == 0 {
            ModeKind::BranchToBase
        } else if i == 1 {
            ModeKind::WorkingTree
        } else if i == 2 {
            ModeKind::Staged
        } else {
            ModeKind::Unstaged
        }
    }

    /// Cycle to the next (or previous, if `!forward`) mode, wrapping in
    /// declaration order: BranchToBase -> WorkingTree -> Staged -> Unstaged.
    pub fn cycle(self, forward: bool) -> (r: ModeKind)
        ensures
            r == cycle_spec(self, forward),
    {
        let len: usize = 4;
        let idx = self.index();
        let next_idx = if forward {
            (idx + 1) % len
        } else {
            (idx + len - 1) % len
        };
        ModeKind::at(next_idx)
    }
}

/// Startup defaults, stored as JSON in the user config dir.
#[derive(Debug, Clone, Copy, PartialEq, Eq, Structural)]
pub struct Config {
    pub default_mode: ModeKind,
    pub compact: bool,
    pub syntax: bool,
    pub show_files: bool,
    pub tree_view: bool,
    pub wide_files: bool,
    pub show_old: bool,
    pub show_new: bool,
}

/// The defaults: open in branch mode, aligned view, syntax on, file panel
/// shown as a list of normal width, both panes shown.
pub open spec fn default_config() -> Config {
    Config {
        default_mode: ModeKind::BranchToBase,
        compact: false,
        syntax: true,
        show_files: true,
        tree_view: false,
        wide_files: false,
        show_old: true,
        show_new: true,
    }
}

impl Default for Config {
    fn default() -> (r: Config)
        ensures
            r == default_config(),
    {
        Config {
            default_mode: ModeKind::BranchToBase,
            compact: false,
            syntax: true,
            show_files: true,
            tree_view: false,
            wide_files: false,
            show_old: true,
            show_new: true,
        }
    }
}

/// One editable row of the config modal.
#[derive(Debug, Clone, Copy, PartialEq, Eq, Structural)]
pub enum ConfigField {
    DefaultMode,
    Compact,
    Syntax,
    ShowFiles,
    TreeView,
    WideFiles,
    ShowOld,
    ShowNew,
}

/// The config after editing `field`: a bool field flipped, or the default
/// mode cycled in the given direction.
pub open spec fn toggle_spec(c: Config, field: ConfigField, forward: bool) -> Config {
    match field {
        ConfigField::DefaultMode => Config { default_mode: cycle_spec(c.default_mode, forward), ..c },
        ConfigField::Compact => Config { compact: !c.compact, ..c },
        ConfigField::Syntax => Config { syntax: !c.syntax, ..c },
        ConfigField::ShowFiles => Config { show_files: !c.show_files, ..c },
        ConfigField::TreeView => Config { tree_view: !c.tree_view, ..c },
        ConfigField::WideFiles => Config { wide_files: !c.wide_files, ..c },
        ConfigField::ShowOld => Config { show_old: !c.show_old, ..c },
        ConfigField::ShowNew => Config { show_new: !c.show_new, ..c },
    }
}

/// "on" or "off".
pub open spec fn bool_label_spec(v: bool) -> Seq<char> {
    if v {
        "on"@
    } else {
        "off"@
    }
}

/// The modal's display value of a field.
pub open spec fn value_label_spec(c: Config, field: ConfigField) -> Seq<char> {
    match field {
        ConfigField::DefaultMode => mode_kind_label(c.default_mode),
        ConfigField::Compact => bool_label_spec(c.compact),
        ConfigField::Syntax => bool_label_spec(c.syntax),
        ConfigField::ShowFiles => bool_label_spec(c.show_files),
        ConfigField::TreeView => bool_label_spec(c.tree_view),
        ConfigField::WideFiles => bool_label_spec(c.wide_files),
        ConfigField::ShowOld => bool_label_spec(c.show_old),
        ConfigField::ShowNew => bool_label_spec(c.show_new),
    }
}

impl Config {
    /// Flip a bool field, or cycle `DefaultMode` (forward tells cycle direction).
    pub fn toggle(&mut self, field: ConfigField, forward: bool)
        ensures
            *final(self) == toggle_spec(*old(self), field, forward),
    {
        match field {
            ConfigField::DefaultMode => {
                self.default_mode = self.default_mode.cycle(forward);
            },
            ConfigField::Compact => self.compact = !self.compact,
            ConfigField::Syntax => self.syntax = !self.syntax,
            ConfigField::ShowFiles => self.show_files = !self.show_files,
            ConfigField::TreeView => self.tree_view = !self.tree_view,
            ConfigField::WideFiles => self.wide_files = !self.wide_files,
            ConfigField::ShowOld => self.show_old = !self.show_old,
            ConfigField::ShowNew => self.show_new = !self.show_new,
        }
    }

    /// Display value for the modal: "on"/"off" for bools, the mode label for DefaultMode.
    pub fn value_label(&self, field: ConfigField) -> (r: String)
        ensures
            r@ == value_label_spec(*self, field),
    {
        match field {
            ConfigField::DefaultMode => self.default_mode.label().to_owned(),
            ConfigField::Compact => bool_label(self.compact),
            ConfigField::Syntax => bool_label(self.syntax),
            ConfigField::ShowFiles => bool_label(self.show_files),
            ConfigField::TreeView => bool_label(self.tree_view),
            ConfigField::WideFiles => bool_label(self.wide_files),
            ConfigField::ShowOld => bool_label(self.show_old),
            ConfigField::ShowNew => bool_label(self.show_new),
        }
    }
}

/// "on" for true, "off" for false.
pub fn bool_label(v: bool) -> (r: String)
    ensures
        r@ == bool_label_spec(v),
{
    if v {
        String::from_str("on")
    } else {
        String::from_str("off")
    }
}

/// Number of editable rows in the config modal.
pub const FIELD_COUNT: usize = 8;

/// The modal's rows, in display order.
pub open spec fn field_at(i: int) -> ConfigField {
    if i == 0 {
        ConfigField::DefaultMode
    } else if i == 1 {
        ConfigField::Compact
    } else if i == 2 {
        ConfigField::Syntax
    } else if i == 3 {
        ConfigField::ShowFiles
    } else if i == 4 {
        ConfigField::TreeView
    } else if i == 5 {
        ConfigField::WideFiles
    } else if i == 6 {
        ConfigField::ShowOld
    } else {
        ConfigField::ShowNew
    }
}

/// The modal's label of a field.
pub open spec fn field_label(f: ConfigField) -> Seq<char> {
    match f {
        ConfigField::DefaultMode => "default mode"@,
        ConfigField::Compact => "compact view"@,
        ConfigField::Syntax => "syntax highlighting"@,
        ConfigField::ShowFiles => "file panel"@,
        ConfigField::TreeView => "tree view"@,
        ConfigField::WideFiles => "wide file panel"@,
        ConfigField::ShowOld => "old pane"@,
        ConfigField::ShowNew => "new pane"@,
    }
}

impl ConfigField {
    /// All fields, in display order.
    pub const ALL: [ConfigField; 8] = [
        ConfigField::DefaultMode,
        ConfigField::Compact,
        ConfigField::Syntax,
        ConfigField::ShowFiles,
        ConfigField::TreeView,
        ConfigField::WideFiles,
        ConfigField::ShowOld,
        ConfigField::ShowNew,
    ];

    /// The field shown on row `i` of the modal.
    pub fn at(i: usize) -> (r: ConfigField)
        requires
            i < FIELD_COUNT,
        ensures
            r == field_at(i as int),
    {
        if i == 0 {
            ConfigField::DefaultMode
        } else if i == 1 {
            ConfigField::Compact
        } else if i == 2 {
            ConfigField::Syntax
        } else if i == 3 {
            ConfigField::ShowFiles
        } else if i == 4 {
            ConfigField::TreeView
        } else if i == 5 {
            ConfigField::WideFiles
        } else if i == 6 {
            ConfigField::ShowOld
        } else {
            ConfigField::ShowNew
        }
    }

    /// Label of the field in the config modal.
    pub fn label(self) -> (r: &'static str)
        ensures
            r@ == field_label(self),
    {
        match self {
            ConfigField::DefaultMode => "default mode",
            ConfigField::Compact => "compact view",
            ConfigField::Syntax => "syntax highlighting",
            ConfigField::ShowFiles => "file panel",
            ConfigField::TreeView => "tree view",
            ConfigField::WideFiles => "wide file panel",
            ConfigField::ShowOld => "old pane",
            ConfigField::ShowNew => "new pane",
        }
    }
}

/// In-progress edit of the config, driven by the app's key handler.
pub struct ConfigModal {
    pub selected: usize,
    pub draft: Config,
}

impl ConfigModal {
    /// A modal editing `draft`, with the first row selected.
    pub fn new(draft: Config) -> (r: Self)
        ensures
            r.selected == 0,
            r.draft == draft,
    {
        ConfigModal { selected: 0, draft }
    }

    /// Move selection down, wrapping.
    pub fn next(&mut self)
        requires
            old(self).selected < usize::MAX,
        ensures
            final(self).selected == (old(self).selected + 1) % (FIELD_COUNT as int),
            final(self).draft == old(self).draft,
    {
        self.selected = (self.selected + 1) % FIELD_COUNT;
    }

    /// Move selection up, wrapping.
    pub fn prev(&mut self)
        requires
            old(self).selected + FIELD_COUNT <= usize::MAX,
        ensures
            final(self).selected == (old(self).selected + FIELD_COUNT - 1) % (FIELD_COUNT as int),
            final(self).draft == old(self).draft,
    {
        self.selected = (self.selected + FIELD_COUNT - 1) % FIELD_COUNT;
    }

    /// The field on the selected row.
    pub fn field(&self) -> (r: ConfigField)
        requires
            self.selected < FIELD_COUNT,
        ensures
            r == field_at(self.selected as int),
    {
        ConfigField::at(self.selected)
    }
}

// ---------------------------------------------------------------------
// Laws
// ---------------------------------------------------------------------

/// Turning a mode kind into a diff mode and back gives the same kind, for
/// any base branch.
pub proof fn lemma_mode_kind_roundtrip(k: ModeKind, base: Seq<char>)
    ensures
        kind_of(to_mode_spec(k, base)) == k,
{
}

/// Cycling forward and then backward (or backward, then forward) returns
/// to the same mode kind, and four steps in one direction go all the way
/// round.
pub proof fn lemma_cycle_inverse(k: ModeKind)
    ensures
        cycle_spec(cycle_spec(k, true), false) == k,
        cycle_spec(cycle_spec(k, false), true) == k,
        cycle_spec(cycle_spec(cycle_spec(cycle_spec(k, true), true), true), true) == k,
{
}

/// The kind of the next diff mode is the next kind.
pub proof fn lemma_next_mode_kind(m: ModeSpec, base: Seq<char>)
    ensures
        kind_of(crate::types::mode_next(m, base)) == cycle_spec(kind_of(m), true),
{
}

/// Editing a field twice, the second time in the opposite direction,
/// restores the config.
pub proof fn lemma_toggle_undo(c: Config, field: ConfigField, forward: bool)
    ensures
        toggle_spec(toggle_spec(c, field, forward), field, !forward) == c,
{
    lemma_cycle_inverse(c.default_mode);
}

/// Editing a field changes that field only.
pub proof fn lemma_toggle_local(c: Config, field: ConfigField, other: ConfigField, forward: bool)
    requires
        field != other,
    ensures
        value_label_spec(toggle_spec(c, field, forward), other) == value_label_spec(c, other),
{
}

/// Moving the modal's selection down and then up returns to the same row,
/// and the selection stays on a row.
pub proof fn lemma_modal_next_prev(selected: int)
    requires
        0 <= selected < FIELD_COUNT,
    ensures
        0 <= (selected + 1) % (FIELD_COUNT as int) < FIELD_COUNT,
        ((selected + 1) % (FIELD_COUNT as int) + FIELD_COUNT - 1) % (FIELD_COUNT as int) == selected,
        ((selected + FIELD_COUNT - 1) % (FIELD_COUNT as int) + 1) % (FIELD_COUNT as int) == selected,
{
}

} // verus!
