//! Key handling: how each key press changes the application and which
//! work (reloading, saving the startup defaults) it asks of the caller.
//! The help overlay, the config editor and a search prompt each take the
//! keys first while they are open.

use vstd::prelude::*;
use vstd::string::*;

use crate::app::{
    clamp_spec, half_page, lemma_clamp_scroll_ok, lemma_max_scroll_nonneg, lemma_max_scroll_rows, max_scroll, sat_add,
    sat_sub, scroll_ok, selection_ok, opt_str, App, AppView, Effect, EffectSpec, UiView,
};
use crate::config::{field_at, kind_of, toggle_spec, Config, ConfigField, ConfigModal, ModeKind, FIELD_COUNT};
use crate::search::{
    any_line_matches, any_line_spec, path_filter_spec, path_matches, search_diff, search_rows, FileSearch, SearchInput,
    SearchKind,
};
use crate::project::{MatchSpec, ProjectSearch};
use crate::text::{chars_of, str_eq, string_of};
use crate::types::{mode_label, mode_next, DiffMode, EntrySpec, ModeSpec, RowKind, RowSpec};

verus! {

/// A key press, as far as the application tells keys apart.
#[derive(Debug, Clone, Copy, PartialEq, Eq, Structural)]
pub enum Key {
    Char(char),
    Esc,
    Up,
    Down,
    Left,
    Right,
    PageUp,
    PageDown,
    Enter,
    Backspace,
    Other,
}

/// Position of `base` among the choices, if it is one of them.
pub open spec fn first_index(choices: Seq<Seq<char>>, base: Seq<char>, i: int) -> Option<int>
    decreases choices.len() - i,
{
    if i < 0 || i >= choices.len() {
        None
    } else if choices[i] == base {
        Some(i)
    } else {
        first_index(choices, base, i + 1)
    }
}

/// Choosing the next base branch: the one after the current base among
/// the local branches (the first when the current base is not one of
/// them); in branch mode the mode follows and everything is reloaded.
pub open spec fn cycle_base_spec(v: AppView) -> (AppView, EffectSpec) {
    if v.base_choices.len() == 0 {
        (AppView { status: Some("no local branches found"@), ..v }, EffectSpec::Nothing)
    } else {
        let next = match first_index(v.base_choices, v.base, 0) {
            Some(p) => (p + 1) % (v.base_choices.len() as int),
            None => 0,
        };
        let nb = v.base_choices[next];
        let status = Some("base: "@ + nb);
        match v.mode {
            ModeSpec::BranchToBase(_) => (
                AppView { base: nb, mode: ModeSpec::BranchToBase(nb), ..v },
                EffectSpec::Reload(status),
            ),
            _ => (AppView { base: nb, status, ..v }, EffectSpec::Nothing),
        }
    }
}

/// The view with its scroll moved to aligned row `row` (kept on the rows).
#[verifier::opaque]
pub open spec fn jump_spec(v: AppView, row: int) -> AppView {
    clamp_spec(AppView { scroll: row as usize, ..v })
}

/// Row `i` starts a change: it is not context, and the row before it is
/// (or it is the first row).
pub open spec fn change_start(rows: Seq<RowSpec>, i: int) -> bool {
    &&& 0 <= i < rows.len()
    &&& rows[i].kind != RowKind::Context
    &&& (i == 0 || rows[i - 1].kind == RowKind::Context)
}

/// The first change starting at row `i` or later.
pub open spec fn change_from(rows: Seq<RowSpec>, i: int) -> Option<int>
    decreases rows.len() - i,
{
    if i < 0 || i >= rows.len() {
        None
    } else if change_start(rows, i) {
        Some(i)
    } else {
        change_from(rows, i + 1)
    }
}

/// The last change starting at row `i` or earlier.
pub open spec fn change_upto(rows: Seq<RowSpec>, i: int) -> Option<int>
    decreases i + 1,
{
    if i < 0 {
        None
    } else if change_start(rows, i) {
        Some(i)
    } else {
        change_upto(rows, i - 1)
    }
}

/// The file-panel filters: on the path, and on the changed text, with the
/// changed lines of each file.
pub struct FilterSpec {
    pub path: Option<Seq<char>>,
    pub content: Option<Seq<char>>,
    pub lines: Seq<Seq<Seq<char>>>,
}

/// The filters an application applies to its file panel.
pub open spec fn filter_of_view(v: AppView) -> FilterSpec {
    FilterSpec { path: v.ui.path_filter, content: v.ui.content_filter, lines: v.changed_lines }
}

/// Whether file `i` passes the file-panel filters: its path contains the
/// path filter, and one of its changed lines the changed-text filter.
pub open spec fn shown(files: Seq<EntrySpec>, filter: FilterSpec, i: int) -> bool {
    &&& match filter.path {
        Some(q) => path_filter_spec(files[i].path, q),
        None => true,
    }
    &&& match filter.content {
        Some(q) => 0 <= i < filter.lines.len() && any_line_spec(filter.lines[i], q),
        None => true,
    }
}

/// The first file at index `i` or later that passes the filter.
pub open spec fn shown_from(files: Seq<EntrySpec>, filter: FilterSpec, i: int) -> Option<int>
    decreases files.len() - i,
{
    if i < 0 || i >= files.len() {
        None
    } else if shown(files, filter, i) {
        Some(i)
    } else {
        shown_from(files, filter, i + 1)
    }
}

/// The last file at index `i` or earlier that passes the filter.
pub open spec fn shown_upto(files: Seq<EntrySpec>, filter: FilterSpec, i: int) -> Option<int>
    decreases i + 1,
{
    if i < 0 {
        None
    } else if i < files.len() && shown(files, filter, i) {
        Some(i)
    } else {
        shown_upto(files, filter, i - 1)
    }
}

/// The startup defaults matching what the app shows now.
pub open spec fn current_config(v: AppView) -> Config {
    Config {
        default_mode: kind_of(v.mode),
        compact: v.compact,
        syntax: v.syntax,
        show_files: v.show_files,
        tree_view: v.ui.tree_view,
        wide_files: v.ui.wide_files,
        show_old: v.ui.show_old,
        show_new: v.ui.show_new,
    }
}

// ---------------------------------------------------------------------
// What each key does
// ---------------------------------------------------------------------

/// 'q': quit.
#[verifier::opaque]
pub open spec fn quit_spec(v: AppView) -> AppView {
    AppView { quit: true, ..v }
}

/// Esc in the main view: clear the in-file search, else the file-panel
/// filters, else quit.
#[verifier::opaque]
pub open spec fn escape_spec(v: AppView) -> AppView {
    if v.ui.file_search is Some {
        AppView { ui: UiView { file_search: None, ..v.ui }, ..v }
    } else if v.ui.path_filter is Some || v.ui.content_filter is Some {
        AppView { ui: UiView { path_filter: None, content_filter: None, ..v.ui }, ..v }
    } else {
        AppView { quit: true, ..v }
    }
}

/// 'j' / Down: the next file the filter shows, if any.
#[verifier::opaque]
pub open spec fn select_next_spec(v: AppView) -> AppView {
    match shown_from(v.files, filter_of_view(v), v.selected + 1) {
        Some(i) => AppView { selected: i as usize, ..v },
        None => v,
    }
}

/// 'k' / Up: without a file-panel filter, one file up (staying at the
/// first); under a filter, the previous file it shows, if any.
#[verifier::opaque]
pub open spec fn select_prev_spec(v: AppView) -> AppView {
    if v.ui.path_filter is None && v.ui.content_filter is None {
        AppView { selected: sat_sub(v.selected, 1), ..v }
    } else {
        match shown_upto(v.files, filter_of_view(v), v.selected - 1) {
            Some(i) => AppView { selected: i as usize, ..v },
            None => v,
        }
    }
}

/// Scrolling down by `n` rows, kept on the rows.
#[verifier::opaque]
pub open spec fn scroll_down_spec(v: AppView, n: usize) -> AppView {
    clamp_spec(AppView { scroll: sat_add(v.scroll, n), ..v })
}

/// Scrolling up by `n` rows, stopping at the top.
#[verifier::opaque]
pub open spec fn scroll_up_spec(v: AppView, n: usize) -> AppView {
    AppView { scroll: sat_sub(v.scroll, n), ..v }
}

/// 'g' / 'G': the top or the last row.
#[verifier::opaque]
pub open spec fn scroll_end_spec(v: AppView, bottom: bool) -> AppView {
    AppView { scroll: if bottom { max_scroll(v) as usize } else { 0 }, ..v }
}

/// 'h' / 'l' and the arrows: horizontal scroll by 4 columns.
#[verifier::opaque]
pub open spec fn pan_spec(v: AppView, right: bool) -> AppView {
    AppView { h_scroll: if right { sat_add(v.h_scroll, 4) } else { sat_sub(v.h_scroll, 4) }, ..v }
}

/// The filter a prompt of this kind edits, as it is now.
pub open spec fn prompt_filter(v: AppView, kind: SearchKind) -> Option<Seq<char>> {
    match kind {
        SearchKind::File => None,
        SearchKind::Content => v.ui.content_filter,
        SearchKind::PathFilter => v.ui.path_filter,
    }
}

/// '/', 'S' and 'p': open a search prompt; a filter prompt starts from
/// the filter it edits.
#[verifier::opaque]
pub open spec fn open_prompt_spec(v: AppView, kind: SearchKind) -> AppView {
    let start = match prompt_filter(v, kind) {
        Some(f) => f,
        None => Seq::empty(),
    };
    AppView { ui: UiView { search_input: Some((kind, start)), ..v.ui }, ..v }
}

/// The match after (or before) cursor `c` among `len` matches, wrapping;
/// a cursor past the end counts from its position modulo `len`.
pub open spec fn cursor_step(c: usize, len: int, forward: bool) -> int {
    let c0 = (c as int) % len;
    if forward {
        if c0 + 1 == len {
            0
        } else {
            c0 + 1
        }
    } else if c0 == 0 {
        len - 1
    } else {
        c0 - 1
    }
}

/// 'n' / 'N' during a search: the next (previous) match, wrapping.
#[verifier::opaque]
pub open spec fn hop_match_spec(v: AppView, forward: bool) -> AppView {
    match v.ui.file_search {
        Some((q, m, c)) => if m.len() == 0 {
            v
        } else {
            let c2 = cursor_step(c, m.len() as int, forward);
            jump_spec(AppView { ui: UiView { file_search: Some((q, m, c2 as usize)), ..v.ui }, ..v }, m[c2].row as int)
        },
        None => v,
    }
}

/// 'n' / 'N' without a search: the next (previous) change.
#[verifier::opaque]
pub open spec fn hop_change_spec(v: AppView, forward: bool) -> AppView {
    match (if forward {
        change_from(v.diff, v.scroll + 1)
    } else {
        change_upto(v.diff, v.scroll - 1)
    }) {
        Some(i) => jump_spec(v, i),
        None => v,
    }
}

/// 'n' / 'N': with a search, the next (previous) match, wrapping; without
/// one, the next (previous) change.
pub open spec fn hop_spec(v: AppView, forward: bool) -> AppView {
    if v.ui.file_search is Some {
        hop_match_spec(v, forward)
    } else {
        hop_change_spec(v, forward)
    }
}

/// 'm': the next diff mode, reloading everything.
#[verifier::opaque]
pub open spec fn next_mode_spec(v: AppView) -> (AppView, EffectSpec) {
    let m = mode_next(v.mode, v.base);
    (AppView { mode: m, ..v }, EffectSpec::Reload(Some(mode_label(m))))
}

/// 'f': show or hide the file panel.
#[verifier::opaque]
pub open spec fn toggle_files_spec(v: AppView) -> AppView {
    AppView { show_files: !v.show_files, ..v }
}

/// 't': switch the file panel between a tree and a list.
#[verifier::opaque]
pub open spec fn toggle_tree_spec(v: AppView) -> AppView {
    AppView { ui: UiView { tree_view: !v.ui.tree_view, ..v.ui }, ..v }
}

/// 'F': widen the file panel to fit its rows, or back.
#[verifier::opaque]
pub open spec fn toggle_wide_spec(v: AppView) -> AppView {
    AppView { ui: UiView { wide_files: !v.ui.wide_files, ..v.ui }, ..v }
}

/// '1' / '2': show or hide the old (new) pane, never hiding both.
#[verifier::opaque]
pub open spec fn pane_spec(v: AppView, old_pane: bool) -> AppView {
    if old_pane {
        if v.ui.show_old && !v.ui.show_new {
            v
        } else {
            AppView { ui: UiView { show_old: !v.ui.show_old, ..v.ui }, ..v }
        }
    } else {
        if v.ui.show_new && !v.ui.show_old {
            v
        } else {
            AppView { ui: UiView { show_new: !v.ui.show_new, ..v.ui }, ..v }
        }
    }
}

/// 'C': open the config editor on the startup defaults, first row.
#[verifier::opaque]
pub open spec fn open_config_spec(v: AppView) -> AppView {
    AppView { ui: UiView { config_modal: Some((0usize, v.ui.config)), ..v.ui }, ..v }
}

/// 'c': switch between the aligned and the compact view, keeping the
/// scroll on the rows, and say which is on.
#[verifier::opaque]
pub open spec fn compact_spec(v: AppView) -> AppView {
    let c = clamp_spec(AppView { compact: !v.compact, ..v });
    let msg = if !v.compact {
        "compact view: filler rows hidden (panes scroll independently)"@
    } else {
        "aligned view: filler rows shown"@
    };
    AppView { status: Some(msg), ..c }
}

/// 's': switch syntax highlighting, reloading the diff where it was and
/// saying which is on.
#[verifier::opaque]
pub open spec fn syntax_spec(v: AppView) -> (AppView, EffectSpec) {
    let msg = if !v.syntax {
        "syntax highlighting on"@
    } else {
        "syntax highlighting off"@
    };
    (AppView { syntax: !v.syntax, ..v }, EffectSpec::ReloadDiff(Some((v.scroll, v.h_scroll)), Some(msg)))
}

/// 'U': ask for the update (carried out after the key, see `after_key`).
#[verifier::opaque]
pub open spec fn request_update_spec(v: AppView) -> AppView {
    AppView { trigger_update: true, ..v }
}

/// '?': open the help overlay.
#[verifier::opaque]
pub open spec fn open_help_spec(v: AppView) -> AppView {
    AppView { show_help: true, ..v }
}

// ---------------------------------------------------------------------
// Search prompts
// ---------------------------------------------------------------------

/// Committing an in-file search for `q`: the matching rows, the cursor on
/// the first one and the view moved to it; an empty query clears the
/// search.
#[verifier::opaque]
pub open spec fn commit_search(v: AppView, q: Seq<char>) -> AppView {
    if q.len() == 0 {
        AppView { ui: UiView { file_search: None, ..v.ui }, ..v }
    } else {
        let m = search_rows(v.diff, q, v.diff.len() as int);
        let w = AppView { ui: UiView { file_search: Some((q, m, 0usize)), ..v.ui }, ..v };
        if m.len() > 0 {
            jump_spec(w, m[0].row as int)
        } else {
            w
        }
    }
}

/// The filter a typed path-filter query sets: none when it is empty.
pub open spec fn filter_of(q: Seq<char>) -> Option<Seq<char>> {
    if q.len() == 0 {
        None
    } else {
        Some(q)
    }
}

/// The prompt's text changed to `q`; the filter it edits follows it live.
pub open spec fn retype(v: AppView, kind: SearchKind, q: Seq<char>) -> AppView {
    let w = AppView { ui: UiView { search_input: Some((kind, q)), ..v.ui }, ..v };
    match kind {
        SearchKind::File => w,
        SearchKind::Content => AppView { ui: UiView { content_filter: filter_of(q), ..w.ui }, ..w },
        SearchKind::PathFilter => AppView { ui: UiView { path_filter: filter_of(q), ..w.ui }, ..w },
    }
}

/// The kind of the open search prompt.
pub open spec fn prompt_kind(v: AppView) -> SearchKind {
    match v.ui.search_input {
        Some((k, _)) => k,
        None => SearchKind::File,
    }
}

/// The text typed into the open search prompt.
pub open spec fn prompt_text(v: AppView) -> Seq<char> {
    match v.ui.search_input {
        Some((_, q)) => q,
        None => Seq::empty(),
    }
}

/// The selected row of the open config editor.
pub open spec fn modal_row(v: AppView) -> usize {
    match v.ui.config_modal {
        Some((r, _)) => r,
        None => 0,
    }
}

/// The draft of the open config editor.
pub open spec fn modal_draft(v: AppView) -> Config {
    match v.ui.config_modal {
        Some((_, d)) => d,
        None => v.ui.config,
    }
}

/// Esc in a prompt: close it; the filter a filter prompt edits is
/// cleared.
#[verifier::opaque]
pub open spec fn prompt_cancel_spec(v: AppView) -> AppView {
    let w = AppView { ui: UiView { search_input: None, ..v.ui }, ..v };
    match prompt_kind(v) {
        SearchKind::File => w,
        SearchKind::Content => AppView { ui: UiView { content_filter: None, ..w.ui }, ..w },
        SearchKind::PathFilter => AppView { ui: UiView { path_filter: None, ..w.ui }, ..w },
    }
}

/// Enter in a prompt: close it; an in-file search runs, a path filter
/// stays as typed.
#[verifier::opaque]
pub open spec fn prompt_enter_spec(v: AppView) -> AppView {
    let w = AppView { ui: UiView { search_input: None, ..v.ui }, ..v };
    if prompt_kind(v) == SearchKind::File {
        commit_search(w, prompt_text(v))
    } else {
        w
    }
}

/// Backspace in a prompt: the last character removed.
#[verifier::opaque]
pub open spec fn prompt_back_spec(v: AppView) -> AppView {
    let q = prompt_text(v);
    retype(v, prompt_kind(v), if q.len() > 0 { q.drop_last() } else { q })
}

/// A character typed into a prompt.
#[verifier::opaque]
pub open spec fn prompt_type_spec(v: AppView, c: char) -> AppView {
    retype(v, prompt_kind(v), prompt_text(v).push(c))
}

// ---------------------------------------------------------------------
// The config editor
// ---------------------------------------------------------------------

/// The editor's row moved down (or up), wrapping.
#[verifier::opaque]
pub open spec fn modal_move_spec(v: AppView, down: bool) -> AppView {
    let sel = modal_row(v) as int;
    let n = FIELD_COUNT as int;
    let next = if down {
        (sel + 1) % n
    } else {
        (sel + n - 1) % n
    };
    AppView { ui: UiView { config_modal: Some((next as usize, modal_draft(v))), ..v.ui }, ..v }
}

/// The editor's row changed: a setting flipped, or the mode cycled
/// forward (or backward).
#[verifier::opaque]
pub open spec fn modal_change_spec(v: AppView, forward: bool) -> AppView {
    let sel = modal_row(v);
    let row = field_at((sel as int) % (FIELD_COUNT as int));
    AppView {
        ui: UiView { config_modal: Some((sel, toggle_spec(modal_draft(v), row, forward))), ..v.ui },
        ..v
    }
}

/// 'u' in the editor: the draft becomes the current settings.
#[verifier::opaque]
pub open spec fn modal_current_spec(v: AppView) -> AppView {
    AppView { ui: UiView { config_modal: Some((modal_row(v), current_config(v))), ..v.ui }, ..v }
}

/// 's' in the editor: the draft becomes the startup defaults and is saved.
#[verifier::opaque]
pub open spec fn modal_save_spec(v: AppView) -> (AppView, EffectSpec) {
    let draft = modal_draft(v);
    (AppView { ui: UiView { config_modal: None, config: draft, ..v.ui }, ..v }, EffectSpec::SaveConfig(draft))
}

/// Esc in the editor: close it, changing nothing.
#[verifier::opaque]
pub open spec fn modal_close_spec(v: AppView) -> AppView {
    AppView { ui: UiView { config_modal: None, ..v.ui }, ..v }
}

// ---------------------------------------------------------------------
// Dispatch
// ---------------------------------------------------------------------

/// Keys while the help overlay is open: Esc and '?' close it, 'q' quits,
/// anything else is ignored.
pub open spec fn help_step(v: AppView, key: Key) -> AppView {
    match key {
        Key::Esc => AppView { show_help: false, ..v },
        Key::Char('?') => AppView { show_help: false, ..v },
        Key::Char('q') => AppView { quit: true, ..v },
        _ => v,
    }
}

/// Keys while the config editor is open: j/k (or the arrows) move between
/// rows, space, 'l' and Right change the row's value ('h' and Left cycle
/// the mode backwards), 'u' takes the current settings, 's' saves the
/// draft as the startup defaults, Esc cancels.
pub open spec fn modal_step(v: AppView, key: Key) -> (AppView, EffectSpec) {
    match key {
        Key::Esc => (modal_close_spec(v), EffectSpec::Nothing),
        Key::Char('j') | Key::Down => (modal_move_spec(v, true), EffectSpec::Nothing),
        Key::Char('k') | Key::Up => (modal_move_spec(v, false), EffectSpec::Nothing),
        Key::Char(' ') | Key::Char('l') | Key::Right => (modal_change_spec(v, true), EffectSpec::Nothing),
        Key::Char('h') | Key::Left => (modal_change_spec(v, false), EffectSpec::Nothing),
        Key::Char('u') => (modal_current_spec(v), EffectSpec::Nothing),
        Key::Char('s') => modal_save_spec(v),
        _ => (v, EffectSpec::Nothing),
    }
}

/// Keys while a search prompt is open: characters are typed, Backspace
/// deletes the last one, Enter commits, Esc cancels.
pub open spec fn prompt_step(v: AppView, key: Key, ctrl: bool) -> AppView {
    match key {
        Key::Esc => prompt_cancel_spec(v),
        Key::Enter => prompt_enter_spec(v),
        Key::Backspace => prompt_back_spec(v),
        Key::Char(c) => if ctrl {
            v
        } else {
            prompt_type_spec(v, c)
        },
        _ => v,
    }
}

/// The open results popup's query, matches and selected match.
pub open spec fn popup_parts(v: AppView) -> (Seq<char>, Seq<MatchSpec>, usize) {
    match v.ui.project {
        Some(p) => p,
        None => (Seq::empty(), Seq::empty(), 0),
    }
}

/// Keys while the results popup of a project-wide search is open: j/k
/// (or the arrows) move the selection, Enter opens the selected match
/// (its file, searched for the query, at its line), Esc closes the popup;
/// anything else is ignored.
#[verifier::opaque]
pub open spec fn project_step(v: AppView, key: Key) -> (AppView, EffectSpec) {
    match key {
        Key::Esc => (popup_close_spec(v), EffectSpec::Nothing),
        Key::Char('j') | Key::Down => (popup_move_spec(v, true), EffectSpec::Nothing),
        Key::Char('k') | Key::Up => (popup_move_spec(v, false), EffectSpec::Nothing),
        Key::Enter => popup_open_spec(v),
        _ => (v, EffectSpec::Nothing),
    }
}

/// Esc in the results popup: close it.
#[verifier::opaque]
pub open spec fn popup_close_spec(v: AppView) -> AppView {
    AppView { ui: UiView { project: None, ..v.ui }, ..v }
}

/// The popup's selection moved down (stopping at the last match) or up
/// (stopping at the first).
#[verifier::opaque]
pub open spec fn popup_move_spec(v: AppView, down: bool) -> AppView {
    let (q, m, sel) = popup_parts(v);
    let next = if down {
        if sel + 1 < m.len() {
            (sel + 1) as usize
        } else {
            sel
        }
    } else {
        sat_sub(sel, 1)
    };
    AppView { ui: UiView { project: Some((q, m, next)), ..v.ui }, ..v }
}

/// Enter in the results popup: close it, select the match's file and ask
/// for it to be opened at the match.
#[verifier::opaque]
pub open spec fn popup_open_spec(v: AppView) -> (AppView, EffectSpec) {
    let (q, m, sel) = popup_parts(v);
    if sel < m.len() && m[sel as int].file_idx < v.files.len() {
        (
            AppView { selected: m[sel as int].file_idx, ui: UiView { project: None, ..v.ui }, ..v },
            EffectSpec::OpenMatch(q, m[sel as int].line_no, m[sel as int].in_old),
        )
    } else {
        (v, EffectSpec::Nothing)
    }
}

/// The work a key in a search prompt asks for: Enter in the changed-text
/// prompt searches every changed file for what was typed, when it is not
/// empty.
pub open spec fn prompt_effect(v: AppView, key: Key) -> EffectSpec {
    if key == Key::Enter && prompt_kind(v) == SearchKind::Content && prompt_text(v).len() > 0 {
        EffectSpec::SearchProject(prompt_text(v))
    } else {
        EffectSpec::Nothing
    }
}

/// Reaction to a key press: the next view and the work to do.
pub open spec fn key_step(v: AppView, key: Key, ctrl: bool) -> (AppView, EffectSpec) {
    if v.show_help {
        (help_step(v, key), EffectSpec::Nothing)
    } else if v.ui.config_modal is Some {
        modal_step(v, key)
    } else if v.ui.project is Some {
        project_step(v, key)
    } else if v.ui.search_input is Some {
        (prompt_step(v, key, ctrl), prompt_effect(v, key))
    } else {
        normal_step(v, key, ctrl)
    }
}

/// The first of the first `n` rows whose old (or new) cell is line
/// `line_no`.
pub open spec fn row_of_line(rows: Seq<RowSpec>, line_no: usize, in_old: bool, n: int) -> Option<int>
    decreases n,
{
    if n <= 0 {
        None
    } else {
        match row_of_line(rows, line_no, in_old, n - 1) {
            Some(k) => Some(k),
            None => {
                let c = if in_old {
                    rows[n - 1].left
                } else {
                    rows[n - 1].right
                };
                if c matches Some(cell) && cell.line_no == line_no {
                    Some(n - 1)
                } else {
                    None
                }
            },
        }
    }
}

/// Opening a match after its file's diff is loaded: the file is searched
/// for the query, and the view moves to the match's line.
pub open spec fn open_match_spec(v: AppView, q: Seq<char>, line_no: usize, in_old: bool) -> AppView {
    let w = commit_search(v, q);
    match row_of_line(w.diff, line_no, in_old, w.diff.len() as int) {
        Some(k) => jump_spec(w, k),
        None => w,
    }
}

/// Keys in the main view.
pub open spec fn normal_step(v: AppView, key: Key, ctrl: bool) -> (AppView, EffectSpec) {
    match key {
        Key::Char('q') => (quit_spec(v), EffectSpec::Nothing),
        Key::Esc => (escape_spec(v), EffectSpec::Nothing),
        Key::Char('j') | Key::Down => if v.files.len() == 0 {
            (v, EffectSpec::Nothing)
        } else {
            (select_next_spec(v), EffectSpec::ReloadDiff(None, None))
        },
        Key::Char('k') | Key::Up => (select_prev_spec(v), EffectSpec::ReloadDiff(None, None)),
        Key::Char('J') => (scroll_down_spec(v, 1), EffectSpec::Nothing),
        Key::Char('K') => (scroll_up_spec(v, 1), EffectSpec::Nothing),
        Key::PageDown => (scroll_down_spec(v, half_page(v)), EffectSpec::Nothing),
        Key::PageUp => (scroll_up_spec(v, half_page(v)), EffectSpec::Nothing),
        Key::Char('d') if ctrl => (scroll_down_spec(v, half_page(v)), EffectSpec::Nothing),
        Key::Char('u') if ctrl => (scroll_up_spec(v, half_page(v)), EffectSpec::Nothing),
        Key::Char('g') => (scroll_end_spec(v, false), EffectSpec::Nothing),
        Key::Char('G') => (scroll_end_spec(v, true), EffectSpec::Nothing),
        Key::Char('n') => (hop_spec(v, true), EffectSpec::Nothing),
        Key::Char('N') => (hop_spec(v, false), EffectSpec::Nothing),
        Key::Char('h') | Key::Left => (pan_spec(v, false), EffectSpec::Nothing),
        Key::Char('l') | Key::Right => (pan_spec(v, true), EffectSpec::Nothing),
        Key::Char('/') => (open_prompt_spec(v, SearchKind::File), EffectSpec::Nothing),
        Key::Char('p') => (open_prompt_spec(v, SearchKind::PathFilter), EffectSpec::Nothing),
        Key::Char('S') => (open_prompt_spec(v, SearchKind::Content), EffectSpec::LoadChangedLines),
        Key::Char('m') => next_mode_spec(v),
        Key::Char('f') => (toggle_files_spec(v), EffectSpec::Nothing),
        Key::Char('t') => (toggle_tree_spec(v), EffectSpec::Nothing),
        Key::Char('F') => (toggle_wide_spec(v), EffectSpec::Nothing),
        Key::Char('1') => (pane_spec(v, true), EffectSpec::Nothing),
        Key::Char('2') => (pane_spec(v, false), EffectSpec::Nothing),
        Key::Char('C') => (open_config_spec(v), EffectSpec::Nothing),
        Key::Char('c') => (compact_spec(v), EffectSpec::Nothing),
        Key::Char('s') => syntax_spec(v),
        Key::Char('b') => cycle_base_spec(v),
        Key::Char('r') => (v, EffectSpec::Reload(Some("reloaded"@))),
        Key::Char('U') => (request_update_spec(v), EffectSpec::Nothing),
        Key::Char('?') => (open_help_spec(v), EffectSpec::Nothing),
        _ => (v, EffectSpec::Nothing),
    }
}

impl App {
    /// The index of the next base branch.
    fn next_base_index(&self) -> (r: usize)
        requires
            self.base_choices@.len() > 0,
        ensures
            r == match first_index(self@.base_choices, self@.base, 0) {
                Some(p) => (p + 1) % (self.base_choices@.len() as int),
                None => 0,
            },
            r < self.base_choices@.len(),
    {
        let mut i: usize = 0;
        while i < self.base_choices.len()
            invariant
                i <= self.base_choices@.len(),
                first_index(self@.base_choices, self@.base, 0) == first_index(self@.base_choices, self@.base, i as int),
            decreases self.base_choices@.len() - i,
        {
            assert(self@.base_choices[i as int] == self.base_choices@[i as int]@);
            if str_eq(self.base_choices[i].as_str(), self.base.as_str()) {
                return (i + 1) % self.base_choices.len();
            }
            i = i + 1;
        }
        0
    }

    #[verifier::spinoff_prover]
    #[verifier::rlimit(40)]
    fn cycle_base(&mut self) -> (r: Effect)
        ensures
            final(self).left_hl == old(self).left_hl,
            final(self).right_hl == old(self).right_hl,
            (final(self)@, r@) == cycle_base_spec(old(self)@),
    {
        if self.base_choices.len() == 0 {
            self.set_status("no local branches found");
            return Effect::Nothing;
        }
        let next = self.next_base_index();
        assert(self@.base_choices[next as int] == self.base_choices@[next as int]@);
        let next_base = self.base_choices[next].clone();
        let status = String::from_str("base: ").concat(next_base.as_str());
        self.base = next_base.clone();
        match self.mode {
            DiffMode::BranchToBase { .. } => {
                self.mode = DiffMode::BranchToBase { base: next_base };
                Effect::Reload { then_status: Some(status) }
            },
            _ => {
                self.status = Some(status);
                Effect::Nothing
            },
        }
    }

    /// The index of the first change starting at row `i` or later.
    fn change_from_exec(&self, i: usize) -> (r: Option<usize>)
        ensures
            match r {
                Some(k) => change_from(self@.diff, i as int) == Some(k as int),
                None => change_from(self@.diff, i as int) is None,
            },
    {
        let ghost rows = self@.diff;
        let mut k = i;
        while k < self.diff.rows.len()
            invariant
                rows == self@.diff,
                i <= k,
                change_from(rows, i as int) == change_from(rows, k as int),
            decreases rows.len() - k,
        {
            proof {
                assert(rows[k as int] == self.diff.rows@[k as int]@);
                if k > 0 {
                    assert(rows[k - 1] == self.diff.rows@[k - 1]@);
                }
            }
            let here = self.diff.rows[k].kind != RowKind::Context;
            let after_context = k == 0 || self.diff.rows[k - 1].kind == RowKind::Context;
            if here && after_context {
                return Some(k);
            }
            k = k + 1;
        }
        None
    }

    /// The index of the last change starting at row `i - 1` or earlier.
    fn change_before_exec(&self, i: usize) -> (r: Option<usize>)
        ensures
            match r {
                Some(k) => change_upto(self@.diff, i - 1) == Some(k as int),
                None => change_upto(self@.diff, i - 1) is None,
            },
    {
        let ghost rows = self@.diff;
        let mut k = i;
        while k > 0
            invariant
                rows == self@.diff,
                k <= i,
                change_upto(rows, i - 1) == change_upto(rows, k - 1),
            decreases k,
        {
            let j = k - 1;
            if j < self.diff.rows.len() {
                proof {
                    assert(rows[j as int] == self.diff.rows@[j as int]@);
                    if j > 0 {
                        assert(rows[j - 1] == self.diff.rows@[j - 1]@);
                    }
                }
                let here = self.diff.rows[j].kind != RowKind::Context;
                let after_context = j == 0 || self.diff.rows[j - 1].kind == RowKind::Context;
                if here && after_context {
                    return Some(j);
                }
            }
            k = j;
        }
        None
    }

    /// Whether file `i` passes the file-panel filters.
    pub(crate) fn shown_exec(&self, i: usize) -> (r: bool)
        requires
            i < self.files@.len(),
        ensures
            r == shown(self@.files, filter_of_view(self@), i as int),
    {
        assert(self@.files[i as int] == self.files@[i as int]@);
        let by_path = match &self.ui.path_filter {
            Some(f) => path_matches(self.files[i].path.as_str(), f.as_str()),
            None => true,
        };
        let by_text = match &self.ui.content_filter {
            Some(q) => {
                if i < self.changed_lines.len() {
                    let lines = &self.changed_lines[i];
                    let r = any_line_matches(lines.as_slice(), q.as_str());
                    proof {
                        let ls = self@.changed_lines[i as int];
                        assert(ls == crate::text::strs_view(lines@));
                        if r && q@.len() > 0 {
                            let k = choose|k: int| 0 <= k < lines@.len() && crate::search::has_match(#[trigger] lines@[k]@, q@);
                            assert(ls[k] == lines@[k]@);
                        }
                        if !r {
                            assert forall|k: int| 0 <= k < ls.len() implies !crate::search::has_match(#[trigger] ls[k], q@) by {
                                assert(ls[k] == lines@[k]@);
                            }
                        }
                    }
                    r
                } else {
                    false
                }
            },
            None => true,
        };
        by_path && by_text
    }

    /// The first shown file at index `i` or later.
    fn shown_from_exec(&self, i: usize) -> (r: Option<usize>)
        ensures
            match r {
                Some(k) => shown_from(self@.files, filter_of_view(self@), i as int) == Some(k as int),
                None => shown_from(self@.files, filter_of_view(self@), i as int) is None,
            },
    {
        let mut k = i;
        while k < self.files.len()
            invariant
                i <= k,
                shown_from(self@.files, filter_of_view(self@), i as int) == shown_from(self@.files, filter_of_view(self@), k as int),
            decreases self.files@.len() - k,
        {
            if self.shown_exec(k) {
                return Some(k);
            }
            k = k + 1;
        }
        None
    }

    /// The last shown file at index `i - 1` or earlier.
    fn shown_before_exec(&self, i: usize) -> (r: Option<usize>)
        ensures
            match r {
                Some(k) => shown_upto(self@.files, filter_of_view(self@), i - 1) == Some(k as int),
                None => shown_upto(self@.files, filter_of_view(self@), i - 1) is None,
            },
    {
        let mut k = i;
        while k > 0
            invariant
                k <= i,
                shown_upto(self@.files, filter_of_view(self@), i - 1) == shown_upto(self@.files, filter_of_view(self@), k - 1),
            decreases k,
        {
            let j = k - 1;
            if j < self.files.len() && self.shown_exec(j) {
                return Some(j);
            }
            k = j;
        }
        None
    }

    /// Move the view to aligned row `row`.
    fn jump(&mut self, row: usize)
        ensures
            final(self).left_hl == old(self).left_hl,
            final(self).right_hl == old(self).right_hl,
            final(self)@ == jump_spec(old(self)@, row as int),
    {
        proof {
            reveal(jump_spec);
        }
        self.scroll = row;
        self.clamp_scroll();
    }

    /// 'n' / 'N' during a search.
    #[verifier::rlimit(80)]
    #[verifier::spinoff_prover]
    fn hop_match(&mut self, forward: bool)
        ensures
            final(self).left_hl == old(self).left_hl,
            final(self).right_hl == old(self).right_hl,
            final(self)@ == hop_match_spec(old(self)@, forward),
    {
        proof {
            reveal(hop_match_spec);
        }
        let mut taken: Option<FileSearch> = None;
        std::mem::swap(&mut taken, &mut self.ui.file_search);
        match taken {
            Some(mut fs) => {
                let n = fs.matches.len();
                if n == 0 {
                    self.ui.file_search = Some(fs);
                    return;
                }
                let c = fs.current % n;
                let c2 = if forward {
                    if c + 1 == n {
                        0
                    } else {
                        c + 1
                    }
                } else if c == 0 {
                    n - 1
                } else {
                    c - 1
                };
                let row = fs.matches[c2].row;
                fs.current = c2;
                self.ui.file_search = Some(fs);
                self.jump(row);
            },
            None => {},
        }
    }

    /// 'n' / 'N' without a search.
    fn hop_change(&mut self, forward: bool)
        ensures
            final(self).left_hl == old(self).left_hl,
            final(self).right_hl == old(self).right_hl,
            final(self)@ == hop_change_spec(old(self)@, forward),
    {
        proof {
            reveal(hop_change_spec);
        }
        let n_rows = self.diff.rows.len();
        let found = if forward {
            if self.scroll < usize::MAX {
                self.change_from_exec(self.scroll + 1)
            } else {
                proof {
                    assert(self@.diff.len() == n_rows);
                    assert(change_from(self@.diff, self.scroll + 1) is None);
                }
                None
            }
        } else {
            self.change_before_exec(self.scroll)
        };
        match found {
            Some(i) => self.jump(i),
            None => {},
        }
    }

    /// 'n' / 'N'.
    fn hop(&mut self, forward: bool)
        ensures
            final(self).left_hl == old(self).left_hl,
            final(self).right_hl == old(self).right_hl,
            final(self)@ == hop_spec(old(self)@, forward),
    {
        if self.ui.file_search.is_some() {
            self.hop_match(forward);
        } else {
            self.hop_change(forward);
        }
    }

    /// Commit an in-file search for `q`.
    #[verifier::rlimit(80)]
    #[verifier::spinoff_prover]
    fn run_search(&mut self, q: String)
        ensures
            final(self).left_hl == old(self).left_hl,
            final(self).right_hl == old(self).right_hl,
            final(self)@ == commit_search(old(self)@, q@),
    {
        proof {
            reveal(commit_search);
        }
        if q.as_str().unicode_len() == 0 {
            self.ui.file_search = None;
            return;
        }
        let matches = search_diff(&self.diff, q.as_str());
        let first = if matches.len() > 0 {
            Some(matches[0].row)
        } else {
            None
        };
        self.ui.file_search = Some(FileSearch { query: q, matches, current: 0 });
        match first {
            Some(row) => self.jump(row),
            None => {},
        }
    }

    /// Set the prompt's text to `q` (the filter it edits follows it).
    #[verifier::spinoff_prover]
    #[verifier::rlimit(100)]
    fn retype_exec(&mut self, kind: SearchKind, q: String)
        ensures
            final(self).left_hl == old(self).left_hl,
            final(self).right_hl == old(self).right_hl,
            final(self)@ == retype(old(self)@, kind, q@),
    {
        let filter = if q.as_str().unicode_len() == 0 {
            None
        } else {
            Some(q.clone())
        };
        assert(opt_str(filter) == filter_of(q@));
        let ghost qv = q@;
        self.ui.search_input = Some(SearchInput { kind, query: q });
        self.set_prompt_filter(kind, filter);
    }

    /// Set the filter a prompt of this kind edits.
    #[verifier::spinoff_prover]
    fn set_prompt_filter(&mut self, kind: SearchKind, filter: Option<String>)
        ensures
            final(self).left_hl == old(self).left_hl,
            final(self).right_hl == old(self).right_hl,
            kind == SearchKind::File ==> final(self)@ == old(self)@,
            kind == SearchKind::Content ==> final(self)@ == (AppView {
                ui: UiView { content_filter: opt_str(filter), ..old(self)@.ui },
                ..old(self)@
            }),
            kind == SearchKind::PathFilter ==> final(self)@ == (AppView {
                ui: UiView { path_filter: opt_str(filter), ..old(self)@.ui },
                ..old(self)@
            }),
    {
        if kind == SearchKind::Content {
            self.ui.content_filter = filter;
        } else if kind == SearchKind::PathFilter {
            self.ui.path_filter = filter;
        }
    }

    /// Clear both file-panel filters.
    #[verifier::spinoff_prover]
    fn clear_filters(&mut self)
        ensures
            final(self).left_hl == old(self).left_hl,
            final(self).right_hl == old(self).right_hl,
            final(self)@ == (AppView {
                ui: UiView { path_filter: None, content_filter: None, ..old(self)@.ui },
                ..old(self)@
            }),
    {
        self.ui.path_filter = None;
        self.ui.content_filter = None;
    }

    /// Half a viewport, at least one row.
    fn half_page_exec(&self) -> (r: usize)
        ensures
            r == half_page(self@),
    {
        if self.last_viewport_height / 2 >= 1 {
            self.last_viewport_height / 2
        } else {
            1
        }
    }

    #[verifier::spinoff_prover]
    fn quit_key(&mut self)
        ensures
            final(self).left_hl == old(self).left_hl,
            final(self).right_hl == old(self).right_hl,
            final(self)@ == quit_spec(old(self)@),
    {
        proof {
            reveal(quit_spec);
        }
        self.quit = true;
    }

    #[verifier::spinoff_prover]
    fn escape_key(&mut self)
        ensures
            final(self).left_hl == old(self).left_hl,
            final(self).right_hl == old(self).right_hl,
            final(self)@ == escape_spec(old(self)@),
    {
        let ghost v = self@;
        let has_search = self.ui.file_search.is_some();
        let has_filter = self.ui.path_filter.is_some() || self.ui.content_filter.is_some();
        assert(escape_spec(v) == if has_search {
            AppView { ui: UiView { file_search: None, ..v.ui }, ..v }
        } else if has_filter {
            AppView { ui: UiView { path_filter: None, content_filter: None, ..v.ui }, ..v }
        } else {
            AppView { quit: true, ..v }
        }) by {
            reveal(escape_spec);
        }
        if has_search {
            self.ui.file_search = None;
        } else if has_filter {
            self.clear_filters();
        } else {
            self.quit = true;
        }
    }

    #[verifier::spinoff_prover]
    fn select_next_key(&mut self)
        ensures
            final(self).left_hl == old(self).left_hl,
            final(self).right_hl == old(self).right_hl,
            final(self)@ == select_next_spec(old(self)@),
    {
        proof {
            reveal(select_next_spec);
        }
        let next = if self.selected < usize::MAX {
            self.shown_from_exec(self.selected + 1)
        } else {
            None
        };
        let n_files = self.files.len();
        proof {
            if self.selected == usize::MAX {
                assert(self@.files.len() == n_files);
                assert(shown_from(self@.files, filter_of_view(self@), self.selected + 1) is None);
            }
        }
        match next {
            Some(i) => self.selected = i,
            None => {},
        }
    }

    #[verifier::spinoff_prover]
    fn select_prev_key(&mut self)
        ensures
            final(self).left_hl == old(self).left_hl,
            final(self).right_hl == old(self).right_hl,
            final(self)@ == select_prev_spec(old(self)@),
    {
        proof {
            reveal(select_prev_spec);
        }
        if self.ui.path_filter.is_none() && self.ui.content_filter.is_none() {
            self.selected = self.selected.saturating_sub(1);
            return;
        }
        match self.shown_before_exec(self.selected) {
            Some(i) => self.selected = i,
            None => {},
        }
    }

    #[verifier::spinoff_prover]
    fn scroll_down_key(&mut self, n: usize)
        ensures
            final(self).left_hl == old(self).left_hl,
            final(self).right_hl == old(self).right_hl,
            final(self)@ == scroll_down_spec(old(self)@, n),
    {
        proof {
            reveal(scroll_down_spec);
        }
        self.scroll = self.scroll.saturating_add(n);
        self.clamp_scroll();
    }

    #[verifier::spinoff_prover]
    fn scroll_up_key(&mut self, n: usize)
        ensures
            final(self).left_hl == old(self).left_hl,
            final(self).right_hl == old(self).right_hl,
            final(self)@ == scroll_up_spec(old(self)@, n),
    {
        proof {
            reveal(scroll_up_spec);
        }
        self.scroll = self.scroll.saturating_sub(n);
    }

    #[verifier::spinoff_prover]
    fn scroll_end_key(&mut self, bottom: bool)
        ensures
            final(self).left_hl == old(self).left_hl,
            final(self).right_hl == old(self).right_hl,
            final(self)@ == scroll_end_spec(old(self)@, bottom),
    {
        proof {
            reveal(scroll_end_spec);
        }
        self.scroll = if bottom {
            self.row_count().saturating_sub(1)
        } else {
            0
        };
    }

    #[verifier::spinoff_prover]
    fn pan_key(&mut self, right: bool)
        ensures
            final(self).left_hl == old(self).left_hl,
            final(self).right_hl == old(self).right_hl,
            final(self)@ == pan_spec(old(self)@, right),
    {
        proof {
            reveal(pan_spec);
        }
        self.h_scroll = if right {
            self.h_scroll.saturating_add(4)
        } else {
            self.h_scroll.saturating_sub(4)
        };
    }

    #[verifier::spinoff_prover]
    fn open_prompt_key(&mut self, kind: SearchKind)
        ensures
            final(self).left_hl == old(self).left_hl,
            final(self).right_hl == old(self).right_hl,
            final(self)@ == open_prompt_spec(old(self)@, kind),
    {
        proof {
            reveal(open_prompt_spec);
        }
        let current = match kind {
            SearchKind::File => &None,
            SearchKind::Content => &self.ui.content_filter,
            SearchKind::PathFilter => &self.ui.path_filter,
        };
        let start = match current {
            Some(f) => f.clone(),
            None => String::new(),
        };
        self.ui.search_input = Some(SearchInput { kind, query: start });
    }

    #[verifier::spinoff_prover]
    fn next_mode_key(&mut self) -> (r: Effect)
        ensures
            final(self).left_hl == old(self).left_hl,
            final(self).right_hl == old(self).right_hl,
            (final(self)@, r@) == next_mode_spec(old(self)@),
    {
        proof {
            reveal(next_mode_spec);
        }
        self.mode = self.mode.next(self.base.as_str());
        let label = self.mode.label();
        Effect::Reload { then_status: Some(label) }
    }

    #[verifier::spinoff_prover]
    fn toggle_files_key(&mut self)
        ensures
            final(self).left_hl == old(self).left_hl,
            final(self).right_hl == old(self).right_hl,
            final(self)@ == toggle_files_spec(old(self)@),
    {
        proof {
            reveal(toggle_files_spec);
        }
        self.show_files = !self.show_files;
    }

    #[verifier::spinoff_prover]
    fn toggle_tree_key(&mut self)
        ensures
            final(self).left_hl == old(self).left_hl,
            final(self).right_hl == old(self).right_hl,
            final(self)@ == toggle_tree_spec(old(self)@),
    {
        proof {
            reveal(toggle_tree_spec);
        }
        self.ui.tree_view = !self.ui.tree_view;
    }

    #[verifier::spinoff_prover]
    fn toggle_wide_key(&mut self)
        ensures
            final(self).left_hl == old(self).left_hl,
            final(self).right_hl == old(self).right_hl,
            final(self)@ == toggle_wide_spec(old(self)@),
    {
        proof {
            reveal(toggle_wide_spec);
        }
        self.ui.wide_files = !self.ui.wide_files;
    }

    #[verifier::spinoff_prover]
    fn pane_key(&mut self, old_pane: bool)
        ensures
            final(self).left_hl == old(self).left_hl,
            final(self).right_hl == old(self).right_hl,
            final(self)@ == pane_spec(old(self)@, old_pane),
    {
        proof {
            reveal(pane_spec);
        }
        if old_pane {
            if !(self.ui.show_old && !self.ui.show_new) {
                self.ui.show_old = !self.ui.show_old;
            }
        } else {
            if !(self.ui.show_new && !self.ui.show_old) {
                self.ui.show_new = !self.ui.show_new;
            }
        }
    }

    #[verifier::spinoff_prover]
    fn open_config_key(&mut self)
        ensures
            final(self).left_hl == old(self).left_hl,
            final(self).right_hl == old(self).right_hl,
            final(self)@ == open_config_spec(old(self)@),
    {
        proof {
            reveal(open_config_spec);
        }
        self.ui.config_modal = Some(ConfigModal { selected: 0, draft: self.ui.config });
    }

    #[verifier::spinoff_prover]
    fn compact_key(&mut self)
        ensures
            final(self).left_hl == old(self).left_hl,
            final(self).right_hl == old(self).right_hl,
            final(self)@ == compact_spec(old(self)@),
    {
        proof {
            reveal(compact_spec);
        }
        self.compact = !self.compact;
        self.clamp_scroll();
        if self.compact {
            self.set_status("compact view: filler rows hidden (panes scroll independently)");
        } else {
            self.set_status("aligned view: filler rows shown");
        }
    }

    #[verifier::spinoff_prover]
    fn syntax_key(&mut self) -> (r: Effect)
        ensures
            final(self).left_hl == old(self).left_hl,
            final(self).right_hl == old(self).right_hl,
            (final(self)@, r@) == syntax_spec(old(self)@),
    {
        proof {
            reveal(syntax_spec);
        }
        self.syntax = !self.syntax;
        let msg = if self.syntax {
            String::from_str("syntax highlighting on")
        } else {
            String::from_str("syntax highlighting off")
        };
        Effect::ReloadDiff { keep_scroll: Some((self.scroll, self.h_scroll)), then_status: Some(msg) }
    }

    #[verifier::spinoff_prover]
    fn request_update_key(&mut self)
        ensures
            final(self).left_hl == old(self).left_hl,
            final(self).right_hl == old(self).right_hl,
            final(self)@ == request_update_spec(old(self)@),
    {
        proof {
            reveal(request_update_spec);
        }
        self.trigger_update = true;
    }

    #[verifier::spinoff_prover]
    fn open_help_key(&mut self)
        ensures
            final(self).left_hl == old(self).left_hl,
            final(self).right_hl == old(self).right_hl,
            final(self)@ == open_help_spec(old(self)@),
    {
        proof {
            reveal(open_help_spec);
        }
        self.show_help = true;
    }

    #[verifier::spinoff_prover]
    fn prompt_cancel_key(&mut self)
        ensures
            final(self).left_hl == old(self).left_hl,
            final(self).right_hl == old(self).right_hl,
            final(self)@ == prompt_cancel_spec(old(self)@),
    {
        proof {
            reveal(prompt_cancel_spec);
        }
        let kind = match &self.ui.search_input {
            Some(i) => i.kind,
            None => SearchKind::File,
        };
        self.ui.search_input = None;
        self.set_prompt_filter(kind, None);
    }

    #[verifier::spinoff_prover]
    fn prompt_enter_key(&mut self)
        requires
            old(self).ui.search_input is Some,
        ensures
            final(self).left_hl == old(self).left_hl,
            final(self).right_hl == old(self).right_hl,
            final(self)@ == prompt_enter_spec(old(self)@),
    {
        proof {
            reveal(prompt_enter_spec);
        }
        let info = match &self.ui.search_input {
            Some(i) => Some((i.kind, i.query.clone())),
            None => None,
        };
        self.ui.search_input = None;
        match info {
            Some((kind, q)) => {
                if kind == SearchKind::File {
                    self.run_search(q);
                }
            },
            None => {},
        }
    }

    #[verifier::spinoff_prover]
    fn prompt_back_key(&mut self)
        ensures
            final(self).left_hl == old(self).left_hl,
            final(self).right_hl == old(self).right_hl,
            final(self)@ == prompt_back_spec(old(self)@),
    {
        proof {
            reveal(prompt_back_spec);
        }
        let (kind, q) = match &self.ui.search_input {
            Some(i) => (i.kind, i.query.clone()),
            None => (SearchKind::File, String::new()),
        };
        let cs = chars_of(q.as_str());
        let n = if cs.len() > 0 {
            cs.len() - 1
        } else {
            0
        };
        let shorter = string_of(&cs, 0, n);
        proof {
            if cs@.len() > 0 {
                assert(cs@.subrange(0, n as int) =~= q@.drop_last());
            } else {
                assert(cs@.subrange(0, 0) =~= q@);
            }
        }
        self.retype_exec(kind, shorter);
    }

    #[verifier::spinoff_prover]
    fn prompt_type_key(&mut self, c: char)
        ensures
            final(self).left_hl == old(self).left_hl,
            final(self).right_hl == old(self).right_hl,
            final(self)@ == prompt_type_spec(old(self)@, c),
    {
        proof {
            reveal(prompt_type_spec);
        }
        let (kind, q) = match &self.ui.search_input {
            Some(i) => (i.kind, i.query.clone()),
            None => (SearchKind::File, String::new()),
        };
        let mut longer = q;
        longer.push(c);
        self.retype_exec(kind, longer);
    }

    fn modal_parts(&self) -> (r: (usize, Config))
        ensures
            r == (modal_row(self@), modal_draft(self@)),
    {
        match &self.ui.config_modal {
            Some(m) => (m.selected, m.draft),
            None => (0, self.ui.config),
        }
    }

    #[verifier::spinoff_prover]
    fn modal_move_key(&mut self, down: bool)
        ensures
            final(self).left_hl == old(self).left_hl,
            final(self).right_hl == old(self).right_hl,
            final(self)@ == modal_move_spec(old(self)@, down),
    {
        proof {
            reveal(modal_move_spec);
        }
        let (sel, draft) = self.modal_parts();
        let row = sel % FIELD_COUNT;
        proof {
            let s = sel as int;
            assert(((s % 8) + 1) % 8 == (s + 1) % 8) by (nonlinear_arith)
                requires
                    s >= 0,
            ;
            assert(((s % 8) + 7) % 8 == (s + 7) % 8) by (nonlinear_arith)
                requires
                    s >= 0,
            ;
        }
        let next = if down {
            (row + 1) % FIELD_COUNT
        } else {
            (row + FIELD_COUNT - 1) % FIELD_COUNT
        };
        self.ui.config_modal = Some(ConfigModal { selected: next, draft });
    }

    #[verifier::spinoff_prover]
    fn modal_change_key(&mut self, forward: bool)
        ensures
            final(self).left_hl == old(self).left_hl,
            final(self).right_hl == old(self).right_hl,
            final(self)@ == modal_change_spec(old(self)@, forward),
    {
        proof {
            reveal(modal_change_spec);
        }
        let (sel, draft) = self.modal_parts();
        let mut d = draft;
        d.toggle(ConfigField::at(sel % FIELD_COUNT), forward);
        self.ui.config_modal = Some(ConfigModal { selected: sel, draft: d });
    }

    #[verifier::spinoff_prover]
    fn modal_current_key(&mut self)
        ensures
            final(self).left_hl == old(self).left_hl,
            final(self).right_hl == old(self).right_hl,
            final(self)@ == modal_current_spec(old(self)@),
    {
        proof {
            reveal(modal_current_spec);
        }
        let (sel, _) = self.modal_parts();
        let c = Config {
            default_mode: ModeKind::from_diff_mode(&self.mode),
            compact: self.compact,
            syntax: self.syntax,
            show_files: self.show_files,
            tree_view: self.ui.tree_view,
            wide_files: self.ui.wide_files,
            show_old: self.ui.show_old,
            show_new: self.ui.show_new,
        };
        self.ui.config_modal = Some(ConfigModal { selected: sel, draft: c });
    }

    #[verifier::spinoff_prover]
    fn modal_save_key(&mut self) -> (r: Effect)
        ensures
            final(self).left_hl == old(self).left_hl,
            final(self).right_hl == old(self).right_hl,
            (final(self)@, r@) == modal_save_spec(old(self)@),
    {
        proof {
            reveal(modal_save_spec);
        }
        let (_, draft) = self.modal_parts();
        self.ui.config_modal = None;
        self.ui.config = draft;
        Effect::SaveConfig(draft)
    }

    #[verifier::spinoff_prover]
    fn modal_close_key(&mut self)
        ensures
            final(self).left_hl == old(self).left_hl,
            final(self).right_hl == old(self).right_hl,
            final(self)@ == modal_close_spec(old(self)@),
    {
        proof {
            reveal(modal_close_spec);
        }
        self.ui.config_modal = None;
    }

    /// Keys while the help overlay is open.
    #[verifier::spinoff_prover]
    fn help_key(&mut self, key: Key)
        ensures
            final(self).left_hl == old(self).left_hl,
            final(self).right_hl == old(self).right_hl,
            final(self)@ == help_step(old(self)@, key),
    {
        match key {
            Key::Esc | Key::Char('?') => self.show_help = false,
            Key::Char('q') => self.quit = true,
            _ => {},
        }
    }

    /// Keys while the config editor is open.
    #[verifier::spinoff_prover]
    fn modal_key(&mut self, key: Key) -> (r: Effect)
        ensures
            final(self).left_hl == old(self).left_hl,
            final(self).right_hl == old(self).right_hl,
            (final(self)@, r@) == modal_step(old(self)@, key),
    {
        match key {
            Key::Esc => self.modal_close_key(),
            Key::Char('j') | Key::Down => self.modal_move_key(true),
            Key::Char('k') | Key::Up => self.modal_move_key(false),
            Key::Char(' ') | Key::Char('l') | Key::Right => self.modal_change_key(true),
            Key::Char('h') | Key::Left => self.modal_change_key(false),
            Key::Char('u') => self.modal_current_key(),
            Key::Char('s') => {
                return self.modal_save_key();
            },
            _ => {},
        }
        Effect::Nothing
    }

    /// Keys while a search prompt is open.
    #[verifier::spinoff_prover]
    fn prompt_key(&mut self, key: Key, ctrl: bool)
        requires
            old(self).ui.search_input is Some,
        ensures
            final(self).left_hl == old(self).left_hl,
            final(self).right_hl == old(self).right_hl,
            final(self)@ == prompt_step(old(self)@, key, ctrl),
    {
        match key {
            Key::Esc => self.prompt_cancel_key(),
            Key::Enter => self.prompt_enter_key(),
            Key::Backspace => self.prompt_back_key(),
            Key::Char(c) => {
                if !ctrl {
                    self.prompt_type_key(c);
                }
            },
            _ => {},
        }
    }

    /// Keys while the results popup is open.
    #[verifier::spinoff_prover]
    fn project_key(&mut self, key: Key) -> (r: Effect)
        requires
            old(self).ui.project is Some,
        ensures
            final(self).left_hl == old(self).left_hl,
            final(self).right_hl == old(self).right_hl,
            (final(self)@, r@) == project_step(old(self)@, key),
    {
        proof {
            reveal(project_step);
        }
        match key {
            Key::Esc => {
                self.popup_close();
                Effect::Nothing
            },
            Key::Char('j') | Key::Down => {
                self.popup_move(true);
                Effect::Nothing
            },
            Key::Char('k') | Key::Up => {
                self.popup_move(false);
                Effect::Nothing
            },
            Key::Enter => self.popup_open(),
            _ => Effect::Nothing,
        }
    }

    #[verifier::spinoff_prover]
    fn popup_close(&mut self)
        ensures
            final(self).left_hl == old(self).left_hl,
            final(self).right_hl == old(self).right_hl,
            final(self)@ == popup_close_spec(old(self)@),
    {
        proof {
            reveal(popup_close_spec);
        }
        self.ui.project = None;
    }

    #[verifier::spinoff_prover]
    #[verifier::rlimit(60)]
    fn popup_move(&mut self, down: bool)
        requires
            old(self).ui.project is Some,
        ensures
            final(self).left_hl == old(self).left_hl,
            final(self).right_hl == old(self).right_hl,
            final(self)@ == popup_move_spec(old(self)@, down),
    {
        proof {
            reveal(popup_move_spec);
        }
        let (len, sel) = match &self.ui.project {
            Some(p) => (p.matches.len(), p.selected),
            None => (0, 0),
        };
        let next = if down {
            if len > 0 && sel < len - 1 {
                sel + 1
            } else {
                sel
            }
        } else {
            sel.saturating_sub(1)
        };
        let ghost v = self@;
        let taken = self.ui.project.take();
        match taken {
            Some(p) => {
                let moved = ProjectSearch { query: p.query, matches: p.matches, selected: next };
                assert(crate::project::project_view(Some(moved)) == Some((popup_parts(v).0, popup_parts(v).1, next)));
                self.ui.project = Some(moved);
            },
            None => {},
        }
    }

    #[verifier::spinoff_prover]
    fn popup_open(&mut self) -> (r: Effect)
        requires
            old(self).ui.project is Some,
        ensures
            final(self).left_hl == old(self).left_hl,
            final(self).right_hl == old(self).right_hl,
            (final(self)@, r@) == popup_open_spec(old(self)@),
    {
        proof {
            reveal(popup_open_spec);
        }
        let ghost v = self@;
        let target = match &self.ui.project {
            Some(p) => {
                if p.selected < p.matches.len() {
                    let m = &p.matches[p.selected];
                    assert(popup_parts(v).1[p.selected as int] == m@);
                    Some((p.query.clone(), m.file_idx, m.line_no, m.in_old))
                } else {
                    None
                }
            },
            None => None,
        };
        match target {
            Some((query, file_idx, line_no, in_old)) => {
                if file_idx < self.files.len() {
                    self.ui.project = None;
                    self.selected = file_idx;
                    Effect::OpenMatch { query, line_no, in_old }
                } else {
                    Effect::Nothing
                }
            },
            None => Effect::Nothing,
        }
    }

    /// After the diff of a match's file is loaded: search it for `query`
    /// and move to line `line_no` of its old (or new) side.
    pub fn open_match(&mut self, query: String, line_no: usize, in_old: bool)
        ensures
            final(self).left_hl == old(self).left_hl,
            final(self).right_hl == old(self).right_hl,
            final(self)@ == open_match_spec(old(self)@, query@, line_no, in_old),
    {
        let ghost qv = query@;
        self.run_search(query);
        let ghost w = self@;
        let mut k: usize = 0;
        while k < self.diff.rows.len()
            invariant
                w == self@,
                w == commit_search(old(self)@, qv),
                qv == query@,
                self.left_hl == old(self).left_hl,
                self.right_hl == old(self).right_hl,
                k <= w.diff.len(),
                row_of_line(w.diff, line_no, in_old, k as int) is None,
            decreases w.diff.len() - k,
        {
            assert(w.diff[k as int] == self.diff.rows@[k as int]@);
            let hit = {
                let c = if in_old {
                    &self.diff.rows[k].left
                } else {
                    &self.diff.rows[k].right
                };
                match c {
                    Some(cell) => cell.line_no == line_no,
                    None => false,
                }
            };
            if hit {
                assert(row_of_line(w.diff, line_no, in_old, k + 1) == Some(k as int));
                assert(row_of_line(w.diff, line_no, in_old, w.diff.len() as int) == Some(k as int)) by {
                    lemma_row_of_line_stays(w.diff, line_no, in_old, k + 1, w.diff.len() as int);
                }
                self.jump(k);
                return;
            }
            k = k + 1;
        }
    }

    /// React to a key press; the returned effect is the work the caller
    /// must do next.
    pub fn handle_key(&mut self, key: Key, ctrl: bool) -> (r: Effect)
        ensures
            final(self).left_hl == old(self).left_hl,
            final(self).right_hl == old(self).right_hl,
            (final(self)@, r@) == key_step(old(self)@, key, ctrl),
    {
        if self.show_help {
            self.help_key(key);
            return Effect::Nothing;
        }
        if self.ui.config_modal.is_some() {
            return self.modal_key(key);
        }
        if self.ui.project.is_some() {
            return self.project_key(key);
        }
        if self.ui.search_input.is_some() {
            let effect = match &self.ui.search_input {
                Some(i) => {
                    if key == Key::Enter && i.kind == SearchKind::Content && i.query.as_str().unicode_len() > 0 {
                        Effect::SearchProject { query: i.query.clone() }
                    } else {
                        Effect::Nothing
                    }
                },
                None => Effect::Nothing,
            };
            self.prompt_key(key, ctrl);
            return effect;
        }
        self.normal_key(key, ctrl)
    }

    /// Keys in the main view.
    #[verifier::rlimit(40)]
    #[verifier::spinoff_prover]
    fn normal_key(&mut self, key: Key, ctrl: bool) -> (r: Effect)
        ensures
            final(self).left_hl == old(self).left_hl,
            final(self).right_hl == old(self).right_hl,
            (final(self)@, r@) == normal_step(old(self)@, key, ctrl),
    {
        match key {
            Key::Char('q') => self.quit_key(),
            Key::Esc => self.escape_key(),
            Key::Char('j') | Key::Down => {
                if self.files.len() == 0 {
                    return Effect::Nothing;
                }
                self.select_next_key();
                return Effect::ReloadDiff { keep_scroll: None, then_status: None };
            },
            Key::Char('k') | Key::Up => {
                self.select_prev_key();
                return Effect::ReloadDiff { keep_scroll: None, then_status: None };
            },
            Key::Char('J') => self.scroll_down_key(1),
            Key::Char('K') => self.scroll_up_key(1),
            Key::PageDown => {
                let half = self.half_page_exec();
                self.scroll_down_key(half);
            },
            Key::PageUp => {
                let half = self.half_page_exec();
                self.scroll_up_key(half);
            },
            Key::Char('d') if ctrl => {
                let half = self.half_page_exec();
                self.scroll_down_key(half);
            },
            Key::Char('u') if ctrl => {
                let half = self.half_page_exec();
                self.scroll_up_key(half);
            },
            Key::Char('g') => self.scroll_end_key(false),
            Key::Char('G') => self.scroll_end_key(true),
            Key::Char('n') => self.hop(true),
            Key::Char('N') => self.hop(false),
            Key::Char('h') | Key::Left => self.pan_key(false),
            Key::Char('l') | Key::Right => self.pan_key(true),
            Key::Char('/') => self.open_prompt_key(SearchKind::File),
            Key::Char('p') => self.open_prompt_key(SearchKind::PathFilter),
            Key::Char('S') => {
                self.open_prompt_key(SearchKind::Content);
                return Effect::LoadChangedLines;
            },
            Key::Char('m') => {
                return self.next_mode_key();
            },
            Key::Char('f') => self.toggle_files_key(),
            Key::Char('t') => self.toggle_tree_key(),
            Key::Char('F') => self.toggle_wide_key(),
            Key::Char('1') => self.pane_key(true),
            Key::Char('2') => self.pane_key(false),
            Key::Char('C') => self.open_config_key(),
            Key::Char('c') => self.compact_key(),
            Key::Char('s') => {
                return self.syntax_key();
            },
            Key::Char('b') => {
                return self.cycle_base();
            },
            Key::Char('r') => {
                return Effect::Reload { then_status: Some(String::from_str("reloaded")) };
            },
            Key::Char('U') => self.request_update_key(),
            Key::Char('?') => self.open_help_key(),
            _ => {},
        }
        Effect::Nothing
    }
}

// ---------------------------------------------------------------------
// Laws
// ---------------------------------------------------------------------

/// A view with the same rows, compaction and scroll as one scrolled within
/// its rows is scrolled within its rows.
proof fn lemma_same_rows(v: AppView, w: AppView)
    requires
        scroll_ok(v),
        w.diff == v.diff,
        w.compact == v.compact,
        w.scroll == v.scroll,
    ensures
        scroll_ok(w),
{
    lemma_max_scroll_rows(v, w);
}

/// Once found among the first `n` rows, a row stays the one found.
proof fn lemma_row_of_line_stays(rows: Seq<RowSpec>, line_no: usize, in_old: bool, n: int, m: int)
    requires
        n <= m,
        row_of_line(rows, line_no, in_old, n) is Some,
    ensures
        row_of_line(rows, line_no, in_old, m) == row_of_line(rows, line_no, in_old, n),
    decreases m - n,
{
    if n < m {
        lemma_row_of_line_stays(rows, line_no, in_old, n, m - 1);
    }
}

/// Jumping to a row keeps the view on its rows.
proof fn lemma_jump_ok(v: AppView, row: int)
    requires
        v.diff.len() <= usize::MAX,
    ensures
        scroll_ok(jump_spec(v, row)),
        jump_spec(v, row).diff == v.diff,
        jump_spec(v, row).compact == v.compact,
        jump_spec(v, row).files == v.files,
        jump_spec(v, row).selected == v.selected,
        jump_spec(v, row).ui.show_old == v.ui.show_old,
        jump_spec(v, row).ui.show_new == v.ui.show_new,
{
    reveal(jump_spec);
    lemma_clamp_scroll_ok(AppView { scroll: row as usize, ..v });
}

/// Running an in-file search keeps the view on its rows.
proof fn lemma_commit_ok(v: AppView, q: Seq<char>)
    requires
        v.diff.len() <= usize::MAX,
        scroll_ok(v),
    ensures
        scroll_ok(commit_search(v, q)),
        commit_search(v, q).files == v.files,
        commit_search(v, q).selected == v.selected,
        commit_search(v, q).ui.show_old == v.ui.show_old,
        commit_search(v, q).ui.show_new == v.ui.show_new,
{
    reveal(commit_search);
    if q.len() == 0 {
        lemma_same_rows(v, commit_search(v, q));
    } else {
        let m = search_rows(v.diff, q, v.diff.len() as int);
        let w = AppView { ui: UiView { file_search: Some((q, m, 0usize)), ..v.ui }, ..v };
        lemma_same_rows(v, w);
        if m.len() > 0 {
            lemma_jump_ok(w, m[0].row as int);
        }
    }
}

/// Keys in a search prompt keep the view on its rows.
proof fn lemma_prompt_keeps_scroll(v: AppView, key: Key, ctrl: bool)
    requires
        v.diff.len() <= usize::MAX,
        scroll_ok(v),
    ensures
        scroll_ok(prompt_step(v, key, ctrl)),
{
    let w = prompt_step(v, key, ctrl);
    match key {
        Key::Enter => {
            reveal(prompt_enter_spec);
            let u = AppView { ui: UiView { search_input: None, ..v.ui }, ..v };
            lemma_same_rows(v, u);
            lemma_commit_ok(u, prompt_text(v));
        },
        _ => {
            reveal(prompt_cancel_spec);
            reveal(prompt_back_spec);
            reveal(prompt_type_spec);
            lemma_same_rows(v, w);
        },
    }
}

/// Keys in the config editor keep the view on its rows.
proof fn lemma_modal_keeps_scroll(v: AppView, key: Key)
    requires
        scroll_ok(v),
    ensures
        scroll_ok(modal_step(v, key).0),
{
    reveal(modal_close_spec);
    reveal(modal_move_spec);
    reveal(modal_change_spec);
    reveal(modal_current_spec);
    reveal(modal_save_spec);
    lemma_same_rows(v, modal_step(v, key).0);
}

/// 'n' / 'N' keep the view on its rows.
proof fn lemma_hop_keeps_scroll(v: AppView, forward: bool)
    requires
        v.diff.len() <= usize::MAX,
        scroll_ok(v),
    ensures
        scroll_ok(hop_spec(v, forward)),
{
    reveal(hop_match_spec);
    reveal(hop_change_spec);
    match v.ui.file_search {
        Some((q, m, c)) => {
            if m.len() > 0 {
                let c2 = cursor_step(c, m.len() as int, forward);
                let w = AppView { ui: UiView { file_search: Some((q, m, c2 as usize)), ..v.ui }, ..v };
                lemma_jump_ok(w, m[c2].row as int);
            }
        },
        None => {
            let t = if forward {
                change_from(v.diff, v.scroll + 1)
            } else {
                change_upto(v.diff, v.scroll - 1)
            };
            if t is Some {
                lemma_jump_ok(v, t->0);
            }
        },
    }
}

/// The scrolling keys keep the view on its rows.
proof fn lemma_scroll_keys(v: AppView, key: Key, ctrl: bool)
    requires
        v.diff.len() <= usize::MAX,
        scroll_ok(v),
        key == Key::Char('J') || key == Key::Char('K') || key == Key::PageDown || key == Key::PageUp
            || key == Key::Char('d') || key == Key::Char('u') || key == Key::Char('g') || key == Key::Char('G'),
    ensures
        scroll_ok(normal_step(v, key, ctrl).0),
{
    let w = normal_step(v, key, ctrl).0;
    lemma_max_scroll_nonneg(v);
    reveal(scroll_down_spec);
    reveal(scroll_up_spec);
    reveal(scroll_end_spec);
    if (key == Key::Char('d') || key == Key::Char('u')) && !ctrl {
        assert(w == v);
    } else if key == Key::Char('J') {
        lemma_clamp_scroll_ok(AppView { scroll: sat_add(v.scroll, 1), ..v });
    } else if key == Key::PageDown || key == Key::Char('d') {
        lemma_clamp_scroll_ok(AppView { scroll: sat_add(v.scroll, half_page(v)), ..v });
    } else {
        lemma_max_scroll_rows(v, w);
    }
}

/// The keys that leave the rows and the scroll alone keep the view on its
/// rows.
proof fn lemma_still_keys(v: AppView, key: Key, ctrl: bool)
    requires
        scroll_ok(v),
        !(key == Key::Char('J') || key == Key::Char('K') || key == Key::PageDown || key == Key::PageUp
            || key == Key::Char('d') || key == Key::Char('u') || key == Key::Char('g') || key == Key::Char('G')
            || key == Key::Char('n') || key == Key::Char('N') || key == Key::Char('c')),
    ensures
        scroll_ok(normal_step(v, key, ctrl).0),
{
    reveal(quit_spec);
    reveal(escape_spec);
    reveal(select_next_spec);
    reveal(select_prev_spec);
    reveal(pan_spec);
    reveal(open_prompt_spec);
    reveal(next_mode_spec);
    reveal(toggle_files_spec);
    reveal(toggle_tree_spec);
    reveal(toggle_wide_spec);
    reveal(pane_spec);
    reveal(open_config_spec);
    reveal(syntax_spec);
    reveal(request_update_spec);
    reveal(open_help_spec);
    lemma_same_rows(v, normal_step(v, key, ctrl).0);
}

/// No key scrolls past the last row: a view scrolled within its rows stays
/// so after any key.
pub proof fn lemma_keys_keep_scroll(v: AppView, key: Key, ctrl: bool)
    requires
        v.diff.len() <= usize::MAX,
        scroll_ok(v),
    ensures
        scroll_ok(key_step(v, key, ctrl).0),
{
    if v.show_help {
        lemma_same_rows(v, help_step(v, key));
    } else if v.ui.config_modal is Some {
        lemma_modal_keeps_scroll(v, key);
    } else if v.ui.project is Some {
        reveal(project_step);
        reveal(popup_close_spec);
        reveal(popup_move_spec);
        reveal(popup_open_spec);
        lemma_same_rows(v, project_step(v, key).0);
    } else if v.ui.search_input is Some {
        lemma_prompt_keeps_scroll(v, key, ctrl);
    } else if key == Key::Char('n') || key == Key::Char('N') {
        lemma_hop_keeps_scroll(v, key == Key::Char('n'));
    } else if key == Key::Char('c') {
        reveal(compact_spec);
        lemma_clamp_scroll_ok(AppView { compact: !v.compact, ..v });
        lemma_max_scroll_rows(clamp_spec(AppView { compact: !v.compact, ..v }), normal_step(v, key, ctrl).0);
    } else if key == Key::Char('J') || key == Key::Char('K') || key == Key::PageDown || key == Key::PageUp
        || key == Key::Char('d') || key == Key::Char('u') || key == Key::Char('g') || key == Key::Char('G') {
        lemma_scroll_keys(v, key, ctrl);
    } else {
        lemma_still_keys(v, key, ctrl);
    }
}

proof fn lemma_shown_from_bound(files: Seq<EntrySpec>, filter: FilterSpec, i: int)
    ensures
        shown_from(files, filter, i) matches Some(k) ==> i <= k < files.len(),
    decreases files.len() - i,
{
    if 0 <= i < files.len() && !shown(files, filter, i) {
        lemma_shown_from_bound(files, filter, i + 1);
    }
}

proof fn lemma_shown_upto_bound(files: Seq<EntrySpec>, filter: FilterSpec, i: int)
    ensures
        shown_upto(files, filter, i) matches Some(k) ==> 0 <= k <= i && k < files.len(),
    decreases i + 1,
{
    if i >= 0 && !(i < files.len() && shown(files, filter, i)) {
        lemma_shown_upto_bound(files, filter, i - 1);
    }
}

/// What a key keeps of the file list, the selection and the panes.
pub open spec fn key_frame(v: AppView, w: AppView, key: Key) -> bool {
    let main = !v.show_help && v.ui.config_modal is None && v.ui.project is None && v.ui.search_input is None;
    let popup = !v.show_help && v.ui.config_modal is None && v.ui.project is Some;
    &&& w.files == v.files
    &&& (w.ui.show_old == v.ui.show_old || (main && key == Key::Char('1')))
    &&& (w.ui.show_new == v.ui.show_new || (main && key == Key::Char('2')))
    &&& (w.selected == v.selected || (main && (key == Key::Char('j') || key == Key::Down
        || key == Key::Char('k') || key == Key::Up)) || (popup && key == Key::Enter && w.selected < v.files.len()))
}

proof fn lemma_frame_modal(v: AppView, key: Key)
    ensures
        modal_step(v, key).0.files == v.files,
        modal_step(v, key).0.selected == v.selected,
        modal_step(v, key).0.ui.show_old == v.ui.show_old,
        modal_step(v, key).0.ui.show_new == v.ui.show_new,
{
    reveal(modal_close_spec);
    reveal(modal_move_spec);
    reveal(modal_change_spec);
    reveal(modal_current_spec);
    reveal(modal_save_spec);
}

proof fn lemma_frame_prompt(v: AppView, key: Key, ctrl: bool)
    requires
        v.diff.len() <= usize::MAX,
    ensures
        prompt_step(v, key, ctrl).files == v.files,
        prompt_step(v, key, ctrl).selected == v.selected,
        prompt_step(v, key, ctrl).ui.show_old == v.ui.show_old,
        prompt_step(v, key, ctrl).ui.show_new == v.ui.show_new,
{
    reveal(prompt_cancel_spec);
    reveal(prompt_back_spec);
    reveal(prompt_type_spec);
    reveal(prompt_enter_spec);
    if key == Key::Enter && prompt_kind(v) == SearchKind::File {
        let u = AppView { ui: UiView { search_input: None, ..v.ui }, ..v };
        lemma_max_scroll_nonneg(u);
        reveal(commit_search);
        let q = prompt_text(v);
        if q.len() > 0 {
            let m = search_rows(u.diff, q, u.diff.len() as int);
            let w = AppView { ui: UiView { file_search: Some((q, m, 0usize)), ..u.ui }, ..u };
            if m.len() > 0 {
                lemma_jump_ok(w, m[0].row as int);
            }
        }
    }
}

proof fn lemma_frame_normal(v: AppView, key: Key, ctrl: bool)
    requires
        v.diff.len() <= usize::MAX,
        key != Key::Char('n'),
        key != Key::Char('N'),
    ensures
        normal_step(v, key, ctrl).0.files == v.files,
        normal_step(v, key, ctrl).0.ui.show_old == v.ui.show_old || key == Key::Char('1'),
        normal_step(v, key, ctrl).0.ui.show_new == v.ui.show_new || key == Key::Char('2'),
        normal_step(v, key, ctrl).0.selected == v.selected || key == Key::Char('j') || key == Key::Down
            || key == Key::Char('k') || key == Key::Up,
{
    reveal(quit_spec);
    reveal(escape_spec);
    reveal(scroll_down_spec);
    reveal(scroll_up_spec);
    reveal(scroll_end_spec);
    reveal(pan_spec);
    reveal(open_prompt_spec);
    reveal(next_mode_spec);
    reveal(toggle_files_spec);
    reveal(toggle_tree_spec);
    reveal(toggle_wide_spec);
    reveal(open_config_spec);
    reveal(compact_spec);
    reveal(syntax_spec);
    reveal(request_update_spec);
    reveal(open_help_spec);
    reveal(pane_spec);
    reveal(select_next_spec);
    reveal(select_prev_spec);
}

proof fn lemma_frame_hop(v: AppView, forward: bool)
    requires
        v.diff.len() <= usize::MAX,
    ensures
        hop_spec(v, forward).files == v.files,
        hop_spec(v, forward).selected == v.selected,
        hop_spec(v, forward).ui.show_old == v.ui.show_old,
        hop_spec(v, forward).ui.show_new == v.ui.show_new,
{
    reveal(hop_match_spec);
    reveal(hop_change_spec);
    match v.ui.file_search {
        Some((q, m, c)) => {
            if m.len() > 0 {
                let c2 = cursor_step(c, m.len() as int, forward);
                let w = AppView { ui: UiView { file_search: Some((q, m, c2 as usize)), ..v.ui }, ..v };
                lemma_jump_ok(w, m[c2].row as int);
            }
        },
        None => {
            let t = if forward {
                change_from(v.diff, v.scroll + 1)
            } else {
                change_upto(v.diff, v.scroll - 1)
            };
            if t is Some {
                lemma_jump_ok(v, t->0);
            }
        },
    }
}

/// Every key keeps the file list; only the file keys move the selection
/// and only '1' and '2' change which panes are shown.
proof fn lemma_key_frame(v: AppView, key: Key, ctrl: bool)
    requires
        v.diff.len() <= usize::MAX,
    ensures
        key_frame(v, key_step(v, key, ctrl).0, key),
{
    if v.show_help {
    } else if v.ui.config_modal is Some {
        lemma_frame_modal(v, key);
    } else if v.ui.project is Some {
        reveal(project_step);
        reveal(popup_close_spec);
        reveal(popup_move_spec);
        reveal(popup_open_spec);
    } else if v.ui.search_input is Some {
        lemma_frame_prompt(v, key, ctrl);
    } else if key == Key::Char('n') || key == Key::Char('N') {
        lemma_frame_hop(v, key == Key::Char('n'));
    } else {
        lemma_frame_normal(v, key, ctrl);
    }
}

/// No key moves the selection off the file list, and no key changes the
/// file list.
pub proof fn lemma_keys_keep_selection(v: AppView, key: Key, ctrl: bool)
    requires
        v.diff.len() <= usize::MAX,
        selection_ok(v),
    ensures
        selection_ok(key_step(v, key, ctrl).0),
        key_step(v, key, ctrl).0.files == v.files,
{
    lemma_key_frame(v, key, ctrl);
    lemma_shown_from_bound(v.files, filter_of_view(v), v.selected + 1);
    lemma_shown_upto_bound(v.files, filter_of_view(v), v.selected - 1);
    reveal(select_next_spec);
    reveal(select_prev_spec);
}

/// At least one of the two panes is always shown: no key hides the last
/// one.
pub proof fn lemma_a_pane_stays(v: AppView, key: Key, ctrl: bool)
    requires
        v.diff.len() <= usize::MAX,
        v.ui.show_old || v.ui.show_new,
    ensures
        key_step(v, key, ctrl).0.ui.show_old || key_step(v, key, ctrl).0.ui.show_new,
{
    lemma_key_frame(v, key, ctrl);
    reveal(pane_spec);
}

/// While the help overlay is open, keys other than Esc, '?' and 'q' change
/// nothing and ask for no work.
pub proof fn lemma_help_is_modal(v: AppView, key: Key, ctrl: bool)
    requires
        v.show_help,
        key != Key::Esc,
        key != Key::Char('?'),
        key != Key::Char('q'),
    ensures
        key_step(v, key, ctrl).0 == v,
        key_step(v, key, ctrl).1 == EffectSpec::Nothing,
{
}

/// Esc first clears an in-file search, then the file-panel filters, and
/// only then quits.
pub proof fn lemma_escape_clears_before_quitting(v: AppView)
    requires
        !v.show_help,
        v.ui.config_modal is None,
        v.ui.project is None,
        v.ui.search_input is None,
        v.ui.file_search is Some || v.ui.path_filter is Some || v.ui.content_filter is Some,
    ensures
        key_step(v, Key::Esc, false).0.quit == v.quit,
        v.ui.file_search is Some ==> key_step(v, Key::Esc, false).0.ui.file_search is None
            && key_step(v, Key::Esc, false).0.ui.path_filter == v.ui.path_filter
            && key_step(v, Key::Esc, false).0.ui.content_filter == v.ui.content_filter,
        v.ui.file_search is None ==> key_step(v, Key::Esc, false).0.ui.path_filter is None
            && key_step(v, Key::Esc, false).0.ui.content_filter is None,
{
    reveal(escape_spec);
}

/// 'n' then 'N' during a search brings the match cursor back.
pub proof fn lemma_next_then_previous_match(v: AppView)
    requires
        v.ui.file_search matches Some((q, m, c)) && 0 < m.len() <= usize::MAX && c < m.len(),
    ensures
        hop_spec(hop_spec(v, true), false).ui.file_search == v.ui.file_search,
{
    reveal(hop_match_spec);
    reveal(jump_spec);
    let (q, m, c) = v.ui.file_search->0;
    let len = m.len() as int;
    let c1 = cursor_step(c, len, true);
    assert((c as int) % len == c as int) by {
        vstd::arithmetic::div_mod::lemma_small_mod(c as nat, len as nat);
    }
    assert(0 <= c1 < len);
    assert(c1 % len == c1) by {
        vstd::arithmetic::div_mod::lemma_small_mod(c1 as nat, len as nat);
    }
    assert(cursor_step(c1 as usize, len, false) == c as int);
}

/// While a filter prompt is open, the filter it edits is what has been
/// typed (none while it is empty): every key keeps it so or closes the
/// prompt.
pub proof fn lemma_filter_follows_typing(v: AppView, key: Key, ctrl: bool)
    requires
        !v.show_help,
        v.ui.config_modal is None,
        v.ui.project is None,
        v.ui.search_input matches Some((k, q)) && k != SearchKind::File && prompt_filter(v, k) == filter_of(q),
    ensures
        ({
            let w = key_step(v, key, ctrl).0;
            ||| w.ui.search_input is None
            ||| (w.ui.search_input matches Some((k2, q2)) && k2 == prompt_kind(v) && prompt_filter(w, k2) == filter_of(
                q2,
            ))
        }),
{
    reveal(prompt_cancel_spec);
    reveal(prompt_enter_spec);
    reveal(prompt_back_spec);
    reveal(prompt_type_spec);
}

} // verus!
