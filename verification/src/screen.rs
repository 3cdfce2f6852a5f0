//! The texts around the diff panes: the status bar, the footer (the
//! search prompt, the committed search, a status message or the key
//! hints), the file panel's title and the rows of the config editor.

use vstd::prelude::*;
use vstd::string::*;

use crate::config::{field_label, value_label_spec, Config, ConfigField};
use crate::pane::{decimal, decimal_string, spaces};
use crate::layout::{window_offset, window_offset_spec};
use crate::project::{matches_view, MatchSpec, ProjectMatch, ProjectSearch};
use crate::search::{FileSearch, SearchInput, SearchKind};
use crate::text::{chars_of, string_of, trim, trim_spec};
use crate::types::{mode_label, DiffMode};

verus! {

// ---------------------------------------------------------------------
// Status bar
// ---------------------------------------------------------------------

/// The status bar: branch, diff mode, base branch and number of changed
/// files.
pub open spec fn status_bar_spec(branch: Seq<char>, mode: Seq<char>, base: Seq<char>, files: usize) -> Seq<char> {
    " gispect | "@ + branch + " | mode: "@ + mode + " | base: "@ + base + " | "@ + decimal(files as nat)
        + " files changed"@
}

/// The text of the status bar.
pub fn status_bar_text(branch: &str, mode: &DiffMode, base: &str, files: usize) -> (r: String)
    ensures
        r@ == status_bar_spec(branch@, mode_label(mode@), base@, files),
{
    let label = mode.label();
    let count = decimal_string(files);
    let r = String::from_str(" gispect | ").concat(branch).concat(" | mode: ").concat(label.as_str()).concat(
        " | base: ",
    ).concat(base).concat(" | ").concat(count.as_str()).concat(" files changed");
    r
}

/// The banner announcing an available update, given its short hash.
pub fn update_banner(short_hash: &str) -> (r: String)
    ensures
        r@ == "  UPDATE AVAILABLE: "@ + short_hash@ + " (press U)"@,
{
    String::from_str("  UPDATE AVAILABLE: ").concat(short_hash).concat(" (press U)")
}

// ---------------------------------------------------------------------
// Footer
// ---------------------------------------------------------------------

/// What the footer line shows.
#[derive(Debug, Clone, PartialEq, Eq)]
pub enum Footer {
    /// A search prompt being typed: its prefix, the text typed so far and
    /// a dimmed hint.
    Prompt { prefix: String, query: String, hint: String },
    /// The committed in-file search: its query and its dimmed match
    /// counter.
    Search { query: String, detail: String },
    /// A status message.
    Status(String),
    /// The key hints.
    Hints(String),
}

/// Mathematical model of a [`Footer`].
pub enum FooterSpec {
    Prompt(Seq<char>, Seq<char>, Seq<char>),
    Search(Seq<char>, Seq<char>),
    Status(Seq<char>),
    Hints(Seq<char>),
}

impl View for Footer {
    type V = FooterSpec;

    open spec fn view(&self) -> FooterSpec {
        match self {
            Footer::Prompt { prefix, query, hint } => FooterSpec::Prompt(prefix@, query@, hint@),
            Footer::Search { query, detail } => FooterSpec::Search(query@, detail@),
            Footer::Status(s) => FooterSpec::Status(s@),
            Footer::Hints(h) => FooterSpec::Hints(h@),
        }
    }
}

/// The prefix of a search prompt.
pub open spec fn prompt_prefix(kind: SearchKind) -> Seq<char> {
    match kind {
        SearchKind::File => " /"@,
        SearchKind::Content => " search all: "@,
        SearchKind::PathFilter => " filter: "@,
    }
}

/// The hint after a search prompt.
pub open spec fn prompt_hint(kind: SearchKind) -> Seq<char> {
    match kind {
        SearchKind::File => "  (Enter search · Esc cancel)"@,
        SearchKind::Content => "  (Enter search all files · Esc clear)"@,
        SearchKind::PathFilter => "  (Enter keep filter · Esc clear)"@,
    }
}

/// The counter of a committed search: which match of how many, or that
/// there is none.
pub open spec fn search_detail(current: usize, total: usize) -> Seq<char> {
    if total == 0 {
        " — no matches  Esc clear"@
    } else {
        " — match "@ + decimal((current + 1) as nat) + "/"@ + decimal(total as nat) + "  n/N next/prev · Esc clear"@
    }
}

/// The key hints shown when nothing else is.
pub open spec fn hints_spec() -> Seq<char> {
    " j/k files  J/K scroll  n/N change  / search  ? help  q quit"@
}

/// The footer: a prompt being typed comes first, then a status message,
/// then the committed search, else the key hints.
pub open spec fn footer_spec(
    status: Option<Seq<char>>,
    input: Option<(SearchKind, Seq<char>)>,
    search: Option<(Seq<char>, usize, usize)>,
) -> FooterSpec {
    match input {
        Some((kind, q)) => FooterSpec::Prompt(prompt_prefix(kind), q, prompt_hint(kind)),
        None => match status {
            Some(s) => FooterSpec::Status(" "@ + s),
            None => match search {
                Some((q, current, total)) => FooterSpec::Search(" /"@ + q, search_detail(current, total)),
                None => FooterSpec::Hints(hints_spec()),
            },
        },
    }
}

/// What the footer shows, given the status message, the prompt being
/// typed and the committed search.
pub fn footer(status: &Option<String>, input: &Option<SearchInput>, search: &Option<FileSearch>) -> (r: Footer)
    requires
        search matches Some(fs) ==> fs.current < usize::MAX,
    ensures
        r@ == footer_spec(
            match status {
                Some(s) => Some(s@),
                None => None,
            },
            match input {
                Some(i) => Some((i.kind, i.query@)),
                None => None,
            },
            match search {
                Some(fs) => Some((fs.query@, fs.current, fs.matches@.len() as usize)),
                None => None,
            },
        ),
{
    match input {
        Some(i) => {
            let (prefix, hint) = match i.kind {
                SearchKind::File => (" /", "  (Enter search · Esc cancel)"),
                SearchKind::Content => (" search all: ", "  (Enter search all files · Esc clear)"),
                SearchKind::PathFilter => (" filter: ", "  (Enter keep filter · Esc clear)"),
            };
            return Footer::Prompt {
                prefix: String::from_str(prefix),
                query: i.query.clone(),
                hint: String::from_str(hint),
            };
        },
        None => {},
    }
    match status {
        Some(s) => {
            return Footer::Status(String::from_str(" ").concat(s.as_str()));
        },
        None => {},
    }
    match search {
        Some(fs) => {
            let total = fs.matches.len();
            let detail = if total == 0 {
                String::from_str(" — no matches  Esc clear")
            } else {
                let at = decimal_string(fs.current + 1);
                let of = decimal_string(total);
                String::from_str(" — match ").concat(at.as_str()).concat("/").concat(of.as_str()).concat(
                    "  n/N next/prev · Esc clear",
                )
            };
            Footer::Search { query: String::from_str(" /").concat(fs.query.as_str()), detail }
        },
        None => Footer::Hints(String::from_str(" j/k files  J/K scroll  n/N change  / search  ? help  q quit")),
    }
}

// ---------------------------------------------------------------------
// File panel
// ---------------------------------------------------------------------

/// The file panel's title: the number of files (shown of all, under a
/// filter), the view (tree or list) and the width (wide or auto).
pub open spec fn panel_title_spec(shown: usize, total: usize, filtered: bool, tree: bool, wide: bool) -> Seq<char> {
    let count = if filtered {
        decimal(shown as nat) + "/"@ + decimal(total as nat)
    } else {
        decimal(total as nat)
    };
    "Files ("@ + count + ") [f] "@ + (if tree {
        "tree"@
    } else {
        "list"@
    }) + " [t] "@ + (if wide {
        "wide"@
    } else {
        "auto"@
    }) + " [F]"@
}

/// The title of the file panel.
pub fn panel_title(shown: usize, total: usize, filtered: bool, tree: bool, wide: bool) -> (r: String)
    ensures
        r@ == panel_title_spec(shown, total, filtered, tree, wide),
{
    let count = if filtered {
        decimal_string(shown).concat("/").concat(decimal_string(total).as_str())
    } else {
        decimal_string(total)
    };
    let view = if tree {
        "tree"
    } else {
        "list"
    };
    let width = if wide {
        "wide"
    } else {
        "auto"
    };
    String::from_str("Files (").concat(count.as_str()).concat(") [f] ").concat(view).concat(" [t] ").concat(
        width,
    ).concat(" [F]")
}

/// What the file panel says when it has no rows.
pub fn panel_empty_message(total: usize) -> (r: &'static str)
    ensures
        r@ == (if total == 0 {
            "(no changed files)"@
        } else {
            "(no files match filter)"@
        }),
{
    if total == 0 {
        "(no changed files)"
    } else {
        "(no files match filter)"
    }
}

/// A file's change counts as shown in the panel: `+added` and `-removed`.
pub fn change_counts(additions: usize, deletions: usize) -> (r: (String, String))
    ensures
        r.0@ == "+"@ + decimal(additions as nat),
        r.1@ == "-"@ + decimal(deletions as nat),
{
    (String::from_str("+").concat(decimal_string(additions).as_str()), String::from_str("-").concat(
        decimal_string(deletions).as_str(),
    ))
}

// ---------------------------------------------------------------------
// Config editor
// ---------------------------------------------------------------------

/// `s` padded with spaces on the right to at least `width` characters.
pub open spec fn pad_right(s: Seq<char>, width: int) -> Seq<char> {
    s + spaces(width - s.len())
}

/// One row of the config editor: the field's label in a column of 20,
/// then its value.
pub open spec fn modal_row_spec(field: ConfigField, draft: Config) -> Seq<char> {
    " "@ + pad_right(field_label(field), 20) + " "@ + value_label_spec(draft, field) + " "@
}

/// The text of a row of the config editor.
pub fn modal_row_text(field: ConfigField, draft: &Config) -> (r: String)
    ensures
        r@ == modal_row_spec(field, *draft),
{
    let label = field.label();
    let n = chars_of(label).len();
    let mut padded = String::from_str(label);
    let mut k: usize = n;
    while k < 20
        invariant
            n == field_label(field).len(),
            n <= k <= 20 || (k == n && n > 20),
            padded@ == field_label(field) + spaces(k - n),
        decreases 20 - k,
    {
        let ghost before = padded@;
        padded.push(' ');
        assert(padded@ =~= field_label(field) + spaces(k + 1 - n));
        k = k + 1;
    }
    assert(padded@ =~= pad_right(field_label(field), 20));
    let value = draft.value_label(field);
    String::from_str(" ").concat(padded.as_str()).concat(" ").concat(value.as_str()).concat(" ")
}

// ---------------------------------------------------------------------
// Project-search results popup
// ---------------------------------------------------------------------

/// The title of the results popup.
pub open spec fn project_title_spec(q: Seq<char>, count: usize) -> Seq<char> {
    "Search \""@ + q + "\" — "@ + decimal(count as nat) + " matches  (j/k move · Enter open · Esc close)"@
}

/// The title of the results popup for `query` with `count` matches.
pub fn project_title(query: &str, count: usize) -> (r: String)
    ensures
        r@ == project_title_spec(query@, count),
{
    String::from_str("Search \"").concat(query).concat("\" — ").concat(decimal_string(count).as_str()).concat(
        " matches  (j/k move · Enter open · Esc close)",
    )
}

/// At most the first `n` characters of `s`.
pub open spec fn cut(s: Seq<char>, n: int) -> Seq<char> {
    if s.len() <= n {
        s
    } else {
        s.take(n)
    }
}

/// A row of the results popup cut to `width` characters: the match's
/// location (`path:line: `), an `(old) ` mark for a line of a deleted
/// file's old version, and the line without surrounding whitespace, each
/// taking what room the ones before it left.
pub open spec fn project_row_spec(m: MatchSpec, width: usize) -> (Seq<char>, Seq<char>, Seq<char>) {
    let loc = m.path + ":"@ + decimal(m.line_no as nat) + ": "@;
    let mark = if m.in_old {
        "(old) "@
    } else {
        Seq::empty()
    };
    let a = cut(loc, width as int);
    let b = cut(mark, width - a.len());
    (a, b, cut(trim_spec(m.line), width - a.len() - b.len()))
}

/// The first `n` characters of `s` (all of them when it is shorter).
fn cut_exec(s: &str, n: usize) -> (r: String)
    ensures
        r@ == cut(s@, n as int),
        r@.len() <= n,
{
    let cs = chars_of(s);
    let k = if cs.len() <= n {
        cs.len()
    } else {
        n
    };
    let r = string_of(&cs, 0, k);
    assert(cs@.subrange(0, k as int) =~= cut(s@, n as int));
    r
}

/// The three parts of a row of the results popup, cut to `width`.
pub fn project_row(m: &ProjectMatch, width: usize) -> (r: (String, String, String))
    ensures
        (r.0@, r.1@, r.2@) == project_row_spec(m@, width),
{
    let loc = m.path.clone().concat(":").concat(decimal_string(m.line_no).as_str()).concat(": ");
    let a = cut_exec(loc.as_str(), width);
    let left = width - chars_of(a.as_str()).len();
    let b = if m.in_old {
        cut_exec("(old) ", left)
    } else {
        String::new()
    };
    proof {
        if !m.in_old {
            assert(b@ =~= cut(Seq::<char>::empty(), left as int));
        }
    }
    let left2 = left - chars_of(b.as_str()).len();
    let t = trim(m.line.as_str());
    let c = cut_exec(t.as_str(), left2);
    (a, b, c)
}

/// The rows the results popup shows in `height` lines of `width`
/// characters: the matches of the window that keeps the selected one in
/// view (see [`window_offset_spec`]), each as the three parts of
/// [`project_row_spec`] and whether it is the selected match.
pub open spec fn popup_rows_spec(ms: Seq<MatchSpec>, selected: usize, width: usize, height: usize) -> Seq<(Seq<char>, Seq<char>, Seq<char>, bool)> {
    let off = window_offset_spec(selected as int, ms.len() as int, height as int);
    let n = if ms.len() - off <= height {
        ms.len() - off
    } else {
        height as int
    };
    Seq::new(
        n as nat,
        |k: int|
            {
                let row = project_row_spec(ms[off + k], width);
                (row.0, row.1, row.2, off + k == selected)
            },
    )
}

/// The rows of the results popup for `height` lines of `width` characters.
pub fn popup_rows(ps: &ProjectSearch, width: usize, height: usize) -> (r: Vec<(String, String, String, bool)>)
    ensures
        r@.len() == popup_rows_spec(matches_view(ps.matches@), ps.selected, width, height).len(),
        forall|k: int| 0 <= k < r@.len() ==> {
            let e = #[trigger] popup_rows_spec(matches_view(ps.matches@), ps.selected, width, height)[k];
            &&& r@[k].0@ == e.0
            &&& r@[k].1@ == e.1
            &&& r@[k].2@ == e.2
            &&& r@[k].3 == e.3
        },
{
    let total = ps.matches.len();
    let off = window_offset(ps.selected, total, height);
    let ghost spec_rows = popup_rows_spec(matches_view(ps.matches@), ps.selected, width, height);
    let end = if total - off <= height {
        total
    } else {
        off + height
    };
    let mut r: Vec<(String, String, String, bool)> = Vec::new();
    let mut i = off;
    while i < end
        invariant
            off <= i <= end <= total,
            total == ps.matches@.len(),
            off == window_offset_spec(ps.selected as int, total as int, height as int),
            spec_rows == popup_rows_spec(matches_view(ps.matches@), ps.selected, width, height),
            spec_rows.len() == end - off,
            r@.len() == i - off,
            forall|k: int| 0 <= k < r@.len() ==> {
                let e = #[trigger] spec_rows[k];
                &&& r@[k].0@ == e.0
                &&& r@[k].1@ == e.1
                &&& r@[k].2@ == e.2
                &&& r@[k].3 == e.3
            },
        decreases end - i,
    {
        let (a, b, c) = project_row(&ps.matches[i], width);
        r.push((a, b, c, i == ps.selected));
        i = i + 1;
    }
    r
}

} // verus!
