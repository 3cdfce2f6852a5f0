//! Syntax highlighting of whole files with `syntect`: choosing a syntax
//! for a path, cutting the text into lines, and turning each highlighted
//! line into terminal-styled segments (or a plain line where highlighting
//! fails). `syntect` and `two_face` do the parsing and coloring.

use vstd::prelude::*;
use vstd::string::*;

use ratatui::style::Style;
use syntect::easy::HighlightLines;
use syntect::highlighting::Theme;
use syntect::parsing::{SyntaxReference, SyntaxSet};

use crate::segments::{segs_view, style_patch};
use crate::text::{chars_of, lines_spec, split_incl, split_inclusive_newline, str_eq, strs_view, string_of};

verus! {

/// A set of syntax definitions (`syntect::parsing::SyntaxSet`).
#[verifier::external_type_specification]
#[verifier::external_body]
pub struct ExSyntaxSet(syntect::parsing::SyntaxSet);

/// One syntax definition of a set (`syntect::parsing::SyntaxReference`).
#[verifier::external_type_specification]
#[verifier::external_body]
pub struct ExSyntaxReference(syntect::parsing::SyntaxReference);

/// A color theme (`syntect::highlighting::Theme`).
#[verifier::external_type_specification]
#[verifier::external_body]
pub struct ExTheme(syntect::highlighting::Theme);

/// A line-by-line highlighter and its parse state
/// (`syntect::easy::HighlightLines`).
#[verifier::external_type_specification]
#[verifier::external_body]
pub struct ExHighlightLines<'a>(syntect::easy::HighlightLines<'a>);

/// The style `syntect` gives a piece of text (`syntect::highlighting::Style`).
#[verifier::external_type_specification]
#[verifier::external_body]
pub struct ExSynStyle(syntect::highlighting::Style);

// ---------------------------------------------------------------------
// Cache keys
// ---------------------------------------------------------------------

/// The hash std's `DefaultHasher` gives the pair `(path, text)`.
pub uninterp spec fn content_hash(path: Seq<char>, text: Seq<char>) -> u64;

/// Cache key for a file's highlighted output: `(path, text)` hashed with
/// `std::collections::hash_map::DefaultHasher` as made by `new` (fixed
/// keys, so equal inputs give equal keys for a given build of std), which
/// is what the name `content_hash` states. Which key comes out is not
/// stated.
#[verifier::external_body]
pub fn cache_key(path: &str, text: &str) -> (r: u64)
    ensures
        r == content_hash(path@, text@),
{
    std::hash::BuildHasher::hash_one(
        &std::hash::BuildHasherDefault::<std::collections::hash_map::DefaultHasher>::default(),
        (path, text),
    )
}

// ---------------------------------------------------------------------
// Limits and line breaks
// ---------------------------------------------------------------------

/// Largest input (in bytes) worth highlighting, to keep the UI responsive.
pub const MAX_BYTES: usize = 1048576;

/// Largest number of lines worth highlighting.
pub const MAX_LINES: usize = 20000;

/// The number of lines `str::lines` yields for `t`.
pub open spec fn line_count(t: Seq<char>) -> int {
    crate::text::lines_spec(t).len() as int
}

/// The byte length `str::len` reports for a text.
pub open spec fn byte_len(t: Seq<char>) -> int {
    (vstd::utf8::encode_utf8(t).len() as usize) as int
}

/// Whether a text of `bytes` bytes and characters `t` is small enough to
/// highlight.
pub open spec fn within_limits(bytes: int, t: Seq<char>) -> bool {
    bytes <= MAX_BYTES && line_count(t) <= MAX_LINES
}

/// Text without its trailing run of '\n' and '\r' characters
/// (`trim_end_matches(['\n', '\r'])`).
pub open spec fn trim_breaks(s: Seq<char>) -> Seq<char>
    decreases s.len(),
{
    if s.len() > 0 && (s.last() == '\n' || s.last() == '\r') {
        trim_breaks(s.drop_last())
    } else {
        s
    }
}

proof fn lemma_trim_breaks_prefix(s: Seq<char>)
    ensures
        trim_breaks(s).len() <= s.len(),
        trim_breaks(s) == s.take(trim_breaks(s).len() as int),
    decreases s.len(),
{
    if s.len() > 0 && (s.last() == '\n' || s.last() == '\r') {
        lemma_trim_breaks_prefix(s.drop_last());
        assert(s.drop_last().take(trim_breaks(s).len() as int) =~= s.take(trim_breaks(s).len() as int));
    } else {
        assert(s.take(s.len() as int) =~= s);
    }
}

/// A copy of `s` without its trailing line breaks.
pub fn trim_line_breaks(s: &str) -> (r: String)
    ensures
        r@ == trim_breaks(s@),
{
    let cs = chars_of(s);
    let mut n = cs.len();
    assert(cs@.take(n as int) =~= cs@);
    while n > 0 && (cs[n - 1] == '\n' || cs[n - 1] == '\r')
        invariant
            cs@ == s@,
            n <= cs@.len(),
            trim_breaks(s@) == trim_breaks(cs@.take(n as int)),
        decreases n,
    {
        assert(cs@.take(n as int).drop_last() =~= cs@.take(n - 1));
        n = n - 1;
    }
    proof {
        let t = cs@.take(n as int);
        if n > 0 {
            assert(t.last() == cs@[n - 1]);
        }
    }
    string_of(&cs, 0, n)
}

// ---------------------------------------------------------------------
// Choosing a syntax
// ---------------------------------------------------------------------

/// The extension a syntax set may know under another name.
pub open spec fn alias_spec(ext: Seq<char>) -> Option<Seq<char>> {
    if ext == "jsx"@ || ext == "mjs"@ || ext == "cjs"@ {
        Some("js"@)
    } else if ext == "mts"@ || ext == "cts"@ {
        Some("ts"@)
    } else {
        None
    }
}

/// Fallback mapping for extensions the syntax set doesn't know directly.
pub fn extension_alias(ext: &str) -> (r: Option<&'static str>)
    ensures
        match r {
            Some(a) => alias_spec(ext@) == Some(a@),
            None => alias_spec(ext@) is None,
        },
{
    if str_eq(ext, "jsx") || str_eq(ext, "mjs") || str_eq(ext, "cjs") {
        Some("js")
    } else if str_eq(ext, "mts") || str_eq(ext, "cts") {
        Some("ts")
    } else {
        None
    }
}

/// Whether `piece` occurs in `s` as a run of consecutive characters.
pub open spec fn occurs_in(piece: Seq<char>, s: Seq<char>) -> bool {
    exists|i: int| 0 <= i && i + piece.len() <= s.len() && #[trigger] s.subrange(i, i + piece.len()) == piece
}

/// The last index of `c` in `s`, or -1.
pub open spec fn last_index(s: Seq<char>, c: char) -> int
    decreases s.len(),
{
    if s.len() == 0 {
        -1
    } else if s.last() == c {
        s.len() - 1
    } else {
        last_index(s.drop_last(), c)
    }
}

/// The last '/'-separated part of a path.
pub open spec fn last_part(p: Seq<char>) -> Seq<char> {
    p.subrange(last_index(p, '/') + 1, p.len() as int)
}

/// The extension of a path: the text after the last '.' of its last part,
/// or nothing when that part has no '.' after its first character.
pub open spec fn ext_spec(p: Seq<char>) -> Seq<char> {
    let n = last_part(p);
    let d = last_index(n, '.');
    if d > 0 {
        n.subrange(d + 1, n.len() as int)
    } else {
        Seq::empty()
    }
}

/// A path every platform splits the same way: no '\\', no ':', not ending
/// in '/', and its last part is not ".".
pub open spec fn portable(p: Seq<char>) -> bool {
    &&& !p.contains('\\')
    &&& !p.contains(':')
    &&& (p.len() == 0 || p.last() != '/')
    &&& last_part(p) != "."@
}

/// What may be the extension of `path`: no '.' in it, a run of the path's
/// own characters, and exactly [`ext_spec`] on a [`portable`] path.
pub open spec fn ext_ok(ext: Seq<char>, path: Seq<char>) -> bool {
    &&& !ext.contains('.')
    &&& occurs_in(ext, path)
    &&& portable(path) ==> ext == ext_spec(path)
}

proof fn lemma_last_index(s: Seq<char>, c: char)
    ensures
        -1 <= last_index(s, c) < s.len(),
        last_index(s, c) >= 0 ==> s[last_index(s, c)] == c,
        forall|j: int| last_index(s, c) < j < s.len() ==> s[j] != c,
    decreases s.len(),
{
    if s.len() > 0 && s.last() != c {
        let t = s.drop_last();
        lemma_last_index(t, c);
        assert forall|j: int| last_index(s, c) < j < s.len() implies s[j] != c by {
            if j < t.len() {
                assert(s[j] == t[j]);
            }
        }
    }
}

/// The extension of a path holds no '.' and is a run of the path's own
/// characters.
proof fn lemma_ext_spec(p: Seq<char>)
    ensures
        ext_ok(ext_spec(p), p),
{
    lemma_last_index(p, '/');
    let k = last_index(p, '/') + 1;
    let n = last_part(p);
    lemma_last_index(n, '.');
    let d = last_index(n, '.');
    let e = ext_spec(p);
    if d > 0 {
        assert forall|j: int| 0 <= j < e.len() implies e[j] != '.' by {
            assert(e[j] == n[d + 1 + j]);
        }
        assert(p.subrange(k + d + 1, k + d + 1 + e.len()) =~= e);
    } else {
        assert(p.subrange(0, 0int + e.len()) =~= e);
    }
}

/// `std::path::Path::extension` of `path` as text ("" when there is none
/// or it is not UTF-8). The standard library documents it as the text
/// after the last '.' of the file name, none when the name has no '.' or
/// starts with its only '.'. Which part of a path is its file name depends
/// on how the platform splits paths, so the contract states that exactly
/// for paths every platform splits alike (see [`portable`]) and, for
/// every path, that the extension holds no '.' and is a run of the path's
/// own characters.
#[verifier::external_body]
fn extension(path: &str) -> (r: &str)
    ensures
        ext_ok(r@, path@),
{
    match std::path::Path::new(path).extension() {
        Some(e) => e.to_str().unwrap_or(""),
        None => "",
    }
}

/// A syntax reference found, as a value.
pub open spec fn found(r: Option<&SyntaxReference>) -> Option<SyntaxReference> {
    match r {
        Some(x) => Some(*x),
        None => None,
    }
}

/// What `SyntaxSet::find_syntax_by_extension` finds in a set for an
/// extension.
pub uninterp spec fn syntax_for_extension(set: SyntaxSet, ext: Seq<char>) -> Option<SyntaxReference>;

/// What `SyntaxSet::find_syntax_by_first_line` finds in a set for a line.
pub uninterp spec fn syntax_for_first_line(set: SyntaxSet, line: Seq<char>) -> Option<SyntaxReference>;

/// What `SyntaxSet::find_syntax_by_name` finds in a set for a name.
pub uninterp spec fn syntax_named(set: SyntaxSet, name: Seq<char>) -> Option<SyntaxReference>;

/// `SyntaxSet::find_syntax_by_extension`: the last syntax of the set that
/// lists `ext` (ignoring ASCII case) among its extensions. What the set
/// holds is not modelled; the search depends on the set and `ext` alone,
/// which the name `syntax_for_extension` states.
#[verifier::external_body]
fn by_extension<'a>(set: &'a SyntaxSet, ext: &str) -> (r: Option<&'a SyntaxReference>)
    ensures
        found(r) == syntax_for_extension(*set, ext@),
{
    set.find_syntax_by_extension(ext)
}

/// `SyntaxSet::find_syntax_by_first_line`: the last syntax whose
/// first-line pattern (a shebang, a mode line) matches `line`, if any. It
/// depends on the set and `line` alone, which the name
/// `syntax_for_first_line` states.
#[verifier::external_body]
fn by_first_line<'a>(set: &'a SyntaxSet, line: &str) -> (r: Option<&'a SyntaxReference>)
    ensures
        found(r) == syntax_for_first_line(*set, line@),
{
    set.find_syntax_by_first_line(line)
}

/// `SyntaxSet::find_syntax_by_name`: the last syntax of the set with
/// exactly this name, if any; it depends on the set and `name` alone,
/// which the name `syntax_named` states.
#[verifier::external_body]
fn by_name<'a>(set: &'a SyntaxSet, name: &str) -> (r: Option<&'a SyntaxReference>)
    ensures
        found(r) == syntax_named(*set, name@),
{
    set.find_syntax_by_name(name)
}

// ---------------------------------------------------------------------
// Loading
// ---------------------------------------------------------------------

/// `two_face::syntax::extra_newlines`: syntect's default syntaxes plus
/// bat's extra ones, for lines that keep their '\n'. Nothing is stated of
/// the set.
#[verifier::external_body]
fn load_syntaxes() -> (r: SyntaxSet) {
    two_face::syntax::extra_newlines()
}

/// The theme of this name among `syntect`'s default themes.
pub uninterp spec fn default_theme_named(name: Seq<char>) -> Option<Theme>;

/// The default theme of this name from `syntect`'s
/// `ThemeSet::load_defaults`, which reads themes built into the crate, so
/// the result depends on `name` alone (the name `default_theme_named`).
/// Its documentation lists the themes `base16-ocean.dark`,
/// `base16-eighties.dark`, `base16-mocha.dark`, `base16-ocean.light`,
/// `InspiredGitHub`, `Solarized (dark)` and `Solarized (light)`; the
/// contract states that the one this module asks for is there.
#[verifier::external_body]
fn default_theme(name: &str) -> (r: Option<Theme>)
    ensures
        r == default_theme_named(name@),
        name@ == "base16-eighties.dark"@ ==> r is Some,
{
    syntect::highlighting::ThemeSet::load_defaults().themes.get(name).cloned()
}

/// The first of `syntect`'s default themes in name order; the set is
/// documented to be non-empty, which the contract states.
#[verifier::external_body]
fn any_default_theme() -> (r: Option<Theme>)
    ensures
        r is Some,
{
    syntect::highlighting::ThemeSet::load_defaults().themes.values().next().cloned()
}

/// The unstyled terminal style, `ratatui::style::Style::default()`: no
/// colors and no modifiers, so that patching any style over it gives that
/// style back (`Style::patch` takes the other style's colors where it has
/// them and its modifiers), which the contract states; only the default
/// style does so for every style.
#[verifier::external_body]
fn default_style() -> (r: Style)
    ensures
        forall|x: Style| #[trigger] style_patch(r, x) == x,
{
    Style::default()
}

// ---------------------------------------------------------------------
// Highlighting lines
// ---------------------------------------------------------------------

/// The text of a highlighted line's pieces, concatenated.
pub open spec fn pieces_text(p: Seq<(syntect::highlighting::Style, String)>) -> Seq<char>
    decreases p.len(),
{
    if p.len() == 0 {
        Seq::empty()
    } else {
        pieces_text(p.drop_last()) + p.last().1@
    }
}

/// A syntect line highlighter together with what its output depends on:
/// the syntax set it reads with, the syntax and theme it was made for, and
/// the lines fed to it so far. Only its two wrappers touch it.
pub struct LineHighlighter<'a> {
    inner: HighlightLines<'a>,
    set: Ghost<SyntaxSet>,
    syntax: Ghost<SyntaxReference>,
    theme: Ghost<Theme>,
    fed: Ghost<Seq<Seq<char>>>,
}

/// The pieces syntect gives the last of `fed` when the lines of `fed` are
/// highlighted one after another, from a fresh start, with this syntax
/// set, syntax and theme (`None` when syntect reports an error).
pub uninterp spec fn syntect_line(
    set: SyntaxSet,
    syntax: SyntaxReference,
    theme: Theme,
    fed: Seq<Seq<char>>,
) -> Option<Seq<(syntect::highlighting::Style, Seq<char>)>>;

/// The model of a highlighted line's pieces.
pub open spec fn pieces_view(p: Seq<(syntect::highlighting::Style, String)>) -> Seq<(syntect::highlighting::Style, Seq<char>)> {
    p.map_values(|x: (syntect::highlighting::Style, String)| (x.0, x.1@))
}

/// `HighlightLines::new`: a highlighter for `syntax` in `theme`, to read
/// lines with `set`; nothing fed yet.
#[verifier::external_body]
fn start_lines<'a>(set: &SyntaxSet, syntax: &SyntaxReference, theme: &'a Theme) -> (r: LineHighlighter<'a>)
    ensures
        r.set@ == *set,
        r.syntax@ == *syntax,
        r.theme@ == *theme,
        r.fed@ == Seq::<Seq<char>>::empty(),
{
    LineHighlighter {
        inner: HighlightLines::new(syntax, theme),
        set: Ghost(*set),
        syntax: Ghost(*syntax),
        theme: Ghost(*theme),
        fed: Ghost(Seq::empty()),
    }
}

/// `HighlightLines::highlight_line`, each piece of text copied out
/// (`None` when syntect reports an error). syntect's output is a function
/// of the syntax set, the syntax, the theme and the lines fed so far
/// (its parse and highlight states start fresh in `new` and change only
/// here), which the name `syntect_line` states; syntect documents that,
/// in order, the pieces make up the line, which the contract states too.
#[verifier::external_body]
fn highlight_line(
    lines: &mut LineHighlighter,
    line: &str,
    set: &SyntaxSet,
) -> (r: Option<Vec<(syntect::highlighting::Style, String)>>)
    requires
        *set == old(lines).set@,
    ensures
        final(lines).set == old(lines).set,
        final(lines).syntax == old(lines).syntax,
        final(lines).theme == old(lines).theme,
        final(lines).fed@ == old(lines).fed@.push(line@),
        match r {
            Some(p) => syntect_line(*set, old(lines).syntax@, old(lines).theme@, final(lines).fed@) == Some(pieces_view(p@)),
            None => syntect_line(*set, old(lines).syntax@, old(lines).theme@, final(lines).fed@) is None,
        },
        r matches Some(p) ==> pieces_text(p@) == line@,
{
    let r = match lines.inner.highlight_line(line, set) {
        Ok(pieces) => Some(pieces.into_iter().map(|(s, t)| (s, t.to_string())).collect()),
        Err(_) => None,
    };
    lines.fed = Ghost(lines.fed@.push(line@));
    r
}

/// The red, green and blue of a syntect style's foreground, and whether it
/// is bold and whether italic.
pub uninterp spec fn syn_style_parts(s: syntect::highlighting::Style) -> (u8, u8, u8, bool, bool);

/// The terminal style with this foreground color and nothing else set.
pub uninterp spec fn fg_rgb(red: u8, green: u8, blue: u8) -> Style;

/// A terminal style with bold added.
pub uninterp spec fn bolded(s: Style) -> Style;

/// A terminal style with italic added.
pub uninterp spec fn italicized(s: Style) -> Style;

/// The foreground color and the bold and italic flags of a syntect style
/// (its fields, read as they are: the name `syn_style_parts`).
#[verifier::external_body]
fn style_parts(s: &syntect::highlighting::Style) -> (r: (u8, u8, u8, bool, bool))
    ensures
        r == syn_style_parts(*s),
{
    (
        s.foreground.r,
        s.foreground.g,
        s.foreground.b,
        s.font_style.contains(syntect::highlighting::FontStyle::BOLD),
        s.font_style.contains(syntect::highlighting::FontStyle::ITALIC),
    )
}

/// `Style::default().fg(Color::Rgb(r, g, b))` (the name `fg_rgb`).
#[verifier::external_body]
fn rgb_style(red: u8, green: u8, blue: u8) -> (r: Style)
    ensures
        r == fg_rgb(red, green, blue),
{
    Style::default().fg(ratatui::style::Color::Rgb(red, green, blue))
}

/// `s.add_modifier(Modifier::BOLD)` (the name `bolded`).
#[verifier::external_body]
fn with_bold(s: Style) -> (r: Style)
    ensures
        r == bolded(s),
{
    s.add_modifier(ratatui::style::Modifier::BOLD)
}

/// `s.add_modifier(Modifier::ITALIC)` (the name `italicized`).
#[verifier::external_body]
fn with_italic(s: Style) -> (r: Style)
    ensures
        r == italicized(s),
{
    s.add_modifier(ratatui::style::Modifier::ITALIC)
}

/// The terminal style of a syntect style: its foreground color, then bold
/// and italic when it has them.
pub open spec fn terminal_style(s: syntect::highlighting::Style) -> Style {
    let (red, green, blue, bold, italic) = syn_style_parts(s);
    let base = fg_rgb(red, green, blue);
    let b = if bold {
        bolded(base)
    } else {
        base
    };
    if italic {
        italicized(b)
    } else {
        b
    }
}

/// The terminal style of a syntect style: its foreground color, bold and
/// italic.
fn to_terminal_style(s: &syntect::highlighting::Style) -> (r: Style)
    ensures
        r == terminal_style(*s),
{
    let (r, g, b, bold, italic) = style_parts(s);
    let mut out = rgb_style(r, g, b);
    if bold {
        out = with_bold(out);
    }
    if italic {
        out = with_italic(out);
    }
    out
}

/// What a highlighted line may be: the line without its line breaks as
/// one unstyled segment (when highlighting it failed), or pieces that in
/// order make up the line, each without its trailing line breaks.
pub open spec fn line_result(line: Seq<char>, segs: Seq<(Style, Seq<char>)>, plain: Style) -> bool {
    ||| segs == seq![(plain, trim_breaks(line))]
    ||| exists|texts: Seq<Seq<char>>|
        #![trigger concat_texts(texts)]
        concat_texts(texts) == line && texts.len() == segs.len() && forall|k: int|
            0 <= k < segs.len() ==> #[trigger] segs[k].1 == trim_breaks(texts[k])
}

/// Texts concatenated.
pub open spec fn concat_texts(texts: Seq<Seq<char>>) -> Seq<char>
    decreases texts.len(),
{
    if texts.len() == 0 {
        Seq::empty()
    } else {
        concat_texts(texts.drop_last()) + texts.last()
    }
}

/// A highlighted line in terminal styles: each piece's terminal style with
/// its text without line breaks.
pub open spec fn styled_spec(p: Seq<(syntect::highlighting::Style, Seq<char>)>) -> Seq<(Style, Seq<char>)> {
    p.map_values(|x: (syntect::highlighting::Style, Seq<char>)| (terminal_style(x.0), trim_breaks(x.1)))
}

/// The segments of line `i` of the lines `ls`: with a syntax, syntect's
/// pieces for it (after the lines before it) in terminal styles, or the
/// plain line when syntect fails; without one, the plain line.
pub open spec fn line_segments(
    set: SyntaxSet,
    syntax: Option<SyntaxReference>,
    theme: Theme,
    plain: Style,
    ls: Seq<Seq<char>>,
    i: int,
) -> Seq<(Style, Seq<char>)> {
    match syntax {
        Some(s) => match syntect_line(set, s, theme, ls.take(i + 1)) {
            Some(p) => styled_spec(p),
            None => seq![(plain, trim_breaks(ls[i]))],
        },
        None => seq![(plain, trim_breaks(ls[i]))],
    }
}

/// What highlighting text `t` with `syntax` gives: no lines when the text
/// is too large, else one entry per line (split after each '\n'), each
/// [`line_segments`] (which [`line_result`] describes as text).
pub open spec fn highlighted(
    set: SyntaxSet,
    syntax: Option<SyntaxReference>,
    theme: Theme,
    plain: Style,
    t: Seq<char>,
    r: Seq<Vec<(Style, String)>>,
) -> bool {
    &&& !within_limits(byte_len(t), t) ==> r.len() == 0
    &&& within_limits(byte_len(t), t) ==> {
        &&& r.len() == split_incl(t).len()
        &&& forall|i: int|
            0 <= i < r.len() ==> segs_view(#[trigger] r[i]@) == line_segments(set, syntax, theme, plain, split_incl(t), i)
        &&& forall|i: int| 0 <= i < r.len() ==> line_result(split_incl(t)[i], segs_view(#[trigger] r[i]@), plain)
    }
}

/// What a highlighter gives for `text` at `path`: the highlighting with
/// the syntax chosen for the path's extension and the text (see
/// [`syntax_choice`]). Which part of the path is its extension depends on
/// the platform; it holds no '.' and is a run of the path's characters.
pub open spec fn highlight_result(h: Highlighter, path: Seq<char>, text: Seq<char>, r: Seq<Vec<(Style, String)>>) -> bool {
    exists|ext: Seq<char>|
        #![trigger syntax_choice(h.syntax_set, ext, text)]
        ext_ok(ext, path) && highlighted(
            h.syntax_set,
            syntax_choice(h.syntax_set, ext, text),
            h.theme,
            h.plain,
            text,
            r,
        )
}

/// The syntax chosen for a file with extension `ext` and contents `text`:
/// the one for the extension, else for its alias, else for the first
/// line, else the one named "Plain Text".
pub open spec fn syntax_choice(set: SyntaxSet, ext: Seq<char>, text: Seq<char>) -> Option<SyntaxReference> {
    let by_ext = syntax_for_extension(set, ext);
    let by_alias = match alias_spec(ext) {
        Some(a) => syntax_for_extension(set, a),
        None => None,
    };
    let ls = lines_spec(text);
    let by_line = if ls.len() > 0 {
        syntax_for_first_line(set, ls[0])
    } else {
        None
    };
    if by_ext is Some {
        by_ext
    } else if by_alias is Some {
        by_alias
    } else if by_line is Some {
        by_line
    } else {
        syntax_named(set, "Plain Text"@)
    }
}

/// Wraps the syntax set and theme, loaded once at startup.
pub struct Highlighter {
    pub syntax_set: SyntaxSet,
    pub theme: Theme,
    /// The style of lines that could not be highlighted.
    pub plain: Style,
}

impl Highlighter {
    /// bat's extended syntax set and the `base16-eighties.dark` theme
    /// (or, failing that, the first default theme).
    pub fn new() -> (r: Highlighter)
        ensures
            default_theme_named("base16-eighties.dark"@) == Some(r.theme),
            forall|x: Style| #[trigger] style_patch(r.plain, x) == x,
    {
        let syntax_set = load_syntaxes();
        let theme = match default_theme("base16-eighties.dark") {
            Some(t) => t,
            None => {
                let any = any_default_theme();
                match any {
                    Some(t) => t,
                    None => {
                        proof {
                            assert(false);
                        }
                        vstd::pervasive::unreached()
                    },
                }
            },
        };
        Highlighter { syntax_set, theme, plain: default_style() }
    }

    /// The syntax for `path`: by its extension, then by the alias of its
    /// extension, then by the first line of `text`, then plain text.
    fn choose_syntax(&self, path: &str, text: &str) -> (r: Option<&SyntaxReference>)
        ensures
            exists|ext: Seq<char>|
                #![trigger syntax_choice(self.syntax_set, ext, text@)]
                ext_ok(ext, path@) && found(r) == syntax_choice(self.syntax_set, ext, text@),
    {
        let ext = extension(path);
        let ghost e = ext@;
        let ghost set = self.syntax_set;
        let by_ext = by_extension(&self.syntax_set, ext);
        if by_ext.is_some() {
            assert(found(by_ext) == syntax_choice(set, e, text@));
            return by_ext;
        }
        match extension_alias(ext) {
            Some(alias) => {
                let by_alias = by_extension(&self.syntax_set, alias);
                if by_alias.is_some() {
                    assert(found(by_alias) == syntax_choice(set, e, text@));
                    return by_alias;
                }
            },
            None => {},
        }
        let lines = crate::text::lines_of(text);
        if lines.len() > 0 {
            assert(strs_view(lines@)[0] == lines@[0]@);
            let by_line = by_first_line(&self.syntax_set, lines[0].as_str());
            if by_line.is_some() {
                assert(found(by_line) == syntax_choice(set, e, text@));
                return by_line;
            }
        }
        let plain = by_name(&self.syntax_set, "Plain Text");
        assert(found(plain) == syntax_choice(set, e, text@));
        plain
    }

    /// Highlight `text` as the language inferred from `path`: one entry per
    /// line (index 0 = line 1), each the line's styled segments without
    /// its line break. Empty when `text` is too large to highlight
    /// quickly; a line whose highlighting fails (and every line, should
    /// the syntax set lack a plain-text syntax) is one unstyled segment.
    pub fn highlight(&self, path: &str, text: &str) -> (r: Vec<Vec<(Style, String)>>)
        ensures
            highlight_result(*self, path@, text@, r@),
    {
        proof {
            let e = ext_spec(path@);
            lemma_ext_spec(path@);
            let _ = syntax_choice(self.syntax_set, e, text@);
        }
        if text.len() > MAX_BYTES {
            return Vec::new();
        }
        let all_lines = crate::text::lines_of(text);
        let count = all_lines.len();
        assert(strs_view(all_lines@).len() == all_lines@.len());
        if count > MAX_LINES {
            return Vec::new();
        }
        let lines = split_inclusive_newline(text);
        let ghost ls = split_incl(text@);
        let syntax = self.choose_syntax(path, text);
        let ghost ext = choose|e: Seq<char>|
            #![trigger syntax_choice(self.syntax_set, e, text@)]
            ext_ok(e, path@) && found(syntax) == syntax_choice(self.syntax_set, e, text@);
        let ghost chosen = syntax_choice(self.syntax_set, ext, text@);
        let mut result: Vec<Vec<(Style, String)>> = Vec::new();
        match syntax {
            None => {
                let mut i: usize = 0;
                while i < lines.len()
                    invariant
                        strs_view(lines@) == ls,
                        chosen is None,
                        i <= ls.len(),
                        result@.len() == i,
                        forall|k: int| 0 <= k < i ==> line_result(ls[k], segs_view(#[trigger] result@[k]@), self.plain),
                        forall|k: int|
                            0 <= k < i ==> segs_view(#[trigger] result@[k]@) == line_segments(
                                self.syntax_set,
                                chosen,
                                self.theme,
                                self.plain,
                                ls,
                                k,
                            ),
                    decreases ls.len() - i,
                {
                    let seg = self.plain_line(lines[i].as_str());
                    assert(ls[i as int] == lines@[i as int]@);
                    result.push(seg);
                    i = i + 1;
                }
            },
            Some(syn) => {
                let mut hl = start_lines(&self.syntax_set, syn, &self.theme);
                assert(ls.take(0) =~= Seq::<Seq<char>>::empty());
                let mut i: usize = 0;
                while i < lines.len()
                    invariant
                        strs_view(lines@) == ls,
                        chosen == Some(*syn),
                        hl.set@ == self.syntax_set,
                        hl.syntax@ == *syn,
                        hl.theme@ == self.theme,
                        hl.fed@ == ls.take(i as int),
                        i <= ls.len(),
                        result@.len() == i,
                        forall|k: int| 0 <= k < i ==> line_result(ls[k], segs_view(#[trigger] result@[k]@), self.plain),
                        forall|k: int|
                            0 <= k < i ==> segs_view(#[trigger] result@[k]@) == line_segments(
                                self.syntax_set,
                                chosen,
                                self.theme,
                                self.plain,
                                ls,
                                k,
                            ),
                    decreases ls.len() - i,
                {
                    assert(ls[i as int] == lines@[i as int]@);
                    assert(ls.take(i as int).push(ls[i as int]) =~= ls.take(i + 1));
                    let seg = match highlight_line(&mut hl, lines[i].as_str(), &self.syntax_set) {
                        Some(pieces) => Self::styled_line(&pieces, Ghost(lines@[i as int]@)),
                        None => self.plain_line(lines[i].as_str()),
                    };
                    result.push(seg);
                    i = i + 1;
                }
            },
        }
        proof {
            assert(highlighted(self.syntax_set, chosen, self.theme, self.plain, text@, result@));
        }
        result
    }

    /// A line that could not be highlighted: one unstyled segment.
    fn plain_line(&self, line: &str) -> (r: Vec<(Style, String)>)
        ensures
            line_result(line@, segs_view(r@), self.plain),
            segs_view(r@) == seq![(self.plain, trim_breaks(line@))],
    {
        let r = vec![(self.plain, trim_line_breaks(line))];
        assert(segs_view(r@) =~= seq![(self.plain, trim_breaks(line@))]);
        r
    }

    /// A highlighted line's pieces in terminal styles, without line breaks.
    fn styled_line(pieces: &Vec<(syntect::highlighting::Style, String)>, line: Ghost<Seq<char>>) -> (r: Vec<(Style, String)>)
        requires
            pieces_text(pieces@) == line@,
        ensures
            forall|plain: Style| line_result(line@, segs_view(r@), plain),
            segs_view(r@) == styled_spec(pieces_view(pieces@)),
    {
        let ghost texts = pieces@.map_values(|p: (syntect::highlighting::Style, String)| p.1@);
        let mut r: Vec<(Style, String)> = Vec::new();
        let mut i: usize = 0;
        while i < pieces.len()
            invariant
                texts == pieces@.map_values(|p: (syntect::highlighting::Style, String)| p.1@),
                i <= pieces@.len(),
                r@.len() == i,
                forall|k: int| 0 <= k < i ==> #[trigger] segs_view(r@)[k].1 == trim_breaks(texts[k]),
                segs_view(r@) == styled_spec(pieces_view(pieces@)).take(i as int),
            decreases pieces@.len() - i,
        {
            let st = to_terminal_style(&pieces[i].0);
            let t = trim_line_breaks(pieces[i].1.as_str());
            let ghost before = r@;
            r.push((st, t));
            assert(segs_view(r@) =~= segs_view(before).push((st, t@)));
            assert(styled_spec(pieces_view(pieces@)).take(i + 1) =~= styled_spec(pieces_view(pieces@)).take(
                i as int,
            ).push((st, t@)));
            i = i + 1;
        }
        proof {
            assert(styled_spec(pieces_view(pieces@)).take(i as int) =~= styled_spec(pieces_view(pieces@)));
            lemma_pieces_concat(pieces@);
            assert forall|plain: Style| line_result(line@, segs_view(r@), plain) by {
                assert(concat_texts(texts) == line@);
                assert(forall|k: int| 0 <= k < segs_view(r@).len() ==> #[trigger] segs_view(r@)[k].1 == trim_breaks(texts[k]));
            }
        }
        r
    }
}

proof fn lemma_pieces_concat(p: Seq<(syntect::highlighting::Style, String)>)
    ensures
        concat_texts(p.map_values(|x: (syntect::highlighting::Style, String)| x.1@)) == pieces_text(p),
    decreases p.len(),
{
    if p.len() > 0 {
        lemma_pieces_concat(p.drop_last());
        assert(p.map_values(|x: (syntect::highlighting::Style, String)| x.1@).drop_last() =~= p.drop_last().map_values(
            |x: (syntect::highlighting::Style, String)| x.1@,
        ));
    }
}

} // verus!
