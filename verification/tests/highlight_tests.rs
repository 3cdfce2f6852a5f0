use gispect::highlight::{cache_key, extension_alias, trim_line_breaks, Highlighter, MAX_BYTES, MAX_LINES};
use ratatui::style::Style;

fn distinct_colors(h: &Highlighter, path: &str, text: &str) -> usize {
    let segs = h.highlight(path, text);
    let mut colors = std::collections::HashSet::new();
    for line in &segs {
        for (s, _) in line {
            colors.insert(format!("{:?}", s.fg));
        }
    }
    colors.len()
}

#[test]
fn common_languages_are_tokenized() {
    let h = Highlighter::new();
    let cases = [
        ("f.rs", "fn f() -> u8 { return 1; } // c\n"),
        ("f.ts", "const f = (x: number): string => `v${x}`; // c\n"),
        ("f.tsx", "const A = () => <div className=\"x\">{y}</div>;\n"),
        ("f.jsx", "const A = () => <div className=\"x\">{y}</div>;\n"),
        ("f.py", "def g(x): return None  # c\n"),
        ("f.go", "func f() int { return 1 } // c\n"),
        ("f.toml", "[table]\nkey = \"value\"\n"),
        ("f.vue", "<template><div :class=\"x\">{{ y }}</div></template>\n"),
    ];
    for (path, text) in cases {
        assert!(
            distinct_colors(&h, path, text) > 1,
            "{path} was not tokenized (single color)"
        );
    }
}

#[test]
fn one_entry_per_line_without_line_breaks() {
    let h = Highlighter::new();
    let text = "fn a() {}\r\n\nlet x = 1;";
    let lines = h.highlight("x.rs", text);
    assert_eq!(lines.len(), 3);
    let joined: Vec<String> = lines
        .iter()
        .map(|segs| segs.iter().map(|(_, t)| t.as_str()).collect())
        .collect();
    assert_eq!(joined, vec!["fn a() {}".to_string(), String::new(), "let x = 1;".to_string()]);
    assert!(h.highlight("x.rs", "").is_empty());
}

#[test]
fn unknown_languages_fall_back_to_plain_text() {
    let h = Highlighter::new();
    let lines = h.highlight("notes.unknownext", "just words\nmore\n");
    assert_eq!(lines.len(), 2);
    assert_eq!(distinct_colors(&h, "notes.unknownext", "just words\nmore\n"), 1);
    let first: String = lines[0].iter().map(|(_, t)| t.as_str()).collect();
    assert_eq!(first, "just words");
}

#[test]
fn shebang_picks_the_language() {
    let h = Highlighter::new();
    assert!(distinct_colors(&h, "script", "#!/usr/bin/env python\ndef f(): return 1\n") > 1);
}

#[test]
fn oversized_inputs_are_not_highlighted() {
    let h = Highlighter::new();
    let many_lines = "x\n".repeat(MAX_LINES + 1);
    assert!(h.highlight("a.rs", &many_lines).is_empty());
    let big = "a".repeat(MAX_BYTES + 1);
    assert!(h.highlight("a.rs", &big).is_empty());
    let at_limit = "x\n".repeat(MAX_LINES);
    assert_eq!(h.highlight("a.txt", &at_limit).len(), MAX_LINES);
}

#[test]
fn plain_style_is_the_default() {
    let h = Highlighter::new();
    assert_eq!(h.plain, Style::default());
}

#[test]
fn extension_aliases() {
    assert_eq!(extension_alias("jsx"), Some("js"));
    assert_eq!(extension_alias("mjs"), Some("js"));
    assert_eq!(extension_alias("cjs"), Some("js"));
    assert_eq!(extension_alias("mts"), Some("ts"));
    assert_eq!(extension_alias("cts"), Some("ts"));
    assert_eq!(extension_alias("rs"), None);
    assert_eq!(extension_alias("JSX"), None);
}

#[test]
fn line_breaks_are_trimmed_at_the_end_only() {
    assert_eq!(trim_line_breaks("a\r\n"), "a");
    assert_eq!(trim_line_breaks("a\n\r\n\n"), "a");
    assert_eq!(trim_line_breaks("a\rb"), "a\rb");
    assert_eq!(trim_line_breaks("\n"), "");
}

#[test]
fn cache_keys_depend_on_path_and_text() {
    assert_eq!(cache_key("a.rs", "fn x"), cache_key("a.rs", "fn x"));
    assert_ne!(cache_key("a.rs", "fn x"), cache_key("b.rs", "fn x"));
    assert_ne!(cache_key("a.rs", "fn x"), cache_key("a.rs", "fn y"));
    assert_ne!(cache_key("ab", "c"), cache_key("a", "bc"));
}
