use gispect::text::{
    chars_of, copy_str, fold_char, is_whitespace, lex_le_exec, lines_of, parse_usize, sort_strings,
    split_inclusive_newline, split_on, starts_with, str_eq, strip_line_end, strip_prefix,
    string_of, trim,
};

fn strings(v: &[&str]) -> Vec<String> {
    v.iter().map(|s| s.to_string()).collect()
}

#[test]
fn characters_and_substrings() {
    let cs = chars_of("héllo");
    assert_eq!(cs, vec!['h', 'é', 'l', 'l', 'o']);
    assert_eq!(string_of(&cs, 1, 3), "él");
    assert_eq!(copy_str("abc"), "abc");
    assert!(str_eq("añ", "añ"));
    assert!(!str_eq("a", "ab"));
}

#[test]
fn prefixes() {
    assert!(starts_with("--- a/x", "--- "));
    assert!(!starts_with("--", "--- "));
    assert!(starts_with("x", ""));
    assert_eq!(strip_prefix("+++ b/x", "+++ "), Some("b/x".to_string()));
    assert_eq!(strip_prefix("+x", "++"), None);
}

#[test]
fn lines_like_std() {
    let text = "a\r\nb\n\nc";
    assert_eq!(split_inclusive_newline(text), strings(&["a\r\n", "b\n", "\n", "c"]));
    assert_eq!(lines_of(text), strings(&["a", "b", "", "c"]));
    assert_eq!(lines_of(text), text.lines().map(|s| s.to_string()).collect::<Vec<_>>());
    assert!(lines_of("").is_empty());
    assert_eq!(lines_of("x\n"), strings(&["x"]));
    assert_eq!(strip_line_end("x\r\n"), "x");
    assert_eq!(strip_line_end("x\n"), "x");
    assert_eq!(strip_line_end("x\r"), "x\r");
}

#[test]
fn trimming_and_splitting() {
    assert_eq!(trim("  a b \t\n"), "a b");
    assert_eq!(trim("\u{3000}x\u{a0}"), "x");
    assert_eq!(trim("   "), "");
    assert!(is_whitespace('\u{2028}'));
    assert!(!is_whitespace('x'));
    assert_eq!(split_on("a\tb\t\tc", '\t'), strings(&["a", "b", "", "c"]));
    assert_eq!(split_on("", '\t'), strings(&[""]));
}

#[test]
fn parsing_counts() {
    assert_eq!(parse_usize("42"), Some(42));
    assert_eq!(parse_usize("+7"), Some(7));
    assert_eq!(parse_usize("0"), Some(0));
    assert_eq!(parse_usize(""), None);
    assert_eq!(parse_usize("+"), None);
    assert_eq!(parse_usize("-1"), None);
    assert_eq!(parse_usize("1x"), None);
    assert_eq!(parse_usize("99999999999999999999999"), None);
    assert_eq!(parse_usize("18446744073709551615"), "18446744073709551615".parse::<usize>().ok());
}

#[test]
fn ordering_and_case() {
    assert!(lex_le_exec("abc", "abd"));
    assert!(lex_le_exec("ab", "abc"));
    assert!(lex_le_exec("", ""));
    assert!(!lex_le_exec("b", "abc"));
    assert_eq!(
        sort_strings(strings(&["main", "Zed", "dev", "main", "a"])),
        strings(&["Zed", "a", "dev", "main", "main"])
    );
    assert_eq!(fold_char('Q'), 'q' as u32);
    assert_eq!(fold_char('É'), 'É' as u32);
}
