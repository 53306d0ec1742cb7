use jj_version::lines::{
    chars_of, content_lines_of, first_non_empty_line, is_whitespace, single_line, string_of, trim,
};

fn trimmed(s: &str) -> String {
    let chars: Vec<char> = s.chars().collect();
    string_of(&trim(&chars))
}

fn content(s: &str) -> Vec<String> {
    let chars: Vec<char> = s.chars().collect();
    content_lines_of(&chars).iter().map(|l| string_of(l)).collect()
}

#[test]
fn trim_removes_ascii_whitespace_at_both_ends() {
    assert_eq!(trimmed("  abc \t"), "abc");
    assert_eq!(trimmed("a b"), "a b");
    assert_eq!(trimmed(" \t\r\n "), "");
    assert_eq!(trimmed(""), "");
}

#[test]
fn trim_removes_unicode_whitespace() {
    assert_eq!(trimmed("\u{A0}x y\u{3000}"), "x y");
    assert_eq!(trimmed("\u{2028}\u{85}z"), "z");
}

#[test]
fn trim_matches_std_trim() {
    for s in ["", " ", "a", " a ", "\t\na b\r\n", "\u{A0}\u{A0}", "x\u{200B}"] {
        assert_eq!(trimmed(s), s.trim());
    }
}

#[test]
fn trim_twice_is_trim_once() {
    for s in ["  a  ", "\n", "b", " \u{3000}c d \t"] {
        let once = trimmed(s);
        assert_eq!(trimmed(&once), once);
    }
}

#[test]
fn chars_of_keeps_every_char() {
    assert_eq!(chars_of("aé\n€"), vec!['a', 'é', '\n', '€']);
    assert_eq!(chars_of(""), Vec::<char>::new());
}

#[test]
fn content_lines_split_trim_and_drop_empty() {
    assert_eq!(content("a\r\nb\n\n c "), vec!["a", "b", "c"]);
    assert_eq!(content(""), Vec::<String>::new());
    assert_eq!(content("\n\n"), Vec::<String>::new());
    assert_eq!(content("only"), vec!["only"]);
    assert_eq!(content("bare\rcr\n"), vec!["bare\rcr"]);
}

#[test]
fn content_lines_match_std_lines() {
    for s in ["a\r\nb\n\n c ", " x \n", "\r\n\r\n", "a\rb\r", "tail\r", "\n y"] {
        let expected: Vec<String> = s
            .lines()
            .map(str::trim)
            .filter(|l| !l.is_empty())
            .map(str::to_owned)
            .collect();
        assert_eq!(content(s), expected);
    }
}

#[test]
fn single_line_takes_the_only_line() {
    assert_eq!(single_line("abc123def456\n"), Some("abc123def456".to_string()));
    assert_eq!(single_line("\n  abc  \r\n\n"), Some("abc".to_string()));
    assert_eq!(single_line("7"), Some("7".to_string()));
}

#[test]
fn single_line_refuses_none_or_many() {
    assert_eq!(single_line(""), None);
    assert_eq!(single_line("  \n\t\n"), None);
    assert_eq!(single_line("a\nb\n"), None);
}

#[test]
fn first_non_empty_line_takes_the_first() {
    assert_eq!(first_non_empty_line("\n\n v1.0 \nv2\n"), Some("v1.0".to_string()));
    assert_eq!(first_non_empty_line("v1.2.3\n"), Some("v1.2.3".to_string()));
    assert_eq!(first_non_empty_line(""), None);
    assert_eq!(first_non_empty_line(" \n \n"), None);
}

#[test]
fn single_line_agrees_with_first_line() {
    for s in ["x\n", "\n x \n\n", "a\nb", "", "\r\n"] {
        if let Some(line) = single_line(s) {
            assert_eq!(first_non_empty_line(s), Some(line.clone()));
            assert!(!line.is_empty());
            assert_eq!(line.trim(), line);
        }
    }
}

#[test]
fn is_whitespace_matches_std_on_every_char() {
    for code in 0u32..=0x10FFFF {
        if let Some(c) = char::from_u32(code) {
            assert_eq!(is_whitespace(c), c.is_whitespace(), "char U+{code:04X}");
        }
    }
}

#[test]
fn read_lines_hold_no_line_feed_and_come_from_the_text() {
    for s in ["a\r\n b \n", " x\n\ny ", "\u{2028}z\u{2028}\n"] {
        for line in content(s) {
            assert!(!line.contains('\n'));
            assert!(s.contains(line.as_str()));
        }
    }
}
