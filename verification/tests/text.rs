use rest_cli::text::{
    begins_with_char, char_is_whitespace, chars_of, count_indent, ends_with_char, find_char,
    same_text, starts_with,
};

#[test]
fn find_char_gives_first_index_or_length() {
    assert_eq!(find_char("a b c", ' '), 1);
    assert_eq!(find_char(" ab", ' '), 0);
    assert_eq!(find_char("abc", ' '), 3);
    assert_eq!(find_char("", ' '), 0);
    // indices count characters, not bytes
    assert_eq!(find_char("éé:x", ':'), 2);
}

#[test]
fn count_indent_counts_leading_white_space() {
    assert_eq!(count_indent("abc"), 0);
    assert_eq!(count_indent("  \t abc  "), 4);
    assert_eq!(count_indent("   "), 3);
    assert_eq!(count_indent(""), 0);
    assert_eq!(count_indent("\u{a0}\u{3000}x"), 2);
}

#[test]
fn white_space_is_what_std_calls_white_space() {
    let mut code = 0u32;
    while code <= 0x10FFFF {
        if let Some(c) = char::from_u32(code) {
            assert_eq!(char_is_whitespace(c), c.is_whitespace());
        }
        code += 1;
    }
}

#[test]
fn starts_with_is_a_prefix_test() {
    assert!(starts_with("GET /x", "GET"));
    assert!(starts_with("GET", "GET"));
    assert!(starts_with("GET", ""));
    assert!(starts_with("", ""));
    assert!(!starts_with("GE", "GET"));
    assert!(!starts_with(" GET", "GET"));
    assert!(!starts_with("get /x", "GET"));
    assert!(starts_with("émile", "ém"));
}

#[test]
fn same_text_compares_all_characters() {
    assert!(same_text("", ""));
    assert!(same_text("PATCH", "PATCH"));
    assert!(!same_text("PATCH", "PATCHY"));
    assert!(!same_text("PATCHY", "PATCH"));
    assert!(!same_text("PATCH", "PATCh"));
}

#[test]
fn ends_and_begins_with_char() {
    assert!(ends_with_char("}", '}'));
    assert!(ends_with_char("  \"a\": {}", '}'));
    assert!(!ends_with_char("} ", '}'));
    assert!(!ends_with_char("", '}'));
    assert!(begins_with_char("{", '{'));
    assert!(begins_with_char("  \t{ \"a\"", '{'));
    assert!(!begins_with_char("a {", '{'));
    assert!(!begins_with_char("   ", '{'));
    assert!(!begins_with_char("", '{'));
}

#[test]
fn chars_of_lists_the_characters() {
    assert_eq!(chars_of("aé€"), vec!['a', 'é', '€']);
    assert_eq!(chars_of(""), vec![]);
}

#[test]
fn scanning_agrees_with_std() {
    let samples = [
        "",
        " ",
        "a",
        "GET /x",
        "  {\"k\": 1}",
        "Content-Type: application/json",
        "\t\u{a0} x : y ",
        "é: ü",
        ":::",
        "}",
        "{ }  ",
    ];
    for s in samples {
        let chars = s.chars().count();
        assert_eq!(find_char(s, ':'), s.chars().position(|c| c == ':').unwrap_or(chars));
        assert_eq!(find_char(s, ' '), s.chars().position(|c| c == ' ').unwrap_or(chars));
        assert_eq!(count_indent(s), chars - s.trim_start().chars().count());
        assert_eq!(begins_with_char(s, '{'), s.trim().starts_with('{'));
        assert_eq!(ends_with_char(s, '}'), s.ends_with('}'));
        for p in samples {
            assert_eq!(starts_with(s, p), s.starts_with(p));
            assert_eq!(same_text(s, p), s == p);
        }
    }
}
