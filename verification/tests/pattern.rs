use hexwife::pattern::{
    hex_digit, parse_search_pattern, pattern_cuts_character, regex_pattern, SearchPattern,
};

fn exact(input: &str) -> Vec<u8> {
    match parse_search_pattern(input) {
        Ok(SearchPattern::Exact(bytes)) => bytes,
        other => panic!("{:?}", other),
    }
}

fn error(input: &str) -> String {
    match parse_search_pattern(input) {
        Err(e) => e,
        other => panic!("{:?}", other),
    }
}

#[test]
fn hex_bytes_of_the_help_line() {
    assert_eq!(exact("48 65 6C 6C 6F"), b"Hello".to_vec());
    assert_eq!(exact("  48656c6c6f "), b"Hello".to_vec());
    assert_eq!(exact("4 8\t6\u{a0}5"), b"He".to_vec());
    assert_eq!(exact("00 fF"), vec![0u8, 255]);
}

#[test]
fn a_sign_is_no_hex_digit() {
    assert_eq!(error("+5"), "invalid hex digit '+'");
    assert_eq!(error("12 +a"), "invalid hex digit '+'");
    assert_eq!(error("a+"), "invalid hex digit 'a'");
    assert_eq!(error("-1"), "invalid hex digit '-'");
}

#[test]
fn quoted_ascii() {
    assert_eq!(exact("\"Hello\""), b"Hello".to_vec());
    assert_eq!(exact(" \"a b\" "), b"a b".to_vec());
    assert_eq!(exact("\"\""), Vec::<u8>::new());
    assert_eq!(error("\"\u{e9}\""), "ASCII string contains non-ASCII characters");
}

#[test]
fn regular_expressions() {
    match parse_search_pattern("/[Hh]ex/") {
        Ok(SearchPattern::Regex(text)) => assert_eq!(text, "[Hh]ex"),
        other => panic!("{:?}", other),
    }
    match parse_search_pattern("//") {
        Ok(SearchPattern::Regex(text)) => assert_eq!(text, ""),
        other => panic!("{:?}", other),
    }
    let message = error("/(/");
    let expected = format!("regex error: {}", regex::bytes::Regex::new("(").unwrap_err());
    assert_eq!(message, expected);
    assert!(message.contains("unclosed group"));
}

#[test]
fn outcome_of_a_regex_compilation() {
    match regex_pattern("a+".to_string(), None) {
        Ok(SearchPattern::Regex(text)) => assert_eq!(text, "a+"),
        other => panic!("{:?}", other),
    }
    match regex_pattern("a+".to_string(), Some("no".to_string())) {
        Err(e) => assert_eq!(e, "regex error: no"),
        other => panic!("{:?}", other),
    }
}

#[test]
fn errors_of_the_prompt() {
    assert_eq!(error(""), "empty pattern");
    assert_eq!(error(" \u{3000}\n"), "empty pattern");
    assert_eq!(error("123"), "hex string must have an even number of digits");
    assert_eq!(error("\""), "hex string must have an even number of digits");
    assert_eq!(error("/"), "hex string must have an even number of digits");
    assert_eq!(error("12 x4"), "invalid hex digit 'x'");
    assert_eq!(error("12 4x"), "invalid hex digit '4'");
    assert_eq!(error("12\u{e9}"), "invalid hex digit '\u{e9}'");
}

#[test]
fn inputs_that_come_apart_inside_a_character() {
    assert!(pattern_cuts_character("a\u{e9}b"));
    assert!(pattern_cuts_character("\u{20ac}a"));
    assert!(pattern_cuts_character("12 \u{1f600}"));
    assert!(!pattern_cuts_character("\u{e9}"));
    assert!(!pattern_cuts_character("zz\u{20ac}a"));
    assert!(!pattern_cuts_character("a\u{e9}"));
    assert!(!pattern_cuts_character("/\u{20ac}a/"));
    assert!(!pattern_cuts_character("\"\u{20ac}a\""));
    assert!(!pattern_cuts_character(""));
}

#[test]
fn hex_digits_in_both_cases() {
    assert_eq!(hex_digit('0'), Some(0));
    assert_eq!(hex_digit('9'), Some(9));
    assert_eq!(hex_digit('a'), Some(10));
    assert_eq!(hex_digit('F'), Some(15));
    assert_eq!(hex_digit('g'), None);
    assert_eq!(hex_digit(' '), None);
}

#[test]
fn hex_of_all_bytes_is_read_back() {
    let mut input = String::new();
    let mut bytes: Vec<u8> = Vec::new();
    for b in 0..=255u8 {
        if b > 0 {
            input.push(' ');
        }
        input.push_str(&format!("{:02X}", b));
        bytes.push(b);
    }
    assert_eq!(exact(&input), bytes);
}

#[test]
fn hex_is_read_back_with_any_case_and_whitespace() {
    for b in 0..=255u8 {
        let mut input = String::from("\t");
        for c in format!("{:02x}{:02X}", b, 255 - b).chars() {
            input.push(c);
            input.push('\u{2003}');
            input.push('\n');
        }
        assert!(!pattern_cuts_character(&input));
        assert_eq!(exact(&input), vec![b, 255 - b]);
    }
}

#[test]
fn whitespace_is_that_of_the_standard_library() {
    for n in 0..0x11000u32 {
        if let Some(c) = char::from_u32(n) {
            let input = format!("{}12{}", c, c);
            let is_error = pattern_cuts_character(&input) || parse_search_pattern(&input).is_err();
            let is_digit = c.is_ascii_hexdigit();
            let is_quote = c == '"' || c == '/';
            assert_eq!(!is_error, c.is_whitespace() || is_digit || is_quote, "{:x}", n);
        }
    }
}
