use hexwife::line::{_highlight_hex, build_highlighted_hex, format_line, Span, Style};

fn text(line: &[Span]) -> String {
    line.iter().map(|s| s.text.clone()).collect()
}

fn styled(line: &[Span], style: Style) -> Vec<String> {
    line.iter().filter(|s| s.style == style).map(|s| s.text.clone()).collect()
}

fn chars(s: &str) -> Vec<char> {
    s.chars().collect()
}

#[test]
fn line_without_highlights() {
    let line = format_line(b"Hi\x00", 0x1f, 4, 1, 4, 100, '|', &[]);
    assert_eq!(text(&line), "001F  48 69 00      Hi. |");
    assert_eq!(line.len(), 6);
    assert!(styled(&line, Style::Cursor).is_empty());
}

#[test]
fn address_longer_than_its_column() {
    let line = format_line(b"", 0x12345, 2, 1, 1, 0, '|', &[]);
    assert_eq!(text(&line), "12345        |");
}

#[test]
fn groups_of_two() {
    let line = format_line(b"\x01\x02\x03\x04\x05", 0, 2, 2, 8, 100, '|', &[]);
    assert_eq!(text(&line), "00  0102 0304 05          ..... |");
}

#[test]
fn more_bytes_than_a_line_holds() {
    let line = format_line(b"abc", 0, 2, 1, 2, 100, '|', &[]);
    assert_eq!(text(&line), "00  61 62 63  abc |");
}

#[test]
fn cursor_in_the_line() {
    let line = format_line(b"abcd", 16, 2, 2, 4, 18, '|', &[]);
    assert_eq!(text(&line), "10  6162 6364  abcd |");
    assert_eq!(styled(&line, Style::Cursor), vec!["6364", "c"]);
}

#[test]
fn match_in_the_line() {
    let line = format_line(b"abcd", 16, 2, 2, 4, 100, '|', &[3, 17, 18]);
    assert_eq!(text(&line), "10  6162 6364  abcd |");
    assert_eq!(styled(&line, Style::Match), vec!["6162"]);
}

#[test]
fn cursor_goes_before_a_match() {
    let line = format_line(b"abcd", 16, 2, 2, 4, 16, '|', &[17]);
    assert_eq!(styled(&line, Style::Cursor), vec!["6162", "a"]);
    assert!(styled(&line, Style::Match).is_empty());
    let line = format_line(b"abcd", 16, 2, 2, 4, 16, '|', &[19]);
    assert_eq!(styled(&line, Style::Match), vec!["6364"]);
}

#[test]
fn highlights_keep_the_text() {
    let bytes: Vec<u8> = (0..23).collect();
    for len in 0..=16usize {
        for group in [1usize, 2, 4, 8] {
            let bare = text(&format_line(&bytes[..len], 0, 4, group, 16, 99, '|', &[]));
            for cursor in 0..16u128 {
                for found in 0..16u128 {
                    let line =
                        format_line(&bytes[..len], 0, 4, group, 16, cursor, '|', &[found]);
                    assert_eq!(text(&line), bare);
                }
            }
        }
    }
}

#[test]
fn offsets_at_the_end_of_128_bits() {
    let line = format_line(b"a", u128::MAX, 33, 1, 2, u128::MAX, '|', &[u128::MAX]);
    assert_eq!(text(&line), format!("0{:X}  61      a |", u128::MAX));
    assert_eq!(styled(&line, Style::Cursor), vec!["61", " "]);
}

#[test]
fn printable_bytes() {
    let line = format_line(&[0x1f, 0x20, 0x7e, 0x7f, 0xff], 0, 2, 1, 5, 9, '|', &[]);
    assert!(text(&line).ends_with("  . ~.. |"));
}

#[test]
fn groups_with_highlights() {
    let spans = build_highlighted_hex(
        &chars("AABB CCDD EE"),
        2,
        &vec![(1, Style::Cursor), (1, Style::Match), (2, Style::Match)],
    );
    let pairs: Vec<(String, Style)> = spans.into_iter().map(|s| (s.text, s.style)).collect();
    assert_eq!(
        pairs,
        vec![
            ("AABB".to_string(), Style::Plain),
            (" ".to_string(), Style::Plain),
            ("CCDD".to_string(), Style::Cursor),
            (" ".to_string(), Style::Plain),
            ("EE".to_string(), Style::Match),
        ]
    );
    assert!(build_highlighted_hex(&[], 2, &vec![]).is_empty());
}

#[test]
fn groups_count_bytes() {
    let spans = build_highlighted_hex(&chars("\u{e9}\u{e9}"), 1, &vec![(1, Style::Match)]);
    let texts: Vec<&str> = spans.iter().map(|s| s.text.as_str()).collect();
    assert_eq!(texts, vec!["\u{e9}", " ", "\u{e9}"]);
    assert_eq!(spans[2].style, Style::Match);
    let spans = _highlight_hex(&chars("AB\u{e9} \u{e9}CD"), 3, 2);
    let texts: Vec<&str> = spans.iter().map(|s| s.text.as_str()).collect();
    assert_eq!(texts, vec!["AB\u{e9}", " ", "\u{e9}", "CD"]);
    assert_eq!(styled(&spans, Style::Cursor), vec!["CD"]);
    let spans = _highlight_hex(&chars("AB\u{e9} \u{e9}CD"), 1, 2);
    assert_eq!(styled(&spans, Style::Cursor), vec!["\u{e9}"]);
}

#[test]
fn empty_text_has_no_groups() {
    assert!(build_highlighted_hex(&[], 0, &vec![(0, Style::Cursor)]).is_empty());
    assert!(_highlight_hex(&[], 0, 0).is_empty());
}

#[test]
fn groups_larger_than_the_text() {
    let spans = build_highlighted_hex(&chars("AABB"), usize::MAX, &vec![(0, Style::Cursor)]);
    assert_eq!(styled(&spans, Style::Cursor), vec!["AABB"]);
    let spans = _highlight_hex(&chars("AABB"), 1, usize::MAX);
    assert_eq!(styled(&spans, Style::Cursor), vec!["BB"]);
    let line = format_line(b"", 0, 2, usize::MAX, 0, 0, '|', &[0]);
    assert_eq!(text(&line), "00     |");
}

#[test]
fn full_line_says_the_same_wherever_the_cursor_is() {
    for cursor in 0..40u128 {
        let line = format_line(b"abcd", 16, 2, 2, 4, cursor, '|', &[cursor / 2]);
        assert_eq!(text(&line), "10  6162 6364  abcd |");
    }
}

#[test]
fn groups_without_a_space_between() {
    let spans = build_highlighted_hex(&chars("AABBCC"), 1, &vec![]);
    assert_eq!(text(&spans), "AA BB CC");
}

#[test]
fn single_byte_highlighted() {
    let spans = _highlight_hex(&chars("AABB CCDD"), 2, 2);
    assert_eq!(text(&spans), "AABB CCDD");
    assert_eq!(styled(&spans, Style::Cursor), vec!["CC"]);
    assert_eq!(spans.len(), 4);
    let spans = _highlight_hex(&chars("AABBCC DD"), 1, 3);
    assert_eq!(styled(&spans, Style::Cursor), vec!["BB"]);
    assert_eq!(spans.len(), 5);
    let spans = _highlight_hex(&chars("AABB C"), 2, 2);
    assert!(styled(&spans, Style::Cursor).is_empty());
    assert_eq!(text(&spans), "AABB C");
}
