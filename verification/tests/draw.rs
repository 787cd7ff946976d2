use hexwife::draw::{
    format_progress, format_status, info_line, render_hex, search_report, viewport,
    word_interpretation, Info, Progress,
};
use hexwife::line::{Span, Style};
use hexwife::search::ReadRequest;
use hexwife::viewer::{HexViewer, SearchState};

fn viewer(size: u64) -> HexViewer {
    HexViewer::open("data.bin".to_string(), true, size)
}

fn text(line: &[Span]) -> String {
    line.iter().map(|s| s.text.clone()).collect()
}

#[test]
fn rows_of_the_dump() {
    let mut v = viewer(20);
    v.recalc_layout();
    v.bytes_per_line = 8;
    v.groups_per_line = 8;
    v.cursor = 9;
    let content: Vec<u8> = (0x41..0x41 + 20).collect();
    let lines: Vec<String> =
        render_hex(&v, 4, 1, 2, &content).iter().map(|l| text(l)).collect();
    assert_eq!(
        lines,
        vec![
            "000  41 42 43 44 45 46 47 48  ABCDEFGH │",
            "008  49 4A 4B 4C 4D 4E 4F 50  IJKLMNOP █",
            "010  51 52 53 54                  QRST █",
            "018                                    │",
        ]
    );
}

#[test]
fn row_at_the_end_of_the_file() {
    let mut v = viewer(8);
    v.recalc_layout();
    v.bytes_per_line = 8;
    v.cursor = 8;
    let lines = render_hex(&v, 3, 0, 1, b"ABCDEFGH");
    assert!(text(&lines[1]).starts_with("08  "));
    assert_eq!(lines[1].iter().filter(|s| s.style == Style::Cursor).count(), 2);
    assert!(text(&lines[2]).starts_with("10  "));
}

#[test]
fn no_rows_show_nothing() {
    let mut v = viewer(20);
    v.grouping = 0;
    assert!(render_hex(&v, 0, 0, 1, b"abc").is_empty());
}

#[test]
fn what_could_not_be_read_is_empty() {
    let mut v = viewer(0);
    v.file_size = u128::MAX;
    v.recalc_layout();
    v.scroll_line = v.max_scroll_line();
    let lines = render_hex(&v, 3, 0, 1, &[]);
    assert_eq!(lines.len(), 3);
    assert!(text(&lines[0]).starts_with("0FFFFFFF"));
}

#[test]
fn bytes_that_are_visible() {
    let mut v = viewer(1000);
    v.scroll_line = 3;
    assert_eq!(viewport(&v, 22), ReadRequest { offset: 48, len: 352 });
    v.scroll_line = u128::MAX;
    assert_eq!(viewport(&v, usize::MAX), ReadRequest { offset: u128::MAX, len: usize::MAX });
}

#[test]
fn words_in_both_orders() {
    let mut v = viewer(16);
    let buffer: Vec<u8> = (1..=16).collect();
    v.cursor = 5;
    assert_eq!(word_interpretation(&v, &buffer, 0), "u8 6");
    v.grouping = 2;
    assert_eq!(word_interpretation(&v, &buffer, 0), "u16 LE:1541 BE:1286");
    v.grouping = 4;
    assert_eq!(word_interpretation(&v, &buffer, 0), "u32 LE:134678021 BE:84281096");
    v.grouping = 8;
    assert_eq!(
        word_interpretation(&v, &buffer, 0),
        "u64 LE:578437695752307201 BE:72623859790382856"
    );
    let ones = vec![255u8; 16];
    assert_eq!(
        word_interpretation(&v, &ones, 0),
        "u64 LE:18446744073709551615 BE:18446744073709551615"
    );
}

#[test]
fn reversed_words_swap_the_orders() {
    let mut v = viewer(8);
    let buffer: Vec<u8> = (1..=8).collect();
    let reversed: Vec<u8> = (1..=8).rev().collect();
    v.grouping = 8;
    let forth = word_interpretation(&v, &buffer, 0);
    let back = word_interpretation(&v, &reversed, 0);
    let value = |s: &str, name: &str| {
        let from = s.find(name).unwrap() + name.len();
        s[from..].split(' ').next().unwrap().to_string()
    };
    assert_eq!(value(&forth, "LE:"), value(&back, "BE:"));
    assert_eq!(value(&forth, "BE:"), value(&back, "LE:"));
}

#[test]
fn words_that_are_not_complete() {
    let mut v = viewer(10);
    let buffer: Vec<u8> = (1..=10).collect();
    v.grouping = 4;
    v.cursor = 9;
    assert_eq!(word_interpretation(&v, &buffer, 0), "");
    v.cursor = 10;
    assert_eq!(word_interpretation(&v, &buffer, 0), "");
    v.cursor = 5;
    assert_eq!(word_interpretation(&v, &buffer, 5), "");
    assert_eq!(word_interpretation(&v, &buffer[..7], 0), "");
    assert_eq!(word_interpretation(&v, &buffer[3..], 3), "u32 LE:134678021 BE:84281096");
    v.grouping = 0;
    assert_eq!(word_interpretation(&v, &buffer, 0), "");
    v.grouping = 3;
    assert_eq!(word_interpretation(&v, &buffer, 0), "");
}

#[test]
fn status_line() {
    let mut v = viewer(200);
    v.cursor = 50;
    let status = format_status(&v);
    assert_eq!(status.len(), 1);
    assert_eq!(status[0].text, " data.bin  0x32  L4/13  25%  [1b]");
    v.edit_mode = true;
    v.search = SearchState::NotFound;
    let status = format_status(&v);
    assert_eq!(status[0].text, "EDIT MODE, NO UNDO. Edit with care. ");
    assert_eq!(status[0].style, Style::Warning);
    assert_eq!(status[1].text, " data.bin  0x32  L4/13  25%  [1b] - Not found");
    v.search = SearchState::MatchFound;
    assert!(format_status(&v)[1].text.ends_with("[1b] - Match found"));
}

#[test]
fn status_line_of_an_empty_file() {
    let v = viewer(0);
    assert_eq!(format_status(&v)[0].text, " data.bin  0x0  L1/0  100%  [1b]");
}

#[test]
fn status_line_of_the_largest_file() {
    let mut v = viewer(0);
    v.file_size = u128::MAX;
    v.cursor = u128::MAX / 3 * 2;
    v.bytes_per_line = 1;
    assert!(format_status(&v)[0].text.contains("  66%  "));
    v.cursor = u128::MAX;
    let expected = format!(
        " data.bin  0x{:X}  L{}/{}  100%  [1b]",
        u128::MAX,
        u128::MAX,
        u128::MAX
    );
    assert_eq!(format_status(&v)[0].text, expected);
}

#[test]
fn status_line_of_a_cursor_behind_the_end() {
    let mut v = viewer(0);
    v.file_size = 1;
    v.cursor = (1u128 << 64) + 7;
    assert!(format_status(&v)[0].text.contains("  1844674407370955162300%  "));
}

#[test]
fn information_line() {
    let mut v = viewer(100);
    assert_eq!(info_line(&v), Info::Word);
    v.search = SearchState::NotFound;
    assert_eq!(info_line(&v), Info::Word);
    v.search = SearchState::Scanning;
    assert_eq!(info_line(&v), Info::Scanning);
    v.search = SearchState::MatchFound;
    assert_eq!(info_line(&v), Info::Match("Match found".to_string()));
    v.search_matches = vec![0xab, 0xff, 0x100];
    assert_eq!(
        info_line(&v),
        Info::Match("Match found at offset AB (3 matches total)".to_string())
    );
}

#[test]
fn progress_of_a_search() {
    let mut v = viewer(100);
    assert_eq!(search_report(&v, 9), None);
    v.search_start = Some(5);
    v.search_offset = 31;
    v.search_progress = 30;
    assert_eq!(
        search_report(&v, 9),
        Some(Progress { elapsed: 4, scanned: 30, remaining: 69 })
    );
    v.search_offset = 101;
    assert_eq!(
        search_report(&v, 4),
        Some(Progress { elapsed: 0, scanned: 30, remaining: 0 })
    );
    assert_eq!(
        format_progress(&v, "30.0", "1.0 B/s", "ETA: 1s"),
        "Searching... 30.0%  1.0 B/s  ETA: 1s"
    );
    assert_eq!(format_progress(&v, "30.0", "", "ETA: 1s"), "Searching... 30.0%  ETA: 1s");
    v.file_size = 0;
    assert_eq!(format_progress(&v, "30.0", "", "ETA: 1s"), "Searching...");
}

#[test]
fn lines_fit_the_terminal() {
    let content = vec![0x41u8; 5000];
    for cols in 0..200u16 {
        for grouping in [1u8, 2, 4, 8] {
            let mut v = viewer(5000);
            v.term_cols = cols;
            v.grouping = grouping;
            v.recalc_layout();
            let narrowest = v.address_width + 4 + 3 * grouping as usize + 2;
            if cols as usize >= narrowest {
                for line in render_hex(&v, 3, 0, 1, &content) {
                    assert!(text(&line).chars().count() <= cols as usize);
                }
            }
        }
    }
}
