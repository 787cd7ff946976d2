use hexwife::util::u128_to_u64_safe;
use hexwife::viewer::{HexViewer, SearchState, WriteRequest};

fn viewer(size: u64) -> HexViewer {
    HexViewer::open("data.bin".to_string(), true, size)
}

fn huge(size: u128) -> HexViewer {
    let mut v = viewer(0);
    v.file_size = size;
    v
}

#[test]
fn offsets_beyond_64_bits() {
    assert_eq!(u128_to_u64_safe(0), Some(0));
    assert_eq!(u128_to_u64_safe(u64::MAX as u128), Some(u64::MAX));
    assert_eq!(u128_to_u64_safe(u64::MAX as u128 + 1), None);
    assert_eq!(u128_to_u64_safe(u128::MAX), None);
}

#[test]
fn opened_viewer() {
    let v = viewer(1000);
    assert_eq!(v.file_size, 1000);
    assert_eq!(v.filename, "data.bin");
    assert_eq!((v.cursor, v.scroll_line, v.grouping), (0, 0, 1));
    assert_eq!((v.term_cols, v.term_rows), (80, 24));
    assert_eq!((v.bytes_per_line, v.groups_per_line, v.address_width), (16, 16, 1));
    assert_eq!(v.search, SearchState::Inactive);
    assert!(v.pattern.is_none());
    assert!(!v.edit_mode);
    assert_eq!(HexViewer::open("dir".to_string(), false, 4096).file_size, 0);
}

#[test]
fn address_width_of_nine_exabytes() {
    let mut v = huge(9 * (1u128 << 60));
    v.recalc_layout();
    assert_eq!(v.address_width, 17);
}

#[test]
fn address_width_grows_with_the_file() {
    for (size, width) in [
        (0u128, 2usize),
        (1, 2),
        (16, 2),
        (17, 3),
        (256, 3),
        (257, 4),
        (1 << 32, 9),
        (u128::MAX, 33),
    ] {
        let mut v = huge(size);
        v.recalc_layout();
        assert_eq!(v.address_width, width, "{}", size);
    }
}

#[test]
fn layout_of_an_80_column_terminal() {
    let mut v = viewer(1000);
    v.recalc_layout();
    // 78 columns, 4 for the address, 4 for gaps, 4 for each byte.
    assert_eq!(v.address_width, 4);
    assert_eq!((v.groups_per_line, v.bytes_per_line), (17, 17));
    v.grouping = 2;
    v.recalc_layout();
    assert_eq!((v.groups_per_line, v.bytes_per_line), (10, 20));
    v.grouping = 4;
    v.recalc_layout();
    assert_eq!((v.groups_per_line, v.bytes_per_line), (5, 20));
    v.grouping = 8;
    v.recalc_layout();
    assert_eq!((v.groups_per_line, v.bytes_per_line), (2, 16));
}

#[test]
fn layout_of_a_narrow_terminal() {
    let mut v = viewer(1000);
    v.grouping = 8;
    v.term_cols = 10;
    v.recalc_layout();
    assert_eq!((v.groups_per_line, v.bytes_per_line), (1, 8));
    v.term_cols = 0;
    v.recalc_layout();
    assert_eq!((v.groups_per_line, v.bytes_per_line), (1, 8));
}

#[test]
fn lines_of_a_file() {
    let mut v = viewer(0);
    assert_eq!((v.total_lines(), v.max_scroll_line()), (0, 0));
    v.file_size = 1;
    assert_eq!((v.total_lines(), v.max_scroll_line()), (1, 0));
    v.file_size = 16;
    assert_eq!((v.total_lines(), v.max_scroll_line()), (1, 0));
    v.file_size = 17;
    assert_eq!((v.total_lines(), v.max_scroll_line()), (2, 1));
    v.file_size = u128::MAX;
    assert_eq!(v.total_lines(), 1u128 << 124);
    v.bytes_per_line = 1;
    assert_eq!(v.total_lines(), u128::MAX);
    v.bytes_per_line = 0;
    assert_eq!(v.total_lines(), 0);
}

#[test]
fn rows_that_are_visible() {
    let mut v = viewer(0);
    for (rows, visible) in [(0u16, 1usize), (2, 1), (3, 1), (4, 2), (24, 22)] {
        v.term_rows = rows;
        assert_eq!(v.visible_rows(), visible);
    }
}

#[test]
fn cursor_stays_in_the_file() {
    let mut v = viewer(100);
    v.move_cursor(-1, 4);
    assert_eq!(v.cursor, 0);
    v.move_cursor(30, 4);
    assert_eq!(v.cursor, 30);
    v.move_cursor(-10, 4);
    assert_eq!(v.cursor, 20);
    v.move_cursor(i128::MAX, 4);
    assert_eq!(v.cursor, 100);
    v.move_cursor(i128::MIN, 4);
    assert_eq!(v.cursor, 0);
}

#[test]
fn cursor_in_the_largest_file() {
    let mut v = huge(u128::MAX);
    v.go_end(22);
    assert_eq!(v.cursor, u128::MAX);
    assert_eq!(v.scroll_line, (1u128 << 124) - 1 - 21);
    v.move_cursor(1, 22);
    assert_eq!(v.cursor, u128::MAX);
    v.move_cursor(i128::MIN, 22);
    assert_eq!(v.cursor, u128::MAX - (1u128 << 127));
    v.go_home(22);
    assert_eq!((v.cursor, v.scroll_line), (0, 0));
}

#[test]
fn view_follows_the_cursor() {
    let mut v = viewer(1600);
    v.move_cursor(16 * 10, 4);
    assert_eq!(v.scroll_line, 7);
    v.move_cursor(-16 * 2, 4);
    assert_eq!(v.scroll_line, 7);
    v.move_cursor(-16 * 2, 4);
    assert_eq!(v.scroll_line, 6);
    v.go_end(4);
    assert_eq!((v.cursor, v.scroll_line), (1600, 97));
    v.go_end(1);
    assert_eq!(v.scroll_line, 99);
}

#[test]
fn pages() {
    let mut v = viewer(1600);
    v.page_down(4);
    assert_eq!((v.cursor, v.scroll_line), (64, 1));
    v.page_down(4);
    assert_eq!((v.cursor, v.scroll_line), (128, 5));
    v.page_up(4);
    assert_eq!((v.cursor, v.scroll_line), (64, 4));
    v.page_up(4);
    v.page_up(4);
    assert_eq!((v.cursor, v.scroll_line), (0, 0));
    v.page_down(usize::MAX);
    assert_eq!(v.cursor, 1600);
}

#[test]
fn places_of_written_bytes() {
    let mut v = viewer(10);
    assert_eq!(v.write_byte_at(7), WriteRequest::At(0, 7));
    v.go_end(4);
    assert_eq!(v.write_byte_at(7), WriteRequest::Append(7));
    v.byte_written(WriteRequest::Append(7));
    assert_eq!(v.file_size, 11);
    v.byte_written(WriteRequest::At(0, 7));
    v.byte_written(WriteRequest::Refused);
    assert_eq!(v.file_size, 11);
    let mut v = huge(u128::MAX);
    v.cursor = u64::MAX as u128 + 1;
    assert_eq!(v.write_byte_at(7), WriteRequest::Refused);
    v.byte_written(WriteRequest::Append(7));
    assert_eq!(v.file_size, u128::MAX);
}
