use hexwife::config::{apply_config, DisplayConfig, UserConfig};
use hexwife::input::{
    finish_edit, handle_edit_key, handle_key, handle_resize, handle_wheel, Action, Key, Wheel,
};
use hexwife::pattern::SearchPattern;
use hexwife::search::search_tick;
use hexwife::viewer::{HexViewer, SearchState, WriteRequest};

fn viewer(size: u64) -> HexViewer {
    HexViewer::open("f".to_string(), true, size)
}

fn press(v: &mut HexViewer, key: Key) -> Action {
    handle_key(v, key, false, 77)
}

fn shift(v: &mut HexViewer, key: Key) -> Action {
    handle_key(v, key, true, 77)
}

#[test]
fn arrows() {
    let mut v = viewer(1000);
    assert_eq!(press(&mut v, Key::Right), Action::Redraw);
    assert_eq!(v.cursor, 1);
    press(&mut v, Key::Down);
    assert_eq!(v.cursor, 17);
    press(&mut v, Key::Left);
    press(&mut v, Key::Up);
    assert_eq!(v.cursor, 0);
    press(&mut v, Key::Up);
    assert_eq!(v.cursor, 0);
}

#[test]
fn keys_with_the_same_meaning() {
    for keys in [
        [(Key::Home, false), (Key::Char('s'), false), (Key::Left, true)],
        [(Key::End, false), (Key::Char('e'), false), (Key::Right, true)],
        [(Key::PageUp, false), (Key::Char('u'), false), (Key::Up, true)],
        [(Key::PageDown, false), (Key::Char('d'), false), (Key::Down, true)],
    ] {
        let mut places = Vec::new();
        for (key, with_shift) in keys {
            let mut v = viewer(10000);
            v.cursor = 5000;
            assert_eq!(handle_key(&mut v, key, with_shift, 0), Action::Redraw);
            places.push((v.cursor, v.scroll_line));
        }
        assert_eq!(places[0], places[1]);
        assert_eq!(places[0], places[2]);
    }
    let mut v = viewer(10000);
    shift(&mut v, Key::Down);
    assert_eq!(v.cursor, 22 * 16);
    shift(&mut v, Key::Right);
    assert_eq!(v.cursor, 10000);
}

#[test]
fn quitting_and_keys_without_meaning() {
    let mut v = viewer(10);
    assert_eq!(press(&mut v, Key::Char('x')), Action::Redraw);
    assert_eq!(press(&mut v, Key::Other), Action::Redraw);
    assert_eq!(press(&mut v, Key::Enter), Action::Redraw);
    assert_eq!(press(&mut v, Key::Char('q')), Action::Quit);
    assert_eq!(v.cursor, 0);
}

#[test]
fn groupings() {
    for (c, g, per_line) in [('1', 1u8, 17usize), ('2', 2, 20), ('3', 4, 20), ('4', 8, 16)] {
        let mut v = viewer(1000);
        v.cursor = 900;
        assert_eq!(press(&mut v, Key::Char(c)), Action::SaveGrouping(g));
        assert_eq!((v.grouping, v.bytes_per_line), (g, per_line));
        assert_eq!(v.scroll_line, 900 / per_line as u128);
    }
}

#[test]
fn wheel() {
    let mut v = viewer(10000);
    handle_wheel(&mut v, Wheel::Down, false);
    assert_eq!(v.cursor, 16);
    handle_wheel(&mut v, Wheel::Down, true);
    assert_eq!(v.cursor, 16 + 22 * 16);
    handle_wheel(&mut v, Wheel::Up, false);
    handle_wheel(&mut v, Wheel::Up, true);
    assert_eq!(v.cursor, 0);
    v.search = SearchState::Scanning;
    handle_wheel(&mut v, Wheel::Down, false);
    assert_eq!(v.cursor, 0);
}

#[test]
fn resizing() {
    let mut v = viewer(1000);
    v.cursor = 999;
    handle_resize(&mut v, 40, 10);
    assert_eq!((v.term_cols, v.term_rows, v.bytes_per_line), (40, 10, 7));
    assert_eq!(v.scroll_line, 142 - 7);
}

#[test]
fn editing_a_byte() {
    let mut v = viewer(10);
    assert_eq!(press(&mut v, Key::Char(' ')), Action::Redraw);
    assert!(v.edit_mode);
    assert_eq!(press(&mut v, Key::Char('a')), Action::SkipRedraw);
    assert_eq!((v.nibble, v.nibble_count), (10, 1));
    assert_eq!((v.cursor, v.file_size, v.edit_mode), (0, 10, true));
    let action = press(&mut v, Key::Char('F'));
    assert_eq!(action, Action::Write(WriteRequest::At(0, 0xaf)));
    finish_edit(&mut v, WriteRequest::At(0, 0xaf), true);
    assert_eq!((v.cursor, v.file_size, v.nibble, v.nibble_count), (1, 10, 0, 0));
    assert!(v.edit_mode);
}

#[test]
fn appending_a_byte() {
    let mut v = viewer(2);
    v.cursor = 2;
    v.edit_mode = true;
    press(&mut v, Key::Char('0'));
    let action = press(&mut v, Key::Char('1'));
    assert_eq!(action, Action::Write(WriteRequest::Append(1)));
    finish_edit(&mut v, WriteRequest::Append(1), false);
    assert_eq!((v.cursor, v.file_size, v.nibble_count), (2, 2, 0));
    finish_edit(&mut v, WriteRequest::Append(1), true);
    assert_eq!((v.cursor, v.file_size), (3, 3));
}

#[test]
fn writing_beyond_64_bits() {
    let mut v = viewer(0);
    v.file_size = u128::MAX;
    v.cursor = 1u128 << 64;
    v.edit_mode = true;
    press(&mut v, Key::Char('0'));
    assert_eq!(press(&mut v, Key::Char('1')), Action::Write(WriteRequest::Refused));
    finish_edit(&mut v, WriteRequest::Refused, false);
    assert_eq!(v.cursor, (1u128 << 64) + 1);
}

#[test]
fn leaving_edit_mode() {
    for key in [Key::Char(' '), Key::Esc] {
        let mut v = viewer(10);
        v.edit_mode = true;
        handle_edit_key(&mut v, Key::Char('5'));
        assert_eq!(handle_edit_key(&mut v, Key::Char('q')), Action::SkipRedraw);
        assert_eq!(handle_edit_key(&mut v, Key::Right), Action::SkipRedraw);
        assert!(v.edit_mode);
        assert_eq!((v.cursor, v.nibble_count), (0, 1));
        assert_eq!(handle_edit_key(&mut v, key), Action::SkipRedraw);
        assert!(!v.edit_mode);
        assert_eq!(v.nibble_count, 0);
    }
}

#[test]
fn typing_in_the_prompt() {
    let mut v = viewer(100);
    press(&mut v, Key::Char('/'));
    assert_eq!(v.search, SearchState::Prompt(String::new()));
    press(&mut v, Key::Backspace);
    for c in ['4', 'x', 'q'] {
        assert_eq!(press(&mut v, Key::Char(c)), Action::Redraw);
    }
    press(&mut v, Key::Backspace);
    assert_eq!(v.search, SearchState::Prompt("4x".to_string()));
    press(&mut v, Key::Left);
    press(&mut v, Key::Enter);
    assert_eq!(v.search, SearchState::Prompt("4x".to_string()));
    assert_eq!(v.search_error, Some("invalid hex digit '4'".to_string()));
    press(&mut v, Key::Backspace);
    assert_eq!(v.search_error, None);
    press(&mut v, Key::Char('8'));
    v.cursor = 10;
    v.search_tail = vec![1];
    v.search_matches = vec![1];
    press(&mut v, Key::Enter);
    assert_eq!(v.search, SearchState::Scanning);
    assert_eq!((v.search_offset, v.search_progress, v.search_start), (11, 0, Some(77)));
    assert!(v.search_tail.is_empty() && v.search_matches.is_empty());
    match v.pattern {
        Some(SearchPattern::Exact(bytes)) => assert_eq!(bytes, vec![0x48u8]),
        other => panic!("{:?}", other),
    }
}

#[test]
fn leaving_the_search() {
    let mut v = viewer(100);
    v.search = SearchState::Prompt("4".to_string());
    v.search_error = Some("e".to_string());
    press(&mut v, Key::Esc);
    assert_eq!(v.search, SearchState::Inactive);
    assert_eq!(v.search_error, None);
    v.search = SearchState::Scanning;
    v.search_start = Some(1);
    press(&mut v, Key::Char('q'));
    assert_eq!(v.search, SearchState::Scanning);
    press(&mut v, Key::Esc);
    assert_eq!(v.search, SearchState::Inactive);
    assert_eq!(v.search_start, None);
    for state in [SearchState::MatchFound, SearchState::NotFound] {
        v.search = state;
        v.search_matches = vec![3];
        assert_eq!(press(&mut v, Key::Char('q')), Action::Redraw);
        assert_eq!(v.search, SearchState::Inactive);
        assert!(v.search_matches.is_empty());
    }
}

#[test]
fn search_from_the_end_of_the_largest_file() {
    let mut v = viewer(0);
    v.file_size = u128::MAX;
    v.cursor = u128::MAX;
    v.search = SearchState::Prompt("00".to_string());
    press(&mut v, Key::Enter);
    assert_eq!(v.search_offset, u128::MAX);
}

#[test]
fn long_walk_keeps_the_viewer_valid() {
    let keys = [
        Key::Up,
        Key::Down,
        Key::Left,
        Key::Right,
        Key::Home,
        Key::End,
        Key::PageUp,
        Key::PageDown,
        Key::Esc,
        Key::Enter,
        Key::Backspace,
        Key::Char(' '),
        Key::Char('/'),
        Key::Char('a'),
        Key::Char('1'),
        Key::Char('2'),
        Key::Char('3'),
        Key::Char('4'),
        Key::Other,
    ];
    let mut v = viewer(777);
    handle_resize(&mut v, 60, 8);
    let mut seed: u32 = 1;
    for _ in 0..20000 {
        seed = seed.wrapping_mul(1664525).wrapping_add(1013904223);
        let key = keys[(seed >> 16) as usize % keys.len()];
        match handle_key(&mut v, key, seed & 0x8000 != 0, seed as u128) {
            Action::Write(request) => finish_edit(&mut v, request, seed & 0x4000 != 0),
            Action::SaveGrouping(g) => assert_eq!(g, v.grouping),
            _ => {}
        }
        if v.search == SearchState::Scanning {
            search_tick(&mut v, None);
        }
        assert!(v.cursor <= v.file_size);
        assert_eq!(v.bytes_per_line, v.groups_per_line * v.grouping as usize);
        assert!(v.nibble_count == 0 || v.edit_mode);
        assert_eq!(v.search_start.is_some(), v.search == SearchState::Scanning);
        let line = v.cursor / v.bytes_per_line as u128;
        assert!(v.scroll_line <= line);
        assert!(line < v.scroll_line + v.visible_rows() as u128);
    }
}

#[test]
fn single_row_at_the_end_of_full_lines() {
    let mut v = viewer(32);
    v.term_rows = 1;
    press(&mut v, Key::End);
    assert_eq!((v.cursor, v.scroll_line), (32, 1));
    press(&mut v, Key::Left);
    assert_eq!((v.cursor, v.scroll_line), (31, 1));
}

#[test]
fn settings() {
    for (g, taken) in [(0u8, 1u8), (1, 1), (2, 2), (3, 1), (4, 4), (8, 8), (16, 1)] {
        let mut v = viewer(1000);
        let config = UserConfig { display: Some(DisplayConfig { grouping: Some(g) }) };
        apply_config(&mut v, &config);
        assert_eq!(v.grouping, taken);
    }
    let mut v = viewer(1000);
    apply_config(&mut v, &UserConfig::default());
    assert_eq!((v.grouping, v.bytes_per_line), (1, 16));
    apply_config(&mut v, &UserConfig { display: Some(DisplayConfig { grouping: None }) });
    assert_eq!((v.grouping, v.bytes_per_line), (1, 16));
}

#[test]
fn saved_grouping_is_restored() {
    for c in ['1', '2', '3', '4'] {
        let mut v = viewer(1000);
        match press(&mut v, Key::Char(c)) {
            Action::SaveGrouping(g) => {
                let mut w = viewer(1000);
                let config = UserConfig { display: Some(DisplayConfig { grouping: Some(g) }) };
                apply_config(&mut w, &config);
                assert_eq!((w.grouping, w.bytes_per_line), (v.grouping, v.bytes_per_line));
            }
            other => panic!("{:?}", other),
        }
    }
}
