use hexwife::constants::{BLOCK_SIZE, MAX_REGEX_OVERLAP};
use hexwife::pattern::{parse_search_pattern, SearchPattern};
use hexwife::search::{
    absorb_block, format_eta, search_request, search_step, search_tick, throughput_unit,
    ReadRequest,
};
use hexwife::viewer::{HexViewer, SearchState};

fn searching(content: &[u8], input: &str) -> HexViewer {
    let mut v = HexViewer::open("f".to_string(), true, content.len() as u64);
    v.pattern = Some(parse_search_pattern(input).unwrap());
    v.search_offset = 1;
    v.search_start = Some(5);
    v.search = SearchState::Scanning;
    v
}

fn run(v: &mut HexViewer, content: &[u8], block: usize) {
    while v.search == SearchState::Scanning {
        let bytes = search_request(v).map(|r| {
            let from = r.offset as usize;
            content[from..from + r.len.min(block)].to_vec()
        });
        search_tick(v, bytes);
    }
}

#[test]
fn first_occurrence_for_every_block_size() {
    let content = b"xaabaaabaaabab";
    for block in 1..=content.len() {
        for pattern in ["\"aab\"", "\"aaab\"", "\"abab\"", "\"b\"", "\"xa\"", "\"bb\"", "\"ab\""] {
            let mut v = searching(content, pattern);
            run(&mut v, content, block);
            let needle = &pattern.as_bytes()[1..pattern.len() - 1];
            let expected = (1..content.len()).find(|&i| content[i..].starts_with(needle));
            match expected {
                Some(at) => {
                    assert_eq!(v.search, SearchState::MatchFound);
                    assert_eq!(v.cursor, at as u128, "{} {}", pattern, block);
                    assert_eq!(v.search_matches[0], at as u128);
                }
                None => {
                    assert_eq!(v.search, SearchState::NotFound);
                    assert_eq!(v.cursor, 0);
                }
            }
            assert!(v.search_start.is_none());
            assert_eq!(v.search_progress + 1, v.search_offset);
            assert!(v.search_offset <= v.file_size);
        }
    }
}

#[test]
fn all_matches_of_the_block() {
    let content = b"-aaaa-aa";
    let mut v = searching(content, "\"aa\"");
    assert!(search_step(&mut v, Some(content[1..].to_vec())));
    assert_eq!(v.search_matches, vec![1u128, 3, 6]);
    assert_eq!((v.cursor, v.search_offset, v.search_progress), (1, 8, 7));
    assert_eq!(v.search_tail, b"a".to_vec());
}

#[test]
fn empty_pattern_matches_everywhere() {
    let content = b"abc";
    let mut v = searching(content, "\"\"");
    assert!(search_step(&mut v, Some(content[1..].to_vec())));
    assert_eq!(v.search_matches, vec![1u128, 2, 3]);
    assert_eq!(v.cursor, 1);
}

#[test]
fn regex_matches_are_found() {
    let content = b"-- hex and Hex";
    let mut v = searching(content, "/[Hh]ex/");
    assert!(search_step(&mut v, Some(content[1..].to_vec())));
    assert_eq!(v.search_matches, vec![3u128, 11]);
    assert_eq!(v.search, SearchState::MatchFound);
    assert_eq!(v.search_tail, content[1..].to_vec());
}

#[test]
fn regex_sees_the_end_of_the_block_before() {
    let content = b"--he-x";
    let mut v = searching(content, "/e-x/");
    assert!(search_step(&mut v, Some(content[1..4].to_vec())));
    assert_eq!(v.search, SearchState::Scanning);
    assert!(search_step(&mut v, Some(content[4..].to_vec())));
    assert_eq!(v.cursor, 3);
}

#[test]
fn regex_that_does_not_compile_finds_nothing() {
    let content = b"(((";
    let mut v = searching(content, "/a/");
    v.pattern = Some(SearchPattern::Regex("(".to_string()));
    assert!(!search_step(&mut v, Some(content[1..].to_vec())));
    assert_eq!(v.search, SearchState::NotFound);
}

#[test]
fn tail_keeps_no_more_than_the_overlap() {
    let content = vec![b'a'; 3 * MAX_REGEX_OVERLAP];
    let mut v = searching(&content, "/b/");
    assert!(search_step(&mut v, Some(content[1..11].to_vec())));
    assert_eq!(v.search_tail.len(), 10);
    assert!(search_step(&mut v, Some(content[11..11 + MAX_REGEX_OVERLAP].to_vec())));
    assert_eq!(v.search_tail.len(), MAX_REGEX_OVERLAP);
    let mut v = searching(&content, "62 62 62");
    assert!(search_step(&mut v, Some(content[1..2].to_vec())));
    assert_eq!(v.search_tail.len(), 1);
    assert!(search_step(&mut v, Some(content[2..3].to_vec())));
    assert!(search_step(&mut v, Some(content[3..4].to_vec())));
    assert_eq!(v.search_tail.len(), 2);
}

#[test]
fn blocks_that_a_search_asks_for() {
    let mut v = searching(b"0123456789", "00");
    assert_eq!(search_request(&v), Some(ReadRequest { offset: 1, len: 9 }));
    v.file_size = u128::MAX;
    assert_eq!(search_request(&v), Some(ReadRequest { offset: 1, len: BLOCK_SIZE }));
    v.file_size = (1u128 << 64) + 1;
    assert_eq!(search_request(&v), Some(ReadRequest { offset: 1, len: BLOCK_SIZE }));
    v.search_offset = v.file_size;
    assert_eq!(search_request(&v), None);
    v.search_offset = 1;
    v.pattern = None;
    assert_eq!(search_request(&v), None);
}

#[test]
fn ends_of_a_search() {
    let content = b"abc";
    for block in [None, Some(Vec::new())] {
        let mut v = searching(content, "\"z\"");
        assert!(!search_step(&mut v, block));
        assert_eq!(v.search, SearchState::NotFound);
        assert!(v.search_start.is_none());
    }
    let mut v = searching(content, "\"z\"");
    v.search_offset = 4;
    assert!(!search_step(&mut v, None));
    assert_eq!(v.search, SearchState::NotFound);
    let mut v = searching(content, "\"z\"");
    v.pattern = None;
    assert!(!search_step(&mut v, Some(b"bc".to_vec())));
    assert_eq!(v.search, SearchState::Scanning);
    assert_eq!(v.search_start, Some(5));
    search_tick(&mut v, Some(b"bc".to_vec()));
    assert!(v.search_start.is_none());
}

#[test]
fn end_of_a_search_with_bytes_from_before_the_file() {
    for block in [None, Some(Vec::new())] {
        let mut v = searching(b"abc", "\"z\"");
        v.search_tail = vec![1, 2, 3];
        assert!(!search_step(&mut v, block));
        assert_eq!(v.search, SearchState::NotFound);
    }
    let mut v = searching(b"abc", "\"z\"");
    v.search_tail = vec![1, 2, 3];
    assert!(absorb_block(&mut v, vec![b'b'], Vec::new()));
    assert_eq!(v.search, SearchState::Scanning);
    assert_eq!((v.search_offset, v.search_progress), (2, 1));
}

#[test]
fn tick_without_a_search_does_nothing() {
    let mut v = searching(b"abc", "\"b\"");
    v.search = SearchState::Inactive;
    search_tick(&mut v, Some(b"bc".to_vec()));
    assert_eq!((v.cursor, v.search_offset), (0, 1));
    assert_eq!(v.search, SearchState::Inactive);
}

#[test]
fn matches_are_counted_from_the_haystack() {
    let mut v = searching(b"0123456789", "00 00 00");
    v.search_offset = 5;
    v.search_progress = 4;
    v.search_tail = vec![3, 4];
    assert!(absorb_block(&mut v, vec![5, 6, 7], vec![1, 4]));
    assert_eq!(v.search_matches, vec![4u128, 7]);
    assert_eq!((v.cursor, v.search_offset, v.search_progress), (4, 8, 7));
    assert_eq!(v.search_tail, vec![6u8, 7]);
}

#[test]
fn time_that_is_left() {
    assert_eq!(format_eta(1, 1, 0, 99), "ETA: done");
    assert_eq!(format_eta(0, 1, 1, 99), "ETA: calculating...");
    assert_eq!(format_eta(1, 0, 1, 99), "ETA: calculating...");
    assert_eq!(format_eta(1, 1, 1, 0), "ETA: 0s");
    assert_eq!(format_eta(1, 1, 1, 59), "ETA: 59s");
    assert_eq!(format_eta(1, 1, 1, 60), "ETA: 1m 0s");
    assert_eq!(format_eta(1, 1, 1, 3661), "ETA: 1h 1m 1s");
    assert_eq!(format_eta(1, 1, 1, 86400), "ETA: 1d 0s");
    assert_eq!(
        format_eta(1, 1, 1, 5000 * 31536000 + 364 * 86400 + 23 * 3600 + 59 * 60 + 58),
        "ETA: 5000y 364d 23h 59m 58s"
    );
    assert_eq!(format_eta(1, 1, 1, u64::MAX), "ETA: 584942417355y 26d 7h 15s");
}

#[test]
fn units_of_throughput() {
    assert_eq!(throughput_unit(0), (0, "B/s"));
    assert_eq!(throughput_unit(1023), (0, "B/s"));
    assert_eq!(throughput_unit(1024), (1, "KiB/s"));
    assert_eq!(throughput_unit(1024 * 1024 - 1), (1, "KiB/s"));
    assert_eq!(throughput_unit(200 << 20), (2, "MiB/s"));
    assert_eq!(throughput_unit(3 << 30), (3, "GiB/s"));
    assert_eq!(throughput_unit(1 << 40), (4, "TiB/s"));
    assert_eq!(throughput_unit(1 << 50), (5, "PiB/s"));
    assert_eq!(throughput_unit(1 << 60), (6, "EiB/s"));
    assert_eq!(throughput_unit(u64::MAX), (6, "EiB/s"));
}
