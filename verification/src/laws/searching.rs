//! What a search finds.

use crate::constants::{BLOCK_SIZE, MAX_REGEX_OVERLAP};
use crate::finder;
use crate::input::Key;
use crate::pattern;
use crate::pattern::Pattern;
use crate::search;
use crate::viewer::{Phase, State};
use vstd::prelude::*;

verus! {

/// A needle occurs where its bytes stand one after the other.
pub proof fn law_occurrence_is_bytewise(hay: Seq<u8>, needle: Seq<u8>, p: int)
    ensures
        finder::occurs_at(hay, needle, p) <==> {
            &&& 0 <= p
            &&& p + needle.len() <= hay.len()
            &&& forall|i: int| 0 <= i < needle.len() ==> hay[p + i] == #[trigger] needle[i]
        },
{
    if 0 <= p && p + needle.len() <= hay.len() {
        let part = hay.subrange(p, p + needle.len() as int);
        if forall|i: int| 0 <= i < needle.len() ==> hay[p + i] == #[trigger] needle[i] {
            assert(part =~= needle);
        }
        if part == needle {
            assert forall|i: int| 0 <= i < needle.len() implies hay[p + i]
                == #[trigger] needle[i] by {
                assert(part[i] == needle[i]);
            }
        }
    }
}

/// A search asks for the bytes at its offset: for 16 MiB, and for what is left
/// where that is less; for nothing at the end of the file.
pub proof fn law_blocks_that_are_asked_for(s: State)
    ensures
        s.search_offset >= s.file_size || s.pattern is None <==> s.next_block() is None,
        s.next_block() matches Some((offset, len)) ==> {
            &&& offset == s.search_offset
            &&& 0 < len <= BLOCK_SIZE
            &&& len == BLOCK_SIZE || offset + len == s.file_size
            &&& offset + len <= s.file_size
        },
{
}

/// The bytes kept for the next block are the last ones read, as many as the
/// pattern needs to be found across the boundary: one less than its bytes, and
/// for a regular expression a fixed number; all of them where there are fewer.
pub open spec fn keeps_the_end(p: Pattern, read: Seq<u8>, kept: Seq<u8>) -> bool {
    let wanted = match p {
        Pattern::Exact(needle) => if needle.len() == 0 {
            0
        } else {
            needle.len() - 1
        },
        Pattern::Regex(_) => MAX_REGEX_OVERLAP as int,
    };
    &&& kept.len() == wanted || kept.len() == read.len() && read.len() < wanted
    &&& kept.len() <= read.len()
    &&& forall|i: int|
        0 <= i < kept.len() ==> #[trigger] kept[i] == read[read.len() - kept.len() + i]
}

/// A step that takes in a block moves the search on by the block: its offset
/// and its progress grow by the bytes read, and the end of what was read is kept.
pub proof fn law_step_moves_on(s: State, block: Seq<u8>, t: State, more: bool)
    requires
        s.valid(),
        s.search == Phase::Scanning,
        s.next_block() is Some,
        0 < block.len() <= (s.next_block()->0).1,
        s.search_progress + block.len() <= u128::MAX,
        search::is_step(s, Some(block), t, more),
    ensures
        t.search_offset == s.search_offset + block.len(),
        t.search_progress == s.search_progress + block.len(),
        keeps_the_end(s.pattern->0, s.search_tail + block, t.search_tail),
        t.pattern == s.pattern,
        t.file_size == s.file_size,
        t == (State {
            cursor: t.cursor,
            scroll_line: t.scroll_line,
            search: t.search,
            search_matches: t.search_matches,
            search_offset: t.search_offset,
            search_progress: t.search_progress,
            search_tail: t.search_tail,
            search_start: t.search_start,
            ..s
        }),
{
}

/// A step that finds something stops the search and its clock. The matches it
/// reports are those that the finder reports in the bytes kept and the block,
/// counted from the place in the file where these start; the cursor goes to the
/// first of them, which is the smallest, whatever the pattern is, and the view
/// follows it.
pub proof fn law_cursor_goes_to_first_match(s: State, block: Seq<u8>, t: State, more: bool)
    requires
        s.valid(),
        s.search == Phase::Scanning,
        s.next_block() is Some,
        0 < block.len() <= (s.next_block()->0).1,
        search::is_step(s, Some(block), t, more),
        t.search == Phase::MatchFound,
    ensures
        more,
        t.search_start is None,
        t.search_matches.len() > 0,
        t.cursor == t.search_matches[0],
        forall|i: int|
            0 <= i < t.search_matches.len() ==> t.cursor <= #[trigger] t.search_matches[i],
        ({
            let base = s.search_offset - s.search_tail.len();
            let starts = Seq::new(
                t.search_matches.len(),
                |i: int| (t.search_matches[i] - base) as usize,
            );
            &&& forall|i: int|
                0 <= i < t.search_matches.len() ==> base <= #[trigger] t.search_matches[i]
                    <= base + s.search_tail.len() + block.len()
            &&& match s.pattern->0 {
                Pattern::Exact(needle) => finder::is_scan(starts, s.search_tail + block, needle),
                Pattern::Regex(text) => finder::regex_starts(text, s.search_tail + block) == Some(
                    starts,
                ),
            }
        }),
        t == (State { scroll_line: s.scroll_line, ..t }).scrolled_to_cursor(
            if s.term_rows < 3 {
                1
            } else {
                s.term_rows - 2
            },
        ),
{
    let p = s.pattern->0;
    let hay = s.haystack(block);
    let base = s.search_offset - s.search_tail.len();
    let starts = lemma_reported(s, block, t, more);
    let again = Seq::new(
        t.search_matches.len(),
        |i: int| (t.search_matches[i] - base) as usize,
    );
    assert forall|i: int| 0 <= i < starts.len() implies #[trigger] t.search_matches[i] == base
        + starts[i] by {
        assert(starts[i] <= hay.len());
        assert(t.search_matches[i] == (base + starts[i]) as u128);
    }
    assert(again =~= starts);
    assert(match p {
        Pattern::Exact(needle) => finder::is_scan(again, s.search_tail + block, needle),
        Pattern::Regex(text) => finder::regex_starts(text, s.search_tail + block) == Some(again),
    }) by {
        reveal(reports);
    }
}

/// The finder reports the pattern at `starts`.
#[verifier::opaque]
spec fn reports(p: Pattern, hay: Seq<u8>, starts: Seq<usize>) -> bool {
    match p {
        Pattern::Exact(needle) => finder::is_scan(starts, hay, needle),
        Pattern::Regex(text) => finder::regex_starts(text, hay) == Some(starts),
    }
}

/// What the finder has reported in a step that has found something.
proof fn lemma_reported(s: State, block: Seq<u8>, t: State, more: bool) -> (starts: Seq<usize>)
    requires
        s.search == Phase::Scanning,
        s.next_block() is Some,
        block.len() > 0,
        search::is_step(s, Some(block), t, more),
        t.search == Phase::MatchFound,
    ensures
        more,
        starts.len() > 0,
        t == s.absorbed(block, starts),
        reports(s.pattern->0, s.haystack(block), starts),
        forall|i: int|
            0 <= i < starts.len() ==> starts[0] <= #[trigger] starts[i] <= s.haystack(block).len(),
{
    let p = s.pattern->0;
    let hay = s.haystack(block);
    let starts = choose|starts: Seq<usize>|
        {
            &&& #[trigger] search::found_by(p, hay, starts)
            &&& t == s.absorbed(block, starts)
            &&& more == (starts.len() > 0 || s.search_offset + block.len() < s.file_size)
        };
    reveal(reports);
    lemma_order(p, hay, starts);
    starts
}

proof fn lemma_order(p: Pattern, hay: Seq<u8>, starts: Seq<usize>)
    requires
        search::found_by(p, hay, starts),
    ensures
        forall|i: int|
            0 <= i < starts.len() ==> starts[0] <= #[trigger] starts[i] <= hay.len(),
{
    assert forall|i: int| 0 <= i < starts.len() implies starts[0] <= #[trigger] starts[i]
        <= hay.len() by {
        match p {
            Pattern::Exact(needle) => {
                assert(finder::occurs_at(hay, needle, starts[i] as int));
                if i > 0 {
                    assert(starts[0] + finder::stride(needle) <= starts[i]);
                }
            },
            Pattern::Regex(_) => {},
        }
    }
}

/// A step that finds nothing leaves the cursor, the view and the matches as they
/// are. The search goes on, or ends where the file does, with its clock stopped.
/// It finds nothing exactly where the finder reports nothing in the bytes kept
/// and the block.
pub proof fn law_step_without_match(s: State, block: Seq<u8>, t: State, more: bool)
    requires
        s.valid(),
        s.search == Phase::Scanning,
        s.next_block() is Some,
        0 < block.len() <= (s.next_block()->0).1,
        search::is_step(s, Some(block), t, more),
    ensures
        t.search != Phase::MatchFound ==> {
            &&& t.cursor == s.cursor
            &&& t.scroll_line == s.scroll_line
            &&& t.search_matches == s.search_matches
            &&& s.search_offset + block.len() < s.file_size ==> more && t.search == Phase::Scanning
                && t.search_start == s.search_start
            &&& s.search_offset + block.len() == s.file_size ==> !more && t.search
                == Phase::NotFound && t.search_start is None
        },
        match s.pattern->0 {
            Pattern::Exact(needle) => t.search == Phase::MatchFound <==> exists|q: int|
                finder::occurs_at(s.search_tail + block, needle, q),
            Pattern::Regex(text) => t.search == Phase::MatchFound <==> {
                &&& finder::regex_starts(text, s.search_tail + block) is Some
                &&& finder::regex_starts(text, s.search_tail + block)->0.len() > 0
            },
        },
{
    let p = s.pattern->0;
    let hay = s.haystack(block);
    let starts = choose|starts: Seq<usize>|
        {
            &&& #[trigger] search::found_by(p, hay, starts)
            &&& t == s.absorbed(block, starts)
            &&& more == (starts.len() > 0 || s.search_offset + block.len() < s.file_size)
        };
    if let Pattern::Exact(needle) = p {
        if starts.len() > 0 {
            assert(finder::occurs_at(hay, needle, starts[0] as int));
        }
    }
}

/// What a block brings where the pattern is found at `starts` in the bytes kept
/// and the block: the matches are these, counted from the start of the file, and
/// the cursor goes to the first of them. Where there is none, both stay.
pub proof fn law_block_with_starts(s: State, block: Seq<u8>, starts: Seq<usize>)
    requires
        s.pattern is Some,
        s.search_tail.len() <= s.search_offset,
        s.search_offset + block.len() <= u128::MAX,
        forall|i: int|
            0 <= i < starts.len() ==> #[trigger] starts[i] <= s.search_tail.len() + block.len(),
    ensures
        ({
            let t = s.absorbed(block, starts);
            let base = s.search_offset - s.search_tail.len();
            &&& t.search_offset == s.search_offset + block.len()
            &&& starts.len() > 0 ==> {
                &&& t.search == Phase::MatchFound
                &&& t.search_start is None
                &&& t.cursor == base + starts[0]
                &&& t.search_matches.len() == starts.len()
                &&& forall|i: int|
                    0 <= i < starts.len() ==> #[trigger] t.search_matches[i] == base + starts[i]
            }
            &&& starts.len() == 0 ==> {
                &&& t.cursor == s.cursor
                &&& t.scroll_line == s.scroll_line
                &&& t.search_matches == s.search_matches
                &&& t.search_offset < s.file_size ==> t.search == s.search && t.search_start
                    == s.search_start
                &&& t.search_offset >= s.file_size ==> t.search == Phase::NotFound
                    && t.search_start is None
            }
        }),
{
    assert(forall|i: int| 0 <= i < starts.len() ==> #[trigger] starts[i] <= u128::MAX);
}

/// A search ends without a match at the end of the file, and where a block could
/// not be read or is empty; a step without a search does nothing.
pub proof fn law_search_stops_at_the_end(s: State, block: Option<Seq<u8>>, t: State)
    requires
        search::is_tick(s, block, t),
    ensures
        s.search != Phase::Scanning ==> t == s,
        s.search == Phase::Scanning && s.pattern is Some && (s.search_offset >= s.file_size
            || block is None || block->0.len() == 0) ==> t == (State {
            search: Phase::NotFound,
            search_start: None,
            ..s
        }),
        s.search == Phase::Scanning && s.pattern is None && s.search_offset < s.file_size ==> t == (
        State { search_start: None, ..s }),
{
}

/// So does a step that is taken for itself, and it says that it was the last.
pub proof fn law_step_stops_at_the_end(s: State, block: Option<Seq<u8>>, t: State, more: bool)
    requires
        search::is_step(s, block, t, more),
    ensures
        s.search_offset >= s.file_size || s.pattern is Some && (block is None || block->0.len()
            == 0) ==> !more && t == (State {
            search: Phase::NotFound,
            search_start: None,
            ..s
        }),
        s.search_offset < s.file_size && s.pattern is None ==> !more && t == s,
{
}

/// A tick of a running search is a step of it.
pub proof fn law_tick_is_a_step(s: State, block: Seq<u8>, t: State) -> (more: bool)
    requires
        s.valid(),
        s.search == Phase::Scanning,
        s.next_block() is Some,
        0 < block.len() <= (s.next_block()->0).1,
        search::is_tick(s, Some(block), t),
    ensures
        search::is_step(s, Some(block), t, more),
{
    let (u, more) = choose|u: State, more: bool|
        {
            &&& #[trigger] search::is_step(s, Some(block), u, more)
            &&& t == (if more {
                u
            } else {
                State { search_start: None, ..u }
            })
        };
    law_step_without_match(s, block, u, more);
    if u.search == Phase::MatchFound {
        law_cursor_goes_to_first_match(s, block, u, more);
    }
    assert(t == u);
    more
}

/// The blocks are read from the file: each is what the file holds at the offset
/// that the search asks for, as much of it as was read, and not empty.
pub open spec fn are_read_from(
    states: Seq<State>,
    blocks: Seq<Option<Seq<u8>>>,
    content: Seq<u8>,
) -> bool {
    &&& states.len() == blocks.len() + 1
    &&& forall|i: int|
        0 <= i < blocks.len() ==> search::is_tick(
            #[trigger] states[i],
            #[trigger] blocks[i],
            states[i + 1],
        )
    &&& forall|i: int|
        0 <= i < blocks.len() && (#[trigger] states[i]).next_block() is Some ==> {
            let (offset, len) = states[i].next_block()->0;
            &&& blocks[i] is Some
            &&& 0 < blocks[i]->0.len() <= len
            &&& blocks[i]->0 == content.subrange(offset, offset + blocks[i]->0.len())
        }
}

/// From Enter in the prompt to the end of a search: however the file comes in
/// blocks, the cursor goes to the first place behind it where the file holds the
/// bytes that were asked for, and the search says that there is none where there
/// is none. It is at its end after as many blocks as the file has bytes behind
/// the cursor, and two.
pub proof fn law_search_from_prompt_to_match(
    s: State,
    input: Seq<char>,
    needle: Seq<u8>,
    shift: bool,
    now: u128,
    content: Seq<u8>,
    states: Seq<State>,
    blocks: Seq<Option<Seq<u8>>>,
)
    requires
        s.valid(),
        s.cursor < u128::MAX,
        s.file_size == content.len(),
        s.search == Phase::Prompt(input),
        pattern::parse_pattern(input) == Ok::<Pattern, Seq<char>>(Pattern::Exact(needle)),
        are_read_from(states, blocks, content),
        states[0] == s.key(Key::Enter, shift, now).0,
    ensures
        ({
            let t = states.last();
            &&& t.search == Phase::MatchFound ==> {
                &&& s.cursor < t.cursor
                &&& t.cursor + needle.len() <= content.len()
                &&& forall|i: int|
                    0 <= i < needle.len() ==> content[t.cursor + i] == #[trigger] needle[i]
                &&& forall|q: int|
                    s.cursor < q < t.cursor ==> !#[trigger] finder::occurs_at(content, needle, q)
            }
            &&& t.search == Phase::NotFound ==> forall|q: int|
                s.cursor < q < content.len() ==> !#[trigger] finder::occurs_at(content, needle, q)
            &&& t.search != Phase::MatchFound && t.search != Phase::NotFound ==> {
                &&& t.search == Phase::Scanning
                &&& t.cursor == s.cursor
                &&& blocks.len() <= content.len() - s.cursor
            }
        }),
{
    let n = blocks.len() as int;
    lemma_trace(s, input, needle, shift, now, content, states, blocks, n);
    let t = states.last();
    if t.search == Phase::MatchFound {
        law_occurrence_is_bytewise(content, needle, t.cursor);
    }
}

/// What holds after `n` ticks.
proof fn lemma_trace(
    s: State,
    input: Seq<char>,
    needle: Seq<u8>,
    shift: bool,
    now: u128,
    content: Seq<u8>,
    states: Seq<State>,
    blocks: Seq<Option<Seq<u8>>>,
    n: int,
)
    requires
        s.valid(),
        s.cursor < u128::MAX,
        s.file_size == content.len(),
        s.search == Phase::Prompt(input),
        pattern::parse_pattern(input) == Ok::<Pattern, Seq<char>>(Pattern::Exact(needle)),
        are_read_from(states, blocks, content),
        states[0] == s.key(Key::Enter, shift, now).0,
        0 <= n <= blocks.len(),
    ensures
        ({
            let t = states[n];
            let start = s.cursor + 1;
            &&& t.valid()
            &&& t.search == Phase::MatchFound ==> search::is_first_occurrence(
                content,
                needle,
                start,
                t.cursor,
            )
            &&& t.search == Phase::NotFound ==> search::has_no_occurrence(content, needle, start)
            &&& t.search != Phase::MatchFound && t.search != Phase::NotFound ==> {
                &&& t.search == Phase::Scanning
                &&& t.pattern == Some(Pattern::Exact(needle))
                &&& t.cursor == s.cursor
                &&& t.file_size == s.file_size
                &&& t.search_offset >= start + n
                &&& t.search_offset <= s.file_size && t.scanned(content, needle, start) || n == 0
                    && start == s.file_size + 1
            }
        }),
    decreases n,
{
    let start = s.cursor + 1;
    if n == 0 {
        let t = states[0];
        crate::laws::law_keys_keep_valid(s, Key::Enter, shift, now);
        if start <= s.file_size {
            assert(t.search_tail =~= content.subrange(start, start));
        }
    } else {
        let u = states[n - 1];
        let t = states[n];
        let block = blocks[n - 1];
        lemma_trace(s, input, needle, shift, now, content, states, blocks, n - 1);
        assert(search::is_tick(states[n - 1], blocks[n - 1], states[n - 1 + 1]));
        if u.search == Phase::Scanning {
            if u.search_offset >= u.file_size {
                law_search_stops_at_the_end(u, block, t);
                assert(t.search == Phase::NotFound);
                assert forall|q: int| start <= q < content.len() implies !#[trigger]
                    finder::occurs_at(content, needle, q) by {
                    if finder::occurs_at(content, needle, q) {
                        assert(q + needle.len() <= content.len());
                    }
                }
                crate::laws::law_search_keeps_valid(u, block, t);
            } else {
                assert(u.next_block() is Some);
                let bytes = block->0;
                let more = law_tick_is_a_step(u, bytes, t);
                crate::laws::law_search_keeps_valid(u, block, t);
                let starts = choose|starts: Seq<usize>|
                    {
                        &&& #[trigger] search::found_by(u.pattern->0, u.haystack(bytes), starts)
                        &&& t == u.absorbed(bytes, starts)
                        &&& more == (starts.len() > 0 || u.search_offset + bytes.len()
                            < u.file_size)
                    };
                search::law_block_boundaries_hide_nothing(
                    u,
                    content,
                    needle,
                    start,
                    bytes.len() as int,
                    starts,
                );
            }
        } else {
            assert(t == u);
        }
    }
}

} // verus!
