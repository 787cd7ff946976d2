//! The search: block after block, with an overlap between them.

use crate::constants::{BLOCK_SIZE, MAX_REGEX_OVERLAP};
use crate::finder;
use crate::finder::{find_all, find_regex};
use crate::pattern::{Pattern, SearchPattern};
use crate::text;
use crate::text::push_decimal;
use crate::viewer;
use crate::viewer::{HexViewer, Phase, SearchState, State};
use vstd::prelude::*;
use vstd::string::*;

verus! {

/// Bytes to be read from the file.
#[derive(Debug, Clone, Copy, PartialEq, Eq, Structural)]
pub struct ReadRequest {
    pub offset: u128,
    pub len: usize,
}

/// The bytes of the blocks already read that are searched again together with
/// the next one.
pub open spec fn overlap(p: Pattern) -> int {
    match p {
        Pattern::Exact(bytes) => viewer::larger(bytes.len() - 1, 0),
        Pattern::Regex(_) => MAX_REGEX_OVERLAP as int,
    }
}

/// The last `n` bytes, or all where there are fewer.
pub open spec fn last_bytes(s: Seq<u8>, n: int) -> Seq<u8> {
    if n >= s.len() {
        s
    } else {
        s.skip(s.len() - n)
    }
}

/// `starts` are the matches of the pattern in the haystack.
pub open spec fn found_by(p: Pattern, haystack: Seq<u8>, starts: Seq<usize>) -> bool {
    match p {
        Pattern::Exact(bytes) => finder::is_scan(starts, haystack, bytes),
        Pattern::Regex(text) => {
            &&& starts == (match finder::regex_starts(text, haystack) {
                Some(s) => s,
                None => Seq::empty(),
            })
            &&& forall|i: int| 0 <= i < starts.len() ==> #[trigger] starts[i] <= haystack.len()
            &&& forall|i: int, j: int|
                0 <= i <= j < starts.len() ==> #[trigger] starts[i] <= #[trigger] starts[j]
        },
    }
}

impl State {
    /// The block that the search wants next: its offset and length.
    pub open spec fn next_block(self) -> Option<(int, int)> {
        if self.search_offset >= self.file_size || self.pattern is None {
            None
        } else {
            Some(
                (
                    self.search_offset,
                    viewer::smaller(BLOCK_SIZE as int, self.file_size - self.search_offset),
                ),
            )
        }
    }

    /// Where the search wants a block and this one holds anything, it is no
    /// longer than was asked for, and the bytes kept from the blocks before it
    /// lie in the file.
    pub open spec fn takes_in(self, block: Seq<u8>) -> bool {
        self.next_block() is Some && block.len() > 0 ==> {
            &&& block.len() <= (self.next_block()->0).1
            &&& self.search_tail.len() <= self.search_offset
        }
    }

    /// The search has ended without a match, and its clock has stopped.
    pub open spec fn not_found(self) -> State {
        State { search: Phase::NotFound, search_start: None, ..self }
    }

    /// What a block is searched in: the end of the blocks before it, and the
    /// block.
    pub open spec fn haystack(self, block: Seq<u8>) -> Seq<u8> {
        self.search_tail + block
    }

    /// The offset in the file at which the haystack starts.
    pub open spec fn haystack_offset(self) -> int {
        self.search_offset - self.search_tail.len()
    }

    /// The search has moved on behind a block.
    pub open spec fn moved_on(self, block: Seq<u8>) -> State {
        State {
            search_progress: viewer::smaller(
                self.search_progress + block.len(),
                u128::MAX as int,
            ),
            search_tail: last_bytes(self.haystack(block), overlap(self.pattern->0)),
            search_offset: self.search_offset + block.len(),
            ..self
        }
    }

    /// The search after a block in which the pattern matches at `starts`.
    pub open spec fn absorbed(self, block: Seq<u8>, starts: Seq<usize>) -> State {
        let next = self.moved_on(block);
        let base = self.haystack_offset();
        if starts.len() > 0 {
            State {
                cursor: base + starts[0],
                search_matches: Seq::new(starts.len(), |i: int| (base + starts[i]) as u128),
                search: Phase::MatchFound,
                search_start: None,
                ..next
            }.scrolled_to_cursor(self.visible_rows())
        } else if next.search_offset >= next.file_size {
            next.not_found()
        } else {
            next
        }
    }
}

/// A step of the search from `s` to `t`: it ends where the file ends or could
/// not be read, and takes in the block otherwise. `more` says that it goes on
/// or has found something.
pub open spec fn is_step(s: State, block: Option<Seq<u8>>, t: State, more: bool) -> bool {
    if s.search_offset >= s.file_size {
        t == s.not_found() && !more
    } else if s.pattern is None {
        t == s && !more
    } else if block is None || block->0.len() == 0 {
        t == s.not_found() && !more
    } else {
        exists|starts: Seq<usize>|
            {
                &&& #[trigger] found_by(s.pattern->0, s.haystack(block->0), starts)
                &&& t == s.absorbed(block->0, starts)
                &&& more == (starts.len() > 0 || s.search_offset + block->0.len() < s.file_size)
            }
    }
}

/// A step from `s` to `t` where a search is running, with its clock stopped
/// where that was the last one; nothing where none is running.
pub open spec fn is_tick(s: State, block: Option<Seq<u8>>, t: State) -> bool {
    if s.search == Phase::Scanning {
        exists|u: State, more: bool|
            {
                &&& #[trigger] is_step(s, block, u, more)
                &&& t == (if more {
                    u
                } else {
                    State { search_start: None, ..u }
                })
            }
    } else {
        t == s
    }
}

/// The block that the search wants next, or `None` where it has come to its
/// end.
pub fn search_request(viewer: &HexViewer) -> (r: Option<ReadRequest>)
    ensures
        r is None <==> viewer@.next_block() is None,
        r matches Some(b) ==> viewer@.next_block() == Some((b.offset as int, b.len as int)),
{
    if viewer.search_offset >= viewer.file_size || viewer.pattern.is_none() {
        return None;
    }
    let left: u128 = viewer.file_size - viewer.search_offset;
    let len: usize = if left < BLOCK_SIZE as u128 {
        left as usize
    } else {
        BLOCK_SIZE
    };
    Some(ReadRequest { offset: viewer.search_offset, len })
}

/// Searches the block that `search_request` asked for, `None` where it could
/// not be read. Returns whether the search goes on or has found something.
pub fn search_step(viewer: &mut HexViewer, block: Option<Vec<u8>>) -> (r: bool)
    requires
        block is Some ==> old(viewer)@.takes_in(block->0@),
    ensures
        is_step(
            old(viewer)@,
            match block {
                Some(bytes) => Some(bytes@),
                None => None,
            },
            final(viewer)@,
            r,
        ),
{
    if viewer.search_offset >= viewer.file_size {
        viewer.search = SearchState::NotFound;
        viewer.search_start = None;
        return false;
    }
    if viewer.pattern.is_none() {
        return false;
    }
    let bytes = match block {
        Some(bytes) => bytes,
        None => {
            viewer.search = SearchState::NotFound;
            viewer.search_start = None;
            return false;
        },
    };
    if bytes.len() == 0 {
        viewer.search = SearchState::NotFound;
        viewer.search_start = None;
        return false;
    }
    let mut haystack: Vec<u8> = Vec::new();
    haystack.extend_from_slice(viewer.search_tail.as_slice());
    haystack.extend_from_slice(bytes.as_slice());
    assert(haystack@ =~= viewer@.haystack(bytes@));
    let starts: Vec<usize> = match &viewer.pattern {
        Some(SearchPattern::Exact(needle)) => find_all(needle.as_slice(), haystack.as_slice()),
        Some(SearchPattern::Regex(text)) => match find_regex(text.as_str(), haystack.as_slice()) {
            Some(starts) => starts,
            None => Vec::new(),
        },
        None => Vec::new(),
    };
    assert(found_by(viewer@.pattern->0, viewer@.haystack(bytes@), starts@));
    absorb_block(viewer, bytes, starts)
}

/// Takes a step where a search is running, and stops its clock where that was
/// the last one.
pub fn search_tick(viewer: &mut HexViewer, block: Option<Vec<u8>>)
    requires
        old(viewer)@.search == Phase::Scanning && block is Some ==> old(viewer)@.takes_in(
            block->0@,
        ),
    ensures
        is_tick(
            old(viewer)@,
            match block {
                Some(bytes) => Some(bytes@),
                None => None,
            },
            final(viewer)@,
        ),
{
    let ghost before = viewer@;
    if let SearchState::Scanning = &viewer.search {
        let more = search_step(viewer, block);
        let ghost stepped = viewer@;
        if !more {
            viewer.search_start = None;
        }
        assert(is_step(
            before,
            match block {
                Some(bytes) => Some(bytes@),
                None => None,
            },
            stepped,
            more,
        ));
    }
}

/// Moves the search on behind a block that was read, in which the pattern
/// matches at `starts`, counted from the start of the haystack.
pub fn absorb_block(viewer: &mut HexViewer, block: Vec<u8>, starts: Vec<usize>) -> (r: bool)
    requires
        old(viewer)@.pattern is Some,
        starts@.len() > 0 ==> old(viewer)@.search_tail.len() <= old(viewer)@.search_offset,
        old(viewer)@.search_offset + block@.len() <= u128::MAX,
        forall|i: int|
            0 <= i < starts@.len() ==> #[trigger] starts@[i] <= old(viewer)@.haystack(
                block@,
            ).len(),
    ensures
        final(viewer)@ == old(viewer)@.absorbed(block@, starts@),
        r == (starts@.len() > 0 || old(viewer)@.search_offset + block@.len() < old(
            viewer,
        )@.file_size),
{
    let ghost before = viewer@;
    let ghost p = before.pattern->0;
    let keep: usize = match &viewer.pattern {
        Some(SearchPattern::Exact(bytes)) => if bytes.len() == 0 {
            0
        } else {
            bytes.len() - 1
        },
        _ => MAX_REGEX_OVERLAP,
    };
    assert(keep == overlap(p));
    let base: u128 = viewer.search_offset.saturating_sub(viewer.search_tail.len() as u128);
    let mut matches: Vec<u128> = Vec::new();
    let mut i: usize = 0;
    while i < starts.len()
        invariant
            i <= starts@.len(),
            starts@.len() > 0 ==> base == before.haystack_offset(),
            before.search_offset + block@.len() <= u128::MAX,
            forall|k: int|
                0 <= k < starts@.len() ==> #[trigger] starts@[k] <= before.haystack(block@).len(),
            matches@.len() == i,
            forall|k: int| 0 <= k < i ==> #[trigger] matches@[k] == base + starts@[k],
        decreases starts@.len() - i,
    {
        matches.push(base + starts[i] as u128);
        i = i + 1;
    }
    let len: usize = block.len();
    viewer.search_progress = viewer.search_progress.saturating_add(len as u128);
    viewer.search_tail.extend_from_slice(block.as_slice());
    assert(viewer.search_tail@ =~= before.haystack(block@));
    if viewer.search_tail.len() > keep {
        let drop: usize = viewer.search_tail.len() - keep;
        let mut tail: Vec<u8> = Vec::new();
        tail.extend_from_slice(&viewer.search_tail.as_slice()[drop..viewer.search_tail.len()]);
        assert(tail@ =~= before.haystack(block@).skip(drop as int));
        viewer.search_tail = tail;
    }
    viewer.search_offset = viewer.search_offset + len as u128;
    assert(viewer@ == before.moved_on(block@));
    if matches.len() > 0 {
        viewer.cursor = matches[0];
        assert(matches@ =~= Seq::new(
            starts@.len(),
            |k: int| (before.haystack_offset() + starts@[k]) as u128,
        ));
        viewer.search_matches = matches;
        viewer.search = SearchState::MatchFound;
        viewer.search_start = None;
        let rows: usize = viewer.visible_rows();
        viewer.ensure_cursor_visible(rows);
        return true;
    }
    if viewer.search_offset >= viewer.file_size {
        viewer.search = SearchState::NotFound;
        viewer.search_start = None;
        return false;
    }
    true
}

/// The needle occurs in the file at `p`, not before `start`, and nowhere
/// between the two.
pub open spec fn is_first_occurrence(
    content: Seq<u8>,
    needle: Seq<u8>,
    start: int,
    p: int,
) -> bool {
    &&& start <= p
    &&& finder::occurs_at(content, needle, p)
    &&& forall|q: int| start <= q < p ==> !#[trigger] finder::occurs_at(content, needle, q)
}

/// The needle occurs nowhere in the file from `start` on.
pub open spec fn has_no_occurrence(content: Seq<u8>, needle: Seq<u8>, start: int) -> bool {
    forall|q: int| start <= q < content.len() ==> !#[trigger] finder::occurs_at(content, needle, q)
}

impl State {
    /// A search for `needle` that began at `start` has come to the search
    /// offset, and the needle does not occur in what lies between.
    pub open spec fn scanned(self, content: Seq<u8>, needle: Seq<u8>, start: int) -> bool {
        &&& self.search == Phase::Scanning
        &&& self.pattern == Some(Pattern::Exact(needle))
        &&& self.file_size == content.len()
        &&& self.file_size <= u128::MAX
        &&& 0 <= start <= self.search_offset <= self.file_size
        &&& self.search_tail.len() == viewer::smaller(
            overlap(Pattern::Exact(needle)),
            self.search_offset - start,
        )
        &&& self.search_tail == content.subrange(
            self.search_offset - self.search_tail.len(),
            self.search_offset,
        )
        &&& forall|q: int|
            start <= q < self.search_offset && q + needle.len() <= self.search_offset
                ==> !#[trigger] finder::occurs_at(content, needle, q)
    }
}

/// No match is missed at the boundary of two blocks: a block of the file that
/// follows the part already searched either yields the first occurrence since
/// the start of the search, and the cursor goes there, or it leaves everything
/// up to its end searched without an occurrence.
pub proof fn law_block_boundaries_hide_nothing(
    s: State,
    content: Seq<u8>,
    needle: Seq<u8>,
    start: int,
    len: int,
    starts: Seq<usize>,
)
    requires
        s.scanned(content, needle, start),
        0 < len <= s.file_size - s.search_offset,
        found_by(
            Pattern::Exact(needle),
            s.haystack(content.subrange(s.search_offset, s.search_offset + len)),
            starts,
        ),
    ensures
        ({
            let t = s.absorbed(content.subrange(s.search_offset, s.search_offset + len), starts);
            match t.search {
                Phase::MatchFound => is_first_occurrence(content, needle, start, t.cursor),
                Phase::NotFound => has_no_occurrence(content, needle, start),
                _ => t.scanned(content, needle, start) && t.search_offset == s.search_offset + len,
            }
        }),
{
    let block = content.subrange(s.search_offset, s.search_offset + len);
    lemma_scan_first(starts, s.haystack(block), needle);
    lemma_block(s, content, needle, start, len, starts);
}

/// The first position, where there is one, is that of the first occurrence, and
/// where there is none there is no occurrence.
spec fn starts_with_first(starts: Seq<usize>, hay: Seq<u8>, needle: Seq<u8>) -> bool {
    &&& starts.len() > 0 ==> finder::occurs_at(hay, needle, starts[0] as int)
    &&& forall|q: int| #[trigger]
        finder::occurs_at(hay, needle, q) ==> starts.len() > 0 && starts[0] <= q
}

proof fn lemma_scan_first(starts: Seq<usize>, hay: Seq<u8>, needle: Seq<u8>)
    requires
        finder::is_scan(starts, hay, needle),
    ensures
        starts_with_first(starts, hay, needle),
{
    assert forall|q: int| #[trigger] finder::occurs_at(hay, needle, q) implies starts.len() > 0
        && starts[0] <= q by {
        let i = choose|i: int|
            0 <= i < starts.len() && #[trigger] starts[i] <= q < starts[i] + finder::stride(needle);
        if i > 0 {
            assert(starts[0] + finder::stride(needle) <= starts[i]);
        }
    }
}

/// A block of the file that follows the part already searched.
proof fn lemma_block(
    s: State,
    content: Seq<u8>,
    needle: Seq<u8>,
    start: int,
    len: int,
    starts: Seq<usize>,
)
    requires
        s.scanned(content, needle, start),
        0 < len <= s.file_size - s.search_offset,
        starts_with_first(
            starts,
            s.haystack(content.subrange(s.search_offset, s.search_offset + len)),
            needle,
        ),
    ensures
        ({
            let t = s.absorbed(content.subrange(s.search_offset, s.search_offset + len), starts);
            match t.search {
                Phase::MatchFound => is_first_occurrence(content, needle, start, t.cursor),
                Phase::NotFound => has_no_occurrence(content, needle, start),
                _ => t.scanned(content, needle, start) && t.search_offset == s.search_offset + len,
            }
        }),
{
    let block = content.subrange(s.search_offset, s.search_offset + len);
    let hay = s.haystack(block);
    let base = s.haystack_offset();
    let end = s.search_offset + len;
    let t = s.absorbed(block, starts);
    assert(hay =~= content.subrange(base, end));
    assert forall|q: int| #[trigger] finder::occurs_at(hay, needle, q) implies finder::occurs_at(
        content,
        needle,
        base + q,
    ) by {
        assert(hay.subrange(q, q + needle.len()) =~= content.subrange(
            base + q,
            base + q + needle.len(),
        ));
    }
    assert forall|q: int|
        base <= q && q + needle.len() <= end && #[trigger] finder::occurs_at(
            content,
            needle,
            q,
        ) implies finder::occurs_at(hay, needle, q - base) by {
        assert(hay.subrange(q - base, q - base + needle.len()) =~= content.subrange(
            q,
            q + needle.len(),
        ));
    }
    // An occurrence that ends in the new block starts in the haystack.
    assert forall|q: int|
        start <= q && q < end && q + needle.len() <= end && #[trigger] finder::occurs_at(
            content,
            needle,
            q,
        ) implies base <= q && finder::occurs_at(hay, needle, q - base) by {
        if q + needle.len() <= s.search_offset && q < s.search_offset {
            assert(!finder::occurs_at(content, needle, q));
        }
    }
    if starts.len() > 0 {
        let p = base + starts[0];
        assert(finder::occurs_at(hay, needle, starts[0] as int));
        assert(finder::occurs_at(content, needle, p));
        assert forall|q: int| start <= q < p implies !#[trigger] finder::occurs_at(
            content,
            needle,
            q,
        ) by {
            if finder::occurs_at(content, needle, q) {
                assert(q + needle.len() <= end);
                assert(finder::occurs_at(hay, needle, q - base));
            }
        }
        assert(t.cursor == p);
    } else {
        assert forall|q: int|
            start <= q < end && q + needle.len() <= end implies !#[trigger] finder::occurs_at(
            content,
            needle,
            q,
        ) by {
            if finder::occurs_at(content, needle, q) {
                assert(finder::occurs_at(hay, needle, q - base));
            }
        }
        let next = s.moved_on(block);
        assert(next.search_tail =~= content.subrange(end - next.search_tail.len(), end));
        if end < s.file_size {
            assert(t == next);
        } else {
            assert(end == content.len());
            assert forall|q: int| start <= q < content.len() implies !#[trigger] finder::occurs_at(
                content,
                needle,
                q,
            ) by {
                if finder::occurs_at(content, needle, q) {
                    assert(q + needle.len() <= content.len());
                }
            }
        }
    }
}

impl State {
    /// A search for `p` that starts behind the cursor at the time `now`.
    pub open spec fn search_started(self, p: Pattern, now: u128) -> State {
        State {
            pattern: Some(p),
            search_offset: viewer::smaller(self.cursor + 1, u128::MAX as int),
            search_progress: 0,
            search_matches: Seq::empty(),
            search_tail: Seq::empty(),
            search_start: Some(now),
            search_error: None,
            search: Phase::Scanning,
            ..self
        }
    }

    /// The search after one block: of `len` bytes of the file, in which the
    /// pattern matches at `starts`.
    pub open spec fn after_block(self, content: Seq<u8>, len: int, starts: Seq<usize>) -> State {
        if self.search_offset >= self.file_size {
            self.not_found()
        } else {
            self.absorbed(
                content.subrange(self.search_offset, self.search_offset + len),
                starts,
            )
        }
    }

    /// The search after blocks of these lengths, as long as it scans.
    pub open spec fn after_blocks(
        self,
        content: Seq<u8>,
        lens: Seq<int>,
        founds: Seq<Seq<usize>>,
    ) -> State
        decreases lens.len(),
    {
        if lens.len() == 0 || self.search != Phase::Scanning {
            self
        } else {
            self.after_block(content, lens[0], founds[0]).after_blocks(
                content,
                lens.drop_first(),
                founds.drop_first(),
            )
        }
    }

    /// Every block is one that the search asked for, or the start of one, and
    /// `founds` are the matches in the haystacks.
    pub open spec fn blocks_are_read(
        self,
        content: Seq<u8>,
        lens: Seq<int>,
        founds: Seq<Seq<usize>>,
    ) -> bool
        decreases lens.len(),
    {
        if lens.len() == 0 || self.search != Phase::Scanning {
            true
        } else {
            &&& founds.len() > 0
            &&& self.next_block() matches Some((offset, len)) ==> {
                &&& 0 < lens[0] <= len
                &&& found_by(
                    self.pattern->0,
                    self.haystack(content.subrange(offset, offset + lens[0])),
                    founds[0],
                )
            }
            &&& self.after_block(content, lens[0], founds[0]).blocks_are_read(
                content,
                lens.drop_first(),
                founds.drop_first(),
            )
        }
    }
}

/// A search finds what is there: however the file comes in blocks, a match that
/// is reported is the first occurrence behind the place where the cursor stood,
/// and where none is reported at the end of the file there is none.
pub proof fn law_search_finds_first_occurrence(
    s: State,
    content: Seq<u8>,
    needle: Seq<u8>,
    now: u128,
    lens: Seq<int>,
    founds: Seq<Seq<usize>>,
)
    requires
        s.file_size == content.len(),
        s.file_size <= u128::MAX,
        0 <= s.cursor <= s.file_size,
        s.search_started(Pattern::Exact(needle), now).blocks_are_read(content, lens, founds),
    ensures
        ({
            let t = s.search_started(Pattern::Exact(needle), now).after_blocks(
                content,
                lens,
                founds,
            );
            match t.search {
                Phase::MatchFound => is_first_occurrence(content, needle, s.cursor + 1, t.cursor),
                Phase::NotFound => has_no_occurrence(content, needle, s.cursor + 1),
                _ => t.search == Phase::Scanning,
            }
        }),
{
    let begun = s.search_started(Pattern::Exact(needle), now);
    if s.cursor < s.file_size {
        assert(begun.search_tail =~= content.subrange(
            begun.search_offset,
            begun.search_offset,
        ));
        assert(begun.scanned(content, needle, s.cursor + 1));
        lemma_scan_goes_on(begun, content, needle, s.cursor + 1, lens, founds);
    } else if lens.len() > 0 {
        reveal_with_fuel(State::after_blocks, 2);
        assert(begun.after_block(content, lens[0], founds[0]) == begun.not_found());
    }
}

/// A scan that goes on reports the first occurrence since its start, or none
/// where there is none.
proof fn lemma_scan_goes_on(
    s: State,
    content: Seq<u8>,
    needle: Seq<u8>,
    start: int,
    lens: Seq<int>,
    founds: Seq<Seq<usize>>,
)
    requires
        s.scanned(content, needle, start),
        s.blocks_are_read(content, lens, founds),
    ensures
        ({
            let t = s.after_blocks(content, lens, founds);
            match t.search {
                Phase::MatchFound => is_first_occurrence(content, needle, start, t.cursor),
                Phase::NotFound => has_no_occurrence(content, needle, start),
                _ => t.scanned(content, needle, start),
            }
        }),
    decreases lens.len(),
{
    if lens.len() > 0 {
        let t = s.after_block(content, lens[0], founds[0]);
        if s.search_offset < s.file_size {
            law_block_boundaries_hide_nothing(s, content, needle, start, lens[0], founds[0]);
            if t.search == Phase::Scanning {
                lemma_scan_goes_on(
                    t,
                    content,
                    needle,
                    start,
                    lens.drop_first(),
                    founds.drop_first(),
                );
            }
        } else {
            assert forall|q: int| start <= q < content.len() implies !#[trigger] finder::occurs_at(
                content,
                needle,
                q,
            ) by {
                if finder::occurs_at(content, needle, q) {
                    assert(q + needle.len() <= content.len());
                }
            }
        }
    }
}

/// A search comes to an end: each block brings it on by a byte at least, so no
/// more blocks are read than the file has bytes from the cursor on, and one.
pub proof fn law_search_ends(
    s: State,
    p: Pattern,
    now: u128,
    content: Seq<u8>,
    lens: Seq<int>,
    founds: Seq<Seq<usize>>,
)
    requires
        s.file_size == content.len(),
        s.file_size <= u128::MAX,
        0 <= s.cursor <= s.file_size,
        s.search_started(p, now).blocks_are_read(content, lens, founds),
        lens.len() > s.file_size - s.cursor,
    ensures
        ({
            let t = s.search_started(p, now).after_blocks(content, lens, founds);
            t.search == Phase::MatchFound || t.search == Phase::NotFound
        }),
{
    lemma_scan_ends(s.search_started(p, now), content, lens, founds);
}

proof fn lemma_scan_ends(s: State, content: Seq<u8>, lens: Seq<int>, founds: Seq<Seq<usize>>)
    requires
        s.search == Phase::Scanning,
        s.pattern is Some,
        s.file_size == content.len(),
        s.search_offset >= 0,
        s.blocks_are_read(content, lens, founds),
        lens.len() > 0,
        lens.len() > s.file_size - s.search_offset,
    ensures
        ({
            let t = s.after_blocks(content, lens, founds);
            t.search == Phase::MatchFound || t.search == Phase::NotFound
        }),
    decreases lens.len(),
{
    let t = s.after_block(content, lens[0], founds[0]);
    if t.search == Phase::Scanning {
        assert(t.search_offset == s.search_offset + lens[0]);
        lemma_scan_ends(t, content, lens.drop_first(), founds.drop_first());
    } else {
        reveal_with_fuel(State::after_blocks, 2);
    }
}

/// A search succeeds: where the needle occurs in the file behind the place
/// where the cursor stood, reading on to the end finds it, and the cursor goes
/// to its first occurrence.
pub proof fn law_search_succeeds(
    s: State,
    content: Seq<u8>,
    needle: Seq<u8>,
    now: u128,
    lens: Seq<int>,
    founds: Seq<Seq<usize>>,
    q: int,
)
    requires
        s.file_size == content.len(),
        s.file_size <= u128::MAX,
        0 <= s.cursor < q < content.len(),
        finder::occurs_at(content, needle, q),
        s.search_started(Pattern::Exact(needle), now).blocks_are_read(content, lens, founds),
        lens.len() > s.file_size - s.cursor,
    ensures
        ({
            let t = s.search_started(Pattern::Exact(needle), now).after_blocks(
                content,
                lens,
                founds,
            );
            &&& t.search == Phase::MatchFound
            &&& t.cursor <= q
            &&& is_first_occurrence(content, needle, s.cursor + 1, t.cursor)
        }),
{
    law_search_ends(s, Pattern::Exact(needle), now, content, lens, founds);
    law_search_finds_first_occurrence(s, content, needle, now, lens, founds);
}

/// The progress of a search counts the bytes that it has covered.
pub proof fn law_progress_counts_bytes(
    s: State,
    p: Pattern,
    now: u128,
    content: Seq<u8>,
    lens: Seq<int>,
    founds: Seq<Seq<usize>>,
)
    requires
        s.file_size == content.len(),
        s.file_size <= u128::MAX,
        0 <= s.cursor < s.file_size,
        s.search_started(p, now).blocks_are_read(content, lens, founds),
    ensures
        ({
            let t = s.search_started(p, now).after_blocks(content, lens, founds);
            &&& t.search_progress == t.search_offset - (s.cursor + 1)
            &&& t.search_offset <= s.file_size
        }),
{
    lemma_progress(s.search_started(p, now), content, lens, founds, s.cursor + 1);
}

proof fn lemma_progress(
    s: State,
    content: Seq<u8>,
    lens: Seq<int>,
    founds: Seq<Seq<usize>>,
    start: int,
)
    requires
        s.pattern is Some,
        s.file_size == content.len(),
        s.file_size <= u128::MAX,
        0 <= start <= s.search_offset <= s.file_size,
        s.search_progress == s.search_offset - start,
        s.blocks_are_read(content, lens, founds),
    ensures
        ({
            let t = s.after_blocks(content, lens, founds);
            &&& t.search_progress == t.search_offset - start
            &&& t.search_offset <= s.file_size
        }),
    decreases lens.len(),
{
    if lens.len() > 0 && s.search == Phase::Scanning {
        let t = s.after_block(content, lens[0], founds[0]);
        lemma_progress(t, content, lens.drop_first(), founds.drop_first(), start);
    }
}

/// A scan from left to right reports one list only.
pub proof fn law_scan_is_unique(a: Seq<usize>, b: Seq<usize>, hay: Seq<u8>, needle: Seq<u8>)
    requires
        finder::is_scan(a, hay, needle),
        finder::is_scan(b, hay, needle),
    ensures
        a == b,
{
    reveal(scans);
    lemma_same_scan(a, b, hay, needle);
}

/// The same as `is_scan`, which its lemmas take apart.
#[verifier::opaque]
spec fn scans(found: Seq<usize>, hay: Seq<u8>, needle: Seq<u8>) -> bool {
    finder::is_scan(found, hay, needle)
}

/// The reported position that covers a reported position of another scan.
proof fn lemma_covering(
    found: Seq<usize>,
    other: Seq<usize>,
    hay: Seq<u8>,
    needle: Seq<u8>,
    k: int,
) -> (i: int)
    requires
        scans(found, hay, needle),
        scans(other, hay, needle),
        0 <= k < other.len(),
    ensures
        0 <= i < found.len(),
        found[i] <= other[k] < found[i] + finder::stride(needle),
{
    reveal(scans);
    let p = other[k] as int;
    assert(finder::occurs_at(hay, needle, p));
    choose|i: int|
        0 <= i < found.len() && #[trigger] found[i] <= p < found[i] + finder::stride(needle)
}

/// Reported positions do not overlap.
proof fn lemma_apart(found: Seq<usize>, hay: Seq<u8>, needle: Seq<u8>, i: int, j: int)
    requires
        scans(found, hay, needle),
        0 <= i < j < found.len(),
    ensures
        found[i] + finder::stride(needle) <= found[j],
{
    reveal(scans);
}

proof fn lemma_same_scan(a: Seq<usize>, b: Seq<usize>, hay: Seq<u8>, needle: Seq<u8>)
    requires
        scans(a, hay, needle),
        scans(b, hay, needle),
    ensures
        a == b,
{
    lemma_scan_prefix(a, b, hay, needle, a.len() as int);
    lemma_scan_prefix(b, a, hay, needle, b.len() as int);
    assert(a =~= b);
}

/// The first `n` positions of one list are those of the other.
proof fn lemma_scan_prefix(a: Seq<usize>, b: Seq<usize>, hay: Seq<u8>, needle: Seq<u8>, n: int)
    requires
        scans(a, hay, needle),
        scans(b, hay, needle),
        0 <= n <= a.len(),
    ensures
        n <= b.len(),
        forall|i: int| 0 <= i < n ==> a[i] == b[i],
    decreases n,
{
    if n > 0 {
        let k = n - 1;
        lemma_scan_prefix(a, b, hay, needle, k);
        let j = lemma_covering(b, a, hay, needle, k);
        if j < k {
            lemma_apart(a, hay, needle, j, k);
        } else {
            let i = lemma_covering(a, b, hay, needle, k);
            if i < k {
                lemma_apart(b, hay, needle, i, k);
            }
            if k < j {
                lemma_apart(b, hay, needle, k, j);
            }
            if k < i {
                lemma_apart(a, hay, needle, k, i);
            }
        }
    }
}

/// A number and its unit followed by a space, where the number is not zero.
pub open spec fn eta_part(n: nat, unit: char) -> Seq<char> {
    if n > 0 {
        text::decimal(n).push(unit).push(' ')
    } else {
        Seq::empty()
    }
}

/// Seconds as years, days, hours, minutes and seconds.
pub open spec fn split_seconds(total: nat) -> (nat, nat, nat, nat, nat) {
    (
        total / 31536000,
        (total % 31536000) / 86400,
        (total % 86400) / 3600,
        (total % 3600) / 60,
        total % 60,
    )
}

/// The time that the rest of a search takes, in words.
pub open spec fn eta_text(
    elapsed: nat,
    bytes_scanned: nat,
    remaining: nat,
    eta_secs: nat,
) -> Seq<char> {
    let (years, days, hours, minutes, seconds) = split_seconds(eta_secs);
    if remaining == 0 {
        "ETA: done"@
    } else if elapsed == 0 || bytes_scanned == 0 {
        "ETA: calculating..."@
    } else {
        "ETA: "@ + eta_part(years, 'y') + eta_part(days, 'd') + eta_part(hours, 'h') + eta_part(
            minutes,
            'm',
        ) + text::decimal(seconds).push('s')
    }
}

/// Writes a part of a time behind the text.
fn push_eta_part(s: &mut String, n: u64, unit: char)
    ensures
        final(s)@ == old(s)@ + eta_part(n as nat, unit),
{
    if n > 0 {
        push_decimal(s, n as u128);
        s.push(unit);
        s.push(' ');
    }
    assert(s@ =~= old(s)@ + eta_part(n as nat, unit));
}

/// The time that the rest of a search takes, in words. `elapsed` are the
/// nanoseconds since its start, `eta_secs` the seconds that the rest takes at
/// the speed of what lies behind.
pub fn format_eta(elapsed: u128, bytes_scanned: u128, remaining: u128, eta_secs: u64) -> (r: String)
    ensures
        r@ == eta_text(
            elapsed as nat,
            bytes_scanned as nat,
            remaining as nat,
            eta_secs as nat,
        ),
{
    if remaining == 0 {
        return "ETA: done".to_string();
    }
    if elapsed == 0 || bytes_scanned == 0 {
        return "ETA: calculating...".to_string();
    }
    let mut s = "ETA: ".to_string();
    push_eta_part(&mut s, eta_secs / 31536000, 'y');
    push_eta_part(&mut s, (eta_secs % 31536000) / 86400, 'd');
    push_eta_part(&mut s, (eta_secs % 86400) / 3600, 'h');
    push_eta_part(&mut s, (eta_secs % 3600) / 60, 'm');
    let ghost before = s@;
    push_decimal(&mut s, (eta_secs % 60) as u128);
    s.push('s');
    assert(s@ =~= before + text::decimal((eta_secs % 60) as nat).push('s'));
    s
}

/// Years, days, hours, minutes and seconds add up to the seconds that they were
/// made from, and each but the years stays below the next.
pub proof fn law_seconds_add_up(total: nat)
    ensures
        ({
            let (years, days, hours, minutes, seconds) = split_seconds(total);
            &&& years * 31536000 + days * 86400 + hours * 3600 + minutes * 60 + seconds == total
            &&& days < 365
            &&& hours < 24
            &&& minutes < 60
            &&& seconds < 60
        }),
{
    let t = total as int;
    let years = t / 31536000;
    let days = (t % 31536000) / 86400;
    let in_day = (t % 31536000) % 86400;
    vstd::arithmetic::div_mod::lemma_fundamental_div_mod_converse(
        t,
        86400,
        365 * years + days,
        in_day,
    );
    let in_hour = in_day % 3600;
    vstd::arithmetic::div_mod::lemma_fundamental_div_mod_converse(
        t,
        3600,
        24 * (365 * years + days) + in_day / 3600,
        in_hour,
    );
    vstd::arithmetic::div_mod::lemma_fundamental_div_mod_converse(
        t,
        60,
        60 * (24 * (365 * years + days) + in_day / 3600) + in_hour / 60,
        in_hour % 60,
    );
}

/// 1024 to the `k`.
pub open spec fn kibi(k: nat) -> nat
    decreases k,
{
    if k == 0 {
        1
    } else {
        1024 * kibi((k - 1) as nat)
    }
}

/// The name of the unit of 1024 to the `k` bytes per second.
pub open spec fn rate_unit(k: nat) -> Seq<char> {
    if k == 0 {
        "B/s"@
    } else if k == 1 {
        "KiB/s"@
    } else if k == 2 {
        "MiB/s"@
    } else if k == 3 {
        "GiB/s"@
    } else if k == 4 {
        "TiB/s"@
    } else if k == 5 {
        "PiB/s"@
    } else {
        "EiB/s"@
    }
}

/// The unit for a rate of so many whole bytes per second: the power of 1024 and
/// its name. It is the largest unit that does not exceed the rate.
pub fn throughput_unit(bytes_per_sec: u64) -> (r: (usize, &'static str))
    ensures
        r.0 <= 6,
        r.0 > 0 ==> kibi(r.0 as nat) <= bytes_per_sec,
        r.0 < 6 ==> bytes_per_sec < kibi(r.0 as nat + 1),
        r.1@ == rate_unit(r.0 as nat),
{
    let mut value: u64 = bytes_per_sec;
    let mut k: usize = 0;
    assert(kibi(0) == 1);
    assert(value * 1 == value && (value + 1) * 1 == value + 1);
    while value >= 1024 && k < 6
        invariant
            k <= 6,
            value * kibi(k as nat) <= bytes_per_sec < (value + 1) * kibi(k as nat),
            k > 0 ==> value >= 1,
            kibi(k as nat) >= 1,
        decreases 6 - k,
    {
        let ghost unit = kibi(k as nat);
        let ghost before = value;
        value = value / 1024;
        k = k + 1;
        assert(kibi(k as nat) == 1024 * unit);
        assert(value * (1024 * unit) <= before * unit) by (nonlinear_arith)
            requires
                value * 1024 <= before,
                unit >= 1,
        ;
        assert((before + 1) * unit <= (value + 1) * (1024 * unit)) by (nonlinear_arith)
            requires
                before + 1 <= (value + 1) * 1024,
                unit >= 1,
        ;
    }
    assert(k > 0 ==> kibi(k as nat) <= value * kibi(k as nat)) by (nonlinear_arith)
        requires
            k > 0 ==> value >= 1,
            kibi(k as nat) >= 1,
    ;
    assert(value < 1024 ==> (value + 1) * kibi(k as nat) <= 1024 * kibi(k as nat))
        by (nonlinear_arith);
    let name: &'static str = if k == 0 {
        "B/s"
    } else if k == 1 {
        "KiB/s"
    } else if k == 2 {
        "MiB/s"
    } else if k == 3 {
        "GiB/s"
    } else if k == 4 {
        "TiB/s"
    } else if k == 5 {
        "PiB/s"
    } else {
        "EiB/s"
    };
    (k, name)
}

} // verus!
