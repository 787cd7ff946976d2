//! The viewer: what of the file is shown, where the cursor stands, and how the
//! lines are laid out.

use crate::config;
use crate::constants::SCROLLBAR_WIDTH;
use crate::finder;
use crate::pattern::{Pattern, SearchPattern};
use crate::text;
use crate::util::u128_to_u64_safe;
use vstd::prelude::*;

verus! {

/// How far a search has come.
#[derive(Debug, PartialEq)]
pub enum SearchState {
    /// No search is shown.
    Inactive,
    /// The prompt is open and holds this input.
    Prompt(String),
    /// Blocks are being read.
    Scanning,
    /// The last block read holds a match.
    MatchFound,
    /// The end was reached, or the file could not be read.
    NotFound,
}

/// The state of a search as contracts speak of it.
pub enum Phase {
    Inactive,
    Prompt(Seq<char>),
    Scanning,
    MatchFound,
    NotFound,
}

impl View for SearchState {
    type V = Phase;

    open spec fn view(&self) -> Phase {
        match *self {
            SearchState::Inactive => Phase::Inactive,
            SearchState::Prompt(input) => Phase::Prompt(input@),
            SearchState::Scanning => Phase::Scanning,
            SearchState::MatchFound => Phase::MatchFound,
            SearchState::NotFound => Phase::NotFound,
        }
    }
}

/// Where a byte goes in the file.
#[derive(Debug, Clone, Copy, PartialEq, Eq, Structural)]
pub enum WriteRequest {
    /// Behind the last byte.
    Append(u8),
    /// Over the byte at this offset.
    At(u64, u8),
    /// Nowhere: the offset is beyond 64 bits.
    Refused,
}

/// A hex viewer on a file.
#[derive(Debug)]
pub struct HexViewer {
    pub file_size: u128,
    /// The name of the file, as it is displayed.
    pub filename: String,
    pub cursor: u128,
    /// The first visible line.
    pub scroll_line: u128,
    /// Bytes per group: 1, 2, 4 or 8.
    pub grouping: u8,
    pub term_cols: u16,
    pub term_rows: u16,
    pub bytes_per_line: usize,
    pub groups_per_line: usize,
    pub address_width: usize,
    pub search: SearchState,
    pub pattern: Option<SearchPattern>,
    /// The offsets of the matches in the last block read.
    pub search_matches: Vec<u128>,
    /// Where the next block starts.
    pub search_offset: u128,
    /// The bytes searched so far.
    pub search_progress: u128,
    /// The end of the bytes searched so far, to be searched again with the
    /// next block.
    pub search_tail: Vec<u8>,
    /// When the search started, in nanoseconds of a monotonic clock.
    pub search_start: Option<u128>,
    pub search_error: Option<String>,
    pub edit_mode: bool,
    /// The high nibble already entered, 0 to 15, if `nibble_count` is 1.
    pub nibble: u8,
    /// 0 or 1.
    pub nibble_count: u8,
}

/// A viewer as contracts speak of it.
#[verifier::ext_equal]
pub struct State {
    pub file_size: int,
    pub filename: Seq<char>,
    pub cursor: int,
    pub scroll_line: int,
    pub grouping: int,
    pub term_cols: int,
    pub term_rows: int,
    pub bytes_per_line: int,
    pub groups_per_line: int,
    pub address_width: int,
    pub search: Phase,
    pub pattern: Option<Pattern>,
    pub search_matches: Seq<u128>,
    pub search_offset: int,
    pub search_progress: int,
    pub search_tail: Seq<u8>,
    pub search_start: Option<u128>,
    pub search_error: Option<Seq<char>>,
    pub edit_mode: bool,
    pub nibble: u8,
    pub nibble_count: u8,
}

/// An optional pattern as contracts speak of it.
pub open spec fn pattern_view(p: Option<SearchPattern>) -> Option<Pattern> {
    match p {
        Some(p) => Some(p@),
        None => None,
    }
}

impl View for HexViewer {
    type V = State;

    open spec fn view(&self) -> State {
        State {
            file_size: self.file_size as int,
            filename: self.filename@,
            cursor: self.cursor as int,
            scroll_line: self.scroll_line as int,
            grouping: self.grouping as int,
            term_cols: self.term_cols as int,
            term_rows: self.term_rows as int,
            bytes_per_line: self.bytes_per_line as int,
            groups_per_line: self.groups_per_line as int,
            address_width: self.address_width as int,
            search: self.search@,
            pattern: pattern_view(self.pattern),
            search_matches: self.search_matches@,
            search_offset: self.search_offset as int,
            search_progress: self.search_progress as int,
            search_tail: self.search_tail@,
            search_start: self.search_start,
            search_error: finder::text_view(self.search_error),
            edit_mode: self.edit_mode,
            nibble: self.nibble,
            nibble_count: self.nibble_count,
        }
    }
}

/// The smaller of two numbers.
pub open spec fn smaller(a: int, b: int) -> int {
    if a <= b {
        a
    } else {
        b
    }
}

/// The larger of two numbers.
pub open spec fn larger(a: int, b: int) -> int {
    if a >= b {
        a
    } else {
        b
    }
}

/// The digits of the address column: those of the last offset in the file, and
/// one more.
pub open spec fn address_digits(file_size: int) -> int {
    text::hexadecimal(larger(file_size - 1, 0) as nat).len() as int + 1
}

/// The columns of a line with a single group.
pub open spec fn narrowest_line(address_width: int, grouping: int) -> int {
    address_width + 4 + 3 * grouping + SCROLLBAR_WIDTH
}

/// The groups that a line holds: as many as fit, and one at least.
pub open spec fn groups_that_fit(term_cols: int, address_width: int, grouping: int) -> int {
    let room = larger(term_cols - SCROLLBAR_WIDTH, 0);
    if room < narrowest_line(address_width, grouping) {
        1
    } else {
        larger((room - (address_width + 4)) / (3 * grouping + 1), 1)
    }
}

impl State {
    /// The lines that the file takes.
    pub open spec fn total_lines(self) -> int {
        if self.bytes_per_line == 0 {
            0
        } else {
            (self.file_size + self.bytes_per_line - 1) / self.bytes_per_line
        }
    }

    /// The last line that may stand on top.
    pub open spec fn max_scroll_line(self) -> int {
        larger(self.total_lines() - 1, 0)
    }

    /// The rows that show lines of the file.
    pub open spec fn visible_rows(self) -> int {
        if self.term_rows < 3 {
            1
        } else {
            self.term_rows - 2
        }
    }

    /// The line that the cursor stands in.
    pub open spec fn cursor_line(self) -> int {
        if self.bytes_per_line == 0 {
            0
        } else {
            self.cursor / self.bytes_per_line
        }
    }

    /// Scrolled as little as brings the cursor's line among the visible ones,
    /// and no further than the last line.
    pub open spec fn scrolled_to_cursor(self, visible_rows: int) -> State {
        let line = self.cursor_line();
        let below = larger(visible_rows - 1, 0);
        let top = if line < self.scroll_line {
            line
        } else if line > self.scroll_line + below {
            line - below
        } else {
            self.scroll_line
        };
        State { scroll_line: smaller(top, self.max_scroll_line()), ..self }
    }

    /// The cursor moved to an offset, or to the nearest one in the file, and
    /// the view with it.
    pub open spec fn moved_to(self, offset: int, visible_rows: int) -> State {
        State {
            cursor: smaller(larger(offset, 0), self.file_size),
            ..self
        }.scrolled_to_cursor(visible_rows)
    }

    /// Laid out for the file's size, the grouping and the terminal.
    pub open spec fn laid_out(self) -> State {
        let address_width = address_digits(self.file_size);
        let groups = groups_that_fit(self.term_cols, address_width, self.grouping);
        State {
            address_width,
            groups_per_line: groups,
            bytes_per_line: groups * self.grouping,
            ..self
        }
    }
}

impl State {
    /// What holds of a viewer at all times: the cursor stands in the file or
    /// behind its last byte, lines are made of whole groups, the clock runs
    /// exactly while a search does, a search has a pattern that compiles and a
    /// tail that it has read, and a byte is edited in edit mode alone.
    pub open spec fn valid(self) -> bool {
        &&& 0 <= self.cursor <= self.file_size <= u128::MAX
        &&& 0 <= self.scroll_line
        &&& config::is_grouping(self.grouping)
        &&& self.groups_per_line >= 1
        &&& self.bytes_per_line == self.groups_per_line * self.grouping
        &&& 1 <= self.address_width <= 33
        &&& 0 <= self.term_cols <= u16::MAX
        &&& 0 <= self.term_rows <= u16::MAX
        &&& self.search_start is Some <==> self.search == Phase::Scanning
        &&& self.search == Phase::Scanning ==> self.pattern is Some
        &&& self.pattern matches Some(Pattern::Regex(text)) ==> finder::regex_error(text) is None
        &&& self.search_tail.len() <= self.search_offset
        &&& 0 <= self.search_progress <= u128::MAX
        &&& self.edit_mode ==> self.search == Phase::Inactive
        &&& self.nibble_count <= 1
        &&& self.nibble_count == 1 ==> self.edit_mode && self.nibble < 16
    }
}

/// The number of hexadecimal digits of a number.
fn hex_width(n: u128) -> (r: usize)
    ensures
        r == text::hexadecimal(n as nat).len(),
        1 <= r <= 32,
{
    let mut r: usize = 1;
    let mut rest: u128 = n;
    proof {
        lemma_hex_digits(n as nat, 31);
        assert(n < pow16(32)) by {
            assert(pow16(32) == 0x1_0000_0000_0000_0000_0000_0000_0000_0000) by {
                reveal_with_fuel(pow16, 33);
            }
        }
    }
    while rest >= 16
        invariant
            1 <= r,
            r - 1 + text::hexadecimal(rest as nat).len() == text::hexadecimal(n as nat).len(),
            text::hexadecimal(rest as nat).len() >= 1,
            text::hexadecimal(n as nat).len() <= 32,
        decreases rest,
    {
        proof {
            lemma_hex_digits((rest / 16) as nat, 0);
        }
        rest = rest / 16;
        r = r + 1;
    }
    r
}

spec fn pow16(k: nat) -> nat
    decreases k,
{
    if k == 0 {
        1
    } else {
        16 * pow16((k - 1) as nat)
    }
}

/// A number below 16 to the `k + 1` has at most `k + 1` digits.
proof fn lemma_hex_digits(n: nat, k: nat)
    ensures
        text::hexadecimal(n).len() >= 1,
        n < pow16(k + 1) ==> text::hexadecimal(n).len() <= k + 1,
    decreases k,
{
    if n < 16 {
    } else {
        assert(text::digits(n, 16) == text::digits(n / 16, 16).push(text::digit_char(n % 16)));
        if k > 0 {
            lemma_hex_digits(n / 16, (k - 1) as nat);
        } else {
            assert(pow16(1) == 16) by {
                reveal_with_fuel(pow16, 2);
            }
        }
    }
}

impl HexViewer {
    /// A viewer on a file that was opened; `len` is the length that the
    /// operating system gives for it.
    pub fn open(filename: String, is_file: bool, len: u64) -> (r: Self)
        ensures
            r@ == (State {
                file_size: if is_file {
                    len as int
                } else {
                    0
                },
                filename: filename@,
                cursor: 0,
                scroll_line: 0,
                grouping: 1,
                term_cols: 80,
                term_rows: 24,
                bytes_per_line: 16,
                groups_per_line: 16,
                address_width: 1,
                search: Phase::Inactive,
                pattern: None,
                search_matches: Seq::empty(),
                search_offset: 0,
                search_progress: 0,
                search_tail: Seq::empty(),
                search_start: None,
                search_error: None,
                edit_mode: false,
                nibble: 0,
                nibble_count: 0,
            }),
            r@.valid(),
    {
        let file_size: u128 = if is_file {
            len as u128
        } else {
            0
        };
        HexViewer {
            file_size,
            filename,
            cursor: 0,
            scroll_line: 0,
            grouping: 1,
            term_cols: 80,
            term_rows: 24,
            bytes_per_line: 16,
            groups_per_line: 16,
            address_width: 1,
            search: SearchState::Inactive,
            pattern: None,
            search_matches: Vec::new(),
            search_offset: 0,
            search_progress: 0,
            search_tail: Vec::new(),
            search_start: None,
            search_error: None,
            edit_mode: false,
            nibble: 0,
            nibble_count: 0,
        }
    }

    /// Where a byte entered at the cursor goes.
    pub fn write_byte_at(&self, byte: u8) -> (r: WriteRequest)
        ensures
            self.cursor == self.file_size ==> r == WriteRequest::Append(byte),
            self.cursor != self.file_size && self.cursor <= u64::MAX ==> r == WriteRequest::At(
                self.cursor as u64,
                byte,
            ),
            self.cursor != self.file_size && self.cursor > u64::MAX ==> r == WriteRequest::Refused,
    {
        if self.cursor == self.file_size {
            WriteRequest::Append(byte)
        } else {
            match u128_to_u64_safe(self.cursor) {
                Some(offset) => WriteRequest::At(offset, byte),
                None => WriteRequest::Refused,
            }
        }
    }

    /// Takes note that a byte was written: one that was appended makes the
    /// file longer.
    pub fn byte_written(&mut self, request: WriteRequest)
        ensures
            final(self)@ == (State {
                file_size: if request is Append {
                    smaller(old(self)@.file_size + 1, u128::MAX as int)
                } else {
                    old(self)@.file_size
                },
                ..old(self)@
            }),
    {
        if let WriteRequest::Append(_) = request {
            self.file_size = self.file_size.saturating_add(1);
        }
    }

    /// Lays the lines out for the file's size, the grouping and the terminal.
    pub fn recalc_layout(&mut self)
        ensures
            final(self)@ == old(self)@.laid_out(),
    {
        let max_off: u128 = self.file_size.saturating_sub(1);
        let address_width: usize = hex_width(max_off) + 1;
        let group_size: usize = self.grouping as usize;
        let min_line_width: usize = address_width + 4 + group_size * 2 + group_size
            + SCROLLBAR_WIDTH;
        let avail_width: usize = (self.term_cols as usize).saturating_sub(SCROLLBAR_WIDTH);
        self.address_width = address_width;
        if avail_width < min_line_width {
            self.bytes_per_line = group_size;
            self.groups_per_line = 1;
            return;
        }
        let constant: usize = address_width + 4;
        let per_group: usize = 3 * group_size + 1;
        let mut max_groups: usize = (avail_width - constant) / per_group;
        if max_groups < 1 {
            max_groups = 1;
        }
        assert(max_groups <= 65535) by (nonlinear_arith)
            requires
                max_groups == 1 || max_groups == (avail_width - constant) / per_group as int,
                0 <= avail_width - constant <= 65535,
                per_group >= 1,
        ;
        assert(max_groups * group_size <= 65535 * 255) by (nonlinear_arith)
            requires
                max_groups <= 65535,
                group_size <= 255,
        ;
        self.groups_per_line = max_groups;
        self.bytes_per_line = max_groups * group_size;
    }

    /// The lines that the file takes.
    pub fn total_lines(&self) -> (r: u128)
        ensures
            r == self@.total_lines(),
    {
        if self.bytes_per_line == 0 {
            return 0;
        }
        let per_line: u128 = self.bytes_per_line as u128;
        let full: u128 = self.file_size / per_line;
        proof {
            lemma_ceiling(self.file_size as int, per_line as int);
        }
        if self.file_size % per_line == 0 {
            full
        } else {
            full + 1
        }
    }

    /// The last line that may stand on top.
    pub fn max_scroll_line(&self) -> (r: u128)
        ensures
            r == self@.max_scroll_line(),
    {
        self.total_lines().saturating_sub(1)
    }

    /// The rows that show lines of the file.
    pub fn visible_rows(&self) -> (r: usize)
        ensures
            r == self@.visible_rows(),
    {
        if self.term_rows < 3 {
            1
        } else {
            self.term_rows as usize - 2
        }
    }

    /// Scrolls as little as brings the cursor's line among the visible ones.
    pub fn ensure_cursor_visible(&mut self, visible_rows: usize)
        ensures
            final(self)@ == old(self)@.scrolled_to_cursor(visible_rows as int),
    {
        let line: u128 = if self.bytes_per_line == 0 {
            0
        } else {
            self.cursor / self.bytes_per_line as u128
        };
        let below: u128 = visible_rows.saturating_sub(1) as u128;
        let last: u128 = self.scroll_line.saturating_add(below);
        if line < self.scroll_line {
            self.scroll_line = line;
        } else if line > last {
            self.scroll_line = line - below;
        }
        let max: u128 = self.max_scroll_line();
        if self.scroll_line > max {
            self.scroll_line = max;
        }
    }

    /// Moves the cursor by `delta` bytes, as far as the file goes.
    pub fn move_cursor(&mut self, delta: i128, visible_rows: usize)
        ensures
            final(self)@ == old(self)@.moved_to(old(self)@.cursor + delta, visible_rows as int),
    {
        if delta >= 0 {
            self.advance(delta as u128, visible_rows);
        } else {
            let back: u128 = (-(delta + 1)) as u128 + 1;
            self.retreat(back, visible_rows);
        }
    }

    /// Moves the cursor towards the end of the file.
    fn advance(&mut self, bytes: u128, visible_rows: usize)
        ensures
            final(self)@ == old(self)@.moved_to(old(self)@.cursor + bytes, visible_rows as int),
    {
        let target: u128 = self.cursor.saturating_add(bytes);
        self.cursor = if target < self.file_size {
            target
        } else {
            self.file_size
        };
        self.ensure_cursor_visible(visible_rows);
    }

    /// Moves the cursor towards the start of the file.
    fn retreat(&mut self, bytes: u128, visible_rows: usize)
        ensures
            final(self)@ == old(self)@.moved_to(old(self)@.cursor - bytes, visible_rows as int),
    {
        let target: u128 = self.cursor.saturating_sub(bytes);
        self.cursor = if target < self.file_size {
            target
        } else {
            self.file_size
        };
        self.ensure_cursor_visible(visible_rows);
    }

    /// Moves the cursor up by as many lines as are visible.
    pub fn page_up(&mut self, visible_rows: usize)
        ensures
            final(self)@ == old(self)@.moved_to(
                old(self)@.cursor - visible_rows * old(self)@.bytes_per_line,
                visible_rows as int,
            ),
    {
        proof {
            lemma_page_fits(visible_rows, self.bytes_per_line);
        }
        self.retreat(visible_rows as u128 * self.bytes_per_line as u128, visible_rows);
    }

    /// Moves the cursor down by as many lines as are visible.
    pub fn page_down(&mut self, visible_rows: usize)
        ensures
            final(self)@ == old(self)@.moved_to(
                old(self)@.cursor + visible_rows * old(self)@.bytes_per_line,
                visible_rows as int,
            ),
    {
        proof {
            lemma_page_fits(visible_rows, self.bytes_per_line);
        }
        self.advance(visible_rows as u128 * self.bytes_per_line as u128, visible_rows);
    }

    /// Moves the cursor to the start of the file.
    pub fn go_home(&mut self, visible_rows: usize)
        ensures
            final(self)@ == old(self)@.moved_to(0, visible_rows as int),
    {
        self.cursor = 0;
        self.ensure_cursor_visible(visible_rows);
    }

    /// Moves the cursor behind the last byte of the file.
    pub fn go_end(&mut self, visible_rows: usize)
        ensures
            final(self)@ == old(self)@.moved_to(old(self)@.file_size, visible_rows as int),
    {
        self.cursor = self.file_size;
        self.ensure_cursor_visible(visible_rows);
    }
}

/// The address column of a file has between 2 and 33 digits.
pub proof fn lemma_address_digits(file_size: int)
    requires
        file_size <= u128::MAX,
    ensures
        2 <= address_digits(file_size) <= 33,
{
    let last = larger(file_size - 1, 0) as nat;
    lemma_hex_digits(last, 31);
    assert(pow16(32) == 0x1_0000_0000_0000_0000_0000_0000_0000_0000) by {
        reveal_with_fuel(pow16, 33);
    }
}

/// A layout with bytes in its groups has bytes in its lines.
pub proof fn lemma_lines_hold_bytes(s: State)
    requires
        s.grouping > 0,
    ensures
        s.laid_out().bytes_per_line > 0,
        s.laid_out().groups_per_line >= 1,
{
    let t = s.laid_out();
    assert(t.groups_per_line >= 1);
    assert(t.groups_per_line * s.grouping > 0) by (nonlinear_arith)
        requires
            t.groups_per_line >= 1,
            s.grouping > 0,
    ;
}

/// Division that rounds up.
proof fn lemma_ceiling(a: int, b: int)
    requires
        a >= 0,
        b > 0,
    ensures
        a % b == 0 ==> (a + b - 1) / b == a / b,
        a % b != 0 ==> (a + b - 1) / b == a / b + 1,
        a % b != 0 ==> a / b < a,
{
    vstd::arithmetic::div_mod::lemma_fundamental_div_mod(a, b);
    let q = a / b;
    let r = a % b;
    assert(a + b - 1 == q * b + (r + b - 1)) by (nonlinear_arith)
        requires
            a == b * q + r,
    ;
    if r == 0 {
        vstd::arithmetic::div_mod::lemma_fundamental_div_mod_converse(a + b - 1, b, q, b - 1);
    } else {
        assert(q < a) by (nonlinear_arith)
            requires
                a == b * q + r,
                a >= 0,
                b > 0,
                r > 0,
        ;
        assert(a + b - 1 == (q + 1) * b + (r - 1)) by (nonlinear_arith)
            requires
                a == b * q + r,
        ;
        vstd::arithmetic::div_mod::lemma_fundamental_div_mod_converse(a + b - 1, b, q + 1, r - 1);
    }
}

/// The bytes of a page fit in 128 bits.
pub proof fn lemma_page_fits(rows: usize, per_line: usize)
    ensures
        0 <= rows * per_line <= u128::MAX,
        rows as u128 * per_line as u128 == rows * per_line,
{
    assert(0 <= rows * per_line <= 0xffff_ffff_ffff_ffff * 0xffff_ffff_ffff_ffff)
        by (nonlinear_arith)
        requires
            0 <= rows <= 0xffff_ffff_ffff_ffff,
            0 <= per_line <= 0xffff_ffff_ffff_ffff,
    ;
}

} // verus!
