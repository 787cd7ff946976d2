//! One line of the dump: the address, the bytes in hex, the bytes as text and a
//! piece of the scrollbar, with the cursor and a match highlighted.

use crate::pattern;
use crate::pattern::width;
use crate::text;
use crate::text::{
    chars_of, push_byte_hex, push_hexadecimal, push_repeated, push_right_aligned, text_of,
};
use crate::viewer;
use vstd::prelude::*;
use vstd::string::*;

verus! {

/// How a piece of text looks.
#[derive(Debug, Clone, Copy, PartialEq, Eq, Structural)]
pub enum Style {
    Plain,
    /// The cursor stands there.
    Cursor,
    /// A match starts there.
    Match,
    /// A warning in the status line.
    Warning,
    /// An error in the search prompt.
    Error,
}

/// A piece of text in one style.
#[derive(Debug, PartialEq, Eq)]
pub struct Span {
    pub text: String,
    pub style: Style,
}

/// A piece of text as contracts speak of it.
#[verifier::ext_equal]
pub struct Piece {
    pub text: Seq<char>,
    pub style: Style,
}

impl View for Span {
    type V = Piece;

    open spec fn view(&self) -> Piece {
        Piece { text: self.text@, style: self.style }
    }
}

/// Text without any highlight.
pub open spec fn plain(text: Seq<char>) -> Piece {
    Piece { text, style: Style::Plain }
}

/// A line as contracts speak of it.
pub open spec fn pieces(spans: Seq<Span>) -> Seq<Piece> {
    Seq::new(spans.len(), |i: int| spans[i]@)
}

/// The text of a line in whatever styles.
pub open spec fn text_of_pieces(line: Seq<Piece>) -> Seq<char>
    decreases line.len(),
{
    if line.len() == 0 {
        Seq::empty()
    } else {
        text_of_pieces(line.drop_last()) + line.last().text
    }
}

/// Puts a piece behind a line.
pub(crate) fn push_span(spans: &mut Vec<Span>, text: String, style: Style)
    ensures
        pieces(final(spans)@) == pieces(old(spans)@).push(Piece { text: text@, style }),
{
    spans.push(Span { text, style });
    assert(pieces(spans@) =~= pieces(old(spans)@).push(Piece { text: text@, style }));
}

/// Puts the pieces of one line behind those of another.
fn append_spans(spans: &mut Vec<Span>, more: &mut Vec<Span>)
    ensures
        pieces(final(spans)@) == pieces(old(spans)@) + pieces(old(more)@),
{
    spans.append(more);
    assert(pieces(spans@) =~= pieces(old(spans)@) + pieces(old(more)@));
}

/// The style of a group: that of the first highlight for it.
pub open spec fn group_style(highlights: Seq<(usize, Style)>, group: int) -> Style
    decreases highlights.len(),
{
    if highlights.len() == 0 {
        Style::Plain
    } else if highlights[0].0 == group {
        highlights[0].1
    } else {
        group_style(highlights.drop_first(), group)
    }
}

/// The position behind the characters that `room` bytes of UTF-8 hold, counted
/// from `start` on; the end of the text where it is shorter.
pub open spec fn bytes_end(s: Seq<char>, start: int, room: int) -> int
    decreases s.len() - start,
{
    if start >= s.len() || room <= 0 {
        start
    } else {
        bytes_end(s, start + 1, room - pattern::utf8_width(s[start]))
    }
}

/// Those bytes end between two characters, or with the text.
pub open spec fn ends_between(s: Seq<char>, start: int, room: int) -> bool
    decreases s.len() - start,
{
    if start >= s.len() || room <= 0 {
        room >= 0
    } else {
        ends_between(s, start + 1, room - pattern::utf8_width(s[start]))
    }
}

/// Bytes that there are take the position on, and not beyond the text.
pub proof fn lemma_bytes_end(s: Seq<char>, start: int, room: int)
    requires
        start <= s.len(),
    ensures
        start <= bytes_end(s, start, room) <= s.len(),
        start < s.len() && room > 0 ==> start < bytes_end(s, start, room),
    decreases s.len() - start,
{
    if start < s.len() && room > 0 {
        lemma_bytes_end(s, start + 1, room - pattern::utf8_width(s[start]));
    }
}

/// The hex text from `start` on, taken apart into groups of `2 * group_size`
/// bytes with a space between them; the group at `start` is number `group`.
pub open spec fn highlighted_groups(
    hex: Seq<char>,
    group_size: int,
    highlights: Seq<(usize, Style)>,
    start: int,
    group: int,
) -> Seq<Piece>
    decreases hex.len() - start,
{
    if group_size < 1 || start >= hex.len() {
        Seq::empty()
    } else {
        let end = bytes_end(hex, start, 2 * group_size);
        let piece = Piece {
            text: hex.subrange(start, end),
            style: group_style(highlights, group),
        };
        proof {
            lemma_bytes_end(hex, start, 2 * group_size);
        }
        if end < hex.len() {
            seq![piece, plain(" "@)] + highlighted_groups(
                hex,
                group_size,
                highlights,
                after_space(hex, end),
                group + 1,
            )
        } else {
            seq![piece]
        }
    }
}

/// The groups of the hex text from `start` on end between two characters.
pub open spec fn groups_end_between(hex: Seq<char>, group_size: int, start: int) -> bool
    decreases hex.len() - start,
{
    if group_size < 1 || start >= hex.len() {
        true
    } else {
        let end = bytes_end(hex, start, 2 * group_size);
        proof {
            lemma_bytes_end(hex, start, 2 * group_size);
        }
        ends_between(hex, start, 2 * group_size) && groups_end_between(
            hex,
            group_size,
            after_space(hex, end),
        )
    }
}

/// The position behind a space, where one stands there.
pub open spec fn after_space(hex: Seq<char>, at: int) -> int {
    if at < hex.len() && hex[at] == ' ' {
        at + 1
    } else {
        at
    }
}

fn style_of_group(highlights: &Vec<(usize, Style)>, group: usize) -> (r: Style)
    ensures
        r == group_style(highlights@, group as int),
{
    let mut i: usize = 0;
    assert(highlights@.skip(0) =~= highlights@);
    while i < highlights.len()
        invariant
            i <= highlights@.len(),
            group_style(highlights@, group as int) == group_style(
                highlights@.skip(i as int),
                group as int,
            ),
        decreases highlights@.len() - i,
    {
        let (index, style) = highlights[i];
        if index == group {
            return style;
        }
        assert(highlights@.skip(i as int).drop_first() =~= highlights@.skip(i + 1));
        i = i + 1;
    }
    Style::Plain
}

/// The position behind the characters that `room` bytes of UTF-8 hold.
fn find_bytes_end(s: &[char], start: usize, room: u128) -> (r: usize)
    requires
        start <= s@.len(),
        ends_between(s@, start as int, room as int),
    ensures
        r == bytes_end(s@, start as int, room as int),
        start <= r <= s@.len(),
        start < s@.len() && room > 0 ==> start < r,
{
    let mut end: usize = start;
    let mut left: u128 = room;
    while end < s.len() && left > 0
        invariant
            start <= end <= s@.len(),
            ends_between(s@, end as int, left as int),
            bytes_end(s@, end as int, left as int) == bytes_end(s@, start as int, room as int),
        decreases s@.len() - end,
    {
        // The rest of the room is not negative, so the character fits into it.
        assert(ends_between(s@, end + 1, left - pattern::utf8_width(s@[end as int])));
        let taken: u128 = width(s[end]) as u128;
        left = left - taken;
        end = end + 1;
    }
    proof {
        lemma_bytes_end(s@, start as int, room as int);
    }
    end
}

/// The hex column with whole groups highlighted.
pub fn build_highlighted_hex(
    hex: &[char],
    group_size: usize,
    highlights: &Vec<(usize, Style)>,
) -> (r: Vec<Span>)
    requires
        hex@.len() > 0 ==> 0 < group_size,
        groups_end_between(hex@, group_size as int, 0),
    ensures
        pieces(r@) == highlighted_groups(hex@, group_size as int, highlights@, 0, 0),
{
    let mut spans: Vec<Span> = Vec::new();
    let len: usize = hex.len();
    let mut group: usize = 0;
    let mut start: usize = 0;
    let ghost g = group_size as int;
    let ghost all = highlighted_groups(hex@, g, highlights@, 0, 0);
    assert(pieces(spans@) + all =~= all);
    while start < len
        invariant
            len == hex@.len(),
            g == group_size,
            len > 0 ==> 0 < group_size,
            start <= len,
            group <= start,
            groups_end_between(hex@, g, start as int),
            all == pieces(spans@) + highlighted_groups(
                hex@,
                g,
                highlights@,
                start as int,
                group as int,
            ),
        decreases len - start,
    {
        let ghost before = pieces(spans@);
        let end: usize = find_bytes_end(hex, start, 2 * group_size as u128);
        let style = style_of_group(highlights, group);
        push_span(&mut spans, text_of(hex, start, end), style);
        let ghost piece = Piece { text: hex@.subrange(start as int, end as int), style };
        let mut next: usize = end;
        if end < len {
            push_span(&mut spans, " ".to_string(), Style::Plain);
            if hex[end] == ' ' {
                next = end + 1;
            }
            assert(pieces(spans@) =~= before + seq![piece, plain(" "@)]);
            assert(pieces(spans@) + highlighted_groups(
                hex@,
                g,
                highlights@,
                next as int,
                group + 1,
            ) =~= before + (seq![piece, plain(" "@)] + highlighted_groups(
                hex@,
                g,
                highlights@,
                next as int,
                group + 1,
            )));
        } else {
            assert(pieces(spans@) + Seq::<Piece>::empty() =~= before + seq![piece]);
        }
        start = next;
        group = group + 1;
    }
    assert(pieces(spans@) + Seq::<Piece>::empty() =~= pieces(spans@));
    spans
}

/// A group in which the two bytes at `at` are highlighted, where it is long
/// enough.
pub open spec fn group_with_byte(group: Seq<char>, at: int) -> Seq<Piece> {
    if at + 2 <= pattern::utf8_len(group) {
        let from = bytes_end(group, 0, at);
        let to = bytes_end(group, from, 2);
        nonempty(group.take(from)) + seq![
            Piece { text: group.subrange(from, to), style: Style::Cursor },
        ] + nonempty(group.skip(to))
    } else {
        seq![plain(group)]
    }
}

/// The two bytes at `at`, where the group has them, start and end between two
/// characters.
pub open spec fn byte_ends_between(group: Seq<char>, at: int) -> bool {
    at + 2 <= pattern::utf8_len(group) ==> {
        &&& ends_between(group, 0, at)
        &&& ends_between(group, bytes_end(group, 0, at), 2)
    }
}

/// The text as one piece, and none where it is empty.
pub open spec fn nonempty(text: Seq<char>) -> Seq<Piece> {
    if text.len() == 0 {
        Seq::empty()
    } else {
        seq![plain(text)]
    }
}

/// The hex text from `start` on, in groups, with one byte highlighted.
pub open spec fn highlighted_byte(
    hex: Seq<char>,
    byte_index: int,
    group_size: int,
    start: int,
    group: int,
) -> Seq<Piece>
    decreases hex.len() - start,
{
    if group_size < 1 || start >= hex.len() {
        Seq::empty()
    } else {
        let end = bytes_end(hex, start, 2 * group_size);
        let here = hex.subrange(start, end);
        let head = if group == byte_index / group_size {
            group_with_byte(here, 2 * (byte_index % group_size))
        } else {
            seq![plain(here)]
        };
        proof {
            lemma_bytes_end(hex, start, 2 * group_size);
        }
        if end < hex.len() {
            head.push(plain(" "@)) + highlighted_byte(
                hex,
                byte_index,
                group_size,
                after_space(hex, end),
                group + 1,
            )
        } else {
            head
        }
    }
}

/// The groups of the hex text from `start` on end between two characters, and
/// so does the byte that is highlighted.
pub open spec fn byte_groups_end_between(
    hex: Seq<char>,
    byte_index: int,
    group_size: int,
    start: int,
    group: int,
) -> bool
    decreases hex.len() - start,
{
    if group_size < 1 || start >= hex.len() {
        true
    } else {
        let end = bytes_end(hex, start, 2 * group_size);
        proof {
            lemma_bytes_end(hex, start, 2 * group_size);
        }
        &&& ends_between(hex, start, 2 * group_size)
        &&& group == byte_index / group_size ==> byte_ends_between(
            hex.subrange(start, end),
            2 * (byte_index % group_size),
        )
        &&& byte_groups_end_between(
            hex,
            byte_index,
            group_size,
            after_space(hex, end),
            group + 1,
        )
    }
}

/// The bytes that a text takes in UTF-8.
fn count_bytes(s: &[char]) -> (r: u128)
    ensures
        r == pattern::utf8_len(s@),
{
    let mut bytes: u128 = 0;
    let mut i: usize = 0;
    while i < s.len()
        invariant
            i <= s@.len(),
            bytes == pattern::utf8_len(s@.take(i as int)),
            bytes <= 4 * i,
        decreases s@.len() - i,
    {
        assert(s@.take(i + 1).drop_last() =~= s@.take(i as int));
        bytes = bytes + width(s[i]) as u128;
        i = i + 1;
    }
    assert(s@.take(s@.len() as int) =~= s@);
    bytes
}

/// Puts a group with a byte highlighted behind a line.
fn push_group_with_byte(spans: &mut Vec<Span>, group: &[char], at: u128)
    requires
        at <= 2 * usize::MAX,
        byte_ends_between(group@, at as int),
    ensures
        pieces(final(spans)@) == pieces(old(spans)@) + group_with_byte(group@, at as int),
{
    let ghost before = pieces(spans@);
    let len: usize = group.len();
    if at + 2 <= count_bytes(group) {
        let from: usize = find_bytes_end(group, 0, at);
        let to: usize = find_bytes_end(group, from, 2);
        assert(group@.subrange(0, from as int) =~= group@.take(from as int));
        assert(group@.subrange(to as int, len as int) =~= group@.skip(to as int));
        if from > 0 {
            push_span(spans, text_of(group, 0, from), Style::Plain);
        }
        assert(pieces(spans@) =~= before + nonempty(group@.take(from as int)));
        push_span(spans, text_of(group, from, to), Style::Cursor);
        if to < len {
            push_span(spans, text_of(group, to, len), Style::Plain);
        }
        assert(pieces(spans@) =~= before + group_with_byte(group@, at as int));
    } else {
        assert(group@.subrange(0, len as int) =~= group@);
        push_span(spans, text_of(group, 0, len), Style::Plain);
        assert(pieces(spans@) =~= before + group_with_byte(group@, at as int));
    }
}

/// The hex column with a single byte highlighted.
pub fn _highlight_hex(hex: &[char], byte_index: usize, group_size: usize) -> (r: Vec<Span>)
    requires
        hex@.len() > 0 ==> 0 < group_size,
        byte_groups_end_between(hex@, byte_index as int, group_size as int, 0, 0),
    ensures
        pieces(r@) == highlighted_byte(hex@, byte_index as int, group_size as int, 0, 0),
{
    let mut spans: Vec<Span> = Vec::new();
    let len: usize = hex.len();
    let mut group: usize = 0;
    let mut start: usize = 0;
    let ghost g = group_size as int;
    let ghost b = byte_index as int;
    let ghost all = highlighted_byte(hex@, b, g, 0, 0);
    assert(pieces(spans@) + all =~= all);
    while start < len
        invariant
            len == hex@.len(),
            g == group_size,
            b == byte_index,
            len > 0 ==> 0 < group_size,
            start <= len,
            group <= start,
            byte_groups_end_between(hex@, b, g, start as int, group as int),
            all == pieces(spans@) + highlighted_byte(hex@, b, g, start as int, group as int),
        decreases len - start,
    {
        let ghost before = pieces(spans@);
        let end: usize = find_bytes_end(hex, start, 2 * group_size as u128);
        let ghost here = hex@.subrange(start as int, end as int);
        let ghost head = if group as int == b / g {
            group_with_byte(here, 2 * (b % g))
        } else {
            seq![plain(here)]
        };
        if group == byte_index / group_size {
            let at: u128 = 2 * (byte_index % group_size) as u128;
            push_group_with_byte(&mut spans, &hex[start..end], at);
        } else {
            push_span(&mut spans, text_of(hex, start, end), Style::Plain);
            assert(pieces(spans@) =~= before + head);
        }
        let mut next: usize = end;
        if end < len {
            push_span(&mut spans, " ".to_string(), Style::Plain);
            if hex[end] == ' ' {
                next = end + 1;
            }
            let ghost tail = highlighted_byte(hex@, b, g, next as int, group + 1);
            assert(pieces(spans@) + tail =~= before + (head.push(plain(" "@)) + tail));
        } else {
            assert(pieces(spans@) + Seq::<Piece>::empty() =~= before + head);
        }
        start = next;
        group = group + 1;
    }
    assert(pieces(spans@) + Seq::<Piece>::empty() =~= pieces(spans@));
    spans
}

/// In ASCII text every byte is a character.
proof fn lemma_ascii_bytes(s: Seq<char>, start: int, room: int)
    requires
        0 <= start <= s.len(),
        room >= 0,
        pattern::is_ascii_text(s),
    ensures
        bytes_end(s, start, room) == viewer::smaller(start + room, s.len() as int),
        ends_between(s, start, room),
    decreases s.len() - start,
{
    if start < s.len() && room > 0 {
        assert((s[start] as u32) < 128);
        lemma_ascii_bytes(s, start + 1, room - 1);
    }
}

/// Groups of ASCII text end between two characters.
proof fn lemma_ascii_groups(hex: Seq<char>, g: int, start: int)
    requires
        0 <= start,
        pattern::is_ascii_text(hex),
    ensures
        groups_end_between(hex, g, start),
    decreases hex.len() - start,
{
    if g >= 1 && start < hex.len() {
        lemma_ascii_bytes(hex, start, 2 * g);
        lemma_ascii_groups(hex, g, after_space(hex, bytes_end(hex, start, 2 * g)));
    }
}

/// Bytes in hex, without a separator.
pub open spec fn hex_of(bytes: Seq<u8>) -> Seq<char>
    decreases bytes.len(),
{
    if bytes.len() == 0 {
        Seq::empty()
    } else {
        hex_of(bytes.drop_last()) + text::byte_hex(bytes.last())
    }
}

/// The bytes of group `k` in hex, or blanks where there are none.
pub open spec fn group_text(bytes: Seq<u8>, group_size: int, k: int) -> Seq<char> {
    if k * group_size < bytes.len() {
        hex_of(
            bytes.subrange(
                k * group_size,
                viewer::smaller(k * group_size + group_size, bytes.len() as int),
            ),
        )
    } else {
        text::repeated(' ', 2 * group_size)
    }
}

/// The first `n` groups with a space between them.
pub open spec fn hex_column(bytes: Seq<u8>, group_size: int, n: int) -> Seq<char>
    decreases n,
{
    if n <= 0 {
        Seq::empty()
    } else if n == 1 {
        group_text(bytes, group_size, 0)
    } else {
        hex_column(bytes, group_size, n - 1).push(' ') + group_text(bytes, group_size, n - 1)
    }
}

/// The groups of a line: those that the bytes fill, and those that the line has
/// room for.
pub open spec fn group_count(len: int, group_size: int, bytes_per_line: int) -> int {
    viewer::larger((len + group_size - 1) / group_size, bytes_per_line / group_size)
}

/// A byte as text: itself where it is printable ASCII, a dot otherwise.
pub open spec fn ascii_char(b: u8) -> char {
    if 0x20 <= b <= 0x7e {
        b as char
    } else {
        '.'
    }
}

/// The first of the matches that lies in the line at `offset`, counted from
/// there.
pub open spec fn first_match_in_line(
    matches: Seq<u128>,
    offset: int,
    bytes_per_line: int,
) -> Option<int>
    decreases matches.len(),
{
    if matches.len() == 0 {
        None
    } else if offset <= matches[0] < offset + bytes_per_line {
        Some(matches[0] - offset)
    } else {
        first_match_in_line(matches.drop_first(), offset, bytes_per_line)
    }
}

/// What one line shows.
pub struct Row {
    pub bytes: Seq<u8>,
    pub offset: int,
    pub address_width: int,
    pub group_size: int,
    pub bytes_per_line: int,
    pub cursor: int,
    pub bar: char,
    pub matches: Seq<u128>,
}

impl Row {
    /// The address, filled with zeros.
    pub open spec fn address(self) -> Seq<char> {
        text::right_aligned(text::hexadecimal(self.offset as nat), self.address_width, '0')
    }

    /// The bytes in hex.
    pub open spec fn hex(self) -> Seq<char> {
        hex_column(
            self.bytes,
            self.group_size,
            group_count(self.bytes.len() as int, self.group_size, self.bytes_per_line),
        )
    }

    /// The bytes as text.
    pub open spec fn ascii(self) -> Seq<char> {
        text::right_aligned(
            Seq::new(self.bytes.len(), |i: int| ascii_char(self.bytes[i])),
            self.bytes_per_line,
            ' ',
        )
    }

    /// Where in the line the cursor stands.
    pub open spec fn cursor_in_line(self) -> Option<int> {
        if self.offset <= self.cursor < self.offset + self.bytes_per_line {
            Some(self.cursor - self.offset)
        } else {
            None
        }
    }

    /// Where in the line a match starts.
    pub open spec fn match_in_line(self) -> Option<int> {
        first_match_in_line(self.matches, self.offset, self.bytes_per_line)
    }

    /// The highlighted groups: the cursor's before that of a match.
    pub open spec fn highlights(self) -> Seq<(usize, Style)> {
        let cursor = match self.cursor_in_line() {
            Some(at) => seq![((at / self.group_size) as usize, Style::Cursor)],
            None => Seq::empty(),
        };
        match self.match_in_line() {
            Some(at) => cursor.push(((at / self.group_size) as usize, Style::Match)),
            None => cursor,
        }
    }

    /// The pieces of the hex column.
    pub open spec fn hex_pieces(self) -> Seq<Piece> {
        if self.highlights().len() > 0 {
            highlighted_groups(self.hex(), self.group_size, self.highlights(), 0, 0)
        } else {
            seq![plain(self.hex())]
        }
    }

    /// The pieces of the text column.
    pub open spec fn ascii_pieces(self) -> Seq<Piece> {
        match self.cursor_in_line() {
            Some(at) => seq![
                plain(self.ascii().take(at)),
                Piece { text: self.ascii().subrange(at, at + 1), style: Style::Cursor },
                plain(self.ascii().skip(at + 1)),
            ],
            None => seq![plain(self.ascii())],
        }
    }

    /// The whole line.
    pub open spec fn line(self) -> Seq<Piece> {
        seq![plain(self.address()), plain("  "@)] + self.hex_pieces() + seq![plain("  "@)]
            + self.ascii_pieces() + seq![plain(" "@.push(self.bar))]
    }
}

/// The bytes from `from` up to `to` in hex behind the text.
fn push_hex_bytes(s: &mut String, bytes: &[u8], from: usize, to: usize)
    requires
        from <= to <= bytes@.len(),
    ensures
        final(s)@ == old(s)@ + hex_of(bytes@.subrange(from as int, to as int)),
{
    let ghost before = s@;
    let mut i: usize = from;
    assert(s@ =~= before + hex_of(bytes@.subrange(from as int, i as int)));
    while i < to
        invariant
            from <= i <= to <= bytes@.len(),
            s@ == before + hex_of(bytes@.subrange(from as int, i as int)),
        decreases to - i,
    {
        push_byte_hex(s, bytes[i]);
        assert(bytes@.subrange(from as int, i + 1).drop_last() =~= bytes@.subrange(
            from as int,
            i as int,
        ));
        i = i + 1;
        assert(s@ =~= before + hex_of(bytes@.subrange(from as int, i as int)));
    }
}

/// The hex column of a line.
fn hex_text(bytes: &[u8], group_size: usize, bytes_per_line: usize) -> (r: String)
    requires
        0 < group_size,
    ensures
        r@ == hex_column(
            bytes@,
            group_size as int,
            group_count(bytes@.len() as int, group_size as int, bytes_per_line as int),
        ),
{
    let len: usize = bytes.len();
    let room: usize = bytes_per_line / group_size;
    let ghost g = group_size as int;
    let ghost n = group_count(len as int, g, bytes_per_line as int);
    let mut s = String::new();
    let mut k: usize = 0;
    let mut pos: usize = 0;
    assert(0 <= n) by {
        lemma_filled_groups(len as int, g, 0);
    }
    while pos < len || k < room
        invariant
            len == bytes@.len(),
            g == group_size,
            0 < group_size,
            room == bytes_per_line as int / g,
            n == group_count(len as int, g, bytes_per_line as int),
            k <= n,
            pos == viewer::smaller(k * g, len as int),
            s@ == hex_column(bytes@, g, k as int),
        decreases n - k,
    {
        proof {
            lemma_filled_groups(len as int, g, k as int);
            assert(k <= k * g) by (nonlinear_arith)
                requires
                    g >= 1,
                    k >= 0,
            ;
            assert((k + 1) * g == k * g + g) by (nonlinear_arith);
        }
        let ghost before = s@;
        if k > 0 {
            s.push(' ');
        }
        if pos < len {
            let end: usize = if len - pos < group_size {
                len
            } else {
                pos + group_size
            };
            push_hex_bytes(&mut s, bytes, pos, end);
            pos = end;
        } else {
            push_repeated(&mut s, ' ', group_size);
            push_repeated(&mut s, ' ', group_size);
        }
        assert(s@ =~= hex_column(bytes@, g, k + 1));
        k = k + 1;
    }
    proof {
        lemma_filled_groups(len as int, g, k as int);
    }
    s
}

/// Group `k` has bytes exactly where it lies below the number of groups that
/// the bytes fill.
proof fn lemma_filled_groups(len: int, g: int, k: int)
    requires
        len >= 0,
        g >= 1,
        k >= 0,
    ensures
        (len + g - 1) / g >= 0,
        k * g < len <==> k < (len + g - 1) / g,
{
    let n = (len + g - 1) / g;
    vstd::arithmetic::div_mod::lemma_fundamental_div_mod(len + g - 1, g);
    assert(n >= 0) by (nonlinear_arith)
        requires
            n == (len + g - 1) / g,
            len + g - 1 >= 0,
            g >= 1,
    ;
    let r = (len + g - 1) % g;
    assert(0 <= r < g);
    assert(len + g - 1 == g * n + r);
    if k < n {
        assert(k * g <= g * n - g) by (nonlinear_arith)
            requires
                k + 1 <= n,
                g >= 1,
        ;
    } else {
        assert(g * n <= k * g) by (nonlinear_arith)
            requires
                n <= k,
                g >= 1,
        ;
    }
}

/// The text column of a line.
fn ascii_text(bytes: &[u8], bytes_per_line: usize) -> (r: String)
    ensures
        r@ == text::right_aligned(
            Seq::new(bytes@.len(), |i: int| ascii_char(bytes@[i])),
            bytes_per_line as int,
            ' ',
        ),
{
    let mut ascii = String::new();
    let ghost all = Seq::new(bytes@.len(), |i: int| ascii_char(bytes@[i]));
    let mut i: usize = 0;
    assert(ascii@ =~= all.take(0));
    while i < bytes.len()
        invariant
            i <= bytes@.len(),
            all == Seq::new(bytes@.len(), |i: int| ascii_char(bytes@[i])),
            ascii@ == all.take(i as int),
        decreases bytes@.len() - i,
    {
        let b: u8 = bytes[i];
        let c = if 0x20 <= b && b <= 0x7e {
            b as char
        } else {
            '.'
        };
        ascii.push(c);
        assert(all.take(i + 1) =~= all.take(i as int).push(c));
        i = i + 1;
    }
    assert(all.take(all.len() as int) =~= all);
    let mut s = String::new();
    push_right_aligned(&mut s, ascii.as_str(), bytes_per_line, ' ');
    assert(s@ =~= text::right_aligned(all, bytes_per_line as int, ' '));
    s
}

/// The first of the matches that lies in the line at `offset`.
fn find_match_in_line(matches: &[u128], offset: u128, bytes_per_line: usize) -> (r: Option<usize>)
    ensures
        r is None <==> first_match_in_line(matches@, offset as int, bytes_per_line as int) is None,
        r matches Some(at) ==> first_match_in_line(
            matches@,
            offset as int,
            bytes_per_line as int,
        ) == Some(at as int),
        r matches Some(at) ==> at < bytes_per_line,
{
    let mut i: usize = 0;
    assert(matches@.skip(0) =~= matches@);
    while i < matches.len()
        invariant
            i <= matches@.len(),
            first_match_in_line(matches@, offset as int, bytes_per_line as int)
                == first_match_in_line(
                matches@.skip(i as int),
                offset as int,
                bytes_per_line as int,
            ),
        decreases matches@.len() - i,
    {
        let m: u128 = matches[i];
        if m >= offset && m - offset < bytes_per_line as u128 {
            return Some((m - offset) as usize);
        }
        assert(matches@.skip(i as int).drop_first() =~= matches@.skip(i + 1));
        i = i + 1;
    }
    None
}

/// A line of the dump: `bytes` at `offset`, of which the cursor and the first
/// match that fall into the line are highlighted.
pub fn format_line(
    bytes: &[u8],
    offset: u128,
    addr_width: usize,
    group_size: usize,
    bytes_per_line: usize,
    cursor_offset: u128,
    scrollbar_char: char,
    search_matches: &[u128],
) -> (r: Vec<Span>)
    requires
        0 < group_size,
    ensures
        pieces(r@) == (Row {
            bytes: bytes@,
            offset: offset as int,
            address_width: addr_width as int,
            group_size: group_size as int,
            bytes_per_line: bytes_per_line as int,
            cursor: cursor_offset as int,
            bar: scrollbar_char,
            matches: search_matches@,
        }).line(),
{
    let ghost row = Row {
        bytes: bytes@,
        offset: offset as int,
        address_width: addr_width as int,
        group_size: group_size as int,
        bytes_per_line: bytes_per_line as int,
        cursor: cursor_offset as int,
        bar: scrollbar_char,
        matches: search_matches@,
    };
    let mut spans: Vec<Span> = Vec::new();
    let mut digits = String::new();
    push_hexadecimal(&mut digits, offset);
    assert(digits@ =~= text::hexadecimal(offset as nat));
    let mut address = String::new();
    push_right_aligned(&mut address, digits.as_str(), addr_width, '0');
    assert(address@ =~= row.address());
    push_span(&mut spans, address, Style::Plain);
    push_span(&mut spans, "  ".to_string(), Style::Plain);
    assert(pieces(spans@) =~= seq![plain(row.address()), plain("  "@)]);

    let cursor_in_line: Option<usize> = if offset <= cursor_offset && cursor_offset - offset
        < bytes_per_line as u128 {
        Some((cursor_offset - offset) as usize)
    } else {
        None
    };
    let match_in_line: Option<usize> = find_match_in_line(search_matches, offset, bytes_per_line);
    let mut highlights: Vec<(usize, Style)> = Vec::new();
    if let Some(at) = cursor_in_line {
        highlights.push((at / group_size, Style::Cursor));
    }
    if let Some(at) = match_in_line {
        highlights.push((at / group_size, Style::Match));
    }
    assert(highlights@ =~= row.highlights());

    let ghost head = pieces(spans@);
    let hex = hex_text(bytes, group_size, bytes_per_line);
    if highlights.len() > 0 {
        let chars = chars_of(hex.as_str());
        proof {
            lemma_row_is_ascii(row);
            lemma_ascii_groups(chars@, group_size as int, 0);
        }
        let mut groups = build_highlighted_hex(chars.as_slice(), group_size, &highlights);
        append_spans(&mut spans, &mut groups);
    } else {
        push_span(&mut spans, hex, Style::Plain);
    }
    assert(pieces(spans@) =~= head + row.hex_pieces());
    push_span(&mut spans, "  ".to_string(), Style::Plain);
    assert(pieces(spans@) =~= head + row.hex_pieces() + seq![plain("  "@)]);

    let ascii = ascii_text(bytes, bytes_per_line);
    assert(ascii@ == row.ascii());
    push_ascii(&mut spans, ascii, cursor_in_line);
    assert(pieces(spans@) =~= head + row.hex_pieces() + seq![plain("  "@)] + row.ascii_pieces());
    let mut bar = " ".to_string();
    bar.push(scrollbar_char);
    push_span(&mut spans, bar, Style::Plain);
    assert(pieces(spans@) =~= row.line());
    spans
}

/// Puts the text column behind a line, with the character at the cursor
/// highlighted.
fn push_ascii(spans: &mut Vec<Span>, ascii: String, cursor: Option<usize>)
    requires
        cursor matches Some(at) ==> at < ascii@.len(),
    ensures
        cursor is None ==> pieces(final(spans)@) == pieces(old(spans)@) + seq![plain(ascii@)],
        cursor matches Some(at) ==> pieces(final(spans)@) == pieces(old(spans)@) + seq![
            plain(ascii@.take(at as int)),
            Piece { text: ascii@.subrange(at as int, at + 1), style: Style::Cursor },
            plain(ascii@.skip(at + 1)),
        ],
{
    let ghost before = pieces(spans@);
    if let Some(at) = cursor {
        let chars = chars_of(ascii.as_str());
        let len: usize = chars.len();
        push_span(spans, text_of(chars.as_slice(), 0, at), Style::Plain);
        push_span(spans, text_of(chars.as_slice(), at, at + 1), Style::Cursor);
        push_span(spans, text_of(chars.as_slice(), at + 1, len), Style::Plain);
        assert(ascii@.subrange(0, at as int) =~= ascii@.take(at as int));
        assert(ascii@.subrange(at + 1, ascii@.len() as int) =~= ascii@.skip(at + 1));
        assert(pieces(spans@) =~= before + seq![
            plain(ascii@.take(at as int)),
            Piece { text: ascii@.subrange(at as int, at + 1), style: Style::Cursor },
            plain(ascii@.skip(at + 1)),
        ]);
    } else {
        push_span(spans, ascii, Style::Plain);
        assert(pieces(spans@) =~= before + seq![plain(ascii@)]);
    }
}

proof fn lemma_text_of_both(a: Seq<Piece>, b: Seq<Piece>)
    ensures
        text_of_pieces(a + b) == text_of_pieces(a) + text_of_pieces(b),
    decreases b.len(),
{
    if b.len() == 0 {
        assert(a + b =~= a);
        assert(text_of_pieces(a) + text_of_pieces(b) =~= text_of_pieces(a));
    } else {
        lemma_text_of_both(a, b.drop_last());
        assert((a + b).drop_last() =~= a + b.drop_last());
        assert(text_of_pieces(a + b) =~= text_of_pieces(a) + text_of_pieces(b));
    }
}

proof fn lemma_text_of_one(p: Piece)
    ensures
        text_of_pieces(seq![p]) == p.text,
{
    reveal_with_fuel(text_of_pieces, 2);
    assert(seq![p].drop_last() =~= Seq::<Piece>::empty());
    assert(text_of_pieces(seq![p]) =~= p.text);
}

proof fn lemma_text_of_two(p: Piece, q: Piece)
    ensures
        text_of_pieces(seq![p, q]) == p.text + q.text,
{
    lemma_text_of_one(p);
    lemma_text_of_one(q);
    lemma_text_of_both(seq![p], seq![q]);
    assert(seq![p, q] =~= seq![p] + seq![q]);
}

/// Behind every `2 * g` characters from `start` on stands a space.
spec fn spaced(hex: Seq<char>, g: int, start: int) -> bool
    decreases hex.len() - start,
{
    g >= 1 && (start + 2 * g >= hex.len() || hex[start + 2 * g] == ' ' && spaced(
        hex,
        g,
        start + 2 * g + 1,
    ))
}

/// Taking a spaced text apart into groups keeps it.
proof fn lemma_groups_keep_text(
    hex: Seq<char>,
    g: int,
    highlights: Seq<(usize, Style)>,
    start: int,
    group: int,
)
    requires
        0 <= start <= hex.len(),
        spaced(hex, g, start),
        pattern::is_ascii_text(hex),
    ensures
        text_of_pieces(highlighted_groups(hex, g, highlights, start, group)) == hex.skip(start),
    decreases hex.len() - start,
{
    let all = highlighted_groups(hex, g, highlights, start, group);
    lemma_ascii_bytes(hex, start, 2 * g);
    if start < hex.len() {
        let end = viewer::smaller(start + 2 * g, hex.len() as int);
        let piece = Piece {
            text: hex.subrange(start, end),
            style: group_style(highlights, group),
        };
        if end < hex.len() {
            let rest = highlighted_groups(hex, g, highlights, end + 1, group + 1);
            lemma_groups_keep_text(hex, g, highlights, end + 1, group + 1);
            lemma_text_of_two(piece, plain(" "@));
            lemma_text_of_both(seq![piece, plain(" "@)], rest);
            reveal_strlit(" ");
            assert(hex.skip(start) =~= piece.text + " "@ + hex.skip(end + 1));
            assert(text_of_pieces(all) =~= hex.skip(start));
        } else {
            lemma_text_of_one(piece);
            assert(hex.skip(start) =~= piece.text);
        }
    } else {
        assert(text_of_pieces(all) =~= hex.skip(start));
    }
}

/// Every position behind a whole number of groups and their spaces is a space.
spec fn has_spaces(hex: Seq<char>, g: int) -> bool {
    forall|k: int|
        k >= 0 && #[trigger] space_position(k, g) < hex.len() ==> hex[space_position(k, g)] == ' '
}

spec fn space_position(k: int, g: int) -> int {
    k * (2 * g + 1) + 2 * g
}

proof fn lemma_spaces_are_spaced(hex: Seq<char>, g: int, k: int)
    requires
        g >= 1,
        k >= 0,
        has_spaces(hex, g),
    ensures
        spaced(hex, g, k * (2 * g + 1)),
    decreases hex.len() - k * (2 * g + 1),
{
    assert(space_position(k, g) == k * (2 * g + 1) + 2 * g);
    if space_position(k, g) < hex.len() {
        assert((k + 1) * (2 * g + 1) == k * (2 * g + 1) + 2 * g + 1) by (nonlinear_arith);
        lemma_spaces_are_spaced(hex, g, k + 1);
    }
}

proof fn lemma_hex_is_ascii(bytes: Seq<u8>)
    ensures
        pattern::is_ascii_text(hex_of(bytes)),
    decreases bytes.len(),
{
    if bytes.len() > 0 {
        lemma_hex_is_ascii(bytes.drop_last());
        let last = text::byte_hex(bytes.last());
        assert((last[0] as u32) < 128 && (last[1] as u32) < 128);
    }
}

proof fn lemma_column_is_ascii(bytes: Seq<u8>, g: int, n: int)
    ensures
        pattern::is_ascii_text(hex_column(bytes, g, n)),
    decreases n,
{
    if n >= 1 {
        let k = n - 1;
        lemma_column_is_ascii(bytes, g, k);
        lemma_hex_is_ascii(
            bytes.subrange(k * g, viewer::smaller(k * g + g, bytes.len() as int)),
        );
    }
}

/// The hex column of a line is ASCII.
proof fn lemma_row_is_ascii(row: Row)
    ensures
        pattern::is_ascii_text(row.hex()),
{
    lemma_column_is_ascii(
        row.bytes,
        row.group_size,
        group_count(row.bytes.len() as int, row.group_size, row.bytes_per_line),
    );
}

proof fn lemma_hex_of_len(bytes: Seq<u8>)
    ensures
        hex_of(bytes).len() == 2 * bytes.len(),
    decreases bytes.len(),
{
    if bytes.len() > 0 {
        lemma_hex_of_len(bytes.drop_last());
    }
}

proof fn lemma_group_text_len(bytes: Seq<u8>, g: int, k: int)
    requires
        g >= 1,
        k >= 0,
    ensures
        group_text(bytes, g, k).len() <= 2 * g,
        k * g + g <= bytes.len() ==> group_text(bytes, g, k).len() == 2 * g,
{
    assert(k * g >= 0) by (nonlinear_arith)
        requires
            g >= 1,
            k >= 0,
    ;
    if k * g < bytes.len() {
        lemma_hex_of_len(
            bytes.subrange(k * g, viewer::smaller(k * g + g, bytes.len() as int)),
        );
    }
}

/// The hex column has its spaces behind whole groups; full groups make it as
/// long as it can be.
proof fn lemma_column(bytes: Seq<u8>, g: int, n: int)
    requires
        g >= 1,
        n >= 1,
    ensures
        has_spaces(hex_column(bytes, g, n), g),
        hex_column(bytes, g, n).len() <= n * (2 * g + 1) - 1,
        n * g <= bytes.len() ==> hex_column(bytes, g, n).len() == n * (2 * g + 1) - 1,
    decreases n,
{
    let hex = hex_column(bytes, g, n);
    let m = 2 * g + 1;
    lemma_group_text_len(bytes, g, n - 1);
    assert(n * m == (n - 1) * m + m) by (nonlinear_arith);
    assert(n * g == (n - 1) * g + g) by (nonlinear_arith);
    if n == 1 {
        assert((n - 1) * m == 0 && (n - 1) * g == 0) by (nonlinear_arith)
            requires
                n == 1,
        ;
        assert forall|k: int| k >= 0 implies #[trigger] space_position(k, g) >= 2 * g by {
            assert(k * m >= 0) by (nonlinear_arith)
                requires
                    k >= 0,
                    m >= 1,
            ;
        }
    } else {
        let first = hex_column(bytes, g, n - 1);
        let last = group_text(bytes, g, n - 1);
        lemma_column(bytes, g, n - 1);
        assert(hex =~= first.push(' ') + last);
        assert forall|k: int| k >= 0 && #[trigger] space_position(k, g) < hex.len() implies hex[
            space_position(k, g)
        ] == ' ' by {
            let p = space_position(k, g);
            if p < first.len() {
                assert(first[p] == ' ');
            } else if p > first.len() {
                if (n - 1) * g < bytes.len() {
                    assert((n - 1) * g <= bytes.len());
                    assert(first.len() == (n - 1) * m - 1);
                    if k >= n - 1 {
                        assert(k * m >= (n - 1) * m) by (nonlinear_arith)
                            requires
                                k >= n - 1,
                                m >= 1,
                        ;
                    } else {
                        assert(k * m + m <= (n - 1) * m) by (nonlinear_arith)
                            requires
                                k + 1 <= n - 1,
                                m >= 1,
                        ;
                    }
                }
            }
        }
    }
}

impl Row {
    /// The text of the line.
    pub open spec fn text(self) -> Seq<char> {
        self.address() + "  "@ + self.hex() + "  "@ + self.ascii() + " "@.push(self.bar)
    }
}

/// Highlighting changes how a line looks and never what it says: wherever the
/// cursor and the matches are, its text is the address, the bytes in hex, the
/// bytes as text and the scrollbar.
pub proof fn law_highlights_keep_text(row: Row)
    requires
        row.group_size >= 1,
        row.bytes_per_line >= 0,
    ensures
        text_of_pieces(row.line()) == row.text(),
{
    let hex = row.hex();
    let n = group_count(row.bytes.len() as int, row.group_size, row.bytes_per_line);
    lemma_filled_groups(row.bytes.len() as int, row.group_size, 0);
    assert(text_of_pieces(row.hex_pieces()) == hex) by {
        if row.highlights().len() > 0 {
            if n >= 1 {
                lemma_column(row.bytes, row.group_size, n);
            }
            lemma_row_is_ascii(row);
            lemma_spaces_are_spaced(hex, row.group_size, 0);
            lemma_groups_keep_text(hex, row.group_size, row.highlights(), 0, 0);
            assert(hex.skip(0) =~= hex);
        } else {
            lemma_text_of_one(plain(hex));
        }
    }
    let ascii = row.ascii();
    assert(text_of_pieces(row.ascii_pieces()) == ascii) by {
        match row.cursor_in_line() {
            Some(at) => {
                let a = plain(ascii.take(at));
                let b = Piece { text: ascii.subrange(at, at + 1), style: Style::Cursor };
                let c = plain(ascii.skip(at + 1));
                lemma_text_of_two(a, b);
                lemma_text_of_one(c);
                lemma_text_of_both(seq![a, b], seq![c]);
                assert(seq![a, b, c] =~= seq![a, b] + seq![c]);
                assert(ascii.take(at) + ascii.subrange(at, at + 1) + ascii.skip(at + 1) =~= ascii);
            },
            None => {
                lemma_text_of_one(plain(ascii));
            },
        }
    }
    let head = seq![plain(row.address()), plain("  "@)];
    let gap = seq![plain("  "@)];
    let bar = seq![plain(" "@.push(row.bar))];
    lemma_text_of_two(plain(row.address()), plain("  "@));
    lemma_text_of_one(plain("  "@));
    lemma_text_of_one(plain(" "@.push(row.bar)));
    lemma_text_of_both(head, row.hex_pieces());
    lemma_text_of_both(head + row.hex_pieces(), gap);
    lemma_text_of_both(head + row.hex_pieces() + gap, row.ascii_pieces());
    lemma_text_of_both(head + row.hex_pieces() + gap + row.ascii_pieces(), bar);
}

/// A full line of whole groups says the same wherever the cursor and the
/// matches are: the address, every byte in hex with a space between groups,
/// every byte as text without padding, and the scrollbar.
pub proof fn law_full_line_text(row: Row)
    requires
        row.group_size >= 1,
        row.bytes_per_line % row.group_size == 0,
        row.bytes.len() == row.bytes_per_line,
    ensures
        text_of_pieces(row.line()) == row.address() + "  "@ + hex_column(
            row.bytes,
            row.group_size,
            row.bytes.len() as int / row.group_size,
        ) + "  "@ + Seq::new(row.bytes.len(), |i: int| ascii_char(row.bytes[i])) + " "@.push(
            row.bar,
        ),
{
    let len = row.bytes.len() as int;
    let g = row.group_size;
    law_highlights_keep_text(row);
    vstd::arithmetic::div_mod::lemma_fundamental_div_mod(len, g);
    vstd::arithmetic::div_mod::lemma_fundamental_div_mod_converse(
        len + g - 1,
        g,
        len / g,
        g - 1,
    );
    assert(row.ascii() =~= Seq::new(row.bytes.len(), |i: int| ascii_char(row.bytes[i])));
}

/// A line whose address and bytes fit into their columns takes no more columns
/// than those of its groups.
pub proof fn law_line_width(row: Row, groups: int)
    requires
        row.group_size >= 1,
        groups >= 1,
        row.bytes_per_line == groups * row.group_size,
        row.bytes.len() <= row.bytes_per_line,
        text::hexadecimal(row.offset as nat).len() <= row.address_width,
    ensures
        text_of_pieces(row.line()).len() <= row.address_width + 5 + groups * (3 * row.group_size
            + 1),
{
    let g = row.group_size;
    law_highlights_keep_text(row);
    lemma_filled_groups(row.bytes.len() as int, g, groups);
    vstd::arithmetic::div_mod::lemma_div_multiples_vanish(groups, g);
    assert(groups * g == g * groups) by (nonlinear_arith);
    lemma_column(row.bytes, g, groups);
    assert(groups * (2 * g + 1) + groups * g == groups * (3 * g + 1)) by (nonlinear_arith);
    reveal_strlit("  ");
    reveal_strlit(" ");
}

/// The text column shows one character per byte, at its right end: the byte
/// itself where it is printable ASCII, a dot otherwise, and blanks before them.
pub proof fn law_text_column(row: Row, i: int)
    ensures
        ({
            let column = row.ascii();
            let n = row.bytes.len();
            &&& column.len() == viewer::larger(n as int, row.bytes_per_line)
            &&& 0 <= i < n ==> {
                let b = row.bytes[i];
                &&& b >= 0x20 && b <= 0x7e ==> column[column.len() - n + i] as int == b
                &&& b < 0x20 || b > 0x7e ==> column[column.len() - n + i] == '.'
            }
            &&& 0 <= i < column.len() - n ==> column[i] == ' '
        }),
{
}

/// The digits of byte `i` stand at their place in the hex column: behind two
/// characters for each byte and a space for each group before it. The column is
/// as long as its groups and the spaces between them; the group that the bytes
/// do not fill is shorter by what it lacks. All that is no digit is a space.
pub proof fn law_hex_column(row: Row, i: int)
    requires
        row.group_size >= 1,
        row.bytes_per_line >= row.group_size || row.bytes.len() > 0,
        row.bytes_per_line >= 0,
    ensures
        ({
            let hex = row.hex();
            let g = row.group_size;
            let len = row.bytes.len() as int;
            let filled = if len % g == 0 {
                len / g
            } else {
                len / g + 1
            };
            let groups = if filled >= row.bytes_per_line / g {
                filled
            } else {
                row.bytes_per_line / g
            };
            let missing = if len % g == 0 {
                0
            } else {
                g - len % g
            };
            &&& hex.len() == groups * (2 * g + 1) - 1 - 2 * missing
            &&& 0 <= i < len ==> {
                &&& 2 * i + i / g + 1 < hex.len()
                &&& hex[2 * i + i / g] == "0123456789ABCDEF"@[row.bytes[i] as int / 16]
                &&& hex[2 * i + i / g + 1] == "0123456789ABCDEF"@[row.bytes[i] as int % 16]
            }
            &&& 0 <= i < hex.len() ==> hex[i] == ' ' || '0' <= hex[i] <= '9' || 'A' <= hex[i]
                <= 'F'
        }),
{
    let g = row.group_size;
    let len = row.bytes.len() as int;
    let n = group_count(len, g, row.bytes_per_line);
    vstd::arithmetic::div_mod::lemma_fundamental_div_mod(len, g);
    let q = len / g;
    let r = len % g;
    assert(q >= 0) by (nonlinear_arith)
        requires
            len == g * q + r,
            len >= 0,
            0 <= r < g,
    ;
    if r == 0 {
        assert(len + g - 1 == q * g + (g - 1)) by (nonlinear_arith)
            requires
                len == g * q + r,
                r == 0,
        ;
        vstd::arithmetic::div_mod::lemma_fundamental_div_mod_converse(len + g - 1, g, q, g - 1);
    } else {
        assert(len + g - 1 == (q + 1) * g + (r - 1)) by (nonlinear_arith)
            requires
                len == g * q + r,
        ;
        vstd::arithmetic::div_mod::lemma_fundamental_div_mod_converse(
            len + g - 1,
            g,
            q + 1,
            r - 1,
        );
    }
    vstd::arithmetic::div_mod::lemma_fundamental_div_mod(row.bytes_per_line, g);
    let room = row.bytes_per_line / g;
    if row.bytes_per_line >= g {
        assert(room >= 1) by (nonlinear_arith)
            requires
                row.bytes_per_line == g * room + row.bytes_per_line % g,
                row.bytes_per_line % g < g,
                row.bytes_per_line >= g,
        ;
    } else if r == 0 {
        assert(q >= 1) by (nonlinear_arith)
            requires
                len == g * q + r,
                r == 0,
                len > 0,
                g >= 1,
        ;
    }
    assert(n >= 1);
    assert(n * g >= len && (r != 0 ==> n * g > len)) by (nonlinear_arith)
        requires
            len == g * q + r,
            r < g,
            g >= 1,
            r == 0 ==> n >= q,
            r != 0 ==> n >= q + 1,
    ;
    lemma_column_length(row.bytes, g, n);
    if 0 <= i < len {
        lemma_column_digits(row.bytes, g, n, i);
        lemma_upper_digit((row.bytes[i] / 16) as nat);
        lemma_upper_digit((row.bytes[i] % 16) as nat);
    }
    lemma_column_characters(row.bytes, g, n);
}

proof fn lemma_upper_digit(d: nat)
    requires
        d < 16,
    ensures
        text::digit_char(d) == "0123456789ABCDEF"@[d as int],
{
    reveal_strlit("0123456789ABCDEF");
}

proof fn lemma_hex_of_digits(bytes: Seq<u8>, i: int)
    requires
        0 <= i < bytes.len(),
    ensures
        hex_of(bytes).len() == 2 * bytes.len(),
        hex_of(bytes)[2 * i] == text::digit_char((bytes[i] / 16) as nat),
        hex_of(bytes)[2 * i + 1] == text::digit_char((bytes[i] % 16) as nat),
    decreases bytes.len(),
{
    lemma_hex_of_len(bytes);
    lemma_hex_of_len(bytes.drop_last());
    if i < bytes.len() - 1 {
        lemma_hex_of_digits(bytes.drop_last(), i);
    }
}

proof fn lemma_column_length(bytes: Seq<u8>, g: int, n: int)
    requires
        g >= 1,
        n >= 1,
    ensures
        hex_column(bytes, g, n).len() == n * (2 * g + 1) - 1 - (if n * g > bytes.len()
            && bytes.len() as int % g != 0 {
            2 * (g - bytes.len() as int % g)
        } else {
            0
        }),
    decreases n,
{
    let len = bytes.len() as int;
    let k = n - 1;
    assert(n * (2 * g + 1) == k * (2 * g + 1) + 2 * g + 1) by (nonlinear_arith)
        requires
            k == n - 1,
    ;
    assert(n * g == k * g + g) by (nonlinear_arith)
        requires
            k == n - 1,
    ;
    assert(k * g >= 0 && (k == 0 ==> k * g == 0 && k * (2 * g + 1) == 0)) by (nonlinear_arith)
        requires
            k >= 0,
            g >= 1,
    ;
    if k * g < len {
        lemma_hex_of_len(bytes.subrange(k * g, viewer::smaller(k * g + g, len)));
        if n * g > len {
            vstd::arithmetic::div_mod::lemma_fundamental_div_mod_converse(len, g, k, len - k * g);
        }
    } else if k * g == len {
        vstd::arithmetic::div_mod::lemma_fundamental_div_mod_converse(len, g, k, 0);
    }
    if n > 1 {
        lemma_column_length(bytes, g, k);
    }
}

proof fn lemma_column_digits(bytes: Seq<u8>, g: int, n: int, i: int)
    requires
        g >= 1,
        n >= 1,
        0 <= i < bytes.len(),
        i < n * g,
    ensures
        ({
            let hex = hex_column(bytes, g, n);
            let p = 2 * i + i / g;
            &&& p + 1 < hex.len()
            &&& hex[p] == text::digit_char((bytes[i] / 16) as nat)
            &&& hex[p + 1] == text::digit_char((bytes[i] % 16) as nat)
        }),
    decreases n,
{
    let len = bytes.len() as int;
    let k = n - 1;
    let hex = hex_column(bytes, g, n);
    assert(n * g == k * g + g) by (nonlinear_arith)
        requires
            k == n - 1,
    ;
    assert(k * g >= 0) by (nonlinear_arith)
        requires
            k >= 0,
            g >= 1,
    ;
    if i < k * g {
        assert(k >= 1) by (nonlinear_arith)
            requires
                k * g > 0,
                k >= 0,
                g >= 1,
        ;
        lemma_column_digits(bytes, g, k, i);
    } else {
        let r = i - k * g;
        let part = bytes.subrange(k * g, viewer::smaller(k * g + g, len));
        vstd::arithmetic::div_mod::lemma_fundamental_div_mod_converse(i, g, k, r);
        lemma_hex_of_digits(part, r);
        assert(part[r] == bytes[i]);
        assert(k * (2 * g + 1) == 2 * (k * g) + k) by (nonlinear_arith);
        if k >= 1 {
            lemma_column(bytes, g, k);
        }
    }
}

proof fn lemma_column_characters(bytes: Seq<u8>, g: int, n: int)
    ensures
        forall|i: int|
            0 <= i < hex_column(bytes, g, n).len() ==> is_dump_char(
                #[trigger] hex_column(bytes, g, n)[i],
            ),
    decreases n,
{
    if n >= 1 {
        let k = n - 1;
        let first = hex_column(bytes, g, k);
        let last = group_text(bytes, g, k);
        let hex = hex_column(bytes, g, n);
        lemma_column_characters(bytes, g, k);
        lemma_hex_characters(
            bytes.subrange(k * g, viewer::smaller(k * g + g, bytes.len() as int)),
        );
        assert(forall|i: int| 0 <= i < last.len() ==> is_dump_char(#[trigger] last[i]));
        assert forall|i: int| 0 <= i < hex.len() implies is_dump_char(#[trigger] hex[i]) by {
            if n == 1 {
                assert(hex[i] == last[i]);
            } else if i < first.len() {
                assert(hex[i] == first[i]);
            } else if i > first.len() {
                assert(hex[i] == last[i - first.len() - 1]);
            }
        }
    }
}

proof fn lemma_hex_characters(bytes: Seq<u8>)
    ensures
        forall|i: int|
            0 <= i < hex_of(bytes).len() ==> is_dump_char(#[trigger] hex_of(bytes)[i]) && hex_of(
                bytes,
            )[i] != ' ',
    decreases bytes.len(),
{
    if bytes.len() > 0 {
        let first = hex_of(bytes.drop_last());
        let last = text::byte_hex(bytes.last());
        let hex = hex_of(bytes);
        lemma_hex_characters(bytes.drop_last());
        assert(is_dump_char(last[0]) && last[0] != ' ');
        assert(is_dump_char(last[1]) && last[1] != ' ');
        assert forall|i: int| 0 <= i < hex.len() implies is_dump_char(#[trigger] hex[i]) && hex[i]
            != ' ' by {
            if i < first.len() {
                assert(hex[i] == first[i]);
            } else {
                assert(hex[i] == last[i - first.len()]);
            }
        }
    }
}

spec fn is_dump_char(c: char) -> bool {
    c == ' ' || '0' <= c <= '9' || 'A' <= c <= 'F'
}

/// The hex column can be read back: as a search pattern it stands for exactly
/// the bytes of the line. So different bytes are shown differently.
pub proof fn law_hex_column_is_read_back(row: Row)
    requires
        row.group_size >= 1,
        row.bytes.len() > 0,
        row.bytes_per_line >= 0,
    ensures
        pattern::parse_pattern(row.hex()) == Ok::<pattern::Pattern, Seq<char>>(
            pattern::Pattern::Exact(row.bytes),
        ),
{
    let g = row.group_size;
    let len = row.bytes.len() as int;
    let n = group_count(len, g, row.bytes_per_line);
    lemma_filled_groups(len, g, 0);
    lemma_filled_groups(len, g, n);
    lemma_column_packed(row.bytes, g, n);
    assert(row.bytes.take(len) =~= row.bytes);
    lemma_hex_of_is_hex(row.bytes);
    pattern::law_hex_is_read_back(row.hex(), row.bytes);
}

/// Without its spaces the column is the digits of the bytes in its groups.
proof fn lemma_column_packed(bytes: Seq<u8>, g: int, n: int)
    requires
        g >= 1,
        n >= 0,
    ensures
        pattern::without_whitespace(hex_column(bytes, g, n)) == hex_of(
            bytes.take(viewer::smaller(n * g, bytes.len() as int)),
        ),
    decreases n,
{
    let len = bytes.len() as int;
    if n == 0 {
        lemma_blanks_packed(0);
        assert(text::repeated(' ', 0) =~= Seq::<char>::empty());
        assert(0 * g == 0) by (nonlinear_arith);
        assert(bytes.take(0) =~= Seq::<u8>::empty());
    } else {
        let k = n - 1;
        let first = hex_column(bytes, g, k);
        let last = group_text(bytes, g, k);
        let done = viewer::smaller(k * g, len);
        let part = bytes.subrange(done, viewer::smaller(n * g, len));
        lemma_column_packed(bytes, g, k);
        assert(n * g == k * g + g && k * g >= 0 && (k == 0 ==> k * g == 0)) by (nonlinear_arith)
            requires
                k == n - 1,
                k >= 0,
                g >= 1,
        ;
        if k * g < len {
            lemma_hex_packed(part);
        } else {
            lemma_blanks_packed(2 * g);
            assert(part =~= Seq::<u8>::empty());
        }
        assert(pattern::without_whitespace(last) == hex_of(part));
        if n == 1 {
            assert(bytes.take(viewer::smaller(n * g, len)) =~= part);
        } else {
            lemma_space_packed(first);
            lemma_both_packed(first.push(' '), last);
            lemma_hex_of_both(bytes.take(done), part);
            assert(bytes.take(done) + part =~= bytes.take(viewer::smaller(n * g, len)));
        }
    }
}

proof fn lemma_both_packed(a: Seq<char>, b: Seq<char>)
    ensures
        pattern::without_whitespace(a + b) == pattern::without_whitespace(a)
            + pattern::without_whitespace(b),
{
    let keep = |c: char| !pattern::is_whitespace(c);
    Seq::filter_distributes_over_add(a, b, keep);
}

proof fn lemma_space_packed(a: Seq<char>)
    ensures
        pattern::without_whitespace(a.push(' ')) == pattern::without_whitespace(a),
{
    reveal(Seq::filter);
    assert(a.push(' ').drop_last() =~= a);
}

proof fn lemma_char_packed(a: Seq<char>, c: char)
    requires
        !pattern::is_whitespace(c),
    ensures
        pattern::without_whitespace(a.push(c)) == pattern::without_whitespace(a).push(c),
{
    reveal(Seq::filter);
    assert(a.push(c).drop_last() =~= a);
}

proof fn lemma_hex_of_both(a: Seq<u8>, b: Seq<u8>)
    ensures
        hex_of(a + b) == hex_of(a) + hex_of(b),
    decreases b.len(),
{
    if b.len() == 0 {
        assert(a + b =~= a);
        assert(hex_of(a) + hex_of(b) =~= hex_of(a));
    } else {
        lemma_hex_of_both(a, b.drop_last());
        assert((a + b).drop_last() =~= a + b.drop_last());
        assert(hex_of(a + b) =~= hex_of(a) + hex_of(b));
    }
}

proof fn lemma_hex_packed(bytes: Seq<u8>)
    ensures
        pattern::without_whitespace(hex_of(bytes)) == hex_of(bytes),
{
    let hex = hex_of(bytes);
    lemma_hex_characters(bytes);
    assert forall|i: int| 0 <= i < hex.len() implies !pattern::is_whitespace(
        #[trigger] hex[i],
    ) by {
        assert(is_dump_char(hex[i]) && hex[i] != ' ');
    }
    lemma_packed_stays(hex);
}

proof fn lemma_packed_stays(s: Seq<char>)
    requires
        forall|i: int| 0 <= i < s.len() ==> !pattern::is_whitespace(#[trigger] s[i]),
    ensures
        pattern::without_whitespace(s) == s,
    decreases s.len(),
{
    if s.len() == 0 {
        lemma_blanks_packed(0);
        assert(text::repeated(' ', 0) =~= s);
    } else {
        let first = s.drop_last();
        assert forall|i: int| 0 <= i < first.len() implies !pattern::is_whitespace(
            #[trigger] first[i],
        ) by {
            assert(first[i] == s[i]);
        }
        lemma_packed_stays(first);
        lemma_char_packed(first, s.last());
        assert(first.push(s.last()) =~= s);
    }
}

proof fn lemma_blanks_packed(n: int)
    ensures
        pattern::without_whitespace(text::repeated(' ', n)) == Seq::<char>::empty(),
    decreases n,
{
    reveal(Seq::filter);
    if n > 0 {
        lemma_blanks_packed(n - 1);
        assert(text::repeated(' ', n).drop_last() =~= text::repeated(' ', n - 1));
        assert(text::repeated(' ', n).last() == ' ');
    }
}

proof fn lemma_hex_of_is_hex(bytes: Seq<u8>)
    ensures
        pattern::is_hex_of(hex_of(bytes), bytes),
{
    lemma_hex_of_len(bytes);
    assert forall|i: int| 0 <= i < bytes.len() implies {
        &&& pattern::hex_value(hex_of(bytes)[2 * i]) == Some((#[trigger] bytes[i] / 16) as u8)
        &&& pattern::hex_value(hex_of(bytes)[2 * i + 1]) == Some((bytes[i] % 16) as u8)
    } by {
        lemma_hex_of_digits(bytes, i);
    }
}

/// Where nothing falls into the line, nothing in it is highlighted.
pub proof fn law_line_without_highlights(row: Row, i: int)
    requires
        row.cursor < row.offset || row.cursor >= row.offset + row.bytes_per_line,
        forall|j: int|
            0 <= j < row.matches.len() ==> (#[trigger] row.matches[j] < row.offset
                || row.matches[j] >= row.offset + row.bytes_per_line),
        0 <= i < row.line().len(),
    ensures
        row.line()[i].style == Style::Plain,
        row.line().len() == 6,
{
    lemma_no_match(row.matches, row.offset, row.bytes_per_line);
}

proof fn lemma_no_match(matches: Seq<u128>, offset: int, per_line: int)
    requires
        forall|j: int|
            0 <= j < matches.len() ==> (#[trigger] matches[j] < offset || matches[j] >= offset
                + per_line),
    ensures
        first_match_in_line(matches, offset, per_line) is None,
    decreases matches.len(),
{
    if matches.len() > 0 {
        assert(matches[0] < offset || matches[0] >= offset + per_line);
        let rest = matches.drop_first();
        assert forall|j: int| 0 <= j < rest.len() implies (#[trigger] rest[j] < offset || rest[j]
            >= offset + per_line) by {
            assert(rest[j] == matches[j + 1]);
        }
        lemma_no_match(rest, offset, per_line);
    }
}

proof fn lemma_first_match(matches: Seq<u128>, offset: int, per_line: int, j: int)
    requires
        0 <= j < matches.len(),
        offset <= matches[j] < offset + per_line,
        forall|i: int|
            0 <= i < j ==> (#[trigger] matches[i] < offset || matches[i] >= offset + per_line),
    ensures
        first_match_in_line(matches, offset, per_line) == Some(matches[j] - offset),
    decreases matches.len(),
{
    if j > 0 {
        assert(matches[0] < offset || matches[0] >= offset + per_line);
        let rest = matches.drop_first();
        assert forall|i: int| 0 <= i < j - 1 implies (#[trigger] rest[i] < offset || rest[i]
            >= offset + per_line) by {
            assert(rest[i] == matches[i + 1]);
        }
        lemma_first_match(rest, offset, per_line, j - 1);
    }
}

/// The text column highlights the character of the byte that the cursor stands
/// on, and no other.
pub proof fn law_cursor_in_text_column(row: Row)
    requires
        row.offset <= row.cursor < row.offset + row.bytes_per_line,
    ensures
        ({
            let line = row.line();
            let n = line.len() as int;
            let at = row.cursor - row.offset;
            &&& n >= 5
            &&& line[n - 4].text == row.ascii().take(at)
            &&& line[n - 4].style == Style::Plain
            &&& line[n - 3].text == seq![row.ascii()[at]]
            &&& line[n - 3].style == Style::Cursor
            &&& line[n - 2].text == row.ascii().skip(at + 1)
            &&& line[n - 2].style == Style::Plain
        }),
{
    let at = row.cursor - row.offset;
    let ascii = row.ascii();
    law_text_column(row, 0);
    let head = seq![plain(row.address()), plain("  "@)] + row.hex_pieces() + seq![plain("  "@)];
    lemma_end_of_line(head, row.ascii_pieces(), plain(" "@.push(row.bar)));
    assert(row.ascii_pieces()[1].text == ascii.subrange(at, at + 1));
    assert(ascii.subrange(at, at + 1) =~= seq![ascii[at]]);
}

/// The pieces at the end of a line, counted from its end.
proof fn lemma_end_of_line(head: Seq<Piece>, tail: Seq<Piece>, bar: Piece)
    ensures
        ({
            let line = head + tail + seq![bar];
            let n = line.len() as int;
            &&& n == head.len() + tail.len() + 1
            &&& line[n - 1] == bar
            &&& tail.len() >= 1 ==> line[n - 2] == tail[tail.len() - 1]
            &&& tail.len() >= 2 ==> line[n - 3] == tail[tail.len() - 2]
            &&& tail.len() >= 3 ==> line[n - 4] == tail[tail.len() - 3]
            &&& head.len() >= 1 ==> line[n - 2 - tail.len()] == head[head.len() - 1]
            &&& forall|i: int| 0 <= i < head.len() ==> #[trigger] line[i] == head[i]
        }),
{
}

/// Spaced groups come apart as they stand: piece `2 * j` is group `j` with the
/// style of the first highlight for it, and the pieces between are spaces.
pub proof fn law_groups_in_order(
    hex: Seq<char>,
    g: int,
    highlights: Seq<(usize, Style)>,
    j: int,
)
    requires
        g >= 1,
        0 <= j,
        j * (2 * g + 1) < hex.len(),
        pattern::is_ascii_text(hex),
        forall|k: int|
            k >= 0 && #[trigger] (k * (2 * g + 1)) + 2 * g < hex.len() ==> hex[k * (2 * g + 1) + 2
                * g] == ' ',
    ensures
        ({
            let spans = highlighted_groups(hex, g, highlights, 0, 0);
            let from = j * (2 * g + 1);
            &&& 2 * j < spans.len()
            &&& spans[2 * j].text == hex.subrange(
                from,
                if from + 2 * g <= hex.len() {
                    from + 2 * g
                } else {
                    hex.len() as int
                },
            )
            &&& (forall|i: int|
                0 <= i < highlights.len() ==> #[trigger] highlights[i].0 != j) ==> spans[2
                * j].style == Style::Plain
            &&& forall|i: int|
                #![trigger highlights[i]]
                0 <= i < highlights.len() && highlights[i].0 == j && (forall|h: int|
                    0 <= h < i ==> #[trigger] highlights[h].0 != j) ==> spans[2 * j].style
                    == highlights[i].1
            &&& j > 0 ==> spans[2 * j - 1] == plain(" "@)
        }),
{
    assert forall|k: int| k >= 0 && #[trigger] space_position(k, g) < hex.len() implies hex[
        space_position(k, g)
    ] == ' ' by {
        let p = k * (2 * g + 1);
        assert(hex[p + 2 * g] == ' ');
    }
    assert(0 * (2 * g + 1) == 0) by (nonlinear_arith);
    lemma_groups_from(hex, g, highlights, 0, j);
    if forall|i: int| 0 <= i < highlights.len() ==> #[trigger] highlights[i].0 != j {
        lemma_style_of_none(highlights, j);
    }
    assert forall|i: int|
        #![trigger highlights[i]]
        0 <= i < highlights.len() && highlights[i].0 == j && (forall|h: int|
            0 <= h < i ==> #[trigger] highlights[h].0 != j) implies group_style(highlights, j)
        == highlights[i].1 by {
        lemma_style_of_first(highlights, j, i);
    }
}

proof fn lemma_style_of_none(highlights: Seq<(usize, Style)>, j: int)
    requires
        forall|i: int| 0 <= i < highlights.len() ==> #[trigger] highlights[i].0 != j,
    ensures
        group_style(highlights, j) == Style::Plain,
    decreases highlights.len(),
{
    if highlights.len() > 0 {
        assert(highlights[0].0 != j);
        let rest = highlights.drop_first();
        assert forall|i: int| 0 <= i < rest.len() implies #[trigger] rest[i].0 != j by {
            assert(rest[i] == highlights[i + 1]);
        }
        lemma_style_of_none(rest, j);
    }
}

proof fn lemma_style_of_first(highlights: Seq<(usize, Style)>, j: int, i: int)
    requires
        0 <= i < highlights.len(),
        highlights[i].0 == j,
        forall|h: int| 0 <= h < i ==> #[trigger] highlights[h].0 != j,
    ensures
        group_style(highlights, j) == highlights[i].1,
    decreases highlights.len(),
{
    if i > 0 {
        assert(highlights[0].0 != j);
        let rest = highlights.drop_first();
        assert forall|h: int| 0 <= h < i - 1 implies #[trigger] rest[h].0 != j by {
            assert(rest[h] == highlights[h + 1]);
        }
        lemma_style_of_first(rest, j, i - 1);
    }
}

/// Group `k + j` is piece `2 * j` of the groups from group `k` on.
proof fn lemma_groups_from(
    hex: Seq<char>,
    g: int,
    highlights: Seq<(usize, Style)>,
    k: int,
    j: int,
)
    requires
        g >= 1,
        0 <= j,
        0 <= k,
        (k + j) * (2 * g + 1) < hex.len(),
        pattern::is_ascii_text(hex),
        has_spaces(hex, g),
    ensures
        ({
            let spans = highlighted_groups(hex, g, highlights, k * (2 * g + 1), k);
            let from = (k + j) * (2 * g + 1);
            &&& 2 * j < spans.len()
            &&& spans[2 * j].text == hex.subrange(
                from,
                viewer::smaller(from + 2 * g, hex.len() as int),
            )
            &&& spans[2 * j].style == group_style(highlights, k + j)
            &&& j > 0 ==> spans[2 * j - 1] == plain(" "@)
        }),
    decreases j,
{
    let m = 2 * g + 1;
    let start = k * m;
    assert(0 <= k * m <= (k + j) * m) by (nonlinear_arith)
        requires
            k >= 0,
            j >= 0,
            m >= 1,
    ;
    lemma_ascii_bytes(hex, start, 2 * g);
    if j > 0 {
        assert((k + 1) * m == k * m + m && (k + 1) * m <= (k + j) * m) by (nonlinear_arith)
            requires
                j >= 1,
                m >= 1,
        ;
        assert(space_position(k, g) == start + 2 * g);
        assert(hex[start + 2 * g] == ' ');
        lemma_groups_from(hex, g, highlights, k + 1, j - 1);
        let rest = highlighted_groups(hex, g, highlights, start + m, k + 1);
        let spans = highlighted_groups(hex, g, highlights, start, k);
        assert(after_space(hex, start + 2 * g) == start + m);
        assert(spans[2 * j] == rest[2 * (j - 1)]);
        if j > 1 {
            assert(spans[2 * j - 1] == rest[2 * (j - 1) - 1]);
        }
    }
}

/// Where the cursor or a match falls into the line, the hex column is shown
/// group by group. The group of the cursor is highlighted as such, the group in
/// which the first match of the line starts as a match, unless the cursor stands
/// in it, and no other group. `found` is the number of that match.
pub proof fn law_highlighted_line(row: Row, found: Option<int>, j: int)
    requires
        row.group_size >= 1,
        0 <= row.bytes_per_line <= usize::MAX,
        found matches Some(m) ==> {
            &&& 0 <= m < row.matches.len()
            &&& row.offset <= row.matches[m] < row.offset + row.bytes_per_line
        },
        forall|i: int|
            0 <= i < row.matches.len() && (found matches Some(m) ==> i < m) ==> (
            #[trigger] row.matches[i] < row.offset || row.matches[i] >= row.offset
                + row.bytes_per_line),
        found is Some || row.offset <= row.cursor < row.offset + row.bytes_per_line,
        0 <= j,
        j * (2 * row.group_size + 1) < row.hex().len(),
    ensures
        ({
            let g = row.group_size;
            let piece = row.line()[2 + 2 * j];
            let from = j * (2 * g + 1);
            let has_cursor = row.offset <= row.cursor < row.offset + row.bytes_per_line && (
            row.cursor - row.offset) / g == j;
            let has_match = found is Some && (row.matches[found->0] - row.offset) / g == j;
            &&& 2 + 2 * j < row.line().len()
            &&& piece.text == row.hex().subrange(
                from,
                if from + 2 * g <= row.hex().len() {
                    from + 2 * g
                } else {
                    row.hex().len() as int
                },
            )
            &&& has_cursor ==> piece.style == Style::Cursor
            &&& !has_cursor && has_match ==> piece.style == Style::Match
            &&& !has_cursor && !has_match ==> piece.style == Style::Plain
        }),
{
    let g = row.group_size;
    let hex = row.hex();
    let hl = row.highlights();
    match found {
        Some(m) => {
            lemma_first_match(row.matches, row.offset, row.bytes_per_line, m);
            lemma_quotient_fits(row.matches[m] - row.offset, g);
        },
        None => {
            lemma_no_match(row.matches, row.offset, row.bytes_per_line);
        },
    }
    if row.offset <= row.cursor < row.offset + row.bytes_per_line {
        lemma_quotient_fits(row.cursor - row.offset, g);
    }
    lemma_row_is_ascii(row);
    let n = group_count(row.bytes.len() as int, g, row.bytes_per_line);
    lemma_filled_groups(row.bytes.len() as int, g, 0);
    if n >= 1 {
        lemma_column(row.bytes, g, n);
    }
    assert forall|k: int|
        k >= 0 && #[trigger] (k * (2 * g + 1)) + 2 * g < hex.len() implies hex[k * (2 * g + 1) + 2
        * g] == ' ' by {
        assert(space_position(k, g) == k * (2 * g + 1) + 2 * g);
    }
    law_groups_in_order(hex, g, hl, j);
    let spans = highlighted_groups(hex, g, hl, 0, 0);
    assert(row.line()[2 + 2 * j] == spans[2 * j]);
    if hl.len() > 0 && hl[0].0 == j {
        assert(spans[2 * j].style == hl[0].1);
    } else if hl.len() > 1 && hl[1].0 == j {
        assert(forall|h: int| 0 <= h < 1 ==> #[trigger] hl[h].0 != j);
        assert(spans[2 * j].style == hl[1].1);
    } else {
        assert(forall|i: int| 0 <= i < hl.len() ==> #[trigger] hl[i].0 != j);
    }
}

proof fn lemma_quotient_fits(a: int, g: int)
    requires
        0 <= a <= usize::MAX,
        g >= 1,
    ensures
        0 <= a / g <= usize::MAX,
{
    assert(0 <= a / g <= a) by (nonlinear_arith)
        requires
            0 <= a,
            g >= 1,
    ;
}

/// What stands around the columns is never highlighted, and the text column is
/// one piece where the cursor is elsewhere.
pub proof fn law_rest_of_the_line(row: Row)
    ensures
        ({
            let line = row.line();
            let n = line.len() as int;
            &&& line[0] == plain(row.address())
            &&& line[1] == plain("  "@)
            &&& line[n - 1] == plain(" "@ + seq![row.bar])
            &&& row.cursor < row.offset || row.cursor >= row.offset + row.bytes_per_line ==> {
                &&& line[n - 2] == plain(row.ascii())
                &&& line[n - 3] == plain("  "@)
            }
            &&& row.offset <= row.cursor < row.offset + row.bytes_per_line ==> line[n - 5]
                == plain("  "@)
        }),
{
    assert(" "@.push(row.bar) =~= " "@ + seq![row.bar]);
    let head = seq![plain(row.address()), plain("  "@)] + row.hex_pieces() + seq![plain("  "@)];
    assert(head[0] == plain(row.address()) && head[1] == plain("  "@));
    assert(head[head.len() - 1] == plain("  "@));
    lemma_end_of_line(head, row.ascii_pieces(), plain(" "@.push(row.bar)));
    assert(row.line()[0] == head[0] && row.line()[1] == head[1]);
}

/// A single byte is highlighted at its place: in ASCII text of spaced groups the
/// two digits of byte `b` become a piece of their own, every other piece is
/// plain, and the text stays as it is. Returns the number of that piece.
pub proof fn law_highlighted_byte(hex: Seq<char>, b: int, g: int) -> (j: int)
    requires
        g >= 1,
        0 <= b,
        2 * b + b / g + 2 <= hex.len(),
        pattern::is_ascii_text(hex),
        forall|k: int|
            k >= 0 && #[trigger] (k * (2 * g + 1)) + 2 * g < hex.len() ==> hex[k * (2 * g + 1) + 2
                * g] == ' ',
    ensures
        ({
            let spans = highlighted_byte(hex, b, g, 0, 0);
            let p = 2 * b + b / g;
            &&& text_of_pieces(spans) == hex
            &&& 0 <= j < spans.len()
            &&& spans[j].text == hex.subrange(p, p + 2)
            &&& spans[j].style == Style::Cursor
            &&& text_of_pieces(spans.take(j)) == hex.take(p)
            &&& forall|i: int|
                0 <= i < spans.len() && i != j ==> (#[trigger] spans[i]).style == Style::Plain
        }),
{
    assert forall|k: int| k >= 0 && #[trigger] space_position(k, g) < hex.len() implies hex[
        space_position(k, g)
    ] == ' ' by {
        let p = k * (2 * g + 1);
        assert(hex[p + 2 * g] == ' ');
    }
    assert(0 * (2 * g + 1) == 0) by (nonlinear_arith);
    assert(b / g >= 0) by (nonlinear_arith)
        requires
            b >= 0,
            g >= 1,
    ;
    let j = lemma_byte_from(hex, b, g, 0);
    assert(hex.skip(0) =~= hex);
    assert(hex.subrange(0, 2 * b + b / g) =~= hex.take(2 * b + b / g));
    j
}

proof fn lemma_ascii_len(s: Seq<char>)
    requires
        pattern::is_ascii_text(s),
    ensures
        pattern::utf8_len(s) == s.len(),
    decreases s.len(),
{
    if s.len() > 0 {
        assert((s[s.len() - 1] as u32) < 128);
        let first = s.drop_last();
        assert forall|i: int| 0 <= i < first.len() implies (#[trigger] first[i] as u32) < 128 by {
            assert(first[i] == s[i]);
        }
        lemma_ascii_len(first);
    }
}

proof fn lemma_text_of_nonempty(text: Seq<char>)
    ensures
        text_of_pieces(nonempty(text)) == text,
        nonempty(text).len() <= 1,
        forall|i: int|
            0 <= i < nonempty(text).len() ==> (#[trigger] nonempty(text)[i]).style
                == Style::Plain,
{
    if text.len() > 0 {
        lemma_text_of_one(plain(text));
    } else {
        assert(text =~= Seq::<char>::empty());
    }
}

/// A group of ASCII text with a byte highlighted; returns the number of its
/// piece.
proof fn lemma_group_with_byte(group: Seq<char>, at: int) -> (j: int)
    requires
        0 <= at,
        at + 2 <= group.len(),
        pattern::is_ascii_text(group),
    ensures
        ({
            let spans = group_with_byte(group, at);
            &&& text_of_pieces(spans) == group
            &&& 0 <= j < spans.len()
            &&& spans[j].text == group.subrange(at, at + 2)
            &&& spans[j].style == Style::Cursor
            &&& text_of_pieces(spans.take(j)) == group.take(at)
            &&& forall|i: int|
                0 <= i < spans.len() && i != j ==> (#[trigger] spans[i]).style == Style::Plain
        }),
{
    lemma_ascii_len(group);
    lemma_ascii_bytes(group, 0, at);
    lemma_ascii_bytes(group, at, 2);
    let a = nonempty(group.take(at));
    let mid = Piece { text: group.subrange(at, at + 2), style: Style::Cursor };
    let c = nonempty(group.skip(at + 2));
    let spans = group_with_byte(group, at);
    assert(spans == a + seq![mid] + c);
    lemma_text_of_nonempty(group.take(at));
    lemma_text_of_nonempty(group.skip(at + 2));
    lemma_text_of_one(mid);
    lemma_text_of_both(a, seq![mid]);
    lemma_text_of_both(a + seq![mid], c);
    assert(group.take(at) + group.subrange(at, at + 2) + group.skip(at + 2) =~= group);
    let j = a.len() as int;
    assert(spans.take(j) =~= a);
    assert forall|i: int| 0 <= i < spans.len() && i != j implies (#[trigger] spans[i]).style
        == Style::Plain by {
        if i < j {
            assert(spans[i] == a[i]);
        } else {
            assert(spans[i] == c[i - j - 1]);
        }
    }
    j
}

/// The groups from group `k` on, behind the byte: all of them plain.
proof fn lemma_plain_groups(hex: Seq<char>, b: int, g: int, k: int)
    requires
        g >= 1,
        0 <= k,
        b / g < k,
        k * (2 * g + 1) <= hex.len(),
        pattern::is_ascii_text(hex),
        has_spaces(hex, g),
    ensures
        ({
            let spans = highlighted_byte(hex, b, g, k * (2 * g + 1), k);
            &&& text_of_pieces(spans) == hex.skip(k * (2 * g + 1))
            &&& forall|i: int|
                0 <= i < spans.len() ==> (#[trigger] spans[i]).style == Style::Plain
        }),
    decreases hex.len() - k * (2 * g + 1),
{
    let m = 2 * g + 1;
    let start = k * m;
    let spans = highlighted_byte(hex, b, g, start, k);
    assert(start >= 0 && (k + 1) * m == start + m) by (nonlinear_arith)
        requires
            start == k * m,
            k >= 0,
            m >= 1,
    ;
    lemma_ascii_bytes(hex, start, 2 * g);
    if start >= hex.len() {
        assert(text_of_pieces(spans) =~= hex.skip(start));
    } else {
        let end = viewer::smaller(start + 2 * g, hex.len() as int);
        let here = plain(hex.subrange(start, end));
        if end < hex.len() {
            assert(space_position(k, g) == start + 2 * g);
            assert(hex[end] == ' ');
            lemma_plain_groups(hex, b, g, k + 1);
            let rest = highlighted_byte(hex, b, g, start + m, k + 1);
            let head = seq![here].push(plain(" "@));
            assert(spans == head + rest);
            assert(head =~= seq![here, plain(" "@)]);
            lemma_text_of_two(here, plain(" "@));
            lemma_text_of_both(head, rest);
            reveal_strlit(" ");
            assert(hex.skip(start) =~= here.text + " "@ + hex.skip(start + m));
            assert forall|i: int| 0 <= i < spans.len() implies (#[trigger] spans[i]).style
                == Style::Plain by {
                if i >= 2 {
                    assert(spans[i] == rest[i - 2]);
                }
            }
        } else {
            lemma_text_of_one(here);
            assert(spans == seq![here]);
            assert(hex.skip(start) =~= here.text);
        }
    }
}

/// The groups from group `k` on, up to the one with the byte and beyond.
proof fn lemma_byte_from(hex: Seq<char>, b: int, g: int, k: int) -> (j: int)
    requires
        g >= 1,
        0 <= b,
        0 <= k <= b / g,
        2 * b + b / g + 2 <= hex.len(),
        pattern::is_ascii_text(hex),
        has_spaces(hex, g),
    ensures
        ({
            let spans = highlighted_byte(hex, b, g, k * (2 * g + 1), k);
            let p = 2 * b + b / g;
            &&& k * (2 * g + 1) <= p
            &&& text_of_pieces(spans) == hex.skip(k * (2 * g + 1))
            &&& 0 <= j < spans.len()
            &&& spans[j].text == hex.subrange(p, p + 2)
            &&& spans[j].style == Style::Cursor
            &&& text_of_pieces(spans.take(j)) == hex.subrange(k * (2 * g + 1), p)
            &&& forall|i: int|
                0 <= i < spans.len() && i != j ==> (#[trigger] spans[i]).style == Style::Plain
        }),
    decreases b / g - k,
{
    let m = 2 * g + 1;
    let start = k * m;
    let q = b / g;
    let r = b % g;
    let p = 2 * b + q;
    let spans = highlighted_byte(hex, b, g, start, k);
    vstd::arithmetic::div_mod::lemma_fundamental_div_mod(b, g);
    assert(p == q * m + 2 * r) by (nonlinear_arith)
        requires
            p == 2 * b + q,
            b == g * q + r,
            m == 2 * g + 1,
    ;
    assert(start >= 0 && (k + 1) * m == start + m && start <= q * m) by (nonlinear_arith)
        requires
            start == k * m,
            0 <= k <= q,
            m >= 1,
    ;
    lemma_ascii_bytes(hex, start, 2 * g);
    let end = viewer::smaller(start + 2 * g, hex.len() as int);
    let here = hex.subrange(start, end);
    assert forall|i: int| 0 <= i < here.len() implies (#[trigger] here[i] as u32) < 128 by {
        assert(here[i] == hex[start + i]);
    }
    reveal_strlit(" ");
    let gap = seq![plain(" "@)];
    lemma_text_of_one(plain(" "@));
    if k == q {
        let j = lemma_group_with_byte(here, 2 * r);
        let group = group_with_byte(here, 2 * r);
        assert(here.subrange(2 * r, 2 * r + 2) =~= hex.subrange(p, p + 2));
        assert(here.take(2 * r) =~= hex.subrange(start, p));
        if end < hex.len() {
            assert(space_position(k, g) == start + 2 * g);
            assert(hex[end] == ' ');
            lemma_plain_groups(hex, b, g, k + 1);
            let rest = highlighted_byte(hex, b, g, start + m, k + 1);
            assert(spans == group.push(plain(" "@)) + rest);
            assert(group.push(plain(" "@)) =~= group + gap);
            lemma_text_of_both(group, gap);
            lemma_text_of_both(group + gap, rest);
            assert(hex.skip(start) =~= here + " "@ + hex.skip(start + m));
            assert(spans.take(j) =~= group.take(j));
            assert(spans[j] == group[j]);
            assert forall|i: int| 0 <= i < spans.len() && i != j implies (
            #[trigger] spans[i]).style == Style::Plain by {
                if i < group.len() {
                    assert(spans[i] == group[i]);
                } else if i > group.len() {
                    assert(spans[i] == rest[i - group.len() - 1]);
                }
            }
        } else {
            assert(spans == group);
            assert(hex.skip(start) =~= here);
        }
        j
    } else {
        assert(start + m <= q * m) by (nonlinear_arith)
            requires
                start == k * m,
                k + 1 <= q,
                m >= 1,
        ;
        assert(space_position(k, g) == start + 2 * g);
        assert(hex[end] == ' ');
        let inner = lemma_byte_from(hex, b, g, k + 1);
        let rest = highlighted_byte(hex, b, g, start + m, k + 1);
        let head = seq![plain(here)] + gap;
        assert(spans == seq![plain(here)].push(plain(" "@)) + rest);
        assert(seq![plain(here)].push(plain(" "@)) =~= head);
        lemma_text_of_one(plain(here));
        lemma_text_of_both(seq![plain(here)], gap);
        lemma_text_of_both(head, rest);
        lemma_text_of_both(head, rest.take(inner));
        let j = inner + 2;
        assert(spans.take(j) =~= head + rest.take(inner));
        assert(hex.skip(start) =~= here + " "@ + hex.skip(start + m));
        assert(hex.subrange(start, p) =~= here + " "@ + hex.subrange(start + m, p));
        assert(spans[j] == rest[inner]);
        assert forall|i: int| 0 <= i < spans.len() && i != j implies (#[trigger] spans[i]).style
            == Style::Plain by {
            if i >= 2 {
                assert(spans[i] == rest[i - 2]);
            }
        }
        j
    }
}

} // verus!
