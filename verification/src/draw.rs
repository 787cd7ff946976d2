//! What the terminal shows: the lines of the dump, the word at the cursor, the
//! status line and the information line.

use crate::line;
use crate::line::{format_line, push_span, Piece, Row, Span, Style};
use crate::search::ReadRequest;
use crate::text;
use crate::text::{push_decimal, push_digit, push_hexadecimal};
use crate::viewer;
use crate::viewer::{HexViewer, Phase, SearchState, State};
use vstd::prelude::*;
use vstd::string::*;

verus! {

impl State {
    /// The offset of the first visible byte.
    pub open spec fn view_start(self) -> int {
        viewer::smaller(self.scroll_line * self.bytes_per_line, u128::MAX as int)
    }

    /// The offset of row `r`.
    pub open spec fn row_offset(self, r: int) -> int {
        viewer::smaller(self.view_start() + r * self.bytes_per_line, u128::MAX as int)
    }

    /// The bytes of row `r`, out of those that were read from the first visible
    /// byte on.
    pub open spec fn row_bytes(self, r: int, file_bytes: Seq<u8>) -> Seq<u8> {
        let len = file_bytes.len() as int;
        if self.row_offset(r) > self.file_size {
            Seq::empty()
        } else {
            file_bytes.subrange(
                viewer::smaller(r * self.bytes_per_line, len),
                viewer::smaller(r * self.bytes_per_line + self.bytes_per_line, len),
            )
        }
    }

    /// What row `r` shows beside a scrollbar whose thumb covers `thumb_height`
    /// rows from `thumb_top` on.
    pub open spec fn row(
        self,
        r: int,
        thumb_top: int,
        thumb_height: int,
        file_bytes: Seq<u8>,
    ) -> Row {
        Row {
            bytes: self.row_bytes(r, file_bytes),
            offset: self.row_offset(r),
            address_width: self.address_width,
            group_size: self.grouping,
            bytes_per_line: self.bytes_per_line,
            cursor: self.cursor,
            bar: if thumb_top <= r < thumb_top + thumb_height {
                '█'
            } else {
                '│'
            },
            matches: self.search_matches,
        }
    }
}

/// The bytes that the visible rows show.
pub fn viewport(viewer: &HexViewer, vis_rows: usize) -> (r: ReadRequest)
    ensures
        r.offset == viewer@.view_start(),
        r.len == viewer::smaller(vis_rows * viewer@.bytes_per_line, usize::MAX as int),
{
    let offset: u128 = match viewer.scroll_line.checked_mul(viewer.bytes_per_line as u128) {
        Some(offset) => offset,
        None => u128::MAX,
    };
    let len: usize = match vis_rows.checked_mul(viewer.bytes_per_line) {
        Some(len) => len,
        None => usize::MAX,
    };
    ReadRequest { offset, len }
}

/// The visible lines. `file_bytes` are those that were read from the first
/// visible byte on; what could not be read is shown as empty.
pub fn render_hex(
    viewer: &HexViewer,
    vis_rows: usize,
    thumb_top: usize,
    thumb_height: usize,
    file_bytes: &[u8],
) -> (r: Vec<Vec<Span>>)
    requires
        vis_rows > 0 ==> viewer.grouping > 0,
    ensures
        r@.len() == vis_rows,
        forall|i: int|
            0 <= i < vis_rows ==> line::pieces((#[trigger] r@[i])@) == viewer@.row(
                i,
                thumb_top as int,
                thumb_height as int,
                file_bytes@,
            ).line(),
{
    let start: u128 = viewport(viewer, vis_rows).offset;
    let per_line: usize = viewer.bytes_per_line;
    let len: usize = file_bytes.len();
    let mut lines: Vec<Vec<Span>> = Vec::new();
    let mut row: usize = 0;
    while row < vis_rows
        invariant
            row <= vis_rows,
            vis_rows > 0 ==> viewer.grouping > 0,
            start == viewer@.view_start(),
            per_line == viewer@.bytes_per_line,
            len == file_bytes@.len(),
            lines@.len() == row,
            forall|i: int|
                0 <= i < row ==> line::pieces((#[trigger] lines@[i])@) == viewer@.row(
                    i,
                    thumb_top as int,
                    thumb_height as int,
                    file_bytes@,
                ).line(),
        decreases vis_rows - row,
    {
        proof {
            viewer::lemma_page_fits(row, per_line);
        }
        let skipped: u128 = row as u128 * per_line as u128;
        let offset: u128 = start.saturating_add(skipped);
        let bar = if row >= thumb_top && row - thumb_top < thumb_height {
            '█'
        } else {
            '│'
        };
        let from: usize = if offset > viewer.file_size || skipped >= len as u128 {
            len
        } else {
            skipped as usize
        };
        let to: usize = if len - from < per_line {
            len
        } else {
            from + per_line
        };
        assert(file_bytes@.subrange(from as int, to as int) =~= viewer@.row_bytes(
            row as int,
            file_bytes@,
        ));
        let line = format_line(
            &file_bytes[from..to],
            offset,
            viewer.address_width,
            viewer.grouping as usize,
            per_line,
            viewer.cursor,
            bar,
            viewer.search_matches.as_slice(),
        );
        lines.push(line);
        row = row + 1;
    }
    lines
}

/// Bytes as a number, the least significant first.
pub open spec fn little_endian(bytes: Seq<u8>) -> nat
    decreases bytes.len(),
{
    if bytes.len() == 0 {
        0
    } else {
        bytes[0] as nat + 256 * little_endian(bytes.drop_first())
    }
}

/// Bytes as a number, the most significant first.
pub open spec fn big_endian(bytes: Seq<u8>) -> nat
    decreases bytes.len(),
{
    if bytes.len() == 0 {
        0
    } else {
        256 * big_endian(bytes.drop_last()) + bytes.last() as nat
    }
}

/// 256 to the `k`.
pub open spec fn pow256(k: nat) -> nat
    decreases k,
{
    if k == 0 {
        1
    } else {
        256 * pow256((k - 1) as nat)
    }
}

proof fn lemma_endian_bounds(bytes: Seq<u8>)
    ensures
        little_endian(bytes) < pow256(bytes.len()),
        big_endian(bytes) < pow256(bytes.len()),
    decreases bytes.len(),
{
    if bytes.len() > 0 {
        lemma_endian_bounds(bytes.drop_first());
        lemma_endian_bounds(bytes.drop_last());
    }
}

proof fn lemma_pow256_fits(k: nat)
    requires
        k <= 8,
    ensures
        pow256(k) <= 0x1_0000_0000_0000_0000,
{
    reveal_with_fuel(pow256, 9);
}

/// Reading bytes the other way round swaps the two orders.
pub proof fn law_endian_reversed(bytes: Seq<u8>)
    ensures
        little_endian(bytes) == big_endian(bytes.reverse()),
        big_endian(bytes) == little_endian(bytes.reverse()),
    decreases bytes.len(),
{
    if bytes.len() > 0 {
        law_endian_reversed(bytes.drop_first());
        law_endian_reversed(bytes.drop_last());
        assert(bytes.reverse().drop_last() =~= bytes.drop_first().reverse());
        assert(bytes.reverse().drop_first() =~= bytes.drop_last().reverse());
    }
}

fn little_endian_value(bytes: &[u8]) -> (r: u64)
    requires
        bytes@.len() <= 8,
    ensures
        r == little_endian(bytes@),
{
    let mut value: u128 = 0;
    let mut i: usize = bytes.len();
    while i > 0
        invariant
            i <= bytes@.len() <= 8,
            value == little_endian(bytes@.skip(i as int)),
        decreases i,
    {
        let ghost rest = bytes@.skip(i as int);
        proof {
            lemma_endian_bounds(rest);
            lemma_pow256_fits(rest.len());
            assert(bytes@.skip(i - 1).drop_first() =~= rest);
        }
        i = i - 1;
        value = value * 256 + bytes[i] as u128;
    }
    assert(bytes@.skip(0) =~= bytes@);
    proof {
        lemma_endian_bounds(bytes@);
        lemma_pow256_fits(bytes@.len());
    }
    value as u64
}

fn big_endian_value(bytes: &[u8]) -> (r: u64)
    requires
        bytes@.len() <= 8,
    ensures
        r == big_endian(bytes@),
{
    let mut value: u128 = 0;
    let mut i: usize = 0;
    while i < bytes.len()
        invariant
            i <= bytes@.len() <= 8,
            value == big_endian(bytes@.take(i as int)),
        decreases bytes@.len() - i,
    {
        let ghost first = bytes@.take(i as int);
        proof {
            lemma_endian_bounds(first);
            lemma_pow256_fits(first.len());
            assert(bytes@.take(i + 1).drop_last() =~= first);
        }
        value = value * 256 + bytes[i] as u128;
        i = i + 1;
    }
    assert(bytes@.take(bytes@.len() as int) =~= bytes@);
    proof {
        lemma_endian_bounds(bytes@);
        lemma_pow256_fits(bytes@.len());
    }
    value as u64
}

/// A word in both byte orders.
pub open spec fn word_text(data: Seq<u8>) -> Seq<char> {
    let values = " LE:"@ + text::decimal(little_endian(data)) + " BE:"@ + text::decimal(
        big_endian(data),
    );
    if data.len() == 1 {
        "u8 "@ + text::decimal(data[0] as nat)
    } else if data.len() == 2 {
        "u16"@ + values
    } else if data.len() == 4 {
        "u32"@ + values
    } else if data.len() == 8 {
        "u64"@ + values
    } else {
        Seq::empty()
    }
}

impl State {
    /// The offset of the word that the cursor stands in.
    pub open spec fn word_offset(self) -> int {
        self.cursor - self.cursor % self.grouping
    }

    /// The word that the cursor stands in lies in the file, and in the bytes
    /// that were read from `start` on.
    pub open spec fn word_is_read(self, start: int, len: int) -> bool {
        &&& self.grouping > 0
        &&& self.cursor < self.file_size
        &&& self.word_offset() + self.grouping <= self.file_size
        &&& start <= self.word_offset()
        &&& self.word_offset() + self.grouping <= start + len
    }
}

/// The word at the cursor in words; nothing where it is not complete in the
/// file or not among the bytes that were read from `vis_start` on.
pub fn word_interpretation(viewer: &HexViewer, buffer: &[u8], vis_start: u128) -> (r: String)
    ensures
        viewer@.word_is_read(vis_start as int, buffer@.len() as int) ==> r@ == word_text(
            buffer@.subrange(
                viewer@.word_offset() - vis_start,
                viewer@.word_offset() - vis_start + viewer@.grouping,
            ),
        ),
        !viewer@.word_is_read(vis_start as int, buffer@.len() as int) ==> r@ == Seq::<
            char,
        >::empty(),
{
    let cursor: u128 = viewer.cursor;
    let grouping: u128 = viewer.grouping as u128;
    if cursor >= viewer.file_size || grouping == 0 {
        return String::new();
    }
    assert(0 <= cursor % grouping <= cursor) by (nonlinear_arith)
        requires
            grouping > 0,
            cursor >= 0,
    ;
    let aligned: u128 = cursor - cursor % grouping;
    if viewer.file_size - aligned < grouping {
        return String::new();
    }
    if aligned < vis_start {
        return String::new();
    }
    let len: u128 = buffer.len() as u128;
    if len < grouping || aligned - vis_start > len - grouping {
        return String::new();
    }
    let pos: usize = (aligned - vis_start) as usize;
    let size: usize = viewer.grouping as usize;
    let data = &buffer[pos..pos + size];
    word_string(data)
}

fn word_string(data: &[u8]) -> (r: String)
    ensures
        r@ == word_text(data@),
{
    let size: usize = data.len();
    if size == 1 {
        let mut s = "u8 ".to_string();
        push_decimal(&mut s, data[0] as u128);
        return s;
    }
    let mut s = if size == 2 {
        "u16".to_string()
    } else if size == 4 {
        "u32".to_string()
    } else if size == 8 {
        "u64".to_string()
    } else {
        return String::new();
    };
    let ghost name = s@;
    s.append(" LE:");
    push_decimal(&mut s, little_endian_value(data) as u128);
    s.append(" BE:");
    push_decimal(&mut s, big_endian_value(data) as u128);
    assert(s@ =~= name + (" LE:"@ + text::decimal(little_endian(data@)) + " BE:"@ + text::decimal(
        big_endian(data@),
    )));
    s
}

/// The part of the file before the cursor in percent, 100 for an empty file.
pub open spec fn percentage(cursor: int, file_size: int) -> int {
    if file_size > 0 {
        cursor * 100 / file_size
    } else {
        100
    }
}

/// A cursor in the file stands at most at 100 percent, and at 100 percent only
/// at its end.
pub proof fn law_percentage_in_range(cursor: int, file_size: int)
    requires
        0 <= cursor <= file_size,
    ensures
        0 <= percentage(cursor, file_size) <= 100,
        percentage(cursor, file_size) == 100 <==> cursor == file_size,
{
    if file_size > 0 {
        let p = cursor * 100 / file_size;
        assert(0 <= p <= 100 && (p == 100 <==> cursor == file_size)) by (nonlinear_arith)
            requires
                p == cursor * 100 / file_size,
                0 <= cursor <= file_size,
                file_size > 0,
        ;
    }
}

/// `100 * rest / file_size`, where `100 * rest` may not fit: `rest` is added up
/// a hundred times over.
fn hundredths(rest: u128, file_size: u128) -> (r: u8)
    requires
        rest < file_size,
    ensures
        r == rest * 100 / file_size as int,
        r < 100,
{
    let mut count: u8 = 0;
    let mut left: u128 = 0;
    let mut i: u8 = 0;
    while i < 100
        invariant
            i <= 100,
            count <= i,
            rest < file_size,
            left < file_size,
            i * rest == count * file_size + left,
        decreases 100 - i,
    {
        assert((i + 1) * rest == i * rest + rest) by (nonlinear_arith);
        assert((count + 1) * file_size == count * file_size + file_size) by (nonlinear_arith);
        if left >= file_size - rest {
            left = left - (file_size - rest);
            count = count + 1;
        } else {
            left = left + rest;
        }
        i = i + 1;
    }
    assert(count < 100) by (nonlinear_arith)
        requires
            100 * rest == count * file_size + left,
            rest < file_size,
            left >= 0,
    ;
    proof {
        vstd::arithmetic::div_mod::lemma_fundamental_div_mod_converse(
            rest * 100,
            file_size as int,
            count as int,
            left as int,
        );
    }
    count
}

/// A number of hundreds is written as that number and two digits more.
proof fn lemma_decimal_of_hundreds(whole: nat, rest: nat)
    requires
        rest < 100,
    ensures
        whole > 0 ==> text::decimal(100 * whole + rest) == text::decimal(whole).push(
            text::digit_char(rest / 10),
        ).push(text::digit_char(rest % 10)),
{
    let n = 100 * whole + rest;
    if whole > 0 {
        assert(n / 10 == 10 * whole + rest / 10 && n % 10 == rest % 10);
        assert((n / 10) / 10 == whole && (n / 10) % 10 == rest / 10);
        assert(text::digits(n, 10) == text::digits(n / 10, 10).push(text::digit_char(n % 10)));
        assert(text::digits(n / 10, 10) == text::digits(whole, 10).push(
            text::digit_char(rest / 10),
        ));
    }
}

/// Writes the part of the file before the cursor in percent behind the text.
fn push_percentage(s: &mut String, cursor: u128, file_size: u128)
    ensures
        final(s)@ == old(s)@ + text::decimal(percentage(cursor as int, file_size as int) as nat),
{
    if file_size == 0 {
        push_decimal(s, 100);
        return;
    }
    let whole: u128 = cursor / file_size;
    let rest: u128 = cursor % file_size;
    let part: u8 = hundredths(rest, file_size);
    proof {
        let size = file_size as int;
        vstd::arithmetic::div_mod::lemma_fundamental_div_mod(cursor as int, size);
        vstd::arithmetic::div_mod::lemma_fundamental_div_mod(rest * 100, size);
        let left = (rest * 100) % size;
        assert(cursor * 100 == (100 * whole + part) * size + left) by (nonlinear_arith)
            requires
                cursor == size * whole + rest,
                rest * 100 == size * part + left,
        ;
        vstd::arithmetic::div_mod::lemma_fundamental_div_mod_converse(
            cursor * 100,
            size,
            100 * whole + part,
            left,
        );
        lemma_decimal_of_hundreds(whole as nat, part as nat);
    }
    if whole == 0 {
        push_decimal(s, part as u128);
    } else {
        push_decimal(s, whole);
        push_digit(s, part / 10);
        push_digit(s, part % 10);
        assert(s@ =~= old(s)@ + text::decimal((100 * whole + part) as nat));
    }
}

/// What the status line says of the search.
pub open spec fn search_note(search: Phase) -> Seq<char> {
    match search {
        Phase::MatchFound => " - Match found"@,
        Phase::NotFound => " - Not found"@,
        _ => ""@,
    }
}

impl State {
    /// The status line behind its warning.
    pub open spec fn status_text(self) -> Seq<char> {
        " "@ + self.filename + "  0x"@ + text::hexadecimal(self.cursor as nat) + "  L"@
            + text::decimal(
            viewer::smaller(self.cursor_line() + 1, u128::MAX as int) as nat,
        ) + "/"@ + text::decimal(self.total_lines() as nat) + "  "@ + text::decimal(
            percentage(self.cursor, self.file_size) as nat,
        ) + "%  ["@ + text::decimal(self.grouping as nat) + "b]"@ + search_note(self.search)
    }

    /// The status line.
    pub open spec fn status(self) -> Seq<Piece> {
        let warning = Piece {
            text: "EDIT MODE, NO UNDO. Edit with care. "@,
            style: Style::Warning,
        };
        if self.edit_mode {
            seq![warning, line::plain(self.status_text())]
        } else {
            seq![line::plain(self.status_text())]
        }
    }
}

/// The status line: the file, the cursor, the grouping and how the search
/// ended.
pub fn format_status(viewer: &HexViewer) -> (r: Vec<Span>)
    ensures
        line::pieces(r@) == viewer@.status(),
{
    let mut spans: Vec<Span> = Vec::new();
    if viewer.edit_mode {
        push_span(
            &mut spans,
            "EDIT MODE, NO UNDO. Edit with care. ".to_string(),
            Style::Warning,
        );
    }
    let line: u128 = if viewer.bytes_per_line > 0 {
        viewer.cursor / viewer.bytes_per_line as u128
    } else {
        0
    };
    let mut s = " ".to_string();
    s.append(viewer.filename.as_str());
    s.append("  0x");
    push_hexadecimal(&mut s, viewer.cursor);
    s.append("  L");
    push_decimal(&mut s, line.saturating_add(1));
    s.append("/");
    push_decimal(&mut s, viewer.total_lines());
    s.append("  ");
    push_percentage(&mut s, viewer.cursor, viewer.file_size);
    s.append("%  [");
    push_decimal(&mut s, viewer.grouping as u128);
    s.append("b]");
    match &viewer.search {
        SearchState::MatchFound => s.append(" - Match found"),
        SearchState::NotFound => s.append(" - Not found"),
        _ => s.append(""),
    }
    push_span(&mut spans, s, Style::Plain);
    assert(line::pieces(spans@) =~= viewer@.status());
    spans
}

/// What the information line shows.
#[derive(Debug, PartialEq, Eq)]
pub enum Info {
    /// How far the search has come.
    Scanning,
    /// Where a match was found.
    Match(String),
    /// The word at the cursor.
    Word,
}

impl State {
    /// Where a match was found, in words.
    pub open spec fn match_text(self) -> Seq<char> {
        if self.search_matches.len() > 0 {
            "Match found at offset "@ + text::hexadecimal(self.search_matches[0] as nat) + " ("@
                + text::decimal(self.search_matches.len()) + " matches total)"@
        } else {
            "Match found"@
        }
    }
}

/// Decides what the information line shows.
pub fn info_line(viewer: &HexViewer) -> (r: Info)
    ensures
        match viewer@.search {
            Phase::Scanning => r is Scanning,
            Phase::MatchFound => r is Match && r->Match_0@ == viewer@.match_text(),
            _ => r is Word,
        },
{
    match &viewer.search {
        SearchState::Scanning => Info::Scanning,
        SearchState::MatchFound => if viewer.search_matches.len() > 0 {
            let mut s = "Match found at offset ".to_string();
            push_hexadecimal(&mut s, viewer.search_matches[0]);
            s.append(" (");
            push_decimal(&mut s, viewer.search_matches.len() as u128);
            s.append(" matches total)");
            Info::Match(s)
        } else {
            Info::Match("Match found".to_string())
        },
        _ => Info::Word,
    }
}

/// How far a running search has come.
#[derive(Debug, Clone, Copy, PartialEq, Eq, Structural)]
pub struct Progress {
    /// Nanoseconds since its start.
    pub elapsed: u128,
    /// Bytes searched.
    pub scanned: u128,
    /// Bytes that are left.
    pub remaining: u128,
}

/// How far a running search has come at the time `now`.
pub fn search_report(viewer: &HexViewer, now: u128) -> (r: Option<Progress>)
    ensures
        r is None <==> viewer.search_start is None,
        r matches Some(p) ==> {
            &&& p.elapsed == viewer::larger(now - viewer.search_start->0, 0)
            &&& p.scanned == viewer.search_progress
            &&& p.remaining == viewer::larger(viewer.file_size - viewer.search_offset, 0)
        },
{
    match viewer.search_start {
        Some(start) => Some(
            Progress {
                elapsed: now.saturating_sub(start),
                scanned: viewer.search_progress,
                remaining: viewer.file_size.saturating_sub(viewer.search_offset),
            },
        ),
        None => None,
    }
}

/// The progress of a search in words.
pub open spec fn scanning_text(
    file_size: int,
    percent: Seq<char>,
    throughput: Seq<char>,
    eta: Seq<char>,
) -> Seq<char> {
    if file_size == 0 {
        "Searching..."@
    } else if throughput.len() > 0 {
        "Searching... "@ + percent + "%  "@ + throughput + "  "@ + eta
    } else {
        "Searching... "@ + percent + "%  "@ + eta
    }
}

/// The progress of a search in words: the share of the file, the throughput
/// where it is known, and the time that is left.
pub fn format_progress(viewer: &HexViewer, percent: &str, throughput: &str, eta: &str) -> (r:
    String)
    ensures
        r@ == scanning_text(viewer@.file_size, percent@, throughput@, eta@),
{
    if viewer.file_size == 0 {
        return "Searching...".to_string();
    }
    let mut s = "Searching... ".to_string();
    s.append(percent);
    s.append("%  ");
    if !throughput.is_empty() {
        s.append(throughput);
        s.append("  ");
    }
    s.append(eta);
    s
}

} // verus!
