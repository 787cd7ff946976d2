//! What the screen says: numbers, rows, words, the status.

use crate::draw;
use crate::line;
use crate::line::{Piece, Row, Style};
use crate::pattern;
use crate::search;
use crate::text;
use crate::viewer::{Phase, State};
use vstd::prelude::*;

verus! {

/// A digit is written in upper case.
pub proof fn law_digit_chars(d: nat)
    requires
        d < 16,
    ensures
        text::digit_char(d) == "0123456789ABCDEF"@[d as int],
{
    reveal_strlit("0123456789ABCDEF");
}

/// A byte is written as two digits with its value, and read back from them.
pub proof fn law_byte_in_hex(b: u8)
    ensures
        text::byte_hex(b).len() == 2,
        text::byte_hex(b)[0] == "0123456789ABCDEF"@[b as int / 16],
        text::byte_hex(b)[1] == "0123456789ABCDEF"@[b as int % 16],
        pattern::hex_value(text::byte_hex(b)[0]) == Some((b / 16) as u8),
        pattern::hex_value(text::byte_hex(b)[1]) == Some((b % 16) as u8),
{
    law_digit_chars((b / 16) as nat);
    law_digit_chars((b % 16) as nat);
}

/// The number that a text stands for in a base.
pub open spec fn value_of(s: Seq<char>, base: int) -> int
    decreases s.len(),
{
    if s.len() == 0 {
        0
    } else {
        base * value_of(s.drop_last(), base) + (match pattern::hex_value(s.last()) {
            Some(d) => d as int,
            None => 0,
        })
    }
}

/// The text is a number in a base, without a zero before it, in upper case.
pub open spec fn is_number(s: Seq<char>, base: int) -> bool {
    &&& s.len() > 0
    &&& s[0] == '0' ==> s.len() == 1
    &&& forall|i: int|
        0 <= i < s.len() ==> pattern::hex_value(#[trigger] s[i]) is Some && pattern::hex_value(
            s[i],
        )->0 < base && !('a' <= s[i] <= 'f')
}

/// Numbers are written so that they are read back as what they are.
pub proof fn law_numbers_are_read_back(n: nat)
    ensures
        is_number(text::decimal(n), 10),
        value_of(text::decimal(n), 10) == n,
        is_number(text::hexadecimal(n), 16),
        value_of(text::hexadecimal(n), 16) == n,
{
    lemma_digits(n, 10);
    lemma_digits(n, 16);
}

proof fn lemma_digits(n: nat, base: nat)
    requires
        base == 10 || base == 16,
    ensures
        is_number(text::digits(n, base), base as int),
        value_of(text::digits(n, base), base as int) == n,
        n > 0 ==> text::digits(n, base)[0] != '0',
    decreases n,
{
    let s = text::digits(n, base);
    assert(forall|d: nat|
        d < 16 ==> pattern::hex_value(#[trigger] text::digit_char(d)) == Some(d as u8) && !('a'
            <= text::digit_char(d) <= 'f') && (text::digit_char(d) == '0' ==> d == 0));
    if n < base {
        reveal_with_fuel(value_of, 2);
        assert(s =~= seq![text::digit_char(n)]);
        assert(s.drop_last() =~= Seq::<char>::empty());
    } else {
        text::lemma_quotient_decreases(n, base);
        let first = text::digits(n / base, base);
        lemma_digits(n / base, base);
        assert(n / base > 0) by (nonlinear_arith)
            requires
                n >= base,
                base > 0,
        ;
        assert(s == first.push(text::digit_char(n % base)));
        assert(s.drop_last() =~= first);
        assert(s[0] == first[0]);
        vstd::arithmetic::div_mod::lemma_fundamental_div_mod(n as int, base as int);
        assert forall|i: int| 0 <= i < s.len() implies pattern::hex_value(#[trigger] s[i]) is Some
            && pattern::hex_value(s[i])->0 < base && !('a' <= s[i] <= 'f') by {
            if i < first.len() {
                assert(s[i] == first[i]);
            }
        }
    }
}

/// Text in a field stands at its right end behind fill characters, and keeps
/// its length where it does not fit.
pub proof fn law_right_alignment(s: Seq<char>, width: int, c: char, i: int)
    ensures
        ({
            let field = text::right_aligned(s, width, c);
            &&& width <= s.len() ==> field == s
            &&& width > s.len() ==> field.len() == width
            &&& 0 <= i < s.len() ==> field[field.len() - s.len() + i] == s[i]
            &&& 0 <= i < width - s.len() ==> field[i] == c
        }),
{
    if width <= s.len() {
        assert(text::right_aligned(s, width, c) =~= s);
    }
}

/// The address of a line is its offset in hexadecimal: in the width of the
/// column, with zeros before it, and in its own width where that is larger.
pub proof fn law_address_is_the_offset(row: Row)
    requires
        row.offset >= 0,
    ensures
        value_of(row.address(), 16) == row.offset,
        text::hexadecimal(row.offset as nat).len() <= row.address_width ==> row.address().len()
            == row.address_width,
        text::hexadecimal(row.offset as nat).len() > row.address_width ==> row.address()
            == text::hexadecimal(row.offset as nat),
        forall|i: int|
            0 <= i < row.address().len() ==> pattern::hex_value(#[trigger] row.address()[i])
                is Some && !('a' <= row.address()[i] <= 'f'),
{
    let n = row.offset as nat;
    let digits = text::hexadecimal(n);
    lemma_digits(n, 16);
    let zeros = row.address_width - digits.len();
    lemma_value_behind_zeros(zeros, digits);
    if zeros <= 0 {
        assert(row.address() =~= digits);
    }
    let address = row.address();
    assert forall|i: int| 0 <= i < address.len() implies pattern::hex_value(
        #[trigger] address[i],
    ) is Some && !('a' <= address[i] <= 'f') by {
        let k = i - (address.len() - digits.len());
        if k >= 0 {
            assert(address[i] == digits[k]);
        } else {
            assert(address[i] == '0');
        }
    }
}

proof fn lemma_value_behind_zeros(n: int, s: Seq<char>)
    ensures
        value_of(text::repeated('0', n) + s, 16) == value_of(s, 16),
    decreases s.len(),
{
    let zeros = text::repeated('0', n);
    if s.len() == 0 {
        assert(zeros + s =~= zeros);
        lemma_value_of_zeros(n);
    } else {
        lemma_value_behind_zeros(n, s.drop_last());
        assert((zeros + s).drop_last() =~= zeros + s.drop_last());
        assert((zeros + s).last() == s.last());
    }
}

proof fn lemma_value_of_zeros(n: int)
    ensures
        value_of(text::repeated('0', n), 16) == 0,
    decreases n,
{
    if n > 0 {
        let zeros = text::repeated('0', n);
        lemma_value_of_zeros(n - 1);
        assert(zeros.drop_last() =~= text::repeated('0', n - 1));
        assert(zeros.last() == '0');
    }
}

/// A line is its columns one after the other: the address, the bytes in hex, the
/// bytes as text and the scrollbar, with two spaces, two and one between them.
pub proof fn law_columns_of_a_line(row: Row)
    requires
        row.group_size >= 1,
        row.bytes_per_line >= 0,
    ensures
        line::text_of_pieces(row.line()) == row.address() + "  "@ + row.hex() + "  "@
            + row.ascii() + " "@ + seq![row.bar],
{
    line::law_highlights_keep_text(row);
    assert(row.text() =~= row.address() + "  "@ + row.hex() + "  "@ + row.ascii() + " "@
        + seq![row.bar]);
}

/// Row `r` shows the bytes of the file behind `scroll_line` and `r` lines, out of
/// those that were read from the first visible one on, and nothing where the
/// file has ended or nothing was read. It stands beside the thumb of the
/// scrollbar exactly where that covers it.
pub proof fn law_row_shows_its_bytes(
    s: State,
    r: int,
    thumb_top: int,
    thumb_height: int,
    file_bytes: Seq<u8>,
    i: int,
)
    requires
        s.scroll_line >= 0,
        s.bytes_per_line >= 0,
        r >= 0,
    ensures
        ({
            let row = s.row(r, thumb_top, thumb_height, file_bytes);
            let b = s.bytes_per_line;
            let from = r * b;
            let left = file_bytes.len() - from;
            &&& (s.scroll_line + r) * b <= u128::MAX ==> row.offset == (s.scroll_line + r) * b
            &&& (s.scroll_line + r) * b > u128::MAX ==> row.offset == u128::MAX
            &&& row.offset > s.file_size ==> row.bytes.len() == 0
            &&& row.offset <= s.file_size ==> {
                &&& left <= 0 ==> row.bytes.len() == 0
                &&& 0 < left <= b ==> row.bytes.len() == left
                &&& left > b ==> row.bytes.len() == b
                &&& 0 <= i < row.bytes.len() ==> row.bytes[i] == file_bytes[from + i]
            }
            &&& row.address_width == s.address_width
            &&& row.group_size == s.grouping
            &&& row.bytes_per_line == b
            &&& row.cursor == s.cursor
            &&& row.matches == s.search_matches
            &&& thumb_top <= r && r - thumb_top < thumb_height ==> row.bar == '█'
            &&& r < thumb_top || r - thumb_top >= thumb_height ==> row.bar == '│'
        }),
{
    let b = s.bytes_per_line;
    assert((s.scroll_line + r) * b == s.scroll_line * b + r * b && s.scroll_line * b >= 0 && r * b
        >= 0) by (nonlinear_arith)
        requires
            s.scroll_line >= 0,
            r >= 0,
            b >= 0,
    ;
}

/// The first visible byte is that of the line on top.
pub proof fn law_view_starts_on_top(s: State)
    ensures
        s.scroll_line * s.bytes_per_line <= u128::MAX ==> s.view_start() == s.scroll_line
            * s.bytes_per_line,
        s.scroll_line * s.bytes_per_line > u128::MAX ==> s.view_start() == u128::MAX,
{
}

/// Byte `i` of a word is its digit number `i` to the base 256: from the lowest
/// on in little endian, from the highest on in big endian.
pub proof fn law_bytes_of_a_word(bytes: Seq<u8>, i: int)
    requires
        0 <= i < bytes.len(),
    ensures
        (draw::little_endian(bytes) as int / vstd::arithmetic::power::pow(256, i as nat)) % 256
            == bytes[i],
        (draw::big_endian(bytes) as int / vstd::arithmetic::power::pow(256, i as nat)) % 256
            == bytes[bytes.len() - 1 - i],
        draw::little_endian(bytes) < vstd::arithmetic::power::pow(256, bytes.len()),
        draw::big_endian(bytes) < vstd::arithmetic::power::pow(256, bytes.len()),
{
    lemma_little_endian(bytes, i);
    lemma_little_endian(bytes.reverse(), i);
    draw::law_endian_reversed(bytes);
    lemma_below_power(bytes);
    lemma_below_power(bytes.reverse());
}

proof fn lemma_below_power(bytes: Seq<u8>)
    ensures
        draw::little_endian(bytes) < vstd::arithmetic::power::pow(256, bytes.len()),
    decreases bytes.len(),
{
    reveal(vstd::arithmetic::power::pow);
    if bytes.len() > 0 {
        lemma_below_power(bytes.drop_first());
    }
}

proof fn lemma_little_endian(bytes: Seq<u8>, i: int)
    requires
        0 <= i < bytes.len(),
    ensures
        (draw::little_endian(bytes) as int / vstd::arithmetic::power::pow(256, i as nat)) % 256
            == bytes[i],
    decreases i,
{
    reveal(vstd::arithmetic::power::pow);
    let rest = draw::little_endian(bytes.drop_first()) as int;
    let all = draw::little_endian(bytes) as int;
    assert(all == bytes[0] + 256 * rest);
    if i > 0 {
        let p = vstd::arithmetic::power::pow(256, (i - 1) as nat);
        vstd::arithmetic::power::lemma_pow_positive(256, (i - 1) as nat);
        lemma_little_endian(bytes.drop_first(), i - 1);
        vstd::arithmetic::div_mod::lemma_div_denominator(all, 256, p);
        assert(all / 256 == rest);
        assert(bytes.drop_first()[i - 1] == bytes[i]);
    } else {
        assert(vstd::arithmetic::power::pow(256, 0) == 1);
        assert(all / 1 == all);
    }
}

/// The word at the cursor is the one of the grouping's size that starts at a
/// multiple of that size and holds the cursor.
pub proof fn law_word_at_the_cursor(s: State, start: int, len: int)
    requires
        s.grouping >= 1,
    ensures
        !(State { grouping: 0, ..s }).word_is_read(start, len),
        s.word_offset() % s.grouping == 0,
        s.word_offset() <= s.cursor < s.word_offset() + s.grouping,
        s.word_is_read(start, len) <==> {
            &&& s.cursor < s.file_size
            &&& s.word_offset() + s.grouping <= s.file_size
            &&& start <= s.word_offset()
            &&& s.word_offset() + s.grouping <= start + len
        },
{
    let g = s.grouping;
    vstd::arithmetic::div_mod::lemma_fundamental_div_mod(s.cursor, g);
    let q = s.cursor / g;
    assert(s.word_offset() == q * g + 0) by (nonlinear_arith)
        requires
            s.cursor == g * q + s.cursor % g,
            s.word_offset() == s.cursor - s.cursor % g,
    ;
    vstd::arithmetic::div_mod::lemma_fundamental_div_mod_converse(s.word_offset(), g, q, 0);
}

/// A word is shown with its type and its value, in both byte orders where there
/// are two.
pub proof fn law_word_in_words(data: Seq<u8>)
    ensures
        data.len() == 1 ==> draw::word_text(data) == "u8 "@ + text::decimal(data[0] as nat),
        data.len() == 2 ==> draw::word_text(data) == "u16"@ + " LE:"@ + text::decimal(
            draw::little_endian(data),
        ) + " BE:"@ + text::decimal(draw::big_endian(data)),
        data.len() == 4 ==> draw::word_text(data) == "u32"@ + " LE:"@ + text::decimal(
            draw::little_endian(data),
        ) + " BE:"@ + text::decimal(draw::big_endian(data)),
        data.len() == 8 ==> draw::word_text(data) == "u64"@ + " LE:"@ + text::decimal(
            draw::little_endian(data),
        ) + " BE:"@ + text::decimal(draw::big_endian(data)),
        data.len() != 1 && data.len() != 2 && data.len() != 4 && data.len() != 8
            ==> draw::word_text(data).len() == 0,
{
    let little = text::decimal(draw::little_endian(data));
    let big = text::decimal(draw::big_endian(data));
    assert("u16"@ + (" LE:"@ + little + " BE:"@ + big) =~= "u16"@ + " LE:"@ + little + " BE:"@
        + big);
    assert("u32"@ + (" LE:"@ + little + " BE:"@ + big) =~= "u32"@ + " LE:"@ + little + " BE:"@
        + big);
    assert("u64"@ + (" LE:"@ + little + " BE:"@ + big) =~= "u64"@ + " LE:"@ + little + " BE:"@
        + big);
}

/// The percentage is the largest whole number of hundredths of the file that
/// does not lie behind the cursor.
pub proof fn law_percentage_is_the_share(cursor: int, file_size: int)
    requires
        file_size > 0,
    ensures
        draw::percentage(cursor, file_size) * file_size <= cursor * 100,
        cursor * 100 < (draw::percentage(cursor, file_size) + 1) * file_size,
        draw::percentage(cursor, 0) == 100,
{
    let p = draw::percentage(cursor, file_size);
    vstd::arithmetic::div_mod::lemma_fundamental_div_mod(cursor * 100, file_size);
    assert(p * file_size <= cursor * 100 < (p + 1) * file_size) by (nonlinear_arith)
        requires
            cursor * 100 == file_size * p + (cursor * 100) % file_size,
            0 <= (cursor * 100) % file_size < file_size,
    ;
}

/// The status line names the file, the cursor's offset in hexadecimal, its line
/// counted from one, the lines of the file, the share of the file before it, the
/// grouping and how a search has ended, behind a warning in edit mode.
pub proof fn law_status_line(s: State)
    ensures
        ({
            let line = if s.bytes_per_line == 0 {
                0
            } else {
                s.cursor / s.bytes_per_line
            };
            let number = if line < u128::MAX {
                line + 1
            } else {
                u128::MAX as int
            };
            let note = if s.search == Phase::MatchFound {
                " - Match found"@
            } else if s.search == Phase::NotFound {
                " - Not found"@
            } else {
                ""@
            };
            let said = " "@ + s.filename + "  0x"@ + text::hexadecimal(s.cursor as nat) + "  L"@
                + text::decimal(number as nat) + "/"@ + text::decimal(
                s.total_lines() as nat,
            ) + "  "@ + text::decimal(draw::percentage(s.cursor, s.file_size) as nat) + "%  ["@
                + text::decimal(s.grouping as nat) + "b]"@ + note;
            let status = s.status();
            &&& s.edit_mode ==> {
                &&& status.len() == 2
                &&& status[0] == (Piece {
                    text: "EDIT MODE, NO UNDO. Edit with care. "@,
                    style: Style::Warning,
                })
                &&& status[1] == (Piece { text: said, style: Style::Plain })
            }
            &&& !s.edit_mode ==> {
                &&& status.len() == 1
                &&& status[0] == (Piece { text: said, style: Style::Plain })
            }
        }),
{
}

/// A match is announced with the offset of the first one and how many there are.
pub proof fn law_match_is_announced(s: State)
    ensures
        s.search_matches.len() > 0 ==> s.match_text() == "Match found at offset "@
            + text::hexadecimal(s.search_matches[0] as nat) + " ("@ + text::decimal(
            s.search_matches.len(),
        ) + " matches total)"@,
        s.search_matches.len() == 0 ==> s.match_text() == "Match found"@,
{
}

/// The progress of a search is shown with its share of the file, its throughput
/// where there is one, and the time that is left; on an empty file without them.
pub proof fn law_progress_in_words(
    file_size: int,
    percent: Seq<char>,
    throughput: Seq<char>,
    eta: Seq<char>,
)
    ensures
        file_size == 0 ==> draw::scanning_text(file_size, percent, throughput, eta)
            == "Searching..."@,
        file_size != 0 && throughput.len() > 0 ==> draw::scanning_text(
            file_size,
            percent,
            throughput,
            eta,
        ) == "Searching... "@ + percent + "%  "@ + throughput + "  "@ + eta,
        file_size != 0 && throughput.len() == 0 ==> draw::scanning_text(
            file_size,
            percent,
            throughput,
            eta,
        ) == "Searching... "@ + percent + "%  "@ + eta,
{
}

/// The time that is left is said in years, days, hours, minutes and seconds that
/// add up to it, without those that are zero but the seconds; it is done where
/// nothing is left, and not known yet where nothing was read or no time has
/// passed.
pub proof fn law_time_left_in_words(elapsed: nat, scanned: nat, remaining: nat, total: nat)
    ensures
        remaining == 0 ==> search::eta_text(elapsed, scanned, remaining, total) == "ETA: done"@,
        remaining > 0 && (elapsed == 0 || scanned == 0) ==> search::eta_text(
            elapsed,
            scanned,
            remaining,
            total,
        ) == "ETA: calculating..."@,
        remaining > 0 && elapsed > 0 && scanned > 0 ==> exists|
            years: nat,
            days: nat,
            hours: nat,
            minutes: nat,
            seconds: nat,
        |
            {
                &&& years * 31536000 + days * 86400 + hours * 3600 + minutes * 60 + seconds == total
                &&& days < 365
                &&& hours < 24
                &&& minutes < 60
                &&& seconds < 60
                &&& search::eta_text(elapsed, scanned, remaining, total) == #[trigger] time_text(
                    years,
                    days,
                    hours,
                    minutes,
                    seconds,
                )
            },
{
    search::law_seconds_add_up(total);
    let (years, days, hours, minutes, seconds) = search::split_seconds(total);
    if remaining > 0 && elapsed > 0 && scanned > 0 {
        assert(search::eta_text(elapsed, scanned, remaining, total) =~= time_text(
            years,
            days,
            hours,
            minutes,
            seconds,
        ));
    }
}

/// A time in words.
pub open spec fn time_text(
    years: nat,
    days: nat,
    hours: nat,
    minutes: nat,
    seconds: nat,
) -> Seq<char> {
    "ETA: "@ + (if years > 0 {
        text::decimal(years) + seq!['y', ' ']
    } else {
        seq![]
    }) + (if days > 0 {
        text::decimal(days) + seq!['d', ' ']
    } else {
        seq![]
    }) + (if hours > 0 {
        text::decimal(hours) + seq!['h', ' ']
    } else {
        seq![]
    }) + (if minutes > 0 {
        text::decimal(minutes) + seq!['m', ' ']
    } else {
        seq![]
    }) + (text::decimal(seconds) + seq!['s'])
}

/// The units of throughput are the powers of 1024, with their names.
pub proof fn law_units_of_throughput(k: nat)
    ensures
        search::kibi(k) == vstd::arithmetic::power::pow(1024, k),
        search::rate_unit(0) == "B/s"@,
        search::rate_unit(1) == "KiB/s"@,
        search::rate_unit(2) == "MiB/s"@,
        search::rate_unit(3) == "GiB/s"@,
        search::rate_unit(4) == "TiB/s"@,
        search::rate_unit(5) == "PiB/s"@,
        search::rate_unit(6) == "EiB/s"@,
    decreases k,
{
    reveal(vstd::arithmetic::power::pow);
    if k > 0 {
        law_units_of_throughput((k - 1) as nat);
    }
}

} // verus!
