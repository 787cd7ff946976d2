//! What a layout and a view are: how wide a line is, how many lines there are,
//! and which of them are shown.

use crate::config::{DisplayConfig, UserConfig};
use crate::constants::SCROLLBAR_WIDTH;
use crate::laws;
use crate::viewer;
use crate::viewer::State;
use vstd::prelude::*;

verus! {

/// A layout makes the most of the terminal. A line is made of whole groups, one
/// at least. Where there is room for a line with a single group beside the
/// scrollbar, all groups of a line fit and one more would not; where there is
/// not, a line has a single group. Nothing but the layout changes.
pub proof fn law_layout_is_maximal(s: State)
    requires
        s.grouping >= 1,
        s.file_size <= u128::MAX,
    ensures
        ({
            let t = s.laid_out();
            let room = s.term_cols - SCROLLBAR_WIDTH;
            let group = 3 * s.grouping + 1;
            &&& t.groups_per_line >= 1
            &&& t.bytes_per_line == t.groups_per_line * s.grouping
            &&& room >= t.address_width + 4 + 3 * s.grouping + SCROLLBAR_WIDTH ==> {
                &&& t.address_width + 4 + t.groups_per_line * group <= room
                &&& t.address_width + 4 + (t.groups_per_line + 1) * group > room
            }
            &&& room < t.address_width + 4 + 3 * s.grouping + SCROLLBAR_WIDTH
                ==> t.groups_per_line == 1
            &&& t == (State {
                address_width: t.address_width,
                groups_per_line: t.groups_per_line,
                bytes_per_line: t.bytes_per_line,
                ..s
            })
        }),
{
    let t = s.laid_out();
    let group = 3 * s.grouping + 1;
    let room = viewer::larger(s.term_cols - SCROLLBAR_WIDTH, 0);
    viewer::lemma_address_digits(s.file_size);
    if room >= viewer::narrowest_line(t.address_width, s.grouping) {
        let free = room - (t.address_width + 4);
        let fit = free / group;
        vstd::arithmetic::div_mod::lemma_fundamental_div_mod(free, group);
        assert(1 <= fit && fit * group <= free && (fit + 1) * group > free) by (nonlinear_arith)
            requires
                free == group * fit + free % group,
                0 <= free % group < group,
                free >= group,
                group >= 1,
        ;
        assert(t.groups_per_line == fit);
    }
}

/// The address column is as wide as the digits of the last offset and one more:
/// two digits more than its logarithm to the base 16, and two digits where the
/// last offset is 0.
pub proof fn law_address_column(s: State)
    ensures
        s.file_size >= 2 ==> s.laid_out().address_width == vstd::arithmetic::logarithm::log(
            16,
            s.file_size - 1,
        ) + 2,
        s.file_size < 2 ==> s.laid_out().address_width == 2,
{
    if s.file_size >= 2 {
        laws::law_address_width_is_logarithmic(s.file_size);
    }
}

/// A terminal of another size is taken as it is, and the layout for it makes
/// the most of it; the cursor stays where it is and the view follows it.
pub proof fn law_resize_lays_out(s: State, cols: u16, rows: u16)
    requires
        s.grouping >= 1,
        s.file_size <= u128::MAX,
    ensures
        ({
            let t = s.resized(cols, rows);
            let room = cols - SCROLLBAR_WIDTH;
            let group = 3 * s.grouping + 1;
            let visible = if rows < 3 {
                1
            } else {
                rows - 2
            };
            &&& t.term_cols == cols
            &&& t.term_rows == rows
            &&& t.cursor == s.cursor
            &&& t.grouping == s.grouping
            &&& t.bytes_per_line == t.groups_per_line * s.grouping
            &&& room >= t.address_width + 4 + 3 * s.grouping + SCROLLBAR_WIDTH ==> {
                &&& t.address_width + 4 + t.groups_per_line * group <= room
                &&& t.address_width + 4 + (t.groups_per_line + 1) * group > room
            }
            &&& room < t.address_width + 4 + 3 * s.grouping + SCROLLBAR_WIDTH
                ==> t.groups_per_line == 1
            &&& t == (State {
                term_cols: cols as int,
                term_rows: rows as int,
                ..s
            }).laid_out().scrolled_to_cursor(visible)
        }),
{
    law_layout_is_maximal(State { term_cols: cols as int, term_rows: rows as int, ..s });
}

/// The lines of a file hold all of it, the last one is not empty, and the last
/// one is as far as the view goes.
pub proof fn law_lines_hold_the_file(s: State)
    requires
        s.file_size >= 0,
        s.bytes_per_line >= 1,
    ensures
        s.total_lines() >= 0,
        s.total_lines() * s.bytes_per_line >= s.file_size,
        (s.total_lines() - 1) * s.bytes_per_line < s.file_size,
        s.file_size > 0 ==> s.max_scroll_line() == s.total_lines() - 1,
        s.file_size == 0 ==> s.total_lines() == 0 && s.max_scroll_line() == 0,
{
    let b = s.bytes_per_line;
    let n = s.total_lines();
    let a = s.file_size + b - 1;
    vstd::arithmetic::div_mod::lemma_fundamental_div_mod(a, b);
    assert(n >= 0 && n * b >= s.file_size && (n - 1) * b < s.file_size && (s.file_size > 0 ==> n
        >= 1)) by (nonlinear_arith)
        requires
            a == b * n + a % b,
            0 <= a % b < b,
            a == s.file_size + b - 1,
            s.file_size >= 0,
            b >= 1,
    ;
    if s.file_size == 0 {
        assert(0 * b == 0) by (nonlinear_arith);
        vstd::arithmetic::div_mod::lemma_fundamental_div_mod_converse(a, b, 0, b - 1);
    }
}

/// Without any width there are no lines.
pub proof fn law_no_lines_without_width(s: State)
    requires
        s.bytes_per_line == 0,
    ensures
        s.total_lines() == 0,
        s.max_scroll_line() == 0,
        s.cursor_line() == 0,
{
}

/// Of two numbers, the smaller and the larger one.
pub proof fn law_smaller_and_larger(a: int, b: int)
    ensures
        a <= b ==> viewer::smaller(a, b) == a && viewer::larger(a, b) == b,
        a >= b ==> viewer::smaller(a, b) == b && viewer::larger(a, b) == a,
{
}

/// A line takes one row, and two rows are for the information and the status,
/// where there are three and more.
pub proof fn law_visible_rows(s: State)
    ensures
        s.term_rows >= 3 ==> s.visible_rows() + 2 == s.term_rows,
        s.term_rows < 3 ==> s.visible_rows() == 1,
{
}

/// The line of the cursor is the one whose bytes it stands among.
pub proof fn law_cursor_line(s: State)
    requires
        s.cursor >= 0,
        s.bytes_per_line >= 1,
    ensures
        s.cursor_line() >= 0,
        s.cursor_line() * s.bytes_per_line <= s.cursor < (s.cursor_line() + 1) * s.bytes_per_line,
{
    let b = s.bytes_per_line;
    let line = s.cursor_line();
    vstd::arithmetic::div_mod::lemma_fundamental_div_mod(s.cursor, b);
    assert(line >= 0 && line * b <= s.cursor < (line + 1) * b) by (nonlinear_arith)
        requires
            s.cursor == b * line + s.cursor % b,
            0 <= s.cursor % b < b,
            s.cursor >= 0,
            b >= 1,
    ;
}

/// `top` may be the line on top of the view: it is the first line, or the file
/// has bytes in it.
pub open spec fn may_be_on_top(s: State, top: int) -> bool {
    top == 0 || top > 0 && top * s.bytes_per_line < s.file_size
}

/// `top` on top shows the line that the cursor stands in.
pub open spec fn shows_cursor(s: State, top: int, visible_rows: int) -> bool {
    &&& top * s.bytes_per_line <= s.cursor
    &&& s.cursor < (top + visible_rows) * s.bytes_per_line
}

/// The view follows the cursor, and no further than it must: of all lines that
/// may be on top and show the cursor, the nearest to the one that was on top
/// goes there. Where there is none, the last line of the file goes on top.
/// Nothing but the view changes.
pub proof fn law_view_moves_no_more_than_needed(s: State, visible_rows: int, top: int)
    requires
        s.valid(),
        visible_rows >= 1,
    ensures
        ({
            let t = s.scrolled_to_cursor(visible_rows);
            &&& t == (State { scroll_line: t.scroll_line, ..s })
            &&& may_be_on_top(s, t.scroll_line)
            &&& may_be_on_top(s, top) && shows_cursor(s, top, visible_rows) ==> {
                &&& shows_cursor(s, t.scroll_line, visible_rows)
                &&& s.scroll_line <= top ==> t.scroll_line <= top
                &&& s.scroll_line >= top ==> t.scroll_line >= top
            }
            &&& !shows_cursor(s, t.scroll_line, visible_rows) ==> (t.scroll_line + 1)
                * s.bytes_per_line >= s.file_size
            &&& may_be_on_top(s, s.scroll_line) && shows_cursor(s, s.scroll_line, visible_rows)
                ==> t.scroll_line == s.scroll_line
        }),
{
    laws::lemma_bytes_per_line(s);
    law_cursor_line(s);
    law_lines_hold_the_file(s);
    let b = s.bytes_per_line;
    let line = s.cursor_line();
    let n = s.total_lines();
    let t = s.scrolled_to_cursor(visible_rows);
    lemma_line_order(b, line, s.cursor, top);
    lemma_line_order(b, line, s.cursor, top + visible_rows);
    lemma_line_order(b, line, s.cursor, s.scroll_line);
    lemma_line_order(b, line, s.cursor, s.scroll_line + visible_rows);
    lemma_line_order(b, line, s.cursor, t.scroll_line);
    lemma_line_order(b, line, s.cursor, t.scroll_line + visible_rows);
    lemma_byte_lines(b, n, s.file_size, top);
    lemma_byte_lines(b, n, s.file_size, t.scroll_line);
    lemma_byte_lines(b, n, s.file_size, t.scroll_line + 1);
    lemma_byte_lines(b, n, s.file_size, s.scroll_line);
}

/// A line starts at or before the cursor exactly where it is not behind the
/// cursor's.
proof fn lemma_line_order(b: int, line: int, cursor: int, other: int)
    requires
        b >= 1,
        line * b <= cursor < (line + 1) * b,
    ensures
        other * b <= cursor <==> other <= line,
{
    if other <= line {
        assert(other * b <= line * b) by (nonlinear_arith)
            requires
                other <= line,
                b >= 1,
        ;
    } else {
        assert(other * b >= (line + 1) * b) by (nonlinear_arith)
            requires
                other >= line + 1,
                b >= 1,
        ;
    }
}

/// A line has bytes exactly where it is one of the lines of the file.
proof fn lemma_byte_lines(b: int, n: int, size: int, line: int)
    requires
        b >= 1,
        n * b >= size,
        (n - 1) * b < size,
    ensures
        line * b < size <==> line < n,
{
    if line < n {
        assert(line * b <= (n - 1) * b) by (nonlinear_arith)
            requires
                line <= n - 1,
                b >= 1,
        ;
    } else {
        assert(line * b >= n * b) by (nonlinear_arith)
            requires
                line >= n,
                b >= 1,
        ;
    }
}

/// The cursor goes where it is sent, and to the nearest end of the file where
/// that lies outside.
pub proof fn law_cursor_goes_where_sent(s: State, offset: int, visible_rows: int)
    requires
        s.file_size >= 0,
    ensures
        ({
            let t = s.moved_to(offset, visible_rows);
            &&& 0 <= offset <= s.file_size ==> t.cursor == offset
            &&& offset < 0 ==> t.cursor == 0
            &&& offset > s.file_size ==> t.cursor == s.file_size
            &&& t == (State { cursor: t.cursor, ..s }).scrolled_to_cursor(visible_rows)
        }),
{
}

/// The settings ask for a grouping exactly where they name 1, 2, 4 or 8.
pub proof fn law_wanted_grouping(config: UserConfig, g: u8)
    ensures
        config.wanted_grouping() == Some(g) <==> {
            &&& config.display == Some(DisplayConfig { grouping: Some(g) })
            &&& g == 1 || g == 2 || g == 4 || g == 8
        },
{
}

} // verus!
