//! What holds of the viewer as a whole.

use crate::config;
use crate::config::{DisplayConfig, UserConfig};
use crate::finder;
use crate::input::{Action, Key, Wheel};
use crate::line;
use crate::pattern;
use crate::pattern::Pattern;
use crate::search;
use crate::text;
use crate::viewer;
use crate::viewer::{Phase, State, WriteRequest};
use vstd::prelude::*;

pub mod dump;
pub mod keys;
pub mod layout;
pub mod prompt;
pub mod screens;
pub mod searching;
pub mod views;

verus! {

/// A layout keeps a viewer valid, and makes lines of at least one group.
pub proof fn law_layout_keeps_valid(s: State, grouping: int)
    requires
        s.valid(),
        config::is_grouping(grouping),
    ensures
        (State { grouping, ..s }).laid_out().valid(),
        (State { grouping, ..s }).laid_out().bytes_per_line >= grouping,
{
    let t = State { grouping, ..s }.laid_out();
    viewer::lemma_address_digits(s.file_size);
    assert(t.groups_per_line * grouping >= grouping) by (nonlinear_arith)
        requires
            t.groups_per_line >= 1,
            grouping >= 1,
    ;
}

/// Wherever the cursor is sent, it stays in the file, and the viewer stays
/// valid.
pub proof fn law_moves_keep_valid(s: State, offset: int, visible_rows: int)
    requires
        s.valid(),
    ensures
        s.moved_to(offset, visible_rows).valid(),
        0 <= s.moved_to(offset, visible_rows).cursor <= s.file_size,
{
    lemma_scroll_keeps_valid(
        State { cursor: viewer::smaller(viewer::larger(offset, 0), s.file_size), ..s },
        visible_rows,
    );
}

pub(crate) proof fn lemma_bytes_per_line(s: State)
    requires
        s.groups_per_line >= 1,
        config::is_grouping(s.grouping),
        s.bytes_per_line == s.groups_per_line * s.grouping,
    ensures
        s.bytes_per_line >= 1,
{
    assert(s.groups_per_line * s.grouping >= 1) by (nonlinear_arith)
        requires
            s.groups_per_line >= 1,
            s.grouping >= 1,
    ;
}

proof fn lemma_scroll_keeps_valid(s: State, visible_rows: int)
    requires
        s.valid(),
    ensures
        s.scrolled_to_cursor(visible_rows).valid(),
{
    lemma_bytes_per_line(s);
    assert(s.cursor / s.bytes_per_line >= 0) by (nonlinear_arith)
        requires
            s.cursor >= 0,
            s.bytes_per_line >= 1,
    ;
}

proof fn lemma_grouping_keeps_valid(s: State, g: int)
    requires
        s.valid(),
        config::is_grouping(g),
    ensures
        s.with_grouping(g).valid(),
{
    law_layout_keeps_valid(s, g);
    let t = State { grouping: g, ..s }.laid_out();
    lemma_bytes_per_line(t);
    assert(t.cursor / t.bytes_per_line >= 0) by (nonlinear_arith)
        requires
            t.cursor >= 0,
            t.bytes_per_line >= 1,
    ;
    lemma_scroll_keeps_valid(State { scroll_line: t.cursor_line(), ..t }, s.visible_rows());
}

/// No key breaks a viewer: whatever is pressed in whatever mode, it stays
/// valid.
pub proof fn law_keys_keep_valid(s: State, key: Key, shift: bool, now: u128)
    requires
        s.valid(),
    ensures
        s.key(key, shift, now).0.valid(),
{
    match s.search {
        Phase::Inactive => {
            if s.edit_mode {
            } else {
                let rows = s.visible_rows();
                law_moves_keep_valid(s, s.cursor - rows * s.bytes_per_line, rows);
                law_moves_keep_valid(s, s.cursor + rows * s.bytes_per_line, rows);
                law_moves_keep_valid(s, s.cursor - s.bytes_per_line, rows);
                law_moves_keep_valid(s, s.cursor + s.bytes_per_line, rows);
                law_moves_keep_valid(s, s.cursor - 1, rows);
                law_moves_keep_valid(s, s.cursor + 1, rows);
                law_moves_keep_valid(s, 0, rows);
                law_moves_keep_valid(s, s.file_size, rows);
                lemma_grouping_keeps_valid(s, 1);
                lemma_grouping_keeps_valid(s, 2);
                lemma_grouping_keeps_valid(s, 4);
                lemma_grouping_keeps_valid(s, 8);
            }
        },
        _ => {},
    }
}

/// The mouse wheel keeps a viewer valid.
pub proof fn law_wheel_keeps_valid(s: State, wheel: Wheel, shift: bool)
    requires
        s.valid(),
    ensures
        s.wheel(wheel, shift).valid(),
{
    let rows = s.visible_rows();
    law_moves_keep_valid(s, s.cursor - rows * s.bytes_per_line, rows);
    law_moves_keep_valid(s, s.cursor + rows * s.bytes_per_line, rows);
    law_moves_keep_valid(s, s.cursor - s.bytes_per_line, rows);
    law_moves_keep_valid(s, s.cursor + s.bytes_per_line, rows);
}

/// A terminal of another size keeps a viewer valid.
pub proof fn law_resize_keeps_valid(s: State, cols: u16, rows: u16)
    requires
        s.valid(),
    ensures
        s.resized(cols, rows).valid(),
{
    let sized = State { term_cols: cols as int, term_rows: rows as int, ..s };
    law_layout_keeps_valid(sized, sized.grouping);
    assert(sized.laid_out() == (State { grouping: sized.grouping, ..sized }).laid_out());
    lemma_scroll_keeps_valid(sized.laid_out(), sized.laid_out().visible_rows());
}

/// Editing keeps a viewer valid, whether or not a byte could be written.
pub proof fn law_edits_keep_valid(s: State, request: WriteRequest, written: bool)
    requires
        s.valid(),
    ensures
        s.edit_finished(request, written).valid(),
{
    let file_size = if written && request is Append {
        viewer::smaller(s.file_size + 1, u128::MAX as int)
    } else {
        s.file_size
    };
    let t = State { file_size, cursor: viewer::smaller(s.cursor + 1, file_size), ..s };
    lemma_scroll_keeps_valid(t, s.visible_rows());
}

/// A search keeps a viewer valid with every block that it asks for, and with
/// every one that it cannot have.
pub proof fn law_search_keeps_valid(s: State, block: Option<Seq<u8>>, t: State)
    requires
        s.valid(),
        s.next_block() is Some && block is Some ==> block->0.len() <= (s.next_block()->0).1,
        search::is_tick(s, block, t),
    ensures
        t.valid(),
{
    if s.search == Phase::Scanning {
        let (u, more) = choose|u: State, more: bool|
            {
                &&& #[trigger] search::is_step(s, block, u, more)
                &&& t == (if more {
                    u
                } else {
                    State { search_start: None, ..u }
                })
            };
        if s.next_block() is Some && block is Some && block->0.len() > 0 {
            let bytes = block->0;
            let starts = choose|starts: Seq<usize>|
                {
                    &&& #[trigger] search::found_by(s.pattern->0, s.haystack(bytes), starts)
                    &&& u == s.absorbed(bytes, starts)
                    &&& more == (starts.len() > 0 || s.search_offset + bytes.len()
                        < s.file_size)
                };
            if starts.len() > 0 {
                if let Pattern::Exact(needle) = s.pattern->0 {
                    assert(finder::occurs_at(s.haystack(bytes), needle, starts[0] as int));
                }
                assert(starts[0] <= s.haystack(bytes).len());
                let base = s.haystack_offset();
                let found = State {
                    cursor: base + starts[0],
                    search_matches: Seq::new(
                        starts.len(),
                        |i: int| (base + starts[i]) as u128,
                    ),
                    search: Phase::MatchFound,
                    search_start: None,
                    ..s.moved_on(bytes)
                };
                lemma_scroll_keeps_valid(found, s.visible_rows());
            }
        }
    }
}

/// Settings keep a viewer valid, whatever they say.
pub proof fn law_settings_keep_valid(s: State, config: UserConfig)
    requires
        s.valid(),
    ensures
        (match config.wanted_grouping() {
            Some(g) => (State { grouping: g as int, ..s }).laid_out(),
            None => s,
        }).valid(),
{
    if let Some(g) = config.wanted_grouping() {
        law_layout_keeps_valid(s, g as int);
    }
}

/// A grouping that is saved is one that there is, is the one that the viewer
/// has taken, and is taken again from the settings that hold it.
pub proof fn law_saved_grouping_is_restored(s: State, key: Key, shift: bool, now: u128, g: u8)
    requires
        s.key(key, shift, now).1 == Action::SaveGrouping(g),
    ensures
        s.key(key, shift, now).0.grouping == g,
        (UserConfig {
            display: Some(DisplayConfig { grouping: Some(g) }),
        }).wanted_grouping() == Some(g),
{
}

/// After a move the cursor's line is among the visible ones. The one exception
/// is a cursor behind the last byte of a file of full lines where a single line
/// is visible: the line before it stays on top.
pub proof fn law_cursor_stays_visible(s: State, visible_rows: int)
    requires
        s.valid(),
        visible_rows >= 1,
        visible_rows > 1 || s.cursor_line() <= s.max_scroll_line(),
    ensures
        ({
            let t = s.scrolled_to_cursor(visible_rows);
            &&& t.scroll_line <= t.cursor_line() < t.scroll_line + visible_rows
            &&& t.scroll_line <= t.max_scroll_line()
        }),
{
    lemma_bytes_per_line(s);
    let b = s.bytes_per_line;
    let line = s.cursor / b;
    // The cursor's line lies at most one behind the last.
    assert(line <= s.total_lines()) by {
        vstd::arithmetic::div_mod::lemma_div_is_ordered(s.cursor, s.file_size + b - 1, b);
    }
    assert(line >= 0) by (nonlinear_arith)
        requires
            line == s.cursor / b,
            s.cursor >= 0,
            b >= 1,
    ;
}

/// A move that stays in the file is undone by the move back.
pub proof fn law_moving_back(s: State, delta: int, visible_rows: int)
    requires
        s.valid(),
        0 <= s.cursor + delta <= s.file_size,
    ensures
        ({
            let t = s.moved_to(s.cursor + delta, visible_rows);
            &&& t.cursor == s.cursor + delta
            &&& t.moved_to(t.cursor - delta, visible_rows).cursor == s.cursor
        }),
{
}

/// Two hex digits in edit mode make the byte that they write, at the place of
/// the cursor; once it is written the cursor stands behind it, and the next
/// digit starts a new byte.
pub proof fn law_two_digits_write_a_byte(
    s: State,
    a: char,
    b: char,
    shift: bool,
    now: u128,
    high: u8,
    low: u8,
)
    requires
        s.valid(),
        s.edit_mode,
        s.nibble_count == 0,
        s.file_size < u128::MAX,
        pattern::hex_value(a) == Some(high),
        pattern::hex_value(b) == Some(low),
    ensures
        16 * high + low <= 255,
        ({
            let byte = (16 * high + low) as u8;
            let t = s.key(Key::Char(a), shift, now).0;
            let u = t.edit_finished(s.write_request(byte), true);
            &&& s.key(Key::Char(a), shift, now).1 == Action::SkipRedraw
            &&& t.key(Key::Char(b), shift, now) == (t, Action::Write(s.write_request(byte)))
            &&& u.cursor == s.cursor + 1
            &&& u.file_size == viewer::larger(s.file_size, s.cursor + 1)
            &&& u.edit_mode
            &&& u.nibble_count == 0
        }),
{
    assert(high < 16 && low < 16);
    assert(high < 16 && low < 16 ==> ((high << 4) | low) == 16 * high + low) by (bit_vector);
}

/// A byte that could not be written leaves the file as long as it was, and
/// ends its entry.
pub proof fn law_failed_write_changes_no_file(s: State, request: WriteRequest)
    requires
        s.valid(),
    ensures
        s.edit_finished(request, false).file_size == s.file_size,
        s.edit_finished(request, false).cursor == viewer::smaller(s.cursor + 1, s.file_size),
        s.edit_finished(request, false).nibble_count == 0,
{
}

/// The space bar switches edit mode on, and off again.
pub proof fn law_space_toggles_edit_mode(s: State, shift: bool, now: u128)
    requires
        s.valid(),
        s.search == Phase::Inactive,
    ensures
        s.key(Key::Char(' '), shift, now).0.edit_mode == !s.edit_mode,
        !s.edit_mode ==> s.key(Key::Char(' '), shift, now).0.key(Key::Char(' '), shift, now).0 == (
        State { nibble_count: 0, ..s }),
{
}

/// In the prompt a backspace takes back the character typed last.
pub proof fn law_backspace_takes_back(s: State, input: Seq<char>, c: char, shift: bool, now: u128)
    requires
        s.search == Phase::Prompt(input),
    ensures
        s.key(Key::Char(c), shift, now).0.key(Key::Backspace, shift, now).0 == (State {
            search_error: None,
            ..s
        }),
{
    assert(input.push(c).drop_last() =~= input);
}

/// An input that is no pattern leaves the prompt open as it was and says why.
pub proof fn law_refused_pattern_keeps_prompt(
    s: State,
    input: Seq<char>,
    shift: bool,
    now: u128,
    error: Seq<char>,
)
    requires
        s.search == Phase::Prompt(input),
        pattern::parse_pattern(input) == Err::<Pattern, Seq<char>>(error),
    ensures
        s.key(Key::Enter, shift, now).0 == (State { search_error: Some(error), ..s }),
{
}

/// The address column has room for every offset in the file and for its end,
/// and for those in the file one digit to spare.
pub proof fn law_addresses_fit(file_size: int, offset: int)
    requires
        0 <= offset <= file_size,
    ensures
        text::hexadecimal(offset as nat).len() <= viewer::address_digits(file_size),
        offset < file_size ==> text::hexadecimal(offset as nat).len() < viewer::address_digits(
            file_size,
        ),
{
    let last = viewer::larger(file_size - 1, 0) as nat;
    if offset <= last {
        lemma_digits_grow(offset as nat, last);
    } else if last == 0 {
    } else {
        assert(16 * last / 16 == last && (16 * last) % 16 == 0);
        lemma_digits_grow(offset as nat, 16 * last);
        assert(text::digits(16 * last, 16) == text::digits(last, 16).push(text::digit_char(0)));
    }
}

proof fn lemma_digits_grow(a: nat, b: nat)
    requires
        a <= b,
    ensures
        text::hexadecimal(a).len() <= text::hexadecimal(b).len(),
    decreases b,
{
    if b >= 16 {
        if a >= 16 {
            lemma_digits_grow(a / 16, b / 16);
        } else {
            lemma_digits_grow(0, b / 16);
        }
    }
}

/// A line of the dump fits into the terminal whenever the terminal is wide
/// enough for a line with a single group, which is when the dump is shown.
pub proof fn law_lines_fit_terminal(
    s: State,
    r: int,
    thumb_top: int,
    thumb_height: int,
    file_bytes: Seq<u8>,
)
    requires
        s.valid(),
        s.laid_out() == s,
        s.min_width() <= s.term_cols,
        r >= 0,
        s.row_offset(r) <= s.file_size,
    ensures
        line::text_of_pieces(s.row(r, thumb_top, thumb_height, file_bytes).line()).len()
            <= s.term_cols,
{
    let row = s.row(r, thumb_top, thumb_height, file_bytes);
    let g = s.grouping;
    let groups = s.groups_per_line;
    lemma_bytes_per_line(s);
    assert(r * s.bytes_per_line >= 0 && s.scroll_line * s.bytes_per_line >= 0) by (nonlinear_arith)
        requires
            r >= 0,
            s.scroll_line >= 0,
            s.bytes_per_line >= 1,
    ;
    law_addresses_fit(s.file_size, row.offset);
    line::law_line_width(row, groups);
    let room = viewer::larger(s.term_cols - crate::constants::SCROLLBAR_WIDTH, 0);
    if room < viewer::narrowest_line(s.address_width, g) {
        assert(groups * (3 * g + 1) == 3 * g + 1) by (nonlinear_arith)
            requires
                groups == 1,
        ;
    } else {
        let free = room - (s.address_width + 4);
        let fit = free / (3 * g + 1);
        assert(1 <= fit && fit * (3 * g + 1) <= free) by (nonlinear_arith)
            requires
                fit == free / (3 * g + 1),
                free >= 3 * g + 1,
                g >= 1,
        ;
        assert(groups == fit);
    }
}

/// The address column of a file of two bytes and more is two digits wider than
/// the logarithm of its last offset to the base 16.
pub proof fn law_address_width_is_logarithmic(file_size: int)
    requires
        file_size >= 2,
    ensures
        viewer::address_digits(file_size) == vstd::arithmetic::logarithm::log(16, file_size - 1)
            + 2,
{
    lemma_digits_logarithm((file_size - 1) as nat);
}

proof fn lemma_digits_logarithm(n: nat)
    ensures
        text::hexadecimal(n).len() == vstd::arithmetic::logarithm::log(16, n as int) + 1,
    decreases n,
{
    if n < 16 {
        vstd::arithmetic::logarithm::lemma_log0(16, n as int);
    } else {
        lemma_digits_logarithm(n / 16);
        vstd::arithmetic::logarithm::lemma_log_s(16, n as int);
    }
}

/// In the normal mode the keys that are said to be the same are the same: Home,
/// `s` and Shift with Left; End, `e` and Shift with Right; PageUp, `u`, Shift
/// with Up and Shift with the wheel; PageDown, `d`, Shift with Down and Shift
/// with the wheel. The wheel alone moves by a line, as Up and Down do.
pub proof fn law_keys_with_the_same_meaning(s: State, shift: bool, now: u128)
    requires
        s.search == Phase::Inactive,
        !s.edit_mode,
    ensures
        s.key(Key::Char('s'), shift, now) == s.key(Key::Home, shift, now),
        s.key(Key::Left, true, now) == s.key(Key::Home, shift, now),
        s.key(Key::Char('e'), shift, now) == s.key(Key::End, shift, now),
        s.key(Key::Right, true, now) == s.key(Key::End, shift, now),
        s.key(Key::Char('u'), shift, now) == s.key(Key::PageUp, shift, now),
        s.key(Key::Up, true, now) == s.key(Key::PageUp, shift, now),
        s.wheel(Wheel::Up, true) == s.key(Key::PageUp, shift, now).0,
        s.key(Key::Char('d'), shift, now) == s.key(Key::PageDown, shift, now),
        s.key(Key::Down, true, now) == s.key(Key::PageDown, shift, now),
        s.wheel(Wheel::Down, true) == s.key(Key::PageDown, shift, now).0,
        s.wheel(Wheel::Up, false) == s.key(Key::Up, false, now).0,
        s.wheel(Wheel::Down, false) == s.key(Key::Down, false, now).0,
{
}

/// Esc leaves every stage of a search, with its clock stopped.
pub proof fn law_escape_leaves_search(s: State, shift: bool, now: u128)
    requires
        s.valid(),
        s.search != Phase::Inactive,
    ensures
        s.key(Key::Esc, shift, now).0.search == Phase::Inactive,
        s.key(Key::Esc, shift, now).0.search_start is None,
        s.key(Key::Esc, shift, now).0.cursor == s.cursor,
{
}

} // verus!
