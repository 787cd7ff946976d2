//! What each key does.

use crate::input::{Action, Key, Wheel};
use crate::laws;
use crate::laws::layout;
use crate::pattern;
use crate::viewer::{Phase, State, WriteRequest};
use vstd::prelude::*;

verus! {

/// Up and the wheel turned up take the cursor one line higher in the same
/// column, and to the start of the file where there is no such place; Down and
/// the wheel turned down undo it.
pub proof fn law_up_is_a_line(s: State, now: u128)
    requires
        s.valid(),
        s.search == Phase::Inactive,
        !s.edit_mode,
    ensures
        ({
            let t = s.key(Key::Up, false, now).0;
            let b = s.bytes_per_line;
            &&& s.wheel(Wheel::Up, false) == t
            &&& s.cursor < b ==> t.cursor == 0
            &&& s.cursor >= b ==> {
                &&& t.cursor == s.cursor - b
                &&& t.cursor % b == s.cursor % b
                &&& t.cursor / b == s.cursor / b - 1
                &&& t.key(Key::Down, false, now).0.cursor == s.cursor
                &&& t.wheel(Wheel::Down, false).cursor == s.cursor
            }
        }),
{
    laws::lemma_bytes_per_line(s);
    let b = s.bytes_per_line;
    if s.cursor >= b {
        lemma_one_line(s.cursor - b, b);
    }
}

/// Down and the wheel turned down take the cursor one line lower in the same
/// column, and to the end of the file where there is no such place; Up and the
/// wheel turned up undo it.
pub proof fn law_down_is_a_line(s: State, now: u128)
    requires
        s.valid(),
        s.search == Phase::Inactive,
        !s.edit_mode,
    ensures
        ({
            let t = s.key(Key::Down, false, now).0;
            let b = s.bytes_per_line;
            &&& s.wheel(Wheel::Down, false) == t
            &&& s.cursor + b > s.file_size ==> t.cursor == s.file_size
            &&& s.cursor + b <= s.file_size ==> {
                &&& t.cursor == s.cursor + b
                &&& t.cursor % b == s.cursor % b
                &&& t.cursor / b == s.cursor / b + 1
                &&& t.key(Key::Up, false, now).0.cursor == s.cursor
                &&& t.wheel(Wheel::Up, false).cursor == s.cursor
            }
        }),
{
    laws::lemma_bytes_per_line(s);
    lemma_one_line(s.cursor, s.bytes_per_line);
}

/// A line further on lies the same column, one line lower.
proof fn lemma_one_line(c: int, b: int)
    requires
        b >= 1,
    ensures
        (c + b) % b == c % b,
        (c + b) / b == c / b + 1,
{
    vstd::arithmetic::div_mod::lemma_fundamental_div_mod(c, b);
    assert(c + b == (c / b + 1) * b + c % b) by (nonlinear_arith)
        requires
            c == b * (c / b) + c % b,
    ;
    vstd::arithmetic::div_mod::lemma_fundamental_div_mod_converse(c + b, b, c / b + 1, c % b);
}

/// Left and Right take the cursor one byte back and one byte on, as long as it
/// stays in the file, and undo each other.
pub proof fn law_left_and_right_are_a_byte(s: State, now: u128)
    requires
        s.valid(),
        s.search == Phase::Inactive,
        !s.edit_mode,
    ensures
        ({
            let left = s.key(Key::Left, false, now).0;
            let right = s.key(Key::Right, false, now).0;
            &&& s.cursor == 0 ==> left.cursor == 0
            &&& s.cursor > 0 ==> left.cursor == s.cursor - 1
            &&& s.cursor > 0 ==> left.key(Key::Right, false, now).0.cursor == s.cursor
            &&& s.cursor == s.file_size ==> right.cursor == s.file_size
            &&& s.cursor < s.file_size ==> right.cursor == s.cursor + 1
            &&& s.cursor < s.file_size ==> right.key(Key::Left, false, now).0.cursor == s.cursor
        }),
{
}

/// A page is as many lines as the terminal has rows beside the information and
/// the status: PageUp, `u`, Shift with Up and Shift with the wheel take the
/// cursor a page back, and to the start of the file where there is none;
/// PageDown, `d`, Shift with Down and Shift with the wheel take it a page on, and
/// to the end of the file where there is none.
pub proof fn law_pages_are_the_visible_lines(s: State, shift: bool, now: u128)
    requires
        s.valid(),
        s.search == Phase::Inactive,
        !s.edit_mode,
    ensures
        ({
            let rows = if s.term_rows < 3 {
                1
            } else {
                s.term_rows - 2
            };
            let page = rows * s.bytes_per_line;
            let up = s.key(Key::PageUp, shift, now).0;
            let down = s.key(Key::PageDown, shift, now).0;
            &&& s.cursor < page ==> up.cursor == 0
            &&& s.cursor >= page ==> up.cursor == s.cursor - page
            &&& s.cursor >= page ==> up.key(Key::PageDown, shift, now).0.cursor == s.cursor
            &&& s.cursor + page > s.file_size ==> down.cursor == s.file_size
            &&& s.cursor + page <= s.file_size ==> down.cursor == s.cursor + page
            &&& s.cursor + page <= s.file_size ==> down.key(
                Key::PageUp,
                shift,
                now,
            ).0.cursor == s.cursor
            &&& s.key(Key::Char('u'), shift, now).0 == up
            &&& s.key(Key::Up, true, now).0 == up
            &&& s.wheel(Wheel::Up, true) == up
            &&& s.key(Key::Char('d'), shift, now).0 == down
            &&& s.key(Key::Down, true, now).0 == down
            &&& s.wheel(Wheel::Down, true) == down
        }),
{
    laws::lemma_bytes_per_line(s);
    let rows = s.visible_rows();
    assert(rows * s.bytes_per_line >= 0) by (nonlinear_arith)
        requires
            rows >= 0,
            s.bytes_per_line >= 0,
    ;
}

/// Home, `s` and Shift with Left take the cursor to the first byte; End, `e` and
/// Shift with Right behind the last one.
pub proof fn law_start_and_end(s: State, shift: bool, now: u128)
    requires
        s.valid(),
        s.search == Phase::Inactive,
        !s.edit_mode,
    ensures
        s.key(Key::Home, shift, now).0.cursor == 0,
        s.key(Key::Char('s'), shift, now).0.cursor == 0,
        s.key(Key::Left, true, now).0.cursor == 0,
        s.key(Key::End, shift, now).0.cursor == s.file_size,
        s.key(Key::Char('e'), shift, now).0.cursor == s.file_size,
        s.key(Key::Right, true, now).0.cursor == s.file_size,
{
}

/// The keys that move the cursor.
pub open spec fn is_move(key: Key) -> bool {
    ||| key == Key::Up
    ||| key == Key::Down
    ||| key == Key::Left
    ||| key == Key::Right
    ||| key == Key::Home
    ||| key == Key::End
    ||| key == Key::PageUp
    ||| key == Key::PageDown
    ||| key == Key::Char('s')
    ||| key == Key::Char('e')
    ||| key == Key::Char('u')
    ||| key == Key::Char('d')
}

/// A key that moves the cursor changes the cursor and the view alone, the view
/// follows the cursor, and the screen is drawn anew. So it is with the wheel.
pub proof fn law_moves_change_cursor_and_view(
    s: State,
    key: Key,
    wheel: Wheel,
    shift: bool,
    now: u128,
)
    requires
        s.valid(),
        s.search == Phase::Inactive,
        !s.edit_mode,
        is_move(key),
    ensures
        ({
            let t = s.key(key, shift, now).0;
            let u = s.wheel(wheel, shift);
            let rows = if s.term_rows < 3 {
                1
            } else {
                s.term_rows - 2
            };
            &&& s.key(key, shift, now).1 == Action::Redraw
            &&& t == (State { cursor: t.cursor, scroll_line: t.scroll_line, ..s })
            &&& t == (State { cursor: t.cursor, ..s }).scrolled_to_cursor(rows)
            &&& u == (State { cursor: u.cursor, scroll_line: u.scroll_line, ..s })
            &&& u == (State { cursor: u.cursor, ..s }).scrolled_to_cursor(rows)
        }),
{
}

/// The wheel moves the cursor by a line, and with Shift by a page, in edit mode
/// too.
pub proof fn law_wheel_moves_in_edit_mode(s: State)
    requires
        s.valid(),
        s.search == Phase::Inactive,
    ensures
        ({
            let b = s.bytes_per_line;
            let rows = if s.term_rows < 3 {
                1
            } else {
                s.term_rows - 2
            };
            &&& s.cursor >= b ==> s.wheel(Wheel::Up, false).cursor == s.cursor - b
            &&& s.cursor < b ==> s.wheel(Wheel::Up, false).cursor == 0
            &&& s.cursor >= rows * b ==> s.wheel(Wheel::Up, true).cursor == s.cursor - rows * b
            &&& s.cursor < rows * b ==> s.wheel(Wheel::Up, true).cursor == 0
            &&& s.cursor + b <= s.file_size ==> s.wheel(Wheel::Down, false).cursor == s.cursor + b
            &&& s.cursor + b > s.file_size ==> s.wheel(Wheel::Down, false).cursor == s.file_size
            &&& s.cursor + rows * b <= s.file_size ==> s.wheel(Wheel::Down, true).cursor
                == s.cursor + rows * b
            &&& s.cursor + rows * b > s.file_size ==> s.wheel(Wheel::Down, true).cursor
                == s.file_size
            &&& s.wheel(Wheel::Up, false).edit_mode == s.edit_mode
        }),
{
    laws::lemma_bytes_per_line(s);
    let rows = s.visible_rows();
    assert(rows * s.bytes_per_line >= 0) by (nonlinear_arith)
        requires
            rows >= 0,
            s.bytes_per_line >= 0,
    ;
}

/// The wheel changes the cursor and the view alone, in every mode.
pub proof fn law_wheel_changes_cursor_and_view(s: State, wheel: Wheel, shift: bool)
    ensures
        ({
            let t = s.wheel(wheel, shift);
            let rows = if s.term_rows < 3 {
                1
            } else {
                s.term_rows - 2
            };
            &&& t == (State { cursor: t.cursor, scroll_line: t.scroll_line, ..s })
            &&& s.search == Phase::Inactive ==> t == (State {
                cursor: t.cursor,
                ..s
            }).scrolled_to_cursor(rows)
        }),
{
}

/// The wheel does nothing while a search is shown.
pub proof fn law_wheel_waits_for_search(s: State, wheel: Wheel, shift: bool)
    requires
        s.search != Phase::Inactive,
    ensures
        s.wheel(wheel, shift) == s,
{
}

/// The keys 1 to 4 choose groups of 1, 2, 4 and 8 bytes: the choice is saved, the
/// lines are laid out for it, the cursor stays and its line goes on top, or the
/// last line where the cursor stands behind it. Nothing else changes.
pub proof fn law_number_keys_choose_grouping(s: State, c: char, shift: bool, now: u128)
    requires
        s.valid(),
        s.search == Phase::Inactive,
        !s.edit_mode,
        c == '1' || c == '2' || c == '3' || c == '4',
    ensures
        ({
            let g = if c == '1' {
                1u8
            } else if c == '2' {
                2u8
            } else if c == '3' {
                4u8
            } else {
                8u8
            };
            let t = s.key(Key::Char(c), shift, now).0;
            let laid_out = (State { grouping: g as int, ..s }).laid_out();
            &&& s.key(Key::Char(c), shift, now).1 == Action::SaveGrouping(g)
            &&& t.grouping == g
            &&& t == (State { scroll_line: t.scroll_line, ..laid_out })
            &&& t.scroll_line * t.bytes_per_line < s.file_size ==> t.scroll_line * t.bytes_per_line
                <= s.cursor < (t.scroll_line + 1) * t.bytes_per_line || (t.scroll_line + 1)
                * t.bytes_per_line == s.cursor == s.file_size
            &&& t.scroll_line * t.bytes_per_line >= s.file_size ==> t.scroll_line == 0
                && s.file_size == 0
        }),
{
    let t = s.key(Key::Char(c), shift, now).0;
    let g = t.grouping;
    laws::law_layout_keeps_valid(s, g);
    let laid_out = (State { grouping: g, ..s }).laid_out();
    laws::lemma_bytes_per_line(laid_out);
    layout::law_cursor_line(laid_out);
    layout::law_lines_hold_the_file(laid_out);
    let b = laid_out.bytes_per_line;
    let line = laid_out.cursor_line();
    let n = laid_out.total_lines();
    if line >= n {
        assert(n * b <= line * b) by (nonlinear_arith)
            requires
                n <= line,
                b >= 1,
        ;
        if line > n {
            assert((n + 1) * b <= line * b) by (nonlinear_arith)
                requires
                    n + 1 <= line,
                    b >= 1,
            ;
            assert((n + 1) * b == n * b + b) by (nonlinear_arith);
        }
        assert((n - 1) * b == n * b - b) by (nonlinear_arith);
    } else {
        assert(line * b <= (n - 1) * b) by (nonlinear_arith)
            requires
                line <= n - 1,
                b >= 1,
        ;
    }
}

/// The space bar starts editing, the slash opens an empty prompt, and `q` leaves
/// the viewer; nothing else changes.
pub proof fn law_keys_that_change_mode(s: State, shift: bool, now: u128)
    requires
        s.search == Phase::Inactive,
        !s.edit_mode,
    ensures
        s.key(Key::Char(' '), shift, now) == (
            State { edit_mode: true, nibble_count: 0, ..s },
            Action::Redraw,
        ),
        s.key(Key::Char('/'), shift, now) == (
            State { search: Phase::Prompt(Seq::empty()), ..s },
            Action::Redraw,
        ),
        s.key(Key::Char('q'), shift, now) == (s, Action::Quit),
{
}

/// A key without a meaning in the normal mode changes nothing.
pub proof fn law_other_keys_change_nothing(s: State, key: Key, shift: bool, now: u128)
    requires
        s.search == Phase::Inactive,
        !s.edit_mode,
        !is_move(key),
        key matches Key::Char(c) ==> c != '1' && c != '2' && c != '3' && c != '4' && c != ' ' && c
            != '/' && c != 'q',
    ensures
        s.key(key, shift, now) == (s, Action::Redraw),
{
}

/// The prompt takes characters at its end and gives them back there. Esc closes
/// it. Every such key puts the error away. Other keys but Enter change nothing.
pub proof fn law_typing_in_the_prompt(
    s: State,
    input: Seq<char>,
    c: char,
    key: Key,
    shift: bool,
    now: u128,
)
    requires
        s.search == Phase::Prompt(input),
    ensures
        ({
            let typed = s.key(Key::Char(c), shift, now).0;
            let back = s.key(Key::Backspace, shift, now).0;
            &&& typed.search is Prompt
            &&& typed.search->Prompt_0.len() == input.len() + 1
            &&& typed.search->Prompt_0[input.len() as int] == c
            &&& forall|i: int|
                0 <= i < input.len() ==> #[trigger] typed.search->Prompt_0[i] == input[i]
            &&& typed == (State { search: typed.search, search_error: None, ..s })
            &&& back.search is Prompt
            &&& input.len() == 0 ==> back.search->Prompt_0.len() == 0
            &&& input.len() > 0 ==> back.search->Prompt_0.len() == input.len() - 1
            &&& forall|i: int|
                0 <= i < input.len() - 1 ==> #[trigger] back.search->Prompt_0[i] == input[i]
            &&& back == (State { search: back.search, search_error: None, ..s })
            &&& s.key(Key::Esc, shift, now).0 == (State {
                search: Phase::Inactive,
                search_error: None,
                ..s
            })
            &&& key != Key::Enter && key != Key::Esc && key != Key::Backspace && !(key is Char)
                ==> s.key(key, shift, now).0 == s
            &&& s.key(key, shift, now).1 == Action::Redraw
        }),
{
}

/// Enter starts a search for what the prompt holds: from the byte behind the
/// cursor on, with nothing found, kept or counted yet, and with its clock
/// started. Where the prompt holds no pattern, it stays and says why.
pub proof fn law_enter_starts_search(s: State, input: Seq<char>, shift: bool, now: u128)
    requires
        s.search == Phase::Prompt(input),
        s.cursor <= u128::MAX,
    ensures
        match pattern::parse_pattern(input) {
            Ok(p) => s.key(Key::Enter, shift, now).0 == (State {
                search: Phase::Scanning,
                pattern: Some(p),
                search_offset: if s.cursor < u128::MAX {
                    s.cursor + 1
                } else {
                    s.cursor
                },
                search_progress: 0,
                search_matches: Seq::empty(),
                search_tail: Seq::empty(),
                search_start: Some(now),
                search_error: None,
                ..s
            }),
            Err(e) => s.key(Key::Enter, shift, now).0 == (State { search_error: Some(e), ..s }),
        },
{
}

/// While a search runs, Esc stops it where it is and no other key does anything;
/// once it has ended, any key puts its result away.
pub proof fn law_keys_during_search(s: State, key: Key, shift: bool, now: u128)
    ensures
        s.search == Phase::Scanning && key != Key::Esc ==> s.key(key, shift, now) == (
            s,
            Action::Redraw,
        ),
        s.search == Phase::Scanning && key == Key::Esc ==> s.key(key, shift, now) == (
            State { search: Phase::Inactive, search_start: None, ..s },
            Action::Redraw,
        ),
        s.search == Phase::MatchFound || s.search == Phase::NotFound ==> s.key(key, shift, now)
            == (
            State {
                search: Phase::Inactive,
                search_matches: Seq::empty(),
                search_start: None,
                search_error: None,
                ..s
            },
            Action::Redraw,
        ),
{
}

/// In edit mode two hex digits make a byte: after the first one nothing is
/// written and its value is kept; with the second one the byte of both goes over
/// the byte at the cursor, behind the last byte where the cursor stands there,
/// and nowhere where the cursor stands beyond 64 bits.
pub proof fn law_digits_write_at_the_cursor(
    s: State,
    a: char,
    b: char,
    high: u8,
    low: u8,
    shift: bool,
    now: u128,
)
    requires
        s.valid(),
        s.edit_mode,
        s.nibble_count == 0,
        pattern::hex_value(a) == Some(high),
        pattern::hex_value(b) == Some(low),
    ensures
        ({
            let t = s.key(Key::Char(a), shift, now).0;
            let (u, action) = t.key(Key::Char(b), shift, now);
            &&& s.key(Key::Char(a), shift, now).1 == Action::SkipRedraw
            &&& t == (State { nibble: high, nibble_count: 1, ..s })
            &&& u == t
            &&& action is Write
            &&& s.cursor == s.file_size ==> (action->Write_0 matches WriteRequest::Append(byte)
                && byte == 16 * high + low)
            &&& s.cursor < s.file_size && s.cursor < 0x1_0000_0000_0000_0000 ==> (
            action->Write_0 matches WriteRequest::At(offset, byte) && offset == s.cursor && byte
                == 16 * high + low)
            &&& s.cursor < s.file_size && s.cursor >= 0x1_0000_0000_0000_0000 ==> action->Write_0
                == WriteRequest::Refused
            &&& s.edit_key(Key::Char(a)) == s.key(Key::Char(a), shift, now)
            &&& t.edit_key(Key::Char(b)) == (u, action)
        }),
{
    assert(high < 16 && low < 16);
    assert(high < 16 && low < 16 ==> ((high << 4) | low) == 16 * high + low) by (bit_vector);
}

/// In edit mode the space bar and Esc leave it, with a digit that was entered
/// forgotten; a key that is no hex digit does nothing else.
pub proof fn law_other_keys_in_edit_mode(s: State, key: Key, shift: bool, now: u128)
    requires
        s.search == Phase::Inactive,
        s.edit_mode,
        key matches Key::Char(c) ==> pattern::hex_value(c) is None,
    ensures
        s.key(key, shift, now) == s.edit_key(key),
        s.key(key, shift, now).1 == Action::SkipRedraw,
        key == Key::Char(' ') || key == Key::Esc ==> s.key(key, shift, now).0 == (State {
            edit_mode: false,
            nibble_count: 0,
            ..s
        }),
        key != Key::Char(' ') && key != Key::Esc ==> s.key(key, shift, now).0 == s,
{
}

/// After a byte the cursor goes one on, as far as the file then reaches; a byte
/// that was appended has made the file one longer; the next digit starts a new
/// byte; the view follows. Nothing else changes.
pub proof fn law_cursor_goes_on_after_a_byte(s: State, request: WriteRequest, written: bool)
    requires
        s.valid(),
        s.file_size < u128::MAX,
    ensures
        ({
            let t = s.edit_finished(request, written);
            let size = if written && request is Append {
                s.file_size + 1
            } else {
                s.file_size
            };
            let rows = if s.term_rows < 3 {
                1
            } else {
                s.term_rows - 2
            };
            &&& t.file_size == size
            &&& s.cursor < size ==> t.cursor == s.cursor + 1
            &&& s.cursor == size ==> t.cursor == size
            &&& t.nibble_count == 0
            &&& t.nibble == 0
            &&& t == (State {
                file_size: size,
                cursor: t.cursor,
                nibble: 0,
                nibble_count: 0,
                ..s
            }).scrolled_to_cursor(rows)
        }),
{
}

} // verus!
