//! What keys, the mouse and the terminal do to the viewer.

use crate::pattern;
use crate::pattern::{hex_digit, parse_search_pattern};
use crate::viewer;
use crate::viewer::{HexViewer, Phase, SearchState, State, WriteRequest};
use vstd::prelude::*;

verus! {

/// A key.
#[derive(Debug, Clone, Copy, PartialEq, Eq, Structural)]
pub enum Key {
    Char(char),
    Esc,
    Enter,
    Backspace,
    Up,
    Down,
    Left,
    Right,
    Home,
    End,
    PageUp,
    PageDown,
    /// Any other key.
    Other,
}

/// A turn of the mouse wheel.
#[derive(Debug, Clone, Copy, PartialEq, Eq, Structural)]
pub enum Wheel {
    Up,
    Down,
}

/// What is to be done after a key.
#[derive(Debug, Clone, Copy, PartialEq, Eq, Structural)]
pub enum Action {
    /// Draw.
    Redraw,
    /// Wait for the next event first.
    SkipRedraw,
    /// Leave the viewer.
    Quit,
    /// Keep this grouping for the next session, then draw.
    SaveGrouping(u8),
    /// Write a byte, tell `finish_edit` how that went, and wait for the next
    /// event.
    Write(WriteRequest),
}

impl State {
    /// Where a byte entered at the cursor goes.
    pub open spec fn write_request(self, byte: u8) -> WriteRequest {
        if self.cursor == self.file_size {
            WriteRequest::Append(byte)
        } else if self.cursor <= u64::MAX {
            WriteRequest::At(self.cursor as u64, byte)
        } else {
            WriteRequest::Refused
        }
    }

    /// A key in edit mode: two hex digits make a byte, a space and Esc leave the
    /// mode.
    pub open spec fn edit_key(self, key: Key) -> (State, Action) {
        match key {
            Key::Char(c) => match pattern::hex_value(c) {
                Some(digit) => if self.nibble_count == 0 {
                    (State { nibble: digit, nibble_count: 1, ..self }, Action::SkipRedraw)
                } else {
                    (self, Action::Write(self.write_request((self.nibble << 4) | digit)))
                },
                None => if c == ' ' {
                    (self.without_edit_mode(), Action::SkipRedraw)
                } else {
                    (self, Action::SkipRedraw)
                },
            },
            Key::Esc => (self.without_edit_mode(), Action::SkipRedraw),
            _ => (self, Action::SkipRedraw),
        }
    }

    /// Edit mode is left.
    pub open spec fn without_edit_mode(self) -> State {
        State { edit_mode: false, nibble_count: 0, ..self }
    }

    /// A byte was to be written at the cursor, and was or was not.
    pub open spec fn edit_finished(self, request: WriteRequest, written: bool) -> State {
        let file_size = if written && request is Append {
            viewer::smaller(self.file_size + 1, u128::MAX as int)
        } else {
            self.file_size
        };
        let moved = State {
            file_size,
            cursor: viewer::smaller(self.cursor + 1, file_size),
            ..self
        }.scrolled_to_cursor(self.visible_rows());
        State { nibble: 0, nibble_count: 0, ..moved }
    }

    /// A key in the search prompt.
    pub open spec fn prompt_key(self, input: Seq<char>, key: Key, now: u128) -> State {
        match key {
            Key::Esc => State { search: Phase::Inactive, search_error: None, ..self },
            Key::Enter => match pattern::parse_pattern(input) {
                Ok(p) => self.search_started(p, now),
                Err(e) => State { search_error: Some(e), ..self },
            },
            Key::Char(c) => State {
                search: Phase::Prompt(input.push(c)),
                search_error: None,
                ..self
            },
            Key::Backspace => State {
                search: Phase::Prompt(
                    if input.len() > 0 {
                        input.drop_last()
                    } else {
                        input
                    },
                ),
                search_error: None,
                ..self
            },
            _ => self,
        }
    }

    /// Another grouping, with the cursor's line on top.
    pub open spec fn with_grouping(self, g: int) -> State {
        let laid_out = State { grouping: g, ..self }.laid_out();
        State { scroll_line: laid_out.cursor_line(), ..laid_out }.scrolled_to_cursor(
            self.visible_rows(),
        )
    }

    /// One line up.
    pub open spec fn line_up(self) -> State {
        self.moved_to(self.cursor - self.bytes_per_line, self.visible_rows())
    }

    /// One line down.
    pub open spec fn line_down(self) -> State {
        self.moved_to(self.cursor + self.bytes_per_line, self.visible_rows())
    }

    /// As many lines up as are visible.
    pub open spec fn one_page_up(self) -> State {
        self.moved_to(
            self.cursor - self.visible_rows() * self.bytes_per_line,
            self.visible_rows(),
        )
    }

    /// As many lines down as are visible.
    pub open spec fn one_page_down(self) -> State {
        self.moved_to(
            self.cursor + self.visible_rows() * self.bytes_per_line,
            self.visible_rows(),
        )
    }

    /// At the start of the file.
    pub open spec fn at_start(self) -> State {
        self.moved_to(0, self.visible_rows())
    }

    /// At the end of the file.
    pub open spec fn at_end(self) -> State {
        self.moved_to(self.file_size, self.visible_rows())
    }

    /// A key in the normal mode.
    pub open spec fn normal_key(self, key: Key, shift: bool) -> (State, Action) {
        match key {
            Key::Up => (
                if shift {
                    self.one_page_up()
                } else {
                    self.line_up()
                },
                Action::Redraw,
            ),
            Key::Down => (
                if shift {
                    self.one_page_down()
                } else {
                    self.line_down()
                },
                Action::Redraw,
            ),
            Key::Left => (
                if shift {
                    self.at_start()
                } else {
                    self.moved_to(self.cursor - 1, self.visible_rows())
                },
                Action::Redraw,
            ),
            Key::Right => (
                if shift {
                    self.at_end()
                } else {
                    self.moved_to(self.cursor + 1, self.visible_rows())
                },
                Action::Redraw,
            ),
            Key::Home => (self.at_start(), Action::Redraw),
            Key::End => (self.at_end(), Action::Redraw),
            Key::PageUp => (self.one_page_up(), Action::Redraw),
            Key::PageDown => (self.one_page_down(), Action::Redraw),
            Key::Char(c) => self.normal_char(c),
            _ => (self, Action::Redraw),
        }
    }

    /// A character in the normal mode.
    pub open spec fn normal_char(self, c: char) -> (State, Action) {
        if c == 'q' {
            (self, Action::Quit)
        } else if c == ' ' {
            (State { edit_mode: true, nibble_count: 0, ..self }, Action::Redraw)
        } else if c == 's' {
            (self.at_start(), Action::Redraw)
        } else if c == 'e' {
            (self.at_end(), Action::Redraw)
        } else if c == 'u' {
            (self.one_page_up(), Action::Redraw)
        } else if c == 'd' {
            (self.one_page_down(), Action::Redraw)
        } else if c == '1' {
            (self.with_grouping(1), Action::SaveGrouping(1))
        } else if c == '2' {
            (self.with_grouping(2), Action::SaveGrouping(2))
        } else if c == '3' {
            (self.with_grouping(4), Action::SaveGrouping(4))
        } else if c == '4' {
            (self.with_grouping(8), Action::SaveGrouping(8))
        } else if c == '/' {
            (State { search: Phase::Prompt(Seq::empty()), ..self }, Action::Redraw)
        } else {
            (self, Action::Redraw)
        }
    }

    /// A key that is pressed at the time `now`.
    pub open spec fn key(self, key: Key, shift: bool, now: u128) -> (State, Action) {
        match self.search {
            Phase::Prompt(input) => (self.prompt_key(input, key, now), Action::Redraw),
            Phase::Scanning => if key == Key::Esc {
                (State { search: Phase::Inactive, search_start: None, ..self }, Action::Redraw)
            } else {
                (self, Action::Redraw)
            },
            Phase::MatchFound | Phase::NotFound => (
                State {
                    search: Phase::Inactive,
                    search_matches: Seq::empty(),
                    search_start: None,
                    search_error: None,
                    ..self
                },
                Action::Redraw,
            ),
            Phase::Inactive => if self.edit_mode {
                self.edit_key(key)
            } else {
                self.normal_key(key, shift)
            },
        }
    }

    /// A turn of the mouse wheel.
    pub open spec fn wheel(self, wheel: Wheel, shift: bool) -> State {
        if self.search != Phase::Inactive {
            self
        } else {
            match (wheel, shift) {
                (Wheel::Up, true) => self.one_page_up(),
                (Wheel::Up, false) => self.line_up(),
                (Wheel::Down, true) => self.one_page_down(),
                (Wheel::Down, false) => self.line_down(),
            }
        }
    }

    /// A terminal of another size.
    pub open spec fn resized(self, cols: u16, rows: u16) -> State {
        let s = State { term_cols: cols as int, term_rows: rows as int, ..self }.laid_out();
        s.scrolled_to_cursor(s.visible_rows())
    }
}

/// Handles a key in edit mode.
pub fn handle_edit_key(viewer: &mut HexViewer, key: Key) -> (r: Action)
    ensures
        (final(viewer)@, r) == old(viewer)@.edit_key(key),
{
    match key {
        Key::Char(c) => match hex_digit(c) {
            Some(digit) => {
                if viewer.nibble_count == 0 {
                    viewer.nibble = digit;
                    viewer.nibble_count = 1;
                    Action::SkipRedraw
                } else {
                    Action::Write(viewer.write_byte_at((viewer.nibble << 4) | digit))
                }
            },
            None => {
                if c == ' ' {
                    viewer.edit_mode = false;
                    viewer.nibble_count = 0;
                }
                Action::SkipRedraw
            },
        },
        Key::Esc => {
            viewer.edit_mode = false;
            viewer.nibble_count = 0;
            Action::SkipRedraw
        },
        _ => Action::SkipRedraw,
    }
}

/// Moves on behind a byte that was to be written at the cursor.
pub fn finish_edit(viewer: &mut HexViewer, request: WriteRequest, written: bool)
    ensures
        final(viewer)@ == old(viewer)@.edit_finished(request, written),
{
    if written {
        viewer.byte_written(request);
    }
    viewer.cursor = if viewer.cursor < viewer.file_size {
        viewer.cursor + 1
    } else {
        viewer.file_size
    };
    let rows: usize = viewer.visible_rows();
    viewer.ensure_cursor_visible(rows);
    viewer.nibble_count = 0;
    viewer.nibble = 0;
}

fn handle_prompt_key(viewer: &mut HexViewer, key: Key, now: u128)
    requires
        old(viewer)@.search is Prompt,
        key == Key::Enter ==> !pattern::cuts_character(old(viewer)@.search->Prompt_0),
    ensures
        final(viewer)@ == old(viewer)@.prompt_key(old(viewer)@.search->Prompt_0, key, now),
{
    match key {
        Key::Esc => {
            viewer.search = SearchState::Inactive;
            viewer.search_error = None;
        },
        Key::Enter => {
            let parsed = match &viewer.search {
                SearchState::Prompt(input) => parse_search_pattern(input.as_str()),
                _ => Err(String::new()),
            };
            match parsed {
                Ok(p) => {
                    viewer.pattern = Some(p);
                    viewer.search_offset = viewer.cursor.saturating_add(1);
                    viewer.search_progress = 0;
                    viewer.search_matches = Vec::new();
                    viewer.search_tail = Vec::new();
                    viewer.search_start = Some(now);
                    viewer.search_error = None;
                    viewer.search = SearchState::Scanning;
                },
                Err(e) => {
                    viewer.search_error = Some(e);
                },
            }
        },
        Key::Char(c) => {
            if let SearchState::Prompt(input) = &mut viewer.search {
                input.push(c);
            }
            viewer.search_error = None;
        },
        Key::Backspace => {
            if let SearchState::Prompt(input) = &mut viewer.search {
                let _ = input.pop();
            }
            viewer.search_error = None;
        },
        _ => {},
    }
}

fn set_grouping(viewer: &mut HexViewer, g: u8)
    requires
        g > 0,
    ensures
        final(viewer)@ == old(viewer)@.with_grouping(g as int),
{
    let rows: usize = viewer.visible_rows();
    viewer.grouping = g;
    viewer.recalc_layout();
    proof {
        viewer::lemma_lines_hold_bytes(State { grouping: g as int, ..old(viewer)@ });
    }
    viewer.scroll_line = viewer.cursor / viewer.bytes_per_line as u128;
    viewer.ensure_cursor_visible(rows);
}

fn handle_normal_key(viewer: &mut HexViewer, key: Key, shift: bool) -> (r: Action)
    ensures
        (final(viewer)@, r) == old(viewer)@.normal_key(key, shift),
{
    let rows: usize = viewer.visible_rows();
    let per_line: i128 = viewer.bytes_per_line as i128;
    match key {
        Key::Up => if shift {
            viewer.page_up(rows)
        } else {
            viewer.move_cursor(-per_line, rows)
        },
        Key::Down => if shift {
            viewer.page_down(rows)
        } else {
            viewer.move_cursor(per_line, rows)
        },
        Key::Left => if shift {
            viewer.go_home(rows)
        } else {
            viewer.move_cursor(-1, rows)
        },
        Key::Right => if shift {
            viewer.go_end(rows)
        } else {
            viewer.move_cursor(1, rows)
        },
        Key::Home => viewer.go_home(rows),
        Key::End => viewer.go_end(rows),
        Key::PageUp => viewer.page_up(rows),
        Key::PageDown => viewer.page_down(rows),
        Key::Char(c) => {
            return handle_normal_char(viewer, c);
        },
        _ => {},
    }
    Action::Redraw
}

fn handle_normal_char(viewer: &mut HexViewer, c: char) -> (r: Action)
    ensures
        (final(viewer)@, r) == old(viewer)@.normal_char(c),
{
    let rows: usize = viewer.visible_rows();
    if c == 'q' {
        return Action::Quit;
    } else if c == ' ' {
        viewer.edit_mode = true;
        viewer.nibble_count = 0;
    } else if c == 's' {
        viewer.go_home(rows);
    } else if c == 'e' {
        viewer.go_end(rows);
    } else if c == 'u' {
        viewer.page_up(rows);
    } else if c == 'd' {
        viewer.page_down(rows);
    } else if c == '1' {
        set_grouping(viewer, 1);
        return Action::SaveGrouping(1);
    } else if c == '2' {
        set_grouping(viewer, 2);
        return Action::SaveGrouping(2);
    } else if c == '3' {
        set_grouping(viewer, 4);
        return Action::SaveGrouping(4);
    } else if c == '4' {
        set_grouping(viewer, 8);
        return Action::SaveGrouping(8);
    } else if c == '/' {
        viewer.search = SearchState::Prompt(String::new());
    }
    Action::Redraw
}

/// Handles a key that is pressed at the time `now`.
pub fn handle_key(viewer: &mut HexViewer, key: Key, shift: bool, now: u128) -> (r: Action)
    requires
        key == Key::Enter && old(viewer)@.search is Prompt ==> !pattern::cuts_character(
            old(viewer)@.search->Prompt_0,
        ),
    ensures
        (final(viewer)@, r) == old(viewer)@.key(key, shift, now),
{
    match &viewer.search {
        SearchState::Prompt(_) => {
            handle_prompt_key(viewer, key, now);
            Action::Redraw
        },
        SearchState::Scanning => {
            if let Key::Esc = key {
                viewer.search = SearchState::Inactive;
                viewer.search_start = None;
            }
            Action::Redraw
        },
        SearchState::MatchFound | SearchState::NotFound => {
            viewer.search = SearchState::Inactive;
            viewer.search_matches = Vec::new();
            viewer.search_start = None;
            viewer.search_error = None;
            Action::Redraw
        },
        SearchState::Inactive => {
            if viewer.edit_mode {
                handle_edit_key(viewer, key)
            } else {
                handle_normal_key(viewer, key, shift)
            }
        },
    }
}

/// Handles a turn of the mouse wheel.
pub fn handle_wheel(viewer: &mut HexViewer, wheel: Wheel, shift: bool)
    ensures
        final(viewer)@ == old(viewer)@.wheel(wheel, shift),
{
    if let SearchState::Inactive = &viewer.search {
        let rows: usize = viewer.visible_rows();
        let per_line: i128 = viewer.bytes_per_line as i128;
        match wheel {
            Wheel::Up => if shift {
                viewer.page_up(rows)
            } else {
                viewer.move_cursor(-per_line, rows)
            },
            Wheel::Down => if shift {
                viewer.page_down(rows)
            } else {
                viewer.move_cursor(per_line, rows)
            },
        }
    }
}

/// Handles a terminal of another size.
pub fn handle_resize(viewer: &mut HexViewer, cols: u16, rows: u16)
    ensures
        final(viewer)@ == old(viewer)@.resized(cols, rows),
{
    viewer.term_cols = cols;
    viewer.term_rows = rows;
    viewer.recalc_layout();
    let visible: usize = viewer.visible_rows();
    viewer.ensure_cursor_visible(visible);
}

} // verus!
