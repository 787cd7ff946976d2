//! How the terminal is shared out.

use crate::constants::SCROLLBAR_WIDTH;
use crate::line::{Piece, Style};
use crate::screen;
use crate::screen::{Area, Page};
use crate::text;
use crate::viewer::{Phase, State};
use vstd::prelude::*;

verus! {

/// Some lines of an area are as wide as it, and as high and as far down as was
/// asked for.
pub proof fn law_lines_of_an_area(area: Area, from: int, height: int)
    requires
        0 <= from,
        0 <= height,
        area.y + from <= u16::MAX,
        height <= u16::MAX,
    ensures
        ({
            let part = screen::lines_of(area, from, height);
            &&& part.x == area.x
            &&& part.width == area.width
            &&& part.y == area.y + from
            &&& part.height == height
        }),
{
}

/// A terminal too narrow for a line with a single group shows how wide it would
/// have to be, and nothing else; any wider one shows more.
pub proof fn law_narrow_terminal(s: State, area: Area)
    requires
        s.address_width >= 0,
        s.grouping >= 0,
    ensures
        ({
            let needed = s.address_width + 4 + 3 * s.grouping + SCROLLBAR_WIDTH;
            &&& area.width < needed ==> s.page(area) == Page::Message(
                "Enlarge terminal to at least "@ + text::decimal(needed as nat)
                    + " columns (grouping "@ + text::decimal(s.grouping as nat) + ")."@,
            )
            &&& area.width >= needed && !(s.search is Prompt) ==> s.page(area) is Normal
            &&& area.width >= needed && s.search is Prompt && area.height >= 4 ==> s.page(area)
                is Prompt
            &&& area.width >= needed && s.search is Prompt && area.height < 4 ==> s.page(area)
                == Page::Message("Terminal too small for search. Enlarge to at least 4 rows."@)
        }),
{
}

/// Dump, information and status share the terminal out from top to bottom, with
/// one line each for the last two, as far as there is room; the dump has as many
/// lines as the viewer counts as visible.
pub proof fn law_normal_screen(s: State, area: Area)
    requires
        s.page(area) is Normal,
        area.y + area.height <= u16::MAX,
    ensures
        s.page(area) matches Page::Normal { rows, hex, info, status } && {
            &&& rows == (if s.term_rows < 3 {
                1
            } else {
                s.term_rows - 2
            })
            &&& hex.x == area.x && hex.width == area.width && hex.y == area.y
            &&& status.x == area.x && status.width == area.width
            &&& status.y + status.height == area.y + area.height
            &&& area.height >= 3 ==> {
                &&& info matches Some(line)
                &&& line.x == area.x && line.width == area.width
                &&& hex.y + hex.height == line.y
                &&& line.height == 1
                &&& line.y + 1 == status.y
                &&& status.height == 1
            }
            &&& area.height == 2 ==> {
                &&& info is None
                &&& hex.y + hex.height == status.y
                &&& status.height == 1
            }
            &&& area.height < 2 ==> info is None && hex == area && status == area
        },
{
}

/// With the prompt open, the dump stands above two lines for the prompt and its
/// help and one for the status, from top to bottom; it has as many lines as its
/// part of the terminal, and the prompt shows what was typed.
pub proof fn law_prompt_screen(s: State, area: Area)
    requires
        s.page(area) is Prompt,
        area.y + area.height <= u16::MAX,
    ensures
        s.page(area) matches Page::Prompt { input, rows, hex, panel, status } && {
            &&& s.search == Phase::Prompt(input)
            &&& rows == hex.height
            &&& hex.x == area.x && hex.width == area.width && hex.y == area.y
            &&& panel.x == area.x && panel.width == area.width
            &&& status.x == area.x && status.width == area.width
            &&& hex.y + hex.height == panel.y
            &&& panel.height == 2
            &&& panel.y + 2 == status.y
            &&& status.height == 1
            &&& status.y + 1 == area.y + area.height
        },
{
}

/// The prompt is a slash, what was typed, and behind a space what is wrong with
/// it.
pub proof fn law_prompt_line(input: Seq<char>, error: Option<Seq<char>>)
    ensures
        ({
            let prompt = screen::prompt_pieces(input, error);
            &&& prompt.len() == (if error is Some {
                3nat
            } else {
                2
            })
            &&& prompt[0] == (Piece { text: "/"@, style: Style::Plain })
            &&& prompt[1] == (Piece { text: input, style: Style::Plain })
            &&& error matches Some(e) ==> prompt[2] == (Piece {
                text: " "@ + e,
                style: Style::Error,
            })
        }),
{
}

} // verus!
