//! How the terminal is shared out: the dump, the search panel, the information
//! line and the status line.

use crate::constants::SCROLLBAR_WIDTH;
use crate::line;
use crate::line::{push_span, Piece, Span, Style};
use crate::text;
use crate::text::push_decimal;
use crate::viewer;
use crate::viewer::{HexViewer, Phase, SearchState, State};
use vstd::prelude::*;
use vstd::string::*;

verus! {

/// A rectangle of the terminal.
#[derive(Debug, Clone, Copy, PartialEq, Eq, Structural)]
pub struct Area {
    pub x: u16,
    pub y: u16,
    pub width: u16,
    pub height: u16,
}

/// What a row of the layout asks for.
#[derive(Debug, Clone, Copy, PartialEq, Eq, Structural)]
pub enum RowHeight {
    /// So many lines, and all that are left over.
    Min(u16),
    /// So many lines.
    Length(u16),
}

/// The lines that a row asks for at least.
pub open spec fn asked(row: RowHeight) -> int {
    match row {
        RowHeight::Min(n) => n as int,
        RowHeight::Length(n) => n as int,
    }
}

/// The lines that the rows ask for together.
pub open spec fn asked_by_all(rows: Seq<RowHeight>) -> int
    decreases rows.len(),
{
    if rows.len() == 0 {
        0
    } else {
        asked_by_all(rows.drop_last()) + asked(rows.last())
    }
}

/// The lines that row `i` gets where there are enough for all: those it asks
/// for, and what is left over where it takes that.
pub open spec fn row_height(rows: Seq<RowHeight>, height: int, i: int) -> int {
    match rows[i] {
        RowHeight::Min(n) => n + (height - asked_by_all(rows)),
        RowHeight::Length(n) => n as int,
    }
}

/// The lines above row `i`.
pub open spec fn height_above(rows: Seq<RowHeight>, height: int, i: int) -> int
    decreases i,
{
    if i <= 0 {
        0
    } else {
        height_above(rows, height, i - 1) + row_height(rows, height, i - 1)
    }
}

/// The area is a row of the other: as wide, and within its height.
pub open spec fn is_row_of(row: Area, area: Area) -> bool {
    &&& row.x == area.x
    &&& row.width == area.width
    &&& area.y <= row.y
    &&& row.y + row.height <= area.y + area.height
}

/// `ratatui::layout::Layout::split`, on a vertical layout of `Constraint::Min`
/// and `Constraint::Length`, yields one rectangle per constraint, each within
/// the area and as wide as it. Where the area is high enough for all, they stand
/// below each other from its top, a `Length` gets the lines it names and the
/// `Min` gets what is left over. Two rows that ask for one line each and have one
/// between them share it in equal parts; their boundary is rounded to the end of
/// the line, so the first row gets it and the second is empty. Of other areas
/// that are too low nothing more is said: where several ways to share one out
/// are equally good, the choice may rest on the order in which the solver walks
/// its hash maps.
#[verifier::external_body]
fn split_rows(area: Area, rows: &Vec<RowHeight>) -> (r: Vec<Area>)
    requires
        rows@.len() > 0,
        forall|i: int| 0 < i < rows@.len() ==> (#[trigger] rows@[i]) is Length,
        asked(rows@[0]) <= i16::MAX,
        area.y + area.height <= u16::MAX,
    ensures
        r@.len() == rows@.len(),
        forall|i: int| 0 <= i < r@.len() ==> is_row_of(#[trigger] r@[i], area),
        asked_by_all(rows@) <= area.height ==> forall|i: int|
            0 <= i < r@.len() ==> {
                &&& (#[trigger] r@[i]).y == area.y + height_above(rows@, area.height as int, i)
                &&& r@[i].height == row_height(rows@, area.height as int, i)
            },
        rows@ == seq![RowHeight::Length(1), RowHeight::Length(1)] && area.height == 1 ==> {
            &&& r@[0] == area
            &&& r@[1].y == area.y + 1
            &&& r@[1].height == 0
        },
{
    let constraints = rows.iter().map(|r| match r {
        RowHeight::Min(n) => ratatui::layout::Constraint::Min(*n),
        RowHeight::Length(n) => ratatui::layout::Constraint::Length(*n),
    });
    let Area { x, y, width, height } = area;
    let rect = ratatui::layout::Rect { x, y, width, height };
    let rects = ratatui::layout::Layout::vertical(constraints).split(rect);
    rects.iter().map(|r| Area { x: r.x, y: r.y, width: r.width, height: r.height }).collect()
}

/// A part of an area: `height` lines from line `from` on.
pub open spec fn lines_of(area: Area, from: int, height: int) -> Area {
    Area { y: (area.y + from) as u16, height: height as u16, ..area }
}

/// Shares the area out between the dump, the information line, where there is
/// room for one, and the status line.
pub fn layout_normal(area: Area) -> (r: (Area, Option<Area>, Area))
    requires
        area.y + area.height <= u16::MAX,
    ensures
        area.height >= 3 ==> r == (
            lines_of(area, 0, area.height - 2),
            Some(lines_of(area, area.height - 2, 1)),
            lines_of(area, area.height - 1, 1),
        ),
        area.height == 2 ==> r == (lines_of(area, 0, 1), None::<Area>, lines_of(area, 1, 1)),
        area.height < 2 ==> r == (area, None::<Area>, area),
{
    if area.height >= 3 {
        let rows = vec![RowHeight::Min(1), RowHeight::Length(1), RowHeight::Length(1)];
        proof {
            lemma_three_rows(rows@, area.height as int);
        }
        let chunks = split_rows(area, &rows);
        (chunks[0], Some(chunks[1]), chunks[2])
    } else if area.height == 2 {
        let rows = vec![RowHeight::Min(1), RowHeight::Length(1)];
        proof {
            lemma_two_rows(rows@, area.height as int);
        }
        let chunks = split_rows(area, &rows);
        (chunks[0], None, chunks[1])
    } else {
        let rows = vec![RowHeight::Length(1)];
        proof {
            reveal_with_fuel(asked_by_all, 2);
            reveal_with_fuel(height_above, 2);
        }
        let chunks = split_rows(area, &rows);
        (chunks[0], None, chunks[0])
    }
}

proof fn lemma_three_rows(rows: Seq<RowHeight>, height: int)
    requires
        rows.len() == 3,
    ensures
        asked_by_all(rows) == asked(rows[0]) + asked(rows[1]) + asked(rows[2]),
        height_above(rows, height, 0) == 0,
        height_above(rows, height, 1) == row_height(rows, height, 0),
        height_above(rows, height, 2) == row_height(rows, height, 0) + row_height(rows, height, 1),
{
    reveal_with_fuel(asked_by_all, 4);
    reveal_with_fuel(height_above, 3);
}

proof fn lemma_two_rows(rows: Seq<RowHeight>, height: int)
    requires
        rows.len() == 2,
    ensures
        asked_by_all(rows) == asked(rows[0]) + asked(rows[1]),
        height_above(rows, height, 0) == 0,
        height_above(rows, height, 1) == row_height(rows, height, 0),
{
    reveal_with_fuel(asked_by_all, 3);
    reveal_with_fuel(height_above, 2);
}

/// What the terminal shows.
#[derive(Debug, PartialEq, Eq)]
pub enum Screen {
    /// Nothing but a message.
    Message(String),
    /// The dump, `rows` lines of it, above the search panel with this input and
    /// the status line.
    Prompt { input: String, rows: usize, hex: Area, panel: Area, status: Area },
    /// The dump, `rows` lines of it, above the information line and the status
    /// line.
    Normal { rows: usize, hex: Area, info: Option<Area>, status: Area },
}

/// A screen as contracts speak of it.
pub enum Page {
    Message(Seq<char>),
    Prompt { input: Seq<char>, rows: int, hex: Area, panel: Area, status: Area },
    Normal { rows: int, hex: Area, info: Option<Area>, status: Area },
}

impl View for Screen {
    type V = Page;

    open spec fn view(&self) -> Page {
        match *self {
            Screen::Message(text) => Page::Message(text@),
            Screen::Prompt { input, rows, hex, panel, status } => Page::Prompt {
                input: input@,
                rows: rows as int,
                hex,
                panel,
                status,
            },
            Screen::Normal { rows, hex, info, status } => Page::Normal {
                rows: rows as int,
                hex,
                info,
                status,
            },
        }
    }
}

impl State {
    /// The columns that a line with a single group needs.
    pub open spec fn min_width(self) -> int {
        viewer::narrowest_line(self.address_width, self.grouping)
    }

    /// What a terminal of this size shows.
    pub open spec fn page(self, area: Area) -> Page {
        let height = area.height as int;
        if area.width < self.min_width() {
            Page::Message(
                "Enlarge terminal to at least "@ + text::decimal(self.min_width() as nat)
                    + " columns (grouping "@ + text::decimal(self.grouping as nat) + ")."@,
            )
        } else {
            match self.search {
                Phase::Prompt(input) => if height < 4 {
                    Page::Message(
                        "Terminal too small for search. Enlarge to at least 4 rows."@,
                    )
                } else {
                    Page::Prompt {
                        input,
                        rows: height - 3,
                        hex: lines_of(area, 0, height - 3),
                        panel: lines_of(area, height - 3, 2),
                        status: lines_of(area, height - 1, 1),
                    }
                },
                _ => if height >= 3 {
                    Page::Normal {
                        rows: self.visible_rows(),
                        hex: lines_of(area, 0, height - 2),
                        info: Some(lines_of(area, height - 2, 1)),
                        status: lines_of(area, height - 1, 1),
                    }
                } else if height == 2 {
                    Page::Normal {
                        rows: self.visible_rows(),
                        hex: lines_of(area, 0, 1),
                        info: None,
                        status: lines_of(area, 1, 1),
                    }
                } else {
                    Page::Normal { rows: self.visible_rows(), hex: area, info: None, status: area }
                },
            }
        }
    }
}

/// Decides what a terminal of this size shows.
pub fn draw_ui(viewer: &HexViewer, area: Area) -> (r: Screen)
    requires
        area.y + area.height <= u16::MAX,
    ensures
        r@ == viewer@.page(area),
{
    let grouping: u128 = viewer.grouping as u128;
    let min_width: u128 = viewer.address_width as u128 + 4 + grouping * 2 + grouping
        + SCROLLBAR_WIDTH as u128;
    if (area.width as u128) < min_width {
        let mut message = "Enlarge terminal to at least ".to_string();
        push_decimal(&mut message, min_width);
        message.append(" columns (grouping ");
        push_decimal(&mut message, viewer.grouping as u128);
        message.append(").");
        return Screen::Message(message);
    }
    if let SearchState::Prompt(input) = &viewer.search {
        if area.height < 4 {
            return Screen::Message(
                "Terminal too small for search. Enlarge to at least 4 rows.".to_string(),
            );
        }
        let rows = vec![RowHeight::Min(1), RowHeight::Length(2), RowHeight::Length(1)];
        proof {
            lemma_three_rows(rows@, area.height as int);
        }
        let chunks = split_rows(area, &rows);
        return Screen::Prompt {
            input: input.clone(),
            rows: chunks[0].height as usize,
            hex: chunks[0],
            panel: chunks[1],
            status: chunks[2],
        };
    }
    let (hex, info, status) = layout_normal(area);
    Screen::Normal { rows: viewer.visible_rows(), hex, info, status }
}

/// The search panel: the prompt above a line of help.
#[derive(Debug, PartialEq, Eq)]
pub struct SearchPanel {
    pub prompt_area: Area,
    pub prompt: Vec<Span>,
    pub help_area: Area,
    pub help: String,
}

/// The prompt with its input, and what is wrong with it.
pub open spec fn prompt_pieces(input: Seq<char>, error: Option<Seq<char>>) -> Seq<Piece> {
    let prompt = seq![line::plain("/"@), line::plain(input)];
    match error {
        Some(e) => prompt.push(Piece { text: " "@ + e, style: Style::Error }),
        None => prompt,
    }
}

/// The contents of the search panel and where they stand.
pub fn render_search_panel(viewer: &HexViewer, input: &str, area: Area) -> (r: SearchPanel)
    requires
        area.y + area.height <= u16::MAX,
    ensures
        area.height >= 2 ==> r.prompt_area == lines_of(area, 0, 1),
        area.height >= 2 ==> r.help_area == lines_of(area, 1, 1),
        area.height == 1 ==> r.prompt_area == area,
        area.height == 1 ==> r.help_area == lines_of(area, 1, 0),
        area.height == 0 ==> r.prompt_area == area && r.help_area == area,
        line::pieces(r.prompt@) == prompt_pieces(input@, viewer@.search_error),
        r.help@ == "Hex: 48 65 6C 6C 6F   ASCII: \"Hello\"   Regex: /[Hh]ex/"@,
{
    let rows = vec![RowHeight::Length(1), RowHeight::Length(1)];
    proof {
        lemma_two_rows(rows@, area.height as int);
    }
    assert(rows@ =~= seq![RowHeight::Length(1), RowHeight::Length(1)]);
    let chunks = split_rows(area, &rows);
    let mut prompt: Vec<Span> = Vec::new();
    push_span(&mut prompt, "/".to_string(), Style::Plain);
    push_span(&mut prompt, input.to_string(), Style::Plain);
    if let Some(error) = &viewer.search_error {
        let mut text = " ".to_string();
        text.append(error.as_str());
        push_span(&mut prompt, text, Style::Error);
    }
    assert(line::pieces(prompt@) =~= prompt_pieces(input@, viewer@.search_error));
    SearchPanel {
        prompt_area: chunks[0],
        prompt,
        help_area: chunks[1],
        help: "Hex: 48 65 6C 6C 6F   ASCII: \"Hello\"   Regex: /[Hh]ex/".to_string(),
    }
}

} // verus!
