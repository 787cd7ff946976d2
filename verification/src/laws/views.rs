//! What contracts speak of is what the values hold.

use crate::finder;
use crate::line;
use crate::line::Span;
use crate::pattern;
use crate::pattern::{Pattern, SearchPattern};
use crate::screen::{Page, Screen};
use crate::viewer;
use crate::viewer::{HexViewer, Phase, SearchState};
use vstd::prelude::*;

verus! {

/// The state of a viewer is its fields.
pub proof fn law_state_is_the_fields(v: HexViewer)
    ensures
        v@.file_size == v.file_size,
        v@.filename == v.filename@,
        v@.cursor == v.cursor,
        v@.scroll_line == v.scroll_line,
        v@.grouping == v.grouping,
        v@.term_cols == v.term_cols,
        v@.term_rows == v.term_rows,
        v@.bytes_per_line == v.bytes_per_line,
        v@.groups_per_line == v.groups_per_line,
        v@.address_width == v.address_width,
        v@.search == v.search@,
        v.pattern is None <==> v@.pattern is None,
        v.pattern is Some ==> v@.pattern == Some(v.pattern->0@),
        v@.search_matches == v.search_matches@,
        v@.search_offset == v.search_offset,
        v@.search_progress == v.search_progress,
        v@.search_tail == v.search_tail@,
        v@.search_start == v.search_start,
        v.search_error is None <==> v@.search_error is None,
        v.search_error is Some ==> v@.search_error == Some(v.search_error->0@),
        v@.edit_mode == v.edit_mode,
        v@.nibble == v.nibble,
        v@.nibble_count == v.nibble_count,
{
}

/// The stage of a search is the one that it is in.
pub proof fn law_phase_is_the_stage(s: SearchState)
    ensures
        s is Inactive <==> s@ == Phase::Inactive,
        s is Scanning <==> s@ == Phase::Scanning,
        s is MatchFound <==> s@ == Phase::MatchFound,
        s is NotFound <==> s@ == Phase::NotFound,
        s is Prompt <==> s@ is Prompt,
        s is Prompt ==> s@ == Phase::Prompt(s->Prompt_0@),
{
}

/// A pattern is its bytes or its text, and a result of the prompt is the pattern
/// or the error.
pub proof fn law_pattern_is_its_content(p: SearchPattern, r: Result<SearchPattern, String>)
    ensures
        p is Exact ==> p@ == Pattern::Exact(p->Exact_0@),
        p is Regex ==> p@ == Pattern::Regex(p->Regex_0@),
        r is Ok ==> pattern::parse_view(r) == Ok::<Pattern, Seq<char>>(r->Ok_0@),
        r is Err ==> pattern::parse_view(r) == Err::<Pattern, Seq<char>>(r->Err_0@),
        viewer::pattern_view(Some(p)) == Some(p@),
        viewer::pattern_view(None) is None,
{
}

/// A text that may be missing is the text, or missing.
pub proof fn law_optional_text(t: Option<String>)
    ensures
        t is None <==> finder::text_view(t) is None,
        t is Some ==> finder::text_view(t) == Some(t->0@),
{
}

/// The pieces of a line are its spans, one for one.
pub proof fn law_pieces_are_the_spans(spans: Seq<Span>, i: int)
    ensures
        line::pieces(spans).len() == spans.len(),
        0 <= i < spans.len() ==> line::pieces(spans)[i].text == spans[i].text@,
        0 <= i < spans.len() ==> line::pieces(spans)[i].style == spans[i].style,
{
}

/// A page is what the screen holds.
pub proof fn law_page_is_the_screen(s: Screen)
    ensures
        s matches Screen::Message(message) ==> s@ == Page::Message(message@),
        s matches Screen::Prompt { input, rows, hex, panel, status } ==> s@ == (Page::Prompt {
            input: input@,
            rows: rows as int,
            hex,
            panel,
            status,
        }),
        s matches Screen::Normal { rows, hex, info, status } ==> s@ == (Page::Normal {
            rows: rows as int,
            hex,
            info,
            status,
        }),
{
}

} // verus!
