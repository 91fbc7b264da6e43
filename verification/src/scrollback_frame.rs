//! A scrollback chunk assembled from the parts of a chunk frame, checked in
//! the order in which a frame's parts are read.
use vstd::prelude::*;

use crate::kinds::RowSemanticPrompt;
use crate::protocol::{
    validate_scrollback_chunk_start_line, validate_scrollback_row_line,
    validate_scrollback_row_public_range, ScrollbackChunkSummary, ScrollbackError, ScrollbackLine,
};
use crate::render::{render_run_summaries, runs_text};
use crate::surface::{
    colors_view, copy_runs, first_failure, link_table_failure, no_colors, palette_diff_present,
    prompt_check, semantic_content_check, style_count, style_id_check, hyperlink_id_check,
    terminal_colors_have_palette_diff, validate_cell_run_hyperlink_ids,
    validate_cell_run_semantic_content, validate_cell_run_style_ids, validate_hyperlink_table,
    validate_row_semantic_prompt, CellRunSummary, ColorsView, HyperlinkSummary, HyperlinkView,
    StyleSummary, SurfaceError, TerminalColorSummary,
};

verus! {

/// Why the parts of a scrollback chunk frame make no chunk.
#[derive(Clone, Debug, PartialEq, Eq)]
pub enum ChunkError {
    Surface(SurfaceError),
    Scrollback(ScrollbackError),
    PaletteDiff,
    MissingRows,
    MissingPaneId,
    EmptyPaneId,
}

/// One row of a chunk frame, as read.
#[derive(Clone, Debug, PartialEq, Eq)]
pub struct ScrollbackRowPart {
    pub line: u64,
    pub runs: Vec<CellRunSummary>,
    pub dirty_hash: u64,
    pub row_state_hash: u64,
    pub semantic_prompt: RowSemanticPrompt,
    pub dirty: bool,
    pub kitty_virtual_placeholder: bool,
}

/// A check on cells, then what follows it.
pub open spec fn surface_then(check: Result<(), SurfaceError>, next: Result<(), ChunkError>) -> Result<
    (),
    ChunkError,
> {
    match check {
        Ok(()) => next,
        Err(e) => Err(ChunkError::Surface(e)),
    }
}

/// Row `index` of a chunk starting at `start_line` is line
/// `start_line + index`, and no later than the last line.
pub open spec fn public_line_check(start_line: u64, total_lines: u64, index: int, line: u64) -> Result<
    (),
    ScrollbackError,
> {
    if start_line + index > u64::MAX {
        Err(ScrollbackError::RowLineOverflow)
    } else if line != start_line + index {
        Err(ScrollbackError::RowLineMismatch { row_line: line, expected: (start_line + index) as u64 })
    } else if line > total_lines {
        Err(ScrollbackError::RowBeyondTotal { row_line: line, total_lines })
    } else {
        Ok(())
    }
}

/// The checks on row `index`: its prompt kind, the semantic content, style
/// ids and hyperlink ids of its runs, then its line number.
pub open spec fn row_failure(
    r: ScrollbackRowPart,
    index: int,
    start_line: u64,
    total_lines: u64,
    styles: Seq<StyleSummary>,
    links: Seq<HyperlinkView>,
) -> Result<(), ChunkError> {
    let runs = r.runs.deep_view();
    surface_then(
        prompt_check(r.semantic_prompt),
        surface_then(
            first_failure(runs, semantic_content_check()),
            surface_then(
                first_failure(runs, style_id_check(style_count(styles.len()))),
                surface_then(
                    first_failure(runs, hyperlink_id_check(links)),
                    if r.line == 0 {
                        Err(ChunkError::Scrollback(ScrollbackError::RowLine))
                    } else {
                        match public_line_check(start_line, total_lines, index, r.line) {
                            Err(e) => Err(ChunkError::Scrollback(e)),
                            Ok(()) => Ok(()),
                        }
                    },
                ),
            ),
        ),
    )
}

/// The first row, in order, whose checks fail.
pub open spec fn rows_failure(
    rows: Seq<ScrollbackRowPart>,
    start_line: u64,
    total_lines: u64,
    styles: Seq<StyleSummary>,
    links: Seq<HyperlinkView>,
) -> Result<(), ChunkError>
    decreases rows.len(),
{
    if rows.len() == 0 {
        Ok(())
    } else {
        match rows_failure(rows.drop_last(), start_line, total_lines, styles, links) {
            Err(e) => Err(e),
            Ok(()) => row_failure(rows.last(), rows.len() - 1, start_line, total_lines, styles, links),
        }
    }
}

/// The styles a chunk carries: none when the frame has no style table.
pub open spec fn chunk_styles(styles: Option<Vec<StyleSummary>>) -> Seq<StyleSummary> {
    match styles {
        Some(s) => s@,
        None => Seq::empty(),
    }
}

/// The hyperlinks a chunk carries: none when the frame has no table.
pub open spec fn chunk_links(hyperlinks: Option<Vec<HyperlinkSummary>>) -> Seq<HyperlinkView> {
    match hyperlinks {
        Some(h) => h.deep_view(),
        None => Seq::empty(),
    }
}

/// The colors a chunk carries: the default colors when the frame has none.
pub open spec fn chunk_colors(colors: Option<TerminalColorSummary>) -> ColorsView {
    match colors_view(colors) {
        Some(c) => c,
        None => no_colors(),
    }
}

/// What the parts of a chunk frame give: the hyperlink table, the colors
/// (which carry no palette diff), the presence of rows, the start line and
/// each row are checked in that order, and the pane id last. On success,
/// the pane id.
pub open spec fn chunk_failure(
    pane_id: Option<Seq<char>>,
    start_line: u64,
    total_lines: u64,
    styles: Option<Vec<StyleSummary>>,
    hyperlinks: Option<Vec<HyperlinkSummary>>,
    colors: Option<TerminalColorSummary>,
    rows: Option<Vec<ScrollbackRowPart>>,
) -> Result<Seq<char>, ChunkError> {
    let link_check = match hyperlinks {
        Some(h) => link_table_failure(h.deep_view()),
        None => Ok(()),
    };
    if link_check is Err {
        Err(ChunkError::Surface(link_check->Err_0))
    } else if palette_diff_present(chunk_colors(colors)) {
        Err(ChunkError::PaletteDiff)
    } else if rows is None {
        Err(ChunkError::MissingRows)
    } else if start_line == 0 {
        Err(ChunkError::Scrollback(ScrollbackError::ChunkStartLine))
    } else {
        match rows_failure(
            rows->Some_0@,
            start_line,
            total_lines,
            chunk_styles(styles),
            chunk_links(hyperlinks),
        ) {
            Err(e) => Err(e),
            Ok(()) => match pane_id {
                None => Err(ChunkError::MissingPaneId),
                Some(p) => if p.len() == 0 {
                    Err(ChunkError::EmptyPaneId)
                } else {
                    Ok(p)
                },
            },
        }
    }
}

/// A chunk line made from a row: its text is the text of its runs.
pub open spec fn line_from_row(l: ScrollbackLine, r: ScrollbackRowPart) -> bool {
    &&& l.line == r.line
    &&& l.text@ == runs_text(r.runs.deep_view())
    &&& l.runs.deep_view() == r.runs.deep_view()
    &&& l.dirty_hash == r.dirty_hash
    &&& l.row_state_hash == r.row_state_hash
    &&& l.semantic_prompt == r.semantic_prompt
    &&& l.dirty == r.dirty
    &&& l.kitty_virtual_placeholder == r.kitty_virtual_placeholder
}

proof fn lemma_rows_failure_prefix(
    rows: Seq<ScrollbackRowPart>,
    k: int,
    start_line: u64,
    total_lines: u64,
    styles: Seq<StyleSummary>,
    links: Seq<HyperlinkView>,
)
    requires
        0 <= k <= rows.len(),
        rows_failure(rows.take(k), start_line, total_lines, styles, links) is Err,
    ensures
        rows_failure(rows, start_line, total_lines, styles, links) == rows_failure(
            rows.take(k),
            start_line,
            total_lines,
            styles,
            links,
        ),
    decreases rows.len(),
{
    if k == rows.len() {
        assert(rows.take(k) =~= rows);
    } else {
        assert(rows.drop_last().take(k) =~= rows.take(k));
        lemma_rows_failure_prefix(rows.drop_last(), k, start_line, total_lines, styles, links);
    }
}

fn row_checked(
    r: &ScrollbackRowPart,
    index: usize,
    start_line: u64,
    total_lines: u64,
    styles: &Vec<StyleSummary>,
    links: &Vec<HyperlinkSummary>,
) -> (checked: Result<(), ChunkError>)
    ensures
        checked == row_failure(*r, index as int, start_line, total_lines, styles@, links.deep_view()),
{
    if let Err(e) = validate_row_semantic_prompt(r.semantic_prompt) {
        return Err(ChunkError::Surface(e));
    }
    if let Err(e) = validate_cell_run_semantic_content(&r.runs) {
        return Err(ChunkError::Surface(e));
    }
    if let Err(e) = validate_cell_run_style_ids(&r.runs, styles) {
        return Err(ChunkError::Surface(e));
    }
    if let Err(e) = validate_cell_run_hyperlink_ids(&r.runs, links) {
        return Err(ChunkError::Surface(e));
    }
    if let Err(e) = validate_scrollback_row_line(r.line) {
        return Err(ChunkError::Scrollback(e));
    }
    if let Err(e) = validate_scrollback_row_public_range(start_line, total_lines, index, r.line) {
        return Err(ChunkError::Scrollback(e));
    }
    Ok(())
}

/// The scrollback chunk a chunk frame's parts make, or the first check
/// they fail. A frame without styles or hyperlinks carries none, one
/// without colors the default colors.
#[verifier::loop_isolation(false)]
pub fn scrollback_chunk_from_parts(
    pane_id: Option<&str>,
    scrollback_version: u64,
    start_line: u64,
    total_lines: u64,
    styles: Option<Vec<StyleSummary>>,
    hyperlinks: Option<Vec<HyperlinkSummary>>,
    colors: Option<TerminalColorSummary>,
    rows: Option<Vec<ScrollbackRowPart>>,
) -> (chunk: Result<ScrollbackChunkSummary, ChunkError>)
    ensures
        match chunk {
            Ok(c) => {
                &&& chunk_failure(
                    match pane_id {
                        Some(p) => Some(p@),
                        None => None,
                    },
                    start_line,
                    total_lines,
                    styles,
                    hyperlinks,
                    colors,
                    rows,
                ) == Ok::<Seq<char>, ChunkError>(c.pane_id@)
                &&& c.scrollback_version == scrollback_version
                &&& c.start_line == start_line
                &&& c.total_lines == total_lines
                &&& c.styles@ == chunk_styles(styles)
                &&& c.hyperlinks.deep_view() == chunk_links(hyperlinks)
                &&& c.colors@ == chunk_colors(colors)
                &&& c.lines@.len() == rows->Some_0@.len()
                &&& forall|i: int|
                    0 <= i < c.lines@.len() ==> line_from_row(
                        #[trigger] c.lines@[i],
                        rows->Some_0@[i],
                    )
                &&& forall|i: int|
                    0 <= i < c.lines@.len() ==> {
                        &&& (#[trigger] c.lines@[i]).line == rows->Some_0@[i].line
                        &&& c.lines@[i].line == start_line + i
                        &&& c.lines@[i].line <= total_lines
                        &&& c.lines@[i].text@ == runs_text(rows->Some_0@[i].runs.deep_view())
                        &&& c.lines@[i].runs.deep_view() == rows->Some_0@[i].runs.deep_view()
                        &&& c.lines@[i].dirty_hash == rows->Some_0@[i].dirty_hash
                        &&& c.lines@[i].row_state_hash == rows->Some_0@[i].row_state_hash
                        &&& c.lines@[i].semantic_prompt == rows->Some_0@[i].semantic_prompt
                        &&& c.lines@[i].dirty == rows->Some_0@[i].dirty
                        &&& c.lines@[i].kitty_virtual_placeholder
                            == rows->Some_0@[i].kitty_virtual_placeholder
                    }
            },
            Err(e) => chunk_failure(
                match pane_id {
                    Some(p) => Some(p@),
                    None => None,
                },
                start_line,
                total_lines,
                styles,
                hyperlinks,
                colors,
                rows,
            ) == Err::<Seq<char>, ChunkError>(e),
        },
{
    let ghost in_styles = chunk_styles(styles);
    let ghost in_links = chunk_links(hyperlinks);
    let styles = match styles {
        Some(s) => s,
        None => Vec::new(),
    };
    assert(styles@ =~= in_styles);
    let hyperlinks = match hyperlinks {
        Some(h) => {
            if let Err(e) = validate_hyperlink_table(&h) {
                return Err(ChunkError::Surface(e));
            }
            h
        },
        None => Vec::new(),
    };
    assert(hyperlinks.deep_view() =~= in_links);
    let colors = match colors {
        Some(c) => c,
        None => TerminalColorSummary::default(),
    };
    if terminal_colors_have_palette_diff(&colors) {
        return Err(ChunkError::PaletteDiff);
    }
    let rows = match rows {
        Some(r) => r,
        None => {
            return Err(ChunkError::MissingRows);
        },
    };
    if let Err(e) = validate_scrollback_chunk_start_line(start_line) {
        return Err(ChunkError::Scrollback(e));
    }
    let ghost all = rows@;
    let mut lines: Vec<ScrollbackLine> = Vec::new();
    let mut i: usize = 0;
    while i < rows.len()
        invariant
            all == rows@,
            styles@ == in_styles,
            hyperlinks.deep_view() == in_links,
            0 <= i <= all.len(),
            rows_failure(all.take(i as int), start_line, total_lines, in_styles, in_links) == Ok::<
                (),
                ChunkError,
            >(()),
            lines@.len() == i,
            forall|j: int| 0 <= j < i ==> line_from_row(#[trigger] lines@[j], all[j]),
            forall|j: int|
                0 <= j < i ==> (#[trigger] lines@[j]).line == start_line + j && lines@[j].line
                    <= total_lines,
        decreases all.len() - i,
    {
        let r = &rows[i];
        let checked = row_checked(r, i, start_line, total_lines, &styles, &hyperlinks);
        proof {
            assert(all.take(i + 1).drop_last() =~= all.take(i as int));
            assert(all.take(i + 1).last() == all[i as int]);
        }
        if let Err(e) = checked {
            proof {
                lemma_rows_failure_prefix(all, i + 1, start_line, total_lines, in_styles, in_links);
            }
            return Err(e);
        }
        assert(public_line_check(start_line, total_lines, i as int, r.line) == Ok::<
            (),
            ScrollbackError,
        >(()));
        let line = ScrollbackLine {
            line: r.line,
            text: render_run_summaries(&r.runs),
            runs: copy_runs(&r.runs),
            dirty_hash: r.dirty_hash,
            row_state_hash: r.row_state_hash,
            semantic_prompt: r.semantic_prompt,
            dirty: r.dirty,
            kitty_virtual_placeholder: r.kitty_virtual_placeholder,
        };
        lines.push(line);
        i = i + 1;
    }
    proof {
        assert(all.take(all.len() as int) =~= all);
    }
    let pane_id = match pane_id {
        Some(p) => p,
        None => {
            return Err(ChunkError::MissingPaneId);
        },
    };
    if pane_id.is_empty() {
        return Err(ChunkError::EmptyPaneId);
    }
    let mut owned = String::new();
    crate::text::push_str(&mut owned, pane_id);
    Ok(
        ScrollbackChunkSummary {
            pane_id: owned,
            scrollback_version,
            start_line,
            total_lines,
            styles,
            hyperlinks,
            colors,
            lines,
        },
    )
}

pub open spec fn chunk_error_text(e: ChunkError) -> Seq<char> {
    match e {
        ChunkError::Surface(s) => crate::error_text::surface_error_text(s),
        ChunkError::Scrollback(s) => crate::protocol::scrollback_error_text(s),
        ChunkError::PaletteDiff => "scrollback chunk cannot carry palette diff"@,
        ChunkError::MissingRows => "scrollback chunk has no rows"@,
        ChunkError::MissingPaneId => "missing scrollback chunk pane_id"@,
        ChunkError::EmptyPaneId => "empty scrollback chunk pane_id"@,
    }
}

impl ChunkError {
    /// The error's text.
    pub fn to_string(&self) -> (text: String)
        ensures
            text@ == chunk_error_text(*self),
    {
        let mut text = String::new();
        match *self {
            ChunkError::Surface(ref e) => {
                return e.to_string();
            },
            ChunkError::Scrollback(e) => {
                return e.to_string();
            },
            ChunkError::PaletteDiff => crate::text::push_str(
                &mut text,
                "scrollback chunk cannot carry palette diff",
            ),
            ChunkError::MissingRows => crate::text::push_str(&mut text, "scrollback chunk has no rows"),
            ChunkError::MissingPaneId => crate::text::push_str(
                &mut text,
                "missing scrollback chunk pane_id",
            ),
            ChunkError::EmptyPaneId => crate::text::push_str(&mut text, "empty scrollback chunk pane_id"),
        }
        text
    }
}

} // verus!
