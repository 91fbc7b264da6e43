use vstd::prelude::*;

use crate::kinds::{
    CellSemanticContent, CursorShape, MouseFormat, MouseTrackingMode, PatchKind,
    RowSemanticPrompt, SurfaceKind,
};

verus! {

broadcast use vstd::seq::group_seq_axioms;

// ---------------------------------------------------------------------------
// Plain terminal state
// ---------------------------------------------------------------------------

/// Where the cursor stands and how it is drawn.
#[derive(Clone, Copy, Debug, PartialEq, Eq, Structural)]
pub struct CursorSummary {
    pub row: u32,
    pub col: u32,
    pub visible: bool,
    pub shape: CursorShape,
    pub blinking: bool,
}

/// The terminal modes a client needs to encode input for a pane.
#[derive(Clone, Copy, Debug, PartialEq, Eq, Structural)]
pub struct TerminalModeSummary {
    pub bracketed_paste: bool,
    pub mouse_tracking: bool,
    pub focus_reporting: bool,
    pub application_keypad: bool,
    pub application_cursor: bool,
    pub origin: bool,
    pub wraparound: bool,
    pub mouse_tracking_mode: MouseTrackingMode,
    pub mouse_format: MouseFormat,
}

impl TerminalModeSummary {
    /// A fresh terminal: only autowrap is on, no mouse reporting.
    pub open spec fn initial() -> TerminalModeSummary {
        TerminalModeSummary {
            bracketed_paste: false,
            mouse_tracking: false,
            focus_reporting: false,
            application_keypad: false,
            application_cursor: false,
            origin: false,
            wraparound: true,
            mouse_tracking_mode: MouseTrackingMode::Off,
            mouse_format: MouseFormat::X10,
        }
    }
}

impl Default for TerminalModeSummary {
    fn default() -> (modes: TerminalModeSummary)
        ensures
            modes == TerminalModeSummary::initial(),
    {
        TerminalModeSummary {
            bracketed_paste: false,
            mouse_tracking: false,
            focus_reporting: false,
            application_keypad: false,
            application_cursor: false,
            origin: false,
            wraparound: true,
            mouse_tracking_mode: MouseTrackingMode::Off,
            mouse_format: MouseFormat::X10,
        }
    }
}

/// One entry of a surface's style table. Colors are packed `[R, G, B, A]`
/// big-endian; zero means the terminal default.
#[derive(Clone, Copy, Debug, PartialEq, Eq, Structural)]
pub struct StyleSummary {
    pub fg_rgba: u32,
    pub bg_rgba: u32,
    pub underline_rgba: u32,
    pub flags: u32,
}

/// The style table of a surface that sent none: the single default style.
pub open spec fn default_styles() -> Seq<StyleSummary> {
    seq![StyleSummary { fg_rgba: 0, bg_rgba: 0, underline_rgba: 0, flags: 0 }]
}

pub fn default_style_summaries() -> (styles: Vec<StyleSummary>)
    ensures
        styles@ == default_styles(),
{
    let styles = vec![StyleSummary { fg_rgba: 0, bg_rgba: 0, underline_rgba: 0, flags: 0 }];
    assert(styles@ =~= default_styles());
    styles
}

// ---------------------------------------------------------------------------
// Cell runs, hyperlinks, colors and row updates, with their models
// ---------------------------------------------------------------------------

/// A run of cells in one row that share style, flags and hyperlink.
#[derive(Clone, Debug, PartialEq, Eq)]
pub struct CellRunSummary {
    pub text: String,
    pub cell_widths: Vec<u8>,
    pub style_id: u32,
    pub flags: u32,
    pub hyperlink_id: u32,
    pub semantic_content: CellSemanticContent,
}

#[verifier::ext_equal]
pub struct CellRunView {
    pub text: Seq<char>,
    pub cell_widths: Seq<u8>,
    pub style_id: u32,
    pub flags: u32,
    pub hyperlink_id: u32,
    pub semantic_content: CellSemanticContent,
}

impl View for CellRunSummary {
    type V = CellRunView;

    open spec fn view(&self) -> CellRunView {
        CellRunView {
            text: self.text@,
            cell_widths: self.cell_widths@,
            style_id: self.style_id,
            flags: self.flags,
            hyperlink_id: self.hyperlink_id,
            semantic_content: self.semantic_content,
        }
    }
}

impl DeepView for CellRunSummary {
    type V = CellRunView;

    open spec fn deep_view(&self) -> CellRunView {
        self@
    }
}

/// The run that stands for a whole row of plain text: one cell per char,
/// default style, no hyperlink.
pub open spec fn plain_run(text: Seq<char>) -> CellRunView {
    CellRunView {
        text: text,
        cell_widths: Seq::new(text.len(), |i: int| 1u8),
        style_id: 0,
        flags: 0,
        hyperlink_id: 0,
        semantic_content: CellSemanticContent::Output,
    }
}

/// An OSC 8 hyperlink target, referenced from cell runs by `id`.
#[derive(Clone, Debug, PartialEq, Eq)]
pub struct HyperlinkSummary {
    pub id: u32,
    pub uri: String,
    pub osc8_id: String,
    pub params: String,
}

#[verifier::ext_equal]
pub struct HyperlinkView {
    pub id: u32,
    pub uri: Seq<char>,
    pub osc8_id: Seq<char>,
    pub params: Seq<char>,
}

impl View for HyperlinkSummary {
    type V = HyperlinkView;

    open spec fn view(&self) -> HyperlinkView {
        HyperlinkView {
            id: self.id,
            uri: self.uri@,
            osc8_id: self.osc8_id@,
            params: self.params@,
        }
    }
}

impl DeepView for HyperlinkSummary {
    type V = HyperlinkView;

    open spec fn deep_view(&self) -> HyperlinkView {
        self@
    }
}

/// Default colors and palette of a terminal. A palette diff replaces the
/// palette from `palette_diff_start` on; only color patches carry one.
#[derive(Clone, Debug, PartialEq, Eq)]
pub struct TerminalColorSummary {
    pub default_fg_rgba: u32,
    pub default_bg_rgba: u32,
    pub cursor_rgba: u32,
    pub cursor_rgba_set: bool,
    pub palette_rgba: Vec<u32>,
    pub palette_diff_start: Option<u32>,
    pub palette_diff_rgba: Vec<u32>,
}

#[verifier::ext_equal]
pub struct ColorsView {
    pub default_fg_rgba: u32,
    pub default_bg_rgba: u32,
    pub cursor_rgba: u32,
    pub cursor_rgba_set: bool,
    pub palette_rgba: Seq<u32>,
    pub palette_diff_start: Option<u32>,
    pub palette_diff_rgba: Seq<u32>,
}

impl View for TerminalColorSummary {
    type V = ColorsView;

    open spec fn view(&self) -> ColorsView {
        ColorsView {
            default_fg_rgba: self.default_fg_rgba,
            default_bg_rgba: self.default_bg_rgba,
            cursor_rgba: self.cursor_rgba,
            cursor_rgba_set: self.cursor_rgba_set,
            palette_rgba: self.palette_rgba@,
            palette_diff_start: self.palette_diff_start,
            palette_diff_rgba: self.palette_diff_rgba@,
        }
    }
}

/// No colors known: everything zero, empty palette.
pub open spec fn no_colors() -> ColorsView {
    ColorsView {
        default_fg_rgba: 0,
        default_bg_rgba: 0,
        cursor_rgba: 0,
        cursor_rgba_set: false,
        palette_rgba: Seq::empty(),
        palette_diff_start: None,
        palette_diff_rgba: Seq::empty(),
    }
}

impl Default for TerminalColorSummary {
    fn default() -> (colors: TerminalColorSummary)
        ensures
            colors@ == no_colors(),
    {
        TerminalColorSummary {
            default_fg_rgba: 0,
            default_bg_rgba: 0,
            cursor_rgba: 0,
            cursor_rgba_set: false,
            palette_rgba: Vec::new(),
            palette_diff_start: None,
            palette_diff_rgba: Vec::new(),
        }
    }
}

/// The new content of one row of a surface.
#[derive(Clone, Debug, PartialEq, Eq)]
pub struct SurfaceRowUpdate {
    pub row: u32,
    pub text: String,
    pub runs: Vec<CellRunSummary>,
    pub dirty_hash: u64,
    pub row_state_hash: u64,
    pub semantic_prompt: RowSemanticPrompt,
    pub dirty: bool,
    pub kitty_virtual_placeholder: bool,
}

#[verifier::ext_equal]
pub struct RowUpdateView {
    pub row: u32,
    pub text: Seq<char>,
    pub runs: Seq<CellRunView>,
    pub dirty_hash: u64,
    pub row_state_hash: u64,
    pub semantic_prompt: RowSemanticPrompt,
    pub dirty: bool,
    pub kitty_virtual_placeholder: bool,
}

impl View for SurfaceRowUpdate {
    type V = RowUpdateView;

    open spec fn view(&self) -> RowUpdateView {
        RowUpdateView {
            row: self.row,
            text: self.text@,
            runs: self.runs.deep_view(),
            dirty_hash: self.dirty_hash,
            row_state_hash: self.row_state_hash,
            semantic_prompt: self.semantic_prompt,
            dirty: self.dirty,
            kitty_virtual_placeholder: self.kitty_virtual_placeholder,
        }
    }
}

impl DeepView for SurfaceRowUpdate {
    type V = RowUpdateView;

    open spec fn deep_view(&self) -> RowUpdateView {
        self@
    }
}

// ---------------------------------------------------------------------------
// Copies that keep the model
// ---------------------------------------------------------------------------

pub fn copy_values<T: Copy>(values: &Vec<T>) -> (copy: Vec<T>)
    ensures
        copy@ == values@,
{
    let mut copy: Vec<T> = Vec::new();
    let mut i: usize = 0;
    while i < values.len()
        invariant
            0 <= i <= values@.len(),
            copy@ == values@.take(i as int),
        decreases values@.len() - i,
    {
        copy.push(values[i]);
        i = i + 1;
        assert(copy@ =~= values@.take(i as int));
    }
    assert(values@.take(i as int) =~= values@);
    copy
}

impl CellRunSummary {
    pub fn duplicate(&self) -> (copy: CellRunSummary)
        ensures
            copy@ == self@,
    {
        CellRunSummary {
            text: self.text.clone(),
            cell_widths: copy_values(&self.cell_widths),
            style_id: self.style_id,
            flags: self.flags,
            hyperlink_id: self.hyperlink_id,
            semantic_content: self.semantic_content,
        }
    }

    /// The single run that covers `text` with default attributes.
    pub fn plain(text: &str) -> (run: CellRunSummary)
        ensures
            run@ == plain_run(text@),
    {
        let chars = crate::text::chars_of(text);
        let mut widths: Vec<u8> = Vec::new();
        let mut i: usize = 0;
        while i < chars.len()
            invariant
                chars@ == text@,
                0 <= i <= chars@.len(),
                widths@ == Seq::new(i as nat, |j: int| 1u8),
            decreases chars@.len() - i,
        {
            widths.push(1);
            i = i + 1;
            assert(widths@ =~= Seq::new(i as nat, |j: int| 1u8));
        }
        let run = CellRunSummary {
            text: crate::text::string_of_chars(chars.as_slice()),
            cell_widths: widths,
            style_id: 0,
            flags: 0,
            hyperlink_id: 0,
            semantic_content: CellSemanticContent::Output,
        };
        assert(run@ =~= plain_run(text@));
        run
    }
}

pub fn copy_runs(runs: &Vec<CellRunSummary>) -> (copy: Vec<CellRunSummary>)
    ensures
        copy.deep_view() == runs.deep_view(),
{
    let mut copy: Vec<CellRunSummary> = Vec::new();
    let mut i: usize = 0;
    while i < runs.len()
        invariant
            0 <= i <= runs@.len(),
            copy@.len() == i,
            copy.deep_view() == runs.deep_view().take(i as int),
        decreases runs@.len() - i,
    {
        let ghost before = copy@;
        let ghost before_deep = copy.deep_view();
        copy.push(runs[i].duplicate());
        proof {
            assert forall|j: int| 0 <= j < i implies #[trigger] copy.deep_view()[j]
                == runs.deep_view()[j] by {
                assert(copy@[j] == before[j]);
                assert(before_deep[j] == runs.deep_view().take(i as int)[j]);
                assert(copy.deep_view()[j] == copy@[j].deep_view());
                assert(before_deep[j] == before[j].deep_view());
            }
        }
        i = i + 1;
        assert(copy.deep_view() =~= runs.deep_view().take(i as int));
    }
    assert(runs.deep_view().take(i as int) =~= runs.deep_view());
    copy
}

impl HyperlinkSummary {
    pub fn duplicate(&self) -> (copy: HyperlinkSummary)
        ensures
            copy@ == self@,
    {
        HyperlinkSummary {
            id: self.id,
            uri: self.uri.clone(),
            osc8_id: self.osc8_id.clone(),
            params: self.params.clone(),
        }
    }
}

pub fn copy_hyperlinks(links: &Vec<HyperlinkSummary>) -> (copy: Vec<HyperlinkSummary>)
    ensures
        copy.deep_view() == links.deep_view(),
{
    let mut copy: Vec<HyperlinkSummary> = Vec::new();
    let mut i: usize = 0;
    while i < links.len()
        invariant
            0 <= i <= links@.len(),
            copy@.len() == i,
            copy.deep_view() == links.deep_view().take(i as int),
        decreases links@.len() - i,
    {
        let ghost before = copy@;
        let ghost before_deep = copy.deep_view();
        copy.push(links[i].duplicate());
        proof {
            assert forall|j: int| 0 <= j < i implies #[trigger] copy.deep_view()[j]
                == links.deep_view()[j] by {
                assert(copy@[j] == before[j]);
                assert(before_deep[j] == links.deep_view().take(i as int)[j]);
                assert(copy.deep_view()[j] == copy@[j].deep_view());
                assert(before_deep[j] == before[j].deep_view());
            }
        }
        i = i + 1;
        assert(copy.deep_view() =~= links.deep_view().take(i as int));
    }
    assert(links.deep_view().take(i as int) =~= links.deep_view());
    copy
}

impl TerminalColorSummary {
    pub fn duplicate(&self) -> (copy: TerminalColorSummary)
        ensures
            copy@ == self@,
    {
        TerminalColorSummary {
            default_fg_rgba: self.default_fg_rgba,
            default_bg_rgba: self.default_bg_rgba,
            cursor_rgba: self.cursor_rgba,
            cursor_rgba_set: self.cursor_rgba_set,
            palette_rgba: copy_values(&self.palette_rgba),
            palette_diff_start: self.palette_diff_start,
            palette_diff_rgba: copy_values(&self.palette_diff_rgba),
        }
    }

    /// Field-by-field equality of two color summaries.
    pub fn same_as(&self, other: &TerminalColorSummary) -> (same: bool)
        ensures
            same == (self@ == other@),
    {
        let same = self.default_fg_rgba == other.default_fg_rgba
            && self.default_bg_rgba == other.default_bg_rgba
            && self.cursor_rgba == other.cursor_rgba
            && self.cursor_rgba_set == other.cursor_rgba_set
            && values_equal(&self.palette_rgba, &other.palette_rgba)
            && self.palette_diff_start == other.palette_diff_start
            && values_equal(&self.palette_diff_rgba, &other.palette_diff_rgba);
        proof {
            if self.palette_rgba@ == other.palette_rgba@ && self.palette_diff_rgba@
                == other.palette_diff_rgba@ {
                assert(self@ =~= other@ || !same);
            }
        }
        same
    }
}

pub fn values_equal(a: &Vec<u32>, b: &Vec<u32>) -> (equal: bool)
    ensures
        equal == (a@ == b@),
{
    if a.len() != b.len() {
        return false;
    }
    let mut i: usize = 0;
    while i < a.len()
        invariant
            a@.len() == b@.len(),
            0 <= i <= a@.len(),
            a@.take(i as int) == b@.take(i as int),
        decreases a@.len() - i,
    {
        if a[i] != b[i] {
            assert(a@[i as int] != b@[i as int]);
            return false;
        }
        i = i + 1;
        assert(a@.take(i as int) =~= b@.take(i as int));
    }
    assert(a@ =~= a@.take(i as int));
    assert(b@ =~= b@.take(i as int));
    true
}

pub fn copy_row_updates(rows: &Vec<SurfaceRowUpdate>) -> (copy: Vec<SurfaceRowUpdate>)
    ensures
        copy.deep_view() == rows.deep_view(),
{
    let mut copy: Vec<SurfaceRowUpdate> = Vec::new();
    let mut i: usize = 0;
    while i < rows.len()
        invariant
            0 <= i <= rows@.len(),
            copy@.len() == i,
            copy.deep_view() == rows.deep_view().take(i as int),
        decreases rows@.len() - i,
    {
        let row = &rows[i];
        let dup = SurfaceRowUpdate {
            row: row.row,
            text: row.text.clone(),
            runs: copy_runs(&row.runs),
            dirty_hash: row.dirty_hash,
            row_state_hash: row.row_state_hash,
            semantic_prompt: row.semantic_prompt,
            dirty: row.dirty,
            kitty_virtual_placeholder: row.kitty_virtual_placeholder,
        };
        assert(dup@ =~= row@);
        let ghost before = copy@;
        let ghost before_deep = copy.deep_view();
        copy.push(dup);
        proof {
            assert forall|j: int| 0 <= j < i implies #[trigger] copy.deep_view()[j]
                == rows.deep_view()[j] by {
                assert(copy@[j] == before[j]);
                assert(before_deep[j] == rows.deep_view().take(i as int)[j]);
                assert(copy.deep_view()[j] == copy@[j].deep_view());
                assert(before_deep[j] == before[j].deep_view());
            }
        }
        i = i + 1;
        assert(copy.deep_view() =~= rows.deep_view().take(i as int));
    }
    assert(rows.deep_view().take(i as int) =~= rows.deep_view());
    copy
}

/// Pushing onto a vector pushes the element's deep view onto its deep view.
pub proof fn lemma_deep_push<T: DeepView>(before: Vec<T>, after: Vec<T>, x: T)
    requires
        after@ == before@.push(x),
    ensures
        after.deep_view() == before.deep_view().push(x.deep_view()),
{
    assert forall|j: int| 0 <= j < after@.len() implies #[trigger] after.deep_view()[j]
        == before.deep_view().push(x.deep_view())[j] by {
        if j < before@.len() {
            assert(after@[j] == before@[j]);
            assert(before.deep_view()[j] == before@[j].deep_view());
        }
    }
    assert(after.deep_view() =~= before.deep_view().push(x.deep_view()));
}

/// Replacing one element replaces its deep view.
pub proof fn lemma_deep_update<T: DeepView>(before: Vec<T>, after: Vec<T>, i: int, x: T)
    requires
        0 <= i < before@.len(),
        after@ == before@.update(i, x),
    ensures
        after.deep_view() == before.deep_view().update(i, x.deep_view()),
{
    assert forall|j: int| 0 <= j < after@.len() implies #[trigger] after.deep_view()[j]
        == before.deep_view().update(i, x.deep_view())[j] by {
        if j != i {
            assert(after@[j] == before@[j]);
            assert(before.deep_view()[j] == before@[j].deep_view());
        }
    }
    assert(after.deep_view() =~= before.deep_view().update(i, x.deep_view()));
}

// ---------------------------------------------------------------------------
// Surface updates
// ---------------------------------------------------------------------------

/// Whether an update carries a whole surface or changes to a cached one.
#[derive(Clone, Copy, Debug, PartialEq, Eq, Structural)]
pub enum SurfaceUpdateKind {
    Snapshot,
    Patch,
}

/// A surface snapshot or patch as the server sends it.
#[derive(Clone, Debug, PartialEq, Eq)]
pub struct SurfaceUpdate {
    pub kind: SurfaceUpdateKind,
    pub pane_id: String,
    pub version: u64,
    pub base_version: Option<u64>,
    pub patch_kind: Option<PatchKind>,
    pub cols: Option<u32>,
    pub rows: Option<u32>,
    pub surface: Option<SurfaceKind>,
    pub cursor: Option<CursorSummary>,
    pub modes: TerminalModeSummary,
    pub title: String,
    pub working_directory: String,
    pub colors: Option<TerminalColorSummary>,
    pub row_updates: Vec<SurfaceRowUpdate>,
    pub styles: Vec<StyleSummary>,
    pub hyperlinks: Vec<HyperlinkSummary>,
    pub text: String,
}

#[verifier::ext_equal]
pub struct SurfaceUpdateView {
    pub kind: SurfaceUpdateKind,
    pub pane_id: Seq<char>,
    pub version: u64,
    pub base_version: Option<u64>,
    pub patch_kind: Option<PatchKind>,
    pub cols: Option<u32>,
    pub rows: Option<u32>,
    pub surface: Option<SurfaceKind>,
    pub cursor: Option<CursorSummary>,
    pub modes: TerminalModeSummary,
    pub title: Seq<char>,
    pub working_directory: Seq<char>,
    pub colors: Option<ColorsView>,
    pub row_updates: Seq<RowUpdateView>,
    pub styles: Seq<StyleSummary>,
    pub hyperlinks: Seq<HyperlinkView>,
    pub text: Seq<char>,
}

pub open spec fn colors_view(colors: Option<TerminalColorSummary>) -> Option<ColorsView> {
    match colors {
        Some(c) => Some(c@),
        None => None,
    }
}

impl View for SurfaceUpdate {
    type V = SurfaceUpdateView;

    open spec fn view(&self) -> SurfaceUpdateView {
        SurfaceUpdateView {
            kind: self.kind,
            pane_id: self.pane_id@,
            version: self.version,
            base_version: self.base_version,
            patch_kind: self.patch_kind,
            cols: self.cols,
            rows: self.rows,
            surface: self.surface,
            cursor: self.cursor,
            modes: self.modes,
            title: self.title@,
            working_directory: self.working_directory@,
            colors: colors_view(self.colors),
            row_updates: self.row_updates.deep_view(),
            styles: self.styles@,
            hyperlinks: self.hyperlinks.deep_view(),
            text: self.text@,
        }
    }
}

// ---------------------------------------------------------------------------
// Errors
// ---------------------------------------------------------------------------

/// Why a surface snapshot or patch was refused.
#[derive(Clone, Debug, PartialEq, Eq)]
pub enum SurfaceError {
    PaneMismatch { expected: String, got: String },
    BaseVersionMismatch { expected: u64, got: Option<u64> },
    UnknownPatchKind(u8),
    SnapshotPaletteDiff,
    PatchPaletteDiff,
    UnknownSurfaceKind(u8),
    UnknownCursorShape(u8),
    UnknownMouseTrackingMode(u8),
    UnknownMouseFormat(u8),
    PatchChangesHyperlinks,
    RowsInNoRowPatch(PatchKind),
    FullRefreshRequired,
    CursorOnlyChangesColors,
    ModeOnlyChangesColors,
    ColorOnlyMissingColors,
    PaletteDiffStartOutOfRange { start: u32, palette_len: usize },
    UnsupportedPatchKind,
    ReplaceRowsChangesColors,
    UnknownRowSemanticPrompt(u8),
    UnknownCellSemanticContent(u8),
    RowOutsideSurface { row: u32, rows: usize },
    RowRepeated(u32),
    UnknownStyleId(u32),
    UnknownHyperlinkId(u32),
    ReservedHyperlinkId,
    HyperlinkMissingUri(u32),
    DuplicateHyperlinkId(u32),
    SnapshotMissingCols,
    SnapshotMissingRows,
}

/// The first item, in order, that `check` refuses, with its error.
pub open spec fn first_failure<A>(
    items: Seq<A>,
    check: spec_fn(A) -> Result<(), SurfaceError>,
) -> Result<(), SurfaceError>
    decreases items.len(),
{
    if items.len() == 0 {
        Ok(())
    } else {
        match first_failure(items.drop_last(), check) {
            Ok(()) => check(items.last()),
            Err(e) => Err(e),
        }
    }
}

pub proof fn lemma_first_failure_step<A>(
    items: Seq<A>,
    i: int,
    check: spec_fn(A) -> Result<(), SurfaceError>,
)
    requires
        0 <= i < items.len(),
    ensures
        first_failure(items.take(i + 1), check) == match first_failure(items.take(i), check) {
            Ok(()) => check(items[i]),
            Err(e) => Err(e),
        },
{
    assert(items.take(i + 1).drop_last() =~= items.take(i));
}

/// Once a prefix fails, every longer prefix fails the same way.
pub proof fn lemma_first_failure_extends<A>(
    items: Seq<A>,
    i: int,
    j: int,
    check: spec_fn(A) -> Result<(), SurfaceError>,
)
    requires
        0 <= i <= j <= items.len(),
        first_failure(items.take(i), check) is Err,
    ensures
        first_failure(items.take(j), check) == first_failure(items.take(i), check),
    decreases j - i,
{
    if j > i {
        lemma_first_failure_extends(items, i, j - 1, check);
        lemma_first_failure_step(items, j - 1, check);
    }
}

// ---------------------------------------------------------------------------
// Validation of what a peer sends
// ---------------------------------------------------------------------------

pub open spec fn palette_diff_present(colors: ColorsView) -> bool {
    colors.palette_diff_start is Some || colors.palette_diff_rgba.len() > 0
}

pub fn terminal_colors_have_palette_diff(colors: &TerminalColorSummary) -> (present: bool)
    ensures
        present == palette_diff_present(colors@),
{
    colors.palette_diff_start.is_some() || colors.palette_diff_rgba.len() > 0
}

/// Only a color patch may carry a palette diff.
pub open spec fn palette_scope_check(
    kind: SurfaceUpdateKind,
    patch_kind: Option<PatchKind>,
    colors: Option<ColorsView>,
) -> Result<(), SurfaceError> {
    match colors {
        None => Ok(()),
        Some(c) => if !palette_diff_present(c) {
            Ok(())
        } else {
            match kind {
                SurfaceUpdateKind::Snapshot => Err(SurfaceError::SnapshotPaletteDiff),
                SurfaceUpdateKind::Patch => if patch_kind == Some(PatchKind::ColorOnly) {
                    Ok(())
                } else {
                    Err(SurfaceError::PatchPaletteDiff)
                },
            }
        },
    }
}

pub fn validate_palette_diff_scope(
    kind: SurfaceUpdateKind,
    patch_kind: Option<PatchKind>,
    colors: &Option<TerminalColorSummary>,
) -> (checked: Result<(), SurfaceError>)
    ensures
        checked == palette_scope_check(kind, patch_kind, colors_view(*colors)),
{
    let colors = match colors {
        Some(c) => c,
        None => {
            return Ok(());
        },
    };
    if !terminal_colors_have_palette_diff(colors) {
        return Ok(());
    }
    match kind {
        SurfaceUpdateKind::Snapshot => Err(SurfaceError::SnapshotPaletteDiff),
        SurfaceUpdateKind::Patch => {
            if matches!(patch_kind, Some(PatchKind::ColorOnly)) {
                Ok(())
            } else {
                Err(SurfaceError::PatchPaletteDiff)
            }
        },
    }
}

pub open spec fn patch_kind_check(kind: PatchKind) -> Result<(), SurfaceError> {
    if kind.is_known() {
        Ok(())
    } else {
        Err(SurfaceError::UnknownPatchKind(kind.spec_code()))
    }
}

pub fn validate_patch_kind(kind: PatchKind) -> (checked: Result<(), SurfaceError>)
    ensures
        checked == patch_kind_check(kind),
{
    if kind.known() {
        Ok(())
    } else {
        Err(SurfaceError::UnknownPatchKind(kind.code()))
    }
}

pub open spec fn surface_kind_check(kind: SurfaceKind) -> Result<(), SurfaceError> {
    if kind.is_known() {
        Ok(())
    } else {
        Err(SurfaceError::UnknownSurfaceKind(kind.spec_code()))
    }
}

pub fn validate_surface_kind(kind: SurfaceKind) -> (checked: Result<(), SurfaceError>)
    ensures
        checked == surface_kind_check(kind),
{
    if kind.known() {
        Ok(())
    } else {
        Err(SurfaceError::UnknownSurfaceKind(kind.code()))
    }
}

pub open spec fn cursor_check(cursor: Option<CursorSummary>) -> Result<(), SurfaceError> {
    match cursor {
        Some(c) => if c.shape.is_known() {
            Ok(())
        } else {
            Err(SurfaceError::UnknownCursorShape(c.shape.spec_code()))
        },
        None => Ok(()),
    }
}

pub fn validate_cursor_summary(cursor: Option<CursorSummary>) -> (checked: Result<(), SurfaceError>)
    ensures
        checked == cursor_check(cursor),
{
    match cursor {
        Some(c) => {
            if c.shape.known() {
                Ok(())
            } else {
                Err(SurfaceError::UnknownCursorShape(c.shape.code()))
            }
        },
        None => Ok(()),
    }
}

pub open spec fn modes_check(modes: TerminalModeSummary) -> Result<(), SurfaceError> {
    if !modes.mouse_tracking_mode.is_known() {
        Err(SurfaceError::UnknownMouseTrackingMode(modes.mouse_tracking_mode.spec_code()))
    } else if !modes.mouse_format.is_known() {
        Err(SurfaceError::UnknownMouseFormat(modes.mouse_format.spec_code()))
    } else {
        Ok(())
    }
}

pub fn validate_terminal_mode_summary(modes: TerminalModeSummary) -> (checked: Result<
    (),
    SurfaceError,
>)
    ensures
        checked == modes_check(modes),
{
    if !modes.mouse_tracking_mode.known() {
        return Err(SurfaceError::UnknownMouseTrackingMode(modes.mouse_tracking_mode.code()));
    }
    if !modes.mouse_format.known() {
        return Err(SurfaceError::UnknownMouseFormat(modes.mouse_format.code()));
    }
    Ok(())
}

/// Patches that change only cursor, modes or colors carry no rows.
pub open spec fn no_row_payload_check(kind: PatchKind, row_count: nat) -> Result<(), SurfaceError> {
    if row_count > 0 && (kind is CursorOnly || kind is ModeOnly || kind is ColorOnly
        || kind is FullRefreshRequired) {
        Err(SurfaceError::RowsInNoRowPatch(kind))
    } else {
        Ok(())
    }
}

pub fn validate_no_row_patch_payload(kind: PatchKind, rows: &Vec<SurfaceRowUpdate>) -> (checked:
    Result<(), SurfaceError>)
    ensures
        checked == no_row_payload_check(kind, rows@.len()),
{
    if rows.len() > 0 && matches!(
        kind,
        PatchKind::CursorOnly | PatchKind::ModeOnly | PatchKind::ColorOnly
            | PatchKind::FullRefreshRequired
    ) {
        return Err(SurfaceError::RowsInNoRowPatch(kind));
    }
    Ok(())
}

/// A surface always has at least the default style.
pub open spec fn style_count(styles: nat) -> nat {
    if styles == 0 {
        1
    } else {
        styles
    }
}

pub open spec fn style_id_check(count: nat) -> spec_fn(CellRunView) -> Result<(), SurfaceError> {
    |run: CellRunView|
        if run.style_id >= count {
            Err(SurfaceError::UnknownStyleId(run.style_id))
        } else {
            Ok(())
        }
}

pub open spec fn runs_style_check(styles: Seq<StyleSummary>) -> spec_fn(Seq<CellRunView>) -> Result<
    (),
    SurfaceError,
> {
    |runs: Seq<CellRunView>| first_failure(runs, style_id_check(style_count(styles.len())))
}

pub open spec fn row_style_check(styles: Seq<StyleSummary>) -> spec_fn(RowUpdateView) -> Result<
    (),
    SurfaceError,
> {
    |row: RowUpdateView| first_failure(row.runs, style_id_check(style_count(styles.len())))
}

pub fn validate_cell_run_style_ids(runs: &Vec<CellRunSummary>, styles: &Vec<StyleSummary>) -> (checked:
    Result<(), SurfaceError>)
    ensures
        checked == first_failure(runs.deep_view(), style_id_check(style_count(styles@.len()))),
{
    let count: usize = if styles.len() == 0 {
        1
    } else {
        styles.len()
    };
    let ghost check = style_id_check(style_count(styles@.len()));
    let ghost items = runs.deep_view();
    let mut i: usize = 0;
    while i < runs.len()
        invariant
            count == style_count(styles@.len()),
            check == style_id_check(style_count(styles@.len())),
            items == runs.deep_view(),
            0 <= i <= runs@.len(),
            first_failure(items.take(i as int), check) == Ok::<(), SurfaceError>(()),
        decreases runs@.len() - i,
    {
        assert(items[i as int] == runs@[i as int]@);
        proof {
            lemma_first_failure_step(items, i as int, check);
        }
        if runs[i].style_id as usize >= count {
            proof {
                lemma_first_failure_extends(items, i + 1, items.len() as int, check);
                assert(items.take(items.len() as int) =~= items);
            }
            return Err(SurfaceError::UnknownStyleId(runs[i].style_id));
        }
        i = i + 1;
    }
    assert(items.take(i as int) =~= items);
    Ok(())
}

pub open spec fn hyperlink_known(links: Seq<HyperlinkView>, id: u32) -> bool {
    exists|k: int| 0 <= k < links.len() && (#[trigger] links[k]).id == id
}

pub fn has_hyperlink(links: &Vec<HyperlinkSummary>, id: u32) -> (found: bool)
    ensures
        found == hyperlink_known(links.deep_view(), id),
{
    let mut i: usize = 0;
    while i < links.len()
        invariant
            0 <= i <= links@.len(),
            forall|k: int| 0 <= k < i ==> (#[trigger] links.deep_view()[k]).id != id,
        decreases links@.len() - i,
    {
        assert(links.deep_view()[i as int] == links@[i as int]@);
        if links[i].id == id {
            return true;
        }
        i = i + 1;
    }
    false
}

pub open spec fn hyperlink_id_check(links: Seq<HyperlinkView>) -> spec_fn(CellRunView) -> Result<
    (),
    SurfaceError,
> {
    |run: CellRunView|
        if run.hyperlink_id != 0 && !hyperlink_known(links, run.hyperlink_id) {
            Err(SurfaceError::UnknownHyperlinkId(run.hyperlink_id))
        } else {
            Ok(())
        }
}

pub open spec fn runs_hyperlink_check(links: Seq<HyperlinkView>) -> spec_fn(Seq<CellRunView>) -> Result<
    (),
    SurfaceError,
> {
    |runs: Seq<CellRunView>| first_failure(runs, hyperlink_id_check(links))
}

pub open spec fn row_hyperlink_check(links: Seq<HyperlinkView>) -> spec_fn(RowUpdateView) -> Result<
    (),
    SurfaceError,
> {
    |row: RowUpdateView| first_failure(row.runs, hyperlink_id_check(links))
}

pub fn validate_cell_run_hyperlink_ids(
    runs: &Vec<CellRunSummary>,
    hyperlinks: &Vec<HyperlinkSummary>,
) -> (checked: Result<(), SurfaceError>)
    ensures
        checked == first_failure(runs.deep_view(), hyperlink_id_check(hyperlinks.deep_view())),
{
    let ghost check = hyperlink_id_check(hyperlinks.deep_view());
    let ghost items = runs.deep_view();
    let mut i: usize = 0;
    while i < runs.len()
        invariant
            check == hyperlink_id_check(hyperlinks.deep_view()),
            items == runs.deep_view(),
            0 <= i <= runs@.len(),
            first_failure(items.take(i as int), check) == Ok::<(), SurfaceError>(()),
        decreases runs@.len() - i,
    {
        assert(items[i as int] == runs@[i as int]@);
        proof {
            lemma_first_failure_step(items, i as int, check);
        }
        let id = runs[i].hyperlink_id;
        if id != 0 && !has_hyperlink(hyperlinks, id) {
            proof {
                lemma_first_failure_extends(items, i + 1, items.len() as int, check);
                assert(items.take(items.len() as int) =~= items);
            }
            return Err(SurfaceError::UnknownHyperlinkId(id));
        }
        i = i + 1;
    }
    assert(items.take(i as int) =~= items);
    Ok(())
}

pub open spec fn semantic_content_check() -> spec_fn(CellRunView) -> Result<(), SurfaceError> {
    |run: CellRunView|
        if run.semantic_content.is_known() {
            Ok(())
        } else {
            Err(SurfaceError::UnknownCellSemanticContent(run.semantic_content.spec_code()))
        }
}

pub fn validate_cell_run_semantic_content(runs: &Vec<CellRunSummary>) -> (checked: Result<
    (),
    SurfaceError,
>)
    ensures
        checked == first_failure(runs.deep_view(), semantic_content_check()),
{
    let ghost check = semantic_content_check();
    let ghost items = runs.deep_view();
    let mut i: usize = 0;
    while i < runs.len()
        invariant
            check == semantic_content_check(),
            items == runs.deep_view(),
            0 <= i <= runs@.len(),
            first_failure(items.take(i as int), check) == Ok::<(), SurfaceError>(()),
        decreases runs@.len() - i,
    {
        assert(items[i as int] == runs@[i as int]@);
        proof {
            lemma_first_failure_step(items, i as int, check);
        }
        let content = runs[i].semantic_content;
        if !content.known() {
            proof {
                lemma_first_failure_extends(items, i + 1, items.len() as int, check);
                assert(items.take(items.len() as int) =~= items);
            }
            return Err(SurfaceError::UnknownCellSemanticContent(content.code()));
        }
        i = i + 1;
    }
    assert(items.take(i as int) =~= items);
    Ok(())
}

pub open spec fn prompt_check(prompt: RowSemanticPrompt) -> Result<(), SurfaceError> {
    if prompt.is_known() {
        Ok(())
    } else {
        Err(SurfaceError::UnknownRowSemanticPrompt(prompt.spec_code()))
    }
}

pub fn validate_row_semantic_prompt(prompt: RowSemanticPrompt) -> (checked: Result<
    (),
    SurfaceError,
>)
    ensures
        checked == prompt_check(prompt),
{
    if prompt.known() {
        Ok(())
    } else {
        Err(SurfaceError::UnknownRowSemanticPrompt(prompt.code()))
    }
}

pub open spec fn row_enum_check() -> spec_fn(RowUpdateView) -> Result<(), SurfaceError> {
    |row: RowUpdateView|
        match prompt_check(row.semantic_prompt) {
            Ok(()) => first_failure(row.runs, semantic_content_check()),
            Err(e) => Err(e),
        }
}

pub fn validate_row_update_terminal_enums(rows: &Vec<SurfaceRowUpdate>) -> (checked: Result<
    (),
    SurfaceError,
>)
    ensures
        checked == first_failure(rows.deep_view(), row_enum_check()),
{
    let ghost check = row_enum_check();
    let ghost items = rows.deep_view();
    let mut i: usize = 0;
    while i < rows.len()
        invariant
            check == row_enum_check(),
            items == rows.deep_view(),
            0 <= i <= rows@.len(),
            first_failure(items.take(i as int), check) == Ok::<(), SurfaceError>(()),
        decreases rows@.len() - i,
    {
        assert(items[i as int] == rows@[i as int]@);
        proof {
            lemma_first_failure_step(items, i as int, check);
        }
        let row = &rows[i];
        let checked = match validate_row_semantic_prompt(row.semantic_prompt) {
            Ok(()) => validate_cell_run_semantic_content(&row.runs),
            Err(e) => Err(e),
        };
        if let Err(e) = checked {
            proof {
                lemma_first_failure_extends(items, i + 1, items.len() as int, check);
                assert(items.take(items.len() as int) =~= items);
            }
            return Err(e);
        }
        i = i + 1;
    }
    assert(items.take(i as int) =~= items);
    Ok(())
}

pub fn validate_row_update_style_ids(rows: &Vec<SurfaceRowUpdate>, styles: &Vec<StyleSummary>) -> (checked:
    Result<(), SurfaceError>)
    ensures
        checked == first_failure(rows.deep_view(), row_style_check(styles@)),
{
    let ghost check = row_style_check(styles@);
    let ghost items = rows.deep_view();
    let mut i: usize = 0;
    while i < rows.len()
        invariant
            check == row_style_check(styles@),
            items == rows.deep_view(),
            0 <= i <= rows@.len(),
            first_failure(items.take(i as int), check) == Ok::<(), SurfaceError>(()),
        decreases rows@.len() - i,
    {
        assert(items[i as int] == rows@[i as int]@);
        proof {
            lemma_first_failure_step(items, i as int, check);
        }
        if let Err(e) = validate_cell_run_style_ids(&rows[i].runs, styles) {
            proof {
                lemma_first_failure_extends(items, i + 1, items.len() as int, check);
                assert(items.take(items.len() as int) =~= items);
            }
            return Err(e);
        }
        i = i + 1;
    }
    assert(items.take(i as int) =~= items);
    Ok(())
}

pub fn validate_row_update_hyperlink_ids(
    rows: &Vec<SurfaceRowUpdate>,
    hyperlinks: &Vec<HyperlinkSummary>,
) -> (checked: Result<(), SurfaceError>)
    ensures
        checked == first_failure(rows.deep_view(), row_hyperlink_check(hyperlinks.deep_view())),
{
    let ghost check = row_hyperlink_check(hyperlinks.deep_view());
    let ghost items = rows.deep_view();
    let mut i: usize = 0;
    while i < rows.len()
        invariant
            check == row_hyperlink_check(hyperlinks.deep_view()),
            items == rows.deep_view(),
            0 <= i <= rows@.len(),
            first_failure(items.take(i as int), check) == Ok::<(), SurfaceError>(()),
        decreases rows@.len() - i,
    {
        assert(items[i as int] == rows@[i as int]@);
        proof {
            lemma_first_failure_step(items, i as int, check);
        }
        if let Err(e) = validate_cell_run_hyperlink_ids(&rows[i].runs, hyperlinks) {
            proof {
                lemma_first_failure_extends(items, i + 1, items.len() as int, check);
                assert(items.take(items.len() as int) =~= items);
            }
            return Err(e);
        }
        i = i + 1;
    }
    assert(items.take(i as int) =~= items);
    Ok(())
}

pub fn validate_cached_row_style_ids(
    row_runs: &Vec<Vec<CellRunSummary>>,
    styles: &Vec<StyleSummary>,
) -> (checked: Result<(), SurfaceError>)
    ensures
        checked == first_failure(row_runs.deep_view(), runs_style_check(styles@)),
{
    let ghost check = runs_style_check(styles@);
    let ghost items = row_runs.deep_view();
    let mut i: usize = 0;
    while i < row_runs.len()
        invariant
            check == runs_style_check(styles@),
            items == row_runs.deep_view(),
            0 <= i <= row_runs@.len(),
            first_failure(items.take(i as int), check) == Ok::<(), SurfaceError>(()),
        decreases row_runs@.len() - i,
    {
        assert(items[i as int] == row_runs@[i as int].deep_view());
        proof {
            lemma_first_failure_step(items, i as int, check);
        }
        if let Err(e) = validate_cell_run_style_ids(&row_runs[i], styles) {
            proof {
                lemma_first_failure_extends(items, i + 1, items.len() as int, check);
                assert(items.take(items.len() as int) =~= items);
            }
            return Err(e);
        }
        i = i + 1;
    }
    assert(items.take(i as int) =~= items);
    Ok(())
}

pub fn validate_cached_row_hyperlink_ids(
    row_runs: &Vec<Vec<CellRunSummary>>,
    hyperlinks: &Vec<HyperlinkSummary>,
) -> (checked: Result<(), SurfaceError>)
    ensures
        checked == first_failure(row_runs.deep_view(), runs_hyperlink_check(hyperlinks.deep_view())),
{
    let ghost check = runs_hyperlink_check(hyperlinks.deep_view());
    let ghost items = row_runs.deep_view();
    let mut i: usize = 0;
    while i < row_runs.len()
        invariant
            check == runs_hyperlink_check(hyperlinks.deep_view()),
            items == row_runs.deep_view(),
            0 <= i <= row_runs@.len(),
            first_failure(items.take(i as int), check) == Ok::<(), SurfaceError>(()),
        decreases row_runs@.len() - i,
    {
        assert(items[i as int] == row_runs@[i as int].deep_view());
        proof {
            lemma_first_failure_step(items, i as int, check);
        }
        if let Err(e) = validate_cell_run_hyperlink_ids(&row_runs[i], hyperlinks) {
            proof {
                lemma_first_failure_extends(items, i + 1, items.len() as int, check);
                assert(items.take(items.len() as int) =~= items);
            }
            return Err(e);
        }
        i = i + 1;
    }
    assert(items.take(i as int) =~= items);
    Ok(())
}

/// Whether an earlier row update already targets `row`.
pub open spec fn row_seen(rows: Seq<RowUpdateView>, row: int) -> bool {
    exists|j: int| 0 <= j < rows.len() && (#[trigger] rows[j]).row == row
}

/// Every row update targets a row of the surface, and no row twice.
pub open spec fn rows_index_failure(rows: Seq<RowUpdateView>, count: nat) -> Result<(), SurfaceError>
    decreases rows.len(),
{
    if rows.len() == 0 {
        Ok(())
    } else {
        match rows_index_failure(rows.drop_last(), count) {
            Err(e) => Err(e),
            Ok(()) => {
                let row = rows.last().row;
                if row >= count {
                    Err(SurfaceError::RowOutsideSurface { row, rows: count as usize })
                } else if row_seen(rows.drop_last(), row as int) {
                    Err(SurfaceError::RowRepeated(row))
                } else {
                    Ok(())
                }
            },
        }
    }
}

proof fn lemma_rows_index_failure_extends(rows: Seq<RowUpdateView>, count: nat, i: int, j: int)
    requires
        0 <= i <= j <= rows.len(),
        rows_index_failure(rows.take(i), count) is Err,
    ensures
        rows_index_failure(rows.take(j), count) == rows_index_failure(rows.take(i), count),
    decreases j - i,
{
    if j > i {
        lemma_rows_index_failure_extends(rows, count, i, j - 1);
        assert(rows.take(j).drop_last() =~= rows.take(j - 1));
    }
}

pub fn validate_row_update_indices(rows: &Vec<SurfaceRowUpdate>, row_count: usize) -> (checked:
    Result<(), SurfaceError>)
    ensures
        checked == rows_index_failure(rows.deep_view(), row_count as nat),
{
    let ghost items = rows.deep_view();
    let mut seen: Vec<bool> = vec![false; row_count];
    let mut i: usize = 0;
    while i < rows.len()
        invariant
            items == rows.deep_view(),
            0 <= i <= rows@.len(),
            seen@.len() == row_count,
            forall|r: int|
                0 <= r < row_count ==> #[trigger] seen@[r] == row_seen(items.take(i as int), r),
            rows_index_failure(items.take(i as int), row_count as nat) == Ok::<(), SurfaceError>(()),
        decreases rows@.len() - i,
    {
        assert(items[i as int] == rows@[i as int]@);
        let row = rows[i].row;
        let index = row as usize;
        proof {
            assert(items.take(i + 1).drop_last() =~= items.take(i as int));
            assert(items.take(i + 1).last() == items[i as int]);
        }
        if index >= row_count {
            proof {
                lemma_rows_index_failure_extends(items, row_count as nat, i + 1, items.len() as int);
                assert(items.take(items.len() as int) =~= items);
            }
            return Err(SurfaceError::RowOutsideSurface { row, rows: row_count });
        }
        if seen[index] {
            proof {
                lemma_rows_index_failure_extends(items, row_count as nat, i + 1, items.len() as int);
                assert(items.take(items.len() as int) =~= items);
            }
            return Err(SurfaceError::RowRepeated(row));
        }
        seen.set(index, true);
        proof {
            assert forall|r: int| 0 <= r < row_count implies #[trigger] seen@[r] == row_seen(
                items.take(i + 1),
                r,
            ) by {
                let next = items.take(i + 1);
                if row_seen(next, r) {
                    let j = choose|j: int| 0 <= j < next.len() && (#[trigger] next[j]).row == r;
                    if j < i {
                        assert(items.take(i as int)[j] == next[j]);
                    }
                }
                if row_seen(items.take(i as int), r) {
                    let j = choose|j: int| 0 <= j < i && (#[trigger] items.take(i as int)[j]).row == r;
                    assert(next[j] == items.take(i as int)[j]);
                }
                if r == index {
                    assert(next[i as int].row == r);
                }
            }
        }
        i = i + 1;
    }
    assert(items.take(i as int) =~= items);
    Ok(())
}

/// A valid hyperlink table: ids nonzero and distinct, every target non-empty.
pub open spec fn link_table_failure(links: Seq<HyperlinkView>) -> Result<(), SurfaceError>
    decreases links.len(),
{
    if links.len() == 0 {
        Ok(())
    } else {
        match link_table_failure(links.drop_last()) {
            Err(e) => Err(e),
            Ok(()) => {
                let link = links.last();
                if link.id == 0 {
                    Err(SurfaceError::ReservedHyperlinkId)
                } else if link.uri.len() == 0 {
                    Err(SurfaceError::HyperlinkMissingUri(link.id))
                } else if hyperlink_known(links.drop_last(), link.id) {
                    Err(SurfaceError::DuplicateHyperlinkId(link.id))
                } else {
                    Ok(())
                }
            },
        }
    }
}

proof fn lemma_link_table_failure_extends(links: Seq<HyperlinkView>, i: int, j: int)
    requires
        0 <= i <= j <= links.len(),
        link_table_failure(links.take(i)) is Err,
    ensures
        link_table_failure(links.take(j)) == link_table_failure(links.take(i)),
    decreases j - i,
{
    if j > i {
        lemma_link_table_failure_extends(links, i, j - 1);
        assert(links.take(j).drop_last() =~= links.take(j - 1));
    }
}

/// Every entry of a hyperlink table is well formed: its id is nonzero, its
/// target is not empty, and no earlier entry has its id.
pub open spec fn links_well_formed(links: Seq<HyperlinkView>) -> bool {
    forall|i: int|
        0 <= i < links.len() ==> {
            &&& (#[trigger] links[i]).id != 0
            &&& links[i].uri.len() > 0
            &&& forall|j: int| 0 <= j < i ==> (#[trigger] links[j]).id != links[i].id
        }
}

/// A hyperlink table is accepted exactly when every entry is well formed.
pub proof fn lemma_link_table_accepted(links: Seq<HyperlinkView>)
    ensures
        link_table_failure(links) is Ok <==> links_well_formed(links),
    decreases links.len(),
{
    if links.len() > 0 {
        let front = links.drop_last();
        lemma_link_table_accepted(front);
        let last = links.last();
        assert forall|i: int| 0 <= i < front.len() implies #[trigger] front[i] == links[i] by {}
        if links_well_formed(links) {
            assert(links_well_formed(front)) by {
                assert forall|i: int| 0 <= i < front.len() implies {
                    &&& (#[trigger] front[i]).id != 0
                    &&& front[i].uri.len() > 0
                    &&& forall|j: int| 0 <= j < i ==> (#[trigger] front[j]).id != front[i].id
                } by {
                    assert(links[i].id != 0);
                    assert forall|j: int| 0 <= j < i implies (#[trigger] front[j]).id != front[i].id by {
                        assert(links[j].id != links[i].id);
                    }
                }
            }
            assert(links[links.len() - 1].id != 0);
            if hyperlink_known(front, last.id) {
                let k = choose|k: int| 0 <= k < front.len() && (#[trigger] front[k]).id == last.id;
                assert(links[k].id != links[links.len() - 1].id);
            }
        }
        if link_table_failure(links) is Ok {
            assert forall|i: int| 0 <= i < links.len() implies {
                &&& (#[trigger] links[i]).id != 0
                &&& links[i].uri.len() > 0
                &&& forall|j: int| 0 <= j < i ==> (#[trigger] links[j]).id != links[i].id
            } by {
                if i < links.len() - 1 {
                    assert(front[i] == links[i]);
                    assert forall|j: int| 0 <= j < i implies (#[trigger] links[j]).id != links[i].id by {
                        assert(front[j] == links[j]);
                    }
                } else {
                    assert forall|j: int| 0 <= j < i implies (#[trigger] links[j]).id != links[i].id by {
                        assert(front[j] == links[j]);
                        if links[j].id == last.id {
                            assert(hyperlink_known(front, last.id));
                        }
                    }
                }
            }
        }
    }
}

/// The complaint about entry `i` of a hyperlink table, given the entries
/// before it: a reserved id, a missing target, or an id already used.
pub open spec fn link_entry_failure(links: Seq<HyperlinkView>, i: int) -> Result<(), SurfaceError> {
    let link = links[i];
    if link.id == 0 {
        Err(SurfaceError::ReservedHyperlinkId)
    } else if link.uri.len() == 0 {
        Err(SurfaceError::HyperlinkMissingUri(link.id))
    } else if hyperlink_known(links.take(i), link.id) {
        Err(SurfaceError::DuplicateHyperlinkId(link.id))
    } else {
        Ok(())
    }
}

/// A refused hyperlink table is refused for its first entry that is not
/// well formed: the entries before it are, and the error is that entry's.
pub proof fn lemma_link_table_names_first_offender(links: Seq<HyperlinkView>)
    requires
        link_table_failure(links) is Err,
    ensures
        exists|i: int|
            0 <= i < links.len() && links_well_formed(links.take(i)) && #[trigger] link_entry_failure(
                links,
                i,
            ) == link_table_failure(links),
    decreases links.len(),
{
    let front = links.drop_last();
    if link_table_failure(front) is Err {
        lemma_link_table_names_first_offender(front);
        let i = choose|i: int|
            0 <= i < front.len() && links_well_formed(front.take(i)) && #[trigger] link_entry_failure(
                front,
                i,
            ) == link_table_failure(front);
        assert(front.take(i) =~= links.take(i));
        assert(front[i] == links[i]);
        assert(link_entry_failure(links, i) == link_table_failure(links));
    } else {
        lemma_link_table_accepted(front);
        let i = links.len() - 1;
        assert(links.take(i) =~= front);
        assert(link_entry_failure(links, i) == link_table_failure(links));
    }
}

pub fn validate_hyperlink_table(hyperlinks: &Vec<HyperlinkSummary>) -> (checked: Result<
    (),
    SurfaceError,
>)
    ensures
        checked == link_table_failure(hyperlinks.deep_view()),
{
    let ghost items = hyperlinks.deep_view();
    let mut i: usize = 0;
    while i < hyperlinks.len()
        invariant
            items == hyperlinks.deep_view(),
            0 <= i <= hyperlinks@.len(),
            link_table_failure(items.take(i as int)) == Ok::<(), SurfaceError>(()),
        decreases hyperlinks@.len() - i,
    {
        assert(items[i as int] == hyperlinks@[i as int]@);
        let link = &hyperlinks[i];
        proof {
            assert(items.take(i + 1).drop_last() =~= items.take(i as int));
            assert(items.take(i + 1).last() == items[i as int]);
        }
        let mut failure: Option<SurfaceError> = None;
        if link.id == 0 {
            failure = Some(SurfaceError::ReservedHyperlinkId);
        } else if link.uri.as_str().is_empty() {
            failure = Some(SurfaceError::HyperlinkMissingUri(link.id));
        } else {
            let mut j: usize = 0;
            while j < i && failure.is_none()
                invariant
                    items == hyperlinks.deep_view(),
                    0 <= j <= i < hyperlinks@.len(),
                    link@ == items[i as int],
                    failure is None ==> forall|k: int| 0 <= k < j ==> (#[trigger] items[k]).id != link.id,
                    failure is Some ==> failure == Some(SurfaceError::DuplicateHyperlinkId(link.id))
                        && hyperlink_known(items.take(i as int), link.id),
                decreases i - j,
            {
                assert(items[j as int] == hyperlinks@[j as int]@);
                if hyperlinks[j].id == link.id {
                    assert(items.take(i as int)[j as int] == items[j as int]);
                    failure = Some(SurfaceError::DuplicateHyperlinkId(link.id));
                }
                j = j + 1;
            }
            proof {
                if failure is None {
                    assert forall|k: int| 0 <= k < i implies (#[trigger] items.take(i as int)[k]).id
                        != link.id by {
                        assert(items.take(i as int)[k] == items[k]);
                    }
                }
            }
        }
        if let Some(e) = failure {
            proof {
                lemma_link_table_failure_extends(items, i + 1, items.len() as int);
                assert(items.take(items.len() as int) =~= items);
            }
            return Err(e);
        }
        i = i + 1;
    }
    assert(items.take(i as int) =~= items);
    Ok(())
}

// ---------------------------------------------------------------------------
// The cached surface of one pane
// ---------------------------------------------------------------------------

/// What a client keeps of one pane's screen between frames.
#[derive(Clone, Debug, PartialEq, Eq)]
pub struct ClientPaneSurface {
    pub pane_id: String,
    pub version: u64,
    pub cols: u32,
    pub rows: u32,
    pub surface: SurfaceKind,
    pub cursor: Option<CursorSummary>,
    pub modes: TerminalModeSummary,
    pub title: String,
    pub working_directory: String,
    pub colors: TerminalColorSummary,
    pub styles: Vec<StyleSummary>,
    pub hyperlinks: Vec<HyperlinkSummary>,
    pub row_text: Vec<String>,
    pub row_runs: Vec<Vec<CellRunSummary>>,
    pub row_dirty_hashes: Vec<u64>,
    pub row_semantic_prompts: Vec<RowSemanticPrompt>,
    pub row_dirty: Vec<bool>,
    pub row_kitty_placeholders: Vec<bool>,
    pub row_state_hashes: Vec<u64>,
}

#[verifier::ext_equal]
pub struct PaneSurfaceView {
    pub pane_id: Seq<char>,
    pub version: u64,
    pub cols: u32,
    pub rows: u32,
    pub surface: SurfaceKind,
    pub cursor: Option<CursorSummary>,
    pub modes: TerminalModeSummary,
    pub title: Seq<char>,
    pub working_directory: Seq<char>,
    pub colors: ColorsView,
    pub styles: Seq<StyleSummary>,
    pub hyperlinks: Seq<HyperlinkView>,
    pub row_text: Seq<Seq<char>>,
    pub row_runs: Seq<Seq<CellRunView>>,
    pub row_dirty_hashes: Seq<u64>,
    pub row_semantic_prompts: Seq<RowSemanticPrompt>,
    pub row_dirty: Seq<bool>,
    pub row_kitty_placeholders: Seq<bool>,
    pub row_state_hashes: Seq<u64>,
}

impl View for ClientPaneSurface {
    type V = PaneSurfaceView;

    open spec fn view(&self) -> PaneSurfaceView {
        PaneSurfaceView {
            pane_id: self.pane_id@,
            version: self.version,
            cols: self.cols,
            rows: self.rows,
            surface: self.surface,
            cursor: self.cursor,
            modes: self.modes,
            title: self.title@,
            working_directory: self.working_directory@,
            colors: self.colors@,
            styles: self.styles@,
            hyperlinks: self.hyperlinks.deep_view(),
            row_text: self.row_text.deep_view(),
            row_runs: self.row_runs.deep_view(),
            row_dirty_hashes: self.row_dirty_hashes@,
            row_semantic_prompts: self.row_semantic_prompts@,
            row_dirty: self.row_dirty@,
            row_kitty_placeholders: self.row_kitty_placeholders@,
            row_state_hashes: self.row_state_hashes@,
        }
    }
}

impl DeepView for ClientPaneSurface {
    type V = PaneSurfaceView;

    open spec fn deep_view(&self) -> PaneSurfaceView {
        self@
    }
}

impl PaneSurfaceView {
    /// Every per-row table has one entry per row of the surface.
    pub open spec fn rows_consistent(self) -> bool {
        &&& self.row_text.len() == self.rows
        &&& self.row_runs.len() == self.rows
        &&& self.row_dirty_hashes.len() == self.rows
        &&& self.row_semantic_prompts.len() == self.rows
        &&& self.row_dirty.len() == self.rows
        &&& self.row_kitty_placeholders.len() == self.rows
        &&& self.row_state_hashes.len() == self.rows
    }

    /// The same row count and per-row tables of the same lengths.
    pub open spec fn same_shape(self, other: PaneSurfaceView) -> bool {
        &&& self.rows == other.rows
        &&& self.row_text.len() == other.row_text.len()
        &&& self.row_runs.len() == other.row_runs.len()
        &&& self.row_dirty_hashes.len() == other.row_dirty_hashes.len()
        &&& self.row_semantic_prompts.len() == other.row_semantic_prompts.len()
        &&& self.row_dirty.len() == other.row_dirty.len()
        &&& self.row_kitty_placeholders.len() == other.row_kitty_placeholders.len()
        &&& self.row_state_hashes.len() == other.row_state_hashes.len()
    }

    /// Every per-row table has an entry for each row of text.
    pub open spec fn rows_cover_text(self) -> bool {
        &&& self.row_runs.len() >= self.row_text.len()
        &&& self.row_dirty_hashes.len() >= self.row_text.len()
        &&& self.row_semantic_prompts.len() >= self.row_text.len()
        &&& self.row_dirty.len() >= self.row_text.len()
        &&& self.row_kitty_placeholders.len() >= self.row_text.len()
        &&& self.row_state_hashes.len() >= self.row_text.len()
    }

    /// What every cached surface satisfies: consistent rows, a default style
    /// at least, a valid hyperlink table that every run refers into, known
    /// kinds and modes, and a palette without pending diff.
    pub open spec fn valid(self) -> bool {
        &&& self.rows_consistent()
        &&& self.styles.len() >= 1
        &&& link_table_failure(self.hyperlinks) == Ok::<(), SurfaceError>(())
        &&& surface_kind_check(self.surface) == Ok::<(), SurfaceError>(())
        &&& cursor_check(self.cursor) == Ok::<(), SurfaceError>(())
        &&& modes_check(self.modes) == Ok::<(), SurfaceError>(())
        &&& !palette_diff_present(self.colors)
        &&& forall|i: int|
            0 <= i < self.row_runs.len() ==> first_failure(
                #[trigger] self.row_runs[i],
                style_id_check(style_count(self.styles.len())),
            ) == Ok::<(), SurfaceError>(())
        &&& forall|i: int|
            0 <= i < self.row_runs.len() ==> first_failure(
                #[trigger] self.row_runs[i],
                hyperlink_id_check(self.hyperlinks),
            ) == Ok::<(), SurfaceError>(())
    }

    /// The surface with one row replaced; a row sent without runs becomes a
    /// single plain run of its text.
    pub open spec fn with_row(self, r: RowUpdateView) -> PaneSurfaceView {
        let i = r.row as int;
        PaneSurfaceView {
            row_text: self.row_text.update(i, r.text),
            row_runs: self.row_runs.update(
                i,
                if r.runs.len() == 0 {
                    seq![plain_run(r.text)]
                } else {
                    r.runs
                },
            ),
            row_dirty_hashes: self.row_dirty_hashes.update(i, r.dirty_hash),
            row_semantic_prompts: self.row_semantic_prompts.update(i, r.semantic_prompt),
            row_dirty: self.row_dirty.update(i, r.dirty),
            row_kitty_placeholders: self.row_kitty_placeholders.update(
                i,
                r.kitty_virtual_placeholder,
            ),
            row_state_hashes: self.row_state_hashes.update(i, r.row_state_hash),
            ..self
        }
    }
}

/// The row updates applied in order; the first that falls outside the
/// surface is refused.
pub open spec fn rows_applied(s: PaneSurfaceView, rows: Seq<RowUpdateView>) -> Result<
    PaneSurfaceView,
    SurfaceError,
>
    decreases rows.len(),
{
    if rows.len() == 0 {
        Ok(s)
    } else {
        match rows_applied(s, rows.drop_last()) {
            Err(e) => Err(e),
            Ok(t) => if rows.last().row >= t.row_text.len() {
                Err(SurfaceError::RowOutsideSurface { row: rows.last().row, rows: s.rows as usize })
            } else {
                Ok(t.with_row(rows.last()))
            },
        }
    }
}

/// A palette diff resolved against the cached palette: the cached entries
/// before `palette_diff_start`, then the diff. Without a diff, an empty
/// palette keeps the cached one.
pub open spec fn materialized(colors: ColorsView, base: ColorsView) -> Result<ColorsView, SurfaceError> {
    match colors.palette_diff_start {
        Some(start) => if start > base.palette_rgba.len() {
            Err(
                SurfaceError::PaletteDiffStartOutOfRange {
                    start,
                    palette_len: base.palette_rgba.len() as usize,
                },
            )
        } else {
            Ok(
                ColorsView {
                    palette_rgba: base.palette_rgba.take(start as int) + colors.palette_diff_rgba,
                    palette_diff_start: None,
                    palette_diff_rgba: Seq::empty(),
                    ..colors
                },
            )
        },
        None => Ok(
            ColorsView {
                palette_rgba: if colors.palette_rgba.len() == 0 {
                    base.palette_rgba
                } else {
                    colors.palette_rgba
                },
                palette_diff_start: None,
                palette_diff_rgba: Seq::empty(),
                ..colors
            },
        ),
    }
}

impl TerminalColorSummary {
    pub fn materialize(&self, base: &TerminalColorSummary) -> (colors: Result<
        TerminalColorSummary,
        SurfaceError,
    >)
        ensures
            match colors {
                Ok(c) => materialized(self@, base@) == Ok::<ColorsView, SurfaceError>(c@),
                Err(e) => materialized(self@, base@) == Err::<ColorsView, SurfaceError>(e),
            },
    {
        let mut colors = self.duplicate();
        if let Some(start) = self.palette_diff_start {
            let start = start as usize;
            if start > base.palette_rgba.len() {
                return Err(
                    SurfaceError::PaletteDiffStartOutOfRange {
                        start: start as u32,
                        palette_len: base.palette_rgba.len(),
                    },
                );
            }
            let mut palette: Vec<u32> = Vec::new();
            let mut i: usize = 0;
            while i < start
                invariant
                    start <= base.palette_rgba@.len(),
                    0 <= i <= start,
                    palette@ == base.palette_rgba@.take(i as int),
                decreases start - i,
            {
                palette.push(base.palette_rgba[i]);
                i = i + 1;
                assert(palette@ =~= base.palette_rgba@.take(i as int));
            }
            let mut k: usize = 0;
            while k < self.palette_diff_rgba.len()
                invariant
                    palette@ == base.palette_rgba@.take(start as int) + self.palette_diff_rgba@.take(
                        k as int,
                    ),
                    0 <= k <= self.palette_diff_rgba@.len(),
                decreases self.palette_diff_rgba@.len() - k,
            {
                palette.push(self.palette_diff_rgba[k]);
                k = k + 1;
                assert(palette@ =~= base.palette_rgba@.take(start as int)
                    + self.palette_diff_rgba@.take(k as int));
            }
            assert(self.palette_diff_rgba@.take(k as int) =~= self.palette_diff_rgba@);
            colors.palette_rgba = palette;
        } else if self.palette_rgba.len() == 0 {
            colors.palette_rgba = copy_values(&base.palette_rgba);
        }
        colors.palette_diff_start = None;
        colors.palette_diff_rgba = Vec::new();
        proof {
            let expected = materialized(self@, base@);
            assert(expected matches Ok(m) && m =~= colors@);
        }
        Ok(colors)
    }
}

impl ClientPaneSurface {
    /// Applies row updates in order; stops at the first row outside the surface.
    fn apply_rows(&mut self, rows: &Vec<SurfaceRowUpdate>) -> (applied: Result<(), SurfaceError>)
        requires
            old(self)@.rows_cover_text(),
        ensures
            final(self)@.same_shape(old(self)@),
            match applied {
                Ok(()) => rows_applied(old(self)@, rows.deep_view()) == Ok::<
                    PaneSurfaceView,
                    SurfaceError,
                >(final(self)@),
                Err(e) => rows_applied(old(self)@, rows.deep_view()) == Err::<
                    PaneSurfaceView,
                    SurfaceError,
                >(e),
            },
    {
        let ghost start = self@;
        let ghost items = rows.deep_view();
        let mut i: usize = 0;
        while i < rows.len()
            invariant
                items == rows.deep_view(),
                start == old(self)@,
                0 <= i <= rows@.len(),
                start.rows_cover_text(),
                self@.same_shape(start),
                rows_applied(start, items.take(i as int)) == Ok::<PaneSurfaceView, SurfaceError>(
                    self@,
                ),
            decreases rows@.len() - i,
        {
            assert(items[i as int] == rows@[i as int]@);
            proof {
                assert(items.take(i + 1).drop_last() =~= items.take(i as int));
                assert(items.take(i + 1).last() == items[i as int]);
            }
            let row = &rows[i];
            let index = row.row as usize;
            if index >= self.row_text.len() {
                proof {
                    assert(self@.row_text.len() == self.row_text@.len());
                    assert(rows_applied(start, items.take(i + 1)) == Err::<PaneSurfaceView, SurfaceError>(
                        SurfaceError::RowOutsideSurface { row: row.row, rows: self.rows as usize },
                    ));
                    lemma_rows_applied_extends(start, items, i + 1, items.len() as int);
                    assert(items.take(items.len() as int) =~= items);
                }
                return Err(SurfaceError::RowOutsideSurface { row: row.row, rows: self.rows as usize });
            }
            let ghost before = *self;
            let runs = if row.runs.len() == 0 {
                vec![CellRunSummary::plain(row.text.as_str())]
            } else {
                copy_runs(&row.runs)
            };
            let text = row.text.clone();
            self.row_text.set(index, text);
            self.row_runs.set(index, runs);
            self.row_dirty_hashes.set(index, row.dirty_hash);
            self.row_semantic_prompts.set(index, row.semantic_prompt);
            self.row_dirty.set(index, row.dirty);
            self.row_kitty_placeholders.set(index, row.kitty_virtual_placeholder);
            self.row_state_hashes.set(index, row.row_state_hash);
            proof {
                lemma_deep_update(before.row_text, self.row_text, index as int, text);
                lemma_deep_update(before.row_runs, self.row_runs, index as int, runs);
                if row.runs@.len() == 0 {
                    assert(runs.deep_view() =~= seq![plain_run(row.text@)]);
                }
                assert(self@ =~= before@.with_row(items[i as int]));
            }
            i = i + 1;
        }
        assert(items.take(i as int) =~= items);
        Ok(())
    }
}

proof fn lemma_rows_applied_extends(s: PaneSurfaceView, rows: Seq<RowUpdateView>, i: int, j: int)
    requires
        0 <= i <= j <= rows.len(),
        rows_applied(s, rows.take(i)) is Err,
    ensures
        rows_applied(s, rows.take(j)) == rows_applied(s, rows.take(i)),
    decreases j - i,
{
    if j > i {
        lemma_rows_applied_extends(s, rows, i, j - 1);
        assert(rows.take(j).drop_last() =~= rows.take(j - 1));
    }
}

/// `next`, unless `check` already failed.
pub open spec fn guarded<T>(check: Result<(), SurfaceError>, next: Result<T, SurfaceError>) -> Result<
    T,
    SurfaceError,
> {
    match check {
        Ok(()) => next,
        Err(e) => Err(e),
    }
}

/// The surface a snapshot starts from, before its rows are applied: blank
/// rows, the default style table if none was sent, no colors if none were.
pub open spec fn fresh_surface(u: SurfaceUpdateView, cols: u32, rows: u32) -> PaneSurfaceView {
    PaneSurfaceView {
        pane_id: u.pane_id,
        version: u.version,
        cols: cols,
        rows: rows,
        surface: match u.surface {
            Some(k) => k,
            None => SurfaceKind::Main,
        },
        cursor: u.cursor,
        modes: u.modes,
        title: u.title,
        working_directory: u.working_directory,
        colors: match u.colors {
            Some(c) => c,
            None => no_colors(),
        },
        styles: if u.styles.len() == 0 {
            default_styles()
        } else {
            u.styles
        },
        hyperlinks: u.hyperlinks,
        row_text: Seq::new(rows as nat, |i: int| Seq::<char>::empty()),
        row_runs: Seq::new(rows as nat, |i: int| Seq::<CellRunView>::empty()),
        row_dirty_hashes: Seq::new(rows as nat, |i: int| 0u64),
        row_semantic_prompts: Seq::new(rows as nat, |i: int| RowSemanticPrompt::Unmarked),
        row_dirty: Seq::new(rows as nat, |i: int| false),
        row_kitty_placeholders: Seq::new(rows as nat, |i: int| false),
        row_state_hashes: Seq::new(rows as nat, |i: int| 0u64),
    }
}

/// The surface a snapshot describes, or why it is refused.
pub open spec fn snapshot_surface(u: SurfaceUpdateView) -> Result<PaneSurfaceView, SurfaceError> {
    guarded(
        palette_scope_check(SurfaceUpdateKind::Snapshot, None, u.colors),
        match u.cols {
            None => Err(SurfaceError::SnapshotMissingCols),
            Some(cols) => match u.rows {
                None => Err(SurfaceError::SnapshotMissingRows),
                Some(rows) => {
                    let s = fresh_surface(u, cols, rows);
                    guarded(
                        surface_kind_check(s.surface),
                        guarded(
                            cursor_check(s.cursor),
                            guarded(
                                modes_check(s.modes),
                                guarded(
                                    link_table_failure(s.hyperlinks),
                                    guarded(
                                        rows_index_failure(u.row_updates, rows as nat),
                                        guarded(
                                            first_failure(u.row_updates, row_style_check(s.styles)),
                                            guarded(
                                                first_failure(
                                                    u.row_updates,
                                                    row_hyperlink_check(s.hyperlinks),
                                                ),
                                                rows_applied(s, u.row_updates),
                                            ),
                                        ),
                                    ),
                                ),
                            ),
                        ),
                    )
                },
            },
        },
    )
}

pub open spec fn colors_change(update: Option<ColorsView>, cached: ColorsView) -> bool {
    update matches Some(c) && c != cached
}

/// What a patch that passed the common checks does, by its kind.
pub open spec fn patch_body(s: PaneSurfaceView, u: SurfaceUpdateView) -> Result<
    PaneSurfaceView,
    SurfaceError,
> {
    match u.patch_kind {
        Some(PatchKind::FullRefreshRequired) => Err(SurfaceError::FullRefreshRequired),
        Some(PatchKind::CursorOnly) => if colors_change(u.colors, s.colors) {
            Err(SurfaceError::CursorOnlyChangesColors)
        } else {
            Ok(
                PaneSurfaceView {
                    cursor: u.cursor,
                    title: u.title,
                    working_directory: u.working_directory,
                    version: u.version,
                    ..s
                },
            )
        },
        Some(PatchKind::ModeOnly) => if colors_change(u.colors, s.colors) {
            Err(SurfaceError::ModeOnlyChangesColors)
        } else {
            Ok(
                PaneSurfaceView {
                    cursor: u.cursor,
                    modes: u.modes,
                    title: u.title,
                    working_directory: u.working_directory,
                    version: u.version,
                    ..s
                },
            )
        },
        Some(PatchKind::ColorOnly) => match u.colors {
            None => Err(SurfaceError::ColorOnlyMissingColors),
            Some(c) => match materialized(c, s.colors) {
                Err(e) => Err(e),
                Ok(m) => Ok(
                    PaneSurfaceView {
                        cursor: u.cursor,
                        colors: m,
                        modes: u.modes,
                        title: u.title,
                        working_directory: u.working_directory,
                        version: u.version,
                        ..s
                    },
                ),
            },
        },
        Some(PatchKind::ReplaceRows) => if colors_change(u.colors, s.colors) {
            Err(SurfaceError::ReplaceRowsChangesColors)
        } else {
            guarded(
                first_failure(u.row_updates, row_enum_check()),
                guarded(
                    rows_index_failure(u.row_updates, s.row_text.len()),
                    guarded(
                        first_failure(u.row_updates, row_style_check(s.styles)),
                        guarded(
                            first_failure(u.row_updates, row_hyperlink_check(s.hyperlinks)),
                            match rows_applied(s, u.row_updates) {
                                Err(e) => Err(e),
                                Ok(t) => Ok(
                                    PaneSurfaceView {
                                        cursor: u.cursor,
                                        modes: u.modes,
                                        title: u.title,
                                        working_directory: u.working_directory,
                                        version: u.version,
                                        ..t
                                    },
                                ),
                            },
                        ),
                    ),
                ),
            )
        },
        _ => Err(SurfaceError::UnsupportedPatchKind),
    }
}

/// A pane name that a specification leaves open: the functions that give
/// an error naming panes state the names themselves.
pub open spec fn unnamed() -> String {
    vstd::pervasive::arbitrary()
}

/// A patch applied to a cached surface: a patch for another pane is
/// refused with both pane names, any other patch as `patched` says.
pub open spec fn patch_outcome(s: ClientPaneSurface, u: SurfaceUpdate) -> Result<
    PaneSurfaceView,
    SurfaceError,
> {
    if u.pane_id@ != s.pane_id@ {
        Err(SurfaceError::PaneMismatch { expected: s.pane_id, got: u.pane_id })
    } else {
        patched(s@, u@)
    }
}

/// An update applied to a cached surface, with pane names as
/// `patch_outcome` gives them.
pub open spec fn update_outcome(s: ClientPaneSurface, u: SurfaceUpdate) -> Result<
    PaneSurfaceView,
    SurfaceError,
> {
    match u.kind {
        SurfaceUpdateKind::Snapshot => snapshot_surface(u@),
        SurfaceUpdateKind::Patch => patch_outcome(s, u),
    }
}

/// The cached surface after a patch, or why the patch is refused.
pub open spec fn patched(s: PaneSurfaceView, u: SurfaceUpdateView) -> Result<
    PaneSurfaceView,
    SurfaceError,
> {
    if u.pane_id != s.pane_id {
        Err(SurfaceError::PaneMismatch { expected: unnamed(), got: unnamed() })
    } else if u.base_version != Some(s.version) {
        Err(SurfaceError::BaseVersionMismatch { expected: s.version, got: u.base_version })
    } else {
        guarded(
            match u.patch_kind {
                Some(k) => patch_kind_check(k),
                None => Ok(()),
            },
            guarded(
                palette_scope_check(u.kind, u.patch_kind, u.colors),
                guarded(
                    cursor_check(u.cursor),
                    guarded(
                        modes_check(u.modes),
                        if u.hyperlinks.len() > 0 {
                            Err(SurfaceError::PatchChangesHyperlinks)
                        } else {
                            guarded(
                                match u.patch_kind {
                                    Some(k) => no_row_payload_check(k, u.row_updates.len()),
                                    None => Ok(()),
                                },
                                patch_body(s, u),
                            )
                        },
                    ),
                ),
            ),
        )
    }
}

/// A snapshot replaces the surface; a patch changes it.
pub open spec fn updated(s: PaneSurfaceView, u: SurfaceUpdateView) -> Result<
    PaneSurfaceView,
    SurfaceError,
> {
    match u.kind {
        SurfaceUpdateKind::Snapshot => snapshot_surface(u),
        SurfaceUpdateKind::Patch => patched(s, u),
    }
}

pub fn filled<T: Copy>(value: T, n: usize) -> (values: Vec<T>)
    ensures
        values@ == Seq::new(n as nat, |i: int| value),
{
    let mut values: Vec<T> = Vec::new();
    let mut i: usize = 0;
    while i < n
        invariant
            0 <= i <= n,
            values@ == Seq::new(i as nat, |j: int| value),
        decreases n - i,
    {
        values.push(value);
        i = i + 1;
        assert(values@ =~= Seq::new(i as nat, |j: int| value));
    }
    values
}

pub(crate) fn blank_rows(n: usize) -> (rows: (Vec<String>, Vec<Vec<CellRunSummary>>))
    ensures
        rows.0.deep_view() == Seq::new(n as nat, |i: int| Seq::<char>::empty()),
        rows.1.deep_view() == Seq::new(n as nat, |i: int| Seq::<CellRunView>::empty()),
{
    let mut text: Vec<String> = Vec::new();
    let mut runs: Vec<Vec<CellRunSummary>> = Vec::new();
    let mut i: usize = 0;
    while i < n
        invariant
            0 <= i <= n,
            text.deep_view() == Seq::new(i as nat, |j: int| Seq::<char>::empty()),
            runs.deep_view() == Seq::new(i as nat, |j: int| Seq::<CellRunView>::empty()),
        decreases n - i,
    {
        let ghost text_before = text;
        let ghost runs_before = runs;
        let empty_text = String::new();
        let empty_runs: Vec<CellRunSummary> = Vec::new();
        text.push(empty_text);
        runs.push(empty_runs);
        proof {
            lemma_deep_push(text_before, text, empty_text);
            lemma_deep_push(runs_before, runs, empty_runs);
            assert(empty_runs.deep_view() =~= Seq::<CellRunView>::empty());
        }
        i = i + 1;
        assert(text.deep_view() =~= Seq::new(i as nat, |j: int| Seq::<char>::empty()));
        assert(runs.deep_view() =~= Seq::new(i as nat, |j: int| Seq::<CellRunView>::empty()));
    }
    (text, runs)
}

impl ClientPaneSurface {
    /// The surface a snapshot describes, checked.
    pub fn from_snapshot(update: &SurfaceUpdate) -> (surface: Result<ClientPaneSurface, SurfaceError>)
        ensures
            match surface {
                Ok(s) => snapshot_surface(update@) == Ok::<PaneSurfaceView, SurfaceError>(s@),
                Err(e) => snapshot_surface(update@) == Err::<PaneSurfaceView, SurfaceError>(e),
            },
    {
        if let Err(e) = validate_palette_diff_scope(SurfaceUpdateKind::Snapshot, None, &update.colors) {
            return Err(e);
        }
        let cols = match update.cols {
            Some(c) => c,
            None => {
                return Err(SurfaceError::SnapshotMissingCols);
            },
        };
        let rows = match update.rows {
            Some(r) => r,
            None => {
                return Err(SurfaceError::SnapshotMissingRows);
            },
        };
        let ghost fresh = fresh_surface(update@, cols, rows);
        let surface_kind = match update.surface {
            Some(k) => k,
            None => SurfaceKind::Main,
        };
        let colors = match &update.colors {
            Some(c) => c.duplicate(),
            None => TerminalColorSummary::default(),
        };
        let styles = if update.styles.len() == 0 {
            default_style_summaries()
        } else {
            copy_values(&update.styles)
        };
        let hyperlinks = copy_hyperlinks(&update.hyperlinks);
        if let Err(e) = validate_surface_kind(surface_kind) {
            return Err(e);
        }
        if let Err(e) = validate_cursor_summary(update.cursor) {
            return Err(e);
        }
        if let Err(e) = validate_terminal_mode_summary(update.modes) {
            return Err(e);
        }
        if let Err(e) = validate_hyperlink_table(&hyperlinks) {
            return Err(e);
        }
        let row_count = rows as usize;
        if let Err(e) = validate_row_update_indices(&update.row_updates, row_count) {
            return Err(e);
        }
        if let Err(e) = validate_row_update_style_ids(&update.row_updates, &styles) {
            return Err(e);
        }
        if let Err(e) = validate_row_update_hyperlink_ids(&update.row_updates, &hyperlinks) {
            return Err(e);
        }
        let (row_text, row_runs) = blank_rows(row_count);
        let mut surface = ClientPaneSurface {
            pane_id: update.pane_id.clone(),
            version: update.version,
            cols,
            rows,
            surface: surface_kind,
            cursor: update.cursor,
            modes: update.modes,
            title: update.title.clone(),
            working_directory: update.working_directory.clone(),
            colors,
            styles,
            hyperlinks,
            row_text,
            row_runs,
            row_dirty_hashes: filled(0u64, row_count),
            row_semantic_prompts: filled(RowSemanticPrompt::Unmarked, row_count),
            row_dirty: filled(false, row_count),
            row_kitty_placeholders: filled(false, row_count),
            row_state_hashes: filled(0u64, row_count),
        };
        assert(surface@ =~= fresh);
        match surface.apply_rows(&update.row_updates) {
            Ok(()) => Ok(surface),
            Err(e) => Err(e),
        }
    }

    /// A snapshot replaces the surface, a patch is applied to it; a refused
    /// update leaves the surface as it was.
    pub fn apply_update(&mut self, update: &SurfaceUpdate) -> (applied: Result<(), SurfaceError>)
        requires
            update.kind == SurfaceUpdateKind::Patch && update.patch_kind == Some(
                PatchKind::ReplaceRows,
            ) ==> old(self)@.rows_cover_text(),
        ensures
            old(self)@.rows_cover_text() ==> final(self)@.rows_cover_text(),
            applied is Ok && update.kind == SurfaceUpdateKind::Snapshot ==> final(self)@.rows_cover_text(),
            final(self)@.row_text.len() == old(self)@.row_text.len() || final(self)@.row_text.len()
                == final(self)@.rows,
            match applied {
                Ok(()) => update_outcome(*old(self), *update) == Ok::<PaneSurfaceView, SurfaceError>(
                    final(self)@,
                ),
                Err(e) => update_outcome(*old(self), *update) == Err::<PaneSurfaceView, SurfaceError>(
                    e,
                ) && final(self)@ == old(self)@,
            },
    {
        match update.kind {
            SurfaceUpdateKind::Snapshot => {
                match ClientPaneSurface::from_snapshot(update) {
                    Ok(surface) => {
                        proof {
                            lemma_snapshot_valid(update@);
                        }
                        *self = surface;
                        Ok(())
                    },
                    Err(e) => Err(e),
                }
            },
            SurfaceUpdateKind::Patch => self.apply_patch(update),
        }
    }

    /// Applies a patch to the cached surface. A refused patch leaves the
    /// surface as it was.
    pub fn apply_patch(&mut self, update: &SurfaceUpdate) -> (applied: Result<(), SurfaceError>)
        requires
            update.patch_kind == Some(PatchKind::ReplaceRows) ==> old(self)@.rows_cover_text(),
        ensures
            old(self)@.rows_cover_text() ==> final(self)@.rows_cover_text(),
            final(self)@.row_text.len() == old(self)@.row_text.len(),
            applied is Ok ==> final(self).cursor == update.cursor,
            applied is Ok ==> final(self).version == update.version,
            applied is Ok ==> final(self)@.title == update.title@,
            applied is Ok ==> final(self)@.working_directory == update.working_directory@,
            applied is Ok ==> final(self)@.pane_id == old(self)@.pane_id,
            applied is Ok && update.patch_kind != Some(PatchKind::CursorOnly) ==> final(self).modes
                == update.modes,
            match applied {
                Ok(()) => patch_outcome(*old(self), *update) == Ok::<PaneSurfaceView, SurfaceError>(
                    final(self)@,
                ),
                Err(e) => patch_outcome(*old(self), *update) == Err::<PaneSurfaceView, SurfaceError>(
                    e,
                ) && final(self)@ == old(self)@,
            },
    {
        if !crate::text::str_eq(update.pane_id.as_str(), self.pane_id.as_str()) {
            return Err(
                SurfaceError::PaneMismatch {
                    expected: self.pane_id.clone(),
                    got: update.pane_id.clone(),
                },
            );
        }
        let matches_base = match update.base_version {
            Some(v) => v == self.version,
            None => false,
        };
        if !matches_base {
            return Err(
                SurfaceError::BaseVersionMismatch { expected: self.version, got: update.base_version },
            );
        }
        if let Some(kind) = update.patch_kind {
            if let Err(e) = validate_patch_kind(kind) {
                return Err(e);
            }
        }
        if let Err(e) = validate_palette_diff_scope(update.kind, update.patch_kind, &update.colors) {
            return Err(e);
        }
        if let Err(e) = validate_cursor_summary(update.cursor) {
            return Err(e);
        }
        if let Err(e) = validate_terminal_mode_summary(update.modes) {
            return Err(e);
        }
        if update.hyperlinks.len() > 0 {
            return Err(SurfaceError::PatchChangesHyperlinks);
        }
        if let Some(kind) = update.patch_kind {
            if let Err(e) = validate_no_row_patch_payload(kind, &update.row_updates) {
                return Err(e);
            }
        }
        let changes_colors = match &update.colors {
            Some(c) => !c.same_as(&self.colors),
            None => false,
        };
        match update.patch_kind {
            Some(PatchKind::FullRefreshRequired) => Err(SurfaceError::FullRefreshRequired),
            Some(PatchKind::CursorOnly) => {
                if changes_colors {
                    return Err(SurfaceError::CursorOnlyChangesColors);
                }
                self.cursor = update.cursor;
                self.title = update.title.clone();
                self.working_directory = update.working_directory.clone();
                self.version = update.version;
                Ok(())
            },
            Some(PatchKind::ModeOnly) => {
                if changes_colors {
                    return Err(SurfaceError::ModeOnlyChangesColors);
                }
                self.cursor = update.cursor;
                self.modes = update.modes;
                self.title = update.title.clone();
                self.working_directory = update.working_directory.clone();
                self.version = update.version;
                Ok(())
            },
            Some(PatchKind::ColorOnly) => {
                let colors = match &update.colors {
                    Some(c) => c,
                    None => {
                        return Err(SurfaceError::ColorOnlyMissingColors);
                    },
                };
                let colors = match colors.materialize(&self.colors) {
                    Ok(m) => m,
                    Err(e) => {
                        return Err(e);
                    },
                };
                self.cursor = update.cursor;
                self.colors = colors;
                self.modes = update.modes;
                self.title = update.title.clone();
                self.working_directory = update.working_directory.clone();
                self.version = update.version;
                Ok(())
            },
            Some(PatchKind::ReplaceRows) => {
                if changes_colors {
                    return Err(SurfaceError::ReplaceRowsChangesColors);
                }
                if let Err(e) = validate_row_update_terminal_enums(&update.row_updates) {
                    return Err(e);
                }
                if let Err(e) = validate_row_update_indices(&update.row_updates, self.row_text.len()) {
                    return Err(e);
                }
                if let Err(e) = validate_row_update_style_ids(&update.row_updates, &self.styles) {
                    return Err(e);
                }
                if let Err(e) = validate_row_update_hyperlink_ids(
                    &update.row_updates,
                    &self.hyperlinks,
                ) {
                    return Err(e);
                }
                proof {
                    lemma_rows_applied_ok(self@, update@.row_updates);
                    lemma_rows_applied_effect(self@, update@.row_updates);
                }
                if let Err(e) = self.apply_rows(&update.row_updates) {
                    return Err(e);
                }
                self.cursor = update.cursor;
                self.modes = update.modes;
                self.title = update.title.clone();
                self.working_directory = update.working_directory.clone();
                self.version = update.version;
                Ok(())
            },
            _ => Err(SurfaceError::UnsupportedPatchKind),
        }
    }
}

/// Row updates that passed the index check apply without error.
proof fn lemma_rows_applied_ok(s: PaneSurfaceView, rows: Seq<RowUpdateView>)
    requires
        s.rows_cover_text(),
        rows_index_failure(rows, s.row_text.len()) == Ok::<(), SurfaceError>(()),
    ensures
        rows_applied(s, rows) is Ok,
        rows_applied(s, rows) matches Ok(t) ==> t.same_shape(s),
    decreases rows.len(),
{
    if rows.len() > 0 {
        lemma_rows_applied_ok(s, rows.drop_last());
    }
}

// ---------------------------------------------------------------------------
// Every accepted update leaves a valid surface
// ---------------------------------------------------------------------------

pub proof fn lemma_plain_run_valid(text: Seq<char>, styles: Seq<StyleSummary>, links: Seq<HyperlinkView>)
    ensures
        first_failure(seq![plain_run(text)], style_id_check(style_count(styles.len())))
            == Ok::<(), SurfaceError>(()),
        first_failure(seq![plain_run(text)], hyperlink_id_check(links)) == Ok::<(), SurfaceError>(()),
{
    let runs = seq![plain_run(text)];
    let style_check = style_id_check(style_count(styles.len()));
    let link_check = hyperlink_id_check(links);
    assert(runs.drop_last() =~= Seq::<CellRunView>::empty());
    assert(first_failure(runs.drop_last(), style_check) == Ok::<(), SurfaceError>(()));
    assert(first_failure(runs.drop_last(), link_check) == Ok::<(), SurfaceError>(()));
    assert(runs.last() == plain_run(text));
    assert(style_check(plain_run(text)) == Ok::<(), SurfaceError>(()));
    assert(link_check(plain_run(text)) == Ok::<(), SurfaceError>(()));
}

proof fn lemma_rows_applied_valid(s: PaneSurfaceView, rows: Seq<RowUpdateView>)
    requires
        s.valid(),
        first_failure(rows, row_style_check(s.styles)) == Ok::<(), SurfaceError>(()),
        first_failure(rows, row_hyperlink_check(s.hyperlinks)) == Ok::<(), SurfaceError>(()),
    ensures
        rows_applied(s, rows) matches Ok(t) ==> t.valid() && t.styles == s.styles && t.hyperlinks
            == s.hyperlinks && t.rows == s.rows,
    decreases rows.len(),
{
    if rows.len() > 0 {
        lemma_rows_applied_valid(s, rows.drop_last());
        if let Ok(t) = rows_applied(s, rows) {
            let r = rows.last();
            let before = rows_applied(s, rows.drop_last())->Ok_0;
            assert(t == before.with_row(r));
            lemma_plain_run_valid(r.text, s.styles, s.hyperlinks);
            assert forall|i: int| 0 <= i < t.row_runs.len() implies first_failure(
                #[trigger] t.row_runs[i],
                style_id_check(style_count(t.styles.len())),
            ) == Ok::<(), SurfaceError>(()) && first_failure(
                t.row_runs[i],
                hyperlink_id_check(t.hyperlinks),
            ) == Ok::<(), SurfaceError>(()) by {
                if i != r.row as int {
                    assert(t.row_runs[i] == before.row_runs[i]);
                }
            }
        }
    }
}

/// Every surface a snapshot yields is valid.
pub proof fn lemma_snapshot_valid(u: SurfaceUpdateView)
    ensures
        snapshot_surface(u) matches Ok(s) ==> s.valid(),
{
    if let (Some(cols), Some(rows)) = (u.cols, u.rows) {
        let s = fresh_surface(u, cols, rows);
        if snapshot_surface(u) is Ok {
            assert(s.styles.len() >= 1);
            assert forall|i: int| 0 <= i < s.row_runs.len() implies first_failure(
                #[trigger] s.row_runs[i],
                style_id_check(style_count(s.styles.len())),
            ) == Ok::<(), SurfaceError>(()) && first_failure(
                s.row_runs[i],
                hyperlink_id_check(s.hyperlinks),
            ) == Ok::<(), SurfaceError>(()) by {
                assert(s.row_runs[i] =~= Seq::<CellRunView>::empty());
            }
            assert(s.valid());
            lemma_rows_applied_valid(s, u.row_updates);
        }
    }
}

/// A patch applied to a valid surface leaves it valid.
pub proof fn lemma_patch_keeps_valid(s: PaneSurfaceView, u: SurfaceUpdateView)
    requires
        s.valid(),
    ensures
        patched(s, u) matches Ok(t) ==> t.valid(),
{
    if patched(s, u) is Ok {
        if u.patch_kind == Some(PatchKind::ReplaceRows) {
            lemma_rows_applied_valid(s, u.row_updates);
        }
    }
}

/// Every accepted update, snapshot or patch, leaves a valid surface.
pub proof fn lemma_update_keeps_valid(s: PaneSurfaceView, u: SurfaceUpdateView)
    requires
        s.valid(),
    ensures
        updated(s, u) matches Ok(t) ==> t.valid(),
{
    lemma_snapshot_valid(u);
    lemma_patch_keeps_valid(s, u);
}

/// Row updates that pass the index check all target rows of the surface,
/// each a different one.
proof fn lemma_rows_index_ok(rows: Seq<RowUpdateView>, count: nat)
    requires
        rows_index_failure(rows, count) is Ok,
    ensures
        forall|i: int| 0 <= i < rows.len() ==> (#[trigger] rows[i]).row < count,
        forall|i: int, j: int| 0 <= i < j < rows.len() ==> (#[trigger] rows[i]).row != (
        #[trigger] rows[j]).row,
    decreases rows.len(),
{
    if rows.len() > 0 {
        let front = rows.drop_last();
        lemma_rows_index_ok(front, count);
        assert forall|i: int| 0 <= i < front.len() implies #[trigger] front[i] == rows[i] by {}
        assert forall|i: int| 0 <= i < rows.len() implies (#[trigger] rows[i]).row < count by {
            if i < rows.len() - 1 {
                assert(front[i] == rows[i]);
            }
        }
        assert forall|i: int, j: int| 0 <= i < j < rows.len() implies (#[trigger] rows[i]).row != (
        #[trigger] rows[j]).row by {
            if j == rows.len() - 1 {
                if rows[i].row == rows[j].row {
                    assert(front[i].row == rows.last().row);
                    assert(row_seen(front, rows.last().row as int));
                }
            } else {
                assert(front[i] == rows[i] && front[j] == rows[j]);
            }
        }
    }
}

/// A patch is refused when it names another pane, does not start from the
/// cached version, is of no kind that changes a surface, carries
/// hyperlinks, carries rows in a kind without rows, or, replacing rows,
/// changes the colors, names a row outside the surface or a row twice.
pub proof fn lemma_patch_refusals(s: PaneSurfaceView, u: SurfaceUpdateView)
    ensures
        u.pane_id != s.pane_id ==> patched(s, u) is Err,
        u.base_version != Some(s.version) ==> patched(s, u) is Err,
        !(u.patch_kind == Some(PatchKind::CursorOnly) || u.patch_kind == Some(PatchKind::ModeOnly)
            || u.patch_kind == Some(PatchKind::ColorOnly) || u.patch_kind == Some(
            PatchKind::ReplaceRows,
        )) ==> patched(s, u) is Err,
        u.hyperlinks.len() > 0 ==> patched(s, u) is Err,
        (u.patch_kind == Some(PatchKind::CursorOnly) || u.patch_kind == Some(PatchKind::ModeOnly)
            || u.patch_kind == Some(PatchKind::ColorOnly)) && u.row_updates.len() > 0 ==> patched(
            s,
            u,
        ) is Err,
        u.patch_kind == Some(PatchKind::ReplaceRows) && colors_change(u.colors, s.colors) ==> patched(
            s,
            u,
        ) is Err,
        u.patch_kind == Some(PatchKind::ReplaceRows) && (exists|i: int|
            0 <= i < u.row_updates.len() && (#[trigger] u.row_updates[i]).row >= s.row_text.len())
            ==> patched(s, u) is Err,
        u.patch_kind == Some(PatchKind::ReplaceRows) && (exists|i: int, j: int|
            0 <= i < j < u.row_updates.len() && (#[trigger] u.row_updates[i]).row == (
            #[trigger] u.row_updates[j]).row) ==> patched(s, u) is Err,
{
    if u.patch_kind == Some(PatchKind::ReplaceRows) && rows_index_failure(
        u.row_updates,
        s.row_text.len(),
    ) is Ok {
        lemma_rows_index_ok(u.row_updates, s.row_text.len());
    }
}

/// Row updates applied in order change only the per-row tables: each
/// named row takes the text of its last update, every other row keeps its
/// text, and nothing else about the surface changes.
#[verifier::spinoff_prover]
#[verifier::rlimit(40)]
proof fn lemma_rows_applied_effect(s: PaneSurfaceView, rows: Seq<RowUpdateView>)
    ensures
        rows_applied(s, rows) matches Ok(t) ==> {
            &&& t.pane_id == s.pane_id
            &&& t.version == s.version
            &&& t.cols == s.cols
            &&& t.rows == s.rows
            &&& t.surface == s.surface
            &&& t.cursor == s.cursor
            &&& t.modes == s.modes
            &&& t.title == s.title
            &&& t.working_directory == s.working_directory
            &&& t.colors == s.colors
            &&& t.styles == s.styles
            &&& t.hyperlinks == s.hyperlinks
            &&& t.row_text.len() == s.row_text.len()
            &&& forall|i: int| 0 <= i < rows.len() ==> (#[trigger] rows[i]).row < s.row_text.len()
            &&& forall|r: int|
                0 <= r < s.row_text.len() && !row_seen(rows, r) ==> #[trigger] t.row_text[r]
                    == s.row_text[r]
            &&& forall|i: int|
                0 <= i < rows.len() && (forall|j: int|
                    i < j < rows.len() ==> (#[trigger] rows[j]).row != rows[i].row) ==> t.row_text[(
                #[trigger] rows[i]).row as int] == rows[i].text
        },
    decreases rows.len(),
{
    if rows.len() > 0 {
        let front = rows.drop_last();
        lemma_rows_applied_effect(s, front);
        if let Ok(t) = rows_applied(s, rows) {
            let tf = rows_applied(s, front)->Ok_0;
            let last = rows.last();
            assert(t == tf.with_row(last));
            assert(last.row < tf.row_text.len());
            assert(t.row_text == tf.row_text.update(last.row as int, last.text));
            assert forall|i: int| 0 <= i < rows.len() implies (#[trigger] rows[i]).row
                < s.row_text.len() by {
                if i < rows.len() - 1 {
                    assert(front[i] == rows[i]);
                }
            }
            assert forall|r: int|
                0 <= r < s.row_text.len() && !row_seen(rows, r) implies #[trigger] t.row_text[r]
                == s.row_text[r] by {
                if row_seen(front, r) {
                    let j = choose|j: int| 0 <= j < front.len() && (#[trigger] front[j]).row == r;
                    assert(rows[j] == front[j]);
                }
                assert(rows[rows.len() - 1] == last);
            }
            assert forall|i: int|
                0 <= i < rows.len() && (forall|j: int|
                    i < j < rows.len() ==> (#[trigger] rows[j]).row != rows[i].row) implies t.row_text[(
            #[trigger] rows[i]).row as int] == rows[i].text by {
                if i < rows.len() - 1 {
                    assert(front[i] == rows[i]);
                    assert(rows[rows.len() - 1].row != rows[i].row);
                    assert forall|j: int| i < j < front.len() implies (#[trigger] front[j]).row
                        != front[i].row by {
                        assert(front[j] == rows[j]);
                    }
                    assert(tf.row_text[(front[i]).row as int] == front[i].text);
                    assert(t.row_text[rows[i].row as int] == tf.row_text[rows[i].row as int]);
                } else {
                    assert(rows[i] == last);
                }
            }
        }
    }
}

/// An accepted patch takes the cursor, title, working directory and
/// version it carries, and its modes unless it only moves the cursor; it
/// keeps the pane, size, kind, styles and hyperlinks. Only a colors patch
/// changes the colors and only a rows patch changes rows: there each row
/// the patch names takes the text sent for it, and every other row keeps
/// its text.
pub proof fn lemma_accepted_patch(s: PaneSurfaceView, u: SurfaceUpdateView)
    ensures
        patched(s, u) matches Ok(t) ==> {
            &&& t.cursor == u.cursor
            &&& t.title == u.title
            &&& t.working_directory == u.working_directory
            &&& t.version == u.version
            &&& u.patch_kind != Some(PatchKind::CursorOnly) ==> t.modes == u.modes
            &&& u.patch_kind == Some(PatchKind::CursorOnly) ==> t.modes == s.modes
            &&& t.pane_id == s.pane_id
            &&& t.cols == s.cols
            &&& t.rows == s.rows
            &&& t.surface == s.surface
            &&& t.styles == s.styles
            &&& t.hyperlinks == s.hyperlinks
            &&& u.patch_kind != Some(PatchKind::ColorOnly) ==> t.colors == s.colors
            &&& u.patch_kind != Some(PatchKind::ReplaceRows) ==> t.row_text == s.row_text
            &&& t.row_text.len() == s.row_text.len()
            &&& forall|r: int|
                0 <= r < s.row_text.len() && !row_seen(u.row_updates, r) ==> #[trigger] t.row_text[r]
                    == s.row_text[r]
            &&& forall|i: int|
                0 <= i < u.row_updates.len() ==> t.row_text[(
                #[trigger] u.row_updates[i]).row as int] == u.row_updates[i].text
        },
{
    if let Ok(t) = patched(s, u) {
        if u.patch_kind == Some(PatchKind::ReplaceRows) {
            lemma_rows_applied_effect(s, u.row_updates);
            lemma_rows_index_ok(u.row_updates, s.row_text.len());
            assert forall|i: int| 0 <= i < u.row_updates.len() implies t.row_text[(
            #[trigger] u.row_updates[i]).row as int] == u.row_updates[i].text by {
                assert forall|j: int| i < j < u.row_updates.len() implies (
                #[trigger] u.row_updates[j]).row != u.row_updates[i].row by {}
            }
        } else {
            assert(u.row_updates.len() == 0 || !(u.patch_kind is Some));
        }
    }
}

/// An accepted snapshot describes the pane it names at the version, size,
/// kind, cursor, modes, title, working directory and hyperlinks it sent,
/// with its style table or, if it sent none, the single default style.
/// Each row it sends has the text sent for it; every other row is empty.
pub proof fn lemma_accepted_snapshot(u: SurfaceUpdateView)
    ensures
        snapshot_surface(u) matches Ok(s) ==> {
            &&& s.pane_id == u.pane_id
            &&& s.version == u.version
            &&& u.cols == Some(s.cols)
            &&& u.rows == Some(s.rows)
            &&& u.surface matches Some(k) ==> s.surface == k
            &&& s.cursor == u.cursor
            &&& s.modes == u.modes
            &&& s.title == u.title
            &&& s.working_directory == u.working_directory
            &&& s.hyperlinks == u.hyperlinks
            &&& u.colors matches Some(c) ==> s.colors == c
            &&& u.styles.len() > 0 ==> s.styles == u.styles
            &&& u.styles.len() == 0 ==> s.styles == seq![
                StyleSummary { fg_rgba: 0, bg_rgba: 0, underline_rgba: 0, flags: 0 },
            ]
            &&& s.row_text.len() == s.rows
            &&& forall|r: int|
                0 <= r < s.rows && !row_seen(u.row_updates, r) ==> #[trigger] s.row_text[r]
                    == Seq::<char>::empty()
            &&& forall|i: int|
                0 <= i < u.row_updates.len() ==> s.row_text[(
                #[trigger] u.row_updates[i]).row as int] == u.row_updates[i].text
        },
{
    if let Ok(s) = snapshot_surface(u) {
        let rows = u.rows->Some_0;
        let f = fresh_surface(u, u.cols->Some_0, rows);
        lemma_rows_applied_effect(f, u.row_updates);
        lemma_rows_index_ok(u.row_updates, rows as nat);
        assert forall|i: int| 0 <= i < u.row_updates.len() implies s.row_text[(
        #[trigger] u.row_updates[i]).row as int] == u.row_updates[i].text by {
            assert forall|j: int| i < j < u.row_updates.len() implies (
            #[trigger] u.row_updates[j]).row != u.row_updates[i].row by {}
        }
    }
}

/// An accepted colors patch takes the default colors and cursor color it
/// carries and leaves no palette diff pending. A palette diff from entry
/// `start` keeps the cached entries before `start` and puts the diff's
/// entries from there on; without a diff, a palette it carries replaces
/// the cached one, and an empty one keeps it.
pub proof fn lemma_color_patch(s: PaneSurfaceView, u: SurfaceUpdateView)
    requires
        u.patch_kind == Some(PatchKind::ColorOnly),
    ensures
        patched(s, u) matches Ok(t) ==> {
            &&& u.colors is Some
            &&& t.colors.default_fg_rgba == u.colors->Some_0.default_fg_rgba
            &&& t.colors.default_bg_rgba == u.colors->Some_0.default_bg_rgba
            &&& t.colors.cursor_rgba == u.colors->Some_0.cursor_rgba
            &&& t.colors.cursor_rgba_set == u.colors->Some_0.cursor_rgba_set
            &&& t.colors.palette_diff_start is None
            &&& t.colors.palette_diff_rgba.len() == 0
            &&& t.row_text == s.row_text
            &&& (u.colors->Some_0.palette_diff_start matches Some(start) ==> {
                &&& start <= s.colors.palette_rgba.len()
                &&& t.colors.palette_rgba.len() == start + u.colors->Some_0.palette_diff_rgba.len()
                &&& forall|i: int|
                    0 <= i < start ==> #[trigger] t.colors.palette_rgba[i] == s.colors.palette_rgba[i]
                &&& forall|j: int|
                    0 <= j < u.colors->Some_0.palette_diff_rgba.len() ==> t.colors.palette_rgba[start
                        + j] == #[trigger] u.colors->Some_0.palette_diff_rgba[j]
            })
            &&& (u.colors->Some_0.palette_diff_start is None && u.colors->Some_0.palette_rgba.len() > 0
                ==> t.colors.palette_rgba == u.colors->Some_0.palette_rgba)
            &&& (u.colors->Some_0.palette_diff_start is None && u.colors->Some_0.palette_rgba.len()
                == 0 ==> t.colors.palette_rgba == s.colors.palette_rgba)
        },
{
    if let Ok(t) = patched(s, u) {
        let c = u.colors->Some_0;
        if let Some(start) = c.palette_diff_start {
            let p = s.colors.palette_rgba.take(start as int) + c.palette_diff_rgba;
            assert(t.colors.palette_rgba == p);
            assert forall|j: int| 0 <= j < c.palette_diff_rgba.len() implies t.colors.palette_rgba[start
                + j] == #[trigger] c.palette_diff_rgba[j] by {
                assert(p[start + j] == c.palette_diff_rgba[j]);
            }
        }
    }
}

} // verus!
