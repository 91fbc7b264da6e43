//! A surface update assembled from the parts of a snapshot or patch frame,
//! checked in the order in which a frame's parts are read.
use vstd::prelude::*;

use crate::kinds::{PatchKind, SurfaceKind};
use crate::render::{render_decoded_rows, rows_text};
use crate::surface::{
    colors_view, cursor_check, default_style_summaries, default_styles, first_failure,
    link_table_failure, modes_check, no_row_payload_check, palette_scope_check, patch_kind_check,
    row_enum_check, row_hyperlink_check, row_style_check, surface_kind_check,
    validate_cursor_summary, validate_hyperlink_table, validate_no_row_patch_payload,
    validate_palette_diff_scope, validate_patch_kind, validate_row_update_hyperlink_ids,
    validate_row_update_style_ids, validate_row_update_terminal_enums, validate_surface_kind,
    validate_terminal_mode_summary, ColorsView, CursorSummary, HyperlinkSummary, HyperlinkView,
    RowUpdateView, StyleSummary, SurfaceError, SurfaceRowUpdate, SurfaceUpdate, SurfaceUpdateKind,
    SurfaceUpdateView, TerminalColorSummary, TerminalModeSummary,
};

verus! {

/// Why the parts of a surface frame make no surface update.
#[derive(Clone, Debug, PartialEq, Eq)]
pub enum FrameError {
    Surface(SurfaceError),
    MissingPaneId(SurfaceUpdateKind),
    EmptyPaneId(SurfaceUpdateKind),
}

/// A check on the parts, then what follows it.
pub open spec fn checked_then<T>(check: Result<(), SurfaceError>, next: Result<T, FrameError>) -> Result<
    T,
    FrameError,
> {
    match check {
        Ok(()) => next,
        Err(e) => Err(FrameError::Surface(e)),
    }
}

/// The pane a frame names: it must be present and not empty.
pub open spec fn frame_pane_id(kind: SurfaceUpdateKind, pane_id: Option<Seq<char>>) -> Result<
    Seq<char>,
    FrameError,
> {
    match pane_id {
        None => Err(FrameError::MissingPaneId(kind)),
        Some(p) => if p.len() == 0 {
            Err(FrameError::EmptyPaneId(kind))
        } else {
            Ok(p)
        },
    }
}

/// The surface update a snapshot frame's parts make: the surface kind, the
/// hyperlink table, the rows' enums, style ids and hyperlink ids, the
/// cursor, the modes and the palette are checked in that order, and the
/// pane id last. A frame without styles gets the default style table,
/// without modes the initial modes.
pub open spec fn snapshot_from_parts(
    pane_id: Option<Seq<char>>,
    version: u64,
    cols: u32,
    rows: u32,
    surface: SurfaceKind,
    row_updates: Seq<RowUpdateView>,
    styles: Option<Seq<StyleSummary>>,
    hyperlinks: Option<Seq<HyperlinkView>>,
    cursor: Option<CursorSummary>,
    modes: Option<TerminalModeSummary>,
    title: Seq<char>,
    working_directory: Seq<char>,
    colors: Option<ColorsView>,
) -> Result<SurfaceUpdateView, FrameError> {
    let styles = match styles {
        Some(s) => s,
        None => default_styles(),
    };
    let links = match hyperlinks {
        Some(h) => h,
        None => Seq::empty(),
    };
    let link_check = match hyperlinks {
        Some(h) => link_table_failure(h),
        None => Ok(()),
    };
    let modes = match modes {
        Some(m) => m,
        None => TerminalModeSummary::initial(),
    };
    checked_then(
        surface_kind_check(surface),
        checked_then(
            link_check,
            checked_then(
                first_failure(row_updates, row_enum_check()),
                checked_then(
                    first_failure(row_updates, row_style_check(styles)),
                    checked_then(
                        first_failure(row_updates, row_hyperlink_check(links)),
                        checked_then(
                            cursor_check(cursor),
                            checked_then(
                                modes_check(modes),
                                checked_then(
                                    palette_scope_check(SurfaceUpdateKind::Snapshot, None, colors),
                                    match frame_pane_id(SurfaceUpdateKind::Snapshot, pane_id) {
                                        Err(e) => Err(e),
                                        Ok(p) => Ok(
                                            SurfaceUpdateView {
                                                kind: SurfaceUpdateKind::Snapshot,
                                                pane_id: p,
                                                version,
                                                base_version: None,
                                                patch_kind: None,
                                                cols: Some(cols),
                                                rows: Some(rows),
                                                surface: Some(surface),
                                                cursor,
                                                modes,
                                                title,
                                                working_directory,
                                                colors,
                                                row_updates,
                                                styles,
                                                hyperlinks: links,
                                                text: rows_text(row_updates),
                                            },
                                        ),
                                    },
                                ),
                            ),
                        ),
                    ),
                ),
            ),
        ),
    )
}

/// The surface update a patch frame's parts make: the patch kind, the
/// rows' enums, the no-row payload, the cursor, the modes and the palette
/// are checked in that order, and the pane id last.
pub open spec fn patch_from_parts(
    pane_id: Option<Seq<char>>,
    version: u64,
    base_version: u64,
    patch_kind: PatchKind,
    row_updates: Seq<RowUpdateView>,
    cursor: Option<CursorSummary>,
    modes: Option<TerminalModeSummary>,
    title: Seq<char>,
    working_directory: Seq<char>,
    colors: Option<ColorsView>,
) -> Result<SurfaceUpdateView, FrameError> {
    let modes = match modes {
        Some(m) => m,
        None => TerminalModeSummary::initial(),
    };
    checked_then(
        patch_kind_check(patch_kind),
        checked_then(
            first_failure(row_updates, row_enum_check()),
            checked_then(
                no_row_payload_check(patch_kind, row_updates.len()),
                checked_then(
                    cursor_check(cursor),
                    checked_then(
                        modes_check(modes),
                        checked_then(
                            palette_scope_check(SurfaceUpdateKind::Patch, Some(patch_kind), colors),
                            match frame_pane_id(SurfaceUpdateKind::Patch, pane_id) {
                                Err(e) => Err(e),
                                Ok(p) => Ok(
                                    SurfaceUpdateView {
                                        kind: SurfaceUpdateKind::Patch,
                                        pane_id: p,
                                        version,
                                        base_version: Some(base_version),
                                        patch_kind: Some(patch_kind),
                                        cols: None,
                                        rows: None,
                                        surface: None,
                                        cursor,
                                        modes,
                                        title,
                                        working_directory,
                                        colors,
                                        row_updates,
                                        styles: Seq::empty(),
                                        hyperlinks: Seq::empty(),
                                        text: rows_text(row_updates),
                                    },
                                ),
                            },
                        ),
                    ),
                ),
            ),
        ),
    )
}

/// An accepted snapshot frame makes a snapshot update that carries what
/// the frame sent as it was sent: its pane, version, size, surface kind,
/// cursor, title, working directory, colors and rows, and its modes when it
/// sent them.
pub proof fn lemma_snapshot_parts_carried(
    pane_id: Option<Seq<char>>,
    version: u64,
    cols: u32,
    rows: u32,
    surface: SurfaceKind,
    row_updates: Seq<RowUpdateView>,
    styles: Option<Seq<StyleSummary>>,
    hyperlinks: Option<Seq<HyperlinkView>>,
    cursor: Option<CursorSummary>,
    modes: Option<TerminalModeSummary>,
    title: Seq<char>,
    working_directory: Seq<char>,
    colors: Option<ColorsView>,
)
    ensures
        snapshot_from_parts(
            pane_id,
            version,
            cols,
            rows,
            surface,
            row_updates,
            styles,
            hyperlinks,
            cursor,
            modes,
            title,
            working_directory,
            colors,
        ) matches Ok(u) ==> {
            &&& u.kind == SurfaceUpdateKind::Snapshot
            &&& pane_id == Some(u.pane_id)
            &&& u.version == version
            &&& u.base_version is None
            &&& u.cols == Some(cols)
            &&& u.rows == Some(rows)
            &&& u.surface == Some(surface)
            &&& u.cursor == cursor
            &&& u.title == title
            &&& u.working_directory == working_directory
            &&& u.colors == colors
            &&& u.row_updates == row_updates
            &&& (modes matches Some(m) ==> u.modes == m)
        },
{
}

/// An accepted patch frame makes a patch update that carries what the
/// frame sent as it was sent: its pane, version, base version, patch kind,
/// cursor, title, working directory, colors and rows, and its modes when it
/// sent them.
pub proof fn lemma_patch_parts_carried(
    pane_id: Option<Seq<char>>,
    version: u64,
    base_version: u64,
    patch_kind: PatchKind,
    row_updates: Seq<RowUpdateView>,
    cursor: Option<CursorSummary>,
    modes: Option<TerminalModeSummary>,
    title: Seq<char>,
    working_directory: Seq<char>,
    colors: Option<ColorsView>,
)
    ensures
        patch_from_parts(
            pane_id,
            version,
            base_version,
            patch_kind,
            row_updates,
            cursor,
            modes,
            title,
            working_directory,
            colors,
        ) matches Ok(u) ==> {
            &&& u.kind == SurfaceUpdateKind::Patch
            &&& pane_id == Some(u.pane_id)
            &&& u.version == version
            &&& u.base_version == Some(base_version)
            &&& u.patch_kind == Some(patch_kind)
            &&& u.cursor == cursor
            &&& u.title == title
            &&& u.working_directory == working_directory
            &&& u.colors == colors
            &&& u.row_updates == row_updates
            &&& (modes matches Some(m) ==> u.modes == m)
        },
{
}

pub open spec fn optional_text(t: Option<&str>) -> Option<Seq<char>> {
    match t {
        Some(s) => Some(s@),
        None => None,
    }
}

fn owned_pane_id(kind: SurfaceUpdateKind, pane_id: Option<&str>) -> (p: Result<String, FrameError>)
    ensures
        match p {
            Ok(s) => frame_pane_id(kind, optional_text(pane_id)) == Ok::<Seq<char>, FrameError>(
                s@,
            ),
            Err(e) => frame_pane_id(kind, optional_text(pane_id)) == Err::<Seq<char>, FrameError>(
                e,
            ),
        },
{
    match pane_id {
        None => Err(FrameError::MissingPaneId(kind)),
        Some(p) => {
            if p.is_empty() {
                Err(FrameError::EmptyPaneId(kind))
            } else {
                Ok(String::from_str(p))
            }
        },
    }
}

/// A snapshot update from the parts of a snapshot frame.
pub fn snapshot_update_from_parts(
    pane_id: Option<&str>,
    version: u64,
    cols: u32,
    rows: u32,
    surface: SurfaceKind,
    row_updates: Vec<SurfaceRowUpdate>,
    styles: Option<Vec<StyleSummary>>,
    hyperlinks: Option<Vec<HyperlinkSummary>>,
    cursor: Option<CursorSummary>,
    modes: Option<TerminalModeSummary>,
    title: String,
    working_directory: String,
    colors: Option<TerminalColorSummary>,
) -> (update: Result<SurfaceUpdate, FrameError>)
    ensures
        ({
            let expected = snapshot_from_parts(
                optional_text(pane_id),
                version,
                cols,
                rows,
                surface,
                row_updates.deep_view(),
                match styles {
                    Some(s) => Some(s@),
                    None => None,
                },
                match hyperlinks {
                    Some(h) => Some(h.deep_view()),
                    None => None,
                },
                cursor,
                modes,
                title@,
                working_directory@,
                colors_view(colors),
            );
            match update {
                Ok(u) => expected == Ok::<SurfaceUpdateView, FrameError>(u@),
                Err(e) => expected == Err::<SurfaceUpdateView, FrameError>(e),
            }
        }),
        update matches Ok(u) ==> u.title@ == title@ && u.working_directory@ == working_directory@,
        update matches Ok(u) ==> u.version == version && u.cursor == cursor && u.cols == Some(cols)
            && u.rows == Some(rows) && u.surface == Some(surface),
        update matches Ok(u) ==> u.kind == SurfaceUpdateKind::Snapshot && optional_text(pane_id)
            == Some(u.pane_id@),
        update matches Ok(u) ==> u.row_updates.deep_view() == row_updates.deep_view() && colors_view(
            u.colors,
        ) == colors_view(colors) && (modes matches Some(m) ==> u.modes == m),
{
    if let Err(e) = validate_surface_kind(surface) {
        return Err(FrameError::Surface(e));
    }
    let styles = match styles {
        Some(s) => s,
        None => default_style_summaries(),
    };
    let hyperlinks = match hyperlinks {
        Some(h) => {
            if let Err(e) = validate_hyperlink_table(&h) {
                return Err(FrameError::Surface(e));
            }
            h
        },
        None => {
            let empty: Vec<HyperlinkSummary> = Vec::new();
            assert(empty.deep_view() =~= Seq::<HyperlinkView>::empty());
            empty
        },
    };
    if let Err(e) = validate_row_update_terminal_enums(&row_updates) {
        return Err(FrameError::Surface(e));
    }
    if let Err(e) = validate_row_update_style_ids(&row_updates, &styles) {
        return Err(FrameError::Surface(e));
    }
    if let Err(e) = validate_row_update_hyperlink_ids(&row_updates, &hyperlinks) {
        return Err(FrameError::Surface(e));
    }
    if let Err(e) = validate_cursor_summary(cursor) {
        return Err(FrameError::Surface(e));
    }
    let modes = match modes {
        Some(m) => m,
        None => TerminalModeSummary::default(),
    };
    if let Err(e) = validate_terminal_mode_summary(modes) {
        return Err(FrameError::Surface(e));
    }
    let text = render_decoded_rows(&row_updates);
    if let Err(e) = validate_palette_diff_scope(SurfaceUpdateKind::Snapshot, None, &colors) {
        return Err(FrameError::Surface(e));
    }
    let pane_id = match owned_pane_id(SurfaceUpdateKind::Snapshot, pane_id) {
        Ok(p) => p,
        Err(e) => {
            return Err(e);
        },
    };
    Ok(
        SurfaceUpdate {
            kind: SurfaceUpdateKind::Snapshot,
            pane_id,
            version,
            base_version: None,
            patch_kind: None,
            cols: Some(cols),
            rows: Some(rows),
            surface: Some(surface),
            cursor,
            modes,
            title,
            working_directory,
            colors,
            row_updates,
            styles,
            hyperlinks,
            text,
        },
    )
}

/// A patch update from the parts of a patch frame.
pub fn patch_update_from_parts(
    pane_id: Option<&str>,
    version: u64,
    base_version: u64,
    patch_kind: PatchKind,
    row_updates: Vec<SurfaceRowUpdate>,
    cursor: Option<CursorSummary>,
    modes: Option<TerminalModeSummary>,
    title: String,
    working_directory: String,
    colors: Option<TerminalColorSummary>,
) -> (update: Result<SurfaceUpdate, FrameError>)
    ensures
        ({
            let expected = patch_from_parts(
                optional_text(pane_id),
                version,
                base_version,
                patch_kind,
                row_updates.deep_view(),
                cursor,
                modes,
                title@,
                working_directory@,
                colors_view(colors),
            );
            match update {
                Ok(u) => expected == Ok::<SurfaceUpdateView, FrameError>(u@),
                Err(e) => expected == Err::<SurfaceUpdateView, FrameError>(e),
            }
        }),
        update matches Ok(u) ==> u.title@ == title@ && u.working_directory@ == working_directory@,
        update matches Ok(u) ==> u.version == version && u.cursor == cursor && u.base_version
            == Some(base_version) && u.patch_kind == Some(patch_kind),
        update matches Ok(u) ==> u.kind == SurfaceUpdateKind::Patch && optional_text(pane_id)
            == Some(u.pane_id@),
        update matches Ok(u) ==> u.row_updates.deep_view() == row_updates.deep_view() && colors_view(
            u.colors,
        ) == colors_view(colors) && (modes matches Some(m) ==> u.modes == m),
{
    if let Err(e) = validate_patch_kind(patch_kind) {
        return Err(FrameError::Surface(e));
    }
    if let Err(e) = validate_row_update_terminal_enums(&row_updates) {
        return Err(FrameError::Surface(e));
    }
    if let Err(e) = validate_no_row_patch_payload(patch_kind, &row_updates) {
        return Err(FrameError::Surface(e));
    }
    if let Err(e) = validate_cursor_summary(cursor) {
        return Err(FrameError::Surface(e));
    }
    let modes = match modes {
        Some(m) => m,
        None => TerminalModeSummary::default(),
    };
    if let Err(e) = validate_terminal_mode_summary(modes) {
        return Err(FrameError::Surface(e));
    }
    let text = render_decoded_rows(&row_updates);
    if let Err(e) = validate_palette_diff_scope(SurfaceUpdateKind::Patch, Some(patch_kind), &colors) {
        return Err(FrameError::Surface(e));
    }
    let pane_id = match owned_pane_id(SurfaceUpdateKind::Patch, pane_id) {
        Ok(p) => p,
        Err(e) => {
            return Err(e);
        },
    };
    let styles: Vec<StyleSummary> = Vec::new();
    let hyperlinks: Vec<HyperlinkSummary> = Vec::new();
    assert(hyperlinks.deep_view() =~= Seq::<HyperlinkView>::empty());
    Ok(
        SurfaceUpdate {
            kind: SurfaceUpdateKind::Patch,
            pane_id,
            version,
            base_version: Some(base_version),
            patch_kind: Some(patch_kind),
            cols: None,
            rows: None,
            surface: None,
            cursor,
            modes,
            title,
            working_directory,
            colors,
            row_updates,
            styles,
            hyperlinks,
            text,
        },
    )
}

/// A surface update from the parts of a snapshot or patch frame: a
/// snapshot reads its size, surface kind and tables, a patch its base
/// version and patch kind.
pub fn surface_update_from_parts(
    kind: SurfaceUpdateKind,
    pane_id: Option<&str>,
    version: u64,
    base_version: u64,
    patch_kind: PatchKind,
    cols: u32,
    rows: u32,
    surface: SurfaceKind,
    row_updates: Vec<SurfaceRowUpdate>,
    styles: Option<Vec<StyleSummary>>,
    hyperlinks: Option<Vec<HyperlinkSummary>>,
    cursor: Option<CursorSummary>,
    modes: Option<TerminalModeSummary>,
    title: String,
    working_directory: String,
    colors: Option<TerminalColorSummary>,
) -> (update: Result<SurfaceUpdate, FrameError>)
    ensures
        ({
            let expected = match kind {
                SurfaceUpdateKind::Snapshot => snapshot_from_parts(
                    optional_text(pane_id),
                    version,
                    cols,
                    rows,
                    surface,
                    row_updates.deep_view(),
                    match styles {
                        Some(s) => Some(s@),
                        None => None,
                    },
                    match hyperlinks {
                        Some(h) => Some(h.deep_view()),
                        None => None,
                    },
                    cursor,
                    modes,
                    title@,
                    working_directory@,
                    colors_view(colors),
                ),
                SurfaceUpdateKind::Patch => patch_from_parts(
                    optional_text(pane_id),
                    version,
                    base_version,
                    patch_kind,
                    row_updates.deep_view(),
                    cursor,
                    modes,
                    title@,
                    working_directory@,
                    colors_view(colors),
                ),
            };
            match update {
                Ok(u) => expected == Ok::<SurfaceUpdateView, FrameError>(u@),
                Err(e) => expected == Err::<SurfaceUpdateView, FrameError>(e),
            }
        }),
        update matches Ok(u) ==> u.title@ == title@ && u.working_directory@ == working_directory@,
        update matches Ok(u) ==> u.kind == kind && u.version == version && u.cursor == cursor
            && optional_text(pane_id) == Some(u.pane_id@),
{
    match kind {
        SurfaceUpdateKind::Snapshot => snapshot_update_from_parts(
            pane_id,
            version,
            cols,
            rows,
            surface,
            row_updates,
            styles,
            hyperlinks,
            cursor,
            modes,
            title,
            working_directory,
            colors,
        ),
        SurfaceUpdateKind::Patch => patch_update_from_parts(
            pane_id,
            version,
            base_version,
            patch_kind,
            row_updates,
            cursor,
            modes,
            title,
            working_directory,
            colors,
        ),
    }
}

impl FrameError {
    /// The error's text.
    pub fn to_string(&self) -> (text: String)
        ensures
            text@ == frame_error_text(*self),
    {
        match *self {
            FrameError::Surface(ref e) => e.to_string(),
            FrameError::MissingPaneId(kind) => {
                let mut text = String::new();
                crate::text::push_str(&mut text, "missing ");
                push_pane_field(&mut text, kind);
                text
            },
            FrameError::EmptyPaneId(kind) => {
                let mut text = String::new();
                crate::text::push_str(&mut text, "empty ");
                push_pane_field(&mut text, kind);
                text
            },
        }
    }
}

pub open spec fn pane_field(kind: SurfaceUpdateKind) -> Seq<char> {
    match kind {
        SurfaceUpdateKind::Snapshot => "surface snapshot pane_id"@,
        SurfaceUpdateKind::Patch => "surface patch pane_id"@,
    }
}

/// The text of a refused surface frame.
pub open spec fn frame_error_text(e: FrameError) -> Seq<char> {
    match e {
        FrameError::Surface(s) => crate::error_text::surface_error_text(s),
        FrameError::MissingPaneId(kind) => "missing "@ + pane_field(kind),
        FrameError::EmptyPaneId(kind) => "empty "@ + pane_field(kind),
    }
}

fn push_pane_field(text: &mut String, kind: SurfaceUpdateKind)
    ensures
        final(text)@ == old(text)@ + pane_field(kind),
{
    match kind {
        SurfaceUpdateKind::Snapshot => crate::text::push_str(text, "surface snapshot pane_id"),
        SurfaceUpdateKind::Patch => crate::text::push_str(text, "surface patch pane_id"),
    }
}

} // verus!
