//! The human-readable text of the library's errors.
use vstd::prelude::*;

use crate::client_state::AttachError;
use crate::kinds::{AttachSurfaceState, PatchKind};
use crate::state_file::StateError;
use crate::surface::{SurfaceError, SurfaceUpdateKind};
use crate::text::{decimal, push_decimal, push_str};

verus! {

/// How an enum code that no variant names is shown.
pub open spec fn unknown_name(code: u8) -> Seq<char> {
    "<UNKNOWN "@ + decimal(code as nat) + ">"@
}

pub open spec fn patch_kind_name(kind: PatchKind) -> Seq<char> {
    match kind {
        PatchKind::ReplaceRows => "ReplaceRows"@,
        PatchKind::CursorOnly => "CursorOnly"@,
        PatchKind::ModeOnly => "ModeOnly"@,
        PatchKind::ColorOnly => "ColorOnly"@,
        PatchKind::FullRefreshRequired => "FullRefreshRequired"@,
        PatchKind::Other(code) => unknown_name(code),
    }
}

pub open spec fn attach_state_name(state: AttachSurfaceState) -> Seq<char> {
    match state {
        AttachSurfaceState::Current => "Current"@,
        AttachSurfaceState::Snapshot => "Snapshot"@,
        AttachSurfaceState::Patch => "Patch"@,
        AttachSurfaceState::Other(code) => unknown_name(code),
    }
}

pub open spec fn update_kind_name(kind: SurfaceUpdateKind) -> Seq<char> {
    match kind {
        SurfaceUpdateKind::Snapshot => "Snapshot"@,
        SurfaceUpdateKind::Patch => "Patch"@,
    }
}

pub open spec fn optional_number(n: Option<u64>) -> Seq<char> {
    match n {
        Some(v) => "Some("@ + decimal(v as nat) + ")"@,
        None => "None"@,
    }
}

/// The text of a refused surface update.
pub open spec fn surface_error_text(e: SurfaceError) -> Seq<char> {
    match e {
        SurfaceError::PaneMismatch { expected, got } => "surface patch pane mismatch: expected "@
            + expected@ + ", got "@ + got@,
        SurfaceError::BaseVersionMismatch { expected, got } => "surface patch base version mismatch: expected "@
            + decimal(expected as nat) + ", got "@ + optional_number(got),
        SurfaceError::UnknownPatchKind(code) => "unknown surface patch kind "@ + decimal(code as nat),
        SurfaceError::SnapshotPaletteDiff => "surface snapshot cannot carry palette diff"@,
        SurfaceError::PatchPaletteDiff => "non-color surface patch cannot carry palette diff"@,
        SurfaceError::UnknownSurfaceKind(code) => "unknown surface kind "@ + decimal(code as nat),
        SurfaceError::UnknownCursorShape(code) => "unknown cursor shape "@ + decimal(code as nat),
        SurfaceError::UnknownMouseTrackingMode(code) => "unknown mouse tracking mode "@ + decimal(
            code as nat,
        ),
        SurfaceError::UnknownMouseFormat(code) => "unknown mouse format "@ + decimal(code as nat),
        SurfaceError::PatchChangesHyperlinks => "surface patch cannot change hyperlink table"@,
        SurfaceError::RowsInNoRowPatch(kind) => patch_kind_name(kind)
            + " patch cannot carry row updates"@,
        SurfaceError::FullRefreshRequired => "surface patch requires full refresh"@,
        SurfaceError::CursorOnlyChangesColors => "cursor-only patch changes terminal colors"@,
        SurfaceError::ModeOnlyChangesColors => "mode-only patch changes terminal colors"@,
        SurfaceError::ColorOnlyMissingColors => "color-only patch is missing terminal colors"@,
        SurfaceError::PaletteDiffStartOutOfRange { start, palette_len } => "palette diff start "@
            + decimal(start as nat) + " exceeds cached palette length "@ + decimal(
            palette_len as nat,
        ),
        SurfaceError::UnsupportedPatchKind => "unsupported surface patch kind: None"@,
        SurfaceError::ReplaceRowsChangesColors => "replace-rows patch changes terminal colors"@,
        SurfaceError::UnknownRowSemanticPrompt(code) => "unknown row semantic prompt "@ + decimal(
            code as nat,
        ),
        SurfaceError::UnknownCellSemanticContent(code) =>
            "cell run references unknown semantic content "@ + decimal(code as nat),
        SurfaceError::RowOutsideSurface { row, rows } => "surface row "@ + decimal(row as nat)
            + " is outside "@ + decimal(rows as nat) + " row surface"@,
        SurfaceError::RowRepeated(row) => "surface row "@ + decimal(row as nat)
            + " is repeated in one update"@,
        SurfaceError::UnknownStyleId(id) => "cell run references unknown style_id "@ + decimal(
            id as nat,
        ),
        SurfaceError::UnknownHyperlinkId(id) => "cell run references unknown hyperlink_id "@
            + decimal(id as nat),
        SurfaceError::ReservedHyperlinkId => "hyperlink table entry uses reserved id 0"@,
        SurfaceError::HyperlinkMissingUri(id) => "hyperlink "@ + decimal(id as nat)
            + " is missing target uri"@,
        SurfaceError::DuplicateHyperlinkId(id) => "duplicate hyperlink id "@ + decimal(id as nat),
        SurfaceError::SnapshotMissingCols => "surface snapshot missing cols"@,
        SurfaceError::SnapshotMissingRows => "surface snapshot missing rows"@,
    }
}

/// The text of a refused attach or cache update.
pub open spec fn attach_error_text(e: AttachError) -> Seq<char> {
    match e {
        AttachError::Surface(s) => surface_error_text(s),
        AttachError::PatchWithoutSnapshot(pane) => "cannot apply pane "@ + pane@
            + " patch without a cached snapshot"@,
        AttachError::StatusPaneMismatch { surface, status } => "attach surface pane_id "@ + surface@
            + " does not match attach status pane_id "@ + status@,
        AttachError::CurrentWithSurface => "attach status Current cannot include a surface frame"@,
        AttachError::StatusKindMismatch { state, kind } => "attach status "@ + attach_state_name(
            state,
        ) + " does not match surface update "@ + update_kind_name(kind),
        AttachError::MissingSurfaceFrame(state) => "attach status "@ + attach_state_name(state)
            + " requires a matching surface frame"@,
        AttachError::NoCachedSurface(pane) => "current attach has no cached surface for pane "@
            + pane@,
        AttachError::CachedVersionMismatch { pane_id, cached, status } =>
            "current attach surface version mismatch for pane "@ + pane_id@ + ": cached "@
            + decimal(cached as nat) + ", status "@ + decimal(status as nat),
    }
}

/// The text of a refused persisted client state.
pub open spec fn state_error_text(e: StateError) -> Seq<char> {
    match e {
        StateError::InvalidHeader => "invalid nmux client state header"@,
        StateError::InvalidSurfaceLine => "invalid nmux client state surface line"@,
        StateError::UnterminatedSurface => "unterminated nmux client state surface"@,
        StateError::InvalidBodyLine => "invalid nmux client state surface body line"@,
        StateError::ScrollbackStartLine => "cached scrollback start_line must be 1-based"@,
        StateError::ScrollbackLineCount => "cached scrollback line_count must be nonzero"@,
        StateError::RowOutsideSurface => "client state row index outside surface"@,
        StateError::RowMetaOutsideSurface => "client state row metadata index outside surface"@,
        StateError::RunOutsideSurface => "client state run row index outside surface"@,
        StateError::InvalidNumber => "invalid number in nmux client state"@,
        StateError::InvalidBool => "invalid flag in nmux client state"@,
        StateError::InvalidHex => "invalid hex field in nmux client state"@,
        StateError::InvalidUtf8 => "invalid utf-8 text in nmux client state"@,
        StateError::InvalidPalette => "invalid palette in nmux client state"@,
        StateError::InvalidSurfaceKind(code) => "invalid surface kind "@ + decimal(code as nat),
        StateError::InvalidCursorShape(code) => "invalid cursor shape "@ + decimal(code as nat),
        StateError::InvalidMouseTrackingMode(code) => "invalid mouse tracking mode "@ + decimal(
            code as nat,
        ),
        StateError::InvalidMouseFormat(code) => "invalid mouse format "@ + decimal(code as nat),
        StateError::InvalidRowSemanticPrompt(code) => "invalid row semantic prompt "@ + decimal(
            code as nat,
        ),
        StateError::InvalidCellSemanticContent(code) => "invalid cell semantic content "@
            + decimal(code as nat),
        StateError::Surface(s) => surface_error_text(s),
    }
}

fn push_unknown(s: &mut String, code: u8)
    ensures
        final(s)@ == old(s)@ + unknown_name(code),
{
    push_str(s, "<UNKNOWN ");
    push_decimal(s, code as u64);
    push_str(s, ">");
    assert(final(s)@ =~= old(s)@ + unknown_name(code));
}

fn push_patch_kind(s: &mut String, kind: PatchKind)
    ensures
        final(s)@ == old(s)@ + patch_kind_name(kind),
{
    match kind {
        PatchKind::ReplaceRows => push_str(s, "ReplaceRows"),
        PatchKind::CursorOnly => push_str(s, "CursorOnly"),
        PatchKind::ModeOnly => push_str(s, "ModeOnly"),
        PatchKind::ColorOnly => push_str(s, "ColorOnly"),
        PatchKind::FullRefreshRequired => push_str(s, "FullRefreshRequired"),
        PatchKind::Other(code) => push_unknown(s, code),
    }
}

fn push_attach_state(s: &mut String, state: AttachSurfaceState)
    ensures
        final(s)@ == old(s)@ + attach_state_name(state),
{
    match state {
        AttachSurfaceState::Current => push_str(s, "Current"),
        AttachSurfaceState::Snapshot => push_str(s, "Snapshot"),
        AttachSurfaceState::Patch => push_str(s, "Patch"),
        AttachSurfaceState::Other(code) => push_unknown(s, code),
    }
}

/// Text made of a fixed start and a number.
fn prefixed_number(start: &str, n: u64) -> (text: String)
    ensures
        text@ == start@ + decimal(n as nat),
{
    let mut text = String::new();
    push_str(&mut text, start);
    push_decimal(&mut text, n);
    assert(text@ =~= start@ + decimal(n as nat));
    text
}

/// Text made of a fixed start, a number and a fixed end.
fn number_text(start: &str, n: u64, end: &str) -> (text: String)
    ensures
        text@ == start@ + decimal(n as nat) + end@,
{
    let mut text = String::new();
    push_str(&mut text, start);
    push_decimal(&mut text, n);
    push_str(&mut text, end);
    text
}

/// Text made of a fixed start, a number, a fixed middle and a number.
fn two_number_text(start: &str, a: u64, middle: &str, b: u64) -> (text: String)
    ensures
        text@ == start@ + decimal(a as nat) + middle@ + decimal(b as nat),
{
    let mut text = String::new();
    push_str(&mut text, start);
    push_decimal(&mut text, a);
    push_str(&mut text, middle);
    push_decimal(&mut text, b);
    text
}

fn fixed_text(t: &str) -> (text: String)
    ensures
        text@ == t@,
{
    let mut text = String::new();
    push_str(&mut text, t);
    assert(text@ =~= t@);
    text
}

impl SurfaceError {
    /// The error's text.
    pub fn to_string(&self) -> (text: String)
        ensures
            text@ == surface_error_text(*self),
    {
        match *self {
            SurfaceError::PaneMismatch { ref expected, ref got } => {
                let mut text = String::new();
                push_str(&mut text, "surface patch pane mismatch: expected ");
                push_str(&mut text, expected.as_str());
                push_str(&mut text, ", got ");
                push_str(&mut text, got.as_str());
                text
            },
            SurfaceError::BaseVersionMismatch { expected, got } => {
                let mut text = number_text("surface patch base version mismatch: expected ", expected, ", got ");
                match got {
                    Some(v) => {
                        let ghost before = text@;
                        push_str(&mut text, "Some(");
                        push_decimal(&mut text, v);
                        push_str(&mut text, ")");
                        assert(text@ =~= before + optional_number(got));
                    },
                    None => push_str(&mut text, "None"),
                }
                text
            },
            SurfaceError::UnknownPatchKind(code) => prefixed_number("unknown surface patch kind ", code as u64),
            SurfaceError::SnapshotPaletteDiff => fixed_text("surface snapshot cannot carry palette diff"),
            SurfaceError::PatchPaletteDiff => fixed_text("non-color surface patch cannot carry palette diff"),
            SurfaceError::UnknownSurfaceKind(code) => prefixed_number("unknown surface kind ", code as u64),
            SurfaceError::UnknownCursorShape(code) => prefixed_number("unknown cursor shape ", code as u64),
            SurfaceError::UnknownMouseTrackingMode(code) => prefixed_number("unknown mouse tracking mode ", code as u64),
            SurfaceError::UnknownMouseFormat(code) => prefixed_number("unknown mouse format ", code as u64),
            SurfaceError::PatchChangesHyperlinks => fixed_text("surface patch cannot change hyperlink table"),
            SurfaceError::RowsInNoRowPatch(kind) => {
                let mut text = String::new();
                push_patch_kind(&mut text, kind);
                push_str(&mut text, " patch cannot carry row updates");
                text
            },
            SurfaceError::FullRefreshRequired => fixed_text("surface patch requires full refresh"),
            SurfaceError::CursorOnlyChangesColors => fixed_text("cursor-only patch changes terminal colors"),
            SurfaceError::ModeOnlyChangesColors => fixed_text("mode-only patch changes terminal colors"),
            SurfaceError::ColorOnlyMissingColors => fixed_text("color-only patch is missing terminal colors"),
            SurfaceError::PaletteDiffStartOutOfRange { start, palette_len } => two_number_text(
                "palette diff start ",
                start as u64,
                " exceeds cached palette length ",
                palette_len as u64,
            ),
            SurfaceError::UnsupportedPatchKind => fixed_text("unsupported surface patch kind: None"),
            SurfaceError::ReplaceRowsChangesColors => fixed_text("replace-rows patch changes terminal colors"),
            SurfaceError::UnknownRowSemanticPrompt(code) => prefixed_number("unknown row semantic prompt ", code as u64),
            SurfaceError::UnknownCellSemanticContent(code) => prefixed_number("cell run references unknown semantic content ", code as u64),
            SurfaceError::RowOutsideSurface { row, rows } => {
                let mut text = two_number_text("surface row ", row as u64, " is outside ", rows as u64);
                push_str(&mut text, " row surface");
                text
            },
            SurfaceError::RowRepeated(row) => number_text("surface row ", row as u64, " is repeated in one update"),
            SurfaceError::UnknownStyleId(id) => prefixed_number("cell run references unknown style_id ", id as u64),
            SurfaceError::UnknownHyperlinkId(id) => prefixed_number("cell run references unknown hyperlink_id ", id as u64),
            SurfaceError::ReservedHyperlinkId => fixed_text("hyperlink table entry uses reserved id 0"),
            SurfaceError::HyperlinkMissingUri(id) => number_text("hyperlink ", id as u64, " is missing target uri"),
            SurfaceError::DuplicateHyperlinkId(id) => prefixed_number("duplicate hyperlink id ", id as u64),
            SurfaceError::SnapshotMissingCols => fixed_text("surface snapshot missing cols"),
            SurfaceError::SnapshotMissingRows => fixed_text("surface snapshot missing rows"),
        }
    }
}

impl AttachError {
    /// The error's text.
    pub fn to_string(&self) -> (text: String)
        ensures
            text@ == attach_error_text(*self),
    {
        match *self {
            AttachError::Surface(ref e) => e.to_string(),
            AttachError::PatchWithoutSnapshot(ref pane) => {
                let mut text = String::new();
                push_str(&mut text, "cannot apply pane ");
                push_str(&mut text, pane.as_str());
                push_str(&mut text, " patch without a cached snapshot");
                text
            },
            AttachError::StatusPaneMismatch { ref surface, ref status } => {
                let mut text = String::new();
                push_str(&mut text, "attach surface pane_id ");
                push_str(&mut text, surface.as_str());
                push_str(&mut text, " does not match attach status pane_id ");
                push_str(&mut text, status.as_str());
                text
            },
            AttachError::CurrentWithSurface => fixed_text("attach status Current cannot include a surface frame"),
            AttachError::StatusKindMismatch { state, kind } => {
                let mut text = String::new();
                push_str(&mut text, "attach status ");
                push_attach_state(&mut text, state);
                push_str(&mut text, " does not match surface update ");
                match kind {
                    SurfaceUpdateKind::Snapshot => push_str(&mut text, "Snapshot"),
                    SurfaceUpdateKind::Patch => push_str(&mut text, "Patch"),
                }
                text
            },
            AttachError::MissingSurfaceFrame(state) => {
                let mut text = String::new();
                push_str(&mut text, "attach status ");
                push_attach_state(&mut text, state);
                push_str(&mut text, " requires a matching surface frame");
                text
            },
            AttachError::NoCachedSurface(ref pane) => {
                let mut text = String::new();
                push_str(&mut text, "current attach has no cached surface for pane ");
                push_str(&mut text, pane.as_str());
                text
            },
            AttachError::CachedVersionMismatch { ref pane_id, cached, status } => {
                let mut text = String::new();
                push_str(&mut text, "current attach surface version mismatch for pane ");
                push_str(&mut text, pane_id.as_str());
                let tail = two_number_text(": cached ", cached, ", status ", status);
                push_str(&mut text, tail.as_str());
                text
            },
        }
    }
}

impl StateError {
    /// The error's text.
    pub fn to_string(&self) -> (text: String)
        ensures
            text@ == state_error_text(*self),
    {
        match *self {
            StateError::InvalidHeader => fixed_text("invalid nmux client state header"),
            StateError::InvalidSurfaceLine => fixed_text("invalid nmux client state surface line"),
            StateError::UnterminatedSurface => fixed_text("unterminated nmux client state surface"),
            StateError::InvalidBodyLine => fixed_text("invalid nmux client state surface body line"),
            StateError::ScrollbackStartLine => fixed_text("cached scrollback start_line must be 1-based"),
            StateError::ScrollbackLineCount => fixed_text("cached scrollback line_count must be nonzero"),
            StateError::RowOutsideSurface => fixed_text("client state row index outside surface"),
            StateError::RowMetaOutsideSurface => fixed_text("client state row metadata index outside surface"),
            StateError::RunOutsideSurface => fixed_text("client state run row index outside surface"),
            StateError::InvalidNumber => fixed_text("invalid number in nmux client state"),
            StateError::InvalidBool => fixed_text("invalid flag in nmux client state"),
            StateError::InvalidHex => fixed_text("invalid hex field in nmux client state"),
            StateError::InvalidUtf8 => fixed_text("invalid utf-8 text in nmux client state"),
            StateError::InvalidPalette => fixed_text("invalid palette in nmux client state"),
            StateError::InvalidSurfaceKind(code) => prefixed_number("invalid surface kind ", code as u64),
            StateError::InvalidCursorShape(code) => prefixed_number("invalid cursor shape ", code as u64),
            StateError::InvalidMouseTrackingMode(code) => prefixed_number("invalid mouse tracking mode ", code as u64),
            StateError::InvalidMouseFormat(code) => prefixed_number("invalid mouse format ", code as u64),
            StateError::InvalidRowSemanticPrompt(code) => prefixed_number("invalid row semantic prompt ", code as u64),
            StateError::InvalidCellSemanticContent(code) => prefixed_number("invalid cell semantic content ", code as u64),
            StateError::Surface(ref e) => e.to_string(),
        }
    }
}

} // verus!
