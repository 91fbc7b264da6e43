use lib::input_frame::{input_summary_from_parts, InputError, InputField, InputKind, InputPayload};
use lib::kinds::{
    CellSemanticContent, CursorShape, MouseAction, MouseButton, MouseTrackingMode, PatchKind,
    RowSemanticPrompt, SurfaceKind,
};
use lib::protocol::{MouseSummary, ScrollbackError};
use lib::scrollback_frame::{scrollback_chunk_from_parts, ChunkError, ScrollbackRowPart};
use lib::surface::{
    default_style_summaries, CellRunSummary, CursorSummary, HyperlinkSummary, SurfaceError,
    SurfaceRowUpdate, SurfaceUpdateKind, TerminalColorSummary, TerminalModeSummary,
};
use lib::surface_frame::{patch_update_from_parts, snapshot_update_from_parts, surface_update_from_parts, FrameError};

fn row_with(style_id: u32, hyperlink_id: u32) -> SurfaceRowUpdate {
    SurfaceRowUpdate {
        row: 0,
        text: "linked".to_owned(),
        runs: vec![CellRunSummary {
            text: "linked".to_owned(),
            cell_widths: vec![1; 6],
            style_id,
            flags: 0,
            hyperlink_id,
            semantic_content: CellSemanticContent::Output,
        }],
        dirty_hash: 0,
        row_state_hash: 0,
        semantic_prompt: RowSemanticPrompt::Unmarked,
        dirty: false,
        kitty_virtual_placeholder: false,
    }
}

fn link(id: u32) -> HyperlinkSummary {
    HyperlinkSummary {
        id,
        uri: "https://example.test/link".to_owned(),
        osc8_id: "link-id".to_owned(),
        params: "id=link-id".to_owned(),
    }
}

fn snapshot(
    pane_id: Option<&str>,
    surface: SurfaceKind,
    rows: Vec<SurfaceRowUpdate>,
    hyperlinks: Option<Vec<HyperlinkSummary>>,
    cursor: Option<CursorSummary>,
    colors: Option<TerminalColorSummary>,
) -> Result<lib::surface::SurfaceUpdate, FrameError> {
    snapshot_update_from_parts(
        pane_id,
        3,
        80,
        24,
        surface,
        rows,
        None,
        hyperlinks,
        cursor,
        None,
        "title".to_owned(),
        String::new(),
        colors,
    )
}

#[test]
fn snapshot_parts_make_a_snapshot_update() {
    let update = snapshot(Some("pane-1"), SurfaceKind::Main, vec![row_with(0, 7)], Some(vec![link(7)]), None, None)
        .expect("snapshot");
    assert_eq!(update.kind, SurfaceUpdateKind::Snapshot);
    assert_eq!(update.pane_id, "pane-1");
    assert_eq!((update.cols, update.rows, update.surface), (Some(80), Some(24), Some(SurfaceKind::Main)));
    assert_eq!(update.styles, default_style_summaries());
    assert_eq!(update.hyperlinks, vec![link(7)]);
    assert_eq!(update.modes, TerminalModeSummary::default());
    assert_eq!(update.text, "linked");
    assert_eq!(update.base_version, None);
}

#[test]
fn snapshot_parts_are_checked_in_order() {
    let bad_link = snapshot(Some("pane-1"), SurfaceKind::Main, vec![row_with(0, 0)], Some(vec![link(0)]), None, None);
    assert_eq!(bad_link.unwrap_err(), FrameError::Surface(SurfaceError::ReservedHyperlinkId));
    let both = snapshot(
        Some("pane-1"),
        SurfaceKind::Other(99),
        vec![row_with(0, 0)],
        Some(vec![link(0)]),
        None,
        None,
    );
    assert_eq!(
        both.unwrap_err().to_string(),
        "unknown surface kind 99"
    );
    let style = snapshot(Some("pane-1"), SurfaceKind::Main, vec![row_with(1, 8)], None, None, None);
    assert!(style.unwrap_err().to_string().contains("unknown style_id"));
    let linked = snapshot(Some("pane-1"), SurfaceKind::Main, vec![row_with(0, 8)], None, None, None);
    assert!(linked.unwrap_err().to_string().contains("unknown hyperlink_id"));
    let cursor = CursorSummary { row: 0, col: 0, visible: true, shape: CursorShape::Other(9), blinking: true };
    let diff = TerminalColorSummary { palette_diff_start: Some(0), palette_diff_rgba: vec![1], ..TerminalColorSummary::default() };
    let bad_cursor = snapshot(Some("pane-1"), SurfaceKind::Main, Vec::new(), None, Some(cursor), Some(diff.clone()));
    assert!(bad_cursor.unwrap_err().to_string().contains("unknown cursor shape"));
    let palette = snapshot(Some("pane-1"), SurfaceKind::Main, Vec::new(), None, None, Some(diff));
    assert!(palette.unwrap_err().to_string().contains("cannot carry palette diff"));
    let missing = snapshot(None, SurfaceKind::Main, Vec::new(), None, None, None).unwrap_err();
    assert_eq!(missing, FrameError::MissingPaneId(SurfaceUpdateKind::Snapshot));
    assert_eq!(missing.to_string(), "missing surface snapshot pane_id");
    let empty = snapshot(Some(""), SurfaceKind::Main, Vec::new(), None, None, None).unwrap_err();
    assert_eq!(empty.to_string(), "empty surface snapshot pane_id");
}

#[test]
fn patch_parts_are_checked_in_order() {
    let patch = |kind: PatchKind, rows: Vec<SurfaceRowUpdate>, modes: Option<TerminalModeSummary>, colors: Option<TerminalColorSummary>| {
        patch_update_from_parts(Some("pane-1"), 5, 4, kind, rows, None, modes, String::new(), String::new(), colors)
    };
    let update = patch(PatchKind::ReplaceRows, vec![row_with(0, 0)], None, None).expect("patch");
    assert_eq!(update.kind, SurfaceUpdateKind::Patch);
    assert_eq!(update.base_version, Some(4));
    assert_eq!(update.patch_kind, Some(PatchKind::ReplaceRows));
    assert_eq!((update.cols, update.rows, update.surface), (None, None, None));
    assert!(update.styles.is_empty());
    assert_eq!(update.text, "linked");

    assert_eq!(
        patch(PatchKind::Other(99), Vec::new(), None, None).unwrap_err().to_string(),
        "unknown surface patch kind 99"
    );
    let mut odd = row_with(0, 0);
    odd.semantic_prompt = RowSemanticPrompt::Other(99);
    assert!(patch(PatchKind::CursorOnly, vec![odd], None, None)
        .unwrap_err()
        .to_string()
        .contains("unknown row semantic prompt"));
    assert!(patch(PatchKind::CursorOnly, vec![row_with(0, 0)], None, None)
        .unwrap_err()
        .to_string()
        .contains("cannot carry row updates"));
    let modes = TerminalModeSummary { mouse_tracking_mode: MouseTrackingMode::Other(99), ..TerminalModeSummary::default() };
    assert!(patch(PatchKind::ModeOnly, Vec::new(), Some(modes), None)
        .unwrap_err()
        .to_string()
        .contains("unknown mouse tracking mode"));
    let diff = TerminalColorSummary { palette_diff_start: Some(0), palette_diff_rgba: vec![1], ..TerminalColorSummary::default() };
    assert!(patch(PatchKind::ModeOnly, Vec::new(), None, Some(diff.clone()))
        .unwrap_err()
        .to_string()
        .contains("non-color surface patch cannot carry palette diff"));
    let color = patch(PatchKind::ColorOnly, Vec::new(), None, Some(diff)).expect("color patch");
    assert_eq!(color.colors.and_then(|c| c.palette_diff_start), Some(0));
    let missing = patch_update_from_parts(None, 5, 4, PatchKind::ReplaceRows, Vec::new(), None, None, String::new(), String::new(), None);
    assert_eq!(missing.unwrap_err().to_string(), "missing surface patch pane_id");
}

#[test]
fn input_parts_make_an_input_summary() {
    let key = input_summary_from_parts(
        Some("pane-1"),
        Some("actor-1"),
        2,
        InputPayload::Key { text: "a".to_owned(), key_name: Some("arrow-up".to_owned()), modifiers: 3 },
    )
    .expect("key");
    assert_eq!((key.pane_id.as_str(), key.actor_id.as_str(), key.input_seq), ("pane-1", "actor-1", 2));
    assert_eq!(key.bytes, b"a".to_vec());
    assert_eq!(key.text, "a");
    assert_eq!(key.key_name.as_deref(), Some("arrow-up"));
    assert_eq!(key.key_modifiers, 3);

    let raw = input_summary_from_parts(Some("p"), Some("a"), 1, InputPayload::RawBytes(vec![b'x', 0xff])).unwrap();
    assert_eq!(raw.bytes, vec![b'x', 0xff]);
    assert_eq!(raw.text, "x\u{fffd}");

    let paste = input_summary_from_parts(Some("p"), Some("a"), 1, InputPayload::Paste("hi".to_owned())).unwrap();
    assert_eq!(paste.paste_text.as_deref(), Some("hi"));
    assert_eq!(paste.bytes, b"hi".to_vec());

    let focus = input_summary_from_parts(Some("p"), Some("a"), 1, InputPayload::Focus(false)).unwrap();
    assert_eq!(focus.bytes, b"\x1b[O".to_vec());
    assert!(focus.requires_focus_reporting);

    let mouse = input_summary_from_parts(
        Some("p"),
        Some("a"),
        1,
        InputPayload::Mouse { row: 4, col: 5, pixels: Some((40, 50)), button: 1, action: 0, modifiers: 1 },
    )
    .unwrap();
    assert_eq!(
        mouse.mouse,
        Some(MouseSummary {
            row: 4,
            col: 5,
            pixel_x: Some(40),
            pixel_y: Some(50),
            button: MouseButton::Left,
            action: MouseAction::Press,
            modifiers: 1,
        })
    );
    assert!(mouse.requires_mouse_tracking);
    assert!(mouse.bytes.is_empty());
}

#[test]
fn input_parts_errors_come_in_order() {
    let err = |pane: Option<&str>, payload: InputPayload| input_summary_from_parts(pane, Some("a"), 1, payload).unwrap_err();
    let bad_key = err(None, InputPayload::Key { text: String::new(), key_name: None, modifiers: 0x10 });
    assert_eq!(bad_key, InputError::UnsupportedModifiers(0x10));
    assert_eq!(bad_key.to_string(), "unsupported input modifier bits 0x10");
    let bad_mouse = err(Some("p"), InputPayload::Mouse { row: 0, col: 0, pixels: None, button: 9, action: 9, modifiers: 0x10 });
    assert_eq!(bad_mouse.to_string(), "unknown mouse button 9");
    let bad_action = err(Some("p"), InputPayload::Mouse { row: 0, col: 0, pixels: None, button: 1, action: 9, modifiers: 0 });
    assert_eq!(bad_action.to_string(), "unknown mouse action 9");
    assert_eq!(err(Some("p"), InputPayload::Missing(InputKind::Paste)).to_string(), "missing paste input");
    assert_eq!(err(Some("p"), InputPayload::Unexpected(7)), InputError::UnexpectedKind(7));
    assert_eq!(err(None, InputPayload::Focus(true)), InputError::MissingField(InputField::PaneId));
    assert_eq!(err(Some(""), InputPayload::Focus(true)).to_string(), "empty input pane_id");
    let no_actor = input_summary_from_parts(Some("p"), None, 1, InputPayload::Focus(true)).unwrap_err();
    assert_eq!(no_actor.to_string(), "missing input actor_id");
}

#[test]
fn frame_parts_follow_the_frame_kind() {
    let snapshot = surface_update_from_parts(
        SurfaceUpdateKind::Snapshot,
        Some("pane-1"),
        2,
        9,
        PatchKind::Other(99),
        10,
        2,
        SurfaceKind::Alternate,
        Vec::new(),
        None,
        None,
        None,
        None,
        String::new(),
        String::new(),
        None,
    )
    .expect("snapshot ignores the patch kind");
    assert_eq!(snapshot.surface, Some(SurfaceKind::Alternate));
    assert_eq!(snapshot.base_version, None);
    let patch = surface_update_from_parts(
        SurfaceUpdateKind::Patch,
        Some("pane-1"),
        2,
        1,
        PatchKind::ModeOnly,
        10,
        2,
        SurfaceKind::Other(99),
        Vec::new(),
        None,
        None,
        None,
        None,
        String::new(),
        String::new(),
        None,
    )
    .expect("patch ignores the surface kind");
    assert_eq!(patch.patch_kind, Some(PatchKind::ModeOnly));
    assert_eq!(patch.base_version, Some(1));
}

fn scrollback_row(line: u64, style_id: u32, hyperlink_id: u32) -> ScrollbackRowPart {
    ScrollbackRowPart {
        line,
        runs: vec![
            CellRunSummary {
                text: "$ ".to_owned(),
                cell_widths: vec![1; 2],
                style_id,
                flags: 0,
                hyperlink_id: 0,
                semantic_content: CellSemanticContent::Prompt,
            },
            CellRunSummary {
                text: "ls".to_owned(),
                cell_widths: vec![1; 2],
                style_id: 0,
                flags: 0,
                hyperlink_id,
                semantic_content: CellSemanticContent::Input,
            },
        ],
        dirty_hash: 7,
        row_state_hash: 9,
        semantic_prompt: RowSemanticPrompt::Prompt,
        dirty: true,
        kitty_virtual_placeholder: false,
    }
}

#[test]
fn scrollback_chunk_parts_make_numbered_lines() {
    let chunk = scrollback_chunk_from_parts(
        Some("pane-1"),
        4,
        10,
        12,
        Some(default_style_summaries()),
        Some(vec![link(3)]),
        None,
        Some(vec![scrollback_row(10, 0, 3), scrollback_row(11, 0, 0)]),
    )
    .unwrap();
    assert_eq!(chunk.pane_id, "pane-1");
    assert_eq!(chunk.scrollback_version, 4);
    assert_eq!(chunk.start_line, 10);
    assert_eq!(chunk.total_lines, 12);
    assert_eq!(chunk.colors, TerminalColorSummary::default());
    assert_eq!(chunk.hyperlinks, vec![link(3)]);
    assert_eq!(chunk.lines.len(), 2);
    assert_eq!(chunk.lines[0].line, 10);
    assert_eq!(chunk.lines[0].text, "$ ls");
    assert_eq!(chunk.lines[0].runs, scrollback_row(10, 0, 3).runs);
    assert_eq!(chunk.lines[0].dirty_hash, 7);
    assert_eq!(chunk.lines[0].row_state_hash, 9);
    assert!(chunk.lines[0].dirty);
    assert_eq!(chunk.lines[1].line, 11);

    let bare = scrollback_chunk_from_parts(Some("pane-1"), 1, 1, 0, None, None, None, Some(Vec::new())).unwrap();
    assert!(bare.styles.is_empty());
    assert!(bare.hyperlinks.is_empty());
    assert!(bare.lines.is_empty());
}

#[test]
fn scrollback_chunk_parts_are_checked_in_order() {
    let err = |pane: Option<&str>, start: u64, links: Option<Vec<HyperlinkSummary>>, colors: Option<TerminalColorSummary>, rows: Option<Vec<ScrollbackRowPart>>| {
        scrollback_chunk_from_parts(pane, 1, start, 5, Some(default_style_summaries()), links, colors, rows).unwrap_err()
    };
    let rows = || Some(vec![scrollback_row(2, 0, 0)]);
    let duplicate = err(None, 0, Some(vec![link(3), link(3)]), None, None);
    assert_eq!(duplicate, ChunkError::Surface(SurfaceError::DuplicateHyperlinkId(3)));
    let diff = TerminalColorSummary { palette_diff_start: Some(0), palette_diff_rgba: vec![1], ..TerminalColorSummary::default() };
    let palette = err(None, 0, None, Some(diff), None);
    assert_eq!(palette, ChunkError::PaletteDiff);
    assert_eq!(palette.to_string(), "scrollback chunk cannot carry palette diff");
    let no_rows = err(None, 0, None, None, None);
    assert_eq!(no_rows, ChunkError::MissingRows);
    assert_eq!(no_rows.to_string(), "scrollback chunk has no rows");
    let start = err(None, 0, None, None, rows());
    assert_eq!(start, ChunkError::Scrollback(ScrollbackError::ChunkStartLine));
    assert_eq!(start.to_string(), "scrollback chunk start_line must be 1-based");
    let style = err(Some("p"), 2, None, None, Some(vec![scrollback_row(2, 5, 0)]));
    assert_eq!(style, ChunkError::Surface(SurfaceError::UnknownStyleId(5)));
    let hyperlink = err(Some("p"), 2, None, None, Some(vec![scrollback_row(2, 0, 3)]));
    assert_eq!(hyperlink, ChunkError::Surface(SurfaceError::UnknownHyperlinkId(3)));
    let zero = err(Some("p"), 2, None, None, Some(vec![scrollback_row(0, 0, 0)]));
    assert_eq!(zero, ChunkError::Scrollback(ScrollbackError::RowLine));
    let mismatch = err(Some("p"), 2, None, None, Some(vec![scrollback_row(2, 0, 0), scrollback_row(4, 0, 0)]));
    assert_eq!(mismatch, ChunkError::Scrollback(ScrollbackError::RowLineMismatch { row_line: 4, expected: 3 }));
    assert_eq!(mismatch.to_string(), "scrollback row line 4 does not match expected public line 3");
    let beyond = err(Some("p"), 5, None, None, Some(vec![scrollback_row(5, 0, 0), scrollback_row(6, 0, 0)]));
    assert_eq!(beyond, ChunkError::Scrollback(ScrollbackError::RowBeyondTotal { row_line: 6, total_lines: 5 }));
    let missing = err(None, 2, None, None, rows());
    assert_eq!(missing, ChunkError::MissingPaneId);
    assert_eq!(missing.to_string(), "missing scrollback chunk pane_id");
    let empty = err(Some(""), 2, None, None, rows());
    assert_eq!(empty.to_string(), "empty scrollback chunk pane_id");
}
