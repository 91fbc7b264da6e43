use lib::kinds::{CellSemanticContent, CursorShape, MouseFormat, MouseTrackingMode, PatchKind, RowSemanticPrompt, SurfaceKind};
use lib::protocol::{surface_response_for_known_version, SurfaceResponse};
use lib::render::render_decoded_rows;
use lib::surface::{
    default_style_summaries, CellRunSummary, ClientPaneSurface, CursorSummary, StyleSummary,
    SurfaceRowUpdate, SurfaceUpdate, SurfaceUpdateKind, TerminalColorSummary, TerminalModeSummary,
};

const CELL_RUN_FLAG_HYPERLINK_PRESENT: u32 = 1;

fn surface_update(
    kind: SurfaceUpdateKind,
    version: u64,
    base_version: Option<u64>,
    rows: Vec<SurfaceRowUpdate>,
) -> SurfaceUpdate {
    SurfaceUpdate {
        kind,
        pane_id: "pane-1".to_owned(),
        version,
        base_version,
        patch_kind: match kind {
            SurfaceUpdateKind::Snapshot => None,
            SurfaceUpdateKind::Patch => Some(PatchKind::ReplaceRows),
        },
        cols: match kind {
            SurfaceUpdateKind::Snapshot => Some(80),
            SurfaceUpdateKind::Patch => None,
        },
        rows: match kind {
            SurfaceUpdateKind::Snapshot => Some(3),
            SurfaceUpdateKind::Patch => None,
        },
        surface: match kind {
            SurfaceUpdateKind::Snapshot => Some(SurfaceKind::Main),
            SurfaceUpdateKind::Patch => None,
        },
        cursor: None,
        modes: TerminalModeSummary::default(),
        title: String::new(),
        working_directory: String::new(),
        colors: None,
        styles: if kind == SurfaceUpdateKind::Snapshot {
            default_style_summaries()
        } else {
            Vec::new()
        },
        hyperlinks: Vec::new(),
        text: render_decoded_rows(&rows),
        row_updates: rows,
    }
}

fn surface_row(row: u32, text: &str) -> SurfaceRowUpdate {
    SurfaceRowUpdate {
        row,
        text: text.to_owned(),
        runs: vec![CellRunSummary {
            text: text.to_owned(),
            cell_widths: text.chars().map(|_| 1).collect(),
            style_id: 0,
            flags: 0,
            hyperlink_id: 0,
            semantic_content: CellSemanticContent::Output,
        }],
        dirty_hash: u64::from(row),
        row_state_hash: u64::from(row),
        semantic_prompt: RowSemanticPrompt::Unmarked,
        dirty: false,
        kitty_virtual_placeholder: false,
    }
}

fn surface_row_with_runs(row: u32, runs: Vec<CellRunSummary>) -> SurfaceRowUpdate {
    SurfaceRowUpdate {
        row,
        text: lib::render::render_run_summaries(&runs),
        runs,
        dirty_hash: u64::from(row),
        row_state_hash: u64::from(row) + 100,
        semantic_prompt: RowSemanticPrompt::Unmarked,
        dirty: false,
        kitty_virtual_placeholder: false,
    }
}

fn styled_run(text: &str, style_id: u32, widths: Vec<u8>) -> CellRunSummary {
    CellRunSummary {
        text: text.to_owned(),
        cell_widths: widths,
        style_id,
        flags: 0,
        hyperlink_id: 0,
        semantic_content: CellSemanticContent::Output,
    }
}

fn plain_colors() -> TerminalColorSummary {
    TerminalColorSummary {
        default_fg_rgba: 0xeeeeeeff,
        default_bg_rgba: 0x111111ff,
        cursor_rgba: 0,
        cursor_rgba_set: false,
        palette_rgba: vec![0x000000ff],
        palette_diff_start: None,
        palette_diff_rgba: Vec::new(),
    }
}

#[test]
fn client_surface_applies_patch_by_row_index() {
    let snapshot = surface_update(
        SurfaceUpdateKind::Snapshot,
        1,
        None,
        vec![
            surface_row(0, "top"),
            surface_row(1, "middle"),
            surface_row(2, "bottom"),
        ],
    );
    let mut surface = ClientPaneSurface::from_snapshot(&snapshot).expect("client surface");

    let mut patch = surface_update(
        SurfaceUpdateKind::Patch,
        2,
        Some(1),
        vec![surface_row(2, "new bottom"), surface_row(0, "new top")],
    );
    patch.title = "patched title".to_owned();
    patch.working_directory = "file://localhost/tmp/patched".to_owned();
    surface.apply_patch(&patch).expect("apply patch");

    assert_eq!(surface.version, 2);
    assert_eq!(surface.title, "patched title");
    assert_eq!(surface.working_directory, "file://localhost/tmp/patched");
    assert_eq!(surface.render_text(), "new top\nmiddle\nnew bottom");
}

#[test]
fn client_surface_preserves_structured_row_runs_across_updates() {
    let mut snapshot = surface_update(
        SurfaceUpdateKind::Snapshot,
        1,
        None,
        vec![surface_row_with_runs(
            0,
            vec![
                styled_run("wide", 1, vec![1, 1, 1, 1]),
                styled_run("字", 2, vec![2]),
            ],
        )],
    );
    snapshot.styles.resize(
        5,
        StyleSummary {
            fg_rgba: 0,
            bg_rgba: 0,
            underline_rgba: 0,
            flags: 0,
        },
    );
    let mut surface = ClientPaneSurface::from_snapshot(&snapshot).expect("client surface");

    assert_eq!(surface.render_text(), "wide字");
    assert_eq!(
        surface.row_runs[0],
        vec![
            styled_run("wide", 1, vec![1, 1, 1, 1]),
            styled_run("字", 2, vec![2]),
        ]
    );

    let patch = surface_update(
        SurfaceUpdateKind::Patch,
        2,
        Some(1),
        vec![surface_row_with_runs(
            0,
            vec![
                styled_run("prompt", 3, vec![1, 1, 1, 1, 1, 1]),
                CellRunSummary {
                    text: " output".to_owned(),
                    cell_widths: vec![1, 1, 1, 1, 1, 1, 1],
                    style_id: 4,
                    flags: CELL_RUN_FLAG_HYPERLINK_PRESENT,
                    hyperlink_id: 0,
                    semantic_content: CellSemanticContent::Input,
                },
            ],
        )],
    );
    surface.apply_patch(&patch).expect("apply patch");

    assert_eq!(surface.render_text(), "prompt output");
    assert_eq!(surface.row_runs[0][0].style_id, 3);
    assert_eq!(surface.row_runs[0][1].style_id, 4);
    assert_eq!(surface.row_runs[0][1].flags, CELL_RUN_FLAG_HYPERLINK_PRESENT);
    assert_eq!(surface.row_runs[0][1].semantic_content, CellSemanticContent::Input);
}

#[test]
fn client_surface_rejects_patch_with_unknown_hyperlink_id() {
    let snapshot = surface_update(SurfaceUpdateKind::Snapshot, 1, None, vec![surface_row(0, "top")]);
    let mut surface = ClientPaneSurface::from_snapshot(&snapshot).expect("client surface");
    let patch = surface_update(
        SurfaceUpdateKind::Patch,
        2,
        Some(1),
        vec![surface_row_with_runs(
            0,
            vec![CellRunSummary {
                text: "linked".to_owned(),
                cell_widths: vec![1, 1, 1, 1, 1, 1],
                style_id: 0,
                flags: CELL_RUN_FLAG_HYPERLINK_PRESENT,
                hyperlink_id: 7,
                semantic_content: CellSemanticContent::Output,
            }],
        )],
    );

    let err = surface
        .apply_patch(&patch)
        .expect_err("unknown hyperlink id should be rejected");

    assert!(err.to_string().contains("unknown hyperlink_id"));
    assert_eq!(surface.version, 1);
    assert_eq!(surface.render_text(), "top");
}

#[test]
fn client_surface_rejects_patch_with_unknown_style_id() {
    let snapshot = surface_update(SurfaceUpdateKind::Snapshot, 1, None, vec![surface_row(0, "top")]);
    let mut surface = ClientPaneSurface::from_snapshot(&snapshot).expect("client surface");
    let patch = surface_update(
        SurfaceUpdateKind::Patch,
        2,
        Some(1),
        vec![surface_row_with_runs(
            0,
            vec![styled_run("styled", 1, vec![1, 1, 1, 1, 1, 1])],
        )],
    );

    let err = surface
        .apply_patch(&patch)
        .expect_err("unknown style id should be rejected");

    assert!(err.to_string().contains("unknown style_id"));
    assert_eq!(surface.version, 1);
    assert_eq!(surface.render_text(), "top");
}

#[test]
fn client_surface_rejects_patch_with_out_of_bounds_row_without_mutation() {
    let snapshot = surface_update(
        SurfaceUpdateKind::Snapshot,
        1,
        None,
        vec![surface_row(0, "top"), surface_row(1, "bottom")],
    );
    let mut surface = ClientPaneSurface::from_snapshot(&snapshot).expect("client surface");
    let before = surface.clone();
    let patch = surface_update(
        SurfaceUpdateKind::Patch,
        2,
        Some(1),
        vec![surface_row(0, "changed"), surface_row(3, "outside")],
    );

    let err = surface
        .apply_patch(&patch)
        .expect_err("out-of-bounds row should be rejected");

    assert!(err.to_string().contains("outside 3 row surface"));
    assert_eq!(surface, before);
}

#[test]
fn client_surface_rejects_patch_with_duplicate_row_without_mutation() {
    let snapshot = surface_update(
        SurfaceUpdateKind::Snapshot,
        1,
        None,
        vec![surface_row(0, "top"), surface_row(1, "bottom")],
    );
    let mut surface = ClientPaneSurface::from_snapshot(&snapshot).expect("client surface");
    let before = surface.clone();
    let patch = surface_update(
        SurfaceUpdateKind::Patch,
        2,
        Some(1),
        vec![surface_row(0, "first"), surface_row(0, "second")],
    );

    let err = surface
        .apply_patch(&patch)
        .expect_err("duplicate row should be rejected");

    assert!(err.to_string().contains("repeated"));
    assert_eq!(surface, before);
}

#[test]
fn client_surface_rejects_no_row_patch_with_rows_without_mutation() {
    for kind in [
        PatchKind::CursorOnly,
        PatchKind::ModeOnly,
        PatchKind::ColorOnly,
        PatchKind::FullRefreshRequired,
    ] {
        let mut snapshot = surface_update(
            SurfaceUpdateKind::Snapshot,
            1,
            None,
            vec![surface_row(0, "top"), surface_row(1, "bottom")],
        );
        snapshot.colors = Some(plain_colors());
        let mut surface = ClientPaneSurface::from_snapshot(&snapshot).expect("client surface");
        let before = surface.clone();
        let mut patch = surface_update(
            SurfaceUpdateKind::Patch,
            2,
            Some(1),
            vec![surface_row(0, "changed")],
        );
        patch.patch_kind = Some(kind);
        if kind == PatchKind::ColorOnly {
            patch.colors = Some(surface.colors.clone());
        }

        let err = surface
            .apply_patch(&patch)
            .expect_err("no-row patch with rows should be rejected");

        assert!(err.to_string().contains("cannot carry row updates"));
        assert_eq!(surface, before);
    }
}

#[test]
fn client_surface_rejects_unknown_patch_kind_without_mutation() {
    let snapshot = surface_update(
        SurfaceUpdateKind::Snapshot,
        1,
        None,
        vec![surface_row(0, "top"), surface_row(1, "bottom")],
    );
    let mut surface = ClientPaneSurface::from_snapshot(&snapshot).expect("client surface");
    let before = surface.clone();
    let mut patch = surface_update(SurfaceUpdateKind::Patch, 2, Some(1), Vec::new());
    patch.patch_kind = Some(PatchKind::Other(99));

    let err = surface
        .apply_patch(&patch)
        .expect_err("unknown patch kind should be rejected");

    assert!(err.to_string().contains("unknown surface patch kind"));
    assert_eq!(surface, before);
}

#[test]
fn client_surface_rejects_patch_with_unknown_terminal_enums_without_mutation() {
    let snapshot = surface_update(
        SurfaceUpdateKind::Snapshot,
        1,
        None,
        vec![surface_row(0, "top"), surface_row(1, "bottom")],
    );
    let mut surface = ClientPaneSurface::from_snapshot(&snapshot).expect("client surface");
    let before = surface.clone();
    let mut patch = surface_update(
        SurfaceUpdateKind::Patch,
        2,
        Some(1),
        vec![surface_row(0, "changed")],
    );
    patch.row_updates[0].semantic_prompt = RowSemanticPrompt::Other(99);

    let err = surface
        .apply_patch(&patch)
        .expect_err("unknown row semantic prompt should be rejected");

    assert!(err.to_string().contains("unknown row semantic prompt"));
    assert_eq!(surface, before);

    let patch = surface_update(
        SurfaceUpdateKind::Patch,
        2,
        Some(1),
        vec![surface_row_with_runs(
            0,
            vec![CellRunSummary {
                text: "changed".to_owned(),
                cell_widths: vec![1, 1, 1, 1, 1, 1, 1],
                style_id: 0,
                flags: 0,
                hyperlink_id: 0,
                semantic_content: CellSemanticContent::Other(99),
            }],
        )],
    );

    let err = surface
        .apply_patch(&patch)
        .expect_err("unknown cell semantic content should be rejected");

    assert!(err.to_string().contains("unknown semantic content"));
    assert_eq!(surface, before);
}

#[test]
fn client_surface_rejects_snapshot_with_unknown_surface_kind() {
    let mut snapshot = surface_update(SurfaceUpdateKind::Snapshot, 1, None, vec![surface_row(0, "top")]);
    snapshot.surface = Some(SurfaceKind::Other(99));

    let err = ClientPaneSurface::from_snapshot(&snapshot)
        .expect_err("unknown snapshot surface kind should be rejected");

    assert!(err.to_string().contains("unknown surface kind"));
}

#[test]
fn client_surface_rejects_unknown_cursor_and_mode_enums_without_mutation() {
    let snapshot = surface_update(SurfaceUpdateKind::Snapshot, 1, None, vec![surface_row(0, "top")]);
    let mut surface = ClientPaneSurface::from_snapshot(&snapshot).expect("client surface");
    let before = surface.clone();

    let mut patch = surface_update(SurfaceUpdateKind::Patch, 2, Some(1), Vec::new());
    patch.patch_kind = Some(PatchKind::CursorOnly);
    patch.cursor = Some(CursorSummary {
        row: 0,
        col: 0,
        visible: true,
        shape: CursorShape::Other(99),
        blinking: true,
    });
    let err = surface
        .apply_patch(&patch)
        .expect_err("unknown cursor shape should be rejected");
    assert!(err.to_string().contains("unknown cursor shape"));
    assert_eq!(surface, before);

    let mut patch = surface_update(SurfaceUpdateKind::Patch, 2, Some(1), Vec::new());
    patch.patch_kind = Some(PatchKind::ModeOnly);
    patch.modes.mouse_tracking_mode = MouseTrackingMode::Other(99);
    let err = surface
        .apply_patch(&patch)
        .expect_err("unknown mouse tracking mode should be rejected");
    assert!(err.to_string().contains("unknown mouse tracking mode"));
    assert_eq!(surface, before);

    let mut patch = surface_update(SurfaceUpdateKind::Patch, 2, Some(1), Vec::new());
    patch.patch_kind = Some(PatchKind::ModeOnly);
    patch.modes.mouse_format = MouseFormat::Other(99);
    let err = surface
        .apply_patch(&patch)
        .expect_err("unknown mouse format should be rejected");
    assert!(err.to_string().contains("unknown mouse format"));
    assert_eq!(surface, before);
}

#[test]
fn client_surface_applies_cursor_only_patch_without_rows() {
    let snapshot = surface_update(
        SurfaceUpdateKind::Snapshot,
        1,
        None,
        vec![surface_row(0, "top"), surface_row(1, "bottom")],
    );
    let mut surface = ClientPaneSurface::from_snapshot(&snapshot).expect("client surface");
    let mut patch = surface_update(SurfaceUpdateKind::Patch, 2, Some(1), Vec::new());
    patch.patch_kind = Some(PatchKind::CursorOnly);
    patch.cursor = Some(CursorSummary {
        row: 1,
        col: 6,
        visible: true,
        shape: CursorShape::Beam,
        blinking: true,
    });
    patch.title = "cursor title".to_owned();
    patch.working_directory = "file://localhost/tmp/cursor".to_owned();
    patch.colors = Some(surface.colors.clone());
    let colors_before = surface.colors.clone();
    surface.apply_patch(&patch).expect("apply patch");

    assert_eq!(surface.version, 2);
    assert_eq!(surface.render_text(), "top\nbottom");
    assert_eq!(surface.cursor, patch.cursor);
    assert_eq!(surface.title, "cursor title");
    assert_eq!(surface.working_directory, "file://localhost/tmp/cursor");
    assert_eq!(surface.colors, colors_before);
}

#[test]
fn styled_surface_rendering_uses_structured_runs_without_mutating_plain_text() {
    let mut snapshot = surface_update(
        SurfaceUpdateKind::Snapshot,
        1,
        None,
        vec![SurfaceRowUpdate {
            runs: vec![
                styled_run("red", 1, vec![1, 1, 1]),
                CellRunSummary::plain(" plain "),
                styled_run("bold", 2, vec![1, 1, 1, 1]),
            ],
            ..surface_row(0, "red plain bold")
        }],
    );
    snapshot.styles = vec![
        StyleSummary { fg_rgba: 0, bg_rgba: 0, underline_rgba: 0, flags: 0 },
        StyleSummary { fg_rgba: 0xff0000ff, bg_rgba: 0, underline_rgba: 0, flags: 0 },
        StyleSummary { fg_rgba: 0, bg_rgba: 0x001122ff, underline_rgba: 0, flags: 1 << 0 },
    ];
    let surface = ClientPaneSurface::from_snapshot(&snapshot).expect("styled surface");

    assert!(surface.has_styled_runs());
    assert_eq!(surface.render_text(), "red plain bold");
    assert_eq!(
        surface.render_styled_text(),
        "\x1b[38;2;255;0;0mred\x1b[0m plain \x1b[1;48;2;0;17;34mbold\x1b[0m"
    );
    assert_eq!(surface.render_text(), "red plain bold");
}

#[test]
fn client_surface_applies_color_only_patch_without_rows() {
    let mut snapshot = surface_update(SurfaceUpdateKind::Snapshot, 1, None, vec![surface_row(0, "top")]);
    snapshot.colors = Some(plain_colors());
    let mut surface = ClientPaneSurface::from_snapshot(&snapshot).expect("client surface");
    let mut patch = surface_update(SurfaceUpdateKind::Patch, 2, Some(1), Vec::new());
    patch.patch_kind = Some(PatchKind::ColorOnly);
    patch.modes.bracketed_paste = true;
    patch.colors = Some(TerminalColorSummary {
        default_fg_rgba: 0xeeeeeeff,
        default_bg_rgba: 0x222222ff,
        cursor_rgba: 0,
        cursor_rgba_set: false,
        palette_rgba: Vec::new(),
        palette_diff_start: Some(1),
        palette_diff_rgba: vec![0x112233ff],
    });

    surface.apply_patch(&patch).expect("apply color-only patch");

    assert_eq!(surface.version, 2);
    assert_eq!(surface.render_text(), "top");
    assert_eq!(surface.colors.default_bg_rgba, 0x222222ff);
    assert_eq!(surface.colors.palette_rgba, vec![0x000000ff, 0x112233ff]);
    assert_eq!(surface.colors.palette_diff_start, None);
    assert_eq!(surface.colors.palette_diff_rgba, Vec::<u32>::new());
    assert!(surface.modes.bracketed_paste);
}

#[test]
fn client_surface_rejects_invalid_color_only_palette_diff_without_mutation() {
    let mut snapshot = surface_update(SurfaceUpdateKind::Snapshot, 1, None, vec![surface_row(0, "top")]);
    snapshot.cursor = Some(CursorSummary {
        row: 0,
        col: 0,
        visible: true,
        shape: CursorShape::Block,
        blinking: true,
    });
    snapshot.colors = Some(plain_colors());
    let mut surface = ClientPaneSurface::from_snapshot(&snapshot).expect("client surface");
    let before = surface.clone();
    let mut patch = surface_update(SurfaceUpdateKind::Patch, 2, Some(1), Vec::new());
    patch.patch_kind = Some(PatchKind::ColorOnly);
    patch.cursor = Some(CursorSummary {
        row: 0,
        col: 3,
        visible: true,
        shape: CursorShape::Beam,
        blinking: false,
    });
    patch.modes.bracketed_paste = true;
    patch.title = "bad color patch".to_owned();
    patch.colors = Some(TerminalColorSummary {
        default_fg_rgba: 0xeeeeeeff,
        default_bg_rgba: 0x222222ff,
        cursor_rgba: 0,
        cursor_rgba_set: false,
        palette_rgba: Vec::new(),
        palette_diff_start: Some(2),
        palette_diff_rgba: vec![0x112233ff],
    });

    let err = surface
        .apply_patch(&patch)
        .expect_err("invalid palette diff should be rejected");

    assert!(err.to_string().contains("palette diff start"));
    assert_eq!(surface, before);
}

#[test]
fn client_surface_rejects_non_color_patch_with_palette_diff_without_mutation() {
    let mut snapshot = surface_update(SurfaceUpdateKind::Snapshot, 1, None, vec![surface_row(0, "top")]);
    snapshot.colors = Some(plain_colors());
    let mut surface = ClientPaneSurface::from_snapshot(&snapshot).expect("client surface");
    let before = surface.clone();
    let mut patch = surface_update(SurfaceUpdateKind::Patch, 2, Some(1), Vec::new());
    patch.patch_kind = Some(PatchKind::ModeOnly);
    patch.colors = Some(TerminalColorSummary {
        default_fg_rgba: 0xeeeeeeff,
        default_bg_rgba: 0x111111ff,
        cursor_rgba: 0,
        cursor_rgba_set: false,
        palette_rgba: Vec::new(),
        palette_diff_start: Some(0),
        palette_diff_rgba: vec![0x112233ff],
    });

    let err = surface
        .apply_patch(&patch)
        .expect_err("non-color palette diff should be rejected");

    assert!(err.to_string().contains("cannot carry palette diff"));
    assert_eq!(surface, before);
}

#[test]
fn client_surface_rejects_replace_rows_patch_that_changes_colors() {
    let mut snapshot = surface_update(SurfaceUpdateKind::Snapshot, 1, None, vec![surface_row(0, "top")]);
    snapshot.colors = Some(plain_colors());
    let mut surface = ClientPaneSurface::from_snapshot(&snapshot).expect("client surface");
    let mut patch = surface_update(
        SurfaceUpdateKind::Patch,
        2,
        Some(1),
        vec![surface_row(0, "new top")],
    );
    patch.colors = Some(TerminalColorSummary {
        default_fg_rgba: 0xeeeeeeff,
        default_bg_rgba: 0x222222ff,
        cursor_rgba: 0,
        cursor_rgba_set: false,
        palette_rgba: vec![0x000000ff],
        palette_diff_start: None,
        palette_diff_rgba: Vec::new(),
    });

    let err = surface
        .apply_patch(&patch)
        .expect_err("replace-rows color-changing patch should be rejected");
    assert!(
        err.to_string().contains("replace-rows patch changes terminal colors"),
        "unexpected error: {}",
        err.to_string()
    );
}

#[test]
fn client_surface_applies_mode_only_patch_without_rows() {
    let snapshot = surface_update(SurfaceUpdateKind::Snapshot, 1, None, vec![surface_row(0, "top")]);
    let mut surface = ClientPaneSurface::from_snapshot(&snapshot).expect("client surface");
    let mut patch = surface_update(SurfaceUpdateKind::Patch, 2, Some(1), Vec::new());
    patch.patch_kind = Some(PatchKind::ModeOnly);
    patch.modes.bracketed_paste = true;
    patch.title = "mode title".to_owned();
    patch.working_directory = "file://localhost/tmp/mode".to_owned();
    patch.colors = None;
    let colors_before = surface.colors.clone();

    surface.apply_patch(&patch).expect("apply patch");

    assert_eq!(surface.version, 2);
    assert_eq!(surface.render_text(), "top");
    assert!(surface.modes.bracketed_paste);
    assert_eq!(surface.title, "mode title");
    assert_eq!(surface.working_directory, "file://localhost/tmp/mode");
    assert_eq!(surface.colors, colors_before);
}

#[test]
fn client_surface_rejects_patch_base_mismatch() {
    let snapshot = surface_update(SurfaceUpdateKind::Snapshot, 3, None, vec![surface_row(0, "current")]);
    let mut surface = ClientPaneSurface::from_snapshot(&snapshot).expect("client surface");

    let patch = surface_update(SurfaceUpdateKind::Patch, 4, Some(2), vec![surface_row(0, "stale")]);

    let err = surface.apply_patch(&patch).expect_err("base mismatch");
    assert!(err.to_string().contains("base version mismatch"));
    assert_eq!(surface.version, 3);
    assert_eq!(surface.render_text(), "current");
}

#[test]
fn full_refresh_required_surface_response_uses_snapshot() {
    assert_eq!(
        surface_response_for_known_version(2, 1, PatchKind::FullRefreshRequired),
        Some(SurfaceResponse::Snapshot)
    );
}
