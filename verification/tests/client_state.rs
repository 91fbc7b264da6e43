use lib::client_state::{
    AttachSnapshot, ClientAttachState, ClientPaneScrollback, SocketIdentity, TerminalMetadataSummary,
};
use lib::kinds::{
    AttachMode, AttachSurfaceState, CellSemanticContent, CursorShape, MouseFormat,
    MouseTrackingMode, PatchKind, ResizePolicy, RowSemanticPrompt, SurfaceKind,
};
use lib::protocol::{
    AttachStatusSummary, PresenceSummary, ScrollbackChunkSummary, ScrollbackLine, WorkspaceSummary,
};
use lib::render::render_decoded_rows;
use lib::surface::{
    default_style_summaries, CellRunSummary, CursorSummary, HyperlinkSummary, StyleSummary,
    SurfaceRowUpdate, SurfaceUpdate, SurfaceUpdateKind, TerminalColorSummary, TerminalModeSummary,
};

fn test_socket_identity(dev: u64, ino: u64) -> SocketIdentity {
    test_socket_identity_with_ctime(dev, ino, 100, 200)
}

fn test_socket_identity_with_ctime(dev: u64, ino: u64, ctime: i64, ctime_nsec: i64) -> SocketIdentity {
    SocketIdentity { dev, ino, ctime, ctime_nsec }
}

fn surface_update(
    kind: SurfaceUpdateKind,
    version: u64,
    base_version: Option<u64>,
    rows: Vec<SurfaceRowUpdate>,
) -> SurfaceUpdate {
    SurfaceUpdate {
        kind,
        pane_id: "pane-1".to_owned(),
        version,
        base_version,
        patch_kind: match kind {
            SurfaceUpdateKind::Snapshot => None,
            SurfaceUpdateKind::Patch => Some(PatchKind::ReplaceRows),
        },
        cols: match kind {
            SurfaceUpdateKind::Snapshot => Some(80),
            SurfaceUpdateKind::Patch => None,
        },
        rows: match kind {
            SurfaceUpdateKind::Snapshot => Some(3),
            SurfaceUpdateKind::Patch => None,
        },
        surface: match kind {
            SurfaceUpdateKind::Snapshot => Some(SurfaceKind::Main),
            SurfaceUpdateKind::Patch => None,
        },
        cursor: None,
        modes: TerminalModeSummary::default(),
        title: String::new(),
        working_directory: String::new(),
        colors: None,
        styles: if kind == SurfaceUpdateKind::Snapshot {
            default_style_summaries()
        } else {
            Vec::new()
        },
        hyperlinks: Vec::new(),
        text: render_decoded_rows(&rows),
        row_updates: rows,
    }
}

fn surface_row(row: u32, text: &str) -> SurfaceRowUpdate {
    SurfaceRowUpdate {
        row,
        text: text.to_owned(),
        runs: vec![CellRunSummary {
            text: text.to_owned(),
            cell_widths: text.chars().map(|_| 1).collect(),
            style_id: 0,
            flags: 0,
            hyperlink_id: 0,
            semantic_content: CellSemanticContent::Output,
        }],
        dirty_hash: u64::from(row),
        row_state_hash: u64::from(row),
        semantic_prompt: RowSemanticPrompt::Unmarked,
        dirty: false,
        kitty_virtual_placeholder: false,
    }
}

fn styled_run(text: &str, style_id: u32, widths: Vec<u8>) -> CellRunSummary {
    CellRunSummary {
        text: text.to_owned(),
        cell_widths: widths,
        style_id,
        flags: 0,
        hyperlink_id: 0,
        semantic_content: CellSemanticContent::Output,
    }
}

fn scrollback_line(line: u64, text: &str) -> ScrollbackLine {
    ScrollbackLine {
        line,
        text: text.to_owned(),
        runs: vec![CellRunSummary::plain(text)],
        dirty_hash: 0,
        row_state_hash: 0,
        semantic_prompt: RowSemanticPrompt::Unmarked,
        dirty: false,
        kitty_virtual_placeholder: false,
    }
}

fn presence_summary(mode: AttachMode) -> PresenceSummary {
    PresenceSummary {
        actor_id: "local-actor".to_owned(),
        user_id: "local-user".to_owned(),
        display_name: "local".to_owned(),
        mode,
        focused_pane_id: Some("pane-1".to_owned()),
    }
}

fn attach_status_summary(pane_id: &str, surface_version: u64) -> AttachStatusSummary {
    attach_status_summary_with_state(pane_id, surface_version, AttachSurfaceState::Snapshot)
}

fn attach_status_summary_with_state(
    pane_id: &str,
    surface_version: u64,
    surface_state: AttachSurfaceState,
) -> AttachStatusSummary {
    AttachStatusSummary { pane_id: pane_id.to_owned(), surface_version, surface_state }
}

fn workspace(pane_id: &str) -> WorkspaceSummary {
    WorkspaceSummary {
        session_id: "local".to_owned(),
        tab_id: "tab-1".to_owned(),
        pane_id: pane_id.to_owned(),
        cols: 80,
        rows: 24,
        resize_policy: ResizePolicy::Fixed,
        pane_tree: None,
    }
}

fn scrollback_chunk(version: u64, start_line: u64, total_lines: u64, lines: Vec<ScrollbackLine>) -> ScrollbackChunkSummary {
    ScrollbackChunkSummary {
        pane_id: "pane-1".to_owned(),
        scrollback_version: version,
        start_line,
        total_lines,
        styles: default_style_summaries(),
        hyperlinks: Vec::new(),
        colors: TerminalColorSummary::default(),
        lines,
    }
}

#[test]
fn client_attach_state_can_render_cached_surface_with_or_without_styles() {
    let mut snapshot = surface_update(
        SurfaceUpdateKind::Snapshot,
        1,
        None,
        vec![SurfaceRowUpdate {
            runs: vec![
                CellRunSummary::plain("plain "),
                styled_run("italic", 1, vec![1, 1, 1, 1, 1, 1]),
            ],
            ..surface_row(0, "plain italic")
        }],
    );
    snapshot.styles = vec![
        StyleSummary { fg_rgba: 0, bg_rgba: 0, underline_rgba: 0, flags: 0 },
        StyleSummary { fg_rgba: 0, bg_rgba: 0, underline_rgba: 0, flags: 1 << 1 },
    ];
    let mut state = ClientAttachState::default();
    assert_eq!(
        state
            .render_surface_update_styled(&snapshot, true)
            .expect("render styled snapshot"),
        "plain \x1b[3mitalic\x1b[0m"
    );

    assert_eq!(
        state.cached_surface_text_styled("pane-1", false).as_deref(),
        Some("plain italic")
    );
    assert_eq!(
        state.cached_surface_text_styled("pane-1", true).as_deref(),
        Some("plain \x1b[3mitalic\x1b[0m")
    );
}

#[test]
fn terminal_metadata_summary_formats_visible_values() {
    let metadata = TerminalMetadataSummary {
        title: "pane\u{1b} title".to_owned(),
        working_directory: "file://localhost/tmp/nmux".to_owned(),
    };

    assert_eq!(
        metadata.display_lines(),
        vec![
            "title=pane\u{fffd} title".to_owned(),
            "working-directory=file://localhost/tmp/nmux".to_owned()
        ]
    );
}

#[test]
fn client_attach_state_uses_attach_status_pane_for_current_surface_cache() {
    let mut state = ClientAttachState::default();
    let mut cached = surface_update(
        SurfaceUpdateKind::Snapshot,
        7,
        None,
        vec![surface_row(0, "cached status pane")],
    );
    cached.pane_id = "pane-2".to_owned();
    state
        .render_attach(AttachSnapshot {
            workspace: workspace("pane-2"),
            presence: presence_summary(AttachMode::ReadWrite),
            status: AttachStatusSummary {
                pane_id: "pane-2".to_owned(),
                surface_version: 7,
                surface_state: AttachSurfaceState::Snapshot,
            },
            surface: Some(cached),
            scrollback: None,
        })
        .expect("seed cached surface");

    let rendered = state
        .render_attach(AttachSnapshot {
            workspace: workspace("pane-1"),
            presence: presence_summary(AttachMode::ReadWrite),
            status: AttachStatusSummary {
                pane_id: "pane-2".to_owned(),
                surface_version: 7,
                surface_state: AttachSurfaceState::Current,
            },
            surface: None,
            scrollback: None,
        })
        .expect("render current surface from cache");

    assert_eq!(rendered.workspace.pane_id, "pane-1");
    assert_eq!(rendered.surface_text.as_deref(), Some("cached status pane"));
}

#[test]
fn client_attach_state_rejects_current_surface_without_cached_pane() {
    let mut state = ClientAttachState::default();

    let err = state
        .render_attach(AttachSnapshot {
            workspace: workspace("pane-1"),
            presence: presence_summary(AttachMode::ReadWrite),
            status: AttachStatusSummary {
                pane_id: "pane-1".to_owned(),
                surface_version: 7,
                surface_state: AttachSurfaceState::Current,
            },
            surface: None,
            scrollback: None,
        })
        .expect_err("current attach without cached surface should fail");

    assert!(
        err.to_string().contains("current attach has no cached surface"),
        "{}",
        err.to_string()
    );
}

#[test]
fn client_attach_state_rejects_current_surface_version_mismatch() {
    let mut state = ClientAttachState::default();
    let cached = surface_update(SurfaceUpdateKind::Snapshot, 7, None, vec![surface_row(0, "cached")]);
    state
        .render_attach(AttachSnapshot {
            workspace: workspace("pane-1"),
            presence: presence_summary(AttachMode::ReadWrite),
            status: AttachStatusSummary {
                pane_id: "pane-1".to_owned(),
                surface_version: 7,
                surface_state: AttachSurfaceState::Snapshot,
            },
            surface: Some(cached),
            scrollback: None,
        })
        .expect("seed cached surface");

    let err = state
        .render_attach(AttachSnapshot {
            workspace: workspace("pane-1"),
            presence: presence_summary(AttachMode::ReadWrite),
            status: AttachStatusSummary {
                pane_id: "pane-1".to_owned(),
                surface_version: 8,
                surface_state: AttachSurfaceState::Current,
            },
            surface: None,
            scrollback: None,
        })
        .expect_err("current attach version mismatch should fail");

    assert!(
        err.to_string().contains("current attach surface version mismatch"),
        "{}",
        err.to_string()
    );
}

#[test]
fn client_attach_state_rejects_missing_surface_for_non_current_status() {
    let mut state = ClientAttachState::default();

    let err = state
        .render_attach(AttachSnapshot {
            workspace: workspace("pane-1"),
            presence: presence_summary(AttachMode::ReadWrite),
            status: attach_status_summary("pane-1", 7),
            surface: None,
            scrollback: None,
        })
        .expect_err("non-current attach status without surface should fail");

    assert!(
        err.to_string().contains("requires a matching surface frame"),
        "{}",
        err.to_string()
    );
}

#[test]
fn client_attach_state_rejects_surface_for_current_status() {
    let mut state = ClientAttachState::default();
    let update = surface_update(SurfaceUpdateKind::Snapshot, 7, None, vec![surface_row(0, "unexpected")]);

    let err = state
        .render_attach(AttachSnapshot {
            workspace: workspace("pane-1"),
            presence: presence_summary(AttachMode::ReadWrite),
            status: attach_status_summary_with_state("pane-1", 7, AttachSurfaceState::Current),
            surface: Some(update),
            scrollback: None,
        })
        .expect_err("current attach status with surface should fail");

    assert!(
        err.to_string().contains("Current cannot include a surface frame"),
        "{}",
        err.to_string()
    );
}

#[test]
fn client_attach_state_rejects_attach_status_surface_kind_mismatch() {
    let mut state = ClientAttachState::default();
    let update = surface_update(SurfaceUpdateKind::Patch, 8, Some(7), vec![surface_row(0, "patch")]);

    let err = state
        .render_attach(AttachSnapshot {
            workspace: workspace("pane-1"),
            presence: presence_summary(AttachMode::ReadWrite),
            status: attach_status_summary("pane-1", 8),
            surface: Some(update),
            scrollback: None,
        })
        .expect_err("attach status surface kind mismatch should fail");

    assert!(
        err.to_string().contains("does not match surface update Patch"),
        "{}",
        err.to_string()
    );
}

#[test]
fn client_attach_state_round_trips_cached_surface() {
    let mut state = ClientAttachState::default();
    let expected_scope = test_socket_identity(10, 20);
    state.apply_scope(Some(expected_scope));
    let mut snapshot = surface_update(
        SurfaceUpdateKind::Snapshot,
        7,
        None,
        vec![
            SurfaceRowUpdate {
                row: 0,
                text: "cached".to_owned(),
                runs: vec![
                    CellRunSummary {
                        text: "cache".to_owned(),
                        cell_widths: vec![1, 1, 1, 1, 1],
                        style_id: 1,
                        flags: 1,
                        hyperlink_id: 7,
                        semantic_content: CellSemanticContent::Prompt,
                    },
                    CellRunSummary::plain("d"),
                ],
                dirty_hash: 0,
                row_state_hash: 1,
                semantic_prompt: RowSemanticPrompt::Prompt,
                dirty: true,
                kitty_virtual_placeholder: true,
            },
            surface_row(2, "tail"),
        ],
    );
    snapshot.styles.push(StyleSummary {
        fg_rgba: 0xff00_0000,
        bg_rgba: 0,
        underline_rgba: 0,
        flags: 1,
    });
    snapshot.hyperlinks.push(HyperlinkSummary {
        id: 7,
        uri: "https://example.test/cache".to_owned(),
        osc8_id: String::new(),
        params: String::new(),
    });
    snapshot.modes.bracketed_paste = true;
    snapshot.modes.focus_reporting = true;
    snapshot.modes.mouse_tracking = true;
    snapshot.modes.mouse_tracking_mode = MouseTrackingMode::Any;
    snapshot.modes.mouse_format = MouseFormat::SgrPixels;
    snapshot.title = "cached title".to_owned();
    snapshot.working_directory = "file://localhost/tmp/cached".to_owned();
    snapshot.colors = Some(TerminalColorSummary {
        default_fg_rgba: 0xeeeeeeff,
        default_bg_rgba: 0x111111ff,
        cursor_rgba: 0xff00ffff,
        cursor_rgba_set: true,
        palette_rgba: vec![0x000000ff, 0x112233ff],
        palette_diff_start: None,
        palette_diff_rgba: Vec::new(),
    });
    snapshot.cursor = Some(CursorSummary {
        row: 2,
        col: 4,
        visible: true,
        shape: CursorShape::Beam,
        blinking: false,
    });
    let expected_styles = snapshot.styles.clone();
    let expected_hyperlinks = snapshot.hyperlinks.clone();
    let expected_modes = snapshot.modes;
    let expected_cursor = snapshot.cursor;
    let expected_title = snapshot.title.clone();
    let expected_working_directory = snapshot.working_directory.clone();
    let expected_colors = snapshot.colors.clone().expect("snapshot colors");
    state
        .render_attach(AttachSnapshot {
            workspace: workspace("pane-1"),
            presence: presence_summary(AttachMode::ReadWrite),
            status: attach_status_summary("pane-1", 7),
            surface: Some(snapshot),
            scrollback: Some(scrollback_chunk(11, 4, 9, vec![scrollback_line(4, "cached scrollback")])),
        })
        .expect("render snapshot");

    let decoded = ClientAttachState::decode(&state.encode()).expect("decode state");
    assert_eq!(decoded.scope, Some(expected_scope));
    assert_eq!(decoded.known_surfaces(), state.known_surfaces());
    assert_eq!(decoded.cached_surface_modes("pane-1"), Some(expected_modes));
    assert_eq!(decoded.cached_surface_modes("missing"), None);
    assert_eq!(
        decoded.known_surfaces_for_scope(Some(expected_scope)),
        state.known_surfaces()
    );
    assert_eq!(decoded.known_surfaces_for_scope(Some(test_socket_identity(10, 21))), Vec::new());
    assert_eq!(
        decoded.known_surfaces_for_scope(Some(test_socket_identity_with_ctime(10, 20, 100, 201))),
        Vec::new()
    );
    assert_eq!(decoded.cached_scrollback_version("pane-1", 4, 1), Some(11));
    assert_eq!(decoded.cached_scrollback_version("pane-1", 5, 1), None);
    assert_eq!(
        decoded.cached_scrollback_version_for_scope(Some(expected_scope), "pane-1", 4, 1),
        Some(11)
    );
    assert_eq!(
        decoded.cached_scrollback_version_for_scope(Some(test_socket_identity(10, 21)), "pane-1", 4, 1),
        None
    );
    assert_eq!(
        decoded.cached_scrollback_version_for_scope(
            Some(test_socket_identity_with_ctime(10, 20, 100, 201)),
            "pane-1",
            4,
            1,
        ),
        None
    );
    assert_eq!(
        decoded.scrollbacks,
        vec![ClientPaneScrollback {
            pane_id: "pane-1".to_owned(),
            version: 11,
            start_line: 4,
            line_count: 1,
            total_lines: 9,
        }]
    );
    assert_eq!(decoded.surfaces[0].surface, SurfaceKind::Main);
    assert_eq!(decoded.surfaces[0].cursor, expected_cursor);
    assert_eq!(decoded.surfaces[0].modes, expected_modes);
    assert_eq!(decoded.surfaces[0].title, expected_title);
    assert_eq!(decoded.surfaces[0].working_directory, expected_working_directory);
    assert_eq!(decoded.surfaces[0].colors, expected_colors);
    assert_eq!(decoded.surfaces[0].render_text(), "cached\n\ntail");
    assert_eq!(
        decoded.cached_surface_text_styled("pane-1", true).as_deref(),
        Some("\x1b[1;38;2;255;0;0mcache\x1b[0md\n\ntail")
    );
    assert_eq!(decoded.surfaces[0].row_semantic_prompts[0], RowSemanticPrompt::Prompt);
    assert!(decoded.surfaces[0].row_dirty[0]);
    assert!(decoded.surfaces[0].row_kitty_placeholders[0]);
    assert_eq!(decoded.surfaces[0].row_state_hashes[0], 1);
    assert_eq!(decoded.surfaces[0].styles, expected_styles);
    assert_eq!(decoded.surfaces[0].hyperlinks, expected_hyperlinks);
    assert_eq!(decoded.surfaces[0].row_runs[0].len(), 2);
    assert_eq!(decoded.surfaces[0].row_runs[0][0].text, "cache");
    assert_eq!(decoded.surfaces[0].row_runs[0][0].style_id, 1);
    assert_eq!(decoded.surfaces[0].row_runs[0][0].flags, 1);
    assert_eq!(decoded.surfaces[0].row_runs[0][0].hyperlink_id, 7);
    assert_eq!(decoded.surfaces[0].row_runs[0][0].semantic_content, CellSemanticContent::Prompt);
}

#[test]
fn client_attach_state_decodes_legacy_socket_scope_as_nonmatching_identity() {
    let decoded = ClientAttachState::decode(
        "NMUX_CLIENT_STATE 7\nscope socket 10 20\nsurface 70616e652d31 7 80 24 0\ncursor none\nmodes 0 0 0 0 0 0 1 0 0\nrow 0 636163686564\nend\n",
    )
    .expect("decode legacy scoped state");

    assert_eq!(decoded.known_surfaces_for_scope(Some(test_socket_identity(10, 20))), Vec::new());
}

#[test]
fn client_attach_state_decodes_cached_surface_without_surface_kind() {
    let decoded = ClientAttachState::decode(
        "NMUX_CLIENT_STATE 1\nsurface 70616e652d31 7 80 24\ncursor none\nrow 0 636163686564\nend\n",
    )
    .expect("decode old state");

    assert_eq!(decoded.scope, None);
    assert_eq!(decoded.known_surfaces_for_scope(Some(test_socket_identity(1, 2))), Vec::new());
    assert_eq!(decoded.surfaces[0].surface, SurfaceKind::Main);
    assert_eq!(decoded.surfaces[0].modes, TerminalModeSummary::default());
    assert_eq!(decoded.surfaces[0].title, "");
    assert_eq!(decoded.surfaces[0].colors, TerminalColorSummary::default());
    assert_eq!(decoded.surfaces[0].row_semantic_prompts[0], RowSemanticPrompt::Unmarked);
    assert!(!decoded.surfaces[0].row_dirty[0]);
    assert!(!decoded.surfaces[0].row_kitty_placeholders[0]);
    assert_eq!(decoded.surfaces[0].styles, default_style_summaries());
    assert!(decoded.surfaces[0].hyperlinks.is_empty());
    assert_eq!(decoded.surfaces[0].render_text(), "cached");
    assert!(decoded.scrollbacks.is_empty());
}

#[test]
fn client_attach_state_rejects_zero_cached_scrollback_ranges() {
    for (state, expected) in [
        (
            "NMUX_CLIENT_STATE 7\nscrollback 70616e652d31 1 0 1 3\n",
            "cached scrollback start_line must be 1-based",
        ),
        (
            "NMUX_CLIENT_STATE 7\nscrollback 70616e652d31 1 1 0 3\n",
            "cached scrollback line_count must be nonzero",
        ),
    ] {
        let err = ClientAttachState::decode(state)
            .expect_err("zero cached scrollback range should be rejected");
        assert!(err.to_string().contains(expected), "{}", err.to_string());
    }
}

fn decode_error(state: &str) -> String {
    ClientAttachState::decode(state).expect_err("invalid cached state should be rejected").to_string()
}

#[test]
fn client_attach_state_rejects_invalid_cached_surface_kind() {
    let err = decode_error(
        "NMUX_CLIENT_STATE 7\nsurface 70616e652d31 7 80 24 99\ncursor none\nrow 0 636163686564\nend\n",
    );
    assert!(err.contains("invalid surface kind"));
}

#[test]
fn client_attach_state_rejects_invalid_cached_cursor_shape() {
    let err = decode_error(
        "NMUX_CLIENT_STATE 7\nsurface 70616e652d31 7 80 24 0\ncursor 0 0 1 99 1\nrow 0 636163686564\nend\n",
    );
    assert!(err.contains("invalid cursor shape"));
}

#[test]
fn client_attach_state_rejects_invalid_cached_row_semantic_prompt() {
    let err = decode_error(
        "NMUX_CLIENT_STATE 7\nsurface 70616e652d31 7 80 24 0\ncursor none\nrowmeta 0 99\nrow 0 636163686564\nend\n",
    );
    assert!(err.contains("invalid row semantic prompt"));
}

#[test]
fn client_attach_state_rejects_invalid_cached_cell_semantic_content() {
    let err = decode_error(
        "NMUX_CLIENT_STATE 7\nsurface 70616e652d31 7 80 24 0\ncursor none\nrow 0 636163686564\nrun 0 636163686564 0101010101 0 0 0 99\nend\n",
    );
    assert!(err.contains("invalid cell semantic content"));
}

#[test]
fn client_attach_state_rejects_unknown_cached_style_id() {
    let err = decode_error(
        "NMUX_CLIENT_STATE 7\nsurface 70616e652d31 7 80 24 0\ncursor none\nrow 0 636163686564\nrun 0 636163686564 0101010101 1 0 0 0\nend\n",
    );
    assert!(err.contains("unknown style_id"));
}

#[test]
fn client_attach_state_rejects_unknown_cached_hyperlink_id() {
    let err = decode_error(
        "NMUX_CLIENT_STATE 7\nsurface 70616e652d31 7 80 24 0\ncursor none\nrow 0 6c696e6b6564\nrun 0 6c696e6b6564 010101010101 0 1 7 0\nend\n",
    );
    assert!(err.contains("unknown hyperlink_id"));
}

#[test]
fn client_attach_state_rejects_invalid_hyperlink_table() {
    let err = decode_error(
        "NMUX_CLIENT_STATE 7\nsurface 70616e652d31 7 80 24 0\ncursor none\nhyperlink 0 68747470733a2f2f6578616d706c652e74657374 - -\nrow 0 636163686564\nend\n",
    );
    assert!(err.contains("reserved id 0"));
}

#[test]
fn client_attach_state_rejects_invalid_cached_mouse_mode() {
    let err = decode_error(
        "NMUX_CLIENT_STATE 7\nsurface 70616e652d31 7 80 24 0\ncursor none\nmodes 0 1 0 0 0 0 1 99 2\nrow 0 636163686564\nend\n",
    );
    assert!(err.contains("invalid mouse tracking mode"));
}

#[test]
fn client_attach_state_rejects_invalid_cached_mouse_format() {
    let err = decode_error(
        "NMUX_CLIENT_STATE 7\nsurface 70616e652d31 7 80 24 0\ncursor none\nmodes 0 1 0 0 0 0 1 4 99\nrow 0 636163686564\nend\n",
    );
    assert!(err.contains("invalid mouse format"));
}

#[test]
fn client_attach_state_scope_change_drops_cached_scrollback() {
    let mut state = ClientAttachState::default();
    state.apply_scope(Some(test_socket_identity(10, 20)));
    state
        .render_attach(AttachSnapshot {
            workspace: workspace("pane-1"),
            presence: presence_summary(AttachMode::ReadWrite),
            status: attach_status_summary("pane-1", 2),
            surface: Some(surface_update(
                SurfaceUpdateKind::Snapshot,
                2,
                None,
                vec![surface_row(0, "cached surface")],
            )),
            scrollback: Some(scrollback_chunk(3, 1, 2, vec![scrollback_line(1, "cached")])),
        })
        .expect("render scrollback");
    assert_eq!(state.cached_scrollback_version("pane-1", 1, 1), Some(3));

    state.apply_scope(Some(test_socket_identity(10, 21)));

    assert_eq!(state.cached_scrollback_version("pane-1", 1, 1), None);
    assert!(state.scrollbacks.is_empty());
}

#[test]
fn client_attach_state_preserves_distinct_cached_scrollback_ranges() {
    let mut state = ClientAttachState::default();
    state.apply_scope(Some(test_socket_identity(10, 20)));

    state.cache_scrollback_chunk(&scrollback_chunk(
        3,
        1,
        6,
        vec![scrollback_line(1, "one"), scrollback_line(2, "two")],
    ));
    state.cache_scrollback_chunk(&scrollback_chunk(4, 3, 6, vec![scrollback_line(3, "three")]));
    state.cache_scrollback_chunk(&scrollback_chunk(
        5,
        1,
        6,
        vec![scrollback_line(1, "one"), scrollback_line(2, "two")],
    ));

    assert_eq!(state.cached_scrollback_version("pane-1", 1, 2), Some(5));
    assert_eq!(state.cached_scrollback_version("pane-1", 3, 1), Some(4));
    assert_eq!(state.scrollbacks.len(), 2);

    let decoded = ClientAttachState::decode(&state.encode()).expect("decode state");
    assert_eq!(decoded.cached_scrollback_version("pane-1", 1, 2), Some(5));
    assert_eq!(decoded.cached_scrollback_version("pane-1", 3, 1), Some(4));
    assert_eq!(decoded.scrollbacks.len(), 2);
}

#[test]
fn client_attach_state_does_not_persist_empty_scrollback_chunks() {
    let mut state = ClientAttachState::default();
    state.cache_scrollback_chunk(&scrollback_chunk(6, 999, 3, Vec::new()));

    assert!(state.scrollbacks.is_empty());
    assert!(!state.encode().contains("scrollback "));
    let decoded = ClientAttachState::decode(&state.encode()).expect("decode state");
    assert!(decoded.scrollbacks.is_empty());
}

#[test]
fn client_attach_state_decodes_cached_cursor_without_blinking() {
    let decoded = ClientAttachState::decode(
        "NMUX_CLIENT_STATE 1\nsurface 70616e652d31 7 80 24\ncursor 2 4 1 1\nrow 0 636163686564\nend\n",
    )
    .expect("decode old cursor state");

    assert_eq!(
        decoded.surfaces[0].cursor,
        Some(CursorSummary {
            row: 2,
            col: 4,
            visible: true,
            shape: CursorShape::Beam,
            blinking: true,
        })
    );
}
