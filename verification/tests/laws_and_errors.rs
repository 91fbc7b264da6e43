use lib::client_state::{
    sanitized_metadata_value, validate_attach_surface_update, AttachError, ClientAttachState,
    SocketIdentity, TerminalMetadataSummary,
};
use lib::kinds::{AttachSurfaceState, CellSemanticContent, PatchKind, RowSemanticPrompt, SurfaceKind};
use lib::protocol::{AttachStatusSummary, ScrollbackChunkSummary, ScrollbackLine};
use lib::render::{render_decoded_rows, render_run_summaries, row_runs_for_text, style_to_sgr};
use lib::state_file::StateError;
use lib::surface::{
    default_style_summaries, validate_hyperlink_table, CellRunSummary, ClientPaneSurface,
    HyperlinkSummary, StyleSummary, SurfaceError, SurfaceRowUpdate, SurfaceUpdate,
    SurfaceUpdateKind, TerminalColorSummary, TerminalModeSummary,
};

fn update_for(pane_id: &str, kind: SurfaceUpdateKind, version: u64, base: Option<u64>, rows: Vec<SurfaceRowUpdate>) -> SurfaceUpdate {
    SurfaceUpdate {
        kind,
        pane_id: pane_id.to_owned(),
        version,
        base_version: base,
        patch_kind: match kind {
            SurfaceUpdateKind::Snapshot => None,
            SurfaceUpdateKind::Patch => Some(PatchKind::ReplaceRows),
        },
        cols: match kind {
            SurfaceUpdateKind::Snapshot => Some(80),
            SurfaceUpdateKind::Patch => None,
        },
        rows: match kind {
            SurfaceUpdateKind::Snapshot => Some(2),
            SurfaceUpdateKind::Patch => None,
        },
        surface: match kind {
            SurfaceUpdateKind::Snapshot => Some(SurfaceKind::Main),
            SurfaceUpdateKind::Patch => None,
        },
        cursor: None,
        modes: TerminalModeSummary::default(),
        title: String::new(),
        working_directory: String::new(),
        colors: None,
        styles: Vec::new(),
        hyperlinks: Vec::new(),
        text: render_decoded_rows(&rows),
        row_updates: rows,
    }
}

fn row(row: u32, text: &str) -> SurfaceRowUpdate {
    SurfaceRowUpdate {
        row,
        text: text.to_owned(),
        runs: vec![CellRunSummary::plain(text)],
        dirty_hash: 0,
        row_state_hash: 0,
        semantic_prompt: RowSemanticPrompt::Unmarked,
        dirty: false,
        kitty_virtual_placeholder: false,
    }
}

fn snapshot(pane_id: &str, version: u64, rows: Vec<SurfaceRowUpdate>) -> SurfaceUpdate {
    update_for(pane_id, SurfaceUpdateKind::Snapshot, version, None, rows)
}

fn patch(pane_id: &str, version: u64, base: u64, rows: Vec<SurfaceRowUpdate>) -> SurfaceUpdate {
    update_for(pane_id, SurfaceUpdateKind::Patch, version, Some(base), rows)
}

fn surface_error(surface: &mut ClientPaneSurface, update: &SurfaceUpdate) -> SurfaceError {
    let before = surface.clone();
    let err = surface.apply_patch(update).expect_err("patch should be refused");
    assert_eq!(*surface, before);
    err
}

#[test]
fn snapshot_without_styles_gets_the_default_style_table() {
    let surface = ClientPaneSurface::from_snapshot(&snapshot("pane-1", 1, vec![row(1, "second")]))
        .expect("snapshot");
    assert_eq!(surface.styles, default_style_summaries());
    assert_eq!(surface.row_text, vec![String::new(), "second".to_owned()]);
    assert_eq!(surface.render_text(), "\nsecond");
    assert_eq!(surface.colors, TerminalColorSummary::default());
}

#[test]
fn snapshot_errors_name_the_missing_or_bad_part() {
    let mut missing_cols = snapshot("pane-1", 1, Vec::new());
    missing_cols.cols = None;
    let err = ClientPaneSurface::from_snapshot(&missing_cols).unwrap_err();
    assert_eq!(err, SurfaceError::SnapshotMissingCols);
    assert_eq!(err.to_string(), "surface snapshot missing cols");

    let mut missing_rows = snapshot("pane-1", 1, Vec::new());
    missing_rows.rows = None;
    assert_eq!(
        ClientPaneSurface::from_snapshot(&missing_rows).unwrap_err().to_string(),
        "surface snapshot missing rows"
    );

    let outside = snapshot("pane-1", 1, vec![row(2, "x")]);
    let err = ClientPaneSurface::from_snapshot(&outside).unwrap_err();
    assert_eq!(err, SurfaceError::RowOutsideSurface { row: 2, rows: 2 });
    assert_eq!(err.to_string(), "surface row 2 is outside 2 row surface");

    let mut diff = snapshot("pane-1", 1, Vec::new());
    diff.colors = Some(TerminalColorSummary { palette_diff_start: Some(0), ..TerminalColorSummary::default() });
    assert_eq!(
        ClientPaneSurface::from_snapshot(&diff).unwrap_err().to_string(),
        "surface snapshot cannot carry palette diff"
    );

    let mut links = snapshot("pane-1", 1, Vec::new());
    links.hyperlinks = vec![HyperlinkSummary { id: 0, uri: "u".to_owned(), osc8_id: String::new(), params: String::new() }];
    assert_eq!(
        ClientPaneSurface::from_snapshot(&links).unwrap_err().to_string(),
        "hyperlink table entry uses reserved id 0"
    );
    links.hyperlinks = vec![HyperlinkSummary { id: 3, uri: String::new(), osc8_id: String::new(), params: String::new() }];
    assert_eq!(
        ClientPaneSurface::from_snapshot(&links).unwrap_err().to_string(),
        "hyperlink 3 is missing target uri"
    );
    let link = HyperlinkSummary { id: 3, uri: "u".to_owned(), osc8_id: String::new(), params: String::new() };
    assert_eq!(
        validate_hyperlink_table(&vec![link.clone(), link.clone()]).unwrap_err().to_string(),
        "duplicate hyperlink id 3"
    );
    assert_eq!(validate_hyperlink_table(&vec![link]), Ok(()));
}

#[test]
fn patch_errors_leave_the_surface_unchanged() {
    let mut surface = ClientPaneSurface::from_snapshot(&snapshot("pane-1", 1, vec![row(0, "top")]))
        .expect("snapshot");

    let err = surface_error(&mut surface, &patch("pane-2", 2, 1, Vec::new()));
    assert_eq!(
        err,
        SurfaceError::PaneMismatch { expected: "pane-1".to_owned(), got: "pane-2".to_owned() }
    );
    assert_eq!(err.to_string(), "surface patch pane mismatch: expected pane-1, got pane-2");

    let err = surface_error(&mut surface, &patch("pane-1", 2, 7, Vec::new()));
    assert_eq!(
        err.to_string(),
        "surface patch base version mismatch: expected 1, got Some(7)"
    );
    let mut no_base = patch("pane-1", 2, 1, Vec::new());
    no_base.base_version = None;
    assert_eq!(
        surface_error(&mut surface, &no_base).to_string(),
        "surface patch base version mismatch: expected 1, got None"
    );

    let mut links = patch("pane-1", 2, 1, Vec::new());
    links.hyperlinks = vec![HyperlinkSummary { id: 1, uri: "u".to_owned(), osc8_id: String::new(), params: String::new() }];
    assert_eq!(
        surface_error(&mut surface, &links).to_string(),
        "surface patch cannot change hyperlink table"
    );

    let mut refresh = patch("pane-1", 2, 1, Vec::new());
    refresh.patch_kind = Some(PatchKind::FullRefreshRequired);
    assert_eq!(surface_error(&mut surface, &refresh), SurfaceError::FullRefreshRequired);

    let changed = TerminalColorSummary { default_fg_rgba: 7, ..TerminalColorSummary::default() };
    let mut cursor_colors = patch("pane-1", 2, 1, Vec::new());
    cursor_colors.patch_kind = Some(PatchKind::CursorOnly);
    cursor_colors.colors = Some(changed.clone());
    assert_eq!(
        surface_error(&mut surface, &cursor_colors).to_string(),
        "cursor-only patch changes terminal colors"
    );
    let mut mode_colors = patch("pane-1", 2, 1, Vec::new());
    mode_colors.patch_kind = Some(PatchKind::ModeOnly);
    mode_colors.colors = Some(changed);
    assert_eq!(
        surface_error(&mut surface, &mode_colors).to_string(),
        "mode-only patch changes terminal colors"
    );

    let mut no_colors = patch("pane-1", 2, 1, Vec::new());
    no_colors.patch_kind = Some(PatchKind::ColorOnly);
    assert_eq!(
        surface_error(&mut surface, &no_colors).to_string(),
        "color-only patch is missing terminal colors"
    );

    let mut no_kind = patch("pane-1", 2, 1, Vec::new());
    no_kind.patch_kind = None;
    assert_eq!(
        surface_error(&mut surface, &no_kind).to_string(),
        "unsupported surface patch kind: None"
    );

    let mut rows_in_cursor = patch("pane-1", 2, 1, vec![row(0, "x")]);
    rows_in_cursor.patch_kind = Some(PatchKind::CursorOnly);
    assert_eq!(
        surface_error(&mut surface, &rows_in_cursor).to_string(),
        "CursorOnly patch cannot carry row updates"
    );
    assert_eq!(surface.version, 1);
    assert_eq!(surface.render_text(), "top");
}

#[test]
fn an_accepted_update_is_what_the_cache_reads_back() {
    let mut state = ClientAttachState::default();
    let first = state
        .render_surface_update(&snapshot("pane-1", 1, vec![row(0, "one")]))
        .expect("first snapshot");
    assert_eq!(first, "one");
    state
        .render_surface_update(&snapshot("pane-2", 4, vec![row(0, "other")]))
        .expect("second pane");
    let patched = state
        .render_surface_update(&patch("pane-1", 2, 1, vec![row(1, "two")]))
        .expect("patch");
    assert_eq!(patched, "one\ntwo");
    assert_eq!(state.cached_surface_text("pane-1").as_deref(), Some("one\ntwo"));
    assert_eq!(state.cached_surface_text("pane-2").as_deref(), Some("other"));
    assert_eq!(state.cached_surface_text("pane-3"), None);
    let known = state.known_surfaces();
    assert_eq!(known.len(), 2);
    assert_eq!((known[0].pane_id.as_str(), known[0].version), ("pane-1", 2));
    assert_eq!((known[1].pane_id.as_str(), known[1].version), ("pane-2", 4));

    let before = state.clone();
    let err = state
        .render_surface_update(&patch("pane-3", 2, 1, Vec::new()))
        .unwrap_err();
    assert_eq!(err, AttachError::PatchWithoutSnapshot("pane-3".to_owned()));
    assert_eq!(err.to_string(), "cannot apply pane pane-3 patch without a cached snapshot");
    let err = state
        .render_surface_update(&patch("pane-1", 3, 1, Vec::new()))
        .unwrap_err();
    assert_eq!(err.to_string(), "surface patch base version mismatch: expected 2, got Some(1)");
    assert_eq!(state, before);
}

#[test]
fn attach_status_must_match_the_surface_frame() {
    let status = AttachStatusSummary {
        pane_id: "pane-1".to_owned(),
        surface_version: 1,
        surface_state: AttachSurfaceState::Snapshot,
    };
    assert_eq!(validate_attach_surface_update(&status, &snapshot("pane-1", 1, Vec::new())), Ok(()));
    let err = validate_attach_surface_update(&status, &snapshot("pane-2", 1, Vec::new())).unwrap_err();
    assert_eq!(
        err,
        AttachError::StatusPaneMismatch { surface: "pane-2".to_owned(), status: "pane-1".to_owned() }
    );
    assert_eq!(
        err.to_string(),
        "attach surface pane_id pane-2 does not match attach status pane_id pane-1"
    );
    let other = AttachStatusSummary { surface_state: AttachSurfaceState::Other(9), ..status };
    assert_eq!(
        validate_attach_surface_update(&other, &snapshot("pane-1", 1, Vec::new()))
            .unwrap_err()
            .to_string(),
        "attach status <UNKNOWN 9> does not match surface update Snapshot"
    );
}

fn chunk(version: u64, start_line: u64, lines: usize) -> ScrollbackChunkSummary {
    ScrollbackChunkSummary {
        pane_id: "pane-1".to_owned(),
        scrollback_version: version,
        start_line,
        total_lines: 100,
        styles: default_style_summaries(),
        hyperlinks: Vec::new(),
        colors: TerminalColorSummary::default(),
        lines: (0..lines)
            .map(|i| ScrollbackLine {
                line: start_line + i as u64,
                text: "x".to_owned(),
                runs: vec![CellRunSummary::plain("x")],
                dirty_hash: 0,
                row_state_hash: 0,
                semantic_prompt: RowSemanticPrompt::Unmarked,
                dirty: false,
                kitty_virtual_placeholder: false,
            })
            .collect(),
    }
}

#[test]
fn a_cached_chunk_is_what_a_lookup_of_its_range_finds() {
    let mut state = ClientAttachState::default();
    state.cache_scrollback_chunk(&chunk(3, 10, 4));
    state.cache_scrollback_chunk(&chunk(5, 20, 1));
    assert_eq!(state.cached_scrollback_version("pane-1", 10, 4), Some(3));
    state.cache_scrollback_chunk(&chunk(8, 10, 4));
    assert_eq!(state.cached_scrollback_version("pane-1", 10, 4), Some(8));
    assert_eq!(state.cached_scrollback_version("pane-1", 20, 1), Some(5));
    assert_eq!(state.cached_scrollback_version("pane-1", 10, 3), None);
    assert_eq!(state.scrollbacks.len(), 2);
    let scope = SocketIdentity { dev: 1, ino: 2, ctime: 3, ctime_nsec: 4 };
    assert_eq!(state.cached_scrollback_version_for_scope(Some(scope), "pane-1", 10, 4), None);
    assert_eq!(state.cached_scrollback_version_for_scope(None, "pane-1", 10, 4), Some(8));
    let known = state.known_scrollback_versions_for_scope(None);
    assert_eq!(known.len(), 2);
    assert_eq!((known[0].start_line, known[0].line_count, known[0].version), (10, 4, 8));
    assert!(state.known_scrollback_versions_for_scope(Some(scope)).is_empty());
}

#[test]
fn encoding_then_decoding_gives_the_cache_back() {
    let mut state = ClientAttachState::default();
    state.apply_scope(Some(SocketIdentity { dev: 1, ino: 2, ctime: -3, ctime_nsec: 4 }));
    let mut first = snapshot("pane-é", 1, vec![row(0, "héllo wörld"), row(1, "")]);
    first.title = "tïtle".to_owned();
    first.styles = vec![
        StyleSummary { fg_rgba: 0, bg_rgba: 0, underline_rgba: 0, flags: 0 },
        StyleSummary { fg_rgba: 1, bg_rgba: 2, underline_rgba: 3, flags: 4 },
    ];
    first.hyperlinks = vec![HyperlinkSummary {
        id: 5,
        uri: "https://x.test".to_owned(),
        osc8_id: "a b".to_owned(),
        params: String::new(),
    }];
    first.colors = Some(TerminalColorSummary {
        default_fg_rgba: 1,
        default_bg_rgba: 2,
        cursor_rgba: 3,
        cursor_rgba_set: true,
        palette_rgba: vec![0xdeadbeef, 7],
        palette_diff_start: None,
        palette_diff_rgba: Vec::new(),
    });
    state.render_surface_update(&first).expect("snapshot");
    state.cache_scrollback_chunk(&chunk(9, 1, 2));
    assert!(state.is_encodable());
    let text = state.encode();
    assert!(text.starts_with("NMUX_CLIENT_STATE 8\nscope socket 1 2 -3 4\nscrollback "));
    assert!(text.ends_with("end\n"));
    let decoded = ClientAttachState::decode(&text).expect("decode");
    assert_eq!(decoded, state);
}

#[test]
fn decoding_normalizes_runs_that_do_not_spell_their_row() {
    let decoded = ClientAttachState::decode(
        "NMUX_CLIENT_STATE 8\nsurface 70 1 5 1 0\nrow 0 6162\nrun 0 78 01 0 0 0 0\nend\n",
    )
    .expect("decode");
    assert_eq!(decoded.surfaces[0].row_runs[0], vec![CellRunSummary::plain("ab")]);
}

#[test]
fn decode_errors_name_the_bad_line() {
    let err = |text: &str| ClientAttachState::decode(text).unwrap_err();
    assert_eq!(err(""), StateError::InvalidHeader);
    assert_eq!(err("NMUX_CLIENT_STATE 9\n").to_string(), "invalid nmux client state header");
    assert_eq!(err("NMUX_CLIENT_STATE 8\nbogus\n"), StateError::InvalidSurfaceLine);
    assert_eq!(
        err("NMUX_CLIENT_STATE 8\nsurface 70 1 5 1\n").to_string(),
        "unterminated nmux client state surface"
    );
    assert_eq!(err("NMUX_CLIENT_STATE 8\nsurface 70 1 5 1\nbogus\nend\n"), StateError::InvalidBodyLine);
    assert_eq!(
        err("NMUX_CLIENT_STATE 8\nsurface 70 1 5 1\nrow 1 61\nend\n"),
        StateError::RowOutsideSurface
    );
    assert_eq!(
        err("NMUX_CLIENT_STATE 8\nsurface 70 1 5 1\nrowmeta 1 0\nend\n"),
        StateError::RowMetaOutsideSurface
    );
    assert_eq!(
        err("NMUX_CLIENT_STATE 8\nsurface 70 1 5 1\nrun 1 61 01 0 0 0 0\nend\n"),
        StateError::RunOutsideSurface
    );
    assert_eq!(err("NMUX_CLIENT_STATE 8\nsurface 70 x 5 1\nend\n"), StateError::InvalidNumber);
    assert_eq!(
        err("NMUX_CLIENT_STATE 8\nsurface 70 1 5 1\ncursor 0 0 2 0 1\nend\n"),
        StateError::InvalidBool
    );
    assert_eq!(err("NMUX_CLIENT_STATE 8\nsurface 7g 1 5 1\nend\n"), StateError::InvalidHex);
    assert_eq!(err("NMUX_CLIENT_STATE 8\nsurface ff 1 5 1\nend\n"), StateError::InvalidUtf8);
    assert_eq!(
        err("NMUX_CLIENT_STATE 8\nsurface 70 1 5 1\ncolors 0 0 0 0 010203\nend\n"),
        StateError::InvalidPalette
    );
}

#[test]
fn styles_render_as_sgr_parameters() {
    let style = StyleSummary { fg_rgba: 0x0a0b0cff, bg_rgba: 0, underline_rgba: 0, flags: 1 | 2 };
    assert_eq!(style_to_sgr(&style), "\x1b[1;3;38;2;10;11;12m");
    let plain = StyleSummary { fg_rgba: 0, bg_rgba: 0, underline_rgba: 0, flags: 0 };
    assert_eq!(style_to_sgr(&plain), "");
    let curly = StyleSummary { flags: 1 << 10, ..plain };
    assert_eq!(style_to_sgr(&curly), "\x1b[4m");
    let double = StyleSummary { flags: 1 << 9, ..plain };
    assert_eq!(style_to_sgr(&double), "\x1b[21m");
    let undefined = StyleSummary { flags: 0x2000 | 0x4000, underline_rgba: 0xffffffff, ..plain };
    assert_eq!(style_to_sgr(&undefined), "");

    let mut two_defaults = snapshot("pane-1", 1, vec![row(0, "x")]);
    two_defaults.styles = vec![plain, plain];
    let surface = ClientPaneSurface::from_snapshot(&two_defaults).expect("snapshot");
    assert!(!surface.has_styled_runs());
    assert_eq!(surface.render_styled_text(), "x");
    let defaulted = ClientPaneSurface::from_snapshot(&snapshot("pane-1", 1, vec![row(0, "x")]))
        .expect("snapshot");
    assert!(!defaulted.has_styled_runs());
    let mut later = two_defaults.clone();
    later.styles.push(StyleSummary { flags: 1, ..plain });
    assert!(ClientPaneSurface::from_snapshot(&later).expect("snapshot").has_styled_runs());
}

#[test]
fn runs_are_kept_only_where_they_spell_their_row() {
    let runs = vec![CellRunSummary::plain("ab"), CellRunSummary::plain("c")];
    assert_eq!(render_run_summaries(&runs), "abc");
    let fixed = row_runs_for_text(
        &vec!["abc".to_owned(), "zz".to_owned(), "q".to_owned()],
        vec![runs.clone(), vec![CellRunSummary::plain("z")], Vec::new()],
    );
    assert_eq!(fixed[0], runs);
    assert_eq!(fixed[1], vec![CellRunSummary::plain("zz")]);
    assert_eq!(fixed[2], vec![CellRunSummary::plain("q")]);
    let plain = CellRunSummary::plain("éa");
    assert_eq!(plain.cell_widths, vec![1, 1]);
    assert_eq!(plain.semantic_content, CellSemanticContent::Output);
}

#[test]
fn metadata_replaces_control_characters() {
    assert_eq!(sanitized_metadata_value("a\tb\u{7f}c\u{9b}\n"), "a\tb\u{fffd}c\u{fffd}\u{fffd}");
    let empty = TerminalMetadataSummary::default();
    assert!(empty.is_empty());
    assert!(empty.display_lines().is_empty());
    let only_dir = TerminalMetadataSummary { title: String::new(), working_directory: "/x".to_owned() };
    assert_eq!(only_dir.display_lines(), vec!["working-directory=/x".to_owned()]);
}

#[test]
fn caching_never_holds_a_range_twice() {
    let mut state = ClientAttachState::default();
    for version in 1..4 {
        state.cache_scrollback_chunk(&chunk(version, 10, 4));
        state.cache_scrollback_chunk(&chunk(version, 20, 4));
    }
    assert_eq!(state.scrollbacks.len(), 2);
    assert_eq!(state.cached_scrollback_version("pane-1", 10, 4), Some(3));
    let scope_missing = ClientAttachState::default()
        .render_attach(lib::client_state::AttachSnapshot {
            workspace: lib::protocol::WorkspaceSummary {
                session_id: "s".to_owned(),
                tab_id: "t".to_owned(),
                pane_id: "pane-9".to_owned(),
                cols: 1,
                rows: 1,
                resize_policy: lib::kinds::ResizePolicy::Fixed,
                pane_tree: None,
            },
            presence: lib::protocol::PresenceSummary {
                actor_id: "a".to_owned(),
                user_id: "u".to_owned(),
                display_name: "d".to_owned(),
                mode: lib::kinds::AttachMode::ReadOnly,
                focused_pane_id: None,
            },
            status: AttachStatusSummary {
                pane_id: "pane-9".to_owned(),
                surface_version: 4,
                surface_state: AttachSurfaceState::Current,
            },
            surface: None,
            scrollback: None,
        })
        .unwrap_err();
    assert_eq!(scope_missing, AttachError::NoCachedSurface("pane-9".to_owned()));
    assert_eq!(scope_missing.to_string(), "current attach has no cached surface for pane pane-9");
}

#[test]
fn hyperlink_table_refusal_names_the_first_bad_entry() {
    let entry = |id: u32, uri: &str| HyperlinkSummary {
        id,
        uri: uri.to_owned(),
        osc8_id: String::new(),
        params: String::new(),
    };
    let table = vec![entry(1, "https://a.test"), entry(2, ""), entry(0, "https://b.test"), entry(1, "https://c.test")];
    assert_eq!(validate_hyperlink_table(&table), Err(SurfaceError::HyperlinkMissingUri(2)));
    let table = vec![entry(1, "https://a.test"), entry(1, "https://c.test"), entry(0, "https://b.test")];
    assert_eq!(validate_hyperlink_table(&table), Err(SurfaceError::DuplicateHyperlinkId(1)));
    let table = vec![entry(0, ""), entry(1, "")];
    assert_eq!(validate_hyperlink_table(&table), Err(SurfaceError::ReservedHyperlinkId));
}
