use lib::attach_request::{tail_window_start, AttachInput, AttachMouseInput, AttachOptions, AttachRequest};
use lib::client_state::{KnownScrollbackVersion, KnownSurfaceVersion};
use lib::input_frame::InputError;
use lib::kinds::{AttachMode, AttachSurfaceState, ErrorCode, MouseAction, MouseButton, MouseTrackingMode, PatchKind, ResizePolicy};
use lib::protocol::{
    attach_surface_state, mouse_input_allowed, optional_io_string, optional_string,
    paste_input_bytes, required_io_string, required_string, resize_policy_label, scrollback_fetch_error_code,
    surface_response_for_known_version, validate_input_modifiers, validate_scrollback_chunk_start_line,
    validate_scrollback_fetch_range, validate_scrollback_row_line,
    validate_scrollback_row_public_range, BracketedPasteMode, ClientFrameSequence, ErrorSummary,
    ForwardedInput, InputRejection, InputSummary, MouseSummary, PaneInputState, PaneSize,
    PasteError, ScrollbackError, ServerError, SurfaceResponse, WorkspaceSummary,
};
use lib::protocol::{socket_closed_error, SocketErrorKind};

#[test]
fn mouse_input_forwarding_uses_daemon_owned_tracking_mode() {
    let press = MouseSummary {
        row: 0,
        col: 0,
        pixel_x: None,
        pixel_y: None,
        button: MouseButton::Left,
        action: MouseAction::Press,
        modifiers: 0,
    };
    let release = MouseSummary { action: MouseAction::Release, ..press };
    let button_motion = MouseSummary { action: MouseAction::Motion, ..press };
    let any_motion = MouseSummary { button: MouseButton::NoButton, action: MouseAction::Motion, ..press };

    assert!(!mouse_input_allowed(MouseTrackingMode::Off, press));
    assert!(mouse_input_allowed(MouseTrackingMode::X10, press));
    assert!(!mouse_input_allowed(MouseTrackingMode::X10, release));
    assert!(mouse_input_allowed(MouseTrackingMode::Normal, press));
    assert!(mouse_input_allowed(MouseTrackingMode::Normal, release));
    assert!(!mouse_input_allowed(MouseTrackingMode::Normal, button_motion));
    assert!(mouse_input_allowed(MouseTrackingMode::Button, button_motion));
    assert!(!mouse_input_allowed(MouseTrackingMode::Button, any_motion));
    assert!(mouse_input_allowed(MouseTrackingMode::Any, any_motion));
}

fn input(mouse: Option<MouseSummary>) -> InputSummary {
    InputSummary {
        pane_id: "pane-1".to_owned(),
        actor_id: "actor-1".to_owned(),
        input_seq: 2,
        text: String::new(),
        bytes: b"raw".to_vec(),
        paste_text: None,
        key_name: None,
        key_modifiers: 0,
        mouse,
        requires_focus_reporting: false,
        requires_mouse_tracking: mouse.is_some(),
    }
}

fn mouse_at(row: u32, col: u32, action: MouseAction) -> MouseSummary {
    MouseSummary {
        row,
        col,
        pixel_x: None,
        pixel_y: None,
        button: MouseButton::Left,
        action,
        modifiers: 0,
    }
}

fn pane(mode: Option<MouseTrackingMode>) -> PaneInputState {
    PaneInputState {
        focus_reporting: false,
        mouse_tracking: mode.is_some(),
        mouse_tracking_mode: mode,
        size: Some(PaneSize { cols: 80, rows: 24 }),
    }
}

#[test]
fn mouse_forwarding_is_refused_outside_pane_or_mode() {
    let inside = input(Some(mouse_at(4, 5, MouseAction::Press)));
    assert_eq!(inside.forwarding_rejection(pane(Some(MouseTrackingMode::Normal))), None);
    assert_eq!(
        inside.forwarding_rejection(pane(None)),
        Some(InputRejection::MouseTrackingDisabled)
    );
    assert_eq!(
        inside.forwarding_rejection(pane(Some(MouseTrackingMode::Off))),
        Some(InputRejection::MouseTrackingDisabled)
    );
    let outside = input(Some(mouse_at(24, 5, MouseAction::Press)));
    assert_eq!(
        outside.forwarding_rejection(pane(Some(MouseTrackingMode::Any))),
        Some(InputRejection::MouseCoordinatesOutOfBounds)
    );
    let release = input(Some(mouse_at(1, 1, MouseAction::Release)));
    let rejection = release.forwarding_rejection(pane(Some(MouseTrackingMode::X10)));
    assert_eq!(rejection, Some(InputRejection::MouseActionRejected(MouseTrackingMode::X10)));
    assert_eq!(
        rejection.unwrap().message(),
        "input rejected: X10 mouse tracking accepts press events only"
    );
    let mut focus = input(None);
    focus.requires_focus_reporting = true;
    assert_eq!(
        focus.forwarding_rejection(pane(None)),
        Some(InputRejection::FocusReportingDisabled)
    );
    assert_eq!(
        InputRejection::FocusReportingDisabled.message(),
        "input rejected: focus reporting is disabled"
    );
}

#[test]
fn paste_input_is_wrapped_only_in_bracketed_mode() {
    assert_eq!(
        paste_input_bytes("hello\n", BracketedPasteMode::from_enabled(false)).unwrap(),
        b"hello\n".to_vec()
    );
    assert_eq!(
        paste_input_bytes("hello\n", BracketedPasteMode::from_enabled(true)).unwrap(),
        b"\x1b[200~hello\n\x1b[201~".to_vec()
    );
    let err = paste_input_bytes("bad\x1b[201~paste", BracketedPasteMode::Disabled).unwrap_err();
    assert_eq!(err, PasteError::ContainsTerminator);
    assert!(err
        .to_string()
        .contains("paste input contains a bracketed paste terminator"));
}

#[test]
fn forwarded_input_prefers_key_then_mouse_then_paste_then_bytes() {
    let mut key = input(None);
    key.key_name = Some("arrow-up".to_owned());
    key.key_modifiers = 2;
    assert_eq!(
        key.forwarded_input(true),
        Ok(ForwardedInput::Key { key_name: "arrow-up".to_owned(), modifiers: 2 })
    );
    let mouse = mouse_at(1, 2, MouseAction::Press);
    assert_eq!(input(Some(mouse)).forwarded_input(false), Ok(ForwardedInput::Mouse(mouse)));
    let mut paste = input(None);
    paste.paste_text = Some("hi".to_owned());
    assert_eq!(
        paste.forwarded_input(true),
        Ok(ForwardedInput::Bytes(b"\x1b[200~hi\x1b[201~".to_vec()))
    );
    assert_eq!(paste.forwarded_input(false), Ok(ForwardedInput::Bytes(b"hi".to_vec())));
    paste.paste_text = Some("x\x1b[201~".to_owned());
    assert_eq!(paste.forwarded_input(true), Err(PasteError::ContainsTerminator));
    assert_eq!(input(None).forwarded_input(true), Ok(ForwardedInput::Bytes(b"raw".to_vec())));
}

#[test]
fn input_modifiers_outside_the_mask_are_refused() {
    assert_eq!(validate_input_modifiers(0x0f), Ok(0x0f));
    assert_eq!(validate_input_modifiers(0), Ok(0));
    let refused = validate_input_modifiers(0x10).unwrap_err();
    assert_eq!(refused, InputError::UnsupportedModifiers(0x10));
    assert!(refused.to_string().contains("unsupported input modifier bits"));
    assert_eq!(refused.to_string(), "unsupported input modifier bits 0x10");
}

#[test]
fn required_and_optional_strings_name_the_field() {
    assert_eq!(required_string(Some("pane-1"), "pane_id"), Ok("pane-1".to_owned()));
    assert_eq!(required_string(None, "pane_id"), Err("missing pane_id".to_owned()));
    assert_eq!(required_string(Some(""), "pane_id"), Err("empty pane_id".to_owned()));
    assert_eq!(optional_string(None, "tab_id"), Ok(None));
    assert_eq!(optional_string(Some(""), "tab_id"), Err("empty tab_id".to_owned()));
    assert_eq!(optional_string(Some("t"), "tab_id"), Ok(Some("t".to_owned())));
}

#[test]
fn io_field_checks_report_invalid_data() {
    assert_eq!(required_io_string(Some("local-actor"), "attach actor_id").unwrap(), "local-actor");
    let missing = required_io_string(None, "attach actor_id").unwrap_err();
    assert_eq!(missing.kind(), std::io::ErrorKind::InvalidData);
    assert_eq!(missing.to_string(), "missing attach actor_id");
    let empty = required_io_string(Some(""), "attach actor_id").unwrap_err();
    assert_eq!(empty.kind(), std::io::ErrorKind::InvalidData);
    assert_eq!(empty.to_string(), "empty attach actor_id");

    assert_eq!(optional_io_string(None, "attach tab_id").unwrap(), None);
    assert_eq!(optional_io_string(Some("tab-1"), "attach tab_id").unwrap(), Some("tab-1".to_owned()));
    let empty = optional_io_string(Some(""), "attach tab_id").unwrap_err();
    assert_eq!(empty.kind(), std::io::ErrorKind::InvalidData);
    assert_eq!(empty.to_string(), "empty attach tab_id");
}

#[test]
fn surface_response_follows_known_version() {
    assert_eq!(surface_response_for_known_version(5, 5, PatchKind::ReplaceRows), None);
    assert_eq!(
        surface_response_for_known_version(5, 4, PatchKind::ReplaceRows),
        Some(SurfaceResponse::Patch { base_version: 4 })
    );
    assert_eq!(
        surface_response_for_known_version(5, 3, PatchKind::ReplaceRows),
        Some(SurfaceResponse::Snapshot)
    );
    assert_eq!(
        surface_response_for_known_version(u64::MAX, u64::MAX - 1, PatchKind::CursorOnly),
        Some(SurfaceResponse::Patch { base_version: u64::MAX - 1 })
    );
    assert_eq!(attach_surface_state(None), AttachSurfaceState::Current);
    assert_eq!(attach_surface_state(Some(SurfaceResponse::Snapshot)), AttachSurfaceState::Snapshot);
    assert_eq!(
        attach_surface_state(Some(SurfaceResponse::Patch { base_version: 1 })),
        AttachSurfaceState::Patch
    );
}

fn request(known: Vec<KnownSurfaceVersion>) -> AttachRequest {
    AttachRequest {
        actor_id: "local-actor".to_owned(),
        user_id: "local-user".to_owned(),
        display_name: "local".to_owned(),
        mode: AttachMode::ReadWrite,
        focused_pane_id: Some("pane-1".to_owned()),
        known_surfaces: known,
    }
}

#[test]
fn attach_request_response_uses_first_announced_version() {
    let req = request(vec![
        KnownSurfaceVersion { pane_id: "pane-1".to_owned(), version: 4 },
        KnownSurfaceVersion { pane_id: "pane-1".to_owned(), version: 5 },
    ]);
    assert_eq!(req.surface_response("pane-1", None, None), None);
    assert_eq!(
        req.surface_response("pane-1", Some(5), None),
        Some(SurfaceResponse::Patch { base_version: 4 })
    );
    assert_eq!(
        req.surface_response("pane-1", Some(5), Some(PatchKind::FullRefreshRequired)),
        Some(SurfaceResponse::Snapshot)
    );
    assert_eq!(req.surface_response("pane-1", Some(4), None), None);
    assert_eq!(req.surface_response("pane-2", Some(1), None), Some(SurfaceResponse::Snapshot));
}

#[test]
fn attach_options_pick_key_names_and_scrollback_versions() {
    let mut options = AttachOptions::default();
    assert_eq!(options.request.actor_id, "local-actor");
    assert_eq!(options.input_text.as_deref(), Some("a"));
    assert_eq!(options.scrollback_start_line, 1);
    assert_eq!(options.scrollback_line_count, 2);
    assert!(options.named_key_names().is_empty());
    options.key_name = Some("enter".to_owned());
    assert_eq!(options.named_key_names(), vec!["enter"]);
    options.key_names = vec!["tab".to_owned(), "escape".to_owned()];
    assert_eq!(options.named_key_names(), vec!["tab", "escape"]);

    options.known_scrollback_version = 9;
    options.known_scrollback_versions = vec![
        KnownScrollbackVersion { pane_id: "pane-1".to_owned(), start_line: 1, line_count: 2, version: 3 },
        KnownScrollbackVersion { pane_id: "pane-1".to_owned(), start_line: 1, line_count: 2, version: 4 },
    ];
    assert_eq!(options.known_scrollback_version_for("pane-1", 1, 2), 3);
    assert_eq!(options.known_scrollback_version_for("pane-1", 1, 3), 9);
    assert_eq!(options.known_scrollback_version_for("pane-2", 1, 2), 9);
}

#[test]
fn scrollback_checks_name_the_bad_field() {
    assert_eq!(scrollback_fetch_error_code(None, 3), None);
    assert_eq!(scrollback_fetch_error_code(Some(4), 0), None);
    assert_eq!(scrollback_fetch_error_code(Some(4), 4), None);
    assert_eq!(scrollback_fetch_error_code(Some(4), 3), Some(ErrorCode::StaleVersion));

    assert_eq!(validate_scrollback_fetch_range(1, 1), Ok(()));
    let err = validate_scrollback_fetch_range(0, 1).unwrap_err();
    assert_eq!(err, ScrollbackError::FetchStartLine);
    assert_eq!(err.to_string(), "scrollback fetch start_line must be 1-based");
    assert_eq!(
        validate_scrollback_fetch_range(1, 0).unwrap_err().to_string(),
        "scrollback fetch line_count must be nonzero"
    );
    assert_eq!(
        validate_scrollback_chunk_start_line(0).unwrap_err().to_string(),
        "scrollback chunk start_line must be 1-based"
    );
    assert_eq!(validate_scrollback_chunk_start_line(1), Ok(()));
    assert_eq!(
        validate_scrollback_row_line(0).unwrap_err().to_string(),
        "scrollback row line must be 1-based"
    );
    assert_eq!(validate_scrollback_row_public_range(4, 9, 1, 5), Ok(()));
    assert_eq!(
        validate_scrollback_row_public_range(4, 9, 1, 6).unwrap_err().to_string(),
        "scrollback row line 6 does not match expected public line 5"
    );
    assert_eq!(
        validate_scrollback_row_public_range(4, 4, 1, 5).unwrap_err().to_string(),
        "scrollback row line 5 exceeds total_lines 4"
    );
    assert_eq!(
        validate_scrollback_row_public_range(u64::MAX, 9, 1, 5),
        Err(ScrollbackError::RowLineOverflow)
    );
}

#[test]
fn frame_sequence_counts_envelopes_and_inputs_apart() {
    let mut sequence = ClientFrameSequence::default();
    assert_eq!(sequence.next_envelope_seq(), 1);
    assert_eq!(sequence.next_envelope_seq(), 2);
    assert_eq!(sequence.next_input_seq(), 1);
    assert_eq!(sequence.next_envelope_seq(), 3);
    assert_eq!(sequence.next_input_seq(), 2);
}

#[test]
fn workspace_and_errors_render_as_lines() {
    let workspace = WorkspaceSummary {
        session_id: "local".to_owned(),
        tab_id: "tab-1".to_owned(),
        pane_id: "pane-1".to_owned(),
        cols: 80,
        rows: 24,
        resize_policy: ResizePolicy::ActiveClient,
        pane_tree: None,
    };
    assert_eq!(
        workspace.display_line(),
        "session=local tab=tab-1 pane=pane-1 size=80x24 resize=active-client"
    );
    assert_eq!(resize_policy_label(ResizePolicy::Other(9)), "unknown");
    let error = ErrorSummary {
        code: ErrorCode::StaleVersion,
        message: "stale".to_owned(),
        retryable: true,
        pane_id: Some("pane-1".to_owned()),
        input_seq: 3,
    };
    assert_eq!(
        error.to_string(),
        "stale (code=StaleVersion, pane_id=pane-1, input_seq=3, retryable=true)"
    );
    let plain = ErrorSummary {
        code: ErrorCode::Other(42),
        message: "odd".to_owned(),
        retryable: false,
        pane_id: None,
        input_seq: 0,
    };
    assert_eq!(plain.to_string(), "odd (code=<UNKNOWN 42>)");
    assert_eq!(
        ServerError { error: plain }.to_string(),
        "server error: odd (code=<UNKNOWN 42>)"
    );
}

#[test]
fn attach_sends_the_first_given_input_when_read_write() {
    let mut options = AttachOptions::default();
    assert_eq!(options.attach_input(), Some(AttachInput::Text("a".to_owned())));
    options.paste_text = Some("p".to_owned());
    assert_eq!(options.attach_input(), Some(AttachInput::Paste("p".to_owned())));
    options.focus = Some(true);
    assert_eq!(options.attach_input(), Some(AttachInput::Focus(true)));
    let mouse = AttachMouseInput {
        row: 1,
        col: 2,
        pixel_x: None,
        pixel_y: None,
        button: MouseButton::Left,
        action: MouseAction::Press,
        modifiers: 0,
    };
    options.mouse = Some(mouse);
    assert_eq!(options.attach_input(), Some(AttachInput::Mouse(mouse)));
    options.key_name = Some("enter".to_owned());
    options.key_modifiers = 1;
    assert_eq!(
        options.attach_input(),
        Some(AttachInput::NamedKeys { names: vec!["enter".to_owned()], modifiers: 1 })
    );
    options.request.mode = AttachMode::ReadOnly;
    assert_eq!(options.attach_input(), None);
    let mut quiet = AttachOptions::default();
    quiet.input_text = None;
    assert_eq!(quiet.attach_input(), None);
}

#[test]
fn a_tail_fetch_starts_at_the_last_lines() {
    assert_eq!(tail_window_start(100, 10), 91);
    assert_eq!(tail_window_start(10, 10), 1);
    assert_eq!(tail_window_start(3, 10), 1);
    assert_eq!(tail_window_start(0, 5), 1);
}

#[test]
fn socket_errors_that_mean_the_peer_went_away() {
    assert!(socket_closed_error(SocketErrorKind::InvalidInput, None));
    assert!(socket_closed_error(SocketErrorKind::UnexpectedEof, None));
    assert!(socket_closed_error(SocketErrorKind::ConnectionReset, Some(104)));
    assert!(socket_closed_error(SocketErrorKind::BrokenPipe, Some(32)));
    assert!(socket_closed_error(SocketErrorKind::Other, Some(22)));
    assert!(!socket_closed_error(SocketErrorKind::Other, Some(13)));
    assert!(!socket_closed_error(SocketErrorKind::Other, None));
}
