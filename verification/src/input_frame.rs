//! Client input assembled from the parts of an input frame: the payload of
//! the input's kind, checked, and the pane and actor it is for.
use vstd::prelude::*;
use vstd::utf8::*;

use crate::kinds::{MouseAction, MouseButton};
use crate::protocol::{validate_input_modifiers, InputSummary, MouseSummary, INPUT_MODIFIER_MASK};
use crate::text::{push_str, string_from_utf8_lossy, utf8_bytes, utf8_lossy};

verus! {

/// The kinds of input a client sends.
#[derive(Clone, Copy, Debug, PartialEq, Eq, Structural)]
pub enum InputKind {
    Key,
    RawBytes,
    Paste,
    Focus,
    Mouse,
}

/// The payload of an input frame, as its kind names it.
#[derive(Clone, Debug, PartialEq, Eq)]
pub enum InputPayload {
    /// Typed text, or a named key, with modifier bits.
    Key { text: String, key_name: Option<String>, modifiers: u32 },
    RawBytes(Vec<u8>),
    Paste(String),
    Focus(bool),
    /// A mouse event with its button and action codes, and pixel
    /// coordinates when the frame has them.
    Mouse {
        row: u32,
        col: u32,
        pixels: Option<(u32, u32)>,
        button: u8,
        action: u8,
        modifiers: u32,
    },
    /// The frame names a kind but holds no payload for it.
    Missing(InputKind),
    /// The frame names a kind of input that is not handled.
    Unexpected(u8),
}

/// Which named field of an input frame is refused.
#[derive(Clone, Copy, Debug, PartialEq, Eq, Structural)]
pub enum InputField {
    PaneId,
    ActorId,
}

/// Why the parts of an input frame make no input.
#[derive(Clone, Copy, Debug, PartialEq, Eq, Structural)]
pub enum InputError {
    MissingPayload(InputKind),
    UnexpectedKind(u8),
    UnsupportedModifiers(u32),
    UnknownMouseButton(u8),
    UnknownMouseAction(u8),
    MissingField(InputField),
    EmptyField(InputField),
}

/// What an input holds apart from its pane, actor and sequence number.
pub struct InputParts {
    pub bytes: Seq<u8>,
    pub paste_text: Option<Seq<char>>,
    pub key_name: Option<Seq<char>>,
    pub key_modifiers: u32,
    pub mouse: Option<MouseSummary>,
    pub requires_focus_reporting: bool,
    pub requires_mouse_tracking: bool,
}

pub open spec fn no_parts(bytes: Seq<u8>) -> InputParts {
    InputParts {
        bytes,
        paste_text: None,
        key_name: None,
        key_modifiers: 0,
        mouse: None,
        requires_focus_reporting: false,
        requires_mouse_tracking: false,
    }
}

pub open spec fn modifiers_ok(modifiers: u32) -> bool {
    modifiers & !INPUT_MODIFIER_MASK == 0
}

/// The focus-in and focus-out reports, `ESC [ I` and `ESC [ O`.
pub open spec fn focus_bytes(focused: bool) -> Seq<u8> {
    if focused {
        seq![0x1bu8, 0x5bu8, 0x49u8]
    } else {
        seq![0x1bu8, 0x5bu8, 0x4fu8]
    }
}

/// What a payload holds: a key's modifiers, a mouse event's button, action
/// and modifiers are checked in that order.
pub open spec fn payload_parts(p: InputPayload) -> Result<InputParts, InputError> {
    match p {
        InputPayload::Key { text, key_name, modifiers } => if !modifiers_ok(modifiers) {
            Err(InputError::UnsupportedModifiers(modifiers))
        } else {
            Ok(
                InputParts {
                    key_name: match key_name {
                        Some(k) => Some(k@),
                        None => None,
                    },
                    key_modifiers: modifiers,
                    ..no_parts(encode_utf8(text@))
                },
            )
        },
        InputPayload::RawBytes(bytes) => Ok(no_parts(bytes@)),
        InputPayload::Paste(text) => Ok(
            InputParts { paste_text: Some(text@), ..no_parts(encode_utf8(text@)) },
        ),
        InputPayload::Focus(focused) => Ok(
            InputParts { requires_focus_reporting: true, ..no_parts(focus_bytes(focused)) },
        ),
        InputPayload::Mouse { row, col, pixels, button, action, modifiers } => match MouseButton::spec_from_code(
            button,
        ) {
            None => Err(InputError::UnknownMouseButton(button)),
            Some(b) => match MouseAction::spec_from_code(action) {
                None => Err(InputError::UnknownMouseAction(action)),
                Some(a) => if !modifiers_ok(modifiers) {
                    Err(InputError::UnsupportedModifiers(modifiers))
                } else {
                    Ok(
                        InputParts {
                            mouse: Some(
                                MouseSummary {
                                    row,
                                    col,
                                    pixel_x: match pixels {
                                        Some(p) => Some(p.0),
                                        None => None,
                                    },
                                    pixel_y: match pixels {
                                        Some(p) => Some(p.1),
                                        None => None,
                                    },
                                    button: b,
                                    action: a,
                                    modifiers,
                                },
                            ),
                            requires_mouse_tracking: true,
                            ..no_parts(Seq::empty())
                        },
                    )
                },
            },
        },
        InputPayload::Missing(kind) => Err(InputError::MissingPayload(kind)),
        InputPayload::Unexpected(code) => Err(InputError::UnexpectedKind(code)),
    }
}

/// A named field that must be present and not empty.
pub open spec fn field_check(field: InputField, value: Option<&str>) -> Result<(), InputError> {
    match value {
        None => Err(InputError::MissingField(field)),
        Some(v) => if v@.len() == 0 {
            Err(InputError::EmptyField(field))
        } else {
            Ok(())
        },
    }
}

/// The input an input frame's parts make, or why they make none: the
/// payload first, then the pane id, then the actor id.
pub open spec fn input_check(
    pane_id: Option<&str>,
    actor_id: Option<&str>,
    payload: InputPayload,
) -> Result<InputParts, InputError> {
    match payload_parts(payload) {
        Err(e) => Err(e),
        Ok(parts) => match field_check(InputField::PaneId, pane_id) {
            Err(e) => Err(e),
            Ok(()) => match field_check(InputField::ActorId, actor_id) {
                Err(e) => Err(e),
                Ok(()) => Ok(parts),
            },
        },
    }
}

/// A focus input reports focus in as `ESC [ I` and focus out as `ESC [ O`,
/// so gaining and losing focus are never reported alike, and it needs the
/// pane to have asked for focus reports. It is refused only for a missing
/// or empty pane or actor id.
pub proof fn lemma_focus_reports(pane_id: Option<&str>, actor_id: Option<&str>, focused: bool)
    ensures
        input_check(pane_id, actor_id, InputPayload::Focus(focused)) matches Ok(p) ==> {
            &&& p.bytes == if focused {
                seq![0x1bu8, 0x5bu8, 0x49u8]
            } else {
                seq![0x1bu8, 0x5bu8, 0x4fu8]
            }
            &&& p.requires_focus_reporting
            &&& !p.requires_mouse_tracking
            &&& p.paste_text is None
            &&& p.key_name is None
            &&& p.mouse is None
        },
        (pane_id matches Some(p) && p@.len() > 0) && (actor_id matches Some(a) && a@.len() > 0)
            ==> input_check(pane_id, actor_id, InputPayload::Focus(focused)) is Ok,
        input_check(pane_id, actor_id, InputPayload::Focus(true)) matches Ok(gained) ==> (input_check(
            pane_id,
            actor_id,
            InputPayload::Focus(false),
        ) matches Ok(lost) && gained.bytes != lost.bytes),
{
    let gained = focus_bytes(true);
    let lost = focus_bytes(false);
    assert(gained[2] != lost[2]);
}

/// An input summary holds the parts, for the pane and actor named, with its
/// text the lossy decoding of its bytes.
pub open spec fn holds(s: InputSummary, pane_id: Seq<char>, actor_id: Seq<char>, input_seq: u64, parts: InputParts) -> bool {
    &&& s.pane_id@ == pane_id
    &&& s.actor_id@ == actor_id
    &&& s.input_seq == input_seq
    &&& s.bytes@ == parts.bytes
    &&& s.text@ == utf8_lossy(parts.bytes)
    &&& s.paste_text.is_some() == parts.paste_text.is_some()
    &&& (s.paste_text matches Some(t) ==> parts.paste_text == Some(t@))
    &&& s.key_name.is_some() == parts.key_name.is_some()
    &&& (s.key_name matches Some(k) ==> parts.key_name == Some(k@))
    &&& s.key_modifiers == parts.key_modifiers
    &&& s.mouse == parts.mouse
    &&& s.requires_focus_reporting == parts.requires_focus_reporting
    &&& s.requires_mouse_tracking == parts.requires_mouse_tracking
}

fn required_field(field: InputField, value: Option<&str>) -> (checked: Result<String, InputError>)
    ensures
        match checked {
            Ok(s) => field_check(field, value) == Ok::<(), InputError>(()) && value is Some
                && s@ == value->Some_0@,
            Err(e) => field_check(field, value) == Err::<(), InputError>(e),
        },
{
    match value {
        None => Err(InputError::MissingField(field)),
        Some(v) => {
            if v.is_empty() {
                Err(InputError::EmptyField(field))
            } else {
                Ok(String::from_str(v))
            }
        },
    }
}

/// The input an input frame's parts make: its payload checked, then its
/// pane and actor.
pub fn input_summary_from_parts(
    pane_id: Option<&str>,
    actor_id: Option<&str>,
    input_seq: u64,
    payload: InputPayload,
) -> (summary: Result<InputSummary, InputError>)
    ensures
        match input_check(pane_id, actor_id, payload) {
            Err(e) => summary == Err::<InputSummary, InputError>(e),
            Ok(parts) => summary matches Ok(s) && holds(
                s,
                pane_id->Some_0@,
                actor_id->Some_0@,
                input_seq,
                parts,
            ),
        },
        payload == InputPayload::Focus(true) && summary is Ok ==> summary->Ok_0.bytes@ == seq![
            0x1bu8,
            0x5bu8,
            0x49u8,
        ],
        payload == InputPayload::Focus(false) && summary is Ok ==> summary->Ok_0.bytes@ == seq![
            0x1bu8,
            0x5bu8,
            0x4fu8,
        ],
        payload is Focus && summary is Ok ==> summary->Ok_0.requires_focus_reporting,
        payload is Key && summary is Ok ==> summary->Ok_0.bytes@ == encode_utf8(payload->Key_text@)
            && summary->Ok_0.key_modifiers == payload->Key_modifiers && summary->Ok_0.paste_text is None
            && summary->Ok_0.mouse is None && summary->Ok_0.key_name.is_some()
            == payload->Key_key_name.is_some() && (summary->Ok_0.key_name matches Some(n) ==> n@
            == payload->Key_key_name->Some_0@),
        payload is RawBytes && summary is Ok ==> summary->Ok_0.bytes@ == payload->RawBytes_0@
            && summary->Ok_0.paste_text is None && summary->Ok_0.key_name is None
            && summary->Ok_0.mouse is None,
        payload is Paste && summary is Ok ==> summary->Ok_0.bytes@ == encode_utf8(payload->Paste_0@)
            && summary->Ok_0.paste_text is Some && summary->Ok_0.paste_text->Some_0@
            == payload->Paste_0@,
        payload is Mouse && summary is Ok ==> summary->Ok_0.mouse is Some
            && summary->Ok_0.mouse->Some_0.row == payload->Mouse_row && summary->Ok_0.mouse->Some_0.col
            == payload->Mouse_col && summary->Ok_0.mouse->Some_0.modifiers == payload->Mouse_modifiers
            && summary->Ok_0.bytes@.len() == 0 && summary->Ok_0.requires_mouse_tracking,
        summary matches Ok(s) ==> s.input_seq == input_seq && (pane_id matches Some(p) && s.pane_id@
            == p@) && (actor_id matches Some(a) && s.actor_id@ == a@),
{
    let (bytes, paste_text, key_name, key_modifiers, mouse, focus, tracking) = match payload {
        InputPayload::Key { text, key_name, modifiers } => {
            if let Err(e) = validate_input_modifiers(modifiers) {
                return Err(e);
            }
            (utf8_bytes(text.as_str()), None, key_name, modifiers, None, false, false)
        },
        InputPayload::RawBytes(bytes) => (bytes, None, None, 0, None, false, false),
        InputPayload::Paste(text) => {
            let bytes = utf8_bytes(text.as_str());
            (bytes, Some(text), None, 0, None, false, false)
        },
        InputPayload::Focus(focused) => {
            let bytes = if focused {
                vec![0x1bu8, 0x5bu8, 0x49u8]
            } else {
                vec![0x1bu8, 0x5bu8, 0x4fu8]
            };
            assert(bytes@ =~= focus_bytes(focused));
            (bytes, None, None, 0, None, true, false)
        },
        InputPayload::Mouse { row, col, pixels, button, action, modifiers } => {
            let b = match MouseButton::from_code(button) {
                Some(b) => b,
                None => {
                    return Err(InputError::UnknownMouseButton(button));
                },
            };
            let a = match MouseAction::from_code(action) {
                Some(a) => a,
                None => {
                    return Err(InputError::UnknownMouseAction(action));
                },
            };
            if let Err(e) = validate_input_modifiers(modifiers) {
                return Err(e);
            }
            let (pixel_x, pixel_y) = match pixels {
                Some((x, y)) => (Some(x), Some(y)),
                None => (None, None),
            };
            let mouse = MouseSummary { row, col, pixel_x, pixel_y, button: b, action: a, modifiers };
            let bytes: Vec<u8> = Vec::new();
            assert(bytes@ =~= Seq::<u8>::empty());
            (bytes, None, None, 0, Some(mouse), false, true)
        },
        InputPayload::Missing(kind) => {
            return Err(InputError::MissingPayload(kind));
        },
        InputPayload::Unexpected(code) => {
            return Err(InputError::UnexpectedKind(code));
        },
    };
    let pane = match required_field(InputField::PaneId, pane_id) {
        Ok(p) => p,
        Err(e) => {
            return Err(e);
        },
    };
    let actor = match required_field(InputField::ActorId, actor_id) {
        Ok(a) => a,
        Err(e) => {
            return Err(e);
        },
    };
    let text = string_from_utf8_lossy(bytes.as_slice());
    Ok(
        InputSummary {
            pane_id: pane,
            actor_id: actor,
            input_seq,
            text,
            bytes,
            paste_text,
            key_name,
            key_modifiers,
            mouse,
            requires_focus_reporting: focus,
            requires_mouse_tracking: tracking,
        },
    )
}

/// The lower-case hexadecimal spelling of a number, without leading zeros.
pub open spec fn hex_number(n: nat) -> Seq<char>
    decreases n,
{
    if n < 16 {
        seq![hex_digit(n as int)]
    } else {
        hex_number(n / 16).push(hex_digit((n % 16) as int))
    }
}

pub open spec fn hex_digit(d: int) -> char {
    if d < 10 {
        (d + 48) as char
    } else {
        (d + 87) as char
    }
}

fn push_hex_number(s: &mut String, n: u32)
    ensures
        final(s)@ == old(s)@ + hex_number(n as nat),
    decreases n,
{
    if n >= 16 {
        push_hex_number(s, n / 16);
    }
    let d: u8 = (n % 16) as u8;
    let c: char = if d < 10 {
        (48u8 + d) as char
    } else {
        (87u8 + d) as char
    };
    assert(c == hex_digit((n % 16) as int));
    crate::text::push_char(s, c);
    proof {
        if n >= 16 {
            assert(hex_number(n as nat) == hex_number((n / 16) as nat).push(hex_digit((n % 16) as int)));
        } else {
            assert(hex_number(n as nat) =~= seq![hex_digit((n % 16) as int)]);
        }
    }
}

pub open spec fn kind_word(kind: InputKind) -> Seq<char> {
    match kind {
        InputKind::Key => "key"@,
        InputKind::RawBytes => "raw"@,
        InputKind::Paste => "paste"@,
        InputKind::Focus => "focus"@,
        InputKind::Mouse => "mouse"@,
    }
}

pub open spec fn field_name(field: InputField) -> Seq<char> {
    match field {
        InputField::PaneId => "input pane_id"@,
        InputField::ActorId => "input actor_id"@,
    }
}

/// The text of a refused input frame.
pub open spec fn input_error_text(e: InputError) -> Seq<char> {
    match e {
        InputError::MissingPayload(kind) => "missing "@ + kind_word(kind) + " input"@,
        InputError::UnexpectedKind(code) => "unexpected input kind: "@ + crate::text::decimal(
            code as nat,
        ),
        InputError::UnsupportedModifiers(m) => "unsupported input modifier bits 0x"@ + hex_number(
            m as nat,
        ),
        InputError::UnknownMouseButton(code) => "unknown mouse button "@ + crate::text::decimal(
            code as nat,
        ),
        InputError::UnknownMouseAction(code) => "unknown mouse action "@ + crate::text::decimal(
            code as nat,
        ),
        InputError::MissingField(field) => "missing "@ + field_name(field),
        InputError::EmptyField(field) => "empty "@ + field_name(field),
    }
}

impl InputError {
    /// The error's text.
    pub fn to_string(&self) -> (text: String)
        ensures
            text@ == input_error_text(*self),
    {
        let mut text = String::new();
        match *self {
            InputError::MissingPayload(kind) => {
                push_str(&mut text, "missing ");
                match kind {
                    InputKind::Key => push_str(&mut text, "key"),
                    InputKind::RawBytes => push_str(&mut text, "raw"),
                    InputKind::Paste => push_str(&mut text, "paste"),
                    InputKind::Focus => push_str(&mut text, "focus"),
                    InputKind::Mouse => push_str(&mut text, "mouse"),
                }
                push_str(&mut text, " input");
            },
            InputError::UnexpectedKind(code) => {
                push_str(&mut text, "unexpected input kind: ");
                crate::text::push_decimal(&mut text, code as u64);
            },
            InputError::UnsupportedModifiers(m) => {
                push_str(&mut text, "unsupported input modifier bits 0x");
                push_hex_number(&mut text, m);
            },
            InputError::UnknownMouseButton(code) => {
                push_str(&mut text, "unknown mouse button ");
                crate::text::push_decimal(&mut text, code as u64);
            },
            InputError::UnknownMouseAction(code) => {
                push_str(&mut text, "unknown mouse action ");
                crate::text::push_decimal(&mut text, code as u64);
            },
            InputError::MissingField(field) => {
                push_str(&mut text, "missing ");
                match field {
                    InputField::PaneId => push_str(&mut text, "input pane_id"),
                    InputField::ActorId => push_str(&mut text, "input actor_id"),
                }
            },
            InputError::EmptyField(field) => {
                push_str(&mut text, "empty ");
                match field {
                    InputField::PaneId => push_str(&mut text, "input pane_id"),
                    InputField::ActorId => push_str(&mut text, "input actor_id"),
                }
            },
        }
        assert(text@ =~= input_error_text(*self));
        text
    }
}

} // verus!
