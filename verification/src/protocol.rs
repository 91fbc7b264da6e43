use vstd::prelude::*;

use crate::kinds::{
    AttachMode, AttachSurfaceState, ErrorCode, MouseAction, MouseButton, MouseTrackingMode,
    PatchKind, ResizePolicy, RowSemanticPrompt, SplitAxis,
};
use crate::input_frame::InputError;
use crate::text::{decimal, push_decimal, push_str};
use vstd::utf8::encode_utf8;
use crate::surface::{CellRunSummary, HyperlinkSummary, StyleSummary, SurfaceUpdate, TerminalColorSummary};

verus! {

/// The layout a pane holds in its tab: its size and its split children.
#[derive(Debug, PartialEq, Eq)]
pub struct WorkspacePaneSummary {
    pub pane_id: String,
    pub cols: u32,
    pub rows: u32,
    pub resize_policy: ResizePolicy,
    pub split_axis: SplitAxis,
    pub children: Vec<WorkspacePaneSummary>,
}

/// The session, tab and pane an attach lands on.
#[derive(Debug, PartialEq, Eq)]
pub struct WorkspaceSummary {
    pub session_id: String,
    pub tab_id: String,
    pub pane_id: String,
    pub cols: u32,
    pub rows: u32,
    pub resize_policy: ResizePolicy,
    pub pane_tree: Option<WorkspacePaneSummary>,
}

/// Who is attached, and how.
#[derive(Clone, Debug, PartialEq, Eq)]
pub struct PresenceSummary {
    pub actor_id: String,
    pub user_id: String,
    pub display_name: String,
    pub mode: AttachMode,
    pub focused_pane_id: Option<String>,
}

/// The server's answer about the attached pane's surface: whether the
/// client's cached version is current or a snapshot or patch follows.
#[derive(Clone, Debug, PartialEq, Eq)]
pub struct AttachStatusSummary {
    pub pane_id: String,
    pub surface_version: u64,
    pub surface_state: AttachSurfaceState,
}

/// One line of scrollback history, numbered from 1.
#[derive(Clone, Debug, PartialEq, Eq)]
pub struct ScrollbackLine {
    pub line: u64,
    pub text: String,
    pub runs: Vec<CellRunSummary>,
    pub dirty_hash: u64,
    pub row_state_hash: u64,
    pub semantic_prompt: RowSemanticPrompt,
    pub dirty: bool,
    pub kitty_virtual_placeholder: bool,
}

/// A contiguous range of scrollback lines at one scrollback version.
#[derive(Clone, Debug, PartialEq, Eq)]
pub struct ScrollbackChunkSummary {
    pub pane_id: String,
    pub scrollback_version: u64,
    pub start_line: u64,
    pub total_lines: u64,
    pub styles: Vec<StyleSummary>,
    pub hyperlinks: Vec<HyperlinkSummary>,
    pub colors: TerminalColorSummary,
    pub lines: Vec<ScrollbackLine>,
}

/// A request for a range of a pane's scrollback.
#[derive(Clone, Debug, PartialEq, Eq)]
pub struct ScrollbackFetchSummary {
    pub pane_id: String,
    pub actor_id: String,
    pub start_line: u64,
    pub line_count: u32,
    pub known_scrollback_version: u64,
}

// ---------------------------------------------------------------------------
// Sequence numbers of client frames
// ---------------------------------------------------------------------------

/// The next envelope and input sequence numbers a client will send; both
/// start at 1.
#[derive(Clone, Debug, PartialEq, Eq)]
pub struct ClientFrameSequence {
    pub next_envelope_seq: u64,
    pub next_input_seq: u64,
}

impl Default for ClientFrameSequence {
    fn default() -> (seq: ClientFrameSequence)
        ensures
            seq.next_envelope_seq == 1,
            seq.next_input_seq == 1,
    {
        ClientFrameSequence { next_envelope_seq: 1, next_input_seq: 1 }
    }
}

/// The number a call hands out: an envelope number or an input number.
pub open spec fn handed_out(s: ClientFrameSequence, envelope: bool) -> u64 {
    if envelope {
        s.next_envelope_seq
    } else {
        s.next_input_seq
    }
}

/// The sequence after one call: the counter of the call's kind moves on.
pub open spec fn sequence_step(s: ClientFrameSequence, envelope: bool) -> ClientFrameSequence {
    if envelope {
        ClientFrameSequence { next_envelope_seq: (s.next_envelope_seq + 1) as u64, ..s }
    } else {
        ClientFrameSequence { next_input_seq: (s.next_input_seq + 1) as u64, ..s }
    }
}

/// The sequence after a run of calls, `true` for an envelope number and
/// `false` for an input number.
pub open spec fn sequence_after(s: ClientFrameSequence, calls: Seq<bool>) -> ClientFrameSequence
    decreases calls.len(),
{
    if calls.len() == 0 {
        s
    } else {
        sequence_step(sequence_after(s, calls.drop_last()), calls.last())
    }
}

/// How many of the calls are of the given kind.
pub open spec fn calls_of_kind(calls: Seq<bool>, envelope: bool) -> nat
    decreases calls.len(),
{
    if calls.len() == 0 {
        0
    } else {
        calls_of_kind(calls.drop_last(), envelope) + if calls.last() == envelope {
            1nat
        } else {
            0nat
        }
    }
}

proof fn lemma_sequence_after_counts(calls: Seq<bool>)
    requires
        calls.len() < u64::MAX,
    ensures
        sequence_after(ClientFrameSequence { next_envelope_seq: 1, next_input_seq: 1 }, calls).next_envelope_seq
            == 1 + calls_of_kind(calls, true),
        sequence_after(ClientFrameSequence { next_envelope_seq: 1, next_input_seq: 1 }, calls).next_input_seq
            == 1 + calls_of_kind(calls, false),
        calls_of_kind(calls, true) + calls_of_kind(calls, false) == calls.len(),
    decreases calls.len(),
{
    if calls.len() > 0 {
        lemma_sequence_after_counts(calls.drop_last());
    }
}

/// From a fresh sequence, whatever the interleaving, each call hands out
/// one more than the number of earlier calls of its own kind: envelope
/// numbers run 1, 2, 3, ... however many input numbers come between them,
/// and input numbers likewise.
pub proof fn lemma_sequence_numbers_count_their_kind(calls: Seq<bool>)
    requires
        calls.len() < u64::MAX,
    ensures
        forall|k: int|
            0 <= k < calls.len() ==> handed_out(
                sequence_after(
                    ClientFrameSequence { next_envelope_seq: 1, next_input_seq: 1 },
                    #[trigger] calls.take(k),
                ),
                calls[k],
            ) == 1 + calls_of_kind(calls.take(k), calls[k]),
{
    assert forall|k: int| 0 <= k < calls.len() implies handed_out(
        sequence_after(
            ClientFrameSequence { next_envelope_seq: 1, next_input_seq: 1 },
            #[trigger] calls.take(k),
        ),
        calls[k],
    ) == 1 + calls_of_kind(calls.take(k), calls[k]) by {
        lemma_sequence_after_counts(calls.take(k));
    }
}

impl ClientFrameSequence {
    /// Hands out the next envelope sequence number.
    pub fn next_envelope_seq(&mut self) -> (seq: u64)
        requires
            old(self).next_envelope_seq < u64::MAX,
        ensures
            seq == handed_out(*old(self), true),
            *final(self) == sequence_step(*old(self), true),
            final(self).next_envelope_seq == old(self).next_envelope_seq + 1,
            final(self).next_input_seq == old(self).next_input_seq,
    {
        let seq = self.next_envelope_seq;
        self.next_envelope_seq = self.next_envelope_seq + 1;
        seq
    }

    /// Hands out the next input sequence number.
    pub fn next_input_seq(&mut self) -> (seq: u64)
        requires
            old(self).next_input_seq < u64::MAX,
        ensures
            seq == handed_out(*old(self), false),
            *final(self) == sequence_step(*old(self), false),
            final(self).next_input_seq == old(self).next_input_seq + 1,
            final(self).next_envelope_seq == old(self).next_envelope_seq,
    {
        let seq = self.next_input_seq;
        self.next_input_seq = self.next_input_seq + 1;
        seq
    }
}

// ---------------------------------------------------------------------------
// Required and optional strings of a frame
// ---------------------------------------------------------------------------

/// A frame's string that must be present and non-empty; the error names
/// the field.
pub fn required_string(value: Option<&str>, field: &str) -> (checked: Result<String, String>)
    ensures
        match value {
            None => checked matches Err(m) && m@ == "missing "@ + field@,
            Some(v) => if v@.len() == 0 {
                checked matches Err(m) && m@ == "empty "@ + field@
            } else {
                checked matches Ok(s) && s@ == v@
            },
        },
{
    let value = match value {
        Some(v) => v,
        None => {
            let mut message = String::new();
            push_str(&mut message, "missing ");
            push_str(&mut message, field);
            return Err(message);
        },
    };
    if value.is_empty() {
        let mut message = String::new();
        push_str(&mut message, "empty ");
        push_str(&mut message, field);
        return Err(message);
    }
    let mut owned = String::new();
    push_str(&mut owned, value);
    Ok(owned)
}

/// `std::io::Error`, carried through opaque.
#[verifier::external_type_specification]
#[verifier::external_body]
pub struct ExIoError(std::io::Error);

/// `std::io::Error::new` with `std::io::ErrorKind::InvalidData` and the
/// message. Nothing is stated of the error: Verus sees nothing inside an
/// `io::Error`, so its kind and its message are left unsaid here.
#[verifier::external_body]
fn invalid_data_error(message: String) -> (error: std::io::Error) {
    std::io::Error::new(std::io::ErrorKind::InvalidData, message)
}

/// The same check for a frame read as I/O: a missing or empty field is an
/// `InvalidData` error whose message is the one `required_string` gives.
pub fn required_io_string(value: Option<&str>, field: &str) -> (checked: Result<String, std::io::Error>)
    ensures
        match value {
            None => checked is Err,
            Some(v) => if v@.len() == 0 {
                checked is Err
            } else {
                checked matches Ok(s) && s@ == v@
            },
        },
{
    match required_string(value, field) {
        Ok(s) => Ok(s),
        Err(message) => Err(invalid_data_error(message)),
    }
}

/// A frame's string that may be absent but, if present, is not empty.
pub fn optional_string(value: Option<&str>, field: &str) -> (checked: Result<
    Option<String>,
    String,
>)
    ensures
        match value {
            None => checked matches Ok(None),
            Some(v) => if v@.len() == 0 {
                checked matches Err(m) && m@ == "empty "@ + field@
            } else {
                checked matches Ok(Some(s)) && s@ == v@
            },
        },
{
    match value {
        None => Ok(None),
        Some(v) => {
            if v.is_empty() {
                let mut message = String::new();
                push_str(&mut message, "empty ");
                push_str(&mut message, field);
                return Err(message);
            }
            let mut owned = String::new();
            push_str(&mut owned, v);
            Ok(Some(owned))
        },
    }
}

/// The same check for a frame read as I/O: an empty field is an
/// `InvalidData` error whose message is the one `optional_string` gives.
pub fn optional_io_string(value: Option<&str>, field: &str) -> (checked: Result<
    Option<String>,
    std::io::Error,
>)
    ensures
        match value {
            None => checked matches Ok(None),
            Some(v) => if v@.len() == 0 {
                checked is Err
            } else {
                checked matches Ok(Some(s)) && s@ == v@
            },
        },
{
    match optional_string(value, field) {
        Ok(s) => Ok(s),
        Err(message) => Err(invalid_data_error(message)),
    }
}

// ---------------------------------------------------------------------------
// Input
// ---------------------------------------------------------------------------

/// Shift, alt, control and meta; no other modifier bit is defined.
pub const INPUT_MODIFIER_MASK: u32 = 0x0f;

/// Modifiers with a bit outside the defined ones are refused.
pub fn validate_input_modifiers(modifiers: u32) -> (checked: Result<u32, InputError>)
    ensures
        checked == if modifiers & !INPUT_MODIFIER_MASK != 0 {
            Err::<u32, InputError>(InputError::UnsupportedModifiers(modifiers))
        } else {
            Ok::<u32, InputError>(modifiers)
        },
{
    if modifiers & !INPUT_MODIFIER_MASK != 0 {
        return Err(InputError::UnsupportedModifiers(modifiers));
    }
    Ok(modifiers)
}

/// Whether pasted text is wrapped in bracketed-paste markers.
#[derive(Clone, Copy, Debug, PartialEq, Eq, Structural)]
pub enum BracketedPasteMode {
    Disabled,
    Enabled,
}

impl BracketedPasteMode {
    pub fn from_enabled(enabled: bool) -> (mode: BracketedPasteMode)
        ensures
            mode == if enabled {
                BracketedPasteMode::Enabled
            } else {
                BracketedPasteMode::Disabled
            },
    {
        if enabled {
            BracketedPasteMode::Enabled
        } else {
            BracketedPasteMode::Disabled
        }
    }
}

/// The bracketed paste start marker, `ESC [ 200 ~`.
pub open spec fn paste_start() -> Seq<u8> {
    seq![0x1bu8, 0x5bu8, 0x32u8, 0x30u8, 0x30u8, 0x7eu8]
}

/// The bracketed paste end marker, `ESC [ 201 ~`.
pub open spec fn paste_end() -> Seq<u8> {
    seq![0x1bu8, 0x5bu8, 0x32u8, 0x30u8, 0x31u8, 0x7eu8]
}

pub open spec fn paste_end_chars() -> Seq<char> {
    seq!['\x1b', '[', '2', '0', '1', '~']
}

/// Bracketed paste is opened by `ESC [ 200 ~` and closed by `ESC [ 201 ~`,
/// and it is the closing marker that pasted text may not contain.
pub proof fn lemma_paste_markers()
    ensures
        paste_start() == seq![0x1bu8, 0x5bu8, 0x32u8, 0x30u8, 0x30u8, 0x7eu8],
        paste_end() == seq![0x1bu8, 0x5bu8, 0x32u8, 0x30u8, 0x31u8, 0x7eu8],
        paste_end_chars() == seq!['\x1b', '[', '2', '0', '1', '~'],
{
}

pub open spec fn contains_at(text: Seq<char>, part: Seq<char>, i: int) -> bool {
    0 <= i && i + part.len() <= text.len() && text.subrange(i, i + part.len()) == part
}

/// Whether `part` occurs in `text`.
pub open spec fn contains(text: Seq<char>, part: Seq<char>) -> bool {
    exists|i: int| #[trigger] contains_at(text, part, i)
}

/// Pasted text is refused if it holds the end marker, which would end the
/// paste early.
#[derive(Clone, Copy, Debug, PartialEq, Eq, Structural)]
pub enum PasteError {
    ContainsTerminator,
}

pub fn paste_input_bytes(text: &str, mode: BracketedPasteMode) -> (bytes: Result<Vec<u8>, PasteError>)
    ensures
        contains(text@, paste_end_chars()) ==> bytes == Err::<Vec<u8>, PasteError>(
            PasteError::ContainsTerminator,
        ),
        !contains(text@, paste_end_chars()) ==> (bytes matches Ok(b) && b@ == if mode
            == BracketedPasteMode::Disabled {
            encode_utf8(text@)
        } else {
            paste_start() + encode_utf8(text@) + paste_end()
        }),
        contains(text@, seq!['\x1b', '[', '2', '0', '1', '~']) ==> bytes is Err,
        mode == BracketedPasteMode::Disabled && bytes is Ok ==> bytes->Ok_0@ == encode_utf8(text@),
        mode != BracketedPasteMode::Disabled && bytes is Ok ==> bytes->Ok_0@ == seq![
            0x1bu8,
            0x5bu8,
            0x32u8,
            0x30u8,
            0x30u8,
            0x7eu8,
        ] + encode_utf8(text@) + seq![0x1bu8, 0x5bu8, 0x32u8, 0x30u8, 0x31u8, 0x7eu8],
{
    let chars = crate::text::chars_of(text);
    let mut i: usize = 0;
    while chars.len() >= 6 && i <= chars.len() - 6
        invariant
            chars@ == text@,
            i <= chars@.len(),
            chars@.len() >= 6 ==> i <= chars@.len() - 5,
            forall|j: int| 0 <= j < i ==> !contains_at(text@, paste_end_chars(), j),
        decreases chars@.len() - i,
    {
        if chars[i] == '\x1b' && chars[i + 1] == '[' && chars[i + 2] == '2' && chars[i + 3] == '0'
            && chars[i + 4] == '1' && chars[i + 5] == '~' {
            assert(text@.subrange(i as int, i + 6) =~= paste_end_chars());
            assert(contains_at(text@, paste_end_chars(), i as int));
            return Err(PasteError::ContainsTerminator);
        }
        proof {
            if contains_at(text@, paste_end_chars(), i as int) {
                assert(text@.subrange(i as int, i + 6)[0] == text@[i as int]);
                assert(text@.subrange(i as int, i + 6)[1] == text@[i + 1]);
                assert(text@.subrange(i as int, i + 6)[2] == text@[i + 2]);
                assert(text@.subrange(i as int, i + 6)[3] == text@[i + 3]);
                assert(text@.subrange(i as int, i + 6)[4] == text@[i + 4]);
                assert(text@.subrange(i as int, i + 6)[5] == text@[i + 5]);
            }
        }
        i = i + 1;
    }
    proof {
        assert forall|j: int| !#[trigger] contains_at(text@, paste_end_chars(), j) by {
            if 0 <= j && j < i {
            } else if j >= i {
                assert(j + 6 > text@.len());
            }
        }
    }
    let utf8 = crate::text::utf8_bytes(text);
    if mode == BracketedPasteMode::Disabled {
        return Ok(utf8);
    }
    let mut bytes: Vec<u8> = vec![0x1bu8, 0x5bu8, 0x32u8, 0x30u8, 0x30u8, 0x7eu8];
    let mut k: usize = 0;
    while k < utf8.len()
        invariant
            bytes@ == paste_start() + utf8@.take(k as int),
            0 <= k <= utf8@.len(),
        decreases utf8@.len() - k,
    {
        bytes.push(utf8[k]);
        k = k + 1;
        assert(bytes@ =~= paste_start() + utf8@.take(k as int));
    }
    assert(utf8@.take(k as int) =~= utf8@);
    bytes.push(0x1b);
    bytes.push(0x5b);
    bytes.push(0x32);
    bytes.push(0x30);
    bytes.push(0x31);
    bytes.push(0x7e);
    assert(bytes@ =~= paste_start() + encode_utf8(text@) + paste_end());
    Ok(bytes)
}

/// One mouse event a client sends.
#[derive(Clone, Copy, Debug, PartialEq, Eq, Structural)]
pub struct MouseSummary {
    pub row: u32,
    pub col: u32,
    pub pixel_x: Option<u32>,
    pub pixel_y: Option<u32>,
    pub button: MouseButton,
    pub action: MouseAction,
    pub modifiers: u32,
}

/// Which mouse events a tracking mode reports: X10 presses only, normal
/// presses and releases, button-event tracking also motion with a button
/// held, any-event tracking everything.
pub open spec fn mouse_allowed(mode: MouseTrackingMode, mouse: MouseSummary) -> bool {
    match mode {
        MouseTrackingMode::X10 => mouse.action == MouseAction::Press,
        MouseTrackingMode::Normal => mouse.action == MouseAction::Press || mouse.action
            == MouseAction::Release,
        MouseTrackingMode::Button => mouse.action != MouseAction::Motion || mouse.button
            != MouseButton::NoButton,
        MouseTrackingMode::Any => true,
        _ => false,
    }
}

/// Each mouse tracking mode reports what the one below it does and more:
/// off reports nothing, X10 only presses, normal tracking adds releases,
/// button-event tracking adds motion with a button held, and any-event
/// tracking reports everything.
pub proof fn lemma_mouse_modes_nested(m: MouseSummary)
    ensures
        !mouse_allowed(MouseTrackingMode::Off, m),
        mouse_allowed(MouseTrackingMode::X10, m) <==> m.action == MouseAction::Press,
        mouse_allowed(MouseTrackingMode::X10, m) ==> mouse_allowed(MouseTrackingMode::Normal, m),
        mouse_allowed(MouseTrackingMode::Normal, m) ==> mouse_allowed(MouseTrackingMode::Button, m),
        mouse_allowed(MouseTrackingMode::Button, m) ==> mouse_allowed(MouseTrackingMode::Any, m),
        mouse_allowed(MouseTrackingMode::Any, m),
        m.action == MouseAction::Release ==> mouse_allowed(MouseTrackingMode::Normal, m)
            && !mouse_allowed(MouseTrackingMode::X10, m),
        m.action == MouseAction::Motion ==> !mouse_allowed(MouseTrackingMode::Normal, m) && (
        mouse_allowed(MouseTrackingMode::Button, m) <==> m.button != MouseButton::NoButton),
{
}

pub fn mouse_input_allowed(mode: MouseTrackingMode, mouse: MouseSummary) -> (allowed: bool)
    ensures
        allowed == mouse_allowed(mode, mouse),
{
    match mode {
        MouseTrackingMode::Off => false,
        MouseTrackingMode::X10 => matches!(mouse.action, MouseAction::Press),
        MouseTrackingMode::Normal => matches!(mouse.action, MouseAction::Press | MouseAction::Release),
        MouseTrackingMode::Button => match mouse.action {
            MouseAction::Press | MouseAction::Release => true,
            MouseAction::Motion => !matches!(mouse.button, MouseButton::NoButton),
        },
        MouseTrackingMode::Any => true,
        MouseTrackingMode::Other(_) => false,
    }
}

/// Why input to a pane was not forwarded.
#[derive(Clone, Copy, Debug, PartialEq, Eq, Structural)]
pub enum InputRejection {
    FocusReportingDisabled,
    MouseTrackingDisabled,
    MouseCoordinatesOutOfBounds,
    MouseActionRejected(MouseTrackingMode),
}

impl InputRejection {
    pub open spec fn spec_message(self) -> Seq<char> {
        match self {
            InputRejection::FocusReportingDisabled => "input rejected: focus reporting is disabled"@,
            InputRejection::MouseTrackingDisabled => "input rejected: mouse tracking is disabled"@,
            InputRejection::MouseCoordinatesOutOfBounds => "input rejected: mouse coordinates are outside pane bounds"@,
            InputRejection::MouseActionRejected(MouseTrackingMode::X10) => "input rejected: X10 mouse tracking accepts press events only"@,
            InputRejection::MouseActionRejected(MouseTrackingMode::Normal) => "input rejected: normal mouse tracking accepts press and release events only"@,
            InputRejection::MouseActionRejected(MouseTrackingMode::Button) => "input rejected: button mouse tracking requires a pressed button for motion"@,
            InputRejection::MouseActionRejected(MouseTrackingMode::Off) => "input rejected: mouse tracking is disabled"@,
            InputRejection::MouseActionRejected(_) => "input rejected: mouse action is not accepted by current tracking mode"@,
        }
    }

    pub fn message(self) -> (text: &'static str)
        ensures
            text@ == self.spec_message(),
    {
        match self {
            InputRejection::FocusReportingDisabled => "input rejected: focus reporting is disabled",
            InputRejection::MouseTrackingDisabled => "input rejected: mouse tracking is disabled",
            InputRejection::MouseCoordinatesOutOfBounds => "input rejected: mouse coordinates are outside pane bounds",
            InputRejection::MouseActionRejected(MouseTrackingMode::X10) => "input rejected: X10 mouse tracking accepts press events only",
            InputRejection::MouseActionRejected(MouseTrackingMode::Normal) => "input rejected: normal mouse tracking accepts press and release events only",
            InputRejection::MouseActionRejected(MouseTrackingMode::Button) => "input rejected: button mouse tracking requires a pressed button for motion",
            InputRejection::MouseActionRejected(MouseTrackingMode::Off) => "input rejected: mouse tracking is disabled",
            InputRejection::MouseActionRejected(_) => "input rejected: mouse action is not accepted by current tracking mode",
        }
    }
}

/// A pane's size in cells.
#[derive(Clone, Copy, Debug, PartialEq, Eq, Structural)]
pub struct PaneSize {
    pub cols: u32,
    pub rows: u32,
}

/// What the server knows of a pane's input modes, as reported by its
/// session; `None` where the pane is unknown.
#[derive(Clone, Copy, Debug, PartialEq, Eq, Structural)]
pub struct PaneInputState {
    pub focus_reporting: bool,
    pub mouse_tracking: bool,
    pub mouse_tracking_mode: Option<MouseTrackingMode>,
    pub size: Option<PaneSize>,
}

/// Input of one client frame, decoded.
#[derive(Clone, Debug, PartialEq, Eq)]
pub struct InputSummary {
    pub pane_id: String,
    pub actor_id: String,
    pub input_seq: u64,
    pub text: String,
    pub bytes: Vec<u8>,
    pub paste_text: Option<String>,
    pub key_name: Option<String>,
    pub key_modifiers: u32,
    pub mouse: Option<MouseSummary>,
    pub requires_focus_reporting: bool,
    pub requires_mouse_tracking: bool,
}

/// Mouse input is refused when tracking is off, when it falls outside the
/// pane, or when the tracking mode does not report that event.
pub open spec fn mouse_rejection(mouse: Option<MouseSummary>, pane: PaneInputState) -> Option<
    InputRejection,
> {
    match mouse {
        None => if !pane.mouse_tracking {
            Some(InputRejection::MouseTrackingDisabled)
        } else {
            None
        },
        Some(m) => match pane.mouse_tracking_mode {
            None => Some(InputRejection::MouseTrackingDisabled),
            Some(mode) => if mode == MouseTrackingMode::Off {
                Some(InputRejection::MouseTrackingDisabled)
            } else {
                match pane.size {
                    None => None,
                    Some(size) => if m.row >= size.rows || m.col >= size.cols {
                        Some(InputRejection::MouseCoordinatesOutOfBounds)
                    } else if !mouse_allowed(mode, m) {
                        Some(InputRejection::MouseActionRejected(mode))
                    } else {
                        None
                    },
                }
            },
        },
    }
}

impl InputSummary {
    pub fn mouse_forwarding_rejection(&self, pane: PaneInputState) -> (rejection: Option<
        InputRejection,
    >)
        ensures
            rejection == mouse_rejection(self.mouse, pane),
    {
        let mouse = match self.mouse {
            None => {
                return if !pane.mouse_tracking {
                    Some(InputRejection::MouseTrackingDisabled)
                } else {
                    None
                };
            },
            Some(m) => m,
        };
        let mode = match pane.mouse_tracking_mode {
            None => {
                return Some(InputRejection::MouseTrackingDisabled);
            },
            Some(mode) => mode,
        };
        if matches!(mode, MouseTrackingMode::Off) {
            return Some(InputRejection::MouseTrackingDisabled);
        }
        let size = match pane.size {
            None => {
                return None;
            },
            Some(size) => size,
        };
        if mouse.row >= size.rows || mouse.col >= size.cols {
            return Some(InputRejection::MouseCoordinatesOutOfBounds);
        }
        if !mouse_input_allowed(mode, mouse) {
            Some(InputRejection::MouseActionRejected(mode))
        } else {
            None
        }
    }

    /// Input that needs focus reporting or mouse tracking the pane does not
    /// have is not forwarded.
    pub fn forwarding_rejection(&self, pane: PaneInputState) -> (rejection: Option<InputRejection>)
        ensures
            rejection == if self.requires_focus_reporting && !pane.focus_reporting {
                Some(InputRejection::FocusReportingDisabled)
            } else if self.requires_mouse_tracking {
                mouse_rejection(self.mouse, pane)
            } else {
                None
            },
    {
        if self.requires_focus_reporting && !pane.focus_reporting {
            return Some(InputRejection::FocusReportingDisabled);
        }
        if self.requires_mouse_tracking {
            return self.mouse_forwarding_rejection(pane);
        }
        None
    }
}

/// How accepted input reaches the pane: a named key or a mouse event that
/// the pane's terminal engine encodes, or bytes written as they are.
#[derive(Clone, Debug, PartialEq, Eq)]
pub enum ForwardedInput {
    Key { key_name: String, modifiers: u32 },
    Mouse(MouseSummary),
    Bytes(Vec<u8>),
}

impl InputSummary {
    /// What this input is forwarded as, given whether the pane has bracketed
    /// paste on: its named key first, then its mouse event, then its pasted
    /// text, wrapped when bracketed paste is on, and otherwise its raw bytes.
    pub fn forwarded_input(&self, bracketed_paste: bool) -> (forwarded_as: Result<
        ForwardedInput,
        PasteError,
    >)
        ensures
            match self.key_name {
                Some(k) => forwarded_as matches Ok(ForwardedInput::Key { key_name, modifiers })
                    && key_name@ == k@ && modifiers == self.key_modifiers,
                None => match self.mouse {
                    Some(m) => forwarded_as == Ok::<ForwardedInput, PasteError>(
                        ForwardedInput::Mouse(m),
                    ),
                    None => match self.paste_text {
                        Some(t) => if contains(t@, paste_end_chars()) {
                            forwarded_as == Err::<ForwardedInput, PasteError>(
                                PasteError::ContainsTerminator,
                            )
                        } else {
                            forwarded_as matches Ok(ForwardedInput::Bytes(b)) && b@ == if bracketed_paste {
                                paste_start() + encode_utf8(t@) + paste_end()
                            } else {
                                encode_utf8(t@)
                            }
                        },
                        None => forwarded_as matches Ok(ForwardedInput::Bytes(b)) && b@
                            == self.bytes@,
                    },
                },
            },
    {
        if let Some(k) = &self.key_name {
            return Ok(ForwardedInput::Key { key_name: k.clone(), modifiers: self.key_modifiers });
        }
        if let Some(m) = self.mouse {
            return Ok(ForwardedInput::Mouse(m));
        }
        if let Some(t) = &self.paste_text {
            return match paste_input_bytes(t.as_str(), BracketedPasteMode::from_enabled(bracketed_paste)) {
                Ok(b) => Ok(ForwardedInput::Bytes(b)),
                Err(e) => Err(e),
            };
        }
        Ok(ForwardedInput::Bytes(crate::surface::copy_values(&self.bytes)))
    }
}

impl PasteError {
    /// The error's text.
    pub fn to_string(&self) -> (text: String)
        ensures
            text@ == "paste input contains a bracketed paste terminator"@,
    {
        let mut text = String::new();
        push_str(&mut text, "paste input contains a bracketed paste terminator");
        assert(text@ =~= "paste input contains a bracketed paste terminator"@);
        text
    }
}

// ---------------------------------------------------------------------------
// Surface and scrollback versions
// ---------------------------------------------------------------------------

/// What a server sends for a pane whose surface the client knows at some
/// version: nothing when current, a patch when exactly one behind and the
/// engine can patch, a snapshot otherwise.
#[derive(Clone, Copy, Debug, PartialEq, Eq, Structural)]
pub enum SurfaceResponse {
    Snapshot,
    Patch { base_version: u64 },
}

pub open spec fn response_for(current: u64, known: u64, patch_kind: PatchKind) -> Option<SurfaceResponse> {
    if known == current {
        None
    } else if patch_kind == PatchKind::FullRefreshRequired {
        Some(SurfaceResponse::Snapshot)
    } else if known + 1 == current {
        Some(SurfaceResponse::Patch { base_version: known })
    } else {
        Some(SurfaceResponse::Snapshot)
    }
}

/// A client that holds the current version is sent nothing; one exactly
/// one version behind is sent a patch from the version it holds, unless
/// the engine needs a full refresh; any other client that holds another
/// version is sent a snapshot.
pub proof fn lemma_response_by_version_gap(current: u64, known: u64, patch_kind: PatchKind)
    ensures
        known == current ==> response_for(current, known, patch_kind) is None,
        known + 1 == current && patch_kind != PatchKind::FullRefreshRequired ==> response_for(
            current,
            known,
            patch_kind,
        ) == Some(SurfaceResponse::Patch { base_version: known }),
        known != current && (known + 1 != current || patch_kind == PatchKind::FullRefreshRequired)
            ==> response_for(current, known, patch_kind) == Some(SurfaceResponse::Snapshot),
        response_for(current, known, patch_kind) matches Some(SurfaceResponse::Patch { base_version })
            ==> base_version == known && known + 1 == current,
{
}

pub fn surface_response_for_known_version(current: u64, known: u64, patch_kind: PatchKind) -> (response:
    Option<SurfaceResponse>)
    ensures
        response == response_for(current, known, patch_kind),
{
    if known == current {
        None
    } else if matches!(patch_kind, PatchKind::FullRefreshRequired) {
        Some(SurfaceResponse::Snapshot)
    } else if known < u64::MAX && known + 1 == current {
        Some(SurfaceResponse::Patch { base_version: known })
    } else {
        Some(SurfaceResponse::Snapshot)
    }
}

pub fn attach_surface_state(response: Option<SurfaceResponse>) -> (state: AttachSurfaceState)
    ensures
        state == match response {
            Some(SurfaceResponse::Snapshot) => AttachSurfaceState::Snapshot,
            Some(SurfaceResponse::Patch { .. }) => AttachSurfaceState::Patch,
            None => AttachSurfaceState::Current,
        },
{
    match response {
        Some(SurfaceResponse::Snapshot) => AttachSurfaceState::Snapshot,
        Some(SurfaceResponse::Patch { .. }) => AttachSurfaceState::Patch,
        None => AttachSurfaceState::Current,
    }
}

/// A scrollback fetch made against a version that is no longer current is
/// answered with a stale-version error; version 0 means none known.
pub fn scrollback_fetch_error_code(current: Option<u64>, known: u64) -> (code: Option<ErrorCode>)
    ensures
        code == match current {
            None => None,
            Some(c) => if known != 0 && known != c {
                Some(ErrorCode::StaleVersion)
            } else {
                None
            },
        },
{
    match current {
        None => None,
        Some(c) => {
            if known != 0 && known != c {
                Some(ErrorCode::StaleVersion)
            } else {
                None
            }
        },
    }
}

/// Why a scrollback range or line was refused.
#[derive(Clone, Copy, Debug, PartialEq, Eq, Structural)]
pub enum ScrollbackError {
    FetchStartLine,
    FetchLineCount,
    ChunkStartLine,
    RowLine,
    RowLineOverflow,
    RowLineMismatch { row_line: u64, expected: u64 },
    RowBeyondTotal { row_line: u64, total_lines: u64 },
}

pub open spec fn scrollback_error_text(e: ScrollbackError) -> Seq<char> {
    match e {
        ScrollbackError::FetchStartLine => "scrollback fetch start_line must be 1-based"@,
        ScrollbackError::FetchLineCount => "scrollback fetch line_count must be nonzero"@,
        ScrollbackError::ChunkStartLine => "scrollback chunk start_line must be 1-based"@,
        ScrollbackError::RowLine => "scrollback row line must be 1-based"@,
        ScrollbackError::RowLineOverflow => "scrollback row line overflow"@,
        ScrollbackError::RowLineMismatch { row_line, expected } => "scrollback row line "@
            + decimal(row_line as nat) + " does not match expected public line "@ + decimal(
            expected as nat,
        ),
        ScrollbackError::RowBeyondTotal { row_line, total_lines } => "scrollback row line "@
            + decimal(row_line as nat) + " exceeds total_lines "@ + decimal(total_lines as nat),
    }
}

impl ScrollbackError {
    /// The error's text.
    pub fn to_string(&self) -> (text: String)
        ensures
            text@ == scrollback_error_text(*self),
    {
        let mut text = String::new();
        match *self {
            ScrollbackError::FetchStartLine => push_str(&mut text, "scrollback fetch start_line must be 1-based"),
            ScrollbackError::FetchLineCount => push_str(&mut text, "scrollback fetch line_count must be nonzero"),
            ScrollbackError::ChunkStartLine => push_str(&mut text, "scrollback chunk start_line must be 1-based"),
            ScrollbackError::RowLine => push_str(&mut text, "scrollback row line must be 1-based"),
            ScrollbackError::RowLineOverflow => push_str(&mut text, "scrollback row line overflow"),
            ScrollbackError::RowLineMismatch { row_line, expected } => {
                push_str(&mut text, "scrollback row line ");
                push_decimal(&mut text, row_line);
                push_str(&mut text, " does not match expected public line ");
                push_decimal(&mut text, expected);
            },
            ScrollbackError::RowBeyondTotal { row_line, total_lines } => {
                push_str(&mut text, "scrollback row line ");
                push_decimal(&mut text, row_line);
                push_str(&mut text, " exceeds total_lines ");
                push_decimal(&mut text, total_lines);
            },
        }
        assert(text@ =~= scrollback_error_text(*self));
        text
    }
}

/// Scrollback lines are numbered from 1; a fetch asks for at least one.
pub fn validate_scrollback_fetch_range(start_line: u64, line_count: u32) -> (checked: Result<
    (),
    ScrollbackError,
>)
    ensures
        checked == if start_line == 0 {
            Err::<(), ScrollbackError>(ScrollbackError::FetchStartLine)
        } else if line_count == 0 {
            Err::<(), ScrollbackError>(ScrollbackError::FetchLineCount)
        } else {
            Ok::<(), ScrollbackError>(())
        },
{
    if start_line == 0 {
        return Err(ScrollbackError::FetchStartLine);
    }
    if line_count == 0 {
        return Err(ScrollbackError::FetchLineCount);
    }
    Ok(())
}

pub fn validate_scrollback_chunk_start_line(start_line: u64) -> (checked: Result<(), ScrollbackError>)
    ensures
        checked == if start_line == 0 {
            Err::<(), ScrollbackError>(ScrollbackError::ChunkStartLine)
        } else {
            Ok::<(), ScrollbackError>(())
        },
{
    if start_line == 0 {
        return Err(ScrollbackError::ChunkStartLine);
    }
    Ok(())
}

pub fn validate_scrollback_row_line(line: u64) -> (checked: Result<(), ScrollbackError>)
    ensures
        checked == if line == 0 {
            Err::<(), ScrollbackError>(ScrollbackError::RowLine)
        } else {
            Ok::<(), ScrollbackError>(())
        },
{
    if line == 0 {
        return Err(ScrollbackError::RowLine);
    }
    Ok(())
}

/// Row `index` of a chunk starting at `start_line` must be line
/// `start_line + index`, and no later than the last line.
pub fn validate_scrollback_row_public_range(
    start_line: u64,
    total_lines: u64,
    index: usize,
    row_line: u64,
) -> (checked: Result<(), ScrollbackError>)
    ensures
        checked == if start_line + index > u64::MAX {
            Err::<(), ScrollbackError>(ScrollbackError::RowLineOverflow)
        } else if row_line != start_line + index {
            Err::<(), ScrollbackError>(
                ScrollbackError::RowLineMismatch {
                    row_line,
                    expected: (start_line + index) as u64,
                },
            )
        } else if row_line > total_lines {
            Err::<(), ScrollbackError>(ScrollbackError::RowBeyondTotal { row_line, total_lines })
        } else {
            Ok::<(), ScrollbackError>(())
        },
{
    let offset = index as u64;
    let expected = match start_line.checked_add(offset) {
        Some(e) => e,
        None => {
            return Err(ScrollbackError::RowLineOverflow);
        },
    };
    if row_line != expected {
        return Err(ScrollbackError::RowLineMismatch { row_line, expected });
    }
    if row_line > total_lines {
        return Err(ScrollbackError::RowBeyondTotal { row_line, total_lines });
    }
    Ok(())
}

// ---------------------------------------------------------------------------
// Display
// ---------------------------------------------------------------------------

pub open spec fn policy_label(policy: ResizePolicy) -> Seq<char> {
    match policy {
        ResizePolicy::Fixed => "fixed"@,
        ResizePolicy::Leader => "leader"@,
        ResizePolicy::ActiveClient => "active-client"@,
        ResizePolicy::Manual => "manual"@,
        ResizePolicy::Other(_) => "unknown"@,
    }
}

pub fn resize_policy_label(policy: ResizePolicy) -> (label: &'static str)
    ensures
        label@ == policy_label(policy),
{
    match policy {
        ResizePolicy::Fixed => "fixed",
        ResizePolicy::Leader => "leader",
        ResizePolicy::ActiveClient => "active-client",
        ResizePolicy::Manual => "manual",
        ResizePolicy::Other(_) => "unknown",
    }
}

impl WorkspaceSummary {
    /// `session=… tab=… pane=… size=COLSxROWS resize=POLICY`.
    pub fn display_line(&self) -> (line: String)
        ensures
            line@ == "session="@ + self.session_id@ + " tab="@ + self.tab_id@ + " pane="@
                + self.pane_id@ + " size="@ + decimal(self.cols as nat) + "x"@ + decimal(
                self.rows as nat,
            ) + " resize="@ + policy_label(self.resize_policy),
    {
        let mut line = String::new();
        push_str(&mut line, "session=");
        push_str(&mut line, self.session_id.as_str());
        push_str(&mut line, " tab=");
        push_str(&mut line, self.tab_id.as_str());
        push_str(&mut line, " pane=");
        push_str(&mut line, self.pane_id.as_str());
        push_str(&mut line, " size=");
        push_decimal(&mut line, self.cols as u64);
        push_str(&mut line, "x");
        push_decimal(&mut line, self.rows as u64);
        push_str(&mut line, " resize=");
        push_str(&mut line, resize_policy_label(self.resize_policy));
        line
    }
}

/// An error a server reported.
#[derive(Clone, Debug, PartialEq, Eq)]
pub struct ErrorSummary {
    pub code: ErrorCode,
    pub message: String,
    pub retryable: bool,
    pub pane_id: Option<String>,
    pub input_seq: u64,
}

pub open spec fn error_code_name(code: ErrorCode) -> Seq<char> {
    match code {
        ErrorCode::Unknown => "Unknown"@,
        ErrorCode::PaneNotFound => "PaneNotFound"@,
        ErrorCode::PermissionDenied => "PermissionDenied"@,
        ErrorCode::StaleVersion => "StaleVersion"@,
        ErrorCode::Other(n) => "<UNKNOWN "@ + decimal(n as nat) + ">"@,
    }
}

pub open spec fn pane_part(pane_id: Option<String>) -> Seq<char> {
    match pane_id {
        Some(p) => ", pane_id="@ + p@,
        None => Seq::empty(),
    }
}

pub open spec fn seq_part(input_seq: u64) -> Seq<char> {
    if input_seq != 0 {
        ", input_seq="@ + decimal(input_seq as nat)
    } else {
        Seq::empty()
    }
}

pub open spec fn retry_part(retryable: bool) -> Seq<char> {
    if retryable {
        ", retryable=true"@
    } else {
        Seq::empty()
    }
}

fn push_code_name(text: &mut String, code: ErrorCode)
    ensures
        final(text)@ == old(text)@ + error_code_name(code),
{
    match code {
        ErrorCode::Unknown => push_str(text, "Unknown"),
        ErrorCode::PaneNotFound => push_str(text, "PaneNotFound"),
        ErrorCode::PermissionDenied => push_str(text, "PermissionDenied"),
        ErrorCode::StaleVersion => push_str(text, "StaleVersion"),
        ErrorCode::Other(n) => {
            let ghost start = text@;
            push_str(text, "<UNKNOWN ");
            push_decimal(text, n as u64);
            push_str(text, ">");
            assert(text@ =~= start + error_code_name(code));
        },
    }
}

impl ErrorSummary {
    /// `MESSAGE (code=CODE[, pane_id=PANE][, input_seq=N][, retryable=true])`.
    pub fn to_string(&self) -> (text: String)
        ensures
            text@ == self.message@ + " (code="@ + error_code_name(self.code) + pane_part(
                self.pane_id,
            ) + seq_part(self.input_seq) + retry_part(self.retryable) + ")"@,
    {
        let mut text = String::new();
        push_str(&mut text, self.message.as_str());
        push_str(&mut text, " (code=");
        push_code_name(&mut text, self.code);
        let ghost head = text@;
        if let Some(p) = &self.pane_id {
            push_str(&mut text, ", pane_id=");
            push_str(&mut text, p.as_str());
        }
        assert(text@ =~= head + pane_part(self.pane_id));
        let ghost with_pane = text@;
        if self.input_seq != 0 {
            push_str(&mut text, ", input_seq=");
            push_decimal(&mut text, self.input_seq);
        }
        assert(text@ =~= with_pane + seq_part(self.input_seq));
        let ghost with_seq = text@;
        if self.retryable {
            push_str(&mut text, ", retryable=true");
        }
        assert(text@ =~= with_seq + retry_part(self.retryable));
        push_str(&mut text, ")");
        text
    }
}

/// The text of a reported error, as `ErrorSummary::to_string` gives it.
pub open spec fn error_summary_text(e: ErrorSummary) -> Seq<char> {
    e.message@ + " (code="@ + error_code_name(e.code) + pane_part(e.pane_id) + seq_part(
        e.input_seq,
    ) + retry_part(e.retryable) + ")"@
}

/// An error a server reported, as a client passes it on.
#[derive(Clone, Debug, PartialEq, Eq)]
pub struct ServerError {
    pub error: ErrorSummary,
}

impl ServerError {
    /// `server error: ` and the reported error.
    pub fn to_string(&self) -> (text: String)
        ensures
            text@ == "server error: "@ + error_summary_text(self.error),
    {
        let mut text = String::new();
        push_str(&mut text, "server error: ");
        let detail = self.error.to_string();
        push_str(&mut text, detail.as_str());
        text
    }
}

/// What one read of a live attach stream gives: a frame of one of the
/// kinds a server sends, nothing yet, or the end of the stream.
#[derive(Debug, PartialEq, Eq)]
pub enum LiveSurfaceRead {
    Workspace(WorkspaceSummary),
    Presence(PresenceSummary),
    Update(SurfaceUpdate),
    Error(ErrorSummary),
    NoFrame,
    Closed,
}

/// The kind of a socket error, as far as deciding whether the peer went
/// away needs it.
#[derive(Clone, Copy, Debug, PartialEq, Eq, Structural)]
pub enum SocketErrorKind {
    InvalidInput,
    UnexpectedEof,
    ConnectionReset,
    BrokenPipe,
    Other,
}

/// Whether a socket error means the other end closed the connection: an
/// invalid-input, end-of-file, reset or broken-pipe error, or the OS error
/// `EINVAL` (22).
pub fn socket_closed_error(kind: SocketErrorKind, raw_os_error: Option<i32>) -> (closed: bool)
    ensures
        closed == (kind != SocketErrorKind::Other || raw_os_error == Some(22i32)),
{
    match kind {
        SocketErrorKind::InvalidInput
        | SocketErrorKind::UnexpectedEof
        | SocketErrorKind::ConnectionReset
        | SocketErrorKind::BrokenPipe => true,
        SocketErrorKind::Other => match raw_os_error {
            Some(code) => code == 22,
            None => false,
        },
    }
}

} // verus!
