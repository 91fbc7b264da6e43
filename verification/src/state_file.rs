use vstd::prelude::*;
use vstd::utf8::*;

use crate::kinds::{
    CellSemanticContent, CursorShape, MouseFormat, MouseTrackingMode, RowSemanticPrompt,
    SurfaceKind,
};
use crate::client_state::{AttachStateView, ClientAttachState, ClientPaneScrollback, ScrollbackView, SocketIdentity};
use crate::render::normalized_runs;
use crate::surface::{
    blank_rows, default_style_summaries, default_styles, filled, first_failure, lemma_deep_push, lemma_deep_update,
    CellRunSummary, HyperlinkSummary, TerminalColorSummary, link_table_failure, no_colors, runs_hyperlink_check,
    runs_style_check, CellRunView, ClientPaneSurface, CursorSummary, HyperlinkView,
    PaneSurfaceView, StyleSummary, SurfaceError, TerminalModeSummary,
};
use crate::text::{
    chars_of, decimal, decode_hex, hex_decode, hex_of, join_with, lemma_join_push, parse_signed,
    parse_signed_chars, parse_unsigned, parse_unsigned_chars, push_char, push_decimal, push_hex,
    push_signed_decimal, push_str, signed_decimal, string_from_utf8, terminated, utf8_bytes,
};

verus! {

broadcast use vstd::seq::group_seq_axioms;

// ---------------------------------------------------------------------------
// Errors
// ---------------------------------------------------------------------------

/// Why a persisted client state was refused.
#[derive(Clone, Debug, PartialEq, Eq)]
pub enum StateError {
    InvalidHeader,
    InvalidSurfaceLine,
    UnterminatedSurface,
    InvalidBodyLine,
    ScrollbackStartLine,
    ScrollbackLineCount,
    RowOutsideSurface,
    RowMetaOutsideSurface,
    RunOutsideSurface,
    InvalidNumber,
    InvalidBool,
    InvalidHex,
    InvalidUtf8,
    InvalidPalette,
    InvalidSurfaceKind(u8),
    InvalidCursorShape(u8),
    InvalidMouseTrackingMode(u8),
    InvalidMouseFormat(u8),
    InvalidRowSemanticPrompt(u8),
    InvalidCellSemanticContent(u8),
    Surface(SurfaceError),
}

// ---------------------------------------------------------------------------
// Fields
// ---------------------------------------------------------------------------

pub open spec fn u64_field(s: Seq<char>) -> Result<u64, StateError> {
    match parse_unsigned(s, u64::MAX as nat) {
        Some(v) => Ok(v as u64),
        None => Err(StateError::InvalidNumber),
    }
}

pub open spec fn u32_field(s: Seq<char>) -> Result<u32, StateError> {
    match parse_unsigned(s, u32::MAX as nat) {
        Some(v) => Ok(v as u32),
        None => Err(StateError::InvalidNumber),
    }
}

pub open spec fn usize_field(s: Seq<char>) -> Result<usize, StateError> {
    match parse_unsigned(s, usize::MAX as nat) {
        Some(v) => Ok(v as usize),
        None => Err(StateError::InvalidNumber),
    }
}

pub open spec fn code_field(s: Seq<char>) -> Result<u8, StateError> {
    match parse_unsigned(s, u8::MAX as nat) {
        Some(v) => Ok(v as u8),
        None => Err(StateError::InvalidNumber),
    }
}

pub open spec fn i64_field(s: Seq<char>) -> Result<i64, StateError> {
    match parse_signed(s) {
        Some(v) => Ok(v as i64),
        None => Err(StateError::InvalidNumber),
    }
}

/// A flag is written `1` or `0`.
pub open spec fn bool_field(s: Seq<char>) -> Result<bool, StateError> {
    if s == seq!['1'] {
        Ok(true)
    } else if s == seq!['0'] {
        Ok(false)
    } else {
        Err(StateError::InvalidBool)
    }
}

pub open spec fn bytes_field(s: Seq<char>) -> Result<Seq<u8>, StateError> {
    match hex_decode(s) {
        Some(bytes) => Ok(bytes),
        None => Err(StateError::InvalidHex),
    }
}

/// Text is written as the hex of its UTF-8 bytes.
pub open spec fn text_field(s: Seq<char>) -> Result<Seq<char>, StateError> {
    match bytes_field(s) {
        Err(e) => Err(e),
        Ok(bytes) => if valid_utf8(bytes) {
            Ok(decode_utf8(bytes))
        } else {
            Err(StateError::InvalidUtf8)
        },
    }
}

/// Optional text: `-` stands for empty.
pub open spec fn optional_text_field(s: Seq<char>) -> Result<Seq<char>, StateError> {
    if s == seq!['-'] {
        Ok(Seq::empty())
    } else {
        text_field(s)
    }
}

/// The big-endian `u32` at position `i` of some bytes.
pub open spec fn be_u32(bytes: Seq<u8>, i: int) -> u32 {
    ((bytes[4 * i] as int) * 0x100_0000 + (bytes[4 * i + 1] as int) * 0x1_0000 + (bytes[4 * i
        + 2] as int) * 0x100 + (bytes[4 * i + 3] as int)) as u32
}

/// A palette is written as the hex of its colors' big-endian bytes.
pub open spec fn palette_field(s: Seq<char>) -> Result<Seq<u32>, StateError> {
    match bytes_field(s) {
        Err(e) => Err(e),
        Ok(bytes) => if bytes.len() % 4 != 0 {
            Err(StateError::InvalidPalette)
        } else {
            Ok(Seq::new(bytes.len() / 4, |i: int| be_u32(bytes, i)))
        },
    }
}

pub open spec fn surface_kind_field(s: Seq<char>) -> Result<SurfaceKind, StateError> {
    match code_field(s) {
        Err(e) => Err(e),
        Ok(c) => if SurfaceKind::spec_from_code(c).is_known() {
            Ok(SurfaceKind::spec_from_code(c))
        } else {
            Err(StateError::InvalidSurfaceKind(c))
        },
    }
}

pub open spec fn cursor_shape_field(s: Seq<char>) -> Result<CursorShape, StateError> {
    match code_field(s) {
        Err(e) => Err(e),
        Ok(c) => if CursorShape::spec_from_code(c).is_known() {
            Ok(CursorShape::spec_from_code(c))
        } else {
            Err(StateError::InvalidCursorShape(c))
        },
    }
}

pub open spec fn mouse_mode_field(s: Seq<char>) -> Result<MouseTrackingMode, StateError> {
    match code_field(s) {
        Err(e) => Err(e),
        Ok(c) => if MouseTrackingMode::spec_from_code(c).is_known() {
            Ok(MouseTrackingMode::spec_from_code(c))
        } else {
            Err(StateError::InvalidMouseTrackingMode(c))
        },
    }
}

pub open spec fn mouse_format_field(s: Seq<char>) -> Result<MouseFormat, StateError> {
    match code_field(s) {
        Err(e) => Err(e),
        Ok(c) => if MouseFormat::spec_from_code(c).is_known() {
            Ok(MouseFormat::spec_from_code(c))
        } else {
            Err(StateError::InvalidMouseFormat(c))
        },
    }
}

pub open spec fn prompt_field(s: Seq<char>) -> Result<RowSemanticPrompt, StateError> {
    match code_field(s) {
        Err(e) => Err(e),
        Ok(c) => if RowSemanticPrompt::spec_from_code(c).is_known() {
            Ok(RowSemanticPrompt::spec_from_code(c))
        } else {
            Err(StateError::InvalidRowSemanticPrompt(c))
        },
    }
}

pub open spec fn content_field(s: Seq<char>) -> Result<CellSemanticContent, StateError> {
    match code_field(s) {
        Err(e) => Err(e),
        Ok(c) => if CellSemanticContent::spec_from_code(c).is_known() {
            Ok(CellSemanticContent::spec_from_code(c))
        } else {
            Err(StateError::InvalidCellSemanticContent(c))
        },
    }
}

/// The fields of one line of persisted state, as ranges into its chars.
pub struct Fields<'a> {
    pub chars: &'a Vec<char>,
    pub ranges: Vec<(usize, usize)>,
}

impl<'a> Fields<'a> {
    /// Field `k` as text.
    pub open spec fn field(&self, k: int) -> Seq<char> {
        self.chars@.subrange(self.ranges@[k].0 as int, self.ranges@[k].1 as int)
    }

    /// The fields as a sequence.
    pub open spec fn all(&self) -> Seq<Seq<char>> {
        Seq::new(self.ranges@.len(), |k: int| self.field(k))
    }

    pub open spec fn wf(&self) -> bool {
        forall|k: int|
            0 <= k < self.ranges@.len() ==> (#[trigger] self.ranges@[k]).0 <= self.ranges@[k].1
                <= self.chars@.len()
    }

    pub fn count(&self) -> (n: usize)
        ensures
            n == self.all().len(),
    {
        self.ranges.len()
    }

    fn chars_at(&self, k: usize) -> (part: Vec<char>)
        requires
            self.wf(),
            k < self.ranges@.len(),
        ensures
            part@ == self.all()[k as int],
    {
        let (a, b) = self.ranges[k];
        let mut part: Vec<char> = Vec::new();
        let mut i: usize = a;
        while i < b
            invariant
                a <= i <= b <= self.chars@.len(),
                part@ == self.chars@.subrange(a as int, i as int),
            decreases b - i,
        {
            part.push(self.chars[i]);
            i = i + 1;
            assert(part@ =~= self.chars@.subrange(a as int, i as int));
        }
        part
    }

    pub fn is(&self, k: usize, word: &str) -> (same: bool)
        requires
            self.wf(),
            k < self.ranges@.len(),
        ensures
            same == (self.all()[k as int] == word@),
    {
        let part = self.chars_at(k);
        let w = chars_of(word);
        crate::text::chars_eq(part.as_slice(), w.as_slice())
    }

    pub fn u64_at(&self, k: usize) -> (v: Result<u64, StateError>)
        requires
            self.wf(),
            k < self.ranges@.len(),
        ensures
            v == u64_field(self.all()[k as int]),
    {
        let part = self.chars_at(k);
        match parse_unsigned_chars(part.as_slice(), u64::MAX) {
            Some(v) => Ok(v),
            None => Err(StateError::InvalidNumber),
        }
    }

    pub fn u32_at(&self, k: usize) -> (v: Result<u32, StateError>)
        requires
            self.wf(),
            k < self.ranges@.len(),
        ensures
            v == u32_field(self.all()[k as int]),
    {
        let part = self.chars_at(k);
        match parse_unsigned_chars(part.as_slice(), u32::MAX as u64) {
            Some(v) => Ok(v as u32),
            None => Err(StateError::InvalidNumber),
        }
    }

    pub fn usize_at(&self, k: usize) -> (v: Result<usize, StateError>)
        requires
            self.wf(),
            k < self.ranges@.len(),
        ensures
            v == usize_field(self.all()[k as int]),
    {
        let part = self.chars_at(k);
        match parse_unsigned_chars(part.as_slice(), usize::MAX as u64) {
            Some(v) => Ok(v as usize),
            None => Err(StateError::InvalidNumber),
        }
    }

    pub fn code_at(&self, k: usize) -> (v: Result<u8, StateError>)
        requires
            self.wf(),
            k < self.ranges@.len(),
        ensures
            v == code_field(self.all()[k as int]),
    {
        let part = self.chars_at(k);
        match parse_unsigned_chars(part.as_slice(), u8::MAX as u64) {
            Some(v) => Ok(v as u8),
            None => Err(StateError::InvalidNumber),
        }
    }

    pub fn i64_at(&self, k: usize) -> (v: Result<i64, StateError>)
        requires
            self.wf(),
            k < self.ranges@.len(),
        ensures
            v == i64_field(self.all()[k as int]),
    {
        let part = self.chars_at(k);
        match parse_signed_chars(part.as_slice()) {
            Some(v) => Ok(v),
            None => Err(StateError::InvalidNumber),
        }
    }

    pub fn bool_at(&self, k: usize) -> (v: Result<bool, StateError>)
        requires
            self.wf(),
            k < self.ranges@.len(),
        ensures
            v == bool_field(self.all()[k as int]),
    {
        let part = self.chars_at(k);
        if part.len() == 1 && part[0] == '1' {
            assert(part@ =~= seq!['1']);
            Ok(true)
        } else if part.len() == 1 && part[0] == '0' {
            assert(part@ =~= seq!['0']);
            Ok(false)
        } else {
            Err(StateError::InvalidBool)
        }
    }

    pub fn bytes_at(&self, k: usize) -> (v: Result<Vec<u8>, StateError>)
        requires
            self.wf(),
            k < self.ranges@.len(),
        ensures
            match v {
                Ok(b) => bytes_field(self.all()[k as int]) == Ok::<Seq<u8>, StateError>(b@),
                Err(e) => bytes_field(self.all()[k as int]) == Err::<Seq<u8>, StateError>(e),
            },
    {
        let part = self.chars_at(k);
        match decode_hex(part.as_slice()) {
            Some(b) => Ok(b),
            None => Err(StateError::InvalidHex),
        }
    }

    pub fn text_at(&self, k: usize) -> (v: Result<String, StateError>)
        requires
            self.wf(),
            k < self.ranges@.len(),
        ensures
            match v {
                Ok(t) => text_field(self.all()[k as int]) == Ok::<Seq<char>, StateError>(t@),
                Err(e) => text_field(self.all()[k as int]) == Err::<Seq<char>, StateError>(e),
            },
    {
        let bytes = match self.bytes_at(k) {
            Ok(b) => b,
            Err(e) => {
                return Err(e);
            },
        };
        match string_from_utf8(bytes) {
            Some(t) => Ok(t),
            None => Err(StateError::InvalidUtf8),
        }
    }

    pub fn optional_text_at(&self, k: usize) -> (v: Result<String, StateError>)
        requires
            self.wf(),
            k < self.ranges@.len(),
        ensures
            match v {
                Ok(t) => optional_text_field(self.all()[k as int]) == Ok::<Seq<char>, StateError>(
                    t@,
                ),
                Err(e) => optional_text_field(self.all()[k as int]) == Err::<Seq<char>, StateError>(
                    e,
                ),
            },
    {
        let part = self.chars_at(k);
        if part.len() == 1 && part[0] == '-' {
            assert(part@ =~= seq!['-']);
            let empty = String::new();
            assert(empty@ =~= Seq::<char>::empty());
            return Ok(empty);
        }
        self.text_at(k)
    }

    pub fn palette_at(&self, k: usize) -> (v: Result<Vec<u32>, StateError>)
        requires
            self.wf(),
            k < self.ranges@.len(),
        ensures
            match v {
                Ok(p) => palette_field(self.all()[k as int]) == Ok::<Seq<u32>, StateError>(p@),
                Err(e) => palette_field(self.all()[k as int]) == Err::<Seq<u32>, StateError>(e),
            },
    {
        let bytes = match self.bytes_at(k) {
            Ok(b) => b,
            Err(e) => {
                return Err(e);
            },
        };
        if bytes.len() % 4 != 0 {
            return Err(StateError::InvalidPalette);
        }
        let mut palette: Vec<u32> = Vec::new();
        let mut j: usize = 0;
        while j < bytes.len()
            invariant
                bytes@.len() % 4 == 0,
                j % 4 == 0,
                0 <= j <= bytes@.len(),
                palette@ == Seq::new((j / 4) as nat, |i: int| be_u32(bytes@, i)),
            decreases bytes@.len() - j,
        {
            assert(j + 4 <= bytes@.len());
            let value: u32 = (bytes[j] as u32) * 0x100_0000 + (bytes[j + 1] as u32) * 0x1_0000 + (
            bytes[j + 2] as u32) * 0x100 + (bytes[j + 3] as u32);
            assert(4 * (j / 4) == j);
            assert(value == be_u32(bytes@, (j / 4) as int));
            palette.push(value);
            j = j + 4;
            assert(palette@ =~= Seq::new((j / 4) as nat, |i: int| be_u32(bytes@, i)));
        }
        Ok(palette)
    }

    pub fn surface_kind_at(&self, k: usize) -> (v: Result<SurfaceKind, StateError>)
        requires
            self.wf(),
            k < self.ranges@.len(),
        ensures
            v == surface_kind_field(self.all()[k as int]),
    {
        match self.code_at(k) {
            Err(e) => Err(e),
            Ok(c) => {
                let kind = SurfaceKind::from_code(c);
                if kind.known() {
                    Ok(kind)
                } else {
                    Err(StateError::InvalidSurfaceKind(c))
                }
            },
        }
    }

    pub fn cursor_shape_at(&self, k: usize) -> (v: Result<CursorShape, StateError>)
        requires
            self.wf(),
            k < self.ranges@.len(),
        ensures
            v == cursor_shape_field(self.all()[k as int]),
    {
        match self.code_at(k) {
            Err(e) => Err(e),
            Ok(c) => {
                let kind = CursorShape::from_code(c);
                if kind.known() {
                    Ok(kind)
                } else {
                    Err(StateError::InvalidCursorShape(c))
                }
            },
        }
    }

    pub fn mouse_mode_at(&self, k: usize) -> (v: Result<MouseTrackingMode, StateError>)
        requires
            self.wf(),
            k < self.ranges@.len(),
        ensures
            v == mouse_mode_field(self.all()[k as int]),
    {
        match self.code_at(k) {
            Err(e) => Err(e),
            Ok(c) => {
                let kind = MouseTrackingMode::from_code(c);
                if kind.known() {
                    Ok(kind)
                } else {
                    Err(StateError::InvalidMouseTrackingMode(c))
                }
            },
        }
    }

    pub fn mouse_format_at(&self, k: usize) -> (v: Result<MouseFormat, StateError>)
        requires
            self.wf(),
            k < self.ranges@.len(),
        ensures
            v == mouse_format_field(self.all()[k as int]),
    {
        match self.code_at(k) {
            Err(e) => Err(e),
            Ok(c) => {
                let kind = MouseFormat::from_code(c);
                if kind.known() {
                    Ok(kind)
                } else {
                    Err(StateError::InvalidMouseFormat(c))
                }
            },
        }
    }

    pub fn prompt_at(&self, k: usize) -> (v: Result<RowSemanticPrompt, StateError>)
        requires
            self.wf(),
            k < self.ranges@.len(),
        ensures
            v == prompt_field(self.all()[k as int]),
    {
        match self.code_at(k) {
            Err(e) => Err(e),
            Ok(c) => {
                let kind = RowSemanticPrompt::from_code(c);
                if kind.known() {
                    Ok(kind)
                } else {
                    Err(StateError::InvalidRowSemanticPrompt(c))
                }
            },
        }
    }

    pub fn content_at(&self, k: usize) -> (v: Result<CellSemanticContent, StateError>)
        requires
            self.wf(),
            k < self.ranges@.len(),
        ensures
            v == content_field(self.all()[k as int]),
    {
        match self.code_at(k) {
            Err(e) => Err(e),
            Ok(c) => {
                let kind = CellSemanticContent::from_code(c);
                if kind.known() {
                    Ok(kind)
                } else {
                    Err(StateError::InvalidCellSemanticContent(c))
                }
            },
        }
    }
}

// ---------------------------------------------------------------------------
// Reading the persisted state
// ---------------------------------------------------------------------------

/// A surface as its header line opens it: blank rows, default modes, no
/// colors, styles or hyperlinks yet.
pub open spec fn blank_surface(
    pane_id: Seq<char>,
    version: u64,
    cols: u32,
    rows: u32,
    surface: SurfaceKind,
) -> PaneSurfaceView {
    PaneSurfaceView {
        pane_id,
        version,
        cols,
        rows,
        surface,
        cursor: None,
        modes: TerminalModeSummary::initial(),
        title: Seq::empty(),
        working_directory: Seq::empty(),
        colors: no_colors(),
        styles: Seq::empty(),
        hyperlinks: Seq::empty(),
        row_text: Seq::new(rows as nat, |i: int| Seq::<char>::empty()),
        row_runs: Seq::new(rows as nat, |i: int| Seq::<CellRunView>::empty()),
        row_dirty_hashes: Seq::new(rows as nat, |i: int| 0u64),
        row_semantic_prompts: Seq::new(rows as nat, |i: int| RowSemanticPrompt::Unmarked),
        row_dirty: Seq::new(rows as nat, |i: int| false),
        row_kitty_placeholders: Seq::new(rows as nat, |i: int| false),
        row_state_hashes: Seq::new(rows as nat, |i: int| 0u64),
    }
}

/// `cursor row col visible shape [blinking]`; blinking defaults to on.
pub open spec fn cursor_line(f: Seq<Seq<char>>, b: PaneSurfaceView) -> Result<PaneSurfaceView, StateError> {
    match u32_field(f[1]) {
        Err(e) => Err(e),
        Ok(row) => match u32_field(f[2]) {
            Err(e) => Err(e),
            Ok(col) => match bool_field(f[3]) {
                Err(e) => Err(e),
                Ok(visible) => match cursor_shape_field(f[4]) {
                    Err(e) => Err(e),
                    Ok(shape) => match (if f.len() == 6 {
                        bool_field(f[5])
                    } else {
                        Ok(true)
                    }) {
                        Err(e) => Err(e),
                        Ok(blinking) => Ok(
                            PaneSurfaceView {
                                cursor: Some(CursorSummary { row, col, visible, shape, blinking }),
                                ..b
                            },
                        ),
                    },
                },
            },
        },
    }
}

/// The seven mode flags, in the order they are written.
pub open spec fn mode_flags(f: Seq<Seq<char>>) -> Result<Seq<bool>, StateError>
    decreases f.len(),
{
    if f.len() == 0 {
        Ok(Seq::empty())
    } else {
        match mode_flags(f.drop_last()) {
            Err(e) => Err(e),
            Ok(flags) => match bool_field(f.last()) {
                Err(e) => Err(e),
                Ok(flag) => Ok(flags.push(flag)),
            },
        }
    }
}

/// `modes` and seven flags, then optionally mouse tracking mode and format;
/// without them mouse reporting is off.
pub open spec fn modes_line(f: Seq<Seq<char>>, b: PaneSurfaceView) -> Result<PaneSurfaceView, StateError> {
    match mode_flags(f.subrange(1, 8)) {
        Err(e) => Err(e),
        Ok(flags) => match (if f.len() == 10 {
            mouse_mode_field(f[8])
        } else {
            Ok(MouseTrackingMode::Off)
        }) {
            Err(e) => Err(e),
            Ok(mode) => match (if f.len() == 10 {
                mouse_format_field(f[9])
            } else {
                Ok(MouseFormat::X10)
            }) {
                Err(e) => Err(e),
                Ok(format) => Ok(
                    PaneSurfaceView {
                        modes: TerminalModeSummary {
                            bracketed_paste: flags[0],
                            mouse_tracking: flags[1],
                            focus_reporting: flags[2],
                            application_keypad: flags[3],
                            application_cursor: flags[4],
                            origin: flags[5],
                            wraparound: flags[6],
                            mouse_tracking_mode: mode,
                            mouse_format: format,
                        },
                        ..b
                    },
                ),
            },
        },
    }
}

/// `colors fg bg cursor [cursor_set] palette`; without the flag, the cursor
/// color counts as set when it is not zero. The cursor color is read first
/// in the short form.
pub open spec fn colors_line(f: Seq<Seq<char>>, b: PaneSurfaceView) -> Result<PaneSurfaceView, StateError> {
    if f.len() == 5 {
        match u32_field(f[3]) {
            Err(e) => Err(e),
            Ok(cursor) => match u32_field(f[1]) {
                Err(e) => Err(e),
                Ok(fg) => match u32_field(f[2]) {
                    Err(e) => Err(e),
                    Ok(bg) => match palette_field(f[4]) {
                        Err(e) => Err(e),
                        Ok(palette) => Ok(
                            PaneSurfaceView {
                                colors: crate::surface::ColorsView {
                                    default_fg_rgba: fg,
                                    default_bg_rgba: bg,
                                    cursor_rgba: cursor,
                                    cursor_rgba_set: cursor != 0,
                                    palette_rgba: palette,
                                    palette_diff_start: None,
                                    palette_diff_rgba: Seq::empty(),
                                },
                                ..b
                            },
                        ),
                    },
                },
            },
        }
    } else {
        match u32_field(f[1]) {
            Err(e) => Err(e),
            Ok(fg) => match u32_field(f[2]) {
                Err(e) => Err(e),
                Ok(bg) => match u32_field(f[3]) {
                    Err(e) => Err(e),
                    Ok(cursor) => match bool_field(f[4]) {
                        Err(e) => Err(e),
                        Ok(set) => match palette_field(f[5]) {
                            Err(e) => Err(e),
                            Ok(palette) => Ok(
                                PaneSurfaceView {
                                    colors: crate::surface::ColorsView {
                                        default_fg_rgba: fg,
                                        default_bg_rgba: bg,
                                        cursor_rgba: cursor,
                                        cursor_rgba_set: set,
                                        palette_rgba: palette,
                                        palette_diff_start: None,
                                        palette_diff_rgba: Seq::empty(),
                                    },
                                    ..b
                                },
                            ),
                        },
                    },
                },
            },
        }
    }
}

/// `style fg bg underline flags` appends to the style table.
pub open spec fn style_line(f: Seq<Seq<char>>, b: PaneSurfaceView) -> Result<PaneSurfaceView, StateError> {
    match u32_field(f[1]) {
        Err(e) => Err(e),
        Ok(fg) => match u32_field(f[2]) {
            Err(e) => Err(e),
            Ok(bg) => match u32_field(f[3]) {
                Err(e) => Err(e),
                Ok(underline) => match u32_field(f[4]) {
                    Err(e) => Err(e),
                    Ok(flags) => Ok(
                        PaneSurfaceView {
                            styles: b.styles.push(
                                StyleSummary { fg_rgba: fg, bg_rgba: bg, underline_rgba: underline, flags },
                            ),
                            ..b
                        },
                    ),
                },
            },
        },
    }
}

/// `hyperlink id uri osc8_id params` appends to the hyperlink table.
pub open spec fn hyperlink_line(f: Seq<Seq<char>>, b: PaneSurfaceView) -> Result<PaneSurfaceView, StateError> {
    match u32_field(f[1]) {
        Err(e) => Err(e),
        Ok(id) => match text_field(f[2]) {
            Err(e) => Err(e),
            Ok(uri) => match optional_text_field(f[3]) {
                Err(e) => Err(e),
                Ok(osc8_id) => match optional_text_field(f[4]) {
                    Err(e) => Err(e),
                    Ok(params) => Ok(
                        PaneSurfaceView {
                            hyperlinks: b.hyperlinks.push(HyperlinkView { id, uri, osc8_id, params }),
                            ..b
                        },
                    ),
                },
            },
        },
    }
}

/// `row index text` sets a row's text.
pub open spec fn row_line(f: Seq<Seq<char>>, b: PaneSurfaceView) -> Result<PaneSurfaceView, StateError> {
    match usize_field(f[1]) {
        Err(e) => Err(e),
        Ok(row) => if row >= b.row_text.len() {
            Err(StateError::RowOutsideSurface)
        } else {
            match text_field(f[2]) {
                Err(e) => Err(e),
                Ok(text) => Ok(PaneSurfaceView { row_text: b.row_text.update(row as int, text), ..b }),
            }
        },
    }
}

pub open spec fn optional_field<T>(present: bool, value: Result<T, StateError>) -> Result<
    Option<T>,
    StateError,
> {
    if present {
        match value {
            Ok(v) => Ok(Some(v)),
            Err(e) => Err(e),
        }
    } else {
        Ok(None)
    }
}

pub open spec fn updated_at<T>(values: Seq<T>, i: int, value: Option<T>) -> Seq<T> {
    match value {
        Some(v) => values.update(i, v),
        None => values,
    }
}

/// `rowmeta index prompt [dirty [kitty [state_hash [dirty_hash]]]]`.
pub open spec fn rowmeta_line(f: Seq<Seq<char>>, b: PaneSurfaceView) -> Result<PaneSurfaceView, StateError> {
    let n = f.len();
    match usize_field(f[1]) {
        Err(e) => Err(e),
        Ok(row) => if row >= b.row_semantic_prompts.len() || (n >= 4 && row >= b.row_dirty.len())
            || (n >= 5 && row >= b.row_kitty_placeholders.len()) || (n >= 6 && row
            >= b.row_state_hashes.len()) || (n >= 7 && row >= b.row_dirty_hashes.len()) {
            Err(StateError::RowMetaOutsideSurface)
        } else {
            let i = row as int;
            match prompt_field(f[2]) {
                Err(e) => Err(e),
                Ok(prompt) => match optional_field(n >= 4, bool_field(f[3])) {
                    Err(e) => Err(e),
                    Ok(dirty) => match optional_field(n >= 5, bool_field(f[4])) {
                        Err(e) => Err(e),
                        Ok(kitty) => match optional_field(n >= 6, u64_field(f[5])) {
                            Err(e) => Err(e),
                            Ok(state_hash) => match optional_field(n >= 7, u64_field(f[6])) {
                                Err(e) => Err(e),
                                Ok(dirty_hash) => Ok(
                                    PaneSurfaceView {
                                        row_semantic_prompts: b.row_semantic_prompts.update(i, prompt),
                                        row_dirty: updated_at(b.row_dirty, i, dirty),
                                        row_kitty_placeholders: updated_at(
                                            b.row_kitty_placeholders,
                                            i,
                                            kitty,
                                        ),
                                        row_state_hashes: updated_at(b.row_state_hashes, i, state_hash),
                                        row_dirty_hashes: updated_at(b.row_dirty_hashes, i, dirty_hash),
                                        ..b
                                    },
                                ),
                            },
                        },
                    },
                },
            }
        },
    }
}

/// `run index text widths style flags [hyperlink [content]]` appends a run
/// to a row; the hyperlink defaults to none, the content to output.
pub open spec fn run_line(f: Seq<Seq<char>>, b: PaneSurfaceView) -> Result<PaneSurfaceView, StateError> {
    let n = f.len();
    match usize_field(f[1]) {
        Err(e) => Err(e),
        Ok(row) => if row >= b.row_runs.len() {
            Err(StateError::RunOutsideSurface)
        } else {
            match text_field(f[2]) {
                Err(e) => Err(e),
                Ok(text) => match bytes_field(f[3]) {
                    Err(e) => Err(e),
                    Ok(widths) => match u32_field(f[4]) {
                        Err(e) => Err(e),
                        Ok(style_id) => match u32_field(f[5]) {
                            Err(e) => Err(e),
                            Ok(flags) => match (if n >= 7 {
                                u32_field(f[6])
                            } else {
                                Ok(0u32)
                            }) {
                                Err(e) => Err(e),
                                Ok(hyperlink_id) => match (if n >= 8 {
                                    content_field(f[7])
                                } else {
                                    Ok(CellSemanticContent::Output)
                                }) {
                                    Err(e) => Err(e),
                                    Ok(content) => Ok(
                                        PaneSurfaceView {
                                            row_runs: b.row_runs.update(
                                                row as int,
                                                b.row_runs[row as int].push(
                                                    CellRunView {
                                                        text,
                                                        cell_widths: widths,
                                                        style_id,
                                                        flags,
                                                        hyperlink_id,
                                                        semantic_content: content,
                                                    },
                                                ),
                                            ),
                                            ..b
                                        },
                                    ),
                                },
                            },
                        },
                    },
                },
            }
        },
    }
}

/// One line of a surface's body.
#[verifier::opaque]
pub open spec fn body_line(f: Seq<Seq<char>>, b: PaneSurfaceView) -> Result<PaneSurfaceView, StateError> {
    let n = f.len();
    if n == 0 {
        Err(StateError::InvalidBodyLine)
    } else if f[0] == "cursor"@ && n == 2 && f[1] == "none"@ {
        Ok(PaneSurfaceView { cursor: None, ..b })
    } else if f[0] == "cursor"@ && (n == 5 || n == 6) {
        cursor_line(f, b)
    } else if f[0] == "modes"@ && (n == 8 || n == 10) {
        modes_line(f, b)
    } else if f[0] == "title"@ && n == 2 {
        match text_field(f[1]) {
            Err(e) => Err(e),
            Ok(title) => Ok(PaneSurfaceView { title, ..b }),
        }
    } else if f[0] == "pwd"@ && n == 2 {
        match text_field(f[1]) {
            Err(e) => Err(e),
            Ok(working_directory) => Ok(PaneSurfaceView { working_directory, ..b }),
        }
    } else if f[0] == "colors"@ && (n == 5 || n == 6) {
        colors_line(f, b)
    } else if f[0] == "style"@ && n == 5 {
        style_line(f, b)
    } else if f[0] == "hyperlink"@ && n == 5 {
        hyperlink_line(f, b)
    } else if f[0] == "row"@ && n == 3 {
        row_line(f, b)
    } else if f[0] == "rowmeta"@ && 3 <= n <= 7 {
        rowmeta_line(f, b)
    } else if f[0] == "run"@ && 6 <= n <= 8 {
        run_line(f, b)
    } else {
        Err(StateError::InvalidBodyLine)
    }
}

/// Closing a surface: its hyperlink table must be valid; runs that do not
/// spell their row's text become plain; a surface without styles gets the
/// default one; every run must then refer to a known style and hyperlink.
#[verifier::opaque]
pub open spec fn finish_surface(b: PaneSurfaceView) -> Result<PaneSurfaceView, StateError> {
    match link_table_failure(b.hyperlinks) {
        Err(e) => Err(StateError::Surface(e)),
        Ok(()) => {
            let runs = normalized_runs(b.row_text, b.row_runs);
            let styles = if b.styles.len() == 0 {
                default_styles()
            } else {
                b.styles
            };
            match first_failure(runs, runs_style_check(styles)) {
                Err(e) => Err(StateError::Surface(e)),
                Ok(()) => match first_failure(runs, runs_hyperlink_check(b.hyperlinks)) {
                    Err(e) => Err(StateError::Surface(e)),
                    Ok(()) => Ok(PaneSurfaceView { row_runs: runs, styles, ..b }),
                },
            }
        },
    }
}

/// `scrollback pane version start count total`: a cached range, numbered
/// from 1 and never empty.
pub open spec fn scrollback_line(f: Seq<Seq<char>>, st: AttachStateView) -> Result<
    AttachStateView,
    StateError,
> {
    match u64_field(f[3]) {
        Err(e) => Err(e),
        Ok(start_line) => match u32_field(f[4]) {
            Err(e) => Err(e),
            Ok(line_count) => if start_line == 0 {
                Err(StateError::ScrollbackStartLine)
            } else if line_count == 0 {
                Err(StateError::ScrollbackLineCount)
            } else {
                match text_field(f[1]) {
                    Err(e) => Err(e),
                    Ok(pane_id) => match u64_field(f[2]) {
                        Err(e) => Err(e),
                        Ok(version) => match u64_field(f[5]) {
                            Err(e) => Err(e),
                            Ok(total_lines) => Ok(
                                AttachStateView {
                                    scrollbacks: st.scrollbacks.push(
                                        ScrollbackView { pane_id, version, start_line, line_count, total_lines },
                                    ),
                                    ..st
                                },
                            ),
                        },
                    },
                }
            },
        },
    }
}

/// `surface pane version cols rows [kind]` opens a surface; the kind
/// defaults to the main screen.
pub open spec fn surface_line(f: Seq<Seq<char>>) -> Result<PaneSurfaceView, StateError> {
    match text_field(f[1]) {
        Err(e) => Err(e),
        Ok(pane_id) => match u64_field(f[2]) {
            Err(e) => Err(e),
            Ok(version) => match u32_field(f[3]) {
                Err(e) => Err(e),
                Ok(cols) => match u32_field(f[4]) {
                    Err(e) => Err(e),
                    Ok(rows) => match (if f.len() == 6 {
                        surface_kind_field(f[5])
                    } else {
                        Ok(SurfaceKind::Main)
                    }) {
                        Err(e) => Err(e),
                        Ok(kind) => Ok(blank_surface(pane_id, version, cols, rows, kind)),
                    },
                },
            },
        },
    }
}

/// `scope socket dev ino [ctime ctime_nsec]`; without the change time it
/// reads as zero.
pub open spec fn scope_fields(f: Seq<Seq<char>>) -> Result<SocketIdentity, StateError> {
    match u64_field(f[2]) {
        Err(e) => Err(e),
        Ok(dev) => match u64_field(f[3]) {
            Err(e) => Err(e),
            Ok(ino) => if f.len() == 4 {
                Ok(SocketIdentity { dev, ino, ctime: 0, ctime_nsec: 0 })
            } else {
                match i64_field(f[4]) {
                    Err(e) => Err(e),
                    Ok(ctime) => match i64_field(f[5]) {
                        Err(e) => Err(e),
                        Ok(ctime_nsec) => Ok(SocketIdentity { dev, ino, ctime, ctime_nsec }),
                    },
                }
            },
        },
    }
}

/// A line between surfaces: the socket scope, a scrollback range, or a
/// surface header.
#[verifier::opaque]
pub open spec fn top_line(f: Seq<Seq<char>>, st: AttachStateView) -> Result<
    (AttachStateView, Option<PaneSurfaceView>),
    StateError,
> {
    let n = f.len();
    if (n == 4 || n == 6) && f[0] == "scope"@ && f[1] == "socket"@ {
        match scope_fields(f) {
            Err(e) => Err(e),
            Ok(scope) => Ok((AttachStateView { scope: Some(scope), ..st }, None)),
        }
    } else if n == 6 && f[0] == "scrollback"@ {
        match scrollback_line(f, st) {
            Err(e) => Err(e),
            Ok(next) => Ok((next, None)),
        }
    } else if (n == 5 || n == 6) && f[0] == "surface"@ {
        match surface_line(f) {
            Err(e) => Err(e),
            Ok(b) => Ok((st, Some(b))),
        }
    } else {
        Err(StateError::InvalidSurfaceLine)
    }
}

/// One line of state, inside a surface or between surfaces.
#[verifier::opaque]
pub open spec fn decode_step(line: Seq<char>, st: AttachStateView, open: Option<PaneSurfaceView>) -> Result<
    (AttachStateView, Option<PaneSurfaceView>),
    StateError,
> {
    match open {
        Some(b) => if line == "end"@ {
            match finish_surface(b) {
                Err(e) => Err(e),
                Ok(s) => Ok((AttachStateView { surfaces: st.surfaces.push(s), ..st }, None)),
            }
        } else {
            match body_line(crate::text::split_on(line, ' '), b) {
                Err(e) => Err(e),
                Ok(next) => Ok((st, Some(next))),
            }
        },
        None => top_line(crate::text::split_on(line, ' '), st),
    }
}

/// The lines from `i` on, read into the state built so far.
pub open spec fn decode_from(
    lines: Seq<Seq<char>>,
    i: int,
    st: AttachStateView,
    open: Option<PaneSurfaceView>,
) -> Result<AttachStateView, StateError>
    decreases lines.len() - i,
{
    if i >= lines.len() {
        if open is Some {
            Err(StateError::UnterminatedSurface)
        } else {
            Ok(st)
        }
    } else {
        match decode_step(lines[i], st, open) {
            Err(e) => Err(e),
            Ok((next, next_open)) => decode_from(lines, i + 1, next, next_open),
        }
    }
}

/// The format versions this reader accepts.
pub open spec fn is_state_header(line: Seq<char>) -> bool {
    ||| line == "NMUX_CLIENT_STATE 1"@
    ||| line == "NMUX_CLIENT_STATE 2"@
    ||| line == "NMUX_CLIENT_STATE 3"@
    ||| line == "NMUX_CLIENT_STATE 4"@
    ||| line == "NMUX_CLIENT_STATE 5"@
    ||| line == "NMUX_CLIENT_STATE 6"@
    ||| line == "NMUX_CLIENT_STATE 7"@
    ||| line == "NMUX_CLIENT_STATE 8"@
}

/// The client state a persisted text describes, or why it is refused.
pub open spec fn decoded(text: Seq<char>) -> Result<AttachStateView, StateError> {
    let lines = crate::text::text_lines(text);
    if lines.len() == 0 || !is_state_header(lines[0]) {
        Err(StateError::InvalidHeader)
    } else {
        decode_from(lines, 1, AttachStateView::empty(), None)
    }
}

// ---------------------------------------------------------------------------
// The reader
// ---------------------------------------------------------------------------

fn read_cursor(f: &Fields, b: &mut ClientPaneSurface) -> (read: Result<(), StateError>)
    requires
        f.wf(),
        f.ranges@.len() == 5 || f.ranges@.len() == 6,
    ensures
        match read {
            Ok(()) => cursor_line(f.all(), old(b)@) == Ok::<PaneSurfaceView, StateError>(final(b)@),
            Err(e) => cursor_line(f.all(), old(b)@) == Err::<PaneSurfaceView, StateError>(e),
        },
{
    let row = match f.u32_at(1) {
        Ok(v) => v,
        Err(e) => {
            return Err(e);
        },
    };
    let col = match f.u32_at(2) {
        Ok(v) => v,
        Err(e) => {
            return Err(e);
        },
    };
    let visible = match f.bool_at(3) {
        Ok(v) => v,
        Err(e) => {
            return Err(e);
        },
    };
    let shape = match f.cursor_shape_at(4) {
        Ok(v) => v,
        Err(e) => {
            return Err(e);
        },
    };
    let blinking = if f.count() == 6 {
        match f.bool_at(5) {
            Ok(v) => v,
            Err(e) => {
                return Err(e);
            },
        }
    } else {
        true
    };
    b.cursor = Some(CursorSummary { row, col, visible, shape, blinking });
    assert(b@ =~= cursor_line(f.all(), old(b)@)->Ok_0);
    Ok(())
}

fn read_modes(f: &Fields, b: &mut ClientPaneSurface) -> (read: Result<(), StateError>)
    requires
        f.wf(),
        f.ranges@.len() == 8 || f.ranges@.len() == 10,
    ensures
        match read {
            Ok(()) => modes_line(f.all(), old(b)@) == Ok::<PaneSurfaceView, StateError>(final(b)@),
            Err(e) => modes_line(f.all(), old(b)@) == Err::<PaneSurfaceView, StateError>(e),
        },
{
    let ghost all = f.all();
    let mut flags: Vec<bool> = Vec::new();
    let mut k: usize = 1;
    assert(all.subrange(1, 1) =~= Seq::<Seq<char>>::empty());
    while k < 8
        invariant
            f.wf(),
            all == f.all(),
            f.ranges@.len() >= 8,
            1 <= k <= 8,
            flags@.len() == k - 1,
            mode_flags(all.subrange(1, k as int)) == Ok::<Seq<bool>, StateError>(flags@),
        decreases 8 - k,
    {
        proof {
            assert(all.subrange(1, k + 1).drop_last() =~= all.subrange(1, k as int));
            assert(all.subrange(1, k + 1).last() == all[k as int]);
        }
        match f.bool_at(k) {
            Ok(v) => {
                flags.push(v);
            },
            Err(e) => {
                proof {
                    lemma_mode_flags_extends(all.subrange(1, 8), k as int);
                    assert(all.subrange(1, 8).take(k as int) =~= all.subrange(1, k + 1));
                    assert(all.subrange(1, 8).take(7) =~= all.subrange(1, 8));
                }
                return Err(e);
            },
        }
        k = k + 1;
    }
    let mode = if f.count() == 10 {
        match f.mouse_mode_at(8) {
            Ok(v) => v,
            Err(e) => {
                return Err(e);
            },
        }
    } else {
        MouseTrackingMode::Off
    };
    let format = if f.count() == 10 {
        match f.mouse_format_at(9) {
            Ok(v) => v,
            Err(e) => {
                return Err(e);
            },
        }
    } else {
        MouseFormat::X10
    };
    b.modes = TerminalModeSummary {
        bracketed_paste: flags[0],
        mouse_tracking: flags[1],
        focus_reporting: flags[2],
        application_keypad: flags[3],
        application_cursor: flags[4],
        origin: flags[5],
        wraparound: flags[6],
        mouse_tracking_mode: mode,
        mouse_format: format,
    };
    assert(b@ =~= modes_line(f.all(), old(b)@)->Ok_0);
    Ok(())
}

proof fn lemma_mode_flags_extends(f: Seq<Seq<char>>, k: int)
    requires
        1 <= k <= f.len(),
        mode_flags(f.take(k)) is Err,
    ensures
        mode_flags(f.take(f.len() as int)) == mode_flags(f.take(k)),
    decreases f.len() - k,
{
    if k < f.len() {
        assert(f.take(k + 1).drop_last() =~= f.take(k));
        lemma_mode_flags_extends(f, k + 1);
    }
}

fn read_colors(f: &Fields, b: &mut ClientPaneSurface) -> (read: Result<(), StateError>)
    requires
        f.wf(),
        f.ranges@.len() == 5 || f.ranges@.len() == 6,
    ensures
        match read {
            Ok(()) => colors_line(f.all(), old(b)@) == Ok::<PaneSurfaceView, StateError>(final(b)@),
            Err(e) => colors_line(f.all(), old(b)@) == Err::<PaneSurfaceView, StateError>(e),
        },
{
    let (fg, bg, cursor, set, palette_at) = if f.count() == 5 {
        let cursor = match f.u32_at(3) {
            Ok(v) => v,
            Err(e) => {
                return Err(e);
            },
        };
        let fg = match f.u32_at(1) {
            Ok(v) => v,
            Err(e) => {
                return Err(e);
            },
        };
        let bg = match f.u32_at(2) {
            Ok(v) => v,
            Err(e) => {
                return Err(e);
            },
        };
        (fg, bg, cursor, cursor != 0, 4)
    } else {
        let fg = match f.u32_at(1) {
            Ok(v) => v,
            Err(e) => {
                return Err(e);
            },
        };
        let bg = match f.u32_at(2) {
            Ok(v) => v,
            Err(e) => {
                return Err(e);
            },
        };
        let cursor = match f.u32_at(3) {
            Ok(v) => v,
            Err(e) => {
                return Err(e);
            },
        };
        let set = match f.bool_at(4) {
            Ok(v) => v,
            Err(e) => {
                return Err(e);
            },
        };
        (fg, bg, cursor, set, 5)
    };
    let palette = match f.palette_at(palette_at) {
        Ok(v) => v,
        Err(e) => {
            return Err(e);
        },
    };
    b.colors = TerminalColorSummary {
        default_fg_rgba: fg,
        default_bg_rgba: bg,
        cursor_rgba: cursor,
        cursor_rgba_set: set,
        palette_rgba: palette,
        palette_diff_start: None,
        palette_diff_rgba: Vec::new(),
    };
    assert(b@ =~= colors_line(f.all(), old(b)@)->Ok_0);
    Ok(())
}

fn read_style(f: &Fields, b: &mut ClientPaneSurface) -> (read: Result<(), StateError>)
    requires
        f.wf(),
        f.ranges@.len() == 5,
    ensures
        match read {
            Ok(()) => style_line(f.all(), old(b)@) == Ok::<PaneSurfaceView, StateError>(final(b)@),
            Err(e) => style_line(f.all(), old(b)@) == Err::<PaneSurfaceView, StateError>(e),
        },
{
    let fg = match f.u32_at(1) {
        Ok(v) => v,
        Err(e) => {
            return Err(e);
        },
    };
    let bg = match f.u32_at(2) {
        Ok(v) => v,
        Err(e) => {
            return Err(e);
        },
    };
    let underline = match f.u32_at(3) {
        Ok(v) => v,
        Err(e) => {
            return Err(e);
        },
    };
    let flags = match f.u32_at(4) {
        Ok(v) => v,
        Err(e) => {
            return Err(e);
        },
    };
    b.styles.push(StyleSummary { fg_rgba: fg, bg_rgba: bg, underline_rgba: underline, flags });
    assert(b@ =~= style_line(f.all(), old(b)@)->Ok_0);
    Ok(())
}

fn read_hyperlink(f: &Fields, b: &mut ClientPaneSurface) -> (read: Result<(), StateError>)
    requires
        f.wf(),
        f.ranges@.len() == 5,
    ensures
        match read {
            Ok(()) => hyperlink_line(f.all(), old(b)@) == Ok::<PaneSurfaceView, StateError>(
                final(b)@,
            ),
            Err(e) => hyperlink_line(f.all(), old(b)@) == Err::<PaneSurfaceView, StateError>(e),
        },
{
    let id = match f.u32_at(1) {
        Ok(v) => v,
        Err(e) => {
            return Err(e);
        },
    };
    let uri = match f.text_at(2) {
        Ok(v) => v,
        Err(e) => {
            return Err(e);
        },
    };
    let osc8_id = match f.optional_text_at(3) {
        Ok(v) => v,
        Err(e) => {
            return Err(e);
        },
    };
    let params = match f.optional_text_at(4) {
        Ok(v) => v,
        Err(e) => {
            return Err(e);
        },
    };
    let link = HyperlinkSummary { id, uri, osc8_id, params };
    let ghost before = b.hyperlinks;
    b.hyperlinks.push(link);
    proof {
        lemma_deep_push(before, b.hyperlinks, link);
    }
    assert(b@ =~= hyperlink_line(f.all(), old(b)@)->Ok_0);
    Ok(())
}

fn read_row(f: &Fields, b: &mut ClientPaneSurface) -> (read: Result<(), StateError>)
    requires
        f.wf(),
        f.ranges@.len() == 3,
    ensures
        match read {
            Ok(()) => row_line(f.all(), old(b)@) == Ok::<PaneSurfaceView, StateError>(final(b)@),
            Err(e) => row_line(f.all(), old(b)@) == Err::<PaneSurfaceView, StateError>(e),
        },
{
    let row = match f.usize_at(1) {
        Ok(v) => v,
        Err(e) => {
            return Err(e);
        },
    };
    if row >= b.row_text.len() {
        return Err(StateError::RowOutsideSurface);
    }
    let text = match f.text_at(2) {
        Ok(v) => v,
        Err(e) => {
            return Err(e);
        },
    };
    let ghost before = b.row_text;
    b.row_text.set(row, text);
    proof {
        lemma_deep_update(before, b.row_text, row as int, text);
    }
    assert(b@ =~= row_line(f.all(), old(b)@)->Ok_0);
    Ok(())
}

fn read_rowmeta(f: &Fields, b: &mut ClientPaneSurface) -> (read: Result<(), StateError>)
    requires
        f.wf(),
        3 <= f.ranges@.len() <= 7,
    ensures
        match read {
            Ok(()) => rowmeta_line(f.all(), old(b)@) == Ok::<PaneSurfaceView, StateError>(final(b)@),
            Err(e) => rowmeta_line(f.all(), old(b)@) == Err::<PaneSurfaceView, StateError>(e),
        },
{
    let n = f.count();
    let row = match f.usize_at(1) {
        Ok(v) => v,
        Err(e) => {
            return Err(e);
        },
    };
    if row >= b.row_semantic_prompts.len() || (n >= 4 && row >= b.row_dirty.len()) || (n >= 5
        && row >= b.row_kitty_placeholders.len()) || (n >= 6 && row >= b.row_state_hashes.len()) || (
    n >= 7 && row >= b.row_dirty_hashes.len()) {
        return Err(StateError::RowMetaOutsideSurface);
    }
    let prompt = match f.prompt_at(2) {
        Ok(v) => v,
        Err(e) => {
            return Err(e);
        },
    };
    let dirty = if n >= 4 {
        match f.bool_at(3) {
            Ok(v) => Some(v),
            Err(e) => {
                return Err(e);
            },
        }
    } else {
        None
    };
    let kitty = if n >= 5 {
        match f.bool_at(4) {
            Ok(v) => Some(v),
            Err(e) => {
                return Err(e);
            },
        }
    } else {
        None
    };
    let state_hash = if n >= 6 {
        match f.u64_at(5) {
            Ok(v) => Some(v),
            Err(e) => {
                return Err(e);
            },
        }
    } else {
        None
    };
    let dirty_hash = if n >= 7 {
        match f.u64_at(6) {
            Ok(v) => Some(v),
            Err(e) => {
                return Err(e);
            },
        }
    } else {
        None
    };
    b.row_semantic_prompts.set(row, prompt);
    if let Some(v) = dirty {
        b.row_dirty.set(row, v);
    }
    if let Some(v) = kitty {
        b.row_kitty_placeholders.set(row, v);
    }
    if let Some(v) = state_hash {
        b.row_state_hashes.set(row, v);
    }
    if let Some(v) = dirty_hash {
        b.row_dirty_hashes.set(row, v);
    }
    assert(b@ =~= rowmeta_line(f.all(), old(b)@)->Ok_0);
    Ok(())
}

fn read_run(f: &Fields, b: &mut ClientPaneSurface) -> (read: Result<(), StateError>)
    requires
        f.wf(),
        6 <= f.ranges@.len() <= 8,
    ensures
        match read {
            Ok(()) => run_line(f.all(), old(b)@) == Ok::<PaneSurfaceView, StateError>(final(b)@),
            Err(e) => run_line(f.all(), old(b)@) == Err::<PaneSurfaceView, StateError>(e),
        },
{
    let n = f.count();
    let row = match f.usize_at(1) {
        Ok(v) => v,
        Err(e) => {
            return Err(e);
        },
    };
    if row >= b.row_runs.len() {
        return Err(StateError::RunOutsideSurface);
    }
    let text = match f.text_at(2) {
        Ok(v) => v,
        Err(e) => {
            return Err(e);
        },
    };
    let cell_widths = match f.bytes_at(3) {
        Ok(v) => v,
        Err(e) => {
            return Err(e);
        },
    };
    let style_id = match f.u32_at(4) {
        Ok(v) => v,
        Err(e) => {
            return Err(e);
        },
    };
    let flags = match f.u32_at(5) {
        Ok(v) => v,
        Err(e) => {
            return Err(e);
        },
    };
    let hyperlink_id = if n >= 7 {
        match f.u32_at(6) {
            Ok(v) => v,
            Err(e) => {
                return Err(e);
            },
        }
    } else {
        0
    };
    let semantic_content = if n >= 8 {
        match f.content_at(7) {
            Ok(v) => v,
            Err(e) => {
                return Err(e);
            },
        }
    } else {
        CellSemanticContent::Output
    };
    let run = CellRunSummary { text, cell_widths, style_id, flags, hyperlink_id, semantic_content };
    let ghost before = b.row_runs;
    let ghost inner_before = b.row_runs@[row as int];
    b.row_runs[row].push(run);
    proof {
        lemma_deep_push(inner_before, b.row_runs@[row as int], run);
        lemma_deep_update(before, b.row_runs, row as int, b.row_runs@[row as int]);
        assert(before.deep_view()[row as int] == inner_before.deep_view());
    }
    assert(b@ =~= run_line(f.all(), old(b)@)->Ok_0);
    Ok(())
}

fn read_body_line(f: &Fields, b: &mut ClientPaneSurface) -> (read: Result<(), StateError>)
    requires
        f.wf(),
    ensures
        match read {
            Ok(()) => body_line(f.all(), old(b)@) == Ok::<PaneSurfaceView, StateError>(final(b)@),
            Err(e) => body_line(f.all(), old(b)@) == Err::<PaneSurfaceView, StateError>(e),
        },
{
    reveal(body_line);
    let n = f.count();
    if n == 0 {
        return Err(StateError::InvalidBodyLine);
    }
    if f.is(0, "cursor") && n == 2 && f.is(1, "none") {
        b.cursor = None;
        assert(b@ =~= body_line(f.all(), old(b)@)->Ok_0);
        Ok(())
    } else if f.is(0, "cursor") && (n == 5 || n == 6) {
        read_cursor(f, b)
    } else if f.is(0, "modes") && (n == 8 || n == 10) {
        read_modes(f, b)
    } else if f.is(0, "title") && n == 2 {
        match f.text_at(1) {
            Ok(t) => {
                b.title = t;
                assert(b@ =~= body_line(f.all(), old(b)@)->Ok_0);
                Ok(())
            },
            Err(e) => Err(e),
        }
    } else if f.is(0, "pwd") && n == 2 {
        match f.text_at(1) {
            Ok(t) => {
                b.working_directory = t;
                assert(b@ =~= body_line(f.all(), old(b)@)->Ok_0);
                Ok(())
            },
            Err(e) => Err(e),
        }
    } else if f.is(0, "colors") && (n == 5 || n == 6) {
        read_colors(f, b)
    } else if f.is(0, "style") && n == 5 {
        read_style(f, b)
    } else if f.is(0, "hyperlink") && n == 5 {
        read_hyperlink(f, b)
    } else if f.is(0, "row") && n == 3 {
        read_row(f, b)
    } else if f.is(0, "rowmeta") && 3 <= n && n <= 7 {
        read_rowmeta(f, b)
    } else if f.is(0, "run") && 6 <= n && n <= 8 {
        read_run(f, b)
    } else {
        Err(StateError::InvalidBodyLine)
    }
}

/// Closes a surface read from persisted state.
fn finish_read_surface(b: ClientPaneSurface) -> (surface: Result<ClientPaneSurface, StateError>)
    requires
        b@.row_text.len() <= b@.row_runs.len(),
    ensures
        match surface {
            Ok(s) => finish_surface(b@) == Ok::<PaneSurfaceView, StateError>(s@),
            Err(e) => finish_surface(b@) == Err::<PaneSurfaceView, StateError>(e),
        },
{
    reveal(finish_surface);
    let mut b = b;
    let ghost start = b@;
    if let Err(e) = crate::surface::validate_hyperlink_table(&b.hyperlinks) {
        return Err(StateError::Surface(e));
    }
    let mut runs: Vec<Vec<CellRunSummary>> = Vec::new();
    std::mem::swap(&mut runs, &mut b.row_runs);
    let runs = crate::render::row_runs_for_text(&b.row_text, runs);
    b.row_runs = runs;
    if b.styles.len() == 0 {
        b.styles = default_style_summaries();
    }
    if let Err(e) = crate::surface::validate_cached_row_style_ids(&b.row_runs, &b.styles) {
        return Err(StateError::Surface(e));
    }
    if let Err(e) = crate::surface::validate_cached_row_hyperlink_ids(&b.row_runs, &b.hyperlinks) {
        return Err(StateError::Surface(e));
    }
    assert(b@ =~= finish_surface(start)->Ok_0);
    Ok(b)
}

fn scope_from_fields(f: &Fields) -> (scope: Result<SocketIdentity, StateError>)
    requires
        f.wf(),
        f.ranges@.len() == 4 || f.ranges@.len() == 6,
    ensures
        scope == scope_fields(f.all()),
{
    let dev = match f.u64_at(2) {
        Ok(v) => v,
        Err(e) => {
            return Err(e);
        },
    };
    let ino = match f.u64_at(3) {
        Ok(v) => v,
        Err(e) => {
            return Err(e);
        },
    };
    if f.count() == 4 {
        return Ok(SocketIdentity { dev, ino, ctime: 0, ctime_nsec: 0 });
    }
    let ctime = match f.i64_at(4) {
        Ok(v) => v,
        Err(e) => {
            return Err(e);
        },
    };
    let ctime_nsec = match f.i64_at(5) {
        Ok(v) => v,
        Err(e) => {
            return Err(e);
        },
    };
    Ok(SocketIdentity { dev, ino, ctime, ctime_nsec })
}

pub open spec fn open_view(open: Option<ClientPaneSurface>) -> Option<PaneSurfaceView> {
    match open {
        Some(b) => Some(b@),
        None => None,
    }
}

/// A body line keeps the number of rows of every row table.
proof fn lemma_body_line_rows(f: Seq<Seq<char>>, b: PaneSurfaceView)
    ensures
        body_line(f, b) matches Ok(next) ==> next.row_text.len() == b.row_text.len()
            && next.row_runs.len() == b.row_runs.len(),
{
    reveal(body_line);
}

fn read_top_line(f: &Fields, st: &mut ClientAttachState) -> (read: Result<
    Option<ClientPaneSurface>,
    StateError,
>)
    requires
        f.wf(),
    ensures
        match read {
            Ok(open) => top_line(f.all(), old(st)@) == Ok::<
                (AttachStateView, Option<PaneSurfaceView>),
                StateError,
            >((final(st)@, open_view(open))) && (open matches Some(b) ==> b@.row_text.len()
                == b@.row_runs.len()),
            Err(e) => top_line(f.all(), old(st)@) == Err::<
                (AttachStateView, Option<PaneSurfaceView>),
                StateError,
            >(e),
        },
{
    reveal(top_line);
    let n = f.count();
    if (n == 4 || n == 6) && f.is(0, "scope") && f.is(1, "socket") {
        let scope = match scope_from_fields(f) {
            Ok(v) => v,
            Err(e) => {
                return Err(e);
            },
        };
        st.scope = Some(scope);
        assert(st@ =~= top_line(f.all(), old(st)@)->Ok_0.0);
        return Ok(None);
    }
    if n == 6 && f.is(0, "scrollback") {
        let start_line = match f.u64_at(3) {
            Ok(v) => v,
            Err(e) => {
                return Err(e);
            },
        };
        let line_count = match f.u32_at(4) {
            Ok(v) => v,
            Err(e) => {
                return Err(e);
            },
        };
        if start_line == 0 {
            return Err(StateError::ScrollbackStartLine);
        }
        if line_count == 0 {
            return Err(StateError::ScrollbackLineCount);
        }
        let pane_id = match f.text_at(1) {
            Ok(v) => v,
            Err(e) => {
                return Err(e);
            },
        };
        let version = match f.u64_at(2) {
            Ok(v) => v,
            Err(e) => {
                return Err(e);
            },
        };
        let total_lines = match f.u64_at(5) {
            Ok(v) => v,
            Err(e) => {
                return Err(e);
            },
        };
        let entry = ClientPaneScrollback { pane_id, version, start_line, line_count, total_lines };
        let ghost before = st.scrollbacks;
        st.scrollbacks.push(entry);
        proof {
            lemma_deep_push(before, st.scrollbacks, entry);
        }
        assert(st@ =~= top_line(f.all(), old(st)@)->Ok_0.0);
        return Ok(None);
    }
    if (n == 5 || n == 6) && f.is(0, "surface") {
        let pane_id = match f.text_at(1) {
            Ok(v) => v,
            Err(e) => {
                return Err(e);
            },
        };
        let version = match f.u64_at(2) {
            Ok(v) => v,
            Err(e) => {
                return Err(e);
            },
        };
        let cols = match f.u32_at(3) {
            Ok(v) => v,
            Err(e) => {
                return Err(e);
            },
        };
        let rows = match f.u32_at(4) {
            Ok(v) => v,
            Err(e) => {
                return Err(e);
            },
        };
        let surface = if n == 6 {
            match f.surface_kind_at(5) {
                Ok(v) => v,
                Err(e) => {
                    return Err(e);
                },
            }
        } else {
            SurfaceKind::Main
        };
        let row_count = rows as usize;
        let (row_text, row_runs) = blank_rows(row_count);
        let builder = ClientPaneSurface {
            pane_id,
            version,
            cols,
            rows,
            surface,
            cursor: None,
            modes: TerminalModeSummary::default(),
            title: String::new(),
            working_directory: String::new(),
            colors: TerminalColorSummary::default(),
            styles: Vec::new(),
            hyperlinks: Vec::new(),
            row_text,
            row_runs,
            row_dirty_hashes: filled(0u64, row_count),
            row_semantic_prompts: filled(RowSemanticPrompt::Unmarked, row_count),
            row_dirty: filled(false, row_count),
            row_kitty_placeholders: filled(false, row_count),
            row_state_hashes: filled(0u64, row_count),
        };
        assert(builder@ =~= blank_surface(pane_id@, version, cols, rows, surface));
        return Ok(Some(builder));
    }
    Err(StateError::InvalidSurfaceLine)
}

fn line_fields<'a>(chars: &'a Vec<char>, lo: usize, hi: usize) -> (f: Fields<'a>)
    requires
        lo <= hi <= chars@.len(),
    ensures
        f.wf(),
        f.chars == chars,
        f.all() == crate::text::split_on(chars@.subrange(lo as int, hi as int), ' '),
{
    let ranges = crate::text::split_ranges(chars.as_slice(), lo, hi, ' ');
    let f = Fields { chars, ranges };
    assert(f.all() =~= crate::text::split_on(chars@.subrange(lo as int, hi as int), ' '));
    f
}

fn line_is(chars: &Vec<char>, lo: usize, hi: usize, text: &str) -> (same: bool)
    requires
        lo <= hi <= chars@.len(),
    ensures
        same == (chars@.subrange(lo as int, hi as int) == text@),
{
    let f = Fields { chars, ranges: vec![(lo, hi)] };
    assert(f.all()[0] == chars@.subrange(lo as int, hi as int));
    f.is(0, text)
}

impl ClientAttachState {
    /// Reads a client state persisted by `encode`, or by an earlier format
    /// version.
    pub fn decode(encoded: &str) -> (state: Result<ClientAttachState, StateError>)
        ensures
            match state {
                Ok(s) => decoded(encoded@) == Ok::<AttachStateView, StateError>(s@) && s@.valid(),
                Err(e) => decoded(encoded@) == Err::<AttachStateView, StateError>(e),
            },
    {
        reveal(decode_step);
        proof {
            let lines = crate::text::text_lines(encoded@);
            crate::state_validity::lemma_decode_from_valid(
                lines,
                1,
                AttachStateView::empty(),
                None,
            );
        }
        let chars = chars_of(encoded);
        let lines = crate::text::line_ranges(chars.as_slice());
        let ghost all = crate::text::text_lines(encoded@);
        if lines.len() == 0 {
            return Err(StateError::InvalidHeader);
        }
        let (a, b) = lines[0];
        if !(line_is(&chars, a, b, "NMUX_CLIENT_STATE 1") || line_is(&chars, a, b, "NMUX_CLIENT_STATE 2")
            || line_is(&chars, a, b, "NMUX_CLIENT_STATE 3") || line_is(
            &chars,
            a,
            b,
            "NMUX_CLIENT_STATE 4",
        ) || line_is(&chars, a, b, "NMUX_CLIENT_STATE 5") || line_is(
            &chars,
            a,
            b,
            "NMUX_CLIENT_STATE 6",
        ) || line_is(&chars, a, b, "NMUX_CLIENT_STATE 7") || line_is(
            &chars,
            a,
            b,
            "NMUX_CLIENT_STATE 8",
        )) {
            return Err(StateError::InvalidHeader);
        }
        let mut state = ClientAttachState::default();
        let mut open: Option<ClientPaneSurface> = None;
        let mut i: usize = 1;
        while i < lines.len()
            invariant
                chars@ == encoded@,
                all == crate::text::text_lines(chars@),
                lines@.len() == all.len(),
                forall|k: int|
                    0 <= k < lines@.len() ==> {
                        &&& (#[trigger] lines@[k]).0 <= lines@[k].1 <= chars@.len()
                        &&& chars@.subrange(lines@[k].0 as int, lines@[k].1 as int) == all[k]
                    },
                1 <= i <= lines@.len(),
                decoded(encoded@) == decode_from(all, i as int, state@, open_view(open)),
                open matches Some(b) ==> b@.row_text.len() == b@.row_runs.len(),
            decreases lines@.len() - i,
        {
            proof {
                reveal(decode_step);
            }
            let (a, b) = lines[i];
            let ghost line = all[i as int];
            let f = line_fields(&chars, a, b);
            let ghost before = state@;
            let ghost before_open = open_view(open);
            match open {
                Some(mut builder) => {
                    if line_is(&chars, a, b, "end") {
                        let surface = match finish_read_surface(builder) {
                            Ok(s) => s,
                            Err(e) => {
                                return Err(e);
                            },
                        };
                        let ghost surfaces = state.surfaces;
                        state.surfaces.push(surface);
                        proof {
                            lemma_deep_push(surfaces, state.surfaces, surface);
                        }
                        assert(state@ =~= decode_step(line, before, before_open)->Ok_0.0);
                        open = None;
                    } else {
                        proof {
                            lemma_body_line_rows(f.all(), builder@);
                        }
                        if let Err(e) = read_body_line(&f, &mut builder) {
                            return Err(e);
                        }
                        open = Some(builder);
                    }
                },
                None => {
                    open = match read_top_line(&f, &mut state) {
                        Ok(o) => o,
                        Err(e) => {
                            return Err(e);
                        },
                    };
                },
            }
            i = i + 1;
        }
        if open.is_some() {
            return Err(StateError::UnterminatedSurface);
        }
        Ok(state)
    }
}

// ---------------------------------------------------------------------------
// Writing the persisted state
// ---------------------------------------------------------------------------

pub open spec fn flag(b: bool) -> Seq<char> {
    if b {
        seq!['1']
    } else {
        seq!['0']
    }
}

/// Text as the hex of its UTF-8 bytes.
pub open spec fn hex_text(t: Seq<char>) -> Seq<char> {
    hex_of(encode_utf8(t))
}

/// Optional text: empty is written `-`.
pub open spec fn optional_hex_text(t: Seq<char>) -> Seq<char> {
    if t.len() == 0 {
        seq!['-']
    } else {
        hex_text(t)
    }
}

/// Byte `k` of a big-endian `u32`.
pub open spec fn color_byte(c: u32, k: int) -> u8 {
    if k == 0 {
        (c >> 24u32) as u8
    } else if k == 1 {
        ((c >> 16u32) & 0xffu32) as u8
    } else if k == 2 {
        ((c >> 8u32) & 0xffu32) as u8
    } else {
        (c & 0xffu32) as u8
    }
}

/// The big-endian bytes of a palette.
pub open spec fn palette_bytes(palette: Seq<u32>) -> Seq<u8> {
    Seq::new(4 * palette.len(), |i: int| color_byte(palette[i / 4], i % 4))
}

pub open spec fn header_record() -> Seq<Seq<char>> {
    seq!["NMUX_CLIENT_STATE"@, "8"@]
}

pub open spec fn scope_record(s: SocketIdentity) -> Seq<Seq<char>> {
    seq![
        "scope"@,
        "socket"@,
        decimal(s.dev as nat),
        decimal(s.ino as nat),
        signed_decimal(s.ctime as int),
        signed_decimal(s.ctime_nsec as int),
    ]
}

pub open spec fn scrollback_record(s: ScrollbackView) -> Seq<Seq<char>> {
    seq![
        "scrollback"@,
        hex_text(s.pane_id),
        decimal(s.version as nat),
        decimal(s.start_line as nat),
        decimal(s.line_count as nat),
        decimal(s.total_lines as nat),
    ]
}

pub open spec fn surface_header_record(s: PaneSurfaceView) -> Seq<Seq<char>> {
    seq![
        "surface"@,
        hex_text(s.pane_id),
        decimal(s.version as nat),
        decimal(s.cols as nat),
        decimal(s.rows as nat),
        decimal(s.surface.spec_code() as nat),
    ]
}

pub open spec fn cursor_record(cursor: Option<CursorSummary>) -> Seq<Seq<char>> {
    match cursor {
        None => seq!["cursor"@, "none"@],
        Some(c) => seq![
            "cursor"@,
            decimal(c.row as nat),
            decimal(c.col as nat),
            flag(c.visible),
            decimal(c.shape.spec_code() as nat),
            flag(c.blinking),
        ],
    }
}

pub open spec fn modes_record(m: TerminalModeSummary) -> Seq<Seq<char>> {
    seq![
        "modes"@,
        flag(m.bracketed_paste),
        flag(m.mouse_tracking),
        flag(m.focus_reporting),
        flag(m.application_keypad),
        flag(m.application_cursor),
        flag(m.origin),
        flag(m.wraparound),
        decimal(m.mouse_tracking_mode.spec_code() as nat),
        decimal(m.mouse_format.spec_code() as nat),
    ]
}

pub open spec fn colors_record(c: crate::surface::ColorsView) -> Seq<Seq<char>> {
    seq![
        "colors"@,
        decimal(c.default_fg_rgba as nat),
        decimal(c.default_bg_rgba as nat),
        decimal(c.cursor_rgba as nat),
        flag(c.cursor_rgba_set),
        hex_of(palette_bytes(c.palette_rgba)),
    ]
}

pub open spec fn style_record(s: StyleSummary) -> Seq<Seq<char>> {
    seq![
        "style"@,
        decimal(s.fg_rgba as nat),
        decimal(s.bg_rgba as nat),
        decimal(s.underline_rgba as nat),
        decimal(s.flags as nat),
    ]
}

pub open spec fn hyperlink_record(h: HyperlinkView) -> Seq<Seq<char>> {
    seq![
        "hyperlink"@,
        decimal(h.id as nat),
        hex_text(h.uri),
        optional_hex_text(h.osc8_id),
        optional_hex_text(h.params),
    ]
}

pub open spec fn row_record(s: PaneSurfaceView, i: int) -> Seq<Seq<char>> {
    seq!["row"@, decimal(i as nat), hex_text(s.row_text[i])]
}

pub open spec fn rowmeta_record(s: PaneSurfaceView, i: int) -> Seq<Seq<char>> {
    seq![
        "rowmeta"@,
        decimal(i as nat),
        decimal(s.row_semantic_prompts[i].spec_code() as nat),
        flag(s.row_dirty[i]),
        flag(s.row_kitty_placeholders[i]),
        decimal(s.row_state_hashes[i] as nat),
        decimal(s.row_dirty_hashes[i] as nat),
    ]
}

pub open spec fn run_record(i: int, r: CellRunView) -> Seq<Seq<char>> {
    seq![
        "run"@,
        decimal(i as nat),
        hex_text(r.text),
        hex_of(r.cell_widths),
        decimal(r.style_id as nat),
        decimal(r.flags as nat),
        decimal(r.hyperlink_id as nat),
        decimal(r.semantic_content.spec_code() as nat),
    ]
}

/// Row `i`: its text, its metadata, then its runs.
pub open spec fn row_records(s: PaneSurfaceView, i: int) -> Seq<Seq<Seq<char>>> {
    seq![row_record(s, i), rowmeta_record(s, i)] + Seq::new(
        s.row_runs[i].len(),
        |k: int| run_record(i, s.row_runs[i][k]),
    )
}

pub open spec fn rows_records(s: PaneSurfaceView, n: nat) -> Seq<Seq<Seq<char>>>
    decreases n,
{
    if n == 0 {
        Seq::empty()
    } else {
        rows_records(s, (n - 1) as nat) + row_records(s, n - 1)
    }
}

/// A surface: header, cursor, modes, title, working directory, colors, the
/// style and hyperlink tables, every row, and `end`.
pub open spec fn surface_records(s: PaneSurfaceView) -> Seq<Seq<Seq<char>>> {
    seq![
        surface_header_record(s),
        cursor_record(s.cursor),
        modes_record(s.modes),
        seq!["title"@, hex_text(s.title)],
        seq!["pwd"@, hex_text(s.working_directory)],
        colors_record(s.colors),
    ] + Seq::new(s.styles.len(), |k: int| style_record(s.styles[k])) + Seq::new(
        s.hyperlinks.len(),
        |k: int| hyperlink_record(s.hyperlinks[k]),
    ) + rows_records(s, s.row_text.len()) + seq![seq!["end"@]]
}

pub open spec fn surfaces_records(surfaces: Seq<PaneSurfaceView>) -> Seq<Seq<Seq<char>>>
    decreases surfaces.len(),
{
    if surfaces.len() == 0 {
        Seq::empty()
    } else {
        surfaces_records(surfaces.drop_last()) + surface_records(surfaces.last())
    }
}

/// The records of a client state, header first, then the scope, the
/// scrollback ranges and the surfaces.
pub open spec fn state_records(st: AttachStateView) -> Seq<Seq<Seq<char>>> {
    seq![header_record()] + (match st.scope {
        Some(s) => seq![scope_record(s)],
        None => Seq::empty(),
    }) + Seq::new(st.scrollbacks.len(), |k: int| scrollback_record(st.scrollbacks[k]))
        + surfaces_records(st.surfaces)
}

/// Each record as a line of space-separated fields.
pub open spec fn record_lines(records: Seq<Seq<Seq<char>>>) -> Seq<Seq<char>> {
    Seq::new(records.len(), |i: int| join_with(records[i], ' '))
}

/// The persisted text of a client state.
pub open spec fn encoded(st: AttachStateView) -> Seq<char> {
    terminated(record_lines(state_records(st)))
}

/// Accumulates the text of records, field by field.
struct StateWriter {
    text: String,
    count: usize,
    records: Ghost<Seq<Seq<Seq<char>>>>,
    fields: Ghost<Seq<Seq<char>>>,
}

impl StateWriter {
    spec fn inv(&self) -> bool {
        &&& self.text@ == terminated(record_lines(self.records@)) + join_with(self.fields@, ' ')
        &&& self.count == self.fields@.len()
        &&& self.count < 16
    }

    fn new() -> (w: StateWriter)
        ensures
            w.inv(),
            w.records@ == Seq::<Seq<Seq<char>>>::empty(),
            w.fields@ == Seq::<Seq<char>>::empty(),
    {
        let w = StateWriter {
            text: String::new(),
            count: 0,
            records: Ghost(Seq::empty()),
            fields: Ghost(Seq::empty()),
        };
        assert(record_lines(w.records@) =~= Seq::<Seq<char>>::empty());
        assert(w.text@ =~= terminated(record_lines(w.records@)) + join_with(w.fields@, ' '));
        w
    }

    fn start_field(&mut self)
        requires
            old(self).inv(),
            old(self).count < 15,
        ensures
            final(self).records == old(self).records,
            final(self).fields == old(self).fields,
            final(self).count == old(self).count + 1,
            old(self).fields@.len() == 0 ==> final(self).text@ == old(self).text@,
            old(self).fields@.len() > 0 ==> final(self).text@ == old(self).text@ + seq![' '],
    {
        if self.count > 0 {
            push_char(&mut self.text, ' ');
        }
        self.count = self.count + 1;
    }

    proof fn lemma_field_added(&self, before: StateWriter, field: Seq<char>)
        requires
            before.inv(),
            self.records == before.records,
            self.fields@ == before.fields@.push(field),
            self.count == before.count + 1,
            self.count < 16,
            before.fields@.len() == 0 ==> self.text@ == before.text@ + field,
            before.fields@.len() > 0 ==> self.text@ == before.text@ + seq![' '] + field,
        ensures
            self.inv(),
    {
        lemma_join_push(before.fields@, field, ' ');
        assert(self.text@ =~= terminated(record_lines(self.records@)) + join_with(self.fields@, ' '));
    }

    fn word(&mut self, w: &str)
        requires
            old(self).inv(),
            old(self).fields@.len() < 15,
        ensures
            final(self).inv(),
            final(self).records == old(self).records,
            final(self).fields@ == old(self).fields@.push(w@),
    {
        let ghost before = *self;
        self.start_field();
        push_str(&mut self.text, w);
        self.fields = Ghost(self.fields@.push(w@));
        proof {
            self.lemma_field_added(before, w@);
        }
    }

    fn number(&mut self, n: u64)
        requires
            old(self).inv(),
            old(self).fields@.len() < 15,
        ensures
            final(self).inv(),
            final(self).records == old(self).records,
            final(self).fields@ == old(self).fields@.push(decimal(n as nat)),
    {
        let ghost before = *self;
        self.start_field();
        push_decimal(&mut self.text, n);
        self.fields = Ghost(self.fields@.push(decimal(n as nat)));
        proof {
            self.lemma_field_added(before, decimal(n as nat));
        }
    }

    fn signed(&mut self, n: i64)
        requires
            old(self).inv(),
            old(self).fields@.len() < 15,
        ensures
            final(self).inv(),
            final(self).records == old(self).records,
            final(self).fields@ == old(self).fields@.push(signed_decimal(n as int)),
    {
        let ghost before = *self;
        self.start_field();
        push_signed_decimal(&mut self.text, n);
        self.fields = Ghost(self.fields@.push(signed_decimal(n as int)));
        proof {
            self.lemma_field_added(before, signed_decimal(n as int));
        }
    }

    fn flag(&mut self, b: bool)
        requires
            old(self).inv(),
            old(self).fields@.len() < 15,
        ensures
            final(self).inv(),
            final(self).records == old(self).records,
            final(self).fields@ == old(self).fields@.push(flag(b)),
    {
        let ghost before = *self;
        self.start_field();
        push_char(&mut self.text, if b { '1' } else { '0' });
        self.fields = Ghost(self.fields@.push(flag(b)));
        proof {
            assert(seq![if b { '1' } else { '0' }] =~= flag(b));
            if before.fields@.len() > 0 {
                assert(self.text@ =~= before.text@ + seq![' '] + flag(b));
            } else {
                assert(self.text@ =~= before.text@ + flag(b));
            }
            self.lemma_field_added(before, flag(b));
        }
    }

    fn hex(&mut self, bytes: &[u8])
        requires
            old(self).inv(),
            old(self).fields@.len() < 15,
        ensures
            final(self).inv(),
            final(self).records == old(self).records,
            final(self).fields@ == old(self).fields@.push(hex_of(bytes@)),
    {
        let ghost before = *self;
        self.start_field();
        push_hex(&mut self.text, bytes);
        self.fields = Ghost(self.fields@.push(hex_of(bytes@)));
        proof {
            self.lemma_field_added(before, hex_of(bytes@));
        }
    }

    fn text(&mut self, t: &str)
        requires
            old(self).inv(),
            old(self).fields@.len() < 15,
        ensures
            final(self).inv(),
            final(self).records == old(self).records,
            final(self).fields@ == old(self).fields@.push(hex_text(t@)),
    {
        let bytes = utf8_bytes(t);
        self.hex(bytes.as_slice());
    }

    fn optional_text(&mut self, t: &str)
        requires
            old(self).inv(),
            old(self).fields@.len() < 15,
        ensures
            final(self).inv(),
            final(self).records == old(self).records,
            final(self).fields@ == old(self).fields@.push(optional_hex_text(t@)),
    {
        if t.is_empty() {
            self.word("-");
            proof {
                reveal_strlit("-");
                assert("-"@ =~= seq!['-']);
            }
        } else {
            self.text(t);
        }
    }

    fn end_record(&mut self)
        requires
            old(self).inv(),
        ensures
            final(self).inv(),
            final(self).records@ == old(self).records@.push(old(self).fields@),
            final(self).fields@ == Seq::<Seq<char>>::empty(),
    {
        let ghost before = *self;
        push_char(&mut self.text, '\n');
        self.count = 0;
        self.records = Ghost(self.records@.push(self.fields@));
        self.fields = Ghost(Seq::empty());
        proof {
            assert(record_lines(self.records@) =~= record_lines(before.records@).push(
                join_with(before.fields@, ' '),
            ));
            assert(record_lines(self.records@).drop_last() =~= record_lines(before.records@));
            assert(self.text@ =~= terminated(record_lines(self.records@)) + join_with(
                self.fields@,
                ' ',
            ));
        }
    }
}

fn palette_bytes_of(palette: &Vec<u32>) -> (bytes: Vec<u8>)
    ensures
        bytes@ == palette_bytes(palette@),
{
    let mut bytes: Vec<u8> = Vec::new();
    let mut i: usize = 0;
    while i < palette.len()
        invariant
            0 <= i <= palette@.len(),
            bytes@ == palette_bytes(palette@.take(i as int)),
        decreases palette@.len() - i,
    {
        let c = palette[i];
        let ghost before = bytes@;
        bytes.push((c >> 24u32) as u8);
        bytes.push(((c >> 16u32) & 0xffu32) as u8);
        bytes.push(((c >> 8u32) & 0xffu32) as u8);
        bytes.push((c & 0xffu32) as u8);
        i = i + 1;
        proof {
            let t = palette@.take(i as int);
            assert forall|k: int| 0 <= k < 4 * t.len() implies #[trigger] palette_bytes(t)[k]
                == bytes@[k] by {
                if k < 4 * (t.len() - 1) {
                    assert(k / 4 < t.len() - 1);
                    assert(t[k / 4] == palette@.take(i - 1)[k / 4]);
                } else {
                    assert(k / 4 == t.len() - 1);
                }
            }
            assert(bytes@ =~= palette_bytes(palette@.take(i as int)));
        }
    }
    assert(palette@.take(i as int) =~= palette@);
    bytes
}

fn write_surface_line(w: &mut StateWriter, s: &ClientPaneSurface)
    requires
        old(w).inv(),
        old(w).fields@.len() == 0,
    ensures
        final(w).inv(),
        final(w).fields@.len() == 0,
        final(w).records@ == old(w).records@.push(surface_header_record(s@)),
{
    w.word("surface");
    w.text(s.pane_id.as_str());
    w.number(s.version);
    w.number(s.cols as u64);
    w.number(s.rows as u64);
    w.number(s.surface.code() as u64);
    assert(w.fields@ =~= surface_header_record(s@));
    w.end_record();
}

fn write_cursor(w: &mut StateWriter, cursor: Option<CursorSummary>)
    requires
        old(w).inv(),
        old(w).fields@.len() == 0,
    ensures
        final(w).inv(),
        final(w).fields@.len() == 0,
        final(w).records@ == old(w).records@.push(cursor_record(cursor)),
{
    match cursor {
        None => {
            w.word("cursor");
            w.word("none");
        },
        Some(c) => {
            w.word("cursor");
            w.number(c.row as u64);
            w.number(c.col as u64);
            w.flag(c.visible);
            w.number(c.shape.code() as u64);
            w.flag(c.blinking);
        },
    }
    assert(w.fields@ =~= cursor_record(cursor));
    w.end_record();
}

fn write_modes(w: &mut StateWriter, m: TerminalModeSummary)
    requires
        old(w).inv(),
        old(w).fields@.len() == 0,
    ensures
        final(w).inv(),
        final(w).fields@.len() == 0,
        final(w).records@ == old(w).records@.push(modes_record(m)),
{
    w.word("modes");
    w.flag(m.bracketed_paste);
    w.flag(m.mouse_tracking);
    w.flag(m.focus_reporting);
    w.flag(m.application_keypad);
    w.flag(m.application_cursor);
    w.flag(m.origin);
    w.flag(m.wraparound);
    w.number(m.mouse_tracking_mode.code() as u64);
    w.number(m.mouse_format.code() as u64);
    assert(w.fields@ =~= modes_record(m));
    w.end_record();
}

fn write_text_line(w: &mut StateWriter, word: &str, t: &str)
    requires
        old(w).inv(),
        old(w).fields@.len() == 0,
    ensures
        final(w).inv(),
        final(w).fields@.len() == 0,
        final(w).records@ == old(w).records@.push(seq![word@, hex_text(t@)]),
{
    w.word(word);
    w.text(t);
    assert(w.fields@ =~= seq![word@, hex_text(t@)]);
    w.end_record();
}

fn write_colors(w: &mut StateWriter, c: &TerminalColorSummary)
    requires
        old(w).inv(),
        old(w).fields@.len() == 0,
    ensures
        final(w).inv(),
        final(w).fields@.len() == 0,
        final(w).records@ == old(w).records@.push(colors_record(c@)),
{
    w.word("colors");
    w.number(c.default_fg_rgba as u64);
    w.number(c.default_bg_rgba as u64);
    w.number(c.cursor_rgba as u64);
    w.flag(c.cursor_rgba_set);
    let palette = palette_bytes_of(&c.palette_rgba);
    w.hex(palette.as_slice());
    assert(w.fields@ =~= colors_record(c@));
    w.end_record();
}

fn write_surface_header(w: &mut StateWriter, s: &ClientPaneSurface)
    requires
        old(w).inv(),
        old(w).fields@.len() == 0,
    ensures
        final(w).inv(),
        final(w).fields@.len() == 0,
        final(w).records@ == old(w).records@ + seq![
            surface_header_record(s@),
            cursor_record(s@.cursor),
            modes_record(s@.modes),
            seq!["title"@, hex_text(s@.title)],
            seq!["pwd"@, hex_text(s@.working_directory)],
            colors_record(s@.colors),
        ],
{
    let ghost start = w.records@;
    write_surface_line(w, s);
    write_cursor(w, s.cursor);
    write_modes(w, s.modes);
    write_text_line(w, "title", s.title.as_str());
    write_text_line(w, "pwd", s.working_directory.as_str());
    write_colors(w, &s.colors);
    assert(w.records@ =~= start + seq![
        surface_header_record(s@),
        cursor_record(s@.cursor),
        modes_record(s@.modes),
        seq!["title"@, hex_text(s@.title)],
        seq!["pwd"@, hex_text(s@.working_directory)],
        colors_record(s@.colors),
    ]);
}

fn write_tables(w: &mut StateWriter, s: &ClientPaneSurface)
    requires
        old(w).inv(),
        old(w).fields@.len() == 0,
    ensures
        final(w).inv(),
        final(w).fields@.len() == 0,
        final(w).records@ == old(w).records@ + Seq::new(
            s@.styles.len(),
            |k: int| style_record(s@.styles[k]),
        ) + Seq::new(s@.hyperlinks.len(), |k: int| hyperlink_record(s@.hyperlinks[k])),
{
    let ghost start = w.records@;
    let mut k: usize = 0;
    while k < s.styles.len()
        invariant
            w.inv(),
            w.fields@.len() == 0,
            0 <= k <= s.styles@.len(),
            w.records@ == start + Seq::new(k as nat, |j: int| style_record(s@.styles[j])),
        decreases s.styles@.len() - k,
    {
        let style = s.styles[k];
        w.word("style");
        w.number(style.fg_rgba as u64);
        w.number(style.bg_rgba as u64);
        w.number(style.underline_rgba as u64);
        w.number(style.flags as u64);
        assert(w.fields@ =~= style_record(s@.styles[k as int]));
        w.end_record();
        k = k + 1;
        assert(w.records@ =~= start + Seq::new(k as nat, |j: int| style_record(s@.styles[j])));
    }
    let ghost middle = w.records@;
    let mut k: usize = 0;
    while k < s.hyperlinks.len()
        invariant
            w.inv(),
            w.fields@.len() == 0,
            0 <= k <= s.hyperlinks@.len(),
            w.records@ == middle + Seq::new(k as nat, |j: int| hyperlink_record(s@.hyperlinks[j])),
        decreases s.hyperlinks@.len() - k,
    {
        let link = &s.hyperlinks[k];
        assert(s@.hyperlinks[k as int] == link@);
        w.word("hyperlink");
        w.number(link.id as u64);
        w.text(link.uri.as_str());
        w.optional_text(link.osc8_id.as_str());
        w.optional_text(link.params.as_str());
        assert(w.fields@ =~= hyperlink_record(s@.hyperlinks[k as int]));
        w.end_record();
        k = k + 1;
        assert(w.records@ =~= middle + Seq::new(
            k as nat,
            |j: int| hyperlink_record(s@.hyperlinks[j]),
        ));
    }
    assert(w.records@ =~= start + Seq::new(s@.styles.len(), |j: int| style_record(s@.styles[j]))
        + Seq::new(s@.hyperlinks.len(), |j: int| hyperlink_record(s@.hyperlinks[j])));
}

fn write_row(w: &mut StateWriter, s: &ClientPaneSurface, i: usize)
    requires
        old(w).inv(),
        old(w).fields@.len() == 0,
        s@.rows_cover_text(),
        i < s@.row_text.len(),
    ensures
        final(w).inv(),
        final(w).fields@.len() == 0,
        final(w).records@ == old(w).records@ + row_records(s@, i as int),
{
    let ghost start = w.records@;
    assert(s@.row_text[i as int] == s.row_text@[i as int]@);
    w.word("row");
    w.number(i as u64);
    w.text(s.row_text[i].as_str());
    assert(w.fields@ =~= row_record(s@, i as int));
    w.end_record();
    w.word("rowmeta");
    w.number(i as u64);
    w.number(s.row_semantic_prompts[i].code() as u64);
    w.flag(s.row_dirty[i]);
    w.flag(s.row_kitty_placeholders[i]);
    w.number(s.row_state_hashes[i]);
    w.number(s.row_dirty_hashes[i]);
    assert(w.fields@ =~= rowmeta_record(s@, i as int));
    w.end_record();
    let ghost head = w.records@;
    let runs = &s.row_runs[i];
    assert(s@.row_runs[i as int] == runs.deep_view());
    let mut k: usize = 0;
    while k < runs.len()
        invariant
            w.inv(),
            w.fields@.len() == 0,
            0 <= k <= runs@.len(),
            s@.row_runs[i as int] == runs.deep_view(),
            w.records@ == head + Seq::new(k as nat, |j: int| run_record(i as int, s@.row_runs[i as int][j])),
        decreases runs@.len() - k,
    {
        let run = &runs[k];
        assert(s@.row_runs[i as int][k as int] == run@);
        w.word("run");
        w.number(i as u64);
        w.text(run.text.as_str());
        w.hex(run.cell_widths.as_slice());
        w.number(run.style_id as u64);
        w.number(run.flags as u64);
        w.number(run.hyperlink_id as u64);
        w.number(run.semantic_content.code() as u64);
        assert(w.fields@ =~= run_record(i as int, s@.row_runs[i as int][k as int]));
        w.end_record();
        k = k + 1;
        assert(w.records@ =~= head + Seq::new(
            k as nat,
            |j: int| run_record(i as int, s@.row_runs[i as int][j]),
        ));
    }
    assert(w.records@ =~= start + row_records(s@, i as int));
}

fn write_surface(w: &mut StateWriter, s: &ClientPaneSurface)
    requires
        old(w).inv(),
        old(w).fields@.len() == 0,
        s@.rows_cover_text(),
    ensures
        final(w).inv(),
        final(w).fields@.len() == 0,
        final(w).records@ == old(w).records@ + surface_records(s@),
{
    let ghost start = w.records@;
    write_surface_header(w, s);
    write_tables(w, s);
    let ghost base = w.records@;
    let mut i: usize = 0;
    while i < s.row_text.len()
        invariant
            w.inv(),
            w.fields@.len() == 0,
            s@.rows_cover_text(),
            0 <= i <= s@.row_text.len(),
            w.records@ == base + rows_records(s@, i as nat),
        decreases s@.row_text.len() - i,
    {
        write_row(w, s, i);
        i = i + 1;
        assert(w.records@ =~= base + rows_records(s@, i as nat));
    }
    w.word("end");
    assert(w.fields@ =~= seq!["end"@]);
    w.end_record();
    assert(w.records@ =~= start + surface_records(s@));
}

impl ClientPaneSurface {
    /// Whether each per-row table has an entry for each row of text.
    pub fn covers_row_text(&self) -> (b: bool)
        ensures
            b == self@.rows_cover_text(),
    {
        let n = self.row_text.len();
        self.row_runs.len() >= n && self.row_dirty_hashes.len() >= n
            && self.row_semantic_prompts.len() >= n && self.row_dirty.len() >= n
            && self.row_kitty_placeholders.len() >= n && self.row_state_hashes.len() >= n
    }
}

impl ClientAttachState {
    /// Whether every cached surface can be written out.
    pub fn is_encodable(&self) -> (b: bool)
        ensures
            b == self@.encodable(),
    {
        let mut k: usize = 0;
        while k < self.surfaces.len()
            invariant
                0 <= k <= self.surfaces@.len(),
                forall|j: int| 0 <= j < k ==> (#[trigger] self@.surfaces[j]).rows_cover_text(),
            decreases self.surfaces@.len() - k,
        {
            assert(self@.surfaces[k as int] == self.surfaces[k as int]@);
            if !self.surfaces[k].covers_row_text() {
                return false;
            }
            k = k + 1;
        }
        true
    }

    /// The persisted text of this state.
    pub fn encode(&self) -> (text: String)
        requires
            self@.encodable(),
        ensures
            text@ == encoded(self@),
    {
        let mut w = StateWriter::new();
        w.word("NMUX_CLIENT_STATE");
        w.word("8");
        assert(w.fields@ =~= header_record());
        w.end_record();
        if let Some(scope) = self.scope {
            w.word("scope");
            w.word("socket");
            w.number(scope.dev);
            w.number(scope.ino);
            w.signed(scope.ctime);
            w.signed(scope.ctime_nsec);
            assert(w.fields@ =~= scope_record(scope));
            w.end_record();
        }
        let ghost head = w.records@;
        assert(head =~= seq![header_record()] + (match self@.scope {
            Some(s) => seq![scope_record(s)],
            None => Seq::empty(),
        }));
        let mut k: usize = 0;
        while k < self.scrollbacks.len()
            invariant
                w.inv(),
                w.fields@.len() == 0,
                0 <= k <= self.scrollbacks@.len(),
                w.records@ == head + Seq::new(
                    k as nat,
                    |j: int| scrollback_record(self@.scrollbacks[j]),
                ),
            decreases self.scrollbacks@.len() - k,
        {
            let sb = &self.scrollbacks[k];
            assert(self@.scrollbacks[k as int] == sb@);
            w.word("scrollback");
            w.text(sb.pane_id.as_str());
            w.number(sb.version);
            w.number(sb.start_line);
            w.number(sb.line_count as u64);
            w.number(sb.total_lines);
            assert(w.fields@ =~= scrollback_record(self@.scrollbacks[k as int]));
            w.end_record();
            k = k + 1;
            assert(w.records@ =~= head + Seq::new(
                k as nat,
                |j: int| scrollback_record(self@.scrollbacks[j]),
            ));
        }
        let ghost middle = w.records@;
        let mut k: usize = 0;
        while k < self.surfaces.len()
            invariant
                w.inv(),
                w.fields@.len() == 0,
                self@.encodable(),
                0 <= k <= self.surfaces@.len(),
                w.records@ == middle + surfaces_records(self@.surfaces.take(k as int)),
            decreases self.surfaces@.len() - k,
        {
            let surface = &self.surfaces[k];
            assert(self@.surfaces[k as int] == surface@);
            assert(self@.surfaces[k as int].rows_cover_text());
            write_surface(&mut w, surface);
            proof {
                let t = self@.surfaces.take(k + 1);
                assert(t.drop_last() =~= self@.surfaces.take(k as int));
                assert(t.last() == surface@);
            }
            k = k + 1;
            assert(w.records@ =~= middle + surfaces_records(self@.surfaces.take(k as int)));
        }
        assert(self@.surfaces.take(k as int) =~= self@.surfaces);
        assert(w.records@ =~= state_records(self@));
        w.text
    }
}

} // verus!
