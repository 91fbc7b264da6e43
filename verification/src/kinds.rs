use vstd::prelude::*;

verus! {

// Every enumeration of the wire protocol is open: a peer may send a code this
// side does not know. Such a code is kept as `Other(code)`, so that it can be
// reported and refused rather than silently mapped to a known variant.

/// Which screen buffer of a pane a surface shows.
#[derive(Clone, Copy, Debug, PartialEq, Eq, Structural)]
pub enum SurfaceKind {
    Main,
    Alternate,
    Other(u8),
}

impl SurfaceKind {
    pub open spec fn spec_code(self) -> u8 {
        match self {
            SurfaceKind::Main => 0,
            SurfaceKind::Alternate => 1,
            SurfaceKind::Other(code) => code,
        }
    }

    pub open spec fn spec_from_code(code: u8) -> SurfaceKind {
        if code == 0 {
            SurfaceKind::Main
        } else if code == 1 {
            SurfaceKind::Alternate
        } else {
            SurfaceKind::Other(code)
        }
    }

    pub open spec fn is_known(self) -> bool {
        !(self is Other)
    }

    pub fn code(self) -> (code: u8)
        ensures
            code == self.spec_code(),
    {
        match self {
            SurfaceKind::Main => 0,
            SurfaceKind::Alternate => 1,
            SurfaceKind::Other(code) => code,
        }
    }

    pub fn from_code(code: u8) -> (kind: SurfaceKind)
        ensures
            kind == SurfaceKind::spec_from_code(code),
    {
        if code == 0 {
            SurfaceKind::Main
        } else if code == 1 {
            SurfaceKind::Alternate
        } else {
            SurfaceKind::Other(code)
        }
    }

    pub fn known(self) -> (known: bool)
        ensures
            known == self.is_known(),
    {
        !matches!(self, SurfaceKind::Other(_))
    }

    /// A known kind survives the trip through its code.
    pub proof fn lemma_code_round_trip(self)
        requires
            self.is_known(),
        ensures
            SurfaceKind::spec_from_code(self.spec_code()) == self,
    {
    }

    /// Decoding a code never yields an `Other` that stands for a known code.
    pub proof fn lemma_from_code_inverse(code: u8)
        ensures
            SurfaceKind::spec_from_code(code).spec_code() == code,
    {
    }
}

/// How the terminal draws its cursor.
#[derive(Clone, Copy, Debug, PartialEq, Eq, Structural)]
pub enum CursorShape {
    Block,
    Beam,
    Other(u8),
}

impl CursorShape {
    pub open spec fn spec_code(self) -> u8 {
        match self {
            CursorShape::Block => 0,
            CursorShape::Beam => 1,
            CursorShape::Other(code) => code,
        }
    }

    pub open spec fn spec_from_code(code: u8) -> CursorShape {
        if code == 0 {
            CursorShape::Block
        } else if code == 1 {
            CursorShape::Beam
        } else {
            CursorShape::Other(code)
        }
    }

    pub open spec fn is_known(self) -> bool {
        !(self is Other)
    }

    pub fn code(self) -> (code: u8)
        ensures
            code == self.spec_code(),
    {
        match self {
            CursorShape::Block => 0,
            CursorShape::Beam => 1,
            CursorShape::Other(code) => code,
        }
    }

    pub fn from_code(code: u8) -> (kind: CursorShape)
        ensures
            kind == CursorShape::spec_from_code(code),
    {
        if code == 0 {
            CursorShape::Block
        } else if code == 1 {
            CursorShape::Beam
        } else {
            CursorShape::Other(code)
        }
    }

    pub fn known(self) -> (known: bool)
        ensures
            known == self.is_known(),
    {
        !matches!(self, CursorShape::Other(_))
    }

    /// A known kind survives the trip through its code.
    pub proof fn lemma_code_round_trip(self)
        requires
            self.is_known(),
        ensures
            CursorShape::spec_from_code(self.spec_code()) == self,
    {
    }

    /// Decoding a code never yields an `Other` that stands for a known code.
    pub proof fn lemma_from_code_inverse(code: u8)
        ensures
            CursorShape::spec_from_code(code).spec_code() == code,
    {
    }
}

/// Which mouse events the terminal asked to receive (`Off` when it asked for none).
#[derive(Clone, Copy, Debug, PartialEq, Eq, Structural)]
pub enum MouseTrackingMode {
    Off,
    X10,
    Normal,
    Button,
    Any,
    Other(u8),
}

impl MouseTrackingMode {
    pub open spec fn spec_code(self) -> u8 {
        match self {
            MouseTrackingMode::Off => 0,
            MouseTrackingMode::X10 => 1,
            MouseTrackingMode::Normal => 2,
            MouseTrackingMode::Button => 3,
            MouseTrackingMode::Any => 4,
            MouseTrackingMode::Other(code) => code,
        }
    }

    pub open spec fn spec_from_code(code: u8) -> MouseTrackingMode {
        if code == 0 {
            MouseTrackingMode::Off
        } else if code == 1 {
            MouseTrackingMode::X10
        } else if code == 2 {
            MouseTrackingMode::Normal
        } else if code == 3 {
            MouseTrackingMode::Button
        } else if code == 4 {
            MouseTrackingMode::Any
        } else {
            MouseTrackingMode::Other(code)
        }
    }

    pub open spec fn is_known(self) -> bool {
        !(self is Other)
    }

    pub fn code(self) -> (code: u8)
        ensures
            code == self.spec_code(),
    {
        match self {
            MouseTrackingMode::Off => 0,
            MouseTrackingMode::X10 => 1,
            MouseTrackingMode::Normal => 2,
            MouseTrackingMode::Button => 3,
            MouseTrackingMode::Any => 4,
            MouseTrackingMode::Other(code) => code,
        }
    }

    pub fn from_code(code: u8) -> (kind: MouseTrackingMode)
        ensures
            kind == MouseTrackingMode::spec_from_code(code),
    {
        if code == 0 {
            MouseTrackingMode::Off
        } else if code == 1 {
            MouseTrackingMode::X10
        } else if code == 2 {
            MouseTrackingMode::Normal
        } else if code == 3 {
            MouseTrackingMode::Button
        } else if code == 4 {
            MouseTrackingMode::Any
        } else {
            MouseTrackingMode::Other(code)
        }
    }

    pub fn known(self) -> (known: bool)
        ensures
            known == self.is_known(),
    {
        !matches!(self, MouseTrackingMode::Other(_))
    }

    /// A known kind survives the trip through its code.
    pub proof fn lemma_code_round_trip(self)
        requires
            self.is_known(),
        ensures
            MouseTrackingMode::spec_from_code(self.spec_code()) == self,
    {
    }

    /// Decoding a code never yields an `Other` that stands for a known code.
    pub proof fn lemma_from_code_inverse(code: u8)
        ensures
            MouseTrackingMode::spec_from_code(code).spec_code() == code,
    {
    }
}

/// How mouse reports are encoded for the terminal.
#[derive(Clone, Copy, Debug, PartialEq, Eq, Structural)]
pub enum MouseFormat {
    X10,
    Sgr,
    SgrPixels,
    Other(u8),
}

impl MouseFormat {
    pub open spec fn spec_code(self) -> u8 {
        match self {
            MouseFormat::X10 => 0,
            MouseFormat::Sgr => 1,
            MouseFormat::SgrPixels => 2,
            MouseFormat::Other(code) => code,
        }
    }

    pub open spec fn spec_from_code(code: u8) -> MouseFormat {
        if code == 0 {
            MouseFormat::X10
        } else if code == 1 {
            MouseFormat::Sgr
        } else if code == 2 {
            MouseFormat::SgrPixels
        } else {
            MouseFormat::Other(code)
        }
    }

    pub open spec fn is_known(self) -> bool {
        !(self is Other)
    }

    pub fn code(self) -> (code: u8)
        ensures
            code == self.spec_code(),
    {
        match self {
            MouseFormat::X10 => 0,
            MouseFormat::Sgr => 1,
            MouseFormat::SgrPixels => 2,
            MouseFormat::Other(code) => code,
        }
    }

    pub fn from_code(code: u8) -> (kind: MouseFormat)
        ensures
            kind == MouseFormat::spec_from_code(code),
    {
        if code == 0 {
            MouseFormat::X10
        } else if code == 1 {
            MouseFormat::Sgr
        } else if code == 2 {
            MouseFormat::SgrPixels
        } else {
            MouseFormat::Other(code)
        }
    }

    pub fn known(self) -> (known: bool)
        ensures
            known == self.is_known(),
    {
        !matches!(self, MouseFormat::Other(_))
    }

    /// A known kind survives the trip through its code.
    pub proof fn lemma_code_round_trip(self)
        requires
            self.is_known(),
        ensures
            MouseFormat::spec_from_code(self.spec_code()) == self,
    {
    }

    /// Decoding a code never yields an `Other` that stands for a known code.
    pub proof fn lemma_from_code_inverse(code: u8)
        ensures
            MouseFormat::spec_from_code(code).spec_code() == code,
    {
    }
}

/// Shell-integration marking of a whole row (`Unmarked` when the row carries none).
#[derive(Clone, Copy, Debug, PartialEq, Eq, Structural)]
pub enum RowSemanticPrompt {
    Unmarked,
    Prompt,
    Other(u8),
}

impl RowSemanticPrompt {
    pub open spec fn spec_code(self) -> u8 {
        match self {
            RowSemanticPrompt::Unmarked => 0,
            RowSemanticPrompt::Prompt => 1,
            RowSemanticPrompt::Other(code) => code,
        }
    }

    pub open spec fn spec_from_code(code: u8) -> RowSemanticPrompt {
        if code == 0 {
            RowSemanticPrompt::Unmarked
        } else if code == 1 {
            RowSemanticPrompt::Prompt
        } else {
            RowSemanticPrompt::Other(code)
        }
    }

    pub open spec fn is_known(self) -> bool {
        !(self is Other)
    }

    pub fn code(self) -> (code: u8)
        ensures
            code == self.spec_code(),
    {
        match self {
            RowSemanticPrompt::Unmarked => 0,
            RowSemanticPrompt::Prompt => 1,
            RowSemanticPrompt::Other(code) => code,
        }
    }

    pub fn from_code(code: u8) -> (kind: RowSemanticPrompt)
        ensures
            kind == RowSemanticPrompt::spec_from_code(code),
    {
        if code == 0 {
            RowSemanticPrompt::Unmarked
        } else if code == 1 {
            RowSemanticPrompt::Prompt
        } else {
            RowSemanticPrompt::Other(code)
        }
    }

    pub fn known(self) -> (known: bool)
        ensures
            known == self.is_known(),
    {
        !matches!(self, RowSemanticPrompt::Other(_))
    }

    /// A known kind survives the trip through its code.
    pub proof fn lemma_code_round_trip(self)
        requires
            self.is_known(),
        ensures
            RowSemanticPrompt::spec_from_code(self.spec_code()) == self,
    {
    }

    /// Decoding a code never yields an `Other` that stands for a known code.
    pub proof fn lemma_from_code_inverse(code: u8)
        ensures
            RowSemanticPrompt::spec_from_code(code).spec_code() == code,
    {
    }
}

/// Shell-integration marking of a run of cells.
#[derive(Clone, Copy, Debug, PartialEq, Eq, Structural)]
pub enum CellSemanticContent {
    Output,
    Input,
    Prompt,
    Other(u8),
}

impl CellSemanticContent {
    pub open spec fn spec_code(self) -> u8 {
        match self {
            CellSemanticContent::Output => 0,
            CellSemanticContent::Input => 1,
            CellSemanticContent::Prompt => 2,
            CellSemanticContent::Other(code) => code,
        }
    }

    pub open spec fn spec_from_code(code: u8) -> CellSemanticContent {
        if code == 0 {
            CellSemanticContent::Output
        } else if code == 1 {
            CellSemanticContent::Input
        } else if code == 2 {
            CellSemanticContent::Prompt
        } else {
            CellSemanticContent::Other(code)
        }
    }

    pub open spec fn is_known(self) -> bool {
        !(self is Other)
    }

    pub fn code(self) -> (code: u8)
        ensures
            code == self.spec_code(),
    {
        match self {
            CellSemanticContent::Output => 0,
            CellSemanticContent::Input => 1,
            CellSemanticContent::Prompt => 2,
            CellSemanticContent::Other(code) => code,
        }
    }

    pub fn from_code(code: u8) -> (kind: CellSemanticContent)
        ensures
            kind == CellSemanticContent::spec_from_code(code),
    {
        if code == 0 {
            CellSemanticContent::Output
        } else if code == 1 {
            CellSemanticContent::Input
        } else if code == 2 {
            CellSemanticContent::Prompt
        } else {
            CellSemanticContent::Other(code)
        }
    }

    pub fn known(self) -> (known: bool)
        ensures
            known == self.is_known(),
    {
        !matches!(self, CellSemanticContent::Other(_))
    }

    /// A known kind survives the trip through its code.
    pub proof fn lemma_code_round_trip(self)
        requires
            self.is_known(),
        ensures
            CellSemanticContent::spec_from_code(self.spec_code()) == self,
    {
    }

    /// Decoding a code never yields an `Other` that stands for a known code.
    pub proof fn lemma_from_code_inverse(code: u8)
        ensures
            CellSemanticContent::spec_from_code(code).spec_code() == code,
    {
    }
}

/// What a surface patch changes.
#[derive(Clone, Copy, Debug, PartialEq, Eq, Structural)]
pub enum PatchKind {
    ReplaceRows,
    CursorOnly,
    ModeOnly,
    ColorOnly,
    FullRefreshRequired,
    Other(u8),
}

impl PatchKind {
    pub open spec fn spec_code(self) -> u8 {
        match self {
            PatchKind::ReplaceRows => 0,
            PatchKind::CursorOnly => 1,
            PatchKind::ModeOnly => 2,
            PatchKind::ColorOnly => 3,
            PatchKind::FullRefreshRequired => 4,
            PatchKind::Other(code) => code,
        }
    }

    pub open spec fn spec_from_code(code: u8) -> PatchKind {
        if code == 0 {
            PatchKind::ReplaceRows
        } else if code == 1 {
            PatchKind::CursorOnly
        } else if code == 2 {
            PatchKind::ModeOnly
        } else if code == 3 {
            PatchKind::ColorOnly
        } else if code == 4 {
            PatchKind::FullRefreshRequired
        } else {
            PatchKind::Other(code)
        }
    }

    pub open spec fn is_known(self) -> bool {
        !(self is Other)
    }

    pub fn code(self) -> (code: u8)
        ensures
            code == self.spec_code(),
    {
        match self {
            PatchKind::ReplaceRows => 0,
            PatchKind::CursorOnly => 1,
            PatchKind::ModeOnly => 2,
            PatchKind::ColorOnly => 3,
            PatchKind::FullRefreshRequired => 4,
            PatchKind::Other(code) => code,
        }
    }

    pub fn from_code(code: u8) -> (kind: PatchKind)
        ensures
            kind == PatchKind::spec_from_code(code),
    {
        if code == 0 {
            PatchKind::ReplaceRows
        } else if code == 1 {
            PatchKind::CursorOnly
        } else if code == 2 {
            PatchKind::ModeOnly
        } else if code == 3 {
            PatchKind::ColorOnly
        } else if code == 4 {
            PatchKind::FullRefreshRequired
        } else {
            PatchKind::Other(code)
        }
    }

    pub fn known(self) -> (known: bool)
        ensures
            known == self.is_known(),
    {
        !matches!(self, PatchKind::Other(_))
    }

    /// A known kind survives the trip through its code.
    pub proof fn lemma_code_round_trip(self)
        requires
            self.is_known(),
        ensures
            PatchKind::spec_from_code(self.spec_code()) == self,
    {
    }

    /// Decoding a code never yields an `Other` that stands for a known code.
    pub proof fn lemma_from_code_inverse(code: u8)
        ensures
            PatchKind::spec_from_code(code).spec_code() == code,
    {
    }
}

/// What an attach status promises about the surface frame that follows it.
#[derive(Clone, Copy, Debug, PartialEq, Eq, Structural)]
pub enum AttachSurfaceState {
    Current,
    Snapshot,
    Patch,
    Other(u8),
}

impl AttachSurfaceState {
    pub open spec fn spec_code(self) -> u8 {
        match self {
            AttachSurfaceState::Current => 0,
            AttachSurfaceState::Snapshot => 1,
            AttachSurfaceState::Patch => 2,
            AttachSurfaceState::Other(code) => code,
        }
    }

    pub open spec fn spec_from_code(code: u8) -> AttachSurfaceState {
        if code == 0 {
            AttachSurfaceState::Current
        } else if code == 1 {
            AttachSurfaceState::Snapshot
        } else if code == 2 {
            AttachSurfaceState::Patch
        } else {
            AttachSurfaceState::Other(code)
        }
    }

    pub open spec fn is_known(self) -> bool {
        !(self is Other)
    }

    pub fn code(self) -> (code: u8)
        ensures
            code == self.spec_code(),
    {
        match self {
            AttachSurfaceState::Current => 0,
            AttachSurfaceState::Snapshot => 1,
            AttachSurfaceState::Patch => 2,
            AttachSurfaceState::Other(code) => code,
        }
    }

    pub fn from_code(code: u8) -> (kind: AttachSurfaceState)
        ensures
            kind == AttachSurfaceState::spec_from_code(code),
    {
        if code == 0 {
            AttachSurfaceState::Current
        } else if code == 1 {
            AttachSurfaceState::Snapshot
        } else if code == 2 {
            AttachSurfaceState::Patch
        } else {
            AttachSurfaceState::Other(code)
        }
    }

    pub fn known(self) -> (known: bool)
        ensures
            known == self.is_known(),
    {
        !matches!(self, AttachSurfaceState::Other(_))
    }

    /// A known kind survives the trip through its code.
    pub proof fn lemma_code_round_trip(self)
        requires
            self.is_known(),
        ensures
            AttachSurfaceState::spec_from_code(self.spec_code()) == self,
    {
    }

    /// Decoding a code never yields an `Other` that stands for a known code.
    pub proof fn lemma_from_code_inverse(code: u8)
        ensures
            AttachSurfaceState::spec_from_code(code).spec_code() == code,
    {
    }
}

/// Who decides the size of a pane.
#[derive(Clone, Copy, Debug, PartialEq, Eq, Structural)]
pub enum ResizePolicy {
    Fixed,
    Leader,
    ActiveClient,
    Manual,
    Other(u8),
}

impl ResizePolicy {
    pub open spec fn spec_code(self) -> u8 {
        match self {
            ResizePolicy::Fixed => 0,
            ResizePolicy::Leader => 1,
            ResizePolicy::ActiveClient => 2,
            ResizePolicy::Manual => 3,
            ResizePolicy::Other(code) => code,
        }
    }

    pub open spec fn spec_from_code(code: u8) -> ResizePolicy {
        if code == 0 {
            ResizePolicy::Fixed
        } else if code == 1 {
            ResizePolicy::Leader
        } else if code == 2 {
            ResizePolicy::ActiveClient
        } else if code == 3 {
            ResizePolicy::Manual
        } else {
            ResizePolicy::Other(code)
        }
    }

    pub open spec fn is_known(self) -> bool {
        !(self is Other)
    }

    pub fn code(self) -> (code: u8)
        ensures
            code == self.spec_code(),
    {
        match self {
            ResizePolicy::Fixed => 0,
            ResizePolicy::Leader => 1,
            ResizePolicy::ActiveClient => 2,
            ResizePolicy::Manual => 3,
            ResizePolicy::Other(code) => code,
        }
    }

    pub fn from_code(code: u8) -> (kind: ResizePolicy)
        ensures
            kind == ResizePolicy::spec_from_code(code),
    {
        if code == 0 {
            ResizePolicy::Fixed
        } else if code == 1 {
            ResizePolicy::Leader
        } else if code == 2 {
            ResizePolicy::ActiveClient
        } else if code == 3 {
            ResizePolicy::Manual
        } else {
            ResizePolicy::Other(code)
        }
    }

    pub fn known(self) -> (known: bool)
        ensures
            known == self.is_known(),
    {
        !matches!(self, ResizePolicy::Other(_))
    }

    /// A known kind survives the trip through its code.
    pub proof fn lemma_code_round_trip(self)
        requires
            self.is_known(),
        ensures
            ResizePolicy::spec_from_code(self.spec_code()) == self,
    {
    }

    /// Decoding a code never yields an `Other` that stands for a known code.
    pub proof fn lemma_from_code_inverse(code: u8)
        ensures
            ResizePolicy::spec_from_code(code).spec_code() == code,
    {
    }
}

/// How a pane node is split (`Unsplit` for a leaf).
#[derive(Clone, Copy, Debug, PartialEq, Eq, Structural)]
pub enum SplitAxis {
    Unsplit,
    Horizontal,
    Other(u8),
}

impl SplitAxis {
    pub open spec fn spec_code(self) -> u8 {
        match self {
            SplitAxis::Unsplit => 0,
            SplitAxis::Horizontal => 1,
            SplitAxis::Other(code) => code,
        }
    }

    pub open spec fn spec_from_code(code: u8) -> SplitAxis {
        if code == 0 {
            SplitAxis::Unsplit
        } else if code == 1 {
            SplitAxis::Horizontal
        } else {
            SplitAxis::Other(code)
        }
    }

    pub open spec fn is_known(self) -> bool {
        !(self is Other)
    }

    pub fn code(self) -> (code: u8)
        ensures
            code == self.spec_code(),
    {
        match self {
            SplitAxis::Unsplit => 0,
            SplitAxis::Horizontal => 1,
            SplitAxis::Other(code) => code,
        }
    }

    pub fn from_code(code: u8) -> (kind: SplitAxis)
        ensures
            kind == SplitAxis::spec_from_code(code),
    {
        if code == 0 {
            SplitAxis::Unsplit
        } else if code == 1 {
            SplitAxis::Horizontal
        } else {
            SplitAxis::Other(code)
        }
    }

    pub fn known(self) -> (known: bool)
        ensures
            known == self.is_known(),
    {
        !matches!(self, SplitAxis::Other(_))
    }

    /// A known kind survives the trip through its code.
    pub proof fn lemma_code_round_trip(self)
        requires
            self.is_known(),
        ensures
            SplitAxis::spec_from_code(self.spec_code()) == self,
    {
    }

    /// Decoding a code never yields an `Other` that stands for a known code.
    pub proof fn lemma_from_code_inverse(code: u8)
        ensures
            SplitAxis::spec_from_code(code).spec_code() == code,
    {
    }
}

/// The class of an error reported by the server.
#[derive(Clone, Copy, Debug, PartialEq, Eq, Structural)]
pub enum ErrorCode {
    Unknown,
    PaneNotFound,
    PermissionDenied,
    StaleVersion,
    Other(u8),
}

impl ErrorCode {
    pub open spec fn spec_code(self) -> u8 {
        match self {
            ErrorCode::Unknown => 0,
            ErrorCode::PaneNotFound => 1,
            ErrorCode::PermissionDenied => 2,
            ErrorCode::StaleVersion => 3,
            ErrorCode::Other(code) => code,
        }
    }

    pub open spec fn spec_from_code(code: u8) -> ErrorCode {
        if code == 0 {
            ErrorCode::Unknown
        } else if code == 1 {
            ErrorCode::PaneNotFound
        } else if code == 2 {
            ErrorCode::PermissionDenied
        } else if code == 3 {
            ErrorCode::StaleVersion
        } else {
            ErrorCode::Other(code)
        }
    }

    pub open spec fn is_known(self) -> bool {
        !(self is Other)
    }

    pub fn code(self) -> (code: u8)
        ensures
            code == self.spec_code(),
    {
        match self {
            ErrorCode::Unknown => 0,
            ErrorCode::PaneNotFound => 1,
            ErrorCode::PermissionDenied => 2,
            ErrorCode::StaleVersion => 3,
            ErrorCode::Other(code) => code,
        }
    }

    pub fn from_code(code: u8) -> (kind: ErrorCode)
        ensures
            kind == ErrorCode::spec_from_code(code),
    {
        if code == 0 {
            ErrorCode::Unknown
        } else if code == 1 {
            ErrorCode::PaneNotFound
        } else if code == 2 {
            ErrorCode::PermissionDenied
        } else if code == 3 {
            ErrorCode::StaleVersion
        } else {
            ErrorCode::Other(code)
        }
    }

    pub fn known(self) -> (known: bool)
        ensures
            known == self.is_known(),
    {
        !matches!(self, ErrorCode::Other(_))
    }

    /// A known kind survives the trip through its code.
    pub proof fn lemma_code_round_trip(self)
        requires
            self.is_known(),
        ensures
            ErrorCode::spec_from_code(self.spec_code()) == self,
    {
    }

    /// Decoding a code never yields an `Other` that stands for a known code.
    pub proof fn lemma_from_code_inverse(code: u8)
        ensures
            ErrorCode::spec_from_code(code).spec_code() == code,
    {
    }
}

/// Whether an attached client may send input.
#[derive(Clone, Copy, Debug, PartialEq, Eq, Structural)]
pub enum AttachMode {
    ReadOnly,
    ReadWrite,
}

impl AttachMode {
    pub open spec fn spec_from_code(code: u8) -> Option<AttachMode> {
        if code == 0 {
            Some(AttachMode::ReadOnly)
        } else if code == 1 {
            Some(AttachMode::ReadWrite)
        } else {
            None
        }
    }

    /// The variant that a wire code stands for, or `None` for a code this side does not know.
    pub fn from_code(code: u8) -> (kind: Option<AttachMode>)
        ensures
            kind == AttachMode::spec_from_code(code),
    {
        if code == 0 {
            Some(AttachMode::ReadOnly)
        } else if code == 1 {
            Some(AttachMode::ReadWrite)
        } else {
            None
        }
    }
}

/// The button of a mouse event (`NoButton` for plain motion).
#[derive(Clone, Copy, Debug, PartialEq, Eq, Structural)]
pub enum MouseButton {
    NoButton,
    Left,
    Middle,
    Right,
    WheelUp,
    WheelDown,
}

impl MouseButton {
    pub open spec fn spec_from_code(code: u8) -> Option<MouseButton> {
        if code == 0 {
            Some(MouseButton::NoButton)
        } else if code == 1 {
            Some(MouseButton::Left)
        } else if code == 2 {
            Some(MouseButton::Middle)
        } else if code == 3 {
            Some(MouseButton::Right)
        } else if code == 4 {
            Some(MouseButton::WheelUp)
        } else if code == 5 {
            Some(MouseButton::WheelDown)
        } else {
            None
        }
    }

    /// The variant that a wire code stands for, or `None` for a code this side does not know.
    pub fn from_code(code: u8) -> (kind: Option<MouseButton>)
        ensures
            kind == MouseButton::spec_from_code(code),
    {
        if code == 0 {
            Some(MouseButton::NoButton)
        } else if code == 1 {
            Some(MouseButton::Left)
        } else if code == 2 {
            Some(MouseButton::Middle)
        } else if code == 3 {
            Some(MouseButton::Right)
        } else if code == 4 {
            Some(MouseButton::WheelUp)
        } else if code == 5 {
            Some(MouseButton::WheelDown)
        } else {
            None
        }
    }
}

/// What a mouse event reports.
#[derive(Clone, Copy, Debug, PartialEq, Eq, Structural)]
pub enum MouseAction {
    Press,
    Release,
    Motion,
}

impl MouseAction {
    pub open spec fn spec_from_code(code: u8) -> Option<MouseAction> {
        if code == 0 {
            Some(MouseAction::Press)
        } else if code == 1 {
            Some(MouseAction::Release)
        } else if code == 2 {
            Some(MouseAction::Motion)
        } else {
            None
        }
    }

    /// The variant that a wire code stands for, or `None` for a code this side does not know.
    pub fn from_code(code: u8) -> (kind: Option<MouseAction>)
        ensures
            kind == MouseAction::spec_from_code(code),
    {
        if code == 0 {
            Some(MouseAction::Press)
        } else if code == 1 {
            Some(MouseAction::Release)
        } else if code == 2 {
            Some(MouseAction::Motion)
        } else {
            None
        }
    }
}

} // verus!
