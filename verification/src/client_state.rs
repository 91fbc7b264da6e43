use vstd::prelude::*;

use crate::kinds::{AttachSurfaceState, PatchKind, SurfaceKind};
use crate::protocol::{AttachStatusSummary, PresenceSummary, ScrollbackChunkSummary, WorkspaceSummary};
use crate::render::{has_styles, styled_text, surface_text, visible_rows, lemma_visible_rows_bound};
use crate::surface::{
    copy_hyperlinks, copy_runs, copy_values, lemma_deep_push, lemma_deep_update,
    lemma_update_keeps_valid, snapshot_surface, unnamed, updated, CellRunView, ClientPaneSurface,
    ColorsView, CursorSummary, HyperlinkSummary, HyperlinkView, PaneSurfaceView, RowUpdateView,
    StyleSummary, SurfaceError, SurfaceRowUpdate, SurfaceUpdate, SurfaceUpdateKind,
    SurfaceUpdateView, TerminalColorSummary, TerminalModeSummary,
};
use crate::text::str_eq;

verus! {

broadcast use vstd::seq::group_seq_axioms;

// ---------------------------------------------------------------------------
// Socket identity: which server a cache belongs to
// ---------------------------------------------------------------------------

/// The identity of the server socket a cache was filled from: device,
/// inode and change time of the socket file.
#[derive(Clone, Copy, Debug, PartialEq, Eq, Structural)]
pub struct SocketIdentity {
    pub dev: u64,
    pub ino: u64,
    pub ctime: i64,
    pub ctime_nsec: i64,
}

/// A socket identity as shown to users.
#[derive(Clone, Copy, Debug, PartialEq, Eq, Structural)]
pub struct SocketIdentitySummary {
    pub dev: u64,
    pub ino: u64,
    pub ctime: i64,
    pub ctime_nsec: i64,
}

impl From<SocketIdentity> for SocketIdentitySummary {
    fn from(identity: SocketIdentity) -> (summary: SocketIdentitySummary) {
        SocketIdentitySummary {
            dev: identity.dev,
            ino: identity.ino,
            ctime: identity.ctime,
            ctime_nsec: identity.ctime_nsec,
        }
    }
}

impl vstd::std_specs::convert::FromSpecImpl<SocketIdentity> for SocketIdentitySummary {
    open spec fn obeys_from_spec() -> bool {
        true
    }

    open spec fn from_spec(v: SocketIdentity) -> SocketIdentitySummary {
        SocketIdentitySummary {
            dev: v.dev,
            ino: v.ino,
            ctime: v.ctime,
            ctime_nsec: v.ctime_nsec,
        }
    }
}

pub fn same_scope(a: Option<SocketIdentity>, b: Option<SocketIdentity>) -> (same: bool)
    ensures
        same == (a == b),
{
    match (a, b) {
        (Some(x), Some(y)) => x.dev == y.dev && x.ino == y.ino && x.ctime == y.ctime
            && x.ctime_nsec == y.ctime_nsec,
        (None, None) => true,
        _ => false,
    }
}

// ---------------------------------------------------------------------------
// Cached scrollback ranges
// ---------------------------------------------------------------------------

/// The version at which a range of a pane's scrollback was last fetched.
#[derive(Clone, Debug, PartialEq, Eq)]
pub struct ClientPaneScrollback {
    pub pane_id: String,
    pub version: u64,
    pub start_line: u64,
    pub line_count: u32,
    pub total_lines: u64,
}

#[verifier::ext_equal]
pub struct ScrollbackView {
    pub pane_id: Seq<char>,
    pub version: u64,
    pub start_line: u64,
    pub line_count: u32,
    pub total_lines: u64,
}

impl View for ClientPaneScrollback {
    type V = ScrollbackView;

    open spec fn view(&self) -> ScrollbackView {
        ScrollbackView {
            pane_id: self.pane_id@,
            version: self.version,
            start_line: self.start_line,
            line_count: self.line_count,
            total_lines: self.total_lines,
        }
    }
}

impl DeepView for ClientPaneScrollback {
    type V = ScrollbackView;

    open spec fn deep_view(&self) -> ScrollbackView {
        self@
    }
}

impl ClientPaneScrollback {
    pub fn duplicate(&self) -> (copy: ClientPaneScrollback)
        ensures
            copy@ == self@,
    {
        ClientPaneScrollback {
            pane_id: self.pane_id.clone(),
            version: self.version,
            start_line: self.start_line,
            line_count: self.line_count,
            total_lines: self.total_lines,
        }
    }
}

/// A cached surface version a client announces when it attaches.
#[derive(Clone, Debug, PartialEq, Eq)]
pub struct KnownSurfaceVersion {
    pub pane_id: String,
    pub version: u64,
}

impl View for KnownSurfaceVersion {
    type V = (Seq<char>, u64);

    open spec fn view(&self) -> (Seq<char>, u64) {
        (self.pane_id@, self.version)
    }
}

impl DeepView for KnownSurfaceVersion {
    type V = (Seq<char>, u64);

    open spec fn deep_view(&self) -> (Seq<char>, u64) {
        self@
    }
}

/// A cached scrollback range and its version.
#[derive(Clone, Debug, PartialEq, Eq)]
pub struct KnownScrollbackVersion {
    pub pane_id: String,
    pub start_line: u64,
    pub line_count: u32,
    pub version: u64,
}

impl View for KnownScrollbackVersion {
    type V = ScrollbackView;

    /// Seen as a cached range; the total is not part of it.
    open spec fn view(&self) -> ScrollbackView {
        ScrollbackView {
            pane_id: self.pane_id@,
            version: self.version,
            start_line: self.start_line,
            line_count: self.line_count,
            total_lines: 0,
        }
    }
}

impl DeepView for KnownScrollbackVersion {
    type V = ScrollbackView;

    open spec fn deep_view(&self) -> ScrollbackView {
        self@
    }
}

// ---------------------------------------------------------------------------
// The client's cache
// ---------------------------------------------------------------------------

/// What a client remembers between attaches: the server it talked to, the
/// surfaces it holds, and the scrollback ranges it has fetched.
#[derive(Clone, Debug, PartialEq, Eq)]
pub struct ClientAttachState {
    pub scope: Option<SocketIdentity>,
    pub surfaces: Vec<ClientPaneSurface>,
    pub scrollbacks: Vec<ClientPaneScrollback>,
}

#[verifier::ext_equal]
pub struct AttachStateView {
    pub scope: Option<SocketIdentity>,
    pub surfaces: Seq<PaneSurfaceView>,
    pub scrollbacks: Seq<ScrollbackView>,
}

impl View for ClientAttachState {
    type V = AttachStateView;

    open spec fn view(&self) -> AttachStateView {
        AttachStateView {
            scope: self.scope,
            surfaces: self.surfaces.deep_view(),
            scrollbacks: self.scrollbacks.deep_view(),
        }
    }
}

impl AttachStateView {
    /// Every cached surface is valid.
    pub open spec fn valid(self) -> bool {
        forall|k: int| 0 <= k < self.surfaces.len() ==> (#[trigger] self.surfaces[k]).valid()
    }

    /// Every cached surface has an entry in each per-row table for each row
    /// of text, which is what writing it out reads.
    pub open spec fn encodable(self) -> bool {
        forall|k: int|
            0 <= k < self.surfaces.len() ==> (#[trigger] self.surfaces[k]).rows_cover_text()
    }

    pub open spec fn empty() -> AttachStateView {
        AttachStateView { scope: None, surfaces: Seq::empty(), scrollbacks: Seq::empty() }
    }
}

impl Default for ClientAttachState {
    fn default() -> (state: ClientAttachState)
        ensures
            state@ == AttachStateView::empty(),
    {
        let state = ClientAttachState { scope: None, surfaces: Vec::new(), scrollbacks: Vec::new() };
        assert(state@ =~= AttachStateView::empty());
        state
    }
}

/// The first cached surface of a pane, if any.
pub open spec fn find_surface(surfaces: Seq<PaneSurfaceView>, pane_id: Seq<char>) -> Option<int>
    decreases surfaces.len(),
{
    if surfaces.len() == 0 {
        None
    } else {
        match find_surface(surfaces.drop_last(), pane_id) {
            Some(k) => Some(k),
            None => if surfaces.last().pane_id == pane_id {
                Some(surfaces.len() - 1)
            } else {
                None
            },
        }
    }
}

pub proof fn lemma_find_surface(surfaces: Seq<PaneSurfaceView>, pane_id: Seq<char>)
    ensures
        find_surface(surfaces, pane_id) matches Some(k) ==> 0 <= k < surfaces.len()
            && surfaces[k].pane_id == pane_id && forall|j: int|
            0 <= j < k ==> (#[trigger] surfaces[j]).pane_id != pane_id,
        find_surface(surfaces, pane_id) is None ==> forall|j: int|
            0 <= j < surfaces.len() ==> (#[trigger] surfaces[j]).pane_id != pane_id,
    decreases surfaces.len(),
{
    if surfaces.len() > 0 {
        lemma_find_surface(surfaces.drop_last(), pane_id);
        assert forall|j: int| 0 <= j < surfaces.len() - 1 implies #[trigger] surfaces[j]
            == surfaces.drop_last()[j] by {}
    }
}

/// The first cached scrollback range of a pane with this start and count.
pub open spec fn find_scrollback(
    scrollbacks: Seq<ScrollbackView>,
    pane_id: Seq<char>,
    start_line: u64,
    line_count: u32,
) -> Option<int>
    decreases scrollbacks.len(),
{
    if scrollbacks.len() == 0 {
        None
    } else {
        match find_scrollback(scrollbacks.drop_last(), pane_id, start_line, line_count) {
            Some(k) => Some(k),
            None => {
                let last = scrollbacks.last();
                if last.pane_id == pane_id && last.start_line == start_line && last.line_count
                    == line_count {
                    Some(scrollbacks.len() - 1)
                } else {
                    None
                }
            },
        }
    }
}

/// Why the cache refused an attach or an update.
#[derive(Clone, Debug, PartialEq, Eq)]
pub enum AttachError {
    Surface(SurfaceError),
    PatchWithoutSnapshot(String),
    StatusPaneMismatch { surface: String, status: String },
    CurrentWithSurface,
    StatusKindMismatch { state: AttachSurfaceState, kind: SurfaceUpdateKind },
    MissingSurfaceFrame(AttachSurfaceState),
    NoCachedSurface(String),
    CachedVersionMismatch { pane_id: String, cached: u64, status: u64 },
}

/// An attach error with the panes it names filled in: the pane of the
/// surface frame, and the pane of the attach status.
pub open spec fn named(e: AttachError, surface_pane: String, status_pane: String) -> AttachError {
    match e {
        AttachError::PatchWithoutSnapshot(_) => AttachError::PatchWithoutSnapshot(surface_pane),
        AttachError::StatusPaneMismatch { .. } => AttachError::StatusPaneMismatch {
            surface: surface_pane,
            status: status_pane,
        },
        AttachError::NoCachedSurface(_) => AttachError::NoCachedSurface(status_pane),
        AttachError::CachedVersionMismatch { cached, status, .. } =>
            AttachError::CachedVersionMismatch { pane_id: status_pane, cached, status },
        _ => e,
    }
}

/// The cache after a surface update: the pane's cached surface updated, or
/// a snapshot for a new pane appended.
pub open spec fn surface_updated(st: AttachStateView, u: SurfaceUpdateView) -> Result<
    AttachStateView,
    AttachError,
> {
    match find_surface(st.surfaces, u.pane_id) {
        Some(k) => match updated(st.surfaces[k], u) {
            Ok(t) => Ok(AttachStateView { surfaces: st.surfaces.update(k, t), ..st }),
            Err(e) => Err(AttachError::Surface(e)),
        },
        None => if u.kind != SurfaceUpdateKind::Snapshot {
            Err(AttachError::PatchWithoutSnapshot(unnamed()))
        } else {
            match snapshot_surface(u) {
                Ok(t) => Ok(AttachStateView { surfaces: st.surfaces.push(t), ..st }),
                Err(e) => Err(AttachError::Surface(e)),
            }
        },
    }
}

/// The surface of the updated pane after an accepted update.
pub open spec fn updated_surface(st: AttachStateView, u: SurfaceUpdateView) -> PaneSurfaceView {
    let next = surface_updated(st, u)->Ok_0;
    match find_surface(st.surfaces, u.pane_id) {
        Some(k) => next.surfaces[k],
        None => next.surfaces.last(),
    }
}

/// A surface as text: styled when asked for and the surface has styles.
pub open spec fn shown_text(s: PaneSurfaceView, styled: bool) -> Seq<char> {
    if styled && has_styles(s) {
        styled_text(s)
    } else {
        surface_text(s)
    }
}

/// Every cached surface of the pane has an entry in each per-row table for
/// each row of text.
pub open spec fn pane_rows_covered(st: AttachStateView, pane_id: Seq<char>) -> bool {
    forall|k: int|
        0 <= k < st.surfaces.len() && (#[trigger] st.surfaces[k]).pane_id == pane_id
            ==> st.surfaces[k].rows_cover_text()
}

/// Every cached surface of the pane has no more rows of text than a `u32`
/// row index reaches.
pub open spec fn pane_rows_indexable(st: AttachStateView, pane_id: Seq<char>) -> bool {
    forall|k: int|
        0 <= k < st.surfaces.len() && (#[trigger] st.surfaces[k]).pane_id == pane_id
            ==> st.surfaces[k].row_text.len() <= 0x1_0000_0000
}

/// The scrollback cache after a chunk arrived: an empty chunk changes
/// nothing; otherwise the entry for the same pane and range is replaced,
/// or the range is appended.
pub open spec fn scrollback_cached(
    scrollbacks: Seq<ScrollbackView>,
    pane_id: Seq<char>,
    version: u64,
    start_line: u64,
    line_count: nat,
    total_lines: u64,
) -> Seq<ScrollbackView> {
    if line_count == 0 {
        scrollbacks
    } else {
        let count: u32 = if line_count > u32::MAX {
            u32::MAX
        } else {
            line_count as u32
        };
        let entry = ScrollbackView { pane_id, version, start_line, line_count: count, total_lines };
        match find_scrollback(scrollbacks, pane_id, start_line, count) {
            Some(k) => scrollbacks.update(k, entry),
            None => scrollbacks.push(entry),
        }
    }
}

impl ClientAttachState {
    fn surface_index(&self, pane_id: &str) -> (index: Option<usize>)
        ensures
            match index {
                Some(k) => find_surface(self@.surfaces, pane_id@) == Some(k as int) && k
                    < self.surfaces@.len(),
                None => find_surface(self@.surfaces, pane_id@) is None,
            },
    {
        let ghost all = self@.surfaces;
        let mut i: usize = 0;
        while i < self.surfaces.len()
            invariant
                all == self@.surfaces,
                0 <= i <= self.surfaces@.len(),
                find_surface(all.take(i as int), pane_id@) is None,
            decreases self.surfaces@.len() - i,
        {
            assert(all[i as int] == self.surfaces@[i as int]@);
            proof {
                assert(all.take(i + 1).drop_last() =~= all.take(i as int));
            }
            if str_eq(self.surfaces[i].pane_id.as_str(), pane_id) {
                proof {
                    lemma_find_prefix(all, pane_id@, i + 1);
                }
                return Some(i);
            }
            i = i + 1;
        }
        assert(all.take(i as int) =~= all);
        None
    }

    fn scrollback_index(&self, pane_id: &str, start_line: u64, line_count: u32) -> (index: Option<
        usize,
    >)
        ensures
            match index {
                Some(k) => find_scrollback(self@.scrollbacks, pane_id@, start_line, line_count) == Some(
                    k as int,
                ) && k < self.scrollbacks@.len(),
                None => find_scrollback(self@.scrollbacks, pane_id@, start_line, line_count) is None,
            },
    {
        let ghost all = self@.scrollbacks;
        let mut i: usize = 0;
        while i < self.scrollbacks.len()
            invariant
                all == self@.scrollbacks,
                0 <= i <= self.scrollbacks@.len(),
                find_scrollback(all.take(i as int), pane_id@, start_line, line_count) is None,
            decreases self.scrollbacks@.len() - i,
        {
            assert(all[i as int] == self.scrollbacks@[i as int]@);
            proof {
                assert(all.take(i + 1).drop_last() =~= all.take(i as int));
            }
            let s = &self.scrollbacks[i];
            if str_eq(s.pane_id.as_str(), pane_id) && s.start_line == start_line && s.line_count
                == line_count {
                proof {
                    lemma_find_scrollback_prefix(all, pane_id@, start_line, line_count, i + 1);
                }
                return Some(i);
            }
            i = i + 1;
        }
        assert(all.take(i as int) =~= all);
        None
    }

    /// The version of every cached surface, in cache order.
    pub fn known_surfaces(&self) -> (known: Vec<KnownSurfaceVersion>)
        ensures
            known.deep_view() == Seq::new(
                self@.surfaces.len(),
                |k: int| (self@.surfaces[k].pane_id, self@.surfaces[k].version),
            ),
    {
        let ghost expected = Seq::new(
            self@.surfaces.len(),
            |k: int| (self@.surfaces[k].pane_id, self@.surfaces[k].version),
        );
        let mut known: Vec<KnownSurfaceVersion> = Vec::new();
        let mut i: usize = 0;
        while i < self.surfaces.len()
            invariant
                expected == Seq::new(
                    self@.surfaces.len(),
                    |k: int| (self@.surfaces[k].pane_id, self@.surfaces[k].version),
                ),
                0 <= i <= self.surfaces@.len(),
                known.deep_view() == expected.take(i as int),
            decreases self.surfaces@.len() - i,
        {
            assert(self@.surfaces[i as int] == self.surfaces@[i as int]@);
            let ghost before = known;
            let entry = KnownSurfaceVersion {
                pane_id: self.surfaces[i].pane_id.clone(),
                version: self.surfaces[i].version,
            };
            known.push(entry);
            proof {
                lemma_deep_push(before, known, entry);
            }
            i = i + 1;
            assert(known.deep_view() =~= expected.take(i as int));
        }
        assert(expected.take(i as int) =~= expected);
        known
    }

    /// The known surfaces, if the cache belongs to this server; none otherwise.
    pub fn known_surfaces_for_scope(&self, scope: Option<SocketIdentity>) -> (known: Vec<
        KnownSurfaceVersion,
    >)
        ensures
            known.deep_view() == if self@.scope == scope {
                Seq::new(
                    self@.surfaces.len(),
                    |k: int| (self@.surfaces[k].pane_id, self@.surfaces[k].version),
                )
            } else {
                Seq::empty()
            },
    {
        if same_scope(self.scope, scope) {
            self.known_surfaces()
        } else {
            let none: Vec<KnownSurfaceVersion> = Vec::new();
            assert(none.deep_view() =~= Seq::<(Seq<char>, u64)>::empty());
            none
        }
    }

    /// The version of a cached scrollback range.
    pub fn cached_scrollback_version(&self, pane_id: &str, start_line: u64, line_count: u32) -> (version:
        Option<u64>)
        ensures
            version == match find_scrollback(self@.scrollbacks, pane_id@, start_line, line_count) {
                Some(k) => Some(self@.scrollbacks[k].version),
                None => None,
            },
    {
        match self.scrollback_index(pane_id, start_line, line_count) {
            Some(k) => {
                assert(self@.scrollbacks[k as int] == self.scrollbacks@[k as int]@);
                Some(self.scrollbacks[k].version)
            },
            None => None,
        }
    }

    pub fn cached_scrollback_version_for_scope(
        &self,
        scope: Option<SocketIdentity>,
        pane_id: &str,
        start_line: u64,
        line_count: u32,
    ) -> (version: Option<u64>)
        ensures
            version == if self@.scope != scope {
                None
            } else {
                match find_scrollback(self@.scrollbacks, pane_id@, start_line, line_count) {
                    Some(k) => Some(self@.scrollbacks[k].version),
                    None => None,
                }
            },
    {
        if !same_scope(self.scope, scope) {
            return None;
        }
        self.cached_scrollback_version(pane_id, start_line, line_count)
    }

    /// Every cached scrollback range, if the cache belongs to this server.
    pub fn known_scrollback_versions_for_scope(&self, scope: Option<SocketIdentity>) -> (known: Vec<
        KnownScrollbackVersion,
    >)
        ensures
            known.deep_view() == (if self@.scope == scope {
                Seq::new(
                    self@.scrollbacks.len(),
                    |k: int| (ScrollbackView { total_lines: 0, ..self@.scrollbacks[k] }),
                )
            } else {
                Seq::empty()
            }),
    {
        let ghost expected = Seq::new(
            self@.scrollbacks.len(),
            |k: int| ScrollbackView { total_lines: 0, ..self@.scrollbacks[k] },
        );
        let mut known: Vec<KnownScrollbackVersion> = Vec::new();
        if !same_scope(self.scope, scope) {
            assert(known.deep_view() =~= Seq::<ScrollbackView>::empty());
            return known;
        }
        let mut i: usize = 0;
        while i < self.scrollbacks.len()
            invariant
                expected == Seq::new(
                    self@.scrollbacks.len(),
                    |k: int| ScrollbackView { total_lines: 0, ..self@.scrollbacks[k] },
                ),
                0 <= i <= self.scrollbacks@.len(),
                known.deep_view() == expected.take(i as int),
            decreases self.scrollbacks@.len() - i,
        {
            assert(self@.scrollbacks[i as int] == self.scrollbacks@[i as int]@);
            let s = &self.scrollbacks[i];
            let ghost before = known;
            let entry = KnownScrollbackVersion {
                pane_id: s.pane_id.clone(),
                start_line: s.start_line,
                line_count: s.line_count,
                version: s.version,
            };
            known.push(entry);
            proof {
                lemma_deep_push(before, known, entry);
                assert(entry@ =~= expected[i as int]);
            }
            i = i + 1;
            assert(known.deep_view() =~= expected.take(i as int));
        }
        assert(expected.take(i as int) =~= expected);
        known
    }

    /// Adopts a server identity; a different server drops everything cached.
    pub fn apply_scope(&mut self, scope: Option<SocketIdentity>)
        ensures
            final(self)@ == (if old(self)@.scope == scope {
                old(self)@
            } else {
                AttachStateView { scope, surfaces: Seq::empty(), scrollbacks: Seq::empty() }
            }),
    {
        if !same_scope(self.scope, scope) {
            self.surfaces.clear();
            self.scrollbacks.clear();
            assert(self.surfaces.deep_view() =~= Seq::<PaneSurfaceView>::empty());
            assert(self.scrollbacks.deep_view() =~= Seq::<ScrollbackView>::empty());
        }
        self.scope = scope;
        assert(self@ =~= if old(self)@.scope == scope {
            old(self)@
        } else {
            AttachStateView { scope, surfaces: Seq::empty(), scrollbacks: Seq::empty() }
        });
    }

    /// Records the version of a fetched scrollback chunk; empty chunks are
    /// not cached.
    pub fn cache_scrollback_chunk(&mut self, chunk: &ScrollbackChunkSummary)
        ensures
            final(self)@ == (AttachStateView {
                scrollbacks: scrollback_cached(
                    old(self)@.scrollbacks,
                    chunk.pane_id@,
                    chunk.scrollback_version,
                    chunk.start_line,
                    chunk.lines@.len(),
                    chunk.total_lines,
                ),
                ..old(self)@
            }),
    {
        if chunk.lines.len() == 0 {
            assert(self@ =~= AttachStateView {
                scrollbacks: scrollback_cached(
                    old(self)@.scrollbacks,
                    chunk.pane_id@,
                    chunk.scrollback_version,
                    chunk.start_line,
                    chunk.lines@.len(),
                    chunk.total_lines,
                ),
                ..old(self)@
            });
            return ;
        }
        let line_count: u32 = if chunk.lines.len() > u32::MAX as usize {
            u32::MAX
        } else {
            chunk.lines.len() as u32
        };
        let cached = ClientPaneScrollback {
            pane_id: chunk.pane_id.clone(),
            version: chunk.scrollback_version,
            start_line: chunk.start_line,
            line_count,
            total_lines: chunk.total_lines,
        };
        let ghost before = self.scrollbacks;
        match self.scrollback_index(chunk.pane_id.as_str(), chunk.start_line, line_count) {
            Some(k) => {
                self.scrollbacks.set(k, cached);
                proof {
                    lemma_deep_update(before, self.scrollbacks, k as int, cached);
                }
            },
            None => {
                self.scrollbacks.push(cached);
                proof {
                    lemma_deep_push(before, self.scrollbacks, cached);
                }
            },
        }
        assert(self@ =~= AttachStateView {
            scrollbacks: scrollback_cached(
                old(self)@.scrollbacks,
                chunk.pane_id@,
                chunk.scrollback_version,
                chunk.start_line,
                chunk.lines@.len(),
                chunk.total_lines,
            ),
            ..old(self)@
        });
    }
}

proof fn lemma_find_prefix(all: Seq<PaneSurfaceView>, pane_id: Seq<char>, i: int)
    requires
        0 <= i <= all.len(),
        find_surface(all.take(i), pane_id) is Some,
    ensures
        find_surface(all, pane_id) == find_surface(all.take(i), pane_id),
    decreases all.len() - i,
{
    if i < all.len() {
        assert(all.take(i + 1).drop_last() =~= all.take(i));
        lemma_find_prefix(all, pane_id, i + 1);
    } else {
        assert(all.take(i) =~= all);
    }
}

proof fn lemma_find_scrollback_prefix(
    all: Seq<ScrollbackView>,
    pane_id: Seq<char>,
    start_line: u64,
    line_count: u32,
    i: int,
)
    requires
        0 <= i <= all.len(),
        find_scrollback(all.take(i), pane_id, start_line, line_count) is Some,
    ensures
        find_scrollback(all, pane_id, start_line, line_count) == find_scrollback(
            all.take(i),
            pane_id,
            start_line,
            line_count,
        ),
    decreases all.len() - i,
{
    if i < all.len() {
        assert(all.take(i + 1).drop_last() =~= all.take(i));
        lemma_find_scrollback_prefix(all, pane_id, start_line, line_count, i + 1);
    } else {
        assert(all.take(i) =~= all);
    }
}

// ---------------------------------------------------------------------------
// Terminal metadata
// ---------------------------------------------------------------------------

/// The title and working directory a pane's terminal reported.
#[derive(Clone, Debug, PartialEq, Eq)]
pub struct TerminalMetadataSummary {
    pub title: String,
    pub working_directory: String,
}

impl Default for TerminalMetadataSummary {
    fn default() -> (metadata: TerminalMetadataSummary)
        ensures
            metadata.title@.len() == 0,
            metadata.working_directory@.len() == 0,
    {
        TerminalMetadataSummary { title: String::new(), working_directory: String::new() }
    }
}

/// A C0 or C1 control character, or DEL (`char::is_control`).
pub open spec fn is_control(c: char) -> bool {
    (c as u32) <= 0x1f || (0x7f <= (c as u32) && (c as u32) <= 0x9f)
}

pub fn char_is_control(c: char) -> (control: bool)
    ensures
        control == is_control(c),
{
    let code = c as u32;
    code <= 0x1f || (0x7f <= code && code <= 0x9f)
}

/// A value safe to show on one line: control characters other than tab
/// become U+FFFD.
pub open spec fn sanitized(value: Seq<char>) -> Seq<char> {
    Seq::new(
        value.len(),
        |i: int|
            if value[i] == '\t' || !is_control(value[i]) {
                value[i]
            } else {
                '\u{fffd}'
            },
    )
}

pub fn sanitized_metadata_value(value: &str) -> (clean: String)
    ensures
        clean@ == sanitized(value@),
{
    let chars = crate::text::chars_of(value);
    let mut clean = String::new();
    let mut i: usize = 0;
    while i < chars.len()
        invariant
            chars@ == value@,
            0 <= i <= chars@.len(),
            clean@ == sanitized(value@).take(i as int),
        decreases chars@.len() - i,
    {
        let ch = chars[i];
        let shown = if ch == '\t' || !char_is_control(ch) {
            ch
        } else {
            '\u{fffd}'
        };
        crate::text::push_char(&mut clean, shown);
        i = i + 1;
        assert(clean@ =~= sanitized(value@).take(i as int));
    }
    assert(sanitized(value@).take(i as int) =~= sanitized(value@));
    clean
}

/// The metadata lines to show: each non-empty value, sanitized.
pub open spec fn metadata_lines(title: Seq<char>, working_directory: Seq<char>) -> Seq<Seq<char>> {
    (if title.len() > 0 {
        seq!["title="@ + sanitized(title)]
    } else {
        Seq::empty()
    }) + (if working_directory.len() > 0 {
        seq!["working-directory="@ + sanitized(working_directory)]
    } else {
        Seq::empty()
    })
}

impl TerminalMetadataSummary {
    pub fn is_empty(&self) -> (empty: bool)
        ensures
            empty == (self.title@.len() == 0 && self.working_directory@.len() == 0),
    {
        self.title.as_str().is_empty() && self.working_directory.as_str().is_empty()
    }

    pub fn display_lines(&self) -> (lines: Vec<String>)
        ensures
            lines.deep_view() == metadata_lines(self.title@, self.working_directory@),
    {
        let mut lines: Vec<String> = Vec::new();
        let ghost mut expected: Seq<Seq<char>> = Seq::empty();
        assert(lines.deep_view() =~= expected);
        if !self.title.as_str().is_empty() {
            let mut line = String::new();
            crate::text::push_str(&mut line, "title=");
            let clean = sanitized_metadata_value(self.title.as_str());
            crate::text::push_str(&mut line, clean.as_str());
            let ghost before = lines;
            lines.push(line);
            proof {
                lemma_deep_push(before, lines, line);
                expected = expected.push(line@);
            }
        }
        if !self.working_directory.as_str().is_empty() {
            let mut line = String::new();
            crate::text::push_str(&mut line, "working-directory=");
            let clean = sanitized_metadata_value(self.working_directory.as_str());
            crate::text::push_str(&mut line, clean.as_str());
            let ghost before = lines;
            lines.push(line);
            proof {
                lemma_deep_push(before, lines, line);
                expected = expected.push(line@);
            }
        }
        assert(expected =~= metadata_lines(self.title@, self.working_directory@));
        lines
    }

    pub fn from_surface(surface: &ClientPaneSurface) -> (metadata: TerminalMetadataSummary)
        ensures
            metadata.title@ == surface.title@,
            metadata.working_directory@ == surface.working_directory@,
    {
        TerminalMetadataSummary {
            title: surface.title.clone(),
            working_directory: surface.working_directory.clone(),
        }
    }
}

/// The kind, cursor and modes of a cached surface.
#[derive(Clone, Copy, Debug, PartialEq, Eq, Structural)]
pub struct CachedSurfaceSummary {
    pub surface_kind: SurfaceKind,
    pub cursor: Option<CursorSummary>,
    pub modes: TerminalModeSummary,
}

// ---------------------------------------------------------------------------
// Rendered surfaces
// ---------------------------------------------------------------------------

/// A surface as handed to a renderer: its header, tables, and the visible
/// rows as row updates.
#[derive(Clone, Debug, PartialEq, Eq)]
pub struct RenderedSurfaceSummary {
    pub pane_id: String,
    pub version: u64,
    pub cols: u32,
    pub rows: u32,
    pub colors: TerminalColorSummary,
    pub styles: Vec<StyleSummary>,
    pub hyperlinks: Vec<HyperlinkSummary>,
    pub row_updates: Vec<SurfaceRowUpdate>,
}

#[verifier::ext_equal]
pub struct RenderedSurfaceView {
    pub pane_id: Seq<char>,
    pub version: u64,
    pub cols: u32,
    pub rows: u32,
    pub colors: ColorsView,
    pub styles: Seq<StyleSummary>,
    pub hyperlinks: Seq<HyperlinkView>,
    pub row_updates: Seq<RowUpdateView>,
}

impl View for RenderedSurfaceSummary {
    type V = RenderedSurfaceView;

    open spec fn view(&self) -> RenderedSurfaceView {
        RenderedSurfaceView {
            pane_id: self.pane_id@,
            version: self.version,
            cols: self.cols,
            rows: self.rows,
            colors: self.colors@,
            styles: self.styles@,
            hyperlinks: self.hyperlinks.deep_view(),
            row_updates: self.row_updates.deep_view(),
        }
    }
}

/// Row `i` of a surface as a row update.
pub open spec fn row_as_update(s: PaneSurfaceView, i: int) -> RowUpdateView {
    RowUpdateView {
        row: i as u32,
        text: s.row_text[i],
        runs: s.row_runs[i],
        dirty_hash: s.row_dirty_hashes[i],
        row_state_hash: s.row_state_hashes[i],
        semantic_prompt: s.row_semantic_prompts[i],
        dirty: s.row_dirty[i],
        kitty_virtual_placeholder: s.row_kitty_placeholders[i],
    }
}

pub open spec fn surface_summary(s: PaneSurfaceView) -> RenderedSurfaceView {
    RenderedSurfaceView {
        pane_id: s.pane_id,
        version: s.version,
        cols: s.cols,
        rows: s.rows,
        colors: s.colors,
        styles: s.styles,
        hyperlinks: s.hyperlinks,
        row_updates: Seq::new(visible_rows(s.row_text), |i: int| row_as_update(s, i)),
    }
}

impl ClientPaneSurface {
    pub fn summary(&self) -> (summary: RenderedSurfaceSummary)
        requires
            self@.rows_cover_text(),
            visible_rows(self@.row_text) <= 0x1_0000_0000,
        ensures
            summary@ == surface_summary(self@),
    {
        let visible = self.visible_row_count();
        proof {
            lemma_visible_rows_bound(self@.row_text);
        }
        let ghost expected = Seq::new(visible as nat, |i: int| row_as_update(self@, i));
        let mut row_updates: Vec<SurfaceRowUpdate> = Vec::new();
        let mut i: usize = 0;
        while i < visible
            invariant
                expected == Seq::new(visible as nat, |i: int| row_as_update(self@, i)),
                visible <= self@.row_text.len(),
                visible <= 0x1_0000_0000,
                self@.rows_cover_text(),
                0 <= i <= visible,
                row_updates.deep_view() == expected.take(i as int),
            decreases visible - i,
        {
            assert(self@.row_text[i as int] == self.row_text@[i as int]@);
            assert(self@.row_runs[i as int] == self.row_runs@[i as int].deep_view());
            let update = SurfaceRowUpdate {
                row: i as u32,
                text: self.row_text[i].clone(),
                runs: copy_runs(&self.row_runs[i]),
                dirty_hash: self.row_dirty_hashes[i],
                row_state_hash: self.row_state_hashes[i],
                semantic_prompt: self.row_semantic_prompts[i],
                dirty: self.row_dirty[i],
                kitty_virtual_placeholder: self.row_kitty_placeholders[i],
            };
            let ghost before = row_updates;
            row_updates.push(update);
            proof {
                lemma_deep_push(before, row_updates, update);
                assert(update@ =~= expected[i as int]);
            }
            i = i + 1;
            assert(row_updates.deep_view() =~= expected.take(i as int));
        }
        assert(expected.take(i as int) =~= expected);
        let summary = RenderedSurfaceSummary {
            pane_id: self.pane_id.clone(),
            version: self.version,
            cols: self.cols,
            rows: self.rows,
            colors: self.colors.duplicate(),
            styles: copy_values(&self.styles),
            hyperlinks: copy_hyperlinks(&self.hyperlinks),
            row_updates,
        };
        assert(summary@ =~= surface_summary(self@));
        summary
    }
}

// ---------------------------------------------------------------------------
// Applying updates to the cache
// ---------------------------------------------------------------------------

proof fn lemma_surface_updated_valid(st: AttachStateView, u: SurfaceUpdateView)
    requires
        st.valid(),
    ensures
        surface_updated(st, u) matches Ok(next) ==> next.valid(),
{
    crate::surface::lemma_snapshot_valid(u);
    lemma_find_surface(st.surfaces, u.pane_id);
    if let Some(k) = find_surface(st.surfaces, u.pane_id) {
        lemma_update_keeps_valid(st.surfaces[k], u);
    }
    if let Ok(next) = surface_updated(st, u) {
        assert forall|j: int| 0 <= j < next.surfaces.len() implies (
        #[trigger] next.surfaces[j]).valid() by {
            if j < st.surfaces.len() {
                match find_surface(st.surfaces, u.pane_id) {
                    Some(k) => if j != k {
                        assert(next.surfaces[j] == st.surfaces[j]);
                    },
                    None => assert(next.surfaces[j] == st.surfaces[j]),
                }
            }
        }
    }
}

impl ClientAttachState {
    /// Applies a surface update to the cache and renders the updated pane,
    /// styled if asked and the surface has styles. A refused update leaves
    /// the cache as it was.
    pub fn render_surface_update_styled(&mut self, update: &SurfaceUpdate, styled: bool) -> (text:
        Result<String, AttachError>)
        requires
            update.kind == SurfaceUpdateKind::Patch && (styled || update.patch_kind == Some(
                PatchKind::ReplaceRows,
            )) ==> pane_rows_covered(old(self)@, update.pane_id@),
        ensures
            old(self)@.valid() ==> final(self)@.valid(),
            old(self)@.encodable() ==> final(self)@.encodable(),
            pane_rows_covered(old(self)@, update.pane_id@) ==> pane_rows_covered(
                final(self)@,
                update.pane_id@,
            ),
            pane_rows_indexable(old(self)@, update.pane_id@) ==> pane_rows_indexable(
                final(self)@,
                update.pane_id@,
            ),
            match text {
                Ok(t) => surface_updated(old(self)@, update@) == Ok::<
                    AttachStateView,
                    AttachError,
                >(final(self)@) && t@ == shown_text(updated_surface(old(self)@, update@), styled),
                Err(e) => surface_updated(old(self)@, update@) is Err && e == named(
                    surface_updated(old(self)@, update@)->Err_0,
                    update.pane_id,
                    update.pane_id,
                ) && final(self)@ == old(self)@,
            },
    {
        proof {
            if self@.valid() {
                lemma_surface_updated_valid(self@, update@);
            }
            lemma_find_surface(self@.surfaces, update@.pane_id);
        }
        match self.surface_index(update.pane_id.as_str()) {
            Some(k) => {
                let ghost before = self.surfaces;
                assert(self@.surfaces[k as int] == self.surfaces@[k as int]@);
                let applied = self.surfaces[k].apply_update(update);
                proof {
                    lemma_deep_update(before, self.surfaces, k as int, self.surfaces@[k as int]);
                    assert(self@.surfaces =~= old(self)@.surfaces.update(
                        k as int,
                        self.surfaces@[k as int]@,
                    ));
                }
                match applied {
                    Ok(()) => {
                        assert(self@ =~= surface_updated(old(self)@, update@)->Ok_0);
                        let surface = &self.surfaces[k];
                        assert(surface@ == updated_surface(old(self)@, update@));
                        proof {
                            lemma_visible_rows_bound(surface@.row_text);
                        }
                        if styled && surface.has_styled_runs() {
                            Ok(surface.render_styled_text())
                        } else {
                            Ok(surface.render_text())
                        }
                    },
                    Err(e) => {
                        assert(self@ =~= old(self)@);
                        Err(AttachError::Surface(e))
                    },
                }
            },
            None => {
                if update.kind != SurfaceUpdateKind::Snapshot {
                    return Err(AttachError::PatchWithoutSnapshot(update.pane_id.clone()));
                }
                match ClientPaneSurface::from_snapshot(update) {
                    Ok(surface) => {
                        proof {
                            crate::surface::lemma_snapshot_valid(update@);
                            lemma_visible_rows_bound(surface@.row_text);
                        }
                        let rendered = if styled && surface.has_styled_runs() {
                            surface.render_styled_text()
                        } else {
                            surface.render_text()
                        };
                        let ghost before = self.surfaces;
                        self.surfaces.push(surface);
                        proof {
                            lemma_deep_push(before, self.surfaces, surface);
                        }
                        assert(self@ =~= surface_updated(old(self)@, update@)->Ok_0);
                        Ok(rendered)
                    },
                    Err(e) => Err(AttachError::Surface(e)),
                }
            },
        }
    }

    /// Applies a surface update to the cache and renders the pane as text.
    pub fn render_surface_update(&mut self, update: &SurfaceUpdate) -> (text: Result<
        String,
        AttachError,
    >)
        requires
            update.kind == SurfaceUpdateKind::Patch && update.patch_kind == Some(
                PatchKind::ReplaceRows,
            ) ==> pane_rows_covered(old(self)@, update.pane_id@),
        ensures
            old(self)@.valid() ==> final(self)@.valid(),
            old(self)@.encodable() ==> final(self)@.encodable(),
            pane_rows_covered(old(self)@, update.pane_id@) ==> pane_rows_covered(
                final(self)@,
                update.pane_id@,
            ),
            pane_rows_indexable(old(self)@, update.pane_id@) ==> pane_rows_indexable(
                final(self)@,
                update.pane_id@,
            ),
            match text {
                Ok(t) => surface_updated(old(self)@, update@) == Ok::<
                    AttachStateView,
                    AttachError,
                >(final(self)@) && t@ == surface_text(updated_surface(old(self)@, update@)),
                Err(e) => surface_updated(old(self)@, update@) is Err && e == named(
                    surface_updated(old(self)@, update@)->Err_0,
                    update.pane_id,
                    update.pane_id,
                ) && final(self)@ == old(self)@,
            },
    {
        self.render_surface_update_styled(update, false)
    }

    /// The cached text of a pane.
    pub fn cached_surface_text(&self, pane_id: &str) -> (text: Option<String>)
        ensures
            match find_surface(self@.surfaces, pane_id@) {
                Some(k) => text matches Some(t) && t@ == surface_text(self@.surfaces[k]),
                None => text is None,
            },
    {
        self.cached_surface_text_styled(pane_id, false)
    }

    /// The cached text of a pane, styled if asked and it has styles.
    pub fn cached_surface_text_styled(&self, pane_id: &str, styled: bool) -> (text: Option<String>)
        requires
            styled ==> pane_rows_covered(self@, pane_id@),
        ensures
            match find_surface(self@.surfaces, pane_id@) {
                Some(k) => text matches Some(t) && t@ == shown_text(self@.surfaces[k], styled),
                None => text is None,
            },
    {
        match self.surface_index(pane_id) {
            Some(k) => {
                let surface = &self.surfaces[k];
                assert(self@.surfaces[k as int] == surface@);
                proof {
                    lemma_find_surface(self@.surfaces, pane_id@);
                    lemma_visible_rows_bound(surface@.row_text);
                }
                if styled && surface.has_styled_runs() {
                    Some(surface.render_styled_text())
                } else {
                    Some(surface.render_text())
                }
            },
            None => None,
        }
    }

    pub fn cached_surface_metadata(&self, pane_id: &str) -> (metadata: Option<
        TerminalMetadataSummary,
    >)
        ensures
            match find_surface(self@.surfaces, pane_id@) {
                Some(k) => metadata matches Some(m) && m.title@ == self@.surfaces[k].title
                    && m.working_directory@ == self@.surfaces[k].working_directory,
                None => metadata is None,
            },
    {
        match self.surface_index(pane_id) {
            Some(k) => {
                assert(self@.surfaces[k as int] == self.surfaces@[k as int]@);
                Some(TerminalMetadataSummary::from_surface(&self.surfaces[k]))
            },
            None => None,
        }
    }

    pub fn cached_surface_modes(&self, pane_id: &str) -> (modes: Option<TerminalModeSummary>)
        ensures
            modes == match find_surface(self@.surfaces, pane_id@) {
                Some(k) => Some(self@.surfaces[k].modes),
                None => None,
            },
    {
        match self.surface_index(pane_id) {
            Some(k) => {
                assert(self@.surfaces[k as int] == self.surfaces@[k as int]@);
                Some(self.surfaces[k].modes)
            },
            None => None,
        }
    }

    pub fn cached_surface_summary(&self, pane_id: &str) -> (summary: Option<CachedSurfaceSummary>)
        ensures
            summary == match find_surface(self@.surfaces, pane_id@) {
                Some(k) => Some(
                    CachedSurfaceSummary {
                        surface_kind: self@.surfaces[k].surface,
                        cursor: self@.surfaces[k].cursor,
                        modes: self@.surfaces[k].modes,
                    },
                ),
                None => None,
            },
    {
        match self.surface_index(pane_id) {
            Some(k) => {
                assert(self@.surfaces[k as int] == self.surfaces@[k as int]@);
                let s = &self.surfaces[k];
                Some(CachedSurfaceSummary { surface_kind: s.surface, cursor: s.cursor, modes: s.modes })
            },
            None => None,
        }
    }
}

// ---------------------------------------------------------------------------
// Attaching
// ---------------------------------------------------------------------------

/// Everything a server sends when a client attaches.
#[derive(Debug, PartialEq, Eq)]
pub struct AttachSnapshot {
    pub workspace: WorkspaceSummary,
    pub presence: PresenceSummary,
    pub status: AttachStatusSummary,
    pub surface: Option<SurfaceUpdate>,
    pub scrollback: Option<ScrollbackChunkSummary>,
}

/// An attach as the client shows it.
#[derive(Debug, PartialEq, Eq)]
pub struct RenderedAttach {
    pub workspace: WorkspaceSummary,
    pub status: AttachStatusSummary,
    pub surface_metadata: TerminalMetadataSummary,
    pub surface_kind: SurfaceKind,
    pub cursor: Option<CursorSummary>,
    pub modes: TerminalModeSummary,
    pub surface: RenderedSurfaceSummary,
    pub surface_text: Option<String>,
    pub scrollback: Option<ScrollbackChunkSummary>,
}

/// A surface frame must be for the status's pane and of the kind the
/// status announced; a current status comes without a frame.
pub open spec fn attach_surface_check(
    pane_id: Seq<char>,
    state: AttachSurfaceState,
    u: SurfaceUpdateView,
) -> Result<(), AttachError> {
    if u.pane_id != pane_id {
        Err(AttachError::StatusPaneMismatch { surface: unnamed(), status: unnamed() })
    } else {
        match (state, u.kind) {
            (AttachSurfaceState::Snapshot, SurfaceUpdateKind::Snapshot) => Ok(()),
            (AttachSurfaceState::Patch, SurfaceUpdateKind::Patch) => Ok(()),
            (AttachSurfaceState::Current, _) => Err(AttachError::CurrentWithSurface),
            (state, kind) => Err(AttachError::StatusKindMismatch { state, kind }),
        }
    }
}

pub fn validate_attach_surface_update(status: &AttachStatusSummary, update: &SurfaceUpdate) -> (checked:
    Result<(), AttachError>)
    ensures
        checked == match attach_surface_check(status.pane_id@, status.surface_state, update@) {
            Ok(()) => Ok::<(), AttachError>(()),
            Err(e) => Err(named(e, update.pane_id, status.pane_id)),
        },
{
    if !str_eq(update.pane_id.as_str(), status.pane_id.as_str()) {
        return Err(
            AttachError::StatusPaneMismatch {
                surface: update.pane_id.clone(),
                status: status.pane_id.clone(),
            },
        );
    }
    match (status.surface_state, update.kind) {
        (AttachSurfaceState::Snapshot, SurfaceUpdateKind::Snapshot) => Ok(()),
        (AttachSurfaceState::Patch, SurfaceUpdateKind::Patch) => Ok(()),
        (AttachSurfaceState::Current, _) => Err(AttachError::CurrentWithSurface),
        (state, kind) => Err(AttachError::StatusKindMismatch { state, kind }),
    }
}

/// The cached surface of a pane at the version the server says is current.
pub open spec fn current_surface(st: AttachStateView, pane_id: Seq<char>, version: u64) -> Result<
    int,
    AttachError,
> {
    match find_surface(st.surfaces, pane_id) {
        None => Err(AttachError::NoCachedSurface(unnamed())),
        Some(k) => if st.surfaces[k].version != version {
            Err(
                AttachError::CachedVersionMismatch {
                    pane_id: unnamed(),
                    cached: st.surfaces[k].version,
                    status: version,
                },
            )
        } else {
            Ok(k)
        },
    }
}

/// The first step of an attach: apply the surface frame, or check that the
/// cache is current when none came. Gives the cache and the surface text.
pub open spec fn attach_surface_step(
    st: AttachStateView,
    pane_id: Seq<char>,
    version: u64,
    state: AttachSurfaceState,
    surface: Option<SurfaceUpdateView>,
) -> Result<(AttachStateView, Seq<char>), AttachError> {
    match surface {
        Some(u) => match attach_surface_check(pane_id, state, u) {
            Err(e) => Err(e),
            Ok(()) => match surface_updated(st, u) {
                Err(e) => Err(e),
                Ok(next) => Ok((next, surface_text(updated_surface(st, u)))),
            },
        },
        None => if state != AttachSurfaceState::Current {
            Err(AttachError::MissingSurfaceFrame(state))
        } else {
            match current_surface(st, pane_id, version) {
                Err(e) => Err(e),
                Ok(k) => Ok((st, surface_text(st.surfaces[k]))),
            }
        },
    }
}

/// The pane a surface frame of an attach names: the frame's own pane, or
/// the status's pane when no frame came.
pub open spec fn frame_pane(snapshot: AttachSnapshot) -> String {
    match snapshot.surface {
        Some(u) => u.pane_id,
        None => snapshot.status.pane_id,
    }
}

pub open spec fn update_view(update: Option<SurfaceUpdate>) -> Option<SurfaceUpdateView> {
    match update {
        Some(u) => Some(u@),
        None => None,
    }
}

/// The cache after a scrollback chunk, if one came.
pub open spec fn with_scrollback(st: AttachStateView, chunk: Option<ScrollbackChunkSummary>) -> AttachStateView {
    match chunk {
        Some(c) => AttachStateView {
            scrollbacks: scrollback_cached(
                st.scrollbacks,
                c.pane_id@,
                c.scrollback_version,
                c.start_line,
                c.lines@.len(),
                c.total_lines,
            ),
            ..st
        },
        None => st,
    }
}

/// What an attach renders of the pane's cached surface, besides passing on
/// the workspace, status and scrollback it came with.
pub open spec fn rendered_from(
    r: RenderedAttach,
    workspace: WorkspaceSummary,
    status: AttachStatusSummary,
    scrollback: Option<ScrollbackChunkSummary>,
    s: PaneSurfaceView,
    text: Seq<char>,
) -> bool {
    &&& r.workspace == workspace
    &&& r.status == status
    &&& r.scrollback == scrollback
    &&& r.surface_text is Some
    &&& r.surface_text->0@ == text
    &&& r.surface_metadata.title@ == s.title
    &&& r.surface_metadata.working_directory@ == s.working_directory
    &&& r.surface_kind == s.surface
    &&& r.cursor == s.cursor
    &&& r.modes == s.modes
    &&& r.surface@ == surface_summary(s)
}

impl ClientAttachState {
    fn cached_current_surface(&self, pane_id: &String, version: u64) -> (index: Result<
        usize,
        AttachError,
    >)
        ensures
            match index {
                Ok(k) => current_surface(self@, pane_id@, version) == Ok::<int, AttachError>(k as int)
                    && k < self.surfaces@.len(),
                Err(e) => current_surface(self@, pane_id@, version) is Err && e == named(
                    current_surface(self@, pane_id@, version)->Err_0,
                    *pane_id,
                    *pane_id,
                ),
            },
    {
        match self.surface_index(pane_id.as_str()) {
            None => Err(AttachError::NoCachedSurface(pane_id.clone())),
            Some(k) => {
                assert(self@.surfaces[k as int] == self.surfaces@[k as int]@);
                let cached = self.surfaces[k].version;
                if cached != version {
                    Err(AttachError::CachedVersionMismatch { pane_id: pane_id.clone(), cached, status: version })
                } else {
                    Ok(k)
                }
            },
        }
    }

    /// Brings the cache up to date with an attach and renders it. The
    /// surface frame is applied, or the cache must already be current; the
    /// pane's surface must then be cached at the status's version; a
    /// scrollback chunk that came along is cached last.
    pub fn render_attach(&mut self, snapshot: AttachSnapshot) -> (rendered: Result<
        RenderedAttach,
        AttachError,
    >)
        requires
            pane_rows_covered(old(self)@, snapshot.status.pane_id@),
            pane_rows_indexable(old(self)@, snapshot.status.pane_id@),
        ensures
            old(self)@.valid() ==> final(self)@.valid(),
            old(self)@.encodable() ==> final(self)@.encodable(),
            match attach_surface_step(
                old(self)@,
                snapshot.status.pane_id@,
                snapshot.status.surface_version,
                snapshot.status.surface_state,
                update_view(snapshot.surface),
            ) {
                Err(e) => rendered == Err::<RenderedAttach, AttachError>(
                    named(e, frame_pane(snapshot), snapshot.status.pane_id),
                ) && final(self)@ == old(self)@,
                Ok((next, text)) => match current_surface(
                    next,
                    snapshot.status.pane_id@,
                    snapshot.status.surface_version,
                ) {
                    Err(e) => rendered == Err::<RenderedAttach, AttachError>(
                        named(e, frame_pane(snapshot), snapshot.status.pane_id),
                    ) && final(self)@ == next,
                    Ok(k) => rendered is Ok && final(self)@ == with_scrollback(
                        next,
                        snapshot.scrollback,
                    ) && rendered_from(
                        rendered->Ok_0,
                        snapshot.workspace,
                        snapshot.status,
                        snapshot.scrollback,
                        next.surfaces[k],
                        text,
                    ),
                },
            },
    {
        let AttachSnapshot { workspace, presence, status, surface, scrollback } = snapshot;
        let surface_text = match &surface {
            Some(update) => {
                assert(frame_pane(snapshot) == update.pane_id);
                if let Err(e) = validate_attach_surface_update(&status, update) {
                    return Err(e);
                }
                match self.render_surface_update(update) {
                    Ok(text) => text,
                    Err(e) => {
                        return Err(e);
                    },
                }
            },
            None => {
                if !matches!(status.surface_state, AttachSurfaceState::Current) {
                    return Err(AttachError::MissingSurfaceFrame(status.surface_state));
                }
                let k = match self.cached_current_surface(&status.pane_id, status.surface_version) {
                    Ok(k) => k,
                    Err(e) => {
                        return Err(e);
                    },
                };
                assert(self@.surfaces[k as int] == self.surfaces@[k as int]@);
                self.surfaces[k].render_text()
            },
        };
        let ghost next = self@;
        let k = match self.cached_current_surface(&status.pane_id, status.surface_version) {
            Ok(k) => k,
            Err(e) => {
                return Err(e);
            },
        };
        let surface = &self.surfaces[k];
        assert(self@.surfaces[k as int] == surface@);
        proof {
            lemma_find_surface(self@.surfaces, status.pane_id@);
            lemma_visible_rows_bound(surface@.row_text);
        }
        let surface_metadata = TerminalMetadataSummary::from_surface(surface);
        let surface_kind = surface.surface;
        let cursor = surface.cursor;
        let modes = surface.modes;
        let surface_summary = surface.summary();
        if let Some(chunk) = &scrollback {
            self.cache_scrollback_chunk(chunk);
        }
        proof {
            assert(self@.surfaces == next.surfaces);
        }
        Ok(
            RenderedAttach {
                workspace,
                status,
                surface_metadata,
                surface_kind,
                cursor,
                modes,
                surface: surface_summary,
                surface_text: Some(surface_text),
                scrollback,
            },
        )
    }
}

/// A cached surface as listed in a cache summary.
#[derive(Clone, Debug, PartialEq, Eq)]
pub struct ClientStateSurfaceSummary {
    pub pane_id: String,
    pub version: u64,
    pub cols: u32,
    pub rows: u32,
    pub surface_kind: SurfaceKind,
    pub title: String,
    pub working_directory: String,
    pub cursor: Option<CursorSummary>,
    pub modes: TerminalModeSummary,
}

/// What a cache holds, for display.
#[derive(Clone, Debug, PartialEq, Eq)]
pub struct ClientStateSummary {
    pub scope: Option<SocketIdentitySummary>,
    pub surfaces: Vec<ClientStateSurfaceSummary>,
    pub scrollbacks: Vec<ClientPaneScrollback>,
}

impl ClientAttachState {
    pub fn summary(&self) -> (summary: ClientStateSummary)
        ensures
            summary.scope == match self.scope {
                Some(s) => Some(
                    SocketIdentitySummary {
                        dev: s.dev,
                        ino: s.ino,
                        ctime: s.ctime,
                        ctime_nsec: s.ctime_nsec,
                    },
                ),
                None => None,
            },
            summary.surfaces@.len() == self.surfaces@.len(),
            forall|k: int|
                0 <= k < self.surfaces@.len() ==> {
                    let s = #[trigger] summary.surfaces@[k];
                    let c = self@.surfaces[k];
                    &&& s.pane_id@ == c.pane_id
                    &&& s.version == c.version
                    &&& s.cols == c.cols
                    &&& s.rows == c.rows
                    &&& s.surface_kind == c.surface
                    &&& s.title@ == c.title
                    &&& s.working_directory@ == c.working_directory
                    &&& s.cursor == c.cursor
                    &&& s.modes == c.modes
                },
            summary.scrollbacks.deep_view() == self@.scrollbacks,
    {
        let scope = match self.scope {
            Some(s) => Some(SocketIdentitySummary::from(s)),
            None => None,
        };
        let mut surfaces: Vec<ClientStateSurfaceSummary> = Vec::new();
        let mut i: usize = 0;
        while i < self.surfaces.len()
            invariant
                0 <= i <= self.surfaces@.len(),
                surfaces@.len() == i,
                forall|k: int|
                    0 <= k < i ==> {
                        let s = #[trigger] surfaces@[k];
                        let c = self@.surfaces[k];
                        &&& s.pane_id@ == c.pane_id
                        &&& s.version == c.version
                        &&& s.cols == c.cols
                        &&& s.rows == c.rows
                        &&& s.surface_kind == c.surface
                        &&& s.title@ == c.title
                        &&& s.working_directory@ == c.working_directory
                        &&& s.cursor == c.cursor
                        &&& s.modes == c.modes
                    },
            decreases self.surfaces@.len() - i,
        {
            assert(self@.surfaces[i as int] == self.surfaces@[i as int]@);
            let c = &self.surfaces[i];
            surfaces.push(
                ClientStateSurfaceSummary {
                    pane_id: c.pane_id.clone(),
                    version: c.version,
                    cols: c.cols,
                    rows: c.rows,
                    surface_kind: c.surface,
                    title: c.title.clone(),
                    working_directory: c.working_directory.clone(),
                    cursor: c.cursor,
                    modes: c.modes,
                },
            );
            i = i + 1;
        }
        let mut scrollbacks: Vec<ClientPaneScrollback> = Vec::new();
        let mut j: usize = 0;
        while j < self.scrollbacks.len()
            invariant
                0 <= j <= self.scrollbacks@.len(),
                scrollbacks.deep_view() == self@.scrollbacks.take(j as int),
            decreases self.scrollbacks@.len() - j,
        {
            assert(self@.scrollbacks[j as int] == self.scrollbacks@[j as int]@);
            let ghost before = scrollbacks;
            let entry = self.scrollbacks[j].duplicate();
            scrollbacks.push(entry);
            proof {
                lemma_deep_push(before, scrollbacks, entry);
            }
            j = j + 1;
            assert(scrollbacks.deep_view() =~= self@.scrollbacks.take(j as int));
        }
        assert(self@.scrollbacks.take(j as int) =~= self@.scrollbacks);
        ClientStateSummary { scope, surfaces, scrollbacks }
    }
}

} // verus!
