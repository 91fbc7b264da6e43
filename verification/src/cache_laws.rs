//! What a lookup in the client cache gives back after the cache was written.
use vstd::prelude::*;

use crate::client_state::{
    attach_surface_check, attach_surface_step, current_surface, find_scrollback, find_surface,
    lemma_find_surface, scrollback_cached, surface_updated, updated_surface, AttachStateView,
    ScrollbackView,
};
use crate::kinds::AttachSurfaceState;
use crate::render::surface_text;
use crate::surface::{
    patch_body, patched, rows_applied, snapshot_surface, updated, PaneSurfaceView,
    RowUpdateView, SurfaceUpdateKind, SurfaceUpdateView,
};

verus! {

/// The cached scrollback range that a lookup of a pane and range finds.
pub open spec fn scrollback_entry(
    scrollbacks: Seq<ScrollbackView>,
    pane_id: Seq<char>,
    start_line: u64,
    line_count: u32,
) -> Option<ScrollbackView> {
    match find_scrollback(scrollbacks, pane_id, start_line, line_count) {
        Some(k) => Some(scrollbacks[k]),
        None => None,
    }
}

/// The cached surface that a lookup of a pane finds.
pub open spec fn surface_entry(surfaces: Seq<PaneSurfaceView>, pane_id: Seq<char>) -> Option<
    PaneSurfaceView,
> {
    match find_surface(surfaces, pane_id) {
        Some(k) => Some(surfaces[k]),
        None => None,
    }
}

/// The line count under which a chunk of `line_count` lines is cached.
pub open spec fn cached_count(line_count: nat) -> u32 {
    if line_count > u32::MAX {
        u32::MAX
    } else {
        line_count as u32
    }
}

/// Two cached ranges for the same pane, start line and line count.
pub open spec fn same_range(a: ScrollbackView, b: ScrollbackView) -> bool {
    &&& a.pane_id == b.pane_id
    &&& a.start_line == b.start_line
    &&& a.line_count == b.line_count
}

proof fn lemma_find_scrollback_found(
    scrollbacks: Seq<ScrollbackView>,
    pane_id: Seq<char>,
    start_line: u64,
    line_count: u32,
)
    ensures
        find_scrollback(scrollbacks, pane_id, start_line, line_count) matches Some(k) ==> 0 <= k
            < scrollbacks.len() && scrollbacks[k].pane_id == pane_id && scrollbacks[k].start_line
            == start_line && scrollbacks[k].line_count == line_count,
    decreases scrollbacks.len(),
{
    if scrollbacks.len() > 0 {
        lemma_find_scrollback_found(scrollbacks.drop_last(), pane_id, start_line, line_count);
    }
}

/// Two caches with the same ranges at the same places find the same place.
proof fn lemma_find_scrollback_same_ranges(
    a: Seq<ScrollbackView>,
    b: Seq<ScrollbackView>,
    pane_id: Seq<char>,
    start_line: u64,
    line_count: u32,
)
    requires
        a.len() == b.len(),
        forall|i: int| 0 <= i < a.len() ==> same_range(#[trigger] a[i], b[i]),
    ensures
        find_scrollback(a, pane_id, start_line, line_count) == find_scrollback(
            b,
            pane_id,
            start_line,
            line_count,
        ),
    decreases a.len(),
{
    if a.len() > 0 {
        assert forall|i: int| 0 <= i < a.len() - 1 implies same_range(
            #[trigger] a.drop_last()[i],
            b.drop_last()[i],
        ) by {
            assert(same_range(a[i], b[i]));
        }
        lemma_find_scrollback_same_ranges(
            a.drop_last(),
            b.drop_last(),
            pane_id,
            start_line,
            line_count,
        );
        assert(same_range(a[a.len() - 1], b[b.len() - 1]));
    }
}

/// After a non-empty chunk is cached, a lookup of its pane and range finds
/// the chunk's version and line counts; a lookup of any other pane or range
/// finds what it found before.
pub proof fn lemma_scrollback_cache_read_after_write(
    scrollbacks: Seq<ScrollbackView>,
    pane_id: Seq<char>,
    version: u64,
    start_line: u64,
    line_count: nat,
    total_lines: u64,
    query_pane: Seq<char>,
    query_start: u64,
    query_count: u32,
)
    requires
        line_count > 0,
    ensures
        ({
            let after = scrollback_cached(
                scrollbacks,
                pane_id,
                version,
                start_line,
                line_count,
                total_lines,
            );
            if query_pane == pane_id && query_start == start_line && query_count == cached_count(
                line_count,
            ) {
                scrollback_entry(after, query_pane, query_start, query_count) == Some(
                    ScrollbackView {
                        pane_id,
                        version,
                        start_line,
                        line_count: query_count,
                        total_lines,
                    },
                )
            } else {
                scrollback_entry(after, query_pane, query_start, query_count) == scrollback_entry(
                    scrollbacks,
                    query_pane,
                    query_start,
                    query_count,
                )
            }
        }),
{
    let count = cached_count(line_count);
    let entry = ScrollbackView { pane_id, version, start_line, line_count: count, total_lines };
    let after = scrollback_cached(scrollbacks, pane_id, version, start_line, line_count, total_lines);
    lemma_find_scrollback_found(scrollbacks, pane_id, start_line, count);
    match find_scrollback(scrollbacks, pane_id, start_line, count) {
        Some(k) => {
            assert(after == scrollbacks.update(k, entry));
            assert forall|i: int| 0 <= i < after.len() implies same_range(
                #[trigger] after[i],
                scrollbacks[i],
            ) by {}
            lemma_find_scrollback_same_ranges(
                after,
                scrollbacks,
                query_pane,
                query_start,
                query_count,
            );
            lemma_find_scrollback_found(scrollbacks, query_pane, query_start, query_count);
        },
        None => {
            assert(after == scrollbacks.push(entry));
            assert(after.drop_last() =~= scrollbacks);
            lemma_find_scrollback_found(scrollbacks, query_pane, query_start, query_count);
        },
    }
}

proof fn lemma_rows_applied_pane(s: PaneSurfaceView, rows: Seq<RowUpdateView>)
    ensures
        rows_applied(s, rows) matches Ok(t) ==> t.pane_id == s.pane_id && t.styles == s.styles,
    decreases rows.len(),
{
    if rows.len() > 0 {
        lemma_rows_applied_pane(s, rows.drop_last());
    }
}

/// An accepted update leaves a surface of the updated pane.
proof fn lemma_updated_pane(s: PaneSurfaceView, u: SurfaceUpdateView)
    requires
        updated(s, u) is Ok,
    ensures
        updated(s, u)->Ok_0.pane_id == u.pane_id,
{
    lemma_rows_applied_pane(s, u.row_updates);
    match u.kind {
        SurfaceUpdateKind::Snapshot => {
            match (u.cols, u.rows) {
                (Some(cols), Some(rows)) => {
                    lemma_rows_applied_pane(
                        crate::surface::fresh_surface(u, cols, rows),
                        u.row_updates,
                    );
                },
                _ => {},
            }
            assert(snapshot_surface(u)->Ok_0.pane_id == u.pane_id);
        },
        SurfaceUpdateKind::Patch => {
            assert(patched(s, u) is Ok);
            assert(patch_body(s, u) is Ok);
        },
    }
}

/// Two caches with the same panes at the same places find the same place.
proof fn lemma_find_surface_same_panes(
    a: Seq<PaneSurfaceView>,
    b: Seq<PaneSurfaceView>,
    pane_id: Seq<char>,
)
    requires
        a.len() == b.len(),
        forall|i: int| 0 <= i < a.len() ==> (#[trigger] a[i]).pane_id == b[i].pane_id,
    ensures
        find_surface(a, pane_id) == find_surface(b, pane_id),
    decreases a.len(),
{
    if a.len() > 0 {
        assert forall|i: int| 0 <= i < a.len() - 1 implies (
        #[trigger] a.drop_last()[i]).pane_id == b.drop_last()[i].pane_id by {
            assert(a[i].pane_id == b[i].pane_id);
        }
        lemma_find_surface_same_panes(a.drop_last(), b.drop_last(), pane_id);
        assert(a[a.len() - 1].pane_id == b[b.len() - 1].pane_id);
    }
}

/// After an update is accepted, a lookup of its pane finds the updated
/// surface, a lookup of any other pane finds what it found before, and the
/// scope and the scrollback ranges are as they were.
pub proof fn lemma_surface_cache_read_after_write(
    st: AttachStateView,
    u: SurfaceUpdateView,
    query_pane: Seq<char>,
)
    requires
        surface_updated(st, u) is Ok,
    ensures
        ({
            let next = surface_updated(st, u)->Ok_0;
            &&& next.scope == st.scope
            &&& next.scrollbacks == st.scrollbacks
            &&& if query_pane == u.pane_id {
                surface_entry(next.surfaces, query_pane) == Some(updated_surface(st, u))
            } else {
                surface_entry(next.surfaces, query_pane) == surface_entry(st.surfaces, query_pane)
            }
        }),
{
    let next = surface_updated(st, u)->Ok_0;
    lemma_find_surface(st.surfaces, u.pane_id);
    lemma_find_surface(st.surfaces, query_pane);
    match find_surface(st.surfaces, u.pane_id) {
        Some(k) => {
            let t = updated(st.surfaces[k], u)->Ok_0;
            lemma_updated_pane(st.surfaces[k], u);
            assert(next.surfaces == st.surfaces.update(k, t));
            assert forall|i: int| 0 <= i < next.surfaces.len() implies (
            #[trigger] next.surfaces[i]).pane_id == st.surfaces[i].pane_id by {}
            lemma_find_surface_same_panes(next.surfaces, st.surfaces, query_pane);
        },
        None => {
            let t = snapshot_surface(u)->Ok_0;
            assert(u.kind == SurfaceUpdateKind::Snapshot);
            assert(updated(st.surfaces.first(), u) == snapshot_surface(u));
            lemma_updated_pane(st.surfaces.first(), u);
            assert(next.surfaces == st.surfaces.push(t));
            assert(next.surfaces.drop_last() =~= st.surfaces);
        },
    }
}

/// No two cached scrollback ranges are for the same pane, start line and
/// line count.
pub open spec fn ranges_distinct(scrollbacks: Seq<ScrollbackView>) -> bool {
    forall|i: int, j: int|
        0 <= i < j < scrollbacks.len() ==> !same_range(#[trigger] scrollbacks[i], #[trigger] scrollbacks[j])
}

proof fn lemma_find_scrollback_absent(
    scrollbacks: Seq<ScrollbackView>,
    pane_id: Seq<char>,
    start_line: u64,
    line_count: u32,
)
    ensures
        find_scrollback(scrollbacks, pane_id, start_line, line_count) is None ==> forall|i: int|
            0 <= i < scrollbacks.len() ==> !(#[trigger] scrollbacks[i].pane_id == pane_id
                && scrollbacks[i].start_line == start_line && scrollbacks[i].line_count
                == line_count),
    decreases scrollbacks.len(),
{
    if scrollbacks.len() > 0 {
        lemma_find_scrollback_absent(scrollbacks.drop_last(), pane_id, start_line, line_count);
        assert forall|i: int| 0 <= i < scrollbacks.len() - 1 implies #[trigger] scrollbacks[i]
            == scrollbacks.drop_last()[i] by {}
    }
}

/// Caching a chunk keeps the cached ranges distinct: a chunk for a range
/// already cached replaces that entry, and the number of entries grows by
/// one exactly when the range was not cached.
pub proof fn lemma_scrollback_cache_keeps_ranges_distinct(
    scrollbacks: Seq<ScrollbackView>,
    pane_id: Seq<char>,
    version: u64,
    start_line: u64,
    line_count: nat,
    total_lines: u64,
)
    requires
        ranges_distinct(scrollbacks),
    ensures
        ({
            let after = scrollback_cached(
                scrollbacks,
                pane_id,
                version,
                start_line,
                line_count,
                total_lines,
            );
            &&& ranges_distinct(after)
            &&& after.len() == if line_count > 0 && scrollback_entry(
                scrollbacks,
                pane_id,
                start_line,
                cached_count(line_count),
            ) is None {
                scrollbacks.len() + 1
            } else {
                scrollbacks.len()
            }
        }),
{
    if line_count > 0 {
        let count = cached_count(line_count);
        let entry = ScrollbackView { pane_id, version, start_line, line_count: count, total_lines };
        let after = scrollback_cached(scrollbacks, pane_id, version, start_line, line_count, total_lines);
        lemma_find_scrollback_found(scrollbacks, pane_id, start_line, count);
        lemma_find_scrollback_absent(scrollbacks, pane_id, start_line, count);
        match find_scrollback(scrollbacks, pane_id, start_line, count) {
            Some(k) => {
                assert(after == scrollbacks.update(k, entry));
                assert forall|i: int, j: int| 0 <= i < j < after.len() implies !same_range(
                    #[trigger] after[i],
                    #[trigger] after[j],
                ) by {
                    assert(same_range(after[i], scrollbacks[i]));
                    assert(same_range(after[j], scrollbacks[j]));
                    assert(!same_range(scrollbacks[i], scrollbacks[j]));
                }
            },
            None => {
                assert(after == scrollbacks.push(entry));
                assert forall|i: int, j: int| 0 <= i < j < after.len() implies !same_range(
                    #[trigger] after[i],
                    #[trigger] after[j],
                ) by {
                    if j == scrollbacks.len() {
                        assert(after[i] == scrollbacks[i]);
                        assert(after[j] == entry);
                    } else {
                        assert(after[i] == scrollbacks[i]);
                        assert(after[j] == scrollbacks[j]);
                        assert(!same_range(scrollbacks[i], scrollbacks[j]));
                    }
                }
            },
        }
    }
}

/// An attach that succeeds renders the text of the surface it then holds
/// for the status's pane, and that surface is at the status's version.
pub proof fn lemma_attach_renders_cached_surface(
    st: AttachStateView,
    pane_id: Seq<char>,
    version: u64,
    state: AttachSurfaceState,
    surface: Option<SurfaceUpdateView>,
)
    requires
        attach_surface_step(st, pane_id, version, state, surface) is Ok,
        current_surface(
            attach_surface_step(st, pane_id, version, state, surface)->Ok_0.0,
            pane_id,
            version,
        ) is Ok,
    ensures
        ({
            let (next, text) = attach_surface_step(st, pane_id, version, state, surface)->Ok_0;
            let k = current_surface(next, pane_id, version)->Ok_0;
            &&& 0 <= k < next.surfaces.len()
            &&& next.surfaces[k].pane_id == pane_id
            &&& next.surfaces[k].version == version
            &&& text == surface_text(next.surfaces[k])
        }),
{
    let (next, text) = attach_surface_step(st, pane_id, version, state, surface)->Ok_0;
    lemma_find_surface(next.surfaces, pane_id);
    match surface {
        Some(u) => {
            assert(attach_surface_check(pane_id, state, u) is Ok);
            assert(u.pane_id == pane_id);
            lemma_surface_cache_read_after_write(st, u, pane_id);
        },
        None => {},
    }
}

/// A snapshot that sent no styles gets the default style table alone, so
/// its surface has no styled runs.
pub proof fn lemma_snapshot_without_styles_is_plain(u: SurfaceUpdateView)
    requires
        snapshot_surface(u) is Ok,
        u.styles.len() == 0,
    ensures
        snapshot_surface(u)->Ok_0.styles == crate::surface::default_styles(),
        !crate::render::has_styles(snapshot_surface(u)->Ok_0),
{
    match (u.cols, u.rows) {
        (Some(cols), Some(rows)) => {
            lemma_rows_applied_pane(crate::surface::fresh_surface(u, cols, rows), u.row_updates);
        },
        _ => {},
    }
    let t = snapshot_surface(u)->Ok_0;
    assert(t.styles == crate::surface::default_styles());
    assert(!crate::render::style_visible(t.styles[0]));
}

} // verus!
