use vstd::prelude::*;

use crate::client_state::AttachStateView;
use crate::render::normalized_runs;
use crate::state_file::{body_line, decode_from, decode_step, finish_surface, top_line};
use crate::surface::{
    cursor_check, first_failure, modes_check, palette_diff_present, runs_hyperlink_check,
    runs_style_check, surface_kind_check, PaneSurfaceView, SurfaceError,
};

verus! {

broadcast use vstd::seq::group_seq_axioms;

// ---------------------------------------------------------------------------
// What the reader accepts is valid
// ---------------------------------------------------------------------------

/// A surface being read: consistent rows, known kind, cursor and modes,
/// and no pending palette diff.
pub open spec fn builder_ok(b: PaneSurfaceView) -> bool {
    &&& b.rows_consistent()
    &&& surface_kind_check(b.surface) == Ok::<(), SurfaceError>(())
    &&& cursor_check(b.cursor) == Ok::<(), SurfaceError>(())
    &&& modes_check(b.modes) == Ok::<(), SurfaceError>(())
    &&& !palette_diff_present(b.colors)
}

pub proof fn lemma_body_line_ok(f: Seq<Seq<char>>, b: PaneSurfaceView)
    requires
        builder_ok(b),
    ensures
        body_line(f, b) matches Ok(next) ==> builder_ok(next),
{
    reveal(body_line);
}

pub proof fn lemma_top_line_ok(f: Seq<Seq<char>>, st: AttachStateView)
    requires
        st.valid(),
    ensures
        top_line(f, st) matches Ok((next, open)) ==> next.valid() && (open matches Some(b)
            ==> builder_ok(b)),
{
    reveal(top_line);
    if let Ok((next, open)) = top_line(f, st) {
        assert forall|k: int| 0 <= k < next.surfaces.len() implies (
        #[trigger] next.surfaces[k]).valid() by {
            assert(next.surfaces[k] == st.surfaces[k]);
        }
    }
}

pub proof fn lemma_first_failure_each<A>(items: Seq<A>, check: spec_fn(A) -> Result<(), SurfaceError>)
    requires
        first_failure(items, check) is Ok,
    ensures
        forall|k: int| 0 <= k < items.len() ==> (#[trigger] check(items[k])) is Ok,
    decreases items.len(),
{
    if items.len() > 0 {
        let front = items.drop_last();
        lemma_first_failure_each(front, check);
        assert forall|k: int| 0 <= k < items.len() implies (#[trigger] check(items[k])) is Ok by {
            if k < items.len() - 1 {
                assert(items[k] == front[k]);
            } else {
                assert(items[k] == items.last());
            }
        }
    }
}

pub proof fn lemma_finish_ok(b: PaneSurfaceView)
    requires
        builder_ok(b),
    ensures
        finish_surface(b) matches Ok(s) ==> s.valid(),
{
    reveal(finish_surface);
    if let Ok(s) = finish_surface(b) {
        let runs = normalized_runs(b.row_text, b.row_runs);
        lemma_first_failure_each(runs, runs_style_check(s.styles));
        lemma_first_failure_each(runs, runs_hyperlink_check(b.hyperlinks));
        assert forall|i: int| 0 <= i < s.row_runs.len() implies first_failure(
            #[trigger] s.row_runs[i],
            crate::surface::style_id_check(crate::surface::style_count(s.styles.len())),
        ) == Ok::<(), SurfaceError>(()) && first_failure(
            s.row_runs[i],
            crate::surface::hyperlink_id_check(s.hyperlinks),
        ) == Ok::<(), SurfaceError>(()) by {
            assert(runs_style_check(s.styles)(runs[i]) == Ok::<(), SurfaceError>(()));
            assert(runs_hyperlink_check(b.hyperlinks)(runs[i]) == Ok::<(), SurfaceError>(()));
        }
    }
}

/// Whatever the reader accepts is a valid cache.
pub proof fn lemma_decode_from_valid(
    lines: Seq<Seq<char>>,
    i: int,
    st: AttachStateView,
    open: Option<PaneSurfaceView>,
)
    requires
        st.valid(),
        open matches Some(b) ==> builder_ok(b),
    ensures
        decode_from(lines, i, st, open) matches Ok(result) ==> result.valid(),
    decreases lines.len() - i,
{
    if i < lines.len() {
        reveal(decode_step);
        match open {
            Some(b) => {
                if lines[i] == "end"@ {
                    lemma_finish_ok(b);
                    if let Ok(s) = finish_surface(b) {
                        let next = AttachStateView { surfaces: st.surfaces.push(s), ..st };
                        assert forall|k: int| 0 <= k < next.surfaces.len() implies (
                        #[trigger] next.surfaces[k]).valid() by {
                            if k < st.surfaces.len() {
                                assert(next.surfaces[k] == st.surfaces[k]);
                            }
                        }
                        lemma_decode_from_valid(lines, i + 1, next, None);
                    }
                } else {
                    lemma_body_line_ok(crate::text::split_on(lines[i], ' '), b);
                    if let Ok(next) = body_line(crate::text::split_on(lines[i], ' '), b) {
                        lemma_decode_from_valid(lines, i + 1, st, Some(next));
                    }
                }
            },
            None => {
                lemma_top_line_ok(crate::text::split_on(lines[i], ' '), st);
                if let Ok((next, o)) = top_line(crate::text::split_on(lines[i], ' '), st) {
                    lemma_decode_from_valid(lines, i + 1, next, o);
                }
            },
        }
    }
}

} // verus!
