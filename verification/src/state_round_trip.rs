use vstd::prelude::*;
use vstd::utf8::*;

use crate::kinds::{
    CellSemanticContent, CursorShape, MouseFormat, MouseTrackingMode, RowSemanticPrompt,
    SurfaceKind,
};
use crate::client_state::{AttachStateView, ScrollbackView, SocketIdentity};
use crate::render::normalized_runs;
use crate::surface::{cursor_check, modes_check, palette_diff_present, surface_kind_check, first_failure, link_table_failure, runs_style_check, runs_hyperlink_check, style_id_check, style_count, hyperlink_id_check, lemma_plain_run_valid, CellRunView, CursorSummary, HyperlinkView, PaneSurfaceView, StyleSummary, TerminalModeSummary};
use crate::state_file::{
    decoded, encoded, is_state_header, blank_surface, body_line, finish_surface, mode_flags, top_line, colors_record, cursor_record, decode_from, decode_step, hyperlink_record, modes_record,
    record_lines, row_record, row_records, rowmeta_record, rows_records, run_record,
    scope_record, scrollback_record, state_records, style_record, surface_header_record,
    surface_records, surfaces_records, header_record, be_u32, bool_field, bytes_field, code_field, content_field, cursor_shape_field, flag,
    hex_text, i64_field, mouse_format_field, mouse_mode_field, optional_hex_text,
    optional_text_field, palette_bytes, palette_field, prompt_field, surface_kind_field,
    text_field, u32_field, u64_field, usize_field, StateError,
};
use crate::text::{
    decimal, free_of, hex_of, join_with, lemma_decimal_digits, lemma_hex_chars,
    lemma_hex_round_trip, lemma_parse_decimal, lemma_parse_signed_decimal, signed_decimal,
};

verus! {

broadcast use vstd::seq::group_seq_axioms;

// ---------------------------------------------------------------------------
// Fields read back as written
// ---------------------------------------------------------------------------

pub proof fn lemma_u64_field(n: u64)
    ensures
        u64_field(decimal(n as nat)) == Ok::<u64, StateError>(n),
{
    lemma_parse_decimal(n as nat, u64::MAX as nat);
}

pub proof fn lemma_u32_field(n: u32)
    ensures
        u32_field(decimal(n as nat)) == Ok::<u32, StateError>(n),
{
    lemma_parse_decimal(n as nat, u32::MAX as nat);
}

pub proof fn lemma_usize_field(n: nat)
    requires
        n <= u32::MAX,
    ensures
        usize_field(decimal(n)) == Ok::<usize, StateError>(n as usize),
{
    lemma_parse_decimal(n, usize::MAX as nat);
}

pub proof fn lemma_code_field(n: u8)
    ensures
        code_field(decimal(n as nat)) == Ok::<u8, StateError>(n),
{
    lemma_parse_decimal(n as nat, u8::MAX as nat);
}

pub proof fn lemma_i64_field(n: i64)
    ensures
        i64_field(signed_decimal(n as int)) == Ok::<i64, StateError>(n),
{
    lemma_parse_signed_decimal(n as int);
}

pub proof fn lemma_bool_field(b: bool)
    ensures
        bool_field(flag(b)) == Ok::<bool, StateError>(b),
{
    if !b {
        assert(seq!['0'][0] != seq!['1'][0]);
        assert(seq!['0'] != seq!['1']);
    }
}

pub proof fn lemma_bytes_field(bytes: Seq<u8>)
    ensures
        bytes_field(hex_of(bytes)) == Ok::<Seq<u8>, StateError>(bytes),
{
    lemma_hex_round_trip(bytes);
}

pub proof fn lemma_text_field(t: Seq<char>)
    ensures
        text_field(hex_text(t)) == Ok::<Seq<char>, StateError>(t),
{
    lemma_hex_round_trip(encode_utf8(t));
    encode_utf8_valid_utf8(t);
    encode_utf8_decode_utf8(t);
}

pub proof fn lemma_optional_text_field(t: Seq<char>)
    ensures
        optional_text_field(optional_hex_text(t)) == Ok::<Seq<char>, StateError>(t),
{
    if t.len() == 0 {
        assert(t =~= Seq::<char>::empty());
    } else {
        lemma_text_field(t);
        lemma_hex_chars(encode_utf8(t));
        if hex_text(t) == seq!['-'] {
            assert(hex_text(t)[0] == '-');
        }
    }
}

proof fn lemma_color_bytes(c: u32)
    ensures
        (((c >> 24u32) as u8) as u32) * 0x100_0000u32 + ((((c >> 16u32) & 0xffu32) as u8) as u32)
            * 0x1_0000u32 + ((((c >> 8u32) & 0xffu32) as u8) as u32) * 0x100u32 + (((c & 0xffu32)
            as u8) as u32) == c,
{
    assert((((c >> 24u32) as u8) as u32) * 0x100_0000u32 + ((((c >> 16u32) & 0xffu32) as u8) as u32)
        * 0x1_0000u32 + ((((c >> 8u32) & 0xffu32) as u8) as u32) * 0x100u32 + (((c & 0xffu32)
        as u8) as u32) == c) by (bit_vector);
}

pub proof fn lemma_palette_field(palette: Seq<u32>)
    ensures
        palette_field(hex_of(palette_bytes(palette))) == Ok::<Seq<u32>, StateError>(palette),
{
    let bytes = palette_bytes(palette);
    lemma_bytes_field(bytes);
    assert(bytes.len() % 4 == 0);
    assert forall|i: int| 0 <= i < palette.len() implies be_u32(bytes, i) == palette[i] by {
        let c = palette[i];
        assert((4 * i) / 4 == i && (4 * i) % 4 == 0);
        assert((4 * i + 1) / 4 == i && (4 * i + 1) % 4 == 1);
        assert((4 * i + 2) / 4 == i && (4 * i + 2) % 4 == 2);
        assert((4 * i + 3) / 4 == i && (4 * i + 3) % 4 == 3);
        lemma_color_bytes(c);
    }
    assert(Seq::new(bytes.len() / 4, |i: int| be_u32(bytes, i)) =~= palette);
}

pub proof fn lemma_kind_fields(
    kind: SurfaceKind,
    shape: CursorShape,
    mode: MouseTrackingMode,
    format: MouseFormat,
    prompt: RowSemanticPrompt,
    content: CellSemanticContent,
)
    ensures
        kind.is_known() ==> surface_kind_field(decimal(kind.spec_code() as nat)) == Ok::<
            SurfaceKind,
            StateError,
        >(kind),
        shape.is_known() ==> cursor_shape_field(decimal(shape.spec_code() as nat)) == Ok::<
            CursorShape,
            StateError,
        >(shape),
        mode.is_known() ==> mouse_mode_field(decimal(mode.spec_code() as nat)) == Ok::<
            MouseTrackingMode,
            StateError,
        >(mode),
        format.is_known() ==> mouse_format_field(decimal(format.spec_code() as nat)) == Ok::<
            MouseFormat,
            StateError,
        >(format),
        prompt.is_known() ==> prompt_field(decimal(prompt.spec_code() as nat)) == Ok::<
            RowSemanticPrompt,
            StateError,
        >(prompt),
        content.is_known() ==> content_field(decimal(content.spec_code() as nat)) == Ok::<
            CellSemanticContent,
            StateError,
        >(content),
{
    lemma_code_field(kind.spec_code());
    lemma_code_field(shape.spec_code());
    lemma_code_field(mode.spec_code());
    lemma_code_field(format.spec_code());
    lemma_code_field(prompt.spec_code());
    lemma_code_field(content.spec_code());
}

// ---------------------------------------------------------------------------
// Records and lines
// ---------------------------------------------------------------------------

/// A field that survives splitting into lines and at spaces.
pub open spec fn field_ok(f: Seq<char>) -> bool {
    free_of(f, ' ') && free_of(f, '\n') && free_of(f, '\r')
}

pub open spec fn record_ok(r: Seq<Seq<char>>) -> bool {
    r.len() >= 1 && forall|k: int| 0 <= k < r.len() ==> field_ok(#[trigger] r[k])
}

pub proof fn lemma_decimal_ok(n: nat)
    ensures
        field_ok(decimal(n)),
{
    lemma_decimal_digits(n);
    assert forall|i: int| 0 <= i < decimal(n).len() implies #[trigger] decimal(n)[i] != ' '
        && decimal(n)[i] != '\n' && decimal(n)[i] != '\r' by {
        assert(crate::text::is_digit(decimal(n)[i]));
    }
}

pub proof fn lemma_signed_ok(n: int)
    ensures
        field_ok(signed_decimal(n)),
{
    if n < 0 {
        lemma_decimal_ok((-n) as nat);
        let s = signed_decimal(n);
        assert forall|i: int| 0 <= i < s.len() implies #[trigger] s[i] != ' ' && s[i] != '\n'
            && s[i] != '\r' by {
            if i > 0 {
                assert(s[i] == decimal((-n) as nat)[i - 1]);
            }
        }
    } else {
        lemma_decimal_ok(n as nat);
    }
}

pub proof fn lemma_hex_ok(bytes: Seq<u8>)
    ensures
        field_ok(hex_of(bytes)),
{
    lemma_hex_chars(bytes);
}

pub proof fn lemma_text_ok(t: Seq<char>)
    ensures
        field_ok(hex_text(t)),
        field_ok(optional_hex_text(t)),
{
    lemma_hex_chars(encode_utf8(t));
}

/// What the keywords of the format hold, and that the reader can tell
/// apart those it compares.
pub proof fn lemma_keywords()
    ensures
        field_ok("NMUX_CLIENT_STATE"@),
        field_ok("8"@),
        field_ok("scope"@),
        field_ok("socket"@),
        field_ok("scrollback"@),
        field_ok("surface"@),
        field_ok("cursor"@),
        field_ok("none"@),
        field_ok("modes"@),
        field_ok("title"@),
        field_ok("pwd"@),
        field_ok("colors"@),
        field_ok("style"@),
        field_ok("hyperlink"@),
        field_ok("row"@),
        field_ok("rowmeta"@),
        field_ok("run"@),
        field_ok("end"@),
        field_ok(seq!['-']),
        "scope"@ != "scrollback"@,
        "scope"@ != "surface"@,
        "scrollback"@ != "surface"@,
        "modes"@ != "cursor"@,
        "title"@ != "cursor"@,
        "pwd"@ != "cursor"@,
        "pwd"@ != "title"@,
        "colors"@ != "cursor"@,
        "style"@ != "cursor"@,
        "style"@ != "colors"@,
        "hyperlink"@ != "cursor"@,
        "hyperlink"@ != "colors"@,
        "hyperlink"@ != "style"@,
        "run"@ != "modes"@,
        join_with(header_record(), ' ') == "NMUX_CLIENT_STATE 8"@,
{
    reveal_strlit("NMUX_CLIENT_STATE");
    reveal_strlit("8");
    reveal_strlit("NMUX_CLIENT_STATE 8");
    reveal_strlit("scope");
    reveal_strlit("socket");
    reveal_strlit("scrollback");
    reveal_strlit("surface");
    reveal_strlit("cursor");
    reveal_strlit("none");
    reveal_strlit("modes");
    reveal_strlit("title");
    reveal_strlit("pwd");
    reveal_strlit("colors");
    reveal_strlit("style");
    reveal_strlit("hyperlink");
    reveal_strlit("row");
    reveal_strlit("rowmeta");
    reveal_strlit("run");
    reveal_strlit("end");
    assert("colors"@[1] != "cursor"@[1]);
    let h = header_record();
    assert(h.drop_last() =~= seq!["NMUX_CLIENT_STATE"@]);
    assert(join_with(h.drop_last(), ' ') == "NMUX_CLIENT_STATE"@);
    assert(h.last() == "8"@);
    assert(join_with(h, ' ') =~= "NMUX_CLIENT_STATE"@ + seq![' '] + "8"@);
    assert("NMUX_CLIENT_STATE"@ + seq![' '] + "8"@ =~= "NMUX_CLIENT_STATE 8"@);
}

proof fn lemma_join_free(r: Seq<Seq<char>>, c: char, sep: char)
    requires
        c != sep,
        forall|k: int| 0 <= k < r.len() ==> free_of(#[trigger] r[k], c),
    ensures
        free_of(join_with(r, sep), c),
    decreases r.len(),
{
    if r.len() > 1 {
        let front = r.drop_last();
        assert forall|k: int| 0 <= k < front.len() implies free_of(#[trigger] front[k], c) by {
            assert(front[k] == r[k]);
        }
        lemma_join_free(front, c, sep);
        assert(free_of(r[r.len() - 1], c));
        let j = join_with(r, sep);
        let a = join_with(front, sep);
        assert(j == a + seq![sep] + r.last());
        assert forall|i: int| 0 <= i < j.len() implies #[trigger] j[i] != c by {
            if i < a.len() {
                assert(j[i] == a[i]);
            } else if i > a.len() {
                assert(j[i] == r.last()[i - a.len() - 1]);
            }
        }
    } else if r.len() == 1 {
        assert(free_of(r[0], c));
    }
}

/// A record of good fields is one plain line that splits back into them.
pub proof fn lemma_record_line(r: Seq<Seq<char>>)
    requires
        record_ok(r),
    ensures
        crate::text::split_on(join_with(r, ' '), ' ') == r,
        crate::text::plain_line(join_with(r, ' ')),
        join_with(r, ' ') == "end"@ ==> r == seq!["end"@],
{
    assert forall|k: int| 0 <= k < r.len() implies free_of(#[trigger] r[k], ' ') by {
        assert(field_ok(r[k]));
    }
    assert forall|k: int| 0 <= k < r.len() implies free_of(#[trigger] r[k], '\n') by {
        assert(field_ok(r[k]));
    }
    assert forall|k: int| 0 <= k < r.len() implies free_of(#[trigger] r[k], '\r') by {
        assert(field_ok(r[k]));
    }
    crate::text::lemma_split_join(r, ' ');
    lemma_join_free(r, '\n', ' ');
    lemma_join_free(r, '\r', ' ');
    let line = join_with(r, ' ');
    if line.len() > 0 {
        assert(line[line.len() - 1] != '\r');
    }
    if line == "end"@ {
        lemma_keywords();
        crate::text::lemma_split_join(seq!["end"@], ' ');
        assert(join_with(seq!["end"@], ' ') == "end"@);
    }
}

pub open spec fn records_ok(records: Seq<Seq<Seq<char>>>) -> bool {
    forall|k: int| 0 <= k < records.len() ==> record_ok(#[trigger] records[k])
}

pub proof fn lemma_scope_record_ok(sc: SocketIdentity)
    ensures
        record_ok(scope_record(sc)),
{
    lemma_keywords();
    lemma_decimal_ok(sc.dev as nat);
    lemma_decimal_ok(sc.ino as nat);
    lemma_signed_ok(sc.ctime as int);
    lemma_signed_ok(sc.ctime_nsec as int);
}

pub proof fn lemma_scrollback_record_ok(sb: ScrollbackView)
    ensures
        record_ok(scrollback_record(sb)),
{
    lemma_keywords();
    lemma_text_ok(sb.pane_id);
    lemma_decimal_ok(sb.version as nat);
    lemma_decimal_ok(sb.start_line as nat);
    lemma_decimal_ok(sb.line_count as nat);
    lemma_decimal_ok(sb.total_lines as nat);
}

pub proof fn lemma_header_records_ok(s: PaneSurfaceView)
    ensures
        record_ok(surface_header_record(s)),
        record_ok(cursor_record(s.cursor)),
        record_ok(modes_record(s.modes)),
        record_ok(seq!["title"@, hex_text(s.title)]),
        record_ok(seq!["pwd"@, hex_text(s.working_directory)]),
        record_ok(colors_record(s.colors)),
        record_ok(seq!["end"@]),
{
    lemma_keywords();
    lemma_text_ok(s.pane_id);
    lemma_decimal_ok(s.version as nat);
    lemma_decimal_ok(s.cols as nat);
    lemma_decimal_ok(s.rows as nat);
    lemma_decimal_ok(s.surface.spec_code() as nat);
    if let Some(c) = s.cursor {
        lemma_decimal_ok(c.row as nat);
        lemma_decimal_ok(c.col as nat);
        lemma_decimal_ok(c.shape.spec_code() as nat);
    }
    lemma_decimal_ok(s.modes.mouse_tracking_mode.spec_code() as nat);
    lemma_decimal_ok(s.modes.mouse_format.spec_code() as nat);
    lemma_text_ok(s.title);
    lemma_text_ok(s.working_directory);
    lemma_decimal_ok(s.colors.default_fg_rgba as nat);
    lemma_decimal_ok(s.colors.default_bg_rgba as nat);
    lemma_decimal_ok(s.colors.cursor_rgba as nat);
    lemma_hex_ok(palette_bytes(s.colors.palette_rgba));
}

pub proof fn lemma_table_records_ok(style: StyleSummary, link: HyperlinkView)
    ensures
        record_ok(style_record(style)),
        record_ok(hyperlink_record(link)),
{
    lemma_keywords();
    lemma_decimal_ok(style.fg_rgba as nat);
    lemma_decimal_ok(style.bg_rgba as nat);
    lemma_decimal_ok(style.underline_rgba as nat);
    lemma_decimal_ok(style.flags as nat);
    lemma_decimal_ok(link.id as nat);
    lemma_text_ok(link.uri);
    lemma_text_ok(link.osc8_id);
    lemma_text_ok(link.params);
}

pub proof fn lemma_row_records_ok(s: PaneSurfaceView, i: int)
    requires
        0 <= i < s.row_text.len(),
        s.rows_consistent(),
    ensures
        records_ok(row_records(s, i)),
{
    lemma_keywords();
    lemma_decimal_ok(i as nat);
    lemma_text_ok(s.row_text[i]);
    lemma_decimal_ok(s.row_semantic_prompts[i].spec_code() as nat);
    lemma_decimal_ok(s.row_state_hashes[i] as nat);
    lemma_decimal_ok(s.row_dirty_hashes[i] as nat);
    assert(record_ok(row_record(s, i)));
    assert(record_ok(rowmeta_record(s, i)));
    let runs = s.row_runs[i];
    assert forall|k: int| 0 <= k < runs.len() implies record_ok(#[trigger] run_record(i, runs[k])) by {
        let r = runs[k];
        lemma_text_ok(r.text);
        lemma_hex_ok(r.cell_widths);
        lemma_decimal_ok(r.style_id as nat);
        lemma_decimal_ok(r.flags as nat);
        lemma_decimal_ok(r.hyperlink_id as nat);
        lemma_decimal_ok(r.semantic_content.spec_code() as nat);
    }
    let all = row_records(s, i);
    assert forall|k: int| 0 <= k < all.len() implies record_ok(#[trigger] all[k]) by {
        if k >= 2 {
            assert(all[k] == run_record(i, runs[k - 2]));
        }
    }
}

pub proof fn lemma_rows_records_ok(s: PaneSurfaceView, n: nat)
    requires
        n <= s.row_text.len(),
        s.rows_consistent(),
    ensures
        records_ok(rows_records(s, n)),
    decreases n,
{
    if n > 0 {
        lemma_rows_records_ok(s, (n - 1) as nat);
        lemma_row_records_ok(s, n - 1);
    }
}

pub proof fn lemma_surface_records_ok(s: PaneSurfaceView)
    requires
        s.rows_consistent(),
    ensures
        records_ok(surface_records(s)),
{
    lemma_header_records_ok(s);
    lemma_rows_records_ok(s, s.row_text.len());
    assert forall|k: int| 0 <= k < s.styles.len() implies record_ok(
        #[trigger] style_record(s.styles[k]),
    ) by {
        lemma_table_records_ok(s.styles[k], s.hyperlinks[0]);
    }
    assert forall|k: int| 0 <= k < s.hyperlinks.len() implies record_ok(
        #[trigger] hyperlink_record(s.hyperlinks[k]),
    ) by {
        lemma_table_records_ok(s.styles[0], s.hyperlinks[k]);
    }
}

pub proof fn lemma_surfaces_records_ok(surfaces: Seq<PaneSurfaceView>)
    requires
        forall|k: int| 0 <= k < surfaces.len() ==> (#[trigger] surfaces[k]).rows_consistent(),
    ensures
        records_ok(surfaces_records(surfaces)),
    decreases surfaces.len(),
{
    if surfaces.len() > 0 {
        let front = surfaces.drop_last();
        assert forall|k: int| 0 <= k < front.len() implies (#[trigger] front[k]).rows_consistent() by {
            assert(front[k] == surfaces[k]);
        }
        lemma_surfaces_records_ok(front);
        assert(surfaces[surfaces.len() - 1].rows_consistent());
        lemma_surface_records_ok(surfaces.last());
    }
}

pub proof fn lemma_state_records_ok(st: AttachStateView)
    requires
        st.valid(),
    ensures
        records_ok(state_records(st)),
{
    lemma_keywords();
    assert(record_ok(header_record()));
    if let Some(sc) = st.scope {
        lemma_scope_record_ok(sc);
    }
    assert forall|k: int| 0 <= k < st.scrollbacks.len() implies record_ok(
        #[trigger] scrollback_record(st.scrollbacks[k]),
    ) by {
        lemma_scrollback_record_ok(st.scrollbacks[k]);
    }
    assert forall|k: int| 0 <= k < st.surfaces.len() implies (
    #[trigger] st.surfaces[k]).rows_consistent() by {
        assert(st.surfaces[k].valid());
    }
    lemma_surfaces_records_ok(st.surfaces);
}

// ---------------------------------------------------------------------------
// Reading records in order
// ---------------------------------------------------------------------------

/// The reader's state after a sequence of records, one line each.
pub open spec fn apply_records(
    records: Seq<Seq<Seq<char>>>,
    st: AttachStateView,
    open: Option<PaneSurfaceView>,
) -> Result<(AttachStateView, Option<PaneSurfaceView>), StateError>
    decreases records.len(),
{
    if records.len() == 0 {
        Ok((st, open))
    } else {
        match apply_records(records.drop_last(), st, open) {
            Err(e) => Err(e),
            Ok((s, o)) => decode_step(join_with(records.last(), ' '), s, o),
        }
    }
}

pub proof fn lemma_apply_concat(
    a: Seq<Seq<Seq<char>>>,
    b: Seq<Seq<Seq<char>>>,
    st: AttachStateView,
    open: Option<PaneSurfaceView>,
)
    ensures
        apply_records(a + b, st, open) == match apply_records(a, st, open) {
            Ok((s, o)) => apply_records(b, s, o),
            Err(e) => Err(e),
        },
    decreases b.len(),
{
    if b.len() == 0 {
        assert(a + b =~= a);
    } else {
        lemma_apply_concat(a, b.drop_last(), st, open);
        assert((a + b).drop_last() =~= a + b.drop_last());
        assert((a + b).last() == b.last());
    }
}

pub proof fn lemma_apply_one(r: Seq<Seq<char>>, st: AttachStateView, open: Option<PaneSurfaceView>)
    ensures
        apply_records(seq![r], st, open) == decode_step(join_with(r, ' '), st, open),
{
    assert(seq![r].drop_last() =~= Seq::<Seq<Seq<char>>>::empty());
    assert(apply_records(seq![r].drop_last(), st, open) == Ok::<
        (AttachStateView, Option<PaneSurfaceView>),
        StateError,
    >((st, open)));
    assert(seq![r].last() == r);
}

pub proof fn lemma_decode_from_records(
    r: Seq<Seq<Seq<char>>>,
    i: int,
    st: AttachStateView,
    open: Option<PaneSurfaceView>,
)
    requires
        0 <= i <= r.len(),
    ensures
        decode_from(record_lines(r), i, st, open) == match apply_records(
            r.subrange(i, r.len() as int),
            st,
            open,
        ) {
            Ok((s, o)) => if o is Some {
                Err(StateError::UnterminatedSurface)
            } else {
                Ok(s)
            },
            Err(e) => Err(e),
        },
    decreases r.len() - i,
{
    if i == r.len() {
        assert(r.subrange(i, i) =~= Seq::<Seq<Seq<char>>>::empty());
    } else {
        let lines = record_lines(r);
        assert(lines[i] == join_with(r[i], ' '));
        if let Ok((s2, o2)) = decode_step(join_with(r[i], ' '), st, open) {
            lemma_decode_from_records(r, i + 1, s2, o2);
        }
        lemma_apply_concat(seq![r[i]], r.subrange(i + 1, r.len() as int), st, open);
        assert(seq![r[i]] + r.subrange(i + 1, r.len() as int) =~= r.subrange(i, r.len() as int));
        lemma_apply_one(r[i], st, open);
    }
}

// ---------------------------------------------------------------------------
// Each record read back
// ---------------------------------------------------------------------------

pub proof fn lemma_top_step(rec: Seq<Seq<char>>, st: AttachStateView)
    requires
        record_ok(rec),
    ensures
        decode_step(join_with(rec, ' '), st, None) == top_line(rec, st),
{
    reveal(decode_step);
    lemma_record_line(rec);
}

pub proof fn lemma_body_step(rec: Seq<Seq<char>>, st: AttachStateView, b: PaneSurfaceView)
    requires
        record_ok(rec),
        rec.len() >= 2,
    ensures
        decode_step(join_with(rec, ' '), st, Some(b)) == match body_line(rec, b) {
            Err(e) => Err(e),
            Ok(next) => Ok((st, Some(next))),
        },
{
    reveal(decode_step);
    lemma_record_line(rec);
    if join_with(rec, ' ') == "end"@ {
        assert(rec.len() == 1);
    }
}

pub proof fn lemma_scope_step(sc: SocketIdentity, st: AttachStateView)
    ensures
        decode_step(join_with(scope_record(sc), ' '), st, None) == Ok::<
            (AttachStateView, Option<PaneSurfaceView>),
            StateError,
        >((AttachStateView { scope: Some(sc), ..st }, None)),
{
    reveal(top_line);
    lemma_scope_record_ok(sc);
    lemma_top_step(scope_record(sc), st);
    lemma_keywords();
    lemma_u64_field(sc.dev);
    lemma_u64_field(sc.ino);
    lemma_i64_field(sc.ctime);
    lemma_i64_field(sc.ctime_nsec);
}

pub proof fn lemma_scrollback_step(sb: ScrollbackView, st: AttachStateView)
    requires
        sb.start_line != 0,
        sb.line_count != 0,
    ensures
        decode_step(join_with(scrollback_record(sb), ' '), st, None) == Ok::<
            (AttachStateView, Option<PaneSurfaceView>),
            StateError,
        >((AttachStateView { scrollbacks: st.scrollbacks.push(sb), ..st }, None)),
{
    reveal(top_line);
    lemma_scrollback_record_ok(sb);
    lemma_top_step(scrollback_record(sb), st);
    lemma_keywords();
    lemma_text_field(sb.pane_id);
    lemma_u64_field(sb.version);
    lemma_u64_field(sb.start_line);
    lemma_u32_field(sb.line_count);
    lemma_u64_field(sb.total_lines);
    let rec = scrollback_record(sb);
    assert(rec[0] == "scrollback"@);
    assert(rec[0] != "scope"@);
}

pub proof fn lemma_surface_line_step(s: PaneSurfaceView, st: AttachStateView)
    requires
        s.surface.is_known(),
    ensures
        decode_step(join_with(surface_header_record(s), ' '), st, None) == Ok::<
            (AttachStateView, Option<PaneSurfaceView>),
            StateError,
        >((st, Some(blank_surface(s.pane_id, s.version, s.cols, s.rows, s.surface)))),
{
    reveal(top_line);
    lemma_header_records_ok(s);
    lemma_top_step(surface_header_record(s), st);
    lemma_keywords();
    lemma_text_field(s.pane_id);
    lemma_u64_field(s.version);
    lemma_u32_field(s.cols);
    lemma_u32_field(s.rows);
    lemma_kind_fields(
        s.surface,
        CursorShape::Block,
        MouseTrackingMode::Off,
        MouseFormat::X10,
        RowSemanticPrompt::Unmarked,
        CellSemanticContent::Output,
    );
    let rec = surface_header_record(s);
    assert(rec[0] == "surface"@);
    assert(rec[0] != "scope"@);
    assert(rec[0] != "scrollback"@);
}

pub proof fn lemma_cursor_line(c: Option<CursorSummary>, b: PaneSurfaceView)
    requires
        c matches Some(cursor) ==> cursor.shape.is_known(),
    ensures
        body_line(cursor_record(c), b) == Ok::<PaneSurfaceView, StateError>(
            PaneSurfaceView { cursor: c, ..b },
        ),
{
    reveal(body_line);
    lemma_keywords();
    if let Some(cursor) = c {
        lemma_u32_field(cursor.row);
        lemma_u32_field(cursor.col);
        lemma_bool_field(cursor.visible);
        lemma_bool_field(cursor.blinking);
        lemma_kind_fields(
            SurfaceKind::Main,
            cursor.shape,
            MouseTrackingMode::Off,
            MouseFormat::X10,
            RowSemanticPrompt::Unmarked,
            CellSemanticContent::Output,
        );
    }
}

proof fn lemma_mode_flags(bs: Seq<bool>)
    ensures
        mode_flags(Seq::new(bs.len(), |i: int| flag(bs[i]))) == Ok::<Seq<bool>, StateError>(bs),
    decreases bs.len(),
{
    if bs.len() > 0 {
        let f = Seq::new(bs.len(), |i: int| flag(bs[i]));
        let front = bs.drop_last();
        lemma_mode_flags(front);
        assert(f.drop_last() =~= Seq::new(front.len(), |i: int| flag(front[i])));
        lemma_bool_field(bs.last());
        assert(f.last() == flag(bs.last()));
        assert(front.push(bs.last()) =~= bs);
    } else {
        assert(bs =~= Seq::<bool>::empty());
        assert(Seq::new(bs.len(), |i: int| flag(bs[i])) =~= Seq::<Seq<char>>::empty());
    }
}

pub proof fn lemma_modes_line(m: TerminalModeSummary, b: PaneSurfaceView)
    requires
        m.mouse_tracking_mode.is_known(),
        m.mouse_format.is_known(),
    ensures
        body_line(modes_record(m), b) == Ok::<PaneSurfaceView, StateError>(
            PaneSurfaceView { modes: m, ..b },
        ),
{
    reveal(body_line);
    lemma_keywords();
    let rec = modes_record(m);
    let bs = seq![
        m.bracketed_paste,
        m.mouse_tracking,
        m.focus_reporting,
        m.application_keypad,
        m.application_cursor,
        m.origin,
        m.wraparound,
    ];
    lemma_mode_flags(bs);
    assert(rec.subrange(1, 8) =~= Seq::new(bs.len(), |i: int| flag(bs[i])));
    lemma_kind_fields(
        SurfaceKind::Main,
        CursorShape::Block,
        m.mouse_tracking_mode,
        m.mouse_format,
        RowSemanticPrompt::Unmarked,
        CellSemanticContent::Output,
    );
}

pub proof fn lemma_text_lines(s: PaneSurfaceView, b: PaneSurfaceView)
    ensures
        body_line(seq!["title"@, hex_text(s.title)], b) == Ok::<PaneSurfaceView, StateError>(
            PaneSurfaceView { title: s.title, ..b },
        ),
        body_line(seq!["pwd"@, hex_text(s.working_directory)], b) == Ok::<
            PaneSurfaceView,
            StateError,
        >(PaneSurfaceView { working_directory: s.working_directory, ..b }),
{
    reveal(body_line);
    lemma_keywords();
    lemma_text_field(s.title);
    lemma_text_field(s.working_directory);
}

pub proof fn lemma_colors_line(c: crate::surface::ColorsView, b: PaneSurfaceView)
    requires
        !crate::surface::palette_diff_present(c),
    ensures
        body_line(colors_record(c), b) == Ok::<PaneSurfaceView, StateError>(
            PaneSurfaceView { colors: c, ..b },
        ),
{
    reveal(body_line);
    lemma_keywords();
    lemma_u32_field(c.default_fg_rgba);
    lemma_u32_field(c.default_bg_rgba);
    lemma_u32_field(c.cursor_rgba);
    lemma_bool_field(c.cursor_rgba_set);
    lemma_palette_field(c.palette_rgba);
    assert(c.palette_diff_rgba =~= Seq::<u32>::empty());
}

/// The colors a colors line sets when it holds these fields.
pub open spec fn colors_set(
    b: PaneSurfaceView,
    fg: u32,
    bg: u32,
    cursor: u32,
    set: bool,
    palette: Seq<u32>,
) -> PaneSurfaceView {
    PaneSurfaceView {
        colors: crate::surface::ColorsView {
            default_fg_rgba: fg,
            default_bg_rgba: bg,
            cursor_rgba: cursor,
            cursor_rgba_set: set,
            palette_rgba: palette,
            palette_diff_start: None,
            palette_diff_rgba: Seq::empty(),
        },
        ..b
    }
}

/// A colors line `colors fg bg cursor set palette` written with decimal
/// numbers gives the surface its default foreground from the first number,
/// its default background from the second, its cursor color from the third
/// and whether that color is set from the flag.
#[verifier::rlimit(40)]
pub proof fn lemma_colors_line_fields(
    fg: u32,
    bg: u32,
    cursor: u32,
    set: bool,
    palette: Seq<u32>,
    b: PaneSurfaceView,
)
    ensures
        body_line(
            seq![
                "colors"@,
                decimal(fg as nat),
                decimal(bg as nat),
                decimal(cursor as nat),
                flag(set),
                hex_of(palette_bytes(palette)),
            ],
            b,
        ) == Ok::<PaneSurfaceView, StateError>(colors_set(b, fg, bg, cursor, set, palette)),
{
    let f = seq![
        "colors"@,
        decimal(fg as nat),
        decimal(bg as nat),
        decimal(cursor as nat),
        flag(set),
        hex_of(palette_bytes(palette)),
    ];
    reveal(body_line);
    lemma_keywords();
    lemma_u32_field(fg);
    lemma_u32_field(bg);
    lemma_u32_field(cursor);
    lemma_bool_field(set);
    lemma_palette_field(palette);
    assert(f.len() == 6 && f[0] == "colors"@ && f[1] == decimal(fg as nat) && f[2] == decimal(
        bg as nat,
    ) && f[3] == decimal(cursor as nat) && f[4] == flag(set) && f[5] == hex_of(
        palette_bytes(palette),
    ));
    assert(body_line(f, b) == crate::state_file::colors_line(f, b));
}

/// The short colors line of older cache files, `colors fg bg cursor
/// palette`, gives the default foreground from its first number, the
/// default background from its second and the cursor color from its
/// third, which counts as set when it is not zero.
#[verifier::rlimit(40)]
pub proof fn lemma_short_colors_line_fields(
    fg: u32,
    bg: u32,
    cursor: u32,
    palette: Seq<u32>,
    b: PaneSurfaceView,
)
    ensures
        body_line(
            seq![
                "colors"@,
                decimal(fg as nat),
                decimal(bg as nat),
                decimal(cursor as nat),
                hex_of(palette_bytes(palette)),
            ],
            b,
        ) == Ok::<PaneSurfaceView, StateError>(colors_set(b, fg, bg, cursor, cursor != 0, palette)),
{
    let f = seq![
        "colors"@,
        decimal(fg as nat),
        decimal(bg as nat),
        decimal(cursor as nat),
        hex_of(palette_bytes(palette)),
    ];
    reveal(body_line);
    lemma_keywords();
    lemma_u32_field(fg);
    lemma_u32_field(bg);
    lemma_u32_field(cursor);
    lemma_palette_field(palette);
    assert(f.len() == 5 && f[0] == "colors"@ && f[1] == decimal(fg as nat) && f[2] == decimal(
        bg as nat,
    ) && f[3] == decimal(cursor as nat) && f[4] == hex_of(palette_bytes(palette)));
    assert(body_line(f, b) == crate::state_file::colors_line(f, b));
}

pub proof fn lemma_style_line(style: StyleSummary, b: PaneSurfaceView)
    ensures
        body_line(style_record(style), b) == Ok::<PaneSurfaceView, StateError>(
            PaneSurfaceView { styles: b.styles.push(style), ..b },
        ),
{
    reveal(body_line);
    lemma_keywords();
    lemma_u32_field(style.fg_rgba);
    lemma_u32_field(style.bg_rgba);
    lemma_u32_field(style.underline_rgba);
    lemma_u32_field(style.flags);
}

pub proof fn lemma_hyperlink_line(link: HyperlinkView, b: PaneSurfaceView)
    ensures
        body_line(hyperlink_record(link), b) == Ok::<PaneSurfaceView, StateError>(
            PaneSurfaceView { hyperlinks: b.hyperlinks.push(link), ..b },
        ),
{
    reveal(body_line);
    lemma_keywords();
    lemma_u32_field(link.id);
    lemma_text_field(link.uri);
    lemma_optional_text_field(link.osc8_id);
    lemma_optional_text_field(link.params);
}

pub proof fn lemma_row_line(s: PaneSurfaceView, i: int, b: PaneSurfaceView)
    requires
        0 <= i < b.row_text.len(),
        i < s.row_text.len(),
        i <= u32::MAX,
    ensures
        body_line(row_record(s, i), b) == Ok::<PaneSurfaceView, StateError>(
            PaneSurfaceView { row_text: b.row_text.update(i, s.row_text[i]), ..b },
        ),
{
    reveal(body_line);
    lemma_keywords();
    lemma_usize_field(i as nat);
    lemma_text_field(s.row_text[i]);
}

pub proof fn lemma_rowmeta_line(s: PaneSurfaceView, i: int, b: PaneSurfaceView)
    requires
        s.rows_consistent(),
        b.rows_consistent(),
        0 <= i < s.row_text.len(),
        b.rows == s.rows,
        s.row_semantic_prompts[i].is_known(),
    ensures
        body_line(rowmeta_record(s, i), b) == Ok::<PaneSurfaceView, StateError>(
            PaneSurfaceView {
                row_semantic_prompts: b.row_semantic_prompts.update(i, s.row_semantic_prompts[i]),
                row_dirty: b.row_dirty.update(i, s.row_dirty[i]),
                row_kitty_placeholders: b.row_kitty_placeholders.update(i, s.row_kitty_placeholders[i]),
                row_state_hashes: b.row_state_hashes.update(i, s.row_state_hashes[i]),
                row_dirty_hashes: b.row_dirty_hashes.update(i, s.row_dirty_hashes[i]),
                ..b
            },
        ),
{
    reveal(body_line);
    lemma_keywords();
    lemma_usize_field(i as nat);
    lemma_kind_fields(
        SurfaceKind::Main,
        CursorShape::Block,
        MouseTrackingMode::Off,
        MouseFormat::X10,
        s.row_semantic_prompts[i],
        CellSemanticContent::Output,
    );
    lemma_bool_field(s.row_dirty[i]);
    lemma_bool_field(s.row_kitty_placeholders[i]);
    lemma_u64_field(s.row_state_hashes[i]);
    lemma_u64_field(s.row_dirty_hashes[i]);
}

pub proof fn lemma_run_line(i: int, r: CellRunView, b: PaneSurfaceView)
    requires
        0 <= i < b.row_runs.len(),
        i <= u32::MAX,
        r.semantic_content.is_known(),
    ensures
        body_line(run_record(i, r), b) == Ok::<PaneSurfaceView, StateError>(
            PaneSurfaceView { row_runs: b.row_runs.update(i, b.row_runs[i].push(r)), ..b },
        ),
{
    reveal(body_line);
    lemma_keywords();
    lemma_usize_field(i as nat);
    lemma_text_field(r.text);
    lemma_bytes_field(r.cell_widths);
    lemma_u32_field(r.style_id);
    lemma_u32_field(r.flags);
    lemma_u32_field(r.hyperlink_id);
    lemma_kind_fields(
        SurfaceKind::Main,
        CursorShape::Block,
        MouseTrackingMode::Off,
        MouseFormat::X10,
        RowSemanticPrompt::Unmarked,
        r.semantic_content,
    );
}

/// A cursor line of older cache files, `cursor row col visible shape`,
/// places the cursor at that row and column with that visibility and
/// shape, blinking.
#[verifier::rlimit(40)]
pub proof fn lemma_short_cursor_line(row: u32, col: u32, visible: bool, shape: CursorShape, b: PaneSurfaceView)
    requires
        shape.is_known(),
    ensures
        body_line(
            seq![
                "cursor"@,
                decimal(row as nat),
                decimal(col as nat),
                flag(visible),
                decimal(shape.spec_code() as nat),
            ],
            b,
        ) == Ok::<PaneSurfaceView, StateError>(
            (PaneSurfaceView {
                cursor: Some(CursorSummary { row, col, visible, shape, blinking: true }),
                ..b
            }),
        ),
{
    let f = seq![
        "cursor"@,
        decimal(row as nat),
        decimal(col as nat),
        flag(visible),
        decimal(shape.spec_code() as nat),
    ];
    reveal(body_line);
    lemma_keywords();
    lemma_u32_field(row);
    lemma_u32_field(col);
    lemma_bool_field(visible);
    lemma_kind_fields(
        SurfaceKind::Main,
        shape,
        MouseTrackingMode::Off,
        MouseFormat::X10,
        RowSemanticPrompt::Unmarked,
        CellSemanticContent::Output,
    );
    assert(f.len() == 5 && f[0] == "cursor"@ && f[1] == decimal(row as nat) && f[2] == decimal(
        col as nat,
    ) && f[3] == flag(visible) && f[4] == decimal(shape.spec_code() as nat));
    assert(f[1] != "none"@ || f.len() != 2);
    assert(body_line(f, b) == crate::state_file::cursor_line(f, b));
}

/// A modes line of older cache files, `modes` and seven flags, sets the
/// seven modes in the order bracketed paste, mouse tracking, focus
/// reporting, application keypad, application cursor, origin and
/// wraparound, with mouse reporting off in the X10 format.
#[verifier::rlimit(40)]
pub proof fn lemma_short_modes_line(flags: Seq<bool>, b: PaneSurfaceView)
    requires
        flags.len() == 7,
    ensures
        body_line(seq!["modes"@] + Seq::new(7, |i: int| flag(flags[i])), b) == Ok::<
            PaneSurfaceView,
            StateError,
        >(
            (PaneSurfaceView {
                modes: TerminalModeSummary {
                    bracketed_paste: flags[0],
                    mouse_tracking: flags[1],
                    focus_reporting: flags[2],
                    application_keypad: flags[3],
                    application_cursor: flags[4],
                    origin: flags[5],
                    wraparound: flags[6],
                    mouse_tracking_mode: MouseTrackingMode::Off,
                    mouse_format: MouseFormat::X10,
                },
                ..b
            }),
        ),
{
    let written = Seq::new(7, |i: int| flag(flags[i]));
    let f = seq!["modes"@] + written;
    reveal(body_line);
    lemma_keywords();
    lemma_mode_flags(flags);
    assert(f.subrange(1, 8) =~= written);
    assert(f.len() == 8 && f[0] == "modes"@);
    assert(body_line(f, b) == crate::state_file::modes_line(f, b));
}

/// A run line of older cache files, `run index text widths style flags`,
/// appends to that row a run with that text, widths, style and flags, no
/// hyperlink and output content.
#[verifier::rlimit(40)]
pub proof fn lemma_short_run_line(
    i: int,
    text: Seq<char>,
    widths: Seq<u8>,
    style_id: u32,
    flags: u32,
    b: PaneSurfaceView,
)
    requires
        0 <= i < b.row_runs.len(),
        i <= u32::MAX,
    ensures
        body_line(
            seq![
                "run"@,
                decimal(i as nat),
                hex_text(text),
                hex_of(widths),
                decimal(style_id as nat),
                decimal(flags as nat),
            ],
            b,
        ) == Ok::<PaneSurfaceView, StateError>(
            (PaneSurfaceView {
                row_runs: b.row_runs.update(
                    i,
                    b.row_runs[i].push(
                        CellRunView {
                            text,
                            cell_widths: widths,
                            style_id,
                            flags,
                            hyperlink_id: 0,
                            semantic_content: CellSemanticContent::Output,
                        },
                    ),
                ),
                ..b
            }),
        ),
{
    let f = seq![
        "run"@,
        decimal(i as nat),
        hex_text(text),
        hex_of(widths),
        decimal(style_id as nat),
        decimal(flags as nat),
    ];
    assert(f.len() == 6 && f[0] == "run"@);
    assert(f[0] != "cursor"@ && f[0] != "modes"@ && f[0] != "title"@ && f[0] != "pwd"@ && f[0]
        != "colors"@ && f[0] != "style"@ && f[0] != "hyperlink"@ && f[0] != "row"@ && f[0]
        != "rowmeta"@) by {
        reveal_strlit("run");
        reveal_strlit("cursor");
        reveal_strlit("modes");
        reveal_strlit("title");
        reveal_strlit("pwd");
        reveal_strlit("colors");
        reveal_strlit("style");
        reveal_strlit("hyperlink");
        reveal_strlit("row");
        reveal_strlit("rowmeta");
        assert("run"@[0] != "row"@[2]);
        assert("run"@[1] != "row"@[1]);
        assert("run"@[1] != "rowmeta"@[1]);
    }
    assert(body_line(f, b) == crate::state_file::run_line(f, b)) by {
        reveal(body_line);
    }
    lemma_usize_field(i as nat);
    lemma_text_field(text);
    lemma_bytes_field(widths);
    lemma_u32_field(style_id);
    lemma_u32_field(flags);
    assert(f[1] == decimal(i as nat) && f[2] == hex_text(text) && f[3] == hex_of(widths) && f[4]
        == decimal(style_id as nat) && f[5] == decimal(flags as nat));
}

/// A row metadata line of older cache files, `rowmeta index prompt`, sets
/// that row's prompt kind and leaves the rest of its metadata alone.
#[verifier::rlimit(40)]
pub proof fn lemma_short_rowmeta_line(i: int, prompt: RowSemanticPrompt, b: PaneSurfaceView)
    requires
        0 <= i < b.row_semantic_prompts.len(),
        i <= u32::MAX,
        prompt.is_known(),
    ensures
        body_line(seq!["rowmeta"@, decimal(i as nat), decimal(prompt.spec_code() as nat)], b)
            == Ok::<PaneSurfaceView, StateError>(
            (PaneSurfaceView {
                row_semantic_prompts: b.row_semantic_prompts.update(i, prompt),
                ..b
            }),
        ),
{
    let f = seq!["rowmeta"@, decimal(i as nat), decimal(prompt.spec_code() as nat)];
    reveal(body_line);
    lemma_keywords();
    lemma_usize_field(i as nat);
    lemma_kind_fields(
        SurfaceKind::Main,
        CursorShape::Block,
        MouseTrackingMode::Off,
        MouseFormat::X10,
        prompt,
        CellSemanticContent::Output,
    );
    assert(f.len() == 3 && f[0] == "rowmeta"@ && f[1] == decimal(i as nat) && f[2] == decimal(
        prompt.spec_code() as nat,
    ));
    reveal_strlit("rowmeta");
    reveal_strlit("row");
    reveal_strlit("pwd");
    reveal_strlit("title");
    reveal_strlit("cursor");
    assert("rowmeta"@.len() != "row"@.len() && "rowmeta"@.len() != "pwd"@.len()
        && "rowmeta"@.len() != "title"@.len() && "rowmeta"@.len() != "cursor"@.len());
    assert(body_line(f, b) == crate::state_file::rowmeta_line(f, b));
}

/// A scope line `scope socket dev ino ctime ctime_nsec` scopes the cache to
/// the socket with that device, inode and change time; the older
/// `scope socket dev ino` reads the change time as zero.
#[verifier::rlimit(40)]
pub proof fn lemma_scope_line_fields(dev: u64, ino: u64, ctime: i64, ctime_nsec: i64, st: AttachStateView)
    ensures
        top_line(
            seq![
                "scope"@,
                "socket"@,
                decimal(dev as nat),
                decimal(ino as nat),
                signed_decimal(ctime as int),
                signed_decimal(ctime_nsec as int),
            ],
            st,
        ) == Ok::<(AttachStateView, Option<PaneSurfaceView>), StateError>(
            (
                AttachStateView { scope: Some(SocketIdentity { dev, ino, ctime, ctime_nsec }), ..st },
                None,
            ),
        ),
        top_line(seq!["scope"@, "socket"@, decimal(dev as nat), decimal(ino as nat)], st) == Ok::<
            (AttachStateView, Option<PaneSurfaceView>),
            StateError,
        >(
            (
                AttachStateView {
                    scope: Some(SocketIdentity { dev, ino, ctime: 0, ctime_nsec: 0 }),
                    ..st
                },
                None,
            ),
        ),
{
    reveal(top_line);
    lemma_keywords();
    lemma_u64_field(dev);
    lemma_u64_field(ino);
    lemma_i64_field(ctime);
    lemma_i64_field(ctime_nsec);
    let f = seq![
        "scope"@,
        "socket"@,
        decimal(dev as nat),
        decimal(ino as nat),
        signed_decimal(ctime as int),
        signed_decimal(ctime_nsec as int),
    ];
    let g = seq!["scope"@, "socket"@, decimal(dev as nat), decimal(ino as nat)];
    assert(f.len() == 6 && f[0] == "scope"@ && f[1] == "socket"@ && f[2] == decimal(dev as nat)
        && f[3] == decimal(ino as nat) && f[4] == signed_decimal(ctime as int) && f[5]
        == signed_decimal(ctime_nsec as int));
    assert(g.len() == 4 && g[0] == "scope"@ && g[1] == "socket"@ && g[2] == decimal(dev as nat)
        && g[3] == decimal(ino as nat));
}

/// A scrollback line `scrollback pane version start count total` caches
/// that pane's range of `count` lines from line `start`, at that version,
/// out of `total` lines.
#[verifier::rlimit(40)]
pub proof fn lemma_scrollback_line_fields(
    pane_id: Seq<char>,
    version: u64,
    start_line: u64,
    line_count: u32,
    total_lines: u64,
    st: AttachStateView,
)
    requires
        start_line != 0,
        line_count != 0,
    ensures
        top_line(
            seq![
                "scrollback"@,
                hex_text(pane_id),
                decimal(version as nat),
                decimal(start_line as nat),
                decimal(line_count as nat),
                decimal(total_lines as nat),
            ],
            st,
        ) == Ok::<(AttachStateView, Option<PaneSurfaceView>), StateError>(
            (
                AttachStateView {
                    scrollbacks: st.scrollbacks.push(
                        ScrollbackView { pane_id, version, start_line, line_count, total_lines },
                    ),
                    ..st
                },
                None,
            ),
        ),
{
    reveal(top_line);
    lemma_keywords();
    lemma_text_field(pane_id);
    lemma_u64_field(version);
    lemma_u64_field(start_line);
    lemma_u32_field(line_count);
    lemma_u64_field(total_lines);
    let f = seq![
        "scrollback"@,
        hex_text(pane_id),
        decimal(version as nat),
        decimal(start_line as nat),
        decimal(line_count as nat),
        decimal(total_lines as nat),
    ];
    assert(f.len() == 6 && f[0] == "scrollback"@ && f[1] == hex_text(pane_id) && f[2] == decimal(
        version as nat,
    ) && f[3] == decimal(start_line as nat) && f[4] == decimal(line_count as nat) && f[5]
        == decimal(total_lines as nat));
}

/// A surface line `surface pane version cols rows kind` opens a blank
/// surface for that pane at that version and size, of that kind; the older
/// `surface pane version cols rows` opens a main-screen surface.
#[verifier::rlimit(40)]
pub proof fn lemma_surface_line_fields(
    pane_id: Seq<char>,
    version: u64,
    cols: u32,
    rows: u32,
    kind: SurfaceKind,
    st: AttachStateView,
)
    requires
        kind.is_known(),
    ensures
        top_line(
            seq![
                "surface"@,
                hex_text(pane_id),
                decimal(version as nat),
                decimal(cols as nat),
                decimal(rows as nat),
                decimal(kind.spec_code() as nat),
            ],
            st,
        ) matches Ok((next, Some(b))) && next == st && b.pane_id == pane_id && b.version == version
            && b.cols == cols && b.rows == rows && b.surface == kind && b.row_text.len() == rows,
        top_line(
            seq![
                "surface"@,
                hex_text(pane_id),
                decimal(version as nat),
                decimal(cols as nat),
                decimal(rows as nat),
            ],
            st,
        ) matches Ok((next, Some(b))) && next == st && b.pane_id == pane_id && b.version == version
            && b.cols == cols && b.rows == rows && b.surface == SurfaceKind::Main && b.row_text.len()
            == rows,
{
    reveal(top_line);
    lemma_keywords();
    lemma_text_field(pane_id);
    lemma_u64_field(version);
    lemma_u32_field(cols);
    lemma_u32_field(rows);
    lemma_kind_fields(
        kind,
        CursorShape::Block,
        MouseTrackingMode::Off,
        MouseFormat::X10,
        RowSemanticPrompt::Unmarked,
        CellSemanticContent::Output,
    );
    let f = seq![
        "surface"@,
        hex_text(pane_id),
        decimal(version as nat),
        decimal(cols as nat),
        decimal(rows as nat),
        decimal(kind.spec_code() as nat),
    ];
    let g = f.take(5);
    assert(f.len() == 6 && f[0] == "surface"@ && f[1] == hex_text(pane_id) && f[2] == decimal(
        version as nat,
    ) && f[3] == decimal(cols as nat) && f[4] == decimal(rows as nat) && f[5] == decimal(
        kind.spec_code() as nat,
    ));
    assert(g =~= seq![
        "surface"@,
        hex_text(pane_id),
        decimal(version as nat),
        decimal(cols as nat),
        decimal(rows as nat),
    ]);
    assert(g.len() == 5 && g[0] == "surface"@ && g[1] == hex_text(pane_id) && g[2] == decimal(
        version as nat,
    ) && g[3] == decimal(cols as nat) && g[4] == decimal(rows as nat));
}

/// A cursor line `cursor row col visible shape blinking` places the cursor
/// at that row and column with that visibility, shape and blinking.
pub proof fn lemma_cursor_line_fields(
    row: u32,
    col: u32,
    visible: bool,
    shape: CursorShape,
    blinking: bool,
    b: PaneSurfaceView,
)
    requires
        shape.is_known(),
    ensures
        body_line(
            seq![
                "cursor"@,
                decimal(row as nat),
                decimal(col as nat),
                flag(visible),
                decimal(shape.spec_code() as nat),
                flag(blinking),
            ],
            b,
        ) == Ok::<PaneSurfaceView, StateError>(
            (PaneSurfaceView {
                cursor: Some(CursorSummary { row, col, visible, shape, blinking }),
                ..b
            }),
        ),
{
    let c = CursorSummary { row, col, visible, shape, blinking };
    lemma_cursor_line(Some(c), b);
    assert(cursor_record(Some(c)) =~= seq![
        "cursor"@,
        decimal(row as nat),
        decimal(col as nat),
        flag(visible),
        decimal(shape.spec_code() as nat),
        flag(blinking),
    ]);
}

/// A modes line `modes` with seven flags, a mouse tracking mode and a mouse
/// format sets bracketed paste, mouse tracking, focus reporting,
/// application keypad, application cursor, origin and wraparound in that
/// order, then the mouse mode and format.
pub proof fn lemma_modes_line_fields(m: TerminalModeSummary, b: PaneSurfaceView)
    requires
        m.mouse_tracking_mode.is_known(),
        m.mouse_format.is_known(),
    ensures
        body_line(
            seq![
                "modes"@,
                flag(m.bracketed_paste),
                flag(m.mouse_tracking),
                flag(m.focus_reporting),
                flag(m.application_keypad),
                flag(m.application_cursor),
                flag(m.origin),
                flag(m.wraparound),
                decimal(m.mouse_tracking_mode.spec_code() as nat),
                decimal(m.mouse_format.spec_code() as nat),
            ],
            b,
        ) == Ok::<PaneSurfaceView, StateError>((PaneSurfaceView { modes: m, ..b })),
{
    lemma_modes_line(m, b);
    assert(modes_record(m) =~= seq![
        "modes"@,
        flag(m.bracketed_paste),
        flag(m.mouse_tracking),
        flag(m.focus_reporting),
        flag(m.application_keypad),
        flag(m.application_cursor),
        flag(m.origin),
        flag(m.wraparound),
        decimal(m.mouse_tracking_mode.spec_code() as nat),
        decimal(m.mouse_format.spec_code() as nat),
    ]);
}

/// A style line `style fg bg underline flags` appends that style, its
/// colors and flags in that order, to the style table.
pub proof fn lemma_style_line_fields(fg: u32, bg: u32, underline: u32, flags: u32, b: PaneSurfaceView)
    ensures
        body_line(
            seq![
                "style"@,
                decimal(fg as nat),
                decimal(bg as nat),
                decimal(underline as nat),
                decimal(flags as nat),
            ],
            b,
        ) == Ok::<PaneSurfaceView, StateError>(
            (PaneSurfaceView {
                styles: b.styles.push(
                    StyleSummary { fg_rgba: fg, bg_rgba: bg, underline_rgba: underline, flags },
                ),
                ..b
            }),
        ),
{
    let style = StyleSummary { fg_rgba: fg, bg_rgba: bg, underline_rgba: underline, flags };
    lemma_style_line(style, b);
    assert(style_record(style) =~= seq![
        "style"@,
        decimal(fg as nat),
        decimal(bg as nat),
        decimal(underline as nat),
        decimal(flags as nat),
    ]);
}

/// A hyperlink line `hyperlink id uri osc8_id params` appends that link to
/// the hyperlink table.
pub proof fn lemma_hyperlink_line_fields(
    id: u32,
    uri: Seq<char>,
    osc8_id: Seq<char>,
    params: Seq<char>,
    b: PaneSurfaceView,
)
    ensures
        body_line(
            seq![
                "hyperlink"@,
                decimal(id as nat),
                hex_text(uri),
                optional_hex_text(osc8_id),
                optional_hex_text(params),
            ],
            b,
        ) == Ok::<PaneSurfaceView, StateError>(
            (PaneSurfaceView {
                hyperlinks: b.hyperlinks.push(HyperlinkView { id, uri, osc8_id, params }),
                ..b
            }),
        ),
{
    let link = HyperlinkView { id, uri, osc8_id, params };
    lemma_hyperlink_line(link, b);
    assert(hyperlink_record(link) =~= seq![
        "hyperlink"@,
        decimal(id as nat),
        hex_text(uri),
        optional_hex_text(osc8_id),
        optional_hex_text(params),
    ]);
}

/// A row line `row index text` sets that row's text.
pub proof fn lemma_row_line_fields(i: int, text: Seq<char>, b: PaneSurfaceView)
    requires
        0 <= i < b.row_text.len(),
        i <= u32::MAX,
    ensures
        body_line(seq!["row"@, decimal(i as nat), hex_text(text)], b) == Ok::<
            PaneSurfaceView,
            StateError,
        >((PaneSurfaceView { row_text: b.row_text.update(i, text), ..b })),
{
    let s = PaneSurfaceView { row_text: b.row_text.update(i, text), ..b };
    lemma_row_line(s, i, b);
    assert(row_record(s, i) =~= seq!["row"@, decimal(i as nat), hex_text(text)]);
}

/// A run line `run index text widths style flags hyperlink content`
/// appends that run to that row.
pub proof fn lemma_run_line_fields(i: int, r: CellRunView, b: PaneSurfaceView)
    requires
        0 <= i < b.row_runs.len(),
        i <= u32::MAX,
        r.semantic_content.is_known(),
    ensures
        body_line(
            seq![
                "run"@,
                decimal(i as nat),
                hex_text(r.text),
                hex_of(r.cell_widths),
                decimal(r.style_id as nat),
                decimal(r.flags as nat),
                decimal(r.hyperlink_id as nat),
                decimal(r.semantic_content.spec_code() as nat),
            ],
            b,
        ) == Ok::<PaneSurfaceView, StateError>(
            (PaneSurfaceView { row_runs: b.row_runs.update(i, b.row_runs[i].push(r)), ..b }),
        ),
{
    lemma_run_line(i, r, b);
    assert(run_record(i, r) =~= seq![
        "run"@,
        decimal(i as nat),
        hex_text(r.text),
        hex_of(r.cell_widths),
        decimal(r.style_id as nat),
        decimal(r.flags as nat),
        decimal(r.hyperlink_id as nat),
        decimal(r.semantic_content.spec_code() as nat),
    ]);
}

// ---------------------------------------------------------------------------
// Tables and rows read back
// ---------------------------------------------------------------------------

pub proof fn lemma_styles_steps(styles: Seq<StyleSummary>, st: AttachStateView, b: PaneSurfaceView)
    ensures
        apply_records(Seq::new(styles.len(), |k: int| style_record(styles[k])), st, Some(b))
            == Ok::<(AttachStateView, Option<PaneSurfaceView>), StateError>(
            (st, Some(PaneSurfaceView { styles: b.styles + styles, ..b })),
        ),
    decreases styles.len(),
{
    let records = Seq::new(styles.len(), |k: int| style_record(styles[k]));
    if styles.len() == 0 {
        assert(b.styles + styles =~= b.styles);
        assert(PaneSurfaceView { styles: b.styles + styles, ..b } == b);
    } else {
        let front = styles.drop_last();
        lemma_styles_steps(front, st, b);
        assert(records.drop_last() =~= Seq::new(front.len(), |k: int| style_record(front[k])));
        let mid = PaneSurfaceView { styles: b.styles + front, ..b };
        lemma_table_records_ok(styles.last(), HyperlinkView {
            id: 0,
            uri: Seq::empty(),
            osc8_id: Seq::empty(),
            params: Seq::empty(),
        });
        lemma_body_step(style_record(styles.last()), st, mid);
        lemma_style_line(styles.last(), mid);
        assert(records.last() == style_record(styles.last()));
        assert(mid.styles.push(styles.last()) =~= b.styles + styles);
    }
}

pub proof fn lemma_hyperlinks_steps(
    links: Seq<HyperlinkView>,
    st: AttachStateView,
    b: PaneSurfaceView,
)
    ensures
        apply_records(Seq::new(links.len(), |k: int| hyperlink_record(links[k])), st, Some(b))
            == Ok::<(AttachStateView, Option<PaneSurfaceView>), StateError>(
            (st, Some(PaneSurfaceView { hyperlinks: b.hyperlinks + links, ..b })),
        ),
    decreases links.len(),
{
    let records = Seq::new(links.len(), |k: int| hyperlink_record(links[k]));
    if links.len() == 0 {
        assert(b.hyperlinks + links =~= b.hyperlinks);
        assert(PaneSurfaceView { hyperlinks: b.hyperlinks + links, ..b } == b);
    } else {
        let front = links.drop_last();
        lemma_hyperlinks_steps(front, st, b);
        assert(records.drop_last() =~= Seq::new(front.len(), |k: int| hyperlink_record(front[k])));
        let mid = PaneSurfaceView { hyperlinks: b.hyperlinks + front, ..b };
        lemma_table_records_ok(StyleSummary { fg_rgba: 0, bg_rgba: 0, underline_rgba: 0, flags: 0 }, links.last());
        lemma_body_step(hyperlink_record(links.last()), st, mid);
        lemma_hyperlink_line(links.last(), mid);
        assert(records.last() == hyperlink_record(links.last()));
        assert(mid.hyperlinks.push(links.last()) =~= b.hyperlinks + links);
    }
}

pub proof fn lemma_runs_steps(i: int, runs: Seq<CellRunView>, st: AttachStateView, b: PaneSurfaceView)
    requires
        0 <= i < b.row_runs.len(),
        i <= u32::MAX,
        forall|k: int| 0 <= k < runs.len() ==> (#[trigger] runs[k]).semantic_content.is_known(),
    ensures
        apply_records(Seq::new(runs.len(), |k: int| run_record(i, runs[k])), st, Some(b)) == Ok::<
            (AttachStateView, Option<PaneSurfaceView>),
            StateError,
        >((st, Some(PaneSurfaceView { row_runs: b.row_runs.update(i, b.row_runs[i] + runs), ..b }))),
    decreases runs.len(),
{
    let records = Seq::new(runs.len(), |k: int| run_record(i, runs[k]));
    if runs.len() == 0 {
        assert(b.row_runs[i] + runs =~= b.row_runs[i]);
        assert(b.row_runs.update(i, b.row_runs[i] + runs) =~= b.row_runs);
        assert(PaneSurfaceView { row_runs: b.row_runs.update(i, b.row_runs[i] + runs), ..b } == b);
    } else {
        let front = runs.drop_last();
        assert forall|k: int| 0 <= k < front.len() implies (
        #[trigger] front[k]).semantic_content.is_known() by {
            assert(front[k] == runs[k]);
        }
        lemma_runs_steps(i, front, st, b);
        assert(records.drop_last() =~= Seq::new(front.len(), |k: int| run_record(i, front[k])));
        let mid = PaneSurfaceView { row_runs: b.row_runs.update(i, b.row_runs[i] + front), ..b };
        let r = runs.last();
        assert(r == runs[runs.len() - 1]);
        assert(record_ok(run_record(i, r))) by {
            lemma_keywords();
            lemma_decimal_ok(i as nat);
            lemma_text_ok(r.text);
            lemma_hex_ok(r.cell_widths);
            lemma_decimal_ok(r.style_id as nat);
            lemma_decimal_ok(r.flags as nat);
            lemma_decimal_ok(r.hyperlink_id as nat);
            lemma_decimal_ok(r.semantic_content.spec_code() as nat);
        }
        lemma_body_step(run_record(i, r), st, mid);
        lemma_run_line(i, r, mid);
        assert(records.last() == run_record(i, r));
        assert((b.row_runs[i] + front).push(r) =~= b.row_runs[i] + runs);
        assert(mid.row_runs.update(i, mid.row_runs[i].push(r)) =~= b.row_runs.update(
            i,
            b.row_runs[i] + runs,
        ));
    }
}

pub proof fn lemma_apply_push(
    records: Seq<Seq<Seq<char>>>,
    r: Seq<Seq<char>>,
    st: AttachStateView,
    open: Option<PaneSurfaceView>,
)
    ensures
        apply_records(records.push(r), st, open) == match apply_records(records, st, open) {
            Ok((s, o)) => decode_step(join_with(r, ' '), s, o),
            Err(e) => Err(e),
        },
{
    assert(records.push(r).drop_last() =~= records);
}

/// A builder whose first `n` rows hold those of `s`.
pub open spec fn rows_filled(b: PaneSurfaceView, s: PaneSurfaceView, n: int) -> PaneSurfaceView {
    PaneSurfaceView {
        row_text: Seq::new(
            b.row_text.len(),
            |i: int|
                if i < n {
                    s.row_text[i]
                } else {
                    b.row_text[i]
                },
        ),
        row_runs: Seq::new(
            b.row_runs.len(),
            |i: int|
                if i < n {
                    s.row_runs[i]
                } else {
                    b.row_runs[i]
                },
        ),
        row_dirty_hashes: Seq::new(
            b.row_dirty_hashes.len(),
            |i: int|
                if i < n {
                    s.row_dirty_hashes[i]
                } else {
                    b.row_dirty_hashes[i]
                },
        ),
        row_semantic_prompts: Seq::new(
            b.row_semantic_prompts.len(),
            |i: int|
                if i < n {
                    s.row_semantic_prompts[i]
                } else {
                    b.row_semantic_prompts[i]
                },
        ),
        row_dirty: Seq::new(
            b.row_dirty.len(),
            |i: int|
                if i < n {
                    s.row_dirty[i]
                } else {
                    b.row_dirty[i]
                },
        ),
        row_kitty_placeholders: Seq::new(
            b.row_kitty_placeholders.len(),
            |i: int|
                if i < n {
                    s.row_kitty_placeholders[i]
                } else {
                    b.row_kitty_placeholders[i]
                },
        ),
        row_state_hashes: Seq::new(
            b.row_state_hashes.len(),
            |i: int|
                if i < n {
                    s.row_state_hashes[i]
                } else {
                    b.row_state_hashes[i]
                },
        ),
        ..b
    }
}

/// Rows whose prompt and run contents are known kinds, as the reader
/// requires.
pub open spec fn rows_known(s: PaneSurfaceView) -> bool {
    &&& forall|i: int|
        0 <= i < s.row_semantic_prompts.len() ==> (#[trigger] s.row_semantic_prompts[i]).is_known()
    &&& forall|i: int, k: int|
        0 <= i < s.row_runs.len() && 0 <= k < s.row_runs[i].len() ==> (
        #[trigger] s.row_runs[i][k]).semantic_content.is_known()
}

pub proof fn lemma_rows_steps(s: PaneSurfaceView, n: int, st: AttachStateView, b: PaneSurfaceView)
    requires
        s.rows_consistent(),
        b.rows_consistent(),
        b.rows == s.rows,
        0 <= n <= s.row_text.len(),
        forall|i: int| 0 <= i < b.row_runs.len() ==> (#[trigger] b.row_runs[i]).len() == 0,
        rows_known(s),
    ensures
        apply_records(rows_records(s, n as nat), st, Some(b)) == Ok::<
            (AttachStateView, Option<PaneSurfaceView>),
            StateError,
        >((st, Some(rows_filled(b, s, n)))),
    decreases n,
{
    if n == 0 {
        assert(rows_filled(b, s, 0) =~= b);
        assert(rows_records(s, 0) =~= Seq::<Seq<Seq<char>>>::empty());
    } else {
        let m = n - 1;
        lemma_rows_steps(s, m, st, b);
        let mid = rows_filled(b, s, m);
        lemma_apply_concat(rows_records(s, m as nat), row_records(s, m), st, Some(b));
        lemma_row_records_ok(s, m);
        let recs = row_records(s, m);
        assert(recs[0] == row_record(s, m));
        assert(recs[1] == rowmeta_record(s, m));
        let runs = s.row_runs[m];
        let run_recs = Seq::new(runs.len(), |k: int| run_record(m, runs[k]));
        assert(recs =~= seq![row_record(s, m), rowmeta_record(s, m)] + run_recs);
        lemma_apply_concat(seq![row_record(s, m), rowmeta_record(s, m)], run_recs, st, Some(mid));
        assert(seq![row_record(s, m), rowmeta_record(s, m)] =~= seq![row_record(s, m)].push(
            rowmeta_record(s, m),
        ));
        lemma_apply_push(seq![row_record(s, m)], rowmeta_record(s, m), st, Some(mid));
        lemma_apply_one(row_record(s, m), st, Some(mid));
        lemma_body_step(row_record(s, m), st, mid);
        lemma_row_line(s, m, mid);
        let mid1 = PaneSurfaceView { row_text: mid.row_text.update(m, s.row_text[m]), ..mid };
        lemma_body_step(rowmeta_record(s, m), st, mid1);
        lemma_rowmeta_line(s, m, mid1);
        let mid2 = PaneSurfaceView {
            row_semantic_prompts: mid1.row_semantic_prompts.update(m, s.row_semantic_prompts[m]),
            row_dirty: mid1.row_dirty.update(m, s.row_dirty[m]),
            row_kitty_placeholders: mid1.row_kitty_placeholders.update(m, s.row_kitty_placeholders[m]),
            row_state_hashes: mid1.row_state_hashes.update(m, s.row_state_hashes[m]),
            row_dirty_hashes: mid1.row_dirty_hashes.update(m, s.row_dirty_hashes[m]),
            ..mid1
        };
        assert forall|k: int| 0 <= k < runs.len() implies (
        #[trigger] runs[k]).semantic_content.is_known() by {
            assert(s.row_runs[m][k] == runs[k]);
        }
        lemma_runs_steps(m, runs, st, mid2);
        assert(mid2.row_runs[m] == b.row_runs[m]);
        assert(b.row_runs[m].len() == 0);
        assert(b.row_runs[m] + runs =~= runs);
        let done = PaneSurfaceView { row_runs: mid2.row_runs.update(m, mid2.row_runs[m] + runs), ..mid2 };
        assert(done =~= rows_filled(b, s, n));
    }
}

/// What reading back gives of a cached surface: runs that do not spell
/// their row's text become one plain run.
pub open spec fn normalized_surface(s: PaneSurfaceView) -> PaneSurfaceView {
    PaneSurfaceView { row_runs: normalized_runs(s.row_text, s.row_runs), ..s }
}

pub proof fn lemma_first_failure_ok<A>(
    items: Seq<A>,
    check: spec_fn(A) -> Result<(), crate::surface::SurfaceError>,
)
    requires
        forall|k: int| 0 <= k < items.len() ==> check(#[trigger] items[k]) == Ok::<
            (),
            crate::surface::SurfaceError,
        >(()),
    ensures
        first_failure(items, check) == Ok::<(), crate::surface::SurfaceError>(()),
    decreases items.len(),
{
    if items.len() > 0 {
        let front = items.drop_last();
        assert forall|k: int| 0 <= k < front.len() implies check(#[trigger] front[k]) == Ok::<
            (),
            crate::surface::SurfaceError,
        >(()) by {
            assert(front[k] == items[k]);
        }
        lemma_first_failure_ok(front, check);
        assert(check(items[items.len() - 1]) == Ok::<(), crate::surface::SurfaceError>(()));
    }
}

pub proof fn lemma_finish_valid(s: PaneSurfaceView)
    requires
        s.valid(),
    ensures
        finish_surface(s) == Ok::<PaneSurfaceView, StateError>(normalized_surface(s)),
{
    reveal(finish_surface);
    let runs = normalized_runs(s.row_text, s.row_runs);
    let style_check = runs_style_check(s.styles);
    let link_check = runs_hyperlink_check(s.hyperlinks);
    assert forall|k: int| 0 <= k < runs.len() implies style_check(#[trigger] runs[k]) == Ok::<
        (),
        crate::surface::SurfaceError,
    >(()) && link_check(runs[k]) == Ok::<(), crate::surface::SurfaceError>(()) by {
        lemma_plain_run_valid(s.row_text[k], s.styles, s.hyperlinks);
        assert(first_failure(s.row_runs[k], style_id_check(style_count(s.styles.len()))) == Ok::<
            (),
            crate::surface::SurfaceError,
        >(()));
        assert(first_failure(s.row_runs[k], hyperlink_id_check(s.hyperlinks)) == Ok::<
            (),
            crate::surface::SurfaceError,
        >(()));
    }
    lemma_first_failure_ok(runs, style_check);
    lemma_first_failure_ok(runs, link_check);
}

/// The first six records of a surface open it and set its cursor, modes,
/// title, working directory and colors.
proof fn lemma_surface_head_steps(s: PaneSurfaceView, st: AttachStateView)
    requires
        s.valid(),
    ensures
        apply_records(
            seq![
                surface_header_record(s),
                cursor_record(s.cursor),
                modes_record(s.modes),
                seq!["title"@, hex_text(s.title)],
                seq!["pwd"@, hex_text(s.working_directory)],
                colors_record(s.colors),
            ],
            st,
            None,
        ) == Ok::<(AttachStateView, Option<PaneSurfaceView>), StateError>(
            (
                st,
                Some(
                    PaneSurfaceView {
                        cursor: s.cursor,
                        modes: s.modes,
                        title: s.title,
                        working_directory: s.working_directory,
                        colors: s.colors,
                        ..blank_surface(s.pane_id, s.version, s.cols, s.rows, s.surface)
                    },
                ),
            ),
        ),
{
    let h0 = surface_header_record(s);
    let h1 = cursor_record(s.cursor);
    let h2 = modes_record(s.modes);
    let h3 = seq!["title"@, hex_text(s.title)];
    let h4 = seq!["pwd"@, hex_text(s.working_directory)];
    let h5 = colors_record(s.colors);
    lemma_header_records_ok(s);
    assert(seq![h0, h1, h2, h3, h4, h5] =~= seq![h0].push(h1).push(h2).push(h3).push(h4).push(h5));
    let b0 = blank_surface(s.pane_id, s.version, s.cols, s.rows, s.surface);
    lemma_apply_one(h0, st, None);
    lemma_surface_line_step(s, st);
    lemma_apply_push(seq![h0], h1, st, None);
    lemma_body_step(h1, st, b0);
    lemma_cursor_line(s.cursor, b0);
    let b1 = PaneSurfaceView { cursor: s.cursor, ..b0 };
    lemma_apply_push(seq![h0].push(h1), h2, st, None);
    lemma_body_step(h2, st, b1);
    lemma_modes_line(s.modes, b1);
    let b2 = PaneSurfaceView { modes: s.modes, ..b1 };
    lemma_apply_push(seq![h0].push(h1).push(h2), h3, st, None);
    lemma_body_step(h3, st, b2);
    lemma_text_lines(s, b2);
    let b3 = PaneSurfaceView { title: s.title, ..b2 };
    lemma_apply_push(seq![h0].push(h1).push(h2).push(h3), h4, st, None);
    lemma_body_step(h4, st, b3);
    lemma_text_lines(s, b3);
    let b4 = PaneSurfaceView { working_directory: s.working_directory, ..b3 };
    lemma_apply_push(seq![h0].push(h1).push(h2).push(h3).push(h4), h5, st, None);
    lemma_body_step(h5, st, b4);
    lemma_colors_line(s.colors, b4);
}

/// The records of a valid surface read back as the surface, its runs
/// normalized.
pub proof fn lemma_surface_steps(s: PaneSurfaceView, st: AttachStateView)
    requires
        s.valid(),
        rows_known(s),
    ensures
        apply_records(surface_records(s), st, None) == Ok::<
            (AttachStateView, Option<PaneSurfaceView>),
            StateError,
        >((AttachStateView { surfaces: st.surfaces.push(normalized_surface(s)), ..st }, None)),
{
    let head = seq![
        surface_header_record(s),
        cursor_record(s.cursor),
        modes_record(s.modes),
        seq!["title"@, hex_text(s.title)],
        seq!["pwd"@, hex_text(s.working_directory)],
        colors_record(s.colors),
    ];
    let styles = Seq::new(s.styles.len(), |k: int| style_record(s.styles[k]));
    let links = Seq::new(s.hyperlinks.len(), |k: int| hyperlink_record(s.hyperlinks[k]));
    let rows = rows_records(s, s.row_text.len());
    let end = seq![seq!["end"@]];
    assert(surface_records(s) == head + styles + links + rows + end);
    lemma_apply_concat(head + styles + links + rows, end, st, None);
    lemma_apply_concat(head + styles + links, rows, st, None);
    lemma_apply_concat(head + styles, links, st, None);
    lemma_apply_concat(head, styles, st, None);
    lemma_surface_head_steps(s, st);
    let b5 = PaneSurfaceView {
        cursor: s.cursor,
        modes: s.modes,
        title: s.title,
        working_directory: s.working_directory,
        colors: s.colors,
        ..blank_surface(s.pane_id, s.version, s.cols, s.rows, s.surface)
    };
    lemma_styles_steps(s.styles, st, b5);
    assert(b5.styles + s.styles =~= s.styles);
    let b6 = PaneSurfaceView { styles: s.styles, ..b5 };
    lemma_hyperlinks_steps(s.hyperlinks, st, b6);
    assert(b6.hyperlinks + s.hyperlinks =~= s.hyperlinks);
    let b7 = PaneSurfaceView { hyperlinks: s.hyperlinks, ..b6 };
    assert(b7.rows_consistent());
    lemma_rows_steps(s, s.row_text.len() as int, st, b7);
    let filled = rows_filled(b7, s, s.row_text.len() as int);
    assert(filled.row_text =~= s.row_text);
    assert(filled.row_runs =~= s.row_runs);
    assert(filled.row_dirty_hashes =~= s.row_dirty_hashes);
    assert(filled.row_semantic_prompts =~= s.row_semantic_prompts);
    assert(filled.row_dirty =~= s.row_dirty);
    assert(filled.row_kitty_placeholders =~= s.row_kitty_placeholders);
    assert(filled.row_state_hashes =~= s.row_state_hashes);
    assert(filled == s);
    lemma_apply_one(seq!["end"@], st, Some(s));
    lemma_keywords();
    assert(join_with(seq!["end"@], ' ') == "end"@);
    reveal(decode_step);
    lemma_finish_valid(s);
}

pub proof fn lemma_surfaces_steps(surfaces: Seq<PaneSurfaceView>, st: AttachStateView)
    requires
        forall|k: int|
            0 <= k < surfaces.len() ==> (#[trigger] surfaces[k]).valid() && rows_known(surfaces[k]),
    ensures
        apply_records(surfaces_records(surfaces), st, None) == Ok::<
            (AttachStateView, Option<PaneSurfaceView>),
            StateError,
        >(
            (
                AttachStateView {
                    surfaces: st.surfaces + Seq::new(
                        surfaces.len(),
                        |k: int| normalized_surface(surfaces[k]),
                    ),
                    ..st
                },
                None,
            ),
        ),
    decreases surfaces.len(),
{
    if surfaces.len() == 0 {
        assert(st.surfaces + Seq::new(0, |k: int| normalized_surface(surfaces[k])) =~= st.surfaces);
        assert(AttachStateView { surfaces: st.surfaces, ..st } == st);
    } else {
        let front = surfaces.drop_last();
        assert forall|k: int| 0 <= k < front.len() implies (#[trigger] front[k]).valid() && rows_known(
            front[k],
        ) by {
            assert(front[k] == surfaces[k]);
        }
        lemma_surfaces_steps(front, st);
        lemma_apply_concat(surfaces_records(front), surface_records(surfaces.last()), st, None);
        let mid = AttachStateView {
            surfaces: st.surfaces + Seq::new(front.len(), |k: int| normalized_surface(front[k])),
            ..st
        };
        assert(surfaces[surfaces.len() - 1].valid() && rows_known(surfaces[surfaces.len() - 1]));
        lemma_surface_steps(surfaces.last(), mid);
        assert(mid.surfaces.push(normalized_surface(surfaces.last())) =~= st.surfaces + Seq::new(
            surfaces.len(),
            |k: int| normalized_surface(surfaces[k]),
        ));
    }
}

pub proof fn lemma_scrollbacks_steps(scrollbacks: Seq<ScrollbackView>, st: AttachStateView)
    requires
        forall|k: int|
            0 <= k < scrollbacks.len() ==> (#[trigger] scrollbacks[k]).start_line != 0
                && scrollbacks[k].line_count != 0,
    ensures
        apply_records(
            Seq::new(scrollbacks.len(), |k: int| scrollback_record(scrollbacks[k])),
            st,
            None,
        ) == Ok::<(AttachStateView, Option<PaneSurfaceView>), StateError>(
            (AttachStateView { scrollbacks: st.scrollbacks + scrollbacks, ..st }, None),
        ),
    decreases scrollbacks.len(),
{
    let records = Seq::new(scrollbacks.len(), |k: int| scrollback_record(scrollbacks[k]));
    if scrollbacks.len() == 0 {
        assert(st.scrollbacks + scrollbacks =~= st.scrollbacks);
        assert(AttachStateView { scrollbacks: st.scrollbacks, ..st } == st);
    } else {
        let front = scrollbacks.drop_last();
        assert forall|k: int| 0 <= k < front.len() implies (#[trigger] front[k]).start_line != 0
            && front[k].line_count != 0 by {
            assert(front[k] == scrollbacks[k]);
        }
        lemma_scrollbacks_steps(front, st);
        assert(records.drop_last() =~= Seq::new(front.len(), |k: int| scrollback_record(front[k])));
        let mid = AttachStateView { scrollbacks: st.scrollbacks + front, ..st };
        let last = scrollbacks.last();
        assert(last == scrollbacks[scrollbacks.len() - 1]);
        lemma_scrollback_step(last, mid);
        assert(records.last() == scrollback_record(last));
        assert(mid.scrollbacks.push(last) =~= st.scrollbacks + scrollbacks);
    }
}

// ---------------------------------------------------------------------------
// The whole state
// ---------------------------------------------------------------------------

/// A cache the reader accepts back: valid surfaces whose rows hold known
/// kinds, and scrollback ranges numbered from 1 and not empty.
pub open spec fn persistable(st: AttachStateView) -> bool {
    &&& st.valid()
    &&& forall|k: int| 0 <= k < st.surfaces.len() ==> rows_known(#[trigger] st.surfaces[k])
    &&& forall|k: int|
        0 <= k < st.scrollbacks.len() ==> (#[trigger] st.scrollbacks[k]).start_line != 0
            && st.scrollbacks[k].line_count != 0
}

/// The cache with every surface's runs normalized.
pub open spec fn normalized_state(st: AttachStateView) -> AttachStateView {
    AttachStateView {
        surfaces: Seq::new(st.surfaces.len(), |k: int| normalized_surface(st.surfaces[k])),
        ..st
    }
}

/// Reading back what `encode` writes gives the cache that was written,
/// except that runs which do not spell their row's text come back as one
/// plain run of that text.
pub proof fn lemma_state_round_trip(st: AttachStateView)
    requires
        persistable(st),
    ensures
        decoded(encoded(st)) == Ok::<AttachStateView, StateError>(normalized_state(st)),
{
    let records = state_records(st);
    let lines = record_lines(records);
    lemma_state_records_ok(st);
    assert forall|k: int| 0 <= k < lines.len() implies crate::text::plain_line(#[trigger] lines[k]) by {
        assert(record_ok(records[k]));
        lemma_record_line(records[k]);
    }
    crate::text::lemma_lines_round_trip(lines);
    lemma_keywords();
    assert(records[0] == header_record());
    assert(lines[0] == "NMUX_CLIENT_STATE 8"@);
    assert(is_state_header(lines[0]));
    lemma_decode_from_records(records, 1, AttachStateView::empty(), None);
    let scope_part: Seq<Seq<Seq<char>>> = match st.scope {
        Some(sc) => seq![scope_record(sc)],
        None => Seq::empty(),
    };
    let scrollback_part = Seq::new(st.scrollbacks.len(), |k: int| scrollback_record(st.scrollbacks[k]));
    let surface_part = surfaces_records(st.surfaces);
    assert(records.subrange(1, records.len() as int) =~= scope_part + scrollback_part + surface_part);
    lemma_apply_concat(scope_part + scrollback_part, surface_part, AttachStateView::empty(), None);
    lemma_apply_concat(scope_part, scrollback_part, AttachStateView::empty(), None);
    let scoped = AttachStateView { scope: st.scope, ..AttachStateView::empty() };
    match st.scope {
        Some(sc) => {
            lemma_apply_one(scope_record(sc), AttachStateView::empty(), None);
            lemma_scope_step(sc, AttachStateView::empty());
        },
        None => {
            assert(scoped == AttachStateView::empty());
        },
    }
    lemma_scrollbacks_steps(st.scrollbacks, scoped);
    assert(scoped.scrollbacks + st.scrollbacks =~= st.scrollbacks);
    let listed = AttachStateView { scrollbacks: st.scrollbacks, ..scoped };
    assert forall|k: int| 0 <= k < st.surfaces.len() implies (#[trigger] st.surfaces[k]).valid()
        && rows_known(st.surfaces[k]) by {}
    lemma_surfaces_steps(st.surfaces, listed);
    assert(listed.surfaces + Seq::new(
        st.surfaces.len(),
        |k: int| normalized_surface(st.surfaces[k]),
    ) =~= normalized_state(st).surfaces);
}

/// Runs that already spell their rows are left as they are: such a cache
/// reads back exactly.
pub proof fn lemma_normalized_when_runs_spell_rows(st: AttachStateView)
    requires
        forall|k: int, i: int|
            0 <= k < st.surfaces.len() && 0 <= i < st.surfaces[k].row_text.len() && i
                < st.surfaces[k].row_runs.len() ==> #[trigger] st.surfaces[k].row_runs[i].len() > 0
                && crate::render::runs_text(st.surfaces[k].row_runs[i])
                == st.surfaces[k].row_text[i],
    ensures
        normalized_state(st) == st,
{
    assert forall|k: int| 0 <= k < st.surfaces.len() implies #[trigger] normalized_surface(
        st.surfaces[k],
    ) == st.surfaces[k] by {
        let s = st.surfaces[k];
        assert(normalized_runs(s.row_text, s.row_runs) =~= s.row_runs);
    }
    assert(normalized_state(st).surfaces =~= st.surfaces);
}

} // verus!
