use vstd::prelude::*;

use crate::surface::{
    CellRunSummary, CellRunView, ClientPaneSurface, PaneSurfaceView,
    StyleSummary, SurfaceRowUpdate, plain_run,
};
use crate::text::{decimal, join_with, lemma_join_push, push_char, push_decimal, push_str};

verus! {

broadcast use vstd::seq::group_seq_axioms;

// ---------------------------------------------------------------------------
// Plain text of a surface
// ---------------------------------------------------------------------------

/// The number of rows up to and including the last non-empty one.
pub open spec fn visible_rows(rows: Seq<Seq<char>>) -> nat
    decreases rows.len(),
{
    if rows.len() == 0 {
        0
    } else if rows.last().len() > 0 {
        rows.len()
    } else {
        visible_rows(rows.drop_last())
    }
}

pub proof fn lemma_visible_rows_bound(rows: Seq<Seq<char>>)
    ensures
        visible_rows(rows) <= rows.len(),
        visible_rows(rows) > 0 ==> rows[visible_rows(rows) - 1].len() > 0,
        forall|i: int| visible_rows(rows) <= i < rows.len() ==> (#[trigger] rows[i]).len() == 0,
    decreases rows.len(),
{
    if rows.len() > 0 && rows.last().len() == 0 {
        lemma_visible_rows_bound(rows.drop_last());
        assert forall|i: int| visible_rows(rows) <= i < rows.len() implies (
        #[trigger] rows[i]).len() == 0 by {
            if i < rows.len() - 1 {
                assert(rows[i] == rows.drop_last()[i]);
            }
        }
    }
}

/// A trailing empty row adds nothing to a surface's text; a last row with
/// text shows every row before it, empty ones included, each ended by a
/// line feed, then that row.
pub proof fn lemma_surface_text_last_row(s: PaneSurfaceView, t: PaneSurfaceView, x: Seq<char>)
    requires
        t.row_text == s.row_text.push(x),
    ensures
        x.len() == 0 ==> surface_text(t) == surface_text(s),
        x.len() > 0 && s.row_text.len() == 0 ==> surface_text(t) == x,
        x.len() > 0 && s.row_text.len() > 0 ==> surface_text(t) == join_with(s.row_text, '\n')
            + seq!['\n'] + x,
        x.len() > 0 && s.row_text.len() == 1 ==> surface_text(t) == s.row_text[0] + seq!['\n'] + x,
{
    let rows = t.row_text;
    assert(rows.drop_last() =~= s.row_text);
    assert(rows.last() == x);
    if x.len() == 0 {
        assert(rows.take(visible_rows(rows) as int) =~= s.row_text.take(visible_rows(s.row_text) as int)) by {
            lemma_visible_rows_bound(s.row_text);
        }
    } else {
        assert(rows.take(rows.len() as int) =~= rows);
        if s.row_text.len() > 0 {
            assert(rows.len() > 1);
        } else {
            assert(rows.len() == 1);
        }
    }
    if s.row_text.len() == 1 {
        assert(join_with(s.row_text, '\n') == s.row_text[0]);
    }
}

/// The visible rows joined by line feeds.
pub open spec fn surface_text(s: PaneSurfaceView) -> Seq<char> {
    join_with(s.row_text.take(visible_rows(s.row_text) as int), '\n')
}

/// Joins strings with a separator between neighbours.
pub fn join_strings(parts: &Vec<String>, count: usize, sep: char) -> (joined: String)
    requires
        count <= parts@.len(),
    ensures
        joined@ == join_with(parts.deep_view().take(count as int), sep),
{
    let ghost all = parts.deep_view();
    let mut joined = String::new();
    let mut i: usize = 0;
    while i < count
        invariant
            all == parts.deep_view(),
            count <= parts@.len(),
            0 <= i <= count,
            joined@ == join_with(all.take(i as int), sep),
        decreases count - i,
    {
        if i > 0 {
            push_char(&mut joined, sep);
        }
        push_str(&mut joined, parts[i].as_str());
        proof {
            let t = all.take(i + 1);
            assert(t.drop_last() =~= all.take(i as int));
            assert(t.last() == parts@[i as int]@);
            if i == 0 {
                assert(joined@ =~= join_with(t, sep));
            } else {
                assert(joined@ =~= join_with(t, sep));
            }
        }
        i = i + 1;
    }
    joined
}

impl ClientPaneSurface {
    pub fn visible_row_count(&self) -> (count: usize)
        ensures
            count == visible_rows(self@.row_text),
    {
        let ghost rows = self@.row_text;
        let mut i: usize = self.row_text.len();
        assert(rows.take(i as int) =~= rows);
        while i > 0 && self.row_text[i - 1].as_str().is_empty()
            invariant
                rows == self@.row_text,
                i <= rows.len(),
                visible_rows(rows) == visible_rows(rows.take(i as int)),
            decreases i,
        {
            proof {
                assert(rows.take(i as int).drop_last() =~= rows.take(i - 1));
                assert(rows.take(i as int).last() == self.row_text@[i - 1]@);
            }
            i = i - 1;
        }
        proof {
            if i > 0 {
                assert(rows.take(i as int).last() == self.row_text@[i - 1]@);
            }
        }
        i
    }

    /// The visible rows as plain text, one line per row.
    pub fn render_text(&self) -> (text: String)
        ensures
            text@ == surface_text(self@),
    {
        let visible = self.visible_row_count();
        proof {
            lemma_visible_rows_bound(self@.row_text);
        }
        join_strings(&self.row_text, visible, '\n')
    }
}

// ---------------------------------------------------------------------------
// SGR styling
// ---------------------------------------------------------------------------

/// A style that differs from the terminal default in color or attributes.
pub open spec fn style_visible(style: StyleSummary) -> bool {
    style.fg_rgba != 0 || style.bg_rgba != 0 || style.flags != 0
}

pub open spec fn opt_param(present: bool, param: Seq<char>) -> Seq<Seq<char>> {
    if present {
        seq![param]
    } else {
        Seq::empty()
    }
}

/// A truecolor parameter: `prefix` then the red, green and blue bytes of a
/// big-endian RGBA value.
pub open spec fn color_param(prefix: Seq<char>, rgba: u32) -> Seq<char> {
    prefix + decimal((rgba >> 24u32) as nat) + seq![';'] + decimal(((rgba >> 16u32) & 0xffu32) as nat)
        + seq![';'] + decimal(((rgba >> 8u32) & 0xffu32) as nat)
}

/// Single underline wins over double; curly, dotted and dashed fall back
/// to single.
pub open spec fn underline_params(flags: u32) -> Seq<Seq<char>> {
    if flags & 0x100u32 != 0 {
        seq!["4"@]
    } else if flags & 0x200u32 != 0 {
        seq!["21"@]
    } else if flags & 0x1c00u32 != 0 {
        seq!["4"@]
    } else {
        Seq::empty()
    }
}

/// The SGR parameters of a style's attribute flags: bold, faint, italic,
/// underline, blink, inverse, invisible, strikethrough, overline.
pub open spec fn flag_params(f: u32) -> Seq<Seq<char>> {
    weight_params(f) + effect_params(f)
}

/// The SGR parameters of a style: its flags, then foreground and
/// background colors.
pub open spec fn sgr_params(style: StyleSummary) -> Seq<Seq<char>> {
    flag_params(style.flags) + opt_param(style.fg_rgba != 0, color_param("38;2;"@, style.fg_rgba))
        + opt_param(style.bg_rgba != 0, color_param("48;2;"@, style.bg_rgba))
}

/// The escape sequence that selects a style; empty when it has no parameter.
pub open spec fn sgr(style: StyleSummary) -> Seq<char> {
    let params = sgr_params(style);
    if params.len() == 0 {
        Seq::empty()
    } else {
        "\x1b["@ + join_with(params, ';') + "m"@
    }
}

/// Appends `text` as one more `;`-separated parameter if `present`.
fn append_param(
    body: &mut String,
    count: &mut usize,
    Ghost(params): Ghost<Seq<Seq<char>>>,
    present: bool,
    text: &str,
) -> (next: Ghost<Seq<Seq<char>>>)
    requires
        old(body)@ == join_with(params, ';'),
        *old(count) == params.len(),
        params.len() < 16,
    ensures
        next@ == params + opt_param(present, text@),
        final(body)@ == join_with(next@, ';'),
        *final(count) == next@.len(),
{
    if present {
        if *count > 0 {
            push_char(body, ';');
        }
        push_str(body, text);
        *count = *count + 1;
        proof {
            lemma_join_push(params, text@, ';');
            assert(params + opt_param(present, text@) =~= params.push(text@));
        }
    } else {
        assert(params + opt_param(present, text@) =~= params);
    }
    Ghost(params + opt_param(present, text@))
}

/// Bold, faint, italic and underline.
pub open spec fn weight_params(f: u32) -> Seq<Seq<char>> {
    opt_param(f & 0x1u32 != 0, "1"@) + opt_param(f & 0x4u32 != 0, "2"@) + opt_param(
        f & 0x2u32 != 0,
        "3"@,
    ) + underline_params(f)
}

/// Blink, inverse, invisible, strikethrough and overline.
pub open spec fn effect_params(f: u32) -> Seq<Seq<char>> {
    opt_param(f & 0x8u32 != 0, "5"@) + opt_param(f & 0x10u32 != 0, "7"@) + opt_param(
        f & 0x20u32 != 0,
        "8"@,
    ) + opt_param(f & 0x40u32 != 0, "9"@) + opt_param(f & 0x80u32 != 0, "53"@)
}

fn push_weight_params(body: &mut String, count: &mut usize, f: u32) -> (next: Ghost<Seq<Seq<char>>>)
    requires
        old(body)@.len() == 0,
        *old(count) == 0,
    ensures
        next@ == weight_params(f),
        final(body)@ == join_with(next@, ';'),
        *final(count) == next@.len(),
{
    let ghost empty: Seq<Seq<char>> = Seq::empty();
    assert(body@ =~= join_with(empty, ';'));
    let p = append_param(body, count, Ghost(empty), f & 0x1u32 != 0, "1");
    let p = append_param(body, count, p, f & 0x4u32 != 0, "2");
    let p = append_param(body, count, p, f & 0x2u32 != 0, "3");
    let ghost before = p@;
    let p = if f & 0x100u32 != 0 {
        append_param(body, count, p, true, "4")
    } else if f & 0x200u32 != 0 {
        append_param(body, count, p, true, "21")
    } else {
        append_param(body, count, p, f & 0x1c00u32 != 0, "4")
    };
    assert(p@ =~= before + underline_params(f));
    assert(p@ =~= weight_params(f));
    p
}

fn push_effect_params(
    body: &mut String,
    count: &mut usize,
    Ghost(params): Ghost<Seq<Seq<char>>>,
    f: u32,
) -> (next: Ghost<Seq<Seq<char>>>)
    requires
        old(body)@ == join_with(params, ';'),
        *old(count) == params.len(),
        params.len() <= 4,
    ensures
        next@ == params + effect_params(f),
        final(body)@ == join_with(next@, ';'),
        *final(count) == next@.len(),
{
    let p = append_param(body, count, Ghost(params), f & 0x8u32 != 0, "5");
    let p = append_param(body, count, p, f & 0x10u32 != 0, "7");
    let p = append_param(body, count, p, f & 0x20u32 != 0, "8");
    let p = append_param(body, count, p, f & 0x40u32 != 0, "9");
    let p = append_param(body, count, p, f & 0x80u32 != 0, "53");
    assert(p@ =~= params + effect_params(f));
    p
}

fn color_param_of(prefix: &str, rgba: u32) -> (param: String)
    ensures
        param@ == color_param(prefix@, rgba),
{
    let mut param = String::new();
    push_str(&mut param, prefix);
    push_decimal(&mut param, (rgba >> 24u32) as u64);
    push_char(&mut param, ';');
    push_decimal(&mut param, ((rgba >> 16u32) & 0xffu32) as u64);
    push_char(&mut param, ';');
    push_decimal(&mut param, ((rgba >> 8u32) & 0xffu32) as u64);
    assert(param@ =~= color_param(prefix@, rgba));
    param
}

/// Which masks a flag word with at most one attribute bit set meets.
proof fn lemma_single_flag_masks(f: u32)
    by (bit_vector)
    requires
        f == 0u32 || f == 0x1u32 || f == 0x2u32 || f == 0x4u32 || f == 0x8u32 || f == 0x10u32 || f
            == 0x20u32 || f == 0x40u32 || f == 0x80u32 || f == 0x100u32 || f == 0x200u32 || f
            == 0x400u32 || f == 0x800u32 || f == 0x1000u32,
    ensures
        (f & 0x1u32 != 0) == (f == 0x1u32),
        (f & 0x2u32 != 0) == (f == 0x2u32),
        (f & 0x4u32 != 0) == (f == 0x4u32),
        (f & 0x8u32 != 0) == (f == 0x8u32),
        (f & 0x10u32 != 0) == (f == 0x10u32),
        (f & 0x20u32 != 0) == (f == 0x20u32),
        (f & 0x40u32 != 0) == (f == 0x40u32),
        (f & 0x80u32 != 0) == (f == 0x80u32),
        (f & 0x100u32 != 0) == (f == 0x100u32),
        (f & 0x200u32 != 0) == (f == 0x200u32),
        (f & 0x1c00u32 != 0) == (f == 0x400u32 || f == 0x800u32 || f == 0x1000u32),
{
}

proof fn lemma_sgr_of_one_param(style: StyleSummary, param: Seq<char>)
    requires
        sgr_params(style) =~= seq![param],
    ensures
        sgr(style) == "\x1b["@ + param + "m"@,
{
}

/// A style without colors and with a single attribute flag selects exactly
/// that attribute: bold 1, italic 3, faint 2, blink 5, inverse 7,
/// invisible 8, strikethrough 9, overline 53, double underline 21, and
/// single, curly, dotted or dashed underline 4. Without colors or flags it
/// selects nothing.
pub proof fn lemma_sgr_single_attribute(style: StyleSummary)
    requires
        style.fg_rgba == 0,
        style.bg_rgba == 0,
    ensures
        style.flags == 0 ==> sgr(style) == Seq::<char>::empty(),
        style.flags == 0x1 ==> sgr(style) == "\x1b[1m"@,
        style.flags == 0x2 ==> sgr(style) == "\x1b[3m"@,
        style.flags == 0x4 ==> sgr(style) == "\x1b[2m"@,
        style.flags == 0x8 ==> sgr(style) == "\x1b[5m"@,
        style.flags == 0x10 ==> sgr(style) == "\x1b[7m"@,
        style.flags == 0x20 ==> sgr(style) == "\x1b[8m"@,
        style.flags == 0x40 ==> sgr(style) == "\x1b[9m"@,
        style.flags == 0x80 ==> sgr(style) == "\x1b[53m"@,
        style.flags == 0x100 ==> sgr(style) == "\x1b[4m"@,
        style.flags == 0x200 ==> sgr(style) == "\x1b[21m"@,
        style.flags == 0x400 || style.flags == 0x800 || style.flags == 0x1000 ==> sgr(style)
            == "\x1b[4m"@,
{
    let f = style.flags;
    if f == 0u32 || f == 0x1u32 || f == 0x2u32 || f == 0x4u32 || f == 0x8u32 || f == 0x10u32 || f
        == 0x20u32 || f == 0x40u32 || f == 0x80u32 || f == 0x100u32 || f == 0x200u32 || f
        == 0x400u32 || f == 0x800u32 || f == 0x1000u32 {
        lemma_single_flag_masks(f);
        reveal_strlit("\x1b[");
        reveal_strlit("m");
        if f == 0 {
            assert(sgr_params(style) =~= Seq::<Seq<char>>::empty());
        } else if f == 0x1 {
            lemma_sgr_of_one_param(style, "1"@);
            reveal_strlit("1");
            reveal_strlit("\x1b[1m");
            assert(sgr(style) =~= "\x1b[1m"@);
        } else if f == 0x2 {
            lemma_sgr_of_one_param(style, "3"@);
            reveal_strlit("3");
            reveal_strlit("\x1b[3m");
            assert(sgr(style) =~= "\x1b[3m"@);
        } else if f == 0x4 {
            lemma_sgr_of_one_param(style, "2"@);
            reveal_strlit("2");
            reveal_strlit("\x1b[2m");
            assert(sgr(style) =~= "\x1b[2m"@);
        } else if f == 0x8 {
            lemma_sgr_of_one_param(style, "5"@);
            reveal_strlit("5");
            reveal_strlit("\x1b[5m");
            assert(sgr(style) =~= "\x1b[5m"@);
        } else if f == 0x10 {
            lemma_sgr_of_one_param(style, "7"@);
            reveal_strlit("7");
            reveal_strlit("\x1b[7m");
            assert(sgr(style) =~= "\x1b[7m"@);
        } else if f == 0x20 {
            lemma_sgr_of_one_param(style, "8"@);
            reveal_strlit("8");
            reveal_strlit("\x1b[8m");
            assert(sgr(style) =~= "\x1b[8m"@);
        } else if f == 0x40 {
            lemma_sgr_of_one_param(style, "9"@);
            reveal_strlit("9");
            reveal_strlit("\x1b[9m");
            assert(sgr(style) =~= "\x1b[9m"@);
        } else if f == 0x80 {
            lemma_sgr_of_one_param(style, "53"@);
            reveal_strlit("53");
            reveal_strlit("\x1b[53m");
            assert(sgr(style) =~= "\x1b[53m"@);
        } else if f == 0x200 {
            lemma_sgr_of_one_param(style, "21"@);
            reveal_strlit("21");
            reveal_strlit("\x1b[21m");
            assert(sgr(style) =~= "\x1b[21m"@);
        } else {
            lemma_sgr_of_one_param(style, "4"@);
            reveal_strlit("4");
            reveal_strlit("\x1b[4m");
            assert(sgr(style) =~= "\x1b[4m"@);
        }
    }
}

proof fn lemma_underline_pair_masks(f: u32)
    by (bit_vector)
    requires
        f == 0x300u32 || f == 0x600u32,
    ensures
        f & 0x1u32 == 0 && f & 0x2u32 == 0 && f & 0x4u32 == 0 && f & 0x8u32 == 0 && f & 0x10u32 == 0
            && f & 0x20u32 == 0 && f & 0x40u32 == 0 && f & 0x80u32 == 0,
        (f & 0x100u32 != 0) == (f == 0x300u32),
        f & 0x200u32 != 0,
        f & 0x1c00u32 != 0 ==> f == 0x600u32,
{
}

/// Single underline wins over double underline, and double underline over
/// the curly, dotted and dashed kinds.
pub proof fn lemma_sgr_underline_precedence(style: StyleSummary)
    requires
        style.fg_rgba == 0,
        style.bg_rgba == 0,
    ensures
        style.flags == 0x300 ==> sgr(style) == "\x1b[4m"@,
        style.flags == 0x600 ==> sgr(style) == "\x1b[21m"@,
{
    let f = style.flags;
    if f == 0x300u32 || f == 0x600u32 {
        lemma_underline_pair_masks(f);
        reveal_strlit("\x1b[");
        reveal_strlit("m");
        if f == 0x300u32 {
            lemma_sgr_of_one_param(style, "4"@);
            reveal_strlit("4");
            reveal_strlit("\x1b[4m");
            assert(sgr(style) =~= "\x1b[4m"@);
        } else {
            lemma_sgr_of_one_param(style, "21"@);
            reveal_strlit("21");
            reveal_strlit("\x1b[21m");
            assert(sgr(style) =~= "\x1b[21m"@);
        }
    }
}

/// A style with only a foreground color selects it as a 24-bit foreground,
/// `ESC [ 38;2;R;G;B m`, with the red, green and blue bytes of the
/// big-endian RGBA value in decimal; with only a background color, as a
/// 24-bit background, `ESC [ 48;2;R;G;B m`.
pub proof fn lemma_sgr_single_color(style: StyleSummary)
    requires
        style.flags == 0,
    ensures
        style.fg_rgba != 0 && style.bg_rgba == 0 ==> sgr(style) == "\x1b[38;2;"@ + decimal(
            (style.fg_rgba >> 24u32) as nat,
        ) + seq![';'] + decimal(((style.fg_rgba >> 16u32) & 0xffu32) as nat) + seq![';'] + decimal(
            ((style.fg_rgba >> 8u32) & 0xffu32) as nat,
        ) + "m"@,
        style.fg_rgba == 0 && style.bg_rgba != 0 ==> sgr(style) == "\x1b[48;2;"@ + decimal(
            (style.bg_rgba >> 24u32) as nat,
        ) + seq![';'] + decimal(((style.bg_rgba >> 16u32) & 0xffu32) as nat) + seq![';'] + decimal(
            ((style.bg_rgba >> 8u32) & 0xffu32) as nat,
        ) + "m"@,
{
    lemma_single_flag_masks(0u32);
    reveal_strlit("\x1b[");
    reveal_strlit("\x1b[38;2;");
    reveal_strlit("\x1b[48;2;");
    reveal_strlit("38;2;");
    reveal_strlit("48;2;");
    if style.fg_rgba != 0 && style.bg_rgba == 0 {
        lemma_sgr_of_one_param(style, color_param("38;2;"@, style.fg_rgba));
        assert(sgr(style) =~= "\x1b[38;2;"@ + decimal((style.fg_rgba >> 24u32) as nat) + seq![';']
            + decimal(((style.fg_rgba >> 16u32) & 0xffu32) as nat) + seq![';'] + decimal(
            ((style.fg_rgba >> 8u32) & 0xffu32) as nat,
        ) + "m"@);
    }
    if style.fg_rgba == 0 && style.bg_rgba != 0 {
        lemma_sgr_of_one_param(style, color_param("48;2;"@, style.bg_rgba));
        assert(sgr(style) =~= "\x1b[48;2;"@ + decimal((style.bg_rgba >> 24u32) as nat) + seq![';']
            + decimal(((style.bg_rgba >> 16u32) & 0xffu32) as nat) + seq![';'] + decimal(
            ((style.bg_rgba >> 8u32) & 0xffu32) as nat,
        ) + "m"@);
    }
}

/// Runs whose styles select nothing render as their bare text; a run
/// styled with a visible style is wrapped in that style's escape and the
/// reset `ESC [ 0 m`; and a row of runs renders as its runs one after the
/// other.
pub proof fn lemma_styled_runs_text(styles: Seq<StyleSummary>, runs: Seq<CellRunView>, more: Seq<CellRunView>)
    ensures
        (forall|i: int|
            0 <= i < runs.len() ==> !((#[trigger] runs[i]).style_id < styles.len() && style_visible(
                styles[runs[i].style_id as int],
            ))) ==> styled_runs(styles, runs) == runs_text(runs),
        forall|run: CellRunView|
            run.style_id < styles.len() && style_visible(styles[run.style_id as int]) ==> #[trigger] styled_runs(
                styles,
                seq![run],
            ) == sgr(styles[run.style_id as int]) + run.text + seq!['\x1b', '[', '0', 'm'],
        styled_runs(styles, runs + more) == styled_runs(styles, runs) + styled_runs(styles, more),
    decreases more.len(),
{
    reveal_strlit("\x1b[0m");
    assert forall|run: CellRunView|
        run.style_id < styles.len() && style_visible(styles[run.style_id as int]) implies #[trigger] styled_runs(
            styles,
            seq![run],
        ) == sgr(styles[run.style_id as int]) + run.text + seq!['\x1b', '[', '0', 'm'] by {
        let one = seq![run];
        assert(one.drop_last() =~= Seq::<CellRunView>::empty());
        assert(one.last() == run);
        assert(styled_runs(styles, one.drop_last()) == Seq::<char>::empty());
        assert("\x1b[0m"@ =~= seq!['\x1b', '[', '0', 'm']);
        assert(styled_run(styles, run) == sgr(styles[run.style_id as int]) + run.text + "\x1b[0m"@);
        assert(styled_runs(styles, one) =~= styled_run(styles, run));
    }
    lemma_plain_runs(styles, runs);
    if more.len() > 0 {
        lemma_styled_runs_text(styles, runs, more.drop_last());
        assert((runs + more).drop_last() =~= runs + more.drop_last());
        assert((runs + more).last() == more.last());
    } else {
        assert(runs + more =~= runs);
    }
}

proof fn lemma_plain_runs(styles: Seq<StyleSummary>, runs: Seq<CellRunView>)
    ensures
        (forall|i: int|
            0 <= i < runs.len() ==> !((#[trigger] runs[i]).style_id < styles.len() && style_visible(
                styles[runs[i].style_id as int],
            ))) ==> styled_runs(styles, runs) == runs_text(runs),
    decreases runs.len(),
{
    if runs.len() > 0 {
        lemma_plain_runs(styles, runs.drop_last());
        if forall|i: int|
            0 <= i < runs.len() ==> !((#[trigger] runs[i]).style_id < styles.len() && style_visible(
                styles[runs[i].style_id as int],
            )) {
            assert forall|i: int| 0 <= i < runs.len() - 1 implies #[trigger] runs.drop_last()[i]
                == runs[i] by {}
            assert(runs.last() == runs[runs.len() - 1]);
        }
    }
}

/// The ANSI SGR escape sequence for a structured style.
#[verifier::spinoff_prover]
pub fn style_to_sgr(style: &StyleSummary) -> (escape: String)
    ensures
        escape@ == sgr(*style),
{
    let mut body = String::new();
    let mut count: usize = 0;
    let p = push_weight_params(&mut body, &mut count, style.flags);
    let p = push_effect_params(&mut body, &mut count, p, style.flags);
    let fg = color_param_of("38;2;", style.fg_rgba);
    let p = append_param(&mut body, &mut count, p, style.fg_rgba != 0, fg.as_str());
    let bg = color_param_of("48;2;", style.bg_rgba);
    let p = append_param(&mut body, &mut count, p, style.bg_rgba != 0, bg.as_str());
    assert(p@ == sgr_params(*style));
    if count == 0 {
        String::new()
    } else {
        let mut escape = String::new();
        push_str(&mut escape, "\x1b[");
        push_str(&mut escape, body.as_str());
        push_str(&mut escape, "m");
        escape
    }
}

/// A run with its style applied and reset, if its style is not the default.
pub open spec fn styled_run(styles: Seq<StyleSummary>, run: CellRunView) -> Seq<char> {
    if run.style_id < styles.len() && style_visible(styles[run.style_id as int]) {
        sgr(styles[run.style_id as int]) + run.text + "\x1b[0m"@
    } else {
        run.text
    }
}

pub open spec fn styled_runs(styles: Seq<StyleSummary>, runs: Seq<CellRunView>) -> Seq<char>
    decreases runs.len(),
{
    if runs.len() == 0 {
        Seq::empty()
    } else {
        styled_runs(styles, runs.drop_last()) + styled_run(styles, runs.last())
    }
}

/// A row with SGR styling from its runs; a row without runs is its text.
pub open spec fn styled_row(s: PaneSurfaceView, i: int) -> Seq<char> {
    if s.row_runs[i].len() == 0 {
        s.row_text[i]
    } else {
        styled_runs(s.styles, s.row_runs[i])
    }
}

/// The visible rows, styled, joined by line feeds.
pub open spec fn styled_text(s: PaneSurfaceView) -> Seq<char> {
    join_with(Seq::new(visible_rows(s.row_text), |i: int| styled_row(s, i)), '\n')
}

/// A surface whose style table holds a style other than the default one.
pub open spec fn has_styles(s: PaneSurfaceView) -> bool {
    exists|i: int| 0 <= i < s.styles.len() && #[trigger] style_visible(s.styles[i])
}

/// A surface has styles exactly when some entry of its style table has a
/// foreground, a background or an attribute flag; a table of default
/// styles only has none.
pub proof fn lemma_has_styles_fields(s: PaneSurfaceView)
    ensures
        has_styles(s) <==> exists|i: int|
            0 <= i < s.styles.len() && ((#[trigger] s.styles[i]).fg_rgba != 0 || s.styles[i].bg_rgba
                != 0 || s.styles[i].flags != 0),
        (forall|i: int|
            0 <= i < s.styles.len() ==> #[trigger] s.styles[i] == StyleSummary {
                fg_rgba: 0,
                bg_rgba: 0,
                underline_rgba: s.styles[i].underline_rgba,
                flags: 0,
            }) ==> !has_styles(s),
{
    if has_styles(s) {
        let i = choose|i: int| 0 <= i < s.styles.len() && #[trigger] style_visible(s.styles[i]);
        assert(s.styles[i].fg_rgba != 0 || s.styles[i].bg_rgba != 0 || s.styles[i].flags != 0);
    }
    if exists|i: int|
        0 <= i < s.styles.len() && ((#[trigger] s.styles[i]).fg_rgba != 0 || s.styles[i].bg_rgba
            != 0 || s.styles[i].flags != 0) {
        let i = choose|i: int|
            0 <= i < s.styles.len() && ((#[trigger] s.styles[i]).fg_rgba != 0 || s.styles[i].bg_rgba
                != 0 || s.styles[i].flags != 0);
        assert(style_visible(s.styles[i]));
    }
}

impl ClientPaneSurface {
    pub fn render_styled_row(&self, row_index: usize) -> (text: String)
        requires
            row_index < self@.row_runs.len(),
            self@.row_runs[row_index as int].len() == 0 ==> row_index < self@.row_text.len(),
        ensures
            text@ == styled_row(self@, row_index as int),
    {
        let runs = &self.row_runs[row_index];
        assert(self@.row_runs[row_index as int] == runs.deep_view());
        if runs.len() == 0 {
            return self.row_text[row_index].clone();
        }
        let ghost items = runs.deep_view();
        let mut output = String::new();
        let mut i: usize = 0;
        while i < runs.len()
            invariant
                items == runs.deep_view(),
                0 <= i <= runs@.len(),
                output@ == styled_runs(self@.styles, items.take(i as int)),
            decreases runs@.len() - i,
        {
            let run = &runs[i];
            assert(items[i as int] == run@);
            let ghost before = output@;
            let id = run.style_id as usize;
            let needs_sgr = id < self.styles.len() && {
                let style = &self.styles[id];
                style.fg_rgba != 0 || style.bg_rgba != 0 || style.flags != 0
            };
            if needs_sgr {
                let escape = style_to_sgr(&self.styles[id]);
                push_str(&mut output, escape.as_str());
            }
            push_str(&mut output, run.text.as_str());
            if needs_sgr {
                push_str(&mut output, "\x1b[0m");
            }
            proof {
                let t = items.take(i + 1);
                assert(t.drop_last() =~= items.take(i as int));
                assert(t.last() == run@);
                assert(output@ =~= before + styled_run(self@.styles, run@));
            }
            i = i + 1;
        }
        assert(items.take(i as int) =~= items);
        output
    }

    /// The visible rows with ANSI SGR styling rebuilt from the structured
    /// runs and the style table.
    pub fn render_styled_text(&self) -> (text: String)
        requires
            visible_rows(self@.row_text) <= self@.row_runs.len(),
        ensures
            text@ == styled_text(self@),
    {
        let visible = self.visible_row_count();
        proof {
            lemma_visible_rows_bound(self@.row_text);
        }
        let ghost rows = Seq::new(visible as nat, |i: int| styled_row(self@, i));
        let mut output = String::new();
        let mut i: usize = 0;
        while i < visible
            invariant
                rows == Seq::new(visible as nat, |i: int| styled_row(self@, i)),
                visible <= self@.row_text.len(),
                visible <= self@.row_runs.len(),
                0 <= i <= visible,
                output@ == join_with(rows.take(i as int), '\n'),
            decreases visible - i,
        {
            if i > 0 {
                push_char(&mut output, '\n');
            }
            let row = self.render_styled_row(i);
            push_str(&mut output, row.as_str());
            proof {
                let t = rows.take(i + 1);
                assert(t.drop_last() =~= rows.take(i as int));
                assert(t.last() == styled_row(self@, i as int));
                assert(output@ =~= join_with(t, '\n'));
            }
            i = i + 1;
        }
        assert(rows.take(i as int) =~= rows);
        output
    }

    /// Whether the style table holds anything but the default style.
    pub fn has_styled_runs(&self) -> (styled: bool)
        ensures
            styled == has_styles(self@),
    {
        let mut i: usize = 0;
        while i < self.styles.len()
            invariant
                0 <= i <= self@.styles.len(),
                forall|j: int| 0 <= j < i ==> !#[trigger] style_visible(self@.styles[j]),
            decreases self@.styles.len() - i,
        {
            let s = &self.styles[i];
            if s.fg_rgba != 0 || s.bg_rgba != 0 || s.flags != 0 {
                assert(style_visible(self@.styles[i as int]));
                return true;
            }
            i = i + 1;
        }
        false
    }
}

// ---------------------------------------------------------------------------
// Runs and row text
// ---------------------------------------------------------------------------

/// The text of runs written one after another.
pub open spec fn runs_text(runs: Seq<CellRunView>) -> Seq<char>
    decreases runs.len(),
{
    if runs.len() == 0 {
        Seq::empty()
    } else {
        runs_text(runs.drop_last()) + runs.last().text
    }
}

pub fn render_run_summaries(runs: &Vec<CellRunSummary>) -> (text: String)
    ensures
        text@ == runs_text(runs.deep_view()),
{
    let ghost items = runs.deep_view();
    let mut text = String::new();
    let mut i: usize = 0;
    while i < runs.len()
        invariant
            items == runs.deep_view(),
            0 <= i <= runs@.len(),
            text@ == runs_text(items.take(i as int)),
        decreases runs@.len() - i,
    {
        assert(items[i as int] == runs@[i as int]@);
        push_str(&mut text, runs[i].text.as_str());
        proof {
            let t = items.take(i + 1);
            assert(t.drop_last() =~= items.take(i as int));
        }
        i = i + 1;
    }
    assert(items.take(i as int) =~= items);
    text
}

/// The texts of row updates joined by line feeds.
pub open spec fn rows_text(rows: Seq<crate::surface::RowUpdateView>) -> Seq<char> {
    join_with(Seq::new(rows.len(), |i: int| rows[i].text), '\n')
}

pub fn render_decoded_rows(rows: &Vec<SurfaceRowUpdate>) -> (text: String)
    ensures
        text@ == rows_text(rows.deep_view()),
{
    let ghost texts = Seq::new(rows@.len(), |i: int| rows.deep_view()[i].text);
    let mut text = String::new();
    let mut i: usize = 0;
    while i < rows.len()
        invariant
            texts == Seq::new(rows@.len(), |i: int| rows.deep_view()[i].text),
            0 <= i <= rows@.len(),
            text@ == join_with(texts.take(i as int), '\n'),
        decreases rows@.len() - i,
    {
        assert(rows.deep_view()[i as int] == rows@[i as int]@);
        if i > 0 {
            push_char(&mut text, '\n');
        }
        push_str(&mut text, rows[i].text.as_str());
        proof {
            let t = texts.take(i + 1);
            assert(t.drop_last() =~= texts.take(i as int));
            assert(t.last() == rows@[i as int].text@);
            assert(text@ =~= join_with(t, '\n'));
        }
        i = i + 1;
    }
    assert(texts.take(i as int) =~= texts);
    text
}

/// Runs that do not spell the row's text are replaced by one plain run.
pub open spec fn runs_for_text(text: Seq<char>, runs: Seq<CellRunView>) -> Seq<CellRunView> {
    if runs.len() == 0 || runs_text(runs) != text {
        seq![plain_run(text)]
    } else {
        runs
    }
}

pub open spec fn normalized_runs(texts: Seq<Seq<char>>, runs: Seq<Seq<CellRunView>>) -> Seq<
    Seq<CellRunView>,
> {
    Seq::new(
        runs.len(),
        |i: int|
            if i < texts.len() {
                runs_for_text(texts[i], runs[i])
            } else {
                runs[i]
            },
    )
}

pub fn row_runs_for_text(row_text: &Vec<String>, row_runs: Vec<Vec<CellRunSummary>>) -> (runs: Vec<
    Vec<CellRunSummary>,
>)
    requires
        row_text@.len() <= row_runs@.len(),
    ensures
        runs.deep_view() == normalized_runs(row_text.deep_view(), row_runs.deep_view()),
{
    let ghost given = row_runs.deep_view();
    let ghost texts = row_text.deep_view();
    let mut row_runs = row_runs;
    let mut i: usize = 0;
    while i < row_text.len()
        invariant
            given.len() == row_runs@.len(),
            texts == row_text.deep_view(),
            row_text@.len() <= row_runs@.len(),
            0 <= i <= row_text@.len(),
            forall|k: int|
                0 <= k < row_runs@.len() ==> #[trigger] row_runs.deep_view()[k] == if k < i {
                    runs_for_text(texts[k], given[k])
                } else {
                    given[k]
                },
        decreases row_text@.len() - i,
    {
        assert(row_runs.deep_view()[i as int] == row_runs@[i as int].deep_view());
        assert(texts[i as int] == row_text@[i as int]@);
        let rendered = render_run_summaries(&row_runs[i]);
        let replace = row_runs[i].len() == 0 || !crate::text::str_eq(
            rendered.as_str(),
            row_text[i].as_str(),
        );
        if replace {
            let ghost before = row_runs;
            let plain = vec![CellRunSummary::plain(row_text[i].as_str())];
            row_runs.set(i, plain);
            proof {
                crate::surface::lemma_deep_update(before, row_runs, i as int, plain);
                assert(plain.deep_view() =~= seq![plain_run(texts[i as int])]);
            }
        }
        i = i + 1;
    }
    assert(row_runs.deep_view() =~= normalized_runs(texts, given));
    row_runs
}

} // verus!
