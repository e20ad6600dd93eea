//! Which escape sequences a frame can hold: the renderer's own sequences,
//! decimal numbers and clean text never spell `CSI ? 25 h`, so a frame drawn
//! with the cursor hidden never shows it again.
use vstd::prelude::*;
use crate::bytes::{decimal, utf8};
use crate::display::cell::{attr, attrs, colour_params, sgr, Color, Style};
use crate::display::renderer::{
    attribution_bytes,
    credit,
    finish_result,
    glyph_run,
    label_bytes,
    margin_of,
    pad_label,
    row_bytes,
    used_glyphs,
    RendererView,
    cursor_to,
    erase_line,
    hide_cursor_bytes,
    osc8_close,
    osc8_open,
    row_start,
    sgr_reset,
    show_cursor_bytes,
};
use crate::display::renderer::lemma_high_bytes;
use crate::display::cell::CellView;
use crate::display::row::{cells_clean, glyphs_clean, link_ok, no_escape, GlyphView, RowView};
use crate::display::screen::{all_rows, viewport, ScreenView};
use crate::pretty::labels::spec_label;
use crate::pretty::labels::you_label;

verus! {

/// No byte is an escape.
pub open spec fn escape_free(b: Seq<u8>) -> bool {
    forall|i: int| 0 <= i < b.len() ==> #[trigger] b[i] != 27u8
}

/// The escape at `i` is followed, inside `b`, by something that cannot
/// continue `CSI ? 25 h`.
pub open spec fn escape_ok(b: Seq<u8>, i: int) -> bool {
    ||| (i + 1 < b.len() && b[i + 1] != 91u8)
    ||| (i + 2 < b.len() && b[i + 2] != 63u8)
    ||| (i + 5 < b.len() && b[i + 5] != 104u8)
}

/// Every escape in `b` is one that cannot begin `CSI ? 25 h`, whatever is
/// written after `b`.
pub open spec fn escapes_safe(b: Seq<u8>) -> bool {
    forall|i: int| 0 <= i < b.len() && #[trigger] b[i] == 27u8 ==> escape_ok(b, i)
}

/// `CSI ? 25 h` occurs nowhere in `b`.
pub open spec fn never_shows_cursor(b: Seq<u8>) -> bool {
    forall|i: int| 0 <= i && i + 6 <= b.len() ==> #[trigger] b.subrange(i, i + 6) != show_cursor_bytes()
}

pub proof fn lemma_free_safe(b: Seq<u8>)
    requires
        escape_free(b),
    ensures
        escapes_safe(b),
{
}

pub proof fn lemma_free_concat(a: Seq<u8>, b: Seq<u8>)
    requires
        escape_free(a),
        escape_free(b),
    ensures
        escape_free(a + b),
{
    assert forall|i: int| 0 <= i < (a + b).len() implies #[trigger] (a + b)[i] != 27u8 by {
        if i < a.len() {
            assert((a + b)[i] == a[i]);
        } else {
            assert((a + b)[i] == b[i - a.len()]);
        }
    }
}

pub proof fn lemma_safe_concat(a: Seq<u8>, b: Seq<u8>)
    requires
        escapes_safe(a),
        escapes_safe(b),
    ensures
        escapes_safe(a + b),
{
    let c = a + b;
    assert forall|i: int| 0 <= i < c.len() && #[trigger] c[i] == 27u8 implies escape_ok(c, i) by {
        if i < a.len() {
            assert(c[i] == a[i]);
            assert(escape_ok(a, i));
            if i + 1 < a.len() {
                assert(c[i + 1] == a[i + 1]);
            }
            if i + 2 < a.len() {
                assert(c[i + 2] == a[i + 2]);
            }
            if i + 5 < a.len() {
                assert(c[i + 5] == a[i + 5]);
            }
        } else {
            let j = i - a.len();
            assert(c[i] == b[j]);
            assert(escape_ok(b, j));
            if j + 1 < b.len() {
                assert(c[i + 1] == b[j + 1]);
            }
            if j + 2 < b.len() {
                assert(c[i + 2] == b[j + 2]);
            }
            if j + 5 < b.len() {
                assert(c[i + 5] == b[j + 5]);
            }
        }
    }
}

/// Safe escapes never spell the cursor-show sequence.
pub proof fn lemma_safe_never_shows(b: Seq<u8>)
    requires
        escapes_safe(b),
    ensures
        never_shows_cursor(b),
{
    assert forall|i: int| 0 <= i && i + 6 <= b.len() implies #[trigger] b.subrange(i, i + 6)
        != show_cursor_bytes() by {
        let w = b.subrange(i, i + 6);
        if w == show_cursor_bytes() {
            assert(w[0] == 27u8);
            assert(b[i] == w[0]);
            assert(b[i + 1] == w[1]);
            assert(b[i + 2] == w[2]);
            assert(b[i + 5] == w[5]);
            assert(escape_ok(b, i));
        }
    }
}

pub proof fn lemma_decimal_free(n: nat)
    ensures
        escape_free(decimal(n)),
        decimal(n).len() >= 1,
        48 <= decimal(n)[0] <= 57,
    decreases n,
{
    if n >= 10 {
        lemma_decimal_free(n / 10);
        let d = decimal(n / 10);
        assert(decimal(n) == d.push((48 + n % 10) as u8));
        assert forall|i: int| 0 <= i < decimal(n).len() implies #[trigger] decimal(n)[i] != 27u8 by {
            if i < d.len() {
                assert(decimal(n)[i] == d[i]);
            }
        }
    }
}

/// `CSI` followed by a number.
pub proof fn lemma_csi_number(n: nat)
    ensures
        escapes_safe(seq![27u8, 91u8] + decimal(n)),
{
    lemma_decimal_free(n);
    let b = seq![27u8, 91u8] + decimal(n);
    assert(b[2] == decimal(n)[0]);
    assert forall|i: int| 0 <= i < b.len() && #[trigger] b[i] == 27u8 implies escape_ok(b, i) by {
        if i >= 2 {
            assert(b[i] == decimal(n)[i - 2]);
        }
    }
}

proof fn lemma_char_free(c: char)
    requires
        c != '\u{1b}',
    ensures
        escape_free(vstd::utf8::encode_scalar(c as u32)),
{
    let v = c as u32;
    if v <= 0x7f {
        assert((v & 0x7f) == v) by (bit_vector)
            requires
                v <= 0x7f,
        ;
    } else {
        lemma_high_bytes(((v >> 6) & 0x1F) as u8);
        lemma_high_bytes(((v >> 12) & 0x0F) as u8);
        lemma_high_bytes(((v >> 18) & 0x7) as u8);
        lemma_high_bytes((v & 0x3F) as u8);
        lemma_high_bytes(((v >> 6) & 0x3F) as u8);
        lemma_high_bytes(((v >> 12) & 0x3F) as u8);
    }
}

/// Text without the escape character encodes to bytes without an escape.
pub proof fn lemma_text_free(t: Seq<char>)
    requires
        no_escape(t),
    ensures
        escape_free(utf8(t)),
    decreases t.len(),
{
    if t.len() > 0 {
        assert(t[0] != '\u{1b}');
        lemma_char_free(t[0]);
        assert forall|i: int| 0 <= i < t.drop_first().len() implies #[trigger] t.drop_first()[i]
            != '\u{1b}' by {
            assert(t.drop_first()[i] == t[i + 1]);
        }
        lemma_text_free(t.drop_first());
        let head = vstd::utf8::encode_scalar(t[0] as u32);
        let rest = utf8(t.drop_first());
        assert(utf8(t) == head + rest);
        lemma_free_concat(head, rest);
    }
}

/// The renderer's fixed sequences.
pub proof fn lemma_fixed_safe()
    ensures
        escapes_safe(osc8_close()),
        escapes_safe(sgr_reset()),
        escapes_safe(erase_line()),
        escapes_safe(hide_cursor_bytes()),
{
    let a = osc8_close();
    assert forall|i: int| 0 <= i < a.len() && #[trigger] a[i] == 27u8 implies escape_ok(a, i) by {
        assert(i == 0 || i == 5);
    }
    let b = sgr_reset();
    assert forall|i: int| 0 <= i < b.len() && #[trigger] b[i] == 27u8 implies escape_ok(b, i) by {
        assert(i == 0);
    }
    let c = erase_line();
    assert forall|i: int| 0 <= i < c.len() && #[trigger] c[i] == 27u8 implies escape_ok(c, i) by {
        assert(i == 0);
    }
    let d = hide_cursor_bytes();
    assert forall|i: int| 0 <= i < d.len() && #[trigger] d[i] == 27u8 implies escape_ok(d, i) by {
        assert(i == 0);
    }
}

/// `CSI row ; 1 H CSI 0 m`.
pub proof fn lemma_row_start_safe(row: int)
    ensures
        escapes_safe(row_start(row)),
{
    lemma_csi_number(row as nat);
    let t = seq![59u8, 49u8, 72u8, 27u8, 91u8, 48u8, 109u8];
    assert forall|i: int| 0 <= i < t.len() && #[trigger] t[i] == 27u8 implies escape_ok(t, i) by {
        assert(i == 3);
    }
    lemma_safe_concat(seq![27u8, 91u8] + decimal(row as nat), t);
}

/// `CSI row ; col H`.
pub proof fn lemma_cursor_to_safe(row: int, col: int)
    ensures
        escapes_safe(cursor_to(row, col)),
{
    lemma_csi_number(row as nat);
    lemma_decimal_free(col as nat);
    let a = seq![27u8, 91u8] + decimal(row as nat);
    let b = seq![59u8] + decimal(col as nat) + seq![72u8];
    assert(seq![59u8] =~= seq![59u8]);
    lemma_free_concat(seq![59u8], decimal(col as nat));
    lemma_free_concat(seq![59u8] + decimal(col as nat), seq![72u8]);
    lemma_safe_concat(a, b);
    assert(cursor_to(row, col) =~= a + b);
}

/// An escape that opens a sequence other than `CSI ?`, then bytes without
/// an escape.
proof fn lemma_lead_safe(lead: Seq<u8>, rest: Seq<u8>)
    requires
        lead.len() >= 3,
        lead[0] == 27u8,
        lead[1] != 91u8 || lead[2] != 63u8,
        forall|i: int| 1 <= i < lead.len() ==> #[trigger] lead[i] != 27u8,
        escape_free(rest),
    ensures
        escapes_safe(lead + rest),
{
    let b = lead + rest;
    assert(b[1] == lead[1]);
    assert(b[2] == lead[2]);
    assert forall|i: int| 0 <= i < b.len() && #[trigger] b[i] == 27u8 implies escape_ok(b, i) by {
        if i >= lead.len() {
            assert(b[i] == rest[i - lead.len()]);
        } else if i > 0 {
            assert(b[i] == lead[i]);
        }
    }
}

/// A select-graphic-rendition sequence.
pub proof fn lemma_sgr_safe(st: Style)
    ensures
        escapes_safe(sgr(st)),
{
    lemma_decimal_free(1);
    lemma_decimal_free(2);
    lemma_decimal_free(3);
    lemma_decimal_free(4);
    lemma_decimal_free(7);
    lemma_free_concat(seq![59u8], decimal(1));
    lemma_free_concat(seq![59u8], decimal(2));
    lemma_free_concat(seq![59u8], decimal(3));
    lemma_free_concat(seq![59u8], decimal(4));
    lemma_free_concat(seq![59u8], decimal(7));
    let a1 = attr(st.bold, 1);
    let a2 = attr(st.dim, 2);
    let a3 = attr(st.italic, 3);
    let a4 = attr(st.underline, 4);
    let a5 = attr(st.inverse, 7);
    lemma_free_concat(a1, a2);
    lemma_free_concat(a1 + a2, a3);
    lemma_free_concat(a1 + a2 + a3, a4);
    lemma_free_concat(a1 + a2 + a3 + a4, a5);
    lemma_colour_free(st.fg, 38);
    lemma_colour_free(st.bg, 48);
    let rest = attrs(st) + colour_params(st.fg, 38) + colour_params(st.bg, 48) + seq![109u8];
    lemma_free_concat(attrs(st), colour_params(st.fg, 38));
    lemma_free_concat(attrs(st) + colour_params(st.fg, 38), colour_params(st.bg, 48));
    lemma_free_concat(attrs(st) + colour_params(st.fg, 38) + colour_params(st.bg, 48), seq![109u8]);
    let lead = seq![27u8, 91u8, 48u8];
    lemma_lead_safe(lead, rest);
    assert(sgr(st) =~= lead + rest);
}

proof fn lemma_colour_free(c: Color, base: nat)
    ensures
        escape_free(colour_params(c, base)),
{
    lemma_decimal_free(base);
    match c {
        Color::Default => {},
        Color::Idx(i) => {
            lemma_decimal_free(i as nat);
            lemma_free_concat(seq![59u8], decimal(base));
            lemma_free_concat(seq![59u8] + decimal(base), seq![59u8, 53u8, 59u8]);
            lemma_free_concat(seq![59u8] + decimal(base) + seq![59u8, 53u8, 59u8], decimal(i as nat));
        },
        Color::Rgb(r, g, b) => {
            lemma_decimal_free(r as nat);
            lemma_decimal_free(g as nat);
            lemma_decimal_free(b as nat);
            let p1 = seq![59u8] + decimal(base);
            lemma_free_concat(seq![59u8], decimal(base));
            lemma_free_concat(p1, seq![59u8, 50u8, 59u8]);
            let p2 = p1 + seq![59u8, 50u8, 59u8];
            lemma_free_concat(p2, decimal(r as nat));
            lemma_free_concat(p2 + decimal(r as nat), seq![59u8]);
            let p3 = p2 + decimal(r as nat) + seq![59u8];
            lemma_free_concat(p3, decimal(g as nat));
            lemma_free_concat(p3 + decimal(g as nat), seq![59u8]);
            lemma_free_concat(p3 + decimal(g as nat) + seq![59u8], decimal(b as nat));
        },
    }
}

/// An `OSC 8` opening for an accepted link.
pub proof fn lemma_osc8_open_safe(link: (Seq<char>, Seq<char>))
    requires
        crate::hyperlink::valid_link(link.0, link.1),
    ensures
        escapes_safe(osc8_open(link)),
{
    assert forall|i: int| 0 <= i < link.0.len() implies #[trigger] link.0[i] != '\u{1b}' by {
        assert(!crate::hyperlink::is_control(link.0[i]));
    }
    assert forall|i: int| 0 <= i < link.1.len() implies #[trigger] link.1[i] != '\u{1b}' by {
        assert(!crate::hyperlink::is_control(link.1[i]));
    }
    lemma_text_free(link.0);
    lemma_text_free(link.1);
    let lead = seq![27u8, 93u8, 56u8, 59u8, 105u8, 100u8, 61u8];
    let mid = utf8(link.1) + seq![59u8] + utf8(link.0);
    lemma_free_concat(utf8(link.1), seq![59u8]);
    lemma_free_concat(utf8(link.1) + seq![59u8], utf8(link.0));
    lemma_lead_safe(lead, mid);
    let tail = seq![27u8, 92u8];
    assert forall|i: int| 0 <= i < tail.len() && #[trigger] tail[i] == 27u8 implies escape_ok(tail, i) by {
        assert(i == 0);
    }
    lemma_safe_concat(lead + mid, tail);
    assert(osc8_open(link) =~= lead + mid + tail);
}

/// A label with no escape character, or none.
pub open spec fn label_ok(label: Option<Seq<char>>) -> bool {
    label matches Some(t) ==> no_escape(t)
}

/// The speaker margin.
pub proof fn lemma_label_safe(label: Option<Seq<char>>)
    requires
        label_ok(label),
    ensures
        escapes_safe(label_bytes(label)),
{
    let t = match label {
        Some(t) => t,
        None => Seq::empty(),
    };
    let p = pad_label(t);
    assert forall|i: int| 0 <= i < p.len() implies #[trigger] p[i] != '\u{1b}' by {
        if i < t.len() {
            assert(p[i] == t[i]);
        }
    }
    lemma_text_free(p);
    let colour: u8 = if label == Some(you_label()) {
        54u8
    } else {
        53u8
    };
    let lead = seq![27u8, 91u8, 49u8, 59u8, 51u8, 56u8, 59u8, 53u8, 59u8, colour, 109u8];
    lemma_lead_safe(lead, utf8(p));
    lemma_fixed_safe();
    lemma_safe_concat(lead + utf8(p), sgr_reset());
    assert(label_bytes(label) =~= lead + utf8(p) + sgr_reset());
}

/// The bytes of clean glyphs.
pub proof fn lemma_glyph_run_safe(gs: Seq<GlyphView>, n: int)
    requires
        glyphs_clean(gs),
        n <= gs.len(),
    ensures
        escapes_safe(glyph_run(gs, n).0),
    decreases n,
{
    if n > 0 {
        lemma_glyph_run_safe(gs, n - 1);
        let (b, p) = glyph_run(gs, n - 1);
        let g = gs[n - 1];
        assert(no_escape(gs[n - 1].text) && link_ok(g.hyperlink));
        lemma_fixed_safe();
        let b1 = if g.hyperlink != p.link {
            match g.hyperlink {
                Some(l) => {
                    lemma_osc8_open_safe(l);
                    lemma_safe_concat(b, osc8_open(l));
                },
                None => {
                    lemma_safe_concat(b, osc8_close());
                },
            }
            b + match g.hyperlink {
                Some(l) => osc8_open(l),
                None => osc8_close(),
            }
        } else {
            b
        };
        let b2 = if g.style != p.style {
            lemma_sgr_safe(g.style);
            lemma_safe_concat(b1, sgr(g.style));
            b1 + sgr(g.style)
        } else {
            b1
        };
        lemma_text_free(g.text);
        lemma_safe_concat(b2, utf8(g.text));
        assert(glyph_run(gs, n).0 == b2 + utf8(g.text));
    }
}

/// One row for the host, from clean glyphs and a clean label.
pub proof fn lemma_row_bytes_safe(v: RowView, label: Option<Seq<char>>, margin: bool)
    requires
        glyphs_clean(v.glyphs),
        label_ok(label),
    ensures
        escapes_safe(row_bytes(v, label, margin)),
{
    let len = v.glyphs.len() as int;
    let used = used_glyphs(v.glyphs, len);
    lemma_used_glyphs(v.glyphs, len);
    let run = glyph_run(v.glyphs, used);
    lemma_glyph_run_safe(v.glyphs, used);
    lemma_fixed_safe();
    let m = if margin {
        lemma_label_safe(label);
        label_bytes(label)
    } else {
        Seq::empty()
    };
    let c = if run.1.link is Some {
        osc8_close()
    } else {
        Seq::empty()
    };
    let e = if used < len {
        lemma_safe_concat(sgr_reset(), erase_line());
        sgr_reset() + erase_line()
    } else {
        Seq::empty()
    };
    lemma_safe_concat(osc8_close(), m);
    lemma_safe_concat(osc8_close() + m, run.0);
    lemma_safe_concat(osc8_close() + m + run.0, c);
    lemma_safe_concat(osc8_close() + m + run.0 + c, e);
}

proof fn lemma_used_glyphs(gs: Seq<GlyphView>, n: int)
    requires
        0 <= n,
    ensures
        0 <= used_glyphs(gs, n) <= n,
    decreases n,
{
    if n > 0 {
        lemma_used_glyphs(gs, n - 1);
    }
}

/// The attribution line.
pub proof fn lemma_attribution_safe(height: int, columns: int)
    requires
        height >= 0,
        columns >= 0,
    ensures
        escapes_safe(attribution_bytes(height, columns)),
{
    lemma_csi_number((height + 1) as nat);
    let mid = seq![59u8, 49u8, 72u8, 27u8, 91u8, 48u8, 59u8, 49u8, 59u8, 51u8, 54u8, 109u8];
    assert forall|i: int| 0 <= i < mid.len() && #[trigger] mid[i] == 27u8 implies escape_ok(mid, i) by {
        assert(i == 3);
    }
    let k = if columns < 22 {
        columns
    } else {
        22
    };
    let cr = credit().take(k);
    let full = credit();
    assert forall|i: int| 0 <= i < full.len() implies #[trigger] full[i] != 27u8 by {
        assert(0 <= i < 22);
    }
    assert forall|i: int| 0 <= i < cr.len() implies #[trigger] cr[i] != 27u8 by {
        assert(cr[i] == full[i]);
    }
    lemma_fixed_safe();
    let a = seq![27u8, 91u8] + decimal((height + 1) as nat);
    lemma_safe_concat(a, mid);
    lemma_safe_concat(a + mid, cr);
    lemma_safe_concat(a + mid + cr, sgr_reset());
    lemma_safe_concat(a + mid + cr + sgr_reset(), erase_line());
}

/// The end of a frame drawn with the cursor hidden, after safe row updates,
/// never shows the cursor.
pub proof fn lemma_finish_never_shows(v2: RendererView, s: ScreenView, off: int, updates: Seq<u8>)
    requires
        escapes_safe(updates),
        s.hide_cursor || off > 0,
        s.live.len() >= 1,
    ensures
        never_shows_cursor(finish_result(v2, s, off, updates).1),
{
    let height = s.live.len() as int;
    let row = if s.cursor_row < height - 1 {
        s.cursor_row as int
    } else {
        height - 1
    };
    let col = if s.cursor_col < s.width - 1 {
        s.cursor_col as int
    } else {
        s.width - 1
    };
    let vcol = v2.rows[row].logical_to_visual[col] + margin_of(v2);
    lemma_fixed_safe();
    let at = if v2.attribution && !v2.attribution_drawn {
        lemma_attribution_safe(height, s.width + margin_of(v2));
        attribution_bytes(height, s.width + margin_of(v2))
    } else {
        Seq::empty()
    };
    lemma_cursor_to_safe(row + 1, vcol + 1);
    lemma_safe_concat(hide_cursor_bytes(), updates);
    lemma_safe_concat(hide_cursor_bytes() + updates, at);
    lemma_safe_concat(hide_cursor_bytes() + updates + at, sgr_reset());
    let all = hide_cursor_bytes() + updates + at + sgr_reset() + cursor_to(row + 1, vcol + 1);
    lemma_safe_concat(hide_cursor_bytes() + updates + at + sgr_reset(), cursor_to(row + 1, vcol + 1));
    assert(all + Seq::<u8>::empty() =~= all);
    lemma_safe_never_shows(all);
    lemma_safe_never_shows(Seq::<u8>::empty());
}

/// Every cell of the screen, kept history and live rows, is clean.
pub open spec fn screen_clean(s: ScreenView) -> bool {
    &&& forall|r: int| 0 <= r < s.history.len() ==> cells_clean(#[trigger] s.history[r])
    &&& forall|r: int| 0 <= r < s.live.len() ==> cells_clean(#[trigger] s.live[r])
}

/// The rows in view of a clean screen are clean.
pub proof fn lemma_viewport_clean(s: ScreenView, off: int, i: int)
    requires
        screen_clean(s),
        0 <= off <= s.history.len(),
        0 <= i < s.live.len(),
    ensures
        cells_clean(viewport(s, off)[i]),
{
    let all = all_rows(s);
    let k = all.len() - s.live.len() - off + i;
    assert(viewport(s, off)[i] == all[k]);
    if k < s.history.len() {
        assert(all[k] == s.history[k]);
    } else {
        assert(all[k] == s.live[k - s.history.len()]);
    }
}

/// Speaker labels hold no escape when the agent's name holds none.
pub proof fn lemma_labels_clean(rows: Seq<Seq<CellView>>, agent: Option<Seq<char>>, i: int)
    requires
        label_ok(agent),
    ensures
        label_ok(spec_label(rows, agent, i)),
{
    if let Some(a) = agent {
        let y = you_label();
        assert forall|j: int| 0 <= j < y.len() implies #[trigger] y[j] != '\u{1b}' by {
            assert(0 <= j < 4);
        }
        let b = a.push(':');
        assert forall|j: int| 0 <= j < b.len() implies #[trigger] b[j] != '\u{1b}' by {
            if j < a.len() {
                assert(b[j] == a[j]);
            }
        }
    }
}

} // verus!
