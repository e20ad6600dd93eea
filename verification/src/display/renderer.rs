//! Serializes visual rows for the host terminal: only rows that changed are
//! repainted, with an optional speaker margin and attribution line.
use vstd::prelude::*;
use crate::bytes::{push_bytes, push_chars, push_decimal, decimal, utf8};
use crate::display::cell::{default_style, sgr, Style};
use crate::display::cell::{Cell, CellView};
use crate::display::row::{glyph_views, Glyph, GlyphView, RowView, VisualRow};
use crate::display::{Direction, Layout};
use crate::display::screen::{screen_wf, viewport, Screen, ScreenView};
use crate::hyperlink::Hyperlink;
use crate::pretty::labels::you_label;
use crate::pretty::{FormatView, RowFormat};
use crate::protocol::link_view;
use crate::text::{chars_eq, chars_of, string_from_chars};

verus! {

/// `OSC 8 ; ; ST`: no hyperlink.
pub open spec fn osc8_close() -> Seq<u8> {
    seq![27u8, 93u8, 56u8, 59u8, 59u8, 27u8, 92u8]
}

/// `OSC 8 ; id=ID ; URI ST`.
pub open spec fn osc8_open(link: (Seq<char>, Seq<char>)) -> Seq<u8> {
    seq![27u8, 93u8, 56u8, 59u8, 105u8, 100u8, 61u8] + utf8(link.1) + seq![59u8] + utf8(link.0)
        + seq![27u8, 92u8]
}

/// `CSI 0 m`.
pub open spec fn sgr_reset() -> Seq<u8> {
    seq![27u8, 91u8, 48u8, 109u8]
}

/// `CSI K`: erase to the end of the line.
pub open spec fn erase_line() -> Seq<u8> {
    seq![27u8, 91u8, 75u8]
}

/// A label left-aligned in eight columns.
pub open spec fn pad_label(t: Seq<char>) -> Seq<char> {
    if t.len() >= 8 {
        t
    } else {
        t + Seq::new((8 - t.len()) as nat, |i: int| ' ')
    }
}

/// The margin: bold, cyan for the user and magenta otherwise, then reset.
pub open spec fn label_bytes(label: Option<Seq<char>>) -> Seq<u8> {
    let colour: u8 = if label == Some(you_label()) {
        54u8
    } else {
        53u8
    };
    seq![27u8, 91u8, 49u8, 59u8, 51u8, 56u8, 59u8, 53u8, 59u8, colour, 109u8] + utf8(
        pad_label(
            match label {
                Some(t) => t,
                None => Seq::empty(),
            },
        ),
    ) + sgr_reset()
}

/// A glyph that draws nothing a cleared line would not: a plain space.
pub open spec fn blank_glyph(g: GlyphView) -> bool {
    g.text == seq![' '] && g.style == default_style() && g.hyperlink is None
}

/// The glyphs up to and including the last one that is not blank.
pub open spec fn used_glyphs(gs: Seq<GlyphView>, n: int) -> int
    decreases n,
{
    if n <= 0 {
        0
    } else if !blank_glyph(gs[n - 1]) {
        n
    } else {
        used_glyphs(gs, n - 1)
    }
}

/// The rendition and link in effect on the host.
pub struct Pen {
    pub style: Style,
    pub link: Option<(Seq<char>, Seq<char>)>,
}

/// The bytes for the first `n` glyphs: a link change, a style change, then
/// the text of each.
pub open spec fn glyph_run(gs: Seq<GlyphView>, n: int) -> (Seq<u8>, Pen)
    decreases n,
{
    if n <= 0 {
        (Seq::empty(), Pen { style: default_style(), link: None })
    } else {
        let (b, p) = glyph_run(gs, n - 1);
        glyph_step(b, p, gs[n - 1])
    }
}

/// One glyph: its link change, its style change, then its text.
pub open spec fn glyph_step(b: Seq<u8>, p: Pen, g: GlyphView) -> (Seq<u8>, Pen) {
    let b1 = if g.hyperlink != p.link {
        b + match g.hyperlink {
            Some(l) => osc8_open(l),
            None => osc8_close(),
        }
    } else {
        b
    };
    let b2 = if g.style != p.style {
        b1 + sgr(g.style)
    } else {
        b1
    };
    (b2 + utf8(g.text), Pen { style: g.style, link: g.hyperlink })
}

/// One row for the host: no link, the margin when there is one, the glyphs up
/// to the last one that shows, the link closed, and the rest of the line
/// cleared when blanks were left out.
pub open spec fn row_bytes(v: RowView, label: Option<Seq<char>>, margin: bool) -> Seq<u8> {
    let len = v.glyphs.len() as int;
    let used = used_glyphs(v.glyphs, len);
    let run = glyph_run(v.glyphs, used);
    osc8_close() + (if margin {
        label_bytes(label)
    } else {
        Seq::empty()
    }) + run.0 + (if run.1.link is Some {
        osc8_close()
    } else {
        Seq::empty()
    }) + (if used < len {
        sgr_reset() + erase_line()
    } else {
        Seq::empty()
    })
}

pub proof fn lemma_used_glyphs(gs: Seq<GlyphView>, n: int)
    requires
        0 <= n <= gs.len(),
    ensures
        0 <= used_glyphs(gs, n) <= n,
        forall|j: int| used_glyphs(gs, n) <= j < n ==> blank_glyph(#[trigger] gs[j]),
    decreases n,
{
    if n > 0 {
        lemma_used_glyphs(gs, n - 1);
    }
}

fn push_str(out: &mut Vec<u8>, s: &str)
    ensures
        final(out)@ == old(out)@ + utf8(s@),
{
    let t = chars_of(s);
    push_chars(out, t.as_slice());
}

fn glyph_is_blank(g: &crate::display::row::Glyph) -> (r: bool)
    ensures
        r == blank_glyph(g@),
{
    crate::display::row::glyph_is_space(g) && g.style == Style::default_style()
        && g.hyperlink.is_none()
}

/// Appends the margin label.
fn write_label(out: &mut Vec<u8>, label: Option<&str>)
    ensures
        final(out)@ == old(out)@ + label_bytes(
            match label {
                Some(t) => Some(t@),
                None => None,
            },
        ),
{
    let text: Vec<char> = match label {
        Some(t) => chars_of(t),
        None => Vec::new(),
    };
    let you = crate::text::chars_eq(text.as_slice(), &['y', 'o', 'u', ':']);
    assert(seq!['y', 'o', 'u', ':'] =~= you_label());
    let colour: u8 = if label.is_some() && you {
        54u8
    } else {
        53u8
    };
    push_bytes(out, &[27u8, 91u8, 49u8, 59u8, 51u8, 56u8, 59u8, 53u8, 59u8, colour, 109u8]);
    let ghost tv = text@;
    let mut padded = text;
    while padded.len() < 8
        invariant
            padded@.len() <= 8 ==> padded@ =~= pad_label(tv).take(padded@.len() as int),
            tv.len() <= padded@.len(),
            tv.len() >= 8 ==> padded@ == tv,
            tv.len() < 8 ==> padded@.len() <= 8,
        decreases 8 - padded@.len(),
    {
        padded.push(' ');
        assert(padded@ =~= pad_label(tv).take(padded@.len() as int));
    }
    assert(padded@ =~= pad_label(tv));
    push_chars(out, padded.as_slice());
    push_bytes(out, &[27u8, 91u8, 48u8, 109u8]);
    assert(out@ =~= old(out)@ + label_bytes(
        match label {
            Some(t) => Some(t@),
            None => None,
        },
    ));
}

/// What a frame was drawn for; any change repaints everything.
#[derive(Clone, Copy, Debug, PartialEq, Eq, Structural)]
pub struct Settings {
    pub enabled: bool,
    pub direction: Direction,
    pub height: u16,
    pub width: u16,
    pub offset: usize,
}

/// Keeps the last frame sent to the host, so that only changed rows are
/// repainted.
pub struct Renderer {
    source: Vec<Vec<Cell>>,
    rows: Vec<VisualRow>,
    cursor: Option<(u16, u16, bool)>,
    settings: Option<Settings>,
    pretty: bool,
    layout: Layout,
    attribution: bool,
    attribution_drawn: bool,
    agent_label: Option<String>,
    labels: Vec<Option<String>>,
    formats: Vec<RowFormat>,
}

pub struct RendererView {
    pub source: Seq<Seq<CellView>>,
    pub rows: Seq<RowView>,
    pub cursor: Option<(u16, u16, bool)>,
    pub settings: Option<Settings>,
    pub pretty: bool,
    pub layout: Layout,
    pub attribution: bool,
    pub attribution_drawn: bool,
    pub agent_label: Option<Seq<char>>,
    pub labels: Seq<Option<Seq<char>>>,
    pub formats: Seq<FormatView>,
}

pub open spec fn opt_text(t: Option<String>) -> Option<Seq<char>> {
    match t {
        Some(s) => Some(s@),
        None => None,
    }
}

pub open spec fn opt_str(t: Option<&str>) -> Option<Seq<char>> {
    match t {
        Some(s) => Some(s@),
        None => None,
    }
}

pub open spec fn texts_view(ts: Seq<Option<String>>) -> Seq<Option<Seq<char>>> {
    ts.map_values(|t: Option<String>| opt_text(t))
}

pub open spec fn rows_view(rows: Seq<VisualRow>) -> Seq<RowView> {
    rows.map_values(|r: VisualRow| r@)
}

impl View for Renderer {
    type V = RendererView;

    closed spec fn view(&self) -> RendererView {
        RendererView {
            source: crate::display::screen::grid_view(self.source@),
            rows: rows_view(self.rows@),
            cursor: self.cursor,
            settings: self.settings,
            pretty: self.pretty,
            layout: self.layout,
            attribution: self.attribution,
            attribution_drawn: self.attribution_drawn,
            agent_label: opt_text(self.agent_label),
            labels: texts_view(self.labels@),
            formats: crate::pretty::detect::format_views(self.formats@),
        }
    }
}

/// Every kept visual row maps each column of its source row to a column
/// inside it.
pub open spec fn renderer_wf(v: RendererView) -> bool {
    &&& v.source.len() == v.rows.len()
    &&& forall|i: int|
        0 <= i < v.rows.len() ==> (#[trigger] v.rows[i]).logical_to_visual.len() == v.source[i].len()
            && forall|c: int|
            0 <= c < v.source[i].len() ==> (v.rows[i].logical_to_visual[c] as int) < v.source[i].len()
    &&& forall|i: int| 0 <= i < v.rows.len() ==> #[trigger] mouse_ok(v.rows[i], v.source[i])
}

/// Well-formedness depends only on the kept rows.
pub proof fn lemma_wf_same_frame(a: RendererView, b: RendererView)
    requires
        renderer_wf(a),
        b.source == a.source,
        b.rows == a.rows,
    ensures
        renderer_wf(b),
{
}

/// A kept row maps back every column it maps from: with paired wide
/// characters, each cell with text or continuing a wide character goes to
/// a visual column that maps back to it.
pub open spec fn mouse_ok(row: RowView, cells: Seq<CellView>) -> bool {
    &&& row.visual_to_logical.len() == cells.len()
    &&& crate::display::maps::paired(cells) ==> forall|c: int|
        0 <= c < cells.len() && ((#[trigger] cells[c]).contents.len() > 0 || cells[c].wide_continuation)
            ==> row.visual_to_logical[row.logical_to_visual[c] as int] == c
}

/// The columns the speaker margin takes.
pub open spec fn margin_of(v: RendererView) -> u16 {
    if v.agent_label is Some {
        8
    } else {
        0
    }
}

/// The renderer with its frame forgotten: the next render repaints all.
pub open spec fn invalidated(v: RendererView) -> RendererView {
    RendererView {
        source: Seq::empty(),
        rows: Seq::empty(),
        cursor: None,
        settings: None,
        formats: Seq::empty(),
        labels: Seq::empty(),
        attribution_drawn: false,
        ..v
    }
}

/// The logical column under a host column of a displayed row; columns outside
/// the frame map to themselves.
pub open spec fn spec_logical_column(v: RendererView, row: u16, col: u16) -> u16 {
    let c = if col >= margin_of(v) {
        (col - margin_of(v)) as u16
    } else {
        0u16
    };
    if (row as int) < v.rows.len() && (c as int) < v.rows[row as int].visual_to_logical.len() {
        v.rows[row as int].visual_to_logical[c as int]
    } else {
        c
    }
}

/// Agents whose speaker markers are known.
pub open spec fn known_agent(a: Option<Seq<char>>) -> Option<Seq<char>> {
    match a {
        Some(t) => if t == seq!['c', 'o', 'd', 'e', 'x'] || t == seq!['g', 'r', 'o', 'k'] {
            Some(t)
        } else {
            None
        },
        None => None,
    }
}

/// The renderer with the attribution line switched; a change repaints.
pub open spec fn with_attribution(v: RendererView, enabled: bool) -> RendererView {
    if v.attribution == enabled {
        v
    } else {
        invalidated(RendererView { attribution: enabled, ..v })
    }
}

/// The renderer labelling for an agent; a change repaints.
pub open spec fn with_agent(v: RendererView, agent: Option<Seq<char>>) -> RendererView {
    if v.agent_label == known_agent(agent) {
        v
    } else {
        invalidated(RendererView { agent_label: known_agent(agent), ..v })
    }
}

impl Renderer {
    pub open spec fn wf(&self) -> bool {
        renderer_wf(self@)
    }

    /// An empty frame: plain Columns layout, no decoration, margin or
    /// attribution.
    pub fn new() -> (r: Renderer)
        ensures
            r.wf(),
            r@ == (RendererView {
                source: Seq::empty(),
                rows: Seq::empty(),
                cursor: None,
                settings: None,
                pretty: false,
                layout: Layout::Columns,
                attribution: false,
                attribution_drawn: false,
                agent_label: None,
                labels: Seq::empty(),
                formats: Seq::empty(),
            }),
    {
        let r = Renderer {
            source: Vec::new(),
            rows: Vec::new(),
            cursor: None,
            settings: None,
            pretty: false,
            layout: Layout::Columns,
            attribution: false,
            attribution_drawn: false,
            agent_label: None,
            labels: Vec::new(),
            formats: Vec::new(),
        };
        assert(r@.source =~= Seq::<Seq<CellView>>::empty());
        assert(r@.rows =~= Seq::<RowView>::empty());
        assert(r@.labels =~= Seq::<Option<Seq<char>>>::empty());
        assert(r@.formats =~= Seq::<FormatView>::empty());
        r
    }

    /// Forgets the last frame.
    pub fn invalidate(&mut self)
        ensures
            final(self)@ == invalidated(old(self)@),
            final(self).wf(),
    {
        self.source.clear();
        self.rows.clear();
        self.cursor = None;
        self.settings = None;
        self.formats.clear();
        self.labels.clear();
        self.attribution_drawn = false;
        assert(self@.source =~= Seq::<Seq<CellView>>::empty());
        assert(self@.rows =~= Seq::<RowView>::empty());
        assert(self@.labels =~= Seq::<Option<Seq<char>>>::empty());
        assert(self@.formats =~= Seq::<FormatView>::empty());
        assert(self@ =~= invalidated(old(self)@));
    }

    pub fn set_layout(&mut self, layout: Layout)
        requires
            old(self).wf(),
        ensures
            final(self).wf(),
            final(self)@ == if old(self)@.layout == layout {
                old(self)@
            } else {
                invalidated(RendererView { layout, ..old(self)@ })
            },
    {
        if self.layout != layout {
            self.layout = layout;
            self.invalidate();
        }
    }

    pub fn set_attribution(&mut self, enabled: bool)
        requires
            old(self).wf(),
        ensures
            final(self).wf(),
            final(self)@ == with_attribution(old(self)@, enabled),
    {
        if self.attribution != enabled {
            self.attribution = enabled;
            self.invalidate();
        }
    }

    pub fn set_pretty(&mut self, enabled: bool)
        requires
            old(self).wf(),
        ensures
            final(self).wf(),
            final(self)@ == if old(self)@.pretty == enabled {
                old(self)@
            } else {
                invalidated(RendererView { pretty: enabled, ..old(self)@ })
            },
    {
        if self.pretty != enabled {
            self.pretty = enabled;
            self.invalidate();
        }
    }

    /// Labels are drawn only for agents whose markers are known (`codex`,
    /// `grok`); any other name turns the margin off.
    pub fn set_agent_label(&mut self, agent: Option<&str>)
        requires
            old(self).wf(),
        ensures
            final(self).wf(),
            final(self)@ == with_agent(old(self)@, opt_str(agent)),
    {
        let label: Option<Vec<char>> = match agent {
            Some(name) => {
                let t = chars_of(name);
                if chars_eq(t.as_slice(), &['c', 'o', 'd', 'e', 'x']) || chars_eq(
                    t.as_slice(),
                    &['g', 'r', 'o', 'k'],
                ) {
                    Some(t)
                } else {
                    None
                }
            },
            None => None,
        };
        assert(seq!['c', 'o', 'd', 'e', 'x'] =~= ['c', 'o', 'd', 'e', 'x']@);
        assert(seq!['g', 'r', 'o', 'k'] =~= ['g', 'r', 'o', 'k']@);
        let same = match (&label, &self.agent_label) {
            (Some(a), Some(b)) => chars_eq(a.as_slice(), chars_of(b.as_str()).as_slice()),
            (None, None) => true,
            _ => false,
        };
        if !same {
            self.agent_label = match label {
                Some(t) => Some(string_from_chars(t.as_slice())),
                None => None,
            };
            self.invalidate();
        }
    }

    /// The columns the speaker margin takes: eight with an agent label.
    pub fn margin(&self) -> (m: u16)
        ensures
            m == margin_of(self@),
    {
        if self.agent_label.is_some() {
            8
        } else {
            0
        }
    }

    /// The logical column under host column `col` of displayed row `row`.
    pub fn logical_column(&self, row: u16, col: u16) -> (c: u16)
        ensures
            c == spec_logical_column(self@, row, col),
    {
        let m = self.margin();
        let col = if col >= m {
            col - m
        } else {
            0
        };
        let r = row as usize;
        if r < self.rows.len() {
            assert(self@.rows[r as int] == self.rows@[r as int]@);
            if (col as usize) < self.rows[r].visual_to_logical.len() {
                return self.rows[r].visual_to_logical[col as usize];
            }
        }
        col
    }
}

fn write_link(out: &mut Vec<u8>, link: &Option<Hyperlink>)
    ensures
        final(out)@ == old(out)@ + match link_view(*link) {
            Some(l) => osc8_open(l),
            None => osc8_close(),
        },
{
    match link {
        Some(l) => {
            push_bytes(out, &[27u8, 93u8, 56u8, 59u8, 105u8, 100u8, 61u8]);
            push_str(out, l.id());
            push_bytes(out, &[59u8]);
            push_str(out, l.uri());
            push_bytes(out, &[27u8, 92u8]);
        },
        None => {
            push_bytes(out, &[27u8, 93u8, 56u8, 59u8, 59u8, 27u8, 92u8]);
        },
    }
    assert(out@ =~= old(out)@ + match link_view(*link) {
        Some(l) => osc8_open(l),
        None => osc8_close(),
    });
}

/// The number of glyphs up to the last one that is not blank.
fn used_count(glyphs: &Vec<Glyph>) -> (n: usize)
    ensures
        n == used_glyphs(glyph_views(glyphs@), glyphs@.len() as int),
        n <= glyphs@.len(),
{
    let ghost gs = glyph_views(glyphs@);
    let mut n: usize = glyphs.len();
    while n > 0 && glyph_is_blank(&glyphs[n - 1])
        invariant
            n <= glyphs@.len(),
            gs == glyph_views(glyphs@),
            used_glyphs(gs, glyphs@.len() as int) == used_glyphs(gs, n as int),
        decreases n,
    {
        assert(gs[n - 1] == glyphs@[n - 1]@);
        n = n - 1;
    }
    if n > 0 {
        assert(gs[n - 1] == glyphs@[n - 1]@);
    }
    n
}

fn write_glyph(out: &mut Vec<u8>, g: &Glyph, style: &mut Style, link: &mut Option<Hyperlink>)
    ensures
        (final(out)@, Pen { style: *final(style), link: link_view(*final(link)) }) == glyph_step(
            old(out)@,
            Pen { style: *old(style), link: link_view(*old(link)) },
            g@,
        ),
{
    if !crate::display::row::same_link(&g.hyperlink, link) {
        write_link(out, &g.hyperlink);
        *link = crate::display::row::copy_link(&g.hyperlink);
    }
    if g.style != *style {
        g.style.write(out);
        *style = g.style;
    }
    push_str(out, g.text.as_str());
}

/// Appends the bytes of the first `used` glyphs and returns the link left
/// open.
fn write_glyphs(out: &mut Vec<u8>, glyphs: &Vec<Glyph>, used: usize) -> (open: bool)
    requires
        used <= glyphs@.len(),
    ensures
        final(out)@ == old(out)@ + glyph_run(glyph_views(glyphs@), used as int).0,
        open == glyph_run(glyph_views(glyphs@), used as int).1.link is Some,
{
    let ghost gs = glyph_views(glyphs@);
    let mut buf: Vec<u8> = Vec::new();
    let mut style = Style::default_style();
    let mut link: Option<Hyperlink> = None;
    let mut i: usize = 0;
    while i < used
        invariant
            used <= glyphs@.len(),
            i <= used,
            gs == glyph_views(glyphs@),
            buf@ == glyph_run(gs, i as int).0,
            style == glyph_run(gs, i as int).1.style,
            link_view(link) == glyph_run(gs, i as int).1.link,
        decreases used - i,
    {
        let g = &glyphs[i];
        assert(gs[i as int] == g@);
        write_glyph(&mut buf, g, &mut style, &mut link);
        assert(glyph_run(gs, i + 1) == glyph_step(
            glyph_run(gs, i as int).0,
            glyph_run(gs, i as int).1,
            gs[i as int],
        ));
        i = i + 1;
    }
    push_bytes(out, buf.as_slice());
    link.is_some()
}

impl Renderer {
    /// Appends one row for the host, with its margin label when the margin is
    /// on.
    pub(crate) fn write_row(&self, visual: &VisualRow, label: Option<&str>, out: &mut Vec<u8>)
        ensures
            final(out)@ == old(out)@ + row_bytes(visual@, opt_str(label), margin_of(self@) > 0),
    {
        let ghost gs = glyph_views(visual.glyphs@);
        push_bytes(out, &[27u8, 93u8, 56u8, 59u8, 59u8, 27u8, 92u8]);
        let ghost a = out@;
        if self.margin() > 0 {
            write_label(out, label);
        }
        let ghost b = out@;
        let used = used_count(&visual.glyphs);
        let open = write_glyphs(out, &visual.glyphs, used);
        let ghost c = out@;
        if open {
            push_bytes(out, &[27u8, 93u8, 56u8, 59u8, 59u8, 27u8, 92u8]);
        }
        let ghost d = out@;
        if used < visual.glyphs.len() {
            push_bytes(out, &[27u8, 91u8, 48u8, 109u8, 27u8, 91u8, 75u8]);
        }
        assert(out@ =~= old(out)@ + row_bytes(visual@, opt_str(label), margin_of(self@) > 0));
    }
}

/// The rows, kept visual rows and repaint bytes after the first `n` rows of
/// a frame.
pub struct Frame {
    pub source: Seq<Seq<CellView>>,
    pub rows: Seq<RowView>,
    pub updates: Seq<u8>,
}

/// `CSI row ; 1 H` then `CSI 0 m`.
pub open spec fn row_start(row: int) -> Seq<u8> {
    seq![27u8, 91u8] + decimal(row as nat) + seq![59u8, 49u8, 72u8, 27u8, 91u8, 48u8, 109u8]
}

/// A row is skipped when its cells, format and label are those of the last
/// frame.
pub open spec fn row_kept(
    f: Frame,
    v: RendererView,
    grid: Seq<Seq<CellView>>,
    formats: Seq<FormatView>,
    labels: Seq<Option<Seq<char>>>,
    i: int,
) -> bool {
    &&& i < f.source.len()
    &&& f.source[i] == grid[i]
    &&& i < v.formats.len()
    &&& v.formats[i] == formats[i]
    &&& i < v.labels.len()
    &&& v.labels[i] == labels[i]
}

/// Row by row: a changed row is formatted again, and sent when its visual
/// row or its label differs from what the host shows.
pub open spec fn frame_upto(
    v: RendererView,
    grid: Seq<Seq<CellView>>,
    formats: Seq<FormatView>,
    labels: Seq<Option<Seq<char>>>,
    enabled: bool,
    direction: Direction,
    n: int,
) -> Frame
    decreases n,
{
    if n <= 0 {
        Frame { source: v.source, rows: v.rows, updates: Seq::empty() }
    } else {
        frame_step(
            frame_upto(v, grid, formats, labels, enabled, direction, n - 1),
            v,
            grid,
            formats,
            labels,
            enabled,
            direction,
            n - 1,
        )
    }
}

/// Row `i` of a frame.
pub open spec fn frame_step(
    f: Frame,
    v: RendererView,
    grid: Seq<Seq<CellView>>,
    formats: Seq<FormatView>,
    labels: Seq<Option<Seq<char>>>,
    enabled: bool,
    direction: Direction,
    i: int,
) -> Frame {
    if row_kept(f, v, grid, formats, labels, i) {
        f
    } else {
        let visual = crate::display::row::spec_formatted_row(
            grid[i],
            enabled,
            direction,
            v.layout,
            formats[i],
        );
        let emit = !(i < f.rows.len() && f.rows[i] == visual) || !(i < v.labels.len()
            && v.labels[i] == labels[i]);
        let updates = if emit {
            f.updates + row_start(i + 1) + row_bytes(visual, labels[i], margin_of(v) > 0)
        } else {
            f.updates
        };
        if i == f.source.len() {
            Frame { source: f.source.push(grid[i]), rows: f.rows.push(visual), updates }
        } else {
            Frame { source: f.source.update(i, grid[i]), rows: f.rows.update(i, visual), updates }
        }
    }
}

pub proof fn lemma_frame_len(
    v: RendererView,
    grid: Seq<Seq<CellView>>,
    formats: Seq<FormatView>,
    labels: Seq<Option<Seq<char>>>,
    enabled: bool,
    direction: Direction,
    n: int,
)
    requires
        0 <= n,
        v.source.len() == v.rows.len(),
    ensures
        frame_upto(v, grid, formats, labels, enabled, direction, n).source.len() >= n,
        frame_upto(v, grid, formats, labels, enabled, direction, n).source.len() == frame_upto(
            v,
            grid,
            formats,
            labels,
            enabled,
            direction,
            n,
        ).rows.len(),
        frame_upto(v, grid, formats, labels, enabled, direction, n).source.len() == if n
            > v.source.len() {
            n
        } else {
            v.source.len() as int
        },
        forall|i: int|
            0 <= i < n ==> #[trigger] frame_upto(v, grid, formats, labels, enabled, direction, n).source[i]
                == grid[i],
    decreases n,
{
    if n > 0 {
        lemma_frame_len(v, grid, formats, labels, enabled, direction, n - 1);
    }
}

fn same_text(a: &Option<String>, b: &Option<String>) -> (r: bool)
    ensures
        r == (opt_text(*a) == opt_text(*b)),
{
    match (a, b) {
        (Some(x), Some(y)) => {
            let r = *x == *y;
            r
        },
        (None, None) => true,
        _ => false,
    }
}

fn as_str_opt(t: &Option<String>) -> (r: Option<&str>)
    ensures
        opt_str(r) == opt_text(*t),
{
    match t {
        Some(s) => Some(s.as_str()),
        None => None,
    }
}

pub open spec fn frame_of(r: RendererView, updates: Seq<u8>) -> Frame {
    Frame { source: r.source, rows: r.rows, updates }
}

fn same_cell_rows(a: &[Cell], b: &[Cell]) -> (r: bool)
    ensures
        r == (crate::display::row::cell_views(a@) == crate::display::row::cell_views(b@)),
{
    let r = crate::display::cell::same_cells(a, b);
    proof {
        let ca = crate::display::row::cell_views(a@);
        let cb = crate::display::row::cell_views(b@);
        if r {
            assert(ca =~= cb);
        } else if ca == cb {
            assert(ca.len() == a@.len());
            assert(cb.len() == b@.len());
            assert forall|j: int| 0 <= j < a@.len() implies (#[trigger] a@[j])@ == b@[j]@ by {
                assert(ca[j] == a@[j]@);
                assert(cb[j] == b@[j]@);
            }
        }
    }
    r
}

/// A formatted row, with what the frame needs of it.
fn row_visual(
    cells: &[Cell],
    enabled: bool,
    direction: Direction,
    layout: Layout,
    format: &RowFormat,
) -> (r: VisualRow)
    requires
        cells@.len() <= u16::MAX,
    ensures
        r@ == crate::display::row::spec_formatted_row(
            crate::display::row::cell_views(cells@),
            enabled,
            direction,
            layout,
            format@,
        ),
        r.logical_to_visual@.len() == cells@.len(),
        forall|c: int| 0 <= c < cells@.len() ==> (#[trigger] r.logical_to_visual@[c] as int) < cells@.len(),
        mouse_ok(r@, crate::display::row::cell_views(cells@)),
        crate::display::row::cells_clean(crate::display::row::cell_views(cells@))
            ==> crate::display::row::glyphs_clean(r@.glyphs),
{
    let r = crate::display::row::formatted_row(cells, enabled, direction, layout, format);
    proof {
        reveal(crate::display::row::row_laws);
    }
    r
}

impl Renderer {
    /// Whether row `i` has the cells and format of the last frame.
    fn source_kept(&self, grid: &Vec<Vec<Cell>>, formats: &Vec<RowFormat>, i: usize) -> (r: bool)
        requires
            i < grid@.len(),
            i < formats@.len(),
        ensures
            r == ((i as int) < self@.source.len() && self@.source[i as int]
                == crate::display::screen::grid_view(grid@)[i as int] && (i as int)
                < self@.formats.len() && self@.formats[i as int]
                == crate::pretty::detect::format_views(formats@)[i as int]),
    {
        let ghost g = crate::display::screen::grid_view(grid@);
        let ghost fs = crate::pretty::detect::format_views(formats@);
        assert(g[i as int] == crate::display::row::cell_views(grid@[i as int]@));
        assert(fs[i as int] == formats@[i as int]@);
        if i >= self.source.len() || i >= self.formats.len() {
            return false;
        }
        assert(self@.source[i as int] == crate::display::row::cell_views(self.source@[i as int]@));
        assert(self@.formats[i as int] == self.formats@[i as int]@);
        same_cell_rows(self.source[i].as_slice(), grid[i].as_slice()) && self.formats[i].same(
            &formats[i],
        )
    }

    /// Brings row `i` of the frame up to date.
    #[verifier::rlimit(50)]
    fn frame_row(
        &mut self,
        grid: &Vec<Vec<Cell>>,
        formats: &Vec<RowFormat>,
        labels: &Vec<Option<String>>,
        enabled: bool,
        direction: Direction,
        i: usize,
        updates: &mut Vec<u8>,
    )
        requires
            old(self).wf(),
            i < grid@.len(),
            grid@.len() == formats@.len(),
            grid@.len() == labels@.len(),
            grid@.len() < 65535,
            forall|r: int| 0 <= r < grid@.len() ==> (#[trigger] grid@[r])@.len() <= 65535,
            old(self)@.source.len() >= i,
        ensures
            final(self).wf(),
            frame_of(final(self)@, final(updates)@) == frame_step(
                frame_of(old(self)@, old(updates)@),
                old(self)@,
                crate::display::screen::grid_view(grid@),
                crate::pretty::detect::format_views(formats@),
                texts_view(labels@),
                enabled,
                direction,
                i as int,
            ),
            final(self)@ == (RendererView {
                source: final(self)@.source,
                rows: final(self)@.rows,
                ..old(self)@
            }),
            crate::display::row::cells_clean(crate::display::screen::grid_view(grid@)[i as int])
                && crate::display::escapes::label_ok(texts_view(labels@)[i as int])
                && crate::display::escapes::escapes_safe(old(updates)@)
                ==> crate::display::escapes::escapes_safe(final(updates)@),
    {
        let ghost v = self@;
        let ghost g = crate::display::screen::grid_view(grid@);
        let ghost fs = crate::pretty::detect::format_views(formats@);
        let ghost ls = texts_view(labels@);
        let cells = grid[i].as_slice();
        assert(g[i as int] == crate::display::row::cell_views(cells@));
        let same_label = i < self.labels.len() && same_text(&self.labels[i], &labels[i]);
        proof {
            if i < self.labels@.len() {
                assert(v.labels[i as int] == opt_text(self.labels@[i as int]));
                assert(ls[i as int] == opt_text(labels@[i as int]));
            }
        }
        let kept = same_label && self.source_kept(grid, formats, i);
        if kept {
            return;
        }
        let visual = row_visual(cells, enabled, direction, self.layout, &formats[i]);
        let ghost sv = crate::display::row::spec_formatted_row(
            g[i as int],
            enabled,
            direction,
            v.layout,
            fs[i as int],
        );
        assert(fs[i as int] == formats@[i as int]@);
        assert(visual@ == sv);
        let ghost f0 = frame_of(v, updates@);
        let same_row = i < self.rows.len() && self.rows[i].same(&visual);
        proof {
            if i < self.rows@.len() {
                assert(v.rows[i as int] == self.rows@[i as int]@);
            }
        }
        let ghost before = updates@;
        assert((!same_row || !same_label) == (!((i as int) < f0.rows.len() && f0.rows[i as int] == sv) || !((i as int) < v.labels.len() && v.labels[i as int] == ls[i as int])));
        if !same_row || !same_label {
            updates.push(27u8);
            updates.push(91u8);
            push_decimal(updates, i as u64 + 1);
            push_bytes(updates, &[59u8, 49u8, 72u8, 27u8, 91u8, 48u8, 109u8]);
            self.write_row(&visual, as_str_opt(&labels[i]), updates);
            assert(updates@ =~= before + row_start(i + 1) + row_bytes(
                visual@,
                ls[i as int],
                margin_of(v) > 0,
            ));
            proof {
                if crate::display::row::cells_clean(g[i as int]) && crate::display::escapes::label_ok(
                    ls[i as int],
                ) && crate::display::escapes::escapes_safe(before) {
                    crate::display::escapes::lemma_row_start_safe(i + 1);
                    crate::display::escapes::lemma_row_bytes_safe(visual@, ls[i as int], margin_of(v) > 0);
                    crate::display::escapes::lemma_safe_concat(before, row_start(i + 1));
                    crate::display::escapes::lemma_safe_concat(
                        before + row_start(i + 1),
                        row_bytes(visual@, ls[i as int], margin_of(v) > 0),
                    );
                }
            }
        }
        let copy = crate::display::cell::copy_cells(cells);
        assert(crate::display::row::cell_views(copy@) =~= g[i as int]);
        if i == self.source.len() {
            self.source.push(copy);
            self.rows.push(visual);
            assert(self@.source =~= v.source.push(g[i as int]));
            assert(self@.rows =~= v.rows.push(visual@));
        } else {
            self.source.set(i, copy);
            self.rows.set(i, visual);
            assert(self@.source =~= v.source.update(i as int, g[i as int]));
            assert(self@.rows =~= v.rows.update(i as int, visual@));
        }
    }
}

/// What a frame at `offset` is drawn for.
pub open spec fn frame_settings(s: ScreenView, offset: int, enabled: bool, direction: Direction) -> Settings {
    Settings {
        enabled,
        direction,
        height: s.live.len() as u16,
        width: s.width,
        offset: offset as usize,
    }
}

/// The scroll offset, limited to the history kept.
pub open spec fn clamp_offset(s: ScreenView, offset: usize) -> int {
    if offset <= s.history.len() {
        offset as int
    } else {
        s.history.len() as int
    }
}

/// The renderer ready for a frame with settings `st`: forgotten when they
/// changed.
pub open spec fn prepared(v: RendererView, st: Settings) -> RendererView {
    if v.settings != Some(st) {
        RendererView { settings: Some(st), ..invalidated(v) }
    } else {
        v
    }
}

/// Markdown is not recognised on the row of a visible cursor in the live view.
pub open spec fn cursor_hint(s: ScreenView, offset: int) -> Option<u16> {
    if !s.hide_cursor && offset == 0 {
        Some(s.cursor_row)
    } else {
        None
    }
}

pub open spec fn frame_formats(v: RendererView, grid: Seq<Seq<CellView>>, hint: Option<u16>) -> Seq<
    FormatView,
> {
    if v.pretty {
        crate::pretty::detect::spec_detect(grid, hint)
    } else {
        Seq::new(grid.len(), |i: int| crate::pretty::plain_format())
    }
}

pub open spec fn frame_labels(v: RendererView, grid: Seq<Seq<CellView>>) -> Seq<Option<Seq<char>>> {
    Seq::new(grid.len(), |i: int| crate::pretty::labels::spec_label(grid, v.agent_label, i))
}

/// `Powered by: Gal Havkin`.
pub open spec fn credit() -> Seq<u8> {
    seq![
        80u8, 111u8, 119u8, 101u8, 114u8, 101u8, 100u8, 32u8, 98u8, 121u8, 58u8, 32u8, 71u8, 97u8,
        108u8, 32u8, 72u8, 97u8, 118u8, 107u8, 105u8, 110u8,
    ]
}

/// The attribution on the row below the child's screen, cut to `columns`.
pub open spec fn attribution_bytes(height: int, columns: int) -> Seq<u8> {
    seq![27u8, 91u8] + decimal((height + 1) as nat) + seq![
        59u8, 49u8, 72u8, 27u8, 91u8, 48u8, 59u8, 49u8, 59u8, 51u8, 54u8, 109u8,
    ] + credit().take(if columns < 22 {
        columns
    } else {
        22
    }) + sgr_reset() + erase_line()
}

/// `CSI row ; col H`.
pub open spec fn cursor_to(row: int, col: int) -> Seq<u8> {
    seq![27u8, 91u8] + decimal(row as nat) + seq![59u8] + decimal(col as nat) + seq![72u8]
}

pub open spec fn hide_cursor_bytes() -> Seq<u8> {
    seq![27u8, 91u8, 63u8, 50u8, 53u8, 108u8]
}

pub open spec fn show_cursor_bytes() -> Seq<u8> {
    seq![27u8, 91u8, 63u8, 50u8, 53u8, 104u8]
}

/// The renderer after drawing the screen scrolled back `offset` rows, and
/// the bytes sent to the host: nothing when no row changed and the cursor
/// stayed; else the changed rows with the cursor hidden, the attribution
/// once, and the cursor at the visual column of its logical cell.
pub open spec fn render_result(
    v: RendererView,
    s: ScreenView,
    offset: usize,
    enabled: bool,
    direction: Direction,
) -> (RendererView, Seq<u8>) {
    let off = clamp_offset(s, offset);
    let height = s.live.len() as int;
    let v1 = prepared(v, frame_settings(s, off, enabled, direction));
    let grid = viewport(s, off);
    let formats = frame_formats(v1, grid, cursor_hint(s, off));
    let labels = frame_labels(v1, grid);
    let f = frame_upto(v1, grid, formats, labels, enabled, direction, height);
    let v2 = RendererView { source: f.source, rows: f.rows, formats, labels, ..v1 };
    finish_result(v2, s, off, f.updates)
}

/// The end of a frame: the cursor goes to the visual column of its logical
/// cell; nothing is sent when no row changed and the cursor stayed.
pub open spec fn finish_result(v2: RendererView, s: ScreenView, off: int, updates: Seq<u8>) -> (
    RendererView,
    Seq<u8>,
) {
    let height = s.live.len() as int;
    let row = if s.cursor_row < height - 1 {
        s.cursor_row as int
    } else {
        height - 1
    };
    let col = if s.cursor_col < s.width - 1 {
        s.cursor_col as int
    } else {
        s.width - 1
    };
    let vcol = v2.rows[row].logical_to_visual[col] + margin_of(v2);
    let cursor = (row as u16, vcol as u16, s.hide_cursor || off > 0);
    if updates.len() > 0 || v2.cursor != Some(cursor) {
        (
            RendererView {
                cursor: Some(cursor),
                attribution_drawn: v2.attribution_drawn || v2.attribution,
                ..v2
            },
            hide_cursor_bytes() + updates + (if v2.attribution && !v2.attribution_drawn {
                attribution_bytes(height, s.width + margin_of(v2))
            } else {
                Seq::empty()
            }) + sgr_reset() + cursor_to(row + 1, vcol + 1) + (if !cursor.2 {
                show_cursor_bytes()
            } else {
                Seq::empty()
            }),
        )
    } else {
        (v2, Seq::empty())
    }
}

fn plain_formats(n: usize) -> (fs: Vec<RowFormat>)
    ensures
        fs@.len() == n,
        crate::pretty::detect::format_views(fs@) == Seq::new(
            n as nat,
            |i: int| crate::pretty::plain_format(),
        ),
{
    let mut fs: Vec<RowFormat> = Vec::new();
    let mut i: usize = 0;
    while i < n
        invariant
            i <= n,
            fs@.len() == i,
            crate::pretty::detect::format_views(fs@) == Seq::new(
                i as nat,
                |i: int| crate::pretty::plain_format(),
            ),
        decreases n - i,
    {
        let ghost before = fs@;
        let f = RowFormat::plain();
        let ghost fv = f@;
        fs.push(f);
        assert(fs@ == before.push(f));
        assert(crate::pretty::detect::format_views(fs@) =~= crate::pretty::detect::format_views(before).push(fv));
        i = i + 1;
        assert(crate::pretty::detect::format_views(fs@) =~= Seq::new(
            i as nat,
            |j: int| crate::pretty::plain_format(),
        ));
    }
    fs
}

fn write_attribution(out: &mut Vec<u8>, height: u16, columns: u32)
    requires
        height < u16::MAX,
    ensures
        final(out)@ == old(out)@ + attribution_bytes(height as int, columns as int),
{
    let text: [u8; 22] = [
        80u8, 111u8, 119u8, 101u8, 114u8, 101u8, 100u8, 32u8, 98u8, 121u8, 58u8, 32u8, 71u8, 97u8,
        108u8, 32u8, 72u8, 97u8, 118u8, 107u8, 105u8, 110u8,
    ];
    assert(text@ =~= credit());
    out.push(27u8);
    out.push(91u8);
    push_decimal(out, height as u64 + 1);
    push_bytes(out, &[59u8, 49u8, 72u8, 27u8, 91u8, 48u8, 59u8, 49u8, 59u8, 51u8, 54u8, 109u8]);
    let n: usize = if columns < 22 {
        columns as usize
    } else {
        22
    };
    let ghost start = out@;
    let mut i: usize = 0;
    while i < n
        invariant
            n <= 22,
            i <= n,
            text@ == credit(),
            out@ == start + credit().take(i as int),
        decreases n - i,
    {
        out.push(text[i]);
        i = i + 1;
        assert(out@ =~= start + credit().take(i as int));
    }
    push_bytes(out, &[27u8, 91u8, 48u8, 109u8, 27u8, 91u8, 75u8]);
    assert(out@ =~= old(out)@ + attribution_bytes(height as int, columns as int));
}

pub proof fn lemma_viewport_width(s: ScreenView, off: int)
    requires
        screen_wf(s),
        0 <= off <= s.history.len(),
    ensures
        viewport(s, off).len() == s.live.len(),
        crate::display::screen::rows_of_width(viewport(s, off), s.width as int),
{
    let all = crate::display::screen::all_rows(s);
    let vp = viewport(s, off);
    assert forall|i: int| 0 <= i < vp.len() implies (#[trigger] vp[i]).len() == s.width by {
        let k = all.len() - s.live.len() - off + i;
        assert(vp[i] == all[k]);
        if k < s.history.len() {
            assert(all[k] == s.history[k]);
        } else {
            assert(all[k] == s.live[k - s.history.len()]);
        }
    }
}

impl Renderer {
    /// Draws the screen scrolled back `offset` rows (limited to the history
    /// kept), sending only what changed since the last frame. The host's
    /// autowrap is off, so writing the bottom-right cell never scrolls it.
    /// While browsing, or when the child hides the cursor, no byte of the
    /// frame shows it, provided the cells hold no escape character and only
    /// accepted links, as a terminal parser leaves them.
    #[verifier::rlimit(60)]
    pub fn render_scrollback(
        &mut self,
        screen: &Screen,
        offset: usize,
        enabled: bool,
        direction: Direction,
        out: &mut Vec<u8>,
    )
        requires
            old(self).wf(),
            screen_wf(screen@),
        ensures
            final(self).wf(),
            final(self)@ == render_result(old(self)@, screen@, offset, enabled, direction).0,
            final(out)@ == old(out)@ + render_result(old(self)@, screen@, offset, enabled, direction).1,
            crate::display::escapes::screen_clean(screen@) && crate::display::escapes::label_ok(
                old(self)@.agent_label,
            ) && (clamp_offset(screen@, offset) > 0 || screen@.hide_cursor)
                ==> crate::display::escapes::never_shows_cursor(
                render_result(old(self)@, screen@, offset, enabled, direction).1,
            ),
    {
        let ghost s = screen@;
        let retained = screen.retained_rows();
        let off = if offset <= retained {
            offset
        } else {
            retained
        };
        let height = screen.live.len() as u16;
        let width = screen.width;
        let st = Settings { enabled, direction, height, width, offset: off };
        let same = match self.settings {
            Some(old_st) => old_st == st,
            None => false,
        };
        if !same {
            self.invalidate();
            self.settings = Some(st);
        }
        let ghost v1 = self@;
        assert(v1 == prepared(old(self)@, frame_settings(s, off as int, enabled, direction)));
        let grid = screen.viewport_rows_at(off);
        let ghost g = viewport(s, off as int);
        proof {
            lemma_viewport_width(s, off as int);
            assert forall|r: int| 0 <= r < grid@.len() implies (#[trigger] grid@[r])@.len()
                <= 65535 by {
                assert(g[r] == crate::display::row::cell_views(grid@[r]@));
            }
            assert(crate::pretty::detect::rows_view(grid@) =~= g);
        }
        let hint = if !screen.hide_cursor && off == 0 {
            Some(screen.cursor_row)
        } else {
            None
        };
        let formats = if self.pretty {
            crate::pretty::detect::detect(grid.as_slice(), hint)
        } else {
            plain_formats(grid.len())
        };
        let labels = crate::pretty::labels::speaker_labels(
            grid.as_slice(),
            as_str_opt(&self.agent_label),
        );
        let ghost fs = crate::pretty::detect::format_views(formats@);
        let ghost ls = texts_view(labels@);
        assert(fs == frame_formats(v1, g, cursor_hint(s, off as int)));
        assert(ls =~= frame_labels(v1, g));
        let mut updates: Vec<u8> = Vec::new();
        let mut i: usize = 0;
        let n = grid.len();
        let ghost clean = crate::display::escapes::screen_clean(s) && crate::display::escapes::label_ok(
            v1.agent_label,
        );
        proof {
            if clean {
                assert forall|r: int| 0 <= r < n implies crate::display::row::cells_clean(#[trigger] g[r])
                    && crate::display::escapes::label_ok(ls[r]) by {
                    crate::display::escapes::lemma_viewport_clean(s, off as int, r);
                    crate::display::escapes::lemma_labels_clean(g, v1.agent_label, r);
                }
            }
            crate::display::escapes::lemma_free_safe(updates@);
        }
        while i < n
            invariant
                clean ==> forall|r: int| 0 <= r < n ==> crate::display::row::cells_clean(#[trigger] g[r])
                    && crate::display::escapes::label_ok(ls[r]),
                clean ==> crate::display::escapes::escapes_safe(updates@),
                n == grid@.len(),
                n == s.live.len(),
                n < 65535,
                i <= n,
                g == crate::display::screen::grid_view(grid@),
                fs == crate::pretty::detect::format_views(formats@),
                ls == texts_view(labels@),
                formats@.len() == n,
                labels@.len() == n,
                forall|r: int| 0 <= r < grid@.len() ==> (#[trigger] grid@[r])@.len() <= 65535,
                self.wf(),
                self@ == (RendererView { source: self@.source, rows: self@.rows, ..v1 }),
                v1.source.len() == v1.rows.len(),
                frame_of(self@, updates@) == frame_upto(v1, g, fs, ls, enabled, direction, i as int),
            decreases n - i,
        {
            proof {
                lemma_frame_len(v1, g, fs, ls, enabled, direction, i as int);
            }
            self.frame_row(&grid, &formats, &labels, enabled, direction, i, &mut updates);
            i = i + 1;
        }
        proof {
            lemma_frame_len(v1, g, fs, ls, enabled, direction, n as int);
            if clean && (off > 0 || s.hide_cursor) {
                let f = frame_upto(v1, g, fs, ls, enabled, direction, n as int);
                let v2 = RendererView { source: f.source, rows: f.rows, formats: fs, labels: ls, ..v1 };
                crate::display::escapes::lemma_finish_never_shows(v2, s, off as int, updates@);
            }
        }
        self.formats = formats;
        self.labels = labels;
        self.finish_frame(screen, off, updates, out);
    }
}

impl Renderer {
    /// The host column of a logical cell of a kept row.
    fn cursor_column(&self, row: u16, col: u16) -> (c: u16)
        requires
            self.wf(),
            (row as int) < self@.source.len(),
            (col as int) < self@.source[row as int].len(),
            self@.source[row as int].len() <= 65527,
        ensures
            c == self@.rows[row as int].logical_to_visual[col as int] + margin_of(self@),
    {
        assert(self@.rows[row as int] == self.rows@[row as int]@);
        self.rows[row as usize].logical_to_visual[col as usize] + self.margin()
    }

    #[verifier::rlimit(60)]
    fn finish_frame(&mut self, screen: &Screen, off: usize, updates: Vec<u8>, out: &mut Vec<u8>)
        requires
            old(self).wf(),
            screen_wf(screen@),
            off <= screen@.history.len(),
            old(self)@.source.len() >= screen@.live.len(),
            forall|i: int|
                0 <= i < screen@.live.len() ==> #[trigger] old(self)@.source[i] == viewport(
                    screen@,
                    off as int,
                )[i],
        ensures
            final(self).wf(),
            final(self)@ == finish_result(old(self)@, screen@, off as int, updates@).0,
            final(out)@ == old(out)@ + finish_result(old(self)@, screen@, off as int, updates@).1,
    {
        let ghost s = screen@;
        let ghost v = self@;
        let height = screen.live.len() as u16;
        let width = screen.width;
        let row = if screen.cursor_row < height - 1 {
            screen.cursor_row
        } else {
            height - 1
        };
        let col = if screen.cursor_col < width - 1 {
            screen.cursor_col
        } else {
            width - 1
        };
        proof {
            lemma_viewport_width(s, off as int);
            assert(v.source[row as int].len() == width);
        }
        let margin = self.margin();
        let vcol = self.cursor_column(row, col);
        let hidden = screen.hide_cursor || off > 0;
        let cursor = (row, vcol, hidden);
        let moved = match self.cursor {
            Some(c) => !(c.0 == cursor.0 && c.1 == cursor.1 && c.2 == cursor.2),
            None => true,
        };
        let ghost before = self@;
        if updates.len() > 0 || moved {
            let draw = self.attribution && !self.attribution_drawn;
            write_frame_end(out, &updates, draw, height, width as u32 + margin as u32, row, vcol, hidden);
            if draw {
                self.attribution_drawn = true;
            }
            self.cursor = Some(cursor);
        }
        proof {
            lemma_wf_same_frame(before, self@);
        }
    }
}

fn write_frame_end(
    out: &mut Vec<u8>,
    updates: &Vec<u8>,
    draw: bool,
    height: u16,
    columns: u32,
    row: u16,
    vcol: u16,
    hidden: bool,
)
    requires
        height < u16::MAX,
    ensures
        final(out)@ == old(out)@ + hide_cursor_bytes() + updates@ + (if draw {
            attribution_bytes(height as int, columns as int)
        } else {
            Seq::empty()
        }) + sgr_reset() + cursor_to(row + 1, vcol + 1) + (if !hidden {
            show_cursor_bytes()
        } else {
            Seq::empty()
        }),
{
    push_bytes(out, &[27u8, 91u8, 63u8, 50u8, 53u8, 108u8]);
    push_bytes(out, updates.as_slice());
    let ghost o1 = out@;
    if draw {
        write_attribution(out, height, columns);
    }
    let ghost o2 = out@;
    push_bytes(out, &[27u8, 91u8, 48u8, 109u8, 27u8, 91u8]);
    push_decimal(out, row as u64 + 1);
    out.push(59u8);
    push_decimal(out, vcol as u64 + 1);
    out.push(72u8);
    let ghost o3 = out@;
    if !hidden {
        push_bytes(out, &[27u8, 91u8, 63u8, 50u8, 53u8, 104u8]);
    }
    assert(o3 =~= o2 + sgr_reset() + cursor_to(row + 1, vcol + 1));
    assert(out@ =~= old(out)@ + hide_cursor_bytes() + updates@ + (if draw {
        attribution_bytes(height as int, columns as int)
    } else {
        Seq::empty()
    }) + sgr_reset() + cursor_to(row + 1, vcol + 1) + (if !hidden {
        show_cursor_bytes()
    } else {
        Seq::empty()
    }));
}

/// The renderer once the host scrolled `count` rows into its history: the
/// kept rows move up with them, and the cursor and attribution are redrawn.
pub open spec fn shifted(v: RendererView, count: int) -> RendererView {
    RendererView {
        source: v.source.skip(if count < v.source.len() {
            count
        } else {
            v.source.len() as int
        }),
        rows: v.rows.skip(if count < v.rows.len() {
            count
        } else {
            v.rows.len() as int
        }),
        formats: v.formats.skip(if count < v.formats.len() {
            count
        } else {
            v.formats.len() as int
        }),
        labels: v.labels.skip(if count < v.labels.len() {
            count
        } else {
            v.labels.len() as int
        }),
        cursor: None,
        attribution_drawn: false,
        ..v
    }
}

/// The cells of a history row that fit beside the margin.
pub open spec fn fitted(cells: Seq<CellView>, host_cols: u16, margin: u16) -> Seq<CellView> {
    let width = if host_cols >= margin {
        host_cols - margin
    } else {
        0
    };
    cells.take(if cells.len() < width {
        cells.len() as int
    } else {
        width as int
    })
}

/// One history row: drawn on the top row, then pushed into the host's
/// scrollback by a line feed at the bottom of the full viewport.
pub open spec fn history_row_bytes(
    v: RendererView,
    rows: Seq<Seq<CellView>>,
    formats: Seq<FormatView>,
    labels: Seq<Option<Seq<char>>>,
    host_size: (u16, u16),
    enabled: bool,
    direction: Direction,
    i: int,
) -> Seq<u8> {
    history_head() + row_bytes(
        crate::display::row::spec_formatted_row(
            fitted(rows[i], host_size.0, margin_of(v)),
            enabled,
            direction,
            v.layout,
            formats[i],
        ),
        labels[i],
        margin_of(v) > 0,
    ) + history_tail(host_size.1)
}

/// `CSI 1 ; 1 H`, `CSI 0 m`.
pub open spec fn history_head() -> Seq<u8> {
    seq![27u8, 91u8, 49u8, 59u8, 49u8, 72u8, 27u8, 91u8, 48u8, 109u8]
}

/// Reset and clear the rest of the row, then a line feed on the bottom row.
pub open spec fn history_tail(bottom: u16) -> Seq<u8> {
    seq![27u8, 91u8, 48u8, 109u8, 27u8, 91u8, 75u8, 27u8, 91u8] + decimal(bottom as nat) + seq![
        59u8,
        49u8,
        72u8,
        13u8,
        10u8,
    ]
}

/// The bytes for the first `n` history rows.
pub open spec fn history_upto(
    v: RendererView,
    rows: Seq<Seq<CellView>>,
    formats: Seq<FormatView>,
    labels: Seq<Option<Seq<char>>>,
    host_size: (u16, u16),
    enabled: bool,
    direction: Direction,
    n: int,
) -> Seq<u8>
    decreases n,
{
    if n <= 0 {
        Seq::empty()
    } else {
        history_upto(v, rows, formats, labels, host_size, enabled, direction, n - 1)
            + history_row_bytes(v, rows, formats, labels, host_size, enabled, direction, n - 1)
    }
}

/// Finalized transcript rows for the host's scrollback: with the cursor
/// hidden and the scroll region reset, each row in turn.
pub open spec fn history_bytes(
    v: RendererView,
    rows: Seq<Seq<CellView>>,
    host_size: (u16, u16),
    enabled: bool,
    direction: Direction,
) -> Seq<u8> {
    if rows.len() == 0 {
        Seq::empty()
    } else {
        let formats = frame_formats(v, rows, None);
        let labels = frame_labels(v, rows);
        seq![27u8, 91u8, 63u8, 50u8, 53u8, 108u8, 27u8, 91u8, 114u8] + history_upto(
            v,
            rows,
            formats,
            labels,
            host_size,
            enabled,
            direction,
            rows.len() as int,
        )
    }
}

impl Renderer {
    /// Moves the kept frame up after the host scrolled `count` rows.
    fn shift_cache_after_host_scroll(&mut self, count: usize)
        requires
            old(self).wf(),
        ensures
            final(self).wf(),
            final(self)@ == shifted(old(self)@, count as int),
    {
        let ghost v = self@;
        let n0 = if count < self.source.len() {
            count
        } else {
            self.source.len()
        };
        self.source = drop_front_rows(&self.source, n0);
        let n = if count < self.rows.len() {
            count
        } else {
            self.rows.len()
        };
        self.rows = drop_front_visual(&self.rows, n);
        let n = if count < self.formats.len() {
            count
        } else {
            self.formats.len()
        };
        self.formats = drop_front_formats(&self.formats, n);
        let n = if count < self.labels.len() {
            count
        } else {
            self.labels.len()
        };
        self.labels = drop_front_labels(&self.labels, n);
        self.cursor = None;
        self.attribution_drawn = false;
        assert(self@ =~= shifted(v, count as int));
        assert(self@.source.len() == self@.rows.len());
        assert forall|i: int| 0 <= i < self@.rows.len() implies (#[trigger] self@.rows[i]).logical_to_visual.len()
            == self@.source[i].len() && forall|c: int|
            0 <= c < self@.source[i].len() ==> (self@.rows[i].logical_to_visual[c] as int) < self@.source[i].len() by {
            assert(self@.rows[i] == v.rows[i + n0]);
            assert(self@.source[i] == v.source[i + n0]);
        }
    }
}

fn drop_front_rows(v: &Vec<Vec<Cell>>, n: usize) -> (r: Vec<Vec<Cell>>)
    requires
        n <= v@.len(),
    ensures
        crate::display::screen::grid_view(r@) == crate::display::screen::grid_view(v@).skip(n as int),
{
    let mut r: Vec<Vec<Cell>> = Vec::new();
    let mut i: usize = n;
    while i < v.len()
        invariant
            n <= i <= v@.len(),
            crate::display::screen::grid_view(r@) == crate::display::screen::grid_view(v@).subrange(n as int, i as int),
        decreases v@.len() - i,
    {
        let row = crate::display::cell::copy_cells(v[i].as_slice());
        assert(crate::display::row::cell_views(row@) =~= crate::display::row::cell_views(v@[i as int]@));
        let ghost before = r@;
        let ghost rv = crate::display::row::cell_views(row@);
        r.push(row);
        assert(r@ == before.push(row));
        assert(crate::display::screen::grid_view(r@) =~= crate::display::screen::grid_view(before).push(rv));
        i = i + 1;
        assert(crate::display::screen::grid_view(r@) =~= crate::display::screen::grid_view(v@).subrange(n as int, i as int));
    }
    assert(crate::display::screen::grid_view(v@).subrange(n as int, i as int) =~= crate::display::screen::grid_view(v@).skip(n as int));
    r
}

fn copy_visual(r: &VisualRow) -> (c: VisualRow)
    ensures
        c@ == r@,
{
    let mut glyphs: Vec<Glyph> = Vec::new();
    let mut i: usize = 0;
    while i < r.glyphs.len()
        invariant
            i <= r.glyphs@.len(),
            glyph_views(glyphs@) == glyph_views(r.glyphs@).take(i as int),
        decreases r.glyphs@.len() - i,
    {
        let g = r.glyphs[i].duplicate();
        let ghost before = glyphs@;
        let ghost gv = g@;
        glyphs.push(g);
        assert(glyphs@ == before.push(g));
        assert(glyph_views(glyphs@) =~= glyph_views(before).push(gv));
        i = i + 1;
        assert(glyph_views(glyphs@) =~= glyph_views(r.glyphs@).take(i as int));
    }
    assert(glyph_views(r.glyphs@).take(i as int) =~= glyph_views(r.glyphs@));
    VisualRow {
        glyphs,
        logical_to_visual: r.logical_to_visual.clone(),
        visual_to_logical: r.visual_to_logical.clone(),
    }
}

fn drop_front_visual(v: &Vec<VisualRow>, n: usize) -> (r: Vec<VisualRow>)
    requires
        n <= v@.len(),
    ensures
        rows_view(r@) == rows_view(v@).skip(n as int),
{
    let mut r: Vec<VisualRow> = Vec::new();
    let mut i: usize = n;
    while i < v.len()
        invariant
            n <= i <= v@.len(),
            rows_view(r@) == rows_view(v@).subrange(n as int, i as int),
        decreases v@.len() - i,
    {
        let row = copy_visual(&v[i]);
        let ghost before = r@;
        let ghost rv = row@;
        r.push(row);
        assert(r@ == before.push(row));
        assert(rows_view(r@) =~= rows_view(before).push(rv));
        i = i + 1;
        assert(rows_view(r@) =~= rows_view(v@).subrange(n as int, i as int));
    }
    assert(rows_view(v@).subrange(n as int, i as int) =~= rows_view(v@).skip(n as int));
    r
}

fn drop_front_formats(v: &Vec<RowFormat>, n: usize) -> (r: Vec<RowFormat>)
    requires
        n <= v@.len(),
    ensures
        crate::pretty::detect::format_views(r@) == crate::pretty::detect::format_views(v@).skip(n as int),
{
    let mut r: Vec<RowFormat> = Vec::new();
    let mut i: usize = n;
    while i < v.len()
        invariant
            n <= i <= v@.len(),
            crate::pretty::detect::format_views(r@) == crate::pretty::detect::format_views(v@).subrange(n as int, i as int),
        decreases v@.len() - i,
    {
        let f = v[i].duplicate();
        let ghost before = r@;
        let ghost fv = f@;
        r.push(f);
        assert(r@ == before.push(f));
        assert(crate::pretty::detect::format_views(r@) =~= crate::pretty::detect::format_views(before).push(fv));
        i = i + 1;
        assert(crate::pretty::detect::format_views(r@) =~= crate::pretty::detect::format_views(v@).subrange(n as int, i as int));
    }
    assert(crate::pretty::detect::format_views(v@).subrange(n as int, i as int) =~= crate::pretty::detect::format_views(v@).skip(n as int));
    r
}

fn copy_text(t: &Option<String>) -> (r: Option<String>)
    ensures
        opt_text(r) == opt_text(*t),
{
    match t {
        Some(s) => Some(string_from_chars(chars_of(s.as_str()).as_slice())),
        None => None,
    }
}

fn drop_front_labels(v: &Vec<Option<String>>, n: usize) -> (r: Vec<Option<String>>)
    requires
        n <= v@.len(),
    ensures
        texts_view(r@) == texts_view(v@).skip(n as int),
{
    let mut r: Vec<Option<String>> = Vec::new();
    let mut i: usize = n;
    while i < v.len()
        invariant
            n <= i <= v@.len(),
            texts_view(r@) == texts_view(v@).subrange(n as int, i as int),
        decreases v@.len() - i,
    {
        let t = copy_text(&v[i]);
        let ghost before = r@;
        let ghost tv = opt_text(t);
        r.push(t);
        assert(r@ == before.push(t));
        assert(texts_view(r@) =~= texts_view(before).push(tv));
        i = i + 1;
        assert(texts_view(r@) =~= texts_view(v@).subrange(n as int, i as int));
    }
    assert(texts_view(v@).subrange(n as int, i as int) =~= texts_view(v@).skip(n as int));
    r
}

/// A copy of the first `n` cells of a row.
fn first_cells(cells: &[Cell], n: usize) -> (r: Vec<Cell>)
    requires
        n <= cells@.len(),
    ensures
        crate::display::row::cell_views(r@) == crate::display::row::cell_views(cells@).take(n as int),
{
    let mut r: Vec<Cell> = Vec::new();
    let mut i: usize = 0;
    while i < n
        invariant
            i <= n <= cells@.len(),
            crate::display::row::cell_views(r@) == crate::display::row::cell_views(cells@).take(i as int),
        decreases n - i,
    {
        let c = cells[i].duplicate();
        let ghost before = r@;
        let ghost cv = c@;
        r.push(c);
        assert(r@ == before.push(c));
        assert(crate::display::row::cell_views(r@) =~= crate::display::row::cell_views(before).push(cv));
        i = i + 1;
        assert(crate::display::row::cell_views(r@) =~= crate::display::row::cell_views(cells@).take(i as int));
    }
    r
}

impl Renderer {
    fn history_visual(
        &self,
        rows: &[Vec<Cell>],
        formats: &Vec<RowFormat>,
        host_size: (u16, u16),
        enabled: bool,
        direction: Direction,
        i: usize,
    ) -> (visual: VisualRow)
        requires
            i < rows@.len(),
            formats@.len() == rows@.len(),
        ensures
            visual@ == crate::display::row::spec_formatted_row(
                fitted(crate::display::screen::grid_view(rows@)[i as int], host_size.0, margin_of(self@)),
                enabled,
                direction,
                self@.layout,
                crate::pretty::detect::format_views(formats@)[i as int],
            ),
    {
        let ghost g = crate::display::screen::grid_view(rows@);
        assert(g[i as int] == crate::display::row::cell_views(rows@[i as int]@));
        assert(crate::pretty::detect::format_views(formats@)[i as int] == formats@[i as int]@);
        let margin = self.margin();
        let width = if host_size.0 >= margin {
            host_size.0 - margin
        } else {
            0
        };
        let len = rows[i].len();
        let n = if len < width as usize {
            len
        } else {
            width as usize
        };
        let cells = first_cells(rows[i].as_slice(), n);
        assert(crate::display::row::cell_views(cells@) == fitted(g[i as int], host_size.0, margin_of(self@)));
        crate::display::row::formatted_row(cells.as_slice(), enabled, direction, self.layout, &formats[i])
    }

    fn write_history_row(
        &self,
        rows: &[Vec<Cell>],
        formats: &Vec<RowFormat>,
        labels: &Vec<Option<String>>,
        host_size: (u16, u16),
        enabled: bool,
        direction: Direction,
        i: usize,
        out: &mut Vec<u8>,
    )
        requires
            i < rows@.len(),
            formats@.len() == rows@.len(),
            labels@.len() == rows@.len(),
        ensures
            final(out)@ == old(out)@ + history_row_bytes(
                self@,
                crate::display::screen::grid_view(rows@),
                crate::pretty::detect::format_views(formats@),
                texts_view(labels@),
                host_size,
                enabled,
                direction,
                i as int,
            ),
    {
        let ghost g = crate::display::screen::grid_view(rows@);
        let visual = self.history_visual(rows, formats, host_size, enabled, direction, i);
        assert(crate::pretty::detect::format_views(formats@)[i as int] == formats@[i as int]@);
        assert(texts_view(labels@)[i as int] == opt_text(labels@[i as int]));
        let ghost o0 = out@;
        push_bytes(out, &[27u8, 91u8, 49u8, 59u8, 49u8, 72u8, 27u8, 91u8, 48u8, 109u8]);
        let ghost o1 = out@;
        assert(o1 =~= o0 + history_head());
        self.write_row(&visual, as_str_opt(&labels[i]), out);
        let ghost o2 = out@;
        push_bytes(out, &[27u8, 91u8, 48u8, 109u8, 27u8, 91u8, 75u8, 27u8, 91u8]);
        push_decimal(out, host_size.1 as u64);
        push_bytes(out, &[59u8, 49u8, 72u8, 13u8, 10u8]);
        assert(out@ =~= o2 + history_tail(host_size.1));
        assert(out@ =~= o0 + history_row_bytes(
            self@,
            g,
            crate::pretty::detect::format_views(formats@),
            texts_view(labels@),
            host_size,
            enabled,
            direction,
            i as int,
        ));
    }

    /// Pushes finalized transcript rows into the host's normal scrollback,
    /// then moves the kept frame up by as many rows so that the cursor,
    /// composer and footer are restored by the next render.
    pub fn append_history(
        &mut self,
        rows: &[Vec<Cell>],
        host_size: (u16, u16),
        enabled: bool,
        direction: Direction,
        out: &mut Vec<u8>,
    )
        requires
            old(self).wf(),
            crate::pretty::detect::rows_fit(rows@),
        ensures
            final(self).wf(),
            final(self)@ == if rows@.len() == 0 {
                old(self)@
            } else {
                shifted(old(self)@, rows@.len() as int)
            },
            final(out)@ == old(out)@ + history_bytes(
                old(self)@,
                crate::display::screen::grid_view(rows@),
                host_size,
                enabled,
                direction,
            ),
    {
        if rows.len() == 0 {
            return;
        }
        let ghost v = self@;
        let ghost g = crate::display::screen::grid_view(rows@);
        assert(crate::pretty::detect::rows_view(rows@) =~= g);
        let formats = if self.pretty {
            crate::pretty::detect::detect(rows, None)
        } else {
            plain_formats(rows.len())
        };
        let labels = crate::pretty::labels::speaker_labels(rows, as_str_opt(&self.agent_label));
        let ghost fs = crate::pretty::detect::format_views(formats@);
        let ghost ls = texts_view(labels@);
        assert(fs == frame_formats(v, g, None));
        assert(ls =~= frame_labels(v, g));
        let ghost o0 = out@;
        push_bytes(out, &[27u8, 91u8, 63u8, 50u8, 53u8, 108u8, 27u8, 91u8, 114u8]);
        let ghost o1 = out@;
        let mut i: usize = 0;
        while i < rows.len()
            invariant
                i <= rows@.len(),
                formats@.len() == rows@.len(),
                labels@.len() == rows@.len(),
                self@ == v,
                g == crate::display::screen::grid_view(rows@),
                fs == crate::pretty::detect::format_views(formats@),
                ls == texts_view(labels@),
                out@ == o1 + history_upto(v, g, fs, ls, host_size, enabled, direction, i as int),
            decreases rows@.len() - i,
        {
            self.write_history_row(rows, &formats, &labels, host_size, enabled, direction, i, out);
            i = i + 1;
        }
        self.shift_cache_after_host_scroll(rows.len());
    }

    /// Draws the screen at its own scroll offset.
    pub fn render(&mut self, screen: &Screen, enabled: bool, direction: Direction, out: &mut Vec<u8>)
        requires
            old(self).wf(),
            screen_wf(screen@),
        ensures
            final(self).wf(),
            final(self)@ == render_result(old(self)@, screen@, screen@.scrollback, enabled, direction).0,
            final(out)@ == old(out)@ + render_result(
                old(self)@,
                screen@,
                screen@.scrollback,
                enabled,
                direction,
            ).1,
            crate::display::escapes::screen_clean(screen@) && crate::display::escapes::label_ok(
                old(self)@.agent_label,
            ) && (clamp_offset(screen@, screen@.scrollback) > 0 || screen@.hide_cursor)
                ==> crate::display::escapes::never_shows_cursor(
                render_result(old(self)@, screen@, screen@.scrollback, enabled, direction).1,
            ),
    {
        self.render_scrollback(screen, screen.scrollback, enabled, direction, out);
    }
}

impl Default for Renderer {
    fn default() -> (r: Renderer)
        ensures
            r.wf(),
            r@ == (RendererView {
                source: Seq::empty(),
                rows: Seq::empty(),
                cursor: None,
                settings: None,
                pretty: false,
                layout: Layout::Columns,
                attribution: false,
                attribution_drawn: false,
                agent_label: None,
                labels: Seq::empty(),
                formats: Seq::empty(),
            }),
    {
        Renderer::new()
    }
}

/// A visual row with every glyph in the default rendition.
pub open spec fn unstyled(r: RowView) -> RowView {
    RowView {
        glyphs: r.glyphs.map_values(|g: GlyphView| GlyphView { style: default_style(), ..g }),
        ..r
    }
}

/// One row of the exit replay: original text and links, no decoration.
pub open spec fn replay_row(row: Seq<CellView>, enabled: bool, direction: Direction, layout: Layout) -> Seq<u8> {
    row_bytes(
        unstyled(
            crate::display::row::spec_formatted_row(
                row,
                enabled,
                direction,
                layout,
                crate::pretty::plain_format(),
            ),
        ),
        None,
        false,
    ) + sgr_reset() + seq![13u8, 10u8]
}

pub open spec fn replay_upto(
    rows: Seq<Seq<CellView>>,
    enabled: bool,
    direction: Direction,
    layout: Layout,
    n: int,
) -> Seq<u8>
    decreases n,
{
    if n <= 0 {
        Seq::empty()
    } else {
        replay_upto(rows, enabled, direction, layout, n - 1) + replay_row(
            rows[n - 1],
            enabled,
            direction,
            layout,
        )
    }
}

fn unstyle(visual: &mut VisualRow)
    ensures
        final(visual)@ == unstyled(old(visual)@),
{
    let ghost start = glyph_views(visual.glyphs@);
    let mut glyphs: Vec<Glyph> = Vec::new();
    let mut i: usize = 0;
    while i < visual.glyphs.len()
        invariant
            i <= visual.glyphs@.len(),
            start == glyph_views(visual.glyphs@),
            visual@ == old(visual)@,
            glyph_views(glyphs@) == start.take(i as int).map_values(
                |g: GlyphView| GlyphView { style: default_style(), ..g },
            ),
        decreases visual.glyphs@.len() - i,
    {
        let mut g = visual.glyphs[i].duplicate();
        g.style = Style::default_style();
        let ghost before = glyphs@;
        let ghost gv = g@;
        glyphs.push(g);
        assert(glyphs@ == before.push(g));
        assert(glyph_views(glyphs@) =~= glyph_views(before).push(gv));
        i = i + 1;
        assert(glyph_views(glyphs@) =~= start.take(i as int).map_values(
            |g: GlyphView| GlyphView { style: default_style(), ..g },
        ));
    }
    assert(start.take(i as int) =~= start);
    visual.glyphs = glyphs;
}

fn replay_one(
    renderer: &Renderer,
    cells: &[Cell],
    enabled: bool,
    direction: Direction,
    layout: Layout,
    out: &mut Vec<u8>,
)
    requires
        renderer@.agent_label is None,
        cells@.len() <= u16::MAX,
    ensures
        final(out)@ == old(out)@ + replay_row(
            crate::display::row::cell_views(cells@),
            enabled,
            direction,
            layout,
        ),
{
    let mut visual = crate::display::row::visual_row_with_layout(cells, enabled, direction, layout);
    let ghost sv = visual@;
    unstyle(&mut visual);
    let ghost uv = visual@;
    assert(uv == unstyled(sv));
    let ghost o0 = out@;
    renderer.write_row(&visual, None, out);
    let ghost o1 = out@;
    assert(o1 == o0 + row_bytes(uv, None, false));
    push_bytes(out, &[27u8, 91u8, 48u8, 109u8, 13u8, 10u8]);
    assert(out@ =~= o1 + (sgr_reset() + seq![13u8, 10u8]));
    assert(replay_row(crate::display::row::cell_views(cells@), enabled, direction, layout) == row_bytes(
        uv,
        None,
        false,
    ) + sgr_reset() + seq![13u8, 10u8]);
}

/// Original text and hyperlinks of the whole transcript, history then live
/// rows, for the normal screen after exit; Markdown decoration and
/// renditions are left out.
pub fn replay(screen: &Screen, enabled: bool, direction: Direction, layout: Layout) -> (out: Vec<u8>)
    requires
        screen_wf(screen@),
    ensures
        out@ == replay_upto(
            crate::display::screen::all_rows(screen@),
            enabled,
            direction,
            layout,
            crate::display::screen::all_rows(screen@).len() as int,
        ),
{
    let renderer = Renderer::new();
    let ghost all = crate::display::screen::all_rows(screen@);
    let mut out: Vec<u8> = Vec::new();
    let h = screen.history.len();
    let n = h + screen.live.len();
    let mut i: usize = 0;
    while i < n
        invariant
            renderer@.agent_label is None,
            h == screen@.history.len(),
            n == all.len(),
            screen_wf(screen@),
            all == crate::display::screen::all_rows(screen@),
            i <= n,
            out@ == replay_upto(all, enabled, direction, layout, i as int),
        decreases n - i,
    {
        let cells = if i < h {
            assert(all[i as int] == crate::display::row::cell_views(screen.history@[i as int]@));
            screen.history[i].as_slice()
        } else {
            assert(all[i as int] == crate::display::row::cell_views(screen.live@[i - h]@));
            screen.live[i - h].as_slice()
        };
        assert(all[i as int].len() == screen@.width);
        replay_one(&renderer, cells, enabled, direction, layout, &mut out);
        i = i + 1;
    }
    out
}

/// The text of a screen row as shown, without trailing whitespace.
pub open spec fn shown_line(row: Seq<CellView>, enabled: bool, direction: Direction) -> Seq<char> {
    crate::pretty::rows::trim_end(
        crate::display::row::texts(
            crate::display::row::spec_formatted_row(
                row,
                enabled,
                direction,
                Layout::Columns,
                crate::pretty::plain_format(),
            ).glyphs,
        ),
    )
}

/// The number of lines kept: trailing empty lines are dropped.
pub open spec fn kept_lines(lines: Seq<Seq<char>>, n: int) -> int
    decreases n,
{
    if n <= 0 {
        0
    } else if lines[n - 1].len() == 0 {
        kept_lines(lines, n - 1)
    } else {
        n
    }
}

/// Each line followed by a line feed.
pub open spec fn lines_text(lines: Seq<Seq<char>>, n: int) -> Seq<char>
    decreases n,
{
    if n <= 0 {
        Seq::empty()
    } else {
        lines_text(lines, n - 1) + lines[n - 1] + seq!['\n']
    }
}

/// The exit snapshot as plain text: every row as shown, history first,
/// trailing blank lines dropped.
pub open spec fn spec_final_screen(s: ScreenView, enabled: bool, direction: Direction) -> Seq<u8> {
    let rows = crate::display::screen::all_rows(s);
    let lines = Seq::new(rows.len(), |i: int| shown_line(rows[i], enabled, direction));
    utf8(lines_text(lines, kept_lines(lines, lines.len() as int)))
}

fn glyph_text(glyphs: &Vec<Glyph>) -> (t: Vec<char>)
    ensures
        t@ == crate::display::row::texts(glyph_views(glyphs@)),
{
    let ghost gs = glyph_views(glyphs@);
    let mut t: Vec<char> = Vec::new();
    let mut i: usize = 0;
    while i < glyphs.len()
        invariant
            i <= glyphs@.len(),
            gs == glyph_views(glyphs@),
            t@ == crate::display::row::texts(gs.take(i as int)),
        decreases glyphs@.len() - i,
    {
        assert(gs.take(i + 1).drop_last() =~= gs.take(i as int));
        assert(gs[i as int] == glyphs@[i as int]@);
        let c = chars_of(glyphs[i].text.as_str());
        crate::text::push_all(&mut t, c.as_slice());
        i = i + 1;
    }
    assert(gs.take(i as int) =~= gs);
    t
}

/// The plain-text snapshot of the screen for after exit.
pub fn final_screen(screen: &Screen, enabled: bool, direction: Direction) -> (out: Vec<u8>)
    requires
        screen_wf(screen@),
    ensures
        out@ == spec_final_screen(screen@, enabled, direction),
{
    let ghost all = crate::display::screen::all_rows(screen@);
    let ghost lines = Seq::new(all.len(), |i: int| shown_line(all[i], enabled, direction));
    let h = screen.history.len();
    let n = h + screen.live.len();
    let mut texts: Vec<Vec<char>> = Vec::new();
    let mut i: usize = 0;
    while i < n
        invariant
            h == screen@.history.len(),
            n == all.len(),
            screen_wf(screen@),
            all == crate::display::screen::all_rows(screen@),
            lines == Seq::new(all.len(), |i: int| shown_line(all[i], enabled, direction)),
            i <= n,
            texts@.len() == i,
            forall|j: int| 0 <= j < i ==> (#[trigger] texts@[j])@ == lines[j],
        decreases n - i,
    {
        let cells = if i < h {
            assert(all[i as int] == crate::display::row::cell_views(screen.history@[i as int]@));
            screen.history[i].as_slice()
        } else {
            assert(all[i as int] == crate::display::row::cell_views(screen.live@[i - h]@));
            screen.live[i - h].as_slice()
        };
        assert(all[i as int].len() == screen@.width);
        let visual = crate::display::row::visual_row(cells, enabled, direction);
        let t = glyph_text(&visual.glyphs);
        assert(t@.subrange(0, t@.len() as int) =~= t@);
        let e = crate::pretty::rows::trim_end_in(t.as_slice(), 0, t.len());
        let line = crate::pretty::rows::part(t.as_slice(), 0, e);
        texts.push(line);
        i = i + 1;
    }
    let mut kept = n;
    while kept > 0 && texts[kept - 1].len() == 0
        invariant
            kept <= n,
            texts@.len() == n,
            n == lines.len(),
            forall|j: int| 0 <= j < n ==> (#[trigger] texts@[j])@ == lines[j],
            kept_lines(lines, n as int) == kept_lines(lines, kept as int),
        decreases kept,
    {
        kept = kept - 1;
    }
    if kept > 0 {
        assert(texts@[kept - 1]@ == lines[kept - 1]);
    }
    let mut joined: Vec<char> = Vec::new();
    let mut j: usize = 0;
    while j < kept
        invariant
            j <= kept <= n,
            texts@.len() == n,
            n == lines.len(),
            forall|k: int| 0 <= k < n ==> (#[trigger] texts@[k])@ == lines[k],
            joined@ == lines_text(lines, j as int),
        decreases kept - j,
    {
        assert(texts@[j as int]@ == lines[j as int]);
        crate::text::push_all(&mut joined, texts[j].as_slice());
        joined.push('\n');
        j = j + 1;
        assert(joined@ =~= lines_text(lines, j as int));
    }
    let mut out: Vec<u8> = Vec::new();
    push_chars(&mut out, joined.as_slice());
    out
}

/// A byte that no terminal reads as a control: printable ASCII or part of a
/// multi-byte character.
pub open spec fn printable(b: u8) -> bool {
    0x20 <= b && b != 0x7f
}

pub proof fn lemma_high_bytes(x: u8)
    ensures
        (0x80u8 | x) >= 0x80,
        (0xC0u8 | x) >= 0x80,
        (0xE0u8 | x) >= 0x80,
        (0xF0u8 | x) >= 0x80,
{
    assert((0x80u8 | x) >= 0x80) by (bit_vector);
    assert((0xC0u8 | x) >= 0x80) by (bit_vector);
    assert((0xE0u8 | x) >= 0x80) by (bit_vector);
    assert((0xF0u8 | x) >= 0x80) by (bit_vector);
}

proof fn lemma_char_printable(c: char)
    requires
        !crate::hyperlink::is_control(c),
    ensures
        forall|i: int|
            0 <= i < vstd::utf8::encode_scalar(c as u32).len() ==> printable(
                #[trigger] vstd::utf8::encode_scalar(c as u32)[i],
            ),
{
    let v = c as u32;
    if v <= 0x7f {
        assert((v & 0x7f) == v) by (bit_vector)
            requires
                v <= 0x7f,
        ;
    } else {
        lemma_high_bytes(((v >> 6) & 0x1F) as u8);
        lemma_high_bytes(((v >> 12) & 0x0F) as u8);
        lemma_high_bytes(((v >> 18) & 0x7) as u8);
        lemma_high_bytes((v & 0x3F) as u8);
        lemma_high_bytes(((v >> 6) & 0x3F) as u8);
        lemma_high_bytes(((v >> 12) & 0x3F) as u8);
    }
}

proof fn lemma_text_printable(t: Seq<char>)
    requires
        forall|i: int| 0 <= i < t.len() ==> !crate::hyperlink::is_control(#[trigger] t[i]),
    ensures
        forall|i: int| 0 <= i < utf8(t).len() ==> printable(#[trigger] utf8(t)[i]),
    decreases t.len(),
{
    if t.len() > 0 {
        lemma_char_printable(t[0]);
        assert forall|i: int| 0 <= i < t.drop_first().len() implies !crate::hyperlink::is_control(
            #[trigger] t.drop_first()[i],
        ) by {
            assert(t.drop_first()[i] == t[i + 1]);
        }
        lemma_text_printable(t.drop_first());
        let head = vstd::utf8::encode_scalar(t[0] as u32);
        let rest = utf8(t.drop_first());
        assert(utf8(t) == head + rest);
        assert forall|i: int| 0 <= i < utf8(t).len() implies printable(#[trigger] utf8(t)[i]) by {
            if i < head.len() {
                assert(utf8(t)[i] == head[i]);
            } else {
                assert(utf8(t)[i] == rest[i - head.len()]);
            }
        }
    }
}

/// Link metadata that was accepted can always be sent: between the
/// `OSC 8 ; id=` opening and the string terminator, no byte is a control,
/// so the destination and identifier can never end the sequence early or
/// smuggle a terminal command.
pub proof fn lemma_link_bytes_printable(uri: Seq<char>, id: Seq<char>)
    requires
        crate::hyperlink::valid_link(uri, id),
    ensures
        osc8_open((uri, id)).len() >= 9,
        forall|i: int|
            7 <= i < osc8_open((uri, id)).len() - 2 ==> printable(#[trigger] osc8_open((uri, id))[i]),
{
    lemma_text_printable(uri);
    lemma_text_printable(id);
    let head = seq![27u8, 93u8, 56u8, 59u8, 105u8, 100u8, 61u8];
    let a = utf8(id);
    let b = utf8(uri);
    let all = osc8_open((uri, id));
    assert(all == head + a + seq![59u8] + b + seq![27u8, 92u8]);
    assert forall|i: int| 7 <= i < all.len() - 2 implies printable(#[trigger] all[i]) by {
        if i < 7 + a.len() {
            assert(all[i] == a[i - 7]);
        } else if i == 7 + a.len() {
            assert(all[i] == 59u8);
        } else {
            assert(all[i] == b[i - 8 - a.len()]);
        }
    }
}

/// Mouse coordinates reach the logical cells: a click on the host column
/// where a kept row draws a cell with text (or the second half of a wide
/// character) is mapped back to that cell, past the label margin.
pub proof fn lemma_click_reaches_cell(v: RendererView, row: u16, c: int)
    requires
        renderer_wf(v),
        (row as int) < v.rows.len(),
        crate::display::maps::paired(v.source[row as int]),
        0 <= c < v.source[row as int].len(),
        v.source[row as int][c].contents.len() > 0 || v.source[row as int][c].wide_continuation,
        v.rows[row as int].logical_to_visual[c] + margin_of(v) <= u16::MAX,
    ensures
        spec_logical_column(
            v,
            row,
            (v.rows[row as int].logical_to_visual[c] + margin_of(v)) as u16,
        ) == c,
{
    assert(mouse_ok(v.rows[row as int], v.source[row as int]));
}

/// The row the cursor is drawn on: the child's, held inside the screen.
pub open spec fn cursor_row_of(s: ScreenView) -> int {
    if (s.cursor_row as int) < s.live.len() {
        s.cursor_row as int
    } else {
        s.live.len() - 1
    }
}

/// The cell the cursor stands on, held inside the row.
pub open spec fn cursor_cell_of(s: ScreenView) -> int {
    if (s.cursor_col as int) < s.width as int {
        s.cursor_col as int
    } else {
        s.width - 1
    }
}

/// Every frame that sends anything hides the cursor first and ends by placing
/// it, with `CSI row ; column H`, on its row at the host column where its
/// logical cell is drawn (the visual column plus the margin), one-based;
/// `CSI ? 25 h` follows exactly when the child shows the cursor in the live
/// view. The renderer records that position.
pub proof fn lemma_frame_places_cursor(
    v: RendererView,
    s: ScreenView,
    offset: usize,
    enabled: bool,
    direction: Direction,
)
    requires
        screen_wf(s),
    ensures
        ({
            let (w, b) = render_result(v, s, offset, enabled, direction);
            let hidden = s.hide_cursor || clamp_offset(s, offset) > 0;
            let row = cursor_row_of(s);
            let col = w.rows[row].logical_to_visual[cursor_cell_of(s)] + margin_of(w);
            let place = seq![27u8, 91u8] + decimal((row + 1) as nat) + seq![59u8] + decimal((col + 1) as nat)
                + seq![72u8];
            let end = if hidden {
                place
            } else {
                place + seq![27u8, 91u8, 63u8, 50u8, 53u8, 104u8]
            };
            b.len() > 0 ==> {
                &&& b.len() >= 6 + end.len()
                &&& b.take(6) == seq![27u8, 91u8, 63u8, 50u8, 53u8, 108u8]
                &&& b.subrange(b.len() - end.len(), b.len() as int) == end
                &&& w.cursor == Some((row as u16, col as u16, hidden))
            }
        }),
{
    let off = clamp_offset(s, offset);
    let v1 = prepared(v, frame_settings(s, off, enabled, direction));
    let grid = viewport(s, off);
    let formats = frame_formats(v1, grid, cursor_hint(s, off));
    let labels = frame_labels(v1, grid);
    let f = frame_upto(v1, grid, formats, labels, enabled, direction, s.live.len() as int);
    let v2 = RendererView { source: f.source, rows: f.rows, formats, labels, ..v1 };
    let (w, b) = render_result(v, s, offset, enabled, direction);
    assert((w, b) == finish_result(v2, s, off, f.updates));
    let height = s.live.len() as int;
    let row = cursor_row_of(s);
    let col = cursor_cell_of(s);
    assert(row == if s.cursor_row < height - 1 { s.cursor_row as int } else { height - 1 });
    assert(col == if s.cursor_col < s.width - 1 { s.cursor_col as int } else { s.width - 1 });
    let vcol = v2.rows[row].logical_to_visual[col] + margin_of(v2);
    let hidden = s.hide_cursor || off > 0;
    if b.len() > 0 {
        assert(w.rows == v2.rows);
        assert(margin_of(w) == margin_of(v2));
        let at = if v2.attribution && !v2.attribution_drawn {
            attribution_bytes(height, s.width + margin_of(v2))
        } else {
            Seq::empty()
        };
        let place = cursor_to(row + 1, vcol + 1);
        let show = if !hidden {
            show_cursor_bytes()
        } else {
            Seq::empty()
        };
        let head = hide_cursor_bytes() + f.updates + at + sgr_reset();
        assert(b == head + place + show);
        let end = place + show;
        assert(b =~= head + end);
        assert(b.subrange(b.len() - end.len(), b.len() as int) =~= end);
        assert(b.take(6) =~= hide_cursor_bytes());
        assert(place =~= seq![27u8, 91u8] + decimal((row + 1) as nat) + seq![59u8] + decimal(
            (vcol + 1) as nat,
        ) + seq![72u8]);
        assert(end =~= if hidden {
            place
        } else {
            place + seq![27u8, 91u8, 63u8, 50u8, 53u8, 104u8]
        });
    }
}

/// The speaker margin: bold, in cyan (colour 6) for `you:` and magenta
/// (colour 5) for every other label, the label's text padded with spaces to
/// eight columns, then the rendition reset.
pub proof fn lemma_margin_bytes(t: Seq<char>)
    requires
        t.len() <= 8,
    ensures
        label_bytes(Some(t)) == seq![27u8, 91u8, 49u8, 59u8, 51u8, 56u8, 59u8, 53u8, 59u8, if t == seq![
            'y',
            'o',
            'u',
            ':',
        ] {
            54u8
        } else {
            53u8
        }, 109u8] + utf8(t) + utf8(Seq::new((8 - t.len()) as nat, |i: int| ' ')) + seq![27u8, 91u8, 48u8, 109u8],
        label_bytes(None) == seq![27u8, 91u8, 49u8, 59u8, 51u8, 56u8, 59u8, 53u8, 59u8, 53u8, 109u8] + utf8(
            Seq::new(8, |i: int| ' '),
        ) + seq![27u8, 91u8, 48u8, 109u8],
{
    let pad = Seq::new((8 - t.len()) as nat, |i: int| ' ');
    if t.len() < 8 {
        assert(pad_label(t) == t + pad);
    } else {
        assert(pad =~= Seq::<char>::empty());
        assert(t + pad =~= t);
    }
    crate::bytes::lemma_utf8_concat(t, pad);
    assert(you_label() == seq!['y', 'o', 'u', ':']);
    assert(pad_label(Seq::<char>::empty()) =~= Seq::new(8, |i: int| ' '));
    assert(Some(Seq::<char>::empty()) != Some(you_label()));
}

/// The attribution sits on the row just below the child's screen, in bold
/// cyan: `Powered by: Gal Havkin`, cut to the host's width, then the
/// rendition is reset and the rest of the row cleared.
pub proof fn lemma_attribution_line(height: int, columns: int)
    requires
        height >= 0,
        columns >= 0,
    ensures
        attribution_bytes(height, columns) == seq![27u8, 91u8] + decimal((height + 1) as nat) + seq![
            59u8,
            49u8,
            72u8,
            27u8,
            91u8,
            48u8,
            59u8,
            49u8,
            59u8,
            51u8,
            54u8,
            109u8,
        ] + "Powered by: Gal Havkin"@.map_values(|c: char| c as u8).take(if columns < 22 {
            columns
        } else {
            22
        }) + seq![27u8, 91u8, 48u8, 109u8, 27u8, 91u8, 75u8],
{
    reveal_strlit("Powered by: Gal Havkin");
    assert("Powered by: Gal Havkin"@.map_values(|c: char| c as u8) =~= credit());
    let k = if columns < 22 {
        columns
    } else {
        22
    };
    assert(sgr_reset() + erase_line() =~= seq![27u8, 91u8, 48u8, 109u8, 27u8, 91u8, 75u8]);
    assert(attribution_bytes(height, columns) =~= seq![27u8, 91u8] + decimal((height + 1) as nat) + seq![
        59u8,
        49u8,
        72u8,
        27u8,
        91u8,
        48u8,
        59u8,
        49u8,
        59u8,
        51u8,
        54u8,
        109u8,
    ] + credit().take(k) + (sgr_reset() + erase_line()));
}

/// The sequences a frame is built from: a link opens as
/// `OSC 8 ; id=ID ; URI ST` and closes as `OSC 8 ; ; ST`; a repainted row
/// starts with `CSI row ; 1 H` and `CSI 0 m`; the cursor is hidden with
/// `CSI ? 25 l` and shown with `CSI ? 25 h`.
pub proof fn lemma_frame_sequences(link: (Seq<char>, Seq<char>), row: int)
    ensures
        osc8_open(link) == seq![27u8, 93u8, 56u8, 59u8] + "id="@.map_values(|c: char| c as u8) + utf8(link.1)
            + seq![59u8] + utf8(link.0) + seq![27u8, 92u8],
        osc8_close() == seq![27u8, 93u8, 56u8, 59u8, 59u8, 27u8, 92u8],
        row_start(row) == seq![27u8, 91u8] + decimal(row as nat) + seq![59u8, 49u8, 72u8] + seq![
            27u8,
            91u8,
            48u8,
            109u8,
        ],
        hide_cursor_bytes() == seq![27u8, 91u8, 63u8, 50u8, 53u8, 108u8],
        show_cursor_bytes() == seq![27u8, 91u8, 63u8, 50u8, 53u8, 104u8],
{
    reveal_strlit("id=");
    assert(seq![27u8, 93u8, 56u8, 59u8] + "id="@.map_values(|c: char| c as u8) =~= seq![
        27u8,
        93u8,
        56u8,
        59u8,
        105u8,
        100u8,
        61u8,
    ]);
    assert(row_start(row) =~= seq![27u8, 91u8] + decimal(row as nat) + seq![59u8, 49u8, 72u8] + seq![
        27u8,
        91u8,
        48u8,
        109u8,
    ]);
}

/// The speaker margin is eight columns wide when an agent is named, and
/// absent otherwise. On a row the last frame did not draw, a host column maps
/// back by the margin, and a column inside the margin maps to 0.
pub proof fn lemma_margin_width(v: RendererView, row: u16, col: u16)
    ensures
        v.agent_label is Some ==> margin_of(v) == 8,
        v.agent_label is None ==> margin_of(v) == 0,
        (row as int) >= v.rows.len() ==> spec_logical_column(v, row, col) == if col >= margin_of(v) {
            (col - margin_of(v)) as u16
        } else {
            0
        },
{
}

/// A history row is drawn on the host's top row (`CSI 1 ; 1 H`, reset),
/// then, after its text, the rendition is reset, the rest of the row
/// cleared, and a CR LF on the bottom row of the host (`CSI rows ; 1 H`)
/// scrolls it into the host's scrollback. Only the cells that fit beside the
/// margin are drawn.
pub proof fn lemma_history_sequences(bottom: u16, cells: Seq<CellView>, host_cols: u16, margin: u16)
    ensures
        history_head() == seq![27u8, 91u8, 49u8, 59u8, 49u8, 72u8] + seq![27u8, 91u8, 48u8, 109u8],
        history_tail(bottom) == seq![27u8, 91u8, 48u8, 109u8] + seq![27u8, 91u8, 75u8] + seq![27u8, 91u8]
            + decimal(bottom as nat) + seq![59u8, 49u8, 72u8] + seq![13u8, 10u8],
        fitted(cells, host_cols, margin).len() <= cells.len(),
        host_cols >= margin ==> fitted(cells, host_cols, margin).len() <= host_cols - margin,
        host_cols >= margin && cells.len() <= host_cols - margin ==> fitted(cells, host_cols, margin) == cells,
        forall|k: int| 0 <= k < fitted(cells, host_cols, margin).len() ==> #[trigger] fitted(cells, host_cols, margin)[k]
            == cells[k],
{
    assert(history_head() =~= seq![27u8, 91u8, 49u8, 59u8, 49u8, 72u8] + seq![27u8, 91u8, 48u8, 109u8]);
    assert(history_tail(bottom) =~= seq![27u8, 91u8, 48u8, 109u8] + seq![27u8, 91u8, 75u8] + seq![27u8, 91u8]
        + decimal(bottom as nat) + seq![59u8, 49u8, 72u8] + seq![13u8, 10u8]);
    if host_cols >= margin && cells.len() <= host_cols - margin {
        assert(fitted(cells, host_cols, margin) =~= cells);
    }
}

/// Browsing further back than the history kept draws the oldest view, and
/// while browsing (or when the child hides it) the cursor stays hidden: no
/// frame ends by showing it.
pub proof fn lemma_offset_clamped_cursor_hidden(
    v: RendererView,
    s: ScreenView,
    offset: usize,
    enabled: bool,
    direction: Direction,
)
    requires
        screen_wf(s),
    ensures
        render_result(v, s, offset, enabled, direction) == render_result(
            v,
            s,
            clamp_offset(s, offset) as usize,
            enabled,
            direction,
        ),
        (clamp_offset(s, offset) > 0 || s.hide_cursor) ==> ({
            let r = render_result(v, s, offset, enabled, direction);
            &&& r.0.cursor matches Some(c) && c.2
            &&& r.1.len() > 0 ==> r.1.last() == 72u8
        }),
{
    let off = clamp_offset(s, offset);
    assert(clamp_offset(s, off as usize) == off);
    let v1 = prepared(v, frame_settings(s, off, enabled, direction));
    let grid = viewport(s, off);
    let formats = frame_formats(v1, grid, cursor_hint(s, off));
    let labels = frame_labels(v1, grid);
    let f = frame_upto(v1, grid, formats, labels, enabled, direction, s.live.len() as int);
    let v2 = RendererView { source: f.source, rows: f.rows, formats, labels, ..v1 };
    let height = s.live.len() as int;
    let row = if s.cursor_row < height - 1 {
        s.cursor_row as int
    } else {
        height - 1
    };
    let col = if s.cursor_col < s.width - 1 {
        s.cursor_col as int
    } else {
        s.width - 1
    };
    let vcol = v2.rows[row].logical_to_visual[col] + margin_of(v2);
    let tail = cursor_to(row + 1, vcol + 1);
    assert(tail.last() == 72u8);
}

/// The renderer with its frame fields as given, all else as `v`.
proof fn lemma_frame_ignores_attribution(
    v: RendererView,
    w: RendererView,
    grid: Seq<Seq<CellView>>,
    formats: Seq<FormatView>,
    labels: Seq<Option<Seq<char>>>,
    enabled: bool,
    direction: Direction,
    n: int,
)
    requires
        w == (RendererView { attribution: w.attribution, ..v }),
    ensures
        frame_upto(v, grid, formats, labels, enabled, direction, n) == frame_upto(
            w,
            grid,
            formats,
            labels,
            enabled,
            direction,
            n,
        ),
    decreases n,
{
    if n > 0 {
        lemma_frame_ignores_attribution(v, w, grid, formats, labels, enabled, direction, n - 1);
    }
}

/// Once the attribution footer is drawn it is not drawn again: until the
/// frame is forgotten, the bytes sent are those of a renderer without it.
pub proof fn lemma_footer_drawn_once(
    v: RendererView,
    s: ScreenView,
    offset: usize,
    enabled: bool,
    direction: Direction,
)
    requires
        screen_wf(s),
        v.attribution_drawn,
        v.settings == Some(frame_settings(s, clamp_offset(s, offset), enabled, direction)),
    ensures
        render_result(v, s, offset, enabled, direction).1 == render_result(
            RendererView { attribution: false, ..v },
            s,
            offset,
            enabled,
            direction,
        ).1,
        render_result(v, s, offset, enabled, direction).0.attribution_drawn,
{
    let w = RendererView { attribution: false, ..v };
    let off = clamp_offset(s, offset);
    let st = frame_settings(s, off, enabled, direction);
    assert(prepared(v, st) == v);
    assert(prepared(w, st) == w);
    let grid = viewport(s, off);
    let formats = frame_formats(v, grid, cursor_hint(s, off));
    let labels = frame_labels(v, grid);
    assert(frame_formats(w, grid, cursor_hint(s, off)) == formats);
    assert(frame_labels(w, grid) == labels);
    lemma_frame_ignores_attribution(v, w, grid, formats, labels, enabled, direction, s.live.len() as int);
}

/// The repaint bytes a frame gathers for its changed rows.
pub open spec fn frame_updates(
    v: RendererView,
    s: ScreenView,
    offset: usize,
    enabled: bool,
    direction: Direction,
) -> Seq<u8> {
    let off = clamp_offset(s, offset);
    let v1 = prepared(v, frame_settings(s, off, enabled, direction));
    let grid = viewport(s, off);
    frame_upto(
        v1,
        grid,
        frame_formats(v1, grid, cursor_hint(s, off)),
        frame_labels(v1, grid),
        enabled,
        direction,
        s.live.len() as int,
    ).updates
}

/// Row `i` is kept from the last frame.
pub open spec fn kept_row(
    w: RendererView,
    grid: Seq<Seq<CellView>>,
    formats: Seq<FormatView>,
    labels: Seq<Option<Seq<char>>>,
    i: int,
) -> bool {
    w.source[i] == grid[i] && i < w.formats.len() && w.formats[i] == formats[i] && i < w.labels.len()
        && w.labels[i] == labels[i]
}

/// Every row but `k` is kept from the last frame.
pub open spec fn kept_except(
    w: RendererView,
    grid: Seq<Seq<CellView>>,
    formats: Seq<FormatView>,
    labels: Seq<Option<Seq<char>>>,
    k: int,
) -> bool {
    forall|i: int| 0 <= i < grid.len() && i != k ==> #[trigger] kept_row(w, grid, formats, labels, i)
}

proof fn lemma_frame_one_row(
    w: RendererView,
    grid: Seq<Seq<CellView>>,
    formats: Seq<FormatView>,
    labels: Seq<Option<Seq<char>>>,
    enabled: bool,
    direction: Direction,
    k: int,
    n: int,
)
    requires
        0 <= k < grid.len(),
        0 <= n <= grid.len(),
        w.source.len() >= grid.len(),
        w.source.len() == w.rows.len(),
        kept_except(w, grid, formats, labels, k),
    ensures
        frame_upto(w, grid, formats, labels, enabled, direction, n).source.len() == w.source.len(),
        forall|j: int|
            0 <= j < w.source.len() && j != k ==> #[trigger] frame_upto(
                w,
                grid,
                formats,
                labels,
                enabled,
                direction,
                n,
            ).source[j] == w.source[j],
        frame_upto(w, grid, formats, labels, enabled, direction, n).updates == if n <= k {
            Seq::<u8>::empty()
        } else {
            frame_step(
                Frame { source: w.source, rows: w.rows, updates: Seq::empty() },
                w,
                grid,
                formats,
                labels,
                enabled,
                direction,
                k,
            ).updates
        },
    decreases n,
{
    if n > 0 {
        lemma_frame_one_row(w, grid, formats, labels, enabled, direction, k, n - 1);
        let f = frame_upto(w, grid, formats, labels, enabled, direction, n - 1);
        let i = n - 1;
        if i != k {
            assert(kept_row(w, grid, formats, labels, i));
            assert(f.source[i] == w.source[i]);
            assert(row_kept(f, w, grid, formats, labels, i));
        } else {
            assert forall|j: int| 0 <= j < k implies #[trigger] kept_row(w, grid, formats, labels, j) by {
                assert(kept_row(w, grid, formats, labels, j));
            }
            lemma_frame_rows_before(w, grid, formats, labels, enabled, direction, k);
        }
    }
}

proof fn lemma_frame_rows_before(
    w: RendererView,
    grid: Seq<Seq<CellView>>,
    formats: Seq<FormatView>,
    labels: Seq<Option<Seq<char>>>,
    enabled: bool,
    direction: Direction,
    n: int,
)
    requires
        0 <= n <= grid.len(),
        w.source.len() >= grid.len(),
        forall|i: int| 0 <= i < n ==> #[trigger] kept_row(w, grid, formats, labels, i),
    ensures
        frame_upto(w, grid, formats, labels, enabled, direction, n) == (Frame {
            source: w.source,
            rows: w.rows,
            updates: Seq::empty(),
        }),
    decreases n,
{
    if n > 0 {
        lemma_frame_rows_before(w, grid, formats, labels, enabled, direction, n - 1);
        assert(kept_row(w, grid, formats, labels, n - 1));
    }
}

/// Unchanged rows are never sent again: after a frame, a live screen that
/// differs from it only in row `k` (without Markdown or labels) repaints at
/// most that row, as the formatted row `k`.
pub proof fn lemma_only_changed_row_repainted(
    v: RendererView,
    s1: ScreenView,
    s2: ScreenView,
    k: int,
    enabled: bool,
    direction: Direction,
)
    requires
        renderer_wf(v),
        screen_wf(s1),
        screen_wf(s2),
        !v.pretty,
        v.agent_label is None,
        s1.history == s2.history,
        s1.width == s2.width,
        s1.live.len() == s2.live.len(),
        0 <= k < s1.live.len(),
        forall|i: int| 0 <= i < s1.live.len() && i != k ==> #[trigger] s1.live[i] == s2.live[i],
    ensures
        ({
            let w = render_result(v, s1, 0, enabled, direction).0;
            let u = frame_updates(w, s2, 0, enabled, direction);
            u == Seq::<u8>::empty() || u == row_start(k + 1) + row_bytes(
                crate::display::row::spec_formatted_row(
                    s2.live[k],
                    enabled,
                    direction,
                    w.layout,
                    crate::pretty::plain_format(),
                ),
                None,
                false,
            )
        }),
{
    let h = s1.live.len() as int;
    let st = frame_settings(s1, 0, enabled, direction);
    let v1 = prepared(v, st);
    let g1 = viewport(s1, 0);
    let g2 = viewport(s2, 0);
    assert(g1 =~= s1.live);
    assert(g2 =~= s2.live);
    let fs = frame_formats(v1, g1, cursor_hint(s1, 0));
    let ls = frame_labels(v1, g1);
    lemma_frame_len(v1, g1, fs, ls, enabled, direction, h);
    let w = render_result(v, s1, 0, enabled, direction).0;
    assert(w.settings == Some(st));
    assert(frame_settings(s2, 0, enabled, direction) == st);
    assert(prepared(w, st) == w);
    let fs2 = frame_formats(w, g2, cursor_hint(s2, 0));
    let ls2 = frame_labels(w, g2);
    assert(w.formats == fs);
    assert(w.labels == ls);
    assert(fs2 =~= fs);
    assert(ls2 =~= ls) by {
        assert forall|i: int| 0 <= i < h implies ls2[i] == ls[i] by {}
    }
    assert(kept_except(w, g2, fs2, ls2, k)) by {
        assert forall|i: int| 0 <= i < g2.len() && i != k implies #[trigger] kept_row(w, g2, fs2, ls2, i) by {
            assert(w.source[i] == g1[i]);
        }
    }
    lemma_frame_one_row(w, g2, fs2, ls2, enabled, direction, k, h);
    assert(margin_of(w) == 0);
    assert(ls2[k] is None);
    assert(fs2[k] == crate::pretty::plain_format());
}

proof fn lemma_fresh_frame_rows(
    v: RendererView,
    grid: Seq<Seq<CellView>>,
    formats: Seq<FormatView>,
    labels: Seq<Option<Seq<char>>>,
    enabled: bool,
    direction: Direction,
    n: int,
)
    requires
        v.source.len() == 0,
        v.rows.len() == 0,
        0 <= n <= grid.len(),
    ensures
        frame_upto(v, grid, formats, labels, enabled, direction, n).rows.len() == n,
        frame_upto(v, grid, formats, labels, enabled, direction, n).source.len() == n,
        forall|i: int|
            0 <= i < n ==> #[trigger] frame_upto(v, grid, formats, labels, enabled, direction, n).rows[i]
                == crate::display::row::spec_formatted_row(grid[i], enabled, direction, v.layout, formats[i]),
    decreases n,
{
    if n > 0 {
        lemma_fresh_frame_rows(v, grid, formats, labels, enabled, direction, n - 1);
    }
}

/// With correction off and no Markdown, a fresh frame (the first, or after
/// anything that forgets the frame) shows every row of paired cells as it is:
/// its glyphs are the cells in column order and both column maps are the
/// identity, so the host receives the logical text unchanged.
pub proof fn lemma_uncorrected_frame_is_logical(
    v: RendererView,
    s: ScreenView,
    offset: usize,
    direction: Direction,
)
    requires
        screen_wf(s),
        !v.pretty,
        v.settings != Some(frame_settings(s, clamp_offset(s, offset), false, direction)),
        forall|i: int|
            0 <= i < s.live.len() ==> crate::display::maps::paired(
                #[trigger] viewport(s, clamp_offset(s, offset))[i],
            ),
    ensures
        ({
            let r = render_result(v, s, offset, false, direction).0;
            let grid = viewport(s, clamp_offset(s, offset));
            &&& r.rows.len() == s.live.len()
            &&& forall|i: int|
                0 <= i < s.live.len() ==> (#[trigger] r.rows[i]).glyphs == crate::display::row::cell_glyphs(
                    grid[i],
                    grid[i].len() as int,
                ) && r.rows[i].logical_to_visual == crate::display::row::identity_map(grid[i].len() as int)
                    && r.rows[i].visual_to_logical == crate::display::row::identity_map(
                    grid[i].len() as int,
                )
        }),
{
    let off = clamp_offset(s, offset);
    let v1 = prepared(v, frame_settings(s, off, false, direction));
    let grid = viewport(s, off);
    let formats = frame_formats(v1, grid, cursor_hint(s, off));
    let labels = frame_labels(v1, grid);
    let h = s.live.len() as int;
    lemma_viewport_width(s, off);
    lemma_fresh_frame_rows(v1, grid, formats, labels, false, direction, h);
    let r = render_result(v, s, offset, false, direction).0;
    assert forall|i: int| 0 <= i < h implies (#[trigger] r.rows[i]).glyphs == crate::display::row::cell_glyphs(
        grid[i],
        grid[i].len() as int,
    ) && r.rows[i].logical_to_visual == crate::display::row::identity_map(grid[i].len() as int)
        && r.rows[i].visual_to_logical == crate::display::row::identity_map(grid[i].len() as int) by {
        assert(formats[i] == crate::pretty::plain_format());
        crate::display::maps::lemma_uncorrected_row_is_identity(grid[i], direction, v1.layout);
    }
}

proof fn lemma_frame_unchanged(
    v: RendererView,
    grid: Seq<Seq<CellView>>,
    formats: Seq<FormatView>,
    labels: Seq<Option<Seq<char>>>,
    enabled: bool,
    direction: Direction,
    n: int,
)
    requires
        0 <= n <= grid.len(),
        v.source.len() >= grid.len(),
        forall|i: int| 0 <= i < grid.len() ==> v.source[i] == grid[i],
        v.formats == formats,
        v.labels == labels,
        formats.len() == grid.len(),
        labels.len() == grid.len(),
    ensures
        frame_upto(v, grid, formats, labels, enabled, direction, n) == (Frame {
            source: v.source,
            rows: v.rows,
            updates: Seq::empty(),
        }),
    decreases n,
{
    if n > 0 {
        lemma_frame_unchanged(v, grid, formats, labels, enabled, direction, n - 1);
    }
}

/// Drawing a screen a second time with the same arguments sends nothing and
/// leaves the renderer as the first drawing left it.
pub proof fn lemma_render_settles(
    v: RendererView,
    s: ScreenView,
    offset: usize,
    enabled: bool,
    direction: Direction,
)
    requires
        renderer_wf(v),
        screen_wf(s),
    ensures
        render_result(render_result(v, s, offset, enabled, direction).0, s, offset, enabled, direction)
            == (render_result(v, s, offset, enabled, direction).0, Seq::<u8>::empty()),
{
    let off = clamp_offset(s, offset);
    let height = s.live.len() as int;
    let st = frame_settings(s, off, enabled, direction);
    let v1 = prepared(v, st);
    let grid = viewport(s, off);
    let formats = frame_formats(v1, grid, cursor_hint(s, off));
    let labels = frame_labels(v1, grid);
    lemma_viewport_width(s, off);
    if v1.pretty {
        crate::pretty::detect::lemma_detect_len(grid, cursor_hint(s, off));
    }
    lemma_frame_len(v1, grid, formats, labels, enabled, direction, height);
    let f = frame_upto(v1, grid, formats, labels, enabled, direction, height);
    let v2 = RendererView { source: f.source, rows: f.rows, formats, labels, ..v1 };
    let w = render_result(v, s, offset, enabled, direction).0;
    assert(w.settings == Some(st));
    assert(prepared(w, st) == w);
    assert(frame_formats(w, grid, cursor_hint(s, off)) == formats);
    assert(frame_labels(w, grid) == labels);
    lemma_frame_unchanged(w, grid, formats, labels, enabled, direction, height);
    let g = frame_upto(w, grid, formats, labels, enabled, direction, height);
    assert(RendererView { source: g.source, rows: g.rows, formats, labels, ..w } == w);
}

} // verus!
