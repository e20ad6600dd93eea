//! Conservative, display-only recognition of Markdown structure and speaker
//! markers. The agent's terminal grid is never changed.
pub mod rows;
pub mod tables;
pub mod detect;
pub mod labels;

pub use detect::detect;
pub use labels::speaker_labels;

use vstd::prelude::*;
use crate::display::{Color, Glyph, GlyphView, Style};
use crate::display::row::glyph_views;
use crate::text::string_from_chars;

verus! {

/// How one row is decorated: table pipes and rules, heading level, quote,
/// list marker column and code fences.
#[derive(Debug)]
pub struct RowFormat {
    pipes: Vec<u16>,
    separator: bool,
    header: bool,
    heading: u8,
    quote: bool,
    marker: Option<u16>,
    fence: bool,
    code: bool,
}

pub struct FormatView {
    pub pipes: Seq<u16>,
    pub separator: bool,
    pub header: bool,
    pub heading: u8,
    pub quote: bool,
    pub marker: Option<u16>,
    pub fence: bool,
    pub code: bool,
}

impl View for RowFormat {
    type V = FormatView;

    closed spec fn view(&self) -> FormatView {
        FormatView {
            pipes: self.pipes@,
            separator: self.separator,
            header: self.header,
            heading: self.heading,
            quote: self.quote,
            marker: self.marker,
            fence: self.fence,
            code: self.code,
        }
    }
}

pub open spec fn plain_format() -> FormatView {
    FormatView {
        pipes: Seq::empty(),
        separator: false,
        header: false,
        heading: 0,
        quote: false,
        marker: None,
        fence: false,
        code: false,
    }
}

/// The text a table pipe is drawn as: a vertical rule, or on the separator row
/// a junction (`├`, `┼`, `┤`).
pub open spec fn pipe_text(f: FormatView, col: u16) -> Seq<char> {
    if f.separator {
        if f.pipes.first() == col {
            seq!['\u{251c}']
        } else if f.pipes.last() == col {
            seq!['\u{2524}']
        } else {
            seq!['\u{253c}']
        }
    } else {
        seq!['\u{2502}']
    }
}

/// The heading colour for levels 1, 2 and deeper.
pub open spec fn heading_color(heading: u8) -> Color {
    Color::Idx(
        if heading == 1 {
            6u8
        } else if heading == 2 {
            4u8
        } else {
            5u8
        },
    )
}

/// A glyph decorated by a row format; geometry and logical text positions never
/// change.
pub open spec fn apply_glyph(f: FormatView, g: GlyphView) -> GlyphView {
    let col = g.logical_col;
    let s = g.style;
    let base = if f.pipes.contains(col) {
        GlyphView { text: pipe_text(f, col), style: Style { dim: true, ..s }, ..g }
    } else if f.separator && col > f.pipes[0] && col < f.pipes.last() {
        GlyphView { text: seq!['\u{2500}'], style: Style { dim: true, ..s }, ..g }
    } else if f.header || f.heading > 0 || f.marker == Some(col) {
        GlyphView { style: Style { bold: true, ..s }, ..g }
    } else if f.fence && g.text != seq![' '] {
        GlyphView { style: Style { dim: true, ..s }, ..g }
    } else {
        g
    };
    let s1 = base.style;
    let s2 = if f.heading > 0 {
        Style {
            underline: s1.underline || f.heading == 1,
            fg: if s1.fg == Color::Default {
                heading_color(f.heading)
            } else {
                s1.fg
            },
            ..s1
        }
    } else {
        s1
    };
    GlyphView { style: Style { italic: s2.italic || f.quote, ..s2 }, ..base }
}

/// Decoration only adds: geometry, link, background and inverse stay; bold,
/// dim, italic and underline are only switched on; the foreground changes
/// only where it was the default; text changes only on table rows.
pub proof fn lemma_apply_only_decorates(f: FormatView, g: GlyphView)
    ensures
        apply_glyph(f, g).width == g.width,
        apply_glyph(f, g).logical_col == g.logical_col,
        apply_glyph(f, g).hyperlink == g.hyperlink,
        apply_glyph(f, g).style.bg == g.style.bg,
        apply_glyph(f, g).style.inverse == g.style.inverse,
        g.style.bold ==> apply_glyph(f, g).style.bold,
        g.style.dim ==> apply_glyph(f, g).style.dim,
        g.style.italic ==> apply_glyph(f, g).style.italic,
        g.style.underline ==> apply_glyph(f, g).style.underline,
        apply_glyph(f, g).style.fg == g.style.fg || g.style.fg == Color::Default,
        apply_glyph(f, g).text != g.text ==> f.pipes.contains(g.logical_col) || f.separator,
        f == plain_format() ==> apply_glyph(f, g) == g,
{
}

/// What each mark draws: table pipes as dim box lines (`│`, or `├`, `┼`,
/// `┤` on the rule row), the rule between the outer pipes as dim `─`;
/// headers, headings and list markers in bold; level-1 headings underlined;
/// a heading's default foreground becomes cyan (colour 6) at level 1, blue
/// (4) at level 2 and magenta (5) deeper; quotes in italics; code inside a
/// fence dim, except spaces.
pub proof fn lemma_decorations(f: FormatView, g: GlyphView)
    ensures
        f.pipes.contains(g.logical_col) ==> apply_glyph(f, g).style.dim && apply_glyph(f, g).text == if !f.separator {
            seq!['\u{2502}']
        } else if f.pipes.first() == g.logical_col {
            seq!['\u{251c}']
        } else if f.pipes.last() == g.logical_col {
            seq!['\u{2524}']
        } else {
            seq!['\u{253c}']
        },
        !f.pipes.contains(g.logical_col) && f.separator && f.pipes.len() > 0 && f.pipes[0] < g.logical_col
            < f.pipes.last() ==> apply_glyph(f, g).style.dim && apply_glyph(f, g).text == seq!['\u{2500}'],
        !f.pipes.contains(g.logical_col) && !f.separator && (f.header || f.heading > 0 || f.marker == Some(
            g.logical_col,
        )) ==> apply_glyph(f, g).style.bold,
        f.heading == 1 ==> apply_glyph(f, g).style.underline,
        f.heading == 1 && g.style.fg == Color::Default ==> apply_glyph(f, g).style.fg == Color::Idx(6),
        f.heading == 2 && g.style.fg == Color::Default ==> apply_glyph(f, g).style.fg == Color::Idx(4),
        f.heading >= 3 && g.style.fg == Color::Default ==> apply_glyph(f, g).style.fg == Color::Idx(5),
        f.heading == 0 ==> apply_glyph(f, g).style.fg == g.style.fg,
        f.heading != 1 ==> apply_glyph(f, g).style.underline == g.style.underline,
        f.quote ==> apply_glyph(f, g).style.italic,
        !f.quote ==> apply_glyph(f, g).style.italic == g.style.italic,
        f.fence && g.text != seq![' '] && !f.pipes.contains(g.logical_col) ==> apply_glyph(f, g).style.dim
            || f.header || f.heading > 0 || f.marker == Some(g.logical_col) || f.separator,
        !f.pipes.contains(g.logical_col) && !f.separator ==> apply_glyph(f, g).text == g.text,
{
    if f.pipes.len() > 0 {
        assert(f.pipes.first() == f.pipes[0]);
    }
}

fn contains_u16(v: &Vec<u16>, x: u16) -> (r: bool)
    ensures
        r == v@.contains(x),
{
    let mut i: usize = 0;
    while i < v.len()
        invariant
            i <= v@.len(),
            forall|j: int| 0 <= j < i ==> v@[j] != x,
        decreases v@.len() - i,
    {
        if v[i] == x {
            return true;
        }
        i = i + 1;
    }
    false
}

impl RowFormat {
    #[verifier::type_invariant]
    closed spec fn wf(self) -> bool {
        self.separator ==> self.pipes@.len() > 0
    }

    /// No decoration.
    pub fn plain() -> (f: RowFormat)
        ensures
            f@ == plain_format(),
    {
        RowFormat {
            pipes: Vec::new(),
            separator: false,
            header: false,
            heading: 0,
            quote: false,
            marker: None,
            fence: false,
            code: false,
        }
    }

    pub fn duplicate(&self) -> (f: RowFormat)
        ensures
            f@ == self@,
    {
        proof {
            use_type_invariant(self);
        }
        RowFormat {
            pipes: self.pipes.clone(),
            separator: self.separator,
            header: self.header,
            heading: self.heading,
            quote: self.quote,
            marker: self.marker,
            fence: self.fence,
            code: self.code,
        }
    }

    pub fn same(&self, other: &RowFormat) -> (r: bool)
        ensures
            r == (self@ == other@),
    {
        let p = crate::display::row::same_u16s(&self.pipes, &other.pipes);
        p && self.separator == other.separator && self.header == other.header && self.heading
            == other.heading && self.quote == other.quote && self.marker == other.marker
            && self.fence == other.fence && self.code == other.code
    }

    pub(crate) fn heading_level(&self) -> (r: u8)
        ensures
            r == self@.heading,
    {
        self.heading
    }

    pub(crate) fn marker_column(&self) -> (r: Option<u16>)
        ensures
            r == self@.marker,
    {
        self.marker
    }

    pub(crate) fn is_code(&self) -> (r: bool)
        ensures
            r == self@.code,
    {
        self.code
    }

    /// The format inside a closed code fence; `edge` marks the fence lines.
    pub(crate) fn fenced(&self, edge: bool) -> (f: RowFormat)
        ensures
            f@ == (FormatView { code: true, fence: self@.fence || edge, ..self@ }),
    {
        proof {
            use_type_invariant(self);
        }
        let mut f = self.duplicate();
        f.code = true;
        f.fence = self.fence || edge;
        f
    }

    /// The format with its Markdown marks replaced.
    pub(crate) fn marked(&self, heading: u8, quote: bool, marker: Option<u16>) -> (f: RowFormat)
        ensures
            f@ == (FormatView { heading, quote, marker, ..self@ }),
    {
        proof {
            use_type_invariant(self);
        }
        let mut f = self.duplicate();
        f.heading = heading;
        f.quote = quote;
        f.marker = marker;
        f
    }

    /// The format of a row of a detected table.
    pub(crate) fn in_table(&self, pipes: &Vec<u16>, header: bool, separator: bool) -> (f:
        RowFormat)
        requires
            pipes@.len() > 0,
        ensures
            f@ == (FormatView { pipes: pipes@, header, separator, ..self@ }),
    {
        RowFormat {
            pipes: pipes.clone(),
            separator,
            header,
            heading: self.heading,
            quote: self.quote,
            marker: self.marker,
            fence: self.fence,
            code: self.code,
        }
    }

    /// Decorates one glyph.
    pub fn apply_one(&self, g: &Glyph) -> (r: Glyph)
        ensures
            r@ == apply_glyph(self@, g@),
    {
        proof {
            use_type_invariant(self);
        }
        let ghost f = self@;
        let mut r = g.duplicate();
        let col = g.logical_col;
        let piped = contains_u16(&self.pipes, col);
        if piped {
            let c = if self.separator {
                if self.pipes[0] == col {
                    '\u{251c}'
                } else if self.pipes[self.pipes.len() - 1] == col {
                    '\u{2524}'
                } else {
                    '\u{253c}'
                }
            } else {
                '\u{2502}'
            };
            r.text = string_from_chars(&[c]);
            assert(r.text@ =~= pipe_text(f, col));
            r.style.dim = true;
        } else if self.separator && col > self.pipes[0] && col < self.pipes[self.pipes.len() - 1] {
            r.text = string_from_chars(&['\u{2500}']);
            assert(r.text@ =~= seq!['\u{2500}']);
            r.style.dim = true;
        } else if self.header || self.heading > 0 || self.marker == Some(col) {
            r.style.bold = true;
        } else if self.fence {
            let t = crate::text::chars_of(g.text.as_str());
            let blank = t.len() == 1 && t[0] == ' ';
            assert(blank == (g@.text == seq![' '])) by {
                if g@.text == seq![' '] {
                    assert(t@[0] == ' ');
                }
                if blank {
                    assert(t@ =~= seq![' ']);
                }
            };
            if !blank {
                r.style.dim = true;
            }
        }
        let ghost f0 = f;
        let ghost base = r@;
        let ghost spec_base = if f.pipes.contains(col) {
            GlyphView { text: pipe_text(f, col), style: Style { dim: true, ..g@.style }, ..g@ }
        } else if f.separator && col > f.pipes[0] && col < f.pipes.last() {
            GlyphView { text: seq!['\u{2500}'], style: Style { dim: true, ..g@.style }, ..g@ }
        } else if f.header || f.heading > 0 || f.marker == Some(col) {
            GlyphView { style: Style { bold: true, ..g@.style }, ..g@ }
        } else if f.fence && g@.text != seq![' '] {
            GlyphView { style: Style { dim: true, ..g@.style }, ..g@ }
        } else {
            g@
        };
        assert(base.text =~= spec_base.text);
        assert(base.style == spec_base.style);
        if self.heading > 0 {
            r.style.underline = r.style.underline || self.heading == 1;
            if r.style.fg == Color::Default {
                r.style.fg = Color::Idx(
                    if self.heading == 1 {
                        6u8
                    } else if self.heading == 2 {
                        4u8
                    } else {
                        5u8
                    },
                );
            }
        }
        r.style.italic = r.style.italic || self.quote;
        proof {
            assert(r@.text =~= apply_glyph(self@, g@).text);
        }
        r
    }

    /// Decorates every glyph of a row.
    pub fn apply(&self, glyphs: &mut Vec<Glyph>)
        ensures
            glyph_views(final(glyphs)@) == glyph_views(old(glyphs)@).map_values(
                |g: GlyphView| apply_glyph(self@, g),
            ),
    {
        let mut out: Vec<Glyph> = Vec::new();
        let mut i: usize = 0;
        while i < glyphs.len()
            invariant
                i <= glyphs@.len(),
                glyphs@ == old(glyphs)@,
                out@.len() == i,
                forall|j: int| 0 <= j < i ==> out@[j]@ == apply_glyph(self@, glyphs@[j]@),
            decreases glyphs@.len() - i,
        {
            let g = self.apply_one(&glyphs[i]);
            out.push(g);
            i = i + 1;
        }
        *glyphs = out;
        assert(glyph_views(glyphs@) =~= glyph_views(old(glyphs)@).map_values(
            |g: GlyphView| apply_glyph(self@, g),
        ));
    }
}

} // verus!
