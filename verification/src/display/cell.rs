//! Logical screen cells and their rendition.
use vstd::prelude::*;
use crate::bytes::{decimal, push_decimal};
use crate::hyperlink::Hyperlink;
use crate::protocol::link_view;

verus! {

/// A cell colour: the terminal default, a palette index, or true colour.
#[derive(Clone, Copy, Debug, PartialEq, Eq, Structural)]
pub enum Color {
    Default,
    Idx(u8),
    Rgb(u8, u8, u8),
}

/// Rendition attributes of a cell or glyph.
#[derive(Clone, Copy, Debug, PartialEq, Eq, Structural)]
pub struct Style {
    pub fg: Color,
    pub bg: Color,
    pub bold: bool,
    pub dim: bool,
    pub italic: bool,
    pub underline: bool,
    pub inverse: bool,
}

/// One cell of the child's logical screen.
#[derive(Clone, Debug)]
pub struct Cell {
    /// The characters drawn in the cell; empty when nothing was drawn.
    pub contents: String,
    /// The first half of a double-width character.
    pub wide: bool,
    /// The second half of a double-width character.
    pub wide_continuation: bool,
    pub style: Style,
    pub hyperlink: Option<Hyperlink>,
}

/// The mathematical value of a cell.
pub struct CellView {
    pub contents: Seq<char>,
    pub wide: bool,
    pub wide_continuation: bool,
    pub style: Style,
    pub hyperlink: Option<(Seq<char>, Seq<char>)>,
}

impl View for Cell {
    type V = CellView;

    open spec fn view(&self) -> CellView {
        CellView {
            contents: self.contents@,
            wide: self.wide,
            wide_continuation: self.wide_continuation,
            style: self.style,
            hyperlink: link_view(self.hyperlink),
        }
    }
}

pub open spec fn default_style() -> Style {
    Style {
        fg: Color::Default,
        bg: Color::Default,
        bold: false,
        dim: false,
        italic: false,
        underline: false,
        inverse: false,
    }
}

impl Style {
    /// The default rendition.
    pub fn default_style() -> (s: Style)
        ensures
            s == default_style(),
    {
        Style {
            fg: Color::Default,
            bg: Color::Default,
            bold: false,
            dim: false,
            italic: false,
            underline: false,
            inverse: false,
        }
    }

    /// The rendition of a cell.
    pub fn from_cell(cell: &Cell) -> (s: Style)
        ensures
            s == cell.style,
    {
        cell.style
    }
}

impl Cell {
    /// An empty cell with the default rendition.
    pub fn blank() -> (c: Cell)
        ensures
            c@.contents == Seq::<char>::empty(),
            !c.wide && !c.wide_continuation,
            c.style == default_style(),
            c.hyperlink is None,
    {
        Cell {
            contents: String::new(),
            wide: false,
            wide_continuation: false,
            style: Style::default_style(),
            hyperlink: None,
        }
    }

    /// A cell equal to this one.
    pub fn duplicate(&self) -> (c: Cell)
        ensures
            c@ == self@,
    {
        Cell {
            contents: self.contents.clone(),
            wide: self.wide,
            wide_continuation: self.wide_continuation,
            style: self.style,
            hyperlink: match &self.hyperlink {
                Some(l) => Some(l.duplicate()),
                None => None,
            },
        }
    }

    /// Whether two cells are equal.
    pub fn same(&self, other: &Cell) -> (r: bool)
        ensures
            r == (self@ == other@),
    {
        let t = self.contents == other.contents;
        let l = match (&self.hyperlink, &other.hyperlink) {
            (Some(x), Some(y)) => x.same(y),
            (None, None) => true,
            _ => false,
        };
        t && self.wide == other.wide && self.wide_continuation == other.wide_continuation
            && self.style == other.style && l
    }

    pub fn has_contents(&self) -> (r: bool)
        ensures
            r == (self@.contents.len() > 0),
    {
        !self.contents.as_str().is_empty()
    }
}

/// `;n` for an enabled attribute.
pub open spec fn attr(enabled: bool, code: nat) -> Seq<u8> {
    if enabled {
        seq![59u8] + decimal(code)
    } else {
        Seq::empty()
    }
}

/// The SGR parameters selecting a colour as foreground (`base` 38) or
/// background (48).
pub open spec fn colour_params(color: Color, base: nat) -> Seq<u8> {
    match color {
        Color::Default => Seq::empty(),
        Color::Idx(i) => seq![59u8] + decimal(base) + seq![59u8, 53u8, 59u8] + decimal(i as nat),
        Color::Rgb(r, g, b) => seq![59u8] + decimal(base) + seq![59u8, 50u8, 59u8] + decimal(
            r as nat,
        ) + seq![59u8] + decimal(g as nat) + seq![59u8] + decimal(b as nat),
    }
}

/// `CSI 0 ; … m`: reset, then set every attribute and colour of the style.
pub open spec fn sgr(s: Style) -> Seq<u8> {
    seq![27u8, 91u8, 48u8] + attrs(s) + colour_params(s.fg, 38) + colour_params(s.bg, 48) + seq![
        109u8,
    ]
}

/// The enabled attributes: bold 1, dim 2, italic 3, underline 4, inverse 7.
pub open spec fn attrs(s: Style) -> Seq<u8> {
    attr(s.bold, 1) + attr(s.dim, 2) + attr(s.italic, 3) + attr(s.underline, 4) + attr(
        s.inverse,
        7,
    )
}

fn push_attrs(out: &mut Vec<u8>, s: Style)
    ensures
        final(out)@ == old(out)@ + attrs(s),
{
    let ghost o = out@;
    push_attr(out, s.bold, 1);
    let ghost a = out@;
    push_attr(out, s.dim, 2);
    let ghost b = out@;
    push_attr(out, s.italic, 3);
    let ghost c = out@;
    push_attr(out, s.underline, 4);
    let ghost d = out@;
    push_attr(out, s.inverse, 7);
    assert(out@ =~= o + attrs(s));
}

fn push_attr(out: &mut Vec<u8>, enabled: bool, code: u64)
    ensures
        final(out)@ == old(out)@ + attr(enabled, code as nat),
{
    if enabled {
        out.push(59u8);
        push_decimal(out, code);
    }
    assert(final(out)@ =~= old(out)@ + attr(enabled, code as nat));
}

fn push_colour(out: &mut Vec<u8>, color: Color, base: u64)
    ensures
        final(out)@ == old(out)@ + colour_params(color, base as nat),
{
    match color {
        Color::Default => {},
        Color::Idx(i) => {
            out.push(59u8);
            push_decimal(out, base);
            out.push(59u8);
            out.push(53u8);
            out.push(59u8);
            push_decimal(out, i as u64);
        },
        Color::Rgb(r, g, b) => {
            out.push(59u8);
            push_decimal(out, base);
            out.push(59u8);
            out.push(50u8);
            out.push(59u8);
            push_decimal(out, r as u64);
            out.push(59u8);
            push_decimal(out, g as u64);
            out.push(59u8);
            push_decimal(out, b as u64);
        },
    }
    assert(final(out)@ =~= old(out)@ + colour_params(color, base as nat));
}

impl Style {
    /// Appends the SGR sequence that selects exactly this style.
    pub fn write(&self, out: &mut Vec<u8>)
        ensures
            final(out)@ == old(out)@ + sgr(*self),
    {
        out.push(27u8);
        out.push(91u8);
        out.push(48u8);
        let ghost a = out@;
        push_attrs(out, *self);
        let ghost b = out@;
        push_colour(out, self.fg, 38);
        let ghost c = out@;
        push_colour(out, self.bg, 48);
        let ghost d = out@;
        out.push(109u8);
        assert(a =~= old(out)@ + seq![27u8, 91u8, 48u8]);
        assert(final(out)@ =~= old(out)@ + sgr(*self));
    }
}

/// A copy of a row of cells.
pub fn copy_cells(cells: &[Cell]) -> (r: Vec<Cell>)
    ensures
        r@.len() == cells@.len(),
        forall|i: int| 0 <= i < cells@.len() ==> (#[trigger] r@[i])@ == cells@[i]@,
{
    let mut r: Vec<Cell> = Vec::new();
    let mut i: usize = 0;
    while i < cells.len()
        invariant
            i <= cells@.len(),
            r@.len() == i,
            forall|j: int| 0 <= j < i ==> (#[trigger] r@[j])@ == cells@[j]@,
        decreases cells@.len() - i,
    {
        r.push(cells[i].duplicate());
        i = i + 1;
    }
    r
}

/// Whether two rows of cells are equal.
pub fn same_cells(a: &[Cell], b: &[Cell]) -> (r: bool)
    ensures
        r == (a@.len() == b@.len() && forall|i: int| 0 <= i < a@.len() ==> (#[trigger] a@[i])@ == b@[i]@),
{
    if a.len() != b.len() {
        return false;
    }
    let mut i: usize = 0;
    while i < a.len()
        invariant
            a@.len() == b@.len(),
            i <= a@.len(),
            forall|j: int| 0 <= j < i ==> (#[trigger] a@[j])@ == b@[j]@,
        decreases a@.len() - i,
    {
        if !a[i].same(&b[i]) {
            return false;
        }
        i = i + 1;
    }
    true
}

} // verus!
