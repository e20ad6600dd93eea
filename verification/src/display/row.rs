//! Bidi reordering of one screen row into visual glyphs, with the column maps
//! between logical and visual positions.
use vstd::prelude::*;
use crate::display::bidi::{
    covers,
    mirrored,
    reorder_visual,
    resolve_levels,
    spec_bidi_has_rtl,
    spec_bidi_levels,
    spec_mirrored,
    spec_reorder_visual,
};
use crate::display::cell::{Cell, CellView, Style};
use crate::display::maps::{
    hit,
    lemma_rearranged_join,
    lemma_rearranged_self,
    permuted_by,
    rearranged,
    same_place,
};
use crate::display::{Direction, Layout};
use crate::hyperlink::Hyperlink;
use crate::pretty::{apply_glyph, FormatView, RowFormat};
use crate::protocol::link_view;
use crate::text::{chars_of, push_all, string_from_chars};

verus! {

/// One displayed character cell group: the text of a logical cell, its width
/// and rendition, and the logical column it came from.
#[derive(Clone, Debug)]
pub struct Glyph {
    pub text: String,
    pub width: u16,
    pub style: Style,
    pub hyperlink: Option<Hyperlink>,
    pub logical_col: u16,
}

pub struct GlyphView {
    pub text: Seq<char>,
    pub width: u16,
    pub style: Style,
    pub hyperlink: Option<(Seq<char>, Seq<char>)>,
    pub logical_col: u16,
}

impl View for Glyph {
    type V = GlyphView;

    open spec fn view(&self) -> GlyphView {
        GlyphView {
            text: self.text@,
            width: self.width,
            style: self.style,
            hyperlink: link_view(self.hyperlink),
            logical_col: self.logical_col,
        }
    }
}

/// A row in display order with its column maps.
#[derive(Clone, Debug)]
pub struct VisualRow {
    pub glyphs: Vec<Glyph>,
    pub logical_to_visual: Vec<u16>,
    pub visual_to_logical: Vec<u16>,
}

pub struct RowView {
    pub glyphs: Seq<GlyphView>,
    pub logical_to_visual: Seq<u16>,
    pub visual_to_logical: Seq<u16>,
}

pub open spec fn glyph_views(glyphs: Seq<Glyph>) -> Seq<GlyphView> {
    glyphs.map_values(|g: Glyph| g@)
}

impl View for VisualRow {
    type V = RowView;

    open spec fn view(&self) -> RowView {
        RowView {
            glyphs: glyph_views(self.glyphs@),
            logical_to_visual: self.logical_to_visual@,
            visual_to_logical: self.visual_to_logical@,
        }
    }
}

pub fn copy_link(link: &Option<Hyperlink>) -> (r: Option<Hyperlink>)
    ensures
        link_view(r) == link_view(*link),
{
    match link {
        Some(l) => Some(l.duplicate()),
        None => None,
    }
}

pub fn same_link(a: &Option<Hyperlink>, b: &Option<Hyperlink>) -> (r: bool)
    ensures
        r == (link_view(*a) == link_view(*b)),
{
    match (a, b) {
        (Some(x), Some(y)) => x.same(y),
        (None, None) => true,
        _ => false,
    }
}

impl Glyph {
    pub fn duplicate(&self) -> (g: Glyph)
        ensures
            g@ == self@,
    {
        Glyph {
            text: self.text.clone(),
            width: self.width,
            style: self.style,
            hyperlink: copy_link(&self.hyperlink),
            logical_col: self.logical_col,
        }
    }

    pub fn same(&self, other: &Glyph) -> (r: bool)
        ensures
            r == (self@ == other@),
    {
        let t = self.text == other.text;
        t && self.width == other.width && self.style == other.style && same_link(
            &self.hyperlink,
            &other.hyperlink,
        ) && self.logical_col == other.logical_col
    }
}

pub fn same_glyphs(a: &Vec<Glyph>, b: &Vec<Glyph>) -> (r: bool)
    ensures
        r == (glyph_views(a@) == glyph_views(b@)),
{
    if a.len() != b.len() {
        proof {
            assert(glyph_views(a@).len() != glyph_views(b@).len());
        }
        return false;
    }
    let mut i: usize = 0;
    while i < a.len()
        invariant
            a@.len() == b@.len(),
            i <= a@.len(),
            forall|j: int| 0 <= j < i ==> a@[j]@ == b@[j]@,
        decreases a@.len() - i,
    {
        if !a[i].same(&b[i]) {
            assert(glyph_views(a@)[i as int] != glyph_views(b@)[i as int]);
            return false;
        }
        i = i + 1;
    }
    assert(glyph_views(a@) =~= glyph_views(b@));
    true
}

pub fn same_u16s(a: &Vec<u16>, b: &Vec<u16>) -> (r: bool)
    ensures
        r == (a@ == b@),
{
    if a.len() != b.len() {
        return false;
    }
    let mut i: usize = 0;
    while i < a.len()
        invariant
            a@.len() == b@.len(),
            i <= a@.len(),
            forall|j: int| 0 <= j < i ==> a@[j] == b@[j],
        decreases a@.len() - i,
    {
        if a[i] != b[i] {
            return false;
        }
        i = i + 1;
    }
    assert(a@ =~= b@);
    true
}

impl VisualRow {
    pub fn same(&self, other: &VisualRow) -> (r: bool)
        ensures
            r == (self@ == other@),
    {
        let g = same_glyphs(&self.glyphs, &other.glyphs);
        let l = same_u16s(&self.logical_to_visual, &other.logical_to_visual);
        let v = same_u16s(&self.visual_to_logical, &other.visual_to_logical);
        g && l && v
    }
}

pub open spec fn cell_views(cells: Seq<Cell>) -> Seq<CellView> {
    cells.map_values(|c: Cell| c@)
}

/// The glyph for the cell at `col` of a row of `cols` cells: a wide character
/// cut off at the right edge becomes a blank, an empty cell a space.
pub open spec fn initial_glyph(c: CellView, col: int, cols: int) -> GlyphView {
    GlyphView {
        text: if c.wide && col + 1 >= cols {
            seq![' ']
        } else if c.contents.len() > 0 {
            c.contents
        } else {
            seq![' ']
        },
        width: if c.wide && col + 1 < cols {
            2
        } else {
            1
        },
        style: c.style,
        hyperlink: c.hyperlink,
        logical_col: col as u16,
    }
}

/// The glyphs of the first `n` cells: one per cell that is not the second half
/// of a wide character, in logical order.
pub open spec fn cell_glyphs(cells: Seq<CellView>, n: int) -> Seq<GlyphView>
    decreases n,
{
    if n <= 0 {
        Seq::empty()
    } else {
        let prev = cell_glyphs(cells, n - 1);
        if cells[n - 1].wide_continuation {
            prev
        } else {
            prev.push(initial_glyph(cells[n - 1], n - 1, cells.len() as int))
        }
    }
}

/// Text without the escape character that starts a terminal sequence.
pub open spec fn no_escape(t: Seq<char>) -> bool {
    forall|i: int| 0 <= i < t.len() ==> #[trigger] t[i] != '\u{1b}'
}

/// No link, or one that `Hyperlink::new` accepts.
pub open spec fn link_ok(l: Option<(Seq<char>, Seq<char>)>) -> bool {
    l matches Some(x) ==> crate::hyperlink::valid_link(x.0, x.1)
}

/// Cells as a terminal parser leaves them: no escape character in their
/// text, and only accepted links.
pub open spec fn cells_clean(cells: Seq<CellView>) -> bool {
    forall|i: int| 0 <= i < cells.len() ==> no_escape(#[trigger] cells[i].contents) && link_ok(cells[i].hyperlink)
}

/// Glyphs with no escape character in their text and only accepted links.
pub open spec fn glyphs_clean(gs: Seq<GlyphView>) -> bool {
    forall|k: int| 0 <= k < gs.len() ==> no_escape(#[trigger] gs[k].text) && link_ok(gs[k].hyperlink)
}

/// The glyphs of clean cells are clean.
pub proof fn lemma_cell_glyphs_clean(cells: Seq<CellView>, n: int)
    requires
        cells_clean(cells),
        n <= cells.len(),
    ensures
        glyphs_clean(cell_glyphs(cells, n)),
    decreases n,
{
    if n > 0 {
        lemma_cell_glyphs_clean(cells, n - 1);
        let prev = cell_glyphs(cells, n - 1);
        if !cells[n - 1].wide_continuation {
            let g = initial_glyph(cells[n - 1], n - 1, cells.len() as int);
            assert(no_escape(g.text));
            assert(cell_glyphs(cells, n) == prev.push(g));
            assert forall|k: int| 0 <= k < prev.len() + 1 implies no_escape(
                #[trigger] prev.push(g)[k].text,
            ) && link_ok(prev.push(g)[k].hyperlink) by {
                if k < prev.len() {
                    assert(prev.push(g)[k] == prev[k]);
                }
            }
        }
    }
}

/// Decoration by a row format keeps glyphs clean.
pub proof fn lemma_apply_glyphs_clean(f: FormatView, gs: Seq<GlyphView>)
    requires
        glyphs_clean(gs),
    ensures
        glyphs_clean(gs.map_values(|g: GlyphView| apply_glyph(f, g))),
{
    let out = gs.map_values(|g: GlyphView| apply_glyph(f, g));
    assert forall|k: int| 0 <= k < out.len() implies no_escape(#[trigger] out[k].text) && link_ok(
        out[k].hyperlink,
    ) by {
        let g = gs[k];
        assert(out[k] == apply_glyph(f, g));
        let t = out[k].text;
        assert(no_escape(g.text));
        assert forall|i: int| 0 <= i < t.len() implies #[trigger] t[i] != '\u{1b}' by {
            if f.pipes.contains(g.logical_col) {
                assert(t == crate::pretty::pipe_text(f, g.logical_col));
            } else if f.separator && g.logical_col > f.pipes[0] && g.logical_col < f.pipes.last() {
                assert(t == seq!['\u{2500}']);
            } else {
                assert(t == g.text);
            }
        }
    }
}

pub open spec fn is_space(g: GlyphView) -> bool {
    g.text == seq![' ']
}

/// Box-drawing characters (U+2500 to U+257F) mark fixed borders.
pub open spec fn is_border(g: GlyphView) -> bool {
    exists|i: int| 0 <= i < g.text.len() && '\u{2500}' <= #[trigger] g.text[i] <= '\u{257f}'
}

/// One-character prompt and bullet markers that stay in place with their gap.
pub open spec fn is_marker(g: GlyphView) -> bool {
    g.text.len() == 1 && {
        let c = g.text[0];
        c == '>' || c == '\u{276f}' || c == '\u{203a}' || c == '\u{25cf}' || c == '\u{2022}' || c
            == '-' || c == '+' || c == '*'
    }
}

/// Where a text field that starts at or before `end` stops scanning: at a
/// border, at two spaces in column layout, or at the end of the row.
pub open spec fn scan_end(gs: Seq<GlyphView>, layout: Layout, end: int) -> int
    decreases gs.len() - end,
{
    if end < 0 || end >= gs.len() || is_border(gs[end]) {
        end
    } else if layout == Layout::Columns && is_space(gs[end]) && end + 1 < gs.len() && is_space(
        gs[end + 1],
    ) {
        end
    } else {
        scan_end(gs, layout, end + 1)
    }
}

/// `end` moved back over trailing spaces, not before `start`.
pub open spec fn trim_end(gs: Seq<GlyphView>, start: int, end: int) -> int
    decreases end - start,
{
    if end > start && is_space(gs[end - 1]) {
        trim_end(gs, start, end - 1)
    } else {
        end
    }
}

/// The end of the text field that starts at `start`.
pub open spec fn run_end(gs: Seq<GlyphView>, layout: Layout, start: int) -> int {
    trim_end(gs, start, scan_end(gs, layout, start))
}

/// All glyph texts of a window, concatenated.
pub open spec fn texts(gs: Seq<GlyphView>) -> Seq<char>
    decreases gs.len(),
{
    if gs.len() == 0 {
        Seq::empty()
    } else {
        texts(gs.drop_last()) + gs.last().text
    }
}

/// Each glyph's level: the level of its first character.
pub open spec fn glyph_levels(gs: Seq<GlyphView>, levels: Seq<u8>) -> Seq<u8> {
    Seq::new(gs.len(), |k: int| levels[texts(gs.take(k)).len() as int])
}

pub open spec fn base_level(d: Direction) -> Option<u8> {
    match d {
        Direction::Auto => None,
        Direction::Ltr => Some(0u8),
        Direction::Rtl => Some(1u8),
    }
}

pub open spec fn odd(level: u8) -> bool {
    level % 2 == 1
}

/// Bidi formatting controls, which must not reach the host renderer.
pub open spec fn formatting_control(c: char) -> bool {
    c == '\u{061c}' || c == '\u{200e}' || c == '\u{200f}' || ('\u{202a}' <= c && c <= '\u{202e}')
        || ('\u{2066}' <= c && c <= '\u{2069}')
}

pub open spec fn mirror_char(c: char) -> char {
    match spec_mirrored(c) {
        Some(m) => m,
        None => c,
    }
}

/// A glyph's text once placed: mirrored when it is RTL, without formatting
/// controls.
pub open spec fn settle_text(t: Seq<char>, rtl: bool) -> Seq<char>
    decreases t.len(),
{
    if t.len() == 0 {
        Seq::empty()
    } else {
        let r = settle_text(t.drop_last(), rtl);
        let c = if rtl {
            mirror_char(t.last())
        } else {
            t.last()
        };
        if formatting_control(c) {
            r
        } else {
            r.push(c)
        }
    }
}

pub open spec fn settle(g: GlyphView, level: u8) -> GlyphView {
    GlyphView { text: settle_text(g.text, odd(level)), ..g }
}

/// One text field in visual order, and the RTL input ending it records (the
/// cell after its last glyph, with that glyph's column) when it ends RTL.
pub open spec fn reorder_field(w: Seq<GlyphView>, d: Direction) -> (Seq<GlyphView>, Seq<(u16, u16)>) {
    let text = texts(w);
    if !spec_bidi_has_rtl(text, base_level(d)) {
        (w, Seq::empty())
    } else {
        let gl = glyph_levels(w, spec_bidi_levels(text, base_level(d)));
        let order = spec_reorder_visual(gl);
        let out = Seq::new(w.len(), |v: int| settle(w[order[v] as int], gl[order[v] as int]));
        let last = w.last();
        let ending = if odd(gl.last()) {
            seq![((last.logical_col + last.width) as u16, last.logical_col)]
        } else {
            Seq::empty()
        };
        (out, ending)
    }
}

pub proof fn lemma_scan_end(gs: Seq<GlyphView>, layout: Layout, end: int)
    requires
        0 <= end <= gs.len(),
    ensures
        end <= scan_end(gs, layout, end) <= gs.len(),
    decreases gs.len() - end,
{
    if !(end >= gs.len() || is_border(gs[end])) && !(layout == Layout::Columns && is_space(gs[end])
        && end + 1 < gs.len() && is_space(gs[end + 1])) {
        lemma_scan_end(gs, layout, end + 1);
    }
}

pub proof fn lemma_trim_end(gs: Seq<GlyphView>, start: int, end: int)
    requires
        0 <= start <= end <= gs.len(),
    ensures
        start <= trim_end(gs, start, end) <= end,
        trim_end(gs, start, end) > start ==> !is_space(gs[trim_end(gs, start, end) - 1]),
    decreases end - start,
{
    if end > start && is_space(gs[end - 1]) {
        lemma_trim_end(gs, start, end - 1);
    }
}

/// A field that starts on text (not a space or border) is never empty.
pub proof fn lemma_run_end(gs: Seq<GlyphView>, layout: Layout, start: int)
    requires
        0 <= start < gs.len(),
        !is_space(gs[start]),
        !is_border(gs[start]),
    ensures
        start < run_end(gs, layout, start) <= gs.len(),
{
    lemma_scan_end(gs, layout, start + 1);
    assert(scan_end(gs, layout, start) == scan_end(gs, layout, start + 1));
    lemma_trim_end(gs, start, scan_end(gs, layout, start));
    lemma_trim_end_step(gs, start, scan_end(gs, layout, start));
}

proof fn lemma_trim_end_step(gs: Seq<GlyphView>, start: int, end: int)
    requires
        0 <= start < end <= gs.len(),
        !is_space(gs[start]),
    ensures
        trim_end(gs, start, end) > start,
    decreases end - start,
{
    if is_space(gs[end - 1]) {
        if end - 1 > start {
            lemma_trim_end_step(gs, start, end - 1);
        }
    }
}

/// The decorated glyphs of a row in logical order, before reordering.
pub open spec fn logical_glyphs(cells: Seq<CellView>, format: FormatView) -> Seq<GlyphView> {
    cell_glyphs(cells, cells.len() as int).map_values(|g: GlyphView| apply_glyph(format, g))
}

/// What a formatted row of paired cells promises: every cell with text (or
/// the second half of a wide character) maps to a visual column that maps
/// back to it; each glyph is one or two columns wide and the widths add up to
/// the row; the visual-to-logical map takes every column to a column of the
/// row and no column twice (so it is a permutation); and every glyph that
/// reordering keeps in place stays in its own column.
#[verifier::opaque]
pub open spec fn row_laws(row: RowView, cells: Seq<CellView>, format: FormatView, layout: Layout) -> bool {
    crate::display::maps::paired(cells) ==> {
        &&& forall|c: int|
            0 <= c < cells.len() && ((#[trigger] cells[c]).contents.len() > 0 || cells[c].wide_continuation)
                ==> row.visual_to_logical[row.logical_to_visual[c] as int] == c
        &&& visual_start(row.glyphs, row.glyphs.len() as int) == cells.len()
        &&& forall|k: int| 0 <= k < row.glyphs.len() ==> 1 <= (#[trigger] row.glyphs[k]).width <= 2
        &&& row.visual_to_logical.len() == cells.len()
        &&& forall|v: int| 0 <= v < cells.len() ==> (#[trigger] row.visual_to_logical[v] as int) < cells.len()
        &&& forall|v1: int, v2: int|
            0 <= v1 < v2 < cells.len() ==> #[trigger] row.visual_to_logical[v1]
                != #[trigger] row.visual_to_logical[v2]
        &&& forall|k: int|
            0 <= k < logical_glyphs(cells, format).len() && #[trigger] kept_in_place(
                logical_glyphs(cells, format),
                layout,
                0,
                k,
            ) ==> kept_column(row, cells, logical_glyphs(cells, format), k)
    }
}

/// Glyph `k` of the logical glyphs stays where it is: it is glyph `k` of
/// the row, its visual column shows its logical column, and its logical
/// column maps to it unless its cell holds nothing.
pub open spec fn kept_column(row: RowView, cells: Seq<CellView>, g1: Seq<GlyphView>, k: int) -> bool {
    let lc = g1[k].logical_col as int;
    &&& row.glyphs[k] == g1[k]
    &&& row.visual_to_logical[lc] == lc
    &&& cells[lc].contents.len() > 0 ==> row.logical_to_visual[lc] == lc
}

/// Where the segment that starts at `start` ends: after a fixed cell, after
/// a marker with its gap, or at the end of a text field.
pub open spec fn next_start(g: Seq<GlyphView>, layout: Layout, start: int) -> int {
    if is_border(g[start]) || is_space(g[start]) {
        start + 1
    } else if is_marker(g[start]) && start + 1 < g.len() && is_space(g[start + 1]) {
        start + 2
    } else {
        run_end(g, layout, start)
    }
}

/// Glyph `k` is one that reordering keeps in place, going from segment
/// `start`: a border or a space that starts a segment, or a marker with its
/// gap.
pub open spec fn kept_in_place(g: Seq<GlyphView>, layout: Layout, start: int, k: int) -> bool
    decreases g.len() - start,
{
    if start < 0 || start >= g.len() || start > k {
        false
    } else if is_border(g[start]) || is_space(g[start]) {
        start == k || kept_in_place(g, layout, start + 1, k)
    } else if is_marker(g[start]) && start + 1 < g.len() && is_space(g[start + 1]) {
        k == start || k == start + 1 || kept_in_place(g, layout, start + 2, k)
    } else if start < next_start(g, layout, start) <= g.len() {
        kept_in_place(g, layout, next_start(g, layout, start), k)
    } else {
        false
    }
}

proof fn lemma_scan_stops(g: Seq<GlyphView>, layout: Layout, e: int, b: int)
    requires
        0 <= e <= b < g.len(),
        is_border(g[b]) || (layout == Layout::Columns && is_space(g[b]) && b + 1 < g.len() && is_space(
            g[b + 1],
        )),
    ensures
        scan_end(g, layout, e) <= b,
    decreases b - e,
{
    if e < b && !is_border(g[e]) && !(layout == Layout::Columns && is_space(g[e]) && e + 1 < g.len()
        && is_space(g[e + 1])) {
        lemma_scan_stops(g, layout, e + 1, b);
    }
}

/// A marker is never a border or a space.
proof fn lemma_marker_kind(g: GlyphView)
    requires
        is_marker(g),
    ensures
        !is_border(g),
        !is_space(g),
{
}

/// A segment boundary at or before `b` leads to one at or before `b`,
/// past any field.
proof fn lemma_field_stops(g: Seq<GlyphView>, layout: Layout, start: int, b: int)
    requires
        0 <= start < b < g.len(),
        is_border(g[b]) || (layout == Layout::Columns && is_space(g[b]) && b + 1 < g.len() && is_space(
            g[b + 1],
        )),
        !is_border(g[start]),
        !is_space(g[start]),
        !(is_marker(g[start]) && start + 1 < g.len() && is_space(g[start + 1])),
    ensures
        start < next_start(g, layout, start) <= b,
{
    lemma_run_end(g, layout, start);
    lemma_scan_stops(g, layout, start, b);
    lemma_trim_end(g, start, scan_end(g, layout, start));
}

/// Box borders keep their columns: every glyph with a box-drawing character
/// is kept in place, from any segment start before it.
pub proof fn lemma_borders_kept(g: Seq<GlyphView>, layout: Layout, start: int, b: int)
    requires
        0 <= start <= b < g.len(),
        is_border(g[b]),
    ensures
        kept_in_place(g, layout, start, b),
    decreases b - start,
{
    if start < b {
        if is_border(g[start]) || is_space(g[start]) {
            lemma_borders_kept(g, layout, start + 1, b);
        } else if is_marker(g[start]) && start + 1 < g.len() && is_space(g[start + 1]) {
            if start + 2 <= b {
                lemma_borders_kept(g, layout, start + 2, b);
            }
        } else {
            lemma_field_stops(g, layout, start, b);
            lemma_borders_kept(g, layout, next_start(g, layout, start), b);
        }
    }
}

/// In column layout, gaps of two or more spaces keep their columns: both
/// spaces of a pair are kept in place.
pub proof fn lemma_gaps_kept(g: Seq<GlyphView>, start: int, b: int)
    requires
        0 <= start <= b,
        b + 1 < g.len(),
        is_space(g[b]),
        is_space(g[b + 1]),
    ensures
        kept_in_place(g, Layout::Columns, start, b),
        kept_in_place(g, Layout::Columns, start, b + 1),
    decreases b - start,
{
    let layout = Layout::Columns;
    if start == b {
        assert(kept_in_place(g, layout, b + 1, b + 1));
    } else if is_border(g[start]) || is_space(g[start]) {
        lemma_gaps_kept(g, start + 1, b);
    } else if is_marker(g[start]) && start + 1 < g.len() && is_space(g[start + 1]) {
        if start + 1 == b {
            assert(kept_in_place(g, layout, start + 2, b + 1));
        } else {
            lemma_gaps_kept(g, start + 2, b);
        }
    } else {
        lemma_field_stops(g, layout, start, b);
        lemma_gaps_kept(g, next_start(g, layout, start), b);
    }
}

/// Indentation keeps its columns: leading spaces are kept in place.
pub proof fn lemma_indentation_kept(g: Seq<GlyphView>, layout: Layout, start: int, b: int)
    requires
        0 <= start <= b < g.len(),
        forall|i: int| start <= i <= b ==> is_space(#[trigger] g[i]),
    ensures
        kept_in_place(g, layout, start, b),
    decreases b - start,
{
    if start < b {
        lemma_indentation_kept(g, layout, start + 1, b);
    }
}

/// Prompt markers keep their columns with their gap, when only blanks and
/// borders come before them.
pub proof fn lemma_markers_kept(g: Seq<GlyphView>, layout: Layout, start: int, m: int)
    requires
        0 <= start <= m,
        m + 1 < g.len(),
        is_marker(g[m]),
        is_space(g[m + 1]),
        forall|i: int| start <= i < m ==> is_space(#[trigger] g[i]) || is_border(g[i]),
    ensures
        kept_in_place(g, layout, start, m),
        kept_in_place(g, layout, start, m + 1),
    decreases m - start,
{
    lemma_marker_kind(g[m]);
    if start < m {
        assert(is_space(g[start]) || is_border(g[start]));
        lemma_markers_kept(g, layout, start + 1, m);
    }
}

/// The row from `start` on, with every text field in visual order, and the RTL
/// input endings recorded along the way.
pub open spec fn reorder_from(g1: Seq<GlyphView>, start: int, layout: Layout, d: Direction) -> (
    Seq<GlyphView>,
    Seq<(u16, u16)>,
)
    decreases g1.len() - start,
{
    if start < 0 || start >= g1.len() {
        (Seq::empty(), Seq::empty())
    } else if is_border(g1[start]) || is_space(g1[start]) {
        let r = reorder_from(g1, start + 1, layout, d);
        (seq![g1[start]] + r.0, r.1)
    } else if is_marker(g1[start]) && start + 1 < g1.len() && is_space(g1[start + 1]) {
        let r = reorder_from(g1, start + 2, layout, d);
        (g1.subrange(start, start + 2) + r.0, r.1)
    } else {
        let end = run_end(g1, layout, start);
        proof {
            lemma_run_end(g1, layout, start);
        }
        let f = reorder_field(g1.subrange(start, end), d);
        let r = reorder_from(g1, end, layout, d);
        (f.0 + r.0, f.1 + r.1)
    }
}

/// The visual column where glyph `k` starts.
pub open spec fn visual_start(gs: Seq<GlyphView>, k: int) -> int
    decreases k,
{
    if k <= 0 {
        0
    } else {
        visual_start(gs, k - 1) + gs[k - 1].width
    }
}

pub open spec fn identity_map(cols: int) -> Seq<u16> {
    Seq::new(cols as nat, |i: int| i as u16)
}

/// The logical-to-visual map after placing the first `k` glyphs: each cell a
/// glyph covers maps to its visual cell, when both are inside the row.
pub open spec fn l2v_after(gs: Seq<GlyphView>, cols: int, k: int) -> Seq<u16>
    decreases k,
{
    if k <= 0 {
        identity_map(cols)
    } else {
        let m = l2v_after(gs, cols, k - 1);
        let g = gs[k - 1];
        let vc = visual_start(gs, k - 1);
        let m1 = if g.logical_col < cols && vc < cols {
            m.update(g.logical_col as int, vc as u16)
        } else {
            m
        };
        if g.width >= 2 && g.logical_col + 1 < cols && vc + 1 < cols {
            m1.update(g.logical_col + 1, (vc + 1) as u16)
        } else {
            m1
        }
    }
}

/// The visual-to-logical map after placing the first `k` glyphs.
pub open spec fn v2l_after(gs: Seq<GlyphView>, cols: int, k: int) -> Seq<u16>
    decreases k,
{
    if k <= 0 {
        identity_map(cols)
    } else {
        let m = v2l_after(gs, cols, k - 1);
        let g = gs[k - 1];
        let vc = visual_start(gs, k - 1);
        let m1 = if g.logical_col < cols && vc < cols {
            m.update(vc, g.logical_col)
        } else {
            m
        };
        if g.width >= 2 && g.logical_col + 1 < cols && vc + 1 < cols {
            m1.update(vc + 1, (g.logical_col + 1) as u16)
        } else {
            m1
        }
    }
}

/// At the end of an RTL input run the insertion point is at the run's visual
/// left: an unoccupied cell after the run maps where the run's last glyph does.
pub open spec fn adjust_endings(m: Seq<u16>, cells: Seq<CellView>, endings: Seq<(u16, u16)>) -> Seq<
    u16,
>
    decreases endings.len(),
{
    if endings.len() == 0 {
        m
    } else {
        let prev = adjust_endings(m, cells, endings.drop_last());
        let (boundary, last) = endings.last();
        if (boundary as int) < cells.len() && cells[boundary as int].contents.len() == 0 {
            prev.update(boundary as int, prev[last as int])
        } else {
            prev
        }
    }
}

/// The visual row: decorated glyphs, text fields reordered when enabled, and
/// the column maps.
pub open spec fn spec_formatted_row(
    cells: Seq<CellView>,
    enabled: bool,
    direction: Direction,
    layout: Layout,
    format: FormatView,
) -> RowView {
    let cols = cells.len() as int;
    let g1 = cell_glyphs(cells, cols).map_values(|g: GlyphView| apply_glyph(format, g));
    let r: (Seq<GlyphView>, Seq<(u16, u16)>) = if enabled {
        reorder_from(g1, 0, layout, direction)
    } else {
        (g1, Seq::empty())
    };
    RowView {
        glyphs: r.0,
        logical_to_visual: adjust_endings(l2v_after(r.0, cols, r.0.len() as int), cells, r.1),
        visual_to_logical: v2l_after(r.0, cols, r.0.len() as int),
    }
}

fn space_string() -> (s: String)
    ensures
        s@ == seq![' '],
{
    let s = string_from_chars(&[' ']);
    assert(s@ =~= seq![' ']);
    s
}

/// Glyphs whose widths are 1 or 2 and whose texts are non-empty, each at a
/// column inside a row of `cols` cells.
pub open spec fn glyphs_wf(gs: Seq<GlyphView>, cols: int) -> bool {
    forall|i: int|
        0 <= i < gs.len() ==> 1 <= (#[trigger] gs[i]).width <= 2 && gs[i].text.len() > 0
            && gs[i].logical_col < cols && gs[i].logical_col + gs[i].width <= cols
}

/// Glyphs of width 1 or 2 that lie inside a row of `cols` cells.
pub open spec fn glyphs_geom(gs: Seq<GlyphView>, cols: int) -> bool {
    forall|i: int|
        0 <= i < gs.len() ==> 1 <= (#[trigger] gs[i]).width <= 2 && gs[i].logical_col
            + gs[i].width <= cols
}

/// The logical glyphs of a row of cells.
fn initial_glyphs(cells: &[Cell]) -> (gs: Vec<Glyph>)
    requires
        cells@.len() <= u16::MAX,
    ensures
        glyph_views(gs@) == cell_glyphs(cell_views(cells@), cells@.len() as int),
        glyphs_wf(glyph_views(gs@), cells@.len() as int),
{
    let n = cells.len();
    let ghost cv = cell_views(cells@);
    let mut gs: Vec<Glyph> = Vec::new();
    let mut col: usize = 0;
    while col < n
        invariant
            n == cells@.len(),
            n <= u16::MAX,
            cv == cell_views(cells@),
            col <= n,
            glyph_views(gs@) == cell_glyphs(cv, col as int),
            glyphs_wf(glyph_views(gs@), n as int),
        decreases n - col,
    {
        let cell = &cells[col];
        if !cell.wide_continuation {
            let text = if cell.wide && col + 1 >= n {
                space_string()
            } else if cell.has_contents() {
                cell.contents.clone()
            } else {
                space_string()
            };
            let width: u16 = if cell.wide && col + 1 < n {
                2
            } else {
                1
            };
            let g = Glyph {
                text,
                width,
                style: cell.style,
                hyperlink: copy_link(&cell.hyperlink),
                logical_col: col as u16,
            };
            assert(g@ == initial_glyph(cv[col as int], col as int, n as int));
            gs.push(g);
        }
        proof {
            assert(glyph_views(gs@) =~= cell_glyphs(cv, col + 1));
        }
        col = col + 1;
    }
    gs
}

/// Decoration never moves a glyph or changes its link: width, logical column
/// and hyperlink stay, and text stays non-empty.
pub proof fn lemma_apply_glyph_keeps(f: FormatView, g: GlyphView)
    ensures
        apply_glyph(f, g).width == g.width,
        apply_glyph(f, g).logical_col == g.logical_col,
        apply_glyph(f, g).hyperlink == g.hyperlink,
        g.text.len() > 0 ==> apply_glyph(f, g).text.len() > 0,
{
}

pub fn glyph_is_space(g: &Glyph) -> (r: bool)
    ensures
        r == is_space(g@),
{
    let t = chars_of(g.text.as_str());
    let r = t.len() == 1 && t[0] == ' ';
    proof {
        if is_space(g@) {
            assert(t@[0] == ' ');
        }
        if r {
            assert(t@ =~= seq![' ']);
        }
    }
    r
}

pub fn glyph_is_border(g: &Glyph) -> (r: bool)
    ensures
        r == is_border(g@),
{
    let t = chars_of(g.text.as_str());
    let mut i: usize = 0;
    while i < t.len()
        invariant
            t@ == g@.text,
            i <= t@.len(),
            forall|j: int| 0 <= j < i ==> !('\u{2500}' <= #[trigger] t@[j] <= '\u{257f}'),
        decreases t@.len() - i,
    {
        if '\u{2500}' <= t[i] && t[i] <= '\u{257f}' {
            return true;
        }
        i = i + 1;
    }
    false
}

pub fn glyph_is_marker(g: &Glyph) -> (r: bool)
    ensures
        r == is_marker(g@),
{
    let t = chars_of(g.text.as_str());
    if t.len() != 1 {
        return false;
    }
    let c = t[0];
    c == '>' || c == '\u{276f}' || c == '\u{203a}' || c == '\u{25cf}' || c == '\u{2022}' || c == '-'
        || c == '+' || c == '*'
}

/// The end of the text field starting at `start`.
fn run_end_exec(gs: &Vec<Glyph>, layout: Layout, start: usize) -> (end: usize)
    requires
        start < gs@.len(),
    ensures
        end == run_end(glyph_views(gs@), layout, start as int),
{
    let ghost v = glyph_views(gs@);
    let n = gs.len();
    let mut end: usize = start;
    while end < n && !glyph_is_border(&gs[end]) && !(layout == Layout::Columns && glyph_is_space(
        &gs[end],
    ) && end + 1 < n && glyph_is_space(&gs[end + 1]))
        invariant
            v == glyph_views(gs@),
            n == gs@.len(),
            start <= end <= n,
            scan_end(v, layout, start as int) == scan_end(v, layout, end as int),
        decreases n - end,
    {
        assert(v[end as int] == gs@[end as int]@);
        end = end + 1;
    }
    proof {
        if end < n {
            assert(v[end as int] == gs@[end as int]@);
            if end + 1 < n {
                assert(v[end + 1] == gs@[end + 1]@);
            }
        }
        assert(scan_end(v, layout, end as int) == end);
    }
    let ghost scanned = end;
    while end > start && glyph_is_space(&gs[end - 1])
        invariant
            v == glyph_views(gs@),
            start <= end <= scanned <= n,
            n == gs@.len(),
            trim_end(v, start as int, scanned as int) == trim_end(v, start as int, end as int),
        decreases end,
    {
        assert(v[end - 1] == gs@[end - 1]@);
        end = end - 1;
    }
    proof {
        if end > start {
            assert(v[end - 1] == gs@[end - 1]@);
        }
    }
    end
}

pub proof fn lemma_texts_step(gs: Seq<GlyphView>, k: int)
    requires
        0 <= k < gs.len(),
    ensures
        texts(gs.take(k + 1)) == texts(gs.take(k)) + gs[k].text,
{
    assert(gs.take(k + 1).drop_last() =~= gs.take(k));
}

pub proof fn lemma_texts_monotone(gs: Seq<GlyphView>, j: int)
    requires
        0 <= j <= gs.len(),
    ensures
        texts(gs.take(j)).len() <= texts(gs).len(),
    decreases gs.len() - j,
{
    if j < gs.len() {
        lemma_texts_step(gs, j);
        lemma_texts_monotone(gs, j + 1);
    } else {
        assert(gs.take(j) =~= gs);
    }
}

/// A glyph with non-empty text starts inside the window's text.
pub proof fn lemma_texts_offset(gs: Seq<GlyphView>, k: int)
    requires
        0 <= k < gs.len(),
        gs[k].text.len() > 0,
    ensures
        texts(gs.take(k)).len() < texts(gs).len(),
{
    lemma_texts_step(gs, k);
    lemma_texts_monotone(gs, k + 1);
}

fn window_text(w: &Vec<Glyph>) -> (t: Vec<char>)
    ensures
        t@ == texts(glyph_views(w@)),
{
    let ghost v = glyph_views(w@);
    let mut t: Vec<char> = Vec::new();
    let mut i: usize = 0;
    assert(v.take(0) =~= Seq::<GlyphView>::empty());
    while i < w.len()
        invariant
            v == glyph_views(w@),
            i <= w@.len(),
            t@ == texts(v.take(i as int)),
        decreases w@.len() - i,
    {
        let c = chars_of(w[i].text.as_str());
        push_all(&mut t, c.as_slice());
        proof {
            lemma_texts_step(v, i as int);
        }
        i = i + 1;
    }
    assert(v.take(i as int) =~= v);
    t
}

fn copy_glyphs(w: &Vec<Glyph>) -> (r: Vec<Glyph>)
    ensures
        glyph_views(r@) == glyph_views(w@),
{
    let mut r: Vec<Glyph> = Vec::new();
    let mut i: usize = 0;
    while i < w.len()
        invariant
            i <= w@.len(),
            r@.len() == i,
            forall|j: int| 0 <= j < i ==> r@[j]@ == w@[j]@,
        decreases w@.len() - i,
    {
        r.push(w[i].duplicate());
        i = i + 1;
    }
    assert(glyph_views(r@) =~= glyph_views(w@));
    r
}

fn settle_exec(g: &Glyph, level: u8) -> (r: Glyph)
    ensures
        r@ == settle(g@, level),
        no_escape(g@.text) ==> no_escape(r@.text),
{
    let rtl = level % 2 == 1;
    let t = chars_of(g.text.as_str());
    let mut out: Vec<char> = Vec::new();
    let mut i: usize = 0;
    assert(t@.take(0) =~= Seq::<char>::empty());
    while i < t.len()
        invariant
            t@ == g@.text,
            rtl == odd(level),
            i <= t@.len(),
            out@ == settle_text(t@.take(i as int), rtl),
            no_escape(t@) ==> no_escape(out@),
        decreases t@.len() - i,
    {
        let c0 = t[i];
        let c = if rtl {
            match mirrored(c0) {
                Some(m) => m,
                None => c0,
            }
        } else {
            c0
        };
        let control = c == '\u{061c}' || c == '\u{200e}' || c == '\u{200f}' || ('\u{202a}' <= c
            && c <= '\u{202e}') || ('\u{2066}' <= c && c <= '\u{2069}');
        let ghost before = out@;
        if !control {
            out.push(c);
        }
        proof {
            assert(t@.take(i + 1).drop_last() =~= t@.take(i as int));
            if no_escape(t@) && !control {
                assert(t@[i as int] != '\u{1b}');
                assert forall|j: int| 0 <= j < out@.len() implies #[trigger] out@[j] != '\u{1b}' by {
                    if j < before.len() {
                        assert(out@[j] == before[j]);
                    }
                }
            }
        }
        i = i + 1;
    }
    assert(t@.take(i as int) =~= t@);
    Glyph {
        text: string_from_chars(out.as_slice()),
        width: g.width,
        style: g.style,
        hyperlink: copy_link(&g.hyperlink),
        logical_col: g.logical_col,
    }
}

fn base_level_exec(d: Direction) -> (b: Option<u8>)
    ensures
        b == base_level(d),
{
    match d {
        Direction::Auto => None,
        Direction::Ltr => Some(0u8),
        Direction::Rtl => Some(1u8),
    }
}

/// One text field in visual order, and its RTL input ending if any.
fn reorder_field_exec(w: &Vec<Glyph>, d: Direction, cols: usize) -> (r: (Vec<Glyph>, Vec<(u16, u16)>))
    requires
        w@.len() > 0,
        cols <= u16::MAX,
        glyphs_wf(glyph_views(w@), cols as int),
    ensures
        glyph_views(r.0@) == reorder_field(glyph_views(w@), d).0,
        r.1@ == reorder_field(glyph_views(w@), d).1,
        glyphs_geom(glyph_views(r.0@), cols as int),
        r.0@.len() == w@.len(),
        forall|i: int| 0 <= i < r.1@.len() ==> (r.1@[i].1 as int) < cols,
        rearranged(glyph_views(r.0@), glyph_views(w@)),
        forall|i: int|
            0 <= i < r.1@.len() ==> (#[trigger] r.1@[i]).0 as int == glyph_end(glyph_views(w@), w@.len() as int),
        glyphs_clean(glyph_views(w@)) ==> glyphs_clean(glyph_views(r.0@)),
{
    let ghost v = glyph_views(w@);
    let text = window_text(w);
    proof {
        assert(v[0].text.len() > 0);
        lemma_texts_offset(v, 0);
    }
    let base = base_level_exec(d);
    let (has_rtl, levels) = resolve_levels(&text, base);
    if !has_rtl {
        let r = copy_glyphs(w);
        proof {
            assert forall|i: int| 0 <= i < glyph_views(r@).len() implies 1 <= (
            #[trigger] glyph_views(r@)[i]).width <= 2 && glyph_views(r@)[i].logical_col
                + glyph_views(r@)[i].width <= cols by {
                assert(glyph_views(r@)[i] == v[i]);
            }
            lemma_rearranged_self(v);
        }
        return (r, Vec::new());
    }
    let n = w.len();
    let tl = text.len();
    let mut gl: Vec<u8> = Vec::new();
    let mut offset: usize = 0;
    let mut k: usize = 0;
    assert(v.take(0) =~= Seq::<GlyphView>::empty());
    while k < n
        invariant
            n == w@.len(),
            v == glyph_views(w@),
            glyphs_wf(v, cols as int),
            k <= n,
            offset == texts(v.take(k as int)).len(),
            levels@ == spec_bidi_levels(text@, base),
            levels@.len() == text@.len(),
            text@ == texts(v),
            tl == text@.len(),
            forall|i: int| 0 <= i < levels@.len() ==> levels@[i] <= 126,
            gl@.len() == k,
            forall|j: int| 0 <= j < k ==> gl@[j] == levels@[texts(v.take(j)).len() as int],
            forall|j: int| 0 <= j < k ==> gl@[j] <= 126,
        decreases n - k,
    {
        proof {
            assert(v[k as int].text.len() > 0);
            lemma_texts_offset(v, k as int);
        }
        gl.push(levels[offset]);
        let c = chars_of(w[k].text.as_str());
        proof {
            assert(v[k as int] == w@[k as int]@);
            assert(c@ == v[k as int].text);
            lemma_texts_step(v, k as int);
            lemma_texts_monotone(v, k + 1);
            assert(offset + c@.len() <= text@.len());
        }
        offset = offset + c.len();
        k = k + 1;
    }
    assert(gl@ =~= glyph_levels(v, levels@));
    let order = reorder_visual(&gl);
    let mut out: Vec<Glyph> = Vec::new();
    let mut i: usize = 0;
    while i < n
        invariant
            n == w@.len(),
            v == glyph_views(w@),
            order@.len() == n,
            gl@.len() == n,
            forall|j: int| 0 <= j < n ==> order@[j] < n,
            i <= n,
            out@.len() == i,
            forall|j: int|
                0 <= j < i ==> out@[j]@ == settle(v[order@[j] as int], gl@[order@[j] as int]),
            glyphs_clean(v) ==> forall|j: int|
                0 <= j < i ==> no_escape(#[trigger] out@[j]@.text) && link_ok(out@[j]@.hyperlink),
        decreases n - i,
    {
        let li = order[i];
        let ghost before = out@;
        proof {
            assert(v[li as int] == w@[li as int]@);
        }
        out.push(settle_exec(&w[li], gl[li]));
        proof {
            if glyphs_clean(v) {
                assert forall|j: int| 0 <= j < i + 1 implies no_escape(#[trigger] out@[j]@.text) && link_ok(
                    out@[j]@.hyperlink,
                ) by {
                    if j < i {
                        assert(out@[j] == before[j]);
                    }
                }
            }
        }
        i = i + 1;
    }
    let ghost spec_r = reorder_field(v, d);
    assert(glyph_views(out@) =~= spec_r.0);
    proof {
        if glyphs_clean(v) {
            assert forall|k: int| 0 <= k < glyph_views(out@).len() implies no_escape(
                #[trigger] glyph_views(out@)[k].text,
            ) && link_ok(glyph_views(out@)[k].hyperlink) by {
                assert(glyph_views(out@)[k] == out@[k]@);
            }
        }
    }
    proof {
        let ov = glyph_views(out@);
        let p = Seq::new(n as nat, |j: int| order@[j] as int);
        assert forall|j: int| 0 <= j < ov.len() implies 0 <= #[trigger] p[j] < v.len() && same_place(ov[j], v[p[j]]) by {
            assert(ov[j] == out@[j]@);
        }
        assert forall|j1: int, j2: int| 0 <= j1 < j2 < p.len() implies #[trigger] p[j1] != #[trigger] p[j2] by {
            assert(order@[j1] != order@[j2]);
        }
        assert forall|i: int| 0 <= i < v.len() implies #[trigger] hit(p, i) by {
            assert(covers(order@, i));
            let j = choose|j: int| 0 <= j < order@.len() && #[trigger] order@[j] == i;
            assert(p[j] == i);
        }
        assert(permuted_by(ov, v, p));
    }
    proof {
        assert forall|i: int| 0 <= i < glyph_views(out@).len() implies 1 <= (
        #[trigger] glyph_views(out@)[i]).width <= 2 && glyph_views(out@)[i].logical_col
            + glyph_views(out@)[i].width <= cols by {
            assert(glyph_views(out@)[i] == out@[i]@);
            assert(v[order@[i] as int] == w@[order@[i] as int]@);
        }
    }
    let mut endings: Vec<(u16, u16)> = Vec::new();
    let last = &w[n - 1];
    proof {
        assert(v[n - 1] == last@);
    }
    if gl[n - 1] % 2 == 1 {
        endings.push((last.logical_col + last.width, last.logical_col));
    }
    assert(endings@ =~= spec_r.1);
    (out, endings)
}

fn copy_range(g: &Vec<Glyph>, a: usize, b: usize) -> (r: Vec<Glyph>)
    requires
        a <= b <= g@.len(),
    ensures
        glyph_views(r@) == glyph_views(g@).subrange(a as int, b as int),
{
    let mut r: Vec<Glyph> = Vec::new();
    let mut i = a;
    while i < b
        invariant
            a <= i <= b <= g@.len(),
            r@.len() == i - a,
            forall|j: int| 0 <= j < i - a ==> r@[j]@ == g@[a + j]@,
        decreases b - i,
    {
        r.push(g[i].duplicate());
        i = i + 1;
    }
    assert(glyph_views(r@) =~= glyph_views(g@).subrange(a as int, b as int));
    r
}

fn append_glyphs(out: &mut Vec<Glyph>, more: Vec<Glyph>)
    ensures
        glyph_views(final(out)@) == glyph_views(old(out)@) + glyph_views(more@),
{
    let ghost m = more@;
    let mut more = more;
    out.append(&mut more);
    assert(glyph_views(final(out)@) =~= glyph_views(old(out)@) + glyph_views(m));
}

/// The glyphs placed for the segment that starts at `start` (a fixed cell, a
/// marker with its gap, or a whole text field), and where the next one starts.
fn reorder_step(g1: &Vec<Glyph>, layout: Layout, d: Direction, cols: usize, start: usize) -> (r: (
    Vec<Glyph>,
    Vec<(u16, u16)>,
    usize,
))
    requires
        cols <= u16::MAX,
        glyphs_wf(glyph_views(g1@), cols as int),
        start < g1@.len(),
    ensures
        start < r.2 <= g1@.len(),
        r.2 as int == next_start(glyph_views(g1@), layout, start as int),
        reorder_from(glyph_views(g1@), start as int, layout, d) == (
            glyph_views(r.0@) + reorder_from(glyph_views(g1@), r.2 as int, layout, d).0,
            r.1@ + reorder_from(glyph_views(g1@), r.2 as int, layout, d).1,
        ),
        glyphs_geom(glyph_views(r.0@), cols as int),
        r.0@.len() == r.2 - start,
        forall|i: int| 0 <= i < r.1@.len() ==> (r.1@[i].1 as int) < cols,
        rearranged(glyph_views(r.0@), glyph_views(g1@).subrange(start as int, r.2 as int)),
        forall|i: int|
            0 <= i < r.1@.len() ==> (#[trigger] r.1@[i]).0 as int == glyph_end(glyph_views(g1@), r.2 as int),
        glyphs_clean(glyph_views(g1@)) ==> glyphs_clean(glyph_views(r.0@)),
{
    let ghost v = glyph_views(g1@);
    let n = g1.len();
    proof {
        assert(v[start as int] == g1@[start as int]@);
    }
    if glyph_is_border(&g1[start]) || glyph_is_space(&g1[start]) {
        let mut out: Vec<Glyph> = Vec::new();
        out.push(g1[start].duplicate());
        proof {
            let r = reorder_from(v, start + 1, layout, d);
            assert(glyph_views(out@) =~= seq![v[start as int]]);
            assert(v.subrange(start as int, start + 1) =~= seq![v[start as int]]);
            lemma_rearranged_self(glyph_views(out@));
        }
        (out, Vec::new(), start + 1)
    } else if glyph_is_marker(&g1[start]) && start + 1 < n && glyph_is_space(&g1[start + 1]) {
        proof {
            assert(v[start + 1] == g1@[start + 1]@);
        }
        let mut out: Vec<Glyph> = Vec::new();
        out.push(g1[start].duplicate());
        out.push(g1[start + 1].duplicate());
        proof {
            assert(glyph_views(out@) =~= v.subrange(start as int, start + 2));
            lemma_rearranged_self(glyph_views(out@));
        }
        (out, Vec::new(), start + 2)
    } else {
        let end = run_end_exec(g1, layout, start);
        proof {
            lemma_run_end(v, layout, start as int);
        }
        let window = copy_range(g1, start, end);
        proof {
            assert(window@.len() == glyph_views(window@).len());
            assert forall|i: int| 0 <= i < glyph_views(window@).len() implies 1 <= (
            #[trigger] glyph_views(window@)[i]).width <= 2 && glyph_views(window@)[i].text.len()
                > 0 && glyph_views(window@)[i].logical_col < cols && glyph_views(
                window@,
            )[i].logical_col + glyph_views(window@)[i].width <= cols by {
                assert(glyph_views(window@)[i] == v[start + i]);
            }
        }
        let (placed, ending) = reorder_field_exec(&window, d, cols);
        assert(glyph_views(window@) == v.subrange(start as int, end as int));
        proof {
            if glyphs_clean(v) {
                assert forall|k: int| 0 <= k < glyph_views(window@).len() implies no_escape(
                    #[trigger] glyph_views(window@)[k].text,
                ) && link_ok(glyph_views(window@)[k].hyperlink) by {
                    assert(glyph_views(window@)[k] == v[start + k]);
                }
            }
        }
        assert(glyph_end(glyph_views(window@), window@.len() as int) == glyph_end(v, end as int));
        (placed, ending, end)
    }
}

proof fn lemma_kept_step(
    v: Seq<GlyphView>,
    layout: Layout,
    d: Direction,
    before: Seq<GlyphView>,
    p: Seq<GlyphView>,
    start: int,
    next: int,
)
    requires
        0 <= start < next <= v.len(),
        before.len() == start,
        p.len() == next - start,
        next == next_start(v, layout, start),
        rearranged(before, v.subrange(0, start)),
        reorder_from(v, start, layout, d).0 == p + reorder_from(v, next, layout, d).0,
        forall|k: int|
            0 <= k < start && #[trigger] kept_in_place(v, layout, 0, k) ==> visual_start(before, k)
                == visual_start(v, k) && before[k] == v[k],
        forall|k: int|
            start <= k && #[trigger] kept_in_place(v, layout, 0, k) ==> kept_in_place(v, layout, start, k),
    ensures
        forall|k: int|
            0 <= k < next && #[trigger] kept_in_place(v, layout, 0, k) ==> visual_start(before + p, k)
                == visual_start(v, k) && (before + p)[k] == v[k],
        forall|k: int|
            next <= k && #[trigger] kept_in_place(v, layout, 0, k) ==> kept_in_place(v, layout, next, k),
{
    let out = before + p;
    let pre = v.subrange(0, start);
    let q = choose|q: Seq<int>| crate::display::maps::permuted_by(before, pre, q);
    crate::display::maps::lemma_rearranged_total(before, pre, q);
    crate::display::maps::lemma_visual_start_prefix(out, before, start);
    crate::display::maps::lemma_visual_start_prefix(v, pre, start);
    assert(visual_start(out, start) == visual_start(v, start));
    assert forall|k: int| 0 <= k < next && #[trigger] kept_in_place(v, layout, 0, k) implies visual_start(out, k)
        == visual_start(v, k) && out[k] == v[k] by {
        if k < start {
            crate::display::maps::lemma_visual_start_prefix(out, before, k);
            assert(out[k] == before[k]);
        } else {
            assert(kept_in_place(v, layout, start, k));
            if is_border(v[start]) || is_space(v[start]) {
                assert(k == start);
                let r = reorder_from(v, start + 1, layout, d);
                assert(reorder_from(v, start, layout, d).0 == seq![v[start]] + r.0);
                assert(p[0] == (p + reorder_from(v, next, layout, d).0)[0]);
                assert(out[start] == p[0]);
            } else if is_marker(v[start]) && start + 1 < v.len() && is_space(v[start + 1]) {
                let r2 = reorder_from(v, start + 2, layout, d);
                assert(reorder_from(v, start, layout, d).0 == v.subrange(start, start + 2) + r2.0);
                assert(p[0] == (p + r2.0)[0]);
                assert(p[1] == (p + r2.0)[1]);
                assert(out[start] == p[0]);
                assert(out[start + 1] == p[1]);
                if k == start {
                } else if k == start + 1 {
                    let r = reorder_from(v, start + 2, layout, d);
                    assert(reorder_from(v, start, layout, d).0 == v.subrange(start, start + 2) + r.0);
                    assert(p[0] == (p + r.0)[0]);
                    assert(p[0] == v[start]);
                    assert(out[start] == p[0]);
                    crate::display::maps::lemma_visual_start_step(out, start);
                    crate::display::maps::lemma_visual_start_step(v, start);
                } else {
                    assert(kept_in_place(v, layout, start + 2, k));
                    assert(false);
                }
            } else {
                crate::display::row::lemma_run_end(v, layout, start);
                assert(kept_in_place(v, layout, next, k));
                assert(false);
            }
        }
    }
    assert forall|k: int| next <= k && #[trigger] kept_in_place(v, layout, 0, k) implies kept_in_place(v, layout, next, k) by {
        assert(kept_in_place(v, layout, start, k));
        if !(is_border(v[start]) || is_space(v[start])) && !(is_marker(v[start]) && start + 1 < v.len()
            && is_space(v[start + 1])) {
            crate::display::row::lemma_run_end(v, layout, start);
        }
    }
}

/// Every text field of the row from the left, in visual order.
fn reorder_all(g1: &Vec<Glyph>, layout: Layout, d: Direction, cols: usize) -> (r: (
    Vec<Glyph>,
    Vec<(u16, u16)>,
))
    requires
        cols <= u16::MAX,
        glyphs_wf(glyph_views(g1@), cols as int),
    ensures
        (glyph_views(r.0@), r.1@) == reorder_from(glyph_views(g1@), 0, layout, d),
        glyphs_geom(glyph_views(r.0@), cols as int),
        r.0@.len() == g1@.len(),
        forall|i: int| 0 <= i < r.1@.len() ==> (r.1@[i].1 as int) < cols,
        rearranged(glyph_views(r.0@), glyph_views(g1@)),
        forall|i: int| 0 <= i < r.1@.len() ==> #[trigger] ends_a_glyph(glyph_views(g1@), r.1@[i].0 as int),
        forall|k: int|
            0 <= k < g1@.len() && #[trigger] kept_in_place(glyph_views(g1@), layout, 0, k) ==> visual_start(
                glyph_views(r.0@),
                k,
            ) == visual_start(glyph_views(g1@), k) && glyph_views(r.0@)[k] == glyph_views(g1@)[k],
        glyphs_clean(glyph_views(g1@)) ==> glyphs_clean(glyph_views(r.0@)),
{
    let ghost v = glyph_views(g1@);
    let n = g1.len();
    let mut out: Vec<Glyph> = Vec::new();
    let mut endings: Vec<(u16, u16)> = Vec::new();
    let mut start: usize = 0;
    proof {
        assert(glyph_views(out@) =~= Seq::<GlyphView>::empty());
        assert(v.subrange(0, 0) =~= Seq::<GlyphView>::empty());
        lemma_rearranged_self(Seq::<GlyphView>::empty());
    }
    while start < n
        invariant
            v == glyph_views(g1@),
            n == g1@.len(),
            cols <= u16::MAX,
            glyphs_wf(v, cols as int),
            start <= n,
            reorder_from(v, 0, layout, d) == (
                glyph_views(out@) + reorder_from(v, start as int, layout, d).0,
                endings@ + reorder_from(v, start as int, layout, d).1,
            ),
            glyphs_geom(glyph_views(out@), cols as int),
            out@.len() == start,
            forall|i: int| 0 <= i < endings@.len() ==> (endings@[i].1 as int) < cols,
            rearranged(glyph_views(out@), v.subrange(0, start as int)),
            forall|i: int| 0 <= i < endings@.len() ==> #[trigger] ends_a_glyph(v, endings@[i].0 as int),
            forall|k: int|
                0 <= k < start && #[trigger] kept_in_place(v, layout, 0, k) ==> visual_start(
                    glyph_views(out@),
                    k,
                ) == visual_start(v, k) && glyph_views(out@)[k] == v[k],
            forall|k: int|
                start <= k && #[trigger] kept_in_place(v, layout, 0, k) ==> kept_in_place(
                    v,
                    layout,
                    start as int,
                    k,
                ),
            glyphs_clean(v) ==> glyphs_clean(glyph_views(out@)),
        decreases n - start,
    {
        let ghost before_out = glyph_views(out@);
        let ghost before_end = endings@;
        let (placed, ending, next) = reorder_step(g1, layout, d, cols, start);
        let ghost p = glyph_views(placed@);
        let ghost e = ending@;
        append_glyphs(&mut out, placed);
        let mut ending = ending;
        endings.append(&mut ending);
        proof {
            lemma_kept_step(v, layout, d, before_out, p, start as int, next as int);
            lemma_rearranged_join(before_out, v.subrange(0, start as int), p, v.subrange(start as int, next as int));
            assert(v.subrange(0, start as int) + v.subrange(start as int, next as int) =~= v.subrange(0, next as int));
            assert(glyph_views(out@) =~= before_out + p);
            let r = reorder_from(v, next as int, layout, d);
            assert(glyph_views(out@) + r.0 =~= before_out + (p + r.0));
            assert(endings@ + r.1 =~= before_end + (e + r.1));
            assert forall|i: int| 0 <= i < glyph_views(out@).len() implies 1 <= (
            #[trigger] glyph_views(out@)[i]).width <= 2 && glyph_views(out@)[i].logical_col
                + glyph_views(out@)[i].width <= cols by {
                if i < before_out.len() {
                    assert(glyph_views(out@)[i] == before_out[i]);
                } else {
                    assert(glyph_views(out@)[i] == p[i - before_out.len()]);
                }
            }
            if glyphs_clean(v) {
                assert forall|k: int| 0 <= k < glyph_views(out@).len() implies no_escape(
                    #[trigger] glyph_views(out@)[k].text,
                ) && link_ok(glyph_views(out@)[k].hyperlink) by {
                    if k < before_out.len() {
                        assert(glyph_views(out@)[k] == before_out[k]);
                    } else {
                        assert(glyph_views(out@)[k] == p[k - before_out.len()]);
                    }
                }
            }
            assert forall|i: int| 0 <= i < endings@.len() implies (endings@[i].1 as int) < cols by {
                if i < before_end.len() {
                    assert(endings@[i] == before_end[i]);
                } else {
                    assert(endings@[i] == e[i - before_end.len()]);
                }
            }
            assert forall|i: int| 0 <= i < endings@.len() implies #[trigger] ends_a_glyph(v, endings@[i].0 as int) by {
                if i < before_end.len() {
                    assert(endings@[i] == before_end[i]);
                } else {
                    assert(endings@[i] == e[i - before_end.len()]);
                    assert(e[i - before_end.len()].0 as int == glyph_end(v, next as int));
                }
            }
        }
        start = next;
    }
    proof {
        assert(glyph_views(out@) + Seq::<GlyphView>::empty() =~= glyph_views(out@));
        assert(endings@ + Seq::<(u16, u16)>::empty() =~= endings@);
        assert(v.subrange(0, n as int) =~= v);
    }
    (out, endings)
}

/// The column maps of glyphs placed left to right.
fn column_maps(gs: &Vec<Glyph>, cols: usize) -> (r: (Vec<u16>, Vec<u16>))
    requires
        cols <= u16::MAX,
        gs@.len() <= cols,
        glyphs_geom(glyph_views(gs@), cols as int),
    ensures
        r.0@ == l2v_after(glyph_views(gs@), cols as int, gs@.len() as int),
        r.1@ == v2l_after(glyph_views(gs@), cols as int, gs@.len() as int),
        r.0@.len() == cols,
        r.1@.len() == cols,
        forall|c: int| 0 <= c < cols ==> (#[trigger] r.0@[c] as int) < cols,
        forall|c: int| 0 <= c < cols ==> (#[trigger] r.1@[c] as int) < cols,
{
    let ghost v = glyph_views(gs@);
    let mut l2v: Vec<u16> = Vec::new();
    let mut i: usize = 0;
    while i < cols
        invariant
            i <= cols <= u16::MAX,
            l2v@ == identity_map(i as int),
        decreases cols - i,
    {
        l2v.push(i as u16);
        i = i + 1;
        assert(l2v@ =~= identity_map(i as int));
    }
    let mut v2l = l2v.clone();
    assert(v2l@ == l2v@);
    assert(forall|c: int| 0 <= c < cols ==> (#[trigger] l2v@[c] as int) < cols);
    let mut vc: usize = 0;
    let mut k: usize = 0;
    while k < gs.len()
        invariant
            v == glyph_views(gs@),
            cols <= u16::MAX,
            gs@.len() <= cols,
            glyphs_geom(v, cols as int),
            k <= gs@.len(),
            vc == visual_start(v, k as int),
            vc <= 2 * k,
            l2v@ == l2v_after(v, cols as int, k as int),
            v2l@ == v2l_after(v, cols as int, k as int),
            l2v@.len() == cols,
            v2l@.len() == cols,
            forall|c: int| 0 <= c < cols ==> (#[trigger] l2v@[c] as int) < cols,
            forall|c: int| 0 <= c < cols ==> (#[trigger] v2l@[c] as int) < cols,
        decreases gs@.len() - k,
    {
        let g = &gs[k];
        proof {
            assert(v[k as int] == g@);
        }
        let col = g.logical_col as usize;
        if col < cols && vc < cols {
            l2v.set(col, vc as u16);
            v2l.set(vc, g.logical_col);
        }
        if g.width >= 2 && col + 1 < cols && vc + 1 < cols {
            l2v.set(col + 1, (vc + 1) as u16);
            v2l.set(vc + 1, g.logical_col + 1);
        }
        vc = vc + g.width as usize;
        k = k + 1;
    }
    (l2v, v2l)
}

/// Applies the RTL input endings to the logical-to-visual map.
fn adjust_exec(l2v: &mut Vec<u16>, cells: &[Cell], endings: &Vec<(u16, u16)>)
    requires
        old(l2v)@.len() == cells@.len(),
        forall|i: int| 0 <= i < endings@.len() ==> (endings@[i].1 as int) < cells@.len(),
    ensures
        final(l2v)@ == adjust_endings(old(l2v)@, cell_views(cells@), endings@),
        final(l2v)@.len() == old(l2v)@.len(),
        (forall|c: int| 0 <= c < cells@.len() ==> (#[trigger] old(l2v)@[c] as int) < cells@.len())
            ==> (forall|c: int| 0 <= c < cells@.len() ==> (#[trigger] final(l2v)@[c] as int) < cells@.len()),
{
    let ghost bounded = forall|c: int| 0 <= c < cells@.len() ==> (#[trigger] l2v@[c] as int) < cells@.len();
    let ghost m0 = l2v@;
    let ghost cv = cell_views(cells@);
    let mut i: usize = 0;
    assert(endings@.take(0) =~= Seq::<(u16, u16)>::empty());
    while i < endings.len()
        invariant
            i <= endings@.len(),
            cv == cell_views(cells@),
            m0.len() == cells@.len(),
            forall|j: int| 0 <= j < endings@.len() ==> (endings@[j].1 as int) < cells@.len(),
            l2v@ == adjust_endings(m0, cv, endings@.take(i as int)),
            l2v@.len() == m0.len(),
            bounded ==> forall|c: int| 0 <= c < cells@.len() ==> (#[trigger] l2v@[c] as int) < cells@.len(),
        decreases endings@.len() - i,
    {
        let (boundary, last) = endings[i];
        let b = boundary as usize;
        proof {
            assert(endings@.take(i + 1).drop_last() =~= endings@.take(i as int));
            assert(endings@.take(i + 1).last() == endings@[i as int]);
        }
        if b < cells.len() && !cells[b].has_contents() {
            let value = l2v[last as usize];
            l2v.set(b, value);
        }
        i = i + 1;
    }
    assert(endings@.take(i as int) =~= endings@);
}

pub proof fn lemma_cell_glyphs_len(cells: Seq<CellView>, n: int)
    ensures
        cell_glyphs(cells, n).len() <= if n < 0 {
            0
        } else {
            n
        },
    decreases n,
{
    if n > 0 {
        lemma_cell_glyphs_len(cells, n - 1);
    }
}

/// Where glyph `e - 1` ends.
pub open spec fn glyph_end(gs: Seq<GlyphView>, e: int) -> int {
    gs[e - 1].logical_col + gs[e - 1].width
}

/// `b` is where one of the glyphs ends.
pub open spec fn ends_a_glyph(gs: Seq<GlyphView>, b: int) -> bool {
    exists|e: int| 0 < e <= gs.len() && #[trigger] glyph_end(gs, e) == b
}

/// RTL input endings change no cell other than their boundaries.
pub proof fn lemma_adjust_keeps_other(m: Seq<u16>, cells: Seq<CellView>, endings: Seq<(u16, u16)>, c: int)
    requires
        0 <= c < m.len(),
        m.len() == cells.len(),
        forall|i: int| 0 <= i < endings.len() ==> (#[trigger] endings[i]).0 != c,
    ensures
        adjust_endings(m, cells, endings)[c] == m[c],
        adjust_endings(m, cells, endings).len() == m.len(),
    decreases endings.len(),
{
    if endings.len() > 0 {
        assert forall|i: int| 0 <= i < endings.drop_last().len() implies (#[trigger] endings.drop_last()[i]).0 != c by {
            assert(endings.drop_last()[i] == endings[i]);
        }
        lemma_adjust_keeps_other(m, cells, endings.drop_last(), c);
        assert(endings.last() == endings[endings.len() - 1]);
    }
}

/// RTL input endings only move cells that hold nothing.
pub proof fn lemma_adjust_keeps_text(m: Seq<u16>, cells: Seq<CellView>, endings: Seq<(u16, u16)>, c: int)
    requires
        0 <= c < m.len(),
        m.len() == cells.len(),
        cells[c].contents.len() > 0,
    ensures
        adjust_endings(m, cells, endings)[c] == m[c],
        adjust_endings(m, cells, endings).len() == m.len(),
    decreases endings.len(),
{
    if endings.len() > 0 {
        lemma_adjust_keeps_text(m, cells, endings.drop_last(), c);
    }
}

#[verifier::rlimit(60)]
proof fn lemma_row_facts(
    cv: Seq<CellView>,
    format: FormatView,
    layout: Layout,
    g0: Seq<GlyphView>,
    g1: Seq<GlyphView>,
    placed_v: Seq<GlyphView>,
    endings: Seq<(u16, u16)>,
    maps0: Seq<u16>,
    l2v: Seq<u16>,
    v2l: Seq<u16>,
    cols: int,
)
    requires
        cv.len() == cols,
        cols <= u16::MAX,
        g0 == cell_glyphs(cv, cols),
        g1 == g0.map_values(|g: GlyphView| apply_glyph(format, g)),
        rearranged(placed_v, g1),
        glyphs_geom(placed_v, cols),
        placed_v.len() <= cols,
        forall|k: int|
            0 <= k < g1.len() && #[trigger] kept_in_place(g1, layout, 0, k) ==> visual_start(placed_v, k)
                == visual_start(g1, k) && placed_v[k] == g1[k],
        maps0 == l2v_after(placed_v, cols, placed_v.len() as int),
        v2l == v2l_after(placed_v, cols, placed_v.len() as int),
        maps0.len() == cols,
        l2v == adjust_endings(maps0, cv, endings),
        forall|i: int| 0 <= i < endings.len() ==> #[trigger] ends_a_glyph(g1, endings[i].0 as int),
    ensures
        row_laws(RowView { glyphs: placed_v, logical_to_visual: l2v, visual_to_logical: v2l }, cv, format, layout),
{
    reveal(row_laws);
    if crate::display::maps::paired(cv) {
        lemma_cell_glyphs_len(cv, cols);
        assert forall|k: int| 0 <= k < g1.len() implies crate::display::maps::same_place(
            #[trigger] g1[k],
            cell_glyphs(cv, cols)[k],
        ) by {
            lemma_apply_glyph_keeps(format, g0[k]);
        }
        crate::display::maps::lemma_row_tiles(cv, g1);
        crate::display::maps::lemma_maps_invert(placed_v, g1, cols);
        crate::display::maps::lemma_v2l_permutation(placed_v, g1, cols);
        crate::display::maps::lemma_glyph_starts(cv, cols);
        assert(logical_glyphs(cv, format) == g1);
        crate::display::maps::lemma_rearranged_disjoint(placed_v, g1);
        crate::display::maps::lemma_maps_placed(placed_v, cols, placed_v.len() as int);
        let rv = RowView { glyphs: placed_v, logical_to_visual: l2v, visual_to_logical: v2l };
        assert forall|k: int|
            0 <= k < g1.len() && #[trigger] kept_in_place(g1, layout, 0, k) implies kept_column(rv, cv, g1, k) by {
            assert(crate::display::maps::placed_at(placed_v, cols, placed_v.len() as int, k));
            assert(g1[k].logical_col == visual_start(g1, k));
            let lc = g1[k].logical_col as int;
            if cv[lc].contents.len() > 0 {
                lemma_adjust_keeps_text(maps0, cv, endings, lc);
            }
        }
        assert forall|c: int|
            0 <= c < cv.len() && ((#[trigger] cv[c]).contents.len() > 0 || cv[c].wide_continuation) implies v2l[l2v[c] as int]
                == c by {
            if cv[c].contents.len() > 0 {
                lemma_adjust_keeps_text(maps0, cv, endings, c);
            } else {
                assert forall|i: int| 0 <= i < endings.len() implies (#[trigger] endings[i]).0 != c by {
                    assert(ends_a_glyph(g1, endings[i].0 as int));
                    let e = choose|e: int| 0 < e <= g1.len() && #[trigger] glyph_end(g1, e) == endings[i].0 as int;
                    crate::display::maps::lemma_visual_start_step(g1, e - 1);
                    assert(g1[e - 1].logical_col == visual_start(g1, e - 1));
                    if e < g1.len() {
                        assert(g1[e].logical_col == visual_start(g1, e));
                        assert(crate::display::maps::same_place(g1[e], cell_glyphs(cv, cols)[e]));
                    }
                }
                lemma_adjust_keeps_other(maps0, cv, endings, c);
            }
            assert((l2v_after(placed_v, cols, placed_v.len() as int)[c] as int) < cols);
        }
    }
}

/// A row decorated by `format` and reordered when `enabled`. When wide
/// characters are paired, mouse mapping is reversible: every cell that holds
/// text maps to a visual column that maps back to it.
pub fn formatted_row(
    cells: &[Cell],
    enabled: bool,
    direction: Direction,
    layout: Layout,
    format: &RowFormat,
) -> (row: VisualRow)
    requires
        cells@.len() <= u16::MAX,
    ensures
        row@ == spec_formatted_row(cell_views(cells@), enabled, direction, layout, format@),
        row.logical_to_visual@.len() == cells@.len(),
        row.visual_to_logical@.len() == cells@.len(),
        forall|c: int| 0 <= c < cells@.len() ==> (#[trigger] row.logical_to_visual@[c] as int) < cells@.len(),
        row_laws(row@, cell_views(cells@), format@, layout),
        cells_clean(cell_views(cells@)) ==> glyphs_clean(row@.glyphs),
{
    let cols = cells.len();
    let ghost cv = cell_views(cells@);
    let mut glyphs = initial_glyphs(cells);
    let ghost g0 = glyph_views(glyphs@);
    format.apply(&mut glyphs);
    let ghost g1 = glyph_views(glyphs@);
    proof {
        lemma_cell_glyphs_len(cv, cols as int);
        assert forall|i: int| 0 <= i < g1.len() implies 1 <= (#[trigger] g1[i]).width <= 2
            && g1[i].text.len() > 0 && g1[i].logical_col < cols && g1[i].logical_col + g1[i].width
            <= cols by {
            lemma_apply_glyph_keeps(format@, g0[i]);
        }
        assert(g1 =~= cell_glyphs(cv, cols as int).map_values(
            |g: GlyphView| apply_glyph(format@, g),
        ));
        if cells_clean(cv) {
            lemma_cell_glyphs_clean(cv, cols as int);
            lemma_apply_glyphs_clean(format@, cell_glyphs(cv, cols as int));
        }
    }
    let (placed, endings) = if enabled {
        reorder_all(&glyphs, layout, direction, cols)
    } else {
        (glyphs, Vec::new())
    };
    proof {
        if !enabled {
            lemma_rearranged_self(g1);
        }
    }
    let ghost placed_v = glyph_views(placed@);
    assert(forall|k: int|
        0 <= k < g1.len() && #[trigger] kept_in_place(g1, layout, 0, k) ==> visual_start(placed_v, k)
            == visual_start(g1, k) && placed_v[k] == g1[k]);
    assert(rearranged(placed_v, g1));
    let (mut l2v, v2l) = column_maps(&placed, cols);
    let ghost maps0 = l2v@;
    adjust_exec(&mut l2v, cells, &endings);
    proof {
        lemma_row_facts(cv, format@, layout, g0, g1, placed_v, endings@, maps0, l2v@, v2l@, cols as int);
    }
    VisualRow { glyphs: placed, logical_to_visual: l2v, visual_to_logical: v2l }
}

/// Reorders text fields independently. Box borders, indentation, common prompt
/// markers and gaps of two or more spaces stay in their terminal columns. This
/// is a layout heuristic, not a semantic parser for every possible TUI.
pub fn visual_row(cells: &[Cell], enabled: bool, direction: Direction) -> (row: VisualRow)
    requires
        cells@.len() <= u16::MAX,
    ensures
        row@ == spec_formatted_row(
            cell_views(cells@),
            enabled,
            direction,
            Layout::Columns,
            crate::pretty::plain_format(),
        ),
        row_laws(row@, cell_views(cells@), crate::pretty::plain_format(), Layout::Columns),
{
    visual_row_with_layout(cells, enabled, direction, Layout::Columns)
}

/// `visual_row` with a choice of how spaces separate fields.
pub fn visual_row_with_layout(cells: &[Cell], enabled: bool, direction: Direction, layout: Layout) -> (row:
    VisualRow)
    requires
        cells@.len() <= u16::MAX,
    ensures
        row@ == spec_formatted_row(
            cell_views(cells@),
            enabled,
            direction,
            layout,
            crate::pretty::plain_format(),
        ),
        row_laws(row@, cell_views(cells@), crate::pretty::plain_format(), layout),
{
    let plain = RowFormat::plain();
    formatted_row(cells, enabled, direction, layout, &plain)
}

} // verus!
