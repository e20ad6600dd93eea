//! The cells that reordering never moves, described by what they hold: box
//! borders, gaps of two blanks, leading indentation and prompt markers keep
//! their terminal columns in every row that `visual_row` builds.
use vstd::prelude::*;
use crate::display::cell::CellView;
use crate::display::maps::paired;
use crate::display::row::{
    cell_glyphs,
    initial_glyph,
    is_border,
    is_marker,
    is_space,
    kept_column,
    kept_in_place,
    lemma_borders_kept,
    lemma_gaps_kept,
    lemma_indentation_kept,
    lemma_markers_kept,
    logical_glyphs,
    row_laws,
    RowView,
};
use crate::display::Layout;
use crate::pretty::{apply_glyph, plain_format};

verus! {

/// Where cell `c`'s glyph stands among the logical glyphs: after one glyph
/// for each earlier cell that starts a character.
pub open spec fn glyph_index(cells: Seq<CellView>, c: int) -> int {
    cell_glyphs(cells, c).len() as int
}

/// A cell that shows as a plain blank: nothing drawn, or one space, and not
/// part of a wide character.
pub open spec fn blank_cell(cell: CellView) -> bool {
    &&& cell.contents.len() == 0 || cell.contents == seq![' ']
    &&& !cell.wide
    &&& !cell.wide_continuation
}

/// A narrow cell whose text holds a box-drawing character (U+2500 to U+257F).
pub open spec fn border_cell(cell: CellView) -> bool {
    &&& exists|i: int| 0 <= i < cell.contents.len() && '\u{2500}' <= #[trigger] cell.contents[i] <= '\u{257f}'
    &&& !cell.wide
    &&& !cell.wide_continuation
}

/// A narrow cell holding one prompt or bullet marker.
pub open spec fn marker_cell(cell: CellView) -> bool {
    &&& cell.contents.len() == 1
    &&& {
        let c = cell.contents[0];
        c == '>' || c == '\u{276f}' || c == '\u{203a}' || c == '\u{25cf}' || c == '\u{2022}' || c == '-'
            || c == '+' || c == '*'
    }
    &&& !cell.wide
    &&& !cell.wide_continuation
}

/// Column `c` stays where it is: it shows column `c`, and its glyph is the
/// one built from cell `c`; a cell with text is also drawn at column `c`.
pub open spec fn column_fixed(row: RowView, cells: Seq<CellView>, c: int) -> bool {
    &&& row.visual_to_logical[c] == c
    &&& cells[c].contents.len() > 0 ==> row.logical_to_visual[c] == c
    &&& row.glyphs[glyph_index(cells, c)] == initial_glyph(cells[c], c, cells.len() as int)
}

proof fn lemma_glyphs_prefix(cells: Seq<CellView>, m: int, n: int)
    requires
        0 <= m <= n,
    ensures
        cell_glyphs(cells, m).len() <= cell_glyphs(cells, n).len(),
        forall|k: int|
            0 <= k < cell_glyphs(cells, m).len() ==> #[trigger] cell_glyphs(cells, n)[k] == cell_glyphs(
                cells,
                m,
            )[k],
    decreases n - m,
{
    if m < n {
        lemma_glyphs_prefix(cells, m, n - 1);
        let prev = cell_glyphs(cells, n - 1);
        if !cells[n - 1].wide_continuation {
            let g = initial_glyph(cells[n - 1], n - 1, cells.len() as int);
            assert forall|k: int| 0 <= k < prev.len() implies #[trigger] prev.push(g)[k] == prev[k] by {}
        }
    }
}

/// Cell `c`'s glyph is the one built from it.
proof fn lemma_glyph_of_cell(cells: Seq<CellView>, c: int)
    requires
        0 <= c < cells.len(),
        !cells[c].wide_continuation,
    ensures
        glyph_index(cells, c) < cell_glyphs(cells, cells.len() as int).len(),
        glyph_index(cells, c + 1) == glyph_index(cells, c) + 1,
        cell_glyphs(cells, cells.len() as int)[glyph_index(cells, c)] == initial_glyph(
            cells[c],
            c,
            cells.len() as int,
        ),
{
    lemma_glyphs_prefix(cells, c + 1, cells.len() as int);
    let k = glyph_index(cells, c);
    assert(cell_glyphs(cells, c + 1)[k] == initial_glyph(cells[c], c, cells.len() as int));
}

/// With no wide character among the first `n` cells, glyph `i` is cell `i`'s.
proof fn lemma_narrow_prefix(cells: Seq<CellView>, n: int)
    requires
        0 <= n <= cells.len(),
        forall|i: int| 0 <= i < n ==> !(#[trigger] cells[i]).wide_continuation,
    ensures
        cell_glyphs(cells, n).len() == n,
    decreases n,
{
    if n > 0 {
        lemma_narrow_prefix(cells, n - 1);
    }
}

/// A glyph that reordering keeps in place keeps its cell's column.
proof fn lemma_kept_cell(row: RowView, cells: Seq<CellView>, layout: Layout, c: int)
    requires
        row_laws(row, cells, plain_format(), layout),
        paired(cells),
        cells.len() <= u16::MAX,
        0 <= c < cells.len(),
        !cells[c].wide_continuation,
        kept_in_place(cell_glyphs(cells, cells.len() as int), layout, 0, glyph_index(cells, c)),
    ensures
        column_fixed(row, cells, c),
{
    reveal(row_laws);
    let g = cell_glyphs(cells, cells.len() as int);
    let lg = logical_glyphs(cells, plain_format());
    assert forall|k: int| 0 <= k < g.len() implies #[trigger] lg[k] == g[k] by {
        assert(lg[k] == apply_glyph(plain_format(), g[k]));
    }
    assert(lg =~= g);
    lemma_glyph_of_cell(cells, c);
    let k = glyph_index(cells, c);
    assert(kept_column(row, cells, g, k));
}

/// Box borders stay in their terminal columns.
pub proof fn lemma_border_cells_kept(row: RowView, cells: Seq<CellView>, layout: Layout, c: int)
    requires
        row_laws(row, cells, plain_format(), layout),
        paired(cells),
        cells.len() <= u16::MAX,
        0 <= c < cells.len(),
        border_cell(cells[c]),
    ensures
        column_fixed(row, cells, c),
{
    lemma_glyph_of_cell(cells, c);
    let g = cell_glyphs(cells, cells.len() as int);
    let k = glyph_index(cells, c);
    let i = choose|i: int|
        0 <= i < cells[c].contents.len() && '\u{2500}' <= #[trigger] cells[c].contents[i] <= '\u{257f}';
    assert(g[k].text == cells[c].contents);
    assert('\u{2500}' <= g[k].text[i] <= '\u{257f}');
    assert(is_border(g[k]));
    lemma_borders_kept(g, layout, 0, k);
    lemma_kept_cell(row, cells, layout, c);
}

/// In column layout, a gap of two blanks keeps both of its columns.
pub proof fn lemma_gap_cells_kept(row: RowView, cells: Seq<CellView>, c: int)
    requires
        row_laws(row, cells, plain_format(), Layout::Columns),
        paired(cells),
        cells.len() <= u16::MAX,
        0 <= c,
        c + 1 < cells.len(),
        blank_cell(cells[c]),
        blank_cell(cells[c + 1]),
    ensures
        column_fixed(row, cells, c),
        column_fixed(row, cells, c + 1),
{
    lemma_glyph_of_cell(cells, c);
    lemma_glyph_of_cell(cells, c + 1);
    let g = cell_glyphs(cells, cells.len() as int);
    let k = glyph_index(cells, c);
    assert(g[k].text =~= seq![' ']);
    assert(g[k + 1].text =~= seq![' ']);
    lemma_gaps_kept(g, 0, k);
    lemma_kept_cell(row, cells, Layout::Columns, c);
    lemma_kept_cell(row, cells, Layout::Columns, c + 1);
}

/// Leading indentation keeps its columns: when every cell up to `c` is
/// blank, column `c` stays.
pub proof fn lemma_indentation_cells_kept(row: RowView, cells: Seq<CellView>, layout: Layout, c: int)
    requires
        row_laws(row, cells, plain_format(), layout),
        paired(cells),
        cells.len() <= u16::MAX,
        0 <= c < cells.len(),
        forall|i: int| 0 <= i <= c ==> blank_cell(#[trigger] cells[i]),
    ensures
        column_fixed(row, cells, c),
{
    let g = cell_glyphs(cells, cells.len() as int);
    assert forall|i: int| 0 <= i <= c implies is_space(#[trigger] g[i]) by {
        lemma_narrow_prefix(cells, i);
        assert(blank_cell(cells[i]));
        lemma_glyph_of_cell(cells, i);
        assert(g[i].text =~= seq![' ']);
    }
    lemma_narrow_prefix(cells, c);
    lemma_glyph_of_cell(cells, c);
    lemma_indentation_kept(g, layout, 0, c);
    lemma_kept_cell(row, cells, layout, c);
}

/// Prompt markers keep their columns with the blank after them, when only
/// blanks and borders come before them.
pub proof fn lemma_marker_cells_kept(row: RowView, cells: Seq<CellView>, layout: Layout, m: int)
    requires
        row_laws(row, cells, plain_format(), layout),
        paired(cells),
        cells.len() <= u16::MAX,
        0 <= m,
        m + 1 < cells.len(),
        marker_cell(cells[m]),
        blank_cell(cells[m + 1]),
        forall|i: int| 0 <= i < m ==> blank_cell(#[trigger] cells[i]) || border_cell(cells[i]),
    ensures
        column_fixed(row, cells, m),
        column_fixed(row, cells, m + 1),
{
    let g = cell_glyphs(cells, cells.len() as int);
    assert forall|i: int| 0 <= i < m implies is_space(#[trigger] g[i]) || is_border(g[i]) by {
        lemma_narrow_prefix(cells, i);
        lemma_glyph_of_cell(cells, i);
        if blank_cell(cells[i]) {
            assert(g[i].text =~= seq![' ']);
        } else {
            let j = choose|j: int|
                0 <= j < cells[i].contents.len() && '\u{2500}' <= #[trigger] cells[i].contents[j] <= '\u{257f}';
            assert(g[i].text == cells[i].contents);
            assert('\u{2500}' <= g[i].text[j] <= '\u{257f}');
        }
    }
    lemma_narrow_prefix(cells, m);
    lemma_glyph_of_cell(cells, m);
    lemma_glyph_of_cell(cells, m + 1);
    assert(g[m].text == cells[m].contents);
    assert(is_marker(g[m]));
    assert(g[m + 1].text =~= seq![' ']);
    lemma_markers_kept(g, layout, 0, m);
    lemma_kept_cell(row, cells, layout, m);
    lemma_kept_cell(row, cells, layout, m + 1);
}

} // verus!
