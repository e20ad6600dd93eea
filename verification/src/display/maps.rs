//! Why the column maps of a visual row invert each other: glyphs keep their
//! logical cells when fields are reordered, so placing them left to right
//! gives each logical cell one visual cell and back.
use vstd::prelude::*;
use crate::display::cell::CellView;
use crate::display::row::{
    adjust_endings,
    cell_glyphs,
    glyphs_geom,
    identity_map,
    initial_glyph,
    l2v_after,
    spec_formatted_row,
    v2l_after,
    visual_start,
    GlyphView,
};
use crate::display::{Direction, Layout};
use crate::pretty::{apply_glyph, plain_format};

verus! {

/// No two glyphs share a logical column.
pub open spec fn disjoint_columns(gs: Seq<GlyphView>) -> bool {
    forall|j1: int, j2: int|
        0 <= j1 < gs.len() && 0 <= j2 < gs.len() && j1 != j2 ==> #[trigger] gs[j1].logical_col
            + gs[j1].width <= gs[j2].logical_col || #[trigger] gs[j2].logical_col + gs[j2].width
            <= gs[j1].logical_col
}

/// Glyph `j` is placed in both maps: its logical cells map to its visual
/// cells and back.
pub open spec fn placed_at(gs: Seq<GlyphView>, cols: int, k: int, j: int) -> bool {
    let m = l2v_after(gs, cols, k);
    let v = v2l_after(gs, cols, k);
    let g = gs[j];
    let s = visual_start(gs, j);
    &&& m[g.logical_col as int] == s
    &&& v[s] == g.logical_col
    &&& g.width == 2 ==> m[g.logical_col + 1] == s + 1 && v[s + 1] == g.logical_col + 1
}

pub proof fn lemma_visual_start_step(gs: Seq<GlyphView>, k: int)
    requires
        0 <= k < gs.len(),
    ensures
        visual_start(gs, k + 1) == visual_start(gs, k) + gs[k].width,
{
}

pub proof fn lemma_visual_start_nonneg(gs: Seq<GlyphView>, a: int)
    requires
        a <= gs.len(),
    ensures
        visual_start(gs, a) >= 0,
    decreases a,
{
    if a > 0 {
        lemma_visual_start_nonneg(gs, a - 1);
    }
}

pub proof fn lemma_visual_start_mono(gs: Seq<GlyphView>, a: int, b: int)
    requires
        0 <= a <= b <= gs.len(),
    ensures
        visual_start(gs, a) <= visual_start(gs, b),
        a < b ==> visual_start(gs, a) + gs[a].width <= visual_start(gs, b),
    decreases b - a,
{
    if a < b {
        lemma_visual_start_mono(gs, a, b - 1);
        if a < b - 1 {
            lemma_visual_start_mono(gs, a + 1, b);
        }
    }
}

/// Placing the first `k` glyphs fills both maps for each of them.
pub proof fn lemma_maps_placed(gs: Seq<GlyphView>, cols: int, k: int)
    requires
        0 <= k <= gs.len(),
        cols >= 0,
        cols <= u16::MAX,
        glyphs_geom(gs, cols),
        disjoint_columns(gs),
        visual_start(gs, gs.len() as int) <= cols,
    ensures
        l2v_after(gs, cols, k).len() == cols,
        v2l_after(gs, cols, k).len() == cols,
        forall|j: int| 0 <= j < k ==> #[trigger] placed_at(gs, cols, k, j),
    decreases k,
{
    if k > 0 {
        lemma_maps_placed(gs, cols, k - 1);
        let g = gs[k - 1];
        let vc = visual_start(gs, k - 1);
        lemma_visual_start_mono(gs, k - 1, gs.len() as int);
        lemma_visual_start_step(gs, k - 1);
        lemma_visual_start_nonneg(gs, k - 1);
        assert(1 <= g.width <= 2 && g.logical_col + g.width <= cols);
        let m0 = l2v_after(gs, cols, k - 1);
        let v0 = v2l_after(gs, cols, k - 1);
        let lc = g.logical_col as int;
        let m1 = m0.update(lc, vc as u16);
        let v1 = v0.update(vc, g.logical_col);
        let m2 = if g.width >= 2 {
            m1.update(lc + 1, (vc + 1) as u16)
        } else {
            m1
        };
        let v2 = if g.width >= 2 {
            v1.update(vc + 1, (lc + 1) as u16)
        } else {
            v1
        };
        assert(l2v_after(gs, cols, k) == m2);
        assert(v2l_after(gs, cols, k) == v2);
        assert(vc + g.width <= cols);
        assert(v0.len() == cols);
        assert(v1.len() == cols);
        assert(v2.len() == cols);
        assert(placed_at(gs, cols, k, k - 1));
        assert forall|j: int| 0 <= j < k implies #[trigger] placed_at(gs, cols, k, j) by {
            if j < k - 1 {
                assert(placed_at(gs, cols, k - 1, j));
                lemma_visual_start_mono(gs, j, k - 1);
                lemma_visual_start_nonneg(gs, j);
                assert(gs[j].logical_col + gs[j].width <= g.logical_col || g.logical_col + g.width
                    <= gs[j].logical_col);
                assert(1 <= gs[j].width <= 2 && gs[j].logical_col + gs[j].width <= cols);
            }
        }
    }
}

/// The glyphs in logical order, each starting where the previous one ends.
pub open spec fn contiguous(gs: Seq<GlyphView>) -> bool {
    forall|k: int| 0 <= k < gs.len() ==> (#[trigger] gs[k]).logical_col == visual_start(gs, k)
}

/// The columns all glyphs take together.
pub open spec fn total_width(gs: Seq<GlyphView>) -> int {
    visual_start(gs, gs.len() as int)
}

/// Two glyphs at the same logical columns.
pub open spec fn same_place(a: GlyphView, b: GlyphView) -> bool {
    a.logical_col == b.logical_col && a.width == b.width
}

/// `out[j]` takes the place of `inp[p[j]]`, and `p` is a permutation.
pub open spec fn permuted_by(out: Seq<GlyphView>, inp: Seq<GlyphView>, p: Seq<int>) -> bool {
    &&& out.len() == inp.len()
    &&& p.len() == out.len()
    &&& forall|j: int|
        0 <= j < out.len() ==> 0 <= #[trigger] p[j] < inp.len() && same_place(out[j], inp[p[j]])
    &&& forall|j1: int, j2: int| 0 <= j1 < j2 < p.len() ==> #[trigger] p[j1] != #[trigger] p[j2]
    &&& forall|i: int| 0 <= i < inp.len() ==> #[trigger] hit(p, i)
}

/// Some position of `p` holds `i`.
pub open spec fn hit(p: Seq<int>, i: int) -> bool {
    exists|j: int| 0 <= j < p.len() && #[trigger] p[j] == i
}

/// `out` is `inp` rearranged, glyph places kept.
pub open spec fn rearranged(out: Seq<GlyphView>, inp: Seq<GlyphView>) -> bool {
    exists|p: Seq<int>| permuted_by(out, inp, p)
}

pub proof fn lemma_rearranged_self(gs: Seq<GlyphView>)
    ensures
        rearranged(gs, gs),
{
    let p = Seq::new(gs.len(), |i: int| i);
    assert forall|i: int| 0 <= i < gs.len() implies #[trigger] hit(p, i) by {
        assert(p[i] == i);
    }
    assert(permuted_by(gs, gs, p));
}

pub proof fn lemma_rearranged_join(a: Seq<GlyphView>, b: Seq<GlyphView>, c: Seq<GlyphView>, d: Seq<GlyphView>)
    requires
        rearranged(a, b),
        rearranged(c, d),
    ensures
        rearranged(a + c, b + d),
{
    let p = choose|p: Seq<int>| permuted_by(a, b, p);
    let q = choose|q: Seq<int>| permuted_by(c, d, q);
    let n = b.len() as int;
    let r = p + Seq::new(q.len(), |j: int| q[j] + n);
    let out = a + c;
    let inp = b + d;
    assert forall|j: int| 0 <= j < out.len() implies 0 <= #[trigger] r[j] < inp.len() && same_place(out[j], inp[r[j]]) by {
        if j < a.len() {
            assert(r[j] == p[j]);
            assert(out[j] == a[j]);
            assert(inp[p[j]] == b[p[j]]);
        } else {
            let j2 = j - a.len();
            assert(r[j] == q[j2] + n);
            assert(out[j] == c[j2]);
            assert(inp[q[j2] + n] == d[q[j2]]);
        }
    }
    assert forall|j1: int, j2: int| 0 <= j1 < j2 < r.len() implies #[trigger] r[j1] != #[trigger] r[j2] by {
        if j2 < a.len() {
        } else if j1 < a.len() {
            assert(r[j1] == p[j1]);
            assert(r[j2] == q[j2 - a.len()] + n);
        } else {
            assert(r[j1] == q[j1 - a.len()] + n);
            assert(r[j2] == q[j2 - a.len()] + n);
        }
    }
    assert forall|i: int| 0 <= i < inp.len() implies #[trigger] hit(r, i) by {
        if i < n {
            assert(hit(p, i));
            let j = choose|j: int| 0 <= j < p.len() && #[trigger] p[j] == i;
            assert(r[j] == i);
        } else {
            assert(hit(q, i - n));
            let j = choose|j: int| 0 <= j < q.len() && #[trigger] q[j] == i - n;
            assert(r[j + a.len()] == i);
        }
    }
    assert(permuted_by(out, inp, r));
}

/// Rearranging keeps glyphs apart when they were in logical order.
pub proof fn lemma_rearranged_disjoint(out: Seq<GlyphView>, inp: Seq<GlyphView>)
    requires
        rearranged(out, inp),
        contiguous(inp),
    ensures
        disjoint_columns(out),
{
    let p = choose|p: Seq<int>| permuted_by(out, inp, p);
    assert forall|j1: int, j2: int|
        0 <= j1 < out.len() && 0 <= j2 < out.len() && j1 != j2 implies #[trigger] out[j1].logical_col
        + out[j1].width <= out[j2].logical_col || #[trigger] out[j2].logical_col + out[j2].width
        <= out[j1].logical_col by {
        let i1 = p[j1];
        let i2 = p[j2];
        if j1 < j2 {
            assert(i1 != i2);
        } else {
            assert(p[j2] != p[j1]);
        }
        if i1 < i2 {
            lemma_visual_start_mono(inp, i1, i2);
        } else {
            lemma_visual_start_mono(inp, i2, i1);
        }
    }
}

proof fn lemma_total_remove(s: Seq<GlyphView>, j: int)
    requires
        0 <= j < s.len(),
    ensures
        total_width(s) == total_width(s.remove(j)) + s[j].width,
    decreases s.len(),
{
    if j == s.len() - 1 {
        assert(s.remove(j) =~= s.drop_last());
        assert(visual_start(s, s.len() as int) == visual_start(s, s.len() - 1) + s[j].width);
        assert(visual_start(s.drop_last(), s.len() - 1) == visual_start(s, s.len() - 1)) by {
            lemma_visual_start_prefix(s, s.drop_last(), s.len() - 1);
        };
    } else {
        lemma_total_remove(s.drop_last(), j);
        assert(s.remove(j).drop_last() =~= s.drop_last().remove(j));
        let r = s.remove(j);
        assert(r.last() == s.last());
        assert(visual_start(r, r.len() as int) == visual_start(r, r.len() - 1) + r.last().width);
        lemma_visual_start_prefix(r, r.drop_last(), r.len() - 1);
        assert(visual_start(s, s.len() as int) == visual_start(s, s.len() - 1) + s.last().width);
        lemma_visual_start_prefix(s, s.drop_last(), s.len() - 1);
    }
}

/// Prefix sums depend only on the prefix.
pub proof fn lemma_visual_start_prefix(s: Seq<GlyphView>, t: Seq<GlyphView>, k: int)
    requires
        0 <= k <= s.len(),
        k <= t.len(),
        forall|i: int| 0 <= i < k ==> s[i] == t[i],
    ensures
        visual_start(s, k) == visual_start(t, k),
    decreases k,
{
    if k > 0 {
        lemma_visual_start_prefix(s, t, k - 1);
    }
}

/// Rearranging keeps the total width.
pub proof fn lemma_rearranged_total(out: Seq<GlyphView>, inp: Seq<GlyphView>, p: Seq<int>)
    requires
        permuted_by(out, inp, p),
    ensures
        total_width(out) == total_width(inp),
    decreases inp.len(),
{
    let n = inp.len() as int;
    if n > 0 {
        assert(hit(p, n - 1));
        let js = choose|j: int| 0 <= j < p.len() && #[trigger] p[j] == n - 1;
        let out2 = out.remove(js);
        let inp2 = inp.drop_last();
        let p2 = p.remove(js);
        assert forall|j: int| 0 <= j < out2.len() implies 0 <= #[trigger] p2[j] < inp2.len() && same_place(out2[j], inp2[p2[j]]) by {
            let k = if j < js { j } else { j + 1 };
            assert(p2[j] == p[k]);
            assert(out2[j] == out[k]);
            assert(p[k] != p[js]) by {
                if k < js {
                } else {
                }
            };
        }
        assert forall|j1: int, j2: int| 0 <= j1 < j2 < p2.len() implies #[trigger] p2[j1] != #[trigger] p2[j2] by {
            let k1 = if j1 < js { j1 } else { j1 + 1 };
            let k2 = if j2 < js { j2 } else { j2 + 1 };
            assert(p2[j1] == p[k1]);
            assert(p2[j2] == p[k2]);
        }
        assert forall|i: int| 0 <= i < inp2.len() implies #[trigger] hit(p2, i) by {
            assert(hit(p, i));
            let k = choose|k: int| 0 <= k < p.len() && #[trigger] p[k] == i;
            assert(k != js);
            if k < js {
                assert(p2[k] == i);
            } else {
                assert(p2[k - 1] == i);
            }
        }
        assert(permuted_by(out2, inp2, p2));
        lemma_rearranged_total(out2, inp2, p2);
        lemma_total_remove(out, js);
        assert(visual_start(inp, n) == visual_start(inp, n - 1) + inp[n - 1].width);
        lemma_visual_start_prefix(inp, inp2, n - 1);
    }
}

proof fn lemma_cover_upto(inp: Seq<GlyphView>, c: int, n: int)
    requires
        0 <= n <= inp.len(),
        0 <= c < visual_start(inp, n),
    ensures
        exists|i: int|
            0 <= i < n && visual_start(inp, i) <= c < visual_start(inp, i) + (#[trigger] inp[i]).width,
    decreases n,
{
    if c >= visual_start(inp, n - 1) {
        assert(visual_start(inp, n - 1) <= c < visual_start(inp, n - 1) + inp[n - 1].width);
    } else {
        lemma_cover_upto(inp, c, n - 1);
    }
}

/// Each column of a row is covered by the placed glyphs: the logical
/// column's glyph maps it to a visual column, which maps back to it.
pub proof fn lemma_maps_invert(out: Seq<GlyphView>, inp: Seq<GlyphView>, cols: int)
    requires
        rearranged(out, inp),
        contiguous(inp),
        total_width(inp) == cols,
        glyphs_geom(out, cols),
        cols <= u16::MAX,
    ensures
        forall|c: int|
            0 <= c < cols ==> (#[trigger] l2v_after(out, cols, out.len() as int)[c] as int) < cols
                && v2l_after(out, cols, out.len() as int)[l2v_after(out, cols, out.len() as int)[c] as int]
                == c,
{
    let p = choose|p: Seq<int>| permuted_by(out, inp, p);
    lemma_rearranged_disjoint(out, inp);
    lemma_rearranged_total(out, inp, p);
    lemma_visual_start_nonneg(inp, inp.len() as int);
    lemma_maps_placed(out, cols, out.len() as int);
    let n = out.len() as int;
    assert forall|c: int| 0 <= c < cols implies (#[trigger] l2v_after(out, cols, n)[c] as int) < cols
        && v2l_after(out, cols, n)[l2v_after(out, cols, n)[c] as int] == c by {
        lemma_cover_upto(inp, c, inp.len() as int);
        let i = choose|i: int|
            0 <= i < inp.len() && visual_start(inp, i) <= c < visual_start(inp, i) + (
            #[trigger] inp[i]).width;
        assert(hit(p, i));
        let j = choose|j: int| 0 <= j < p.len() && #[trigger] p[j] == i;
        assert(same_place(out[j], inp[i]));
        assert(placed_at(out, cols, n, j));
        assert(inp[i].logical_col == visual_start(inp, i));
        lemma_visual_start_mono(out, j, n);
        lemma_visual_start_nonneg(out, j);
    }
}

/// Cells whose wide characters are paired: a cell continues a wide
/// character exactly when the cell before it is wide, and no cell is both.
pub open spec fn paired(cells: Seq<CellView>) -> bool {
    forall|c: int|
        0 <= c < cells.len() ==> ((#[trigger] cells[c]).wide_continuation <==> (c > 0 && cells[c
            - 1].wide)) && !(cells[c].wide && cells[c].wide_continuation)
}

proof fn lemma_cell_glyphs_contiguous(cells: Seq<CellView>, n: int)
    requires
        paired(cells),
        0 <= n <= cells.len(),
        cells.len() <= u16::MAX,
    ensures
        contiguous(cell_glyphs(cells, n)),
        total_width(cell_glyphs(cells, n)) == n + if n >= 1 && n < cells.len() && cells[n - 1].wide {
            1int
        } else {
            0int
        },
    decreases n,
{
    if n > 0 {
        lemma_cell_glyphs_contiguous(cells, n - 1);
        let prev = cell_glyphs(cells, n - 1);
        assert(cells[n - 1].wide_continuation <==> (n - 1 > 0 && cells[n - 2].wide));
        if !cells[n - 1].wide_continuation {
            let g = initial_glyph(cells[n - 1], n - 1, cells.len() as int);
            let gs = prev.push(g);
            lemma_visual_start_prefix(gs, prev, prev.len() as int);
            assert forall|k: int| 0 <= k < gs.len() implies (#[trigger] gs[k]).logical_col
                == visual_start(gs, k) by {
                lemma_visual_start_prefix(gs, prev, k);
            }
        }
    }
}

/// Glyphs changed only in text and style keep their places.
pub open spec fn same_places(a: Seq<GlyphView>, b: Seq<GlyphView>) -> bool {
    a.len() == b.len() && forall|k: int| 0 <= k < a.len() ==> same_place(#[trigger] a[k], b[k])
}

proof fn lemma_same_places_start(a: Seq<GlyphView>, b: Seq<GlyphView>, k: int)
    requires
        same_places(a, b),
        0 <= k <= a.len(),
    ensures
        visual_start(a, k) == visual_start(b, k),
    decreases k,
{
    if k > 0 {
        lemma_same_places_start(a, b, k - 1);
        assert(same_place(a[k - 1], b[k - 1]));
    }
}

/// The glyphs of paired cells, in logical order, tile the row.
pub proof fn lemma_row_tiles(cells: Seq<CellView>, g1: Seq<GlyphView>)
    requires
        paired(cells),
        cells.len() <= u16::MAX,
        same_places(g1, cell_glyphs(cells, cells.len() as int)),
    ensures
        contiguous(g1),
        total_width(g1) == cells.len(),
{
    let g0 = cell_glyphs(cells, cells.len() as int);
    lemma_cell_glyphs_contiguous(cells, cells.len() as int);
    lemma_same_places_start(g1, g0, g1.len() as int);
    assert forall|k: int| 0 <= k < g1.len() implies (#[trigger] g1[k]).logical_col == visual_start(g1, k) by {
        lemma_same_places_start(g1, g0, k);
        assert(same_place(g1[k], g0[k]));
        assert(g0[k].logical_col == visual_start(g0, k));
    }
}

/// Glyphs start only at cells that do not continue a wide character.
pub proof fn lemma_glyph_starts(cells: Seq<CellView>, n: int)
    requires
        0 <= n <= cells.len(),
        cells.len() <= u16::MAX,
    ensures
        forall|k: int|
            0 <= k < cell_glyphs(cells, n).len() ==> 0 <= (#[trigger] cell_glyphs(cells, n)[k]).logical_col < cells.len()
                && !cells[cell_glyphs(cells, n)[k].logical_col as int].wide_continuation,
    decreases n,
{
    if n > 0 {
        lemma_glyph_starts(cells, n - 1);
        let prev = cell_glyphs(cells, n - 1);
        if !cells[n - 1].wide_continuation {
            let gs = prev.push(initial_glyph(cells[n - 1], n - 1, cells.len() as int));
            assert forall|k: int| 0 <= k < gs.len() implies 0 <= (#[trigger] gs[k]).logical_col < cells.len()
                && !cells[gs[k].logical_col as int].wide_continuation by {
                if k < prev.len() {
                    assert(gs[k] == prev[k]);
                }
            }
        }
    }
}

/// Distinct visual columns of a row map to distinct logical columns: the
/// visual-to-logical map is a permutation of the row's columns.
pub proof fn lemma_v2l_permutation(out: Seq<GlyphView>, inp: Seq<GlyphView>, cols: int)
    requires
        rearranged(out, inp),
        contiguous(inp),
        total_width(inp) == cols,
        glyphs_geom(out, cols),
        cols <= u16::MAX,
    ensures
        total_width(out) == cols,
        v2l_after(out, cols, out.len() as int).len() == cols,
        forall|v: int| 0 <= v < cols ==> (#[trigger] v2l_after(out, cols, out.len() as int)[v] as int) < cols,
        forall|v1: int, v2: int|
            0 <= v1 < v2 < cols ==> #[trigger] v2l_after(out, cols, out.len() as int)[v1]
                != #[trigger] v2l_after(out, cols, out.len() as int)[v2],
{
    let p = choose|p: Seq<int>| permuted_by(out, inp, p);
    lemma_rearranged_disjoint(out, inp);
    lemma_rearranged_total(out, inp, p);
    lemma_visual_start_nonneg(inp, inp.len() as int);
    let n = out.len() as int;
    lemma_maps_placed(out, cols, n);
    let m = v2l_after(out, cols, n);
    assert forall|v: int| 0 <= v < cols implies (#[trigger] m[v] as int) < cols && exists|j: int|
        0 <= j < n && visual_start(out, j) <= v < visual_start(out, j) + out[j].width && m[v]
            == out[j].logical_col + (v - visual_start(out, j)) by {
        lemma_cover_upto(out, v, n);
        let j = choose|j: int|
            0 <= j < n && visual_start(out, j) <= v < visual_start(out, j) + (#[trigger] out[j]).width;
        assert(placed_at(out, cols, n, j));
    }
    assert forall|v1: int, v2: int| 0 <= v1 < v2 < cols implies #[trigger] m[v1] != #[trigger] m[v2] by {
        assert((m[v1] as int) < cols);
        assert((m[v2] as int) < cols);
        let j1 = choose|j: int|
            0 <= j < n && visual_start(out, j) <= v1 < visual_start(out, j) + out[j].width && m[v1]
                == out[j].logical_col + (v1 - visual_start(out, j));
        let j2 = choose|j: int|
            0 <= j < n && visual_start(out, j) <= v2 < visual_start(out, j) + out[j].width && m[v2]
                == out[j].logical_col + (v2 - visual_start(out, j));
        if j1 != j2 {
            assert(out[j1].logical_col + out[j1].width <= out[j2].logical_col || out[j2].logical_col
                + out[j2].width <= out[j1].logical_col);
        }
    }
}

proof fn lemma_tiled_column(gs: Seq<GlyphView>, cols: int, c: int)
    requires
        contiguous(gs),
        total_width(gs) == cols,
        0 <= c < cols,
        cols <= u16::MAX,
        forall|k: int| 0 <= k < gs.len() ==> 1 <= (#[trigger] gs[k]).width <= 2,
        forall|j: int| 0 <= j < gs.len() ==> #[trigger] placed_at(gs, cols, gs.len() as int, j),
    ensures
        l2v_after(gs, cols, gs.len() as int)[c] == c as u16,
        v2l_after(gs, cols, gs.len() as int)[c] == c as u16,
{
    let n = gs.len() as int;
    lemma_cover_upto(gs, c, n);
    let j = choose|j: int| 0 <= j < n && visual_start(gs, j) <= c < visual_start(gs, j) + (#[trigger] gs[j]).width;
    assert(placed_at(gs, cols, n, j));
    assert(gs[j].logical_col == visual_start(gs, j));
    assert(1 <= gs[j].width <= 2);
}

/// Glyphs in logical order that tile a row place every column on itself.
pub proof fn lemma_tiled_identity_maps(gs: Seq<GlyphView>, cols: int)
    requires
        contiguous(gs),
        total_width(gs) == cols,
        forall|k: int| 0 <= k < gs.len() ==> 1 <= (#[trigger] gs[k]).width <= 2,
        cols <= u16::MAX,
    ensures
        l2v_after(gs, cols, gs.len() as int) == identity_map(cols),
        v2l_after(gs, cols, gs.len() as int) == identity_map(cols),
{
    let n = gs.len() as int;
    lemma_rearranged_self(gs);
    lemma_rearranged_disjoint(gs, gs);
    lemma_glyphs_geom_tiled(gs, cols);
    lemma_visual_start_nonneg(gs, n);
    lemma_maps_placed(gs, cols, n);
    let m = l2v_after(gs, cols, n);
    let v = v2l_after(gs, cols, n);
    assert forall|c: int| 0 <= c < cols implies m[c] == c as u16 && v[c] == c as u16 by {
        lemma_tiled_column(gs, cols, c);
    }
    assert(m =~= identity_map(cols));
    assert(v =~= identity_map(cols));
}

/// With correction off and no decoration, a row of paired cells is shown as
/// it is: one glyph per cell that does not continue a wide character, in
/// column order, and both column maps are the identity.
pub proof fn lemma_uncorrected_row_is_identity(cells: Seq<CellView>, direction: Direction, layout: Layout)
    requires
        paired(cells),
        cells.len() <= u16::MAX,
    ensures
        spec_formatted_row(cells, false, direction, layout, plain_format()).glyphs == cell_glyphs(
            cells,
            cells.len() as int,
        ),
        spec_formatted_row(cells, false, direction, layout, plain_format()).logical_to_visual
            == identity_map(cells.len() as int),
        spec_formatted_row(cells, false, direction, layout, plain_format()).visual_to_logical
            == identity_map(cells.len() as int),
{
    let cols = cells.len() as int;
    let g0 = cell_glyphs(cells, cols);
    let g1 = g0.map_values(|g: GlyphView| apply_glyph(plain_format(), g));
    assert(g1 =~= g0);
    assert forall|k: int| 0 <= k < g0.len() implies same_place(#[trigger] g0[k], g0[k]) by {}
    lemma_row_tiles(cells, g0);
    lemma_cell_glyph_widths(cells, cols);
    lemma_tiled_identity_maps(g0, cols);
    let m = l2v_after(g0, cols, g0.len() as int);
    assert(adjust_endings(m, cells, Seq::empty()) == m);
}

proof fn lemma_cell_glyph_widths(cells: Seq<CellView>, n: int)
    ensures
        forall|k: int| 0 <= k < cell_glyphs(cells, n).len() ==> 1 <= (#[trigger] cell_glyphs(cells, n)[k]).width <= 2,
    decreases n,
{
    if n > 0 {
        lemma_cell_glyph_widths(cells, n - 1);
        let prev = cell_glyphs(cells, n - 1);
        if !cells[n - 1].wide_continuation {
            let gs = prev.push(initial_glyph(cells[n - 1], n - 1, cells.len() as int));
            assert forall|k: int| 0 <= k < gs.len() implies 1 <= (#[trigger] gs[k]).width <= 2 by {
                if k < prev.len() {
                    assert(gs[k] == prev[k]);
                }
            }
        }
    }
}

/// Glyphs that tile a row lie inside it, each one or two columns wide.
proof fn lemma_glyphs_geom_tiled(gs: Seq<GlyphView>, cols: int)
    requires
        contiguous(gs),
        total_width(gs) == cols,
        forall|k: int| 0 <= k < gs.len() ==> 1 <= (#[trigger] gs[k]).width <= 2,
    ensures
        glyphs_geom(gs, cols),
{
    assert forall|k: int| 0 <= k < gs.len() implies 1 <= (#[trigger] gs[k]).width <= 2 && gs[k].logical_col
        + gs[k].width <= cols by {
        lemma_visual_start_mono(gs, k, gs.len() as int);
    }
}

} // verus!
