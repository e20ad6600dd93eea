//! Markdown table rows: the pipe columns of a row, its bounds and its rule.
use vstd::prelude::*;
use crate::display::cell::{Cell, CellView};
use crate::display::row::cell_views;
use crate::pretty::rows::{blank, str_blank};
use crate::text::chars_of;

verus! {

/// The columns, among the first `n`, whose cell holds exactly `|`.
pub open spec fn pipes_upto(row: Seq<CellView>, n: int) -> Seq<u16>
    decreases n,
{
    if n <= 0 {
        Seq::empty()
    } else {
        let p = pipes_upto(row, n - 1);
        if row[n - 1].contents == seq!['|'] {
            p.push((n - 1) as u16)
        } else {
            p
        }
    }
}

pub open spec fn pipes(row: Seq<CellView>) -> Seq<u16> {
    pipes_upto(row, row.len() as int)
}

/// Strictly increasing columns, all inside a row of `len` cells.
pub open spec fn columns_in(pos: Seq<u16>, len: int) -> bool {
    &&& forall|k: int| 0 <= k < pos.len() ==> (#[trigger] pos[k]) < len
    &&& forall|k: int, l: int| 0 <= k < l < pos.len() ==> pos[k] < pos[l]
}

pub proof fn lemma_pipes_columns(row: Seq<CellView>, n: int)
    requires
        0 <= n <= row.len(),
        n <= 65536,
    ensures
        columns_in(pipes_upto(row, n), n),
    decreases n,
{
    if n > 0 {
        lemma_pipes_columns(row, n - 1);
    }
}

/// A table row: at least three pipes, with nothing but blanks outside them.
pub open spec fn table_bounds(row: Seq<CellView>, pos: Seq<u16>) -> bool {
    &&& pos.len() >= 3
    &&& forall|j: int| 0 <= j < pos[0] ==> blank(#[trigger] row[j].contents)
    &&& forall|j: int| pos.last() < j < row.len() ==> blank(#[trigger] row[j].contents)
}

/// The cells between `a` and `b` that hold exactly `-`.
pub open spec fn dash_count(row: Seq<CellView>, a: int, b: int) -> nat
    decreases b - a,
{
    if b <= a {
        0
    } else {
        dash_count(row, a, b - 1) + if row[b - 1].contents == seq!['-'] {
            1nat
        } else {
            0nat
        }
    }
}

/// Contents allowed in a table rule.
pub open spec fn rule_cell(t: Seq<char>) -> bool {
    t == seq!['-'] || t == seq![':'] || t == seq![' '] || t.len() == 0
}

/// A rule segment: at least three dashes and nothing but rule cells.
pub open spec fn rule_segment(row: Seq<CellView>, a: int, b: int) -> bool {
    &&& dash_count(row, a, b) >= 3
    &&& forall|j: int| a <= j < b ==> rule_cell(#[trigger] row[j].contents)
}

/// The segment between pipe `k` and the next one is a rule segment.
pub open spec fn rule_between(row: Seq<CellView>, pos: Seq<u16>, k: int) -> bool {
    rule_segment(row, pos[k] + 1, pos[k + 1] as int)
}

/// Every segment between two neighbouring pipes is a rule segment.
pub open spec fn rule_row(row: Seq<CellView>, pos: Seq<u16>) -> bool {
    forall|k: int| 0 <= k < pos.len() - 1 ==> #[trigger] rule_between(row, pos, k)
}

/// Whether the cell holds exactly the one character `c`.
pub fn contents_is(s: &str, c: char) -> (r: bool)
    ensures
        r == (s@ == seq![c]),
{
    let t = chars_of(s);
    let r = t.len() == 1 && t[0] == c;
    assert(r ==> t@ =~= seq![c]);
    r
}

pub fn row_pipes(cells: &[Cell]) -> (p: Vec<u16>)
    requires
        cells@.len() <= 65535,
    ensures
        p@ == pipes(cell_views(cells@)),
        columns_in(p@, cells@.len() as int),
{
    let ghost cv = cell_views(cells@);
    let mut p: Vec<u16> = Vec::new();
    let mut i: usize = 0;
    while i < cells.len()
        invariant
            i <= cells@.len() <= 65535,
            cv == cell_views(cells@),
            p@ == pipes_upto(cv, i as int),
        decreases cells@.len() - i,
    {
        if contents_is(cells[i].contents.as_str(), '|') {
            p.push(i as u16);
        }
        i = i + 1;
    }
    proof {
        lemma_pipes_columns(cv, cv.len() as int);
    }
    p
}

fn blank_range(cells: &[Cell], a: usize, b: usize) -> (r: bool)
    requires
        a <= b <= cells@.len(),
    ensures
        r == forall|j: int| a <= j < b ==> blank(#[trigger] cell_views(cells@)[j].contents),
{
    let mut j: usize = a;
    while j < b
        invariant
            a <= j <= b <= cells@.len(),
            forall|l: int| a <= l < j ==> blank(#[trigger] cell_views(cells@)[l].contents),
        decreases b - j,
    {
        if !str_blank(cells[j].contents.as_str()) {
            assert(!blank(cell_views(cells@)[j as int].contents));
            return false;
        }
        j = j + 1;
    }
    true
}

pub fn bounded(cells: &[Cell], pos: &Vec<u16>) -> (r: bool)
    requires
        columns_in(pos@, cells@.len() as int),
    ensures
        r == table_bounds(cell_views(cells@), pos@),
{
    if pos.len() < 3 {
        return false;
    }
    let first = pos[0] as usize;
    let last = pos[pos.len() - 1] as usize;
    blank_range(cells, 0, first) && blank_range(cells, last + 1, cells.len())
}

fn rule_segment_exec(cells: &[Cell], a: usize, b: usize) -> (r: bool)
    requires
        a <= b <= cells@.len(),
    ensures
        r == rule_segment(cell_views(cells@), a as int, b as int),
{
    let ghost cv = cell_views(cells@);
    let mut dashes: usize = 0;
    let mut all: bool = true;
    let mut j: usize = a;
    while j < b
        invariant
            a <= j <= b <= cells@.len(),
            cv == cell_views(cells@),
            dashes == dash_count(cv, a as int, j as int),
            dashes <= j - a,
            all == forall|l: int| a <= l < j ==> rule_cell(#[trigger] cv[l].contents),
        decreases b - j,
    {
        let s = cells[j].contents.as_str();
        let dash = contents_is(s, '-');
        if dash {
            dashes = dashes + 1;
        }
        let ok = dash || contents_is(s, ':') || contents_is(s, ' ') || chars_of(s).len() == 0;
        if !ok {
            all = false;
        }
        j = j + 1;
    }
    dashes >= 3 && all
}

pub fn is_rule_row(cells: &[Cell], pos: &Vec<u16>) -> (r: bool)
    requires
        columns_in(pos@, cells@.len() as int),
    ensures
        r == rule_row(cell_views(cells@), pos@),
{
    let mut k: usize = 0;
    while k < pos.len() && k + 1 < pos.len()
        invariant
            columns_in(pos@, cells@.len() as int),
            k <= pos@.len(),
            forall|l: int|
                0 <= l < k && l < pos@.len() - 1 ==> #[trigger] rule_between(
                    cell_views(cells@),
                    pos@,
                    l,
                ),
        decreases pos@.len() - k,
    {
        if !rule_segment_exec(cells, pos[k] as usize + 1, pos[k + 1] as usize) {
            assert(!rule_between(cell_views(cells@), pos@, k as int));
            return false;
        }
        k = k + 1;
    }
    true
}

/// A Markdown table rule between two pipes, read directly: every cell is
/// `-`, `:` (an alignment colon), a space or empty, and three or more cells
/// are `-`.
pub open spec fn markdown_rule(row: Seq<CellView>, a: int, b: int) -> bool {
    &&& forall|j: int|
        a <= j < b ==> (#[trigger] row[j].contents).len() == 0 || (row[j].contents.len() == 1 && (
        row[j].contents[0] == '-' || row[j].contents[0] == ':' || row[j].contents[0] == ' '))
    &&& exists|j1: int, j2: int, j3: int|
        a <= j1 < j2 < j3 < b && (#[trigger] row[j1]).contents == seq!['-'] && (#[trigger] row[j2]).contents
            == seq!['-'] && (#[trigger] row[j3]).contents == seq!['-']
}

proof fn lemma_dash_count_mono(row: Seq<CellView>, a: int, x: int, y: int)
    requires
        a <= x <= y,
    ensures
        dash_count(row, a, x) <= dash_count(row, a, y),
    decreases y - x,
{
    if x < y {
        lemma_dash_count_mono(row, a, x, y - 1);
    }
}

/// With `n` dashes or more in `[a, b)`, some dash has `n - 1` before it.
proof fn lemma_last_dash(row: Seq<CellView>, a: int, b: int, n: nat)
    requires
        n >= 1,
        dash_count(row, a, b) >= n,
    ensures
        exists|j: int|
            a <= j < b && (#[trigger] row[j]).contents == seq!['-'] && dash_count(row, a, j) >= n - 1,
    decreases b - a,
{
    if row[b - 1].contents == seq!['-'] {
        assert(a <= b - 1 && row[b - 1].contents == seq!['-'] && dash_count(row, a, b - 1) >= n - 1);
    } else {
        lemma_last_dash(row, a, b - 1, n);
    }
}

/// A rule segment is exactly a Markdown table rule: cells of `-`, `:`,
/// space or nothing, with at least three dashes. Alignment colons such as
/// `:---` or `---:` are accepted.
pub proof fn lemma_rule_segments(row: Seq<CellView>, a: int, b: int)
    requires
        0 <= a <= b <= row.len(),
    ensures
        rule_segment(row, a, b) <==> markdown_rule(row, a, b),
{
    if rule_segment(row, a, b) {
        lemma_last_dash(row, a, b, 3);
        let j3 = choose|j: int| a <= j < b && (#[trigger] row[j]).contents == seq!['-'] && dash_count(row, a, j) >= 2;
        lemma_last_dash(row, a, j3, 2);
        let j2 = choose|j: int| a <= j < j3 && (#[trigger] row[j]).contents == seq!['-'] && dash_count(row, a, j) >= 1;
        lemma_last_dash(row, a, j2, 1);
        let j1 = choose|j: int| a <= j < j2 && (#[trigger] row[j]).contents == seq!['-'] && dash_count(row, a, j) >= 0;
        assert(a <= j1 < j2 < j3 < b && row[j1].contents == seq!['-'] && row[j2].contents == seq!['-']
            && row[j3].contents == seq!['-']);
    }
    if markdown_rule(row, a, b) {
        let (j1, j2, j3) = choose|j1: int, j2: int, j3: int|
            a <= j1 < j2 < j3 < b && (#[trigger] row[j1]).contents == seq!['-'] && (#[trigger] row[j2]).contents
                == seq!['-'] && (#[trigger] row[j3]).contents == seq!['-'];
        lemma_dash_count_mono(row, a, a, j1);
        lemma_dash_count_mono(row, a, j1 + 1, j2);
        lemma_dash_count_mono(row, a, j2 + 1, j3);
        lemma_dash_count_mono(row, a, j3 + 1, b);
        assert(dash_count(row, a, j1 + 1) == dash_count(row, a, j1) + 1);
        assert(dash_count(row, a, j2 + 1) == dash_count(row, a, j2) + 1);
        assert(dash_count(row, a, j3 + 1) == dash_count(row, a, j3) + 1);
        assert forall|j: int| a <= j < b implies rule_cell(#[trigger] row[j].contents) by {
            let t = row[j].contents;
            if t.len() == 1 {
                assert(t =~= seq![t[0]]);
            }
        }
    }
}

/// A row is a table rule exactly when every segment between neighbouring
/// pipes is a Markdown table rule.
pub proof fn lemma_rule_rows(row: Seq<CellView>, pos: Seq<u16>)
    requires
        columns_in(pos, row.len() as int),
    ensures
        rule_row(row, pos) <==> forall|k: int|
            0 <= k < pos.len() - 1 ==> #[trigger] markdown_rule(row, pos[k] + 1, pos[k + 1] as int),
{
    assert forall|k: int| 0 <= k < pos.len() - 1 implies (#[trigger] rule_between(row, pos, k)
        <==> markdown_rule(row, pos[k] + 1, pos[k + 1] as int)) by {
        lemma_rule_segments(row, pos[k] + 1, pos[k + 1] as int);
    }
    if forall|k: int| 0 <= k < pos.len() - 1 ==> #[trigger] markdown_rule(row, pos[k] + 1, pos[k + 1] as int) {
        assert forall|k: int| 0 <= k < pos.len() - 1 implies #[trigger] rule_between(row, pos, k) by {
            assert(markdown_rule(row, pos[k] + 1, pos[k + 1] as int));
        }
    }
    if rule_row(row, pos) {
        assert forall|k: int| 0 <= k < pos.len() - 1 implies #[trigger] markdown_rule(row, pos[k] + 1, pos[k + 1] as int) by {
            assert(rule_between(row, pos, k));
        }
    }
}

} // verus!
