//! The text of a screen row as recognition reads it: whitespace, trimming and
//! prefixes.
use vstd::prelude::*;
use crate::display::cell::{Cell, CellView};
use crate::display::row::cell_views;
use crate::text::chars_of;

verus! {

/// Unicode `White_Space`, which `str::trim` removes.
pub open spec fn is_whitespace(c: char) -> bool {
    ||| '\t' <= c && c <= '\r'
    ||| c == ' '
    ||| c == '\u{85}'
    ||| c == '\u{a0}'
    ||| c == '\u{1680}'
    ||| '\u{2000}' <= c && c <= '\u{200a}'
    ||| c == '\u{2028}'
    ||| c == '\u{2029}'
    ||| c == '\u{202f}'
    ||| c == '\u{205f}'
    ||| c == '\u{3000}'
}

pub fn char_is_whitespace(c: char) -> (r: bool)
    ensures
        r == is_whitespace(c),
{
    ('\t' <= c && c <= '\r') || c == ' ' || c == '\u{85}' || c == '\u{a0}' || c == '\u{1680}' || (
    '\u{2000}' <= c && c <= '\u{200a}') || c == '\u{2028}' || c == '\u{2029}' || c == '\u{202f}'
        || c == '\u{205f}' || c == '\u{3000}'
}

/// Text that is empty once trimmed.
pub open spec fn blank(t: Seq<char>) -> bool {
    forall|i: int| 0 <= i < t.len() ==> is_whitespace(#[trigger] t[i])
}

pub fn chars_blank(t: &[char], from: usize) -> (r: bool)
    requires
        from <= t@.len(),
    ensures
        r == blank(t@.skip(from as int)),
{
    let mut i: usize = from;
    while i < t.len()
        invariant
            from <= i <= t@.len(),
            forall|j: int| from <= j < i ==> is_whitespace(#[trigger] t@[j]),
        decreases t@.len() - i,
    {
        if !char_is_whitespace(t[i]) {
            assert(!is_whitespace(t@.skip(from as int)[i - from]));
            return false;
        }
        i = i + 1;
    }
    assert forall|j: int| 0 <= j < t@.skip(from as int).len() implies is_whitespace(
        #[trigger] t@.skip(from as int)[j],
    ) by {
        assert(t@.skip(from as int)[j] == t@[from + j]);
    }
    true
}

pub fn str_blank(s: &str) -> (r: bool)
    ensures
        r == blank(s@),
{
    let t = chars_of(s);
    assert(t@.skip(0) =~= t@);
    chars_blank(t.as_slice(), 0)
}

/// `t` without its leading whitespace.
pub open spec fn trim_start(t: Seq<char>) -> Seq<char>
    decreases t.len(),
{
    if t.len() > 0 && is_whitespace(t[0]) {
        trim_start(t.drop_first())
    } else {
        t
    }
}

/// `t` without its trailing whitespace.
pub open spec fn trim_end(t: Seq<char>) -> Seq<char>
    decreases t.len(),
{
    if t.len() > 0 && is_whitespace(t.last()) {
        trim_end(t.drop_last())
    } else {
        t
    }
}

/// The position where `trim_start` cuts.
pub fn trim_start_index(t: &[char]) -> (k: usize)
    ensures
        k <= t@.len(),
        trim_start(t@) == t@.skip(k as int),
{
    let mut k: usize = 0;
    assert(t@.skip(0) =~= t@);
    while k < t.len() && char_is_whitespace(t[k])
        invariant
            k <= t@.len(),
            trim_start(t@) == trim_start(t@.skip(k as int)),
        decreases t@.len() - k,
    {
        assert(t@.skip(k as int).drop_first() =~= t@.skip(k + 1));
        k = k + 1;
    }
    k
}

pub open spec fn starts_with(t: Seq<char>, p: Seq<char>) -> bool {
    p.len() <= t.len() && t.take(p.len() as int) == p
}

pub fn chars_start_with(t: &[char], from: usize, p: &[char]) -> (r: bool)
    requires
        from <= t@.len(),
    ensures
        r == starts_with(t@.skip(from as int), p@),
{
    if p.len() > t.len() - from {
        return false;
    }
    let n: usize = t.len();
    let mut i: usize = 0;
    while i < p.len()
        invariant
            n == t@.len(),
            i <= p@.len(),
            from + p@.len() <= t@.len(),
            from <= t@.len(),
            forall|j: int| 0 <= j < i ==> t@[from + j] == p@[j],
        decreases p@.len() - i,
    {
        if t[from + i] != p[i] {
            assert(t@.skip(from as int).take(p@.len() as int)[i as int] != p@[i as int]);
            return false;
        }
        i = i + 1;
    }
    assert(t@.skip(from as int).take(p@.len() as int) =~= p@);
    true
}

/// The text of a row: the contents of its cells, side by side.
pub open spec fn row_text(row: Seq<CellView>) -> Seq<char>
    decreases row.len(),
{
    if row.len() == 0 {
        Seq::empty()
    } else {
        row_text(row.drop_last()) + row.last().contents
    }
}

/// The text of a row, with a space for each cell that holds nothing.
pub open spec fn spaced_text(row: Seq<CellView>) -> Seq<char>
    decreases row.len(),
{
    if row.len() == 0 {
        Seq::empty()
    } else {
        spaced_text(row.drop_last()) + if row.last().contents.len() > 0 {
            row.last().contents
        } else {
            seq![' ']
        }
    }
}

pub fn row_chars(cells: &[Cell], spaced: bool) -> (t: Vec<char>)
    ensures
        t@ == if spaced {
            spaced_text(cell_views(cells@))
        } else {
            row_text(cell_views(cells@))
        },
{
    let mut t: Vec<char> = Vec::new();
    let mut i: usize = 0;
    let ghost cv = cell_views(cells@);
    while i < cells.len()
        invariant
            i <= cells@.len(),
            cv == cell_views(cells@),
            t@ == if spaced {
                spaced_text(cv.take(i as int))
            } else {
                row_text(cv.take(i as int))
            },
        decreases cells@.len() - i,
    {
        let c = chars_of(cells[i].contents.as_str());
        if spaced && c.len() == 0 {
            t.push(' ');
        } else {
            let mut j: usize = 0;
            let ghost before = t@;
            while j < c.len()
                invariant
                    j <= c@.len(),
                    t@ == before + c@.take(j as int),
                decreases c@.len() - j,
            {
                t.push(c[j]);
                j = j + 1;
                assert(t@ =~= before + c@.take(j as int));
            }
            assert(c@.take(j as int) =~= c@);
        }
        assert(cv.take(i + 1).drop_last() =~= cv.take(i as int));
        i = i + 1;
    }
    assert(cv.take(i as int) =~= cv);
    t
}

/// The first cell whose contents are not blank, from `j` on.
pub open spec fn first_nonblank(row: Seq<CellView>, j: int) -> Option<int>
    decreases row.len() - j,
{
    if j < 0 || j >= row.len() {
        None
    } else if !blank(row[j].contents) {
        Some(j)
    } else {
        first_nonblank(row, j + 1)
    }
}

pub proof fn lemma_first_nonblank(row: Seq<CellView>, j: int)
    ensures
        first_nonblank(row, j) matches Some(c) ==> 0 <= j <= c < row.len(),
    decreases row.len() - j,
{
    if 0 <= j < row.len() && blank(row[j].contents) {
        lemma_first_nonblank(row, j + 1);
    }
}

pub fn first_nonblank_cell(cells: &[Cell]) -> (r: Option<usize>)
    ensures
        r matches Some(k) ==> first_nonblank(cell_views(cells@), 0) == Some(k as int),
        r is None ==> first_nonblank(cell_views(cells@), 0) is None,
{
    let ghost cv = cell_views(cells@);
    let mut j: usize = 0;
    while j < cells.len()
        invariant
            j <= cells@.len(),
            cv == cell_views(cells@),
            first_nonblank(cv, 0) == first_nonblank(cv, j as int),
        decreases cells@.len() - j,
    {
        if !str_blank(cells[j].contents.as_str()) {
            return Some(j);
        }
        j = j + 1;
    }
    None
}

/// The number of copies of `c` that open `t`.
pub open spec fn leading(t: Seq<char>, c: char) -> nat
    decreases t.len(),
{
    if t.len() > 0 && t[0] == c {
        1 + leading(t.drop_first(), c)
    } else {
        0
    }
}

pub fn count_leading(t: &[char], from: usize, c: char) -> (n: usize)
    requires
        from <= t@.len(),
    ensures
        n == leading(t@.skip(from as int), c),
        from + n <= t@.len(),
{
    let len: usize = t.len();
    let mut n: usize = 0;
    while from + n < len && t[from + n] == c
        invariant
            len == t@.len(),
            from + n <= t@.len(),
            leading(t@.skip(from as int), c) == n + leading(t@.skip(from + n), c),
        decreases t@.len() - from - n,
    {
        assert(t@.skip(from + n).drop_first() =~= t@.skip(from + n + 1));
        n = n + 1;
    }
    n
}

/// `t` without whitespace at either end.
pub open spec fn trim(t: Seq<char>) -> Seq<char> {
    trim_end(trim_start(t))
}

/// Where `trim_start` cuts the part `a..b` of `t`.
pub fn trim_start_in(t: &[char], a: usize, b: usize) -> (k: usize)
    requires
        a <= b <= t@.len(),
    ensures
        a <= k <= b,
        trim_start(t@.subrange(a as int, b as int)) == t@.subrange(k as int, b as int),
{
    let mut k: usize = a;
    while k < b && char_is_whitespace(t[k])
        invariant
            a <= k <= b <= t@.len(),
            trim_start(t@.subrange(a as int, b as int)) == trim_start(
                t@.subrange(k as int, b as int),
            ),
        decreases b - k,
    {
        assert(t@.subrange(k as int, b as int).drop_first() =~= t@.subrange(k + 1, b as int));
        k = k + 1;
    }
    k
}

/// Where `trim_end` cuts the part `a..b` of `t`.
pub fn trim_end_in(t: &[char], a: usize, b: usize) -> (k: usize)
    requires
        a <= b <= t@.len(),
    ensures
        a <= k <= b,
        trim_end(t@.subrange(a as int, b as int)) == t@.subrange(a as int, k as int),
{
    let mut k: usize = b;
    while k > a && char_is_whitespace(t[k - 1])
        invariant
            a <= k <= b <= t@.len(),
            trim_end(t@.subrange(a as int, b as int)) == trim_end(t@.subrange(a as int, k as int)),
        decreases k,
    {
        assert(t@.subrange(a as int, k as int).drop_last() =~= t@.subrange(a as int, k - 1));
        k = k - 1;
    }
    k
}

/// A copy of the part `a..b` of `t`.
pub fn part(t: &[char], a: usize, b: usize) -> (r: Vec<char>)
    requires
        a <= b <= t@.len(),
    ensures
        r@ == t@.subrange(a as int, b as int),
{
    let mut r: Vec<char> = Vec::new();
    let mut k: usize = a;
    while k < b
        invariant
            a <= k <= b <= t@.len(),
            r@ == t@.subrange(a as int, k as int),
        decreases b - k,
    {
        r.push(t[k]);
        k = k + 1;
        assert(r@ =~= t@.subrange(a as int, k as int));
    }
    r
}

} // verus!
