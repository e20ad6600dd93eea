//! Recognition of Markdown structure on a screen, row by row from the top:
//! code fences, headings, quotes, list markers and tables.
use vstd::prelude::*;
use crate::display::cell::{Cell, CellView};
use crate::display::row::cell_views;
use crate::pretty::rows::{
    blank,
    chars_blank,
    chars_start_with,
    count_leading,
    leading,
    first_nonblank,
    first_nonblank_cell,
    row_chars,
    row_text,
    starts_with,
    trim_start,
    trim_start_index,
};
use crate::pretty::tables::{
    bounded,
    columns_in,
    is_rule_row,
    lemma_pipes_columns,
    lemma_rule_rows,
    markdown_rule,
    pipes,
    row_pipes,
    rule_row,
    table_bounds,
};
use crate::pretty::{plain_format, FormatView, RowFormat};
use crate::text::chars_of;

verus! {

/// The formats found so far, and the row of a code fence still open.
pub struct DetectState {
    pub formats: Seq<FormatView>,
    pub fence: Option<int>,
}

pub open spec fn rows_view(rows: Seq<Vec<Cell>>) -> Seq<Seq<CellView>> {
    rows.map_values(|r: Vec<Cell>| cell_views(r@))
}

pub open spec fn format_views(formats: Seq<RowFormat>) -> Seq<FormatView> {
    formats.map_values(|f: RowFormat| f@)
}

pub open spec fn fence_mark() -> Seq<char> {
    seq!['`', '`', '`']
}

/// The cursor's row, compared as a 16-bit row number.
pub open spec fn cursor_on(cursor: Option<u16>, i: int) -> bool {
    cursor matches Some(r) && r == i as u16
}

pub open spec fn cursor_within(cursor: Option<u16>, a: int, b: int) -> bool {
    cursor matches Some(r) && a <= r && r <= b
}

/// Whether the trimmed text opens a list item.
pub open spec fn list_item(t: Seq<char>) -> bool {
    starts_with(t, seq!['-', ' ']) || starts_with(t, seq!['*', ' ']) || starts_with(t, seq!['+', ' '])
}

/// The heading, quote and list marks of a row outside code.
pub open spec fn markdown_marks(row: Seq<CellView>, f: FormatView) -> FormatView {
    let t = trim_start(row_text(row));
    let count = leading(t, '#');
    FormatView {
        heading: if 1 <= count <= 6 && count < t.len() && t[count as int] == ' ' {
            count as u8
        } else {
            f.heading
        },
        quote: starts_with(t, seq!['>', ' ']) && !blank(t.skip(2)),
        marker: if list_item(t) {
            match first_nonblank(row, 0) {
                Some(col) => Some(col as u16),
                None => None,
            }
        } else {
            f.marker
        },
        ..f
    }
}

/// Rows `start..=end` become code, with fence marks on both ends.
pub open spec fn close_fence(fs: Seq<FormatView>, start: int, end: int) -> Seq<FormatView> {
    Seq::new(
        fs.len(),
        |j: int|
            if start <= j <= end {
                FormatView { code: true, fence: fs[j].fence || j == start || j == end, ..fs[j] }
            } else {
                fs[j]
            },
    )
}

/// Rows `i - 1 .. end` become a table: header, rule, then body.
pub open spec fn mark_table(fs: Seq<FormatView>, pos: Seq<u16>, i: int, end: int) -> Seq<
    FormatView,
> {
    Seq::new(
        fs.len(),
        |j: int|
            if i - 1 <= j < end {
                FormatView { pipes: pos, header: j == i - 1, separator: j == i, ..fs[j] }
            } else {
                fs[j]
            },
    )
}

/// The first row from `k` on that does not continue a table with pipes `pos`.
pub open spec fn table_end(rows: Seq<Seq<CellView>>, pos: Seq<u16>, k: int) -> int
    decreases rows.len() - k,
{
    if k < 0 || k >= rows.len() || !(pipes(rows[k]) == pos && table_bounds(rows[k], pos)) {
        k
    } else {
        table_end(rows, pos, k + 1)
    }
}

/// Fences and Markdown marks of row `i`.
pub open spec fn fence_step(
    rows: Seq<Seq<CellView>>,
    cursor: Option<u16>,
    st: DetectState,
    i: int,
) -> DetectState {
    let t = trim_start(row_text(rows[i]));
    if starts_with(t, fence_mark()) {
        match st.fence {
            Some(start) => if !cursor_within(cursor, start, i) {
                DetectState { formats: close_fence(st.formats, start, i), fence: None }
            } else {
                DetectState { fence: None, ..st }
            },
            None => DetectState { fence: Some(i), ..st },
        }
    } else if st.fence is None && !cursor_on(cursor, i) {
        DetectState { formats: st.formats.update(i, markdown_marks(rows[i], st.formats[i])), ..st }
    } else {
        st
    }
}

/// A table whose rule is row `i`: the row above is its header, and at least
/// one body row follows; none of it holds the cursor.
pub open spec fn table_step(
    rows: Seq<Seq<CellView>>,
    cursor: Option<u16>,
    st: DetectState,
    i: int,
) -> DetectState {
    let pos = pipes(rows[i]);
    if i == 0 || st.fence is Some || st.formats[i].code {
        st
    } else if !table_bounds(rows[i], pos) || !rule_row(rows[i], pos) || pipes(rows[i - 1]) != pos
        || !table_bounds(rows[i - 1], pos) {
        st
    } else {
        let end = table_end(rows, pos, i + 1);
        if end == i + 1 || cursor_within(cursor, i - 1, end - 1) {
            st
        } else {
            DetectState { formats: mark_table(st.formats, pos, i, end), ..st }
        }
    }
}

/// The state after the first `n` rows.
pub open spec fn detect_upto(rows: Seq<Seq<CellView>>, cursor: Option<u16>, n: int) -> DetectState
    decreases n,
{
    if n <= 0 {
        DetectState { formats: Seq::new(rows.len(), |j: int| plain_format()), fence: None }
    } else {
        let st = detect_upto(rows, cursor, n - 1);
        table_step(rows, cursor, fence_step(rows, cursor, st, n - 1), n - 1)
    }
}

/// The format of every row of a screen.
pub open spec fn spec_detect(rows: Seq<Seq<CellView>>, cursor: Option<u16>) -> Seq<FormatView> {
    detect_upto(rows, cursor, rows.len() as int).formats
}

pub open spec fn fence_view(f: Option<usize>) -> Option<int> {
    match f {
        Some(s) => Some(s as int),
        None => None,
    }
}

/// Heading, quote and list marks of one row.
fn marks(cells: &[Cell], t: &Vec<char>, k: usize, f: &RowFormat) -> (r: RowFormat)
    requires
        cells@.len() <= 65535,
        k <= t@.len(),
        t@.skip(k as int) == trim_start(row_text(cell_views(cells@))),
    ensures
        r@ == markdown_marks(cell_views(cells@), f@),
{
    let ghost tr = t@.skip(k as int);
    let len: usize = t.len();
    let count = count_leading(t.as_slice(), k, '#');
    let heading = if 1 <= count && count <= 6 && count < len - k && t[k + count] == ' ' {
        count as u8
    } else {
        f.heading_level()
    };
    let q = chars_start_with(t.as_slice(), k, &['>', ' ']);
    let quote = q && !chars_blank(t.as_slice(), k + 2);
    assert(q ==> k + 2 <= len);
    proof {
        if q {
            assert(t@.skip(k + 2) =~= tr.skip(2));
        }
    }
    let list = chars_start_with(t.as_slice(), k, &['-', ' ']) || chars_start_with(
        t.as_slice(),
        k,
        &['*', ' '],
    ) || chars_start_with(t.as_slice(), k, &['+', ' ']);
    let marker = if list {
        proof {
            crate::pretty::rows::lemma_first_nonblank(cell_views(cells@), 0);
        }
        match first_nonblank_cell(cells) {
            Some(col) => Some(col as u16),
            None => None,
        }
    } else {
        f.marker_column()
    };
    f.marked(heading, quote, marker)
}

pub open spec fn state_of(formats: Seq<RowFormat>, fence: Option<usize>) -> DetectState {
    DetectState { formats: format_views(formats), fence: fence_view(fence) }
}

fn close_fence_exec(formats: &mut Vec<RowFormat>, start: usize, end: usize)
    requires
        start <= end < old(formats)@.len(),
    ensures
        format_views(final(formats)@) == close_fence(format_views(old(formats)@), start as int, end as int),
        final(formats)@.len() == old(formats)@.len(),
{
    let ghost fs = format_views(formats@);
    let ghost goal = close_fence(fs, start as int, end as int);
    let n: usize = formats.len();
    let mut j: usize = start;
    while j <= end
        invariant
            n == formats@.len(),
            start <= j <= end + 1,
            end < formats@.len(),
            formats@.len() == fs.len(),
            fs == format_views(old(formats)@),
            goal == close_fence(fs, start as int, end as int),
            forall|l: int|
                0 <= l < fs.len() ==> (#[trigger] formats@[l])@ == if start <= l < j {
                    goal[l]
                } else {
                    fs[l]
                },
        decreases end + 1 - j,
    {
        let f = formats[j].fenced(j == start || j == end);
        formats.set(j, f);
        j = j + 1;
    }
    assert(format_views(formats@) =~= goal);
}

fn mark_table_exec(formats: &mut Vec<RowFormat>, pos: &Vec<u16>, i: usize, end: usize)
    requires
        1 <= i < end <= old(formats)@.len(),
        pos@.len() > 0,
    ensures
        format_views(final(formats)@) == mark_table(format_views(old(formats)@), pos@, i as int, end as int),
        final(formats)@.len() == old(formats)@.len(),
{
    let ghost fs = format_views(formats@);
    let ghost goal = mark_table(fs, pos@, i as int, end as int);
    let mut j: usize = i - 1;
    while j < end
        invariant
            i - 1 <= j <= end <= formats@.len(),
            formats@.len() == fs.len(),
            pos@.len() > 0,
            fs == format_views(old(formats)@),
            goal == mark_table(fs, pos@, i as int, end as int),
            forall|l: int|
                0 <= l < fs.len() ==> (#[trigger] formats@[l])@ == if i - 1 <= l < j {
                    goal[l]
                } else {
                    fs[l]
                },
        decreases end - j,
    {
        let f = formats[j].in_table(pos, j + 1 == i, j == i);
        formats.set(j, f);
        j = j + 1;
    }
    assert(format_views(formats@) =~= goal);
}

/// Whether a row continues a table with pipes `pos`.
fn continues_table(cells: &[Cell], pos: &Vec<u16>) -> (r: bool)
    requires
        cells@.len() <= 65535,
    ensures
        r == (pipes(cell_views(cells@)) == pos@ && table_bounds(cell_views(cells@), pos@)),
{
    let p = row_pipes(cells);
    crate::display::row::same_u16s(&p, pos) && bounded(cells, pos)
}

fn table_end_exec(rows: &[Vec<Cell>], pos: &Vec<u16>, k: usize) -> (e: usize)
    requires
        k <= rows@.len(),
        forall|r: int| 0 <= r < rows@.len() ==> (#[trigger] rows@[r])@.len() <= 65535,
    ensures
        e as int == table_end(rows_view(rows@), pos@, k as int),
        k <= e <= rows@.len(),
{
    let ghost rv = rows_view(rows@);
    let mut e: usize = k;
    while e < rows.len() && continues_table(rows[e].as_slice(), pos)
        invariant
            k <= e <= rows@.len(),
            rv == rows_view(rows@),
            forall|r: int| 0 <= r < rows@.len() ==> (#[trigger] rows@[r])@.len() <= 65535,
            table_end(rv, pos@, k as int) == table_end(rv, pos@, e as int),
        decreases rows@.len() - e,
    {
        assert(rv[e as int] == cell_views(rows@[e as int]@));
        e = e + 1;
    }
    proof {
        if e < rows@.len() {
            assert(rv[e as int] == cell_views(rows@[e as int]@));
        }
    }
    e
}

pub open spec fn rows_fit(rows: Seq<Vec<Cell>>) -> bool {
    forall|r: int| 0 <= r < rows.len() ==> (#[trigger] rows[r])@.len() <= 65535
}

fn fence_phase(
    rows: &[Vec<Cell>],
    cursor: Option<u16>,
    formats: &mut Vec<RowFormat>,
    fence: &mut Option<usize>,
    i: usize,
)
    requires
        rows_fit(rows@),
        i < rows@.len(),
        old(formats)@.len() == rows@.len(),
        *old(fence) matches Some(s) ==> s < i,
    ensures
        state_of(final(formats)@, *final(fence)) == fence_step(
            rows_view(rows@),
            cursor,
            state_of(old(formats)@, *old(fence)),
            i as int,
        ),
        final(formats)@.len() == rows@.len(),
        *final(fence) matches Some(s) ==> s <= i,
{
    let ghost rv = rows_view(rows@);
    let ghost st = state_of(formats@, *fence);
    let cells = rows[i].as_slice();
    assert(rv[i as int] == cell_views(cells@));
    let t = row_chars(cells, false);
    let k = trim_start_index(t.as_slice());
    if chars_start_with(t.as_slice(), k, &['`', '`', '`']) {
        assert(seq!['`', '`', '`'] =~= fence_mark());
        match *fence {
            Some(start) => {
                let inside = match cursor {
                    Some(r) => start <= r as usize && r as usize <= i,
                    None => false,
                };
                if !inside {
                    close_fence_exec(formats, start, i);
                }
                *fence = None;
            },
            None => {
                *fence = Some(i);
            },
        }
    } else {
        let on = match cursor {
            Some(r) => r == i as u16,
            None => false,
        };
        if fence.is_none() && !on {
            let f = marks(cells, &t, k, &formats[i]);
            formats.set(i, f);
            proof {
                assert(format_views(formats@) =~= st.formats.update(
                    i as int,
                    markdown_marks(rv[i as int], st.formats[i as int]),
                ));
            }
        }
    }
}

fn table_phase(
    rows: &[Vec<Cell>],
    cursor: Option<u16>,
    formats: &mut Vec<RowFormat>,
    fence: Option<usize>,
    i: usize,
)
    requires
        rows_fit(rows@),
        i < rows@.len(),
        old(formats)@.len() == rows@.len(),
    ensures
        state_of(final(formats)@, fence) == table_step(
            rows_view(rows@),
            cursor,
            state_of(old(formats)@, fence),
            i as int,
        ),
        final(formats)@.len() == rows@.len(),
{
    let ghost rv = rows_view(rows@);
    if i == 0 || fence.is_some() || formats[i].is_code() {
        return;
    }
    let cells = rows[i].as_slice();
    let above = rows[i - 1].as_slice();
    assert(rv[i as int] == cell_views(cells@));
    assert(rv[i - 1] == cell_views(above@));
    let positions = row_pipes(cells);
    if !bounded(cells, &positions) || !is_rule_row(cells, &positions) || !continues_table(
        above,
        &positions,
    ) {
        return;
    }
    let end = table_end_exec(rows, &positions, i + 1);
    let covered = match cursor {
        Some(r) => i - 1 <= r as usize && (r as usize) < end,
        None => false,
    };
    if end == i + 1 || covered {
        return;
    }
    mark_table_exec(formats, &positions, i, end);
}

/// The decoration of every row of a screen. Nothing is recognised on the
/// cursor's row, inside an open code fence, or in a table that holds the
/// cursor.
pub fn detect(rows: &[Vec<Cell>], cursor: Option<u16>) -> (formats: Vec<RowFormat>)
    requires
        rows_fit(rows@),
    ensures
        format_views(formats@) == spec_detect(rows_view(rows@), cursor),
        formats@.len() == rows@.len(),
{
    let mut formats: Vec<RowFormat> = Vec::new();
    let mut j: usize = 0;
    while j < rows.len()
        invariant
            j <= rows@.len(),
            formats@.len() == j,
            forall|l: int| 0 <= l < j ==> (#[trigger] formats@[l])@ == plain_format(),
        decreases rows@.len() - j,
    {
        formats.push(RowFormat::plain());
        j = j + 1;
    }
    let ghost rv = rows_view(rows@);
    assert(format_views(formats@) =~= detect_upto(rv, cursor, 0).formats);
    let mut fence: Option<usize> = None;
    let mut i: usize = 0;
    while i < rows.len()
        invariant
            rows_fit(rows@),
            rv == rows_view(rows@),
            i <= rows@.len(),
            formats@.len() == rows@.len(),
            state_of(formats@, fence) == detect_upto(rv, cursor, i as int),
            fence matches Some(s) ==> s < i,
        decreases rows@.len() - i,
    {
        fence_phase(rows, cursor, &mut formats, &mut fence, i);
        table_phase(rows, cursor, &mut formats, fence, i);
        i = i + 1;
    }
    formats
}

pub proof fn lemma_detect_upto_len(rows: Seq<Seq<CellView>>, cursor: Option<u16>, n: int)
    requires
        n <= rows.len(),
    ensures
        detect_upto(rows, cursor, n).formats.len() == rows.len(),
    decreases n,
{
    if n > 0 {
        lemma_detect_upto_len(rows, cursor, n - 1);
        let st = detect_upto(rows, cursor, n - 1);
        let st2 = fence_step(rows, cursor, st, n - 1);
        match st.fence {
            Some(start) => {
                assert(close_fence(st.formats, start, n - 1).len() == st.formats.len());
            },
            None => {},
        }
        assert(st2.formats.len() == rows.len());
        let pos = pipes(rows[n - 1]);
        let end = table_end(rows, pos, n);
        assert(mark_table(st2.formats, pos, n - 1, end).len() == st2.formats.len());
    }
}

/// One format per row.
pub proof fn lemma_detect_len(rows: Seq<Seq<CellView>>, cursor: Option<u16>)
    ensures
        spec_detect(rows, cursor).len() == rows.len(),
{
    lemma_detect_upto_len(rows, cursor, rows.len() as int);
}

proof fn lemma_cursor_row_plain_upto(rows: Seq<Seq<CellView>>, r: u16, n: int)
    requires
        0 <= n <= rows.len(),
        (r as int) < rows.len(),
    ensures
        detect_upto(rows, Some(r), n).formats.len() == rows.len(),
        detect_upto(rows, Some(r), n).formats[r as int] == plain_format(),
        detect_upto(rows, Some(r), n).fence matches Some(s) ==> s < n,
    decreases n,
{
    let cursor = Some(r);
    if n > 0 {
        lemma_cursor_row_plain_upto(rows, r, n - 1);
        lemma_detect_upto_len(rows, cursor, n - 1);
        let st = detect_upto(rows, cursor, n - 1);
        let st2 = fence_step(rows, cursor, st, n - 1);
        let i = n - 1;
        match st.fence {
            Some(start) => {
                if !cursor_within(cursor, start, i) {
                    assert(close_fence(st.formats, start, i)[r as int] == st.formats[r as int]);
                }
            },
            None => {},
        }
        assert(st2.formats.len() == rows.len());
        assert(st2.formats[r as int] == plain_format());
        let pos = pipes(rows[i]);
        let end = table_end(rows, pos, i + 1);
        if !(i == 0 || st2.fence is Some || st2.formats[i].code) && table_bounds(rows[i], pos)
            && rule_row(rows[i], pos) && pipes(rows[i - 1]) == pos && table_bounds(rows[i - 1], pos)
            && !(end == i + 1 || cursor_within(cursor, i - 1, end - 1)) {
            assert(mark_table(st2.formats, pos, i, end)[r as int] == st2.formats[r as int]);
        }
    }
}

/// The row holding the cursor is never decorated: active input is not
/// reinterpreted as Markdown.
pub proof fn lemma_cursor_row_plain(rows: Seq<Seq<CellView>>, r: u16)
    requires
        (r as int) < rows.len(),
    ensures
        spec_detect(rows, Some(r))[r as int] == plain_format(),
{
    lemma_cursor_row_plain_upto(rows, r, rows.len() as int);
}

/// Every row marked as part of a table has those pipes and nothing outside
/// them, and every row marked as a rule is a rule.
pub open spec fn tables_marked_by_rule(rows: Seq<Seq<CellView>>, fs: Seq<FormatView>) -> bool {
    forall|j: int|
        0 <= j < fs.len() && j < rows.len() ==> ((#[trigger] fs[j]).pipes.len() > 0 ==> pipes(rows[j])
            == fs[j].pipes && table_bounds(rows[j], fs[j].pipes)) && (fs[j].separator ==> rule_row(
            rows[j],
            fs[j].pipes,
        ))
}

proof fn lemma_table_end_rows(rows: Seq<Seq<CellView>>, pos: Seq<u16>, k: int, j: int)
    requires
        0 <= k <= j < table_end(rows, pos, k),
    ensures
        pipes(rows[j]) == pos && table_bounds(rows[j], pos),
    decreases j - k,
{
    if j > k {
        lemma_table_end_rows(rows, pos, k + 1, j);
    }
}

proof fn lemma_detect_upto_rule(rows: Seq<Seq<CellView>>, cursor: Option<u16>, n: int)
    requires
        0 <= n <= rows.len(),
    ensures
        tables_marked_by_rule(rows, detect_upto(rows, cursor, n).formats),
    decreases n,
{
    if n > 0 {
        lemma_detect_upto_rule(rows, cursor, n - 1);
        lemma_detect_upto_len(rows, cursor, n - 1);
        let st = detect_upto(rows, cursor, n - 1);
        let st2 = fence_step(rows, cursor, st, n - 1);
        let i = n - 1;
        assert(tables_marked_by_rule(rows, st2.formats)) by {
            assert forall|j: int| 0 <= j < st2.formats.len() && j < rows.len() implies ((#[trigger] st2.formats[j]).pipes.len() > 0 ==> pipes(rows[j])
                == st2.formats[j].pipes && table_bounds(rows[j], st2.formats[j].pipes)) && (st2.formats[j].separator ==> rule_row(
                rows[j],
                st2.formats[j].pipes,
            )) by {
                assert(st2.formats[j].pipes == st.formats[j].pipes);
                assert(st2.formats[j].separator == st.formats[j].separator);
                assert(st.formats[j] == st.formats[j]);
            }
        }
        let pos = pipes(rows[i]);
        let end = table_end(rows, pos, i + 1);
        let fs = st2.formats;
        let marked = mark_table(fs, pos, i, end);
        if !(i == 0 || st2.fence is Some || fs[i].code) && table_bounds(rows[i], pos) && rule_row(
            rows[i],
            pos,
        ) && pipes(rows[i - 1]) == pos && table_bounds(rows[i - 1], pos) && !(end == i + 1
            || cursor_within(cursor, i - 1, end - 1)) {
            assert forall|j: int| 0 <= j < marked.len() && j < rows.len() implies ((#[trigger] marked[j]).pipes.len() > 0 ==> pipes(rows[j])
                == marked[j].pipes && table_bounds(rows[j], marked[j].pipes)) && (marked[j].separator ==> rule_row(
                rows[j],
                marked[j].pipes,
            )) by {
                if i - 1 <= j < end {
                    if j > i {
                        lemma_table_end_rows(rows, pos, i + 1, j);
                    }
                } else {
                    assert(marked[j] == fs[j]);
                }
            }
            assert(table_step(rows, cursor, st2, i).formats == marked);
        } else {
            assert(table_step(rows, cursor, st2, i) == st2);
        }
    }
}

/// Tables are marked only by their rule: a row decorated as part of a table
/// has exactly those pipes with nothing but blanks outside them, and a row
/// drawn as a table rule is a rule of dashes.
pub proof fn lemma_tables_follow_rule(rows: Seq<Seq<CellView>>, cursor: Option<u16>)
    ensures
        tables_marked_by_rule(rows, spec_detect(rows, cursor)),
{
    lemma_detect_upto_rule(rows, cursor, rows.len() as int);
}

/// The table whose rule is row `i`: the header above it, the rule, and at
/// least one body row down to `table_end`, all with the rule's pipes and
/// nothing but blanks outside them; no code fence is open at the rule and the
/// cursor is outside the block.
pub open spec fn table_block(rows: Seq<Seq<CellView>>, cursor: Option<u16>, i: int) -> bool {
    let pos = pipes(rows[i]);
    let e = table_end(rows, pos, i + 1);
    let st = fence_step(rows, cursor, detect_upto(rows, cursor, i), i);
    &&& 1 <= i < rows.len()
    &&& e >= i + 2
    &&& rule_row(rows[i], pos)
    &&& forall|r: int| i - 1 <= r < e ==> pipes(#[trigger] rows[r]) == pos && table_bounds(rows[r], pos)
    &&& st.fence is None
    &&& !st.formats[i].code
    &&& !cursor_within(cursor, i - 1, e - 1)
}

/// Row `j` is drawn as part of the table whose rule is row `i`: header,
/// rule or body by its place in it.
pub open spec fn in_table_block(
    fs: Seq<FormatView>,
    rows: Seq<Seq<CellView>>,
    cursor: Option<u16>,
    j: int,
    i: int,
) -> bool {
    &&& table_block(rows, cursor, i)
    &&& i - 1 <= j < table_end(rows, pipes(rows[i]), i + 1)
    &&& fs[j].pipes == pipes(rows[i])
    &&& fs[j].header == (j == i - 1)
    &&& fs[j].separator == (j == i)
}

/// Table decoration of each row comes from one table block, or there is none.
pub open spec fn tables_are_blocks(fs: Seq<FormatView>, rows: Seq<Seq<CellView>>, cursor: Option<u16>, n: int) -> bool {
    forall|j: int|
        0 <= j < fs.len() && j < rows.len() ==> if (#[trigger] fs[j]).pipes.len() > 0 {
            exists|i: int| 0 <= i < n && in_table_block(fs, rows, cursor, j, i)
        } else {
            !fs[j].header && !fs[j].separator
        }
}

proof fn lemma_table_end_after(rows: Seq<Seq<CellView>>, pos: Seq<u16>, k: int)
    requires
        0 <= k,
    ensures
        table_end(rows, pos, k) >= k,
    decreases rows.len() - k,
{
    if k < rows.len() && pipes(rows[k]) == pos && table_bounds(rows[k], pos) {
        lemma_table_end_after(rows, pos, k + 1);
    }
}

proof fn lemma_blocks_upto(rows: Seq<Seq<CellView>>, cursor: Option<u16>, n: int)
    requires
        0 <= n <= rows.len(),
    ensures
        tables_are_blocks(detect_upto(rows, cursor, n).formats, rows, cursor, n),
    decreases n,
{
    if n > 0 {
        lemma_blocks_upto(rows, cursor, n - 1);
        lemma_detect_upto_len(rows, cursor, n - 1);
        let i = n - 1;
        let st = detect_upto(rows, cursor, i);
        let st2 = fence_step(rows, cursor, st, i);
        assert(st2.formats.len() == rows.len());
        assert forall|j: int| 0 <= j < st2.formats.len() implies #[trigger] st2.formats[j].pipes
            == st.formats[j].pipes && st2.formats[j].header == st.formats[j].header
            && st2.formats[j].separator == st.formats[j].separator by {}
        let pos = pipes(rows[i]);
        let e = table_end(rows, pos, i + 1);
        let fs = st2.formats;
        let fsn = detect_upto(rows, cursor, n).formats;
        let marks = !(i == 0 || st2.fence is Some || fs[i].code) && table_bounds(rows[i], pos)
            && rule_row(rows[i], pos) && pipes(rows[i - 1]) == pos && table_bounds(rows[i - 1], pos)
            && !(e == i + 1 || cursor_within(cursor, i - 1, e - 1));
        if marks {
            assert(fsn == mark_table(fs, pos, i, e));
            lemma_table_end_after(rows, pos, i + 1);
            assert(table_block(rows, cursor, i)) by {
                assert forall|r: int| i - 1 <= r < e implies pipes(#[trigger] rows[r]) == pos && table_bounds(rows[r], pos) by {
                    if r > i {
                        lemma_table_end_rows(rows, pos, i + 1, r);
                    }
                }
            }
        } else {
            assert(fsn == fs);
        }
        assert forall|j: int| 0 <= j < fsn.len() && j < rows.len() implies if (#[trigger] fsn[j]).pipes.len() > 0 {
            exists|k: int| 0 <= k < n && in_table_block(fsn, rows, cursor, j, k)
        } else {
            !fsn[j].header && !fsn[j].separator
        } by {
            assert(st2.formats[j].pipes == st.formats[j].pipes);
            if marks && i - 1 <= j < e {
                assert(in_table_block(fsn, rows, cursor, j, i));
            } else {
                assert(fsn[j] == fs[j]);
                if fsn[j].pipes.len() > 0 {
                    assert(st.formats[j].pipes.len() > 0);
                    let k = choose|k: int| 0 <= k < i && in_table_block(st.formats, rows, cursor, j, k);
                    assert(in_table_block(fsn, rows, cursor, j, k));
                }
            }
        }
    }
}

/// Tables are decorated only as whole blocks: every row drawn as a table row
/// belongs to one table block (a header, its rule, at least one body row, all
/// with the rule's pipes and blanks outside them, no fence open and the
/// cursor outside), and is marked as its header, rule or body by its place.
pub proof fn lemma_tables_are_blocks(rows: Seq<Seq<CellView>>, cursor: Option<u16>)
    ensures
        tables_are_blocks(spec_detect(rows, cursor), rows, cursor, rows.len() as int),
{
    lemma_blocks_upto(rows, cursor, rows.len() as int);
}

/// `k` copies of `#`.
pub open spec fn hashes(k: nat) -> Seq<char> {
    Seq::new(k, |i: int| '#')
}

proof fn lemma_leading_hashes(k: nat, rest: Seq<char>)
    requires
        rest.len() == 0 || rest[0] != '#',
    ensures
        leading(hashes(k) + rest, '#') == k,
    decreases k,
{
    if k > 0 {
        lemma_leading_hashes((k - 1) as nat, rest);
        assert((hashes(k) + rest).drop_first() =~= hashes((k - 1) as nat) + rest);
        assert((hashes(k) + rest)[0] == '#');
    } else {
        assert(hashes(k) + rest =~= rest);
    }
}

/// Markdown marks, read from a row's text without its leading whitespace:
/// one to six `#` and a space make a heading of that level, while seven or
/// more leave the heading as it was; `> ` before some text makes a quote;
/// `- `, `* ` or `+ ` opens a list item whose marker is the first cell that
/// is not blank.
pub proof fn lemma_markdown_marks(row: Seq<CellView>, f: FormatView, k: nat, rest: Seq<char>)
    ensures
        1 <= k <= 6 && trim_start(row_text(row)) == hashes(k) + seq![' '] + rest ==> markdown_marks(
            row,
            f,
        ).heading == k,
        k >= 7 && trim_start(row_text(row)) == hashes(k) + seq![' '] + rest ==> markdown_marks(
            row,
            f,
        ).heading == f.heading,
        trim_start(row_text(row)) == seq!['>', ' '] + rest && !blank(rest) ==> markdown_marks(row, f).quote,
        !starts_with(trim_start(row_text(row)), seq!['>', ' ']) ==> !markdown_marks(row, f).quote,
        (trim_start(row_text(row)) == seq!['-', ' '] + rest || trim_start(row_text(row)) == seq!['*', ' ']
            + rest || trim_start(row_text(row)) == seq!['+', ' '] + rest) ==> markdown_marks(row, f).marker
            == match first_nonblank(row, 0) {
            Some(c) => Some(c as u16),
            None => None,
        },
{
    let t = trim_start(row_text(row));
    if t == hashes(k) + seq![' '] + rest {
        assert(hashes(k) + seq![' '] + rest =~= hashes(k) + (seq![' '] + rest));
        lemma_leading_hashes(k, seq![' '] + rest);
        assert(t[k as int] == ' ');
    }
    if t == seq!['>', ' '] + rest && !blank(rest) {
        assert(t.take(2) =~= seq!['>', ' ']);
        assert(t.skip(2) =~= rest);
    }
    if t == seq!['-', ' '] + rest {
        assert(t.take(2) =~= seq!['-', ' ']);
    }
    if t == seq!['*', ' '] + rest {
        assert(t.take(2) =~= seq!['*', ' ']);
    }
    if t == seq!['+', ' '] + rest {
        assert(t.take(2) =~= seq!['+', ' ']);
    }
}

/// Code fences: a row whose text, after leading whitespace, opens with three
/// backticks opens a fence, and the next such row closes it; the rows from
/// the opening row to the closing one become code, with fence marks on both
/// ends, unless the cursor is among them. Inside an open fence no Markdown
/// mark is read.
pub proof fn lemma_fence_steps(rows: Seq<Seq<CellView>>, cursor: Option<u16>, st: DetectState, i: int)
    requires
        0 <= i < rows.len(),
        st.formats.len() == rows.len(),
    ensures
        ({
            let t = trim_start(row_text(rows[i]));
            let next = fence_step(rows, cursor, st, i);
            let opens = t.len() >= 3 && t.take(3) == seq!['`', '`', '`'];
            let s = st.fence->0;
            &&& opens && st.fence is None ==> next == DetectState { fence: Some(i), ..st }
            &&& opens && st.fence is Some && !(cursor is Some && s <= cursor->0 <= i) ==> {
                &&& next.fence is None
                &&& next.formats.len() == st.formats.len()
                &&& forall|j: int|
                    0 <= j < st.formats.len() ==> #[trigger] next.formats[j] == if s <= j <= i {
                        FormatView { code: true, fence: st.formats[j].fence || j == s || j == i, ..st.formats[j] }
                    } else {
                        st.formats[j]
                    }
            }
            &&& opens && st.fence is Some && (cursor is Some && s <= cursor->0 <= i) ==> next
                == DetectState { fence: None, ..st }
            &&& !opens && st.fence is Some ==> next == st
        }),
{
    let t = trim_start(row_text(rows[i]));
    if t.len() >= 3 && t.take(3) == seq!['`', '`', '`'] {
        assert(starts_with(t, fence_mark()));
    } else {
        assert(!starts_with(t, fence_mark()));
    }
}

/// A Markdown table is recognised: a header row, a rule row of Markdown
/// rule segments (alignment colons allowed) and a body row, with the same
/// pipe columns and nothing but blanks outside them, with no code fence and
/// no cursor among them, are drawn as header, rule and body.
pub proof fn lemma_tables_recognised(rows: Seq<Seq<CellView>>)
    requires
        rows.len() == 3,
        forall|k: int| 0 <= k < 3 ==> !starts_with(trim_start(row_text(#[trigger] rows[k])), fence_mark()),
        rows[1].len() <= 65536,
        pipes(rows[0]) == pipes(rows[1]),
        pipes(rows[2]) == pipes(rows[1]),
        forall|k: int| 0 <= k < 3 ==> table_bounds(#[trigger] rows[k], pipes(rows[1])),
        forall|k: int|
            0 <= k < pipes(rows[1]).len() - 1 ==> #[trigger] markdown_rule(
                rows[1],
                pipes(rows[1])[k] + 1,
                pipes(rows[1])[k + 1] as int,
            ),
    ensures
        spec_detect(rows, None)[0].header,
        spec_detect(rows, None)[1].separator,
        !spec_detect(rows, None)[2].header && !spec_detect(rows, None)[2].separator,
        forall|k: int| 0 <= k < 3 ==> #[trigger] spec_detect(rows, None)[k].pipes == pipes(rows[1]),
{
    let pos = pipes(rows[1]);
    lemma_pipes_columns(rows[1], rows[1].len() as int);
    lemma_rule_rows(rows[1], pos);
    let s0 = detect_upto(rows, None, 0);
    let a0 = fence_step(rows, None, s0, 0);
    assert(!starts_with(trim_start(row_text(rows[0])), fence_mark()));
    assert(a0.fence is None && a0.formats.len() == 3 && !a0.formats[1].code && !a0.formats[2].code);
    let s1 = table_step(rows, None, a0, 0);
    assert(s1 == a0);
    assert(detect_upto(rows, None, 1) == s1);
    let a1 = fence_step(rows, None, s1, 1);
    assert(!starts_with(trim_start(row_text(rows[1])), fence_mark()));
    assert(a1.fence is None && a1.formats.len() == 3 && !a1.formats[1].code && !a1.formats[2].code);
    assert(table_bounds(rows[1], pos) && table_bounds(rows[0], pos) && table_bounds(rows[2], pos));
    assert(table_end(rows, pos, 3) == 3);
    assert(table_end(rows, pos, 2) == 3);
    let s2 = table_step(rows, None, a1, 1);
    assert(s2 == DetectState { formats: mark_table(a1.formats, pos, 1, 3), ..a1 });
    assert(detect_upto(rows, None, 2) == s2);
    let a2 = fence_step(rows, None, s2, 2);
    assert(!starts_with(trim_start(row_text(rows[2])), fence_mark()));
    assert(a2.formats[0] == s2.formats[0] && a2.formats[1] == s2.formats[1]);
    assert(a2.formats[2].pipes == pos && !a2.formats[2].header && !a2.formats[2].separator);
    let s3 = table_step(rows, None, a2, 2);
    assert(s3 == a2);
    assert(detect_upto(rows, None, 3) == s3);
}

} // verus!
