//! The logical screen as the renderer reads it: retained history above the
//! live rows, the cursor, and how far the view is scrolled back.
use vstd::prelude::*;
use crate::display::cell::{Cell, CellView};
use crate::display::row::cell_views;
use crate::display::cell::copy_cells;

verus! {

/// A snapshot of the child's logical screen.
pub struct Screen {
    /// Rows that scrolled off the top, oldest first.
    pub history: Vec<Vec<Cell>>,
    /// The live rows, top to bottom.
    pub live: Vec<Vec<Cell>>,
    /// Columns of every row.
    pub width: u16,
    pub cursor_row: u16,
    pub cursor_col: u16,
    pub hide_cursor: bool,
    /// How many rows the view is scrolled back into history.
    pub scrollback: usize,
}

pub struct ScreenView {
    pub history: Seq<Seq<CellView>>,
    pub live: Seq<Seq<CellView>>,
    pub width: u16,
    pub cursor_row: u16,
    pub cursor_col: u16,
    pub hide_cursor: bool,
    pub scrollback: usize,
}

pub open spec fn grid_view(rows: Seq<Vec<Cell>>) -> Seq<Seq<CellView>> {
    rows.map_values(|r: Vec<Cell>| cell_views(r@))
}

impl View for Screen {
    type V = ScreenView;

    open spec fn view(&self) -> ScreenView {
        ScreenView {
            history: grid_view(self.history@),
            live: grid_view(self.live@),
            width: self.width,
            cursor_row: self.cursor_row,
            cursor_col: self.cursor_col,
            hide_cursor: self.hide_cursor,
            scrollback: self.scrollback,
        }
    }
}

/// Every row has the screen's width.
pub open spec fn rows_of_width(rows: Seq<Seq<CellView>>, width: int) -> bool {
    forall|i: int| 0 <= i < rows.len() ==> (#[trigger] rows[i]).len() == width
}

/// A screen the renderer can draw: at least one row and one column, room for
/// the attribution row below it and for the label margin beside it.
pub open spec fn screen_wf(s: ScreenView) -> bool {
    &&& 1 <= s.live.len() < 65535
    &&& 1 <= s.width <= 65527
    &&& rows_of_width(s.history, s.width as int)
    &&& rows_of_width(s.live, s.width as int)
    &&& s.history.len() + s.live.len() <= usize::MAX
}

/// History followed by the live rows.
pub open spec fn all_rows(s: ScreenView) -> Seq<Seq<CellView>> {
    s.history + s.live
}

/// The rows shown when the view is scrolled back `offset` rows.
pub open spec fn viewport(s: ScreenView, offset: int) -> Seq<Seq<CellView>> {
    let all = all_rows(s);
    all.subrange(all.len() - s.live.len() - offset, all.len() - offset)
}

impl Screen {
    /// Rows and columns.
    pub fn size(&self) -> (r: (u16, u16))
        requires
            self.live@.len() <= u16::MAX,
        ensures
            r == (self.live@.len() as u16, self.width),
    {
        (self.live.len() as u16, self.width)
    }

    pub fn cursor_position(&self) -> (r: (u16, u16))
        ensures
            r == (self.cursor_row, self.cursor_col),
    {
        (self.cursor_row, self.cursor_col)
    }

    /// How many rows of history are kept.
    pub fn retained_rows(&self) -> (n: usize)
        ensures
            n == self.history@.len(),
    {
        self.history.len()
    }

    /// A copy of the rows shown when scrolled back `offset` rows.
    pub fn viewport_rows_at(&self, offset: usize) -> (rows: Vec<Vec<Cell>>)
        requires
            offset <= self.history@.len(),
            self.history@.len() + self.live@.len() <= usize::MAX,
        ensures
            grid_view(rows@) == viewport(self@, offset as int),
    {
        let mut rows: Vec<Vec<Cell>> = Vec::new();
        let h = self.history.len();
        let n = self.live.len();
        let start = h - offset;
        let ghost all = all_rows(self@);
        let mut i: usize = start;
        while i < start + n
            invariant
                h == self.history@.len(),
                n == self.live@.len(),
                start == h - offset,
                offset <= h,
                h + n <= usize::MAX,
                start <= i <= start + n,
                all == all_rows(self@),
                grid_view(rows@) == all.subrange(start as int, i as int),
            decreases start + n - i,
        {
            let row = if i < h {
                assert(all[i as int] == cell_views(self.history@[i as int]@));
                copy_cells(self.history[i].as_slice())
            } else {
                assert(all[i as int] == cell_views(self.live@[i - h]@));
                copy_cells(self.live[i - h].as_slice())
            };
            assert(cell_views(row@) =~= all[i as int]);
            let ghost before = rows@;
            let ghost rv = cell_views(row@);
            rows.push(row);
            assert(rows@ == before.push(row));
            assert(grid_view(rows@) =~= grid_view(before).push(rv));
            i = i + 1;
            assert(grid_view(rows@) =~= all.subrange(start as int, i as int));
        }
        rows
    }
}

/// Scrolling back `offset` rows shows the screen's height of rows ending
/// `offset` rows above the newest: the live rows at offset 0, and at offset
/// `k` the last `k` kept history rows above the live rows that remain.
pub proof fn lemma_viewport_rows(s: ScreenView, offset: int, i: int)
    requires
        0 <= offset <= s.history.len(),
        0 <= i < s.live.len(),
    ensures
        viewport(s, offset).len() == s.live.len(),
        i < offset ==> viewport(s, offset)[i] == s.history[s.history.len() - offset + i],
        i >= offset ==> viewport(s, offset)[i] == s.live[i - offset],
        viewport(s, 0) == s.live,
{
    let all = all_rows(s);
    let k = s.history.len() - offset + i;
    assert(viewport(s, offset)[i] == all[k]);
    assert(viewport(s, 0) =~= s.live);
}

} // verus!
