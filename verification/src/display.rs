//! The parser always owns logical text. Only disposable display rows are
//! reordered: this module builds them and serializes them for the host.
pub mod bidi;
pub mod cell;
pub mod row;
pub mod maps;
pub mod screen;
pub mod renderer;
pub mod escapes;
pub mod fixed;
pub mod rendition;

pub use cell::{Cell, CellView, Color, Style};
pub use row::{visual_row, visual_row_with_layout, Glyph, GlyphView, RowView, VisualRow};
pub use renderer::{final_screen, replay, Renderer};
pub use screen::Screen;

use vstd::prelude::*;

verus! {

/// Base direction for each reordered text field.
#[derive(Clone, Copy, Debug, PartialEq, Eq, Structural)]
pub enum Direction {
    Auto,
    Ltr,
    Rtl,
}

/// Whitespace is ambiguous: callers can choose prose or fixed terminal fields.
#[derive(Clone, Copy, Debug, PartialEq, Eq, Structural)]
pub enum Layout {
    Columns,
    Prose,
}

impl Default for Direction {
    /// Each field's direction is detected from its text.
    fn default() -> (d: Direction)
        ensures
            d == Direction::Auto,
    {
        Direction::Auto
    }
}

impl Default for Layout {
    /// Whitespace runs are fixed terminal fields.
    fn default() -> (l: Layout)
        ensures
            l == Layout::Columns,
    {
        Layout::Columns
    }
}

} // verus!
