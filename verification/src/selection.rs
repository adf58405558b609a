//! Pane-local text selection model.

use vstd::prelude::*;
use crate::layout::PaneId;

verus! {

/// A text selection within a single pane.
///
/// Coordinates are pane-grid-local `(column, row)` pairs relative to the
/// inner area. `display_offset` is the scrollback position captured when the
/// selection started.
#[derive(Debug, Clone, Copy)]
pub struct Selection {
    pub pane_id: PaneId,
    /// Start position `(col, row)`.
    pub start: (u16, u16),
    /// End position `(col, row)`.
    pub end: (u16, u16),
    /// Scrollback offset when the selection started.
    pub display_offset: usize,
}

/// Reading order on cells: row first, then column.
pub open spec fn cell_le(a: (u16, u16), b: (u16, u16)) -> bool {
    a.1 < b.1 || (a.1 == b.1 && a.0 <= b.0)
}

impl Selection {
    /// The two endpoints in reading order (top-left first).
    pub fn ordered(&self) -> (r: ((u16, u16), (u16, u16)))
        ensures
            r == (if cell_le(self.start, self.end) { (self.start, self.end) } else { (self.end, self.start) }),
            cell_le(r.0, r.1),
    {
        let (sc, sr) = self.start;
        let (ec, er) = self.end;
        if sr < er || (sr == er && sc <= ec) {
            ((sc, sr), (ec, er))
        } else {
            ((ec, er), (sc, sr))
        }
    }

    /// True when start and end are the same cell (a click, not a drag).
    pub fn is_empty(&self) -> (r: bool)
        ensures
            r == (self.start == self.end),
    {
        self.start.0 == self.end.0 && self.start.1 == self.end.1
    }
}

} // verus!
