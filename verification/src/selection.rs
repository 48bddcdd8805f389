//! A mouse selection over the transcript, in transcript coordinates: the
//! cell where the drag began (the anchor) and the cell it has reached (the
//! head). The selected cells run in reading order from the earlier of the
//! two to the later, both included.
use vstd::prelude::*;

verus! {

/// A selection from an anchor cell to a head cell (column, transcript row).
#[derive(Clone, Copy, Debug, PartialEq, Eq, Structural)]
pub struct Selection {
    pub anchor_col: u16,
    pub anchor_y: u32,
    pub head_col: u16,
    pub head_y: u32,
}

/// Whether cell (`c1`, `y1`) comes before or at (`c2`, `y2`) in reading
/// order: by row, then by column.
pub open spec fn reads_before(c1: int, y1: int, c2: int, y2: int) -> bool {
    y1 < y2 || (y1 == y2 && c1 <= c2)
}

/// Whether cell (`col`, `y`) lies in reading order between the cells
/// (`sc`, `sy`) and (`ec`, `ey`), both included.
pub open spec fn between(sc: int, sy: int, ec: int, ey: int, col: int, y: int) -> bool {
    reads_before(sc, sy, col, y) && reads_before(col, y, ec, ey)
}

impl Selection {
    /// Whether cell (`col`, `y`) is selected: it lies between the anchor
    /// and the head, whichever comes first.
    pub open spec fn covers(self, col: int, y: int) -> bool {
        if reads_before(self.anchor_col as int, self.anchor_y as int, self.head_col as int, self.head_y as int) {
            between(self.anchor_col as int, self.anchor_y as int, self.head_col as int, self.head_y as int, col, y)
        } else {
            between(self.head_col as int, self.head_y as int, self.anchor_col as int, self.anchor_y as int, col, y)
        }
    }

    /// A selection that starts and ends at (`col`, `y`).
    pub fn new(col: u16, y: u32) -> (r: Selection)
        ensures
            r == (Selection { anchor_col: col, anchor_y: y, head_col: col, head_y: y }),
    {
        Selection { anchor_col: col, anchor_y: y, head_col: col, head_y: y }
    }

    /// Moves the head to (`col`, `y`); the anchor stays.
    pub fn extend(&mut self, col: u16, y: u32)
        ensures
            *final(self) == (Selection { head_col: col, head_y: y, ..*old(self) }),
    {
        self.head_col = col;
        self.head_y = y;
    }

    /// Whether the selection is a single point (the head never left the
    /// anchor).
    pub fn is_empty(&self) -> (r: bool)
        ensures
            r == (self.anchor_col == self.head_col && self.anchor_y == self.head_y),
    {
        self.anchor_col == self.head_col && self.anchor_y == self.head_y
    }

    /// The first and the last selected cell in reading order, as
    /// ((column, row), (column, row)).
    pub fn ordered(&self) -> (r: ((u16, u32), (u16, u32)))
        ensures
            reads_before(r.0.0 as int, r.0.1 as int, r.1.0 as int, r.1.1 as int),
            (r.0 == (self.anchor_col, self.anchor_y) && r.1 == (self.head_col, self.head_y))
                || (r.0 == (self.head_col, self.head_y) && r.1 == (self.anchor_col, self.anchor_y)),
            forall|c: int, y: int| self.covers(c, y) <==> between(r.0.0 as int, r.0.1 as int, r.1.0 as int, r.1.1 as int, c, y),
    {
        if self.anchor_y < self.head_y || (self.anchor_y == self.head_y && self.anchor_col <= self.head_col) {
            ((self.anchor_col, self.anchor_y), (self.head_col, self.head_y))
        } else {
            ((self.head_col, self.head_y), (self.anchor_col, self.anchor_y))
        }
    }

    /// Whether cell (`col`, `y`) of the transcript is selected: on the first
    /// row from the first cell's column on, on the last row up to the last
    /// cell's column, and every cell of the rows between.
    pub fn contains_virt(&self, col: u16, y: u32) -> (r: bool)
        ensures
            r == self.covers(col as int, y as int),
    {
        let ((sc, sy), (ec, ey)) = self.ordered();
        (sy < y || (sy == y && sc <= col)) && (y < ey || (y == ey && col <= ec))
    }
}

/// A selection always holds both of its ends, and which end was the anchor
/// does not change what it holds.
pub proof fn law_selection_ends_and_direction(a_col: u16, a_y: u32, h_col: u16, h_y: u32)
    ensures
        ({
            let s = Selection { anchor_col: a_col, anchor_y: a_y, head_col: h_col, head_y: h_y };
            let t = Selection { anchor_col: h_col, anchor_y: h_y, head_col: a_col, head_y: a_y };
            &&& s.covers(a_col as int, a_y as int)
            &&& s.covers(h_col as int, h_y as int)
            &&& forall|c: int, y: int| s.covers(c, y) <==> t.covers(c, y)
        }),
{
}

/// A selection on one row holds exactly the columns between its ends on
/// that row.
pub proof fn law_selection_single_row(a_col: u16, h_col: u16, y: u32, col: u16, row: u32)
    ensures
        (Selection { anchor_col: a_col, anchor_y: y, head_col: h_col, head_y: y }).covers(col as int, row as int)
            <==> (row == y && ((a_col <= col <= h_col) || (h_col <= col <= a_col))),
{
}

} // verus!
