//! The cursor that reads the columns of a result row in order: each `next`
//! hands out the row and the index of the column to read, then moves on.
use vstd::prelude::*;

verus! {

/// A cursor over the columns of a row of type `R` (a reference to a row,
/// or anything else that is copied cheaply).
#[derive(Clone, Copy)]
pub struct Adaper<R> {
    pub row: Option<R>,
    pub idx: usize,
}

impl<R: Copy> Adaper<R> {
    /// A cursor with no row.
    pub fn new() -> (r: Adaper<R>)
        ensures
            r.row is None,
            r.idx == 0,
    {
        Adaper { row: None, idx: 0 }
    }

    /// Moves to `row`, back at its first column, and returns a copy of the
    /// cursor.
    pub fn change_row(&mut self, row: Option<R>) -> (r: Adaper<R>)
        ensures
            final(self).row == row,
            final(self).idx == 0,
            r == *final(self),
    {
        self.row = row;
        self.idx = 0;
        Adaper { row: self.row, idx: self.idx }
    }

    /// The row and the index of the column to read next; the cursor moves
    /// one column on.  The cursor must have a row.
    pub fn next(&mut self) -> (r: (R, usize))
        requires
            old(self).row is Some,
            old(self).idx < usize::MAX,
        ensures
            final(self).row == old(self).row,
            final(self).idx == old(self).idx + 1,
            r == (old(self).row.unwrap(), old(self).idx),
    {
        self.idx = self.idx + 1;
        (self.row.unwrap(), self.idx - 1)
    }
}

} // verus!
