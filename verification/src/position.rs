//! The place of the cursor on the screen.

use vstd::prelude::*;

verus! {

/// A column `x` and a row `y`, both counted from 0.
#[derive(Debug, Clone, Copy, PartialEq, Eq, Structural)]
pub struct Position {
    pub x: u16,
    pub y: u16,
}

impl Position {
    /// The top left corner.
    pub fn new() -> (position: Self)
        ensures
            position.x == 0,
            position.y == 0,
    {
        Self { x: 0, y: 0 }
    }

    /// One column to the left, unless the cursor is in the first column.
    pub fn move_left(&mut self)
        ensures
            final(self).x == if old(self).x > 0 {
                (old(self).x - 1) as u16
            } else {
                0u16
            },
            final(self).y == old(self).y,
    {
        if self.x > 0 {
            self.x -= 1;
        }
    }

    /// One column to the right, unless the cursor is in the last column
    /// that can be counted.
    pub fn move_right(&mut self)
        ensures
            final(self).x == old(self).x.saturating_add(1),
            final(self).y == old(self).y,
    {
        self.x = self.x.saturating_add(1);
    }

    /// One row up, unless the cursor is in the first row.
    pub fn move_up(&mut self)
        ensures
            final(self).y == if old(self).y > 0 {
                (old(self).y - 1) as u16
            } else {
                0u16
            },
            final(self).x == old(self).x,
    {
        if self.y > 0 {
            self.y -= 1;
        }
    }

    /// One row down, unless the cursor is in the last row that can be
    /// counted.
    pub fn move_down(&mut self)
        ensures
            final(self).y == old(self).y.saturating_add(1),
            final(self).x == old(self).x,
    {
        self.y = self.y.saturating_add(1);
    }

    /// To the first column of the next row; of the same row where that is
    /// the last row that can be counted.
    pub fn move_to_new_line(&mut self)
        ensures
            final(self).x == 0,
            final(self).y == old(self).y.saturating_add(1),
    {
        self.x = 0;
        self.y = self.y.saturating_add(1);
    }
}

} // verus!
