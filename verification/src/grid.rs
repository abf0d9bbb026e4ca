//! Hand-rolled iteration: a cursor over a borrowed slice, and a cursor that
//! walks a grid of coordinates row by row.

use vstd::prelude::*;

verus! {

/// Steps through a borrowed slice, one element per call.
pub struct SliceIterator<'s> {
    pub slice: &'s [i32],
    pub i: usize,
}

impl<'s> SliceIterator<'s> {
    /// Hands back the element under the cursor and moves the cursor on; at
    /// the end of the slice it answers `None` and stays put.
    pub fn next(&mut self) -> (r: Option<&'s i32>)
        requires
            old(self).i <= old(self).slice@.len(),
        ensures
            final(self).slice == old(self).slice,
            old(self).i == old(self).slice@.len() ==> r is None && final(self).i == old(self).i,
            old(self).i < old(self).slice@.len() ==> r == Some(
                &old(self).slice@[old(self).i as int],
            ) && final(self).i == old(self).i + 1,
    {
        if self.i == self.slice.len() {
            None
        } else {
            let element = &self.slice[self.i];
            self.i += 1;
            Some(element)
        }
    }
}

/// A grid given by its x coordinates and its y coordinates.
pub struct Grid {
    pub x_records: Vec<u32>,
    pub y_records: Vec<u32>,
}

impl Grid {
    /// Starts a cursor over all the grid's coordinate pairs.
    pub fn into_iter(self) -> (it: GridIter)
        ensures
            it.grid == self,
            it.x_index == 0,
            it.y_index == 0,
    {
        GridIter { grid: self, x_index: 0, y_index: 0 }
    }
}

/// Walks a [`Grid`] row by row: every x coordinate paired with the first y
/// coordinate, then every x with the second y, and so on.
pub struct GridIter {
    pub grid: Grid,
    pub x_index: usize,
    pub y_index: usize,
}

impl GridIter {
    /// The states from which one more step neither overflows the row
    /// counter nor reaches past either coordinate list. A cursor fresh from
    /// [`Grid::into_iter`] satisfies it as long as a grid with rows has
    /// columns too, and [`GridIter::next`] keeps it up to the step on which
    /// it answers `None`.
    pub open spec fn can_step(self) -> bool {
        if self.x_index >= self.grid.x_records@.len() {
            &&& self.y_index + 1 <= usize::MAX
            &&& (self.y_index + 1 < self.grid.y_records@.len()
                ==> self.grid.x_records@.len() > 0)
        } else {
            self.y_index < self.grid.y_records@.len()
        }
    }

    /// Hands back the coordinate pair under the cursor and moves on,
    /// wrapping to the next row at the end of each row; past the last row
    /// it answers `None`.
    pub fn next(&mut self) -> (r: Option<(u32, u32)>)
        requires
            old(self).can_step(),
        ensures
            final(self).grid == old(self).grid,
            ({
                let g = old(self).grid;
                let xi = old(self).x_index as int;
                let yi = old(self).y_index as int;
                if xi >= g.x_records@.len() {
                    if yi + 1 >= g.y_records@.len() {
                        &&& r is None
                        &&& final(self).x_index == 0
                        &&& final(self).y_index == yi + 1
                    } else {
                        &&& r == Some((g.x_records@[0], g.y_records@[yi + 1]))
                        &&& final(self).x_index == 1
                        &&& final(self).y_index == yi + 1
                    }
                } else {
                    &&& r == Some((g.x_records@[xi], g.y_records@[yi]))
                    &&& final(self).x_index == xi + 1
                    &&& final(self).y_index == yi
                }
            }),
    {
        if self.x_index >= self.grid.x_records.len() {
            self.x_index = 0;
            self.y_index += 1;
            if self.y_index >= self.grid.y_records.len() {
                return None;
            }
        }
        let res = Some((self.grid.x_records[self.x_index], self.grid.y_records[self.y_index]));
        self.x_index += 1;
        res
    }
}

} // verus!
