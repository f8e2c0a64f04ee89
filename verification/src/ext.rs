//! Extension traits on slices and grids: binary search on sorted slices and
//! the neighbours of a cell.

use vstd::prelude::*;
use crate::binary_search_ext::{BinarySearchExt, above, at_least, is_partition_point, is_partitioned, ordered};
use crate::two_dimension_vector_ext::{height_of, neighbours, reached, steps4, steps8, width_of};

verus! {

/// Binary search on a sorted slice.
pub trait SliceExt<T: Ord> {
    /// The items, in order.
    spec fn items(&self) -> Seq<T>;

    /// In a slice sorted in ascending order, the least index whose item is
    /// greater than or equal to `value`; the length where there is none.
    fn lower_bound(&self, value: &T) -> (r: usize)
        requires
            2 * self.items().len() <= i64::MAX,
        ensures
            r <= self.items().len(),
            ordered::<T>() && is_partitioned(self.items(), |x: T| at_least(x, *value))
                ==> is_partition_point(self.items(), |x: T| at_least(x, *value), r as int),
    ;

    /// In a slice sorted in ascending order, the least index whose item is
    /// greater than `value`; the length where there is none.
    fn upper_bound(&self, value: &T) -> (r: usize)
        requires
            2 * self.items().len() <= i64::MAX,
        ensures
            r <= self.items().len(),
            ordered::<T>() && is_partitioned(self.items(), |x: T| above(x, *value))
                ==> is_partition_point(self.items(), |x: T| above(x, *value), r as int),
    ;
}

impl<T> SliceExt<T> for [T] where T: Ord {
    open spec fn items(&self) -> Seq<T> {
        self@
    }

    fn lower_bound(&self, value: &T) -> (r: usize) {
        BinarySearchExt::lower_bound(self, value)
    }

    fn upper_bound(&self, value: &T) -> (r: usize) {
        BinarySearchExt::upper_bound(self, value)
    }
}

/// The neighbours of a cell in a grid whose rows are vectors.
pub trait TwoDimensionVectorExt {
    /// The number of rows.
    spec fn height(&self) -> int;

    /// The number of columns.
    spec fn width(&self) -> int;

    /// The neighbours of `(row, col)` along the axes that lie in the grid:
    /// above, below, left, right.
    fn adj4(&self, row: usize, col: usize) -> (r: Vec<(usize, usize)>)
        requires
            0 < self.height() <= isize::MAX,
            0 < self.width() <= isize::MAX,
            row < isize::MAX,
            col < isize::MAX,
        ensures
            r@ == reached(steps4(), row as int, col as int, self.height(), self.width()),
    ;

    /// The neighbours of `(row, col)` that lie in the grid: those along the
    /// axes, then those along the diagonals.
    fn adj8(&self, row: usize, col: usize) -> (r: Vec<(usize, usize)>)
        requires
            0 < self.height() <= isize::MAX,
            0 < self.width() <= isize::MAX,
            row < isize::MAX,
            col < isize::MAX,
        ensures
            r@ == reached(steps8(), row as int, col as int, self.height(), self.width()),
    ;
}

impl<T> TwoDimensionVectorExt for Vec<Vec<T>> {
    open spec fn height(&self) -> int {
        height_of(self)
    }

    open spec fn width(&self) -> int {
        width_of(self)
    }

    fn adj4(&self, row: usize, col: usize) -> (r: Vec<(usize, usize)>) {
        let height = self.len() as isize;
        let width = self[0].len() as isize;
        let steps: [(isize, isize); 4] = [(-1, 0), (1, 0), (0, -1), (0, 1)];
        assert(steps@ =~= steps4());
        neighbours(steps.as_slice(), row, col, height, width)
    }

    fn adj8(&self, row: usize, col: usize) -> (r: Vec<(usize, usize)>) {
        let height = self.len() as isize;
        let width = self[0].len() as isize;
        let steps: [(isize, isize); 8] = [
            (-1, 0),
            (1, 0),
            (0, -1),
            (0, 1),
            (-1, -1),
            (-1, 1),
            (1, -1),
            (1, 1),
        ];
        assert(steps@ =~= steps8());
        neighbours(steps.as_slice(), row, col, height, width)
    }
}

} // verus!
