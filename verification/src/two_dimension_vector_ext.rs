//! The neighbours of a cell in a grid, along the axes and along the
//! diagonals.

use vstd::prelude::*;

verus! {

/// The steps to the four neighbours along the axes, as (rows, columns).
pub open spec fn steps4() -> Seq<(isize, isize)> {
    seq![(-1isize, 0isize), (1isize, 0isize), (0isize, -1isize), (0isize, 1isize)]
}

/// The steps to the eight neighbours: those along the axes, then the
/// diagonals.
pub open spec fn steps8() -> Seq<(isize, isize)> {
    seq![
        (-1isize, 0isize),
        (1isize, 0isize),
        (0isize, -1isize),
        (0isize, 1isize),
        (-1isize, -1isize),
        (-1isize, 1isize),
        (1isize, -1isize),
        (1isize, 1isize),
    ]
}

/// The cell `(row, col)` lies in a grid of `height` rows and `width`
/// columns.
pub open spec fn in_grid(row: int, col: int, height: int, width: int) -> bool {
    0 <= row < height && 0 <= col < width
}

/// The cells that the `steps` lead to from `(row, col)` and that lie in the
/// grid, in the order of the steps.
pub open spec fn reached(steps: Seq<(isize, isize)>, row: int, col: int, height: int, width: int) -> Seq<
    (usize, usize),
>
    decreases steps.len(),
{
    if steps.len() == 0 {
        Seq::empty()
    } else {
        let before = reached(steps.drop_last(), row, col, height, width);
        let ny = row + steps.last().0;
        let nx = col + steps.last().1;
        if in_grid(ny, nx, height, width) {
            before.push((ny as usize, nx as usize))
        } else {
            before
        }
    }
}

/// The number of rows of `grid`.
pub open spec fn height_of<T>(grid: &Vec<Vec<T>>) -> int {
    grid@.len() as int
}

/// The number of columns of the first row of `grid`.
pub open spec fn width_of<T>(grid: &Vec<Vec<T>>) -> int {
    grid@[0]@.len() as int
}

/// The cells that `steps` lead to from `(row, col)` and that lie in a grid
/// of `height` rows and `width` columns.
pub fn neighbours(steps: &[(isize, isize)], row: usize, col: usize, height: isize, width: isize) -> (r:
    Vec<(usize, usize)>)
    requires
        row < isize::MAX,
        col < isize::MAX,
        forall|k: int|
            0 <= k < steps@.len() ==> -1 <= (#[trigger] steps@[k]).0 <= 1 && -1 <= steps@[k].1 <= 1,
    ensures
        r@ == reached(steps@, row as int, col as int, height as int, width as int),
{
    let mut out: Vec<(usize, usize)> = Vec::new();
    let mut k: usize = 0;
    while k < steps.len()
        invariant
            k <= steps@.len(),
            row < isize::MAX,
            col < isize::MAX,
            forall|j: int|
                0 <= j < steps@.len() ==> -1 <= (#[trigger] steps@[j]).0 <= 1 && -1 <= steps@[j].1 <= 1,
            out@ == reached(steps@.take(k as int), row as int, col as int, height as int, width as int),
        decreases steps@.len() - k,
    {
        let (dy, dx) = steps[k];
        let ny = row as isize + dy;
        let nx = col as isize + dx;
        proof {
            assert(steps@.take(k + 1).drop_last() =~= steps@.take(k as int));
            assert(steps@.take(k + 1).last() == steps@[k as int]);
        }
        if 0 <= ny && ny < height && 0 <= nx && nx < width {
            out.push((ny as usize, nx as usize));
        }
        k = k + 1;
    }
    assert(steps@.take(k as int) =~= steps@);
    out
}

/// The neighbours of a cell in a grid whose rows are vectors.
pub trait TwoDimensionVectorExt {
    /// The number of rows.
    spec fn height(&self) -> int;

    /// The number of columns.
    spec fn width(&self) -> int;

    /// The neighbours of `(row, col)` along the axes that lie in the grid:
    /// above, below, left, right.
    fn adj4(&self, row: usize, col: usize) -> (r: Vec<(usize, usize)>)
        requires
            0 < self.height() <= isize::MAX,
            0 < self.width() <= isize::MAX,
            row < isize::MAX,
            col < isize::MAX,
        ensures
            r@ == reached(steps4(), row as int, col as int, self.height(), self.width()),
    ;

    /// The neighbours of `(row, col)` that lie in the grid: those along the
    /// axes, then those along the diagonals.
    fn adj8(&self, row: usize, col: usize) -> (r: Vec<(usize, usize)>)
        requires
            0 < self.height() <= isize::MAX,
            0 < self.width() <= isize::MAX,
            row < isize::MAX,
            col < isize::MAX,
        ensures
            r@ == reached(steps8(), row as int, col as int, self.height(), self.width()),
    ;
}

impl<T> TwoDimensionVectorExt for Vec<Vec<T>> {
    open spec fn height(&self) -> int {
        height_of(self)
    }

    open spec fn width(&self) -> int {
        width_of(self)
    }

    fn adj4(&self, row: usize, col: usize) -> (r: Vec<(usize, usize)>) {
        let height = self.len() as isize;
        let width = self[0].len() as isize;
        let steps: [(isize, isize); 4] = [(-1, 0), (1, 0), (0, -1), (0, 1)];
        assert(steps@ =~= steps4());
        neighbours(steps.as_slice(), row, col, height, width)
    }

    fn adj8(&self, row: usize, col: usize) -> (r: Vec<(usize, usize)>) {
        let height = self.len() as isize;
        let width = self[0].len() as isize;
        let steps: [(isize, isize); 8] = [
            (-1, 0),
            (1, 0),
            (0, -1),
            (0, 1),
            (-1, -1),
            (-1, 1),
            (1, -1),
            (1, 1),
        ];
        assert(steps@ =~= steps8());
        neighbours(steps.as_slice(), row, col, height, width)
    }
}

} // verus!
