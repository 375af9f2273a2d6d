//! The grid data model: the role of each cell and a bounds-checked
//! two-dimensional container of cells.

use vstd::prelude::*;

verus! {

use vstd::pervasive::VecAdditionalExecFns;

/// The role of one grid position.
#[derive(Clone, Copy, PartialEq, Eq, Structural, Debug)]
pub enum Cell {
    Wall,
    Path,
    Player,
    Exit,
    Coin,
}

/// The errors a grid operation can report.
#[derive(Clone, Copy, PartialEq, Eq, Structural, Debug)]
pub enum MazeError {
    /// A coordinate lies outside the grid's dimensions.
    OutOfBounds,
    /// A grid was requested that is too small to carve a maze in.
    InvalidDimensions,
}

/// A fixed-size rectangular grid of cells, stored row-major.
pub struct Grid {
    /// The backing store, row-major; use `get`/`set` or `at`/`put` instead
    /// of touching it directly.
    pub cells: Vec<Cell>,
    /// Number of columns.
    pub width: usize,
    /// Number of rows.
    pub height: usize,
}

impl View for Grid {
    type V = Seq<Seq<Cell>>;

    open spec fn view(&self) -> Seq<Seq<Cell>> {
        Seq::new(
            self.height as nat,
            |r: int| Seq::new(self.width as nat, |c: int| self.cells@[r * (self.width as int) + c]),
        )
    }
}

impl Grid {
    /// The grid is well formed: at least 3 cells in each dimension, and the
    /// backing store covers every position.
    pub open spec fn wf(&self) -> bool {
        &&& self.width >= 3
        &&& self.height >= 3
        &&& self.cells@.len() == (self.height as int) * (self.width as int)
    }

    /// Create a grid of the given dimensions with every cell a `Wall`.
    pub fn new(width: usize, height: usize) -> (result: Result<Grid, MazeError>)
        requires
            (height as int) * (width as int) <= usize::MAX as int,
        ensures
            match result {
                Ok(g) => {
                    &&& g.wf()
                    &&& g.width == width
                    &&& g.height == height
                    &&& width >= 3
                    &&& height >= 3
                    &&& forall|r: int, c: int|
                        0 <= r < height && 0 <= c < width ==> #[trigger] g@[r][c] == Cell::Wall
                },
                Err(e) => e == MazeError::InvalidDimensions && (width < 3 || height < 3),
            },
    {
        if width < 3 || height < 3 {
            return Err(MazeError::InvalidDimensions);
        }
        let total: usize = height * width;
        let mut cells: Vec<Cell> = Vec::new();
        let mut i: usize = 0;
        while i < total
            invariant
                i <= total,
                cells@.len() == i,
                forall|j: int| 0 <= j < i ==> cells@[j] == Cell::Wall,
            decreases total - i,
        {
            cells.push(Cell::Wall);
            i = i + 1;
        }
        let g = Grid { cells, width, height };
        proof {
            assert forall|r: int, c: int|
                0 <= r < height && 0 <= c < width implies #[trigger] g@[r][c] == Cell::Wall by {
                lemma_row_major_bound(r, c, height as int, width as int);
            };
        }
        Ok(g)
    }

    /// Read the cell at a position known to be in bounds.
    pub fn at(&self, r: usize, c: usize) -> (cell: Cell)
        requires
            self.wf(),
            r < self.height,
            c < self.width,
        ensures
            cell == self@[r as int][c as int],
    {
        let _n = self.cells.len();
        proof {
            lemma_row_major_bound(r as int, c as int, self.height as int, self.width as int);
        }
        self.cells[r * self.width + c]
    }

    /// Overwrite the cell at a position known to be in bounds.
    pub fn put(&mut self, r: usize, c: usize, cell: Cell)
        requires
            old(self).wf(),
            r < old(self).height,
            c < old(self).width,
        ensures
            final(self).wf(),
            final(self).width == old(self).width,
            final(self).height == old(self).height,
            final(self)@ == old(self)@.update(
                r as int,
                old(self)@[r as int].update(c as int, cell),
            ),
    {
        let _n = self.cells.len();
        proof {
            lemma_row_major_bound(r as int, c as int, self.height as int, self.width as int);
        }
        let i = r * self.width + c;
        self.cells.set(i, cell);
        proof {
            let w = self.width as int;
            let h = self.height as int;
            let target = old(self)@.update(r as int, old(self)@[r as int].update(c as int, cell));
            assert forall|r2: int| 0 <= r2 < h implies self@[r2] =~= target[r2] by {
                assert forall|c2: int| 0 <= c2 < w implies self@[r2][c2] == target[r2][c2] by {
                    lemma_row_major_bound(r2, c2, h, w);
                    if r2 * w + c2 == r as int * w + c as int {
                        lemma_row_major_injective(r2, c2, r as int, c as int, w);
                    }
                };
            };
            assert(self@ =~~= target);
        }
    }

    /// Bounds-checked read of a cell.
    pub fn get(&self, r: usize, c: usize) -> (result: Result<Cell, MazeError>)
        requires
            self.wf(),
        ensures
            match result {
                Ok(cell) => r < self.height && c < self.width && cell == self@[r as int][c as int],
                Err(e) => e == MazeError::OutOfBounds && (r >= self.height || c >= self.width),
            },
    {
        if r < self.height && c < self.width {
            Ok(self.at(r, c))
        } else {
            Err(MazeError::OutOfBounds)
        }
    }

    /// Bounds-checked write of a cell.
    pub fn set(&mut self, r: usize, c: usize, cell: Cell) -> (result: Result<(), MazeError>)
        requires
            old(self).wf(),
        ensures
            final(self).wf(),
            final(self).width == old(self).width,
            final(self).height == old(self).height,
            match result {
                Ok(()) => {
                    &&& r < old(self).height
                    &&& c < old(self).width
                    &&& final(self)@ == old(self)@.update(
                        r as int,
                        old(self)@[r as int].update(c as int, cell),
                    )
                },
                Err(e) => {
                    &&& e == MazeError::OutOfBounds
                    &&& (r >= old(self).height || c >= old(self).width)
                    &&& *final(self) == *old(self)
                },
            },
    {
        if r < self.height && c < self.width {
            self.put(r, c, cell);
            Ok(())
        } else {
            Err(MazeError::OutOfBounds)
        }
    }
}

/// A row-major index stays within the backing store.
pub(crate) proof fn lemma_row_major_bound(r: int, c: int, h: int, w: int) by (nonlinear_arith)
    requires
        0 <= r < h,
        0 <= c < w,
    ensures
        0 <= r * w + c < h * w,
{
}

/// Row-major indexing is injective over positions of one grid.
pub(crate) proof fn lemma_row_major_injective(r1: int, c1: int, r2: int, c2: int, w: int) by (nonlinear_arith)
    requires
        0 <= c1 < w,
        0 <= c2 < w,
        r1 >= 0,
        r2 >= 0,
        r1 * w + c1 == r2 * w + c2,
    ensures
        r1 == r2 && c1 == c2,
{
}

} // verus!
