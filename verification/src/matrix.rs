use vstd::prelude::*;
use crate::grid::{
    cell_index, lemma_cell_index_bounds, lemma_cell_index_injective, lemma_cell_index_inverse, Grid,
};

verus! {

/// What a write outside the board reports: the coordinate that was asked for
/// and the dimensions it fell outside of.
#[derive(Clone, Copy, Debug, PartialEq, Eq, Structural)]
pub struct OutOfBounds {
    /// The column that was asked for.
    pub x: usize,
    /// The row that was asked for.
    pub y: usize,
    /// The number of columns of the board.
    pub width: usize,
    /// The number of rows of the board.
    pub height: usize,
}

/// A board of fixed dimensions. The cells are kept column by column in one
/// buffer: the cell at `(x, y)` is stored at position `x * height + y`.
#[derive(Debug, PartialEq, Eq)]
pub struct GameMatrix {
    width: usize,
    height: usize,
    cells: Vec<bool>,
}

/// An item of the traversal with its coordinate as mathematical integers.
pub open spec fn cell_entry(entry: ((usize, usize), bool)) -> ((int, int), bool) {
    ((entry.0.0 as int, entry.0.1 as int), entry.1)
}

impl View for GameMatrix {
    type V = Grid;

    closed spec fn view(&self) -> Grid {
        Grid {
            width: self.width as nat,
            height: self.height as nat,
            live: Set::new(
                |p: (int, int)|
                    0 <= p.0 < self.width && 0 <= p.1 < self.height && self.cells@[cell_index(
                        p.0,
                        p.1,
                        self.height as int,
                    )],
            ),
        }
    }
}

impl Clone for GameMatrix {
    /// A second board with the same dimensions and the same cells.
    fn clone(&self) -> (copy: GameMatrix)
        ensures
            copy@ == self@,
    {
        proof {
            use_type_invariant(self);
        }
        let cells = self.cells.clone();
        assert(cells@ =~= self.cells@);
        let copy = GameMatrix { width: self.width, height: self.height, cells };
        assert(copy@.live =~= self@.live);
        copy
    }
}

impl GameMatrix {
    /// The buffer holds exactly one flag for each cell. Every board that
    /// exists at run time satisfies this.
    #[verifier::type_invariant]
    pub closed spec fn buffer_matches_dimensions(self) -> bool {
        self.cells@.len() == self.width * self.height
    }

    /// The model of a board holds no live cell outside its bounds, and its
    /// dimensions are those of a board that a machine can address.
    pub proof fn lemma_view_wf(self)
        ensures
            self@.wf(),
            self@.width <= usize::MAX,
            self@.height <= usize::MAX,
    {
    }

    /// The cells of a board can be counted in a `usize`.
    pub proof fn lemma_dimensions_fit(self)
        requires
            self.buffer_matches_dimensions(),
        ensures
            self@.width * self@.height <= usize::MAX,
    {
        assert(self.cells@.len() == self.cells.len());
    }

    /// An all-dead board of the given dimensions. The number of its cells
    /// has to be one that a `usize` holds.
    pub fn new(width: usize, height: usize) -> (matrix: GameMatrix)
        requires
            width * height <= usize::MAX,
        ensures
            matrix@ == Grid::dead(width as nat, height as nat),
    {
        let count: usize = width * height;
        let mut cells: Vec<bool> = Vec::new();
        let mut filled: usize = 0;
        while filled < count
            invariant
                filled <= count,
                cells@.len() == filled,
                forall|i: int| 0 <= i < filled ==> !(#[trigger] cells@[i]),
            decreases count - filled,
        {
            cells.push(false);
            filled = filled + 1;
        }
        let matrix = GameMatrix { width, height, cells };
        proof {
            assert forall|p: (int, int)| !(#[trigger] matrix@.live.contains(p)) by {
                if 0 <= p.0 < width && 0 <= p.1 < height {
                    lemma_cell_index_bounds(p.0, p.1, width as int, height as int);
                }
            }
            assert(matrix@.live =~= Set::<(int, int)>::empty());
        }
        matrix
    }

    /// The number of columns.
    pub fn width(&self) -> (width: usize)
        ensures
            width == self@.width,
    {
        self.width
    }

    /// The number of cells in a column.
    pub fn height(&self) -> (height: usize)
        ensures
            height == self@.height,
    {
        self.height
    }

    /// Whether the cell at `(x, y)` is alive. A coordinate outside the board
    /// is dead.
    pub fn is_cell_alive(&self, x: usize, y: usize) -> (alive: bool)
        ensures
            alive == self@.alive(x as int, y as int),
            !self@.in_bounds(x as int, y as int) ==> !alive,
    {
        proof {
            use_type_invariant(self);
        }
        if x < self.width && y < self.height {
            proof {
                lemma_cell_index_bounds(x as int, y as int, self.width as int, self.height as int);
                assert(self.cells@.len() == self.cells.len());
            }
            self.cells[x * self.height + y]
        } else {
            false
        }
    }

    /// Sets the cell at `(x, y)`. A coordinate outside the board is refused
    /// and the board stays as it was.
    pub fn try_set_alive(&mut self, x: usize, y: usize, alive: bool) -> (outcome: Result<
        (),
        OutOfBounds,
    >)
        ensures
            outcome is Ok <==> old(self)@.in_bounds(x as int, y as int),
            outcome is Ok ==> final(self)@ == old(self)@.with_cell(x as int, y as int, alive),
            outcome matches Err(e) ==> final(self)@ == old(self)@ && e == (OutOfBounds {
                x,
                y,
                width: old(self)@.width as usize,
                height: old(self)@.height as usize,
            }),
        no_unwind
    {
        proof {
            use_type_invariant(&*self);
        }
        if x >= self.width || y >= self.height {
            return Err(OutOfBounds { x, y, width: self.width, height: self.height });
        }
        proof {
            lemma_cell_index_bounds(x as int, y as int, self.width as int, self.height as int);
            assert(self.cells@.len() == self.cells.len());
        }
        let index: usize = x * self.height + y;
        self.cells[index] = alive;
        proof {
            let before = old(self)@;
            let after = self@;
            assert forall|p: (int, int)|
                after.live.contains(p) == before.with_cell(x as int, y as int, alive).live.contains(
                    p,
                ) by {
                if 0 <= p.0 < self.width && 0 <= p.1 < self.height {
                    lemma_cell_index_bounds(p.0, p.1, self.width as int, self.height as int);
                    if cell_index(p.0, p.1, self.height as int) == index {
                        lemma_cell_index_injective(
                            p.0,
                            p.1,
                            x as int,
                            y as int,
                            self.height as int,
                        );
                    }
                }
            }
            assert(after.live =~= before.with_cell(x as int, y as int, alive).live);
        }
        Ok(())
    }

    /// Every cell of the board with its coordinate, column by column and each
    /// column from the top: the cell `(x, y)` comes at position
    /// `x * height + y`.
    pub fn iter_cells(&self) -> (cells: Vec<((usize, usize), bool)>)
        ensures
            cells@.len() == self@.cells().len(),
            forall|i: int|
                0 <= i < cells@.len() ==> cell_entry(#[trigger] cells@[i]) == self@.cells()[i],
    {
        proof {
            use_type_invariant(self);
        }
        let ghost expected = self@.cells();
        let mut cells: Vec<((usize, usize), bool)> = Vec::new();
        let mut x: usize = 0;
        while x < self.width
            invariant
                x <= self.width,
                self.buffer_matches_dimensions(),
                expected == self@.cells(),
                cells@.len() == cell_index(x as int, 0, self.height as int),
                forall|i: int| 0 <= i < cells@.len() ==> cell_entry(#[trigger] cells@[i]) == expected[i],
            decreases self.width - x,
        {
            let mut y: usize = 0;
            while y < self.height
                invariant
                    x < self.width,
                    y <= self.height,
                    self.buffer_matches_dimensions(),
                    expected == self@.cells(),
                    cells@.len() == cell_index(x as int, y as int, self.height as int),
                    forall|i: int|
                        0 <= i < cells@.len() ==> cell_entry(#[trigger] cells@[i]) == expected[i],
                decreases self.height - y,
            {
                proof {
                    lemma_cell_index_bounds(x as int, y as int, self.width as int, self.height as int);
                    lemma_cell_index_inverse(x as int, y as int, self.height as int);
                }
                let alive = self.cells[cells.len()];
                cells.push(((x, y), alive));
                y = y + 1;
            }
            proof {
                assert(cell_index(x as int, self.height as int, self.height as int) == cell_index(
                    x + 1,
                    0,
                    self.height as int,
                )) by (nonlinear_arith);
            }
            x = x + 1;
        }
        proof {
            assert(cell_index(self.width as int, 0, self.height as int) == self.width
                * self.height) by (nonlinear_arith);
        }
        cells
    }
}

} // verus!
