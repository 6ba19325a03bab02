use vstd::arithmetic::div_mod::{lemma_fundamental_div_mod, lemma_fundamental_div_mod_converse};
use vstd::prelude::*;

verus! {

/// The mathematical model of a bounded board: its dimensions and the set of
/// coordinates that hold a live cell.
pub ghost struct Grid {
    /// The number of columns.
    pub width: nat,
    /// The number of cells in a column.
    pub height: nat,
    /// The coordinates `(x, y)` of the live cells: `x` counts the columns
    /// from the left, `y` the cells of a column from the top.
    pub live: Set<(int, int)>,
}

impl Grid {
    /// Whether `(x, y)` names a cell of the board.
    pub open spec fn in_bounds(self, x: int, y: int) -> bool {
        0 <= x < self.width && 0 <= y < self.height
    }

    /// Every live cell lies on the board.
    pub open spec fn wf(self) -> bool {
        forall|x: int, y: int| #[trigger] self.live.contains((x, y)) ==> self.in_bounds(x, y)
    }

    /// Whether the cell at `(x, y)` is alive.
    pub open spec fn alive(self, x: int, y: int) -> bool {
        self.live.contains((x, y))
    }

    /// The board of the given dimensions on which nothing lives.
    pub open spec fn dead(width: nat, height: nat) -> Grid {
        Grid { width, height, live: Set::empty() }
    }

    /// One for a live cell at `(x, y)`, zero otherwise.
    pub open spec fn bit(self, x: int, y: int) -> nat {
        if self.alive(x, y) {
            1
        } else {
            0
        }
    }

    /// How many of the eight cells around `(x, y)` are alive.
    pub open spec fn live_neighbors(self, x: int, y: int) -> nat {
        self.bit(x - 1, y - 1) + self.bit(x - 1, y) + self.bit(x - 1, y + 1) + self.bit(x, y - 1)
            + self.bit(x, y + 1) + self.bit(x + 1, y - 1) + self.bit(x + 1, y) + self.bit(
            x + 1,
            y + 1,
        )
    }

    /// The rule of the game: a live cell stays alive with two or three live
    /// neighbours, a dead cell comes alive with exactly three.
    pub open spec fn rule(alive: bool, neighbors: nat) -> bool {
        if alive {
            neighbors == 2 || neighbors == 3
        } else {
            neighbors == 3
        }
    }

    /// Whether the cell at `(x, y)` is alive in the next generation.
    pub open spec fn next_alive(self, x: int, y: int) -> bool {
        Self::rule(self.alive(x, y), self.live_neighbors(x, y))
    }

    /// The next generation: the same board, each of its cells decided by the
    /// rule from this generation.
    pub open spec fn step(self) -> Grid {
        Grid {
            width: self.width,
            height: self.height,
            live: Set::new(|p: (int, int)| self.in_bounds(p.0, p.1) && self.next_alive(p.0, p.1)),
        }
    }

    /// The board of the given dimensions on which every cell lives.
    pub open spec fn full(width: nat, height: nat) -> Grid {
        Grid { width, height, live: Set::new(|p: (int, int)| 0 <= p.0 < width && 0 <= p.1 < height) }
    }

    /// The board on which a cell lives if the draw at its position is below
    /// `chance`. A cell whose position has no draw is dead.
    pub open spec fn from_draws(width: nat, height: nat, chance: int, draws: Seq<u32>) -> Grid {
        Grid {
            width,
            height,
            live: Set::new(
                |p: (int, int)|
                    0 <= p.0 < width && 0 <= p.1 < height && cell_index(p.0, p.1, height as int)
                        < draws.len() && draws[cell_index(p.0, p.1, height as int)] < chance,
            ),
        }
    }

    /// The cells in the order of the traversal: column by column, each column
    /// from the top, every cell with its coordinate and whether it is alive.
    pub open spec fn cells(self) -> Seq<((int, int), bool)> {
        Seq::new(
            self.width * self.height,
            |i: int|
                (
                    (i / self.height as int, i % self.height as int),
                    self.alive(i / self.height as int, i % self.height as int),
                ),
        )
    }

    /// The board with the cell at `(x, y)` set to `value`.
    pub open spec fn with_cell(self, x: int, y: int, value: bool) -> Grid {
        Grid {
            live: if value {
                self.live.insert((x, y))
            } else {
                self.live.remove((x, y))
            },
            ..self
        }
    }
}

/// Position of the cell `(x, y)` when the cells of a board of the given
/// height are counted column by column, each column from the top.
pub open spec fn cell_index(x: int, y: int, height: int) -> int {
    x * height + y
}

/// The cells of a board have the positions from zero up to the number of
/// cells.
pub proof fn lemma_cell_index_bounds(x: int, y: int, width: int, height: int)
    by (nonlinear_arith)
    requires
        0 <= x < width,
        0 <= y < height,
    ensures
        0 <= x * height <= cell_index(x, y, height) < width * height,
{
    assert(x * height + y <= (width - 1) * height + (height - 1));
}

/// Distinct cells have distinct positions.
pub proof fn lemma_cell_index_injective(x1: int, y1: int, x2: int, y2: int, height: int)
    by (nonlinear_arith)
    requires
        0 <= y1 < height,
        0 <= y2 < height,
        cell_index(x1, y1, height) == cell_index(x2, y2, height),
    ensures
        x1 == x2,
        y1 == y2,
{
    if x1 < x2 {
        assert(x1 * height + height <= x2 * height);
    } else if x2 < x1 {
        assert(x2 * height + height <= x1 * height);
    }
}

/// The cell at a position is the one whose position it is.
pub proof fn lemma_cell_index_inverse(x: int, y: int, height: int)
    requires
        0 <= y < height,
    ensures
        cell_index(x, y, height) / height == x,
        cell_index(x, y, height) % height == y,
{
    lemma_fundamental_div_mod_converse(cell_index(x, y, height), height, x, y);
}

/// The rule of the game, case by case. A cell has at most eight live
/// neighbours. A live cell survives with exactly two or three of them and
/// dies with any other number; a dead cell comes alive with exactly three
/// and stays dead otherwise.
pub proof fn lemma_rule_of_life(grid: Grid, x: int, y: int)
    ensures
        grid.live_neighbors(x, y) <= 8,
        grid.alive(x, y) && (grid.live_neighbors(x, y) == 2 || grid.live_neighbors(x, y) == 3)
            ==> grid.next_alive(x, y),
        grid.alive(x, y) && (grid.live_neighbors(x, y) < 2 || grid.live_neighbors(x, y) > 3)
            ==> !grid.next_alive(x, y),
        !grid.alive(x, y) && grid.live_neighbors(x, y) == 3 ==> grid.next_alive(x, y),
        !grid.alive(x, y) && grid.live_neighbors(x, y) != 3 ==> !grid.next_alive(x, y),
{
}

/// Nothing lives outside the board: a coordinate that is negative or past
/// the last column or row is dead, and adds nothing to the count of live
/// neighbours of any cell.
pub proof fn lemma_outside_is_dead(grid: Grid, x: int, y: int)
    requires
        grid.wf(),
        !grid.in_bounds(x, y),
    ensures
        !grid.alive(x, y),
        grid.bit(x, y) == 0,
{
}

/// The live neighbours of a cell are those of its neighbours on the board:
/// the count is the same on every well-formed board that agrees with this
/// one on the cells of the board around `(x, y)`.
pub proof fn lemma_neighbors_on_board(grid: Grid, other: Grid, x: int, y: int)
    requires
        grid.wf(),
        other.wf(),
        other.width == grid.width,
        other.height == grid.height,
        forall|a: int, b: int|
            x - 1 <= a <= x + 1 && y - 1 <= b <= y + 1 && grid.in_bounds(a, b) ==> grid.alive(a, b)
                == other.alive(a, b),
    ensures
        grid.live_neighbors(x, y) == other.live_neighbors(x, y),
{
    assert forall|a: int, b: int| x - 1 <= a <= x + 1 && y - 1 <= b <= y + 1 implies grid.bit(a, b)
        == other.bit(a, b) by {
        if !grid.in_bounds(a, b) {
            lemma_outside_is_dead(grid, a, b);
            lemma_outside_is_dead(other, a, b);
        }
    }
}

/// A generation has the board of the one before it: the same dimensions,
/// and nothing alive outside them. A cell of it lives as the rule decides.
pub proof fn lemma_step_keeps_board(grid: Grid)
    ensures
        grid.step().width == grid.width,
        grid.step().height == grid.height,
        grid.step().wf(),
        forall|x: int, y: int|
            #[trigger] grid.step().alive(x, y) <==> grid.in_bounds(x, y) && grid.next_alive(x, y),
{
}

/// Setting a cell of the board changes that cell and no other, and keeps
/// the board.
pub proof fn lemma_with_cell(grid: Grid, x: int, y: int, value: bool)
    requires
        grid.wf(),
        grid.in_bounds(x, y),
    ensures
        grid.with_cell(x, y, value).wf(),
        grid.with_cell(x, y, value).width == grid.width,
        grid.with_cell(x, y, value).height == grid.height,
        grid.with_cell(x, y, value).alive(x, y) == value,
        forall|a: int, b: int|
            (a, b) != (x, y) ==> #[trigger] grid.with_cell(x, y, value).alive(a, b) == grid.alive(
                a,
                b,
            ),
{
}

/// The traversal visits every cell of the board exactly once: the cell
/// `(x, y)` stands at position `x * height + y` and at no other.
pub proof fn lemma_cells_cover_once(grid: Grid, x: int, y: int)
    requires
        grid.in_bounds(x, y),
    ensures
        0 <= cell_index(x, y, grid.height as int) < grid.cells().len(),
        grid.cells()[cell_index(x, y, grid.height as int)] == ((x, y), grid.alive(x, y)),
        forall|i: int|
            0 <= i < grid.cells().len() && (#[trigger] grid.cells()[i]).0 == (x, y) ==> i
                == cell_index(x, y, grid.height as int),
{
    let height = grid.height as int;
    lemma_cell_index_bounds(x, y, grid.width as int, height);
    lemma_cell_index_inverse(x, y, height);
    assert forall|i: int|
        0 <= i < grid.cells().len() && (#[trigger] grid.cells()[i]).0 == (x, y) implies i
        == cell_index(x, y, height) by {
        lemma_fundamental_div_mod(i, height);
        assert(height * (i / height) == (i / height) * height) by (nonlinear_arith);
    }
}

/// Every item of the traversal is a cell of the board.
pub proof fn lemma_cells_on_board(grid: Grid, i: int)
    requires
        0 <= i < grid.cells().len(),
    ensures
        grid.in_bounds(grid.cells()[i].0.0, grid.cells()[i].0.1),
        i == cell_index(grid.cells()[i].0.0, grid.cells()[i].0.1, grid.height as int),
{
    let width = grid.width as int;
    let height = grid.height as int;
    assert(height > 0) by (nonlinear_arith)
        requires
            0 <= i < width * height,
            0 <= width,
            0 <= height,
    ;
    lemma_fundamental_div_mod(i, height);
    assert(0 <= i / height < width) by (nonlinear_arith)
        requires
            0 <= i < width * height,
            height > 0,
            i == height * (i / height) + i % height,
            0 <= i % height < height,
    ;
    assert(height * (i / height) == (i / height) * height) by (nonlinear_arith);
}

} // verus!
