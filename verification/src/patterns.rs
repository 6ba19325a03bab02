use vstd::prelude::*;
use crate::grid::Grid;

verus! {

/// The board of the given dimensions on which exactly the given cells live.
pub open spec fn board_with(width: nat, height: nat, live: Set<(int, int)>) -> Grid {
    Grid { width, height, live }
}

/// The block: four cells in a square, the first of them at `(x, y)`.
pub open spec fn block(x: int, y: int) -> Set<(int, int)> {
    set![(x, y), (x + 1, y), (x, y + 1), (x + 1, y + 1)]
}

/// The blinker standing upright: three cells in the column of `(x, y)`, that
/// cell in the middle.
pub open spec fn upright_blinker(x: int, y: int) -> Set<(int, int)> {
    set![(x, y - 1), (x, y), (x, y + 1)]
}

/// The blinker lying down: three cells in the row of `(x, y)`, that cell in
/// the middle.
pub open spec fn lying_blinker(x: int, y: int) -> Set<(int, int)> {
    set![(x - 1, y), (x, y), (x + 1, y)]
}

/// A block on an otherwise dead board is a still life: the next generation
/// is the same board.
pub proof fn lemma_block_is_still_life(width: nat, height: nat, x: int, y: int)
    requires
        0 <= x,
        x + 1 < width,
        0 <= y,
        y + 1 < height,
    ensures
        board_with(width, height, block(x, y)).step() == board_with(width, height, block(x, y)),
{
    let board = board_with(width, height, block(x, y));
    assert forall|p: (int, int)| board.step().live.contains(p) == board.live.contains(p) by {
        lemma_neighbors_of_block(board, x, y, p.0, p.1);
    }
    assert(board.step().live =~= board.live);
}

/// Around a block: each of its cells has three live neighbours, and no dead
/// cell has three.
proof fn lemma_neighbors_of_block(board: Grid, x: int, y: int, a: int, b: int)
    requires
        board.live == block(x, y),
    ensures
        board.alive(a, b) ==> board.live_neighbors(a, b) == 3,
        !board.alive(a, b) ==> board.live_neighbors(a, b) != 3,
        board.alive(a, b) <==> x <= a <= x + 1 && y <= b <= y + 1,
{
}

/// A blinker on an otherwise dead board oscillates with period two: the
/// upright one lies down in the next generation, and the lying one stands
/// up again. The blinker needs a column to its left and to its right, and a
/// row above and below.
pub proof fn lemma_blinker_oscillates(width: nat, height: nat, x: int, y: int)
    requires
        1 <= x,
        x + 1 < width,
        1 <= y,
        y + 1 < height,
    ensures
        board_with(width, height, upright_blinker(x, y)).step() == board_with(
            width,
            height,
            lying_blinker(x, y),
        ),
        board_with(width, height, lying_blinker(x, y)).step() == board_with(
            width,
            height,
            upright_blinker(x, y),
        ),
        board_with(width, height, upright_blinker(x, y)).step().step() == board_with(
            width,
            height,
            upright_blinker(x, y),
        ),
{
    let upright = board_with(width, height, upright_blinker(x, y));
    let lying = board_with(width, height, lying_blinker(x, y));
    assert forall|p: (int, int)| upright.step().live.contains(p) == lying.live.contains(p) by {
        lemma_next_of_upright_blinker(upright, x, y, p.0, p.1);
    }
    assert(upright.step().live =~= lying.live);
    assert forall|p: (int, int)| lying.step().live.contains(p) == upright.live.contains(p) by {
        lemma_next_of_lying_blinker(lying, x, y, p.0, p.1);
    }
    assert(lying.step().live =~= upright.live);
}

/// Which cells live after an upright blinker: those of the lying one.
proof fn lemma_next_of_upright_blinker(board: Grid, x: int, y: int, a: int, b: int)
    requires
        board.live == upright_blinker(x, y),
    ensures
        board.next_alive(a, b) <==> x - 1 <= a <= x + 1 && b == y,
        lying_blinker(x, y).contains((a, b)) <==> x - 1 <= a <= x + 1 && b == y,
{
}

/// Which cells live after a lying blinker: those of the upright one.
proof fn lemma_next_of_lying_blinker(board: Grid, x: int, y: int, a: int, b: int)
    requires
        board.live == lying_blinker(x, y),
    ensures
        board.next_alive(a, b) <==> a == x && y - 1 <= b <= y + 1,
        upright_blinker(x, y).contains((a, b)) <==> a == x && y - 1 <= b <= y + 1,
{
}

} // verus!
