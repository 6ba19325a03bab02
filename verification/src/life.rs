use vstd::prelude::*;
use crate::matrix::GameMatrix;

verus! {

/// One if both coordinates exist and the cell they name is alive, zero
/// otherwise. A missing coordinate stands for one step past the range of
/// `usize`, where no board has a cell.
fn count_if_alive(state: &GameMatrix, maybe_x: Option<usize>, maybe_y: Option<usize>) -> (count:
    u8)
    ensures
        count == match (maybe_x, maybe_y) {
            (Some(x), Some(y)) => state@.bit(x as int, y as int),
            _ => 0,
        },
{
    match (maybe_x, maybe_y) {
        (Some(x), Some(y)) => {
            if state.is_cell_alive(x, y) {
                1
            } else {
                0
            }
        },
        _ => 0,
    }
}

/// Decides whether the cell is alive in the next generation: a live cell
/// needs two or three live cells among the eight around it, a dead cell
/// exactly three. Neighbours outside the board count as dead.
pub fn should_cell_be_alive(state: &GameMatrix, cell: (usize, usize)) -> (alive: bool)
    ensures
        alive == state@.next_alive(cell.0 as int, cell.1 as int),
{
    let (x, y) = cell;

    let left_coord = x.checked_sub(1);
    let right_coord = x.checked_add(1);
    let top_coord = y.checked_sub(1);
    let bottom_coord = y.checked_add(1);

    proof {
        state.lemma_view_wf();
    }
    let neighbors_alive: u8 = count_if_alive(state, left_coord, top_coord) + count_if_alive(
        state,
        left_coord,
        Some(y),
    ) + count_if_alive(state, left_coord, bottom_coord) + count_if_alive(state, Some(x), top_coord)
        + count_if_alive(state, Some(x), bottom_coord) + count_if_alive(
        state,
        right_coord,
        top_coord,
    ) + count_if_alive(state, right_coord, Some(y)) + count_if_alive(
        state,
        right_coord,
        bottom_coord,
    );

    if state.is_cell_alive(x, y) {
        !(neighbors_alive < 2 || neighbors_alive > 3)
    } else {
        neighbors_alive == 3
    }
}

/// Computes the next generation on a fresh board, so that every cell is
/// decided from the generation that was handed in.
pub fn make_next_sim_state(game_matrix: &GameMatrix) -> (next: GameMatrix)
    ensures
        next@ == game_matrix@.step(),
        next@.width == game_matrix@.width,
        next@.height == game_matrix@.height,
        next@.wf(),
{
    let width = game_matrix.width();
    let height = game_matrix.height();
    proof {
        use_type_invariant(game_matrix);
        game_matrix.lemma_dimensions_fit();
    }
    let mut next = GameMatrix::new(width, height);
    let ghost current = game_matrix@;

    let mut x: usize = 0;
    while x < width
        invariant
            x <= width,
            current == game_matrix@,
            width == current.width,
            height == current.height,
            next@.width == width,
            next@.height == height,
            forall|a: int, b: int|
                #[trigger] next@.live.contains((a, b)) <==> 0 <= a < x && 0 <= b < height
                    && current.next_alive(a, b),
        decreases width - x,
    {
        let mut y: usize = 0;
        while y < height
            invariant
                x < width,
                y <= height,
                current == game_matrix@,
                width == current.width,
                height == current.height,
                next@.width == width,
                next@.height == height,
                forall|a: int, b: int|
                    #[trigger] next@.live.contains((a, b)) <==> (0 <= a < x && 0 <= b < height || a
                        == x && 0 <= b < y) && current.next_alive(a, b),
            decreases height - y,
        {
            let alive = should_cell_be_alive(game_matrix, (x, y));
            let _ = next.try_set_alive(x, y, alive);
            y = y + 1;
        }
        x = x + 1;
    }
    proof {
        assert forall|p: (int, int)|
            next@.live.contains(p) == current.step().live.contains(p) by {
            assert(p == (p.0, p.1));
        }
        assert(next@.live =~= current.step().live);
        next.lemma_view_wf();
    }
    next
}

/// The next generation depends on nothing but the cells of the board: two
/// boards that hold the same cells have the same next generation.
pub proof fn lemma_next_sim_state_is_determined(first: GameMatrix, second: GameMatrix)
    requires
        first@ == second@,
    ensures
        first@.step() == second@.step(),
        first@.step().width == first@.width,
        first@.step().height == first@.height,
{
}

} // verus!
