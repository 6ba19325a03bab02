use rand::Rng;
use vstd::prelude::*;
use crate::grid::{cell_index, lemma_cell_index_bounds, Grid};
use crate::matrix::GameMatrix;

verus! {

/// The scale of a chance: a chance of `CHANCE_SCALE` is certainty, one of
/// zero is impossibility. A larger chance counts as certainty.
pub const CHANCE_SCALE: u32 = 1_000_000;

/// Calls `rand::Rng::gen_range` on `rand::thread_rng()` with the half-open
/// range from zero to `bound`. The contract claims that the number lies in
/// that range, and nothing about which number it is. An empty range, on which
/// `gen_range` panics, is excluded. Not covered is a system that gives the
/// thread's generator no entropy to start from: there `thread_rng` panics.
#[verifier::external_body]
fn random_below(bound: u32) -> (draw: u32)
    requires
        bound > 0,
    ensures
        draw < bound,
{
    rand::thread_rng().gen_range(0..bound)
}

/// Draws `count` numbers below `CHANCE_SCALE` from the thread's generator.
fn random_draws(count: usize) -> (draws: Vec<u32>)
    ensures
        draws@.len() == count,
        forall|i: int| 0 <= i < count ==> #[trigger] draws@[i] < CHANCE_SCALE,
{
    let mut draws: Vec<u32> = Vec::new();
    while draws.len() < count
        invariant
            draws@.len() <= count,
            forall|i: int| 0 <= i < draws@.len() ==> #[trigger] draws@[i] < CHANCE_SCALE,
        decreases count - draws@.len(),
    {
        let draw = random_below(CHANCE_SCALE);
        draws.push(draw);
    }
    draws
}

/// Builds the board that a sequence of draws decides: the cell at `(x, y)`
/// lives if the draw at position `x * height + y` is below `fill_factor`.
/// Where the draws run out, the cells are dead. The number of cells has to
/// be one that a `usize` holds.
pub fn init_game_state_from_draws(
    width: usize,
    height: usize,
    fill_factor: u32,
    draws: &Vec<u32>,
) -> (state: GameMatrix)
    requires
        width * height <= usize::MAX,
    ensures
        state@ == Grid::from_draws(width as nat, height as nat, fill_factor as int, draws@),
{
    let mut state = GameMatrix::new(width, height);
    let ghost target = Grid::from_draws(width as nat, height as nat, fill_factor as int, draws@);
    let mut index: usize = 0;
    let mut x: usize = 0;
    while x < width
        invariant
            x <= width,
            width * height <= usize::MAX,
            index == cell_index(x as int, 0, height as int),
            target == Grid::from_draws(width as nat, height as nat, fill_factor as int, draws@),
            state@.width == width,
            state@.height == height,
            forall|a: int, b: int|
                #[trigger] state@.live.contains((a, b)) <==> 0 <= a < x && target.live.contains(
                    (a, b),
                ),
        decreases width - x,
    {
        let mut y: usize = 0;
        while y < height
            invariant
                x < width,
                y <= height,
                width * height <= usize::MAX,
                index == cell_index(x as int, y as int, height as int),
                target == Grid::from_draws(width as nat, height as nat, fill_factor as int, draws@),
                state@.width == width,
                state@.height == height,
                forall|a: int, b: int|
                    #[trigger] state@.live.contains((a, b)) <==> (0 <= a < x || a == x && 0 <= b
                        < y) && target.live.contains((a, b)),
            decreases height - y,
        {
            proof {
                lemma_cell_index_bounds(x as int, y as int, width as int, height as int);
            }
            let alive = index < draws.len() && draws[index] < fill_factor;
            let _ = state.try_set_alive(x, y, alive);
            index = index + 1;
            y = y + 1;
        }
        proof {
            assert(cell_index(x as int, height as int, height as int) == cell_index(
                x + 1,
                0,
                height as int,
            )) by (nonlinear_arith);
        }
        x = x + 1;
    }
    proof {
        assert forall|p: (int, int)| state@.live.contains(p) == target.live.contains(p) by {
            assert(p == (p.0, p.1));
        }
        assert(state@.live =~= target.live);
    }
    state
}

/// What the draws cannot change: with a chance of zero nothing lives, and
/// with a chance that no draw reaches every cell lives that has a draw.
pub proof fn lemma_from_draws_extremes(width: nat, height: nat, chance: int, draws: Seq<u32>)
    ensures
        Grid::from_draws(width, height, chance, draws).wf(),
        chance <= 0 ==> Grid::from_draws(width, height, chance, draws) == Grid::dead(width, height),
        draws.len() >= width * height && (forall|i: int|
            0 <= i < draws.len() ==> #[trigger] draws[i] < chance) ==> Grid::from_draws(
            width,
            height,
            chance,
            draws,
        ) == Grid::full(width, height),
{
    let seeded = Grid::from_draws(width, height, chance, draws);
    if chance <= 0 {
        assert(seeded.live =~= Grid::dead(width, height).live);
    }
    if draws.len() >= width * height && (forall|i: int|
        0 <= i < draws.len() ==> #[trigger] draws[i] < chance) {
        assert forall|p: (int, int)|
            seeded.live.contains(p) == Grid::full(width, height).live.contains(p) by {
            if 0 <= p.0 < width && 0 <= p.1 < height {
                lemma_cell_index_bounds(p.0, p.1, width as int, height as int);
            }
        }
        assert(seeded.live =~= Grid::full(width, height).live);
    }
}

/// Builds a board on which each cell lives with a chance of `fill_factor`
/// in `CHANCE_SCALE`, each decided by a draw of its own from the thread's
/// generator. With a chance of zero nothing lives; with certainty every
/// cell does. The number of cells has to be one that a `usize` holds.
pub fn init_random_game_state(width: usize, height: usize, fill_factor: u32) -> (state: GameMatrix)
    requires
        width * height <= usize::MAX,
    ensures
        state@.width == width,
        state@.height == height,
        state@.wf(),
        fill_factor == 0 ==> state@ == Grid::dead(width as nat, height as nat),
        fill_factor >= CHANCE_SCALE ==> state@ == Grid::full(width as nat, height as nat),
{
    let draws = random_draws(width * height);
    proof {
        lemma_from_draws_extremes(width as nat, height as nat, fill_factor as int, draws@);
    }
    init_game_state_from_draws(width, height, fill_factor, &draws)
}

} // verus!
