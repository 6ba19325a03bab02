use game_of_life::matrix::GameMatrix;
use game_of_life::seed::{init_game_state_from_draws, init_random_game_state, CHANCE_SCALE};

fn live_cells(board: &GameMatrix) -> Vec<(usize, usize)> {
    let mut live = Vec::new();
    for x in 0..board.width() {
        for y in 0..board.height() {
            if board.is_cell_alive(x, y) {
                live.push((x, y));
            }
        }
    }
    live
}

#[test]
fn chance_of_zero_seeds_a_dead_board() {
    let board = init_random_game_state(20, 15, 0);
    assert_eq!((board.width(), board.height()), (20, 15));
    assert_eq!(live_cells(&board), vec![]);
}

#[test]
fn certainty_seeds_a_full_board() {
    let board = init_random_game_state(20, 15, CHANCE_SCALE);
    assert_eq!((board.width(), board.height()), (20, 15));
    assert_eq!(live_cells(&board).len(), 300);
    assert!(board.iter_cells().iter().all(|entry| entry.1));
}

#[test]
fn chance_above_the_scale_counts_as_certainty() {
    let board = init_random_game_state(7, 9, CHANCE_SCALE + 1);
    assert_eq!(live_cells(&board).len(), 63);
    let board = init_random_game_state(7, 9, u32::MAX);
    assert_eq!(live_cells(&board).len(), 63);
}

#[test]
fn seeded_fraction_is_plausible() {
    for &(chance, low, high) in
        &[(100_000u32, 0.07f64, 0.13f64), (500_000, 0.46, 0.54), (900_000, 0.87, 0.93)]
    {
        let mut alive = 0usize;
        let mut total = 0usize;
        for _ in 0..5 {
            let board = init_random_game_state(100, 100, chance);
            alive += live_cells(&board).len();
            total += 100 * 100;
        }
        let fraction = alive as f64 / total as f64;
        assert!(low < fraction && fraction < high);
    }
}

#[test]
fn two_seedings_differ() {
    let first = init_random_game_state(64, 64, 500_000);
    let second = init_random_game_state(64, 64, 500_000);
    assert_ne!(first.iter_cells(), second.iter_cells());
}

#[test]
fn seeding_boards_without_cells() {
    let board = init_random_game_state(0, 9, 500_000);
    assert_eq!((board.width(), board.height()), (0, 9));
    let board = init_random_game_state(9, 0, 500_000);
    assert_eq!((board.width(), board.height()), (9, 0));
}

#[test]
fn draws_decide_the_cells_column_by_column() {
    let draws = vec![0, 99_999, 100_000, 100_001, 999_999, 5];
    let board = init_game_state_from_draws(2, 3, 100_000, &draws);
    assert_eq!((board.width(), board.height()), (2, 3));
    assert_eq!(live_cells(&board), vec![(0, 0), (0, 1), (1, 2)]);
    let board = init_game_state_from_draws(3, 2, 100_000, &draws);
    assert_eq!(live_cells(&board), vec![(0, 0), (0, 1), (2, 1)]);
    let board = init_game_state_from_draws(3, 2, 0, &draws);
    assert_eq!(live_cells(&board), vec![]);
    let board = init_game_state_from_draws(3, 2, CHANCE_SCALE, &draws);
    assert_eq!(live_cells(&board).len(), 6);
}

#[test]
fn cells_without_a_draw_are_dead() {
    let draws = vec![1, 1, 1, 1];
    let board = init_game_state_from_draws(3, 2, 2, &draws);
    assert_eq!(live_cells(&board), vec![(0, 0), (0, 1), (1, 0), (1, 1)]);
    let board = init_game_state_from_draws(3, 2, 2, &vec![]);
    assert_eq!(live_cells(&board), vec![]);
    let long = vec![1, 1, 1, 1, 1, 1, 1, 1];
    let board = init_game_state_from_draws(3, 2, 2, &long);
    assert_eq!(live_cells(&board).len(), 6);
}
