use game_of_life::life::{make_next_sim_state, should_cell_be_alive};
use game_of_life::matrix::GameMatrix;

fn board_with(width: usize, height: usize, live: &[(usize, usize)]) -> GameMatrix {
    let mut board = GameMatrix::new(width, height);
    for &(x, y) in live {
        assert_eq!(board.try_set_alive(x, y, true), Ok(()));
    }
    board
}

fn live_cells(board: &GameMatrix) -> Vec<(usize, usize)> {
    let mut live = Vec::new();
    for x in 0..board.width() {
        for y in 0..board.height() {
            if board.is_cell_alive(x, y) {
                live.push((x, y));
            }
        }
    }
    live
}

#[test]
fn rule_holds_for_every_neighbourhood() {
    for pattern in 0u32..512 {
        let mut board = GameMatrix::new(3, 3);
        let mut neighbours = 0;
        for x in 0..3usize {
            for y in 0..3usize {
                if pattern & (1 << (x * 3 + y)) != 0 {
                    assert_eq!(board.try_set_alive(x, y, true), Ok(()));
                    if (x, y) != (1, 1) {
                        neighbours += 1;
                    }
                }
            }
        }
        let expected = if board.is_cell_alive(1, 1) {
            neighbours == 2 || neighbours == 3
        } else {
            neighbours == 3
        };
        assert_eq!(should_cell_be_alive(&board, (1, 1)), expected);
    }
}

#[test]
fn rule_holds_inside_a_larger_board() {
    for pattern in 0u32..512 {
        let mut board = GameMatrix::new(6, 5);
        let mut neighbours = 0;
        for dx in 0..3usize {
            for dy in 0..3usize {
                if pattern & (1 << (dx * 3 + dy)) != 0 {
                    assert_eq!(board.try_set_alive(2 + dx, 1 + dy, true), Ok(()));
                    if (dx, dy) != (1, 1) {
                        neighbours += 1;
                    }
                }
            }
        }
        let expected = if board.is_cell_alive(3, 2) {
            neighbours == 2 || neighbours == 3
        } else {
            neighbours == 3
        };
        assert_eq!(should_cell_be_alive(&board, (3, 2)), expected);
    }
}

#[test]
fn live_cell_survives_with_two_or_three_neighbours_only() {
    let around = [(0, 0), (0, 1), (0, 2), (1, 0), (1, 2), (2, 0), (2, 1), (2, 2)];
    for count in 0..=8usize {
        let mut board = board_with(3, 3, &[(1, 1)]);
        for &(x, y) in &around[..count] {
            assert_eq!(board.try_set_alive(x, y, true), Ok(()));
        }
        assert_eq!(should_cell_be_alive(&board, (1, 1)), count == 2 || count == 3);
    }
}

#[test]
fn dead_cell_comes_alive_with_three_neighbours_only() {
    let around = [(2, 2), (2, 1), (2, 0), (1, 2), (1, 0), (0, 2), (0, 1), (0, 0)];
    for count in 0..=8usize {
        let board = board_with(3, 3, &around[..count]);
        assert_eq!(should_cell_be_alive(&board, (1, 1)), count == 3);
    }
}

#[test]
fn cells_at_the_edge_have_no_neighbours_outside() {
    let full = board_with(3, 3, &[
        (0, 0), (0, 1), (0, 2), (1, 0), (1, 1), (1, 2), (2, 0), (2, 1), (2, 2),
    ]);
    // A corner has three neighbours, a cell on an edge five, the middle eight.
    assert!(should_cell_be_alive(&full, (0, 0)));
    assert!(should_cell_be_alive(&full, (2, 0)));
    assert!(should_cell_be_alive(&full, (0, 2)));
    assert!(should_cell_be_alive(&full, (2, 2)));
    assert!(!should_cell_be_alive(&full, (1, 0)));
    assert!(!should_cell_be_alive(&full, (0, 1)));
    assert!(!should_cell_be_alive(&full, (2, 1)));
    assert!(!should_cell_be_alive(&full, (1, 2)));
    assert!(!should_cell_be_alive(&full, (1, 1)));
}

#[test]
fn the_board_does_not_wrap_around() {
    // On a torus (0, 1) would have the three cells of the last column as neighbours.
    let board = board_with(4, 3, &[(3, 0), (3, 1), (3, 2)]);
    assert!(!should_cell_be_alive(&board, (0, 1)));
    assert!(should_cell_be_alive(&board, (2, 1)));
    let board = board_with(3, 4, &[(0, 3), (1, 3), (2, 3)]);
    assert!(!should_cell_be_alive(&board, (1, 0)));
    assert!(should_cell_be_alive(&board, (1, 2)));
}

#[test]
fn rule_outside_the_board_counts_like_a_dead_cell() {
    let board = board_with(3, 3, &[(2, 0), (2, 1), (2, 2)]);
    assert!(should_cell_be_alive(&board, (3, 1)));
    assert!(!should_cell_be_alive(&board, (3, 0)));
    assert!(!should_cell_be_alive(&board, (4, 1)));
    assert!(!should_cell_be_alive(&board, (usize::MAX, usize::MAX)));
    assert!(!should_cell_be_alive(&board, (usize::MAX, 1)));
    assert!(!should_cell_be_alive(&board, (1, usize::MAX)));
}

#[test]
fn next_generation_leaves_the_input_alone() {
    let board = board_with(5, 4, &[(1, 0), (1, 1), (1, 2), (4, 3)]);
    let before = board.iter_cells();
    let next = make_next_sim_state(&board);
    assert_eq!(board.iter_cells(), before);
    assert_eq!(next.width(), 5);
    assert_eq!(next.height(), 4);
    assert_eq!(next.iter_cells().len(), 20);
}

#[test]
fn next_generation_is_the_same_every_time() {
    let board = board_with(6, 6, &[(1, 2), (2, 3), (3, 1), (3, 2), (3, 3), (5, 5)]);
    let first = make_next_sim_state(&board);
    let second = make_next_sim_state(&board);
    assert_eq!(first.iter_cells(), second.iter_cells());
    assert_eq!(live_cells(&first), vec![(2, 1), (2, 3), (3, 2), (3, 3), (4, 2)]);
}

#[test]
fn next_generation_of_boards_without_cells() {
    let narrow = make_next_sim_state(&GameMatrix::new(0, 3));
    assert_eq!((narrow.width(), narrow.height()), (0, 3));
    let flat = make_next_sim_state(&GameMatrix::new(3, 0));
    assert_eq!((flat.width(), flat.height()), (3, 0));
    let single = make_next_sim_state(&board_with(1, 1, &[(0, 0)]));
    assert_eq!(live_cells(&single), vec![]);
}

#[test]
fn block_is_a_still_life() {
    let block = [(1, 1), (1, 2), (2, 1), (2, 2)];
    let board = board_with(4, 4, &block);
    let next = make_next_sim_state(&board);
    assert_eq!(live_cells(&next), block.to_vec());
    assert_eq!(next.iter_cells(), board.iter_cells());
}

#[test]
fn block_in_the_corner_is_a_still_life() {
    let block = [(0, 0), (0, 1), (1, 0), (1, 1)];
    let board = board_with(2, 2, &block);
    let next = make_next_sim_state(&board);
    assert_eq!(live_cells(&next), block.to_vec());
}

#[test]
fn blinker_oscillates_with_period_two() {
    let upright = [(1, 0), (1, 1), (1, 2)];
    let lying = [(0, 1), (1, 1), (2, 1)];
    let board = board_with(3, 3, &upright);
    let once = make_next_sim_state(&board);
    assert_eq!(live_cells(&once), lying.to_vec());
    let twice = make_next_sim_state(&once);
    assert_eq!(live_cells(&twice), upright.to_vec());
    assert_eq!(twice.iter_cells(), board.iter_cells());
}

#[test]
fn blinker_oscillates_on_a_larger_board() {
    let upright = [(2, 1), (2, 2), (2, 3)];
    let lying = [(1, 2), (2, 2), (3, 2)];
    let board = board_with(5, 5, &upright);
    let once = make_next_sim_state(&board);
    assert_eq!(live_cells(&once), lying.to_vec());
    let twice = make_next_sim_state(&once);
    assert_eq!(live_cells(&twice), upright.to_vec());
}

#[test]
fn lone_cells_die() {
    let board = board_with(3, 3, &[(0, 0), (2, 2)]);
    assert_eq!(live_cells(&make_next_sim_state(&board)), vec![]);
}
