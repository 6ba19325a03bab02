use game_of_life::matrix::{GameMatrix, OutOfBounds};

fn board_with(width: usize, height: usize, live: &[(usize, usize)]) -> GameMatrix {
    let mut board = GameMatrix::new(width, height);
    for &(x, y) in live {
        assert_eq!(board.try_set_alive(x, y, true), Ok(()));
    }
    board
}

fn live_cells(board: &GameMatrix) -> Vec<(usize, usize)> {
    let mut live = Vec::new();
    for x in 0..board.width() {
        for y in 0..board.height() {
            if board.is_cell_alive(x, y) {
                live.push((x, y));
            }
        }
    }
    live
}

#[test]
fn new_board_has_its_dimensions_and_is_dead() {
    let board = GameMatrix::new(3, 2);
    assert_eq!(board.width(), 3);
    assert_eq!(board.height(), 2);
    assert_eq!(live_cells(&board), vec![]);
}

#[test]
fn board_without_cells_can_be_made_and_read() {
    let narrow = GameMatrix::new(0, 5);
    assert_eq!(narrow.width(), 0);
    assert_eq!(narrow.height(), 5);
    assert!(!narrow.is_cell_alive(0, 0));
    assert_eq!(narrow.iter_cells(), vec![]);
    let flat = GameMatrix::new(4, 0);
    assert_eq!(flat.width(), 4);
    assert_eq!(flat.height(), 0);
    assert!(!flat.is_cell_alive(0, 0));
    assert_eq!(flat.iter_cells(), vec![]);
}

#[test]
fn set_alive_changes_exactly_one_cell() {
    let mut board = GameMatrix::new(4, 3);
    assert_eq!(board.try_set_alive(2, 1, true), Ok(()));
    assert_eq!(live_cells(&board), vec![(2, 1)]);
    assert_eq!(board.try_set_alive(3, 2, true), Ok(()));
    assert_eq!(live_cells(&board), vec![(2, 1), (3, 2)]);
    assert_eq!(board.try_set_alive(2, 1, false), Ok(()));
    assert_eq!(live_cells(&board), vec![(3, 2)]);
    assert_eq!(board.try_set_alive(3, 2, true), Ok(()));
    assert_eq!(live_cells(&board), vec![(3, 2)]);
}

#[test]
fn neighbouring_cells_do_not_share_storage() {
    // (0, 2) and (1, 0) are neighbours in the buffer of a board of height 3.
    let mut board = GameMatrix::new(2, 3);
    assert_eq!(board.try_set_alive(0, 2, true), Ok(()));
    assert!(!board.is_cell_alive(1, 0));
    assert_eq!(board.try_set_alive(1, 0, true), Ok(()));
    assert_eq!(board.try_set_alive(0, 2, false), Ok(()));
    assert!(board.is_cell_alive(1, 0));
    assert!(!board.is_cell_alive(0, 2));
}

#[test]
fn reads_outside_the_board_are_dead() {
    let board = board_with(3, 2, &[(0, 0), (1, 0), (2, 0), (0, 1), (1, 1), (2, 1)]);
    assert!(board.is_cell_alive(2, 1));
    assert!(!board.is_cell_alive(3, 0));
    assert!(!board.is_cell_alive(0, 2));
    assert!(!board.is_cell_alive(3, 2));
    assert!(!board.is_cell_alive(usize::MAX, 0));
    assert!(!board.is_cell_alive(0, usize::MAX));
    assert!(!board.is_cell_alive(usize::MAX, usize::MAX));
    // One column further the position in the buffer would be that of (1, 0).
    let sparse = board_with(3, 2, &[(1, 0)]);
    assert!(!sparse.is_cell_alive(0, 2));
}

#[test]
fn writes_outside_the_board_fail_and_change_nothing() {
    let mut board = board_with(3, 2, &[(0, 0), (2, 1)]);
    assert_eq!(
        board.try_set_alive(3, 0, true),
        Err(OutOfBounds { x: 3, y: 0, width: 3, height: 2 })
    );
    assert_eq!(live_cells(&board), vec![(0, 0), (2, 1)]);
    assert_eq!(
        board.try_set_alive(0, 2, true),
        Err(OutOfBounds { x: 0, y: 2, width: 3, height: 2 })
    );
    assert_eq!(live_cells(&board), vec![(0, 0), (2, 1)]);
    assert_eq!(
        board.try_set_alive(usize::MAX, usize::MAX, false),
        Err(OutOfBounds { x: usize::MAX, y: usize::MAX, width: 3, height: 2 })
    );
    assert_eq!(live_cells(&board), vec![(0, 0), (2, 1)]);
    assert_eq!(board.width(), 3);
    assert_eq!(board.height(), 2);
}

#[test]
fn traversal_goes_column_by_column() {
    let board = board_with(2, 3, &[(0, 1), (1, 2)]);
    assert_eq!(
        board.iter_cells(),
        vec![
            ((0, 0), false),
            ((0, 1), true),
            ((0, 2), false),
            ((1, 0), false),
            ((1, 1), false),
            ((1, 2), true),
        ]
    );
}

#[test]
fn traversal_visits_every_cell_once_and_can_be_repeated() {
    let board = board_with(5, 4, &[(0, 0), (4, 3), (2, 1)]);
    let cells = board.iter_cells();
    assert_eq!(cells.len(), 20);
    for x in 0..5 {
        for y in 0..4 {
            let hits = cells.iter().filter(|entry| entry.0 == (x, y)).count();
            assert_eq!(hits, 1);
            assert_eq!(cells[x * 4 + y], ((x, y), board.is_cell_alive(x, y)));
        }
    }
    assert_eq!(board.iter_cells(), cells);
}

#[test]
fn clone_holds_the_same_cells_and_is_a_board_of_its_own() {
    let board = board_with(3, 2, &[(0, 1), (2, 0)]);
    let mut copy = board.clone();
    assert_eq!(copy, board);
    assert_eq!((copy.width(), copy.height()), (3, 2));
    assert_eq!(live_cells(&copy), vec![(0, 1), (2, 0)]);
    assert_eq!(copy.try_set_alive(1, 1, true), Ok(()));
    assert_ne!(copy, board);
    assert_eq!(live_cells(&board), vec![(0, 1), (2, 0)]);
    assert_ne!(GameMatrix::new(2, 3), GameMatrix::new(3, 2));
    assert_ne!(GameMatrix::new(0, 3), GameMatrix::new(0, 2));
}
