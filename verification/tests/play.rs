use minesweeper::minesweeper::{BoardError, Minesweeper, OpenResult};

fn count_cells(board: &Minesweeper, pick: fn(&Minesweeper, (usize, usize)) -> bool) -> usize {
    let mut n = 0;
    for y in 0..board.height() {
        for x in 0..board.width() {
            if pick(board, (x, y)) {
                n += 1;
            }
        }
    }
    n
}

#[test]
fn test() {
    let mut ms = Minesweeper::new(10, 10, 25).unwrap();
    ms.open((5, 5)).unwrap();
    ms.toggle_flag((2, 7)).unwrap();
    println!("{}", ms.render());

    ms.toggle_flag((5, 6)).unwrap();
    ms.open((5, 6)).unwrap();
    ms.toggle_flag((2, 7)).unwrap();

    println!("{}", ms.render());
}

#[test]
fn new_places_the_mines_it_was_asked_for() {
    for _ in 0..20 {
        let board = Minesweeper::new(10, 10, 25).unwrap();
        assert_eq!(board.width(), 10);
        assert_eq!(board.height(), 10);
        assert_eq!(count_cells(&board, Minesweeper::is_mine), 25);
        assert_eq!(count_cells(&board, Minesweeper::is_open), 0);
        assert_eq!(count_cells(&board, Minesweeper::is_flagged), 0);
        assert!(!board.is_lost());
        assert!(!board.is_mine((10, 0)));
        assert!(!board.is_mine((0, 10)));
    }
}

#[test]
fn new_fills_the_whole_grid_when_asked() {
    let board = Minesweeper::new(4, 3, 12).unwrap();
    assert_eq!(count_cells(&board, Minesweeper::is_mine), 12);
    let empty = Minesweeper::new(4, 3, 0).unwrap();
    assert_eq!(count_cells(&empty, Minesweeper::is_mine), 0);
}

#[test]
fn new_varies_its_layouts() {
    let first = Minesweeper::new(16, 16, 40).unwrap();
    let mut differs = false;
    for _ in 0..8 {
        let other = Minesweeper::new(16, 16, 40).unwrap();
        for y in 0..16 {
            for x in 0..16 {
                if first.is_mine((x, y)) != other.is_mine((x, y)) {
                    differs = true;
                }
            }
        }
    }
    assert!(differs);
}

#[test]
fn new_rejects_more_mines_than_cells() {
    assert_eq!(Minesweeper::new(3, 3, 10).err(), Some(BoardError::InvalidMineCount));
    assert_eq!(Minesweeper::new(1, 1, 2).err(), Some(BoardError::InvalidMineCount));
    assert!(Minesweeper::new(3, 3, 9).is_ok());
}

#[test]
fn new_rejects_a_grid_without_cells() {
    assert_eq!(Minesweeper::new(0, 5, 0).err(), Some(BoardError::InvalidDimensions));
    assert_eq!(Minesweeper::new(5, 0, 0).err(), Some(BoardError::InvalidDimensions));
    assert_eq!(Minesweeper::new(0, 0, 3).err(), Some(BoardError::InvalidDimensions));
}

#[test]
fn from_draws_selects_the_same_mines_for_the_same_draws() {
    let board = Minesweeper::from_draws(3, 3, &[0, 0]).unwrap();
    assert!(board.is_mine((0, 0)));
    assert!(board.is_mine((2, 2)));
    assert_eq!(count_cells(&board, Minesweeper::is_mine), 2);

    let board = Minesweeper::from_draws(3, 3, &[10, 5]).unwrap();
    assert!(board.is_mine((2, 0)));
    assert!(board.is_mine((2, 1)));
    assert_eq!(count_cells(&board, Minesweeper::is_mine), 2);

    let board = Minesweeper::from_draws(2, 2, &[7, 7, 7, 7]).unwrap();
    assert_eq!(count_cells(&board, Minesweeper::is_mine), 4);
}

#[test]
fn from_draws_rejects_what_new_rejects() {
    assert_eq!(
        Minesweeper::from_draws(2, 2, &[0, 0, 0, 0, 0]).err(),
        Some(BoardError::InvalidMineCount)
    );
    assert_eq!(Minesweeper::from_draws(0, 2, &[]).err(), Some(BoardError::InvalidDimensions));
}

#[test]
fn with_mines_takes_the_layout_as_given() {
    let board = Minesweeper::with_mines(4, 3, &[(1, 2), (3, 0), (1, 2)]).unwrap();
    assert_eq!(board.width(), 4);
    assert_eq!(board.height(), 3);
    assert!(board.is_mine((1, 2)));
    assert!(board.is_mine((3, 0)));
    assert!(!board.is_mine((2, 1)));
    assert_eq!(count_cells(&board, Minesweeper::is_mine), 2);
}

#[test]
fn with_mines_rejects_a_mine_off_the_grid() {
    assert_eq!(Minesweeper::with_mines(4, 3, &[(4, 0)]).err(), Some(BoardError::OutOfBounds));
    assert_eq!(Minesweeper::with_mines(4, 3, &[(0, 0), (0, 3)]).err(), Some(BoardError::OutOfBounds));
    assert_eq!(Minesweeper::with_mines(0, 3, &[]).err(), Some(BoardError::InvalidDimensions));
    assert_eq!(Minesweeper::with_mines(3, 0, &[(9, 9)]).err(), Some(BoardError::InvalidDimensions));
}

#[test]
fn neighbors_come_in_reading_order_by_columns() {
    let board = Minesweeper::with_mines(3, 3, &[]).unwrap();
    assert_eq!(board.iter_neighbor((0, 0)).unwrap(), vec![(0, 1), (1, 0), (1, 1)]);
    assert_eq!(
        board.iter_neighbor((1, 0)).unwrap(),
        vec![(0, 0), (0, 1), (1, 1), (2, 0), (2, 1)]
    );
    assert_eq!(
        board.iter_neighbor((1, 1)).unwrap(),
        vec![(0, 0), (0, 1), (0, 2), (1, 0), (1, 2), (2, 0), (2, 1), (2, 2)]
    );
    assert_eq!(board.iter_neighbor((2, 2)).unwrap(), vec![(1, 1), (1, 2), (2, 1)]);
}

#[test]
fn neighbors_number_three_five_or_eight() {
    let board = Minesweeper::with_mines(10, 10, &[]).unwrap();
    for y in 0..10 {
        for x in 0..10 {
            let at_side = x == 0 || x == 9;
            let at_end = y == 0 || y == 9;
            let expected = if at_side && at_end {
                3
            } else if at_side || at_end {
                5
            } else {
                8
            };
            assert_eq!(board.iter_neighbor((x, y)).unwrap().len(), expected);
        }
    }
}

#[test]
fn neighbors_on_narrow_grids() {
    let single = Minesweeper::with_mines(1, 1, &[]).unwrap();
    assert_eq!(single.iter_neighbor((0, 0)).unwrap(), vec![]);
    let row = Minesweeper::with_mines(3, 1, &[]).unwrap();
    assert_eq!(row.iter_neighbor((0, 0)).unwrap(), vec![(1, 0)]);
    assert_eq!(row.iter_neighbor((1, 0)).unwrap(), vec![(0, 0), (2, 0)]);
}

#[test]
fn neighbors_of_a_cell_off_the_grid_are_refused() {
    let board = Minesweeper::with_mines(3, 3, &[]).unwrap();
    assert_eq!(board.iter_neighbor((3, 0)).err(), Some(BoardError::OutOfBounds));
    assert_eq!(board.iter_neighbor((0, 3)).err(), Some(BoardError::OutOfBounds));
    assert_eq!(board.iter_neighbor((usize::MAX, usize::MAX)).err(), Some(BoardError::OutOfBounds));
    assert_eq!(board.neighbor_mines_count((3, 3)).err(), Some(BoardError::OutOfBounds));
}

#[test]
fn mine_counts_are_exact() {
    let board = Minesweeper::with_mines(3, 3, &[(0, 0), (2, 0), (1, 1)]).unwrap();
    assert_eq!(board.neighbor_mines_count((0, 0)), Ok(1));
    assert_eq!(board.neighbor_mines_count((1, 0)), Ok(3));
    assert_eq!(board.neighbor_mines_count((1, 1)), Ok(2));
    assert_eq!(board.neighbor_mines_count((0, 2)), Ok(1));
    assert_eq!(board.neighbor_mines_count((2, 2)), Ok(1));

    let ring = Minesweeper::with_mines(
        3,
        3,
        &[(0, 0), (1, 0), (2, 0), (0, 1), (2, 1), (0, 2), (1, 2), (2, 2)],
    )
    .unwrap();
    assert_eq!(ring.neighbor_mines_count((1, 1)), Ok(8));
    assert_eq!(ring.neighbor_mines_count((0, 0)), Ok(2));

    let clear = Minesweeper::with_mines(3, 3, &[]).unwrap();
    assert_eq!(clear.neighbor_mines_count((1, 1)), Ok(0));
}

#[test]
fn opening_a_clear_corner_cascades() {
    let mut board = Minesweeper::with_mines(5, 5, &[(4, 4)]).unwrap();
    assert_eq!(board.open((0, 0)), Ok(Some(OpenResult::NoMine(0))));
    for y in 0..5 {
        for x in 0..5 {
            assert_eq!(board.is_open((x, y)), (x, y) != (4, 4));
        }
    }
    assert!(!board.is_lost());
}

#[test]
fn a_cascade_stops_at_the_numbered_ring() {
    let mut board = Minesweeper::with_mines(5, 1, &[(2, 0)]).unwrap();
    assert_eq!(board.open((0, 0)), Ok(Some(OpenResult::NoMine(0))));
    assert!(board.is_open((0, 0)));
    assert!(board.is_open((1, 0)));
    assert!(!board.is_open((2, 0)));
    assert!(!board.is_open((3, 0)));
    assert!(!board.is_open((4, 0)));
}

#[test]
fn a_numbered_cell_opens_alone() {
    let mut board = Minesweeper::with_mines(3, 3, &[(0, 0)]).unwrap();
    assert_eq!(board.open((1, 1)), Ok(Some(OpenResult::NoMine(1))));
    assert_eq!(count_cells(&board, Minesweeper::is_open), 1);
    assert!(board.is_open((1, 1)));
}

#[test]
fn a_flag_stops_the_cascade() {
    let mut board = Minesweeper::with_mines(5, 1, &[(4, 0)]).unwrap();
    board.toggle_flag((2, 0)).unwrap();
    assert_eq!(board.open((0, 0)), Ok(Some(OpenResult::NoMine(0))));
    assert!(board.is_open((0, 0)));
    assert!(board.is_open((1, 0)));
    assert!(!board.is_open((2, 0)));
    assert!(!board.is_open((3, 0)));
    assert!(board.is_flagged((2, 0)));

    board.toggle_flag((2, 0)).unwrap();
    assert_eq!(board.open((2, 0)), Ok(Some(OpenResult::NoMine(0))));
    assert!(board.is_open((2, 0)));
    assert!(board.is_open((3, 0)));
    assert!(!board.is_open((4, 0)));
}

#[test]
fn a_cascade_does_not_pass_through_cells_opened_before() {
    let mut board = Minesweeper::with_mines(5, 1, &[]).unwrap();
    board.toggle_flag((1, 0)).unwrap();
    board.toggle_flag((3, 0)).unwrap();
    assert_eq!(board.open((2, 0)), Ok(Some(OpenResult::NoMine(0))));
    assert_eq!(count_cells(&board, Minesweeper::is_open), 1);
    board.toggle_flag((3, 0)).unwrap();
    board.toggle_flag((1, 0)).unwrap();
    board.toggle_flag((0, 0)).unwrap();
    board.toggle_flag((1, 0)).unwrap();
    board.toggle_flag((0, 0)).unwrap();
    assert_eq!(board.open((0, 0)), Ok(Some(OpenResult::NoMine(0))));
    assert!(!board.is_open((1, 0)));
    assert!(!board.is_open((3, 0)));
    assert!(!board.is_open((4, 0)));
}

#[test]
fn a_cascade_covers_a_large_board() {
    let mut board = Minesweeper::with_mines(200, 200, &[(199, 199)]).unwrap();
    assert_eq!(board.open((0, 0)), Ok(Some(OpenResult::NoMine(0))));
    assert_eq!(count_cells(&board, Minesweeper::is_open), 200 * 200 - 1);
}

#[test]
fn opening_twice_reports_nothing_the_second_time() {
    let mut board = Minesweeper::with_mines(4, 4, &[(3, 3), (0, 3)]).unwrap();
    assert_eq!(board.open((0, 0)), Ok(Some(OpenResult::NoMine(0))));
    let after_first = board.render();
    assert_eq!(board.open((0, 0)), Ok(None));
    assert_eq!(board.render(), after_first);
    assert_eq!(board.open((1, 1)), Ok(None));
    assert_eq!(board.render(), after_first);
}

#[test]
fn a_flagged_cell_stays_closed() {
    let mut board = Minesweeper::with_mines(10, 10, &[(0, 0)]).unwrap();
    board.toggle_flag((2, 7)).unwrap();
    assert_eq!(board.open((2, 7)), Ok(Some(OpenResult::Flagged)));
    assert!(!board.is_open((2, 7)));
    assert!(board.is_flagged((2, 7)));
    assert_eq!(board.open((2, 7)), Ok(Some(OpenResult::Flagged)));
    assert_eq!(count_cells(&board, Minesweeper::is_open), 0);

    board.toggle_flag((2, 7)).unwrap();
    assert!(!board.is_flagged((2, 7)));
    assert_eq!(board.open((2, 7)), Ok(Some(OpenResult::NoMine(0))));
    assert!(board.is_open((2, 7)));
}

#[test]
fn a_flagged_mine_is_safe_until_unflagged() {
    let mut board = Minesweeper::with_mines(3, 3, &[(1, 1)]).unwrap();
    board.toggle_flag((1, 1)).unwrap();
    assert_eq!(board.open((1, 1)), Ok(Some(OpenResult::Flagged)));
    assert!(!board.is_lost());
    board.toggle_flag((1, 1)).unwrap();
    assert_eq!(board.open((1, 1)), Ok(Some(OpenResult::Mine)));
    assert!(board.is_lost());
}

#[test]
fn toggling_twice_restores_the_flags() {
    let mut board = Minesweeper::with_mines(4, 4, &[(1, 1)]).unwrap();
    board.toggle_flag((3, 3)).unwrap();
    let before = board.render();
    board.toggle_flag((2, 1)).unwrap();
    assert!(board.is_flagged((2, 1)));
    assert_ne!(board.render(), before);
    board.toggle_flag((2, 1)).unwrap();
    assert!(!board.is_flagged((2, 1)));
    assert_eq!(board.render(), before);

    board.toggle_flag((3, 3)).unwrap();
    board.toggle_flag((3, 3)).unwrap();
    assert!(board.is_flagged((3, 3)));
    assert_eq!(board.render(), before);
}

#[test]
fn an_open_cell_takes_no_flag() {
    let mut board = Minesweeper::with_mines(3, 3, &[(0, 0)]).unwrap();
    board.open((1, 1)).unwrap();
    assert_eq!(board.toggle_flag((1, 1)), Ok(()));
    assert!(!board.is_flagged((1, 1)));
    assert!(board.is_open((1, 1)));
}

#[test]
fn opening_a_mine_ends_the_game() {
    let mut board = Minesweeper::with_mines(4, 4, &[(1, 1), (3, 2)]).unwrap();
    board.toggle_flag((0, 3)).unwrap();
    assert_eq!(board.open((1, 1)), Ok(Some(OpenResult::Mine)));
    assert!(board.is_lost());
    assert!(board.is_open((1, 1)));
    assert_eq!(count_cells(&board, Minesweeper::is_open), 1);

    let frozen = board.render();
    assert_eq!(board.toggle_flag((2, 2)), Ok(()));
    assert!(!board.is_flagged((2, 2)));
    assert_eq!(board.toggle_flag((0, 3)), Ok(()));
    assert!(board.is_flagged((0, 3)));
    assert_eq!(board.open((0, 0)), Ok(None));
    assert_eq!(board.open((3, 2)), Ok(None));
    assert_eq!(board.open((0, 3)), Ok(None));
    assert_eq!(board.open((1, 1)), Ok(None));
    assert_eq!(count_cells(&board, Minesweeper::is_open), 1);
    assert_eq!(board.render(), frozen);
}

#[test]
fn cells_off_the_grid_are_refused() {
    let mut board = Minesweeper::with_mines(4, 3, &[(1, 1)]).unwrap();
    let before = board.render();
    assert_eq!(board.open((4, 0)), Err(BoardError::OutOfBounds));
    assert_eq!(board.open((0, 3)), Err(BoardError::OutOfBounds));
    assert_eq!(board.open((usize::MAX, 0)), Err(BoardError::OutOfBounds));
    assert_eq!(board.toggle_flag((4, 2)), Err(BoardError::OutOfBounds));
    assert_eq!(board.toggle_flag((3, 3)), Err(BoardError::OutOfBounds));
    assert!(!board.in_bounds((4, 2)));
    assert!(board.in_bounds((3, 2)));
    assert!(!board.is_flagged((4, 2)));
    assert!(!board.is_open((4, 0)));
    assert_eq!(board.render(), before);
}
