use rusty_minesweeper::board::{Board, RevealResult};
use rusty_minesweeper::cell::{CellContent, CellPosition, CellState};
use rusty_minesweeper::error::GameError;
use rusty_minesweeper::game::GameDifficulty;

fn difficulty(width: usize, height: usize, mines_count: usize) -> GameDifficulty {
    GameDifficulty { board_size: (width, height), mines_count }
}

fn at(x: usize, y: usize) -> CellPosition {
    CellPosition::new(x, y)
}

fn mines_around(board: &Board, pos: CellPosition) -> u8 {
    let mut count = 0;
    for dx in [-1isize, 0, 1] {
        for dy in [-1isize, 0, 1] {
            if dx == 0 && dy == 0 {
                continue;
            }
            let x = pos.x as isize + dx;
            let y = pos.y as isize + dy;
            if x < 0 || y < 0 {
                continue;
            }
            if let Ok(cell) = board.cell(at(x as usize, y as usize)) {
                if cell.is_mine() {
                    count += 1;
                }
            }
        }
    }
    count
}

fn assert_numbers_right(board: &Board) {
    let (width, height) = board.size();
    for x in 0..width {
        for y in 0..height {
            let cell = board.cell(at(x, y)).unwrap();
            if !cell.is_mine() {
                assert_eq!(cell.content.as_number(), mines_around(board, at(x, y)));
            }
        }
    }
}

#[test]
fn new_board_is_blank() {
    let board = Board::new(difficulty(4, 3, 2)).unwrap();
    assert_eq!(board.size(), (4, 3));
    assert!(board.mine_positions().is_empty());
    assert_eq!(board.revealed_count(), 0);
    assert_eq!(board.flagged_count(), 0);
    for x in 0..4 {
        for y in 0..3 {
            let cell = board.cell(at(x, y)).unwrap();
            assert_eq!(cell.content, CellContent::Empty);
            assert_eq!(cell.state, CellState::Hidden);
        }
    }
}

#[test]
fn new_board_rejects_a_side_of_zero() {
    assert_eq!(Board::new(difficulty(0, 5, 1)).err(), Some(GameError::InvalidBoardSize(0, 5)));
    assert_eq!(Board::new(difficulty(5, 0, 1)).err(), Some(GameError::InvalidBoardSize(5, 0)));
    assert_eq!(
        Board::validate_difficulty(difficulty(0, 0, 0)),
        Err(GameError::InvalidBoardSize(0, 0))
    );
}

#[test]
fn new_board_rejects_more_cells_than_can_be_counted() {
    let huge = difficulty(usize::MAX, 2, 1);
    assert_eq!(Board::validate_difficulty(huge), Err(GameError::InvalidBoardSize(usize::MAX, 2)));
    let large = difficulty(usize::MAX / 2 + 1, 1, 1);
    assert_eq!(
        Board::validate_difficulty(large),
        Err(GameError::InvalidBoardSize(usize::MAX / 2 + 1, 1))
    );
}

#[test]
fn new_board_rejects_a_bad_number_of_mines() {
    assert_eq!(Board::new(difficulty(3, 3, 0)).err(), Some(GameError::InvalidMinesCount(0, 9)));
    assert_eq!(Board::new(difficulty(3, 3, 9)).err(), Some(GameError::InvalidMinesCount(9, 9)));
    assert_eq!(Board::new(difficulty(3, 4, 50)).err(), Some(GameError::InvalidMinesCount(50, 12)));
    assert!(Board::new(difficulty(3, 3, 8)).is_ok());
    assert!(Board::new(difficulty(3, 3, 1)).is_ok());
}

#[test]
fn presets_are_valid() {
    assert_eq!(Board::validate_difficulty(GameDifficulty::beginner()), Ok(()));
    assert_eq!(Board::validate_difficulty(GameDifficulty::intermediate()), Ok(()));
    assert_eq!(Board::validate_difficulty(GameDifficulty::expert()), Ok(()));
    assert_eq!(Board::validate_difficulty(GameDifficulty::custom()), Ok(()));
}

#[test]
fn positions_off_the_board_are_errors() {
    let mut board = Board::new(difficulty(4, 3, 2)).unwrap();
    let off_right = at(4, 0);
    let off_below = at(0, 3);
    assert_eq!(board.validate_position(off_right), Err(GameError::InvalidCellPosition(4, 0)));
    assert_eq!(board.validate_position(at(3, 2)), Ok(()));
    assert_eq!(board.cell(off_below).err(), Some(GameError::InvalidCellPosition(0, 3)));
    assert_eq!(board.flag(off_right), Err(GameError::InvalidCellPosition(4, 0)));
    assert_eq!(board.unflag(off_below), Err(GameError::InvalidCellPosition(0, 3)));
    assert_eq!(board.uncover(at(9, 9)), Err(GameError::InvalidCellPosition(9, 9)));
    assert_eq!(board.flagged_count(), 0);
    assert_eq!(board.revealed_count(), 0);
}

#[test]
fn flag_and_unflag_count() {
    let mut board = Board::new(difficulty(4, 3, 2)).unwrap();
    assert_eq!(board.unflag(at(1, 1)), Ok(false));
    assert_eq!(board.flag(at(1, 1)), Ok(true));
    assert_eq!(board.flag(at(1, 1)), Ok(false));
    assert_eq!(board.flag(at(2, 1)), Ok(true));
    assert_eq!(board.flag(at(3, 2)), Ok(true));
    assert_eq!(board.flagged_count(), 3);
    assert!(board.cell(at(1, 1)).unwrap().is_flagged());
    assert_eq!(board.unflag(at(1, 1)), Ok(true));
    assert_eq!(board.unflag(at(1, 1)), Ok(false));
    assert_eq!(board.flagged_count(), 2);
    assert!(board.cell(at(1, 1)).unwrap().is_hidden());
}

#[test]
fn uncover_reveals_one_cell_only() {
    let mut board = Board::new(difficulty(4, 3, 2)).unwrap();
    assert_eq!(board.uncover(at(0, 0)), Ok(RevealResult::Continue));
    assert_eq!(board.revealed_count(), 1);
    assert!(board.cell(at(0, 0)).unwrap().is_revealed());
    assert!(board.cell(at(0, 1)).unwrap().is_hidden());
    assert!(board.cell(at(1, 0)).unwrap().is_hidden());
    assert_eq!(board.uncover(at(0, 0)), Ok(RevealResult::CantReveal));
    assert_eq!(board.revealed_count(), 1);
    assert_eq!(board.flag(at(0, 0)), Ok(false));
    assert_eq!(board.flag(at(1, 1)), Ok(true));
    assert_eq!(board.uncover(at(1, 1)), Ok(RevealResult::CantReveal));
    assert!(board.cell(at(1, 1)).unwrap().is_flagged());
}

#[test]
fn uncover_a_mine_is_game_over() {
    let mut board = Board::new(difficulty(3, 3, 1)).unwrap();
    board.place_mines(&vec![at(1, 1)]).unwrap();
    assert_eq!(board.uncover(at(1, 1)), Ok(RevealResult::GameOver(at(1, 1))));
    assert_eq!(board.revealed_count(), 0);
    assert!(board.cell(at(1, 1)).unwrap().is_revealed());
    assert_eq!(board.uncover(at(0, 0)), Ok(RevealResult::Continue));
    assert_eq!(board.revealed_count(), 1);
}

#[test]
fn neighbours_in_a_corner_on_an_edge_and_inside() {
    let board = Board::new(difficulty(4, 3, 2)).unwrap();
    assert_eq!(board.adjacent_positions(at(0, 0)), vec![at(0, 1), at(1, 0), at(1, 1)]);
    assert_eq!(
        board.adjacent_positions(at(3, 1)),
        vec![at(2, 0), at(2, 1), at(2, 2), at(3, 0), at(3, 2)]
    );
    assert_eq!(
        board.adjacent_positions(at(1, 1)),
        vec![at(0, 0), at(0, 1), at(0, 2), at(1, 0), at(1, 2), at(2, 0), at(2, 1), at(2, 2)]
    );
    assert_eq!(board.adjacent_positions(at(3, 2)), vec![at(2, 1), at(2, 2), at(3, 1)]);
}

#[test]
fn neighbours_of_a_position_off_the_board() {
    let board = Board::new(difficulty(4, 3, 2)).unwrap();
    assert_eq!(board.adjacent_positions(at(4, 0)), vec![at(3, 0), at(3, 1)]);
    assert_eq!(board.adjacent_positions(at(9, 9)), vec![]);
    assert_eq!(board.adjacent_positions(at(usize::MAX, usize::MAX)), vec![]);
    assert_eq!(board.adjacent_positions(at(0, 3)), vec![at(0, 2), at(1, 2)]);
}

#[test]
fn neighbours_on_a_board_of_one_cell_wide() {
    let board = Board::new(difficulty(1, 3, 1)).unwrap();
    assert_eq!(board.adjacent_positions(at(0, 1)), vec![at(0, 0), at(0, 2)]);
    assert_eq!(board.adjacent_positions(at(0, 0)), vec![at(0, 1)]);
}

#[test]
fn placed_mines_are_counted_by_their_neighbours() {
    let mut board = Board::new(difficulty(3, 3, 2)).unwrap();
    assert_eq!(board.place_mines(&vec![at(0, 0), at(2, 2)]), Ok(()));
    assert_eq!(board.mine_positions(), &vec![at(0, 0), at(2, 2)]);
    let expected = [
        [CellContent::Mine, CellContent::One, CellContent::Empty],
        [CellContent::One, CellContent::Two, CellContent::One],
        [CellContent::Empty, CellContent::One, CellContent::Mine],
    ];
    for x in 0..3 {
        for y in 0..3 {
            assert_eq!(board.cell(at(x, y)).unwrap().content, expected[x][y]);
            assert!(board.cell(at(x, y)).unwrap().is_hidden());
        }
    }
}

#[test]
fn a_cell_ringed_by_mines_counts_eight() {
    let mut board = Board::new(difficulty(3, 3, 8)).unwrap();
    let ring = vec![
        at(0, 0),
        at(0, 1),
        at(0, 2),
        at(1, 0),
        at(1, 2),
        at(2, 0),
        at(2, 1),
        at(2, 2),
    ];
    assert_eq!(board.place_mines(&ring), Ok(()));
    assert_eq!(board.cell(at(1, 1)).unwrap().content, CellContent::Eight);
    assert_eq!(board.mine_positions().len(), 8);
    assert_numbers_right(&board);
}

#[test]
fn placing_a_mine_twice_places_it_once() {
    let mut board = Board::new(difficulty(3, 3, 2)).unwrap();
    assert_eq!(board.place_mines(&vec![at(1, 1), at(1, 1)]), Ok(()));
    assert_eq!(board.mine_positions(), &vec![at(1, 1)]);
    assert_eq!(board.place_mines(&vec![at(1, 1), at(0, 0)]), Ok(()));
    assert_eq!(board.mine_positions(), &vec![at(1, 1), at(0, 0)]);
    assert_eq!(board.cell(at(0, 1)).unwrap().content, CellContent::Two);
    assert_numbers_right(&board);
}

#[test]
fn placing_a_mine_off_the_board_places_none() {
    let mut board = Board::new(difficulty(3, 3, 2)).unwrap();
    assert_eq!(
        board.place_mines(&vec![at(1, 1), at(3, 0), at(0, 7)]),
        Err(GameError::InvalidCellPosition(3, 0))
    );
    assert!(board.mine_positions().is_empty());
    assert_eq!(board.cell(at(1, 1)).unwrap().content, CellContent::Empty);
}

#[test]
fn placing_a_mine_under_a_revealed_cell_uncounts_it() {
    let mut board = Board::new(difficulty(3, 3, 2)).unwrap();
    assert_eq!(board.uncover(at(1, 1)), Ok(RevealResult::Continue));
    assert_eq!(board.uncover(at(0, 0)), Ok(RevealResult::Continue));
    assert_eq!(board.revealed_count(), 2);
    assert_eq!(board.place_mines(&vec![at(1, 1)]), Ok(()));
    assert_eq!(board.revealed_count(), 1);
    assert_eq!(board.cell(at(0, 0)).unwrap().content, CellContent::One);
}

#[test]
fn generated_mines_are_as_many_as_asked_and_numbers_are_right() {
    let cases = [
        difficulty(9, 9, 10),
        difficulty(16, 16, 40),
        difficulty(30, 16, 100),
        difficulty(2, 2, 1),
        difficulty(1, 2, 1),
        difficulty(5, 3, 13),
    ];
    for case in cases {
        for _ in 0..20 {
            let mut board = Board::new(case).unwrap();
            let excluded = at(0, 0);
            assert_eq!(board.generate_mines(case, excluded, &vec![]), Ok(()));
            assert_eq!(board.mine_positions().len(), case.mines_count);
            let mut seen = board.mine_positions().clone();
            seen.sort_by_key(|p| (p.x, p.y));
            seen.dedup();
            assert_eq!(seen.len(), case.mines_count);
            for mine in board.mine_positions() {
                assert!(board.cell(*mine).unwrap().is_mine());
                assert_ne!(*mine, excluded);
            }
            assert_numbers_right(&board);
            assert_eq!(board.revealed_count(), 0);
            assert_eq!(board.flagged_count(), 0);
        }
    }
}

#[test]
fn generated_mines_avoid_the_excluded_cell() {
    let case = difficulty(3, 3, 8);
    for x in 0..3 {
        for y in 0..3 {
            let mut board = Board::new(case).unwrap();
            assert_eq!(board.generate_mines(case, at(x, y), &vec![]), Ok(()));
            assert!(!board.cell(at(x, y)).unwrap().is_mine());
            assert_eq!(board.cell(at(x, y)).unwrap().content.as_number(), mines_around(&board, at(x, y)));
            assert_eq!(board.mine_positions().len(), 8);
        }
    }
}

#[test]
fn generated_mines_avoid_the_flagged_cells() {
    let case = difficulty(4, 4, 10);
    let flagged = vec![at(0, 0), at(1, 1), at(2, 2), at(3, 3), at(3, 0)];
    for _ in 0..50 {
        let mut board = Board::new(case).unwrap();
        assert_eq!(board.generate_mines(case, at(0, 3), &flagged), Ok(()));
        assert_eq!(board.mine_positions().len(), 10);
        for pos in &flagged {
            assert!(!board.cell(*pos).unwrap().is_mine());
        }
        assert!(!board.cell(at(0, 3)).unwrap().is_mine());
        assert_numbers_right(&board);
    }
}

#[test]
fn generated_mines_are_not_always_the_same() {
    let case = difficulty(9, 9, 10);
    let mut first = Board::new(case).unwrap();
    first.generate_mines(case, at(0, 0), &vec![]).unwrap();
    let mut layout = first.mine_positions().clone();
    layout.sort_by_key(|p| (p.x, p.y));
    let mut differs = false;
    for _ in 0..20 {
        let mut board = Board::new(case).unwrap();
        board.generate_mines(case, at(0, 0), &vec![]).unwrap();
        let mut other = board.mine_positions().clone();
        other.sort_by_key(|p| (p.x, p.y));
        if other != layout {
            differs = true;
        }
    }
    assert!(differs);
}

#[test]
fn generating_fails_where_too_few_cells_may_take_a_mine() {
    let case = difficulty(2, 2, 3);
    let mut board = Board::new(case).unwrap();
    assert_eq!(
        board.generate_mines(case, at(0, 0), &vec![at(1, 1)]),
        Err(GameError::InvalidMinesCount(3, 2))
    );
    assert!(board.mine_positions().is_empty());
    assert_eq!(board.generate_mines(case, at(0, 0), &vec![at(0, 0), at(5, 5)]), Ok(()));
    assert_eq!(board.mine_positions().len(), 3);
    assert!(!board.cell(at(0, 0)).unwrap().is_mine());
}

#[test]
fn generating_fails_for_a_difficulty_of_another_size() {
    let mut board = Board::new(difficulty(3, 3, 2)).unwrap();
    assert_eq!(
        board.generate_mines(difficulty(3, 4, 2), at(0, 0), &vec![]),
        Err(GameError::InvalidBoardSize(3, 4))
    );
    assert_eq!(
        board.generate_mines(difficulty(3, 3, 0), at(0, 0), &vec![]),
        Err(GameError::InvalidMinesCount(0, 9))
    );
    assert_eq!(
        board.generate_mines(difficulty(0, 3, 2), at(0, 0), &vec![]),
        Err(GameError::InvalidBoardSize(0, 3))
    );
    assert!(board.mine_positions().is_empty());
}

#[test]
fn generating_spares_revealed_and_flagged_cells() {
    let case = difficulty(3, 3, 6);
    for _ in 0..20 {
        let mut board = Board::new(case).unwrap();
        assert_eq!(board.uncover(at(1, 1)), Ok(RevealResult::Continue));
        assert_eq!(board.flag(at(2, 2)), Ok(true));
        assert_eq!(board.generate_mines(case, at(0, 0), &vec![]), Ok(()));
        assert!(!board.cell(at(1, 1)).unwrap().is_mine());
        assert!(!board.cell(at(2, 2)).unwrap().is_mine());
        assert!(!board.cell(at(0, 0)).unwrap().is_mine());
        assert_eq!(board.mine_positions().len(), 6);
        assert_eq!(board.cell(at(1, 1)).unwrap().content, CellContent::Six);
        assert_eq!(board.revealed_count(), 1);
        assert_eq!(board.flagged_count(), 1);
    }
}

#[test]
fn reveal_mines_skips_flagged_mines() {
    let mut board = Board::new(difficulty(3, 3, 3)).unwrap();
    board.place_mines(&vec![at(0, 0), at(1, 1), at(2, 2)]).unwrap();
    assert_eq!(board.flag(at(1, 1)), Ok(true));
    assert_eq!(board.flag(at(0, 1)), Ok(true));
    board.reveal_mines();
    assert!(board.cell(at(0, 0)).unwrap().is_revealed());
    assert!(board.cell(at(1, 1)).unwrap().is_flagged());
    assert!(board.cell(at(2, 2)).unwrap().is_revealed());
    assert!(board.cell(at(0, 1)).unwrap().is_flagged());
    assert!(board.cell(at(1, 0)).unwrap().is_hidden());
    assert_eq!(board.revealed_count(), 0);
    assert_eq!(board.flagged_count(), 2);
}

#[test]
fn flag_mines_flags_every_hidden_mine() {
    let mut board = Board::new(difficulty(3, 3, 3)).unwrap();
    board.place_mines(&vec![at(0, 0), at(1, 1), at(2, 2)]).unwrap();
    assert_eq!(board.flag(at(1, 1)), Ok(true));
    assert_eq!(board.uncover(at(0, 1)), Ok(RevealResult::Continue));
    board.flag_mines();
    assert!(board.cell(at(0, 0)).unwrap().is_flagged());
    assert!(board.cell(at(1, 1)).unwrap().is_flagged());
    assert!(board.cell(at(2, 2)).unwrap().is_flagged());
    assert!(board.cell(at(0, 1)).unwrap().is_revealed());
    assert!(board.cell(at(1, 0)).unwrap().is_hidden());
    assert_eq!(board.flagged_count(), 3);
    assert_eq!(board.revealed_count(), 1);
}
