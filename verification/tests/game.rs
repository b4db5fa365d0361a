use rusty_minesweeper::board::RevealResult;
use rusty_minesweeper::cell::CellPosition;
use rusty_minesweeper::error::GameError;
use rusty_minesweeper::game::{GameDifficulty, GameStatus};
use rusty_minesweeper::state::GameState;

fn difficulty(width: usize, height: usize, mines_count: usize) -> GameDifficulty {
    GameDifficulty { board_size: (width, height), mines_count }
}

fn at(x: usize, y: usize) -> CellPosition {
    CellPosition::new(x, y)
}

fn sorted(cells: &Vec<CellPosition>) -> Vec<CellPosition> {
    let mut cells = cells.clone();
    cells.sort_by_key(|p| (p.x, p.y));
    cells
}

fn game_with_mines(width: usize, height: usize, mines: Vec<CellPosition>) -> GameState {
    let mut game = GameState::new(difficulty(width, height, mines.len())).unwrap();
    assert_eq!(game.start_with_mines(&mines), Ok(true));
    game
}

/// Mines in the column x = 2 of a board of five by five cells.
fn wall() -> GameState {
    game_with_mines(5, 5, vec![at(2, 0), at(2, 1), at(2, 2), at(2, 3), at(2, 4)])
}

/// Mines in two opposite corners of a board of three by three cells.
fn corners() -> GameState {
    game_with_mines(3, 3, vec![at(0, 0), at(2, 2)])
}

#[test]
fn new_game_has_not_begun() {
    let game = GameState::new(GameDifficulty::beginner()).unwrap();
    assert_eq!(*game.status(), GameStatus::New);
    assert!(!game.is_over());
    assert_eq!(*game.difficulty(), GameDifficulty::beginner());
    assert_eq!(game.elapsed_seconds(), 0);
    assert_eq!(game.flags_remaining(), 0);
    assert!(game.revealed_cells().is_empty());
    assert!(game.flagged_cells().is_empty());
    assert_eq!(game.display_cell(at(0, 0)), Ok(String::new()));
}

#[test]
fn new_game_rejects_an_invalid_difficulty() {
    assert_eq!(
        GameState::new(difficulty(0, 9, 10)).err(),
        Some(GameError::InvalidBoardSize(0, 9))
    );
    assert_eq!(
        GameState::new(difficulty(9, 9, 0)).err(),
        Some(GameError::InvalidMinesCount(0, 81))
    );
    assert_eq!(
        GameState::new(difficulty(9, 9, 81)).err(),
        Some(GameError::InvalidMinesCount(81, 81))
    );
}

#[test]
fn first_reveal_on_beginner_is_never_a_mine() {
    for _ in 0..50 {
        let mut game = GameState::new(GameDifficulty::beginner()).unwrap();
        assert_eq!(game.reveal_cell(at(0, 0)), Ok(RevealResult::Continue));
        assert_ne!(game.display_cell(at(0, 0)), Ok("💣".to_string()));
        assert_ne!(game.display_cell(at(0, 0)), Ok(String::new()));
        assert!(matches!(*game.status(), GameStatus::InProgress | GameStatus::Won));
        assert!(!game.revealed_cells().is_empty());
        assert!(game.revealed_cells().contains(&at(0, 0)));
    }
}

#[test]
fn first_reveal_is_never_a_mine_on_a_crowded_board() {
    let crowded = difficulty(3, 3, 8);
    for x in 0..3 {
        for y in 0..3 {
            let mut game = GameState::new(crowded).unwrap();
            assert_eq!(game.reveal_cell(at(x, y)), Ok(RevealResult::Continue));
            assert_eq!(*game.status(), GameStatus::Won);
            assert_eq!(game.revealed_cells(), &vec![at(x, y)]);
            assert_eq!(game.flagged_cells().len(), 8);
        }
    }
}

#[test]
fn a_numbered_cell_is_revealed_alone() {
    let mut game = game_with_mines(2, 2, vec![at(0, 0)]);
    assert_eq!(game.reveal_cell(at(1, 1)), Ok(RevealResult::Continue));
    assert_eq!(game.display_cell(at(1, 1)), Ok("1".to_string()));
    assert_eq!(game.revealed_cells(), &vec![at(1, 1)]);
    assert_eq!(game.display_cell(at(0, 0)), Ok(String::new()));
    assert_eq!(game.display_cell(at(0, 1)), Ok(String::new()));
    assert_eq!(game.display_cell(at(1, 0)), Ok(String::new()));
    assert_eq!(*game.status(), GameStatus::InProgress);
}

#[test]
fn start_with_mines_begins_the_game() {
    let mut game = GameState::new(difficulty(3, 3, 2)).unwrap();
    assert_eq!(game.start_with_mines(&vec![at(0, 0), at(2, 2)]), Ok(true));
    assert_eq!(*game.status(), GameStatus::InProgress);
    assert!(game.revealed_cells().is_empty());
    assert_eq!(game.start_with_mines(&vec![at(0, 1), at(2, 1)]), Ok(false));
    assert_eq!(game.reveal_cell(at(1, 1)), Ok(RevealResult::Continue));
    assert_eq!(game.display_cell(at(1, 1)), Ok("2".to_string()));
}

#[test]
fn start_with_mines_rejects_a_bad_layout() {
    let mut game = GameState::new(difficulty(3, 3, 2)).unwrap();
    assert_eq!(
        game.start_with_mines(&vec![at(0, 0), at(3, 3)]),
        Err(GameError::InvalidCellPosition(3, 3))
    );
    assert_eq!(
        game.start_with_mines(&vec![at(0, 0)]),
        Err(GameError::InvalidMinesCount(1, 9))
    );
    assert_eq!(
        game.start_with_mines(&vec![at(0, 0), at(0, 0)]),
        Err(GameError::InvalidMinesCount(1, 9))
    );
    assert_eq!(
        game.start_with_mines(&vec![at(0, 0), at(1, 0), at(2, 0)]),
        Err(GameError::InvalidMinesCount(3, 9))
    );
    assert_eq!(*game.status(), GameStatus::New);
    assert_eq!(game.start_with_mines(&vec![at(0, 0), at(1, 0)]), Ok(true));
}

#[test]
fn flood_reveals_the_region_and_its_numbered_border() {
    let mut game = wall();
    assert_eq!(game.reveal_cell(at(0, 0)), Ok(RevealResult::Continue));
    let expected = vec![
        at(0, 0),
        at(0, 1),
        at(0, 2),
        at(0, 3),
        at(0, 4),
        at(1, 0),
        at(1, 1),
        at(1, 2),
        at(1, 3),
        at(1, 4),
    ];
    assert_eq!(sorted(game.revealed_cells()), expected);
    assert_eq!(game.revealed_cells().len(), 10);
    assert_eq!(*game.status(), GameStatus::InProgress);
    for y in 0..5 {
        assert_eq!(game.display_cell(at(0, y)), Ok(" ".to_string()));
        for x in 2..5 {
            assert_eq!(game.display_cell(at(x, y)), Ok(String::new()));
        }
    }
    assert_eq!(game.display_cell(at(1, 0)), Ok("2".to_string()));
    assert_eq!(game.display_cell(at(1, 1)), Ok("3".to_string()));
    assert_eq!(game.display_cell(at(1, 2)), Ok("3".to_string()));
    assert_eq!(game.display_cell(at(1, 3)), Ok("3".to_string()));
    assert_eq!(game.display_cell(at(1, 4)), Ok("2".to_string()));
}

#[test]
fn flood_begins_at_the_clicked_cell() {
    let mut game = wall();
    assert_eq!(game.reveal_cell(at(0, 2)), Ok(RevealResult::Continue));
    assert_eq!(game.revealed_cells()[0], at(0, 2));
    assert_eq!(game.revealed_cells().len(), 10);
}

#[test]
fn flood_stops_at_flags() {
    let mut game = wall();
    assert_eq!(game.toggle_flag(at(0, 2)), Ok(true));
    assert_eq!(game.toggle_flag(at(1, 2)), Ok(true));
    assert_eq!(game.reveal_cell(at(0, 0)), Ok(RevealResult::Continue));
    assert_eq!(
        sorted(game.revealed_cells()),
        vec![at(0, 0), at(0, 1), at(1, 0), at(1, 1)]
    );
    assert_eq!(game.display_cell(at(0, 2)), Ok("🚩".to_string()));
    assert_eq!(game.display_cell(at(0, 3)), Ok(String::new()));
    assert_eq!(game.toggle_flag(at(0, 2)), Ok(true));
    assert_eq!(game.display_cell(at(0, 2)), Ok(String::new()));
    game.clear_revealed_cells();
    assert_eq!(game.reveal_cell(at(0, 2)), Ok(RevealResult::Continue));
    assert_eq!(
        sorted(game.revealed_cells()),
        vec![at(0, 2), at(0, 3), at(0, 4), at(1, 3), at(1, 4)]
    );
    assert_eq!(game.display_cell(at(1, 2)), Ok("🚩".to_string()));
}

#[test]
fn revealing_twice_or_under_a_flag_cant_reveal() {
    let mut game = wall();
    assert_eq!(game.reveal_cell(at(0, 0)), Ok(RevealResult::Continue));
    assert_eq!(game.reveal_cell(at(0, 0)), Ok(RevealResult::CantReveal));
    assert_eq!(game.reveal_cell(at(1, 3)), Ok(RevealResult::CantReveal));
    assert_eq!(game.toggle_flag(at(4, 4)), Ok(true));
    assert_eq!(game.reveal_cell(at(4, 4)), Ok(RevealResult::CantReveal));
    assert_eq!(game.revealed_cells().len(), 10);
    assert_eq!(*game.status(), GameStatus::InProgress);
}

#[test]
fn probing_a_flagged_cell_does_not_reveal_it() {
    let mut game = GameState::new(GameDifficulty::beginner()).unwrap();
    assert_eq!(game.toggle_flag(at(4, 4)), Ok(true));
    assert_eq!(game.reveal_cell(at(4, 4)), Ok(RevealResult::CantReveal));
    assert!(game.revealed_cells().is_empty());
    assert_eq!(game.display_cell(at(4, 4)), Ok("🚩".to_string()));
}

#[test]
fn positions_off_the_board_are_errors_in_every_command() {
    let mut game = GameState::new(GameDifficulty::beginner()).unwrap();
    let off = at(9, 0);
    assert_eq!(game.reveal_cell(off), Err(GameError::InvalidCellPosition(9, 0)));
    assert_eq!(game.toggle_flag(off), Err(GameError::InvalidCellPosition(9, 0)));
    assert_eq!(game.chording(off), Err(GameError::InvalidCellPosition(9, 0)));
    assert_eq!(game.display_cell(at(0, 9)), Err(GameError::InvalidCellPosition(0, 9)));
    assert_eq!(*game.status(), GameStatus::New);
    assert!(game.revealed_cells().is_empty());
    assert!(game.flagged_cells().is_empty());
}

#[test]
fn revealing_every_safe_cell_wins_and_flags_the_mines() {
    let mut game = corners();
    let safe = [at(0, 1), at(1, 0), at(1, 1), at(1, 2), at(2, 1), at(0, 2)];
    for pos in safe {
        assert_eq!(game.reveal_cell(pos), Ok(RevealResult::Continue));
        assert_eq!(*game.status(), GameStatus::InProgress);
        assert!(game.flagged_cells().is_empty());
    }
    assert_eq!(game.reveal_cell(at(2, 0)), Ok(RevealResult::Continue));
    assert_eq!(*game.status(), GameStatus::Won);
    assert!(game.is_over());
    assert_eq!(sorted(game.flagged_cells()), vec![at(0, 0), at(2, 2)]);
    assert_eq!(game.display_cell(at(0, 0)), Ok("🚩".to_string()));
    assert_eq!(game.display_cell(at(2, 2)), Ok("🚩".to_string()));
    assert_eq!(game.revealed_cells().len(), 7);
}

#[test]
fn a_flood_that_opens_the_last_safe_cells_wins() {
    let mut game = game_with_mines(5, 5, vec![at(4, 4)]);
    assert_eq!(game.reveal_cell(at(0, 0)), Ok(RevealResult::Continue));
    assert_eq!(*game.status(), GameStatus::Won);
    assert_eq!(game.revealed_cells().len(), 24);
    assert_eq!(game.flagged_cells(), &vec![at(4, 4)]);
    assert_eq!(game.display_cell(at(3, 3)), Ok("1".to_string()));
}

#[test]
fn winning_keeps_the_flags_of_the_player_listed_once() {
    let mut game = corners();
    assert_eq!(game.toggle_flag(at(0, 0)), Ok(true));
    for pos in [at(0, 1), at(1, 0), at(1, 1), at(1, 2), at(2, 1), at(0, 2), at(2, 0)] {
        assert_eq!(game.reveal_cell(pos), Ok(RevealResult::Continue));
    }
    assert_eq!(*game.status(), GameStatus::Won);
    assert_eq!(sorted(game.flagged_cells()), vec![at(0, 0), at(2, 2)]);
}

#[test]
fn flags_remaining_is_zero_after_a_win_once_the_counter_caught_up() {
    let mut game = corners();
    for pos in [at(0, 1), at(1, 0), at(1, 1), at(1, 2), at(2, 1), at(0, 2), at(2, 0)] {
        assert_eq!(game.reveal_cell(pos), Ok(RevealResult::Continue));
    }
    assert_eq!(*game.status(), GameStatus::Won);
    assert_eq!(game.flags_remaining(), 0);
    game.tick();
    assert_eq!(game.flags_remaining(), 1);
    game.tick();
    assert_eq!(game.flags_remaining(), 0);
    game.tick();
    game.tick();
    assert_eq!(game.flags_remaining(), 0);
}

#[test]
fn revealing_a_mine_loses_and_reveals_the_mines_without_a_flag() {
    let mut game = game_with_mines(3, 3, vec![at(0, 0), at(1, 1), at(2, 2)]);
    assert_eq!(game.toggle_flag(at(1, 1)), Ok(true));
    assert_eq!(game.toggle_flag(at(0, 1)), Ok(true));
    assert_eq!(game.reveal_cell(at(2, 2)), Ok(RevealResult::GameOver(at(2, 2))));
    assert_eq!(*game.status(), GameStatus::Lost);
    assert!(game.is_over());
    assert_eq!(game.revealed_cells(), &vec![at(2, 2), at(0, 0)]);
    assert_eq!(game.display_cell(at(2, 2)), Ok("💣".to_string()));
    assert_eq!(game.display_cell(at(0, 0)), Ok("💣".to_string()));
    assert_eq!(game.display_cell(at(1, 1)), Ok("🚩".to_string()));
    assert_eq!(game.display_cell(at(0, 1)), Ok("🚩".to_string()));
    assert_eq!(game.display_cell(at(1, 0)), Ok(String::new()));
}

#[test]
fn nothing_is_revealed_or_flagged_once_the_game_is_over() {
    let mut game = corners();
    assert_eq!(game.reveal_cell(at(0, 0)), Ok(RevealResult::GameOver(at(0, 0))));
    assert_eq!(*game.status(), GameStatus::Lost);
    game.clear_revealed_cells();
    assert_eq!(game.reveal_cell(at(1, 1)), Ok(RevealResult::CantReveal));
    assert_eq!(game.toggle_flag(at(1, 1)), Ok(false));
    assert_eq!(game.chording(at(0, 0)), Ok(RevealResult::CantReveal));
    assert!(game.revealed_cells().is_empty());
    assert!(game.flagged_cells().is_empty());
    assert_eq!(game.display_cell(at(1, 1)), Ok(String::new()));
    assert_eq!(*game.status(), GameStatus::Lost);
}

#[test]
fn toggle_flag_flips_between_hidden_and_flagged() {
    let mut game = wall();
    assert_eq!(game.toggle_flag(at(3, 3)), Ok(true));
    assert_eq!(game.flagged_cells(), &vec![at(3, 3)]);
    assert_eq!(game.display_cell(at(3, 3)), Ok("🚩".to_string()));
    assert_eq!(game.toggle_flag(at(4, 4)), Ok(true));
    assert_eq!(game.toggle_flag(at(3, 3)), Ok(true));
    assert_eq!(game.flagged_cells(), &vec![at(4, 4)]);
    assert_eq!(game.display_cell(at(3, 3)), Ok(String::new()));
    assert_eq!(game.reveal_cell(at(0, 0)), Ok(RevealResult::Continue));
    assert_eq!(game.toggle_flag(at(0, 0)), Ok(false));
    assert_eq!(game.toggle_flag(at(1, 1)), Ok(false));
    assert_eq!(game.flagged_cells(), &vec![at(4, 4)]);
}

#[test]
fn the_first_flag_begins_the_game_and_is_never_on_a_mine() {
    let crowded = difficulty(3, 3, 8);
    for x in 0..3 {
        for y in 0..3 {
            let mut game = GameState::new(crowded).unwrap();
            assert_eq!(game.toggle_flag(at(x, y)), Ok(true));
            assert_eq!(*game.status(), GameStatus::InProgress);
            assert_eq!(game.flagged_cells(), &vec![at(x, y)]);
            assert_eq!(game.toggle_flag(at(x, y)), Ok(true));
            assert_eq!(game.reveal_cell(at(x, y)), Ok(RevealResult::Continue));
            assert_eq!(*game.status(), GameStatus::Won);
        }
    }
}

#[test]
fn more_flags_than_mines_show_a_negative_remainder() {
    let mut game = corners();
    game.tick();
    game.tick();
    assert_eq!(game.flags_remaining(), 2);
    assert_eq!(game.toggle_flag(at(0, 1)), Ok(true));
    assert_eq!(game.flags_remaining(), 1);
    assert_eq!(game.toggle_flag(at(0, 2)), Ok(true));
    assert_eq!(game.flags_remaining(), 0);
    assert_eq!(game.toggle_flag(at(1, 0)), Ok(true));
    assert_eq!(game.flags_remaining(), -1);
    assert_eq!(game.toggle_flag(at(1, 0)), Ok(true));
    assert_eq!(game.flags_remaining(), 0);
}

#[test]
fn the_counter_counts_up_to_the_number_of_mines() {
    let mut game = GameState::new(GameDifficulty::beginner()).unwrap();
    for shown in 0..10 {
        assert_eq!(game.flags_remaining(), shown);
        game.tick();
    }
    assert_eq!(game.flags_remaining(), 10);
    game.tick();
    assert_eq!(game.flags_remaining(), 10);
    assert_eq!(game.toggle_flag(at(0, 0)), Ok(true));
    assert_eq!(game.flags_remaining(), 9);
    assert_eq!(*game.status(), GameStatus::InProgress);
}

#[test]
fn tick_at_takes_the_reading_only_while_in_progress() {
    let mut game = GameState::new(difficulty(3, 3, 2)).unwrap();
    game.tick_at(5);
    assert_eq!(game.elapsed_seconds(), 0);
    assert_eq!(game.start_with_mines(&vec![at(0, 0), at(2, 2)]), Ok(true));
    game.tick_at(5);
    assert_eq!(game.elapsed_seconds(), 5);
    game.tick_at(998);
    assert_eq!(game.elapsed_seconds(), 998);
    game.tick_at(999);
    assert_eq!(game.elapsed_seconds(), 999);
    game.tick_at(5000);
    assert_eq!(game.elapsed_seconds(), 999);
    game.tick_at(7);
    assert_eq!(game.reveal_cell(at(0, 0)), Ok(RevealResult::GameOver(at(0, 0))));
    game.tick_at(60);
    assert_eq!(game.elapsed_seconds(), 7);
}

#[test]
fn the_clock_starts_a_second_early() {
    let mut game = GameState::new(GameDifficulty::beginner()).unwrap();
    game.tick();
    assert_eq!(game.elapsed_seconds(), 0);
    assert_eq!(game.reveal_cell(at(0, 0)), Ok(RevealResult::Continue));
    if *game.status() == GameStatus::InProgress {
        game.tick();
        let shown = game.elapsed_seconds();
        assert!(shown == 1 || shown == 2);
    }
}

#[test]
fn restart_begins_anew() {
    let mut game = wall();
    assert_eq!(game.reveal_cell(at(0, 0)), Ok(RevealResult::Continue));
    assert_eq!(game.toggle_flag(at(4, 4)), Ok(true));
    game.tick_at(12);
    assert_eq!(game.restart(), Ok(()));
    assert_eq!(*game.status(), GameStatus::New);
    assert_eq!(*game.difficulty(), difficulty(5, 5, 5));
    assert!(game.revealed_cells().is_empty());
    assert!(game.flagged_cells().is_empty());
    assert_eq!(game.elapsed_seconds(), 0);
    assert_eq!(game.flags_remaining(), 0);
    for x in 0..5 {
        for y in 0..5 {
            assert_eq!(game.display_cell(at(x, y)), Ok(String::new()));
        }
    }
    assert_eq!(game.reveal_cell(at(2, 2)), Ok(RevealResult::Continue));
}

#[test]
fn restart_after_a_loss() {
    let mut game = corners();
    assert_eq!(game.reveal_cell(at(0, 0)), Ok(RevealResult::GameOver(at(0, 0))));
    assert_eq!(game.restart(), Ok(()));
    assert_eq!(*game.status(), GameStatus::New);
    assert!(game.revealed_cells().is_empty());
    assert_eq!(game.reveal_cell(at(0, 0)), Ok(RevealResult::Continue));
}

#[test]
fn change_difficulty_begins_anew_on_another_board() {
    let mut game = wall();
    assert_eq!(game.reveal_cell(at(0, 0)), Ok(RevealResult::Continue));
    game.tick_at(30);
    assert_eq!(game.change_difficulty(GameDifficulty::expert()), Ok(()));
    assert_eq!(*game.status(), GameStatus::New);
    assert_eq!(*game.difficulty(), GameDifficulty::expert());
    assert!(game.revealed_cells().is_empty());
    assert!(game.flagged_cells().is_empty());
    assert_eq!(game.elapsed_seconds(), 0);
    assert_eq!(game.display_cell(at(29, 15)), Ok(String::new()));
    assert_eq!(game.display_cell(at(30, 0)), Err(GameError::InvalidCellPosition(30, 0)));
}

#[test]
fn change_difficulty_keeps_the_game_where_the_difficulty_is_invalid() {
    let mut game = wall();
    assert_eq!(game.reveal_cell(at(0, 0)), Ok(RevealResult::Continue));
    assert_eq!(
        game.change_difficulty(difficulty(4, 4, 16)),
        Err(GameError::InvalidMinesCount(16, 16))
    );
    assert_eq!(
        game.change_difficulty(difficulty(4, 0, 1)),
        Err(GameError::InvalidBoardSize(4, 0))
    );
    assert_eq!(*game.status(), GameStatus::InProgress);
    assert_eq!(*game.difficulty(), difficulty(5, 5, 5));
    assert_eq!(game.revealed_cells().len(), 10);
}

#[test]
fn clearing_the_lists_keeps_the_board() {
    let mut game = wall();
    assert_eq!(game.reveal_cell(at(0, 0)), Ok(RevealResult::Continue));
    assert_eq!(game.toggle_flag(at(4, 4)), Ok(true));
    game.clear_revealed_cells();
    assert!(game.revealed_cells().is_empty());
    assert_eq!(game.flagged_cells(), &vec![at(4, 4)]);
    game.clear_flagged_cells();
    assert!(game.flagged_cells().is_empty());
    assert_eq!(game.display_cell(at(0, 0)), Ok(" ".to_string()));
    assert_eq!(game.display_cell(at(4, 4)), Ok("🚩".to_string()));
    assert_eq!(game.toggle_flag(at(4, 4)), Ok(true));
    assert!(game.flagged_cells().is_empty());
    assert_eq!(game.display_cell(at(4, 4)), Ok(String::new()));
}

#[test]
fn game_neighbours_are_those_of_the_board() {
    let game = GameState::new(GameDifficulty::expert()).unwrap();
    assert_eq!(game.adjacent_positions(at(29, 15)), vec![at(28, 14), at(28, 15), at(29, 14)]);
    assert_eq!(game.adjacent_positions(at(0, 0)), vec![at(0, 1), at(1, 0), at(1, 1)]);
    assert_eq!(game.adjacent_positions(at(5, 5)).len(), 8);
}

#[test]
fn chording_needs_as_many_flags_as_the_number() {
    let mut game = corners();
    assert_eq!(game.reveal_cell(at(1, 1)), Ok(RevealResult::Continue));
    assert_eq!(game.display_cell(at(1, 1)), Ok("2".to_string()));
    assert_eq!(game.chording(at(1, 1)), Ok(RevealResult::CantReveal));
    assert_eq!(game.toggle_flag(at(0, 0)), Ok(true));
    assert_eq!(game.chording(at(1, 1)), Ok(RevealResult::CantReveal));
    assert_eq!(game.revealed_cells(), &vec![at(1, 1)]);
    assert_eq!(game.toggle_flag(at(2, 2)), Ok(true));
    assert_eq!(game.toggle_flag(at(0, 1)), Ok(true));
    assert_eq!(game.chording(at(1, 1)), Ok(RevealResult::CantReveal));
    assert_eq!(game.revealed_cells(), &vec![at(1, 1)]);
    assert_eq!(*game.status(), GameStatus::InProgress);
    assert_eq!(game.toggle_flag(at(0, 1)), Ok(true));
    assert_eq!(game.chording(at(1, 1)), Ok(RevealResult::Continue));
    assert_eq!(
        sorted(game.revealed_cells()),
        vec![at(0, 1), at(0, 2), at(1, 0), at(1, 1), at(1, 2), at(2, 0), at(2, 1)]
    );
    assert_eq!(*game.status(), GameStatus::Won);
}

#[test]
fn chording_on_wrong_flags_hits_the_mine() {
    let mut game = corners();
    assert_eq!(game.reveal_cell(at(1, 1)), Ok(RevealResult::Continue));
    assert_eq!(game.toggle_flag(at(0, 1)), Ok(true));
    assert_eq!(game.toggle_flag(at(0, 2)), Ok(true));
    assert_eq!(game.chording(at(1, 1)), Ok(RevealResult::GameOver(at(0, 0))));
    assert_eq!(*game.status(), GameStatus::Lost);
    assert_eq!(game.revealed_cells(), &vec![at(1, 1), at(0, 0), at(2, 2)]);
    assert_eq!(game.display_cell(at(1, 0)), Ok(String::new()));
    assert_eq!(game.display_cell(at(0, 1)), Ok("🚩".to_string()));
}

#[test]
fn chording_reveals_before_it_hits_a_mine_further_on() {
    let mut game = corners();
    assert_eq!(game.reveal_cell(at(1, 1)), Ok(RevealResult::Continue));
    assert_eq!(game.toggle_flag(at(0, 0)), Ok(true));
    assert_eq!(game.toggle_flag(at(0, 1)), Ok(true));
    assert_eq!(game.chording(at(1, 1)), Ok(RevealResult::GameOver(at(2, 2))));
    assert_eq!(*game.status(), GameStatus::Lost);
    assert_eq!(
        game.revealed_cells(),
        &vec![at(1, 1), at(0, 2), at(1, 2), at(1, 0), at(2, 0), at(2, 1), at(2, 2)]
    );
}

#[test]
fn chording_on_a_hidden_or_flagged_cell_does_nothing() {
    let mut game = corners();
    assert_eq!(game.chording(at(1, 1)), Ok(RevealResult::CantReveal));
    assert_eq!(game.toggle_flag(at(1, 1)), Ok(true));
    assert_eq!(game.chording(at(1, 1)), Ok(RevealResult::CantReveal));
    assert!(game.revealed_cells().is_empty());
    let mut fresh = GameState::new(GameDifficulty::beginner()).unwrap();
    assert_eq!(fresh.chording(at(4, 4)), Ok(RevealResult::CantReveal));
    assert_eq!(*fresh.status(), GameStatus::New);
}

#[test]
fn chording_with_nothing_hidden_around_cant_reveal() {
    let mut game = wall();
    assert_eq!(game.reveal_cell(at(0, 0)), Ok(RevealResult::Continue));
    assert_eq!(game.chording(at(0, 2)), Ok(RevealResult::CantReveal));
    assert_eq!(game.toggle_flag(at(2, 1)), Ok(true));
    assert_eq!(game.toggle_flag(at(2, 2)), Ok(true));
    assert_eq!(game.toggle_flag(at(2, 3)), Ok(true));
    assert_eq!(game.chording(at(1, 2)), Ok(RevealResult::CantReveal));
    assert_eq!(game.revealed_cells().len(), 10);
}

#[test]
fn a_large_board_floods_in_one_command() {
    let mut game = game_with_mines(100, 100, vec![at(99, 99)]);
    assert_eq!(game.reveal_cell(at(0, 0)), Ok(RevealResult::Continue));
    assert_eq!(game.revealed_cells().len(), 9999);
    assert_eq!(*game.status(), GameStatus::Won);
}
