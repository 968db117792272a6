use game2048::board::{add_random_tile, board_sum, has_empty_cell, place_tile, BoardFullError, Game};
use game2048::line::squash_line;

fn total_of(board: &[[u16; 4]; 4]) -> u16 {
    board.iter().flatten().sum::<u16>()
}

#[test]
fn test_squash_line_basic() {
    let mut line = [2, 2, 0, 0];
    squash_line(&mut line);
    assert_eq!(line, [4, 0, 0, 0]);
}

#[test]
fn test_squash_line_moves_zeros_to_end() {
    let mut line = [0, 0, 2, 0];
    squash_line(&mut line);
    assert_eq!(line, [2, 0, 0, 0]);
}

#[test]
fn test_squash_line_dual() {
    let mut line = [2, 2, 2, 2];
    squash_line(&mut line);
    assert_eq!(line, [4, 4, 0, 0]);
}

#[test]
fn test_squash_line_picks_correct_value() {
    let mut line = [2, 2, 2, 4];
    squash_line(&mut line);
    assert_eq!(line, [4, 2, 4, 0]);
}

#[test]
fn test_squash_line_different_values() {
    let mut line = [2, 2, 4, 4];
    squash_line(&mut line);
    assert_eq!(line, [4, 8, 0, 0]);
}

#[test]
fn test_squash_line_does_not_merge_different_values() {
    let mut line = [2, 4, 8, 16];
    squash_line(&mut line);
    assert_eq!(line, [2, 4, 8, 16]);
}

#[test]
fn test_add_random_tile() {
    let mut board = [[0; 4]; 4];
    add_random_tile(&mut board, 54).unwrap();
    let total_of_tiles = total_of(&board);
    assert_eq!(total_of_tiles, 2);
}

#[test]
fn test_add_random_tile_with_different_seeds() {
    let mut board1 = [[0; 4]; 4];
    add_random_tile(&mut board1, 10).unwrap();
    let mut board2 = [[0; 4]; 4];
    add_random_tile(&mut board2, 12).unwrap();
    assert_ne!(board1, board2);
}

#[test]
fn test_add_random_tile_does_not_use_same_location() {
    let mut board = [[0; 4]; 4];
    add_random_tile(&mut board, 0).unwrap();
    add_random_tile(&mut board, 0).unwrap();
    let total_of_tiles = total_of(&board);
    assert_eq!(total_of_tiles, 4);
}

#[test]
fn test_initialization() {
    let game = Game::create();
    assert_eq!(game.board, [[0; 4]; 4]);
}

#[test]
fn test_add_tile() {
    let mut game = Game::create();
    game.add_tile().unwrap();
    let total_of_tiles = total_of(&game.board);
    assert_eq!(total_of_tiles, 2);
    game.add_tile().unwrap();
    let total_of_tiles = total_of(&game.board);
    assert_eq!(total_of_tiles, 4);
}

#[test]
fn test_move_left() {
    let mut game = Game::create();
    game.board = [[0, 2, 0, 2], [0, 0, 4, 2], [8, 0, 0, 2], [2, 2, 0, 2]];
    game.move_left();
    assert_eq!(game.board, [[4, 0, 0, 0], [4, 2, 0, 0], [8, 2, 0, 0], [4, 2, 0, 0],]);
}

#[test]
fn test_move_right() {
    let mut game = Game::create();
    game.board = [[0, 2, 0, 2], [4, 2, 0, 0], [8, 0, 0, 2], [2, 2, 0, 2]];
    game.move_right();
    assert_eq!(game.board, [[0, 0, 0, 4], [0, 0, 4, 2], [0, 0, 8, 2], [0, 0, 2, 4],]);
}

#[test]
fn test_rotate() {
    let mut game = Game::create();
    game.board = [[2, 4, 0, 8], [4, 2, 4, 0], [0, 4, 2, 4], [4, 0, 4, 2]];
    game.rotate();
    assert_eq!(game.board, [[4, 0, 4, 2], [0, 4, 2, 4], [4, 2, 4, 0], [2, 4, 0, 8],]);
    game.rotate();
    assert_eq!(game.board, [[2, 4, 0, 4], [4, 2, 4, 0], [0, 4, 2, 4], [8, 0, 4, 2],]);
}

#[test]
fn test_check_win_loss_for_winning_game() {
    let mut game = Game::create();
    game.board = [[0, 2, 0, 0], [0, 8, 0, 0], [0, 0, 16, 0], [4, 0, 0, 2048]];
    assert_eq!(game.check_win_loss(), Some(true));
}

#[test]
fn test_check_win_loss_for_losing_game() {
    let mut game = Game::create();
    game.board = [[2, 4, 2, 4], [4, 2, 4, 2], [2, 4, 2, 4], [4, 2, 4, 2]];
    assert_eq!(game.check_win_loss(), Some(false));
}

#[test]
fn test_check_win_loss_for_game_in_progress() {
    let mut game = Game::create();
    game.board = [[2, 2, 2, 2], [2, 2, 0, 2], [2, 2, 2, 2], [2, 2, 2, 2]];
    assert_eq!(game.check_win_loss(), None);
}

#[test]
fn won_on_full_board_with_2048() {
    let mut game = Game::create();
    game.board = [[2, 4, 2, 4], [4, 2, 4, 2], [2, 4, 2048, 4], [4, 2, 4, 2]];
    assert_eq!(game.check_win_loss(), Some(true));
}

#[test]
fn add_tile_on_full_board_fails_and_changes_nothing() {
    let mut game = Game::create();
    let full = [[2, 4, 2, 4], [4, 2, 4, 2], [2, 4, 2, 4], [4, 2, 4, 2]];
    game.board = full;
    assert_eq!(game.add_tile(), Err(BoardFullError));
    assert_eq!(game.board, full);
    assert_eq!(game.rng_seed, 0);
}

#[test]
fn add_random_tile_on_full_board_fails() {
    let full = [[2, 4, 2, 4], [4, 2, 4, 2], [2, 4, 2, 4], [4, 2, 4, 2]];
    let mut board = full;
    assert_eq!(add_random_tile(&mut board, 7), Err(BoardFullError));
    assert_eq!(board, full);
}

#[test]
fn add_random_tile_fills_the_only_empty_cell() {
    let mut board = [[2, 4, 2, 4], [4, 2, 4, 2], [2, 4, 0, 4], [4, 2, 4, 2]];
    add_random_tile(&mut board, 3).unwrap();
    assert_eq!(board, [[2, 4, 2, 4], [4, 2, 4, 2], [2, 4, 2, 4], [4, 2, 4, 2]]);
}

#[test]
fn add_tile_advances_seed_by_board_sum() {
    let mut game = Game::create();
    game.board = [[4, 0, 0, 0], [0, 8, 0, 0], [0, 0, 0, 0], [0, 0, 0, 16]];
    game.rng_seed = 5;
    game.add_tile().unwrap();
    assert_eq!(game.rng_seed, 5 + 28);
    assert_eq!(total_of(&game.board), 30);
}

#[test]
fn place_tile_uses_drawn_cell_modulo_four() {
    let mut board = [[0; 4]; 4];
    assert!(place_tile(&mut board, 5, 10));
    let mut expected = [[0; 4]; 4];
    expected[1][2] = 2;
    assert_eq!(board, expected);
    assert!(!place_tile(&mut board, 1, 6));
    assert_eq!(board, expected);
}

#[test]
fn empty_cell_and_sum_queries() {
    let board = [[2, 4, 2, 4], [4, 2, 4, 2], [2, 4, 2, 4], [4, 2, 4, 2048]];
    assert!(!has_empty_cell(&board));
    assert_eq!(board_sum(&board), 2 + 4 + 2 + 4 + 4 + 2 + 4 + 2 + 2 + 4 + 2 + 4 + 4 + 2 + 4 + 2048);
    let board = [[0; 4]; 4];
    assert!(has_empty_cell(&board));
    assert_eq!(board_sum(&board), 0);
}

#[test]
fn rotate_four_times_restores_board() {
    let mut game = Game::create();
    let start = [[2, 4, 0, 8], [16, 2, 4, 0], [0, 32, 2, 4], [4, 0, 64, 2]];
    game.board = start;
    for _ in 0..4 {
        game.rotate();
    }
    assert_eq!(game.board, start);
}

#[test]
fn move_keeps_sum() {
    let mut game = Game::create();
    game.board = [[2, 2, 4, 4], [8, 8, 8, 0], [0, 16, 0, 16], [2, 4, 8, 16]];
    let before = total_of(&game.board);
    game.move_left();
    assert_eq!(total_of(&game.board), before);
    game.move_right();
    assert_eq!(total_of(&game.board), before);
}

#[test]
fn left_then_right_without_merges_only_moves_gaps() {
    let mut line = [2, 0, 4, 8];
    squash_line(&mut line);
    assert_eq!(line, [2, 4, 8, 0]);
    let mut game = Game::create();
    game.board = [[2, 0, 4, 8], [0, 0, 0, 0], [16, 0, 0, 2], [0, 4, 0, 0]];
    game.move_left();
    game.move_right();
    assert_eq!(game.board, [[0, 2, 4, 8], [0, 0, 0, 0], [0, 0, 16, 2], [0, 0, 0, 4]]);
}

#[test]
fn move_right_merges_from_the_right_edge() {
    let mut game = Game::create();
    game.board = [[2, 2, 2, 4], [2, 2, 2, 2], [0, 0, 0, 0], [4, 0, 4, 4]];
    game.move_right();
    assert_eq!(game.board, [[0, 2, 4, 4], [0, 0, 4, 4], [0, 0, 0, 0], [0, 0, 4, 8]]);
}
