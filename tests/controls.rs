use game2048::board::Game;
use game2048::input::{classify_press, ButtonEvent, QuadratureDecoder, RotaryDirection};
use game2048::label::value_to_text;
use game2048::session::{apply_input, Input, Outcome};

#[test]
fn decoder_clockwise_steps() {
    let mut d = QuadratureDecoder::new();
    assert_eq!(d.observe((false, true)), None);
    assert_eq!(d.observe((true, true)), Some(RotaryDirection::Clockwise));
    d.observe((true, false));
    assert_eq!(d.observe((false, false)), Some(RotaryDirection::Clockwise));
}

#[test]
fn decoder_counter_clockwise_steps() {
    let mut d = QuadratureDecoder::new();
    d.observe((true, false));
    assert_eq!(d.observe((true, true)), Some(RotaryDirection::CounterClockwise));
    d.observe((false, true));
    assert_eq!(d.observe((false, false)), Some(RotaryDirection::CounterClockwise));
}

#[test]
fn decoder_ignores_double_flips() {
    let mut d = QuadratureDecoder::new();
    assert_eq!(d.observe((true, true)), None);
    assert_eq!(d.observe((false, false)), None);
    d.observe((false, true));
    assert_eq!(d.observe((true, false)), None);
    assert_eq!(d.observe((true, false)), None);
}

#[test]
fn press_classification() {
    assert_eq!(classify_press(Some(100)), Some(ButtonEvent::Press));
    assert_eq!(classify_press(Some(600)), Some(ButtonEvent::Hold));
    assert_eq!(classify_press(Some(10)), Some(ButtonEvent::Hold));
    assert_eq!(classify_press(Some(50)), Some(ButtonEvent::Press));
    assert_eq!(classify_press(Some(499)), Some(ButtonEvent::Press));
    assert_eq!(classify_press(Some(500)), Some(ButtonEvent::Hold));
    assert_eq!(classify_press(None), None);
}

#[test]
fn labels_of_tile_values() {
    assert_eq!(value_to_text(2), "2");
    assert_eq!(value_to_text(16), "16");
    assert_eq!(value_to_text(2048), "2048");
    assert_eq!(value_to_text(0), "");
    assert_eq!(value_to_text(3), "");
    assert_eq!(value_to_text(4096), "");
}

#[test]
fn button_rotates_the_board() {
    let mut game = Game::create();
    game.board = [[2, 4, 0, 8], [4, 2, 4, 0], [0, 4, 2, 4], [4, 0, 4, 2]];
    assert_eq!(apply_input(&mut game, Input::Button(ButtonEvent::Hold)), Outcome::Continue);
    assert_eq!(game.board, [[4, 0, 4, 2], [0, 4, 2, 4], [4, 2, 4, 0], [2, 4, 0, 8]]);
}

#[test]
fn clockwise_moves_right_and_spawns() {
    let mut game = Game::create();
    game.board = [[2, 2, 0, 0], [0, 0, 0, 0], [0, 0, 0, 0], [0, 0, 0, 0]];
    let r = apply_input(&mut game, Input::Rotary(RotaryDirection::Clockwise));
    assert_eq!(r, Outcome::Continue);
    assert_eq!(game.board[0][3], 4);
    assert_eq!(game.board.iter().flatten().sum::<u16>(), 6);
}

#[test]
fn reaching_2048_wins() {
    let mut game = Game::create();
    game.board = [[1024, 1024, 0, 0], [0, 0, 0, 0], [0, 0, 0, 0], [0, 0, 0, 0]];
    let r = apply_input(&mut game, Input::Rotary(RotaryDirection::CounterClockwise));
    assert_eq!(r, Outcome::Won);
    assert_eq!(game.board[0], [2048, 0, 0, 0]);
}

#[test]
fn full_board_after_move_loses() {
    let mut game = Game::create();
    game.board = [[2, 4, 2, 4], [4, 2, 4, 2], [2, 4, 2, 4], [4, 2, 4, 2]];
    let r = apply_input(&mut game, Input::Rotary(RotaryDirection::Clockwise));
    assert_eq!(r, Outcome::Lost);
    assert_eq!(game.board, [[2, 4, 2, 4], [4, 2, 4, 2], [2, 4, 2, 4], [4, 2, 4, 2]]);
}
