use crate::board::{board_doubles_fit, board_total, grid, has_empty, holds_value, rotated, spawned, Board, Game};
use crate::input::{ButtonEvent, RotaryDirection};
use crate::line::{slid_left, slid_right};
use vstd::prelude::*;

verus! {

/// An input that the game reacts to.
#[derive(Debug, Clone, Copy, PartialEq, Eq, Structural)]
pub enum Input {
    Rotary(RotaryDirection),
    Button(ButtonEvent),
}

/// Where the game stands after an input.
#[derive(Debug, Clone, Copy, PartialEq, Eq, Structural)]
pub enum Outcome {
    Continue,
    Won,
    Lost,
}

/// `after` is `before` moved the way that a rotation in `direction` asks:
/// clockwise towards the last cell of each row, counter-clockwise towards the first.
pub open spec fn moved_by(before: Board, after: Board, direction: RotaryDirection) -> bool {
    forall|i: int|
        0 <= i < 4 ==> #[trigger] after[i]@ == match direction {
            RotaryDirection::Clockwise => slid_right(before[i]@),
            RotaryDirection::CounterClockwise => slid_left(before[i]@),
        }
}

/// Applies one input to the game. A rotation moves the board (clockwise to the
/// right, counter-clockwise to the left); a board that then holds 2048 is won,
/// one that is then full is lost, and otherwise a tile is spawned. A press or a
/// hold of the button turns the board a quarter.
pub fn apply_input(game: &mut Game, input: Input) -> (r: Outcome)
    requires
        input is Rotary ==> board_doubles_fit(old(game).board),
    ensures
        input is Button ==> r == Outcome::Continue,
        input is Button ==> grid(final(game).board) == rotated(grid(old(game).board)),
        input is Button ==> final(game).rng_seed == old(game).rng_seed,
        input is Rotary ==> exists|m: Board|
            {
                &&& #[trigger] moved_by(old(game).board, m, input->Rotary_0)
                &&& (r == Outcome::Won) == holds_value(m, 2048)
                &&& (r == Outcome::Lost) == (!holds_value(m, 2048) && !has_empty(m))
                &&& r != Outcome::Continue ==> final(game).board == m
                    && final(game).rng_seed == old(game).rng_seed
                &&& r == Outcome::Continue ==> spawned(m, final(game).board)
                    && final(game).rng_seed == (old(game).rng_seed + board_total(m))
                    % 0x1_0000_0000_0000_0000
            },
{
    match input {
        Input::Button(_) => {
            game.rotate();
            Outcome::Continue
        },
        Input::Rotary(d) => {
            match d {
                RotaryDirection::Clockwise => game.move_right(),
                RotaryDirection::CounterClockwise => game.move_left(),
            }
            let ghost m = game.board;
            let r = match game.check_win_loss() {
                Some(true) => Outcome::Won,
                Some(false) => Outcome::Lost,
                None => {
                    let spawn = game.add_tile();
                    assert(spawn is Ok);
                    Outcome::Continue
                },
            };
            // the board right after the move witnesses the postcondition
            assert({
                &&& moved_by(old(game).board, m, input->Rotary_0)
                &&& (r == Outcome::Won) == holds_value(m, 2048)
                &&& (r == Outcome::Lost) == (!holds_value(m, 2048) && !has_empty(m))
                &&& r != Outcome::Continue ==> game.board == m
                    && game.rng_seed == old(game).rng_seed
                &&& r == Outcome::Continue ==> spawned(m, game.board)
                    && game.rng_seed == (old(game).rng_seed + board_total(m))
                    % 0x1_0000_0000_0000_0000
            });
            r
        },
    }
}

} // verus!
