use vstd::prelude::*;

verus! {

/// A detent of the rotary encoder.
#[derive(Debug, Clone, Copy, PartialEq, Eq, Structural)]
pub enum RotaryDirection {
    Clockwise,
    CounterClockwise,
}

/// What a press of the button was, by how long it lasted.
#[derive(Debug, Clone, Copy, PartialEq, Eq, Structural)]
pub enum ButtonEvent {
    Press,
    Hold,
}

/// The direction that a change of the two encoder lines from `last` to `new`
/// stands for, if it is one of the recognised Gray-code steps.
pub open spec fn step_direction(last: (bool, bool), new: (bool, bool)) -> Option<RotaryDirection> {
    if (last == (false, true) && new == (true, true)) || (last == (true, false) && new == (false, false)) {
        Some(RotaryDirection::Clockwise)
    } else if (last == (true, false) && new == (true, true)) || (last == (false, true) && new == (false, false)) {
        Some(RotaryDirection::CounterClockwise)
    } else {
        None
    }
}

/// Turns successive levels of the two encoder lines into rotation steps.
pub struct QuadratureDecoder {
    last_state: (bool, bool),
}

impl View for QuadratureDecoder {
    type V = (bool, bool);

    /// The levels of the two lines seen last.
    closed spec fn view(&self) -> (bool, bool) {
        self.last_state
    }
}

impl QuadratureDecoder {
    /// A decoder that has seen both lines low.
    pub fn new() -> (d: Self)
        ensures
            d@ == (false, false),
    {
        QuadratureDecoder { last_state: (false, false) }
    }

    /// Reports the direction of the change from the levels seen last to
    /// `new_state`, or nothing for any other change, and remembers `new_state`
    /// in either case.
    pub fn observe(&mut self, new_state: (bool, bool)) -> (r: Option<RotaryDirection>)
        ensures
            r == step_direction(old(self)@, new_state),
            final(self)@ == new_state,
    {
        let last = self.last_state;
        let direction = if (last.0 == false && last.1 == true && new_state.0 == true && new_state.1 == true)
            || (last.0 == true && last.1 == false && new_state.0 == false && new_state.1 == false) {
            Some(RotaryDirection::Clockwise)
        } else if (last.0 == true && last.1 == false && new_state.0 == true && new_state.1 == true)
            || (last.0 == false && last.1 == true && new_state.0 == false && new_state.1 == false) {
            Some(RotaryDirection::CounterClockwise)
        } else {
            None
        };
        self.last_state = new_state;
        direction
    }
}

/// Shortest press, in milliseconds, that counts as `Press`.
pub const PRESS_MIN_MS: u64 = 50;

/// Shortest press, in milliseconds, that counts as `Hold`.
pub const HOLD_MIN_MS: u64 = 500;

/// Classifies a press by the time between the falling and the rising edge:
/// nothing when that time could not be measured, `Press` from 50 ms up to
/// (not including) 500 ms, else `Hold`.
pub fn classify_press(elapsed_ms: Option<u64>) -> (r: Option<ButtonEvent>)
    ensures
        r == match elapsed_ms {
            None => None,
            Some(d) => if PRESS_MIN_MS <= d < HOLD_MIN_MS {
                Some(ButtonEvent::Press)
            } else {
                Some(ButtonEvent::Hold)
            },
        },
{
    match elapsed_ms {
        None => None,
        Some(d) => {
            if PRESS_MIN_MS <= d && d < HOLD_MIN_MS {
                Some(ButtonEvent::Press)
            } else {
                Some(ButtonEvent::Hold)
            }
        },
    }
}

/// A change of both encoder lines at once is never taken for a step: it
/// stands for contact bounce or a missed sample.
pub proof fn lemma_double_flip_is_no_step(last: (bool, bool))
    ensures
        step_direction(last, (!last.0, !last.1)) is None,
{
}

} // verus!
