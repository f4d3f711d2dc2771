//! The agent's action space: the three moves relative to the current heading,
//! and their one-hot encoding for the value network.

use vstd::prelude::*;
use crate::grid::{spec_turn_left, spec_turn_right, turn_left, turn_right, Direction};

verus! {

/// A move relative to the snake's current heading.
#[derive(Clone, Copy, PartialEq, Eq, Structural, Debug)]
pub enum Action {
    Straight,
    TurnRight,
    TurnLeft,
}

/// Position of an action in its one-hot encoding: straight, right, left.
pub open spec fn spec_action_index(a: Action) -> int {
    match a {
        Action::Straight => 0,
        Action::TurnRight => 1,
        Action::TurnLeft => 2,
    }
}

/// The heading after performing an action: straight keeps the heading, the
/// turns move one step around the clockwise cycle.
pub open spec fn spec_apply_action(a: Action, d: Direction) -> Direction {
    match a {
        Action::Straight => d,
        Action::TurnRight => spec_turn_right(d),
        Action::TurnLeft => spec_turn_left(d),
    }
}

/// The length-3 one-hot vector with a single 1 at `k`.
pub open spec fn spec_one_hot(k: int) -> Seq<u8> {
    seq![
        if k == 0 { 1u8 } else { 0u8 },
        if k == 1 { 1u8 } else { 0u8 },
        if k == 2 { 1u8 } else { 0u8 },
    ]
}

impl Action {
    pub fn index(self) -> (r: usize)
        ensures
            r == spec_action_index(self),
    {
        match self {
            Action::Straight => 0,
            Action::TurnRight => 1,
            Action::TurnLeft => 2,
        }
    }

    /// The action at position `k` of the one-hot encoding.
    pub fn from_index(k: usize) -> (r: Action)
        requires
            k < 3,
        ensures
            spec_action_index(r) == k,
    {
        if k == 0 {
            Action::Straight
        } else if k == 1 {
            Action::TurnRight
        } else {
            Action::TurnLeft
        }
    }

    /// One-hot encoding over {straight, turn right, turn left}.
    pub fn one_hot(self) -> (r: Vec<u8>)
        ensures
            r@ == spec_one_hot(spec_action_index(self)),
    {
        let mut v: Vec<u8> = Vec::new();
        let k = self.index();
        v.push(if k == 0 { 1 } else { 0 });
        v.push(if k == 1 { 1 } else { 0 });
        v.push(if k == 2 { 1 } else { 0 });
        proof {
            assert(v@ =~= spec_one_hot(spec_action_index(self)));
        }
        v
    }

    /// The heading the snake travels after this action.
    pub fn apply_to(self, d: Direction) -> (r: Direction)
        ensures
            r == spec_apply_action(self, d),
    {
        match self {
            Action::Straight => d,
            Action::TurnRight => turn_right(d),
            Action::TurnLeft => turn_left(d),
        }
    }
}

} // verus!
