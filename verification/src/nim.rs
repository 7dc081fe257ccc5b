//! A subtraction game: a pile of chips, each move removes 1 to 3 chips,
//! the player who takes the last chip wins.  The two players are 0 and 1.
//!
//! This concrete game exercises the abstract contract; the engine itself
//! never depends on it.

use vstd::prelude::*;
use crate::state::{State, RESULT_SCALE};

verus! {

/// One legal move of the subtraction game: remove one, two or three chips.
#[derive(Clone, Copy, PartialEq, Eq, Structural, Debug)]
pub enum NimAction {
    One,
    Two,
    Three,
}

/// The number of chips an action removes.
pub open spec fn spec_action_chips(a: NimAction) -> u32 {
    match a {
        NimAction::One => 1,
        NimAction::Two => 2,
        NimAction::Three => 3,
    }
}

impl NimAction {
    /// Decode an action identifier: `1`, `2` and `3` remove that many
    /// chips, anything else is no action of this game.
    pub fn from_u32(x: u32) -> (r: Option<NimAction>)
        ensures
            r matches Some(a) ==> 1 <= x <= 3 && spec_action_chips(a) == x,
            1 <= x <= 3 ==> r is Some,
            x == 0 || x > 3 ==> r is None,
    {
        match x {
            1 => Some(NimAction::One),
            2 => Some(NimAction::Two),
            3 => Some(NimAction::Three),
            _ => None,
        }
    }

    /// The action identifier: the number of chips removed.
    pub fn to_u32(self) -> (r: u32)
        ensures
            r == spec_action_chips(self),
    {
        match self {
            NimAction::One => 1,
            NimAction::Two => 2,
            NimAction::Three => 3,
        }
    }
}

/// One position of the subtraction game.
#[derive(Clone, Copy, PartialEq, Eq, Structural, Debug)]
pub struct NimState {
    /// The player (0 or 1) who made the move that led here.
    pub player_just_moved: u32,
    /// Chips left on the pile; 0 means the game is over.
    pub chips: u32,
}

impl NimState {
    /// A fresh game with `chips` on the pile; player 0 moves first, so the
    /// player recorded as having just moved is player 1.
    pub fn new(chips: u32) -> (s: NimState)
        ensures
            s.chips == chips,
            s.player_just_moved == 1,
    {
        NimState { player_just_moved: 1, chips }
    }
}

impl State for NimState {
    open spec fn spec_player_just_moved(&self) -> u32 {
        self.player_just_moved
    }

    open spec fn spec_actions(&self) -> Seq<u32> {
        if self.chips >= 3 {
            seq![1u32, 2u32, 3u32]
        } else if self.chips == 2 {
            seq![1u32, 2u32]
        } else if self.chips == 1 {
            seq![1u32]
        } else {
            Seq::empty()
        }
    }

    open spec fn spec_apply(&self, action: u32) -> NimState {
        NimState {
            player_just_moved: if self.player_just_moved == 0 {
                1
            } else {
                0
            },
            chips: (self.chips - action) as u32,
        }
    }

    open spec fn spec_result(&self, player: u32) -> u64 {
        if player == self.player_just_moved {
            RESULT_SCALE
        } else {
            0
        }
    }

    open spec fn height(&self) -> nat {
        self.chips as nat
    }

    proof fn actions_unique(&self) {
    }

    proof fn apply_decreases(&self, action: u32) {
    }

    fn get_player_just_moved(&self) -> (p: u32) {
        self.player_just_moved
    }

    fn get_actions(&self) -> (actions: Vec<u32>) {
        let mut actions: Vec<u32> = Vec::new();
        if self.chips >= 1 {
            actions.push(1);
        }
        if self.chips >= 2 {
            actions.push(2);
        }
        if self.chips >= 3 {
            actions.push(3);
        }
        proof {
            assert(actions@ =~= self.spec_actions());
        }
        actions
    }

    fn get_action_strings(&self) -> (labels: Vec<String>) {
        let mut labels: Vec<String> = Vec::new();
        if self.chips >= 1 {
            labels.push(String::from_str("take 1"));
        }
        if self.chips >= 2 {
            labels.push(String::from_str("take 2"));
        }
        if self.chips >= 3 {
            labels.push(String::from_str("take 3"));
        }
        labels
    }

    fn duplicate(&self) -> (s: NimState) {
        NimState { player_just_moved: self.player_just_moved, chips: self.chips }
    }

    fn apply(&self, action: u32) -> (s: NimState) {
        proof {
            assert(1 <= action <= 3 && action <= self.chips);
        }
        NimState {
            player_just_moved: if self.player_just_moved == 0 {
                1
            } else {
                0
            },
            chips: self.chips - action,
        }
    }

    fn get_result(&self, player: u32) -> (r: u64) {
        if player == self.player_just_moved {
            RESULT_SCALE
        } else {
            0
        }
    }
}

} // verus!
