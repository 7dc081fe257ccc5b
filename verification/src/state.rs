//! The abstract game-state contract consumed by the search engine.
//!
//! A game exposes the identity of the player who moved last, the set of
//! legal actions, a pure transition to a successor position, and terminal
//! scoring.  The engine never implements a game itself; it only relies on
//! the contracts below.

use vstd::prelude::*;

verus! {

/// Scale for terminal results.  A result is an integer in
/// `[0, RESULT_SCALE]`: `RESULT_SCALE` is a win, `0` a loss, and
/// `RESULT_SCALE / 2` the conventional draw value, so accumulated win
/// mass stays exact integer arithmetic.
pub const RESULT_SCALE: u64 = 2;

/// One full game position.
///
/// Implementations must be pure values: applying an action produces an
/// independent successor and never mutates the receiver, so tree nodes and
/// rollout copies cannot alias.  The executable methods are pinned to the
/// spec-level model (`spec_actions`, `spec_apply`, ...), which also makes
/// repeated calls on the same state return the same answer.
pub trait State: Sized {
    /// Model of the player who moved last at this position.
    spec fn spec_player_just_moved(&self) -> u32;

    /// Model of the legal actions at this position, in a fixed order.
    /// Empty exactly when the position is terminal.
    spec fn spec_actions(&self) -> Seq<u32>;

    /// Model of the pure transition: the successor reached by `action`.
    spec fn spec_apply(&self, action: u32) -> Self;

    /// Model of terminal scoring for `player`, in `[0, RESULT_SCALE]`.
    spec fn spec_result(&self, player: u32) -> u64;

    /// An upper bound on how many moves the game can still last; every
    /// legal action strictly decreases it, so games are finite.
    spec fn height(&self) -> nat;

    /// Legal actions are unique per position: an action identifier occurs
    /// at most once in the legal-action sequence.
    proof fn actions_unique(&self)
        ensures
            self.spec_actions().no_duplicates(),
    ;

    /// Applying a legal action strictly shrinks the remaining game height,
    /// so every rollout terminates.
    proof fn apply_decreases(&self, action: u32)
        requires
            self.spec_actions().contains(action),
        ensures
            self.spec_apply(action).height() < self.height(),
    ;

    /// Identifier of the player who moved last.
    fn get_player_just_moved(&self) -> (p: u32)
        ensures
            p == self.spec_player_just_moved(),
    ;

    /// The legal actions from this position.  Non-empty iff the position
    /// is not terminal.
    fn get_actions(&self) -> (actions: Vec<u32>)
        ensures
            actions@ == self.spec_actions(),
    ;

    /// Human-readable labels for the legal actions, index for index;
    /// diagnostics only, never consulted by the algorithm.
    fn get_action_strings(&self) -> (labels: Vec<String>)
        ensures
            labels@.len() == self.spec_actions().len(),
    ;

    /// An independent copy of this position.
    fn duplicate(&self) -> (s: Self)
        ensures
            s == *self,
    ;

    /// The pure transition: returns the successor position reached by a
    /// legal `action`, leaving this position untouched.
    fn apply(&self, action: u32) -> (s: Self)
        requires
            self.spec_actions().contains(action),
        ensures
            s == self.spec_apply(action),
    ;

    /// Terminal scoring from `player`'s perspective; meaningful once
    /// `get_actions` is empty.
    fn get_result(&self, player: u32) -> (r: u64)
        ensures
            r == self.spec_result(player),
            r <= RESULT_SCALE,
    ;
}

/// Use of the contract is idempotent: any two results of `get_actions`
/// on the same state are equal, because each is pinned to the
/// spec-level action sequence — the state hides no mutation.  The same
/// holds of every other contract method, each being pinned the same way.
pub proof fn lemma_actions_idempotent<S: State>(s: S, first: Seq<u32>, second: Seq<u32>)
    requires
        first == s.spec_actions(),
        second == s.spec_actions(),
    ensures
        first == second,
{
}

} // verus!
