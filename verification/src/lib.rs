//! A generic Monte Carlo Tree Search engine with UCT node selection.
//!
//! The engine searches adversarial, perfect-information, turn-based games
//! through a small abstract contract (the [`state::State`] trait) and holds
//! no game-specific logic of its own.  Search nodes live in an append-only
//! arena addressed by stable identifiers, and the four-phase loop
//! (selection, expansion, simulation, backpropagation) balances exploration
//! against exploitation with the UCB1 rule, computed in fixed-point integer
//! arithmetic so that every step of the engine is verified.

pub mod state;
pub mod nim;
pub mod rng;
pub mod node;
pub mod fixed;
pub mod uct;
