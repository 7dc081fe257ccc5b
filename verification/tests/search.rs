//! Search scenarios on the subtraction game.

use boardgameai_rs::nim::NimState;
use boardgameai_rs::node::NodeArena;
use boardgameai_rs::rng::Rng;
use boardgameai_rs::state::State;
use boardgameai_rs::uct::{best_action, search_iteration, uct_search, SearchError};
use boardgameai_rs::fixed::EXPLORATION_SQRT2_FP;

/// One iteration from 6 chips: the root gains exactly one child whose
/// incoming action is one of {1, 2, 3}, that child has one visit, and
/// the root's visit count reflects the one completed backpropagation.
#[test]
fn one_iteration_expands_one_child() {
    let mut arena = NodeArena::<NimState>::new();
    let mut rng = Rng::new(42);
    let state = NimState::new(6);
    let r = uct_search(&mut arena, &state, 1, EXPLORATION_SQRT2_FP, &mut rng);
    assert!(r.is_ok());
    let root = &arena.nodes[0];
    assert_eq!(root.visits, 1);
    assert_eq!(root.children.len(), 1);
    let child = &arena.nodes[root.children[0].index];
    assert_eq!(child.visits, 1);
    let a = child.action.unwrap();
    assert!(a == 1 || a == 2 || a == 3);
    assert_eq!(root.untried_actions.len(), 2);
}

/// A terminal root position yields the `NoLegalActions` condition and
/// creates no children.
#[test]
fn terminal_root_reports_no_legal_actions() {
    let mut arena = NodeArena::<NimState>::new();
    let mut rng = Rng::new(7);
    let state = NimState::new(0);
    let r = uct_search(&mut arena, &state, 100, EXPLORATION_SQRT2_FP, &mut rng);
    assert_eq!(r, Err(SearchError::NoLegalActions));
    assert_eq!(arena.nodes.len(), 1);
    assert_eq!(arena.nodes[0].children.len(), 0);
    assert_eq!(arena.nodes[0].visits, 0);
}

/// From 1 chip the root is fully expanded after the first iteration and
/// never expands again: all later iterations select the one existing
/// child, so the arena stays at two nodes.
#[test]
fn single_action_game_expands_once() {
    let mut arena = NodeArena::<NimState>::new();
    let mut rng = Rng::new(3);
    let state = NimState::new(1);
    let r = uct_search(&mut arena, &state, 1000, EXPLORATION_SQRT2_FP, &mut rng);
    assert_eq!(r, Ok(1));
    assert_eq!(arena.nodes.len(), 2);
    let root = &arena.nodes[0];
    assert_eq!(root.visits, 1000);
    assert_eq!(root.untried_actions.len(), 0);
    assert_eq!(root.children.len(), 1);
    let child = &arena.nodes[root.children[0].index];
    assert_eq!(child.visits, 1000);
    assert_eq!(child.action, Some(1));
}

/// Root visits equal the iteration count exactly: the root's creation
/// does not count as a visit.
#[test]
fn root_visits_equal_iterations() {
    for n in [1u64, 5, 50, 200] {
        let mut arena = NodeArena::<NimState>::new();
        let mut rng = Rng::new(11);
        let state = NimState::new(6);
        let r = uct_search(&mut arena, &state, n, EXPLORATION_SQRT2_FP, &mut rng);
        assert!(r.is_ok());
        assert_eq!(arena.nodes[0].visits, n);
    }
}

/// Two runs with the same seed, iteration count and exploration
/// constant recommend the same action and build the same statistics.
#[test]
fn identical_seeds_give_identical_runs() {
    let mut arena1 = NodeArena::<NimState>::new();
    let mut rng1 = Rng::new(99);
    let r1 = uct_search(&mut arena1, &NimState::new(9), 300, EXPLORATION_SQRT2_FP, &mut rng1);
    let mut arena2 = NodeArena::<NimState>::new();
    let mut rng2 = Rng::new(99);
    let r2 = uct_search(&mut arena2, &NimState::new(9), 300, EXPLORATION_SQRT2_FP, &mut rng2);
    assert_eq!(r1, r2);
    assert_eq!(arena1.nodes.len(), arena2.nodes.len());
    for (a, b) in arena1.nodes.iter().zip(arena2.nodes.iter()) {
        assert_eq!(a.visits, b.visits);
        assert_eq!(a.wins, b.wins);
        assert_eq!(a.action, b.action);
        assert_eq!(a.children.len(), b.children.len());
    }
}

/// With exploration constant 0 the search still visits every root child
/// once (the unvisited-first rule), then exploits: the recommended
/// action is the first root child with the most visits.
#[test]
fn zero_exploration_exploits() {
    let mut arena = NodeArena::<NimState>::new();
    let mut rng = Rng::new(5);
    let state = NimState::new(6);
    let r = uct_search(&mut arena, &state, 500, 0, &mut rng);
    let a = r.unwrap();
    let root = &arena.nodes[0];
    assert_eq!(root.children.len(), 3);
    let mut best = 0usize;
    for j in 0..root.children.len() {
        let v = arena.nodes[root.children[j].index].visits;
        assert!(v >= 1);
        if v > arena.nodes[root.children[best].index].visits {
            best = j;
        }
    }
    assert_eq!(Some(a), arena.nodes[root.children[best].index].action);
}

/// The tree invariants, observed at run time after a full search: at
/// every node the untried actions and the children's incoming actions
/// partition the legal-action set of the node's position, with no
/// overlap, and win mass never exceeds twice the visit count.
#[test]
fn tree_invariants_hold_after_search() {
    let mut arena = NodeArena::<NimState>::new();
    let mut rng = Rng::new(123);
    let state = NimState::new(7);
    let r = uct_search(&mut arena, &state, 400, EXPLORATION_SQRT2_FP, &mut rng);
    assert!(r.is_ok());
    // Recompute each node's position by replaying actions from the root.
    let mut states: Vec<Option<NimState>> = vec![None; arena.nodes.len()];
    states[0] = Some(state);
    for i in 0..arena.nodes.len() {
        let s = states[i].unwrap();
        let node = &arena.nodes[i];
        assert_eq!(node.player_just_moved, s.get_player_just_moved());
        let mut seen: Vec<u32> = node.untried_actions.clone();
        for c in &node.children {
            assert!(c.index > i);
            let child = &arena.nodes[c.index];
            assert_eq!(child.parent, Some(node.id));
            let a = child.action.unwrap();
            assert!(!seen.contains(&a), "untried and expanded overlap");
            seen.push(a);
            states[c.index] = Some(s.apply(a));
        }
        let mut legal = s.get_actions();
        seen.sort();
        legal.sort();
        assert_eq!(seen, legal, "untried + children must partition the legal set");
        assert!(node.wins <= 2 * node.visits);
    }
}

/// The engine finds the game-theoretically right move: from 6 chips
/// (losing positions are the multiples of 4) the winning move takes 2.
#[test]
fn finds_winning_move_from_six_chips() {
    let mut arena = NodeArena::<NimState>::new();
    let mut rng = Rng::new(2024);
    let state = NimState::new(6);
    let r = uct_search(&mut arena, &state, 4000, EXPLORATION_SQRT2_FP, &mut rng);
    assert_eq!(r, Ok(2));
}

/// Iterations can be driven one at a time (as a wall-clock budget
/// would), with the recommendation read off at any boundary; the result
/// matches a whole search with the same seed and count.
#[test]
fn stepwise_iterations_match_whole_search() {
    let state = NimState::new(6);
    let mut arena = NodeArena::<NimState>::new();
    let mut rng = Rng::new(77);
    let root = arena.new_node(&state);
    for _ in 0..120 {
        search_iteration(&mut arena, &state, EXPLORATION_SQRT2_FP, &mut rng);
    }
    assert_eq!(arena.nodes[0].visits, 120);
    let stepwise = best_action(&arena, root);

    let mut arena2 = NodeArena::<NimState>::new();
    let mut rng2 = Rng::new(77);
    let whole = uct_search(&mut arena2, &state, 120, EXPLORATION_SQRT2_FP, &mut rng2);
    assert_eq!(stepwise, whole.ok());
}

/// The error condition describes itself.
#[test]
fn search_error_description() {
    let e = SearchError::NoLegalActions;
    assert_eq!(e.describe(), "no legal actions at the root position");
}
