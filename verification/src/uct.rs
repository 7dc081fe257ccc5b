//! The UCT driver: the four-phase search loop.
//!
//! Each iteration selects a path by the UCB1 rule, expands one untried
//! action, rolls the position out to a terminal state with the injected
//! random source, and backpropagates the result.  After the budget is
//! spent the root child with the most visits names the recommended
//! action.

use vstd::prelude::*;
use crate::state::{State, RESULT_SCALE};
use crate::node::{
    NodeArena,
    NodeId,
    lemma_action_partition,
    lemma_on_path_parent,
    lemma_on_path_zero,
    same_but_stats,
};
use crate::fixed::{
    ucb1_score,
    spec_ucb1_score,
    FP_ONE,
    EXPLORATION_MAX_FP,
};
use crate::rng::Rng;

verus! {

/// The distinguished outcome of a search that cannot recommend an
/// action.  Misuse of node identifiers is ruled out by the arena's
/// preconditions, and unbounded rollouts by the contract's shrinking
/// game height, so a terminal root is the one condition left.
#[derive(Clone, Copy, PartialEq, Eq, Structural, Debug)]
pub enum SearchError {
    /// The root position has no legal action: it is already terminal.
    NoLegalActions,
}

impl SearchError {
    /// A short description of the condition.
    pub fn describe(&self) -> (r: &'static str)
        ensures
            r@ == "no legal actions at the root position"@,
    {
        "no legal actions at the root position"
    }
}

/// The key UCB1 selection maximizes for child `j` of node `p`: an
/// unvisited child outranks everything, a visited one scores by the
/// fixed-point UCB1 formula.
pub open spec fn spec_selection_key<S: State>(arena: NodeArena<S>, p: int, j: int, c_fp: u64) -> int {
    let child = arena.nodes@[arena.nodes@[p].children@[j].index as int];
    if child.visits == 0 {
        u64::MAX as int
    } else {
        spec_ucb1_score(child.wins, child.visits, arena.nodes@[p].visits, c_fp)
    }
}

/// Visits of child `j` of node `p`.
pub open spec fn spec_child_visits<S: State>(arena: NodeArena<S>, p: int, j: int) -> u64 {
    arena.nodes@[arena.nodes@[p].children@[j].index as int].visits
}

/// The selection key of one child, computed exactly as the spec states.
fn selection_key<S: State>(arena: &NodeArena<S>, parent: NodeId, k: usize, c_fp: u64) -> (r: u64)
    requires
        arena.wf(),
        arena.valid(parent),
        k < arena.nodes@[parent.index as int].children@.len(),
        forall|i: int|
            0 <= i < arena.nodes@.len() ==> (#[trigger] arena.nodes@[i]).visits <= 0x1_0000_0000,
        c_fp <= EXPLORATION_MAX_FP,
    ensures
        r == spec_selection_key(*arena, parent.index as int, k as int, c_fp),
{
    proof {
        assert(arena.node_ok(parent.index as int));
    }
    let cid = arena.get(parent).children[k];
    let child = arena.get(cid);
    if child.visits == 0 {
        u64::MAX
    } else {
        proof {
            assert(arena.node_ok(cid.index as int));
        }
        ucb1_score(child.wins, child.visits, arena.get(parent).visits, c_fp)
    }
}

/// Selection: the first child of `parent` whose key is maximal.  An
/// unvisited child always outranks visited siblings, so every child is
/// tried once before any is revisited; ties go to the earliest child,
/// which keeps runs reproducible.
fn best_child<S: State>(arena: &NodeArena<S>, parent: NodeId, c_fp: u64) -> (j: usize)
    requires
        arena.wf(),
        arena.valid(parent),
        arena.nodes@[parent.index as int].children@.len() >= 1,
        forall|i: int|
            0 <= i < arena.nodes@.len() ==> (#[trigger] arena.nodes@[i]).visits <= 0x1_0000_0000,
        c_fp <= EXPLORATION_MAX_FP,
    ensures
        j < arena.nodes@[parent.index as int].children@.len(),
        forall|k: int|
            0 <= k < arena.nodes@[parent.index as int].children@.len() ==> #[trigger]
                spec_selection_key(*arena, parent.index as int, k, c_fp) <= spec_selection_key(
                *arena,
                parent.index as int,
                j as int,
                c_fp,
            ),
        forall|k: int|
            0 <= k < j ==> #[trigger] spec_selection_key(*arena, parent.index as int, k, c_fp)
                < spec_selection_key(*arena, parent.index as int, j as int, c_fp),
{
    let nchildren = arena.get(parent).children.len();
    let mut best_j: usize = 0;
    let mut best_key: u64 = selection_key(arena, parent, 0, c_fp);
    let mut k: usize = 1;
    while k < nchildren
        invariant
            arena.wf(),
            arena.valid(parent),
            nchildren == arena.nodes@[parent.index as int].children@.len(),
            forall|i: int|
                0 <= i < arena.nodes@.len() ==> (#[trigger] arena.nodes@[i]).visits
                    <= 0x1_0000_0000,
            c_fp <= EXPLORATION_MAX_FP,
            1 <= k <= nchildren,
            best_j < k,
            best_key == spec_selection_key(*arena, parent.index as int, best_j as int, c_fp),
            forall|i: int|
                0 <= i < k ==> #[trigger] spec_selection_key(*arena, parent.index as int, i, c_fp)
                    <= best_key,
            forall|i: int|
                0 <= i < best_j ==> #[trigger] spec_selection_key(
                    *arena,
                    parent.index as int,
                    i,
                    c_fp,
                ) < best_key,
        decreases nchildren - k,
    {
        let key = selection_key(arena, parent, k, c_fp);
        if key > best_key {
            best_j = k;
            best_key = key;
        }
        k = k + 1;
    }
    best_j
}

/// The recommended root action after a search: the incoming action of
/// the first root child with the most visits, or nothing if the root
/// has no children.
pub fn best_action<S: State>(arena: &NodeArena<S>, root: NodeId) -> (r: Option<u32>)
    requires
        arena.wf(),
        arena.valid(root),
    ensures
        r is None <==> arena.nodes@[root.index as int].children@.len() == 0,
        r matches Some(a) ==> exists|j: int|
            {
                &&& 0 <= j < arena.nodes@[root.index as int].children@.len()
                &&& (forall|k: int|
                    0 <= k < arena.nodes@[root.index as int].children@.len() ==> #[trigger]
                        spec_child_visits(*arena, root.index as int, k) <= spec_child_visits(
                        *arena,
                        root.index as int,
                        j,
                    ))
                &&& (forall|k: int|
                    0 <= k < j ==> #[trigger] spec_child_visits(*arena, root.index as int, k)
                        < spec_child_visits(*arena, root.index as int, j))
                &&& Some(a) == arena.nodes@[arena.nodes@[root.index as int].children@[
                    j].index as int].action
            },
        r matches Some(a) ==> arena.nodes@[root.index as int].snapshot@.spec_actions().contains(a),
{
    proof {
        assert(arena.node_ok(root.index as int));
    }
    let nchildren = arena.get(root).children.len();
    if nchildren == 0 {
        return None;
    }
    let mut best_j: usize = 0;
    let mut best_v: u64 = arena.get(arena.get(root).children[0]).visits;
    let mut k: usize = 1;
    while k < nchildren
        invariant
            arena.wf(),
            arena.valid(root),
            nchildren == arena.nodes@[root.index as int].children@.len(),
            1 <= k <= nchildren,
            best_j < k,
            best_v == spec_child_visits(*arena, root.index as int, best_j as int),
            forall|i: int|
                0 <= i < k ==> #[trigger] spec_child_visits(*arena, root.index as int, i) <= best_v,
            forall|i: int|
                0 <= i < best_j ==> #[trigger] spec_child_visits(*arena, root.index as int, i)
                    < best_v,
        decreases nchildren - k,
    {
        proof {
            assert(arena.node_ok(root.index as int));
        }
        let v = arena.get(arena.get(root).children[k]).visits;
        if v > best_v {
            best_j = k;
            best_v = v;
        }
        k = k + 1;
    }
    let cid = arena.get(root).children[best_j];
    let act = arena.get(cid).action;
    proof {
        let p = root.index as int;
        let n = arena.nodes@[p];
        assert(arena.node_ok(p));
        assert(n.expanded@.contains(n.expanded@[best_j as int]));
        lemma_action_partition(*arena, root);
    }
    match act {
        Some(a) => Some(a),
        None => {
            proof {
                assert(false);
            }
            None
        },
    }
}

/// One complete pass of the four phases from the root: selection by
/// the UCB1 rule, expansion of one untried action, a random rollout to
/// a terminal position, and backpropagation.  The root gains exactly
/// one visit and at most one node is added.  A caller bounding the
/// search by wall clock instead of a count can run passes one at a
/// time and ask `best_action` at any iteration boundary.
pub fn search_iteration<S: State>(
    arena: &mut NodeArena<S>,
    rootstate: &S,
    c_fp: u64,
    rng: &mut Rng,
)
    requires
        old(arena).wf(),
        1 <= old(arena).nodes@.len() <= 0x1000_0000,
        old(arena).nodes@[0].id == (NodeId { index: 0 }),
        old(arena).nodes@[0].parent is None,
        old(arena).nodes@[0].snapshot@ == *rootstate,
        forall|i: int|
            1 <= i < old(arena).nodes@.len() ==> (#[trigger] old(arena).nodes@[i].parent) is Some,
        forall|i: int|
            0 <= i < old(arena).nodes@.len() ==> (#[trigger] old(arena).nodes@[i]).visits
                < 0x1000_0000,
        old(arena).child_visits_bounded(),
        c_fp <= EXPLORATION_MAX_FP,
    ensures
        final(arena).wf(),
        final(arena).child_visits_bounded(),
        old(arena).nodes@.len() <= final(arena).nodes@.len() <= old(arena).nodes@.len() + 1,
        final(arena).nodes@[0].id == (NodeId { index: 0 }),
        final(arena).nodes@[0].parent is None,
        final(arena).nodes@[0].snapshot@ == *rootstate,
        forall|i: int|
            1 <= i < final(arena).nodes@.len() ==> (#[trigger] final(arena).nodes@[i].parent)
                is Some,
        forall|i: int|
            0 <= i < old(arena).nodes@.len() ==> (#[trigger] final(arena).nodes@[i]).visits
                <= old(arena).nodes@[i].visits + 1,
        forall|i: int|
            old(arena).nodes@.len() <= i < final(arena).nodes@.len()
                ==> (#[trigger] final(arena).nodes@[i]).visits <= 1,
        final(arena).nodes@[0].visits == old(arena).nodes@[0].visits + 1,
        old(arena).nodes@[0].children@.len() <= final(arena).nodes@[0].children@.len(),
        old(arena).nodes@[0].untried_actions@.len() > 0 ==> final(arena).nodes@[0].children@.len()
            >= 1,
{
    // Selection: descend while fully expanded and not terminal.
    let mut cur: usize = 0;
    let mut state: S = rootstate.duplicate();
    let ghost arena0 = *arena;
    loop
        invariant
            *arena == arena0,
            arena.wf(),
            cur < arena.nodes@.len(),
            state == arena.nodes@[cur as int].snapshot@,
            cur == 0 || arena.nodes@[0].children@.len() >= 1,
            forall|i: int|
                0 <= i < arena.nodes@.len() ==> (#[trigger] arena.nodes@[i]).visits
                    <= 0x1_0000_0000,
            c_fp <= EXPLORATION_MAX_FP,
        ensures
            *arena == arena0,
            arena.wf(),
            cur < arena.nodes@.len(),
            state == arena.nodes@[cur as int].snapshot@,
            cur == 0 || arena.nodes@[0].children@.len() >= 1,
            arena.nodes@[cur as int].untried_actions@.len() > 0 || arena.nodes@[cur
                as int].children@.len() == 0,
        decreases arena.nodes@.len() - cur,
    {
        let node_untried = arena.get(NodeId { index: cur }).untried_actions.len();
        let node_children = arena.get(NodeId { index: cur }).children.len();
        if !(node_untried == 0 && node_children > 0) {
            break;
        }
        let j = best_child(arena, NodeId { index: cur }, c_fp);
        let cid = arena.get(NodeId { index: cur }).children[j];
        proof {
            assert(arena.node_ok(cur as int));
            assert(arena.node_ok(cid.index as int));
            let n = arena.nodes@[cur as int];
            assert(n.expanded@.contains(n.expanded@[j as int]));
            lemma_action_partition(*arena, NodeId { index: cur });
        }
        let a = match arena.get(cid).action {
            Some(a) => a,
            None => {
                proof {
                    assert(false);
                }
                0
            },
        };
        state = state.apply(a);
        cur = cid.index;
    }

    // Expansion: try one untried action, chosen by the random source.
    let mut leaf = cur;
    let node_untried = arena.get(NodeId { index: cur }).untried_actions.len();
    if node_untried > 0 {
        let pick = rng.next_below(node_untried);
        let a = arena.get(NodeId { index: cur }).untried_actions[pick];
        proof {
            assert(arena.node_ok(cur as int));
            let n = arena.nodes@[cur as int];
            assert(n.untried_actions@.contains(n.untried_actions@[pick as int]));
            lemma_action_partition(*arena, NodeId { index: cur });
        }
        let child_state = state.apply(a);
        let cid = arena.new_child_node(NodeId { index: cur }, a, &child_state);
        state = child_state;
        leaf = cid.index;
    }
    let ghost pre_backprop = *arena;
    proof {
        // Expansion keeps visit counts monotone: the new child starts
        // with zero visits and no link changed its statistics.
        assert forall|i: int, j: int|
            0 <= i < pre_backprop.nodes@.len() && 0 <= j
                < pre_backprop.nodes@[i].children@.len() implies pre_backprop.nodes@[(#[trigger]
        pre_backprop.nodes@[i].children@[j]).index as int].visits
            <= pre_backprop.nodes@[i].visits by {
            if i < arena0.nodes@.len() && j < arena0.nodes@[i].children@.len() {
                assert(arena0.nodes@[i].children@[j] == pre_backprop.nodes@[i].children@[j]);
                assert(arena0.node_ok(i));
            }
        }
    }

    // Simulation: roll out to a terminal position.
    let mut actions = state.get_actions();
    while actions.len() > 0
        invariant
            actions@ == state.spec_actions(),
        decreases state.height(),
    {
        let pick = rng.next_below(actions.len());
        let a = actions[pick];
        proof {
            assert(state.spec_actions().contains(state.spec_actions()[pick as int]));
            state.apply_decreases(a);
        }
        state = state.apply(a);
        actions = state.get_actions();
    }

    // Backpropagation: one visit and the result for every node on
    // the path from the new leaf to the root.
    proof {
        lemma_on_path_zero(*arena, leaf as int);
    }
    arena.backpropagate(NodeId { index: leaf }, &state);
    proof {
        // Backpropagation keeps visit counts monotone: the path from
        // the leaf is closed under parents, so a child on it never
        // outgrows its parent.
        let post = *arena;
        assert forall|i: int, j: int|
            0 <= i < post.nodes@.len() && 0 <= j < post.nodes@[i].children@.len() implies
            post.nodes@[(#[trigger] post.nodes@[i].children@[j]).index as int].visits
                <= post.nodes@[i].visits by {
            if pre_backprop.on_path(leaf as int, i) {
                assert(same_but_stats(pre_backprop.nodes@[i], post.nodes@[i]));
            } else {
                assert(post.nodes@[i] == pre_backprop.nodes@[i]);
            }
            assert(post.nodes@[i].children == pre_backprop.nodes@[i].children);
            assert(pre_backprop.nodes@[i].children@[j] == post.nodes@[i].children@[j]);
            let c = post.nodes@[i].children@[j].index as int;
            assert(pre_backprop.node_ok(i));
            assert(0 <= c < pre_backprop.nodes@.len());
            assert(pre_backprop.nodes@[c].visits <= pre_backprop.nodes@[i].visits);
            if pre_backprop.on_path(leaf as int, c) {
                assert(pre_backprop.nodes@[c].parent == Some(pre_backprop.nodes@[i].id));
                lemma_on_path_parent(pre_backprop, leaf as int, c);
                assert(pre_backprop.on_path(leaf as int, i));
            } else {
                assert(post.nodes@[c].visits == pre_backprop.nodes@[c].visits);
            }
        }
    }
}

/// Run `iterations` passes of the four-phase search from `rootstate` in
/// a fresh arena and recommend the root action with the most visits.
///
/// The root is node 0 and ends with exactly `iterations` visits (its
/// creation does not count as a visit); a terminal root position is
/// reported as `NoLegalActions`, with the root left childless and
/// unvisited.  The recommended action is always one of the root
/// position's legal actions.
pub fn uct_search<S: State>(
    arena: &mut NodeArena<S>,
    rootstate: &S,
    iterations: u64,
    c_fp: u64,
    rng: &mut Rng,
) -> (r: Result<u32, SearchError>)
    requires
        old(arena).nodes@.len() == 0,
        1 <= iterations <= 0x1000_0000,
        c_fp <= EXPLORATION_MAX_FP,
    ensures
        final(arena).wf(),
        final(arena).child_visits_bounded(),
        final(arena).nodes@.len() >= 1,
        final(arena).nodes@[0].snapshot@ == *rootstate,
        final(arena).nodes@[0].parent is None,
        rootstate.spec_actions().len() == 0 <==> r == Err::<u32, SearchError>(
            SearchError::NoLegalActions,
        ),
        r matches Ok(a) ==> rootstate.spec_actions().contains(a),
        r matches Ok(a) ==> exists|j: int|
            {
                &&& 0 <= j < final(arena).nodes@[0].children@.len()
                &&& (forall|k: int|
                    0 <= k < final(arena).nodes@[0].children@.len() ==> #[trigger]
                        spec_child_visits(*final(arena), 0, k) <= spec_child_visits(
                        *final(arena),
                        0,
                        j,
                    ))
                &&& (forall|k: int|
                    0 <= k < j ==> #[trigger] spec_child_visits(*final(arena), 0, k)
                        < spec_child_visits(*final(arena), 0, j))
                &&& Some(a) == final(arena).nodes@[final(arena).nodes@[0].children@[
                    j].index as int].action
            },
        rootstate.spec_actions().len() > 0 ==> final(arena).nodes@[0].visits == iterations,
        rootstate.spec_actions().len() == 0 ==> final(arena).nodes@.len() == 1
            && final(arena).nodes@[0].children@.len() == 0 && final(arena).nodes@[0].visits == 0,
{
    let root = arena.new_node(rootstate);
    if arena.get(root).untried_actions.len() == 0 {
        return Err(SearchError::NoLegalActions);
    }
    let mut it: u64 = 0;
    while it < iterations
        invariant
            arena.wf(),
            1 <= arena.nodes@.len(),
            arena.nodes@[0].id == (NodeId { index: 0 }),
            arena.nodes@[0].parent is None,
            arena.nodes@[0].snapshot@ == *rootstate,
            forall|i: int|
                1 <= i < arena.nodes@.len() ==> (#[trigger] arena.nodes@[i].parent) is Some,
            forall|i: int| 0 <= i < arena.nodes@.len() ==> (#[trigger] arena.nodes@[i]).visits <= it,
            arena.nodes@[0].visits == it,
            it <= iterations <= 0x1000_0000,
            arena.nodes@.len() <= it + 1,
            it == 0 ==> arena.nodes@[0].untried_actions@.len() > 0,
            it >= 1 ==> arena.nodes@[0].children@.len() >= 1,
            arena.child_visits_bounded(),
            rootstate.spec_actions().len() > 0,
            c_fp <= EXPLORATION_MAX_FP,
        decreases iterations - it,
    {
        search_iteration(arena, rootstate, c_fp, rng);
        it = it + 1;
    }
    match best_action(arena, root) {
        Some(a) => Ok(a),
        None => {
            proof {
                assert(false);
            }
            Err(SearchError::NoLegalActions)
        },
    }
}

/// The first-maximal rule pins selection down: any two indices that are
/// both first maxima of the same key sequence are equal, so UCB1
/// selection is deterministic for fixed statistics and exploration
/// constant — and with the random source injected by seed, whole runs
/// repeat exactly.
pub proof fn lemma_selection_deterministic(keys: Seq<int>, j1: int, j2: int)
    requires
        0 <= j1 < keys.len(),
        0 <= j2 < keys.len(),
        forall|k: int| 0 <= k < keys.len() ==> #[trigger] keys[k] <= keys[j1],
        forall|k: int| 0 <= k < j1 ==> #[trigger] keys[k] < keys[j1],
        forall|k: int| 0 <= k < keys.len() ==> #[trigger] keys[k] <= keys[j2],
        forall|k: int| 0 <= k < j2 ==> #[trigger] keys[k] < keys[j2],
    ensures
        j1 == j2,
{
    if j1 < j2 {
        assert(keys[j1] < keys[j2]);
        assert(keys[j2] <= keys[j1]);
    } else if j2 < j1 {
        assert(keys[j2] < keys[j1]);
        assert(keys[j1] <= keys[j2]);
    }
}

/// With exploration constant 0 the UCB1 score is pure exploitation:
/// exactly the fixed-point win rate, whatever the parent's visits.
pub proof fn lemma_zero_exploration(wins: u64, visits: u64, parent_visits: u64)
    ensures
        spec_ucb1_score(wins, visits, parent_visits, 0) == (wins * FP_ONE) / (visits
            * RESULT_SCALE),
{
}

} // verus!
