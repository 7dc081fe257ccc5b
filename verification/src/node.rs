//! The search tree: an append-only arena of nodes addressed by stable
//! identifiers, so parent and child links are plain data and the arena
//! alone owns every node.
//!
//! The arena's well-formedness predicate carries the tree invariants:
//! every non-root node has one parent consistent with one entry of the
//! parent's children list, the untried actions and the children's incoming
//! actions partition the legal-action set recorded at creation, and each
//! node's accumulated win mass stays bounded by its visit count.

use vstd::prelude::*;
use crate::state::{State, RESULT_SCALE};

verus! {

/// A stable handle for one node; valid only for the arena that issued it
/// and never reused, since the arena only grows.
#[derive(Clone, Copy, PartialEq, Eq, Structural, Debug)]
pub struct NodeId {
    /// Position of the node in the arena.
    pub index: usize,
}

/// One vertex of the search tree.  The node caches everything the search
/// needs (statistics, links, the actions still unexpanded, the mover);
/// the live game state is not stored, only its ghost image.
pub struct Node<S: State> {
    /// This node's own identifier in the arena.
    pub id: NodeId,
    /// The action that led from the parent here; `None` for a root.
    pub action: Option<u32>,
    /// The parent's identifier; `None` for a root.
    pub parent: Option<NodeId>,
    /// Children in expansion order.
    pub children: Vec<NodeId>,
    /// Accumulated result mass backpropagated through this node, in units
    /// of `RESULT_SCALE` per win.
    pub wins: u64,
    /// Number of simulations backpropagated through this node.
    pub visits: u64,
    /// Legal actions at this node's position not yet expanded to a child.
    pub untried_actions: Vec<u32>,
    /// Labels of the legal actions at creation time; diagnostics only.
    pub untried_action_strings: Vec<String>,
    /// The player who had just moved at this node's position.
    pub player_just_moved: u32,
    /// Ghost image of the game position this node stands for.
    pub snapshot: Ghost<S>,
    /// Ghost record of the actions already expanded, in child order.
    pub expanded: Ghost<Seq<u32>>,
}

/// Those fields of a node that backpropagation leaves untouched.
pub open spec fn same_but_stats<S: State>(a: Node<S>, b: Node<S>) -> bool {
    &&& b.id == a.id
    &&& b.action == a.action
    &&& b.parent == a.parent
    &&& b.children == a.children
    &&& b.untried_actions == a.untried_actions
    &&& b.untried_action_strings == a.untried_action_strings
    &&& b.player_just_moved == a.player_just_moved
    &&& b.snapshot == a.snapshot
    &&& b.expanded == a.expanded
}

/// Position of the first occurrence of `x` in `v`.
fn find_u32(v: &Vec<u32>, x: u32) -> (k: usize)
    requires
        v@.contains(x),
    ensures
        k < v@.len(),
        v@[k as int] == x,
{
    let mut k: usize = 0;
    while k < v.len()
        invariant
            k <= v@.len(),
            v@.contains(x),
            forall|j: int| 0 <= j < k ==> v@[j] != x,
        decreases v@.len() - k,
    {
        if v[k] == x {
            return k;
        }
        k += 1;
    }
    proof {
        assert(false);
    }
    0
}

impl<S: State> Node<S> {
    /// Record one backpropagated simulation: one more visit, with
    /// `result` added to the accumulated win mass.
    pub fn update(&mut self, result: u64)
        requires
            old(self).visits < 0x4000_0000_0000_0000u64,
            old(self).wins <= RESULT_SCALE * old(self).visits,
            result <= RESULT_SCALE,
        ensures
            final(self).visits == old(self).visits + 1,
            final(self).wins == old(self).wins + result,
            final(self).wins <= RESULT_SCALE * final(self).visits,
            same_but_stats(*old(self), *final(self)),
    {
        self.visits = self.visits + 1;
        self.wins = self.wins + result;
    }
}

/// The append-only owner of all search nodes of one run.
pub struct NodeArena<S: State> {
    /// The nodes, at the positions their identifiers name.
    pub nodes: Vec<Node<S>>,
}

impl<S: State> NodeArena<S> {
    /// `id` was issued by this arena.
    pub open spec fn valid(self, id: NodeId) -> bool {
        id.index < self.nodes@.len()
    }

    /// The invariants of the node at position `i`.
    pub open spec fn node_ok(self, i: int) -> bool {
        let n = self.nodes@[i];
        &&& n.id.index == i
        &&& n.wins <= RESULT_SCALE * n.visits
        &&& n.children@.len() == n.expanded@.len()
        &&& (forall|j: int|
            0 <= j < n.children@.len() ==> {
                let c = (#[trigger] n.children@[j]).index as int;
                &&& i < c < self.nodes@.len()
                &&& self.nodes@[c].parent == Some(n.id)
                &&& self.nodes@[c].action == Some(n.expanded@[j])
                &&& self.nodes@[c].snapshot@ == n.snapshot@.spec_apply(n.expanded@[j])
            })
        &&& match n.parent {
            Some(p) => p.index < i && n.action is Some,
            None => n.action is None,
        }
        &&& n.untried_actions@.to_multiset().add(n.expanded@.to_multiset())
            == n.snapshot@.spec_actions().to_multiset()
        &&& n.untried_actions@.no_duplicates()
        &&& n.player_just_moved == n.snapshot@.spec_player_just_moved()
    }

    /// The whole arena is a well-formed forest.
    pub open spec fn wf(self) -> bool {
        forall|i: int| 0 <= i < self.nodes@.len() ==> #[trigger] self.node_ok(i)
    }

    /// Visit counts are monotone down the tree: no node has fewer
    /// visits than one of its children.  This holds between completed
    /// backpropagations (one visit walks the whole path at once), not
    /// inside one, so it stands beside `wf` rather than in it.
    pub open spec fn child_visits_bounded(self) -> bool {
        forall|i: int, j: int|
            0 <= i < self.nodes@.len() && 0 <= j < self.nodes@[i].children@.len()
                ==> self.nodes@[(#[trigger] self.nodes@[i].children@[j]).index as int].visits
                <= self.nodes@[i].visits
    }

    /// `j` lies on the parent path that starts at `i` (both ends
    /// included): backpropagation from `i` touches exactly these nodes.
    pub open spec fn on_path(self, i: int, j: int) -> bool
        decreases i,
    {
        i == j || match self.nodes@[i].parent {
            Some(p) => if 0 <= p.index < i {
                self.on_path(p.index as int, j)
            } else {
                false
            },
            None => false,
        }
    }

    /// An empty arena.
    pub fn new() -> (arena: NodeArena<S>)
        ensures
            arena.nodes@.len() == 0,
            arena.wf(),
    {
        NodeArena { nodes: Vec::new() }
    }

    /// Create a root node for `state`: no parent, no incoming action, all
    /// legal actions untried, statistics at zero.
    pub fn new_node(&mut self, state: &S) -> (id: NodeId)
        requires
            old(self).wf(),
            old(self).nodes@.len() < usize::MAX,
        ensures
            final(self).wf(),
            final(self).nodes@.len() == old(self).nodes@.len() + 1,
            id.index == old(self).nodes@.len(),
            forall|i: int|
                0 <= i < old(self).nodes@.len() ==> final(self).nodes@[i] == old(self).nodes@[i],
            ({
                let n = final(self).nodes@[id.index as int];
                &&& n.id == id
                &&& n.parent is None
                &&& n.action is None
                &&& n.children@.len() == 0
                &&& n.visits == 0
                &&& n.wins == 0
                &&& n.untried_actions@ == state.spec_actions()
                &&& n.untried_action_strings@.len() == state.spec_actions().len()
                &&& n.snapshot@ == *state
                &&& n.expanded@ == Seq::<u32>::empty()
            }),
    {
        broadcast use vstd::seq_lib::group_to_multiset_ensures;
        broadcast use vstd::multiset::group_multiset_axioms;

        let index = self.nodes.len();
        let untried = state.get_actions();
        let strings = state.get_action_strings();
        let player = state.get_player_just_moved();
        proof {
            state.actions_unique();
        }
        let node = Node {
            id: NodeId { index },
            action: None,
            parent: None,
            children: Vec::new(),
            wins: 0,
            visits: 0,
            untried_actions: untried,
            untried_action_strings: strings,
            player_just_moved: player,
            snapshot: Ghost(*state),
            expanded: Ghost(Seq::empty()),
        };
        self.nodes.push(node);
        proof {
            let new = *self;
            assert(new.nodes@[index as int].untried_actions@.to_multiset().add(
                Seq::<u32>::empty().to_multiset()) =~= state.spec_actions().to_multiset());
            assert(new.node_ok(index as int));
            assert forall|i: int| 0 <= i < new.nodes@.len() implies #[trigger] new.node_ok(i) by {
                if i < index {
                    assert(old(self).node_ok(i));
                    let n = new.nodes@[i];
                    assert(n == old(self).nodes@[i]);
                    assert forall|j: int| 0 <= j < n.children@.len() implies {
                        let c = (#[trigger] n.children@[j]).index as int;
                        &&& i < c < new.nodes@.len()
                        &&& new.nodes@[c].parent == Some(n.id)
                        &&& new.nodes@[c].action == Some(n.expanded@[j])
                        &&& new.nodes@[c].snapshot@ == n.snapshot@.spec_apply(n.expanded@[j])
                    } by {
                        let c = n.children@[j].index as int;
                        assert(i < c < old(self).nodes@.len());
                        assert(new.nodes@[c] == old(self).nodes@[c]);
                    }
                }
            }
        }
        NodeId { index }
    }

    /// Expansion: create a child of `parent` for one of its untried
    /// actions, whose position is `state`.  The new node is appended, the
    /// parent's children list gains its identifier, and `action` moves
    /// from the parent's untried actions to its expanded record.
    pub fn new_child_node(&mut self, parent: NodeId, action: u32, state: &S) -> (id: NodeId)
        requires
            old(self).wf(),
            old(self).valid(parent),
            old(self).nodes@.len() < usize::MAX,
            old(self).nodes@[parent.index as int].untried_actions@.contains(action),
            *state == old(self).nodes@[parent.index as int].snapshot@.spec_apply(action),
        ensures
            final(self).wf(),
            final(self).nodes@.len() == old(self).nodes@.len() + 1,
            id.index == old(self).nodes@.len(),
            forall|i: int|
                0 <= i < old(self).nodes@.len() && i != parent.index ==> final(self).nodes@[i]
                    == old(self).nodes@[i],
            ({
                let po = old(self).nodes@[parent.index as int];
                let pn = final(self).nodes@[parent.index as int];
                &&& pn.children@ == po.children@.push(id)
                &&& pn.untried_actions@.to_multiset() == po.untried_actions@.to_multiset().remove(
                    action,
                )
                &&& pn.untried_actions@.len() + 1 == po.untried_actions@.len()
                &&& pn.expanded@ == po.expanded@.push(action)
                &&& pn.id == po.id
                &&& pn.parent == po.parent
                &&& pn.action == po.action
                &&& pn.snapshot == po.snapshot
                &&& pn.player_just_moved == po.player_just_moved
                &&& pn.visits == po.visits
                &&& pn.wins == po.wins
            }),
            ({
                let n = final(self).nodes@[id.index as int];
                &&& n.id == id
                &&& n.parent == Some(parent)
                &&& n.action == Some(action)
                &&& n.children@.len() == 0
                &&& n.visits == 0
                &&& n.wins == 0
                &&& n.untried_actions@ == state.spec_actions()
                &&& n.snapshot@ == *state
                &&& n.expanded@ == Seq::<u32>::empty()
            }),
    {
        broadcast use vstd::seq_lib::group_to_multiset_ensures;
        broadcast use vstd::multiset::group_multiset_axioms;

        let ghost old_arena = *self;
        let index = self.nodes.len();
        let untried = state.get_actions();
        let strings = state.get_action_strings();
        let player = state.get_player_just_moved();
        proof {
            state.actions_unique();
        }
        let node = Node {
            id: NodeId { index },
            action: Some(action),
            parent: Some(parent),
            children: Vec::new(),
            wins: 0,
            visits: 0,
            untried_actions: untried,
            untried_action_strings: strings,
            player_just_moved: player,
            snapshot: Ghost(*state),
            expanded: Ghost(Seq::empty()),
        };
        self.nodes.push(node);

        // Find where `action` sits in the parent's untried list.
        let pos = find_u32(&self.nodes[parent.index].untried_actions, action);
        let pnode = &mut self.nodes[parent.index];
        pnode.children.push(NodeId { index });
        let _ = pnode.untried_actions.remove(pos);
        pnode.expanded = Ghost(pnode.expanded@.push(action));
        let ghost mid = *self;

        proof {
            let p = parent.index as int;
            let po = old_arena.nodes@[p];
            let pn = mid.nodes@[p];
            assert(old_arena.node_ok(p));
            // The parent's untried actions lose exactly one occurrence of
            // `action`, its expanded record gains one: the partition with
            // the legal-action set is preserved.
            assert(pn.untried_actions@.to_multiset() == po.untried_actions@.to_multiset().remove(
                action,
            ));
            assert(pn.expanded@.to_multiset() =~= po.expanded@.to_multiset().insert(action));
            assert(po.untried_actions@.to_multiset().count(action) > 0);
            assert(pn.untried_actions@.to_multiset().add(pn.expanded@.to_multiset())
                =~= po.untried_actions@.to_multiset().add(po.expanded@.to_multiset()));
            // Removal keeps the untried actions duplicate-free.
            po.untried_actions@.lemma_multiset_has_no_duplicates();
            pn.untried_actions@.lemma_multiset_has_no_duplicates_conv();

            // Node-by-node: the whole arena is still well-formed.
            assert(mid.nodes@[index as int].untried_actions@.to_multiset().add(
                Seq::<u32>::empty().to_multiset()) =~= state.spec_actions().to_multiset());
            assert(mid.node_ok(index as int));
            assert forall|i: int| 0 <= i < mid.nodes@.len() implies #[trigger] mid.node_ok(i) by {
                if i < index && i != p {
                    assert(old_arena.node_ok(i));
                    let n = mid.nodes@[i];
                    assert(n == old_arena.nodes@[i]);
                    assert forall|j: int| 0 <= j < n.children@.len() implies {
                        let c = (#[trigger] n.children@[j]).index as int;
                        &&& i < c < mid.nodes@.len()
                        &&& mid.nodes@[c].parent == Some(n.id)
                        &&& mid.nodes@[c].action == Some(n.expanded@[j])
                        &&& mid.nodes@[c].snapshot@ == n.snapshot@.spec_apply(n.expanded@[j])
                    } by {
                        let c = n.children@[j].index as int;
                        assert(i < c < old_arena.nodes@.len());
                        if c == p {
                            assert(mid.nodes@[c].parent == old_arena.nodes@[c].parent);
                            assert(mid.nodes@[c].action == old_arena.nodes@[c].action);
                            assert(mid.nodes@[c].snapshot == old_arena.nodes@[c].snapshot);
                        } else {
                            assert(mid.nodes@[c] == old_arena.nodes@[c]);
                        }
                    }
                } else if i == p {
                    assert forall|j: int| 0 <= j < pn.children@.len() implies {
                        let c = (#[trigger] pn.children@[j]).index as int;
                        &&& i < c < mid.nodes@.len()
                        &&& mid.nodes@[c].parent == Some(pn.id)
                        &&& mid.nodes@[c].action == Some(pn.expanded@[j])
                        &&& mid.nodes@[c].snapshot@ == pn.snapshot@.spec_apply(pn.expanded@[j])
                    } by {
                        let c = pn.children@[j].index as int;
                        if j < po.children@.len() {
                            assert(pn.children@[j] == po.children@[j]);
                            assert(pn.expanded@[j] == po.expanded@[j]);
                            assert(p < c < old_arena.nodes@.len());
                            if c != p {
                                assert(mid.nodes@[c] == old_arena.nodes@[c]);
                            }
                        } else {
                            assert(pn.children@[j] == NodeId { index });
                            assert(pn.expanded@[j] == action);
                        }
                    }
                    assert(mid.node_ok(p));
                }
            }
        }
        NodeId { index }
    }

    /// Backpropagation: walk from `from` up through the parent links to
    /// the root, and at each node record one more visit together with the
    /// rollout's result scored for the player who had just moved there.
    /// Every node on that path gains exactly one visit; every other node
    /// is untouched.
    pub fn backpropagate(&mut self, from: NodeId, final_state: &S)
        requires
            old(self).wf(),
            old(self).valid(from),
            forall|i: int|
                0 <= i <= from.index as int ==> #[trigger] old(self).nodes@[i].visits
                    < 0x4000_0000_0000_0000u64,
        ensures
            final(self).wf(),
            final(self).nodes@.len() == old(self).nodes@.len(),
            forall|j: int|
                0 <= j < old(self).nodes@.len() && old(self).on_path(from.index as int, j)
                    ==> same_but_stats(old(self).nodes@[j], #[trigger] final(self).nodes@[j])
                    && final(self).nodes@[j].visits == old(self).nodes@[j].visits + 1
                    && final(self).nodes@[j].wins == old(self).nodes@[j].wins
                    + final_state.spec_result(old(self).nodes@[j].player_just_moved),
            forall|j: int|
                0 <= j < old(self).nodes@.len() && !old(self).on_path(from.index as int, j)
                    ==> #[trigger] final(self).nodes@[j] == old(self).nodes@[j],
        decreases from.index,
    {
        let ghost old_arena = *self;
        let cur = from.index;
        let player = self.nodes[cur].player_just_moved;
        let r = final_state.get_result(player);
        proof {
            assert(old_arena.node_ok(cur as int));
        }
        let node = &mut self.nodes[cur];
        node.update(r);
        let ghost mid = *self;
        proof {
            assert forall|i: int| 0 <= i < mid.nodes@.len() implies #[trigger] mid.node_ok(i) by {
                assert(old_arena.node_ok(i));
                let n = mid.nodes@[i];
                assert(same_but_stats(old_arena.nodes@[i], n));
                assert(n.wins <= RESULT_SCALE * n.visits);
                assert forall|j: int| 0 <= j < n.children@.len() implies {
                    let c = (#[trigger] n.children@[j]).index as int;
                    &&& i < c < mid.nodes@.len()
                    &&& mid.nodes@[c].parent == Some(n.id)
                    &&& mid.nodes@[c].action == Some(n.expanded@[j])
                    &&& mid.nodes@[c].snapshot@ == n.snapshot@.spec_apply(n.expanded@[j])
                } by {
                    let c = n.children@[j].index as int;
                    assert(old_arena.nodes@[i].children@[j] == n.children@[j]);
                    assert(i < c < old_arena.nodes@.len());
                    assert(same_but_stats(old_arena.nodes@[c], mid.nodes@[c]));
                }
            }
        }
        let parent = self.nodes[cur].parent;
        match parent {
            Some(p) => {
                proof {
                    assert(mid.node_ok(cur as int));
                    lemma_on_path_frame(old_arena, mid, p.index as int);
                    lemma_on_path_le(mid, p.index as int);
                }
                self.backpropagate(p, final_state);
                proof {
                    assert forall|j: int|
                        0 <= j < old_arena.nodes@.len() && old_arena.on_path(cur as int, j)
                            implies same_but_stats(old_arena.nodes@[j], #[trigger] self.nodes@[j])
                            && self.nodes@[j].visits == old_arena.nodes@[j].visits + 1
                            && self.nodes@[j].wins == old_arena.nodes@[j].wins
                            + final_state.spec_result(old_arena.nodes@[j].player_just_moved) by {
                        if j == cur as int {
                            assert(!mid.on_path(p.index as int, j));
                            assert(self.nodes@[j] == mid.nodes@[j]);
                        } else {
                            assert(old_arena.on_path(p.index as int, j));
                            assert(mid.on_path(p.index as int, j));
                            assert(j < cur as int);
                            assert(mid.nodes@[j] == old_arena.nodes@[j]);
                        }
                    }
                    assert forall|j: int|
                        0 <= j < old_arena.nodes@.len() && !old_arena.on_path(cur as int, j)
                            implies #[trigger] self.nodes@[j] == old_arena.nodes@[j] by {
                        assert(!mid.on_path(p.index as int, j));
                        assert(j != cur as int);
                        assert(mid.nodes@[j] == old_arena.nodes@[j]);
                    }
                }
            },
            None => {
                proof {
                    assert forall|j: int|
                        0 <= j < old_arena.nodes@.len() && !old_arena.on_path(cur as int, j)
                            implies #[trigger] mid.nodes@[j] == old_arena.nodes@[j] by {
                        assert(j != cur as int);
                    }
                }
            },
        }
    }

    /// Read access to the node `id` names.
    pub fn get(&self, id: NodeId) -> (n: &Node<S>)
        requires
            self.valid(id),
        ensures
            *n == self.nodes@[id.index as int],
    {
        &self.nodes[id.index]
    }
}

/// Every node on the parent path from `i` has an index at most `i`:
/// parent links only point backwards.
pub proof fn lemma_on_path_le<S: State>(a: NodeArena<S>, i: int)
    ensures
        forall|j: int| #[trigger] a.on_path(i, j) ==> j <= i,
    decreases i,
{
    assert forall|j: int| a.on_path(i, j) implies j <= i by {
        if i != j {
            match a.nodes@[i].parent {
                Some(p) => {
                    if 0 <= p.index < i {
                        lemma_on_path_le(a, p.index as int);
                        assert(a.on_path(p.index as int, j));
                    }
                },
                None => {},
            }
        }
    }
}

/// The parent path depends on the parent links alone: two arenas whose
/// nodes agree on `parent` everywhere have the same paths.
pub proof fn lemma_on_path_frame<S: State>(a: NodeArena<S>, b: NodeArena<S>, i: int)
    requires
        a.nodes@.len() == b.nodes@.len(),
        forall|k: int|
            0 <= k < a.nodes@.len() ==> (#[trigger] a.nodes@[k]).parent == b.nodes@[k].parent,
        0 <= i < a.nodes@.len(),
    ensures
        forall|j: int| a.on_path(i, j) == b.on_path(i, j),
    decreases i,
{
    assert forall|j: int| a.on_path(i, j) == b.on_path(i, j) by {
        if i != j {
            match a.nodes@[i].parent {
                Some(p) => {
                    if 0 <= p.index < i {
                        lemma_on_path_frame(a, b, p.index as int);
                        assert(a.on_path(p.index as int, j) == b.on_path(p.index as int, j));
                    }
                },
                None => {},
            }
        }
    }
}

/// The parent path is closed under taking parents: if `c` lies on the
/// path from `i` and has a parent, that parent lies on the path too.
pub proof fn lemma_on_path_parent<S: State>(a: NodeArena<S>, i: int, c: int)
    requires
        a.wf(),
        0 <= i < a.nodes@.len(),
        a.on_path(i, c),
        0 <= c < a.nodes@.len(),
        a.nodes@[c].parent is Some,
    ensures
        a.on_path(i, a.nodes@[c].parent->Some_0.index as int),
    decreases i,
{
    assert(a.node_ok(c));
    let p = a.nodes@[c].parent->Some_0;
    if i == c {
        assert(a.on_path(p.index as int, p.index as int));
    } else {
        let q = a.nodes@[i].parent->Some_0;
        assert(a.node_ok(i));
        lemma_on_path_parent(a, q.index as int, c);
    }
}

/// In an arena where every node but the first has a parent, every parent
/// path ends at the first node: the tree has a single root.
pub proof fn lemma_on_path_zero<S: State>(a: NodeArena<S>, i: int)
    requires
        a.wf(),
        0 <= i < a.nodes@.len(),
        forall|k: int| 1 <= k < a.nodes@.len() ==> (#[trigger] a.nodes@[k].parent) is Some,
    ensures
        a.on_path(i, 0),
    decreases i,
{
    if i > 0 {
        assert(a.node_ok(i));
        let p = a.nodes@[i].parent->Some_0;
        lemma_on_path_zero(a, p.index as int);
    }
}

/// The untried actions of a node and the incoming actions of its
/// children partition the legal-action set of the node's position, with
/// no overlap and no duplicates on either side — at every point of a
/// search, since the arena's well-formedness carries it.
pub proof fn lemma_action_partition<S: State>(a: NodeArena<S>, id: NodeId)
    requires
        a.wf(),
        a.valid(id),
    ensures
        ({
            let n = a.nodes@[id.index as int];
            &&& n.untried_actions@.to_multiset().add(n.expanded@.to_multiset())
                == n.snapshot@.spec_actions().to_multiset()
            &&& forall|x: u32|
                n.untried_actions@.contains(x) ==> !(#[trigger] n.expanded@.contains(x))
            &&& forall|x: u32|
                #[trigger] n.untried_actions@.contains(x) || n.expanded@.contains(x)
                    <==> n.snapshot@.spec_actions().contains(x)
            &&& n.untried_actions@.no_duplicates()
            &&& n.expanded@.no_duplicates()
            &&& forall|j: int|
                0 <= j < n.children@.len() ==> a.nodes@[(#[trigger] n.children@[j]).index as int].action
                    == Some(n.expanded@[j])
        }),
{
    broadcast use vstd::seq_lib::group_to_multiset_ensures;
    broadcast use vstd::multiset::group_multiset_axioms;

    let i = id.index as int;
    assert(a.node_ok(i));
    let n = a.nodes@[i];
    let u = n.untried_actions@.to_multiset();
    let e = n.expanded@.to_multiset();
    let l = n.snapshot@.spec_actions().to_multiset();
    n.snapshot@.actions_unique();
    n.snapshot@.spec_actions().lemma_multiset_has_no_duplicates();
    assert forall|x: u32| n.untried_actions@.contains(x) implies !(n.expanded@.contains(
        x,
    )) by {
        if n.expanded@.contains(x) {
            assert(u.count(x) > 0 && e.count(x) > 0);
            assert(u.add(e).count(x) >= 2);
            assert(l.contains(x) && l.count(x) == 1);
        }
    }
    assert forall|x: u32|
        #[trigger] n.untried_actions@.contains(x) || n.expanded@.contains(x)
            <==> n.snapshot@.spec_actions().contains(x) by {
        assert(l.count(x) == u.count(x) + e.count(x));
    }
    assert forall|x: u32| e.contains(x) implies e.count(x) == 1 by {
        assert(l.count(x) == u.count(x) + e.count(x));
        assert(l.contains(x) && l.count(x) == 1);
    }
    n.expanded@.lemma_multiset_has_no_duplicates_conv();
}

/// Win mass never exceeds the visit count times the result scale: for
/// every visited node the average result lies between a sure loss and a
/// sure win.
pub proof fn lemma_win_rate_bounded<S: State>(a: NodeArena<S>, id: NodeId)
    requires
        a.wf(),
        a.valid(id),
    ensures
        a.nodes@[id.index as int].wins <= RESULT_SCALE * a.nodes@[id.index as int].visits,
{
    assert(a.node_ok(id.index as int));
}

} // verus!
