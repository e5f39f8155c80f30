//! The model of the layout tree, and what is proved of it.
//!
//! The model has one entry for every slot of the arena. Besides parent and
//! children it records, for each node, the chain of its ancestors: that is
//! what turns "subtree", "reachable" and "acyclic" into statements about
//! plain sequences.

use vstd::prelude::*;
use crate::geometry::ComputedLayout;
use crate::tree::{NodeId, TreeError};
use taffy::Style;

verus! {

/// What the model knows of one slot.
pub struct NodeView {
    pub live: bool,
    pub parent: Option<NodeId>,
    /// Children in insertion order.
    pub children: Seq<NodeId>,
    /// The chain from the top of the node's tree down to the node itself.
    pub ancestors: Seq<NodeId>,
    pub style: Style,
    pub layout: ComputedLayout,
}

/// The model of a tree: its root and one entry for every slot ever made.
pub struct TreeView {
    pub root: NodeId,
    pub nodes: Seq<NodeView>,
}

impl TreeView {
    /// The entry of the slot that `n` names.
    pub open spec fn node(self, n: NodeId) -> NodeView {
        self.nodes[n.0 as int]
    }

    /// `n` names a node that is in the tree.
    pub open spec fn is_live(self, n: NodeId) -> bool {
        n.0 < self.nodes.len() && self.nodes[n.0 as int].live
    }

    /// `d` is `n` or lies below it.
    pub open spec fn in_subtree(self, d: NodeId, n: NodeId) -> bool {
        self.is_live(d) && self.node(d).ancestors.contains(n)
    }

    /// `n` can be reached from the root by following child lists.
    pub open spec fn reachable(self, n: NodeId) -> bool {
        self.in_subtree(n, self.root)
    }

    /// What must hold of slot `i`.
    pub open spec fn node_ok(self, i: int) -> bool {
        let v = self.nodes[i];
        let me = NodeId(i as usize);
        if v.live {
            &&& v.ancestors.len() > 0
            &&& v.ancestors.last() == me
            &&& v.ancestors.no_duplicates()
            &&& match v.parent {
                None => v.ancestors.len() == 1,
                Some(p) => {
                    &&& self.is_live(p)
                    &&& self.node(p).children.contains(me)
                    &&& v.ancestors.len() >= 2
                    &&& v.ancestors[v.ancestors.len() - 2] == p
                },
            }
            &&& forall|k: int|
                0 <= k < v.ancestors.len() ==> {
                    &&& self.is_live(#[trigger] v.ancestors[k])
                    &&& self.node(v.ancestors[k]).ancestors == v.ancestors.take(k + 1)
                }
            &&& v.children.no_duplicates()
            &&& forall|k: int|
                0 <= k < v.children.len() ==> {
                    &&& self.is_live(#[trigger] v.children[k])
                    &&& self.node(v.children[k]).parent == Some(me)
                }
        } else {
            v.parent is None && v.children.len() == 0 && v.ancestors.len() == 0
        }
    }

    /// The tree invariant: a live, parentless root; parent and child links
    /// that agree; every child list free of repeats; and ancestor chains that
    /// are free of repeats and closed under taking prefixes, which rules out
    /// cycles.
    pub open spec fn wf(self) -> bool {
        &&& self.nodes.len() <= usize::MAX
        &&& self.is_live(self.root)
        &&& self.node(self.root).parent is None
        &&& forall|i: int| 0 <= i < self.nodes.len() ==> #[trigger] self.node_ok(i)
    }

    /// The tree that holds only a root with the given style.
    pub open spec fn single(root_style: Style) -> TreeView {
        TreeView {
            root: NodeId(0),
            nodes: seq![
                NodeView {
                    live: true,
                    parent: None,
                    children: Seq::empty(),
                    ancestors: seq![NodeId(0)],
                    style: root_style,
                    layout: ComputedLayout::zero_spec(),
                },
            ],
        }
    }

    /// The tree with one more slot: a live leaf with no parent.
    pub open spec fn with_leaf(self, style: Style) -> TreeView {
        TreeView {
            root: self.root,
            nodes: self.nodes.push(
                NodeView {
                    live: true,
                    parent: None,
                    children: Seq::empty(),
                    ancestors: seq![NodeId(self.nodes.len() as usize)],
                    style,
                    layout: ComputedLayout::zero_spec(),
                },
            ),
        }
    }

    /// The tree with the style of `n` replaced.
    pub open spec fn with_style(self, n: NodeId, style: Style) -> TreeView {
        let v = self.node(n);
        TreeView {
            root: self.root,
            nodes: self.nodes.update(
                n.0 as int,
                NodeView {
                    live: v.live,
                    parent: v.parent,
                    children: v.children,
                    ancestors: v.ancestors,
                    style,
                    layout: v.layout,
                },
            ),
        }
    }

    /// The tree with the computed layout of `n` replaced.
    pub open spec fn with_layout(self, n: NodeId, layout: ComputedLayout) -> TreeView {
        let v = self.node(n);
        TreeView {
            root: self.root,
            nodes: self.nodes.update(
                n.0 as int,
                NodeView {
                    live: v.live,
                    parent: v.parent,
                    children: v.children,
                    ancestors: v.ancestors,
                    style: v.style,
                    layout,
                },
            ),
        }
    }

    /// The tree after the detached node `child` became the last child of
    /// `parent`: every node of the subtree of `child` gets the ancestors of
    /// `parent` in front of its own.
    pub open spec fn attach(self, parent: NodeId, child: NodeId) -> TreeView {
        let base = self.node(parent).ancestors;
        TreeView {
            root: self.root,
            nodes: Seq::new(
                self.nodes.len(),
                |i: int|
                    {
                        let v = self.nodes[i];
                        if i == parent.0 {
                            NodeView {
                                live: v.live,
                                parent: v.parent,
                                children: v.children.push(child),
                                ancestors: v.ancestors,
                                style: v.style,
                                layout: v.layout,
                            }
                        } else if v.live && v.ancestors[0] == child {
                            NodeView {
                                live: v.live,
                                parent: if i == child.0 {
                                    Some(parent)
                                } else {
                                    v.parent
                                },
                                children: v.children,
                                ancestors: base + v.ancestors,
                                style: v.style,
                                layout: v.layout,
                            }
                        } else {
                            v
                        }
                    },
            ),
        }
    }

    /// The tree after `n` and everything below it was removed: those slots
    /// are dead and empty, and the former parent of `n` no longer lists it.
    pub open spec fn without_subtree(self, n: NodeId) -> TreeView {
        let former_parent = self.node(n).parent;
        TreeView {
            root: self.root,
            nodes: Seq::new(
                self.nodes.len(),
                |i: int|
                    {
                        let v = self.nodes[i];
                        if v.live && v.ancestors.contains(n) {
                            NodeView {
                                live: false,
                                parent: None,
                                children: Seq::empty(),
                                ancestors: Seq::empty(),
                                style: v.style,
                                layout: v.layout,
                            }
                        } else if former_parent == Some(NodeId(i as usize)) {
                            NodeView {
                                live: v.live,
                                parent: v.parent,
                                children: v.children.remove_value(n),
                                ancestors: v.ancestors,
                                style: v.style,
                                layout: v.layout,
                            }
                        } else {
                            v
                        }
                    },
            ),
        }
    }

    /// What `add_child(parent, child)` answers.
    pub open spec fn add_child_outcome(self, parent: NodeId, child: NodeId) -> Result<(), TreeError> {
        if !self.is_live(parent) || !self.is_live(child) {
            Err(TreeError::NodeNotFound)
        } else if child == self.root || self.node(child).parent is Some || self.in_subtree(
            parent,
            child,
        ) {
            Err(TreeError::InvalidMutation)
        } else {
            Ok(())
        }
    }

    /// What `remove(n)` answers.
    pub open spec fn remove_outcome(self, n: NodeId) -> Result<(), TreeError> {
        if !self.is_live(n) {
            Err(TreeError::NodeNotFound)
        } else if n == self.root {
            Err(TreeError::InvalidMutation)
        } else {
            Ok(())
        }
    }

    /// Replacing a style keeps the tree well formed.
    pub proof fn lemma_with_style_wf(self, n: NodeId, style: Style)
        requires
            self.wf(),
            self.is_live(n),
        ensures
            self.with_style(n, style).wf(),
    {
        let t = self.with_style(n, style);
        assert forall|i: int| 0 <= i < t.nodes.len() implies #[trigger] t.node_ok(i) by {
            assert(self.node_ok(i));
        }
    }

    /// Replacing a layout keeps the tree well formed.
    pub proof fn lemma_with_layout_wf(self, n: NodeId, layout: ComputedLayout)
        requires
            self.wf(),
            self.is_live(n),
        ensures
            self.with_layout(n, layout).wf(),
    {
        let t = self.with_layout(n, layout);
        assert forall|i: int| 0 <= i < t.nodes.len() implies #[trigger] t.node_ok(i) by {
            assert(self.node_ok(i));
        }
    }

    /// A new leaf keeps the tree well formed.
    pub proof fn lemma_with_leaf_wf(self, style: Style)
        requires
            self.wf(),
            self.nodes.len() < usize::MAX,
        ensures
            self.with_leaf(style).wf(),
    {
        let t = self.with_leaf(style);
        let fresh = self.nodes.len() as int;
        assert forall|i: int| 0 <= i < t.nodes.len() implies #[trigger] t.node_ok(i) by {
            if i < fresh {
                assert(self.node_ok(i));
            } else {
                let v = t.nodes[i];
                assert(v.ancestors.take(1) =~= v.ancestors);
            }
        }
    }

    /// Every node on the ancestor chain of a live node has the same top.
    pub proof fn lemma_chain_top(self, n: NodeId, k: int)
        requires
            self.wf(),
            self.is_live(n),
            0 <= k < self.node(n).ancestors.len(),
        ensures
            self.is_live(self.node(n).ancestors[k]),
            self.node(self.node(n).ancestors[k]).ancestors == self.node(n).ancestors.take(k + 1),
            self.node(self.node(n).ancestors[k]).ancestors[0] == self.node(n).ancestors[0],
    {
        assert(self.node_ok(n.0 as int));
    }

    /// The ancestors of a node that has a parent are those of the parent,
    /// then the node.
    pub proof fn lemma_chain_of_child(self, n: NodeId)
        requires
            self.wf(),
            self.is_live(n),
            self.node(n).parent is Some,
        ensures
            self.is_live(self.node(n).parent->0),
            self.node(n).ancestors == self.node(self.node(n).parent->0).ancestors.push(n),
    {
        assert(self.node_ok(n.0 as int));
        let chain = self.node(n).ancestors;
        let p = self.node(n).parent->0;
        assert(self.node(chain[chain.len() - 2]).ancestors == chain.take(chain.len() - 1));
        assert(chain =~= chain.take(chain.len() - 1).push(n));
    }

    /// An ancestor chain is no longer than the arena: its entries are
    /// distinct slots.
    pub proof fn lemma_chain_len_bound(self, n: NodeId)
        requires
            self.wf(),
            self.is_live(n),
        ensures
            self.node(n).ancestors.len() <= self.nodes.len(),
    {
        assert(self.node_ok(n.0 as int));
        let chain = self.node(n).ancestors;
        let slots = Seq::new(chain.len(), |k: int| chain[k].0 as int);
        assert forall|a: int, b: int| 0 <= a < slots.len() && 0 <= b < slots.len() && a != b implies slots[a]
            != slots[b] by {
            assert(chain[a] != chain[b]);
        }
        slots.unique_seq_to_set();
        let all = vstd::set_lib::set_int_range(0, self.nodes.len() as int);
        vstd::set_lib::lemma_int_range(0, self.nodes.len() as int);
        assert forall|x: int| slots.to_set().contains(x) implies all.contains(x) by {
            let k = choose|k: int| 0 <= k < slots.len() && slots[k] == x;
            assert(self.is_live(chain[k]));
        }
        vstd::set_lib::lemma_len_subset(slots.to_set(), all);
    }

    /// Below a node that lies below `n` is below `n`.
    pub proof fn lemma_subtree_transitive(self, d: NodeId, m: NodeId, n: NodeId)
        requires
            self.wf(),
            self.in_subtree(d, m),
            self.in_subtree(m, n),
        ensures
            self.in_subtree(d, n),
    {
        let chain = self.node(d).ancestors;
        let k = choose|k: int| 0 <= k < chain.len() && chain[k] == m;
        self.lemma_chain_top(d, k);
        let upper = self.node(m).ancestors;
        let j = choose|j: int| 0 <= j < upper.len() && upper[j] == n;
        assert(chain[j] == n);
    }

    /// Every live node is in its own subtree.
    pub proof fn lemma_subtree_reflexive(self, n: NodeId)
        requires
            self.wf(),
            self.is_live(n),
        ensures
            self.in_subtree(n, n),
    {
        assert(self.node_ok(n.0 as int));
        let chain = self.node(n).ancestors;
        assert(chain[chain.len() - 1] == n);
    }

    /// A child sits one level below its parent, and is listed by it.
    pub proof fn lemma_child_facts(self, n: NodeId, k: int)
        requires
            self.wf(),
            self.is_live(n),
            0 <= k < self.node(n).children.len(),
        ensures
            self.is_live(self.node(n).children[k]),
            self.node(self.node(n).children[k]).parent == Some(n),
            self.node(self.node(n).children[k]).ancestors == self.node(n).ancestors.push(
                self.node(n).children[k],
            ),
            self.node(n).ancestors.len() < self.nodes.len(),
            self.in_subtree(self.node(n).children[k], n),
    {
        assert(self.node_ok(n.0 as int));
        let c = self.node(n).children[k];
        self.lemma_chain_of_child(c);
        self.lemma_chain_len_bound(c);
        let chain = self.node(n).ancestors;
        assert(self.node(c).ancestors[chain.len() - 1] == n);
    }

    /// Attaching a node where `add_child` allows it keeps the tree well
    /// formed.
    pub proof fn lemma_attach_wf(self, parent: NodeId, child: NodeId)
        requires
            self.wf(),
            self.add_child_outcome(parent, child) is Ok,
        ensures
            self.attach(parent, child).wf(),
    {
        let t = self.attach(parent, child);
        let base = self.node(parent).ancestors;
        assert(self.node_ok(parent.0 as int));
        assert(self.node_ok(child.0 as int));
        assert(self.node_ok(self.root.0 as int));
        assert(!base.contains(child));
        assert(self.node(child).ancestors =~= seq![child]);
        assert forall|i: int| 0 <= i < t.nodes.len() implies #[trigger] t.node_ok(i) by {
            let v = self.nodes[i];
            let w = t.nodes[i];
            let me = NodeId(i as usize);
            assert(self.node_ok(i));
            if v.live {
                // nodes on a chain that starts at `child` move; no other node does
                assert forall|k: int| 0 <= k < v.ancestors.len() implies {
                    &&& self.node(v.ancestors[k]).ancestors[0] == v.ancestors[0]
                    &&& self.node(v.ancestors[k]).live
                    &&& v.ancestors[k].0 < self.nodes.len()
                } by {
                    self.lemma_chain_top(me, k);
                }
                if i == parent.0 {
                    assert(v.ancestors[0] != child);
                    assert(!v.children.contains(child)) by {
                        if v.children.contains(child) {
                            let k = choose|k: int| 0 <= k < v.children.len() && v.children[k] == child;
                            assert(self.node(v.children[k]).parent == Some(me));
                        }
                    }
                    assert forall|k: int| 0 <= k < w.children.len() implies {
                        &&& t.is_live(#[trigger] w.children[k])
                        &&& t.node(w.children[k]).parent == Some(me)
                    } by {
                        if k < v.children.len() {
                            let c = v.children[k];
                            assert(self.is_live(c) && self.node(c).parent == Some(me));
                            assert(c != child);
                        }
                    }
                    assert forall|k: int| 0 <= k < w.ancestors.len() implies {
                        &&& t.is_live(#[trigger] w.ancestors[k])
                        &&& t.node(w.ancestors[k]).ancestors == w.ancestors.take(k + 1)
                    } by {
                        self.lemma_chain_top(me, k);
                    }
                    match v.parent {
                        Some(q) => {
                            assert(t.node(q).children.contains(me)) by {
                                let k = choose|k: int| 0 <= k < self.node(q).children.len() && self.node(q).children[k] == me;
                                assert(t.node(q).children[k] == me);
                            }
                        },
                        None => {},
                    }
                } else if v.ancestors[0] == child {
                    let m = base.len() as int;
                    assert(w.ancestors =~= base + v.ancestors);
                    assert forall|a: int, b: int|
                        0 <= a < w.ancestors.len() && 0 <= b < w.ancestors.len() && a != b implies w.ancestors[a]
                        != w.ancestors[b] by {
                        if a < m && b >= m {
                            self.lemma_chain_top(parent, a);
                            self.lemma_chain_top(me, b - m);
                        }
                        if b < m && a >= m {
                            self.lemma_chain_top(parent, b);
                            self.lemma_chain_top(me, a - m);
                        }
                    }
                    assert forall|k: int| 0 <= k < w.ancestors.len() implies {
                        &&& t.is_live(#[trigger] w.ancestors[k])
                        &&& t.node(w.ancestors[k]).ancestors == w.ancestors.take(k + 1)
                    } by {
                        if k < m {
                            self.lemma_chain_top(parent, k);
                            assert(base.take(k + 1) =~= w.ancestors.take(k + 1));
                        } else {
                            self.lemma_chain_top(me, k - m);
                            assert(base + v.ancestors.take(k - m + 1) =~= w.ancestors.take(k + 1));
                        }
                    }
                    assert forall|k: int| 0 <= k < w.children.len() implies {
                        &&& t.is_live(#[trigger] w.children[k])
                        &&& t.node(w.children[k]).parent == Some(me)
                    } by {
                        let c = v.children[k];
                        assert(self.is_live(c) && self.node(c).parent == Some(me));
                    }
                    if i == child.0 {
                        assert(t.node(parent).children.last() == child);
                    } else {
                        let q = v.parent->0;
                        assert(t.node(q).children.contains(me)) by {
                            let k = choose|k: int| 0 <= k < self.node(q).children.len() && self.node(q).children[k] == me;
                            assert(t.node(q).children[k] == me);
                        }
                    }
                } else {
                    assert forall|k: int| 0 <= k < w.ancestors.len() implies {
                        &&& t.is_live(#[trigger] w.ancestors[k])
                        &&& t.node(w.ancestors[k]).ancestors == w.ancestors.take(k + 1)
                    } by {
                        self.lemma_chain_top(me, k);
                    }
                    assert forall|k: int| 0 <= k < w.children.len() implies {
                        &&& t.is_live(#[trigger] w.children[k])
                        &&& t.node(w.children[k]).parent == Some(me)
                    } by {
                        let c = v.children[k];
                        assert(self.is_live(c) && self.node(c).parent == Some(me));
                        assert(c != child);
                    }
                    match v.parent {
                        Some(q) => {
                            assert(t.node(q).children.contains(me)) by {
                                let k = choose|k: int| 0 <= k < self.node(q).children.len() && self.node(q).children[k] == me;
                                assert(t.node(q).children[k] == me);
                            }
                        },
                        None => {},
                    }
                }
            }
        }
    }

    /// Removing a subtree where `remove` allows it keeps the tree well formed.
    pub proof fn lemma_without_subtree_wf(self, n: NodeId)
        requires
            self.wf(),
            self.remove_outcome(n) is Ok,
        ensures
            self.without_subtree(n).wf(),
    {
        let t = self.without_subtree(n);
        let former_parent = self.node(n).parent;
        assert(self.node_ok(n.0 as int));
        assert(self.node_ok(self.root.0 as int));
        assert(self.node(self.root).ancestors =~= seq![self.root]);
        assert(!self.node(self.root).ancestors.contains(n));
        assert forall|i: int| 0 <= i < t.nodes.len() implies #[trigger] t.node_ok(i) by {
            let v = self.nodes[i];
            let w = t.nodes[i];
            let me = NodeId(i as usize);
            assert(self.node_ok(i));
            if v.live && !v.ancestors.contains(n) {
                assert(me != n);
                lemma_remove_value_distinct(v.children, n);
                assert forall|k: int| 0 <= k < v.ancestors.len() implies {
                    &&& t.is_live(#[trigger] v.ancestors[k])
                    &&& t.node(v.ancestors[k]).ancestors == v.ancestors.take(k + 1)
                } by {
                    self.lemma_chain_top(me, k);
                    let e = v.ancestors[k];
                    if self.node(e).ancestors.contains(n) {
                        let prefix = v.ancestors.take(k + 1);
                        let z = choose|z: int| 0 <= z < prefix.len() && prefix[z] == n;
                        assert(v.ancestors[z] == n);
                    }
                }
                assert forall|k: int| 0 <= k < w.children.len() implies {
                    &&& t.is_live(#[trigger] w.children[k])
                    &&& t.node(w.children[k]).parent == Some(me)
                } by {
                    let c = w.children[k];
                    assert(w.children.contains(c));
                    assert(v.children.contains(c));
                    let z = choose|z: int| 0 <= z < v.children.len() && v.children[z] == c;
                    assert(self.is_live(v.children[z]) && self.node(v.children[z]).parent == Some(me));
                    self.lemma_chain_of_child(c);
                    assert(c != n) by {
                        if former_parent == Some(me) {
                        } else {
                        }
                    }
                    if self.node(c).ancestors.contains(n) {
                        let y = choose|y: int| 0 <= y < self.node(c).ancestors.len() && self.node(c).ancestors[y] == n;
                        if y < v.ancestors.len() {
                            assert(v.ancestors[y] == n);
                        }
                    }
                }
                match v.parent {
                    Some(q) => {
                        self.lemma_chain_of_child(me);
                        assert(self.node_ok(q.0 as int));
                        assert(t.is_live(q));
                        lemma_remove_value_distinct(self.node(q).children, n);
                        assert(t.node(q).children.contains(me));
                    },
                    None => {},
                }
            }
        }
    }

    /// A node does not lie below one of its own children.
    pub proof fn lemma_not_below_child(self, n: NodeId, k: int)
        requires
            self.wf(),
            self.is_live(n),
            0 <= k < self.node(n).children.len(),
        ensures
            !self.in_subtree(n, self.node(n).children[k]),
    {
        let c = self.node(n).children[k];
        self.lemma_child_facts(n, k);
        let chain = self.node(n).ancestors;
        if chain.contains(c) {
            let x = choose|x: int| 0 <= x < chain.len() && chain[x] == c;
            self.lemma_chain_top(n, x);
            assert(chain.take(x + 1).len() == x + 1);
        }
    }

    /// The subtrees of two different children of a node share no node.
    pub proof fn lemma_sibling_subtrees_disjoint(self, n: NodeId, a: int, b: int, d: NodeId)
        requires
            self.wf(),
            self.is_live(n),
            0 <= a < self.node(n).children.len(),
            0 <= b < self.node(n).children.len(),
            a != b,
            self.in_subtree(d, self.node(n).children[a]),
        ensures
            !self.in_subtree(d, self.node(n).children[b]),
    {
        let first = self.node(n).children[a];
        let second = self.node(n).children[b];
        self.lemma_child_facts(n, a);
        self.lemma_child_facts(n, b);
        assert(self.node_ok(n.0 as int));
        assert(first != second);
        let depth = self.node(n).ancestors.len() as int;
        let chain = self.node(d).ancestors;
        let x = choose|x: int| 0 <= x < chain.len() && chain[x] == first;
        self.lemma_chain_top(d, x);
        assert(chain.take(x + 1).len() == x + 1);
        assert(x == depth);
        if chain.contains(second) {
            let y = choose|y: int| 0 <= y < chain.len() && chain[y] == second;
            self.lemma_chain_top(d, y);
            assert(chain.take(y + 1).len() == y + 1);
            assert(y == depth);
        }
    }

    /// Whether `d` lies in the subtree of one of the first `count` children
    /// of `n`.
    pub open spec fn below_first_children(self, d: NodeId, n: NodeId, count: int) -> bool {
        exists|j: int|
            0 <= j < count && j < self.node(n).children.len() && #[trigger] self.in_subtree(
                d,
                self.node(n).children[j],
            )
    }

    /// The subtree of a node is the node itself and the subtrees of its
    /// children.
    pub proof fn lemma_subtree_splits(self, n: NodeId, d: NodeId)
        requires
            self.wf(),
            self.is_live(n),
        ensures
            self.in_subtree(d, n) <==> (d == n || self.below_first_children(
                d,
                n,
                self.node(n).children.len() as int,
            )),
    {
        let kids = self.node(n).children;
        if d == n {
            self.lemma_subtree_reflexive(n);
        }
        if self.below_first_children(d, n, kids.len() as int) {
            let j = choose|j: int|
                0 <= j < kids.len() && j < self.node(n).children.len() && #[trigger] self.in_subtree(
                    d,
                    self.node(n).children[j],
                );
            self.lemma_child_facts(n, j);
            self.lemma_subtree_transitive(d, kids[j], n);
        }
        if self.in_subtree(d, n) && d != n {
            assert(self.node_ok(d.0 as int));
            assert(self.node_ok(n.0 as int));
            let chain = self.node(d).ancestors;
            let x = choose|x: int| 0 <= x < chain.len() && chain[x] == n;
            self.lemma_chain_top(d, x);
            assert(chain[chain.len() - 1] == d);
            assert(x + 1 < chain.len());
            let c = chain[x + 1];
            self.lemma_chain_top(d, x + 1);
            assert(self.node_ok(c.0 as int));
            let upper = self.node(c).ancestors;
            assert(upper.len() == x + 2);
            assert(upper[x] == chain[x]);
            assert(self.node(c).parent == Some(n));
            assert(kids.contains(c));
            let j = choose|j: int| 0 <= j < kids.len() && kids[j] == c;
            assert(self.in_subtree(d, self.node(n).children[j]));
        }
    }

    /// The nodes that can be reached from the root.
    pub open spec fn reachable_nodes(self) -> Set<NodeId> {
        Set::new(|n: NodeId| self.reachable(n))
    }

    /// The handles of the first `count` slots.
    pub open spec fn slots_below(count: nat) -> Set<NodeId> {
        Set::new(|n: NodeId| n.0 < count)
    }

    /// The first `count` slots have `count` handles.
    pub proof fn lemma_slots_below(count: nat)
        requires
            count <= usize::MAX,
        ensures
            Self::slots_below(count).finite(),
            Self::slots_below(count).len() == count,
        decreases count,
    {
        if count == 0 {
            assert(Self::slots_below(0) =~= Set::<NodeId>::empty());
        } else {
            let fewer = (count - 1) as nat;
            Self::lemma_slots_below(fewer);
            assert(Self::slots_below(count) =~= Self::slots_below(fewer).insert(
                NodeId(fewer as usize),
            ));
        }
    }

    /// No more nodes can be reached from the root than the arena has slots.
    pub proof fn lemma_reachable_nodes_bound(self)
        requires
            self.wf(),
        ensures
            self.reachable_nodes().finite(),
            self.reachable_nodes().len() <= self.nodes.len(),
    {
        Self::lemma_slots_below(self.nodes.len());
        assert(self.reachable_nodes().subset_of(Self::slots_below(self.nodes.len())));
        vstd::set_lib::lemma_len_subset(
            self.reachable_nodes(),
            Self::slots_below(self.nodes.len()),
        );
    }

    /// A style that was set is the style that is read: after the style of a
    /// live node `n` was replaced by `style`, the style of `n` is `style`,
    /// and the style of every other node is what it was.
    pub proof fn lemma_style_round_trip(self, n: NodeId, style: Style)
        requires
            self.is_live(n),
        ensures
            self.with_style(n, style).is_live(n),
            self.with_style(n, style).node(n).style == style,
            forall|m: NodeId|
                m != n && m.0 < self.nodes.len() ==> #[trigger] self.with_style(n, style).node(m)
                    == self.node(m),
    {
    }

    /// The root cannot be removed: the attempt is answered with
    /// `InvalidMutation`, which leaves the tree as it was.
    pub proof fn lemma_root_is_protected(self)
        requires
            self.wf(),
        ensures
            self.remove_outcome(self.root) == Err::<(), TreeError>(TreeError::InvalidMutation),
    {
    }

    /// A subtree is removed as a whole. After the removal of `n`, no child
    /// list names `n`; every node that was in the subtree of `n` is dead,
    /// cannot be reached from the root, and is named by no child list and no
    /// ancestor chain; and every other live node is live as before, with the
    /// parent, the ancestors, the style and the layout it had.
    pub proof fn lemma_removed_subtree_is_gone(self, n: NodeId)
        requires
            self.wf(),
            self.remove_outcome(n) is Ok,
        ensures
            self.without_subtree(n).wf(),
            forall|a: NodeId|
                a.0 < self.nodes.len() ==> !(#[trigger] self.without_subtree(n).node(
                    a,
                )).children.contains(n),
            forall|d: NodeId|
                self.in_subtree(d, n) ==> !self.without_subtree(n).is_live(d)
                    && !self.without_subtree(n).reachable(d),
            forall|d: NodeId, a: NodeId|
                #![trigger self.in_subtree(d, n), self.without_subtree(n).node(a)]
                self.in_subtree(d, n) && a.0 < self.nodes.len() ==> {
                    &&& !self.without_subtree(n).node(a).children.contains(d)
                    &&& !self.without_subtree(n).node(a).ancestors.contains(d)
                },
            forall|m: NodeId|
                self.is_live(m) && !self.in_subtree(m, n) ==> {
                    &&& #[trigger] self.without_subtree(n).is_live(m)
                    &&& self.without_subtree(n).node(m).parent == self.node(m).parent
                    &&& self.without_subtree(n).node(m).ancestors == self.node(m).ancestors
                    &&& self.without_subtree(n).node(m).style == self.node(m).style
                    &&& self.without_subtree(n).node(m).layout == self.node(m).layout
                },
    {
        let t = self.without_subtree(n);
        self.lemma_without_subtree_wf(n);
        self.lemma_subtree_reflexive(n);
        assert forall|d: NodeId, a: NodeId|
            #![trigger self.in_subtree(d, n), t.node(a)]
            self.in_subtree(d, n) && a.0 < self.nodes.len() implies {
            &&& !t.node(a).children.contains(d)
            &&& !t.node(a).ancestors.contains(d)
        } by {
            assert(t.node_ok(a.0 as int));
            assert(NodeId(a.0 as int as usize) == a);
            let w = t.node(a);
            if w.children.contains(d) {
                let k = choose|k: int| 0 <= k < w.children.len() && w.children[k] == d;
                assert(t.is_live(w.children[k]));
            }
            if w.ancestors.contains(d) {
                let k = choose|k: int| 0 <= k < w.ancestors.len() && w.ancestors[k] == d;
                assert(t.is_live(w.ancestors[k]));
            }
        }
        assert forall|a: NodeId| a.0 < self.nodes.len() implies !(#[trigger] t.node(
            a,
        )).children.contains(n) by {
            assert(!t.node(a).children.contains(n) && !t.node(a).ancestors.contains(n));
        }
    }
}

/// Removing a value from a sequence without repeats leaves no occurrence of
/// it and keeps every other element.
pub proof fn lemma_remove_value_distinct<A>(s: Seq<A>, v: A)
    requires
        s.no_duplicates(),
    ensures
        s.remove_value(v).no_duplicates(),
        !s.remove_value(v).contains(v),
        forall|x: A| x != v ==> (#[trigger] s.remove_value(v).contains(x) == s.contains(x)),
        forall|x: A| #[trigger] s.remove_value(v).contains(x) ==> s.contains(x),
{
    s.index_of_first_ensures(v);
    let r = s.remove_value(v);
    match s.index_of_first(v) {
        Some(at) => {
            assert(r =~= s.remove(at));
            assert forall|k: int| 0 <= k < r.len() implies r[k] == s[if k < at {
                k
            } else {
                k + 1
            }] by {}
            assert forall|a: int, b: int| 0 <= a < r.len() && 0 <= b < r.len() && a != b implies r[a]
                != r[b] by {
                let a2 = if a < at { a } else { a + 1 };
                let b2 = if b < at { b } else { b + 1 };
                assert(r[a] == s[a2] && r[b] == s[b2]);
            }
            if r.contains(v) {
                let k = choose|k: int| 0 <= k < r.len() && r[k] == v;
                let k2 = if k < at { k } else { k + 1 };
                assert(s[k2] == v && s[at] == v && k2 != at);
            }
            assert forall|x: A| x != v implies (#[trigger] r.contains(x) == s.contains(x)) by {
                if s.contains(x) {
                    let k = choose|k: int| 0 <= k < s.len() && s[k] == x;
                    let k2 = if k < at { k } else { k - 1 };
                    assert(r[k2] == x);
                }
                if r.contains(x) {
                    let k = choose|k: int| 0 <= k < r.len() && r[k] == x;
                    let k2 = if k < at { k } else { k + 1 };
                    assert(s[k2] == x);
                }
            }
            assert forall|x: A| #[trigger] r.contains(x) implies s.contains(x) by {
                let k = choose|k: int| 0 <= k < r.len() && r[k] == x;
                let k2 = if k < at { k } else { k + 1 };
                assert(s[k2] == x);
            }
        },
        None => {},
    }
}

} // verus!
