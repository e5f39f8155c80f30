//! The order in which the children of a node are visited: ascending by the
//! stacking order that the layout engine gave them. Children with equal
//! stacking order keep the order in which they were inserted.

use vstd::prelude::*;
use crate::model::TreeView;
use crate::tree::{LayoutTree, NodeId};

verus! {

impl TreeView {
    pub open spec fn order_of(self, n: NodeId) -> u32 {
        self.node(n).layout.order
    }

    /// Whether stacking order never falls along `s`.
    pub open spec fn ascending(self, s: Seq<NodeId>) -> bool {
        forall|a: int, b: int| 0 <= a <= b < s.len() ==> self.order_of(s[a]) <= self.order_of(s[b])
    }

    /// `c` put into the ascending sequence `sorted`, behind every entry that
    /// is not above it.
    pub open spec fn insert_by_order(self, sorted: Seq<NodeId>, c: NodeId) -> Seq<NodeId>
        decreases sorted.len(),
    {
        if sorted.len() == 0 {
            seq![c]
        } else if self.order_of(sorted.last()) <= self.order_of(c) {
            sorted.push(c)
        } else {
            self.insert_by_order(sorted.drop_last(), c).push(sorted.last())
        }
    }

    /// `s` sorted by stacking order, stably.
    pub open spec fn sorted_by_order(self, s: Seq<NodeId>) -> Seq<NodeId>
        decreases s.len(),
    {
        if s.len() == 0 {
            Seq::empty()
        } else {
            self.insert_by_order(self.sorted_by_order(s.drop_last()), s.last())
        }
    }

    /// The children of `n` in the order in which they are hit-tested and
    /// painted.
    pub open spec fn paint_order(self, n: NodeId) -> Seq<NodeId> {
        self.sorted_by_order(self.node(n).children)
    }

    /// Where the insertion puts `c`: at the one position `at` with nothing
    /// above `c` before it and only entries above `c` after it.
    pub proof fn lemma_insert_position(self, sorted: Seq<NodeId>, c: NodeId, at: int)
        requires
            0 <= at <= sorted.len(),
            forall|j: int| at <= j < sorted.len() ==> self.order_of(sorted[j]) > self.order_of(c),
            at > 0 ==> self.order_of(sorted[at - 1]) <= self.order_of(c),
        ensures
            self.insert_by_order(sorted, c) == sorted.insert(at, c),
        decreases sorted.len(),
    {
        if sorted.len() == 0 {
            assert(sorted.insert(at, c) =~= seq![c]);
        } else if at == sorted.len() {
            assert(sorted.insert(at, c) =~= sorted.push(c));
        } else {
            self.lemma_insert_position(sorted.drop_last(), c, at);
            assert(sorted.insert(at, c) =~= sorted.drop_last().insert(at, c).push(sorted.last()));
        }
    }

    /// Insertion adds `c` and nothing else, and keeps an ascending sequence
    /// ascending.
    pub proof fn lemma_insert_by_order(self, sorted: Seq<NodeId>, c: NodeId)
        ensures
            self.insert_by_order(sorted, c).len() == sorted.len() + 1,
            forall|x: NodeId|
                #[trigger] self.insert_by_order(sorted, c).contains(x) <==> (sorted.contains(x) || x
                    == c),
            self.ascending(sorted) ==> self.ascending(self.insert_by_order(sorted, c)),
        decreases sorted.len(),
    {
        let r = self.insert_by_order(sorted, c);
        if sorted.len() == 0 {
            assert(r[0] == c);
            assert forall|x: NodeId| #[trigger] r.contains(x) <==> (sorted.contains(x) || x == c) by {}
        } else if self.order_of(sorted.last()) <= self.order_of(c) {
            assert(r.last() == c);
            assert forall|x: NodeId| #[trigger] r.contains(x) <==> (sorted.contains(x) || x == c) by {
                if sorted.contains(x) {
                    let k = choose|k: int| 0 <= k < sorted.len() && sorted[k] == x;
                    assert(r[k] == x);
                }
            }
        } else {
            let front = sorted.drop_last();
            let inner = self.insert_by_order(front, c);
            self.lemma_insert_by_order(front, c);
            assert(r.last() == sorted.last());
            assert forall|x: NodeId| #[trigger] r.contains(x) <==> (sorted.contains(x) || x == c) by {
                if r.contains(x) {
                    let k = choose|k: int| 0 <= k < r.len() && r[k] == x;
                    if k < inner.len() {
                        assert(inner[k] == x);
                        assert(inner.contains(x));
                        if front.contains(x) {
                            let z = choose|z: int| 0 <= z < front.len() && front[z] == x;
                            assert(sorted[z] == x);
                        }
                    } else {
                        assert(sorted[sorted.len() - 1] == x);
                    }
                }
                if sorted.contains(x) {
                    let k = choose|k: int| 0 <= k < sorted.len() && sorted[k] == x;
                    if k < front.len() {
                        assert(front[k] == x);
                        assert(front.contains(x));
                        assert(inner.contains(x));
                        let z = choose|z: int| 0 <= z < inner.len() && inner[z] == x;
                        assert(r[z] == x);
                    } else {
                        assert(r[r.len() - 1] == x);
                    }
                }
                if x == c {
                    assert(inner.contains(c));
                    let z = choose|z: int| 0 <= z < inner.len() && inner[z] == c;
                    assert(r[z] == c);
                }
            }
            if self.ascending(sorted) {
                assert(self.ascending(front)) by {
                    assert forall|a: int, b: int| 0 <= a <= b < front.len() implies self.order_of(
                        front[a],
                    ) <= self.order_of(front[b]) by {
                        assert(front[a] == sorted[a] && front[b] == sorted[b]);
                    }
                }
                assert forall|a: int, b: int| 0 <= a <= b < r.len() implies self.order_of(r[a])
                    <= self.order_of(r[b]) by {
                    if b < inner.len() {
                        assert(r[a] == inner[a] && r[b] == inner[b]);
                    } else if a < inner.len() {
                        let x = inner[a];
                        assert(r[a] == x);
                        assert(inner.contains(x));
                        if front.contains(x) {
                            let z = choose|z: int| 0 <= z < front.len() && front[z] == x;
                            assert(sorted[z] == x);
                        }
                    }
                }
            }
        }
    }

    /// Sorting permutes: it keeps the length and the entries, and the result
    /// is ascending.
    pub proof fn lemma_sorted_by_order(self, s: Seq<NodeId>)
        ensures
            self.sorted_by_order(s).len() == s.len(),
            forall|x: NodeId| #[trigger] self.sorted_by_order(s).contains(x) <==> s.contains(x),
            self.ascending(self.sorted_by_order(s)),
        decreases s.len(),
    {
        let r = self.sorted_by_order(s);
        if s.len() == 0 {
            assert forall|x: NodeId| #[trigger] r.contains(x) <==> s.contains(x) by {}
        } else {
            let front = s.drop_last();
            let inner = self.sorted_by_order(front);
            self.lemma_sorted_by_order(front);
            self.lemma_insert_by_order(inner, s.last());
            assert forall|x: NodeId| #[trigger] r.contains(x) <==> s.contains(x) by {
                if s.contains(x) {
                    let k = choose|k: int| 0 <= k < s.len() && s[k] == x;
                    if k < front.len() {
                        assert(front[k] == x);
                        assert(front.contains(x));
                    }
                }
                if r.contains(x) && x != s.last() {
                    assert(inner.contains(x));
                    assert(front.contains(x));
                    let k = choose|k: int| 0 <= k < front.len() && front[k] == x;
                    assert(s[k] == x);
                } else if x == s.last() {
                    assert(s[s.len() - 1] == x);
                }
            }
        }
    }

    /// Every entry of the paint order of a live node is one of its children:
    /// live, with that node as parent, one level further down.
    pub proof fn lemma_paint_order_entry(self, n: NodeId, k: int)
        requires
            self.wf(),
            self.is_live(n),
            0 <= k < self.paint_order(n).len(),
        ensures
            self.node(n).children.contains(self.paint_order(n)[k]),
            self.is_live(self.paint_order(n)[k]),
            self.node(self.paint_order(n)[k]).parent == Some(n),
            self.node(self.paint_order(n)[k]).ancestors == self.node(n).ancestors.push(
                self.paint_order(n)[k],
            ),
            self.node(n).ancestors.len() < self.nodes.len(),
            self.in_subtree(self.paint_order(n)[k], n),
    {
        let kids = self.node(n).children;
        let c = self.paint_order(n)[k];
        self.lemma_sorted_by_order(kids);
        assert(self.paint_order(n).contains(c));
        assert(kids.contains(c));
        let z = choose|z: int| 0 <= z < kids.len() && kids[z] == c;
        self.lemma_child_facts(n, z);
    }
}

/// The children of `node` sorted by stacking order, ties in insertion order;
/// empty for a leaf and for a stale handle.
pub fn paint_order(tree: &LayoutTree, node: NodeId) -> (r: Vec<NodeId>)
    requires
        tree@.wf(),
    ensures
        tree@.is_live(node) ==> r@ == tree@.paint_order(node),
        !tree@.is_live(node) ==> r@ == Seq::<NodeId>::empty(),
{
    let kids = tree.children(node);
    let mut out: Vec<NodeId> = Vec::new();
    if !tree.contains(node) {
        return out;
    }
    let mut i: usize = 0;
    while i < kids.len()
        invariant
            tree@.wf(),
            tree@.is_live(node),
            kids@ == tree@.node(node).children,
            i <= kids.len(),
            out@ == tree@.sorted_by_order(kids@.take(i as int)),
        decreases kids.len() - i,
    {
        let c = kids[i];
        proof {
            tree@.lemma_child_facts(node, i as int);
            tree@.lemma_sorted_by_order(kids@.take(i as int));
        }
        let order_c = stacking_order(tree, c);
        assert forall|j: int| 0 <= j < out@.len() implies tree@.is_live(#[trigger] out@[j]) by {
            assert(out@.contains(out@[j]));
            let seen = kids@.take(i as int);
            assert(seen.contains(out@[j]));
            let z = choose|z: int| 0 <= z < seen.len() && seen[z] == out@[j];
            tree@.lemma_child_facts(node, z);
        }
        let mut at: usize = out.len();
        while at > 0 && stacking_order(tree, out[at - 1]) > order_c
            invariant
                tree@.wf(),
                at <= out@.len(),
                order_c == tree@.order_of(c),
                forall|j: int| 0 <= j < out@.len() ==> tree@.is_live(#[trigger] out@[j]),
                forall|j: int| at <= j < out@.len() ==> tree@.order_of(out@[j]) > order_c,
            decreases at,
        {
            at = at - 1;
        }
        proof {
            tree@.lemma_insert_position(out@, c, at as int);
            assert(kids@.take(i + 1).drop_last() =~= kids@.take(i as int));
        }
        out.insert(at, c);
        i = i + 1;
    }
    assert(kids@.take(kids@.len() as int) =~= kids@);
    out
}

/// The stacking order stored for `node`; zero for a stale handle.
pub fn stacking_order(tree: &LayoutTree, node: NodeId) -> (r: u32)
    ensures
        tree@.is_live(node) ==> r == tree@.order_of(node),
        !tree@.is_live(node) ==> r == 0,
{
    match tree.layout(node) {
        Ok(layout) => layout.order,
        Err(_) => 0,
    }
}

} // verus!
