//! Hit testing: which node a pointer position applies to.
//!
//! The search is depth first and asks the children before the node itself.
//! Children are tried in paint order, lowest stacking order first, and the
//! first child whose subtree answers wins: where siblings overlap, the one
//! that is tried first gets the event, which need not be the one painted on
//! top. A node answers for itself only when none of its children did.

use vstd::prelude::*;
use crate::geometry::{frame_in_reach, layout_covers, ComputedLayout, Point};
use crate::order::paint_order;
use crate::model::TreeView;
use crate::tree::{LayoutTree, NodeId};

verus! {

impl TreeView {
    /// How many levels can still lie below `n`.
    pub open spec fn depth_room(self, n: NodeId) -> nat {
        (self.nodes.len() - self.node(n).ancestors.len()) as nat
    }

    /// The node that the point `(px, py)` resolves to in the subtree of `n`,
    /// where the frame of the parent of `n` starts at `(ox, oy)`.
    pub open spec fn hit(self, n: NodeId, ox: int, oy: int, px: int, py: int) -> Option<NodeId>
        decreases self.depth_room(n), self.paint_order(n).len() + 1,
        when self.wf() && self.is_live(n)
    {
        let layout = self.node(n).layout;
        match self.hit_children(n, 0, ox + layout.x, oy + layout.y, px, py) {
            Some(found) => Some(found),
            None => if layout_covers(ox, oy, layout, px, py) {
                Some(n)
            } else {
                None
            },
        }
    }

    /// The answer of the first child of `n`, from position `from` of the
    /// paint order on, whose subtree has one; `(ox, oy)` is where the frame
    /// of `n` starts.
    pub open spec fn hit_children(
        self,
        n: NodeId,
        from: int,
        ox: int,
        oy: int,
        px: int,
        py: int,
    ) -> Option<NodeId>
        decreases self.depth_room(n), self.paint_order(n).len() - from,
        when self.wf() && self.is_live(n) && 0 <= from
    {
        let kids = self.paint_order(n);
        if from >= kids.len() {
            None
        } else {
            proof {
                self.lemma_paint_order_entry(n, from);
            }
            match self.hit(kids[from], ox, oy, px, py) {
                Some(found) => Some(found),
                None => self.hit_children(n, from + 1, ox, oy, px, py),
            }
        }
    }

    /// A hit test answers with a node of the subtree it searched.
    pub proof fn lemma_hit_in_subtree(self, n: NodeId, ox: int, oy: int, px: int, py: int)
        requires
            self.wf(),
            self.is_live(n),
            self.hit(n, ox, oy, px, py) is Some,
        ensures
            self.in_subtree(self.hit(n, ox, oy, px, py)->0, n),
        decreases self.depth_room(n), self.paint_order(n).len() + 1,
    {
        let layout = self.node(n).layout;
        if self.hit_children(n, 0, ox + layout.x, oy + layout.y, px, py) is Some {
            self.lemma_hit_children_in_subtree(n, 0, ox + layout.x, oy + layout.y, px, py);
        } else {
            self.lemma_subtree_reflexive(n);
        }
    }

    /// The children of `n` answer with a node of the subtree of `n`.
    pub proof fn lemma_hit_children_in_subtree(
        self,
        n: NodeId,
        from: int,
        ox: int,
        oy: int,
        px: int,
        py: int,
    )
        requires
            self.wf(),
            self.is_live(n),
            0 <= from,
            self.hit_children(n, from, ox, oy, px, py) is Some,
        ensures
            self.in_subtree(self.hit_children(n, from, ox, oy, px, py)->0, n),
        decreases self.depth_room(n), self.paint_order(n).len() - from,
    {
        let kids = self.paint_order(n);
        if from < kids.len() {
            let kid = kids[from];
            self.lemma_paint_order_entry(n, from);
            self.lemma_chain_len_bound(kid);
            if self.hit(kid, ox, oy, px, py) is Some {
                self.lemma_hit_in_subtree(kid, ox, oy, px, py);
                self.lemma_subtree_transitive(self.hit(kid, ox, oy, px, py)->0, kid, n);
            } else {
                self.lemma_hit_children_in_subtree(n, from + 1, ox, oy, px, py);
            }
        }
    }

    /// Among the children of `p`, one whose subtree answers while no other
    /// child's subtree does decides the hit test of `p`, wherever the
    /// stacking orders put it.
    pub proof fn lemma_sole_answering_child(
        self,
        p: NodeId,
        c: NodeId,
        ox: int,
        oy: int,
        px: int,
        py: int,
    )
        requires
            self.wf(),
            self.is_live(p),
            self.node(p).children.contains(c),
            self.hit(c, ox + self.node(p).layout.x, oy + self.node(p).layout.y, px, py) is Some,
            forall|d: NodeId|
                self.node(p).children.contains(d) && d != c ==> (#[trigger] self.hit(
                    d,
                    ox + self.node(p).layout.x,
                    oy + self.node(p).layout.y,
                    px,
                    py,
                )) is None,
        ensures
            self.hit(p, ox, oy, px, py) == self.hit(
                c,
                ox + self.node(p).layout.x,
                oy + self.node(p).layout.y,
                px,
                py,
            ),
    {
        let kids = self.paint_order(p);
        self.lemma_sorted_by_order(self.node(p).children);
        assert(kids.contains(c));
        let at = choose|at: int| 0 <= at < kids.len() && kids[at] == c;
        self.lemma_first_answer(
            p,
            c,
            0,
            at,
            ox + self.node(p).layout.x,
            oy + self.node(p).layout.y,
            px,
            py,
        );
    }

    proof fn lemma_first_answer(
        self,
        p: NodeId,
        c: NodeId,
        from: int,
        at: int,
        ox: int,
        oy: int,
        px: int,
        py: int,
    )
        requires
            self.wf(),
            self.is_live(p),
            0 <= from <= at < self.paint_order(p).len(),
            self.paint_order(p)[at] == c,
            self.hit(c, ox, oy, px, py) is Some,
            forall|d: NodeId|
                self.node(p).children.contains(d) && d != c ==> (#[trigger] self.hit(
                    d,
                    ox,
                    oy,
                    px,
                    py,
                )) is None,
        ensures
            self.hit_children(p, from, ox, oy, px, py) == self.hit(c, ox, oy, px, py),
        decreases at - from,
    {
        let kids = self.paint_order(p);
        self.lemma_paint_order_entry(p, from);
        self.lemma_paint_order_entry(p, at);
        if kids[from] != c {
            assert(self.hit(kids[from], ox, oy, px, py) is None);
            self.lemma_first_answer(p, c, from + 1, at, ox, oy, px, py);
            assert(self.hit_children(p, from, ox, oy, px, py) == self.hit_children(
                p,
                from + 1,
                ox,
                oy,
                px,
                py,
            ));
        } else {
            assert(self.hit_children(p, from, ox, oy, px, py) == self.hit(c, ox, oy, px, py));
        }
    }

    /// Siblings that are leaves, and a point that lies in the rectangle of
    /// exactly one of them: the hit test of their parent answers with that
    /// one, whatever the stacking orders are.
    pub proof fn lemma_disjoint_siblings(self, p: NodeId, c: NodeId, ox: int, oy: int, px: int, py: int)
        requires
            self.wf(),
            self.is_live(p),
            self.node(p).children.contains(c),
            forall|d: NodeId|
                self.node(p).children.contains(d) ==> (#[trigger] self.node(d)).children.len() == 0,
            forall|d: NodeId|
                self.node(p).children.contains(d) ==> (d == c <==> layout_covers(
                    ox + self.node(p).layout.x,
                    oy + self.node(p).layout.y,
                    (#[trigger] self.node(d)).layout,
                    px,
                    py,
                )),
        ensures
            self.hit(p, ox, oy, px, py) == Some(c),
    {
        let cx = ox + self.node(p).layout.x;
        let cy = oy + self.node(p).layout.y;
        assert forall|d: NodeId| self.node(p).children.contains(d) implies (#[trigger] self.hit(
            d,
            cx,
            cy,
            px,
            py,
        )) == (if d == c {
            Some(c)
        } else {
            None
        }) by {
            let k = choose|k: int| 0 <= k < self.node(p).children.len() && self.node(p).children[k] == d;
            self.lemma_child_facts(p, k);
            assert(self.node(d).children.len() == 0);
            assert(self.paint_order(d).len() == 0);
            assert(self.hit_children(d, 0, cx + self.node(d).layout.x, cy + self.node(d).layout.y, px, py) is None);
        }
        self.lemma_sole_answering_child(p, c, ox, oy, px, py);
    }

    /// What a hit test that starts at `start` answers: nothing for a stale
    /// handle.
    pub open spec fn hit_from(self, start: NodeId, origin: Point, pointer: Point) -> Option<NodeId> {
        if self.is_live(start) {
            self.hit(start, origin.x as int, origin.y as int, pointer.x as int, pointer.y as int)
        } else {
            None
        }
    }
}

/// Whether `pointer` lies in the rectangle of a node with layout `layout`
/// whose parent's frame starts at `(ox, oy)`.
fn covers(ox: i128, oy: i128, layout: &ComputedLayout, pointer: Point, depth: Ghost<nat>) -> (r: bool)
    requires
        depth@ <= usize::MAX,
        frame_in_reach(ox as int, depth@),
        frame_in_reach(oy as int, depth@),
    ensures
        r == layout_covers(ox as int, oy as int, *layout, pointer.x as int, pointer.y as int),
{
    let min_x = ox + layout.x as i128;
    let min_y = oy + layout.y as i128;
    let max_x = min_x + layout.width as i128;
    let max_y = min_y + layout.height as i128;
    let px = pointer.x as i128;
    let py = pointer.y as i128;
    min_x <= px && px <= max_x && min_y <= py && py <= max_y
}

fn hit_node(tree: &LayoutTree, node: NodeId, ox: i128, oy: i128, pointer: Point) -> (r: Option<
    NodeId,
>)
    requires
        tree@.wf(),
        tree@.is_live(node),
        frame_in_reach(ox as int, tree@.node(node).ancestors.len()),
        frame_in_reach(oy as int, tree@.node(node).ancestors.len()),
    ensures
        r == tree@.hit(node, ox as int, oy as int, pointer.x as int, pointer.y as int),
    decreases tree@.depth_room(node),
{
    let ghost depth = tree@.node(node).ancestors.len();
    proof {
        tree@.lemma_chain_len_bound(node);
    }
    let layout = match tree.layout(node) {
        Ok(layout) => layout,
        Err(_) => ComputedLayout::zero(),
    };
    let inner_x = ox + layout.x as i128;
    let inner_y = oy + layout.y as i128;
    let kids = paint_order(tree, node);
    let mut i: usize = 0;
    while i < kids.len()
        invariant
            tree@.wf(),
            tree@.is_live(node),
            depth == tree@.node(node).ancestors.len(),
            kids@ == tree@.paint_order(node),
            i <= kids.len(),
            layout == tree@.node(node).layout,
            inner_x == ox + layout.x,
            inner_y == oy + layout.y,
            frame_in_reach(inner_x as int, depth + 1),
            frame_in_reach(inner_y as int, depth + 1),
            tree@.hit_children(
                node,
                0,
                inner_x as int,
                inner_y as int,
                pointer.x as int,
                pointer.y as int,
            ) == tree@.hit_children(
                node,
                i as int,
                inner_x as int,
                inner_y as int,
                pointer.x as int,
                pointer.y as int,
            ),
        decreases kids.len() - i,
    {
        let kid = kids[i];
        proof {
            tree@.lemma_paint_order_entry(node, i as int);
            tree@.lemma_chain_len_bound(kid);
        }
        match hit_node(tree, kid, inner_x, inner_y, pointer) {
            Some(found) => {
                return Some(found);
            },
            None => {},
        }
        i = i + 1;
    }
    if covers(ox, oy, &layout, pointer, Ghost(depth)) {
        Some(node)
    } else {
        None
    }
}

/// Resolves `pointer` to a node of the subtree of `start`, whose parent's
/// frame starts at `origin`: both are positions in the frame of the drawing
/// region, and `origin` is zero when `start` is the root. The answer is
/// `None` when no rectangle in the subtree holds the point, and for a stale
/// handle.
pub fn hit_test(tree: &LayoutTree, start: NodeId, origin: Point, pointer: Point) -> (r: Option<
    NodeId,
>)
    requires
        tree@.wf(),
    ensures
        r == tree@.hit_from(start, origin, pointer),
{
    if !tree.contains(start) {
        return None;
    }
    proof {
        assert(tree@.node_ok(start.0 as int));
    }
    hit_node(tree, start, origin.x as i128, origin.y as i128, pointer)
}

} // verus!
