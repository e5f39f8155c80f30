//! The layout tree: an arena of nodes addressed by stable handles.
//!
//! A handle is the index of a slot, and a slot is never given out twice, so
//! a handle whose node was removed stays stale for good. What each operation
//! does is stated over the model of the tree, `TreeView`.

use vstd::prelude::*;
use crate::geometry::ComputedLayout;
use crate::model::{NodeView, TreeView};
use taffy::Style;

verus! {

/// A handle to a node. It may be stale: every operation checks it.
#[derive(Clone, Copy, Debug, PartialEq, Eq, Structural, Hash)]
pub struct NodeId(pub usize);

/// Why an operation on the tree was refused.
#[derive(Clone, Copy, Debug, PartialEq, Eq, Structural)]
pub enum TreeError {
    /// The handle does not name a node that is in the tree now.
    NodeNotFound,
    /// The change would remove the root, attach a node twice or close a cycle.
    InvalidMutation,
    /// The layout engine could not lay the tree out.
    LayoutEngineFailure,
}

impl TreeError {
    pub open spec fn describe_spec(self) -> Seq<char> {
        match self {
            TreeError::NodeNotFound => "the handle names no node of the tree"@,
            TreeError::InvalidMutation => "the change would break the tree"@,
            TreeError::LayoutEngineFailure => "the layout engine failed"@,
        }
    }

    /// The message under which the refusal is reported.
    pub fn describe(&self) -> (r: &'static str)
        ensures
            r@ == self.describe_spec(),
    {
        match self {
            TreeError::NodeNotFound => "the handle names no node of the tree",
            TreeError::InvalidMutation => "the change would break the tree",
            TreeError::LayoutEngineFailure => "the layout engine failed",
        }
    }
}

struct Slot {
    live: bool,
    parent: Option<NodeId>,
    children: Vec<NodeId>,
    style: Style,
    layout: ComputedLayout,
}

/// The arena. Its model is `self@`; every operation asks for `self@.wf()`
/// and keeps it.
pub struct LayoutTree {
    slots: Vec<Slot>,
    root: NodeId,
    chains: Ghost<Seq<Seq<NodeId>>>,
}

impl View for LayoutTree {
    type V = TreeView;

    closed spec fn view(&self) -> TreeView {
        TreeView {
            root: self.root,
            nodes: Seq::new(
                self.slots@.len(),
                |i: int|
                    NodeView {
                        live: self.slots@[i].live,
                        parent: self.slots@[i].parent,
                        children: self.slots@[i].children@,
                        ancestors: self.chains@[i],
                        style: self.slots@[i].style,
                        layout: self.slots@[i].layout,
                    },
            ),
        }
    }
}

impl LayoutTree {
    /// A tree that holds only its root.
    pub fn new(root_style: Style) -> (tree: LayoutTree)
        ensures
            tree@.wf(),
            tree@ == TreeView::single(root_style),
    {
        let mut slots: Vec<Slot> = Vec::new();
        slots.push(
            Slot {
                live: true,
                parent: None,
                children: Vec::new(),
                style: root_style,
                layout: ComputedLayout::zero(),
            },
        );
        let ghost chains: Seq<Seq<NodeId>> = seq![seq![NodeId(0)]];
        let tree = LayoutTree { slots, root: NodeId(0), chains: Ghost(chains) };
        proof {
            assert(tree@.node_ok(0)) by {
                let v = tree@.nodes[0];
                assert(v.ancestors =~= seq![NodeId(0)]);
                assert(v.ancestors.take(1) =~= v.ancestors);
            }
            assert(tree@.node(NodeId(0)).ancestors =~= seq![NodeId(0)]);
            assert(tree@.node(NodeId(0)).children =~= Seq::empty());
            assert(tree@.nodes =~= TreeView::single(root_style).nodes);
        }
        tree
    }

    /// The handle of the root.
    pub fn root(&self) -> (r: NodeId)
        ensures
            r == self@.root,
    {
        self.root
    }

    /// How many handles were ever given out, stale ones included.
    pub fn slot_count(&self) -> (r: usize)
        ensures
            r == self@.nodes.len(),
    {
        self.slots.len()
    }

    /// Whether `node` names a node that is in the tree now.
    pub fn contains(&self, node: NodeId) -> (r: bool)
        ensures
            r == self@.is_live(node),
    {
        node.0 < self.slots.len() && self.slots[node.0].live
    }

    /// The style of `node`.
    pub fn style(&self, node: NodeId) -> (r: Result<&Style, TreeError>)
        ensures
            self@.is_live(node) ==> r == Ok::<&Style, TreeError>(&self@.node(node).style),
            !self@.is_live(node) ==> r == Err::<&Style, TreeError>(TreeError::NodeNotFound),
    {
        if self.contains(node) {
            Ok(&self.slots[node.0].style)
        } else {
            Err(TreeError::NodeNotFound)
        }
    }

    /// Replaces the style of `node`; nothing else changes.
    pub fn set_style(&mut self, node: NodeId, style: Style) -> (r: Result<(), TreeError>)
        requires
            old(self)@.wf(),
        ensures
            final(self)@.wf(),
            old(self)@.is_live(node) ==> r == Ok::<(), TreeError>(()) && final(self)@ == old(self)@.with_style(node, style),
            !old(self)@.is_live(node) ==> r == Err::<(), TreeError>(TreeError::NodeNotFound)
                && final(self)@ == old(self)@,
    {
        if !self.contains(node) {
            return Err(TreeError::NodeNotFound);
        }
        self.slots[node.0].style = style;
        proof {
            assert(self@.nodes =~= old(self)@.with_style(node, style).nodes);
            old(self)@.lemma_with_style_wf(node, style);
        }
        Ok(())
    }

    /// Replaces the computed layout of `node`; nothing else changes.
    pub fn set_layout(&mut self, node: NodeId, layout: ComputedLayout) -> (r: Result<(), TreeError>)
        requires
            old(self)@.wf(),
        ensures
            final(self)@.wf(),
            old(self)@.is_live(node) ==> r == Ok::<(), TreeError>(()) && final(self)@ == old(self)@.with_layout(node, layout),
            !old(self)@.is_live(node) ==> r == Err::<(), TreeError>(TreeError::NodeNotFound)
                && final(self)@ == old(self)@,
    {
        if !self.contains(node) {
            return Err(TreeError::NodeNotFound);
        }
        self.slots[node.0].layout = layout;
        proof {
            assert(self@.nodes =~= old(self)@.with_layout(node, layout).nodes);
            old(self)@.lemma_with_layout_wf(node, layout);
        }
        Ok(())
    }

    /// The layout that was last stored for `node`.
    pub fn layout(&self, node: NodeId) -> (r: Result<ComputedLayout, TreeError>)
        ensures
            self@.is_live(node) ==> r == Ok::<ComputedLayout, TreeError>(self@.node(node).layout),
            !self@.is_live(node) ==> r == Err::<ComputedLayout, TreeError>(
                TreeError::NodeNotFound,
            ),
    {
        if self.contains(node) {
            Ok(self.slots[node.0].layout)
        } else {
            Err(TreeError::NodeNotFound)
        }
    }

    /// The parent of `node`; `None` for the root, for a detached node and
    /// for a stale handle.
    pub fn parent(&self, node: NodeId) -> (r: Option<NodeId>)
        ensures
            self@.is_live(node) ==> r == self@.node(node).parent,
            !self@.is_live(node) ==> r is None,
    {
        if self.contains(node) {
            self.slots[node.0].parent
        } else {
            None
        }
    }

    /// How many children `node` has; zero for a stale handle.
    pub fn child_count(&self, node: NodeId) -> (r: usize)
        ensures
            self@.is_live(node) ==> r == self@.node(node).children.len(),
            !self@.is_live(node) ==> r == 0,
    {
        if self.contains(node) {
            self.slots[node.0].children.len()
        } else {
            0
        }
    }

    /// The children of `node` in insertion order; empty for a leaf and for a
    /// stale handle.
    pub fn children(&self, node: NodeId) -> (r: Vec<NodeId>)
        ensures
            self@.is_live(node) ==> r@ == self@.node(node).children,
            !self@.is_live(node) ==> r@ == Seq::<NodeId>::empty(),
    {
        let mut out: Vec<NodeId> = Vec::new();
        if self.contains(node) {
            let kids = &self.slots[node.0].children;
            let mut i: usize = 0;
            while i < kids.len()
                invariant
                    i <= kids.len(),
                    out@ == kids@.take(i as int),
                decreases kids.len() - i,
            {
                out.push(kids[i]);
                i = i + 1;
                assert(out@ =~= kids@.take(i as int));
            }
            assert(kids@.take(kids.len() as int) =~= kids@);
        }
        out
    }

    /// Makes a live node with no parent and no children.
    pub fn create_leaf(&mut self, style: Style) -> (node: NodeId)
        requires
            old(self)@.wf(),
        ensures
            final(self)@.wf(),
            final(self)@ == old(self)@.with_leaf(style),
            node == NodeId(old(self)@.nodes.len() as usize),
    {
        let node = NodeId(self.slots.len());
        self.slots.push(
            Slot {
                live: true,
                parent: None,
                children: Vec::new(),
                style,
                layout: ComputedLayout::zero(),
            },
        );
        let ghost target = old(self)@.with_leaf(style);
        self.chains = Ghost(Seq::new(target.nodes.len(), |i: int| target.nodes[i].ancestors));
        proof {
            let count = self.slots.len();
            assert(self@.nodes =~= target.nodes);
            old(self)@.lemma_with_leaf_wf(style);
        }
        node
    }

    /// Whether `node` is `ancestor` or lies below it.
    pub fn is_in_subtree(&self, node: NodeId, ancestor: NodeId) -> (r: bool)
        requires
            self@.wf(),
        ensures
            r == self@.in_subtree(node, ancestor),
    {
        if !self.contains(node) {
            return false;
        }
        let ghost chain = self@.node(node).ancestors;
        let mut cur = node;
        let ghost mut j: int = chain.len() as int;
        proof {
            assert(self@.node_ok(node.0 as int));
        }
        loop
            invariant
                self@.wf(),
                chain == self@.node(node).ancestors,
                self@.is_live(node),
                1 <= j <= chain.len(),
                cur == chain[j - 1],
                forall|k: int| j <= k < chain.len() ==> chain[k] != ancestor,
            decreases j,
        {
            proof {
                assert(self@.node_ok(node.0 as int));
                assert(self@.is_live(chain[j - 1]));
                assert(self@.node(chain[j - 1]).ancestors == chain.take(j));
                assert(self@.node_ok(cur.0 as int));
            }
            if cur.0 == ancestor.0 {
                return true;
            }
            match self.slots[cur.0].parent {
                None => {
                    return false;
                },
                Some(p) => {
                    proof {
                        assert(chain.take(j)[j - 2] == chain[j - 2]);
                        j = j - 1;
                    }
                    cur = p;
                },
            }
        }
    }

    /// Appends the detached node `child` to the children of `parent`.
    ///
    /// A stale handle gives `NodeNotFound`. The root, a node that already
    /// has a parent, and a node that has `parent` below it (or is `parent`)
    /// cannot become a child: `InvalidMutation`. On an error the tree is as
    /// it was.
    pub fn add_child(&mut self, parent: NodeId, child: NodeId) -> (r: Result<(), TreeError>)
        requires
            old(self)@.wf(),
        ensures
            final(self)@.wf(),
            r == old(self)@.add_child_outcome(parent, child),
            r is Ok ==> final(self)@ == old(self)@.attach(parent, child),
            r is Err ==> final(self)@ == old(self)@,
    {
        if !self.contains(parent) || !self.contains(child) {
            return Err(TreeError::NodeNotFound);
        }
        if child.0 == self.root.0 || self.slots[child.0].parent.is_some() {
            return Err(TreeError::InvalidMutation);
        }
        if self.is_in_subtree(parent, child) {
            return Err(TreeError::InvalidMutation);
        }
        let ghost target = old(self)@.attach(parent, child);
        self.slots[child.0].parent = Some(parent);
        self.slots[parent.0].children.push(child);
        self.chains = Ghost(Seq::new(target.nodes.len(), |i: int| target.nodes[i].ancestors));
        proof {
            assert(old(self)@.node_ok(child.0 as int));
            assert(self@.nodes =~= target.nodes);
            old(self)@.lemma_attach_wf(parent, child);
        }
        Ok(())
    }

    /// Removes `node` and everything below it.
    ///
    /// A stale handle gives `NodeNotFound`, the root `InvalidMutation`; on
    /// an error the tree is as it was.
    pub fn remove(&mut self, node: NodeId) -> (r: Result<(), TreeError>)
        requires
            old(self)@.wf(),
        ensures
            final(self)@.wf(),
            r == old(self)@.remove_outcome(node),
            r is Ok ==> final(self)@ == old(self)@.without_subtree(node),
            r is Err ==> final(self)@ == old(self)@,
    {
        if !self.contains(node) {
            return Err(TreeError::NodeNotFound);
        }
        if node.0 == self.root.0 {
            return Err(TreeError::InvalidMutation);
        }
        let ghost before = self@;
        let ghost slots0 = self.slots@;
        let ghost target = before.without_subtree(node);
        let count = self.slots.len();
        let mut doomed: Vec<bool> = Vec::new();
        let mut i: usize = 0;
        while i < count
            invariant
                self@ == before,
                before.wf(),
                count == before.nodes.len(),
                i <= count,
                doomed@.len() == i,
                forall|j: int|
                    0 <= j < i ==> doomed@[j] == before.in_subtree(NodeId(j as usize), node),
            decreases count - i,
        {
            let d = self.is_in_subtree(NodeId(i), node);
            doomed.push(d);
            i = i + 1;
        }
        proof {
            assert(before.node_ok(node.0 as int));
        }
        let former_parent = self.slots[node.0].parent;
        match former_parent {
            Some(p) => {
                let ghost kids = before.node(p).children;
                proof {
                    before.lemma_chain_of_child(node);
                    assert(kids == slots0[p.0 as int].children@);
                }
                let kid_count = self.slots[p.0].children.len();
                let mut at: usize = 0;
                while at < kid_count && self.slots[p.0].children[at].0 != node.0
                    invariant
                        self.slots@ == slots0,
                        p.0 < slots0.len(),
                        kids == slots0[p.0 as int].children@,
                        kid_count == kids.len(),
                        at <= kid_count,
                        forall|k: int| 0 <= k < at ==> kids[k] != node,
                    decreases kid_count - at,
                {
                    at = at + 1;
                }
                proof {
                    kids.index_of_first_ensures(node);
                    let found = kids.index_of_first(node)->0;
                    assert(found >= at);
                    assert(found == at);
                    assert(kids.remove_value(node) == kids.remove(at as int));
                }
                self.slots[p.0].children.remove(at);
                assert(self.slots@[p.0 as int].children@ == kids.remove_value(node));
                assert(self.slots@[p.0 as int].live == slots0[p.0 as int].live);
                assert(self.slots@[p.0 as int].parent == slots0[p.0 as int].parent);
                assert(self.slots@[p.0 as int].style == slots0[p.0 as int].style);
                assert(self.slots@[p.0 as int].layout == slots0[p.0 as int].layout);
                assert(forall|j: int|
                    0 <= j < count && j != p.0 ==> self.slots@[j] == slots0[j]);
            },
            None => {},
        }
        let ghost detached = self.slots@;
        let mut i: usize = 0;
        while i < count
            invariant
                self.root == before.root,
                count == detached.len(),
                self.slots@.len() == count,
                doomed@.len() == count,
                i <= count,
                forall|j: int| i <= j < count ==> self.slots@[j] == detached[j],
                forall|j: int|
                    0 <= j < i && !doomed@[j] ==> (#[trigger] self.slots@[j]) == detached[j],
                forall|j: int|
                    0 <= j < i && doomed@[j] ==> {
                        &&& !(#[trigger] self.slots@[j]).live
                        &&& self.slots@[j].parent is None
                        &&& self.slots@[j].children@.len() == 0
                        &&& self.slots@[j].style == detached[j].style
                        &&& self.slots@[j].layout == detached[j].layout
                    },
            decreases count - i,
        {
            if doomed[i] {
                self.slots[i].live = false;
                self.slots[i].parent = None;
                self.slots[i].children = Vec::new();
            }
            i = i + 1;
        }
        self.chains = Ghost(Seq::new(target.nodes.len(), |i: int| target.nodes[i].ancestors));
        proof {
            assert forall|j: int| 0 <= j < count implies self@.nodes[j] == target.nodes[j] by {
                let s = self.slots@[j];
                let me = NodeId(j as usize);
                assert(doomed@[j] == before.in_subtree(me, node));
                assert(before.nodes[j].live == slots0[j].live);
                if doomed@[j] {
                    assert(s.children@ =~= Seq::<NodeId>::empty());
                    if former_parent == Some(me) {
                        before.lemma_chain_of_child(node);
                        let chain = before.node(me).ancestors;
                        let z = choose|z: int| 0 <= z < chain.len() && chain[z] == node;
                        assert(before.node(node).ancestors[z] == node);
                    }
                    assert(detached[j].style == slots0[j].style);
                    assert(detached[j].layout == slots0[j].layout);
                } else {
                    assert(s == detached[j]);
                    if former_parent == Some(me) {
                    } else {
                        assert(detached[j] == slots0[j]);
                    }
                }
            }
            assert(self@.nodes =~= target.nodes);
            assert(self@ == target);
            before.lemma_without_subtree_wf(node);
        }
        Ok(())
    }
}

} // verus!
