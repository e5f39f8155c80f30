//! The editing session: a tree, the node that is currently selected, and
//! the style that new nodes and reset nodes get.
//!
//! The selection always names a live node. It starts at the root, moves when
//! a click resolves to a node, and is repaired when the node it names goes
//! away with a removed subtree.

use vstd::prelude::*;
use crate::engine::{compute_layout, laid_out_by, EngineTree};
use crate::geometry::{ComputedLayout, Point};
use crate::hit::hit_test;
use crate::paint::{paint_tree, PaintOp};
use crate::model::TreeView;
use crate::tree::{LayoutTree, NodeId, TreeError};
use taffy::{AvailableSpace, Style};

verus! {

/// The model of a session.
pub struct EditorView {
    pub tree: TreeView,
    pub selection: NodeId,
    pub template: Style,
}

impl EditorView {
    /// The tree is well formed, every node in it can be reached from the
    /// root, and the selection names one of them.
    pub open spec fn wf(self) -> bool {
        &&& self.tree.wf()
        &&& self.tree.all_reachable()
        &&& self.tree.is_live(self.selection)
        &&& self.tree.reachable(self.selection)
    }

    /// The selection after the subtree of `removed` went away: unchanged if
    /// it was not in that subtree, else the former parent of `removed`, or
    /// the root where `removed` had no parent.
    pub open spec fn repaired_selection(self, removed: NodeId) -> NodeId {
        if self.tree.in_subtree(self.selection, removed) {
            match self.tree.node(removed).parent {
                Some(parent) => parent,
                None => self.tree.root,
            }
        } else {
            self.selection
        }
    }
}

impl TreeView {
    /// The six-node tree that a session starts with: a root with three
    /// children, the first of which has two children of its own. The root is
    /// slot 0, its children are slots 1, 4 and 5, and slots 2 and 3 are the
    /// children of slot 1.
    pub open spec fn default_tree(template: Style, column_style: Style, root_style: Style) -> TreeView {
        TreeView::single(root_style).with_leaf(column_style).attach(NodeId(0), NodeId(1)).with_leaf(
            template,
        ).attach(NodeId(1), NodeId(2)).with_leaf(template).attach(NodeId(1), NodeId(3)).with_leaf(
            template,
        ).attach(NodeId(0), NodeId(4)).with_leaf(template).attach(NodeId(0), NodeId(5))
    }

    /// Whether every node of the tree can be reached from the root: none is
    /// detached.
    pub open spec fn all_reachable(self) -> bool {
        forall|n: NodeId| #[trigger] self.is_live(n) ==> self.reachable(n)
    }

    /// In a tree that holds only its root, every node can be reached.
    pub proof fn lemma_single_all_reachable(root_style: Style)
        ensures
            TreeView::single(root_style).all_reachable(),
    {
        let t = TreeView::single(root_style);
        assert forall|n: NodeId| #[trigger] t.is_live(n) implies t.reachable(n) by {
            assert(n == NodeId(0));
            assert(t.node(n).ancestors[0] == t.root);
        }
    }

    /// A fresh leaf that is attached to a node of a tree without detached
    /// nodes leaves none detached.
    pub proof fn lemma_fresh_leaf_keeps_reachable(self, parent: NodeId, style: Style)
        requires
            self.wf(),
            self.all_reachable(),
            self.is_live(parent),
            self.nodes.len() < usize::MAX,
        ensures
            self.with_leaf(style).attach(parent, NodeId(self.nodes.len() as usize)).all_reachable(),
    {
        let fresh = NodeId(self.nodes.len() as usize);
        let grown = self.with_leaf(style);
        let t = grown.attach(parent, fresh);
        assert(self.reachable(parent));
        let base = self.node(parent).ancestors;
        let at = choose|at: int| 0 <= at < base.len() && base[at] == self.root;
        assert forall|n: NodeId| #[trigger] t.is_live(n) implies t.reachable(n) by {
            if n == fresh {
                assert(t.node(n).ancestors =~= base + seq![fresh]);
                assert(t.node(n).ancestors[at] == self.root);
            } else {
                assert(self.is_live(n));
                assert(self.reachable(n));
                assert(self.node_ok(n.0 as int));
                let chain = self.node(n).ancestors;
                assert(self.is_live(chain[0]));
                assert(t.node(n).ancestors == chain);
                let k = choose|k: int| 0 <= k < chain.len() && chain[k] == self.root;
                assert(t.node(n).ancestors[k] == t.root);
            }
        }
    }

    /// Removing a subtree from a tree without detached nodes leaves none
    /// detached.
    pub proof fn lemma_removal_keeps_reachable(self, removed: NodeId)
        requires
            self.wf(),
            self.all_reachable(),
            self.remove_outcome(removed) is Ok,
        ensures
            self.without_subtree(removed).all_reachable(),
    {
        let t = self.without_subtree(removed);
        assert forall|n: NodeId| #[trigger] t.is_live(n) implies t.reachable(n) by {
            assert(self.is_live(n));
            assert(self.reachable(n));
            let chain = self.node(n).ancestors;
            assert(t.node(n).ancestors == chain);
            let k = choose|k: int| 0 <= k < chain.len() && chain[k] == self.root;
            assert(t.node(n).ancestors[k] == t.root);
        }
    }

    /// A tree that differs from one without detached nodes in styles and
    /// layouts alone has none either.
    pub proof fn lemma_same_links_keep_reachable(self, other: TreeView)
        requires
            self.all_reachable(),
            other.root == self.root,
            other.nodes.len() == self.nodes.len(),
            forall|i: int|
                0 <= i < self.nodes.len() ==> (#[trigger] other.nodes[i]).live == self.nodes[i].live
                    && other.nodes[i].ancestors == self.nodes[i].ancestors,
        ensures
            other.all_reachable(),
            forall|n: NodeId| self.reachable(n) ==> #[trigger] other.reachable(n),
    {
        assert forall|n: NodeId| #[trigger] other.is_live(n) implies other.reachable(n) by {
            assert(other.nodes[n.0 as int].live == self.nodes[n.0 as int].live);
            assert(self.is_live(n));
            assert(self.reachable(n));
        }
        assert forall|n: NodeId| self.reachable(n) implies #[trigger] other.reachable(n) by {
            assert(other.nodes[n.0 as int].live == self.nodes[n.0 as int].live);
        }
    }

    /// A fresh leaf can always be attached to a live node.
    pub proof fn lemma_fresh_leaf_attaches(self, parent: NodeId, style: Style)
        requires
            self.wf(),
            self.is_live(parent),
            self.nodes.len() < usize::MAX,
        ensures
            self.with_leaf(style).wf(),
            self.with_leaf(style).add_child_outcome(parent, NodeId(self.nodes.len() as usize)) is Ok,
    {
        self.lemma_with_leaf_wf(style);
        let grown = self.with_leaf(style);
        let fresh = NodeId(self.nodes.len() as usize);
        let chain = grown.node(parent).ancestors;
        if chain.contains(fresh) {
            let k = choose|k: int| 0 <= k < chain.len() && chain[k] == fresh;
            assert(self.node_ok(parent.0 as int));
            assert(self.is_live(chain[k]));
        }
    }
}

/// A tree under inspection, with its selection.
pub struct TaffyEditor {
    tree: LayoutTree,
    current_value: NodeId,
    default_style: Style,
}

impl View for TaffyEditor {
    type V = EditorView;

    closed spec fn view(&self) -> EditorView {
        EditorView { tree: self.tree@, selection: self.current_value, template: self.default_style }
    }
}

impl TaffyEditor {
    /// A session on a tree that holds only its root, which is selected.
    pub fn new(root_style: Style, default_style: Style) -> (editor: TaffyEditor)
        ensures
            editor@.wf(),
            editor@.tree == TreeView::single(root_style),
            editor@.selection == NodeId(0),
            editor@.template == default_style,
    {
        let tree = LayoutTree::new(root_style);
        let current_value = tree.root();
        proof {
            TreeView::lemma_single_all_reachable(root_style);
        }
        TaffyEditor { tree, current_value, default_style }
    }

    /// A session on the tree that the inspector opens with: under the root
    /// one node with `column_style` that has two leaves, then two more
    /// leaves; every leaf has the default style. The root is selected.
    pub fn with_default_tree(default_style: Style, column_style: Style, root_style: Style) -> (editor:
        TaffyEditor)
        ensures
            editor@.wf(),
            editor@.tree == TreeView::default_tree(default_style, column_style, root_style),
            editor@.selection == NodeId(0),
            editor@.template == default_style,
    {
        let mut tree = LayoutTree::new(root_style);
        let root = tree.root();
        proof {
            TreeView::lemma_single_all_reachable(root_style);
            tree@.lemma_fresh_leaf_attaches(root, column_style);
            tree@.lemma_fresh_leaf_keeps_reachable(root, column_style);
        }
        let column = tree.create_leaf(column_style);
        let _ = tree.add_child(root, column);
        proof {
            tree@.lemma_fresh_leaf_attaches(column, default_style);
            tree@.lemma_fresh_leaf_keeps_reachable(column, default_style);
        }
        let first = tree.create_leaf(default_style.clone());
        let _ = tree.add_child(column, first);
        proof {
            tree@.lemma_fresh_leaf_attaches(column, default_style);
            tree@.lemma_fresh_leaf_keeps_reachable(column, default_style);
        }
        let second = tree.create_leaf(default_style.clone());
        let _ = tree.add_child(column, second);
        proof {
            tree@.lemma_fresh_leaf_attaches(root, default_style);
            tree@.lemma_fresh_leaf_keeps_reachable(root, default_style);
        }
        let third = tree.create_leaf(default_style.clone());
        let _ = tree.add_child(root, third);
        proof {
            tree@.lemma_fresh_leaf_attaches(root, default_style);
            tree@.lemma_fresh_leaf_keeps_reachable(root, default_style);
        }
        let fourth = tree.create_leaf(default_style.clone());
        let _ = tree.add_child(root, fourth);
        TaffyEditor { tree, current_value: root, default_style }
    }

    /// The tree.
    pub fn tree(&self) -> (r: &LayoutTree)
        ensures
            r@ == self@.tree,
    {
        &self.tree
    }

    /// The root of the tree.
    pub fn root(&self) -> (r: NodeId)
        ensures
            r == self@.tree.root,
    {
        self.tree.root()
    }

    /// The node that is selected.
    pub fn current(&self) -> (r: NodeId)
        ensures
            r == self@.selection,
    {
        self.current_value
    }

    /// The style that new and reset nodes get.
    pub fn default_style(&self) -> (r: &Style)
        ensures
            *r == self@.template,
    {
        &self.default_style
    }

    /// Selects `node`, if it is in the tree.
    pub fn select(&mut self, node: NodeId) -> (r: Result<(), TreeError>)
        requires
            old(self)@.wf(),
        ensures
            final(self)@.wf(),
            final(self)@.tree == old(self)@.tree,
            final(self)@.template == old(self)@.template,
            old(self)@.tree.is_live(node) ==> r is Ok && final(self)@.selection == node,
            !old(self)@.tree.is_live(node) ==> r == Err::<(), TreeError>(TreeError::NodeNotFound)
                && final(self)@.selection == old(self)@.selection,
    {
        if self.tree.contains(node) {
            self.current_value = node;
            Ok(())
        } else {
            Err(TreeError::NodeNotFound)
        }
    }

    /// The node under `pointer`, with its layout, where the drawing region
    /// starts at `origin`; the selection stays.
    pub fn hover(&self, origin: Point, pointer: Point) -> (r: Option<(NodeId, ComputedLayout)>)
        requires
            self@.wf(),
        ensures
            match self@.tree.hit_from(self@.tree.root, origin, pointer) {
                Some(node) => r == Some((node, self@.tree.node(node).layout)),
                None => r is None,
            },
    {
        let root = self.tree.root();
        match hit_test(&self.tree, root, origin, pointer) {
            Some(node) => {
                proof {
                    self@.tree.lemma_hit_in_subtree(
                        root,
                        origin.x as int,
                        origin.y as int,
                        pointer.x as int,
                        pointer.y as int,
                    );
                }
                match self.tree.layout(node) {
                    Ok(layout) => Some((node, layout)),
                    Err(_) => None,
                }
            },
            None => None,
        }
    }

    /// Selects the node under `pointer`, where the drawing region starts at
    /// `origin`. A click that resolves to no node leaves the selection.
    pub fn click(&mut self, origin: Point, pointer: Point) -> (r: Option<NodeId>)
        requires
            old(self)@.wf(),
        ensures
            final(self)@.wf(),
            final(self)@.tree == old(self)@.tree,
            final(self)@.template == old(self)@.template,
            r == old(self)@.tree.hit_from(old(self)@.tree.root, origin, pointer),
            final(self)@.selection == (match r {
                Some(node) => node,
                None => old(self)@.selection,
            }),
    {
        let root = self.tree.root();
        let found = hit_test(&self.tree, root, origin, pointer);
        match found {
            Some(node) => {
                proof {
                    self@.tree.lemma_hit_in_subtree(
                        root,
                        origin.x as int,
                        origin.y as int,
                        pointer.x as int,
                        pointer.y as int,
                    );
                }
                self.current_value = node;
            },
            None => {},
        }
        found
    }

    /// Makes a leaf with the default style and appends it to the children of
    /// `node`. The selection stays. A stale `node` gives `NodeNotFound` and
    /// changes nothing.
    pub fn add_child_to(&mut self, node: NodeId) -> (r: Result<NodeId, TreeError>)
        requires
            old(self)@.wf(),
        ensures
            final(self)@.wf(),
            final(self)@.selection == old(self)@.selection,
            final(self)@.template == old(self)@.template,
            old(self)@.tree.is_live(node) ==> r == Ok::<NodeId, TreeError>(
                NodeId(old(self)@.tree.nodes.len() as usize),
            ) && final(self)@.tree == old(self)@.tree.with_leaf(old(self)@.template).attach(
                node,
                NodeId(old(self)@.tree.nodes.len() as usize),
            ),
            !old(self)@.tree.is_live(node) ==> r == Err::<NodeId, TreeError>(
                TreeError::NodeNotFound,
            ) && final(self)@.tree == old(self)@.tree,
    {
        if !self.tree.contains(node) {
            return Err(TreeError::NodeNotFound);
        }
        let style = self.default_style.clone();
        let ghost before = self@.tree;
        let child = self.tree.create_leaf(style);
        proof {
            before.lemma_fresh_leaf_attaches(node, style);
            before.lemma_fresh_leaf_keeps_reachable(node, style);
        }
        let _ = self.tree.add_child(node, child);
        proof {
            assert(before.node_ok(self.current_value.0 as int));
            assert(self@.tree.is_live(self.current_value));
        }
        Ok(child)
    }

    /// Removes `node` and everything below it. If the selection was in that
    /// subtree, the former parent of `node` is selected instead. The root
    /// cannot be removed: `InvalidMutation`; a stale handle gives
    /// `NodeNotFound`; either way nothing changes.
    pub fn remove(&mut self, node: NodeId) -> (r: Result<(), TreeError>)
        requires
            old(self)@.wf(),
        ensures
            final(self)@.wf(),
            final(self)@.template == old(self)@.template,
            r == old(self)@.tree.remove_outcome(node),
            r is Ok ==> final(self)@.tree == old(self)@.tree.without_subtree(node),
            r is Ok ==> final(self)@.selection == old(self)@.repaired_selection(node),
            r is Ok ==> old(self)@.tree.node(node).parent is Some,
            r is Ok && old(self)@.tree.in_subtree(old(self)@.selection, node)
                ==> final(self)@.selection == old(self)@.tree.node(node).parent->0,
            r is Err ==> final(self)@ == old(self)@,
    {
        let fallback = match self.tree.parent(node) {
            Some(parent) => parent,
            None => self.tree.root(),
        };
        let selection_goes = self.tree.is_in_subtree(self.current_value, node);
        let ghost before = self@;
        match self.tree.remove(node) {
            Ok(()) => {
                if selection_goes {
                    self.current_value = fallback;
                }
                proof {
                    before.lemma_repaired_selection_is_live(node);
                    before.tree.lemma_removal_keeps_reachable(node);
                }
                Ok(())
            },
            Err(e) => Err(e),
        }
    }

    /// Gives `node` the default style again; its place in the tree and its
    /// children stay.
    pub fn reset_style(&mut self, node: NodeId) -> (r: Result<(), TreeError>)
        requires
            old(self)@.wf(),
        ensures
            final(self)@.wf(),
            final(self)@.selection == old(self)@.selection,
            final(self)@.template == old(self)@.template,
            old(self)@.tree.is_live(node) ==> r is Ok && final(self)@.tree == old(self)@.tree.with_style(node, old(self)@.template),
            !old(self)@.tree.is_live(node) ==> r == Err::<(), TreeError>(TreeError::NodeNotFound)
                && final(self)@.tree == old(self)@.tree,
    {
        let style = self.default_style.clone();
        let ghost before = self@;
        let r = self.tree.set_style(node, style);
        proof {
            before.tree.lemma_same_links_keep_reachable(self@.tree);
        }
        r
    }

    /// Replaces the style of `node`.
    pub fn set_style(&mut self, node: NodeId, style: Style) -> (r: Result<(), TreeError>)
        requires
            old(self)@.wf(),
        ensures
            final(self)@.wf(),
            final(self)@.selection == old(self)@.selection,
            final(self)@.template == old(self)@.template,
            old(self)@.tree.is_live(node) ==> r is Ok && final(self)@.tree == old(self)@.tree.with_style(node, style),
            !old(self)@.tree.is_live(node) ==> r == Err::<(), TreeError>(TreeError::NodeNotFound)
                && final(self)@.tree == old(self)@.tree,
    {
        let ghost before = self@;
        let r = self.tree.set_style(node, style);
        proof {
            before.tree.lemma_same_links_keep_reachable(self@.tree);
        }
        r
    }

    /// Runs the layout engine on the tree and gives every node the layout
    /// that the engine computed for it. A tree that the engine does not take
    /// (see `TreeView::engine_accepts`) is answered with
    /// `LayoutEngineFailure` and keeps its layouts. The selection and the
    /// default style stay either way.
    pub fn compute_layout(&mut self, width: AvailableSpace, height: AvailableSpace) -> (r: Result<
        (),
        TreeError,
    >)
        requires
            old(self)@.wf(),
        ensures
            final(self)@.wf(),
            final(self)@.selection == old(self)@.selection,
            final(self)@.template == old(self)@.template,
            final(self)@.tree.same_but_layouts(old(self)@.tree),
            forall|i: int|
                0 <= i < old(self)@.tree.nodes.len() && !old(self)@.tree.reachable(
                    NodeId(i as usize),
                ) ==> (#[trigger] final(self)@.tree.nodes[i]) == old(self)@.tree.nodes[i],
            r is Ok <==> old(self)@.tree.engine_accepts(),
            r is Ok ==> exists|engine: EngineTree, ids: Map<NodeId, u64>|
                laid_out_by(old(self)@.tree, final(self)@.tree, engine, ids, width, height),
            r is Err ==> r == Err::<(), TreeError>(TreeError::LayoutEngineFailure) && final(self)@
                == old(self)@,
    {
        let ghost before = self@;
        let r = compute_layout(&mut self.tree, width, height);
        proof {
            before.tree.lemma_same_links_keep_reachable(self@.tree);
            assert(self@.tree.nodes[self.current_value.0 as int].live
                == before.tree.nodes[self.current_value.0 as int].live);
        }
        r
    }

    /// Lists what to paint for the whole tree, where the drawing region
    /// starts at `origin`; the selected node gets the outline.
    pub fn paint(&self, origin: Point) -> (r: Vec<PaintOp>)
        requires
            self@.wf(),
        ensures
            r@ == self@.tree.paint_from(self@.tree.root, origin, self@.selection),
    {
        paint_tree(&self.tree, self.tree.root(), origin, self.current_value)
    }
}

impl EditorView {
    /// The selection is repaired on removal. The node that is removed has a
    /// parent. When the selection is that node, the former parent is
    /// selected; when the selection lies further down in the subtree, the
    /// former parent is selected too, and it is one of the selection's
    /// ancestors; otherwise the selection stays. Whichever node is selected
    /// afterwards is in the tree and can be reached from the root.
    pub proof fn lemma_repaired_selection_is_live(self, removed: NodeId)
        requires
            self.wf(),
            self.tree.remove_outcome(removed) is Ok,
        ensures
            self.tree.without_subtree(removed).is_live(self.repaired_selection(removed)),
            self.tree.in_subtree(self.selection, self.repaired_selection(removed))
                || self.repaired_selection(removed) == self.tree.root,
            self.tree.node(removed).parent is Some,
            self.tree.in_subtree(self.selection, removed) ==> self.repaired_selection(removed)
                == self.tree.node(removed).parent->0,
            !self.tree.in_subtree(self.selection, removed) ==> self.repaired_selection(removed)
                == self.selection,
            !self.tree.in_subtree(self.repaired_selection(removed), removed),
            self.tree.without_subtree(removed).reachable(self.repaired_selection(removed)),
    {
        let t = self.tree;
        t.lemma_without_subtree_wf(removed);
        t.lemma_removal_keeps_reachable(removed);
        assert(t.node_ok(removed.0 as int));
        assert(t.node_ok(t.root.0 as int));
        assert(t.node(t.root).ancestors =~= seq![t.root]);
        assert(t.node(removed).parent is Some) by {
            assert(t.reachable(removed));
            let chain = t.node(removed).ancestors;
            let at = choose|at: int| 0 <= at < chain.len() && chain[at] == t.root;
            assert(chain[chain.len() - 1] == removed);
        }
        if t.in_subtree(self.selection, removed) {
            match t.node(removed).parent {
                Some(parent) => {
                    t.lemma_chain_of_child(removed);
                    let upper = t.node(parent).ancestors;
                    if upper.contains(removed) {
                        let k = choose|k: int| 0 <= k < upper.len() && upper[k] == removed;
                        assert(t.node(removed).ancestors[k] == removed);
                    }
                    t.lemma_subtree_reflexive(parent);
                    let z = choose|z: int| 0 <= z < upper.len() && upper[z] == parent;
                    assert(t.node(removed).ancestors[z] == parent);
                    assert(t.in_subtree(removed, parent));
                    t.lemma_subtree_transitive(self.selection, removed, parent);
                },
                None => {},
            }
        } else {
            t.lemma_subtree_reflexive(self.selection);
        }
    }
}

} // verus!
