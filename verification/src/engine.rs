//! The layout engine. The tree is handed to `taffy` node by node, children
//! before their parent; the engine lays it out; and the geometry it reports
//! is stored back, node by node. The arena itself stays the library's own:
//! the engine's tree is built afresh for each run and dropped after it.
//!
//! A node that has children and the display mode grid is never handed to the
//! engine: its grid algorithm stops the program on some placements, and a
//! style is carried here without a look at its placements. Such a tree is
//! refused with `LayoutEngineFailure`; a grid node without children is laid
//! out like any leaf.
//!
//! The engine's functions are believed, not proved. What is believed of each
//! is written on the item that calls it.

use vstd::prelude::*;
use crate::choices::DisplayMode;
use crate::geometry::{ComputedLayout, Insets};
use crate::model::TreeView;
use crate::style::{read_display, style_display};
use crate::tree::{LayoutTree, NodeId, TreeError};
use taffy::{AvailableSpace, Style, TaffyError, TaffyTree};

verus! {

/// `taffy::TaffyTree`, the engine's own tree of nodes.
#[verifier::external_type_specification]
#[verifier::external_body]
#[verifier::reject_recursive_types(NodeContext)]
pub struct ExTaffyTree<NodeContext>(TaffyTree<NodeContext>);

/// `taffy::TaffyError`, carried as an opaque value.
#[verifier::external_type_specification]
#[verifier::external_body]
pub struct ExTaffyError(TaffyError);

/// `taffy::AvailableSpace`: how much room the engine may use on one axis.
#[verifier::external_type_specification]
#[verifier::external_body]
pub struct ExAvailableSpace(AvailableSpace);

/// The engine's tree as this library uses it: nodes without a context.
pub type EngineTree = TaffyTree<()>;

/// What an engine tree holds: the identifier of each of its nodes, with the
/// identifiers of that node's children in order.
pub uninterp spec fn engine_children(engine: EngineTree) -> Map<u64, Seq<u64>>;

/// What an engine tree holds besides the links: the style of each of its
/// nodes.
pub uninterp spec fn engine_styles(engine: EngineTree) -> Map<u64, Style>;

/// The layout that an engine tree holds for each of its nodes: the stacking
/// order as it is, and the location, the size and the resolved insets with
/// each length cut to a whole number.
pub uninterp spec fn engine_layouts(engine: EngineTree) -> Map<u64, ComputedLayout>;

/// The layouts that `TaffyTree::compute_layout` leaves in an engine tree
/// when it is run on that tree from the node `root` in the space given for
/// each axis.
pub uninterp spec fn engine_solution(
    engine: EngineTree,
    root: u64,
    width: AvailableSpace,
    height: AvailableSpace,
) -> Map<u64, ComputedLayout>;

/// The part of a layout that says where the node is and how it is stacked.
pub open spec fn frame_of(layout: ComputedLayout) -> (u32, i32, i32, i32, i32) {
    (layout.order, layout.x, layout.y, layout.width, layout.height)
}

/// The margin, the border and the padding of a layout.
pub open spec fn insets_of(layout: ComputedLayout) -> (Insets, Insets, Insets) {
    (layout.margin, layout.border, layout.padding)
}

/// The most nodes that are ever put into one engine tree. The engine's slot
/// map cannot hold more than a 32-bit count of nodes.
pub const ENGINE_CAPACITY: usize = 0x7fff_ffff;

/// Whether `rank` falls along every parent-child link of `links`, and every
/// child is itself a node of `links`.
pub open spec fn links_ranked(links: Map<u64, Seq<u64>>, rank: Map<u64, nat>) -> bool {
    &&& forall|id: u64| links.dom().contains(id) ==> rank.dom().contains(id)
    &&& forall|id: u64, k: int|
        links.dom().contains(id) && 0 <= k < links[id].len() ==> {
            &&& links.dom().contains(#[trigger] links[id][k])
            &&& rank[links[id][k]] < rank[id]
        }
}

/// Whether `links` describes finitely many nodes with no node below itself.
pub open spec fn links_well_founded(links: Map<u64, Seq<u64>>) -> bool {
    links.dom().finite() && exists|rank: Map<u64, nat>| links_ranked(links, rank)
}

/// Whether no node that has children lays them out as a grid. The engine's
/// grid algorithm counts lines in 16 bits and stops the program on
/// placements that do not fit; no tree is handed to the engine that would
/// enter it.
pub open spec fn no_grid_container(links: Map<u64, Seq<u64>>, styles: Map<u64, Style>) -> bool {
    forall|id: u64|
        links.dom().contains(id) && (#[trigger] links[id]).len() > 0 ==> style_display(styles[id])
            != DisplayMode::Grid
}

/// Calls `TaffyTree::new`. Believed: the new tree has no nodes.
#[verifier::external_body]
fn engine_new() -> (r: EngineTree)
    ensures
        engine_children(r).dom() == Set::<u64>::empty(),
{
    TaffyTree::new()
}

/// Calls `TaffyTree::new_with_children` with a copy of `style`. Believed:
/// given children that are nodes of the tree, and room for one more node,
/// the call succeeds and adds one node under an identifier that was not in
/// use, with the given style and the given children in the given order, and
/// changes no other node's style or children.
#[verifier::external_body]
fn engine_add_node(engine: &mut EngineTree, style: &Style, children: &Vec<u64>) -> (r: Result<
    u64,
    TaffyError,
>)
    requires
        engine_children(*old(engine)).dom().finite(),
        engine_children(*old(engine)).dom().len() < ENGINE_CAPACITY,
        forall|k: int|
            0 <= k < children@.len() ==> engine_children(*old(engine)).dom().contains(
                #[trigger] children@[k],
            ),
    ensures
        r is Ok,
        !engine_children(*old(engine)).dom().contains(r->Ok_0),
        engine_children(*final(engine)) == engine_children(*old(engine)).insert(
            r->Ok_0,
            children@,
        ),
        engine_styles(*final(engine)) == engine_styles(*old(engine)).insert(r->Ok_0, *style),
{
    let kids: Vec<taffy::NodeId> = children.iter().map(|c| taffy::NodeId::from(*c)).collect();
    let id = engine.new_with_children(style.clone(), &kids)?;
    Ok(u64::from(id))
}

/// Calls `TaffyTree::compute_layout` on the node `root`. Believed: on a
/// tree with no node below itself, in which no node with children has the
/// display mode grid, the call returns and succeeds; it changes no node's
/// children; and the layouts that the tree holds afterwards depend on
/// nothing but the tree as it was and the three arguments, which is all that
/// the name `engine_solution` says.
#[verifier::external_body]
fn engine_compute(
    engine: &mut EngineTree,
    root: u64,
    width: AvailableSpace,
    height: AvailableSpace,
) -> (r: Result<(), TaffyError>)
    requires
        links_well_founded(engine_children(*old(engine))),
        no_grid_container(engine_children(*old(engine)), engine_styles(*old(engine))),
        engine_children(*old(engine)).dom().contains(root),
    ensures
        r is Ok,
        engine_children(*final(engine)) == engine_children(*old(engine)),
        engine_layouts(*final(engine)) == engine_solution(*old(engine), root, width, height),
{
    engine.compute_layout(taffy::NodeId::from(root), taffy::Size { width, height })
}

/// Calls `TaffyTree::layout` for the node `id` and hands out its stacking
/// order, location and size, each length cut to a whole number. Believed:
/// the call succeeds for a node of the tree, and these are the values that
/// the tree holds for the node, which is all that the name `engine_layouts`
/// says.
#[verifier::external_body]
fn engine_frame(engine: &EngineTree, id: u64) -> (r: Result<(u32, i32, i32, i32, i32), TaffyError>)
    requires
        engine_children(*engine).dom().contains(id),
    ensures
        r is Ok,
        r->Ok_0 == frame_of(engine_layouts(*engine)[id]),
{
    let l = engine.layout(taffy::NodeId::from(id))?;
    Ok((l.order, l.location.x as i32, l.location.y as i32, l.size.width as i32, l.size.height as i32))
}

/// Calls `TaffyTree::layout` for the node `id` and hands out its resolved
/// margin, border and padding, each length cut to a whole number. Believed:
/// the call succeeds for a node of the tree, and these are the values that
/// the tree holds for the node, which is all that the name `engine_layouts`
/// says.
#[verifier::external_body]
fn engine_insets(engine: &EngineTree, id: u64) -> (r: Result<(Insets, Insets, Insets), TaffyError>)
    requires
        engine_children(*engine).dom().contains(id),
    ensures
        r is Ok,
        r->Ok_0 == insets_of(engine_layouts(*engine)[id]),
{
    let l = engine.layout(taffy::NodeId::from(id))?;
    let (m, b, p) = (l.margin, l.border, l.padding);
    Ok((
        Insets { left: m.left as i32, right: m.right as i32, top: m.top as i32, bottom: m.bottom as i32 },
        Insets { left: b.left as i32, right: b.right as i32, top: b.top as i32, bottom: b.bottom as i32 },
        Insets { left: p.left as i32, right: p.right as i32, top: p.top as i32, bottom: p.bottom as i32 },
    ))
}

impl TreeView {
    /// Whether the engine takes the tree: no more nodes can be reached from
    /// the root than the engine holds, and none of them that has children
    /// lays them out as a grid.
    pub open spec fn engine_accepts(self) -> bool {
        &&& self.reachable_nodes().len() <= ENGINE_CAPACITY
        &&& forall|n: NodeId| #[trigger]
            self.reachable(n) ==> (self.node(n).children.len() > 0 ==> style_display(
                self.node(n).style,
            ) != DisplayMode::Grid)
    }

    /// A tree with no more slots than the engine holds, in which no node
    /// that has children lays them out as a grid, is one that the engine
    /// takes.
    pub proof fn lemma_engine_accepts(self)
        requires
            self.wf(),
            self.nodes.len() <= ENGINE_CAPACITY,
            forall|n: NodeId| #[trigger]
                self.is_live(n) ==> (self.node(n).children.len() > 0 ==> style_display(
                    self.node(n).style,
                ) != DisplayMode::Grid),
        ensures
            self.engine_accepts(),
    {
        self.lemma_reachable_nodes_bound();
        assert forall|n: NodeId| #[trigger] self.reachable(n) implies (self.node(n).children.len()
            > 0 ==> style_display(self.node(n).style) != DisplayMode::Grid) by {
            assert(self.is_live(n));
        }
    }

    /// Whether `other` is this tree with, at most, other computed layouts.
    pub open spec fn same_but_layouts(self, other: TreeView) -> bool {
        &&& self.root == other.root
        &&& self.nodes.len() == other.nodes.len()
        &&& forall|i: int|
            0 <= i < self.nodes.len() ==> {
                &&& (#[trigger] self.nodes[i]).live == other.nodes[i].live
                &&& self.nodes[i].parent == other.nodes[i].parent
                &&& self.nodes[i].children == other.nodes[i].children
                &&& self.nodes[i].ancestors == other.nodes[i].ancestors
                &&& self.nodes[i].style == other.nodes[i].style
            }
    }

    /// The tree after each layout of `entries` was stored for its node, in
    /// order; an entry for a stale handle changes nothing.
    pub open spec fn with_layouts(self, entries: Seq<(NodeId, ComputedLayout)>) -> TreeView
        decreases entries.len(),
    {
        if entries.len() == 0 {
            self
        } else {
            let before = self.with_layouts(entries.drop_last());
            let (node, layout) = entries.last();
            if before.is_live(node) {
                before.with_layout(node, layout)
            } else {
                before
            }
        }
    }

    /// Storing layouts keeps the tree well formed and changes nothing but
    /// the layouts of the nodes that are named.
    pub proof fn lemma_with_layouts(self, entries: Seq<(NodeId, ComputedLayout)>)
        requires
            self.wf(),
        ensures
            self.with_layouts(entries).wf(),
            self.with_layouts(entries).same_but_layouts(self),
            forall|i: int|
                0 <= i < self.nodes.len() && (forall|k: int|
                    0 <= k < entries.len() ==> (#[trigger] entries[k]).0 != NodeId(i as usize))
                    ==> (#[trigger] self.with_layouts(entries).nodes[i]) == self.nodes[i],
        decreases entries.len(),
    {
        if entries.len() > 0 {
            let front = entries.drop_last();
            self.lemma_with_layouts(front);
            let before = self.with_layouts(front);
            let (node, layout) = entries.last();
            if before.is_live(node) {
                before.lemma_with_layout_wf(node, layout);
            }
            let after = self.with_layouts(entries);
            assert forall|i: int|
                0 <= i < self.nodes.len() && (forall|k: int|
                    0 <= k < entries.len() ==> (#[trigger] entries[k]).0 != NodeId(
                        i as usize,
                    )) implies (#[trigger] after.nodes[i]) == self.nodes[i] by {
                assert forall|k: int| 0 <= k < front.len() implies (#[trigger] front[k]).0 != NodeId(
                    i as usize,
                ) by {
                    assert(front[k] == entries[k]);
                }
                assert(entries[entries.len() - 1].0 != NodeId(i as usize));
            }
        }
    }
}

/// Stores each layout of `entries` for its node, in order. An entry whose
/// handle is stale is skipped.
pub fn store_layouts(tree: &mut LayoutTree, entries: &Vec<(NodeId, ComputedLayout)>)
    requires
        old(tree)@.wf(),
    ensures
        final(tree)@.wf(),
        final(tree)@ == old(tree)@.with_layouts(entries@),
{
    let mut i: usize = 0;
    while i < entries.len()
        invariant
            i <= entries.len(),
            tree@.wf(),
            tree@ == old(tree)@.with_layouts(entries@.take(i as int)),
        decreases entries.len() - i,
    {
        let (node, layout) = entries[i];
        let _ = tree.set_layout(node, layout);
        proof {
            assert(entries@.take(i + 1).drop_last() =~= entries@.take(i as int));
        }
        i = i + 1;
    }
    assert(entries@.take(entries@.len() as int) =~= entries@);
}

/// Whether `engine` holds the part of `tree` that can be reached from the
/// root, node for node: `ids` names the engine node that stands for each
/// such node, no engine node stands for two of them, and each engine node
/// has the style of its node and, in order, the engine nodes of its node's
/// children.
pub open spec fn engine_holds(engine: EngineTree, tree: TreeView, ids: Map<NodeId, u64>) -> bool {
    &&& forall|n: NodeId| #[trigger]
        tree.reachable(n) ==> {
            &&& ids.dom().contains(n)
            &&& engine_children(engine).dom().contains(ids[n])
            &&& engine_styles(engine)[ids[n]] == tree.node(n).style
            &&& engine_children(engine)[ids[n]] == Seq::new(
                tree.node(n).children.len(),
                |j: int| ids[tree.node(n).children[j]],
            )
        }
    &&& forall|a: NodeId, b: NodeId|
        #![trigger tree.reachable(a), tree.reachable(b)]
        tree.reachable(a) && tree.reachable(b) && a != b ==> ids[a] != ids[b]
}

/// Whether `after` is `before` laid out by the engine: `engine` holds the
/// reachable part of `before`, and every node of that part has in `after`
/// the layout that is the engine's solution for its engine node, when the
/// engine runs from the root's engine node in the space given.
pub open spec fn laid_out_by(
    before: TreeView,
    after: TreeView,
    engine: EngineTree,
    ids: Map<NodeId, u64>,
    width: AvailableSpace,
    height: AvailableSpace,
) -> bool {
    &&& engine_holds(engine, before, ids)
    &&& forall|n: NodeId| #[trigger]
        before.reachable(n) ==> after.node(n).layout == engine_solution(
            engine,
            ids[before.root],
            width,
            height,
        )[ids[n]]
}

impl TreeView {
    /// The last layout stored for a node is the one it has.
    pub proof fn lemma_last_entry_wins(self, entries: Seq<(NodeId, ComputedLayout)>, k: int)
        requires
            self.wf(),
            0 <= k < entries.len(),
            self.is_live(entries[k].0),
            forall|j: int| k < j < entries.len() ==> (#[trigger] entries[j]).0 != entries[k].0,
        ensures
            self.with_layouts(entries).node(entries[k].0).layout == entries[k].1,
        decreases entries.len(),
    {
        let front = entries.drop_last();
        let before = self.with_layouts(front);
        self.lemma_with_layouts(front);
        let (node, layout) = entries.last();
        if k == entries.len() - 1 {
            assert(before.nodes[node.0 as int].live == self.nodes[node.0 as int].live);
        } else {
            assert(front[k] == entries[k]);
            assert forall|j: int| k < j < front.len() implies (#[trigger] front[j]).0 != front[k].0 by {
                assert(front[j] == entries[j]);
            }
            self.lemma_last_entry_wins(front, k);
            assert(entries[entries.len() - 1].0 != entries[k].0);
        }
    }
}

/// Whether `n` is one of the nodes that `made` pairs with an engine node.
spec fn listed(made: Seq<(NodeId, u64)>, n: NodeId) -> bool {
    exists|k: int| 0 <= k < made.len() && (#[trigger] made[k]).0 == n
}

/// An engine tree under construction: the engine's nodes made so far, each
/// with the node of the arena that it stands for.
struct Build {
    engine: EngineTree,
    made: Vec<(NodeId, u64)>,
    ids: Ghost<Map<NodeId, u64>>,
    rank: Ghost<Map<u64, nat>>,
}

impl Build {
    spec fn links(&self) -> Map<u64, Seq<u64>> {
        engine_children(self.engine)
    }

    /// Whether the engine node of `n` stands for `n` as `engine_holds` asks.
    spec fn holds(&self, tree: TreeView, n: NodeId) -> bool {
        &&& tree.reachable(n)
        &&& listed(self.made@, n)
        &&& forall|j: int|
            0 <= j < tree.node(n).children.len() ==> self.ids@.dom().contains(
                #[trigger] tree.node(n).children[j],
            )
        &&& tree.node(n).children.len() > 0 ==> style_display(tree.node(n).style)
            != DisplayMode::Grid
        &&& self.links().dom().contains(self.ids@[n])
        &&& engine_styles(self.engine)[self.ids@[n]] == tree.node(n).style
        &&& self.links()[self.ids@[n]] == Seq::new(
            tree.node(n).children.len(),
            |j: int| self.ids@[tree.node(n).children[j]],
        )
    }

    spec fn inv(&self, tree: TreeView) -> bool {
        &&& self.links().dom().finite()
        &&& self.links().dom().len() == self.made@.len()
        &&& self.made@.len() <= ENGINE_CAPACITY
        &&& self.ids@.dom().finite()
        &&& self.ids@.dom().len() == self.made@.len()
        &&& links_ranked(self.links(), self.rank@)
        &&& no_grid_container(self.links(), engine_styles(self.engine))
        &&& forall|id: u64| self.links().dom().contains(id) ==> self.rank@[id] < self.made@.len()
        &&& forall|k: int|
            0 <= k < self.made@.len() ==> {
                &&& self.ids@.dom().contains((#[trigger] self.made@[k]).0)
                &&& self.ids@[self.made@[k].0] == self.made@[k].1
            }
        &&& forall|a: int, b: int|
            0 <= a < b < self.made@.len() ==> (#[trigger] self.made@[a]).0 != (
            #[trigger] self.made@[b]).0
        &&& forall|n: NodeId| self.ids@.dom().contains(n) ==> #[trigger] self.holds(tree, n)
        &&& forall|a: NodeId, b: NodeId|
            #![trigger self.ids@[a], self.ids@[b]]
            self.ids@.dom().contains(a) && self.ids@.dom().contains(b) && a != b ==> self.ids@[a]
                != self.ids@[b]
    }

    /// Whether `self` came from `earlier` by making more nodes.
    spec fn extends(&self, earlier: Build) -> bool {
        &&& earlier.made@.len() <= self.made@.len()
        &&& forall|id: u64| earlier.links().dom().contains(id) ==> self.links().dom().contains(id)
        &&& forall|n: NodeId|
            earlier.ids@.dom().contains(n) ==> self.ids@.dom().contains(n) && #[trigger] self.ids@[n]
                == earlier.ids@[n]
    }
}

/// Makes an engine node for `node` after making one for each node below it.
fn build_subtree(tree: &LayoutTree, node: NodeId, build: &mut Build) -> (r: Result<u64, TreeError>)
    requires
        tree@.wf(),
        tree@.reachable(node),
        old(build).inv(tree@),
        forall|d: NodeId| #[trigger] tree@.in_subtree(d, node) ==> !old(build).ids@.dom().contains(d),
    ensures
        r is Ok ==> final(build).inv(tree@),
        r is Ok ==> final(build).extends(*old(build)),
        r is Ok ==> final(build).ids@.dom().contains(node) && final(build).ids@[node] == r->Ok_0,
        r is Ok ==> forall|d: NodeId|
            #[trigger] final(build).ids@.dom().contains(d) <==> (old(build).ids@.dom().contains(d)
                || tree@.in_subtree(d, node)),
        r is Err ==> r == Err::<u64, TreeError>(TreeError::LayoutEngineFailure),
        r is Err ==> !tree@.engine_accepts(),
    decreases tree@.depth_room(node),
{
    let kids = tree.children(node);
    let style = match tree.style(node) {
        Ok(style) => style,
        Err(_) => {
            return Err(TreeError::LayoutEngineFailure);
        },
    };
    if kids.len() > 0 {
        match read_display(style) {
            DisplayMode::Grid => {
                return Err(TreeError::LayoutEngineFailure);
            },
            _ => {},
        }
    }
    let mut kid_ids: Vec<u64> = Vec::new();
    let mut i: usize = 0;
    while i < kids.len()
        invariant
            tree@.wf(),
            tree@.reachable(node),
            kids@ == tree@.node(node).children,
            *style == tree@.node(node).style,
            kids@.len() > 0 ==> style_display(*style) != DisplayMode::Grid,
            i <= kids.len(),
            kid_ids@.len() == i,
            build.inv(tree@),
            build.extends(*old(build)),
            forall|d: NodeId| #[trigger] tree@.in_subtree(d, node) ==> !old(build).ids@.dom().contains(d),
            forall|k: int|
                0 <= k < i ==> {
                    &&& build.ids@.dom().contains(kids@[k])
                    &&& build.ids@[kids@[k]] == #[trigger] kid_ids@[k]
                    &&& build.links().dom().contains(kid_ids@[k])
                },
            forall|k: int| 0 <= k < i ==> build.ids@.dom().contains(#[trigger] kids@[k]),
            forall|d: NodeId|
                #[trigger] build.ids@.dom().contains(d) <==> (old(build).ids@.dom().contains(d)
                    || tree@.below_first_children(d, node, i as int)),
        decreases kids.len() - i,
    {
        let kid = kids[i];
        let ghost before = *build;
        proof {
            tree@.lemma_child_facts(node, i as int);
            tree@.lemma_chain_len_bound(kid);
            tree@.lemma_subtree_transitive(kid, node, tree@.root);
            assert forall|d: NodeId| #[trigger] tree@.in_subtree(d, kid) implies !build.ids@.dom().contains(
                d,
            ) by {
                tree@.lemma_subtree_transitive(d, kid, node);
                if tree@.below_first_children(d, node, i as int) {
                    let j = choose|j: int|
                        0 <= j < i && j < tree@.node(node).children.len() && #[trigger] tree@.in_subtree(
                            d,
                            tree@.node(node).children[j],
                        );
                    tree@.lemma_sibling_subtrees_disjoint(node, j, i as int, d);
                }
            }
        }
        match build_subtree(tree, kid, build) {
            Ok(id) => {
                kid_ids.push(id);
            },
            Err(_) => {
                return Err(TreeError::LayoutEngineFailure);
            },
        }
        proof {
            assert(build.holds(tree@, kid));
            assert forall|k: int| 0 <= k < i + 1 implies {
                &&& build.ids@.dom().contains(kids@[k])
                &&& build.ids@[kids@[k]] == #[trigger] kid_ids@[k]
                &&& build.links().dom().contains(kid_ids@[k])
            } by {
                if k < i {
                    assert(before.ids@.dom().contains(kids@[k]));
                    assert(build.ids@[kids@[k]] == before.ids@[kids@[k]]);
                    assert(before.links().dom().contains(kid_ids@[k]));
                }
            }
            assert forall|k: int| 0 <= k < i + 1 implies build.ids@.dom().contains(
                #[trigger] kids@[k],
            ) by {
                if k < i {
                    assert(before.ids@.dom().contains(kids@[k]));
                    assert(build.ids@[kids@[k]] == before.ids@[kids@[k]]);
                }
            }
            assert forall|d: NodeId|
                #[trigger] build.ids@.dom().contains(d) <==> (old(build).ids@.dom().contains(d)
                    || tree@.below_first_children(d, node, i + 1)) by {
                if tree@.below_first_children(d, node, i + 1) {
                    let j = choose|j: int|
                        0 <= j < i + 1 && j < tree@.node(node).children.len() && #[trigger] tree@.in_subtree(
                            d,
                            tree@.node(node).children[j],
                        );
                    if j < i {
                        assert(tree@.below_first_children(d, node, i as int));
                        assert(before.ids@.dom().contains(d));
                    }
                }
                if build.ids@.dom().contains(d) && !old(build).ids@.dom().contains(d) {
                    if before.ids@.dom().contains(d) {
                        let j = choose|j: int|
                            0 <= j < i && j < tree@.node(node).children.len() && #[trigger] tree@.in_subtree(
                                d,
                                tree@.node(node).children[j],
                            );
                        assert(tree@.in_subtree(d, tree@.node(node).children[j]));
                    } else {
                        assert(tree@.in_subtree(d, tree@.node(node).children[i as int]));
                    }
                }
            }
        }
        i = i + 1;
    }
    let ghost before = *build;
    proof {
        tree@.lemma_subtree_reflexive(node);
        assert forall|d: NodeId| tree@.below_first_children(d, node, kids@.len() as int) implies d
            != node by {
            let j = choose|j: int|
                0 <= j < kids@.len() && j < tree@.node(node).children.len() && #[trigger] tree@.in_subtree(
                    d,
                    tree@.node(node).children[j],
                );
            tree@.lemma_not_below_child(node, j);
        }
        assert(!before.ids@.dom().contains(node));
    }
    if build.made.len() >= ENGINE_CAPACITY {
        proof {
            let known = before.ids@.dom().insert(node);
            tree@.lemma_reachable_nodes_bound();
            assert forall|n: NodeId| known.contains(n) implies tree@.reachable_nodes().contains(
                n,
            ) by {
                if n != node {
                    assert(before.holds(tree@, n));
                }
            }
            vstd::set_lib::lemma_len_subset(known, tree@.reachable_nodes());
        }
        return Err(TreeError::LayoutEngineFailure);
    }
    match engine_add_node(&mut build.engine, style, &kid_ids) {
        Ok(id) => {
            build.made.push((node, id));
            build.ids = Ghost(before.ids@.insert(node, id));
            build.rank = Ghost(before.rank@.insert(id, before.made@.len()));
            proof {
                let links = build.links();
                assert(links.dom() =~= before.links().dom().insert(id));
                assert forall|a: u64, k: int|
                    links.dom().contains(a) && 0 <= k < links[a].len() implies {
                    &&& links.dom().contains(#[trigger] links[a][k])
                    &&& build.rank@[links[a][k]] < build.rank@[a]
                } by {
                    if a == id {
                        assert(links[a][k] == kid_ids@[k]);
                    } else {
                        assert(before.links().dom().contains(before.links()[a][k]));
                    }
                }
                assert forall|k: int| 0 <= k < build.made@.len() implies {
                    &&& build.ids@.dom().contains((#[trigger] build.made@[k]).0)
                    &&& build.ids@[build.made@[k].0] == build.made@[k].1
                } by {
                    if k < before.made@.len() {
                        assert(build.made@[k] == before.made@[k]);
                    }
                }
                assert forall|a: int, b: int| 0 <= a < b < build.made@.len() implies (
                #[trigger] build.made@[a]).0 != (#[trigger] build.made@[b]).0 by {
                    assert(build.made@[a] == before.made@[a]);
                    if b < before.made@.len() {
                        assert(build.made@[b] == before.made@[b]);
                    }
                }
                assert forall|n: NodeId| build.ids@.dom().contains(n) implies #[trigger] build.holds(
                    tree@,
                    n,
                ) by {
                    if n == node {
                        assert(build.made@[before.made@.len() as int].0 == node);
                        let mine = Seq::new(
                            tree@.node(n).children.len(),
                            |j: int| build.ids@[tree@.node(n).children[j]],
                        );
                        assert forall|j: int| 0 <= j < mine.len() implies mine[j] == kid_ids@[j]
                            && build.ids@.dom().contains(tree@.node(n).children[j]) by {
                            assert(before.ids@.dom().contains(kids@[j]));
                            assert(before.ids@[kids@[j]] == kid_ids@[j]);
                        }
                        assert(links[id] =~= mine);
                    } else {
                        assert(before.holds(tree@, n));
                        let k = choose|k: int|
                            0 <= k < before.made@.len() && (#[trigger] before.made@[k]).0 == n;
                        assert(build.made@[k] == before.made@[k]);
                        let theirs = Seq::new(
                            tree@.node(n).children.len(),
                            |j: int| build.ids@[tree@.node(n).children[j]],
                        );
                        assert forall|j: int| 0 <= j < theirs.len() implies theirs[j]
                            == before.links()[before.ids@[n]][j] by {
                            assert(before.ids@.dom().contains(tree@.node(n).children[j]));
                        }
                        assert(links[build.ids@[n]] =~= theirs);
                    }
                }
                assert forall|a: NodeId, b: NodeId|
                    #![trigger build.ids@[a], build.ids@[b]]
                    build.ids@.dom().contains(a) && build.ids@.dom().contains(b) && a
                        != b implies build.ids@[a] != build.ids@[b] by {
                    if a != node {
                        assert(before.holds(tree@, a));
                    }
                    if b != node {
                        assert(before.holds(tree@, b));
                    }
                }
                assert forall|d: NodeId|
                    #[trigger] build.ids@.dom().contains(d) <==> (old(build).ids@.dom().contains(d)
                        || tree@.in_subtree(d, node)) by {
                    tree@.lemma_subtree_splits(node, d);
                }
            }
            Ok(id)
        },
        Err(_) => Err(TreeError::LayoutEngineFailure),
    }
}

/// Reads the layout that the engine holds for the node `id`, as
/// `engine_layouts` names it.
fn read_layout(engine: &EngineTree, id: u64) -> (r: Result<ComputedLayout, TreeError>)
    requires
        engine_children(*engine).dom().contains(id),
    ensures
        r == Ok::<ComputedLayout, TreeError>(engine_layouts(*engine)[id]),
{
    let frame = match engine_frame(engine, id) {
        Ok(frame) => frame,
        Err(_) => {
            return Err(TreeError::LayoutEngineFailure);
        },
    };
    let insets = match engine_insets(engine, id) {
        Ok(insets) => insets,
        Err(_) => {
            return Err(TreeError::LayoutEngineFailure);
        },
    };
    Ok(
        ComputedLayout {
            order: frame.0,
            x: frame.1,
            y: frame.2,
            width: frame.3,
            height: frame.4,
            margin: insets.0,
            border: insets.1,
            padding: insets.2,
        },
    )
}

/// Lays out everything that can be reached from the root, in the space
/// given for each axis, and stores the geometry of each such node.
///
/// The engine is given a tree that holds the reachable part of this one,
/// node for node, with the same styles and the same order of children, and
/// is run on it from the root. Every node that can be reached from the root
/// then has the layout that the engine computed for it, and nothing else
/// has changed.
///
/// Two kinds of tree are not handed to the engine: one with more reachable
/// nodes than the engine holds, and one in which a reachable node that has
/// children lays them out as a grid. For these the answer is
/// `LayoutEngineFailure` and no layout has changed; every other tree is
/// laid out.
pub fn compute_layout(tree: &mut LayoutTree, width: AvailableSpace, height: AvailableSpace) -> (r:
    Result<(), TreeError>)
    requires
        old(tree)@.wf(),
    ensures
        final(tree)@.wf(),
        final(tree)@.same_but_layouts(old(tree)@),
        forall|i: int|
            0 <= i < old(tree)@.nodes.len() && !old(tree)@.reachable(NodeId(i as usize)) ==> (
            #[trigger] final(tree)@.nodes[i]) == old(tree)@.nodes[i],
        r is Ok <==> old(tree)@.engine_accepts(),
        r is Ok ==> exists|engine: EngineTree, ids: Map<NodeId, u64>|
            laid_out_by(old(tree)@, final(tree)@, engine, ids, width, height),
        r is Err ==> r == Err::<(), TreeError>(TreeError::LayoutEngineFailure) && final(tree)@
            == old(tree)@,
{
    let ghost none: Map<u64, nat> = Map::empty();
    let ghost nobody: Map<NodeId, u64> = Map::empty();
    let mut build = Build {
        engine: engine_new(),
        made: Vec::new(),
        ids: Ghost(nobody),
        rank: Ghost(none),
    };
    let root = tree.root();
    proof {
        tree@.lemma_subtree_reflexive(root);
    }
    let root_id = match build_subtree(tree, root, &mut build) {
        Ok(id) => id,
        Err(e) => {
            return Err(e);
        },
    };
    let ghost given = build.engine;
    let ghost ids = build.ids@;
    let ghost made = build.made@;
    proof {
        assert(links_ranked(build.links(), build.rank@));
        assert(build.holds(tree@, root));
        assert forall|n: NodeId| #[trigger] tree@.reachable(n) implies {
            &&& listed(made, n)
            &&& ids.dom().contains(n)
            &&& engine_children(given).dom().contains(ids[n])
            &&& engine_styles(given)[ids[n]] == tree@.node(n).style
            &&& engine_children(given)[ids[n]] == Seq::new(
                tree@.node(n).children.len(),
                |j: int| ids[tree@.node(n).children[j]],
            )
        } by {
            assert(build.holds(tree@, n));
        }
        assert forall|a: NodeId, b: NodeId|
            #![trigger tree@.reachable(a), tree@.reachable(b)]
            tree@.reachable(a) && tree@.reachable(b) && a != b implies ids[a] != ids[b] by {
            assert(ids.dom().contains(a) && ids.dom().contains(b));
        }
        assert(engine_holds(given, tree@, ids));
        assert(tree@.reachable_nodes() =~= ids.dom());
        assert(tree@.engine_accepts());
        assert forall|k: int| 0 <= k < made.len() implies {
            &&& engine_children(given).dom().contains((#[trigger] made[k]).1)
            &&& tree@.reachable(made[k].0)
            &&& ids[made[k].0] == made[k].1
        } by {
            assert(build.holds(tree@, made[k].0));
        }
    }
    match engine_compute(&mut build.engine, root_id, width, height) {
        Ok(()) => {},
        Err(_) => {
            return Err(TreeError::LayoutEngineFailure);
        },
    }
    let ghost solution = engine_solution(given, root_id, width, height);
    let mut entries: Vec<(NodeId, ComputedLayout)> = Vec::new();
    let mut i: usize = 0;
    while i < build.made.len()
        invariant
            build.made@ == made,
            i <= made.len(),
            entries@.len() == i,
            engine_layouts(build.engine) == solution,
            forall|k: int|
                0 <= k < made.len() ==> {
                    &&& engine_children(build.engine).dom().contains((#[trigger] made[k]).1)
                    &&& tree@.reachable(made[k].0)
                },
            forall|k: int|
                0 <= k < i ==> (#[trigger] entries@[k]) == (made[k].0, solution[made[k].1]),
            tree@ == old(tree)@,
            tree@.wf(),
        decreases made.len() - i,
    {
        let (node, id) = build.made[i];
        match read_layout(&build.engine, id) {
            Ok(layout) => {
                entries.push((node, layout));
            },
            Err(e) => {
                return Err(e);
            },
        }
        i = i + 1;
    }
    proof {
        old(tree)@.lemma_with_layouts(entries@);
    }
    store_layouts(tree, &entries);
    proof {
        let before = old(tree)@;
        assert forall|n: NodeId| #[trigger] before.reachable(n) implies tree@.node(n).layout
            == solution[ids[n]] by {
            assert(listed(made, n));
            let k = choose|k: int| 0 <= k < made.len() && (#[trigger] made[k]).0 == n;
            assert(entries@[k].0 == n);
            assert forall|j: int| k < j < entries@.len() implies (#[trigger] entries@[j]).0
                != entries@[k].0 by {
                assert(made[k].0 != made[j].0);
            }
            before.lemma_last_entry_wins(entries@, k);
        }
        assert(root_id == ids[before.root]);
        assert(laid_out_by(before, tree@, given, ids, width, height));
    }
    Ok(())
}

} // verus!
