//! The box-model renderer. It does not draw: it lists, in painting order,
//! the rectangles to fill and the outline to stroke, and whoever owns the
//! painter carries the list out.
//!
//! Each node contributes its margin box, then, if it is the selected node,
//! a dashed outline of that box, then its border, padding and content boxes,
//! each nested in the one before. Its children follow in paint order, so a
//! child with a higher stacking order covers its siblings.

use vstd::prelude::*;
use crate::geometry::{
    box_layers_at, box_layers_spec, frame_in_reach, ComputedLayout, Point, Rect,
};
use crate::order::paint_order;
use crate::model::TreeView;
use crate::tree::{LayoutTree, NodeId};

verus! {

/// Stroke width of the selection outline.
pub const OUTLINE_STROKE_WIDTH: u32 = 5;

/// Length of each dash of the selection outline.
pub const OUTLINE_DASH_LENGTH: u32 = 10;

/// Length of the gap between two dashes of the selection outline.
pub const OUTLINE_GAP_LENGTH: u32 = 10;

/// One of the four nested regions of a node.
#[derive(Clone, Copy, Debug, PartialEq, Eq, Structural)]
pub enum BoxLayer {
    Margin,
    Border,
    Padding,
    Content,
}

/// A colour as red, green and blue.
#[derive(Clone, Copy, Debug, PartialEq, Eq, Structural)]
pub struct Rgb {
    pub red: u8,
    pub green: u8,
    pub blue: u8,
}

/// One instruction for the painter.
#[derive(Clone, Copy, Debug, PartialEq, Eq, Structural)]
pub enum PaintOp {
    /// Fill `rect` with the colour of `layer`.
    Fill { layer: BoxLayer, rect: Rect },
    /// Stroke a dashed, closed outline along the edges of `rect`.
    Outline { rect: Rect },
}

impl BoxLayer {
    pub open spec fn color_spec(self) -> Rgb {
        match self {
            BoxLayer::Margin => Rgb { red: 0xff, green: 0x70, blue: 0x46 },
            BoxLayer::Border => Rgb { red: 0x00, green: 0xa6, blue: 0xc3 },
            BoxLayer::Padding => Rgb { red: 0xfa, green: 0xc3, blue: 0x57 },
            BoxLayer::Content => Rgb { red: 0x00, green: 0xc4, blue: 0xa8 },
        }
    }

    /// The colour in which the layer is filled.
    pub fn color(&self) -> (r: Rgb)
        ensures
            r == self.color_spec(),
    {
        match self {
            BoxLayer::Margin => Rgb { red: 0xff, green: 0x70, blue: 0x46 },
            BoxLayer::Border => Rgb { red: 0x00, green: 0xa6, blue: 0xc3 },
            BoxLayer::Padding => Rgb { red: 0xfa, green: 0xc3, blue: 0x57 },
            BoxLayer::Content => Rgb { red: 0x00, green: 0xc4, blue: 0xa8 },
        }
    }
}

impl Rect {
    /// The closed path along the edges: from the top-left corner clockwise,
    /// back to where it began.
    pub open spec fn outline_path_spec(self) -> Seq<(i128, i128)> {
        seq![
            (self.min_x, self.min_y),
            (self.max_x, self.min_y),
            (self.max_x, self.max_y),
            (self.min_x, self.max_y),
            (self.min_x, self.min_y),
        ]
    }

    /// The five points of the outline of the rectangle.
    pub fn outline_path(&self) -> (r: Vec<(i128, i128)>)
        ensures
            r@ == self.outline_path_spec(),
    {
        let mut path: Vec<(i128, i128)> = Vec::new();
        path.push((self.min_x, self.min_y));
        path.push((self.max_x, self.min_y));
        path.push((self.max_x, self.max_y));
        path.push((self.min_x, self.max_y));
        path.push((self.min_x, self.min_y));
        assert(path@ =~= self.outline_path_spec());
        path
    }
}

/// What a node with layout `layout` paints for itself when its parent's
/// frame starts at `(ox, oy)`.
pub open spec fn node_ops(ox: int, oy: int, layout: ComputedLayout, selected: bool) -> Seq<PaintOp> {
    let layers = box_layers_spec(ox, oy, layout);
    let margin = seq![PaintOp::Fill { layer: BoxLayer::Margin, rect: layers.margin_box }];
    let outline = if selected {
        seq![PaintOp::Outline { rect: layers.margin_box }]
    } else {
        Seq::empty()
    };
    let inner = seq![
        PaintOp::Fill { layer: BoxLayer::Border, rect: layers.border_box },
        PaintOp::Fill { layer: BoxLayer::Padding, rect: layers.padding_box },
        PaintOp::Fill { layer: BoxLayer::Content, rect: layers.content_box },
    ];
    margin + outline + inner
}

impl TreeView {
    /// Everything that the subtree of `n` paints, in order, where the frame
    /// of the parent of `n` starts at `(ox, oy)`.
    pub open spec fn paint(self, n: NodeId, ox: int, oy: int, selected: NodeId) -> Seq<PaintOp>
        decreases self.depth_room(n), self.paint_order(n).len() + 1,
        when self.wf() && self.is_live(n)
    {
        let layout = self.node(n).layout;
        node_ops(ox, oy, layout, n == selected) + self.paint_children(
            n,
            0,
            ox + layout.x,
            oy + layout.y,
            selected,
        )
    }

    /// What the children of `n` paint, from position `from` of the paint
    /// order on; `(ox, oy)` is where the frame of `n` starts.
    pub open spec fn paint_children(
        self,
        n: NodeId,
        from: int,
        ox: int,
        oy: int,
        selected: NodeId,
    ) -> Seq<PaintOp>
        decreases self.depth_room(n), self.paint_order(n).len() - from,
        when self.wf() && self.is_live(n) && 0 <= from
    {
        let kids = self.paint_order(n);
        if from >= kids.len() {
            Seq::empty()
        } else {
            proof {
                self.lemma_paint_order_entry(n, from);
            }
            self.paint(kids[from], ox, oy, selected) + self.paint_children(
                n,
                from + 1,
                ox,
                oy,
                selected,
            )
        }
    }

    /// What painting from `start` lists: nothing for a stale handle.
    pub open spec fn paint_from(self, start: NodeId, origin: Point, selected: NodeId) -> Seq<
        PaintOp,
    > {
        if self.is_live(start) {
            self.paint(start, origin.x as int, origin.y as int, selected)
        } else {
            Seq::empty()
        }
    }
}

fn push_node_ops(
    ox: i128,
    oy: i128,
    layout: &ComputedLayout,
    selected: bool,
    out: &mut Vec<PaintOp>,
    depth: Ghost<nat>,
)
    requires
        depth@ <= usize::MAX,
        frame_in_reach(ox as int, depth@),
        frame_in_reach(oy as int, depth@),
    ensures
        final(out)@ == old(out)@ + node_ops(ox as int, oy as int, *layout, selected),
{
    let layers = box_layers_at(ox, oy, layout);
    out.push(PaintOp::Fill { layer: BoxLayer::Margin, rect: layers.margin_box });
    if selected {
        out.push(PaintOp::Outline { rect: layers.margin_box });
    }
    out.push(PaintOp::Fill { layer: BoxLayer::Border, rect: layers.border_box });
    out.push(PaintOp::Fill { layer: BoxLayer::Padding, rect: layers.padding_box });
    out.push(PaintOp::Fill { layer: BoxLayer::Content, rect: layers.content_box });
    assert(out@ =~= old(out)@ + node_ops(ox as int, oy as int, *layout, selected));
}

fn paint_node(
    tree: &LayoutTree,
    node: NodeId,
    ox: i128,
    oy: i128,
    selected: NodeId,
    out: &mut Vec<PaintOp>,
)
    requires
        tree@.wf(),
        tree@.is_live(node),
        frame_in_reach(ox as int, tree@.node(node).ancestors.len()),
        frame_in_reach(oy as int, tree@.node(node).ancestors.len()),
    ensures
        final(out)@ == old(out)@ + tree@.paint(node, ox as int, oy as int, selected),
    decreases tree@.depth_room(node),
{
    let ghost depth = tree@.node(node).ancestors.len();
    let ghost start = out@;
    proof {
        tree@.lemma_chain_len_bound(node);
    }
    let layout = match tree.layout(node) {
        Ok(layout) => layout,
        Err(_) => ComputedLayout::zero(),
    };
    push_node_ops(ox, oy, &layout, node.0 == selected.0, out, Ghost(depth));
    let ghost own = node_ops(ox as int, oy as int, layout, node == selected);
    let inner_x = ox + layout.x as i128;
    let inner_y = oy + layout.y as i128;
    let kids = paint_order(tree, node);
    let mut i: usize = 0;
    assert(out@ + tree@.paint_children(node, 0, inner_x as int, inner_y as int, selected) =~= start
        + tree@.paint(node, ox as int, oy as int, selected));
    while i < kids.len()
        invariant
            tree@.wf(),
            tree@.is_live(node),
            depth == tree@.node(node).ancestors.len(),
            kids@ == tree@.paint_order(node),
            i <= kids.len(),
            frame_in_reach(inner_x as int, depth + 1),
            frame_in_reach(inner_y as int, depth + 1),
            out@ + tree@.paint_children(node, i as int, inner_x as int, inner_y as int, selected)
                == start + tree@.paint(node, ox as int, oy as int, selected),
        decreases kids.len() - i,
    {
        let kid = kids[i];
        let ghost before = out@;
        proof {
            tree@.lemma_paint_order_entry(node, i as int);
            tree@.lemma_chain_len_bound(kid);
        }
        paint_node(tree, kid, inner_x, inner_y, selected, out);
        proof {
            let head = tree@.paint(kid, inner_x as int, inner_y as int, selected);
            let rest = tree@.paint_children(
                node,
                i + 1,
                inner_x as int,
                inner_y as int,
                selected,
            );
            assert((before + head) + rest =~= before + (head + rest));
        }
        i = i + 1;
    }
    assert(out@ + Seq::<PaintOp>::empty() =~= out@);
}

/// Lists what to paint for the subtree of `start`, whose parent's frame
/// starts at `origin` (zero when `start` is the root); `selected` is the node
/// that gets the outline. The list is empty for a stale `start`.
pub fn paint_tree(tree: &LayoutTree, start: NodeId, origin: Point, selected: NodeId) -> (r: Vec<
    PaintOp,
>)
    requires
        tree@.wf(),
    ensures
        r@ == tree@.paint_from(start, origin, selected),
{
    let mut out: Vec<PaintOp> = Vec::new();
    if tree.contains(start) {
        proof {
            assert(tree@.node_ok(start.0 as int));
        }
        paint_node(tree, start, origin.x as i128, origin.y as i128, selected, &mut out);
        assert(Seq::<PaintOp>::empty() + tree@.paint_from(start, origin, selected)
            =~= tree@.paint_from(start, origin, selected));
    }
    out
}

} // verus!
