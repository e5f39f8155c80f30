//! Integer geometry: resolved insets, the layout of one node, and the four
//! nested rectangles of the box model.

use vstd::prelude::*;

verus! {

/// Largest magnitude of a coordinate that the rectangle operations accept.
pub const COORD_LIMIT: i128 = 0x1_0000_0000_0000_0000_0000_0000_0;

/// Resolved lengths of the four sides of a margin, border or padding.
#[derive(Clone, Copy, Debug, PartialEq, Eq, Structural)]
pub struct Insets {
    pub left: i32,
    pub right: i32,
    pub top: i32,
    pub bottom: i32,
}

/// The geometry that the layout engine computed for one node, in the
/// coordinate frame of the node's parent.
#[derive(Clone, Copy, Debug, PartialEq, Eq, Structural)]
pub struct ComputedLayout {
    /// Stacking order among siblings: higher values are painted later.
    pub order: u32,
    pub x: i32,
    pub y: i32,
    pub width: i32,
    pub height: i32,
    pub margin: Insets,
    pub border: Insets,
    pub padding: Insets,
}

/// A position in the frame of the drawing region.
#[derive(Clone, Copy, Debug, PartialEq, Eq, Structural)]
pub struct Point {
    pub x: i64,
    pub y: i64,
}

/// An axis-aligned rectangle given by its two corners. Nothing forces
/// `max` to lie right of or below `min`: insets larger than the box give a
/// rectangle of negative extent, which is kept as it is.
#[derive(Clone, Copy, Debug, PartialEq, Eq, Structural)]
pub struct Rect {
    pub min_x: i128,
    pub min_y: i128,
    pub max_x: i128,
    pub max_y: i128,
}

/// The four nested rectangles of one node, outermost first.
#[derive(Clone, Copy, Debug, PartialEq, Eq, Structural)]
pub struct BoxLayers {
    pub margin_box: Rect,
    pub border_box: Rect,
    pub padding_box: Rect,
    pub content_box: Rect,
}

pub open spec fn coord_in_range(v: int) -> bool {
    -COORD_LIMIT <= v <= COORD_LIMIT
}

/// `rect` cut on each side by the matching inset.
pub open spec fn shrink_spec(rect: Rect, cuts: Insets) -> Rect {
    Rect {
        min_x: (rect.min_x + cuts.left) as i128,
        min_y: (rect.min_y + cuts.top) as i128,
        max_x: (rect.max_x - cuts.right) as i128,
        max_y: (rect.max_y - cuts.bottom) as i128,
    }
}

/// The rectangle that a node with layout `layout` covers when its parent's
/// frame starts at `(origin_x, origin_y)`.
pub open spec fn node_rect_spec(origin_x: int, origin_y: int, layout: ComputedLayout) -> Rect {
    Rect {
        min_x: (origin_x + layout.x) as i128,
        min_y: (origin_y + layout.y) as i128,
        max_x: (origin_x + layout.x + layout.width) as i128,
        max_y: (origin_y + layout.y + layout.height) as i128,
    }
}

/// The box model of a node: each layer is the one around it, cut by the
/// margin, then the border, then the padding.
pub open spec fn box_layers_spec(origin_x: int, origin_y: int, layout: ComputedLayout) -> BoxLayers {
    let margin_box = node_rect_spec(origin_x, origin_y, layout);
    let border_box = shrink_spec(margin_box, layout.margin);
    let padding_box = shrink_spec(border_box, layout.border);
    let content_box = shrink_spec(padding_box, layout.padding);
    BoxLayers { margin_box, border_box, padding_box, content_box }
}

/// Whether the point `(px, py)` lies in the rectangle of a node with layout
/// `layout` whose parent's frame starts at `(origin_x, origin_y)`; the edges
/// count as inside.
pub open spec fn layout_covers(
    origin_x: int,
    origin_y: int,
    layout: ComputedLayout,
    px: int,
    py: int,
) -> bool {
    &&& origin_x + layout.x <= px <= origin_x + layout.x + layout.width
    &&& origin_y + layout.y <= py <= origin_y + layout.y + layout.height
}

/// How far from zero the frame of a node at depth `depth` can start, given
/// that the drawing region starts at a 64-bit position and every step down
/// the tree adds a 32-bit location.
pub open spec fn frame_reach(depth: nat) -> int {
    0x8000_0000_0000_0000int + depth * 0x8000_0000int
}

pub open spec fn frame_in_reach(v: int, depth: nat) -> bool {
    -frame_reach(depth) <= v <= frame_reach(depth)
}

/// The rectangle of a node holds a point exactly when the node's layout
/// covers it.
pub proof fn lemma_node_rect_covers(origin_x: int, origin_y: int, layout: ComputedLayout, px: int, py: int)
    requires
        coord_in_range(origin_x),
        coord_in_range(origin_y),
    ensures
        node_rect_spec(origin_x, origin_y, layout).contains_spec(px, py) == layout_covers(
            origin_x,
            origin_y,
            layout,
            px,
            py,
        ),
{
}

impl Insets {
    pub fn new(left: i32, right: i32, top: i32, bottom: i32) -> (r: Insets)
        ensures
            r == (Insets { left, right, top, bottom }),
    {
        Insets { left, right, top, bottom }
    }

    /// The same length on all four sides.
    pub fn uniform(length: i32) -> (r: Insets)
        ensures
            r == (Insets { left: length, right: length, top: length, bottom: length }),
    {
        Insets { left: length, right: length, top: length, bottom: length }
    }
}

impl ComputedLayout {
    pub open spec fn zero_spec() -> ComputedLayout {
        let none = Insets { left: 0, right: 0, top: 0, bottom: 0 };
        ComputedLayout {
            order: 0,
            x: 0,
            y: 0,
            width: 0,
            height: 0,
            margin: none,
            border: none,
            padding: none,
        }
    }

    /// The layout of a node that the engine has not placed yet: empty, at the
    /// origin, below everything else.
    pub fn zero() -> (r: ComputedLayout)
        ensures
            r == Self::zero_spec(),
    {
        let none = Insets::uniform(0);
        ComputedLayout {
            order: 0,
            x: 0,
            y: 0,
            width: 0,
            height: 0,
            margin: none,
            border: none,
            padding: none,
        }
    }
}

impl Rect {
    pub open spec fn width(self) -> int {
        self.max_x - self.min_x
    }

    pub open spec fn height(self) -> int {
        self.max_y - self.min_y
    }

    pub open spec fn in_range(self) -> bool {
        &&& coord_in_range(self.min_x as int)
        &&& coord_in_range(self.min_y as int)
        &&& coord_in_range(self.max_x as int)
        &&& coord_in_range(self.max_y as int)
    }

    /// Both edges count as inside, on each axis.
    pub open spec fn contains_spec(self, x: int, y: int) -> bool {
        self.min_x <= x <= self.max_x && self.min_y <= y <= self.max_y
    }

    /// Whether the two rectangles have no point in common.
    pub open spec fn disjoint_from(self, other: Rect) -> bool {
        forall|x: int, y: int| !(self.contains_spec(x, y) && other.contains_spec(x, y))
    }

    pub fn contains(&self, p: Point) -> (r: bool)
        ensures
            r == self.contains_spec(p.x as int, p.y as int),
    {
        let x = p.x as i128;
        let y = p.y as i128;
        self.min_x <= x && x <= self.max_x && self.min_y <= y && y <= self.max_y
    }

    /// Cuts `cuts.left` and `cuts.top` off the `min` corner and `cuts.right`
    /// and `cuts.bottom` off the `max` corner.
    pub fn shrink(&self, cuts: &Insets) -> (r: Rect)
        requires
            self.in_range(),
        ensures
            r == shrink_spec(*self, *cuts),
            r.min_x == self.min_x + cuts.left,
            r.min_y == self.min_y + cuts.top,
            r.max_x == self.max_x - cuts.right,
            r.max_y == self.max_y - cuts.bottom,
    {
        Rect {
            min_x: self.min_x + cuts.left as i128,
            min_y: self.min_y + cuts.top as i128,
            max_x: self.max_x - cuts.right as i128,
            max_y: self.max_y - cuts.bottom as i128,
        }
    }
}

/// The rectangle of a node whose parent's frame starts at `origin`.
pub fn node_rect(origin: Point, layout: &ComputedLayout) -> (r: Rect)
    ensures
        r == node_rect_spec(origin.x as int, origin.y as int, *layout),
        r.min_x == origin.x + layout.x,
        r.min_y == origin.y + layout.y,
        r.width() == layout.width,
        r.height() == layout.height,
{
    let min_x = origin.x as i128 + layout.x as i128;
    let min_y = origin.y as i128 + layout.y as i128;
    Rect {
        min_x,
        min_y,
        max_x: min_x + layout.width as i128,
        max_y: min_y + layout.height as i128,
    }
}

/// The four layers of a node whose parent's frame starts at `origin`.
pub fn box_layers(origin: Point, layout: &ComputedLayout) -> (r: BoxLayers)
    ensures
        r == box_layers_spec(origin.x as int, origin.y as int, *layout),
{
    let margin_box = node_rect(origin, layout);
    let border_box = margin_box.shrink(&layout.margin);
    let padding_box = border_box.shrink(&layout.border);
    let content_box = padding_box.shrink(&layout.padding);
    BoxLayers { margin_box, border_box, padding_box, content_box }
}

/// The four layers of a node whose parent's frame starts at `(ox, oy)`,
/// which may lie up to half the coordinate limit from zero.
pub fn box_layers_at(ox: i128, oy: i128, layout: &ComputedLayout) -> (r: BoxLayers)
    requires
        coord_in_range(2 * ox),
        coord_in_range(2 * oy),
    ensures
        r == box_layers_spec(ox as int, oy as int, *layout),
{
    let min_x = ox + layout.x as i128;
    let min_y = oy + layout.y as i128;
    let margin_box = Rect {
        min_x,
        min_y,
        max_x: min_x + layout.width as i128,
        max_y: min_y + layout.height as i128,
    };
    let border_box = margin_box.shrink(&layout.margin);
    let padding_box = border_box.shrink(&layout.border);
    let content_box = padding_box.shrink(&layout.padding);
    BoxLayers { margin_box, border_box, padding_box, content_box }
}

/// The content box is the margin box less every inset, on each axis;
/// insets that add up to more than the box give a negative extent.
pub proof fn lemma_content_box_extent(origin_x: int, origin_y: int, layout: ComputedLayout)
    requires
        coord_in_range(origin_x),
        coord_in_range(origin_y),
    ensures
        ({
            let layers = box_layers_spec(origin_x, origin_y, layout);
            &&& layers.margin_box.width() == layout.width
            &&& layers.margin_box.height() == layout.height
            &&& layers.content_box.width() == layout.width - layout.margin.left
                - layout.margin.right - layout.border.left - layout.border.right
                - layout.padding.left - layout.padding.right
            &&& layers.content_box.height() == layout.height - layout.margin.top
                - layout.margin.bottom - layout.border.top - layout.border.bottom
                - layout.padding.top - layout.padding.bottom
            &&& layers.border_box == shrink_spec(layers.margin_box, layout.margin)
            &&& layers.padding_box == shrink_spec(layers.border_box, layout.border)
            &&& layers.content_box == shrink_spec(layers.padding_box, layout.padding)
        }),
{
}

} // verus!
