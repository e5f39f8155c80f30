use layout_inspector::geometry::{ComputedLayout, Insets, Point, Rect};
use layout_inspector::hit::hit_test;
use layout_inspector::order::{paint_order, stacking_order};
use layout_inspector::paint::{
    paint_tree, BoxLayer, PaintOp, Rgb, OUTLINE_DASH_LENGTH, OUTLINE_GAP_LENGTH,
    OUTLINE_STROKE_WIDTH,
};
use layout_inspector::tree::{LayoutTree, NodeId};
use taffy::Style;

fn placed(order: u32, x: i32, y: i32, width: i32, height: i32) -> ComputedLayout {
    ComputedLayout {
        order,
        x,
        y,
        width,
        height,
        margin: Insets::uniform(0),
        border: Insets::uniform(0),
        padding: Insets::uniform(0),
    }
}

fn at(x: i64, y: i64) -> Point {
    Point { x, y }
}

/// A root of 100 x 100 at (10, 10) with children `a` and `b`, placed as given.
fn two_siblings(a: ComputedLayout, b: ComputedLayout) -> (LayoutTree, NodeId, NodeId, NodeId) {
    let mut tree = LayoutTree::new(Style::DEFAULT);
    let root = tree.root();
    let first = tree.create_leaf(Style::DEFAULT);
    let second = tree.create_leaf(Style::DEFAULT);
    tree.add_child(root, first).unwrap();
    tree.add_child(root, second).unwrap();
    tree.set_layout(root, placed(0, 10, 10, 100, 100)).unwrap();
    tree.set_layout(first, a).unwrap();
    tree.set_layout(second, b).unwrap();
    (tree, root, first, second)
}

#[test]
fn paint_order_is_ascending_and_stable() {
    let mut tree = LayoutTree::new(Style::DEFAULT);
    let root = tree.root();
    let kids: Vec<NodeId> = (0..5).map(|_| tree.create_leaf(Style::DEFAULT)).collect();
    for kid in &kids {
        tree.add_child(root, *kid).unwrap();
    }
    let orders = [2, 0, 2, 1, 0];
    for (kid, order) in kids.iter().zip(orders) {
        tree.set_layout(*kid, placed(order, 0, 0, 1, 1)).unwrap();
    }
    assert_eq!(paint_order(&tree, root), vec![kids[1], kids[4], kids[3], kids[0], kids[2]]);
    assert_eq!(tree.children(root), kids);
    assert_eq!(paint_order(&tree, kids[0]), Vec::<NodeId>::new());
    assert_eq!(paint_order(&tree, NodeId(99)), Vec::<NodeId>::new());
    assert_eq!(stacking_order(&tree, kids[3]), 1);
    assert_eq!(stacking_order(&tree, NodeId(99)), 0);
}

#[test]
fn disjoint_siblings_resolve_to_the_one_under_the_pointer() {
    for (order_a, order_b) in [(0, 1), (1, 0), (5, 5)] {
        let (tree, root, a, b) =
            two_siblings(placed(order_a, 0, 0, 40, 40), placed(order_b, 50, 0, 40, 40));
        // the children sit at the root's location, (10, 10)
        assert_eq!(hit_test(&tree, root, at(0, 0), at(20, 20)), Some(a));
        assert_eq!(hit_test(&tree, root, at(0, 0), at(70, 20)), Some(b));
        assert_eq!(hit_test(&tree, root, at(0, 0), at(55, 20)), Some(root));
        assert_eq!(hit_test(&tree, root, at(0, 0), at(5, 5)), None);
        assert_eq!(hit_test(&tree, root, at(0, 0), at(111, 50)), None);
    }
}

#[test]
fn overlapping_siblings_resolve_to_the_lower_stacking_order() {
    let (tree, root, a, b) = two_siblings(placed(1, 0, 0, 40, 40), placed(0, 20, 20, 40, 40));
    assert_eq!(hit_test(&tree, root, at(0, 0), at(40, 40)), Some(b));
    assert_eq!(hit_test(&tree, root, at(0, 0), at(15, 15)), Some(a));
    let (tree, root, a, _b) = two_siblings(placed(0, 0, 0, 40, 40), placed(1, 20, 20, 40, 40));
    assert_eq!(hit_test(&tree, root, at(0, 0), at(40, 40)), Some(a));
    // equal stacking order: the child that was inserted first is asked first
    let (tree, root, a, _b) = two_siblings(placed(3, 0, 0, 40, 40), placed(3, 20, 20, 40, 40));
    assert_eq!(hit_test(&tree, root, at(0, 0), at(40, 40)), Some(a));
}

#[test]
fn offsets_add_up_along_the_path() {
    let mut tree = LayoutTree::new(Style::DEFAULT);
    let root = tree.root();
    let mid = tree.create_leaf(Style::DEFAULT);
    let low = tree.create_leaf(Style::DEFAULT);
    tree.add_child(root, mid).unwrap();
    tree.add_child(mid, low).unwrap();
    tree.set_layout(root, placed(0, 100, 200, 500, 500)).unwrap();
    tree.set_layout(mid, placed(0, 30, 40, 100, 100)).unwrap();
    tree.set_layout(low, placed(0, 5, 6, 10, 10)).unwrap();
    let origin = at(1000, 2000);
    // low covers x in 1135..=1145 and y in 2246..=2256
    assert_eq!(hit_test(&tree, root, origin, at(1135, 2246)), Some(low));
    assert_eq!(hit_test(&tree, root, origin, at(1145, 2256)), Some(low));
    assert_eq!(hit_test(&tree, root, origin, at(1134, 2246)), Some(mid));
    assert_eq!(hit_test(&tree, root, origin, at(1146, 2256)), Some(mid));
    assert_eq!(hit_test(&tree, root, origin, at(1129, 2246)), Some(root));
    assert_eq!(hit_test(&tree, root, origin, at(1099, 2246)), None);
    // a search that starts further down takes the offset of the parent's frame
    assert_eq!(hit_test(&tree, mid, at(1100, 2200), at(1135, 2246)), Some(low));
    assert_eq!(hit_test(&tree, low, at(1130, 2240), at(1134, 2246)), None);
}

#[test]
fn a_child_outside_its_parent_is_still_found() {
    let (tree, root, a, _b) = two_siblings(placed(0, 200, 0, 10, 10), placed(1, 0, 0, 10, 10));
    assert_eq!(hit_test(&tree, root, at(0, 0), at(215, 15)), Some(a));
}

#[test]
fn a_stale_start_resolves_to_nothing() {
    let (mut tree, root, a, _b) = two_siblings(placed(0, 0, 0, 40, 40), placed(1, 50, 0, 40, 40));
    tree.remove(a).unwrap();
    assert_eq!(hit_test(&tree, a, at(0, 0), at(20, 20)), None);
    assert_eq!(hit_test(&tree, root, at(0, 0), at(20, 20)), Some(root));
    assert_eq!(paint_tree(&tree, a, at(0, 0), root), Vec::<PaintOp>::new());
}

#[test]
fn a_node_paints_its_four_layers_outside_in() {
    let mut tree = LayoutTree::new(Style::DEFAULT);
    let root = tree.root();
    let layout = ComputedLayout {
        order: 0,
        x: 0,
        y: 0,
        width: 100,
        height: 50,
        margin: Insets::uniform(1),
        border: Insets::uniform(2),
        padding: Insets::uniform(3),
    };
    tree.set_layout(root, layout).unwrap();
    let margin_box = Rect { min_x: 10, min_y: 20, max_x: 110, max_y: 70 };
    let fills = vec![
        PaintOp::Fill { layer: BoxLayer::Border, rect: Rect { min_x: 11, min_y: 21, max_x: 109, max_y: 69 } },
        PaintOp::Fill { layer: BoxLayer::Padding, rect: Rect { min_x: 13, min_y: 23, max_x: 107, max_y: 67 } },
        PaintOp::Fill { layer: BoxLayer::Content, rect: Rect { min_x: 16, min_y: 26, max_x: 104, max_y: 64 } },
    ];
    let mut selected = vec![
        PaintOp::Fill { layer: BoxLayer::Margin, rect: margin_box },
        PaintOp::Outline { rect: margin_box },
    ];
    selected.extend(fills.iter().copied());
    assert_eq!(paint_tree(&tree, root, at(10, 20), root), selected);
    let mut plain = vec![PaintOp::Fill { layer: BoxLayer::Margin, rect: margin_box }];
    plain.extend(fills.iter().copied());
    assert_eq!(paint_tree(&tree, root, at(10, 20), NodeId(9)), plain);
}

#[test]
fn children_are_painted_after_their_parent_in_stacking_order() {
    let (tree, root, a, b) = two_siblings(placed(1, 0, 0, 40, 40), placed(0, 50, 0, 40, 40));
    let ops = paint_tree(&tree, root, at(0, 0), b);
    let margins: Vec<Rect> = ops
        .iter()
        .filter_map(|op| match op {
            PaintOp::Fill { layer: BoxLayer::Margin, rect } => Some(*rect),
            _ => None,
        })
        .collect();
    assert_eq!(
        margins,
        vec![
            Rect { min_x: 10, min_y: 10, max_x: 110, max_y: 110 },
            Rect { min_x: 60, min_y: 10, max_x: 100, max_y: 50 },
            Rect { min_x: 10, min_y: 10, max_x: 50, max_y: 50 },
        ]
    );
    assert_eq!(ops.len(), 13);
    assert_eq!(ops[5], PaintOp::Outline { rect: Rect { min_x: 60, min_y: 10, max_x: 100, max_y: 50 } });
    let outlines = ops.iter().filter(|op| matches!(op, PaintOp::Outline { .. })).count();
    assert_eq!(outlines, 1);
    // painting a subtree takes the offset of the parent's frame
    assert_eq!(paint_tree(&tree, a, at(10, 10), b), ops[9..].to_vec());
}

#[test]
fn layers_have_their_colours_and_the_outline_its_path() {
    assert_eq!(BoxLayer::Margin.color(), Rgb { red: 0xff, green: 0x70, blue: 0x46 });
    assert_eq!(BoxLayer::Border.color(), Rgb { red: 0x00, green: 0xa6, blue: 0xc3 });
    assert_eq!(BoxLayer::Padding.color(), Rgb { red: 0xfa, green: 0xc3, blue: 0x57 });
    assert_eq!(BoxLayer::Content.color(), Rgb { red: 0x00, green: 0xc4, blue: 0xa8 });
    let rect = Rect { min_x: 1, min_y: 2, max_x: 3, max_y: 4 };
    assert_eq!(rect.outline_path(), vec![(1, 2), (3, 2), (3, 4), (1, 4), (1, 2)]);
    assert_eq!((OUTLINE_STROKE_WIDTH, OUTLINE_DASH_LENGTH, OUTLINE_GAP_LENGTH), (5, 10, 10));
}
