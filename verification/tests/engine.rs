use layout_inspector::editor::TaffyEditor;
use layout_inspector::engine::{compute_layout, store_layouts};
use layout_inspector::geometry::{ComputedLayout, Insets, Point};
use layout_inspector::hit::hit_test;
use layout_inspector::paint::{paint_tree, PaintOp};
use layout_inspector::tree::{LayoutTree, NodeId, TreeError};
use taffy::{AvailableSpace, Dimension, LengthPercentage, LengthPercentageAuto, Size, Style};

fn sized(width: f32, height: f32) -> Style {
    let mut style = Style::DEFAULT;
    style.size = Size { width: Dimension::Length(width), height: Dimension::Length(height) };
    style
}

fn growing() -> Style {
    let mut style = Style::DEFAULT;
    style.flex_grow = 1.0;
    style
}

fn frame(order: u32, x: i32, y: i32, width: i32, height: i32) -> ComputedLayout {
    ComputedLayout {
        order,
        x,
        y,
        width,
        height,
        margin: Insets::uniform(0),
        border: Insets::uniform(0),
        padding: Insets::uniform(0),
    }
}

fn default_template() -> Style {
    let ten = LengthPercentage::Length(10.0);
    let ten_auto = LengthPercentageAuto::Length(10.0);
    let mut style = Style::DEFAULT;
    style.padding = taffy::Rect { left: ten, right: ten, top: ten, bottom: ten };
    style.margin = taffy::Rect { left: ten_auto, right: ten_auto, top: ten_auto, bottom: ten_auto };
    style.border = taffy::Rect { left: ten, right: ten, top: ten, bottom: ten };
    style.flex_grow = 1.0;
    style.box_sizing = taffy::BoxSizing::ContentBox;
    style.size = Size { width: Dimension::Auto, height: Dimension::Auto };
    style.gap = Size { width: ten, height: ten };
    style
}

#[test]
fn a_row_of_two_growing_children_splits_the_width() {
    let mut tree = LayoutTree::new(sized(100.0, 50.0));
    let root = tree.root();
    let left = tree.create_leaf(growing());
    let right = tree.create_leaf(growing());
    tree.add_child(root, left).unwrap();
    tree.add_child(root, right).unwrap();
    assert_eq!(compute_layout(&mut tree, AvailableSpace::MinContent, AvailableSpace::MinContent), Ok(()));
    assert_eq!(tree.layout(root), Ok(frame(0, 0, 0, 100, 50)));
    assert_eq!(tree.layout(left), Ok(frame(0, 0, 0, 50, 50)));
    assert_eq!(tree.layout(right), Ok(frame(1, 50, 0, 50, 50)));
    assert_eq!(hit_test(&tree, root, Point { x: 0, y: 0 }, Point { x: 25, y: 25 }), Some(left));
    assert_eq!(hit_test(&tree, root, Point { x: 0, y: 0 }, Point { x: 75, y: 25 }), Some(right));
    assert_eq!(tree.children(root), vec![left, right]);
}

#[test]
fn a_column_stacks_its_children() {
    let mut column = sized(40.0, 90.0);
    column.flex_direction = taffy::FlexDirection::Column;
    let mut tree = LayoutTree::new(column);
    let root = tree.root();
    let kids: Vec<NodeId> = (0..3).map(|_| tree.create_leaf(growing())).collect();
    for kid in &kids {
        tree.add_child(root, *kid).unwrap();
    }
    assert_eq!(compute_layout(&mut tree, AvailableSpace::MaxContent, AvailableSpace::MaxContent), Ok(()));
    assert_eq!(tree.layout(kids[0]), Ok(frame(0, 0, 0, 40, 30)));
    assert_eq!(tree.layout(kids[1]), Ok(frame(1, 0, 30, 40, 30)));
    assert_eq!(tree.layout(kids[2]), Ok(frame(2, 0, 60, 40, 30)));
}

#[test]
fn resolved_insets_come_back_from_the_engine() {
    let mut style = sized(200.0, 100.0);
    style.margin = taffy::Rect {
        left: LengthPercentageAuto::Length(1.0),
        right: LengthPercentageAuto::Length(2.0),
        top: LengthPercentageAuto::Length(3.0),
        bottom: LengthPercentageAuto::Length(4.0),
    };
    style.border = taffy::Rect {
        left: LengthPercentage::Length(5.0),
        right: LengthPercentage::Length(6.0),
        top: LengthPercentage::Length(7.0),
        bottom: LengthPercentage::Length(8.0),
    };
    style.padding = taffy::Rect {
        left: LengthPercentage::Length(9.0),
        right: LengthPercentage::Length(10.0),
        top: LengthPercentage::Length(11.0),
        bottom: LengthPercentage::Length(12.0),
    };
    let mut tree = LayoutTree::new(style);
    let root = tree.root();
    assert_eq!(compute_layout(&mut tree, AvailableSpace::MinContent, AvailableSpace::MinContent), Ok(()));
    let layout = tree.layout(root).unwrap();
    assert_eq!(layout.margin, Insets::new(1, 2, 3, 4));
    assert_eq!(layout.border, Insets::new(5, 6, 7, 8));
    assert_eq!(layout.padding, Insets::new(9, 10, 11, 12));
    assert_eq!((layout.x, layout.y, layout.width, layout.height), (0, 0, 200, 100));
}

#[test]
fn a_definite_space_bounds_an_unsized_root() {
    let mut tree = LayoutTree::new(Style::DEFAULT);
    let root = tree.root();
    let child = tree.create_leaf(sized(30.0, 20.0));
    tree.add_child(root, child).unwrap();
    assert_eq!(
        compute_layout(&mut tree, AvailableSpace::Definite(300.0), AvailableSpace::Definite(200.0)),
        Ok(())
    );
    assert_eq!(tree.layout(child), Ok(frame(0, 0, 0, 30, 20)));
    assert_eq!(tree.layout(root).unwrap().height, 20);
}

#[test]
fn the_default_tree_is_laid_out_in_one_run() {
    let template = default_template();
    let mut column = template.clone();
    column.flex_direction = taffy::FlexDirection::Column;
    let mut root_style = template.clone();
    root_style.size = Size { width: Dimension::Length(600.0), height: Dimension::Length(400.0) };
    let mut editor = TaffyEditor::with_default_tree(template, column, root_style);
    assert_eq!(
        editor.compute_layout(AvailableSpace::MinContent, AvailableSpace::MinContent),
        Ok(())
    );
    let tree = editor.tree();
    let mut seen: Vec<NodeId> = Vec::new();
    for slot in 0..tree.slot_count() {
        let node = NodeId(slot);
        assert!(tree.contains(node));
        let layout = tree.layout(node).expect("every node has a layout");
        assert_eq!(layout.margin, Insets::uniform(10));
        assert_eq!(layout.border, Insets::uniform(10));
        assert_eq!(layout.padding, Insets::uniform(10));
        assert!(layout.width >= 40 && layout.height >= 40);
        assert!(!seen.contains(&node));
        seen.push(node);
    }
    assert_eq!(seen.len(), 6);
    let root = tree.layout(NodeId(0)).unwrap();
    assert_eq!((root.x, root.y, root.width, root.height), (0, 0, 640, 440));
    // three children in a row: the content box is 600 wide, less two gaps of 10 and six margins of 10
    let first = tree.layout(NodeId(1)).unwrap();
    let second = tree.layout(NodeId(4)).unwrap();
    let third = tree.layout(NodeId(5)).unwrap();
    assert_eq!((first.order, second.order, third.order), (0, 1, 2));
    assert_eq!(first.x, 30);
    assert_eq!(first.y, 30);
    assert_eq!(first.width + second.width + third.width, 600 - 20 - 60);
    assert_eq!(first.height, 380);
    let ops = paint_tree(tree, NodeId(0), Point { x: 0, y: 0 }, editor.current());
    assert_eq!(ops.len(), 6 * 4 + 1);
    assert_eq!(ops.iter().filter(|op| matches!(op, PaintOp::Outline { .. })).count(), 1);
}

#[test]
fn nodes_out_of_reach_keep_their_layout() {
    let mut tree = LayoutTree::new(sized(100.0, 50.0));
    let root = tree.root();
    let detached = tree.create_leaf(sized(10.0, 10.0));
    let kept = frame(9, 1, 2, 3, 4);
    tree.set_layout(detached, kept).unwrap();
    assert_eq!(compute_layout(&mut tree, AvailableSpace::MinContent, AvailableSpace::MinContent), Ok(()));
    assert_eq!(tree.layout(detached), Ok(kept));
    assert_eq!(tree.layout(root), Ok(frame(0, 0, 0, 100, 50)));
    assert_eq!(tree.parent(detached), None);
}

#[test]
fn a_second_run_follows_the_mutations() {
    let mut tree = LayoutTree::new(sized(100.0, 50.0));
    let root = tree.root();
    let left = tree.create_leaf(growing());
    let right = tree.create_leaf(growing());
    tree.add_child(root, left).unwrap();
    tree.add_child(root, right).unwrap();
    assert_eq!(compute_layout(&mut tree, AvailableSpace::MinContent, AvailableSpace::MinContent), Ok(()));
    tree.remove(left).unwrap();
    assert_eq!(compute_layout(&mut tree, AvailableSpace::MinContent, AvailableSpace::MinContent), Ok(()));
    assert_eq!(tree.layout(right), Ok(frame(0, 0, 0, 100, 50)));
    assert_eq!(tree.layout(left), Err(TreeError::NodeNotFound));
    tree.set_style(root, sized(60.0, 20.0)).unwrap();
    assert_eq!(compute_layout(&mut tree, AvailableSpace::MinContent, AvailableSpace::MinContent), Ok(()));
    assert_eq!(tree.layout(right), Ok(frame(0, 0, 0, 60, 20)));
}

#[test]
fn store_layouts_skips_stale_handles_and_lets_the_last_entry_win() {
    let mut tree = LayoutTree::new(Style::DEFAULT);
    let root = tree.root();
    let leaf = tree.create_leaf(Style::DEFAULT);
    let gone = tree.create_leaf(Style::DEFAULT);
    tree.add_child(root, leaf).unwrap();
    tree.add_child(root, gone).unwrap();
    tree.remove(gone).unwrap();
    let entries = vec![
        (leaf, frame(1, 1, 1, 1, 1)),
        (gone, frame(2, 2, 2, 2, 2)),
        (NodeId(50), frame(3, 3, 3, 3, 3)),
        (leaf, frame(4, 4, 4, 4, 4)),
    ];
    store_layouts(&mut tree, &entries);
    assert_eq!(tree.layout(leaf), Ok(frame(4, 4, 4, 4, 4)));
    assert_eq!(tree.layout(root), Ok(ComputedLayout::zero()));
    assert_eq!(tree.layout(gone), Err(TreeError::NodeNotFound));
    assert_eq!(tree.children(root), vec![leaf]);
}

#[test]
fn a_grid_container_is_refused_and_keeps_its_layouts() {
    let mut grid = sized(100.0, 50.0);
    grid.display = taffy::Display::Grid;
    let mut tree = LayoutTree::new(sized(200.0, 100.0));
    let root = tree.root();
    let container = tree.create_leaf(grid.clone());
    let inner = tree.create_leaf(growing());
    tree.add_child(root, container).unwrap();
    assert_eq!(compute_layout(&mut tree, AvailableSpace::MinContent, AvailableSpace::MinContent), Ok(()));
    // a grid node without children is a leaf like any other
    assert_eq!(tree.layout(container), Ok(frame(0, 0, 0, 100, 50)));
    tree.add_child(container, inner).unwrap();
    let kept = frame(7, 1, 2, 3, 4);
    tree.set_layout(inner, kept).unwrap();
    assert_eq!(
        compute_layout(&mut tree, AvailableSpace::MinContent, AvailableSpace::MinContent),
        Err(TreeError::LayoutEngineFailure)
    );
    assert_eq!(tree.layout(inner), Ok(kept));
    assert_eq!(tree.layout(container), Ok(frame(0, 0, 0, 100, 50)));
    assert_eq!(tree.layout(root), Ok(frame(0, 0, 0, 200, 100)));
    // a placement that the grid algorithm cannot count changes nothing about the answer
    let mut placed = growing();
    placed.grid_row = taffy::Line {
        start: taffy::GridPlacement::Line(32767.into()),
        end: taffy::GridPlacement::Span(2),
    };
    tree.set_style(inner, placed).unwrap();
    assert_eq!(
        compute_layout(&mut tree, AvailableSpace::MinContent, AvailableSpace::MinContent),
        Err(TreeError::LayoutEngineFailure)
    );
    // once the container is no grid, the tree is laid out again
    let mut flex = grid;
    flex.display = taffy::Display::Flex;
    tree.set_style(container, flex).unwrap();
    assert_eq!(compute_layout(&mut tree, AvailableSpace::MinContent, AvailableSpace::MinContent), Ok(()));
    assert_eq!(tree.layout(inner), Ok(frame(0, 0, 0, 100, 50)));
}

#[test]
fn a_grid_container_out_of_reach_is_no_obstacle() {
    let mut grid = sized(100.0, 50.0);
    grid.display = taffy::Display::Grid;
    let mut tree = LayoutTree::new(sized(200.0, 100.0));
    let root = tree.root();
    let detached = tree.create_leaf(grid);
    let below = tree.create_leaf(growing());
    tree.add_child(detached, below).unwrap();
    assert_eq!(compute_layout(&mut tree, AvailableSpace::MinContent, AvailableSpace::MinContent), Ok(()));
    assert_eq!(tree.layout(root), Ok(frame(0, 0, 0, 200, 100)));
    assert_eq!(tree.layout(below), Ok(ComputedLayout::zero()));
}

#[test]
fn every_other_display_mode_is_laid_out() {
    for display in [taffy::Display::Block, taffy::Display::Flex, taffy::Display::None] {
        let mut style = sized(100.0, 50.0);
        style.display = display;
        let mut tree = LayoutTree::new(style);
        let root = tree.root();
        let child = tree.create_leaf(sized(10.0, 10.0));
        tree.add_child(root, child).unwrap();
        assert_eq!(
            compute_layout(&mut tree, AvailableSpace::MinContent, AvailableSpace::MinContent),
            Ok(())
        );
    }
}
