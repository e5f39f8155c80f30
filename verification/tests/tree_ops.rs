use layout_inspector::tree::{LayoutTree, NodeId, TreeError};
use taffy::Style;

fn style_growing(grow: f32) -> Style {
    let mut style = Style::DEFAULT;
    style.flex_grow = grow;
    style
}

/// root -> a -> (b, c), root -> d
fn small_tree() -> (LayoutTree, NodeId, NodeId, NodeId, NodeId, NodeId) {
    let mut tree = LayoutTree::new(Style::DEFAULT);
    let root = tree.root();
    let a = tree.create_leaf(Style::DEFAULT);
    let b = tree.create_leaf(Style::DEFAULT);
    let c = tree.create_leaf(Style::DEFAULT);
    let d = tree.create_leaf(Style::DEFAULT);
    assert_eq!(tree.add_child(root, a), Ok(()));
    assert_eq!(tree.add_child(a, b), Ok(()));
    assert_eq!(tree.add_child(a, c), Ok(()));
    assert_eq!(tree.add_child(root, d), Ok(()));
    (tree, root, a, b, c, d)
}

#[test]
fn new_tree_holds_only_the_root() {
    let tree = LayoutTree::new(style_growing(2.0));
    let root = tree.root();
    assert_eq!(root, NodeId(0));
    assert_eq!(tree.slot_count(), 1);
    assert!(tree.contains(root));
    assert_eq!(tree.parent(root), None);
    assert_eq!(tree.children(root), Vec::<NodeId>::new());
    assert_eq!(tree.child_count(root), 0);
    assert_eq!(tree.style(root).unwrap().flex_grow, 2.0);
}

#[test]
fn create_leaf_hands_out_fresh_detached_handles() {
    let mut tree = LayoutTree::new(Style::DEFAULT);
    let a = tree.create_leaf(Style::DEFAULT);
    let b = tree.create_leaf(Style::DEFAULT);
    assert_eq!(a, NodeId(1));
    assert_eq!(b, NodeId(2));
    assert!(tree.contains(a));
    assert!(tree.contains(b));
    assert_eq!(tree.parent(a), None);
    assert_eq!(tree.children(a), Vec::<NodeId>::new());
    assert_eq!(tree.children(tree.root()), Vec::<NodeId>::new());
    assert_eq!(tree.slot_count(), 3);
}

#[test]
fn add_child_keeps_insertion_order() {
    let (tree, root, a, b, c, d) = small_tree();
    assert_eq!(tree.children(root), vec![a, d]);
    assert_eq!(tree.children(a), vec![b, c]);
    assert_eq!(tree.child_count(a), 2);
    assert_eq!(tree.parent(a), Some(root));
    assert_eq!(tree.parent(b), Some(a));
    assert_eq!(tree.parent(c), Some(a));
    assert_eq!(tree.parent(d), Some(root));
    assert_eq!(tree.parent(root), None);
}

#[test]
fn set_style_then_style_gives_the_same_style() {
    let (mut tree, _root, a, b, _c, _d) = small_tree();
    let mut style = Style::DEFAULT;
    style.flex_grow = 3.0;
    style.display = taffy::Display::Grid;
    style.size = taffy::Size {
        width: taffy::Dimension::Length(12.5),
        height: taffy::Dimension::Percent(0.25),
    };
    style.aspect_ratio = Some(1.5);
    assert_eq!(tree.set_style(a, style.clone()), Ok(()));
    assert_eq!(tree.style(a), Ok(&style));
    assert_eq!(tree.style(b), Ok(&Style::DEFAULT));
    assert_eq!(tree.children(a).len(), 2);
}

#[test]
fn stale_handles_are_reported_and_read_as_empty() {
    let (mut tree, _root, a, b, _c, _d) = small_tree();
    assert_eq!(tree.remove(a), Ok(()));
    assert_eq!(tree.style(a), Err(TreeError::NodeNotFound));
    assert_eq!(tree.style(b), Err(TreeError::NodeNotFound));
    assert_eq!(tree.set_style(a, Style::DEFAULT), Err(TreeError::NodeNotFound));
    assert_eq!(tree.layout(a), Err(TreeError::NodeNotFound));
    assert_eq!(tree.children(a), Vec::<NodeId>::new());
    assert_eq!(tree.child_count(a), 0);
    assert_eq!(tree.parent(b), None);
    assert_eq!(tree.remove(a), Err(TreeError::NodeNotFound));
    let never_made = NodeId(1000);
    assert!(!tree.contains(never_made));
    assert_eq!(tree.style(never_made), Err(TreeError::NodeNotFound));
    assert_eq!(tree.children(never_made), Vec::<NodeId>::new());
    assert_eq!(tree.parent(never_made), None);
    assert_eq!(tree.remove(never_made), Err(TreeError::NodeNotFound));
}

#[test]
fn remove_takes_the_whole_subtree() {
    let (mut tree, root, a, b, c, d) = small_tree();
    assert_eq!(tree.remove(a), Ok(()));
    assert_eq!(tree.children(root), vec![d]);
    assert!(!tree.contains(a));
    assert!(!tree.contains(b));
    assert!(!tree.contains(c));
    assert!(tree.contains(d));
    assert!(tree.contains(root));
    assert_eq!(tree.parent(d), Some(root));
    for slot in 0..tree.slot_count() {
        let node = NodeId(slot);
        let kids = tree.children(node);
        assert!(!kids.contains(&a));
        assert!(!kids.contains(&b));
        assert!(!kids.contains(&c));
        for kid in kids {
            assert!(tree.contains(kid));
        }
    }
}

#[test]
fn remove_of_a_leaf_keeps_its_siblings_in_order() {
    let mut tree = LayoutTree::new(Style::DEFAULT);
    let root = tree.root();
    let kids: Vec<NodeId> = (0..4).map(|_| tree.create_leaf(Style::DEFAULT)).collect();
    for kid in &kids {
        assert_eq!(tree.add_child(root, *kid), Ok(()));
    }
    assert_eq!(tree.remove(kids[1]), Ok(()));
    assert_eq!(tree.children(root), vec![kids[0], kids[2], kids[3]]);
    assert_eq!(tree.remove(kids[3]), Ok(()));
    assert_eq!(tree.children(root), vec![kids[0], kids[2]]);
}

#[test]
fn remove_root_is_rejected_and_changes_nothing() {
    let (mut tree, root, a, b, c, d) = small_tree();
    assert_eq!(tree.remove(root), Err(TreeError::InvalidMutation));
    assert_eq!(tree.children(root), vec![a, d]);
    assert_eq!(tree.children(a), vec![b, c]);
    for node in [root, a, b, c, d] {
        assert!(tree.contains(node));
    }
    assert_eq!(tree.slot_count(), 5);
}

#[test]
fn add_child_rejects_what_would_break_the_tree() {
    let (mut tree, root, a, b, _c, d) = small_tree();
    // a node that already has a parent
    assert_eq!(tree.add_child(d, b), Err(TreeError::InvalidMutation));
    // the root as a child
    assert_eq!(tree.add_child(b, root), Err(TreeError::InvalidMutation));
    // a node as its own child
    let lone = tree.create_leaf(Style::DEFAULT);
    assert_eq!(tree.add_child(lone, lone), Err(TreeError::InvalidMutation));
    // a cycle among detached nodes
    let below = tree.create_leaf(Style::DEFAULT);
    assert_eq!(tree.add_child(lone, below), Ok(()));
    assert_eq!(tree.add_child(below, lone), Err(TreeError::InvalidMutation));
    // nothing moved
    assert_eq!(tree.children(root), vec![a, d]);
    assert_eq!(tree.children(d), Vec::<NodeId>::new());
    assert_eq!(tree.children(lone), vec![below]);
    assert_eq!(tree.children(below), Vec::<NodeId>::new());
    assert_eq!(tree.parent(lone), None);
    assert_eq!(tree.parent(b), Some(a));
}

#[test]
fn add_child_with_a_stale_handle_is_node_not_found() {
    let (mut tree, root, a, b, _c, d) = small_tree();
    assert_eq!(tree.remove(a), Ok(()));
    let leaf = tree.create_leaf(Style::DEFAULT);
    assert_eq!(tree.add_child(a, leaf), Err(TreeError::NodeNotFound));
    assert_eq!(tree.add_child(root, b), Err(TreeError::NodeNotFound));
    assert_eq!(tree.add_child(NodeId(77), leaf), Err(TreeError::NodeNotFound));
    assert_eq!(tree.children(root), vec![d]);
    assert_eq!(tree.parent(leaf), None);
}

#[test]
fn handles_are_not_given_out_twice() {
    let (mut tree, root, a, _b, _c, _d) = small_tree();
    assert_eq!(tree.remove(a), Ok(()));
    let fresh = tree.create_leaf(Style::DEFAULT);
    assert_eq!(fresh, NodeId(5));
    assert!(!tree.contains(a));
    assert_eq!(tree.add_child(root, fresh), Ok(()));
    assert!(!tree.contains(a));
}

#[test]
fn a_detached_subtree_can_be_attached_whole() {
    let mut tree = LayoutTree::new(Style::DEFAULT);
    let root = tree.root();
    let top = tree.create_leaf(Style::DEFAULT);
    let mid = tree.create_leaf(Style::DEFAULT);
    let low = tree.create_leaf(Style::DEFAULT);
    assert_eq!(tree.add_child(mid, low), Ok(()));
    assert_eq!(tree.add_child(top, mid), Ok(()));
    assert!(!tree.is_in_subtree(low, root));
    assert_eq!(tree.add_child(root, top), Ok(()));
    assert!(tree.is_in_subtree(low, root));
    assert!(tree.is_in_subtree(low, top));
    assert!(tree.is_in_subtree(low, low));
    assert!(!tree.is_in_subtree(top, low));
    assert!(!tree.is_in_subtree(root, top));
    assert_eq!(tree.remove(top), Ok(()));
    assert!(!tree.contains(low));
    assert!(!tree.is_in_subtree(low, root));
}

#[test]
fn each_refusal_has_its_message() {
    assert_eq!(TreeError::NodeNotFound.describe(), "the handle names no node of the tree");
    assert_eq!(TreeError::InvalidMutation.describe(), "the change would break the tree");
    assert_eq!(TreeError::LayoutEngineFailure.describe(), "the layout engine failed");
}
