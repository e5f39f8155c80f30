use layout_inspector::geometry::{
    box_layers, box_layers_at, node_rect, ComputedLayout, Insets, Point, Rect,
};

fn layout_with_insets(width: i32, height: i32, inset: i32) -> ComputedLayout {
    ComputedLayout {
        order: 0,
        x: 0,
        y: 0,
        width,
        height,
        margin: Insets::uniform(inset),
        border: Insets::uniform(inset),
        padding: Insets::uniform(inset),
    }
}

fn extent(rect: &Rect) -> (i128, i128) {
    (rect.max_x - rect.min_x, rect.max_y - rect.min_y)
}

#[test]
fn content_box_is_the_margin_box_less_every_inset() {
    let layers = box_layers(Point { x: 0, y: 0 }, &layout_with_insets(600, 400, 10));
    assert_eq!(extent(&layers.margin_box), (600, 400));
    assert_eq!(extent(&layers.border_box), (580, 380));
    assert_eq!(extent(&layers.padding_box), (560, 360));
    assert_eq!(extent(&layers.content_box), (540, 340));
    assert_eq!(layers.content_box, Rect { min_x: 30, min_y: 30, max_x: 570, max_y: 370 });
}

#[test]
fn each_side_is_cut_by_its_own_inset() {
    let layout = ComputedLayout {
        order: 3,
        x: 7,
        y: -4,
        width: 100,
        height: 80,
        margin: Insets::new(1, 2, 3, 4),
        border: Insets::new(5, 6, 7, 8),
        padding: Insets::new(9, 10, 11, 12),
    };
    let layers = box_layers(Point { x: 1000, y: 2000 }, &layout);
    assert_eq!(layers.margin_box, Rect { min_x: 1007, min_y: 1996, max_x: 1107, max_y: 2076 });
    assert_eq!(layers.border_box, Rect { min_x: 1008, min_y: 1999, max_x: 1105, max_y: 2072 });
    assert_eq!(layers.padding_box, Rect { min_x: 1013, min_y: 2006, max_x: 1099, max_y: 2064 });
    assert_eq!(layers.content_box, Rect { min_x: 1022, min_y: 2017, max_x: 1089, max_y: 2052 });
    assert_eq!(extent(&layers.content_box), (100 - 1 - 2 - 5 - 6 - 9 - 10, 80 - 3 - 4 - 7 - 8 - 11 - 12));
    assert_eq!(box_layers_at(1000, 2000, &layout), layers);
}

#[test]
fn insets_larger_than_the_box_give_a_negative_extent() {
    let layers = box_layers(Point { x: 0, y: 0 }, &layout_with_insets(20, 10, 5));
    assert_eq!(extent(&layers.content_box), (-10, -20));
    assert_eq!(layers.content_box, Rect { min_x: 15, min_y: 15, max_x: 5, max_y: -5 });
}

#[test]
fn negative_insets_grow_the_box() {
    let rect = Rect { min_x: 0, min_y: 0, max_x: 10, max_y: 10 };
    let grown = rect.shrink(&Insets::new(-1, -2, -3, -4));
    assert_eq!(grown, Rect { min_x: -1, min_y: -3, max_x: 12, max_y: 14 });
}

#[test]
fn a_rectangle_holds_its_edges() {
    let rect = Rect { min_x: 10, min_y: 20, max_x: 30, max_y: 40 };
    assert!(rect.contains(Point { x: 10, y: 20 }));
    assert!(rect.contains(Point { x: 30, y: 40 }));
    assert!(rect.contains(Point { x: 20, y: 30 }));
    assert!(!rect.contains(Point { x: 9, y: 30 }));
    assert!(!rect.contains(Point { x: 31, y: 30 }));
    assert!(!rect.contains(Point { x: 20, y: 19 }));
    assert!(!rect.contains(Point { x: 20, y: 41 }));
}

#[test]
fn node_rect_starts_at_origin_plus_location() {
    let layout = ComputedLayout {
        order: 0,
        x: 5,
        y: 6,
        width: 7,
        height: 8,
        margin: Insets::uniform(0),
        border: Insets::uniform(0),
        padding: Insets::uniform(0),
    };
    let rect = node_rect(Point { x: i64::MAX, y: i64::MIN }, &layout);
    assert_eq!(rect.min_x, i64::MAX as i128 + 5);
    assert_eq!(rect.max_x, i64::MAX as i128 + 12);
    assert_eq!(rect.min_y, i64::MIN as i128 + 6);
    assert_eq!(rect.max_y, i64::MIN as i128 + 14);
}

#[test]
fn the_zero_layout_is_empty_at_the_origin() {
    let zero = ComputedLayout::zero();
    assert_eq!(zero, layout_with_insets(0, 0, 0));
    assert_eq!(Insets::uniform(4), Insets::new(4, 4, 4, 4));
}
