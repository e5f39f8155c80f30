use layout_inspector::choices::{
    BoxSizingMode, ContentAlignment, DimensionKind, DisplayMode, FlexDirectionMode, FlexWrapMode,
    ItemAlignment, LengthKind, MaxTrackKind, MinTrackKind, OverflowMode, PositionMode,
    TextAlignMode,
};

#[test]
fn display_choices_are_listed_in_order() {
    assert_eq!(DisplayMode::count(), 4);
    let labels: Vec<&str> =
        (0..4).map(|i| DisplayMode::from_index(i).unwrap().label()).collect();
    assert_eq!(labels, vec!["Block", "Flex", "Grid", "None"]);
    assert_eq!(DisplayMode::from_index(3), Some(DisplayMode::Hidden));
    assert_eq!(DisplayMode::from_index(4), None);
    assert_eq!(DisplayMode::Grid.index(), 2);
}

#[test]
fn every_position_maps_to_a_choice_and_back() {
    for i in 0..DisplayMode::count() {
        assert_eq!(DisplayMode::from_index(i).unwrap().index(), i);
    }
    for i in 0..BoxSizingMode::count() {
        assert_eq!(BoxSizingMode::from_index(i).unwrap().index(), i);
    }
    for i in 0..OverflowMode::count() {
        assert_eq!(OverflowMode::from_index(i).unwrap().index(), i);
    }
    for i in 0..PositionMode::count() {
        assert_eq!(PositionMode::from_index(i).unwrap().index(), i);
    }
    for i in 0..TextAlignMode::count() {
        assert_eq!(TextAlignMode::from_index(i).unwrap().index(), i);
    }
    for i in 0..FlexDirectionMode::count() {
        assert_eq!(FlexDirectionMode::from_index(i).unwrap().index(), i);
    }
    for i in 0..FlexWrapMode::count() {
        assert_eq!(FlexWrapMode::from_index(i).unwrap().index(), i);
    }
    for i in 0..ItemAlignment::count() {
        assert_eq!(ItemAlignment::from_index(i).unwrap().index(), i);
    }
    for i in 0..ContentAlignment::count() {
        assert_eq!(ContentAlignment::from_index(i).unwrap().index(), i);
    }
    for i in 0..LengthKind::count() {
        assert_eq!(LengthKind::from_index(i).unwrap().index(), i);
    }
    for i in 0..DimensionKind::count() {
        assert_eq!(DimensionKind::from_index(i).unwrap().index(), i);
    }
    for i in 0..MaxTrackKind::count() {
        assert_eq!(MaxTrackKind::from_index(i).unwrap().index(), i);
    }
    for i in 0..MinTrackKind::count() {
        assert_eq!(MinTrackKind::from_index(i).unwrap().index(), i);
    }
}

#[test]
fn lists_end_where_they_say() {
    assert_eq!(
        (
            BoxSizingMode::count(),
            OverflowMode::count(),
            PositionMode::count(),
            TextAlignMode::count(),
            FlexDirectionMode::count(),
            FlexWrapMode::count(),
            ItemAlignment::count(),
            ContentAlignment::count(),
            LengthKind::count(),
            DimensionKind::count(),
            MaxTrackKind::count(),
            MinTrackKind::count(),
        ),
        (2, 4, 2, 4, 4, 3, 7, 9, 2, 3, 6, 4)
    );
    assert_eq!(BoxSizingMode::from_index(2), None);
    assert_eq!(OverflowMode::from_index(4), None);
    assert_eq!(PositionMode::from_index(2), None);
    assert_eq!(TextAlignMode::from_index(4), None);
    assert_eq!(FlexDirectionMode::from_index(4), None);
    assert_eq!(FlexWrapMode::from_index(3), None);
    assert_eq!(ItemAlignment::from_index(7), None);
    assert_eq!(ContentAlignment::from_index(9), None);
    assert_eq!(LengthKind::from_index(2), None);
    assert_eq!(DimensionKind::from_index(3), None);
    assert_eq!(MaxTrackKind::from_index(6), None);
    assert_eq!(MinTrackKind::from_index(usize::MAX), None);
}

#[test]
fn choices_are_shown_under_their_names() {
    assert_eq!(BoxSizingMode::BorderBox.label(), "BorderBox");
    assert_eq!(OverflowMode::Clip.label(), "Clip");
    assert_eq!(PositionMode::Absolute.label(), "Absolute");
    assert_eq!(TextAlignMode::Auto.label(), "Auto");
    assert_eq!(TextAlignMode::LegacyLeft.label(), "Left");
    assert_eq!(TextAlignMode::LegacyRight.label(), "Right");
    assert_eq!(TextAlignMode::LegacyCenter.label(), "Center");
    assert_eq!(FlexDirectionMode::from_index(1), Some(FlexDirectionMode::Column));
    assert_eq!(FlexDirectionMode::ColumnReverse.label(), "ColumnReverse");
    assert_eq!(FlexWrapMode::WrapReverse.label(), "WrapReverse");
    assert_eq!(ItemAlignment::from_index(5), Some(ItemAlignment::Baseline));
    assert_eq!(ItemAlignment::from_index(6).unwrap().label(), "Stretch");
    assert_eq!(ContentAlignment::from_index(5), Some(ContentAlignment::Stretch));
    assert_eq!(ContentAlignment::from_index(8).unwrap().label(), "SpaceAround");
    assert_eq!(LengthKind::Percent.label(), "Percent");
    assert_eq!(DimensionKind::from_index(2).unwrap().label(), "Auto");
    assert_eq!(MaxTrackKind::from_index(3).unwrap().label(), "FitContent");
    assert_eq!(MinTrackKind::from_index(3).unwrap().label(), "Auto");
}

#[test]
fn an_alignment_that_is_switched_on_starts_centred() {
    assert_eq!(ItemAlignment::when_enabled(), ItemAlignment::Center);
    assert_eq!(ContentAlignment::when_enabled(), ContentAlignment::Center);
}

#[test]
fn only_some_cases_carry_a_number() {
    assert!(DimensionKind::Length.carries_value());
    assert!(DimensionKind::Percent.carries_value());
    assert!(!DimensionKind::Auto.carries_value());
    let with_length: Vec<bool> =
        (0..6).map(|i| MaxTrackKind::from_index(i).unwrap().carries_length()).collect();
    assert_eq!(with_length, vec![true, false, false, true, false, false]);
    let with_fraction: Vec<bool> =
        (0..6).map(|i| MaxTrackKind::from_index(i).unwrap().carries_fraction()).collect();
    assert_eq!(with_fraction, vec![false, false, false, false, false, true]);
    let editable: Vec<bool> =
        (0..4).map(|i| MinTrackKind::from_index(i).unwrap().length_is_editable()).collect();
    assert_eq!(editable, vec![false, true, false, false]);
}
