//! The closed sets of choices that a style is made of, as the property form
//! shows them: each choice has a position in its list and a name. The form
//! reads the position of the current choice, lets the operator pick another
//! position, and maps that back to a choice.

use vstd::prelude::*;

verus! {

/// How a node lays out its children.
#[derive(Clone, Copy, Debug, PartialEq, Eq, Structural)]
pub enum DisplayMode {
    Block,
    Flex,
    Grid,
    Hidden,
}

impl DisplayMode {
    /// How many choices the list has.
    pub open spec fn count_spec() -> nat {
        4
    }

    pub open spec fn index_spec(self) -> nat {
        match self {
            DisplayMode::Block => 0,
            DisplayMode::Flex => 1,
            DisplayMode::Grid => 2,
            DisplayMode::Hidden => 3,
        }
    }

    pub open spec fn label_spec(self) -> Seq<char> {
        match self {
            DisplayMode::Block => "Block"@,
            DisplayMode::Flex => "Flex"@,
            DisplayMode::Grid => "Grid"@,
            DisplayMode::Hidden => "None"@,
        }
    }

    /// How many choices the list has.
    pub fn count() -> (r: usize)
        ensures
            r == Self::count_spec(),
    {
        4
    }

    /// The position of the choice in its list.
    pub fn index(self) -> (r: usize)
        ensures
            r == self.index_spec(),
            r < Self::count_spec(),
    {
        match self {
            DisplayMode::Block => 0,
            DisplayMode::Flex => 1,
            DisplayMode::Grid => 2,
            DisplayMode::Hidden => 3,
        }
    }

    /// The choice at position `index`; none at or past the end of the list.
    pub fn from_index(index: usize) -> (r: Option<DisplayMode>)
        ensures
            index < Self::count_spec() ==> r is Some && r->0.index_spec() == index,
            index >= Self::count_spec() ==> r is None,
    {
        match index {
            0 => Some(DisplayMode::Block),
            1 => Some(DisplayMode::Flex),
            2 => Some(DisplayMode::Grid),
            3 => Some(DisplayMode::Hidden),
            _ => None,
        }
    }

    /// The name under which the choice is shown.
    pub fn label(self) -> (r: &'static str)
        ensures
            r@ == self.label_spec(),
    {
        match self {
            DisplayMode::Block => "Block",
            DisplayMode::Flex => "Flex",
            DisplayMode::Grid => "Grid",
            DisplayMode::Hidden => "None",
        }
    }

    /// Position and choice determine each other.
    pub proof fn lemma_index_is_one_to_one(a: DisplayMode, b: DisplayMode)
        ensures
            a.index_spec() == b.index_spec() <==> a == b,
            a.index_spec() < Self::count_spec(),
    {
    }
}

/// Which box the size of a node measures.
#[derive(Clone, Copy, Debug, PartialEq, Eq, Structural)]
pub enum BoxSizingMode {
    ContentBox,
    BorderBox,
}

impl BoxSizingMode {
    /// How many choices the list has.
    pub open spec fn count_spec() -> nat {
        2
    }

    pub open spec fn index_spec(self) -> nat {
        match self {
            BoxSizingMode::ContentBox => 0,
            BoxSizingMode::BorderBox => 1,
        }
    }

    pub open spec fn label_spec(self) -> Seq<char> {
        match self {
            BoxSizingMode::ContentBox => "ContentBox"@,
            BoxSizingMode::BorderBox => "BorderBox"@,
        }
    }

    /// How many choices the list has.
    pub fn count() -> (r: usize)
        ensures
            r == Self::count_spec(),
    {
        2
    }

    /// The position of the choice in its list.
    pub fn index(self) -> (r: usize)
        ensures
            r == self.index_spec(),
            r < Self::count_spec(),
    {
        match self {
            BoxSizingMode::ContentBox => 0,
            BoxSizingMode::BorderBox => 1,
        }
    }

    /// The choice at position `index`; none at or past the end of the list.
    pub fn from_index(index: usize) -> (r: Option<BoxSizingMode>)
        ensures
            index < Self::count_spec() ==> r is Some && r->0.index_spec() == index,
            index >= Self::count_spec() ==> r is None,
    {
        match index {
            0 => Some(BoxSizingMode::ContentBox),
            1 => Some(BoxSizingMode::BorderBox),
            _ => None,
        }
    }

    /// The name under which the choice is shown.
    pub fn label(self) -> (r: &'static str)
        ensures
            r@ == self.label_spec(),
    {
        match self {
            BoxSizingMode::ContentBox => "ContentBox",
            BoxSizingMode::BorderBox => "BorderBox",
        }
    }

    /// Position and choice determine each other.
    pub proof fn lemma_index_is_one_to_one(a: BoxSizingMode, b: BoxSizingMode)
        ensures
            a.index_spec() == b.index_spec() <==> a == b,
            a.index_spec() < Self::count_spec(),
    {
    }
}

/// What happens to content that does not fit, on one axis.
#[derive(Clone, Copy, Debug, PartialEq, Eq, Structural)]
pub enum OverflowMode {
    Visible,
    Hidden,
    Scroll,
    Clip,
}

impl OverflowMode {
    /// How many choices the list has.
    pub open spec fn count_spec() -> nat {
        4
    }

    pub open spec fn index_spec(self) -> nat {
        match self {
            OverflowMode::Visible => 0,
            OverflowMode::Hidden => 1,
            OverflowMode::Scroll => 2,
            OverflowMode::Clip => 3,
        }
    }

    pub open spec fn label_spec(self) -> Seq<char> {
        match self {
            OverflowMode::Visible => "Visible"@,
            OverflowMode::Hidden => "Hidden"@,
            OverflowMode::Scroll => "Scroll"@,
            OverflowMode::Clip => "Clip"@,
        }
    }

    /// How many choices the list has.
    pub fn count() -> (r: usize)
        ensures
            r == Self::count_spec(),
    {
        4
    }

    /// The position of the choice in its list.
    pub fn index(self) -> (r: usize)
        ensures
            r == self.index_spec(),
            r < Self::count_spec(),
    {
        match self {
            OverflowMode::Visible => 0,
            OverflowMode::Hidden => 1,
            OverflowMode::Scroll => 2,
            OverflowMode::Clip => 3,
        }
    }

    /// The choice at position `index`; none at or past the end of the list.
    pub fn from_index(index: usize) -> (r: Option<OverflowMode>)
        ensures
            index < Self::count_spec() ==> r is Some && r->0.index_spec() == index,
            index >= Self::count_spec() ==> r is None,
    {
        match index {
            0 => Some(OverflowMode::Visible),
            1 => Some(OverflowMode::Hidden),
            2 => Some(OverflowMode::Scroll),
            3 => Some(OverflowMode::Clip),
            _ => None,
        }
    }

    /// The name under which the choice is shown.
    pub fn label(self) -> (r: &'static str)
        ensures
            r@ == self.label_spec(),
    {
        match self {
            OverflowMode::Visible => "Visible",
            OverflowMode::Hidden => "Hidden",
            OverflowMode::Scroll => "Scroll",
            OverflowMode::Clip => "Clip",
        }
    }

    /// Position and choice determine each other.
    pub proof fn lemma_index_is_one_to_one(a: OverflowMode, b: OverflowMode)
        ensures
            a.index_spec() == b.index_spec() <==> a == b,
            a.index_spec() < Self::count_spec(),
    {
    }
}

/// Whether a node takes part in the flow of its siblings.
#[derive(Clone, Copy, Debug, PartialEq, Eq, Structural)]
pub enum PositionMode {
    Relative,
    Absolute,
}

impl PositionMode {
    /// How many choices the list has.
    pub open spec fn count_spec() -> nat {
        2
    }

    pub open spec fn index_spec(self) -> nat {
        match self {
            PositionMode::Relative => 0,
            PositionMode::Absolute => 1,
        }
    }

    pub open spec fn label_spec(self) -> Seq<char> {
        match self {
            PositionMode::Relative => "Relative"@,
            PositionMode::Absolute => "Absolute"@,
        }
    }

    /// How many choices the list has.
    pub fn count() -> (r: usize)
        ensures
            r == Self::count_spec(),
    {
        2
    }

    /// The position of the choice in its list.
    pub fn index(self) -> (r: usize)
        ensures
            r == self.index_spec(),
            r < Self::count_spec(),
    {
        match self {
            PositionMode::Relative => 0,
            PositionMode::Absolute => 1,
        }
    }

    /// The choice at position `index`; none at or past the end of the list.
    pub fn from_index(index: usize) -> (r: Option<PositionMode>)
        ensures
            index < Self::count_spec() ==> r is Some && r->0.index_spec() == index,
            index >= Self::count_spec() ==> r is None,
    {
        match index {
            0 => Some(PositionMode::Relative),
            1 => Some(PositionMode::Absolute),
            _ => None,
        }
    }

    /// The name under which the choice is shown.
    pub fn label(self) -> (r: &'static str)
        ensures
            r@ == self.label_spec(),
    {
        match self {
            PositionMode::Relative => "Relative",
            PositionMode::Absolute => "Absolute",
        }
    }

    /// Position and choice determine each other.
    pub proof fn lemma_index_is_one_to_one(a: PositionMode, b: PositionMode)
        ensures
            a.index_spec() == b.index_spec() <==> a == b,
            a.index_spec() < Self::count_spec(),
    {
    }
}

/// How block children are aligned in their line.
#[derive(Clone, Copy, Debug, PartialEq, Eq, Structural)]
pub enum TextAlignMode {
    Auto,
    LegacyLeft,
    LegacyRight,
    LegacyCenter,
}

impl TextAlignMode {
    /// How many choices the list has.
    pub open spec fn count_spec() -> nat {
        4
    }

    pub open spec fn index_spec(self) -> nat {
        match self {
            TextAlignMode::Auto => 0,
            TextAlignMode::LegacyLeft => 1,
            TextAlignMode::LegacyRight => 2,
            TextAlignMode::LegacyCenter => 3,
        }
    }

    pub open spec fn label_spec(self) -> Seq<char> {
        match self {
            TextAlignMode::Auto => "Auto"@,
            TextAlignMode::LegacyLeft => "Left"@,
            TextAlignMode::LegacyRight => "Right"@,
            TextAlignMode::LegacyCenter => "Center"@,
        }
    }

    /// How many choices the list has.
    pub fn count() -> (r: usize)
        ensures
            r == Self::count_spec(),
    {
        4
    }

    /// The position of the choice in its list.
    pub fn index(self) -> (r: usize)
        ensures
            r == self.index_spec(),
            r < Self::count_spec(),
    {
        match self {
            TextAlignMode::Auto => 0,
            TextAlignMode::LegacyLeft => 1,
            TextAlignMode::LegacyRight => 2,
            TextAlignMode::LegacyCenter => 3,
        }
    }

    /// The choice at position `index`; none at or past the end of the list.
    pub fn from_index(index: usize) -> (r: Option<TextAlignMode>)
        ensures
            index < Self::count_spec() ==> r is Some && r->0.index_spec() == index,
            index >= Self::count_spec() ==> r is None,
    {
        match index {
            0 => Some(TextAlignMode::Auto),
            1 => Some(TextAlignMode::LegacyLeft),
            2 => Some(TextAlignMode::LegacyRight),
            3 => Some(TextAlignMode::LegacyCenter),
            _ => None,
        }
    }

    /// The name under which the choice is shown.
    pub fn label(self) -> (r: &'static str)
        ensures
            r@ == self.label_spec(),
    {
        match self {
            TextAlignMode::Auto => "Auto",
            TextAlignMode::LegacyLeft => "Left",
            TextAlignMode::LegacyRight => "Right",
            TextAlignMode::LegacyCenter => "Center",
        }
    }

    /// Position and choice determine each other.
    pub proof fn lemma_index_is_one_to_one(a: TextAlignMode, b: TextAlignMode)
        ensures
            a.index_spec() == b.index_spec() <==> a == b,
            a.index_spec() < Self::count_spec(),
    {
    }
}

/// Along which axis, and which way, flex children run.
#[derive(Clone, Copy, Debug, PartialEq, Eq, Structural)]
pub enum FlexDirectionMode {
    Row,
    Column,
    RowReverse,
    ColumnReverse,
}

impl FlexDirectionMode {
    /// How many choices the list has.
    pub open spec fn count_spec() -> nat {
        4
    }

    pub open spec fn index_spec(self) -> nat {
        match self {
            FlexDirectionMode::Row => 0,
            FlexDirectionMode::Column => 1,
            FlexDirectionMode::RowReverse => 2,
            FlexDirectionMode::ColumnReverse => 3,
        }
    }

    pub open spec fn label_spec(self) -> Seq<char> {
        match self {
            FlexDirectionMode::Row => "Row"@,
            FlexDirectionMode::Column => "Column"@,
            FlexDirectionMode::RowReverse => "RowReverse"@,
            FlexDirectionMode::ColumnReverse => "ColumnReverse"@,
        }
    }

    /// How many choices the list has.
    pub fn count() -> (r: usize)
        ensures
            r == Self::count_spec(),
    {
        4
    }

    /// The position of the choice in its list.
    pub fn index(self) -> (r: usize)
        ensures
            r == self.index_spec(),
            r < Self::count_spec(),
    {
        match self {
            FlexDirectionMode::Row => 0,
            FlexDirectionMode::Column => 1,
            FlexDirectionMode::RowReverse => 2,
            FlexDirectionMode::ColumnReverse => 3,
        }
    }

    /// The choice at position `index`; none at or past the end of the list.
    pub fn from_index(index: usize) -> (r: Option<FlexDirectionMode>)
        ensures
            index < Self::count_spec() ==> r is Some && r->0.index_spec() == index,
            index >= Self::count_spec() ==> r is None,
    {
        match index {
            0 => Some(FlexDirectionMode::Row),
            1 => Some(FlexDirectionMode::Column),
            2 => Some(FlexDirectionMode::RowReverse),
            3 => Some(FlexDirectionMode::ColumnReverse),
            _ => None,
        }
    }

    /// The name under which the choice is shown.
    pub fn label(self) -> (r: &'static str)
        ensures
            r@ == self.label_spec(),
    {
        match self {
            FlexDirectionMode::Row => "Row",
            FlexDirectionMode::Column => "Column",
            FlexDirectionMode::RowReverse => "RowReverse",
            FlexDirectionMode::ColumnReverse => "ColumnReverse",
        }
    }

    /// Position and choice determine each other.
    pub proof fn lemma_index_is_one_to_one(a: FlexDirectionMode, b: FlexDirectionMode)
        ensures
            a.index_spec() == b.index_spec() <==> a == b,
            a.index_spec() < Self::count_spec(),
    {
    }
}

/// Whether flex children wrap onto further lines.
#[derive(Clone, Copy, Debug, PartialEq, Eq, Structural)]
pub enum FlexWrapMode {
    NoWrap,
    Wrap,
    WrapReverse,
}

impl FlexWrapMode {
    /// How many choices the list has.
    pub open spec fn count_spec() -> nat {
        3
    }

    pub open spec fn index_spec(self) -> nat {
        match self {
            FlexWrapMode::NoWrap => 0,
            FlexWrapMode::Wrap => 1,
            FlexWrapMode::WrapReverse => 2,
        }
    }

    pub open spec fn label_spec(self) -> Seq<char> {
        match self {
            FlexWrapMode::NoWrap => "NoWrap"@,
            FlexWrapMode::Wrap => "Wrap"@,
            FlexWrapMode::WrapReverse => "WrapReverse"@,
        }
    }

    /// How many choices the list has.
    pub fn count() -> (r: usize)
        ensures
            r == Self::count_spec(),
    {
        3
    }

    /// The position of the choice in its list.
    pub fn index(self) -> (r: usize)
        ensures
            r == self.index_spec(),
            r < Self::count_spec(),
    {
        match self {
            FlexWrapMode::NoWrap => 0,
            FlexWrapMode::Wrap => 1,
            FlexWrapMode::WrapReverse => 2,
        }
    }

    /// The choice at position `index`; none at or past the end of the list.
    pub fn from_index(index: usize) -> (r: Option<FlexWrapMode>)
        ensures
            index < Self::count_spec() ==> r is Some && r->0.index_spec() == index,
            index >= Self::count_spec() ==> r is None,
    {
        match index {
            0 => Some(FlexWrapMode::NoWrap),
            1 => Some(FlexWrapMode::Wrap),
            2 => Some(FlexWrapMode::WrapReverse),
            _ => None,
        }
    }

    /// The name under which the choice is shown.
    pub fn label(self) -> (r: &'static str)
        ensures
            r@ == self.label_spec(),
    {
        match self {
            FlexWrapMode::NoWrap => "NoWrap",
            FlexWrapMode::Wrap => "Wrap",
            FlexWrapMode::WrapReverse => "WrapReverse",
        }
    }

    /// Position and choice determine each other.
    pub proof fn lemma_index_is_one_to_one(a: FlexWrapMode, b: FlexWrapMode)
        ensures
            a.index_spec() == b.index_spec() <==> a == b,
            a.index_spec() < Self::count_spec(),
    {
    }
}

/// How an item is aligned in its area: for the align-items, align-self, justify-items
/// and justify-self fields.
#[derive(Clone, Copy, Debug, PartialEq, Eq, Structural)]
pub enum ItemAlignment {
    Start,
    End,
    FlexStart,
    FlexEnd,
    Center,
    Baseline,
    Stretch,
}

impl ItemAlignment {
    /// How many choices the list has.
    pub open spec fn count_spec() -> nat {
        7
    }

    pub open spec fn index_spec(self) -> nat {
        match self {
            ItemAlignment::Start => 0,
            ItemAlignment::End => 1,
            ItemAlignment::FlexStart => 2,
            ItemAlignment::FlexEnd => 3,
            ItemAlignment::Center => 4,
            ItemAlignment::Baseline => 5,
            ItemAlignment::Stretch => 6,
        }
    }

    pub open spec fn label_spec(self) -> Seq<char> {
        match self {
            ItemAlignment::Start => "Start"@,
            ItemAlignment::End => "End"@,
            ItemAlignment::FlexStart => "FlexStart"@,
            ItemAlignment::FlexEnd => "FlexEnd"@,
            ItemAlignment::Center => "Center"@,
            ItemAlignment::Baseline => "Baseline"@,
            ItemAlignment::Stretch => "Stretch"@,
        }
    }

    /// How many choices the list has.
    pub fn count() -> (r: usize)
        ensures
            r == Self::count_spec(),
    {
        7
    }

    /// The position of the choice in its list.
    pub fn index(self) -> (r: usize)
        ensures
            r == self.index_spec(),
            r < Self::count_spec(),
    {
        match self {
            ItemAlignment::Start => 0,
            ItemAlignment::End => 1,
            ItemAlignment::FlexStart => 2,
            ItemAlignment::FlexEnd => 3,
            ItemAlignment::Center => 4,
            ItemAlignment::Baseline => 5,
            ItemAlignment::Stretch => 6,
        }
    }

    /// The choice at position `index`; none at or past the end of the list.
    pub fn from_index(index: usize) -> (r: Option<ItemAlignment>)
        ensures
            index < Self::count_spec() ==> r is Some && r->0.index_spec() == index,
            index >= Self::count_spec() ==> r is None,
    {
        match index {
            0 => Some(ItemAlignment::Start),
            1 => Some(ItemAlignment::End),
            2 => Some(ItemAlignment::FlexStart),
            3 => Some(ItemAlignment::FlexEnd),
            4 => Some(ItemAlignment::Center),
            5 => Some(ItemAlignment::Baseline),
            6 => Some(ItemAlignment::Stretch),
            _ => None,
        }
    }

    /// The name under which the choice is shown.
    pub fn label(self) -> (r: &'static str)
        ensures
            r@ == self.label_spec(),
    {
        match self {
            ItemAlignment::Start => "Start",
            ItemAlignment::End => "End",
            ItemAlignment::FlexStart => "FlexStart",
            ItemAlignment::FlexEnd => "FlexEnd",
            ItemAlignment::Center => "Center",
            ItemAlignment::Baseline => "Baseline",
            ItemAlignment::Stretch => "Stretch",
        }
    }

    /// Position and choice determine each other.
    pub proof fn lemma_index_is_one_to_one(a: ItemAlignment, b: ItemAlignment)
        ensures
            a.index_spec() == b.index_spec() <==> a == b,
            a.index_spec() < Self::count_spec(),
    {
    }

    /// The choice that an alignment field gets when it is switched on.
    pub fn when_enabled() -> (r: ItemAlignment)
        ensures
            r == ItemAlignment::Center,
    {
        ItemAlignment::Center
    }
}

/// How lines or tracks are spread in their container: for the align-content and
/// justify-content fields.
#[derive(Clone, Copy, Debug, PartialEq, Eq, Structural)]
pub enum ContentAlignment {
    Start,
    End,
    FlexStart,
    FlexEnd,
    Center,
    Stretch,
    SpaceBetween,
    SpaceEvenly,
    SpaceAround,
}

impl ContentAlignment {
    /// How many choices the list has.
    pub open spec fn count_spec() -> nat {
        9
    }

    pub open spec fn index_spec(self) -> nat {
        match self {
            ContentAlignment::Start => 0,
            ContentAlignment::End => 1,
            ContentAlignment::FlexStart => 2,
            ContentAlignment::FlexEnd => 3,
            ContentAlignment::Center => 4,
            ContentAlignment::Stretch => 5,
            ContentAlignment::SpaceBetween => 6,
            ContentAlignment::SpaceEvenly => 7,
            ContentAlignment::SpaceAround => 8,
        }
    }

    pub open spec fn label_spec(self) -> Seq<char> {
        match self {
            ContentAlignment::Start => "Start"@,
            ContentAlignment::End => "End"@,
            ContentAlignment::FlexStart => "FlexStart"@,
            ContentAlignment::FlexEnd => "FlexEnd"@,
            ContentAlignment::Center => "Center"@,
            ContentAlignment::Stretch => "Stretch"@,
            ContentAlignment::SpaceBetween => "SpaceBetween"@,
            ContentAlignment::SpaceEvenly => "SpaceEvenly"@,
            ContentAlignment::SpaceAround => "SpaceAround"@,
        }
    }

    /// How many choices the list has.
    pub fn count() -> (r: usize)
        ensures
            r == Self::count_spec(),
    {
        9
    }

    /// The position of the choice in its list.
    pub fn index(self) -> (r: usize)
        ensures
            r == self.index_spec(),
            r < Self::count_spec(),
    {
        match self {
            ContentAlignment::Start => 0,
            ContentAlignment::End => 1,
            ContentAlignment::FlexStart => 2,
            ContentAlignment::FlexEnd => 3,
            ContentAlignment::Center => 4,
            ContentAlignment::Stretch => 5,
            ContentAlignment::SpaceBetween => 6,
            ContentAlignment::SpaceEvenly => 7,
            ContentAlignment::SpaceAround => 8,
        }
    }

    /// The choice at position `index`; none at or past the end of the list.
    pub fn from_index(index: usize) -> (r: Option<ContentAlignment>)
        ensures
            index < Self::count_spec() ==> r is Some && r->0.index_spec() == index,
            index >= Self::count_spec() ==> r is None,
    {
        match index {
            0 => Some(ContentAlignment::Start),
            1 => Some(ContentAlignment::End),
            2 => Some(ContentAlignment::FlexStart),
            3 => Some(ContentAlignment::FlexEnd),
            4 => Some(ContentAlignment::Center),
            5 => Some(ContentAlignment::Stretch),
            6 => Some(ContentAlignment::SpaceBetween),
            7 => Some(ContentAlignment::SpaceEvenly),
            8 => Some(ContentAlignment::SpaceAround),
            _ => None,
        }
    }

    /// The name under which the choice is shown.
    pub fn label(self) -> (r: &'static str)
        ensures
            r@ == self.label_spec(),
    {
        match self {
            ContentAlignment::Start => "Start",
            ContentAlignment::End => "End",
            ContentAlignment::FlexStart => "FlexStart",
            ContentAlignment::FlexEnd => "FlexEnd",
            ContentAlignment::Center => "Center",
            ContentAlignment::Stretch => "Stretch",
            ContentAlignment::SpaceBetween => "SpaceBetween",
            ContentAlignment::SpaceEvenly => "SpaceEvenly",
            ContentAlignment::SpaceAround => "SpaceAround",
        }
    }

    /// Position and choice determine each other.
    pub proof fn lemma_index_is_one_to_one(a: ContentAlignment, b: ContentAlignment)
        ensures
            a.index_spec() == b.index_spec() <==> a == b,
            a.index_spec() < Self::count_spec(),
    {
    }

    /// The choice that an alignment field gets when it is switched on.
    pub fn when_enabled() -> (r: ContentAlignment)
        ensures
            r == ContentAlignment::Center,
    {
        ContentAlignment::Center
    }
}

/// Which case a length-or-percentage value is.
#[derive(Clone, Copy, Debug, PartialEq, Eq, Structural)]
pub enum LengthKind {
    Length,
    Percent,
}

impl LengthKind {
    /// How many choices the list has.
    pub open spec fn count_spec() -> nat {
        2
    }

    pub open spec fn index_spec(self) -> nat {
        match self {
            LengthKind::Length => 0,
            LengthKind::Percent => 1,
        }
    }

    pub open spec fn label_spec(self) -> Seq<char> {
        match self {
            LengthKind::Length => "Length"@,
            LengthKind::Percent => "Percent"@,
        }
    }

    /// How many choices the list has.
    pub fn count() -> (r: usize)
        ensures
            r == Self::count_spec(),
    {
        2
    }

    /// The position of the choice in its list.
    pub fn index(self) -> (r: usize)
        ensures
            r == self.index_spec(),
            r < Self::count_spec(),
    {
        match self {
            LengthKind::Length => 0,
            LengthKind::Percent => 1,
        }
    }

    /// The choice at position `index`; none at or past the end of the list.
    pub fn from_index(index: usize) -> (r: Option<LengthKind>)
        ensures
            index < Self::count_spec() ==> r is Some && r->0.index_spec() == index,
            index >= Self::count_spec() ==> r is None,
    {
        match index {
            0 => Some(LengthKind::Length),
            1 => Some(LengthKind::Percent),
            _ => None,
        }
    }

    /// The name under which the choice is shown.
    pub fn label(self) -> (r: &'static str)
        ensures
            r@ == self.label_spec(),
    {
        match self {
            LengthKind::Length => "Length",
            LengthKind::Percent => "Percent",
        }
    }

    /// Position and choice determine each other.
    pub proof fn lemma_index_is_one_to_one(a: LengthKind, b: LengthKind)
        ensures
            a.index_spec() == b.index_spec() <==> a == b,
            a.index_spec() < Self::count_spec(),
    {
    }
}

/// Which case a length, percentage or automatic value is.
#[derive(Clone, Copy, Debug, PartialEq, Eq, Structural)]
pub enum DimensionKind {
    Length,
    Percent,
    Auto,
}

impl DimensionKind {
    /// How many choices the list has.
    pub open spec fn count_spec() -> nat {
        3
    }

    pub open spec fn index_spec(self) -> nat {
        match self {
            DimensionKind::Length => 0,
            DimensionKind::Percent => 1,
            DimensionKind::Auto => 2,
        }
    }

    pub open spec fn label_spec(self) -> Seq<char> {
        match self {
            DimensionKind::Length => "Length"@,
            DimensionKind::Percent => "Percent"@,
            DimensionKind::Auto => "Auto"@,
        }
    }

    /// How many choices the list has.
    pub fn count() -> (r: usize)
        ensures
            r == Self::count_spec(),
    {
        3
    }

    /// The position of the choice in its list.
    pub fn index(self) -> (r: usize)
        ensures
            r == self.index_spec(),
            r < Self::count_spec(),
    {
        match self {
            DimensionKind::Length => 0,
            DimensionKind::Percent => 1,
            DimensionKind::Auto => 2,
        }
    }

    /// The choice at position `index`; none at or past the end of the list.
    pub fn from_index(index: usize) -> (r: Option<DimensionKind>)
        ensures
            index < Self::count_spec() ==> r is Some && r->0.index_spec() == index,
            index >= Self::count_spec() ==> r is None,
    {
        match index {
            0 => Some(DimensionKind::Length),
            1 => Some(DimensionKind::Percent),
            2 => Some(DimensionKind::Auto),
            _ => None,
        }
    }

    /// The name under which the choice is shown.
    pub fn label(self) -> (r: &'static str)
        ensures
            r@ == self.label_spec(),
    {
        match self {
            DimensionKind::Length => "Length",
            DimensionKind::Percent => "Percent",
            DimensionKind::Auto => "Auto",
        }
    }

    /// Position and choice determine each other.
    pub proof fn lemma_index_is_one_to_one(a: DimensionKind, b: DimensionKind)
        ensures
            a.index_spec() == b.index_spec() <==> a == b,
            a.index_spec() < Self::count_spec(),
    {
    }

    /// Whether the case holds a number: every case but `Auto`.
    pub fn carries_value(self) -> (r: bool)
        ensures
            r == (self != DimensionKind::Auto),
    {
        match self {
            DimensionKind::Auto => false,
            _ => true,
        }
    }
}

/// Which case the upper sizing function of a grid track is.
#[derive(Clone, Copy, Debug, PartialEq, Eq, Structural)]
pub enum MaxTrackKind {
    Fixed,
    MinContent,
    MaxContent,
    FitContent,
    Auto,
    Fraction,
}

impl MaxTrackKind {
    /// How many choices the list has.
    pub open spec fn count_spec() -> nat {
        6
    }

    pub open spec fn index_spec(self) -> nat {
        match self {
            MaxTrackKind::Fixed => 0,
            MaxTrackKind::MinContent => 1,
            MaxTrackKind::MaxContent => 2,
            MaxTrackKind::FitContent => 3,
            MaxTrackKind::Auto => 4,
            MaxTrackKind::Fraction => 5,
        }
    }

    pub open spec fn label_spec(self) -> Seq<char> {
        match self {
            MaxTrackKind::Fixed => "Fixed"@,
            MaxTrackKind::MinContent => "MinContent"@,
            MaxTrackKind::MaxContent => "MaxContent"@,
            MaxTrackKind::FitContent => "FitContent"@,
            MaxTrackKind::Auto => "Auto"@,
            MaxTrackKind::Fraction => "Fraction"@,
        }
    }

    /// How many choices the list has.
    pub fn count() -> (r: usize)
        ensures
            r == Self::count_spec(),
    {
        6
    }

    /// The position of the choice in its list.
    pub fn index(self) -> (r: usize)
        ensures
            r == self.index_spec(),
            r < Self::count_spec(),
    {
        match self {
            MaxTrackKind::Fixed => 0,
            MaxTrackKind::MinContent => 1,
            MaxTrackKind::MaxContent => 2,
            MaxTrackKind::FitContent => 3,
            MaxTrackKind::Auto => 4,
            MaxTrackKind::Fraction => 5,
        }
    }

    /// The choice at position `index`; none at or past the end of the list.
    pub fn from_index(index: usize) -> (r: Option<MaxTrackKind>)
        ensures
            index < Self::count_spec() ==> r is Some && r->0.index_spec() == index,
            index >= Self::count_spec() ==> r is None,
    {
        match index {
            0 => Some(MaxTrackKind::Fixed),
            1 => Some(MaxTrackKind::MinContent),
            2 => Some(MaxTrackKind::MaxContent),
            3 => Some(MaxTrackKind::FitContent),
            4 => Some(MaxTrackKind::Auto),
            5 => Some(MaxTrackKind::Fraction),
            _ => None,
        }
    }

    /// The name under which the choice is shown.
    pub fn label(self) -> (r: &'static str)
        ensures
            r@ == self.label_spec(),
    {
        match self {
            MaxTrackKind::Fixed => "Fixed",
            MaxTrackKind::MinContent => "MinContent",
            MaxTrackKind::MaxContent => "MaxContent",
            MaxTrackKind::FitContent => "FitContent",
            MaxTrackKind::Auto => "Auto",
            MaxTrackKind::Fraction => "Fraction",
        }
    }

    /// Position and choice determine each other.
    pub proof fn lemma_index_is_one_to_one(a: MaxTrackKind, b: MaxTrackKind)
        ensures
            a.index_spec() == b.index_spec() <==> a == b,
            a.index_spec() < Self::count_spec(),
    {
    }

    /// Whether the case holds a length or percentage: `Fixed` and `FitContent`.
    pub fn carries_length(self) -> (r: bool)
        ensures
            r == (self == MaxTrackKind::Fixed || self == MaxTrackKind::FitContent),
    {
        match self {
            MaxTrackKind::Fixed => true,
            MaxTrackKind::FitContent => true,
            _ => false,
        }
    }

    /// Whether the case holds a fraction of the free space: `Fraction`.
    pub fn carries_fraction(self) -> (r: bool)
        ensures
            r == (self == MaxTrackKind::Fraction),
    {
        match self {
            MaxTrackKind::Fraction => true,
            _ => false,
        }
    }
}

/// Which case the lower sizing function of a grid track is.
#[derive(Clone, Copy, Debug, PartialEq, Eq, Structural)]
pub enum MinTrackKind {
    Fixed,
    MinContent,
    MaxContent,
    Auto,
}

impl MinTrackKind {
    /// How many choices the list has.
    pub open spec fn count_spec() -> nat {
        4
    }

    pub open spec fn index_spec(self) -> nat {
        match self {
            MinTrackKind::Fixed => 0,
            MinTrackKind::MinContent => 1,
            MinTrackKind::MaxContent => 2,
            MinTrackKind::Auto => 3,
        }
    }

    pub open spec fn label_spec(self) -> Seq<char> {
        match self {
            MinTrackKind::Fixed => "Fixed"@,
            MinTrackKind::MinContent => "MinContent"@,
            MinTrackKind::MaxContent => "MaxContent"@,
            MinTrackKind::Auto => "Auto"@,
        }
    }

    /// How many choices the list has.
    pub fn count() -> (r: usize)
        ensures
            r == Self::count_spec(),
    {
        4
    }

    /// The position of the choice in its list.
    pub fn index(self) -> (r: usize)
        ensures
            r == self.index_spec(),
            r < Self::count_spec(),
    {
        match self {
            MinTrackKind::Fixed => 0,
            MinTrackKind::MinContent => 1,
            MinTrackKind::MaxContent => 2,
            MinTrackKind::Auto => 3,
        }
    }

    /// The choice at position `index`; none at or past the end of the list.
    pub fn from_index(index: usize) -> (r: Option<MinTrackKind>)
        ensures
            index < Self::count_spec() ==> r is Some && r->0.index_spec() == index,
            index >= Self::count_spec() ==> r is None,
    {
        match index {
            0 => Some(MinTrackKind::Fixed),
            1 => Some(MinTrackKind::MinContent),
            2 => Some(MinTrackKind::MaxContent),
            3 => Some(MinTrackKind::Auto),
            _ => None,
        }
    }

    /// The name under which the choice is shown.
    pub fn label(self) -> (r: &'static str)
        ensures
            r@ == self.label_spec(),
    {
        match self {
            MinTrackKind::Fixed => "Fixed",
            MinTrackKind::MinContent => "MinContent",
            MinTrackKind::MaxContent => "MaxContent",
            MinTrackKind::Auto => "Auto",
        }
    }

    /// Position and choice determine each other.
    pub proof fn lemma_index_is_one_to_one(a: MinTrackKind, b: MinTrackKind)
        ensures
            a.index_spec() == b.index_spec() <==> a == b,
            a.index_spec() < Self::count_spec(),
    {
    }

    /// Whether the form lets the length be edited: it does so for
    /// `MinContent`.
    pub fn length_is_editable(self) -> (r: bool)
        ensures
            r == (self == MinTrackKind::MinContent),
    {
        match self {
            MinTrackKind::MinContent => true,
            _ => false,
        }
    }
}

} // verus!
