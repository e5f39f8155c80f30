//! The style record of a node. It is the layout engine's own type: the tree
//! stores it, hands it back and passes it to the engine, and never looks
//! inside.

use vstd::prelude::*;
use crate::choices::DisplayMode;

verus! {

/// `taffy::Style`, carried as an opaque value.
#[verifier::external_type_specification]
#[verifier::external_body]
pub struct ExStyle(taffy::Style);

/// `Clone::clone` of `taffy::Style`, which `taffy` derives. Believed: the
/// copy equals the style it was made from, field for field.
pub assume_specification[ <taffy::Style as Clone>::clone ](style: &taffy::Style) -> (copy: taffy::Style)
    ensures
        copy == *style,
;

/// The display mode that a style holds.
pub uninterp spec fn style_display(style: taffy::Style) -> DisplayMode;

/// Reads the field `display` of a style and tells its four variants apart.
/// Believed: the answer is the display mode that the style holds, which is
/// all that the name `style_display` says.
#[verifier::external_body]
pub(crate) fn read_display(style: &taffy::Style) -> (r: DisplayMode)
    ensures
        r == style_display(*style),
{
    match style.display {
        taffy::Display::Block => DisplayMode::Block,
        taffy::Display::Flex => DisplayMode::Flex,
        taffy::Display::Grid => DisplayMode::Grid,
        taffy::Display::None => DisplayMode::Hidden,
    }
}

} // verus!
