//! An inspector for a hierarchical layout tree: an arena of styled nodes, a
//! z-order-aware hit tester, a box-model renderer that lists what to paint,
//! and the editing session that keeps a selection alive across mutations.
//!
//! - `tree`: the arena, its handles and its mutations;
//! - `model`: the mathematical model of the arena and the laws of the tree;
//! - `geometry`: integer rectangles, insets and the four nested boxes;
//! - `order`: the order in which siblings are visited;
//! - `hit`: which node a pointer position applies to;
//! - `paint`: what to paint, in which order;
//! - `engine`: the layout engine, `taffy`, behind the few facts believed of it;
//! - `editor`: the session, with the selection and its repair;
//! - `choices`: the lists of choices that the property form offers;
//! - `style`: the style record, which is the engine's own.
//!
//! Lengths and coordinates are whole numbers in the unit of the drawing
//! region. After any change to the tree or to a style, the layout has to be
//! computed again before a hit test or a painting pass reads it.

pub mod choices;
pub mod editor;
pub mod engine;
pub mod geometry;
pub mod hit;
pub mod model;
pub mod order;
pub mod paint;
pub mod style;
pub mod tree;
