//! Renders a JSON document as a text diagram: an indented tree with branch
//! and leaf connector glyphs, or a bordered rectangular box, with a
//! configurable pair of icon glyphs marking branch and leaf nodes.
//!
//! The rendering engine works in passes over a rectangular character grid:
//! a sizing pass determines the grid's dimensions, a fill pass writes key
//! and value text, and a decoration pass draws connectors, icons and (for
//! the rectangle style) a border frame.

pub mod value;
pub mod grid;
pub mod writer;
pub mod sizer;
pub mod tree;
pub mod rect;
pub mod icon;
pub mod render;
