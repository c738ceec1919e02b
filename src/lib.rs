//! A pannable, zoomable view of the plane, in fixed-point coordinates.
//!
//! Mathematical coordinates are integers counting millionths of a unit
//! (`view::UNIT` stands for `1.0`). The renderers turn a `view::View` into a
//! list of pixel-space primitives that a rasterizer then draws.
pub mod view;
pub mod draw;
pub mod grid;
pub mod plot;
pub mod input;
pub mod frame;
