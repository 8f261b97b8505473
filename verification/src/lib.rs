//! Renders achievement-style boards: a background image carrying a grid of
//! themed tiles, each tile showing an icon, a number and a name.
//!
//! Pixel buffers are `ril` images. Everything the renderer decides itself
//! (layout arithmetic, scaling, colour transforms, the order of compositing)
//! is verified; the pixel-level work done by `ril` is described by the
//! contracts in [`canvas`].

pub mod palette;
pub mod canvas;
pub mod error;
pub mod text;
pub mod tile;
pub mod board;
pub mod builder;
pub mod images;
