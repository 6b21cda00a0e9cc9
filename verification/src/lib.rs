//! A plotting toolkit's geometry core in fixed-point arithmetic: sample grids,
//! coordinate windows that map data values to pixels, axis models, a colour
//! ramp, a look-at camera with an interactive rotation state machine, and the
//! scene builders that turn a plot into a list of drawable primitives.
//!
//! Every scalar is an `i64` counting millionths (see [`fixed::ONE`]).

pub mod fixed;
pub mod plot;
pub mod math;
pub mod mesh;
pub mod vector;
pub mod scene;
pub mod window_3d;
pub mod window;
