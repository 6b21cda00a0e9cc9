//! Drawable primitives: what a renderer hands to a display surface.

use vstd::prelude::*;
use crate::plot::Color;

verus! {

/// A position on the canvas, in fixed-point pixels. The origin is the top
/// left corner and `y` grows downward.
#[derive(Debug, Clone, Copy, PartialEq, Eq, Structural)]
pub struct Point {
    pub x: i64,
    pub y: i64,
}

/// Where a text sits relative to its position, horizontally.
#[derive(Debug, Clone, Copy, PartialEq, Eq, Structural)]
pub enum HorizontalAlignment {
    Left,
    Center,
    Right,
}

/// Where a text sits relative to its position, vertically.
#[derive(Debug, Clone, Copy, PartialEq, Eq, Structural)]
pub enum VerticalAlignment {
    Top,
    Center,
    Bottom,
}

/// What a text primitive shows.
#[derive(Debug, PartialEq, Eq)]
pub enum Label {
    /// A scalar, to be written with the given number of decimals.
    Number { value: i64, decimals: u32 },
    /// A fixed text.
    Text(String),
}

/// One drawable item.
#[derive(Debug, PartialEq, Eq)]
pub enum Primitive {
    /// A stroked segment.
    Line { from: Point, to: Point, color: Color, width: i64 },
    /// A filled and stroked quadrilateral, its corners in drawing order.
    Quad { corners: (Point, Point, Point, Point), fill: Color, stroke: Color, width: i64 },
    /// A filled circle.
    Circle { center: Point, radius: i64, fill: Color },
    /// A text.
    Text {
        position: Point,
        label: Label,
        size: i64,
        horizontal: HorizontalAlignment,
        vertical: VerticalAlignment,
    },
}

} // verus!
