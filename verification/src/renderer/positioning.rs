//! Anchoring of a rectangle at a position.
use vstd::prelude::*;
use crate::geometry::{Point, Size};

verus! {

/// Which edge of a rectangle, or its middle, lies at the anchor's row.
#[derive(Debug, Clone, Copy, PartialEq, Eq, PartialOrd, Ord, Hash, Structural)]
pub enum VerticalAlignment {
    Top,
    Middle,
    Bottom,
}

/// Which edge of a rectangle, or its centre, lies at the anchor's column.
#[derive(Debug, Clone, Copy, PartialEq, Eq, PartialOrd, Ord, Hash, Structural)]
pub enum HorizontalAlignment {
    Left,
    Center,
    Right,
}

/// The direction in which the cells of a progress bar are counted.
#[derive(Debug, Clone, Copy, PartialEq, Eq, PartialOrd, Ord, Hash, Structural)]
pub enum Direction {
    Horizontal,
    Vertical,
}

/// How far the left edge of a rectangle of the given width lies before its
/// anchor.
pub open spec fn horizontal_offset(width: u32, halign: Option<HorizontalAlignment>) -> int {
    match halign {
        None | Some(HorizontalAlignment::Left) => 0,
        Some(HorizontalAlignment::Center) => width as int / 2,
        Some(HorizontalAlignment::Right) => width as int,
    }
}

/// How far the top edge of a rectangle of the given height lies above its
/// anchor.
pub open spec fn vertical_offset(height: u32, valign: Option<VerticalAlignment>) -> int {
    match valign {
        None | Some(VerticalAlignment::Top) => 0,
        Some(VerticalAlignment::Middle) => height as int / 2,
        Some(VerticalAlignment::Bottom) => height as int,
    }
}

/// Whether the top-left corner of the anchored rectangle fits the 32-bit
/// coordinates of a point.
pub open spec fn can_place(
    s: Size,
    halign: Option<HorizontalAlignment>,
    valign: Option<VerticalAlignment>,
    pos: Point,
) -> bool {
    &&& i32::MIN <= pos.x - horizontal_offset(s.width, halign)
    &&& i32::MIN <= pos.y - vertical_offset(s.height, valign)
}

/// Tells whether `place_rectangle` can place the rectangle.
pub fn fits_placement(
    s: Size,
    halign: Option<HorizontalAlignment>,
    valign: Option<VerticalAlignment>,
    pos: Point,
) -> (fits: bool)
    ensures
        fits == can_place(s, halign, valign, pos),
{
    let dx: i64 = match halign {
        None | Some(HorizontalAlignment::Left) => 0,
        Some(HorizontalAlignment::Center) => (s.width / 2) as i64,
        Some(HorizontalAlignment::Right) => s.width as i64,
    };
    let dy: i64 = match valign {
        None | Some(VerticalAlignment::Top) => 0,
        Some(VerticalAlignment::Middle) => (s.height / 2) as i64,
        Some(VerticalAlignment::Bottom) => s.height as i64,
    };
    pos.x as i64 - dx >= i32::MIN as i64 && pos.y as i64 - dy >= i32::MIN as i64
}

/// The top-left corner of a rectangle of size `s` that is anchored at `pos`:
/// with its left edge, centre or right edge at the column of `pos`, and with
/// its top edge, middle or bottom edge at the row of `pos`.
pub fn place_rectangle(
    s: Size,
    halign: Option<HorizontalAlignment>,
    valign: Option<VerticalAlignment>,
    pos: Point,
) -> (corner: Point)
    requires
        can_place(s, halign, valign, pos),
    ensures
        corner.x == pos.x - horizontal_offset(s.width, halign),
        corner.y == pos.y - vertical_offset(s.height, valign),
{
    let dx: i64 = match halign {
        None | Some(HorizontalAlignment::Left) => 0,
        Some(HorizontalAlignment::Center) => (s.width / 2) as i64,
        Some(HorizontalAlignment::Right) => s.width as i64,
    };
    let dy: i64 = match valign {
        None | Some(VerticalAlignment::Top) => 0,
        Some(VerticalAlignment::Middle) => (s.height / 2) as i64,
        Some(VerticalAlignment::Bottom) => s.height as i64,
    };
    Point { x: (pos.x as i64 - dx) as i32, y: (pos.y as i64 - dy) as i32 }
}

} // verus!
