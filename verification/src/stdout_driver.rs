//! A terminal as a panel: two rows of pixels share a line of text.
use vstd::prelude::*;
use crate::geometry::{Point, Rectangle, Size};

verus! {

/// The line and the column of the terminal, both counted from one, that
/// show the pixel `(x, y)`.
pub fn screen_position(x: i32, y: i32) -> (place: (i32, i32))
    requires
        0 <= x < i32::MAX,
        0 <= y,
    ensures
        place.0 == y / 2 + 1,
        place.1 == x + 1,
{
    (y / 2 + 1, x + 1)
}

/// Whether the rows of `rect` can be widened to whole lines: it starts at
/// no negative row and ends within the range of coordinates.
pub open spec fn can_align(rect: Rectangle) -> bool {
    0 <= rect.top_left.y && rect.top_left.y + rect.size.height < i32::MAX
}

/// Tells whether `even_rows` can widen `rect`.
pub fn fits_lines(rect: &Rectangle) -> (fits: bool)
    ensures
        fits == can_align(*rect),
{
    rect.top_left.y >= 0 && (rect.top_left.y as i64 + rect.size.height as i64) < 2147483647
}

/// The rectangle widened to whole lines of text: it starts at the even row
/// at or above the top of `rect` and ends at the even row at or below its
/// bottom.
pub fn even_rows(rect: Rectangle) -> (lines: Rectangle)
    requires
        can_align(rect),
    ensures
        lines.top_left.x == rect.top_left.x,
        lines.size.width == rect.size.width,
        lines.top_left.y % 2 == 0,
        (lines.top_left.y + lines.size.height) % 2 == 0,
        rect.top_left.y - 1 <= lines.top_left.y <= rect.top_left.y,
        rect.top_left.y + rect.size.height <= lines.top_left.y + lines.size.height
            <= rect.top_left.y + rect.size.height + 1,
{
    let y0: i64 = (rect.top_left.y as i64 / 2) * 2;
    let mut y1: i64 = rect.top_left.y as i64 + rect.size.height as i64;
    if y1 % 2 != 0 {
        y1 = y1 + 1;
    }
    Rectangle {
        top_left: Point { x: rect.top_left.x, y: y0 as i32 },
        size: Size { width: rect.size.width, height: (y1 - y0) as u32 },
    }
}

} // verus!
