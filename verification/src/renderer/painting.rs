//! The model of drawing: what a canvas looks like after a run of pixels was
//! painted through a frame.
use vstd::prelude::*;
use crate::binary_framebuffer::lemma_pixel_index;
use crate::geometry::Rectangle;

verus! {

/// A pixel that a primitive wants painted: a place in the coordinates of the
/// frame it is drawn into, and the bit to write there. A dot without ink is
/// transparent and leaves the canvas as it is.
pub struct Dot {
    pub x: int,
    pub y: int,
    pub ink: Option<bool>,
}

/// Where a frame lies on the canvas and how it is turned.
///
/// `outer` is the place of the frame on the canvas, `inner` is the area that
/// the content of the frame sees, and `rotation` counts quarter turns.
pub struct Placement {
    pub outer: Rectangle,
    pub inner: Rectangle,
    pub rotation: int,
}

impl Placement {
    /// The place on the canvas of the point `(x, y)` of the frame, or `None`
    /// where the point lies outside the inner area.
    pub open spec fn map_point(self, x: int, y: int) -> Option<(int, int)> {
        let w = self.inner.size.width as int;
        let h = self.inner.size.height as int;
        let ox = self.outer.top_left.x as int;
        let oy = self.outer.top_left.y as int;
        if x < 0 || y < 0 || x >= w || y >= h {
            None
        } else if self.rotation == 0 {
            Some((x + ox, y + oy))
        } else if self.rotation == 1 {
            Some((y + ox, w - x + oy))
        } else if self.rotation == 2 {
            Some((w - x + ox, h - y + oy))
        } else if self.rotation == 3 {
            Some((h - y + ox, x + oy))
        } else {
            None
        }
    }

    /// The canvas of `width` by `height` pixels after the bit `on` was
    /// written at the point `(x, y)` of the frame. A point that falls outside
    /// the frame or outside the canvas changes nothing.
    pub open spec fn plot(
        self,
        canvas: Seq<bool>,
        width: int,
        height: int,
        x: int,
        y: int,
        on: bool,
    ) -> Seq<bool> {
        match self.map_point(x, y) {
            Some((ax, ay)) => if 0 <= ax < width && 0 <= ay < height {
                canvas.update(ay * width + ax, on)
            } else {
                canvas
            },
            None => canvas,
        }
    }

    /// The canvas after one dot.
    pub open spec fn stamp(
        self,
        canvas: Seq<bool>,
        width: int,
        height: int,
        dot: Dot,
    ) -> Seq<bool> {
        match dot.ink {
            Some(on) => self.plot(canvas, width, height, dot.x, dot.y, on),
            None => canvas,
        }
    }

    /// The canvas after the dots were painted one after the other; a later
    /// dot paints over an earlier one.
    pub open spec fn paint(
        self,
        canvas: Seq<bool>,
        width: int,
        height: int,
        dots: Seq<Dot>,
    ) -> Seq<bool>
        decreases dots.len(),
    {
        if dots.len() == 0 {
            canvas
        } else {
            self.stamp(
                self.paint(canvas, width, height, dots.drop_last()),
                width,
                height,
                dots.last(),
            )
        }
    }

    /// Painting never changes the number of pixels of the canvas.
    pub proof fn lemma_paint_len(self, canvas: Seq<bool>, width: int, height: int, dots: Seq<Dot>)
        requires
            canvas.len() == width * height,
        ensures
            self.paint(canvas, width, height, dots).len() == canvas.len(),
        decreases dots.len(),
    {
        if dots.len() > 0 {
            self.lemma_paint_len(canvas, width, height, dots.drop_last());
            let before = self.paint(canvas, width, height, dots.drop_last());
            assert(self.paint(canvas, width, height, dots) == self.stamp(
                before,
                width,
                height,
                dots.last(),
            ));
            match self.map_point(dots.last().x, dots.last().y) {
                Some((ax, ay)) => {
                    if 0 <= ax < width && 0 <= ay < height {
                        lemma_pixel_index(ax, ay, width, height);
                    }
                },
                None => {},
            }
            assert(self.stamp(before, width, height, dots.last()).len() == before.len());
        }
    }

    /// One more dot is painted on top of what was painted before.
    pub proof fn lemma_paint_next(
        self,
        canvas: Seq<bool>,
        width: int,
        height: int,
        dots: Seq<Dot>,
        n: int,
    )
        requires
            0 <= n < dots.len(),
        ensures
            self.paint(canvas, width, height, dots.take(n + 1)) == self.stamp(
                self.paint(canvas, width, height, dots.take(n)),
                width,
                height,
                dots[n],
            ),
    {
        assert(dots.take(n + 1).drop_last() =~= dots.take(n));
    }

    /// Painting two runs of dots in a row is painting their concatenation.
    pub proof fn lemma_paint_concat(
        self,
        canvas: Seq<bool>,
        width: int,
        height: int,
        first: Seq<Dot>,
        second: Seq<Dot>,
    )
        ensures
            self.paint(canvas, width, height, first + second) == self.paint(
                self.paint(canvas, width, height, first),
                width,
                height,
                second,
            ),
        decreases second.len(),
    {
        if second.len() == 0 {
            assert(first + second =~= first);
        } else {
            self.lemma_paint_concat(canvas, width, height, first, second.drop_last());
            assert((first + second).drop_last() =~= first + second.drop_last());
        }
    }
}

/// The column of the cell `index` of a grid that is `width` cells wide and
/// counted row by row.
pub open spec fn cell_x(index: int, width: int) -> int {
    index % width
}

/// The row of the cell `index` of a grid that is `width` cells wide.
pub open spec fn cell_y(index: int, width: int) -> int {
    index / width
}

/// The cell `(x, y)` of a grid has the index `y * width + x`, and the cell
/// after the last one of a row is the first one of the next row.
pub proof fn lemma_grid_index(x: int, y: int, width: int, height: int)
    requires
        0 <= x < width,
        0 <= y < height,
    ensures
        0 <= y * width + x < width * height,
        cell_x(y * width + x, width) == x,
        cell_y(y * width + x, width) == y,
        y * width + width == (y + 1) * width,
        (y + 1) * width <= width * height,
{
    lemma_pixel_index(x, y, width, height);
    assert(y * width + width == (y + 1) * width) by (nonlinear_arith);
    assert((y + 1) * width <= width * height) by (nonlinear_arith)
        requires
            0 <= y < height,
            0 <= width,
    ;
}

/// A grid without rows or without columns has no cells.
pub proof fn lemma_grid_empty(width: int, height: int)
    requires
        0 <= width,
        0 <= height,
    ensures
        0 <= width * height,
        width == 0 || height == 0 ==> width * height == 0,
        0 * width == 0,
        height * width == width * height,
{
    assert(0 <= width * height) by (nonlinear_arith)
        requires
            0 <= width,
            0 <= height,
    ;
    assert(width == 0 || height == 0 ==> width * height == 0) by (nonlinear_arith);
    assert(height * width == width * height) by (nonlinear_arith);
}

} // verus!
