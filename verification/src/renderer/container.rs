//! Frames inside frames: a container places its content at an offset of its
//! parent and may turn it by quarter turns.
use vstd::prelude::*;
use crate::binary_framebuffer::{lemma_pixel_index, BinarisedColor, BinaryFrameBuffer, Pixel};
use crate::geometry::{Point, Rectangle, Size};
use crate::renderer::drawing_error::DrawingError;
use crate::renderer::image::ImageFile;
use crate::renderer::painting::{cell_x, cell_y, lemma_grid_empty, lemma_grid_index, Dot, Placement};
use crate::renderer::{
    draw, drawn_primitive, primitive_failure, reported, ColorFromTemplate, Primitive,
};

verus! {

/// A frame for further primitives: it lies at `position` in its parent, has
/// the given size, and may be turned by quarter turns.
#[derive(Debug, PartialEq)]
pub struct Container {
    pub position: Point,
    pub size: Size,
    pub rotate: Option<i32>,
    pub content: Option<Vec<Primitive>>,
}

impl Container {
    /// The place of the container in its parent.
    pub open spec fn bounds(&self) -> Rectangle {
        Rectangle { top_left: self.position, size: self.size }
    }

    /// The quarter turns of the container; none is zero.
    pub open spec fn turns(&self) -> i32 {
        match self.rotate {
            Some(rotate) => rotate,
            None => 0,
        }
    }
}

/// A view of a frame buffer through which content is drawn: it moves the
/// content to its place, turns it, and drops what falls outside.
#[derive(Debug, Clone, Copy)]
pub struct ShiftedDisplay {
    pub inner_bounds: Rectangle,
    pub outer_bounds: Rectangle,
    pub rotate: i32,
}

/// A quarter-turn count brought into the range `0 .. 4`.
pub open spec fn quarter_turns(rotate: int) -> int {
    rotate % 4
}

impl View for ShiftedDisplay {
    type V = Placement;

    open spec fn view(&self) -> Placement {
        Placement {
            outer: self.outer_bounds,
            inner: self.inner_bounds,
            rotation: self.rotate as int,
        }
    }
}

impl ShiftedDisplay {
    /// The rotation is a count of quarter turns below four, and the inner
    /// area starts at the origin.
    pub open spec fn wf(&self) -> bool {
        &&& 0 <= self.rotate < 4
        &&& self.inner_bounds.top_left == (Point { x: 0, y: 0 })
    }

    /// The view that covers the whole of `display`, unturned.
    pub fn from<C>(display: &BinaryFrameBuffer<C>) -> (root: ShiftedDisplay)
        ensures
            root.wf(),
            root.rotate == 0,
            root.outer_bounds == (Rectangle {
                top_left: Point { x: 0, y: 0 },
                size: Size { width: display.spec_width(), height: display.spec_height() },
            }),
            root.inner_bounds == root.outer_bounds,
    {
        let size = display.dimensions();
        let bounds = Rectangle { top_left: Point { x: 0, y: 0 }, size };
        ShiftedDisplay { inner_bounds: bounds, outer_bounds: bounds, rotate: 0 }
    }

    /// Whether a child at `bounds` still has a corner that fits the
    /// coordinates of this view.
    pub open spec fn can_shift(&self, bounds: Rectangle) -> bool {
        &&& i32::MIN <= self.outer_bounds.top_left.x + bounds.top_left.x <= i32::MAX
        &&& i32::MIN <= self.outer_bounds.top_left.y + bounds.top_left.y <= i32::MAX
    }

    /// The view of a child that lies at `bounds` inside this view and is
    /// turned by `rotate` quarter turns more, as a value.
    pub open spec fn shifted(&self, bounds: Rectangle, rotate: i32) -> ShiftedDisplay {
        ShiftedDisplay {
            outer_bounds: Rectangle {
                top_left: Point {
                    x: (self.outer_bounds.top_left.x + bounds.top_left.x) as i32,
                    y: (self.outer_bounds.top_left.y + bounds.top_left.y) as i32,
                },
                size: bounds.size,
            },
            inner_bounds: Rectangle {
                top_left: Point { x: 0, y: 0 },
                size: if rotate % 2 == 0 {
                    bounds.size
                } else {
                    Size { width: bounds.size.height, height: bounds.size.width }
                },
            },
            rotate: quarter_turns(self.rotate + rotate) as i32,
        }
    }

    /// Tells whether `shift` can place a child at `bounds`.
    pub fn fits_shift(&self, bounds: &Rectangle) -> (fits: bool)
        ensures
            fits == self.can_shift(*bounds),
    {
        let x: i64 = self.outer_bounds.top_left.x as i64 + bounds.top_left.x as i64;
        let y: i64 = self.outer_bounds.top_left.y as i64 + bounds.top_left.y as i64;
        -2147483648 <= x && x <= 2147483647 && -2147483648 <= y && y <= 2147483647
    }

    /// The area that content drawn through this view can use.
    pub fn bounding_box(&self) -> (area: Rectangle)
        ensures
            area == self.inner_bounds,
    {
        self.inner_bounds
    }

    /// Writes the bit `on` at the point `(x, y)` of this view.
    pub fn draw_pixel<C>(&self, target: &mut BinaryFrameBuffer<C>, x: i64, y: i64, on: bool)
        requires
            self.wf(),
            old(target).wf(),
        ensures
            final(target).wf(),
            final(target).spec_width() == old(target).spec_width(),
            final(target).spec_height() == old(target).spec_height(),
            final(target)@ == self@.plot(
                old(target)@,
                old(target).spec_width() as int,
                old(target).spec_height() as int,
                x as int,
                y as int,
                on,
            ),
    {
        let w: i64 = self.inner_bounds.size.width as i64;
        let h: i64 = self.inner_bounds.size.height as i64;
        if x < 0 || y < 0 || x >= w || y >= h {
            return ;
        }
        let ox: i64 = self.outer_bounds.top_left.x as i64;
        let oy: i64 = self.outer_bounds.top_left.y as i64;
        let (ax, ay): (i64, i64) = if self.rotate == 0 {
            (x + ox, y + oy)
        } else if self.rotate == 1 {
            (y + ox, w - x + oy)
        } else if self.rotate == 2 {
            (w - x + ox, h - y + oy)
        } else {
            (h - y + ox, x + oy)
        };
        let width: i64 = target.width() as i64;
        let height: i64 = target.height() as i64;
        if 0 <= ax && ax < width && 0 <= ay && ay < height {
            proof {
                target.lemma_view();
                lemma_pixel_index(ax as int, ay as int, width as int, height as int);
                assert(ay * width <= 0xffff_ffff * 0xffff_ffff) by (nonlinear_arith)
                    requires
                        0 <= ay <= 0xffff_ffff,
                        0 <= width <= 0xffff_ffff,
                ;
            }
            let index: usize = (ay as u64 * width as u64 + ax as u64) as usize;
            target.set_bit(index, on);
        }
    }

    /// Draws the pixels one after the other through this view.
    pub fn draw_iter<C: BinarisedColor>(
        &self,
        target: &mut BinaryFrameBuffer<C>,
        pixels: &Vec<Pixel<C>>,
    )
        requires
            self.wf(),
            old(target).wf(),
        ensures
            final(target).wf(),
            final(target).spec_width() == old(target).spec_width(),
            final(target).spec_height() == old(target).spec_height(),
            final(target)@ == self@.paint(
                old(target)@,
                old(target).spec_width() as int,
                old(target).spec_height() as int,
                pixel_dots(pixels@),
            ),
    {
        let ghost dots = pixel_dots(pixels@);
        let ghost canvas = target@;
        let ghost w = target.spec_width() as int;
        let ghost h = target.spec_height() as int;
        let mut i: usize = 0;
        proof {
            assert(dots.take(0) =~= Seq::<Dot>::empty());
        }
        while i < pixels.len()
            invariant
                i <= pixels.len(),
                self.wf(),
                target.wf(),
                target.spec_width() == w,
                target.spec_height() == h,
                dots == pixel_dots(pixels@),
                target@ == self@.paint(canvas, w, h, dots.take(i as int)),
            decreases pixels.len() - i,
        {
            let on: bool = pixels[i].1.to_binary_color();
            proof {
                self@.lemma_paint_next(canvas, w, h, dots, i as int);
            }
            self.draw_pixel(target, pixels[i].0.x as i64, pixels[i].0.y as i64, on);
            i += 1;
        }
        proof {
            assert(dots.take(i as int) =~= dots);
        }
    }

    /// Fills the rectangle `area` of this view with the bit `on`.
    pub fn fill_solid<C>(&self, target: &mut BinaryFrameBuffer<C>, area: &Rectangle, on: bool)
        requires
            self.wf(),
            old(target).wf(),
        ensures
            final(target).wf(),
            final(target).spec_width() == old(target).spec_width(),
            final(target).spec_height() == old(target).spec_height(),
            final(target)@ == self@.paint(
                old(target)@,
                old(target).spec_width() as int,
                old(target).spec_height() as int,
                area_dots(*area, on),
            ),
    {
        let ghost dots = area_dots(*area, on);
        let ghost canvas = target@;
        let ghost w = target.spec_width() as int;
        let ghost h = target.spec_height() as int;
        let width: u32 = area.size.width;
        let height: u32 = area.size.height;
        let left: i64 = area.top_left.x as i64;
        let top: i64 = area.top_left.y as i64;
        proof {
            lemma_grid_empty(width as int, height as int);
            assert(dots.take(0) =~= Seq::<Dot>::empty());
        }
        let mut y: u32 = 0;
        while y < height
            invariant
                y <= height,
                width == area.size.width,
                height == area.size.height,
                left == area.top_left.x,
                top == area.top_left.y,
                self.wf(),
                target.wf(),
                target.spec_width() == w,
                target.spec_height() == h,
                dots == area_dots(*area, on),
                dots.len() == width * height,
                target@ == self@.paint(canvas, w, h, dots.take(y * width)),
            decreases height - y,
        {
            let mut x: u32 = 0;
            while x < width
                invariant
                    y < height,
                    x <= width,
                    width == area.size.width,
                    height == area.size.height,
                    left == area.top_left.x,
                    top == area.top_left.y,
                    self.wf(),
                    target.wf(),
                    target.spec_width() == w,
                    target.spec_height() == h,
                    dots == area_dots(*area, on),
                    dots.len() == width * height,
                    target@ == self@.paint(canvas, w, h, dots.take(y * width + x)),
                decreases width - x,
            {
                proof {
                    lemma_grid_index(x as int, y as int, width as int, height as int);
                    self@.lemma_paint_next(canvas, w, h, dots, y * width + x);
                }
                self.draw_pixel(target, left + x as i64, top + y as i64, on);
                x += 1;
            }
            proof {
                if width > 0 {
                    lemma_grid_index(0, y as int, width as int, height as int);
                } else {
                    lemma_grid_empty(width as int, y as int);
                    lemma_grid_empty(width as int, y + 1);
                }
            }
            y += 1;
        }
        proof {
            lemma_grid_empty(width as int, height as int);
            assert(dots.take(height * width) =~= dots);
        }
    }
}

/// A drawing surface inside which a child can be placed.
pub trait ShiftableDisplay: Sized {
    /// Whether a child at `bounds` can be placed.
    spec fn hosts(&self, bounds: Rectangle) -> bool;

    /// The view of the child at `bounds`, turned by `rotate` quarter turns.
    spec fn child(&self, bounds: Rectangle, rotate: i32) -> ShiftedDisplay;

    /// The view of a child that lies at `bounds` inside this surface and is
    /// turned by `rotate` quarter turns more.
    fn shift(&self, bounds: Rectangle, rotate: i32) -> (child: ShiftedDisplay)
        requires
            self.hosts(bounds),
        ensures
            child.wf(),
            child == self.child(bounds, rotate),
    ;
}

impl ShiftableDisplay for ShiftedDisplay {
    /// The corner of the child fits the coordinates of this view.
    open spec fn hosts(&self, bounds: Rectangle) -> bool {
        self.wf() && self.can_shift(bounds)
    }

    open spec fn child(&self, bounds: Rectangle, rotate: i32) -> ShiftedDisplay {
        self.shifted(bounds, rotate)
    }

    /// The child lies at the corner of this view moved by the corner of
    /// `bounds`. Its content sees the size of `bounds`, with width and height
    /// swapped where `rotate` is odd. The turns add up modulo four.
    fn shift(&self, bounds: Rectangle, rotate: i32) -> (child: ShiftedDisplay) {
        let odd: bool = rotate % 2 != 0;
        let inner_bounds = Rectangle {
            top_left: Point { x: 0, y: 0 },
            size: if odd {
                Size { width: bounds.size.height, height: bounds.size.width }
            } else {
                bounds.size
            },
        };
        let outer_bounds = Rectangle {
            top_left: Point {
                x: self.outer_bounds.top_left.x + bounds.top_left.x,
                y: self.outer_bounds.top_left.y + bounds.top_left.y,
            },
            size: bounds.size,
        };
        let sum: i64 = self.rotate as i64 + rotate as i64;
        let turns: i64 = sum % 4;
        let rotate: i32 = if turns < 0 {
            (turns + 4) as i32
        } else {
            turns as i32
        };
        ShiftedDisplay { inner_bounds, outer_bounds, rotate }
    }
}

/// Where the origin of a view lands: unturned, at the corner of the view on
/// the canvas; turned by two quarter turns, at that corner moved by the
/// width and the height of the inner area.
pub proof fn law_origin_mapping(display: ShiftedDisplay)
    requires
        display.wf(),
        display.inner_bounds.size.width > 0,
        display.inner_bounds.size.height > 0,
    ensures
        display.rotate == 0 ==> display@.map_point(0, 0) == Some(
            (display.outer_bounds.top_left.x as int, display.outer_bounds.top_left.y as int),
        ),
        display.rotate == 2 ==> display@.map_point(0, 0) == Some(
            (
                display.outer_bounds.top_left.x + display.inner_bounds.size.width,
                display.outer_bounds.top_left.y + display.inner_bounds.size.height,
            ),
        ),
{
}

/// A point outside the inner area of a view is dropped, and a point inside
/// it lands no further from the corner of the view than the inner area is
/// wide and high.
pub proof fn law_mapping_range(display: ShiftedDisplay, x: int, y: int)
    requires
        display.wf(),
    ensures
        display@.map_point(x, y).is_some() <==> 0 <= x < display.inner_bounds.size.width && 0 <= y
            < display.inner_bounds.size.height,
        display@.map_point(x, y) matches Some((ax, ay)) ==> {
            let reach = if display.inner_bounds.size.width > display.inner_bounds.size.height {
                display.inner_bounds.size.width as int
            } else {
                display.inner_bounds.size.height as int
            };
            &&& display.outer_bounds.top_left.x <= ax <= display.outer_bounds.top_left.x + reach
            &&& display.outer_bounds.top_left.y <= ay <= display.outer_bounds.top_left.y + reach
        },
{
}

/// The quarter turns of nested views add up modulo four, whatever their
/// places.
pub proof fn law_turns_add_up(
    display: ShiftedDisplay,
    first: Rectangle,
    turns: i32,
    second: Rectangle,
    more: i32,
)
    requires
        display.wf(),
    ensures
        display.shifted(first, turns).shifted(second, more).rotate == quarter_turns(
            display.rotate + turns + more,
        ),
        0 <= display.shifted(first, turns).rotate < 4,
{
}

/// Draws the content of a container through the view of the container.
///
/// The view is the one that `shift` gives for the place and the turns of the
/// container. A container whose corner leaves the range of coordinates is
/// refused, and nothing is drawn.
pub fn draw_container<C: BinarisedColor + ColorFromTemplate>(
    target: &mut BinaryFrameBuffer<C>,
    display: &ShiftedDisplay,
    container: &Container,
    files: &Vec<ImageFile>,
) -> (result: Result<(), DrawingError>)
    requires
        display.wf(),
        old(target).wf(),
    ensures
        final(target).wf(),
        final(target).spec_width() == old(target).spec_width(),
        final(target).spec_height() == old(target).spec_height(),
        final(target)@ == drawn_primitive::<C>(
            *display,
            old(target)@,
            old(target).spec_width() as int,
            old(target).spec_height() as int,
            Primitive::Container(*container),
            files@,
        ),
        reported(result) == primitive_failure(
            *display,
            old(target).spec_width() as int,
            old(target).spec_height() as int,
            Primitive::Container(*container),
            files@,
        ),
    decreases container,
{
    let outer_bounds = Rectangle { top_left: container.position, size: container.size };
    if !display.fits_shift(&outer_bounds) {
        return Err(DrawingError::OutOfRange);
    }
    let rotate: i32 = match container.rotate {
        Some(rotate) => rotate,
        None => 0,
    };
    let shifted_display = display.shift(outer_bounds, rotate);
    match &container.content {
        Some(content) => draw(target, &shifted_display, content, files),
        None => Ok(()),
    }
}

/// A range of columns and a range of rows of a view, both half-open.
#[derive(Debug, Clone, Copy, PartialEq, Eq, Structural)]
pub struct Window {
    pub left: i64,
    pub right: i64,
    pub top: i64,
    pub bottom: i64,
}

/// The part `lo .. hi` of the range `0 .. limit`; an empty part starts and
/// ends at the same place.
pub open spec fn clip(lo: int, hi: int, limit: int) -> (int, int) {
    let start = if lo < 0 {
        0
    } else if lo > limit {
        limit
    } else {
        lo
    };
    let end = if hi > limit {
        limit
    } else {
        hi
    };
    if end < start {
        (start, start)
    } else {
        (start, end)
    }
}

impl ShiftedDisplay {
    /// The part of this view that can show on a canvas of `width` by
    /// `height` pixels: every point of the view that lands on the canvas
    /// lies in this window.
    pub open spec fn spec_window(&self, width: int, height: int) -> Window {
        let w = self.inner_bounds.size.width as int;
        let h = self.inner_bounds.size.height as int;
        let ox = self.outer_bounds.top_left.x as int;
        let oy = self.outer_bounds.top_left.y as int;
        let columns = if self.rotate == 0 {
            clip(-ox, width - ox, w)
        } else if self.rotate == 1 {
            clip(w + oy - height + 1, w + oy + 1, w)
        } else if self.rotate == 2 {
            clip(w + ox - width + 1, w + ox + 1, w)
        } else {
            clip(-oy, height - oy, w)
        };
        let rows = if self.rotate == 0 {
            clip(-oy, height - oy, h)
        } else if self.rotate == 1 {
            clip(-ox, width - ox, h)
        } else if self.rotate == 2 {
            clip(h + oy - height + 1, h + oy + 1, h)
        } else {
            clip(h + ox - width + 1, h + ox + 1, h)
        };
        Window {
            left: columns.0 as i64,
            right: columns.1 as i64,
            top: rows.0 as i64,
            bottom: rows.1 as i64,
        }
    }

    /// A point of the view outside its window does not show on the canvas.
    pub proof fn law_window_holds_all(
        &self,
        canvas: Seq<bool>,
        width: int,
        height: int,
        x: int,
        y: int,
        on: bool,
    )
        requires
            self.wf(),
            0 <= width <= u32::MAX,
            0 <= height <= u32::MAX,
            !(self.spec_window(width, height).left <= x < self.spec_window(width, height).right
                && self.spec_window(width, height).top <= y < self.spec_window(
                width,
                height,
            ).bottom),
        ensures
            self@.plot(canvas, width, height, x, y, on) == canvas,
    {
    }

    /// The part of this view that can show on `target`.
    pub fn window<C>(&self, target: &BinaryFrameBuffer<C>) -> (window: Window)
        requires
            self.wf(),
        ensures
            window == self.spec_window(target.spec_width() as int, target.spec_height() as int),
            0 <= window.left <= window.right <= self.inner_bounds.size.width,
            0 <= window.top <= window.bottom <= self.inner_bounds.size.height,
    {
        let w: i64 = self.inner_bounds.size.width as i64;
        let h: i64 = self.inner_bounds.size.height as i64;
        let ox: i64 = self.outer_bounds.top_left.x as i64;
        let oy: i64 = self.outer_bounds.top_left.y as i64;
        let width: i64 = target.width() as i64;
        let height: i64 = target.height() as i64;
        let columns: (i64, i64) = if self.rotate == 0 {
            clip_range(-ox, width - ox, w)
        } else if self.rotate == 1 {
            clip_range(w + oy - height + 1, w + oy + 1, w)
        } else if self.rotate == 2 {
            clip_range(w + ox - width + 1, w + ox + 1, w)
        } else {
            clip_range(-oy, height - oy, w)
        };
        let rows: (i64, i64) = if self.rotate == 0 {
            clip_range(-oy, height - oy, h)
        } else if self.rotate == 1 {
            clip_range(-ox, width - ox, h)
        } else if self.rotate == 2 {
            clip_range(h + oy - height + 1, h + oy + 1, h)
        } else {
            clip_range(h + ox - width + 1, h + ox + 1, h)
        };
        Window { left: columns.0, right: columns.1, top: rows.0, bottom: rows.1 }
    }
}

/// The part `lo .. hi` of the range `0 .. limit`.
pub fn clip_range(lo: i64, hi: i64, limit: i64) -> (part: (i64, i64))
    requires
        0 <= limit,
    ensures
        part.0 == clip(lo as int, hi as int, limit as int).0,
        part.1 == clip(lo as int, hi as int, limit as int).1,
        0 <= part.0 <= part.1 <= limit,
{
    let start: i64 = if lo < 0 {
        0
    } else if lo > limit {
        limit
    } else {
        lo
    };
    let end: i64 = if hi > limit {
        limit
    } else {
        hi
    };
    if end < start {
        (start, start)
    } else {
        (start, end)
    }
}

/// The dots that a run of pixels asks for.
pub open spec fn pixel_dots<C: BinarisedColor>(pixels: Seq<Pixel<C>>) -> Seq<Dot> {
    Seq::new(
        pixels.len(),
        |i: int|
            Dot {
                x: pixels[i].0.x as int,
                y: pixels[i].0.y as int,
                ink: Some(pixels[i].1.is_on()),
            },
    )
}

/// The dots of a filled rectangle, row by row.
pub open spec fn area_dots(area: Rectangle, on: bool) -> Seq<Dot> {
    Seq::new(
        (area.size.width * area.size.height) as nat,
        |i: int|
            Dot {
                x: area.top_left.x + cell_x(i, area.size.width as int),
                y: area.top_left.y + cell_y(i, area.size.width as int),
                ink: Some(on),
            },
    )
}

} // verus!
