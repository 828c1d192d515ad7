//! Progress bars, tickers and stripes.
use vstd::prelude::*;
use crate::binary_framebuffer::{BinarisedColor, BinaryFrameBuffer};
use crate::geometry::{Point, Size};
use crate::renderer::container::ShiftedDisplay;
use crate::renderer::drawing_error::{DrawingError, Failure};
use crate::renderer::painting::{cell_x, cell_y, lemma_grid_empty, lemma_grid_index, Dot};
use crate::renderer::positioning::{
    can_place, fits_placement, horizontal_offset, place_rectangle, vertical_offset, Direction,
    HorizontalAlignment, VerticalAlignment,
};
use crate::renderer::{plain, plain_color, reported, ColorFromTemplate};

verus! {

/// A bar of `width` by `height` pixels whose cells are numbered along
/// `direction`. The cell with the number `n` is in the foreground where
/// `(base + n) % modulo < threshold`.
#[derive(Debug, Clone, Copy, PartialEq)]
pub struct Progress {
    pub position: Point,
    pub width: u32,
    pub height: u32,
    pub align: Option<HorizontalAlignment>,
    pub vertical_align: Option<VerticalAlignment>,
    pub direction: Option<Direction>,
    /// Defaults to the width of a horizontal bar and to the height of a
    /// vertical one.
    pub modulo: Option<u32>,
    /// Defaults to zero: nothing is in the foreground.
    pub threshold: Option<u32>,
    /// Defaults to zero.
    pub base: Option<u32>,
}

impl Progress {
    /// Whether the cells are numbered column by column.
    pub open spec fn vertical(&self) -> bool {
        self.direction == Some(Direction::Vertical)
    }

    /// The number of the cell `(x, y)`.
    pub open spec fn cell_number(&self, x: int, y: int) -> int {
        if self.vertical() {
            y + x * self.height
        } else {
            x + y * self.width
        }
    }

    /// The modulo in force.
    pub open spec fn spec_modulo(&self) -> int {
        match self.modulo {
            Some(m) => m as int,
            None => if self.vertical() {
                self.height as int
            } else {
                self.width as int
            },
        }
    }

    /// Whether the cell `(x, y)` is in the foreground.
    pub open spec fn foreground(&self, x: int, y: int) -> bool {
        let base = match self.base {
            Some(b) => b as int,
            None => 0,
        };
        let threshold = match self.threshold {
            Some(t) => t as int,
            None => 0,
        };
        (base + self.cell_number(x, y)) % self.spec_modulo() < threshold
    }

    /// Whether the bar has a cell and asks for a modulo of zero.
    pub open spec fn zero_modulo(&self) -> bool {
        self.modulo == Some(0u32) && self.width > 0 && self.height > 0
    }

    /// The top-left corner of the bar.
    pub open spec fn origin(&self) -> (int, int) {
        (
            self.position.x - horizontal_offset(self.width, self.align),
            self.position.y - vertical_offset(self.height, self.vertical_align),
        )
    }

    /// Whether the corner of the bar fits the coordinates of a point.
    pub open spec fn placeable(&self) -> bool {
        can_place(
            Size { width: self.width, height: self.height },
            self.align,
            self.vertical_align,
            self.position,
        )
    }

    /// The dots of the bar, row by row: the foreground in the colour named
    /// `1`, the rest in the colour named `0`.
    pub open spec fn dots<C: BinarisedColor + ColorFromTemplate>(&self) -> Seq<Dot> {
        Seq::new(
            (self.width * self.height) as nat,
            |i: int|
                {
                    let x = cell_x(i, self.width as int);
                    let y = cell_y(i, self.width as int);
                    Dot {
                        x: self.origin().0 + x,
                        y: self.origin().1 + y,
                        ink: Some(plain::<C>(self.foreground(x, y)).is_on()),
                    }
                },
        )
    }
}

/// A horizontal bar without a base whose modulo is its width fills the
/// first `threshold` columns of every row.
pub proof fn law_bar_fills_columns(progress: Progress, x: int, y: int)
    requires
        !progress.vertical(),
        progress.spec_modulo() == progress.width,
        progress.base.is_none() || progress.base == Some(0u32),
        0 <= x < progress.width,
        0 <= y,
    ensures
        progress.foreground(x, y) <==> x < match progress.threshold {
            Some(t) => t as int,
            None => 0,
        },
{
    vstd::arithmetic::div_mod::lemma_fundamental_div_mod_converse(
        x + y * progress.width,
        progress.width as int,
        y,
        x,
    );
}

/// Why a progress bar cannot be drawn, if it cannot.
pub open spec fn progress_failure(progress: Progress) -> Option<Failure> {
    if !progress.placeable() {
        Some(Failure::OutOfRange)
    } else if progress.zero_modulo() {
        Some(Failure::ZeroModulo)
    } else {
        None
    }
}

/// The canvas after a progress bar was drawn; a bar that cannot be drawn
/// leaves the canvas as it is.
pub open spec fn drawn_progress<C: BinarisedColor + ColorFromTemplate>(
    display: ShiftedDisplay,
    canvas: Seq<bool>,
    width: int,
    height: int,
    progress: Progress,
) -> Seq<bool> {
    if progress_failure(progress).is_none() {
        display@.paint(canvas, width, height, progress.dots::<C>())
    } else {
        canvas
    }
}

/// Draws a progress bar through `display` onto `target`.
///
/// Nothing is drawn, and an error returned, where the corner of the bar
/// leaves the range of coordinates or where the bar asks for a modulo of
/// zero.
pub fn draw_progress<C: BinarisedColor + ColorFromTemplate>(
    target: &mut BinaryFrameBuffer<C>,
    display: &ShiftedDisplay,
    progress: &Progress,
) -> (result: Result<(), DrawingError>)
    requires
        display.wf(),
        old(target).wf(),
    ensures
        final(target).wf(),
        final(target).spec_width() == old(target).spec_width(),
        final(target).spec_height() == old(target).spec_height(),
        final(target)@ == drawn_progress::<C>(
            *display,
            old(target)@,
            old(target).spec_width() as int,
            old(target).spec_height() as int,
            *progress,
        ),
        reported(result) == progress_failure(*progress),
{
    let size = Size { width: progress.width, height: progress.height };
    if !fits_placement(size, progress.align, progress.vertical_align, progress.position) {
        return Err(DrawingError::OutOfRange);
    }
    let width: u32 = progress.width;
    let height: u32 = progress.height;
    let vertical: bool = match progress.direction {
        Some(Direction::Vertical) => true,
        _ => false,
    };
    let modulo: u64 = match progress.modulo {
        Some(m) => m as u64,
        None => if vertical {
            height as u64
        } else {
            width as u64
        },
    };
    if modulo == 0 && width > 0 && height > 0 {
        return Err(DrawingError::ZeroModulo);
    }
    let base: u64 = match progress.base {
        Some(b) => b as u64,
        None => 0,
    };
    let threshold: u64 = match progress.threshold {
        Some(t) => t as u64,
        None => 0,
    };
    let back: bool = plain_color::<C>(false).to_binary_color();
    let front: bool = plain_color::<C>(true).to_binary_color();
    let origin = place_rectangle(size, progress.align, progress.vertical_align, progress.position);
    let ghost dots = progress.dots::<C>();
    let ghost canvas = target@;
    let ghost w = target.spec_width() as int;
    let ghost h = target.spec_height() as int;
    proof {
        lemma_grid_empty(width as int, height as int);
        assert(dots.take(0) =~= Seq::<Dot>::empty());
    }
    let mut y: u32 = 0;
    while y < height
        invariant
            y <= height,
            width == progress.width,
            height == progress.height,
            vertical == progress.vertical(),
            modulo == progress.spec_modulo(),
            modulo > 0 || width == 0 || height == 0,
            base == match progress.base {
                Some(b) => b as int,
                None => 0,
            },
            threshold == match progress.threshold {
                Some(t) => t as int,
                None => 0,
            },
            back == plain::<C>(false).is_on(),
            front == plain::<C>(true).is_on(),
            origin.x == progress.origin().0,
            origin.y == progress.origin().1,
            display.wf(),
            target.wf(),
            target.spec_width() == w,
            target.spec_height() == h,
            dots == progress.dots::<C>(),
            dots.len() == width * height,
            target@ == display@.paint(canvas, w, h, dots.take(y * width)),
        decreases height - y,
    {
        let mut x: u32 = 0;
        while x < width
            invariant
                y < height,
                x <= width,
                width == progress.width,
                height == progress.height,
                vertical == progress.vertical(),
                modulo == progress.spec_modulo(),
                modulo > 0 || width == 0 || height == 0,
                base == match progress.base {
                    Some(b) => b as int,
                    None => 0,
                },
                threshold == match progress.threshold {
                    Some(t) => t as int,
                    None => 0,
                },
                back == plain::<C>(false).is_on(),
                front == plain::<C>(true).is_on(),
                origin.x == progress.origin().0,
                origin.y == progress.origin().1,
                display.wf(),
                target.wf(),
                target.spec_width() == w,
                target.spec_height() == h,
                dots == progress.dots::<C>(),
                dots.len() == width * height,
                target@ == display@.paint(canvas, w, h, dots.take(y * width + x)),
            decreases width - x,
        {
            proof {
                lemma_grid_index(x as int, y as int, width as int, height as int);
                display@.lemma_paint_next(canvas, w, h, dots, y * width + x);
                assert(y * width <= 0xffff_ffff * 0xffff_ffff && x * height <= 0xffff_ffff
                    * 0xffff_ffff) by (nonlinear_arith)
                    requires
                        0 <= y <= 0xffff_ffff,
                        0 <= x <= 0xffff_ffff,
                        0 <= width <= 0xffff_ffff,
                        0 <= height <= 0xffff_ffff,
                ;
            }
            let id: u64 = if vertical {
                y as u64 + x as u64 * height as u64
            } else {
                x as u64 + y as u64 * width as u64
            };
            let v: u64 = ((base as u128 + id as u128) % (modulo as u128)) as u64;
            let on: bool = if v < threshold {
                front
            } else {
                back
            };
            display.draw_pixel(target, origin.x as i64 + x as i64, origin.y as i64 + y as i64, on);
            x += 1;
        }
        proof {
            if width > 0 {
                lemma_grid_index(0, y as int, width as int, height as int);
            } else {
                lemma_grid_empty(width as int, y as int);
                lemma_grid_empty(width as int, y + 1);
            }
        }
        y += 1;
    }
    proof {
        assert(dots.take(height * width) =~= dots);
    }
    Ok(())
}

} // verus!
