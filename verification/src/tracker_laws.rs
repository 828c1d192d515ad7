//! What holds of the change tracker across several calls.
use vstd::prelude::*;
use crate::binary_change_tracker::{
    any_changed, bounding_box, counted, difference, dirty_rectangles, highest, is_bounding_box,
    lemma_bounding_box_unique, lemma_highest, pixel_at, rectangles_from, row_rectangles,
    tile_dirty, tile_end,
};
use crate::binary_framebuffer::lemma_pixel_index;
use crate::geometry::{Point, Rectangle, Size};

verus! {

/// A frame compared with itself shows no difference: right after a reset an
/// update reports no change, leaves every counter at zero, yields no
/// rectangle and keeps the highest counter at zero.
pub proof fn law_update_after_reset(frame: Seq<bool>, width: int, height: int, grain: int)
    requires
        frame.len() == width * height,
    ensures
        !any_changed(difference(frame, frame)),
        counted(Seq::new(frame.len(), |i: int| 0u8), difference(frame, frame)) == Seq::new(
            frame.len(),
            |i: int| 0u8,
        ),
        highest(0, Seq::new(frame.len(), |i: int| 0u8), difference(frame, frame), frame.len())
            == 0,
        dirty_rectangles(difference(frame, frame), width, height, grain) == Seq::<
            Rectangle,
        >::empty(),
{
    let mask = difference(frame, frame);
    let zeros = Seq::new(frame.len(), |i: int| 0u8);
    assert(counted(zeros, mask) =~= zeros);
    lemma_highest(0, zeros, mask, frame.len());
    assert forall|x: int, y: int| 0 <= x < width && 0 <= y < height implies !#[trigger] pixel_at(
        mask, width, x, y,
    ) by {
        lemma_pixel_index(x, y, width, height);
    }
    lemma_clean_below(mask, width, height, grain, 0);
}

/// Whether no pixel of the frame in the rows `y0 .. y1` and from the column
/// `x0` on has changed.
pub open spec fn clean_region(
    mask: Seq<bool>,
    width: int,
    height: int,
    x0: int,
    x1: int,
    y0: int,
    y1: int,
) -> bool {
    forall|x: int, y: int|
        0 <= x < width && 0 <= y < height && x0 <= x < x1 && y0 <= y < y1 ==> !#[trigger] pixel_at(
            mask, width, x, y,
        )
}

/// A row of tiles without a changed pixel from the column `x0` on yields no
/// rectangle from there on.
pub proof fn lemma_clean_row(
    mask: Seq<bool>,
    width: int,
    height: int,
    grain: int,
    y0: int,
    x0: int,
)
    requires
        0 <= x0,
        0 <= y0,
        clean_region(mask, width, height, x0, width, y0, tile_end(y0, grain, height)),
    ensures
        row_rectangles(mask, width, height, grain, y0, x0) == Seq::<Rectangle>::empty(),
    decreases
            if x0 < width {
                width - x0
            } else {
                0
            },
{
    if x0 < width && grain > 0 {
        lemma_clean_row(mask, width, height, grain, y0, x0 + grain);
        let x1 = tile_end(x0, grain, width);
        let y1 = tile_end(y0, grain, height);
        if tile_dirty(mask, width, x0, x1, y0, y1) {
            let (x, y) = choose|x: int, y: int|
                x0 <= x < x1 && y0 <= y < y1 && #[trigger] pixel_at(mask, width, x, y);
            assert(false);
        }
        assert(row_rectangles(mask, width, height, grain, y0, x0) =~= Seq::<Rectangle>::empty());
    }
}

/// A frame without a changed pixel from the row `y0` on yields no rectangle
/// from there on.
pub proof fn lemma_clean_below(mask: Seq<bool>, width: int, height: int, grain: int, y0: int)
    requires
        0 <= y0,
        clean_region(mask, width, height, 0, width, y0, height),
    ensures
        rectangles_from(mask, width, height, grain, y0) == Seq::<Rectangle>::empty(),
    decreases
            if y0 < height {
                height - y0
            } else {
                0
            },
{
    if y0 < height && grain > 0 {
        lemma_clean_below(mask, width, height, grain, y0 + grain);
        lemma_clean_row(mask, width, height, grain, y0, 0);
        assert(rectangles_from(mask, width, height, grain, y0) =~= Seq::<Rectangle>::empty());
    }
}

/// Tiles without a changed pixel yield nothing: a row of tiles may be read
/// from `k` tiles further to the right if the tiles in between are clean.
pub proof fn lemma_skip_clean_tiles(
    mask: Seq<bool>,
    width: int,
    height: int,
    grain: int,
    y0: int,
    x0: int,
    k: int,
)
    requires
        grain > 0,
        0 <= x0,
        0 <= y0,
        0 <= k,
        clean_region(mask, width, height, x0, x0 + k * grain, y0, tile_end(y0, grain, height)),
    ensures
        row_rectangles(mask, width, height, grain, y0, x0) == row_rectangles(
            mask, width, height, grain, y0, x0 + k * grain,
        ),
    decreases k,
{
    if k > 0 {
        assert(x0 + k * grain == (x0 + grain) + (k - 1) * grain) by (nonlinear_arith);
        assert((k - 1) * grain >= 0) by (nonlinear_arith)
            requires
                k >= 1,
                grain > 0,
        ;
        lemma_skip_clean_tiles(mask, width, height, grain, y0, x0 + grain, k - 1);
        if x0 < width {
            let x1 = tile_end(x0, grain, width);
            let y1 = tile_end(y0, grain, height);
            if tile_dirty(mask, width, x0, x1, y0, y1) {
                let (x, y) = choose|x: int, y: int|
                    x0 <= x < x1 && y0 <= y < y1 && #[trigger] pixel_at(mask, width, x, y);
                assert(false);
            }
            assert(row_rectangles(mask, width, height, grain, y0, x0) =~= row_rectangles(
                mask, width, height, grain, y0, x0 + grain,
            ));
        } else {
            assert(x0 + k * grain >= width);
        }
    } else {
        assert(k * grain == 0) by (nonlinear_arith)
            requires
                k == 0,
        ;
    }
}

/// Rows of tiles without a changed pixel yield nothing: the frame may be
/// read from `k` rows of tiles further down if the rows in between are clean.
pub proof fn lemma_skip_clean_rows(
    mask: Seq<bool>,
    width: int,
    height: int,
    grain: int,
    y0: int,
    k: int,
)
    requires
        grain > 0,
        0 <= y0,
        0 <= k,
        clean_region(mask, width, height, 0, width, y0, y0 + k * grain),
    ensures
        rectangles_from(mask, width, height, grain, y0) == rectangles_from(
            mask, width, height, grain, y0 + k * grain,
        ),
    decreases k,
{
    if k > 0 {
        assert(y0 + k * grain == (y0 + grain) + (k - 1) * grain) by (nonlinear_arith);
        assert((k - 1) * grain >= 0) by (nonlinear_arith)
            requires
                k >= 1,
                grain > 0,
        ;
        lemma_skip_clean_rows(mask, width, height, grain, y0 + grain, k - 1);
        if y0 < height {
            lemma_clean_row(mask, width, height, grain, y0, 0);
            assert(rectangles_from(mask, width, height, grain, y0) =~= rectangles_from(
                mask, width, height, grain, y0 + grain,
            ));
        } else {
            assert(y0 + k * grain >= height);
        }
    } else {
        assert(k * grain == 0) by (nonlinear_arith)
            requires
                k == 0,
        ;
    }
}

/// Where the tile of the coordinate `v` starts.
pub open spec fn tile_start(v: int, grain: int) -> int {
    (v / grain) * grain
}

/// A coordinate lies in the tile that starts at its `tile_start`.
pub proof fn lemma_tile_start(v: int, grain: int)
    requires
        0 <= v,
        0 < grain,
    ensures
        0 <= v / grain,
        0 <= tile_start(v, grain) <= v < tile_start(v, grain) + grain,
{
    vstd::arithmetic::div_mod::lemma_fundamental_div_mod(v, grain);
    assert((v / grain) * grain == grain * (v / grain)) by (nonlinear_arith);
    vstd::arithmetic::div_mod::lemma_div_pos_is_pos(v, grain);
    assert(0 <= (v / grain) * grain) by (nonlinear_arith)
        requires
            0 <= v / grain,
            0 < grain,
    ;
}

/// Tiles that start at different multiples of the grain lie a whole grain
/// apart.
pub proof fn lemma_tiles_apart(a: int, b: int, grain: int)
    requires
        a < b,
        0 < grain,
    ensures
        a * grain + grain <= b * grain,
        b * grain == (a * grain + grain) + (b - a - 1) * grain,
        0 <= b - a - 1,
{
    assert(a * grain + grain <= b * grain) by (nonlinear_arith)
        requires
            a < b,
            0 < grain,
    ;
    assert(b * grain == (a * grain + grain) + (b - a - 1) * grain) by (nonlinear_arith);
}

/// A row of tiles whose changed pixels all lie in one tile yields the
/// rectangle of that tile and nothing else.
pub proof fn lemma_row_one_tile(
    mask: Seq<bool>,
    width: int,
    height: int,
    grain: int,
    y0: int,
    k: int,
    r: Rectangle,
)
    requires
        grain > 0,
        0 <= y0,
        0 <= k,
        k * grain < width,
        is_bounding_box(
            r,
            mask,
            width,
            k * grain,
            tile_end(k * grain, grain, width),
            y0,
            tile_end(y0, grain, height),
        ),
        clean_region(mask, width, height, 0, k * grain, y0, tile_end(y0, grain, height)),
        clean_region(
            mask,
            width,
            height,
            k * grain + grain,
            width,
            y0,
            tile_end(y0, grain, height),
        ),
    ensures
        row_rectangles(mask, width, height, grain, y0, 0) == seq![r],
{
    let x0 = k * grain;
    assert(0 <= x0) by (nonlinear_arith)
        requires
            0 <= k,
            0 < grain,
            x0 == k * grain,
    ;
    lemma_skip_clean_tiles(mask, width, height, grain, y0, 0, k);
    lemma_clean_row(mask, width, height, grain, y0, x0 + grain);
    lemma_bounding_box_unique(
        r,
        mask,
        width,
        x0,
        tile_end(x0, grain, width),
        y0,
        tile_end(y0, grain, height),
    );
    assert(row_rectangles(mask, width, height, grain, y0, x0) =~= seq![r]);
}

/// A row of tiles whose changed pixels lie in two tiles yields the rectangle
/// of the left tile and then that of the right one.
pub proof fn lemma_row_two_tiles(
    mask: Seq<bool>,
    width: int,
    height: int,
    grain: int,
    y0: int,
    a: int,
    b: int,
    ra: Rectangle,
    rb: Rectangle,
)
    requires
        grain > 0,
        0 <= y0,
        0 <= a < b,
        b * grain < width,
        is_bounding_box(
            ra,
            mask,
            width,
            a * grain,
            tile_end(a * grain, grain, width),
            y0,
            tile_end(y0, grain, height),
        ),
        is_bounding_box(
            rb,
            mask,
            width,
            b * grain,
            tile_end(b * grain, grain, width),
            y0,
            tile_end(y0, grain, height),
        ),
        clean_region(mask, width, height, 0, a * grain, y0, tile_end(y0, grain, height)),
        clean_region(
            mask,
            width,
            height,
            a * grain + grain,
            b * grain,
            y0,
            tile_end(y0, grain, height),
        ),
        clean_region(
            mask,
            width,
            height,
            b * grain + grain,
            width,
            y0,
            tile_end(y0, grain, height),
        ),
    ensures
        row_rectangles(mask, width, height, grain, y0, 0) == seq![ra, rb],
{
    let xa = a * grain;
    let xb = b * grain;
    assert(0 <= xa) by (nonlinear_arith)
        requires
            0 <= a,
            0 < grain,
            xa == a * grain,
    ;
    lemma_tiles_apart(a, b, grain);
    lemma_skip_clean_tiles(mask, width, height, grain, y0, 0, a);
    lemma_skip_clean_tiles(mask, width, height, grain, y0, xa + grain, b - a - 1);
    lemma_clean_row(mask, width, height, grain, y0, xb + grain);
    let y1 = tile_end(y0, grain, height);
    lemma_bounding_box_unique(ra, mask, width, xa, tile_end(xa, grain, width), y0, y1);
    lemma_bounding_box_unique(rb, mask, width, xb, tile_end(xb, grain, width), y0, y1);
    assert(row_rectangles(mask, width, height, grain, y0, xb) =~= seq![rb]);
    assert(row_rectangles(mask, width, height, grain, y0, xa) =~= seq![ra, rb]);
}

/// A frame whose changed pixels all lie in one row of tiles yields the
/// rectangles of that row and nothing else.
pub proof fn lemma_one_row(mask: Seq<bool>, width: int, height: int, grain: int, k: int)
    requires
        grain > 0,
        0 <= k,
        k * grain < height,
        clean_region(mask, width, height, 0, width, 0, k * grain),
        clean_region(mask, width, height, 0, width, k * grain + grain, height),
    ensures
        dirty_rectangles(mask, width, height, grain) == row_rectangles(
            mask, width, height, grain, k * grain, 0,
        ),
{
    let y0 = k * grain;
    assert(0 <= y0) by (nonlinear_arith)
        requires
            0 <= k,
            0 < grain,
            y0 == k * grain,
    ;
    lemma_skip_clean_rows(mask, width, height, grain, 0, k);
    lemma_clean_below(mask, width, height, grain, y0 + grain);
    assert(rectangles_from(mask, width, height, grain, y0) =~= row_rectangles(
        mask, width, height, grain, y0, 0,
    ));
}

/// A frame whose changed pixels lie in two rows of tiles yields the
/// rectangles of the upper row and then those of the lower one.
pub proof fn lemma_two_rows(mask: Seq<bool>, width: int, height: int, grain: int, a: int, b: int)
    requires
        grain > 0,
        0 <= a < b,
        b * grain < height,
        clean_region(mask, width, height, 0, width, 0, a * grain),
        clean_region(mask, width, height, 0, width, a * grain + grain, b * grain),
        clean_region(mask, width, height, 0, width, b * grain + grain, height),
    ensures
        dirty_rectangles(mask, width, height, grain) == row_rectangles(
            mask, width, height, grain, a * grain, 0,
        ) + row_rectangles(mask, width, height, grain, b * grain, 0),
{
    let ya = a * grain;
    let yb = b * grain;
    assert(0 <= ya) by (nonlinear_arith)
        requires
            0 <= a,
            0 < grain,
            ya == a * grain,
    ;
    lemma_tiles_apart(a, b, grain);
    lemma_skip_clean_rows(mask, width, height, grain, 0, a);
    lemma_skip_clean_rows(mask, width, height, grain, ya + grain, b - a - 1);
    lemma_clean_below(mask, width, height, grain, yb + grain);
    assert(rectangles_from(mask, width, height, grain, yb) =~= row_rectangles(
        mask, width, height, grain, yb, 0,
    ));
    assert(rectangles_from(mask, width, height, grain, ya) =~= row_rectangles(
        mask, width, height, grain, ya, 0,
    ) + row_rectangles(mask, width, height, grain, yb, 0));
}

/// The rectangle that covers the single pixel `(x, y)`.
pub open spec fn unit_rectangle(x: int, y: int) -> Rectangle {
    Rectangle { top_left: Point { x: x as i32, y: y as i32 }, size: Size { width: 1, height: 1 } }
}

/// The smallest rectangle that covers the pixels `(ax, ay)` and `(bx, by)`.
pub open spec fn enclosing_rectangle(ax: int, ay: int, bx: int, by: int) -> Rectangle {
    let left = if ax < bx {
        ax
    } else {
        bx
    };
    let top = if ay < by {
        ay
    } else {
        by
    };
    let right = if ax < bx {
        bx
    } else {
        ax
    };
    let bottom = if ay < by {
        by
    } else {
        ay
    };
    Rectangle {
        top_left: Point { x: left as i32, y: top as i32 },
        size: Size { width: (right - left + 1) as u32, height: (bottom - top + 1) as u32 },
    }
}

/// Whether the frames `new` and `reference` differ in the pixel `(x, y)`.
pub open spec fn differs_at(
    new: Seq<bool>,
    reference: Seq<bool>,
    width: int,
    x: int,
    y: int,
) -> bool {
    new[y * width + x] != reference[y * width + x]
}

/// Two frames that differ in exactly one pixel: an update reports a change
/// and yields exactly one rectangle, of one pixel by one pixel, at that
/// pixel. From counters at zero the highest counter becomes one.
pub proof fn law_single_change(
    new: Seq<bool>,
    reference: Seq<bool>,
    width: int,
    height: int,
    grain: int,
    px: int,
    py: int,
)
    requires
        grain > 0,
        0 <= px < width <= i32::MAX,
        0 <= py < height <= i32::MAX,
        new.len() == width * height,
        reference.len() == width * height,
        forall|x: int, y: int|
            0 <= x < width && 0 <= y < height ==> (#[trigger] differs_at(
                new, reference, width, x, y,
            ) <==> x == px && y == py),
    ensures
        any_changed(difference(new, reference)),
        dirty_rectangles(difference(new, reference), width, height, grain) == seq![
            unit_rectangle(px, py),
        ],
        highest(
            0,
            counted(Seq::new(new.len(), |i: int| 0u8), difference(new, reference)),
            difference(new, reference),
            new.len(),
        ) == 1,
{
    let mask = difference(new, reference);
    let zeros = Seq::new(new.len(), |i: int| 0u8);
    let after = counted(zeros, mask);
    lemma_mask(new, reference, width, height);
    lemma_pixel_index(px, py, width, height);
    let p = py * width + px;
    assert(differs_at(new, reference, width, px, py));
    assert(mask[p]);
    // The highest counter.
    lemma_highest(0, after, mask, new.len());
    assert forall|i: int| 0 <= i < new.len() && mask[i] implies after[i] == 1 by {}
    // The rectangle.
    lemma_tile_start(px, grain);
    lemma_tile_start(py, grain);
    let kx = px / grain;
    let ky = py / grain;
    let x0 = kx * grain;
    let y0 = ky * grain;
    let x1 = tile_end(x0, grain, width);
    let y1 = tile_end(y0, grain, height);
    let r = unit_rectangle(px, py);
    assert(pixel_at(mask, width, px, py));
    assert forall|x: int, y: int|
        x0 <= x < x1 && y0 <= y < y1 && #[trigger] pixel_at(mask, width, x, y) implies r.covers(
        x,
        y,
    ) by {
        assert(differs_at(new, reference, width, x, y));
    }
    lemma_box(r, mask, width, x0, x1, y0, y1, py, py, px, px);
    assert forall|x: int, y: int|
        0 <= x < width && 0 <= y < height && !(x == px && y == py) implies !#[trigger] pixel_at(
        mask,
        width,
        x,
        y,
    ) by {
        assert(!differs_at(new, reference, width, x, y));
    }
    lemma_one_row(mask, width, height, grain, ky);
    lemma_row_one_tile(mask, width, height, grain, y0, kx, r);
}

/// A rectangle inside a tile that covers every changed pixel of the tile
/// and has a changed pixel on each edge is the smallest such rectangle.
proof fn lemma_box(
    r: Rectangle,
    mask: Seq<bool>,
    width: int,
    x0: int,
    x1: int,
    y0: int,
    y1: int,
    left_y: int,
    right_y: int,
    top_x: int,
    bottom_x: int,
)
    requires
        x0 <= r.top_left.x,
        y0 <= r.top_left.y,
        r.size.width > 0,
        r.size.height > 0,
        r.top_left.x + r.size.width <= x1,
        r.top_left.y + r.size.height <= y1,
        forall|x: int, y: int|
            x0 <= x < x1 && y0 <= y < y1 && #[trigger] pixel_at(mask, width, x, y) ==> r.covers(
                x,
                y,
            ),
        r.top_left.y <= left_y < r.top_left.y + r.size.height,
        r.top_left.y <= right_y < r.top_left.y + r.size.height,
        r.top_left.x <= top_x < r.top_left.x + r.size.width,
        r.top_left.x <= bottom_x < r.top_left.x + r.size.width,
        pixel_at(mask, width, r.top_left.x as int, left_y),
        pixel_at(mask, width, r.top_left.x + r.size.width - 1, right_y),
        pixel_at(mask, width, top_x, r.top_left.y as int),
        pixel_at(mask, width, bottom_x, r.top_left.y + r.size.height - 1),
    ensures
        is_bounding_box(r, mask, width, x0, x1, y0, y1),
{
}

/// The differences of two frames, pixel by pixel.
proof fn lemma_mask(new: Seq<bool>, reference: Seq<bool>, width: int, height: int)
    requires
        new.len() == width * height,
        reference.len() == width * height,
    ensures
        forall|x: int, y: int|
            0 <= x < width && 0 <= y < height ==> #[trigger] pixel_at(
                difference(new, reference),
                width,
                x,
                y,
            ) == differs_at(new, reference, width, x, y),
{
    assert forall|x: int, y: int| 0 <= x < width && 0 <= y < height implies #[trigger] pixel_at(
        difference(new, reference),
        width,
        x,
        y,
    ) == differs_at(new, reference, width, x, y) by {
        lemma_pixel_index(x, y, width, height);
    }
}

/// Two frames that differ in exactly two pixels of one tile: an update
/// yields exactly one rectangle, the smallest one that covers both pixels.
pub proof fn law_two_changes_one_tile(
    new: Seq<bool>,
    reference: Seq<bool>,
    width: int,
    height: int,
    grain: int,
    ax: int,
    ay: int,
    bx: int,
    by: int,
)
    requires
        grain > 0,
        0 <= ax < width <= i32::MAX,
        0 <= ay < height <= i32::MAX,
        0 <= bx < width,
        0 <= by < height,
        new.len() == width * height,
        reference.len() == width * height,
        ax / grain == bx / grain,
        ay / grain == by / grain,
        forall|x: int, y: int|
            0 <= x < width && 0 <= y < height ==> (#[trigger] differs_at(
                new, reference, width, x, y,
            ) <==> (x == ax && y == ay) || (x == bx && y == by)),
    ensures
        dirty_rectangles(difference(new, reference), width, height, grain) == seq![
            enclosing_rectangle(ax, ay, bx, by),
        ],
{
    let mask = difference(new, reference);
    lemma_mask(new, reference, width, height);
    lemma_tile_start(ax, grain);
    lemma_tile_start(ay, grain);
    lemma_tile_start(bx, grain);
    lemma_tile_start(by, grain);
    let kx = ax / grain;
    let ky = ay / grain;
    let x0 = kx * grain;
    let y0 = ky * grain;
    let x1 = tile_end(x0, grain, width);
    let y1 = tile_end(y0, grain, height);
    let r = enclosing_rectangle(ax, ay, bx, by);
    assert(differs_at(new, reference, width, ax, ay));
    assert(differs_at(new, reference, width, bx, by));
    assert(pixel_at(mask, width, ax, ay));
    assert(pixel_at(mask, width, bx, by));
    assert forall|x: int, y: int|
        x0 <= x < x1 && y0 <= y < y1 && #[trigger] pixel_at(mask, width, x, y) implies r.covers(
        x,
        y,
    ) by {
        assert(differs_at(new, reference, width, x, y));
    }
    lemma_box(
        r,
        mask,
        width,
        x0,
        x1,
        y0,
        y1,
        if ax <= bx {
            ay
        } else {
            by
        },
        if ax < bx {
            by
        } else {
            ay
        },
        if ay <= by {
            ax
        } else {
            bx
        },
        if ay < by {
            bx
        } else {
            ax
        },
    );
    assert forall|x: int, y: int|
        0 <= x < width && 0 <= y < height && !(x == ax && y == ay) && !(x == bx && y == by)
        implies !#[trigger] pixel_at(mask, width, x, y) by {
        assert(!differs_at(new, reference, width, x, y));
    }
    lemma_one_row(mask, width, height, grain, ky);
    lemma_row_one_tile(mask, width, height, grain, y0, kx, r);
}

/// Two changed pixels in different tiles, the first in the tile that is
/// visited first.
proof fn lemma_two_changes_in_order(
    new: Seq<bool>,
    reference: Seq<bool>,
    width: int,
    height: int,
    grain: int,
    ax: int,
    ay: int,
    bx: int,
    by: int,
)
    requires
        grain > 0,
        0 <= ax < width <= i32::MAX,
        0 <= ay < height <= i32::MAX,
        0 <= bx < width,
        0 <= by < height,
        new.len() == width * height,
        reference.len() == width * height,
        ay / grain < by / grain || (ay / grain == by / grain && ax / grain < bx / grain),
        forall|x: int, y: int|
            0 <= x < width && 0 <= y < height ==> (#[trigger] differs_at(
                new, reference, width, x, y,
            ) <==> (x == ax && y == ay) || (x == bx && y == by)),
    ensures
        dirty_rectangles(difference(new, reference), width, height, grain) == seq![
            unit_rectangle(ax, ay),
            unit_rectangle(bx, by),
        ],
{
    let mask = difference(new, reference);
    lemma_mask(new, reference, width, height);
    lemma_tile_start(ax, grain);
    lemma_tile_start(ay, grain);
    lemma_tile_start(bx, grain);
    lemma_tile_start(by, grain);
    let kax = ax / grain;
    let kay = ay / grain;
    let kbx = bx / grain;
    let kby = by / grain;
    let ra = unit_rectangle(ax, ay);
    let rb = unit_rectangle(bx, by);
    assert(differs_at(new, reference, width, ax, ay));
    assert(differs_at(new, reference, width, bx, by));
    assert(pixel_at(mask, width, ax, ay));
    assert(pixel_at(mask, width, bx, by));
    assert forall|x: int, y: int|
        0 <= x < width && 0 <= y < height && !(x == ax && y == ay) && !(x == bx && y == by)
        implies !#[trigger] pixel_at(mask, width, x, y) by {
        assert(!differs_at(new, reference, width, x, y));
    }
    let xa0 = kax * grain;
    let ya0 = kay * grain;
    let xb0 = kbx * grain;
    let yb0 = kby * grain;
    assert forall|x: int, y: int|
        0 <= x < width && 0 <= y < height && #[trigger] pixel_at(mask, width, x, y) implies (x
        == ax && y == ay) || (x == bx && y == by) by {
        assert(differs_at(new, reference, width, x, y));
    }
    if kay < kby {
        lemma_tiles_apart(kay, kby, grain);
        lemma_box(
            ra,
            mask,
            width,
            xa0,
            tile_end(xa0, grain, width),
            ya0,
            tile_end(ya0, grain, height),
            ay,
            ay,
            ax,
            ax,
        );
        lemma_box(
            rb,
            mask,
            width,
            xb0,
            tile_end(xb0, grain, width),
            yb0,
            tile_end(yb0, grain, height),
            by,
            by,
            bx,
            bx,
        );
        lemma_two_rows(mask, width, height, grain, kay, kby);
        lemma_row_one_tile(mask, width, height, grain, ya0, kax, ra);
        lemma_row_one_tile(mask, width, height, grain, yb0, kbx, rb);
        assert(seq![ra] + seq![rb] =~= seq![ra, rb]);
    } else {
        lemma_tiles_apart(kax, kbx, grain);
        lemma_box(
            ra,
            mask,
            width,
            xa0,
            tile_end(xa0, grain, width),
            ya0,
            tile_end(ya0, grain, height),
            ay,
            ay,
            ax,
            ax,
        );
        lemma_box(
            rb,
            mask,
            width,
            xb0,
            tile_end(xb0, grain, width),
            ya0,
            tile_end(ya0, grain, height),
            by,
            by,
            bx,
            bx,
        );
        lemma_one_row(mask, width, height, grain, kay);
        lemma_row_two_tiles(mask, width, height, grain, ya0, kax, kbx, ra, rb);
    }
}

/// Two frames that differ in exactly two pixels, which lie in different
/// tiles: an update yields exactly two rectangles, each of one pixel by one
/// pixel, one at each of the two pixels.
pub proof fn law_two_changes_two_tiles(
    new: Seq<bool>,
    reference: Seq<bool>,
    width: int,
    height: int,
    grain: int,
    ax: int,
    ay: int,
    bx: int,
    by: int,
)
    requires
        grain > 0,
        0 <= ax < width <= i32::MAX,
        0 <= ay < height <= i32::MAX,
        0 <= bx < width,
        0 <= by < height,
        new.len() == width * height,
        reference.len() == width * height,
        ax / grain != bx / grain || ay / grain != by / grain,
        forall|x: int, y: int|
            0 <= x < width && 0 <= y < height ==> (#[trigger] differs_at(
                new, reference, width, x, y,
            ) <==> (x == ax && y == ay) || (x == bx && y == by)),
    ensures
        dirty_rectangles(difference(new, reference), width, height, grain).len() == 2,
        dirty_rectangles(difference(new, reference), width, height, grain).contains(
            unit_rectangle(ax, ay),
        ),
        dirty_rectangles(difference(new, reference), width, height, grain).contains(
            unit_rectangle(bx, by),
        ),
{
    let rects = dirty_rectangles(difference(new, reference), width, height, grain);
    if ay / grain < by / grain || (ay / grain == by / grain && ax / grain < bx / grain) {
        lemma_two_changes_in_order(new, reference, width, height, grain, ax, ay, bx, by);
        assert(rects[0] == unit_rectangle(ax, ay));
        assert(rects[1] == unit_rectangle(bx, by));
    } else {
        assert forall|x: int, y: int|
            0 <= x < width && 0 <= y < height implies (#[trigger] differs_at(
            new, reference, width, x, y,
        ) <==> (x == bx && y == by) || (x == ax && y == ay)) by {}
        lemma_two_changes_in_order(new, reference, width, height, grain, bx, by, ax, ay);
        assert(rects[0] == unit_rectangle(bx, by));
        assert(rects[1] == unit_rectangle(ax, ay));
    }
}

/// The reference frame that the update with the frame `k` of `frames` is
/// compared with: the frame before it, or `start` for the first one.
pub open spec fn reference_before(start: Seq<bool>, frames: Seq<Seq<bool>>, k: int) -> Seq<bool> {
    if k == 0 {
        start
    } else {
        frames[k - 1]
    }
}

/// The counters after one update with each of the first `n` frames, in
/// order and without a reset in between.
pub open spec fn counters_after(
    counters: Seq<u8>,
    start: Seq<bool>,
    frames: Seq<Seq<bool>>,
    n: nat,
) -> Seq<u8>
    decreases n,
{
    if n == 0 {
        counters
    } else {
        counted(
            counters_after(counters, start, frames, (n - 1) as nat),
            difference(frames[n - 1], reference_before(start, frames, n - 1)),
        )
    }
}

/// The highest counter after one update with each of the first `n` frames.
pub open spec fn highest_after(
    max: u8,
    counters: Seq<u8>,
    start: Seq<bool>,
    frames: Seq<Seq<bool>>,
    n: nat,
) -> u8
    decreases n,
{
    if n == 0 {
        max
    } else {
        highest(
            highest_after(max, counters, start, frames, (n - 1) as nat),
            counters_after(counters, start, frames, n),
            difference(frames[n - 1], reference_before(start, frames, n - 1)),
            frames[n - 1].len(),
        )
    }
}

/// A pixel that changes in each of `n` updates in a row has its counter
/// raised by `n`, and the highest counter is then no less than that, as
/// long as the counter stays within its eight bits.
pub proof fn law_counter_accumulation(
    max: u8,
    counters: Seq<u8>,
    start: Seq<bool>,
    frames: Seq<Seq<bool>>,
    n: nat,
    pixel: int,
)
    requires
        n <= frames.len(),
        0 <= pixel < counters.len(),
        start.len() == counters.len(),
        forall|k: int| 0 <= k < n ==> (#[trigger] frames[k]).len() == counters.len(),
        forall|k: int|
            0 <= k < n ==> (#[trigger] frames[k])[pixel] != reference_before(
                start,
                frames,
                k,
            )[pixel],
        counters[pixel] + n <= 255,
    ensures
        counters_after(counters, start, frames, n).len() == counters.len(),
        counters_after(counters, start, frames, n)[pixel] == counters[pixel] + n,
        n > 0 ==> highest_after(max, counters, start, frames, n) >= counters[pixel] + n,
    decreases n,
{
    if n > 0 {
        law_counter_accumulation(max, counters, start, frames, (n - 1) as nat, pixel);
        let mask = difference(frames[n - 1], reference_before(start, frames, n - 1));
        assert(frames[n - 1].len() == counters.len());
        assert(frames[n - 1][pixel] != reference_before(start, frames, n - 1)[pixel]);
        assert(mask[pixel]);
        lemma_highest(
            highest_after(max, counters, start, frames, (n - 1) as nat),
            counters_after(counters, start, frames, n),
            mask,
            frames[n - 1].len(),
        );
    }
}

/// Whether `holds` holds of `i`.
spec fn applies(holds: spec_fn(int) -> bool, i: int) -> bool {
    holds(i)
}

/// The least number from `from` up to `to` of which `holds` holds.
proof fn lemma_least(holds: spec_fn(int) -> bool, from: int, to: int) -> (least: int)
    requires
        exists|i: int| from <= i < to && #[trigger] applies(holds, i),
    ensures
        from <= least < to,
        holds(least),
        forall|i: int| from <= i < least ==> !#[trigger] applies(holds, i),
    decreases to - from,
{
    if holds(from) {
        from
    } else {
        let i = choose|i: int| from <= i < to && #[trigger] applies(holds, i);
        assert(from + 1 <= i < to && applies(holds, i));
        lemma_least(holds, from + 1, to)
    }
}

/// The greatest number from `from` up to `to` of which `holds` holds.
proof fn lemma_greatest(holds: spec_fn(int) -> bool, from: int, to: int) -> (greatest: int)
    requires
        exists|i: int| from <= i < to && #[trigger] applies(holds, i),
    ensures
        from <= greatest < to,
        holds(greatest),
        forall|i: int| greatest < i < to ==> !#[trigger] applies(holds, i),
    decreases to - from,
{
    if holds(to - 1) {
        to - 1
    } else {
        let i = choose|i: int| from <= i < to && #[trigger] applies(holds, i);
        assert(from <= i < to - 1 && applies(holds, i));
        lemma_greatest(holds, from, to - 1)
    }
}

/// Every tile that holds a changed pixel has a smallest rectangle around
/// its changed pixels, which is the one that an update yields for it.
pub proof fn law_bounding_box_exists(
    mask: Seq<bool>,
    width: int,
    x0: int,
    x1: int,
    y0: int,
    y1: int,
)
    requires
        0 <= x0 <= x1 <= i32::MAX,
        0 <= y0 <= y1 <= i32::MAX,
        tile_dirty(mask, width, x0, x1, y0, y1),
    ensures
        is_bounding_box(bounding_box(mask, width, x0, x1, y0, y1), mask, width, x0, x1, y0, y1),
{
    let (px, py) = choose|x: int, y: int|
        x0 <= x < x1 && y0 <= y < y1 && #[trigger] pixel_at(mask, width, x, y);
    let column = |x: int| exists|y: int| y0 <= y < y1 && #[trigger] pixel_at(mask, width, x, y);
    let row = |y: int| exists|x: int| x0 <= x < x1 && #[trigger] pixel_at(mask, width, x, y);
    assert(applies(column, px)) by {
        assert(y0 <= py < y1 && pixel_at(mask, width, px, py));
    }
    assert(applies(row, py)) by {
        assert(x0 <= px < x1 && pixel_at(mask, width, px, py));
    }
    let left = lemma_least(column, x0, x1);
    let right = lemma_greatest(column, x0, x1);
    let top = lemma_least(row, y0, y1);
    let bottom = lemma_greatest(row, y0, y1);
    let r = Rectangle {
        top_left: Point { x: left as i32, y: top as i32 },
        size: Size { width: (right - left + 1) as u32, height: (bottom - top + 1) as u32 },
    };
    assert(left <= right) by {
        if right < left {
            assert(!applies(column, left));
        }
    }
    assert(top <= bottom) by {
        if bottom < top {
            assert(!applies(row, top));
        }
    }
    assert forall|x: int, y: int|
        x0 <= x < x1 && y0 <= y < y1 && #[trigger] pixel_at(mask, width, x, y) implies r.covers(
        x,
        y,
    ) by {
        assert(applies(column, x));
        assert(applies(row, y));
    }
    let left_y = choose|y: int| y0 <= y < y1 && #[trigger] pixel_at(mask, width, left, y);
    let right_y = choose|y: int| y0 <= y < y1 && #[trigger] pixel_at(mask, width, right, y);
    let top_x = choose|x: int| x0 <= x < x1 && #[trigger] pixel_at(mask, width, x, top);
    let bottom_x = choose|x: int| x0 <= x < x1 && #[trigger] pixel_at(mask, width, x, bottom);
    assert(r.covers(left, left_y));
    assert(r.covers(right, right_y));
    assert(r.covers(top_x, top));
    assert(r.covers(bottom_x, bottom));
    lemma_box(r, mask, width, x0, x1, y0, y1, left_y, right_y, top_x, bottom_x);
}

/// The rectangles of a row of tiles lie inside the frame.
proof fn lemma_row_within(
    mask: Seq<bool>,
    width: int,
    height: int,
    grain: int,
    y0: int,
    x0: int,
)
    requires
        0 <= x0,
        0 <= y0 < height,
        0 <= width <= i32::MAX,
        height <= i32::MAX,
    ensures
        forall|k: int|
            0 <= k < row_rectangles(mask, width, height, grain, y0, x0).len()
                ==> (#[trigger] row_rectangles(mask, width, height, grain, y0, x0)[k]).within(
                width,
                height,
            ),
    decreases
            if x0 < width {
                width - x0
            } else {
                0
            },
{
    if x0 < width && grain > 0 {
        lemma_row_within(mask, width, height, grain, y0, x0 + grain);
        let x1 = tile_end(x0, grain, width);
        let y1 = tile_end(y0, grain, height);
        let all = row_rectangles(mask, width, height, grain, y0, x0);
        let rest = row_rectangles(mask, width, height, grain, y0, x0 + grain);
        if tile_dirty(mask, width, x0, x1, y0, y1) {
            law_bounding_box_exists(mask, width, x0, x1, y0, y1);
            let first = bounding_box(mask, width, x0, x1, y0, y1);
            assert(all =~= seq![first] + rest);
            assert forall|k: int| 0 <= k < all.len() implies (#[trigger] all[k]).within(
                width,
                height,
            ) by {
                if k > 0 {
                    assert(all[k] == rest[k - 1]);
                }
            }
        } else {
            assert(all =~= rest);
        }
    }
}

/// The rectangles of the rows of tiles from a row on lie inside the frame.
proof fn lemma_rows_within(mask: Seq<bool>, width: int, height: int, grain: int, y0: int)
    requires
        0 <= y0,
        0 <= width <= i32::MAX,
        height <= i32::MAX,
    ensures
        forall|k: int|
            0 <= k < rectangles_from(mask, width, height, grain, y0).len()
                ==> (#[trigger] rectangles_from(mask, width, height, grain, y0)[k]).within(
                width,
                height,
            ),
    decreases
            if y0 < height {
                height - y0
            } else {
                0
            },
{
    if y0 < height && grain > 0 {
        lemma_rows_within(mask, width, height, grain, y0 + grain);
        lemma_row_within(mask, width, height, grain, y0, 0);
        let all = rectangles_from(mask, width, height, grain, y0);
        let row = row_rectangles(mask, width, height, grain, y0, 0);
        let rest = rectangles_from(mask, width, height, grain, y0 + grain);
        assert(all =~= row + rest);
        assert forall|k: int| 0 <= k < all.len() implies (#[trigger] all[k]).within(
            width,
            height,
        ) by {
            if k < row.len() {
                assert(all[k] == row[k]);
            } else {
                assert(all[k] == rest[k - row.len()]);
            }
        }
    }
}

/// Every rectangle that an update yields lies inside the frame.
pub proof fn law_rectangles_within(mask: Seq<bool>, width: int, height: int, grain: int)
    requires
        0 <= width <= i32::MAX,
        0 <= height <= i32::MAX,
    ensures
        forall|k: int|
            0 <= k < dirty_rectangles(mask, width, height, grain).len()
                ==> (#[trigger] dirty_rectangles(mask, width, height, grain)[k]).within(
                width,
                height,
            ),
{
    lemma_rows_within(mask, width, height, grain, 0);
}

} // verus!
