//! Detection of the regions of a frame that changed since the last refresh.
//!
//! The frame is cut into square tiles. A new frame is compared with a
//! reference frame tile by tile; each tile that holds a changed pixel yields
//! the smallest rectangle around its changed pixels. Every pixel also counts
//! how often it changed since the counters were last reset.
use vstd::prelude::*;
use crate::binary_framebuffer::{lemma_index_point, lemma_pixel_index, BinaryFrameBuffer};
use crate::geometry::{Point, Rectangle, Size};

verus! {

/// The entry of a row-major sequence that belongs to the pixel `(x, y)`.
pub open spec fn pixel_at<T>(s: Seq<T>, width: int, x: int, y: int) -> T {
    s[y * width + x]
}

/// For each pixel, whether the new frame differs from the reference.
pub open spec fn difference(new: Seq<bool>, reference: Seq<bool>) -> Seq<bool> {
    Seq::new(new.len(), |i: int| new[i] != reference[i])
}

/// A counter after its pixel was compared: one more if the pixel changed,
/// and never more than 255.
pub open spec fn bumped(count: u8, changed: bool) -> u8 {
    if changed && count < 255 {
        (count + 1) as u8
    } else {
        count
    }
}

/// The counters after a comparison with the differences `mask`.
pub open spec fn counted(counters: Seq<u8>, mask: Seq<bool>) -> Seq<u8> {
    Seq::new(counters.len(), |i: int| bumped(counters[i], mask[i]))
}

/// The largest of `start` and the counters of the first `n` pixels that
/// changed.
pub open spec fn highest(start: u8, counters: Seq<u8>, mask: Seq<bool>, n: nat) -> u8
    decreases n,
{
    if n == 0 {
        start
    } else {
        let rest = highest(start, counters, mask, (n - 1) as nat);
        if mask[n - 1] && counters[n - 1] > rest {
            counters[n - 1]
        } else {
            rest
        }
    }
}

/// Where the tile that starts at `start` ends: one grain further, or at the
/// edge of the frame.
pub open spec fn tile_end(start: int, grain: int, limit: int) -> int {
    if start + grain < limit {
        start + grain
    } else {
        limit
    }
}

/// Whether the tile `x0 .. x1` by `y0 .. y1` holds a changed pixel.
pub open spec fn tile_dirty(
    mask: Seq<bool>,
    width: int,
    x0: int,
    x1: int,
    y0: int,
    y1: int,
) -> bool {
    exists|x: int, y: int| x0 <= x < x1 && y0 <= y < y1 && #[trigger] pixel_at(mask, width, x, y)
}

/// Whether `r` is the smallest rectangle around the changed pixels of the
/// tile `x0 .. x1` by `y0 .. y1`: it covers each of them, and each of its
/// four edges holds one.
pub open spec fn is_bounding_box(
    r: Rectangle,
    mask: Seq<bool>,
    width: int,
    x0: int,
    x1: int,
    y0: int,
    y1: int,
) -> bool {
    let left = r.top_left.x as int;
    let top = r.top_left.y as int;
    let right = left + r.size.width;
    let bottom = top + r.size.height;
    &&& x0 <= left < right <= x1
    &&& y0 <= top < bottom <= y1
    &&& forall|x: int, y: int|
        x0 <= x < x1 && y0 <= y < y1 && #[trigger] pixel_at(mask, width, x, y) ==> r.covers(x, y)
    &&& exists|y: int| top <= y < bottom && #[trigger] pixel_at(mask, width, left, y)
    &&& exists|y: int| top <= y < bottom && #[trigger] pixel_at(mask, width, right - 1, y)
    &&& exists|x: int| left <= x < right && #[trigger] pixel_at(mask, width, x, top)
    &&& exists|x: int| left <= x < right && #[trigger] pixel_at(mask, width, x, bottom - 1)
}

/// The smallest rectangle around the changed pixels of a tile.
pub open spec fn bounding_box(
    mask: Seq<bool>,
    width: int,
    x0: int,
    x1: int,
    y0: int,
    y1: int,
) -> Rectangle {
    choose|r: Rectangle| is_bounding_box(r, mask, width, x0, x1, y0, y1)
}

/// The rectangles of one row of tiles, from the tile that starts at column
/// `x0` to the right edge.
pub open spec fn row_rectangles(
    mask: Seq<bool>,
    width: int,
    height: int,
    grain: int,
    y0: int,
    x0: int,
) -> Seq<Rectangle>
    decreases if x0 < width { width - x0 } else { 0 },
{
    if x0 >= width || grain <= 0 {
        Seq::empty()
    } else {
        let x1 = tile_end(x0, grain, width);
        let y1 = tile_end(y0, grain, height);
        let head = if tile_dirty(mask, width, x0, x1, y0, y1) {
            seq![bounding_box(mask, width, x0, x1, y0, y1)]
        } else {
            Seq::empty()
        };
        head + row_rectangles(mask, width, height, grain, y0, x0 + grain)
    }
}

/// The rectangles of all rows of tiles from the row that starts at `y0` down.
pub open spec fn rectangles_from(
    mask: Seq<bool>,
    width: int,
    height: int,
    grain: int,
    y0: int,
) -> Seq<Rectangle>
    decreases if y0 < height { height - y0 } else { 0 },
{
    if y0 >= height || grain <= 0 {
        Seq::empty()
    } else {
        row_rectangles(mask, width, height, grain, y0, 0) + rectangles_from(
            mask, width, height, grain, y0 + grain,
        )
    }
}

/// One rectangle for each tile that holds a changed pixel, tiles taken row
/// by row and from left to right.
pub open spec fn dirty_rectangles(mask: Seq<bool>, width: int, height: int, grain: int) -> Seq<
    Rectangle,
> {
    rectangles_from(mask, width, height, grain, 0)
}

/// Two pixels of a frame with the same index are the same pixel.
pub proof fn lemma_index_injective(x: int, y: int, a: int, b: int, width: int)
    requires
        0 <= x < width,
        0 <= a < width,
        y * width + x == b * width + a,
    ensures
        x == a,
        y == b,
{
    assert(y == b) by (nonlinear_arith)
        requires
            0 <= x < width,
            0 <= a < width,
            y * width + x == b * width + a,
    ;
}

/// A tile has at most one smallest rectangle around its changed pixels.
pub proof fn lemma_bounding_box_unique(
    r: Rectangle,
    mask: Seq<bool>,
    width: int,
    x0: int,
    x1: int,
    y0: int,
    y1: int,
)
    requires
        is_bounding_box(r, mask, width, x0, x1, y0, y1),
    ensures
        bounding_box(mask, width, x0, x1, y0, y1) == r,
        tile_dirty(mask, width, x0, x1, y0, y1),
{
    let s = bounding_box(mask, width, x0, x1, y0, y1);
    assert(is_bounding_box(s, mask, width, x0, x1, y0, y1));
    lemma_edges_inside(r, s, mask, width, x0, x1, y0, y1);
    lemma_edges_inside(s, r, mask, width, x0, x1, y0, y1);
    let y = choose|y: int|
        r.top_left.y <= y < r.top_left.y + r.size.height && #[trigger] pixel_at(
            mask, width, r.top_left.x as int, y,
        );
    assert(pixel_at(mask, width, r.top_left.x as int, y));
}

/// The edges of one smallest rectangle lie inside any other one.
proof fn lemma_edges_inside(
    r: Rectangle,
    s: Rectangle,
    mask: Seq<bool>,
    width: int,
    x0: int,
    x1: int,
    y0: int,
    y1: int,
)
    requires
        is_bounding_box(r, mask, width, x0, x1, y0, y1),
        is_bounding_box(s, mask, width, x0, x1, y0, y1),
    ensures
        s.top_left.x <= r.top_left.x,
        s.top_left.y <= r.top_left.y,
        r.top_left.x + r.size.width <= s.top_left.x + s.size.width,
        r.top_left.y + r.size.height <= s.top_left.y + s.size.height,
{
    let left = r.top_left.x as int;
    let top = r.top_left.y as int;
    let right = left + r.size.width;
    let bottom = top + r.size.height;
    let ya = choose|y: int| top <= y < bottom && #[trigger] pixel_at(mask, width, left, y);
    assert(s.covers(left, ya));
    let yb = choose|y: int| top <= y < bottom && #[trigger] pixel_at(mask, width, right - 1, y);
    assert(s.covers(right - 1, yb));
    let xa = choose|x: int| left <= x < right && #[trigger] pixel_at(mask, width, x, top);
    assert(s.covers(xa, top));
    let xb = choose|x: int| left <= x < right && #[trigger] pixel_at(mask, width, x, bottom - 1);
    assert(s.covers(xb, bottom - 1));
}

/// What `highest` is: no less than `start` and than the counter of any
/// changed pixel, and equal to one of them.
pub proof fn lemma_highest(start: u8, counters: Seq<u8>, mask: Seq<bool>, n: nat)
    ensures
        highest(start, counters, mask, n) >= start,
        forall|i: int| 0 <= i < n && mask[i] ==> highest(start, counters, mask, n) >= counters[i],
        highest(start, counters, mask, n) == start || exists|i: int|
            0 <= i < n && mask[i] && highest(start, counters, mask, n) == counters[i],
    decreases n,
{
    if n > 0 {
        lemma_highest(start, counters, mask, (n - 1) as nat);
        let rest = highest(start, counters, mask, (n - 1) as nat);
        if mask[n - 1] && counters[n - 1] > rest {
        } else if rest != start {
            let i = choose|i: int| 0 <= i < n - 1 && mask[i] && rest == counters[i];
            assert(0 <= i < n && mask[i] && highest(start, counters, mask, n) == counters[i]);
        }
    }
}

/// Whether the pixel `(px, py)` lies in the tile `x0 .. x1` by `y0 .. y1`.
pub open spec fn in_tile(px: int, py: int, x0: int, x1: int, y0: int, y1: int) -> bool {
    x0 <= px < x1 && y0 <= py < y1
}

/// Whether a scan of a tile that has reached the pixel `(x, y)` has already
/// passed the pixel `(px, py)`.
spec fn scanned(px: int, py: int, x0: int, x1: int, y0: int, y1: int, x: int, y: int) -> bool {
    in_tile(px, py, x0, x1, y0, y1) && (py < y || (py == y && px < x))
}

/// The state of one pixel: after it was compared (`done`), the reference
/// holds the new bit and the counter is bumped; before, both are as they were.
pub open spec fn pixel_settled(
    reference: Seq<bool>,
    counters: Seq<u8>,
    reference0: Seq<bool>,
    counters0: Seq<u8>,
    new: Seq<bool>,
    width: int,
    px: int,
    py: int,
    done: bool,
) -> bool {
    let i = py * width + px;
    if done {
        reference[i] == new[i] && counters[i] == bumped(counters0[i], new[i] != reference0[i])
    } else {
        reference[i] == reference0[i] && counters[i] == counters0[i]
    }
}

/// The state of one pixel in the middle of the scan of a tile.
spec fn pixel_scanned(
    reference: Seq<bool>,
    counters: Seq<u8>,
    reference0: Seq<bool>,
    counters0: Seq<u8>,
    new: Seq<bool>,
    width: int,
    px: int,
    py: int,
    x0: int,
    x1: int,
    y0: int,
    y1: int,
    x: int,
    y: int,
) -> bool {
    pixel_settled(
        reference,
        counters,
        reference0,
        counters0,
        new,
        width,
        px,
        py,
        scanned(px, py, x0, x1, y0, y1, x, y),
    )
}

/// The state of one pixel after the scan of a tile.
pub open spec fn pixel_after_tile(
    reference: Seq<bool>,
    counters: Seq<u8>,
    reference0: Seq<bool>,
    counters0: Seq<u8>,
    new: Seq<bool>,
    width: int,
    px: int,
    py: int,
    x0: int,
    x1: int,
    y0: int,
    y1: int,
) -> bool {
    pixel_settled(
        reference,
        counters,
        reference0,
        counters0,
        new,
        width,
        px,
        py,
        in_tile(px, py, x0, x1, y0, y1),
    )
}

/// The smallest rectangle of a tile depends on the differences inside the
/// tile only.
pub proof fn lemma_same_tile(
    r: Rectangle,
    mask: Seq<bool>,
    other: Seq<bool>,
    width: int,
    x0: int,
    x1: int,
    y0: int,
    y1: int,
)
    requires
        forall|x: int, y: int|
            x0 <= x < x1 && y0 <= y < y1 ==> #[trigger] pixel_at(mask, width, x, y) == pixel_at(
                other, width, x, y,
            ),
    ensures
        tile_dirty(mask, width, x0, x1, y0, y1) == tile_dirty(other, width, x0, x1, y0, y1),
        is_bounding_box(r, mask, width, x0, x1, y0, y1) ==> is_bounding_box(
            r, other, width, x0, x1, y0, y1,
        ),
{
    if tile_dirty(mask, width, x0, x1, y0, y1) {
        let (x, y) = choose|x: int, y: int|
            x0 <= x < x1 && y0 <= y < y1 && #[trigger] pixel_at(mask, width, x, y);
        assert(pixel_at(other, width, x, y));
    }
    if tile_dirty(other, width, x0, x1, y0, y1) {
        let (x, y) = choose|x: int, y: int|
            x0 <= x < x1 && y0 <= y < y1 && #[trigger] pixel_at(other, width, x, y);
        assert(pixel_at(mask, width, x, y));
    }
    if is_bounding_box(r, mask, width, x0, x1, y0, y1) {
        let left = r.top_left.x as int;
        let top = r.top_left.y as int;
        let right = left + r.size.width;
        let bottom = top + r.size.height;
        assert forall|x: int, y: int|
            x0 <= x < x1 && y0 <= y < y1 && #[trigger] pixel_at(
                other, width, x, y,
            ) implies r.covers(x, y) by {
            assert(pixel_at(mask, width, x, y));
        }
        let ya = choose|y: int| top <= y < bottom && #[trigger] pixel_at(mask, width, left, y);
        assert(pixel_at(other, width, left, ya));
        let yb = choose|y: int|
            top <= y < bottom && #[trigger] pixel_at(mask, width, right - 1, y);
        assert(pixel_at(other, width, right - 1, yb));
        let xa = choose|x: int| left <= x < right && #[trigger] pixel_at(mask, width, x, top);
        assert(pixel_at(other, width, xa, top));
        let xb = choose|x: int|
            left <= x < right && #[trigger] pixel_at(mask, width, x, bottom - 1);
        assert(pixel_at(other, width, xb, bottom - 1));
    }
}

/// Whether any pixel changed.
pub open spec fn any_changed(mask: Seq<bool>) -> bool {
    exists|i: int| 0 <= i < mask.len() && mask[i]
}

/// Whether a walk over the tiles that has reached the tile at `(x0, y0)`,
/// in the row of tiles `y0 .. y1`, has already passed the pixel `(px, py)`.
spec fn walked(px: int, py: int, x0: int, y0: int, y1: int) -> bool {
    py < y0 || (y0 <= py < y1 && px < x0)
}

/// The state of one pixel in the middle of a walk over the tiles.
spec fn pixel_walked(
    reference: Seq<bool>,
    counters: Seq<u8>,
    reference0: Seq<bool>,
    counters0: Seq<u8>,
    new: Seq<bool>,
    width: int,
    px: int,
    py: int,
    x0: int,
    y0: int,
    y1: int,
) -> bool {
    pixel_settled(
        reference,
        counters,
        reference0,
        counters0,
        new,
        width,
        px,
        py,
        walked(px, py, x0, y0, y1),
    )
}

/// Past the right edge a row of tiles has no rectangles left, and past the
/// bottom edge no row of tiles is left.
proof fn lemma_rectangles_end(
    mask: Seq<bool>,
    width: int,
    height: int,
    grain: int,
    y0: int,
    x0: int,
)
    ensures
        x0 >= width ==> row_rectangles(mask, width, height, grain, y0, x0) == Seq::<
            Rectangle,
        >::empty(),
        y0 >= height ==> rectangles_from(mask, width, height, grain, y0) == Seq::<
            Rectangle,
        >::empty(),
{
}

/// Per-pixel change counters and the tile size of the comparison.
#[derive(Debug)]
pub struct BinaryChangeTracker {
    width: u32,
    height: u32,
    size: usize,
    buffer: Vec<u8>,
    grain: u32,
    max_changes: u8,
}

impl BinaryChangeTracker {
    /// For each pixel, how often it changed since the last reset.
    pub closed spec fn counters(&self) -> Seq<u8> {
        self.buffer@
    }

    /// Width of the frames in pixels.
    pub closed spec fn spec_width(&self) -> u32 {
        self.width
    }

    /// Height of the frames in pixels.
    pub closed spec fn spec_height(&self) -> u32 {
        self.height
    }

    /// Edge length of a tile in pixels.
    pub closed spec fn spec_grain(&self) -> u32 {
        self.grain
    }

    /// The highest counter reached since the last reset.
    pub closed spec fn spec_max_changes(&self) -> u8 {
        self.max_changes
    }

    /// The tracker is consistent: it holds one counter for each pixel.
    pub closed spec fn wf(&self) -> bool {
        &&& self.size == self.width * self.height
        &&& self.buffer@.len() == self.size
    }

    /// What holds throughout a comparison of the frame `buffer` with
    /// `reference`: the three have one shape, which fits the coordinates of a
    /// rectangle, and `mask` holds the differences from the reference as it
    /// was at the start.
    spec fn comparing<C>(
        &self,
        start: &Self,
        buffer: &BinaryFrameBuffer<C>,
        reference: &BinaryFrameBuffer<C>,
        reference0: Seq<bool>,
        counters0: Seq<u8>,
        mask: Seq<bool>,
    ) -> bool {
        let w = self.width as int;
        let h = self.height as int;
        &&& self.wf()
        &&& buffer.wf()
        &&& reference.wf()
        &&& w <= i32::MAX
        &&& h <= i32::MAX
        &&& self.grain == start.grain
        &&& self.width == start.width
        &&& self.height == start.height
        &&& buffer.spec_width() == w
        &&& buffer.spec_height() == h
        &&& reference.spec_width() == w
        &&& reference.spec_height() == h
        &&& buffer@.len() == w * h
        &&& reference@.len() == w * h
        &&& self.buffer@.len() == w * h
        &&& reference0.len() == w * h
        &&& counters0.len() == w * h
        &&& mask == difference(buffer@, reference0)
    }

    /// A consistent tracker holds one counter for each pixel.
    pub proof fn lemma_counters_len(&self)
        requires
            self.wf(),
        ensures
            self.counters().len() == self.spec_width() * self.spec_height(),
    {
    }

    /// A tracker for frames of `width` by `height` pixels that compares in
    /// tiles of `grain` by `grain` pixels. All counters start at zero.
    pub fn new(width: u32, height: u32, grain: u32) -> (tracker: Self)
        requires
            width * height <= u32::MAX,
        ensures
            tracker.wf(),
            tracker.spec_width() == width,
            tracker.spec_height() == height,
            tracker.spec_grain() == grain,
            tracker.spec_max_changes() == 0,
            tracker.counters() == Seq::new((width * height) as nat, |i: int| 0u8),
    {
        let size: usize = (width as u64 * height as u64) as usize;
        let mut buffer: Vec<u8> = Vec::new();
        let mut i: usize = 0;
        while i < size
            invariant
                i <= size,
                buffer@.len() == i,
                forall|k: int| 0 <= k < i ==> buffer@[k] == 0u8,
            decreases size - i,
        {
            buffer.push(0u8);
            i += 1;
        }
        let tracker = BinaryChangeTracker { width, height, grain, size, buffer, max_changes: 0 };
        proof {
            assert(tracker.counters() =~= Seq::new((width * height) as nat, |i: int| 0u8));
        }
        tracker
    }

    /// Width of the frames in pixels.
    pub fn width(&self) -> (width: u32)
        ensures
            width == self.spec_width(),
    {
        self.width
    }

    /// Height of the frames in pixels.
    pub fn height(&self) -> (height: u32)
        ensures
            height == self.spec_height(),
    {
        self.height
    }

    /// The highest counter reached since the last reset.
    pub fn get_max_changes(&self) -> (max: u8)
        ensures
            max == self.spec_max_changes(),
    {
        self.max_changes
    }

    /// Makes `buffer` the new baseline: `reference` becomes a copy of its
    /// pixels, and every counter returns to zero.
    pub fn reset<C>(&mut self, buffer: &BinaryFrameBuffer<C>, reference: &mut BinaryFrameBuffer<C>)
        requires
            old(self).wf(),
            buffer.wf(),
            old(reference).wf(),
            buffer@.len() == old(self).counters().len(),
            old(reference)@.len() == old(self).counters().len(),
        ensures
            final(self).wf(),
            final(self).spec_width() == old(self).spec_width(),
            final(self).spec_height() == old(self).spec_height(),
            final(self).spec_grain() == old(self).spec_grain(),
            final(self).spec_max_changes() == 0,
            final(self).counters() == Seq::new(old(self).counters().len(), |i: int| 0u8),
            final(reference).wf(),
            final(reference).spec_width() == old(reference).spec_width(),
            final(reference).spec_height() == old(reference).spec_height(),
            final(reference)@ == buffer@,
    {
        self.max_changes = 0;
        let mut i: usize = 0;
        while i < self.size
            invariant
                i <= self.size,
                self.wf(),
                self.size == old(self).size,
                self.width == old(self).width,
                self.height == old(self).height,
                self.grain == old(self).grain,
                self.max_changes == 0,
                buffer.wf(),
                reference.wf(),
                buffer@.len() == self.size,
                reference@.len() == self.size,
                reference.spec_width() == old(reference).spec_width(),
                reference.spec_height() == old(reference).spec_height(),
                forall|k: int| 0 <= k < i ==> reference@[k] == buffer@[k],
                forall|k: int| 0 <= k < i ==> self.buffer@[k] == 0u8,
            decreases self.size - i,
        {
            let v: bool = buffer.get_bit(i);
            reference.set_bit(i, v);
            self.buffer.set(i, 0u8);
            i += 1;
        }
        proof {
            assert(reference@ =~= buffer@);
            assert(self.counters() =~= Seq::new(old(self).counters().len(), |i: int| 0u8));
        }
    }

    /// Compares the pixels of one tile, brings the reference and the
    /// counters up to date there, and returns the smallest rectangle around
    /// the pixels that changed, if any did.
    fn scan_tile<C>(
        &mut self,
        buffer: &BinaryFrameBuffer<C>,
        reference: &mut BinaryFrameBuffer<C>,
        x0: u32,
        x1: u32,
        y0: u32,
        y1: u32,
    ) -> (found: Option<Rectangle>)
        requires
            old(self).wf(),
            buffer.wf(),
            old(reference).wf(),
            buffer.spec_width() == old(self).spec_width(),
            buffer.spec_height() == old(self).spec_height(),
            old(reference).spec_width() == old(self).spec_width(),
            old(reference).spec_height() == old(self).spec_height(),
            old(self).spec_width() <= i32::MAX,
            old(self).spec_height() <= i32::MAX,
            x0 < x1 <= old(self).spec_width(),
            y0 < y1 <= old(self).spec_height(),
        ensures
            final(self).wf(),
            final(self).spec_width() == old(self).spec_width(),
            final(self).spec_height() == old(self).spec_height(),
            final(self).spec_grain() == old(self).spec_grain(),
            final(reference).wf(),
            final(reference).spec_width() == old(reference).spec_width(),
            final(reference).spec_height() == old(reference).spec_height(),
            forall|px: int, py: int|
                0 <= px < old(self).spec_width() && 0 <= py < old(self).spec_height()
                    ==> #[trigger] pixel_after_tile(
                    final(reference)@,
                    final(self).counters(),
                    old(reference)@,
                    old(self).counters(),
                    buffer@,
                    old(self).spec_width() as int,
                    px,
                    py,
                    x0 as int,
                    x1 as int,
                    y0 as int,
                    y1 as int,
                ),
            final(self).spec_max_changes() >= old(self).spec_max_changes(),
            forall|px: int, py: int|
                in_tile(px, py, x0 as int, x1 as int, y0 as int, y1 as int) && #[trigger] pixel_at(
                    difference(buffer@, old(reference)@),
                    old(self).spec_width() as int,
                    px,
                    py,
                ) ==> final(self).spec_max_changes() >= pixel_at(
                    final(self).counters(),
                    old(self).spec_width() as int,
                    px,
                    py,
                ),
            final(self).spec_max_changes() == old(self).spec_max_changes() || exists|
                px: int,
                py: int,
            |
                in_tile(px, py, x0 as int, x1 as int, y0 as int, y1 as int) && #[trigger] pixel_at(
                    difference(buffer@, old(reference)@),
                    old(self).spec_width() as int,
                    px,
                    py,
                ) && final(self).spec_max_changes() == pixel_at(
                    final(self).counters(),
                    old(self).spec_width() as int,
                    px,
                    py,
                ),
            found.is_some() == tile_dirty(
                difference(buffer@, old(reference)@),
                old(self).spec_width() as int,
                x0 as int,
                x1 as int,
                y0 as int,
                y1 as int,
            ),
            found.is_some() ==> is_bounding_box(
                found.unwrap(),
                difference(buffer@, old(reference)@),
                old(self).spec_width() as int,
                x0 as int,
                x1 as int,
                y0 as int,
                y1 as int,
            ),
    {
        let ghost reference0 = reference@;
        let ghost counters0 = self.buffer@;
        let ghost max0 = self.max_changes;
        let ghost new = buffer@;
        let ghost mask = difference(buffer@, reference@);
        let ghost w = self.width as int;
        let ghost h = self.height as int;
        proof {
            buffer.lemma_view();
            reference.lemma_view();
        }
        let mut changed: bool = false;
        let mut min_x: u32 = x0;
        let mut min_y: u32 = y0;
        let mut max_x: u32 = x0;
        let mut max_y: u32 = y0;
        // Where the scan met a changed pixel on each edge of the rectangle,
        // and where it met the pixel with the highest counter.
        let ghost left_y: int = 0;
        let ghost right_y: int = 0;
        let ghost top_x: int = 0;
        let ghost bottom_x: int = 0;
        let ghost peak: (int, int) = (0, 0);
        let mut y: u32 = y0;
        while y < y1
            invariant
                y0 <= y <= y1,
                self.comparing(old(self), buffer, reference, reference0, counters0, mask),
                w == self.width,
                h == self.height,
                new == buffer@,
                x0 < x1 <= w,
                y0 < y1 <= h,
                forall|px: int, py: int|
                    0 <= px < w && 0 <= py < h ==> #[trigger] pixel_scanned(
                        reference@, self.buffer@, reference0, counters0, new, w, px, py,
                        x0 as int, x1 as int, y0 as int, y1 as int, x0 as int, y as int,
                    ),
                self.max_changes >= max0,
                forall|px: int, py: int|
                    scanned(px, py, x0 as int, x1 as int, y0 as int, y1 as int, x0 as int, y as int)
                        && #[trigger] pixel_at(mask, w, px, py) ==> self.max_changes >= bumped(
                        pixel_at(counters0, w, px, py),
                        true,
                    ),
                self.max_changes == max0 || (scanned(
                    peak.0, peak.1, x0 as int, x1 as int, y0 as int, y1 as int, x0 as int,
                    y as int,
                ) && pixel_at(mask, w, peak.0, peak.1) && self.max_changes == bumped(
                    pixel_at(counters0, w, peak.0, peak.1),
                    true,
                )),
                !changed ==> forall|px: int, py: int|
                    scanned(px, py, x0 as int, x1 as int, y0 as int, y1 as int, x0 as int, y as int)
                        ==> !#[trigger] pixel_at(mask, w, px, py),
                changed ==> {
                    &&& x0 <= min_x <= max_x < x1
                    &&& y0 <= min_y <= max_y < y
                    &&& forall|px: int, py: int|
                        scanned(
                            px, py, x0 as int, x1 as int, y0 as int, y1 as int, x0 as int,
                            y as int,
                        ) && #[trigger] pixel_at(mask, w, px, py) ==> min_x <= px <= max_x && min_y
                            <= py <= max_y
                    &&& min_y <= left_y <= max_y && pixel_at(mask, w, min_x as int, left_y)
                    &&& min_y <= right_y <= max_y && pixel_at(mask, w, max_x as int, right_y)
                    &&& min_x <= top_x <= max_x && pixel_at(mask, w, top_x, min_y as int)
                    &&& min_x <= bottom_x <= max_x && pixel_at(mask, w, bottom_x, max_y as int)
                },
            decreases y1 - y,
        {
            let mut x: u32 = x0;
            while x < x1
                invariant
                    y0 <= y < y1,
                    x0 <= x <= x1,
                    self.comparing(old(self), buffer, reference, reference0, counters0, mask),
                    w == self.width,
                    h == self.height,
                    new == buffer@,
                    x0 < x1 <= w,
                    y0 < y1 <= h,
                    forall|px: int, py: int|
                        0 <= px < w && 0 <= py < h ==> #[trigger] pixel_scanned(
                            reference@, self.buffer@, reference0, counters0, new, w, px, py,
                            x0 as int, x1 as int, y0 as int, y1 as int, x as int, y as int,
                        ),
                    self.max_changes >= max0,
                    forall|px: int, py: int|
                        scanned(
                            px, py, x0 as int, x1 as int, y0 as int, y1 as int, x as int,
                            y as int,
                        ) && #[trigger] pixel_at(mask, w, px, py) ==> self.max_changes >= bumped(
                            pixel_at(counters0, w, px, py),
                            true,
                        ),
                    self.max_changes == max0 || (scanned(
                        peak.0, peak.1, x0 as int, x1 as int, y0 as int, y1 as int, x as int,
                        y as int,
                    ) && pixel_at(mask, w, peak.0, peak.1) && self.max_changes == bumped(
                        pixel_at(counters0, w, peak.0, peak.1),
                        true,
                    )),
                    !changed ==> forall|px: int, py: int|
                        scanned(
                            px, py, x0 as int, x1 as int, y0 as int, y1 as int, x as int,
                            y as int,
                        ) ==> !#[trigger] pixel_at(mask, w, px, py),
                    changed ==> {
                        &&& x0 <= min_x <= max_x < x1
                        &&& y0 <= min_y <= max_y <= y
                        &&& forall|px: int, py: int|
                            scanned(
                                px, py, x0 as int, x1 as int, y0 as int, y1 as int, x as int,
                                y as int,
                            ) && #[trigger] pixel_at(mask, w, px, py) ==> min_x <= px <= max_x
                                && min_y <= py <= max_y
                        &&& min_y <= left_y <= max_y && pixel_at(mask, w, min_x as int, left_y)
                        &&& min_y <= right_y <= max_y && pixel_at(mask, w, max_x as int, right_y)
                        &&& min_x <= top_x <= max_x && pixel_at(mask, w, top_x, min_y as int)
                        &&& min_x <= bottom_x <= max_x && pixel_at(mask, w, bottom_x, max_y as int)
                    },
                decreases x1 - x,
            {
                proof {
                    lemma_pixel_index(x as int, y as int, w, h);
                    assert(pixel_scanned(
                        reference@, self.buffer@, reference0, counters0, new, w, x as int,
                        y as int, x0 as int, x1 as int, y0 as int, y1 as int, x as int, y as int,
                    ));
                }
                let ghost reference1 = reference@;
                let ghost counters1 = self.buffer@;
                let i: usize = (y as u64 * self.width as u64 + x as u64) as usize;
                let v: bool = buffer.get_bit(i);
                let ref_v: bool = reference.get_bit(i);
                if v != ref_v {
                    reference.set_bit(i, v);
                    let count: u8 = self.buffer[i];
                    let changes: u8 = if count < 255 {
                        count + 1
                    } else {
                        count
                    };
                    self.buffer.set(i, changes);
                    if self.max_changes < changes {
                        self.max_changes = changes;
                        proof {
                            peak = (x as int, y as int);
                        }
                    }
                    if !changed {
                        changed = true;
                        min_x = x;
                        min_y = y;
                        max_x = x;
                        max_y = y;
                        proof {
                            left_y = y as int;
                            right_y = y as int;
                            top_x = x as int;
                            bottom_x = x as int;
                        }
                    } else {
                        if x < min_x {
                            min_x = x;
                            proof {
                                left_y = y as int;
                            }
                        }
                        if x > max_x {
                            max_x = x;
                            proof {
                                right_y = y as int;
                            }
                        }
                        if y > max_y {
                            max_y = y;
                            proof {
                                bottom_x = x as int;
                            }
                        }
                    }
                }
                proof {
                    assert(pixel_at(mask, w, x as int, y as int) == (v != ref_v));
                    assert forall|px: int, py: int|
                        0 <= px < w && 0 <= py < h implies #[trigger] pixel_scanned(
                        reference@, self.buffer@, reference0, counters0, new, w, px, py,
                        x0 as int, x1 as int, y0 as int, y1 as int, x + 1, y as int,
                    ) by {
                        assert(pixel_scanned(
                            reference1, counters1, reference0, counters0, new, w, px, py,
                            x0 as int, x1 as int, y0 as int, y1 as int, x as int, y as int,
                        ));
                        lemma_pixel_index(px, py, w, h);
                        if py * w + px == y * w + x {
                            lemma_index_injective(px, py, x as int, y as int, w);
                        }
                    }
                }
                x += 1;
            }
            proof {
                assert forall|px: int, py: int|
                    0 <= px < w && 0 <= py < h implies #[trigger] pixel_scanned(
                    reference@, self.buffer@, reference0, counters0, new, w, px, py, x0 as int,
                    x1 as int, y0 as int, y1 as int, x0 as int, y + 1,
                ) by {
                    assert(pixel_scanned(
                        reference@, self.buffer@, reference0, counters0, new, w, px, py,
                        x0 as int, x1 as int, y0 as int, y1 as int, x1 as int, y as int,
                    ));
                }
            }
            y += 1;
        }
        proof {
            assert forall|px: int, py: int|
                0 <= px < w && 0 <= py < h implies #[trigger] pixel_after_tile(
                reference@, self.buffer@, reference0, counters0, new, w, px, py, x0 as int,
                x1 as int, y0 as int, y1 as int,
            ) by {
                assert(pixel_scanned(
                    reference@, self.buffer@, reference0, counters0, new, w, px, py, x0 as int,
                    x1 as int, y0 as int, y1 as int, x0 as int, y1 as int,
                ));
            }
        }
        proof {
            assert forall|px: int, py: int|
                in_tile(px, py, x0 as int, x1 as int, y0 as int, y1 as int) && #[trigger] pixel_at(
                    mask, w, px, py,
                ) implies self.max_changes >= pixel_at(self.buffer@, w, px, py) by {
                lemma_pixel_index(px, py, w, h);
                assert(scanned(
                    px, py, x0 as int, x1 as int, y0 as int, y1 as int, x0 as int, y1 as int,
                ));
                assert(pixel_after_tile(
                    reference@, self.buffer@, reference0, counters0, new, w, px, py, x0 as int,
                    x1 as int, y0 as int, y1 as int,
                ));
            }
            if self.max_changes != max0 {
                lemma_pixel_index(peak.0, peak.1, w, h);
                assert(pixel_after_tile(
                    reference@, self.buffer@, reference0, counters0, new, w, peak.0, peak.1,
                    x0 as int, x1 as int, y0 as int, y1 as int,
                ));
                assert(in_tile(peak.0, peak.1, x0 as int, x1 as int, y0 as int, y1 as int)
                    && pixel_at(mask, w, peak.0, peak.1) && self.max_changes == pixel_at(
                    self.buffer@,
                    w,
                    peak.0,
                    peak.1,
                ));
            }
            if !changed {
                assert forall|px: int, py: int|
                    x0 <= px < x1 && y0 <= py < y1 implies !#[trigger] pixel_at(
                    mask,
                    w,
                    px,
                    py,
                ) by {
                    assert(scanned(
                        px, py, x0 as int, x1 as int, y0 as int, y1 as int, x0 as int, y1 as int,
                    ));
                }
            }
        }
        if changed {
            let found = Rectangle {
                top_left: Point { x: min_x as i32, y: min_y as i32 },
                size: Size { width: max_x - min_x + 1, height: max_y - min_y + 1 },
            };
            proof {
                let left = found.top_left.x as int;
                let top = found.top_left.y as int;
                let right = left + found.size.width;
                let bottom = top + found.size.height;
                assert(left == min_x && top == min_y && right == max_x + 1 && bottom == max_y + 1);
                assert(pixel_at(mask, w, left, left_y));
                assert(pixel_at(mask, w, right - 1, right_y));
                assert(pixel_at(mask, w, top_x, top));
                assert(pixel_at(mask, w, bottom_x, bottom - 1));
                assert forall|px: int, py: int|
                    x0 <= px < x1 && y0 <= py < y1 && #[trigger] pixel_at(
                        mask, w, px, py,
                    ) implies found.covers(px, py) by {
                    assert(scanned(
                        px, py, x0 as int, x1 as int, y0 as int, y1 as int, x0 as int, y1 as int,
                    ));
                }
                assert(is_bounding_box(found, mask, w, x0 as int, x1 as int, y0 as int, y1 as int));
                assert(tile_dirty(mask, w, x0 as int, x1 as int, y0 as int, y1 as int));
            }
            Some(found)
        } else {
            None
        }
    }

    /// Compares a new frame with the reference, tile by tile.
    ///
    /// Every pixel that differs is copied into the reference and counted.
    /// Each tile that holds such a pixel appends to `changed_rects` the
    /// smallest rectangle around its changed pixels. The result tells whether
    /// any pixel changed.
    pub fn update<C>(
        &mut self,
        buffer: &BinaryFrameBuffer<C>,
        reference: &mut BinaryFrameBuffer<C>,
        changed_rects: &mut Vec<Rectangle>,
    ) -> (changed: bool)
        requires
            old(self).wf(),
            buffer.wf(),
            old(reference).wf(),
            buffer.spec_width() == old(self).spec_width(),
            buffer.spec_height() == old(self).spec_height(),
            old(reference).spec_width() == old(self).spec_width(),
            old(reference).spec_height() == old(self).spec_height(),
            old(self).spec_width() <= i32::MAX,
            old(self).spec_height() <= i32::MAX,
            old(self).spec_grain() > 0,
        ensures
            final(self).wf(),
            final(self).spec_width() == old(self).spec_width(),
            final(self).spec_height() == old(self).spec_height(),
            final(self).spec_grain() == old(self).spec_grain(),
            final(reference).wf(),
            final(reference).spec_width() == old(reference).spec_width(),
            final(reference).spec_height() == old(reference).spec_height(),
            final(reference)@ == buffer@,
            final(self).counters() == counted(
                old(self).counters(),
                difference(buffer@, old(reference)@),
            ),
            final(self).spec_max_changes() == highest(
                old(self).spec_max_changes(),
                final(self).counters(),
                difference(buffer@, old(reference)@),
                buffer@.len(),
            ),
            final(changed_rects)@ == old(changed_rects)@ + dirty_rectangles(
                difference(buffer@, old(reference)@),
                old(self).spec_width() as int,
                old(self).spec_height() as int,
                old(self).spec_grain() as int,
            ),
            changed == any_changed(difference(buffer@, old(reference)@)),
    {
        let ghost reference0 = reference@;
        let ghost counters0 = self.buffer@;
        let ghost max0 = self.max_changes;
        let ghost new = buffer@;
        let ghost mask = difference(buffer@, reference@);
        let ghost w = self.width as int;
        let ghost h = self.height as int;
        let ghost grain = self.grain as int;
        let ghost total = changed_rects@ + dirty_rectangles(mask, w, h, grain);
        // A changed pixel that the walk has met, and the one with the
        // highest counter.
        let ghost seen: (int, int) = (0, 0);
        let ghost peak: (int, int) = (0, 0);
        proof {
            buffer.lemma_view();
            reference.lemma_view();
        }
        let mut global_changed: bool = false;
        let mut y0: u32 = 0;
        while y0 < self.height
            invariant
                0 <= y0 <= h,
                self.comparing(old(self), buffer, reference, reference0, counters0, mask),
                w == self.width,
                h == self.height,
                new == buffer@,
                grain == self.grain,
                grain > 0,
                forall|px: int, py: int|
                    0 <= px < w && 0 <= py < h ==> #[trigger] pixel_walked(
                        reference@, self.buffer@, reference0, counters0, new, w, px, py, 0,
                        y0 as int, y0 as int,
                    ),
                self.max_changes >= max0,
                forall|px: int, py: int|
                    0 <= px < w && 0 <= py < h && walked(px, py, 0, y0 as int, y0 as int)
                        && #[trigger] pixel_at(mask, w, px, py) ==> self.max_changes >= bumped(
                        pixel_at(counters0, w, px, py),
                        true,
                    ),
                self.max_changes == max0 || (0 <= peak.0 < w && 0 <= peak.1 < h && pixel_at(
                    mask, w, peak.0, peak.1,
                ) && self.max_changes == bumped(pixel_at(counters0, w, peak.0, peak.1), true)),
                global_changed ==> 0 <= seen.0 < w && 0 <= seen.1 < h && pixel_at(
                    mask, w, seen.0, seen.1,
                ),
                !global_changed ==> forall|px: int, py: int|
                    0 <= px < w && 0 <= py < h && walked(px, py, 0, y0 as int, y0 as int)
                        ==> !#[trigger] pixel_at(mask, w, px, py),
                changed_rects@ + rectangles_from(mask, w, h, grain, y0 as int) == total,
            decreases h - y0,
        {
            let y1: u32 = if self.grain < self.height - y0 {
                y0 + self.grain
            } else {
                self.height
            };
            let ghost below = rectangles_from(mask, w, h, grain, y0 + grain);
            proof {
                assert(y1 == tile_end(y0 as int, grain, h));
                assert forall|px: int, py: int|
                    0 <= px < w && 0 <= py < h implies #[trigger] pixel_walked(
                    reference@, self.buffer@, reference0, counters0, new, w, px, py, 0, y0 as int,
                    y1 as int,
                ) by {
                    assert(pixel_walked(
                        reference@, self.buffer@, reference0, counters0, new, w, px, py, 0,
                        y0 as int, y0 as int,
                    ));
                }
            }
            let mut x0: u32 = 0;
            while x0 < self.width
                invariant
                    0 <= y0 < y1 <= h,
                    y1 == tile_end(y0 as int, grain, h),
                    0 <= x0 <= w,
                    self.comparing(old(self), buffer, reference, reference0, counters0, mask),
                    w == self.width,
                    h == self.height,
                    new == buffer@,
                    grain == self.grain,
                    grain > 0,
                    below == rectangles_from(mask, w, h, grain, y0 + grain),
                    forall|px: int, py: int|
                        0 <= px < w && 0 <= py < h ==> #[trigger] pixel_walked(
                            reference@, self.buffer@, reference0, counters0, new, w, px, py,
                            x0 as int, y0 as int, y1 as int,
                        ),
                    self.max_changes >= max0,
                    forall|px: int, py: int|
                        0 <= px < w && 0 <= py < h && walked(
                            px,
                            py,
                            x0 as int,
                            y0 as int,
                            y1 as int,
                        )
                            && #[trigger] pixel_at(mask, w, px, py) ==> self.max_changes >= bumped(
                            pixel_at(counters0, w, px, py),
                            true,
                        ),
                    self.max_changes == max0 || (0 <= peak.0 < w && 0 <= peak.1 < h && pixel_at(
                        mask, w, peak.0, peak.1,
                    ) && self.max_changes == bumped(pixel_at(counters0, w, peak.0, peak.1), true)),
                    global_changed ==> 0 <= seen.0 < w && 0 <= seen.1 < h && pixel_at(
                        mask, w, seen.0, seen.1,
                    ),
                    !global_changed ==> forall|px: int, py: int|
                        0 <= px < w && 0 <= py < h && walked(
                            px,
                            py,
                            x0 as int,
                            y0 as int,
                            y1 as int,
                        )
                            ==> !#[trigger] pixel_at(mask, w, px, py),
                    changed_rects@ + (row_rectangles(mask, w, h, grain, y0 as int, x0 as int)
                        + below) == total,
                decreases w - x0,
            {
                let x1: u32 = if self.grain < self.width - x0 {
                    x0 + self.grain
                } else {
                    self.width
                };
                let ghost reference1 = reference@;
                let ghost counters1 = self.buffer@;
                let ghost max1 = self.max_changes;
                let ghost tracker1 = *self;
                let ghost rects1 = changed_rects@;
                let ghost local = difference(new, reference1);
                let found = self.scan_tile(buffer, reference, x0, x1, y0, y1);
                proof {
                    reference.lemma_view();
                    // Inside the tile nothing had been touched yet, so the
                    // differences found there are those of the whole update.
                    assert forall|px: int, py: int|
                        x0 <= px < x1 && y0 <= py < y1 implies #[trigger] pixel_at(
                        local,
                        w,
                        px,
                        py,
                    ) == pixel_at(mask, w, px, py) by {
                        lemma_pixel_index(px, py, w, h);
                        assert(pixel_walked(
                            reference1, counters1, reference0, counters0, new, w, px, py,
                            x0 as int, y0 as int, y1 as int,
                        ));
                    }
                    assert forall|px: int, py: int|
                        0 <= px < w && 0 <= py < h implies #[trigger] pixel_walked(
                        reference@, self.buffer@, reference0, counters0, new, w, px, py,
                        x1 as int, y0 as int, y1 as int,
                    ) by {
                        lemma_pixel_index(px, py, w, h);
                        assert(pixel_walked(
                            reference1, counters1, reference0, counters0, new, w, px, py,
                            x0 as int, y0 as int, y1 as int,
                        ));
                        assert(pixel_after_tile(
                            reference@,
                            self.counters(),
                            reference1,
                            tracker1.counters(),
                            buffer@,
                            tracker1.spec_width() as int,
                            px,
                            py,
                            x0 as int,
                            x1 as int,
                            y0 as int,
                            y1 as int,
                        ));
                    }
                    assert forall|px: int, py: int|
                        0 <= px < w && 0 <= py < h && walked(
                            px,
                            py,
                            x1 as int,
                            y0 as int,
                            y1 as int,
                        )
                            && #[trigger] pixel_at(mask, w, px, py) implies self.max_changes
                        >= bumped(pixel_at(counters0, w, px, py), true) by {
                        lemma_pixel_index(px, py, w, h);
                        if in_tile(px, py, x0 as int, x1 as int, y0 as int, y1 as int) {
                            assert(pixel_at(local, w, px, py));
                            assert(pixel_walked(
                                reference@, self.buffer@, reference0, counters0, new, w, px, py,
                                x1 as int, y0 as int, y1 as int,
                            ));
                        } else {
                            assert(walked(px, py, x0 as int, y0 as int, y1 as int));
                        }
                    }
                    if self.max_changes != max1 {
                        let (px, py) = choose|px: int, py: int|
                            in_tile(px, py, x0 as int, x1 as int, y0 as int, y1 as int)
                                && #[trigger] pixel_at(local, w, px, py) && self.max_changes
                                == pixel_at(self.buffer@, w, px, py);
                        lemma_pixel_index(px, py, w, h);
                        assert(pixel_at(mask, w, px, py));
                        assert(pixel_walked(
                            reference@, self.buffer@, reference0, counters0, new, w, px, py,
                            x1 as int, y0 as int, y1 as int,
                        ));
                        peak = (px, py);
                    }
                    lemma_same_tile(
                        if found.is_some() {
                            found.unwrap()
                        } else {
                            bounding_box(mask, w, x0 as int, x1 as int, y0 as int, y1 as int)
                        },
                        local,
                        mask,
                        w,
                        x0 as int,
                        x1 as int,
                        y0 as int,
                        y1 as int,
                    );
                    assert(x1 == tile_end(x0 as int, grain, w));
                    lemma_rectangles_end(mask, w, h, grain, y0 as int, x0 + grain);
                    lemma_rectangles_end(mask, w, h, grain, y0 as int, x1 as int);
                    assert(row_rectangles(mask, w, h, grain, y0 as int, x1 as int)
                        == row_rectangles(mask, w, h, grain, y0 as int, x0 + grain));
                    if found.is_some() {
                        lemma_bounding_box_unique(
                            found.unwrap(),
                            mask,
                            w,
                            x0 as int,
                            x1 as int,
                            y0 as int,
                            y1 as int,
                        );
                        let (px, py) = choose|px: int, py: int|
                            x0 <= px < x1 && y0 <= py < y1 && #[trigger] pixel_at(mask, w, px, py);
                        seen = (px, py);
                        assert(row_rectangles(mask, w, h, grain, y0 as int, x0 as int)
                            =~= seq![found.unwrap()] + row_rectangles(
                            mask,
                            w,
                            h,
                            grain,
                            y0 as int,
                            x1 as int,
                        ));
                        assert(rects1.push(found.unwrap()) + (row_rectangles(
                            mask, w, h, grain, y0 as int, x1 as int,
                        ) + below) =~= rects1 + (row_rectangles(
                            mask, w, h, grain, y0 as int, x0 as int,
                        ) + below));
                    } else {
                        assert(row_rectangles(mask, w, h, grain, y0 as int, x0 as int)
                            =~= row_rectangles(mask, w, h, grain, y0 as int, x1 as int));
                        assert forall|px: int, py: int|
                            x0 <= px < x1 && y0 <= py < y1 implies !#[trigger] pixel_at(
                            mask,
                            w,
                            px,
                            py,
                        ) by {
                            if pixel_at(mask, w, px, py) {
                                assert(tile_dirty(
                                    mask, w, x0 as int, x1 as int, y0 as int, y1 as int,
                                ));
                            }
                        }
                    }
                }
                match found {
                    Some(r) => {
                        changed_rects.push(r);
                        global_changed = true;
                    },
                    None => {},
                }
                x0 = x1;
            }
            proof {
                lemma_rectangles_end(mask, w, h, grain, y0 as int, x0 as int);
                lemma_rectangles_end(mask, w, h, grain, y0 + grain, 0);
                lemma_rectangles_end(mask, w, h, grain, y1 as int, 0);
                assert(rectangles_from(mask, w, h, grain, y1 as int) == below);
                assert(changed_rects@ + (Seq::<Rectangle>::empty() + below) =~= changed_rects@
                    + below);
                assert forall|px: int, py: int|
                    0 <= px < w && 0 <= py < h implies #[trigger] pixel_walked(
                    reference@, self.buffer@, reference0, counters0, new, w, px, py, 0, y1 as int,
                    y1 as int,
                ) by {
                    assert(pixel_walked(
                        reference@, self.buffer@, reference0, counters0, new, w, px, py, w,
                        y0 as int, y1 as int,
                    ));
                }
            }
            y0 = y1;
        }
        proof {
            lemma_rectangles_end(mask, w, h, grain, h, 0);
            assert(changed_rects@ + Seq::<Rectangle>::empty() =~= changed_rects@);
            let after = counted(counters0, mask);
            assert forall|i: int| 0 <= i < w * h implies reference@[i] == new[i] && self.buffer@[i]
                == after[i] by {
                lemma_index_point(i, w, h);
                assert(pixel_walked(
                    reference@, self.buffer@, reference0, counters0, new, w, i % w, i / w, 0, h,
                    h,
                ));
            }
            assert(reference@ =~= new);
            assert(self.buffer@ =~= after);
            // The highest counter, however the pixels were walked.
            let n = new.len();
            let top = highest(max0, after, mask, n);
            lemma_highest(max0, after, mask, n);
            if top != max0 {
                let i = choose|i: int| 0 <= i < n && mask[i] && top == after[i];
                lemma_index_point(i, w, h);
                assert(pixel_at(mask, w, i % w, i / w));
            }
            if self.max_changes != max0 {
                lemma_pixel_index(peak.0, peak.1, w, h);
            }
            assert(self.max_changes == top);
            if global_changed {
                lemma_pixel_index(seen.0, seen.1, w, h);
                assert(mask[seen.1 * w + seen.0]);
            } else {
                assert forall|i: int| 0 <= i < mask.len() implies !mask[i] by {
                    lemma_index_point(i, w, h);
                    assert(!pixel_at(mask, w, i % w, i / w));
                }
            }
        }
        global_changed
    }

    /// Number of tiles along an edge of `l` pixels.
    pub fn grain_count(&self, l: u32) -> (count: u32)
        requires
            self.spec_grain() > 0,
        ensures
            count == (l + self.spec_grain() - 1) / (self.spec_grain() as int),
    {
        if l == 0 {
            proof {
                vstd::arithmetic::div_mod::lemma_basic_div(self.grain - 1, self.grain as int);
            }
            0
        } else {
            proof {
                lemma_ceil_div(l as int, self.grain as int);
                assert((l - 1) / (self.grain as int) < l) by (nonlinear_arith)
                    requires
                        l > 0,
                        self.grain > 0,
                ;
            }
            (l - 1) / self.grain + 1
        }
    }
}

/// Rounding a quotient up is the same as stepping once past the quotient of
/// the predecessor.
pub proof fn lemma_ceil_div(l: int, grain: int)
    requires
        l > 0,
        grain > 0,
    ensures
        (l + grain - 1) / grain == (l - 1) / grain + 1,
{
    vstd::arithmetic::div_mod::lemma_div_plus_one(l - 1, grain);
    assert(grain + (l - 1) == l + grain - 1);
}

} // verus!
