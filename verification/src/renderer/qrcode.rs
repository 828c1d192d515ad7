//! QR codes: the symbol is generated and scaled by the `qrcode` crate and
//! stamped onto a background of the requested size.
use vstd::prelude::*;
use qrcode::{EcLevel as Level, QrCode};
use crate::binary_framebuffer::{BinarisedColor, BinaryFrameBuffer};
use crate::geometry::{Point, Rectangle, Size};
use crate::renderer::container::{area_dots, ShiftedDisplay};
use crate::renderer::drawing_error::{DrawingError, Failure};
use crate::renderer::painting::{cell_x, cell_y, lemma_grid_empty, lemma_grid_index, Dot};
use crate::renderer::{reported, token, ColorFromTemplate};

verus! {

/// How much damage a code can take and still be read.
#[derive(Debug, Clone, Copy, PartialEq, Eq, Structural)]
pub enum EcLevel {
    L,
    M,
    Q,
    H,
}

/// A QR code for `value`, drawn into the rectangle of `width` by `height`
/// pixels at `position`.
#[derive(Debug, PartialEq)]
pub struct QRCode {
    pub value: String,
    pub position: Point,
    pub color: Option<String>,
    pub background: Option<String>,
    pub ec_level: Option<EcLevel>,
    pub width: u32,
    pub height: u32,
}

impl Clone for QRCode {
    fn clone(&self) -> (copy: Self)
        ensures
            copy == *self,
    {
        QRCode {
            value: self.value.clone(),
            position: self.position,
            color: self.color.clone(),
            background: self.background.clone(),
            ec_level: self.ec_level,
            width: self.width,
            height: self.height,
        }
    }
}

/// The longest edge, in pixels, that a code is rendered for.
pub const QR_EDGE_LIMIT: u32 = 4096;

/// The byte that stands for a dark pixel in a rendered code: `#`.
pub const DARK: u8 = 35;

/// The byte that stands for a light pixel in a rendered code: `.`.
pub const LIGHT: u8 = 46;

/// The byte that ends a row of a rendered code.
pub const NEWLINE: u8 = 10;

/// The picture that the `qrcode` crate renders for a text: rows of pixels,
/// one byte each (`dark` or `light`), with a line feed between two rows; or
/// nothing where no code can hold the text.
pub uninterp spec fn qr_image(
    value: Seq<char>,
    level: Option<EcLevel>,
    width: u32,
    height: u32,
    dark: u8,
    light: u8,
) -> Option<Seq<u8>>;

/// Generates and renders a QR code with the `qrcode` crate.
///
/// The code is made by `QrCode::with_error_correction_level`, or by
/// `QrCode::new` where no level is given, and rendered by its `Renderer`
/// as text in the two given characters, with a quiet zone, for at least and
/// at most `width` by `height` pixels. The contract only names the outcome:
/// the same arguments always give the same picture, or none.
#[verifier::external_body]
fn render_qr(
    value: &str,
    level: Option<EcLevel>,
    width: u32,
    height: u32,
    dark: u8,
    light: u8,
) -> (image: Option<Vec<u8>>)
    requires
        width <= QR_EDGE_LIMIT,
        height <= QR_EDGE_LIMIT,
        dark < 128,
        light < 128,
    ensures
        match image {
            Some(bytes) => qr_image(value@, level, width, height, dark, light) == Some(bytes@),
            None => qr_image(value@, level, width, height, dark, light).is_none(),
        },
{
    let levels = [Level::L, Level::M, Level::Q, Level::H];
    let made = match level {
        Some(level) => QrCode::with_error_correction_level(value, levels[level as usize]),
        None => QrCode::new(value),
    };
    let code = made.ok()?;
    let mut renderer = code.render::<char>();
    renderer.dark_color(dark as char).light_color(light as char);
    renderer.min_dimensions(width, height).max_dimensions(width, height).quiet_zone(true);
    Some(renderer.build().into_bytes())
}

/// Where the first row of a rendered code ends: the place of the first line
/// feed from `from` on, or the end of the bytes.
pub open spec fn row_end(bytes: Seq<u8>, from: int) -> int
    decreases bytes.len() - from,
{
    if from < 0 || from >= bytes.len() {
        bytes.len() as int
    } else if bytes[from] == NEWLINE {
        from
    } else {
        row_end(bytes, from + 1)
    }
}

/// Number of pixels in a row of a rendered code.
pub open spec fn picture_width(bytes: Seq<u8>) -> int {
    row_end(bytes, 0)
}

/// Number of rows of a rendered code.
pub open spec fn picture_height(bytes: Seq<u8>) -> int {
    (bytes.len() as int + 1) / (picture_width(bytes) + 1)
}

/// Whether the bytes are rows of one length with a line feed between them.
pub open spec fn picture_ok(bytes: Seq<u8>) -> bool {
    let w = picture_width(bytes);
    let h = picture_height(bytes);
    &&& 0 < w <= u32::MAX
    &&& h <= u32::MAX
    &&& h * (w + 1) == bytes.len() + 1
    &&& forall|y: int| 0 <= y < h - 1 ==> #[trigger] bytes[y * (w + 1) + w] == NEWLINE
}

/// Whether the pixel `(x, y)` of a rendered code is dark.
pub open spec fn picture_dark(bytes: Seq<u8>, x: int, y: int) -> bool {
    bytes[y * (picture_width(bytes) + 1) + x] == DARK
}

impl QRCode {
    /// The colour of the dark modules.
    pub open spec fn front<C: ColorFromTemplate>(&self) -> C {
        if self.color.is_none() && self.background.is_some() {
            C::resolved(token(self.background)).inverted()
        } else {
            C::resolved(token(self.color))
        }
    }

    /// The colour of the light modules and of the rest of the rectangle.
    pub open spec fn back<C: ColorFromTemplate>(&self) -> C {
        if self.background.is_some() {
            C::resolved(token(self.background))
        } else {
            C::resolved(token(self.color)).inverted()
        }
    }

    /// The rectangle that the code is asked to fill.
    pub open spec fn area(&self) -> Rectangle {
        Rectangle { top_left: self.position, size: Size { width: self.width, height: self.height } }
    }

    /// How far a picture of `actual` pixels is moved to stand in the middle
    /// of `wanted` pixels; a picture that is too large is not moved.
    pub open spec fn centering(wanted: int, actual: int) -> int {
        if actual < wanted {
            (wanted - actual) / 2
        } else {
            0
        }
    }

    /// The dots of the dark pixels of a rendered code, row by row.
    pub open spec fn symbol_dots<C: BinarisedColor + ColorFromTemplate>(
        &self,
        picture: Seq<u8>,
    ) -> Seq<Dot> {
        let w = picture_width(picture);
        let h = picture_height(picture);
        Seq::new(
            (w * h) as nat,
            |i: int|
                Dot {
                    x: self.position.x + Self::centering(self.width as int, w) + cell_x(i, w),
                    y: self.position.y + Self::centering(self.height as int, h) + cell_y(i, w),
                    ink: if picture_dark(picture, cell_x(i, w), cell_y(i, w)) {
                        Some(self.front::<C>().is_on())
                    } else {
                        None
                    },
                },
        )
    }

    /// The dots of the whole primitive: the background of the rectangle and
    /// then the symbol.
    pub open spec fn dots<C: BinarisedColor + ColorFromTemplate>(
        &self,
        picture: Seq<u8>,
    ) -> Seq<Dot> {
        area_dots(self.area(), self.back::<C>().is_on()) + self.symbol_dots::<C>(picture)
    }
}

/// The canvas after a rendered code was drawn; a picture that is not made
/// of rows of one length leaves the canvas as it is.
pub open spec fn drawn_picture<C: BinarisedColor + ColorFromTemplate>(
    display: ShiftedDisplay,
    canvas: Seq<bool>,
    width: int,
    height: int,
    qrcode: QRCode,
    picture: Seq<u8>,
) -> Seq<bool> {
    if picture_ok(picture) {
        display@.paint(canvas, width, height, qrcode.dots::<C>(picture))
    } else {
        canvas
    }
}

/// Measures a rendered code: its width and height, if it is made of rows of
/// one length.
pub fn measure_picture(picture: &Vec<u8>) -> (size: Option<(u32, u32)>)
    ensures
        size.is_some() == picture_ok(picture@),
        size matches Some((w, h)) ==> w == picture_width(picture@) && h == picture_height(
            picture@,
        ),
{
    let length: usize = picture.len();
    let mut w: usize = 0;
    while w < length && picture[w] != NEWLINE
        invariant
            w <= length,
            length == picture@.len(),
            row_end(picture@, 0) == row_end(picture@, w as int),
        decreases length - w,
    {
        w += 1;
    }
    if w == 0 || w > 0xffff_ffff {
        return None;
    }
    let total: u128 = length as u128 + 1;
    let stride: u128 = w as u128 + 1;
    let h: u128 = total / stride;
    if h > 0xffff_ffff {
        return None;
    }
    proof {
        assert(h * stride <= 0xffff_ffff * 0x1_0000_0000) by (nonlinear_arith)
            requires
                0 <= h <= 0xffff_ffff,
                0 <= stride <= 0x1_0000_0000,
        ;
    }
    if h * stride != total {
        return None;
    }
    let mut y: u128 = 0;
    while y + 1 < h
        invariant
            0 < w <= u32::MAX,
            stride == w + 1,
            total == length + 1,
            length == picture@.len(),
            h == total / stride,
            h <= u32::MAX,
            h * stride == total,
            y <= h,
            w == picture_width(picture@),
            forall|k: int| 0 <= k < y ==> #[trigger] picture@[k * (w + 1) + w] == NEWLINE,
        decreases h - y,
    {
        proof {
            assert(y * stride + stride <= (h - 1) * stride) by (nonlinear_arith)
                requires
                    y + 1 < h,
                    stride > 0,
            ;
            assert((h - 1) * stride == h * stride - stride) by (nonlinear_arith);
        }
        let at: usize = (y * stride + w as u128) as usize;
        if picture[at] != NEWLINE {
            assert(!picture_ok(picture@)) by {
                assert(picture@[y * (w + 1) + w] != NEWLINE);
            }
            return None;
        }
        y += 1;
    }
    Some((w as u32, h as u32))
}

/// Draws a rendered code through `display` onto `target`: first the
/// rectangle of the primitive in the background colour, then the dark
/// pixels of the picture, centred in the rectangle.
///
/// With a colour and a background the two are taken as they are; with a
/// background alone the colour is its opposite; else the background is the
/// opposite of the colour.
pub fn draw_picture<C: BinarisedColor + ColorFromTemplate>(
    target: &mut BinaryFrameBuffer<C>,
    display: &ShiftedDisplay,
    qrcode: &QRCode,
    picture: &Vec<u8>,
) -> (result: Result<(), DrawingError>)
    requires
        display.wf(),
        old(target).wf(),
    ensures
        final(target).wf(),
        final(target).spec_width() == old(target).spec_width(),
        final(target).spec_height() == old(target).spec_height(),
        final(target)@ == drawn_picture::<C>(
            *display,
            old(target)@,
            old(target).spec_width() as int,
            old(target).spec_height() as int,
            *qrcode,
            picture@,
        ),
        reported(result) == picture_failure(picture@),
{
    let (width, height): (u32, u32) = match measure_picture(picture) {
        Some(size) => size,
        None => {
            return Err(DrawingError::OutOfRange);
        },
    };
    let (back, front): (C, C) = if qrcode.color.is_some() && qrcode.background.is_some() {
        (C::resolve(&qrcode.background), C::resolve(&qrcode.color))
    } else if qrcode.background.is_some() {
        let back = C::resolve(&qrcode.background);
        let color = back.invert();
        (back, color)
    } else {
        let color = C::resolve(&qrcode.color);
        let back = color.invert();
        (back, color)
    };
    let back_on: bool = back.to_binary_color();
    let front_on: bool = front.to_binary_color();
    let ghost canvas = target@;
    let ghost w = target.spec_width() as int;
    let ghost h = target.spec_height() as int;
    let area = Rectangle {
        top_left: qrcode.position,
        size: Size { width: qrcode.width, height: qrcode.height },
    };
    display.fill_solid(target, &area, back_on);
    let ghost filled = target@;
    let ghost dots = qrcode.symbol_dots::<C>(picture@);
    let left: i64 = qrcode.position.x as i64 + if width < qrcode.width {
        ((qrcode.width - width) / 2) as i64
    } else {
        0
    };
    let top: i64 = qrcode.position.y as i64 + if height < qrcode.height {
        ((qrcode.height - height) / 2) as i64
    } else {
        0
    };
    let stride: u64 = width as u64 + 1;
    let length: usize = picture.len();
    proof {
        lemma_grid_empty(width as int, height as int);
        assert(dots.take(0) =~= Seq::<Dot>::empty());
    }
    let mut y: u32 = 0;
    while y < height
        invariant
            y <= height,
            0 < width,
            width == picture_width(picture@),
            height == picture_height(picture@),
            height * (width + 1) == picture@.len() + 1,
            length == picture@.len(),
            stride == width + 1,
            left == qrcode.position.x + QRCode::centering(qrcode.width as int, width as int),
            top == qrcode.position.y + QRCode::centering(qrcode.height as int, height as int),
            front_on == qrcode.front::<C>().is_on(),
            display.wf(),
            target.wf(),
            target.spec_width() == w,
            target.spec_height() == h,
            dots == qrcode.symbol_dots::<C>(picture@),
            dots.len() == width * height,
            target@ == display@.paint(filled, w, h, dots.take(y * width)),
        decreases height - y,
    {
        proof {
            assert(y * (width + 1) + (width + 1) <= height * (width + 1)) by (nonlinear_arith)
                requires
                    0 <= y < height,
                    0 < width,
            ;
            assert(0 <= y * (width + 1)) by (nonlinear_arith)
                requires
                    0 <= y,
                    0 < width,
            ;
        }
        let row: u64 = y as u64 * stride;
        let mut x: u32 = 0;
        while x < width
            invariant
                y < height,
                x <= width,
                0 < width,
                row == y * (width + 1),
                row + width <= picture@.len(),
                length == picture@.len(),
                width == picture_width(picture@),
                height == picture_height(picture@),
                stride == width + 1,
                left == qrcode.position.x + QRCode::centering(qrcode.width as int, width as int),
                top == qrcode.position.y + QRCode::centering(qrcode.height as int, height as int),
                front_on == qrcode.front::<C>().is_on(),
                display.wf(),
                target.wf(),
                target.spec_width() == w,
                target.spec_height() == h,
                dots == qrcode.symbol_dots::<C>(picture@),
                dots.len() == width * height,
                target@ == display@.paint(filled, w, h, dots.take(y * width + x)),
            decreases width - x,
        {
            proof {
                lemma_grid_index(x as int, y as int, width as int, height as int);
                display@.lemma_paint_next(filled, w, h, dots, y * width + x);
            }
            if picture[(row + x as u64) as usize] == DARK {
                display.draw_pixel(target, left + x as i64, top + y as i64, front_on);
            }
            x += 1;
        }
        proof {
            lemma_grid_index(0, y as int, width as int, height as int);
        }
        y += 1;
    }
    proof {
        assert(dots.take(height * width) =~= dots);
        display@.lemma_paint_concat(
            canvas,
            w,
            h,
            area_dots(qrcode.area(), qrcode.back::<C>().is_on()),
            dots,
        );
    }
    Ok(())
}

/// The canvas after `qrcode` was drawn.
pub open spec fn drawn_qrcode<C: BinarisedColor + ColorFromTemplate>(
    display: ShiftedDisplay,
    canvas: Seq<bool>,
    width: int,
    height: int,
    qrcode: QRCode,
) -> Seq<bool> {
    if qrcode.width <= QR_EDGE_LIMIT && qrcode.height <= QR_EDGE_LIMIT {
        match qr_image(
            qrcode.value@,
            qrcode.ec_level,
            qrcode.width,
            qrcode.height,
            DARK,
            LIGHT,
        ) {
            Some(picture) => drawn_picture::<C>(display, canvas, width, height, qrcode, picture),
            None => canvas,
        }
    } else {
        canvas
    }
}

/// Why a rendered code cannot be drawn, if it cannot.
pub open spec fn picture_failure(picture: Seq<u8>) -> Option<Failure> {
    if picture_ok(picture) {
        None
    } else {
        Some(Failure::OutOfRange)
    }
}

/// Why `qrcode` cannot be drawn, if it cannot: its rectangle is beyond the
/// limit, or the picture of its code is not made of rows of one length.
pub open spec fn qrcode_failure(qrcode: QRCode) -> Option<Failure> {
    if qrcode.width <= QR_EDGE_LIMIT && qrcode.height <= QR_EDGE_LIMIT {
        match qr_image(
            qrcode.value@,
            qrcode.ec_level,
            qrcode.width,
            qrcode.height,
            DARK,
            LIGHT,
        ) {
            Some(picture) => picture_failure(picture),
            None => None,
        }
    } else {
        Some(Failure::OutOfRange)
    }
}

/// Draws a QR code through `display` onto `target`.
///
/// A text that no code can hold is skipped: nothing is drawn, and the call
/// succeeds. A rectangle with an edge beyond `QR_EDGE_LIMIT` is refused.
pub fn draw_qrcode<C: BinarisedColor + ColorFromTemplate>(
    target: &mut BinaryFrameBuffer<C>,
    display: &ShiftedDisplay,
    qrcode: &QRCode,
) -> (result: Result<(), DrawingError>)
    requires
        display.wf(),
        old(target).wf(),
    ensures
        final(target).wf(),
        final(target).spec_width() == old(target).spec_width(),
        final(target).spec_height() == old(target).spec_height(),
        final(target)@ == drawn_qrcode::<C>(
            *display,
            old(target)@,
            old(target).spec_width() as int,
            old(target).spec_height() as int,
            *qrcode,
        ),
        reported(result) == qrcode_failure(*qrcode),
{
    if qrcode.width > QR_EDGE_LIMIT || qrcode.height > QR_EDGE_LIMIT {
        return Err(DrawingError::OutOfRange);
    }
    match render_qr(
        qrcode.value.as_str(),
        qrcode.ec_level,
        qrcode.width,
        qrcode.height,
        DARK,
        LIGHT,
    ) {
        Some(picture) => draw_picture(target, display, qrcode, &picture),
        None => Ok(()),
    }
}

} // verus!
