//! Images: a PNG file is decoded, reduced to one bit per pixel and drawn.
use vstd::prelude::*;
use crate::binary_framebuffer::{BinarisedColor, BinaryFrameBuffer};
use crate::geometry::{Point, Size};
use crate::renderer::container::ShiftedDisplay;
use crate::renderer::drawing_error::{DrawingError, Failure};
use crate::renderer::painting::{cell_x, cell_y, lemma_grid_empty, lemma_grid_index, Dot};
use crate::renderer::positioning::{
    can_place, fits_placement, horizontal_offset, place_rectangle, vertical_offset,
    HorizontalAlignment, VerticalAlignment,
};
use crate::renderer::{plain, plain_color, reported, ColorFromTemplate};

verus! {

/// An image file drawn at a position.
#[derive(Debug, PartialEq)]
pub struct Image {
    pub path: String,
    pub position: Point,
    pub align: Option<HorizontalAlignment>,
    pub vertical_align: Option<VerticalAlignment>,
    /// Swaps the two colours.
    pub invert: Option<bool>,
}

/// The content of a file that an image primitive names, or the reason why
/// the file could not be read.
#[derive(Debug)]
pub struct ImageFile {
    pub path: String,
    pub content: Result<Vec<u8>, String>,
}

/// The layout of the samples of a decoded pixel.
#[derive(Debug, Clone, Copy, PartialEq, Eq, Structural)]
pub enum ColorType {
    Grayscale,
    GrayscaleAlpha,
    Indexed,
    Rgb,
    Rgba,
}

/// A decoded frame: rows of `line_size` bytes, each pixel a run of samples.
#[derive(Debug, PartialEq)]
pub struct DecodedImage {
    pub width: u32,
    pub height: u32,
    pub color_type: ColorType,
    pub bit_depth: u8,
    pub line_size: usize,
    pub bytes: Vec<u8>,
}

/// A decoded frame as a value.
pub struct Frame {
    pub width: u32,
    pub height: u32,
    pub color_type: ColorType,
    pub bit_depth: u8,
    pub line_size: usize,
    pub bytes: Seq<u8>,
}

impl View for DecodedImage {
    type V = Frame;

    open spec fn view(&self) -> Frame {
        Frame {
            width: self.width,
            height: self.height,
            color_type: self.color_type,
            bit_depth: self.bit_depth,
            line_size: self.line_size,
            bytes: self.bytes@,
        }
    }
}

impl Clone for Image {
    fn clone(&self) -> (copy: Self)
        ensures
            copy == *self,
    {
        Image {
            path: self.path.clone(),
            position: self.position,
            align: self.align,
            vertical_align: self.vertical_align,
            invert: self.invert,
        }
    }
}

impl Clone for DecodedImage {
    fn clone(&self) -> (copy: Self)
        ensures
            copy@ == self@,
    {
        DecodedImage {
            width: self.width,
            height: self.height,
            color_type: self.color_type,
            bit_depth: self.bit_depth,
            line_size: self.line_size,
            bytes: self.bytes.clone(),
        }
    }
}

/// Number of samples of a pixel.
pub open spec fn samples(color_type: ColorType) -> int {
    match color_type {
        ColorType::Grayscale => 1,
        ColorType::GrayscaleAlpha => 2,
        ColorType::Indexed => 1,
        ColorType::Rgb => 3,
        ColorType::Rgba => 4,
    }
}

impl Frame {
    /// The bytes hold every row, and a row holds every pixel.
    pub open spec fn consistent(self) -> bool {
        &&& self.line_size * self.height <= self.bytes.len()
        &&& self.width * samples(self.color_type) <= self.line_size
    }

    /// The sample `k` of the pixel `(x, y)`.
    pub open spec fn sample(self, x: int, y: int, k: int) -> u8 {
        self.bytes[y * self.line_size + x * samples(self.color_type) + k]
    }

    /// The bit of the pixel `(x, y)`, or `None` where the pixel is
    /// transparent. A pixel is transparent where its alpha sample is below
    /// 128. It is set where any other sample reaches 128.
    pub open spec fn bit(self, x: int, y: int) -> Option<bool> {
        match self.color_type {
            ColorType::Grayscale => Some(self.sample(x, y, 0) >= 128),
            ColorType::GrayscaleAlpha => if self.sample(x, y, 1) < 128 {
                None
            } else {
                Some(self.sample(x, y, 0) >= 128)
            },
            ColorType::Indexed => Some(self.sample(x, y, 0) >= 128),
            ColorType::Rgb => Some(
                self.sample(x, y, 0) >= 128 || self.sample(x, y, 1) >= 128 || self.sample(x, y, 2)
                    >= 128,
            ),
            ColorType::Rgba => if self.sample(x, y, 3) < 128 {
                None
            } else {
                Some(
                    self.sample(x, y, 0) >= 128 || self.sample(x, y, 1) >= 128 || self.sample(
                        x,
                        y,
                        2,
                    ) >= 128,
                )
            },
        }
    }
}

impl Image {
    /// Whether the two colours are swapped.
    pub open spec fn inverted(&self) -> bool {
        self.invert == Some(true)
    }

    /// The top-left corner of the image of the given size.
    pub open spec fn origin(&self, width: u32, height: u32) -> (int, int) {
        (
            self.position.x - horizontal_offset(width, self.align),
            self.position.y - vertical_offset(height, self.vertical_align),
        )
    }

    /// Whether the corner of the image fits the coordinates of a point.
    pub open spec fn placeable(&self, width: u32, height: u32) -> bool {
        can_place(Size { width, height }, self.align, self.vertical_align, self.position)
    }

    /// The dots of the decoded frame, row by row: a set pixel in the colour
    /// named `1`, a cleared one in the colour named `0`, or the other way
    /// round where the image is inverted; a transparent pixel without ink.
    pub open spec fn dots<C: BinarisedColor + ColorFromTemplate>(&self, frame: Frame) -> Seq<Dot> {
        Seq::new(
            (frame.width * frame.height) as nat,
            |i: int|
                {
                    let x = cell_x(i, frame.width as int);
                    let y = cell_y(i, frame.width as int);
                    Dot {
                        x: self.origin(frame.width, frame.height).0 + x,
                        y: self.origin(frame.width, frame.height).1 + y,
                        ink: match frame.bit(x, y) {
                            Some(bit) => Some(plain::<C>(bit != self.inverted()).is_on()),
                            None => None,
                        },
                    }
                },
        )
    }

    /// Whether a decoded frame can be drawn: it is consistent and its corner
    /// can be placed.
    pub open spec fn drawable(&self, frame: Frame) -> bool {
        frame.consistent() && self.placeable(frame.width, frame.height)
    }
}

/// The canvas after a decoded frame was drawn. A frame of another bit depth
/// than eight, and a frame that cannot be drawn, leave the canvas as it is.
pub open spec fn drawn_frame<C: BinarisedColor + ColorFromTemplate>(
    display: ShiftedDisplay,
    canvas: Seq<bool>,
    width: int,
    height: int,
    image: Image,
    frame: Frame,
) -> Seq<bool> {
    if frame.bit_depth == 8 && image.drawable(frame) {
        display@.paint(canvas, width, height, image.dots::<C>(frame))
    } else {
        canvas
    }
}

/// Draws a decoded frame through `display` onto `target`.
///
/// A frame of another bit depth than eight is skipped. A frame whose bytes
/// do not hold all of its pixels, or whose corner leaves the range of
/// coordinates, is refused.
pub fn draw_decoded<C: BinarisedColor + ColorFromTemplate>(
    target: &mut BinaryFrameBuffer<C>,
    display: &ShiftedDisplay,
    image: &Image,
    decoded: &DecodedImage,
) -> (result: Result<(), DrawingError>)
    requires
        display.wf(),
        old(target).wf(),
    ensures
        final(target).wf(),
        final(target).spec_width() == old(target).spec_width(),
        final(target).spec_height() == old(target).spec_height(),
        final(target)@ == drawn_frame::<C>(
            *display,
            old(target)@,
            old(target).spec_width() as int,
            old(target).spec_height() as int,
            *image,
            decoded@,
        ),
        reported(result) == frame_failure(*image, decoded@),
{
    if decoded.bit_depth != 8 {
        return Ok(());
    }
    let width: u32 = decoded.width;
    let height: u32 = decoded.height;
    let step: usize = match decoded.color_type {
        ColorType::Grayscale => 1,
        ColorType::GrayscaleAlpha => 2,
        ColorType::Indexed => 1,
        ColorType::Rgb => 3,
        ColorType::Rgba => 4,
    };
    let line_size: usize = decoded.line_size;
    let ghost frame = decoded@;
    proof {
        assert(line_size * height <= 0xffff_ffff_ffff_ffff * 0xffff_ffff && width * step
            <= 0xffff_ffff * 4) by (nonlinear_arith)
            requires
                0 <= line_size <= 0xffff_ffff_ffff_ffff,
                0 <= height <= 0xffff_ffff,
                0 <= width <= 0xffff_ffff,
                0 <= step <= 4,
        ;
    }
    let total: usize = decoded.bytes.len();
    if line_size as u128 * height as u128 > total as u128 || width as u64
        * step as u64 > line_size as u64 {
        return Err(DrawingError::OutOfRange);
    }
    let size = Size { width, height };
    if !fits_placement(size, image.align, image.vertical_align, image.position) {
        return Err(DrawingError::OutOfRange);
    }
    let inverted: bool = match image.invert {
        Some(true) => true,
        _ => false,
    };
    let mut back: bool = plain_color::<C>(false).to_binary_color();
    let mut front: bool = plain_color::<C>(true).to_binary_color();
    if inverted {
        let swap: bool = back;
        back = front;
        front = swap;
    }
    let origin = place_rectangle(size, image.align, image.vertical_align, image.position);
    let ghost dots = image.dots::<C>(frame);
    let ghost canvas = target@;
    let ghost w = target.spec_width() as int;
    let ghost h = target.spec_height() as int;
    proof {
        lemma_grid_empty(width as int, height as int);
        assert(dots.take(0) =~= Seq::<Dot>::empty());
    }
    let mut y: u32 = 0;
    while y < height
        invariant
            y <= height,
            width == decoded.width,
            height == decoded.height,
            line_size == decoded.line_size,
            step == samples(decoded.color_type),
            frame == decoded@,
            frame.consistent(),
            line_size * height <= total,
            total == decoded.bytes@.len(),
            width * step <= line_size,
            inverted == image.inverted(),
            back == plain::<C>(inverted).is_on(),
            front == plain::<C>(!inverted).is_on(),
            origin.x == image.origin(width, height).0,
            origin.y == image.origin(width, height).1,
            display.wf(),
            target.wf(),
            target.spec_width() == w,
            target.spec_height() == h,
            dots == image.dots::<C>(frame),
            dots.len() == width * height,
            target@ == display@.paint(canvas, w, h, dots.take(y * width)),
        decreases height - y,
    {
        proof {
            lemma_row_start(y as int, line_size as int, height as int);
        }
        let row: usize = y as usize * line_size;
        let mut x: u32 = 0;
        while x < width
            invariant
                y < height,
                x <= width,
                row == y * line_size,
                row + line_size <= decoded.bytes@.len(),
                width == decoded.width,
                height == decoded.height,
                line_size == decoded.line_size,
                step == samples(decoded.color_type),
                frame == decoded@,
                frame.consistent(),
                line_size * height <= total,
                total == decoded.bytes@.len(),
                width * step <= line_size,
                inverted == image.inverted(),
                back == plain::<C>(inverted).is_on(),
                front == plain::<C>(!inverted).is_on(),
                origin.x == image.origin(width, height).0,
                origin.y == image.origin(width, height).1,
                display.wf(),
                target.wf(),
                target.spec_width() == w,
                target.spec_height() == h,
                dots == image.dots::<C>(frame),
                dots.len() == width * height,
                target@ == display@.paint(canvas, w, h, dots.take(y * width + x)),
            decreases width - x,
        {
            proof {
                lemma_grid_index(x as int, y as int, width as int, height as int);
                display@.lemma_paint_next(canvas, w, h, dots, y * width + x);
                lemma_pixel_start(x as int, step as int, width as int);
            }
            let pos: usize = row + x as usize * step;
            let bit: Option<bool> = match decoded.color_type {
                ColorType::Grayscale => Some(decoded.bytes[pos] >= 128),
                ColorType::GrayscaleAlpha => {
                    if decoded.bytes[pos + 1] < 128 {
                        None
                    } else {
                        Some(decoded.bytes[pos] >= 128)
                    }
                },
                ColorType::Indexed => Some(decoded.bytes[pos] >= 128),
                ColorType::Rgb => Some(
                    decoded.bytes[pos] >= 128 || decoded.bytes[pos + 1] >= 128 || decoded.bytes[pos
                        + 2] >= 128,
                ),
                ColorType::Rgba => {
                    if decoded.bytes[pos + 3] < 128 {
                        None
                    } else {
                        Some(
                            decoded.bytes[pos] >= 128 || decoded.bytes[pos + 1] >= 128
                                || decoded.bytes[pos + 2] >= 128,
                        )
                    }
                },
            };
            assert(bit == frame.bit(x as int, y as int));
            match bit {
                Some(on) => {
                    let ink: bool = if on {
                        front
                    } else {
                        back
                    };
                    display.draw_pixel(
                        target,
                        origin.x as i64 + x as i64,
                        origin.y as i64 + y as i64,
                        ink,
                    );
                },
                None => {},
            }
            x += 1;
        }
        proof {
            if width > 0 {
                lemma_grid_index(0, y as int, width as int, height as int);
            } else {
                lemma_grid_empty(width as int, y as int);
                lemma_grid_empty(width as int, y + 1);
            }
        }
        y += 1;
    }
    proof {
        assert(dots.take(height * width) =~= dots);
    }
    Ok(())
}

/// The largest number of pixels of an image that is decoded.
pub const IMAGE_PIXEL_LIMIT: u64 = 16777216;

/// The width and the height that the header of a PNG file states, or
/// nothing where the bytes do not start as a PNG file does.
pub uninterp spec fn png_size(data: Seq<u8>) -> Option<(u32, u32)>;

/// What the PNG decoder makes of the bytes of a file: the first frame,
/// with samples of eight bits, or nothing where the bytes cannot be decoded.
pub uninterp spec fn png_frame(data: Seq<u8>) -> Option<Frame>;

/// Reads the size of an image from the header of a PNG file with
/// `png::Decoder::read_header_info`, which decodes no pixel.
///
/// The contract only names the outcome: the same bytes always state the
/// same size or fail alike.
#[verifier::external_body]
fn read_png_size(data: &[u8]) -> (result: Result<(u32, u32), png::DecodingError>)
    ensures
        match result {
            Ok(size) => png_size(data@) == Some(size),
            Err(_) => png_size(data@).is_none(),
        },
{
    let mut decoder = png::Decoder::new(data);
    let info = decoder.read_header_info()?;
    Ok((info.width, info.height))
}

/// Whether the header of a PNG file states a size within the limit: the
/// decoder then asks for no more than four bytes for each of that many
/// pixels.
pub open spec fn decodable_size(data: Seq<u8>) -> bool {
    png_size(data) matches Some((width, height)) && width * height <= IMAGE_PIXEL_LIMIT
}

/// Decodes the first frame of a PNG file with `png::Decoder`.
///
/// The decoder is asked to expand palettes and to reduce samples to eight
/// bits (`Transformations::normalize_to_color8`), reads the header with
/// `read_info` and the frame with `next_frame`. The contract only names the
/// outcome: the same bytes always decode to the same frame or fail alike.
#[verifier::external_body]
fn decode_png(data: &[u8]) -> (result: Result<DecodedImage, png::DecodingError>)
    requires
        decodable_size(data@),
    ensures
        match result {
            Ok(decoded) => png_frame(data@) == Some(decoded@),
            Err(_) => png_frame(data@).is_none(),
        },
{
    let mut decoder = png::Decoder::new(data);
    decoder.set_transformations(png::Transformations::normalize_to_color8());
    let mut reader = decoder.read_info()?;
    let mut bytes = vec![0; reader.output_buffer_size()];
    let info = reader.next_frame(&mut bytes)?;
    let color_type = match info.color_type {
        png::ColorType::Grayscale => ColorType::Grayscale,
        png::ColorType::GrayscaleAlpha => ColorType::GrayscaleAlpha,
        png::ColorType::Indexed => ColorType::Indexed,
        png::ColorType::Rgb => ColorType::Rgb,
        png::ColorType::Rgba => ColorType::Rgba,
    };
    let (width, height, line_size) = (info.width, info.height, info.line_size);
    let bit_depth = info.bit_depth as u8;
    Ok(DecodedImage { width, height, color_type, bit_depth, line_size, bytes })
}

/// The first of the files from `from` on that has the given path.
pub open spec fn first_match(files: Seq<ImageFile>, path: Seq<char>, from: int) -> Option<int>
    decreases files.len() - from,
{
    if from < 0 || from >= files.len() {
        None
    } else if files[from].path@ == path {
        Some(from)
    } else {
        first_match(files, path, from + 1)
    }
}

/// Looks up the file with the given path; the first one counts.
pub fn find_file(files: &Vec<ImageFile>, path: &String) -> (found: Option<usize>)
    ensures
        match found {
            Some(i) => first_match(files@, path@, 0) == Some(i as int) && i < files@.len(),
            None => first_match(files@, path@, 0).is_none(),
        },
{
    let mut i: usize = 0;
    while i < files.len()
        invariant
            i <= files.len(),
            first_match(files@, path@, 0) == first_match(files@, path@, i as int),
        decreases files.len() - i,
    {
        if files[i].path == *path {
            return Some(i);
        }
        i += 1;
    }
    None
}

/// What drawing an image comes to, given the files at hand.
pub enum ImageOutcome {
    /// No file with the path of the image is at hand.
    Missing,
    /// The file could not be read.
    Unreadable(Seq<char>),
    /// The file is no PNG that the decoder accepts.
    Undecodable,
    /// The image has more pixels than are decoded.
    TooLarge,
    /// The file decodes to this frame.
    Decoded(Frame),
}

/// What drawing `image` comes to with `files` at hand.
pub open spec fn image_outcome(image: Image, files: Seq<ImageFile>) -> ImageOutcome {
    match first_match(files, image.path@, 0) {
        None => ImageOutcome::Missing,
        Some(i) => match files[i].content {
            Err(reason) => ImageOutcome::Unreadable(reason@),
            Ok(data) => if png_size(data@).is_none() {
                ImageOutcome::Undecodable
            } else if !decodable_size(data@) {
                ImageOutcome::TooLarge
            } else {
                match png_frame(data@) {
                    None => ImageOutcome::Undecodable,
                    Some(frame) => ImageOutcome::Decoded(frame),
                }
            },
        },
    }
}

/// The canvas after `image` was drawn with `files` at hand.
pub open spec fn drawn_image<C: BinarisedColor + ColorFromTemplate>(
    display: ShiftedDisplay,
    canvas: Seq<bool>,
    width: int,
    height: int,
    image: Image,
    files: Seq<ImageFile>,
) -> Seq<bool> {
    match image_outcome(image, files) {
        ImageOutcome::Decoded(frame) => drawn_frame::<C>(
            display,
            canvas,
            width,
            height,
            image,
            frame,
        ),
        _ => canvas,
    }
}

/// Why a decoded frame cannot be drawn, if it cannot.
pub open spec fn frame_failure(image: Image, frame: Frame) -> Option<Failure> {
    if frame.bit_depth != 8 || image.drawable(frame) {
        None
    } else {
        Some(Failure::OutOfRange)
    }
}

/// Why `image` cannot be drawn with `files` at hand, if it cannot.
pub open spec fn image_failure(image: Image, files: Seq<ImageFile>) -> Option<Failure> {
    match image_outcome(image, files) {
        ImageOutcome::Missing => Some(Failure::ResourceError(image.path@, "not loaded"@)),
        ImageOutcome::Unreadable(reason) => Some(Failure::ResourceError(image.path@, reason)),
        ImageOutcome::Undecodable => Some(Failure::ImageError(image.path@)),
        ImageOutcome::TooLarge => Some(Failure::OutOfRange),
        ImageOutcome::Decoded(frame) => frame_failure(image, frame),
    }
}

/// Draws an image through `display` onto `target`.
///
/// The bytes of the file are taken from `files`, decoded as PNG and drawn
/// with `draw_decoded`. Nothing is drawn where the file is missing or
/// unreadable (a resource error with the path of the image), cannot be
/// decoded (an image error with that path), or states more pixels than
/// `IMAGE_PIXEL_LIMIT`.
pub fn draw_image<C: BinarisedColor + ColorFromTemplate>(
    target: &mut BinaryFrameBuffer<C>,
    display: &ShiftedDisplay,
    image: &Image,
    files: &Vec<ImageFile>,
) -> (result: Result<(), DrawingError>)
    requires
        display.wf(),
        old(target).wf(),
    ensures
        final(target).wf(),
        final(target).spec_width() == old(target).spec_width(),
        final(target).spec_height() == old(target).spec_height(),
        final(target)@ == drawn_image::<C>(
            *display,
            old(target)@,
            old(target).spec_width() as int,
            old(target).spec_height() as int,
            *image,
            files@,
        ),
        reported(result) == image_failure(*image, files@),
{
    match find_file(files, &image.path) {
        None => Err(DrawingError::ResourceError(image.path.clone(), "not loaded".to_owned())),
        Some(i) => match &files[i].content {
            Err(reason) => Err(DrawingError::ResourceError(image.path.clone(), reason.clone())),
            Ok(data) => match read_png_size(data.as_slice()) {
                Err(cause) => Err(DrawingError::ImageError(image.path.clone(), cause)),
                Ok((width, height)) => {
                    proof {
                        assert(width * height <= 0xffff_ffff * 0xffff_ffff) by (nonlinear_arith)
                            requires
                                0 <= width <= 0xffff_ffff,
                                0 <= height <= 0xffff_ffff,
                        ;
                    }
                    if width as u64 * height as u64 > IMAGE_PIXEL_LIMIT {
                        Err(DrawingError::OutOfRange)
                    } else {
                        match decode_png(data.as_slice()) {
                            Err(cause) => Err(DrawingError::ImageError(image.path.clone(), cause)),
                            Ok(decoded) => draw_decoded(target, display, image, &decoded),
                        }
                    }
                },
            },
        },
    }
}

/// A row of a frame starts and ends inside the bytes of all rows.
proof fn lemma_row_start(y: int, line_size: int, height: int)
    requires
        0 <= y < height,
        0 <= line_size,
    ensures
        0 <= y * line_size,
        y * line_size + line_size <= line_size * height,
{
    assert(0 <= y * line_size) by (nonlinear_arith)
        requires
            0 <= y,
            0 <= line_size,
    ;
    assert(y * line_size + line_size <= line_size * height) by (nonlinear_arith)
        requires
            0 <= y < height,
            0 <= line_size,
    ;
}

/// The samples of a pixel start and end inside the samples of its row.
proof fn lemma_pixel_start(x: int, step: int, width: int)
    requires
        0 <= x < width,
        0 <= step,
    ensures
        0 <= x * step,
        x * step + step <= width * step,
{
    assert(0 <= x * step) by (nonlinear_arith)
        requires
            0 <= x,
            0 <= step,
    ;
    assert(x * step + step <= width * step) by (nonlinear_arith)
        requires
            0 <= x < width,
            0 <= step,
    ;
}

} // verus!
