//! Drawing of primitives onto a one-bit frame.
use vstd::prelude::*;
use crate::binary_framebuffer::{
    lemma_pixel_index, BinarisedColor, BinaryColor, BinaryFrameBuffer,
};
use crate::geometry::Rectangle;
use crate::renderer::container::{draw_container, Container, ShiftedDisplay};
use crate::renderer::drawing_error::{DrawingError, Failure};
use crate::renderer::image::{draw_image, drawn_image, image_failure, Image, ImageFile};
use crate::renderer::progress::{draw_progress, drawn_progress, progress_failure, Progress};
use crate::renderer::qrcode::{draw_qrcode, drawn_qrcode, qrcode_failure, QRCode};
use crate::renderer::text::{draw_text, drawn_text, text_failure, TextItem};

pub mod container;
pub mod drawing_error;
pub mod image;
pub mod painting;
pub mod positioning;
pub mod progress;
pub mod qrcode;
pub mod text;

pub use crate::geometry::{Point, Size};

verus! {

/// The token of a colour as a template gives it, if it gives one.
pub open spec fn token(color: Option<String>) -> Option<Seq<char>> {
    match color {
        Some(s) => Some(s@),
        None => None,
    }
}

/// Whether two texts are the same.
pub fn same_text(a: &str, b: &str) -> (same: bool)
    ensures
        same == (a@ == b@),
{
    let left: String = a.to_owned();
    let right: String = b.to_owned();
    left == right
}

/// A colour that a template can name.
pub trait ColorFromTemplate: Sized {
    /// The colour that a token names; the default where there is none.
    spec fn resolved(color: Option<Seq<char>>) -> Self;

    /// The opposite colour.
    spec fn inverted(&self) -> Self;

    /// Resolves the token of a colour; no token gives the default colour.
    fn resolve(color: &Option<String>) -> (resolved: Self)
        ensures
            resolved == Self::resolved(token(*color)),
    ;

    /// The opposite of this colour.
    fn invert(&self) -> (inverted: Self)
        ensures
            inverted == self.inverted(),
    ;
}

/// On a one-bit panel `white` and `1` name the set bit; `black`, `0`, any
/// other token and no token at all name the cleared bit.
impl ColorFromTemplate for BinaryColor {
    open spec fn resolved(color: Option<Seq<char>>) -> Self {
        match color {
            Some(s) => if s == "white"@ || s == "1"@ {
                BinaryColor::On
            } else {
                BinaryColor::Off
            },
            None => BinaryColor::Off,
        }
    }

    open spec fn inverted(&self) -> Self {
        match self {
            BinaryColor::Off => BinaryColor::On,
            BinaryColor::On => BinaryColor::Off,
        }
    }

    fn resolve(color: &Option<String>) -> (resolved: Self) {
        match color {
            Some(s) => {
                if same_text(s.as_str(), "white") || same_text(s.as_str(), "1") {
                    BinaryColor::On
                } else {
                    BinaryColor::Off
                }
            },
            None => BinaryColor::Off,
        }
    }

    fn invert(&self) -> (inverted: Self) {
        match self {
            BinaryColor::Off => BinaryColor::On,
            BinaryColor::On => BinaryColor::Off,
        }
    }
}

/// The colour that a progress bar or an image takes for a set or a cleared
/// source pixel.
pub fn plain_color<C: ColorFromTemplate>(on: bool) -> (color: C)
    ensures
        color == plain::<C>(on),
{
    let token: String = if on {
        "1".to_owned()
    } else {
        "0".to_owned()
    };
    C::resolve(&Some(token))
}

/// The colour named `1` where `on` holds, else the colour named `0`.
pub open spec fn plain<C: ColorFromTemplate>(on: bool) -> C {
    if on {
        C::resolved(Some("1"@))
    } else {
        C::resolved(Some("0"@))
    }
}

/// A primitive without any effect.
#[derive(Debug, Clone, Copy, PartialEq, Eq, Structural)]
pub struct Dummy {}

/// Something that can be drawn.
#[derive(Debug, PartialEq)]
pub enum Primitive {
    Dummy(Dummy),
    Text(TextItem),
    QRCode(QRCode),
    Image(Image),
    Progress(Progress),
    Container(Container),
}

/// The canvas after one primitive was drawn through `display`.
pub open spec fn drawn_primitive<C: BinarisedColor + ColorFromTemplate>(
    display: ShiftedDisplay,
    canvas: Seq<bool>,
    width: int,
    height: int,
    primitive: Primitive,
    files: Seq<ImageFile>,
) -> Seq<bool>
    decreases primitive, 0nat,
{
    match primitive {
        Primitive::Dummy(_) => canvas,
        Primitive::Text(text) => drawn_text::<C>(display, canvas, width, height, text),
        Primitive::QRCode(qrcode) => drawn_qrcode::<C>(display, canvas, width, height, qrcode),
        Primitive::Image(image) => drawn_image::<C>(display, canvas, width, height, image, files),
        Primitive::Progress(progress) => drawn_progress::<C>(
            display,
            canvas,
            width,
            height,
            progress,
        ),
        Primitive::Container(container) => match container.content {
            Some(content) => if display.can_shift(container.bounds()) {
                drawn_list::<C>(
                    display.shifted(container.bounds(), container.turns()),
                    canvas,
                    width,
                    height,
                    content@,
                    files,
                    content@.len(),
                )
            } else {
                canvas
            },
            None => canvas,
        },
    }
}

/// The canvas after the first `n` primitives of a list were drawn in order;
/// a later primitive paints over an earlier one.
pub open spec fn drawn_list<C: BinarisedColor + ColorFromTemplate>(
    display: ShiftedDisplay,
    canvas: Seq<bool>,
    width: int,
    height: int,
    primitives: Seq<Primitive>,
    files: Seq<ImageFile>,
    n: nat,
) -> Seq<bool>
    decreases primitives, n,
{
    if n == 0 || n > primitives.len() {
        canvas
    } else {
        drawn_primitive::<C>(
            display,
            drawn_list::<C>(display, canvas, width, height, primitives, files, (n - 1) as nat),
            width,
            height,
            primitives[n - 1],
            files,
        )
    }
}

/// Why a primitive cannot be drawn, if it cannot. A container fails with
/// the first failure among its content.
pub open spec fn primitive_failure(
    display: ShiftedDisplay,
    width: int,
    height: int,
    primitive: Primitive,
    files: Seq<ImageFile>,
) -> Option<Failure>
    decreases primitive, 0nat,
{
    match primitive {
        Primitive::Dummy(_) => None,
        Primitive::Text(text) => text_failure(display, width, height, text),
        Primitive::QRCode(qrcode) => qrcode_failure(qrcode),
        Primitive::Image(image) => image_failure(image, files),
        Primitive::Progress(progress) => progress_failure(progress),
        Primitive::Container(container) => if display.can_shift(container.bounds()) {
            match container.content {
                Some(content) => first_failure(
                    display.shifted(container.bounds(), container.turns()),
                    width,
                    height,
                    content@,
                    files,
                    content@.len(),
                ),
                None => None,
            }
        } else {
            Some(Failure::OutOfRange)
        },
    }
}

/// The failure of the first of the first `n` primitives that cannot be
/// drawn, if there is one.
pub open spec fn first_failure(
    display: ShiftedDisplay,
    width: int,
    height: int,
    primitives: Seq<Primitive>,
    files: Seq<ImageFile>,
    n: nat,
) -> Option<Failure>
    decreases primitives, n,
{
    if n == 0 || n > primitives.len() {
        None
    } else {
        match first_failure(display, width, height, primitives, files, (n - 1) as nat) {
            Some(failure) => Some(failure),
            None => primitive_failure(display, width, height, primitives[n - 1], files),
        }
    }
}

/// What a call that draws reports: nothing where all went well, else the
/// failure that came first.
pub open spec fn reported(result: Result<(), DrawingError>) -> Option<Failure> {
    match result {
        Ok(_) => None,
        Err(error) => Some(error@),
    }
}

/// Draws the primitives in order through `display` onto `target`.
///
/// A primitive that cannot be drawn does not stop the others: the rest of
/// the list is drawn all the same, and the first failure is reported at the
/// end.
pub fn draw<C: BinarisedColor + ColorFromTemplate>(
    target: &mut BinaryFrameBuffer<C>,
    display: &ShiftedDisplay,
    primitives: &Vec<Primitive>,
    files: &Vec<ImageFile>,
) -> (result: Result<(), DrawingError>)
    requires
        display.wf(),
        old(target).wf(),
    ensures
        final(target).wf(),
        final(target).spec_width() == old(target).spec_width(),
        final(target).spec_height() == old(target).spec_height(),
        final(target)@ == drawn_list::<C>(
            *display,
            old(target)@,
            old(target).spec_width() as int,
            old(target).spec_height() as int,
            primitives@,
            files@,
            primitives@.len(),
        ),
        reported(result) == first_failure(
            *display,
            old(target).spec_width() as int,
            old(target).spec_height() as int,
            primitives@,
            files@,
            primitives@.len(),
        ),
    decreases primitives,
{
    let ghost canvas = target@;
    let ghost w = target.spec_width() as int;
    let ghost h = target.spec_height() as int;
    let mut result: Result<(), DrawingError> = Ok(());
    let mut i: usize = 0;
    while i < primitives.len()
        invariant
            i <= primitives.len(),
            display.wf(),
            target.wf(),
            target.spec_width() == w,
            target.spec_height() == h,
            target@ == drawn_list::<C>(*display, canvas, w, h, primitives@, files@, i as nat),
            reported(result) == first_failure(*display, w, h, primitives@, files@, i as nat),
        decreases primitives.len() - i,
    {
        let ghost before = target@;
        let problem: Result<(), DrawingError> = match &primitives[i] {
            Primitive::Dummy(_) => Ok(()),
            Primitive::Text(text) => draw_text(target, display, text),
            Primitive::Image(image) => draw_image(target, display, image, files),
            Primitive::QRCode(qrcode) => draw_qrcode(target, display, qrcode),
            Primitive::Progress(progress) => draw_progress(target, display, progress),
            Primitive::Container(container) => draw_container(target, display, container, files),
        };
        proof {
            assert(target@ == drawn_primitive::<C>(
                *display,
                before,
                w,
                h,
                primitives@[i as int],
                files@,
            ));
            assert(reported(problem) == primitive_failure(
                *display,
                w,
                h,
                primitives@[i as int],
                files@,
            ));
            assert(drawn_list::<C>(*display, canvas, w, h, primitives@, files@, (i + 1) as nat)
                == drawn_primitive::<C>(*display, before, w, h, primitives@[i as int], files@));
        }
        match problem {
            Err(error) => {
                if result.is_ok() {
                    result = Err(error);
                }
            },
            Ok(_) => {},
        }
        i += 1;
    }
    result
}

/// The paths of the image files that a primitive asks for, in the order in
/// which they are drawn.
pub open spec fn paths_of(primitive: Primitive) -> Seq<Seq<char>>
    decreases primitive, 0nat,
{
    match primitive {
        Primitive::Image(image) => seq![image.path@],
        Primitive::Container(container) => match container.content {
            Some(content) => paths_in(content@, content@.len()),
            None => Seq::empty(),
        },
        _ => Seq::empty(),
    }
}

/// The paths of the image files that the first `n` primitives ask for.
pub open spec fn paths_in(primitives: Seq<Primitive>, n: nat) -> Seq<Seq<char>>
    decreases primitives, n,
{
    if n == 0 || n > primitives.len() {
        Seq::empty()
    } else {
        paths_in(primitives, (n - 1) as nat) + paths_of(primitives[n - 1])
    }
}

/// The texts of a list of strings.
pub open spec fn texts(strings: Seq<String>) -> Seq<Seq<char>> {
    Seq::new(strings.len(), |i: int| strings[i]@)
}

/// Appends to `paths` the path of every image among the primitives and
/// their content, in the order in which they are drawn. These are the files
/// whose bytes `draw` looks for.
pub fn image_paths(primitives: &Vec<Primitive>, paths: &mut Vec<String>)
    ensures
        texts(final(paths)@) == texts(old(paths)@) + paths_in(primitives@, primitives@.len()),
    decreases primitives,
{
    let ghost start = texts(paths@);
    let mut i: usize = 0;
    proof {
        assert(start + paths_in(primitives@, 0) =~= start);
    }
    while i < primitives.len()
        invariant
            i <= primitives.len(),
            texts(paths@) == start + paths_in(primitives@, i as nat),
        decreases primitives.len() - i,
    {
        let ghost before = texts(paths@);
        match &primitives[i] {
            Primitive::Image(image) => {
                paths.push(image.path.clone());
                proof {
                    assert(texts(paths@) =~= before + seq![image.path@]);
                }
            },
            Primitive::Container(container) => {
                match &container.content {
                    Some(content) => {
                        image_paths(content, paths);
                    },
                    None => {
                        assert(before + Seq::<Seq<char>>::empty() =~= before);
                    },
                }
            },
            _ => {
                assert(before + Seq::<Seq<char>>::empty() =~= before);
            },
        }
        proof {
            assert(texts(paths@) == before + paths_of(primitives@[i as int]));
            assert(paths_in(primitives@, (i + 1) as nat) == paths_in(primitives@, i as nat)
                + paths_of(primitives@[i as int]));
            assert(start + paths_in(primitives@, (i + 1) as nat) =~= (start + paths_in(
                primitives@,
                i as nat,
            )) + paths_of(primitives@[i as int]));
        }
        i += 1;
    }
}

/// The character that shows two pixels, one above the other: a blank, a
/// lower half block, an upper half block or a full block.
pub open spec fn glyph(upper: bool, lower: bool) -> char {
    if !upper && !lower {
        ' '
    } else if !upper {
        '\u{2584}'
    } else if !lower {
        '\u{2580}'
    } else {
        '\u{2588}'
    }
}

/// The character that shows the pixel `a` above the pixel `b`; a pixel is
/// set where its value is not zero.
pub fn map_ascii(a: u8, b: u8) -> (c: char)
    ensures
        c == glyph(a != 0, b != 0),
{
    if a == 0 && b == 0 {
        ' '
    } else {
        if a == 0 {
            '\u{2584}'
        } else {
            if b == 0 {
                '\u{2580}'
            } else {
                '\u{2588}'
            }
        }
    }
}

/// The area that `to_display_string` shows: `bounds`, or the whole frame of
/// `width` by `height` pixels where there is none.
pub open spec fn shown_area(bounds: Option<Rectangle>, width: u32, height: u32) -> Rectangle {
    match bounds {
        Some(area) => area,
        None => Rectangle { top_left: Point { x: 0, y: 0 }, size: Size { width, height } },
    }
}

/// Number of lines that show the rows of `area`: a line shows two rows.
pub open spec fn shown_lines(area: Rectangle) -> int {
    (area.top_left.y + area.size.height) / 2 - area.top_left.y / 2
}

/// The picture of `area` in characters: one line for two rows of pixels,
/// one character for each column, and a line feed after each line.
pub open spec fn display_text(pixels: Seq<bool>, width: int, area: Rectangle) -> Seq<char> {
    let columns = area.size.width as int;
    Seq::new(
        (shown_lines(area) * (columns + 1)) as nat,
        |i: int|
            {
                let x = area.top_left.x + i % (columns + 1);
                let y = 2 * (area.top_left.y / 2 + i / (columns + 1));
                if i % (columns + 1) == columns {
                    '\n'
                } else {
                    glyph(pixels[y * width + x], pixels[(y + 1) * width + x])
                }
            },
    )
}

/// Shows an area of a frame in characters, two rows of pixels to a line.
pub fn to_display_string<C>(
    buffer: &BinaryFrameBuffer<C>,
    bounds: Option<Rectangle>,
) -> (text: String)
    requires
        buffer.wf(),
        shown_area(bounds, buffer.spec_width(), buffer.spec_height()).within(
            buffer.spec_width() as int,
            buffer.spec_height() as int,
        ),
    ensures
        text@ == display_text(
            buffer@,
            buffer.spec_width() as int,
            shown_area(bounds, buffer.spec_width(), buffer.spec_height()),
        ),
{
    let width: u64 = buffer.width() as u64;
    let area: Rectangle = match bounds {
        Some(area) => area,
        None => Rectangle {
            top_left: Point { x: 0, y: 0 },
            size: Size { width: buffer.width(), height: buffer.height() },
        },
    };
    let minx: u64 = area.top_left.x as u64;
    let miny: u64 = area.top_left.y as u64;
    let maxx: u64 = minx + area.size.width as u64;
    let maxy: u64 = miny + area.size.height as u64;
    let first: u64 = miny / 2;
    let last: u64 = maxy / 2;
    let ghost columns = area.size.width as int;
    let ghost expected = display_text(buffer@, buffer.spec_width() as int, area);
    let mut result: String = String::new();
    proof {
        buffer.lemma_view();
        assert(0 * (columns + 1) == 0);
    }
    let mut y: u64 = first;
    while y < last
        invariant
            buffer.wf(),
            first <= y <= last,
            first == miny / 2,
            last == maxy / 2,
            width == buffer.spec_width(),
            minx == area.top_left.x,
            miny == area.top_left.y,
            maxx == minx + area.size.width,
            maxy == miny + area.size.height,
            maxx <= width,
            maxy <= buffer.spec_height(),
            columns == area.size.width,
            buffer@.len() == buffer.spec_width() * buffer.spec_height(),
            buffer.spec_width() * buffer.spec_height() <= usize::MAX,
            expected == display_text(buffer@, buffer.spec_width() as int, area),
            expected.len() == (last - first) * (columns + 1),
            result@ == expected.take((y - first) * (columns + 1)),
        decreases last - y,
    {
        let mut x: u64 = minx;
        proof {
            lemma_line((y - first) as int, (last - first) as int, columns + 1);
        }
        while x < maxx
            invariant
                buffer.wf(),
                first <= y < last,
                minx <= x <= maxx,
                first == miny / 2,
                last == maxy / 2,
                width == buffer.spec_width(),
                minx == area.top_left.x,
                miny == area.top_left.y,
                maxx == minx + area.size.width,
                maxy == miny + area.size.height,
                maxx <= width,
                maxy <= buffer.spec_height(),
                columns == area.size.width,
                buffer@.len() == buffer.spec_width() * buffer.spec_height(),
                buffer.spec_width() * buffer.spec_height() <= usize::MAX,
                expected == display_text(buffer@, buffer.spec_width() as int, area),
                expected.len() == (last - first) * (columns + 1),
                (y - first) * (columns + 1) + (columns + 1) <= expected.len(),
                result@ == expected.take((y - first) * (columns + 1) + (x - minx)),
            decreases maxx - x,
        {
            proof {
                lemma_pixel_index(x as int, 2 * y, width as int, buffer.spec_height() as int);
                lemma_pixel_index(x as int, 2 * y + 1, width as int, buffer.spec_height() as int);
                lemma_cell((y - first) as int, (x - minx) as int, columns + 1);
                assert((y * 2 + 1) * width <= 0xffff_ffff * 0xffff_ffff && (y * 2) * width
                    <= 0xffff_ffff * 0xffff_ffff) by (nonlinear_arith)
                    requires
                        0 <= y * 2 + 1 <= 0xffff_ffff,
                        0 <= width <= 0xffff_ffff,
                ;
            }
            let upper: bool = buffer.get_bit(((y * 2) * width + x) as usize);
            let lower: bool = buffer.get_bit(((y * 2 + 1) * width + x) as usize);
            let piece: &str = if !upper && !lower {
                " "
            } else if !upper {
                "\u{2584}"
            } else if !lower {
                "\u{2580}"
            } else {
                "\u{2588}"
            };
            let ghost at = (y - first) * (columns + 1) + (x - minx);
            proof {
                reveal_strlit(" ");
                reveal_strlit("\u{2584}");
                reveal_strlit("\u{2580}");
                reveal_strlit("\u{2588}");
                assert(piece@ =~= seq![glyph(upper, lower)]);
                assert(expected[at] == glyph(upper, lower));
                assert(expected.take(at) + seq![expected[at]] =~= expected.take(at + 1));
            }
            result.append(piece);
            x += 1;
        }
        let ghost at = (y - first) * (columns + 1) + columns;
        proof {
            lemma_cell((y - first) as int, columns, columns + 1);
            reveal_strlit("\n");
            assert("\n"@ =~= seq!['\n']);
            assert(expected[at] == '\n');
            assert(expected.take(at) + seq![expected[at]] =~= expected.take(at + 1));
            assert((y - first) * (columns + 1) + (columns + 1) == (y + 1 - first) * (columns + 1))
                by (nonlinear_arith);
        }
        result.append("\n");
        y += 1;
    }
    proof {
        assert(expected.take((last - first) * (columns + 1)) =~= expected);
    }
    result
}

/// A line of a text of `lines` lines of `stride` characters ends inside the
/// text.
proof fn lemma_line(line: int, lines: int, stride: int)
    requires
        0 <= line < lines,
        0 < stride,
    ensures
        0 <= line * stride,
        line * stride + stride <= lines * stride,
{
    assert(0 <= line * stride) by (nonlinear_arith)
        requires
            0 <= line,
            0 < stride,
    ;
    assert(line * stride + stride <= lines * stride) by (nonlinear_arith)
        requires
            0 <= line < lines,
            0 < stride,
    ;
}

/// The character `column` of the line `line` has the index
/// `line * stride + column`.
proof fn lemma_cell(line: int, column: int, stride: int)
    requires
        0 <= line,
        0 <= column < stride,
    ensures
        (line * stride + column) % stride == column,
        (line * stride + column) / stride == line,
{
    vstd::arithmetic::div_mod::lemma_fundamental_div_mod_converse(
        line * stride + column,
        stride,
        line,
        column,
    );
}

} // verus!
