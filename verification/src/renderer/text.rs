//! Text in monospaced bitmap fonts, laid out and rasterised by
//! `embedded-graphics`.
use vstd::prelude::*;
use embedded_graphics::framebuffer::Framebuffer;
use embedded_graphics::geometry::Point as Anchor;
use embedded_graphics::mono_font::ascii::{
    FONT_10X20, FONT_4X6, FONT_5X7, FONT_5X8, FONT_6X10, FONT_6X12, FONT_6X13, FONT_6X13_BOLD,
    FONT_6X13_ITALIC, FONT_6X9, FONT_7X13, FONT_7X13_BOLD, FONT_7X13_ITALIC, FONT_7X14,
    FONT_7X14_BOLD, FONT_8X13, FONT_8X13_BOLD, FONT_8X13_ITALIC, FONT_9X15, FONT_9X15_BOLD,
    FONT_9X18, FONT_9X18_BOLD,
};
use embedded_graphics::mono_font::MonoTextStyle;
use embedded_graphics::pixelcolor::raw::{LittleEndian, RawU1};
use embedded_graphics::pixelcolor::BinaryColor as Ink;
use embedded_graphics::text::{Alignment as Side, Baseline, Text, TextStyle};
use embedded_graphics::Drawable;
use crate::binary_framebuffer::{get_bit, packed_bit, BinarisedColor, BinaryFrameBuffer};
use crate::geometry::Point;
use crate::renderer::container::{ShiftedDisplay, Window};
use crate::renderer::drawing_error::{DrawingError, Failure};
use crate::renderer::painting::{cell_x, cell_y, lemma_grid_index, Dot};
use crate::renderer::{reported, same_text, token, ColorFromTemplate};

verus! {

/// The side of the anchor on which a line of text starts or ends.
#[derive(Debug, Clone, Copy, PartialEq, Eq, Structural)]
pub enum Alignment {
    Left,
    Center,
    Right,
}

/// The fonts that a text can be set in, named by the size of a character.
#[derive(Debug, Clone, Copy, PartialEq, Eq, Structural)]
pub enum Font {
    F4x6,
    F5x7,
    F5x8,
    F6x9,
    F6x10,
    F6x12,
    F6x13,
    F6x13Bold,
    F6x13Italic,
    F7x13,
    F7x13Bold,
    F7x13Italic,
    F7x14,
    F7x14Bold,
    F8x13,
    F8x13Bold,
    F8x13Italic,
    F9x15,
    F9x15Bold,
    F9x18,
    F9x18Bold,
    F10x20,
}

/// A text drawn at a position, its top at the row of the position.
#[derive(Debug, PartialEq)]
pub struct TextItem {
    pub value: String,
    pub position: Point,
    pub font: Option<String>,
    pub color: Option<String>,
    pub align: Option<Alignment>,
}

impl Clone for TextItem {
    fn clone(&self) -> (copy: Self)
        ensures
            copy == *self,
    {
        TextItem {
            value: self.value.clone(),
            position: self.position,
            font: self.font.clone(),
            color: self.color.clone(),
            align: self.align,
        }
    }
}

/// The upper-case form of an ASCII letter; any other character as it is.
pub open spec fn upper_char(c: char) -> char {
    if 'a' <= c && c <= 'z' {
        ((c as u8) - 32) as char
    } else {
        c
    }
}

/// The text with its ASCII letters in upper case.
pub open spec fn uppercase(s: Seq<char>) -> Seq<char> {
    Seq::new(s.len(), |i: int| upper_char(s[i]))
}

/// The upper-case form of a text, by `str::to_ascii_uppercase`: the letters
/// `a` to `z` become `A` to `Z`, and every other character stays.
#[verifier::external_body]
fn ascii_uppercase(s: &str) -> (upper: String)
    ensures
        upper@ == uppercase(s@),
{
    s.to_ascii_uppercase()
}

/// The font with the given name in upper case; the default font where the
/// name is not known.
pub open spec fn font_named(name: Seq<char>) -> Font {
    if name == "4X6"@ {
        Font::F4x6
    } else if name == "5X7"@ {
        Font::F5x7
    } else if name == "5X8"@ {
        Font::F5x8
    } else if name == "6X9"@ {
        Font::F6x9
    } else if name == "6X10"@ {
        Font::F6x10
    } else if name == "6X12"@ {
        Font::F6x12
    } else if name == "6X13"@ {
        Font::F6x13
    } else if name == "6X13_BOLD"@ {
        Font::F6x13Bold
    } else if name == "6X13_ITALIC"@ {
        Font::F6x13Italic
    } else if name == "7X13"@ {
        Font::F7x13
    } else if name == "7X13_BOLD"@ {
        Font::F7x13Bold
    } else if name == "7X13_ITALIC"@ {
        Font::F7x13Italic
    } else if name == "7X14"@ {
        Font::F7x14
    } else if name == "7X14_BOLD"@ {
        Font::F7x14Bold
    } else if name == "8X13"@ {
        Font::F8x13
    } else if name == "8X13_BOLD"@ {
        Font::F8x13Bold
    } else if name == "8X13_ITALIC"@ {
        Font::F8x13Italic
    } else if name == "9X15"@ {
        Font::F9x15
    } else if name == "9X15_BOLD"@ {
        Font::F9x15Bold
    } else if name == "9X18"@ {
        Font::F9x18
    } else if name == "9X18_BOLD"@ {
        Font::F9x18Bold
    } else if name == "10X20"@ {
        Font::F10x20
    } else {
        Font::F6x10
    }
}

/// The font that a primitive asks for.
pub open spec fn resolved_font(font: Option<String>) -> Font {
    match font {
        None => Font::F6x10,
        Some(name) => font_named(uppercase(name@)),
    }
}

/// Resolves the name of a font, whatever the case of its letters. No name
/// and an unknown name give the font of 6 by 10 pixels.
pub fn resolve_font(font: &Option<String>) -> (resolved: Font)
    ensures
        resolved == resolved_font(*font),
{
    match font {
        None => Font::F6x10,
        Some(font) => {
            let upper: String = ascii_uppercase(font.as_str());
            let name: &str = upper.as_str();
            if same_text(name, "4X6") {
                Font::F4x6
            } else if same_text(name, "5X7") {
                Font::F5x7
            } else if same_text(name, "5X8") {
                Font::F5x8
            } else if same_text(name, "6X9") {
                Font::F6x9
            } else if same_text(name, "6X10") {
                Font::F6x10
            } else if same_text(name, "6X12") {
                Font::F6x12
            } else if same_text(name, "6X13") {
                Font::F6x13
            } else if same_text(name, "6X13_BOLD") {
                Font::F6x13Bold
            } else if same_text(name, "6X13_ITALIC") {
                Font::F6x13Italic
            } else if same_text(name, "7X13") {
                Font::F7x13
            } else if same_text(name, "7X13_BOLD") {
                Font::F7x13Bold
            } else if same_text(name, "7X13_ITALIC") {
                Font::F7x13Italic
            } else if same_text(name, "7X14") {
                Font::F7x14
            } else if same_text(name, "7X14_BOLD") {
                Font::F7x14Bold
            } else if same_text(name, "8X13") {
                Font::F8x13
            } else if same_text(name, "8X13_BOLD") {
                Font::F8x13Bold
            } else if same_text(name, "8X13_ITALIC") {
                Font::F8x13Italic
            } else if same_text(name, "9X15") {
                Font::F9x15
            } else if same_text(name, "9X15_BOLD") {
                Font::F9x15Bold
            } else if same_text(name, "9X18") {
                Font::F9x18
            } else if same_text(name, "9X18_BOLD") {
                Font::F9x18Bold
            } else if same_text(name, "10X20") {
                Font::F10x20
            } else {
                Font::F6x10
            }
        },
    }
}

/// Text is rasterised in square tiles of this many pixels.
pub const TILE: i64 = 64;

/// Number of bytes of a rasterised tile: one bit for each pixel.
pub const TILE_BYTES: usize = 512;

/// The largest coordinate, to either side, at which text is drawn.
pub const TEXT_REACH: i64 = 16777216;

/// The largest number of characters of a text.
pub const TEXT_LENGTH_LIMIT: usize = 65536;

/// A tile of rasterised text in the storage of the graphics crate.
type Tile = Framebuffer<Ink, RawU1, LittleEndian, 64, 64, 512>;

/// The pixels of a text whose anchor lies at `(x, y)`, as far as they fall
/// into the square `0 .. 64` by `0 .. 64`: packed bits, row by row, a set bit
/// where the text has ink.
pub uninterp spec fn text_bitmap(
    value: Seq<char>,
    font: Font,
    align: Alignment,
    x: int,
    y: int,
) -> Seq<u8>;

/// Rasterises one tile of a text with `embedded-graphics`.
///
/// The text is laid out by `Text::with_text_style`, with its top at the
/// anchor and the given alignment, and drawn in the given font into a
/// `Framebuffer` of 64 by 64 one-bit pixels, which drops what falls outside.
/// The contract names the bytes of that buffer, of which there are 512.
#[verifier::external_body]
fn render_tile(value: &str, font: Font, align: Alignment, x: i32, y: i32) -> (tile: Vec<u8>)
    requires
        value@.len() <= TEXT_LENGTH_LIMIT,
        -2 * TEXT_REACH <= x <= 2 * TEXT_REACH,
        -2 * TEXT_REACH <= y <= 2 * TEXT_REACH,
    ensures
        tile@ == text_bitmap(value@, font, align, x as int, y as int),
        tile@.len() == TILE_BYTES,
{
    let fonts = [
        &FONT_4X6, &FONT_5X7, &FONT_5X8, &FONT_6X9, &FONT_6X10, &FONT_6X12, &FONT_6X13,
        &FONT_6X13_BOLD, &FONT_6X13_ITALIC, &FONT_7X13, &FONT_7X13_BOLD, &FONT_7X13_ITALIC,
        &FONT_7X14, &FONT_7X14_BOLD, &FONT_8X13, &FONT_8X13_BOLD, &FONT_8X13_ITALIC, &FONT_9X15,
        &FONT_9X15_BOLD, &FONT_9X18, &FONT_9X18_BOLD, &FONT_10X20,
    ];
    let sides = [Side::Left, Side::Center, Side::Right];
    let style = MonoTextStyle::new(fonts[font as usize], Ink::On);
    let mut layout = TextStyle::with_baseline(Baseline::Top);
    layout.alignment = sides[align as usize];
    let mut tile = Tile::new();
    let _ = Text::with_text_style(value, Anchor::new(x, y), style, layout).draw(&mut tile);
    tile.data().to_vec()
}

impl TextItem {
    /// The bits of the tile `(tx, ty)` of the view.
    pub open spec fn tile_bits(&self, tx: int, ty: int) -> Seq<u8> {
        text_bitmap(
            self.value@,
            resolved_font(self.font),
            match self.align {
                Some(align) => align,
                None => Alignment::Left,
            },
            self.position.x - tx * TILE,
            self.position.y - ty * TILE,
        )
    }

    /// The dots of the tile `(tx, ty)` of the view, row by row: ink in the
    /// colour of the text where the tile has a set bit.
    pub open spec fn tile_dots<C: BinarisedColor + ColorFromTemplate>(
        &self,
        tx: int,
        ty: int,
    ) -> Seq<Dot> {
        bitmap_dots(
            self.tile_bits(tx, ty),
            tx * TILE,
            ty * TILE,
            C::resolved(token(self.color)).is_on(),
        )
    }

    /// The dots of the first `n` tiles of the row `ty` of tiles, from the
    /// tile `tx0` on.
    pub open spec fn row_dots<C: BinarisedColor + ColorFromTemplate>(
        &self,
        ty: int,
        tx0: int,
        n: nat,
    ) -> Seq<Dot>
        decreases n,
    {
        if n == 0 {
            Seq::empty()
        } else {
            self.row_dots::<C>(ty, tx0, (n - 1) as nat) + self.tile_dots::<C>(tx0 + n - 1, ty)
        }
    }

    /// The dots of the first `m` rows of tiles from the row `ty0` on, each
    /// row with the `n` tiles from the tile `tx0` on.
    pub open spec fn rows_dots<C: BinarisedColor + ColorFromTemplate>(
        &self,
        ty0: int,
        m: nat,
        tx0: int,
        n: nat,
    ) -> Seq<Dot>
        decreases m,
    {
        if m == 0 {
            Seq::empty()
        } else {
            self.rows_dots::<C>(ty0, (m - 1) as nat, tx0, n) + self.row_dots::<C>(
                ty0 + m - 1,
                tx0,
                n,
            )
        }
    }

    /// The dots of the text in the tiles that touch `window`.
    pub open spec fn dots<C: BinarisedColor + ColorFromTemplate>(
        &self,
        window: Window,
    ) -> Seq<Dot> {
        let tx0 = window.left as int / TILE as int;
        let ty0 = window.top as int / TILE as int;
        let tx1 = (window.right + TILE - 1) / TILE as int;
        let ty1 = (window.bottom + TILE - 1) / TILE as int;
        self.rows_dots::<C>(ty0, (ty1 - ty0) as nat, tx0, (tx1 - tx0) as nat)
    }

    /// Whether the text can be drawn where `window` is the part of the view
    /// that shows: the text is not too long, and its anchor and the window
    /// are within reach.
    pub open spec fn drawable(&self, window: Window) -> bool {
        &&& self.value@.len() <= TEXT_LENGTH_LIMIT
        &&& -TEXT_REACH <= self.position.x <= TEXT_REACH
        &&& -TEXT_REACH <= self.position.y <= TEXT_REACH
        &&& window.right <= TEXT_REACH
        &&& window.bottom <= TEXT_REACH
    }
}

/// The dots of a tile of packed bits whose corner lies at `(left, top)`:
/// ink `on` where a bit is set.
pub open spec fn bitmap_dots(bits: Seq<u8>, left: int, top: int, on: bool) -> Seq<Dot> {
    Seq::new(
        (TILE * TILE) as nat,
        |k: int|
            Dot {
                x: left + cell_x(k, TILE as int),
                y: top + cell_y(k, TILE as int),
                ink: if packed_bit(bits, k) {
                    Some(on)
                } else {
                    None
                },
            },
    )
}

/// Draws a tile of packed bits through `display` onto `target`.
pub fn draw_bitmap<C>(
    target: &mut BinaryFrameBuffer<C>,
    display: &ShiftedDisplay,
    bits: &Vec<u8>,
    left: i64,
    top: i64,
    on: bool,
)
    requires
        display.wf(),
        old(target).wf(),
        bits@.len() == TILE_BYTES,
        -TEXT_REACH <= left <= TEXT_REACH,
        -TEXT_REACH <= top <= TEXT_REACH,
    ensures
        final(target).wf(),
        final(target).spec_width() == old(target).spec_width(),
        final(target).spec_height() == old(target).spec_height(),
        final(target)@ == display@.paint(
            old(target)@,
            old(target).spec_width() as int,
            old(target).spec_height() as int,
            bitmap_dots(bits@, left as int, top as int, on),
        ),
{
    let ghost dots = bitmap_dots(bits@, left as int, top as int, on);
    let ghost canvas = target@;
    let ghost w = target.spec_width() as int;
    let ghost h = target.spec_height() as int;
    proof {
        assert(dots.take(0) =~= Seq::<Dot>::empty());
    }
    let mut y: i64 = 0;
    while y < TILE
        invariant
            0 <= y <= TILE,
            display.wf(),
            target.wf(),
            target.spec_width() == w,
            target.spec_height() == h,
            bits@.len() == TILE_BYTES,
            -TEXT_REACH <= left <= TEXT_REACH,
            -TEXT_REACH <= top <= TEXT_REACH,
            dots == bitmap_dots(bits@, left as int, top as int, on),
            target@ == display@.paint(canvas, w, h, dots.take(y * TILE)),
        decreases TILE - y,
    {
        let mut x: i64 = 0;
        while x < TILE
            invariant
                0 <= y < TILE,
                0 <= x <= TILE,
                display.wf(),
                target.wf(),
                target.spec_width() == w,
                target.spec_height() == h,
                bits@.len() == TILE_BYTES,
                -TEXT_REACH <= left <= TEXT_REACH,
                -TEXT_REACH <= top <= TEXT_REACH,
                dots == bitmap_dots(bits@, left as int, top as int, on),
                target@ == display@.paint(canvas, w, h, dots.take(y * TILE + x)),
            decreases TILE - x,
        {
            proof {
                lemma_grid_index(x as int, y as int, TILE as int, TILE as int);
                display@.lemma_paint_next(canvas, w, h, dots, y * TILE + x);
            }
            let (byte, mask) = get_bit((y * TILE + x) as usize);
            if bits[byte] & mask != 0 {
                display.draw_pixel(target, left + x, top + y, on);
            }
            x += 1;
        }
        y += 1;
    }
    proof {
        assert(dots.take(TILE * TILE) =~= dots);
    }
}

/// Why `text` cannot be drawn through `display` onto a canvas of `width` by
/// `height` pixels, if it cannot.
pub open spec fn text_failure(
    display: ShiftedDisplay,
    width: int,
    height: int,
    text: TextItem,
) -> Option<Failure> {
    if text.drawable(display.spec_window(width, height)) {
        None
    } else {
        Some(Failure::OutOfRange)
    }
}

/// The canvas after `text` was drawn; a text that cannot be drawn leaves
/// the canvas as it is.
pub open spec fn drawn_text<C: BinarisedColor + ColorFromTemplate>(
    display: ShiftedDisplay,
    canvas: Seq<bool>,
    width: int,
    height: int,
    text: TextItem,
) -> Seq<bool> {
    let window = display.spec_window(width, height);
    if text.drawable(window) {
        display@.paint(canvas, width, height, text.dots::<C>(window))
    } else {
        canvas
    }
}

/// Draws a text through `display` onto `target`.
///
/// The font, the colour and the alignment are resolved from the primitive;
/// the text stands with its top at its position. It is rasterised tile by
/// tile over the part of the view that shows on the target. A text that is
/// too long or out of reach is refused, and nothing is drawn.
pub fn draw_text<C: BinarisedColor + ColorFromTemplate>(
    target: &mut BinaryFrameBuffer<C>,
    display: &ShiftedDisplay,
    text: &TextItem,
) -> (result: Result<(), DrawingError>)
    requires
        display.wf(),
        old(target).wf(),
    ensures
        final(target).wf(),
        final(target).spec_width() == old(target).spec_width(),
        final(target).spec_height() == old(target).spec_height(),
        final(target)@ == drawn_text::<C>(
            *display,
            old(target)@,
            old(target).spec_width() as int,
            old(target).spec_height() as int,
            *text,
        ),
        reported(result) == text_failure(
            *display,
            old(target).spec_width() as int,
            old(target).spec_height() as int,
            *text,
        ),
{
    let window = display.window(target);
    let x: i64 = text.position.x as i64;
    let y: i64 = text.position.y as i64;
    if text.value.as_str().unicode_len() > TEXT_LENGTH_LIMIT || x < -TEXT_REACH || x > TEXT_REACH
        || y < -TEXT_REACH || y > TEXT_REACH || window.right > TEXT_REACH || window.bottom
        > TEXT_REACH {
        return Err(DrawingError::OutOfRange);
    }
    let font: Font = resolve_font(&text.font);
    let align: Alignment = match text.align {
        Some(align) => align,
        None => Alignment::Left,
    };
    let on: bool = C::resolve(&text.color).to_binary_color();
    let tx0: i64 = window.left / TILE;
    let ty0: i64 = window.top / TILE;
    let tx1: i64 = (window.right + TILE - 1) / TILE;
    let ty1: i64 = (window.bottom + TILE - 1) / TILE;
    let ghost canvas = target@;
    let ghost w = target.spec_width() as int;
    let ghost h = target.spec_height() as int;
    let ghost columns = (tx1 - tx0) as nat;
    let mut ty: i64 = ty0;
    while ty < ty1
        invariant
            ty0 <= ty <= ty1,
            0 <= tx0 <= tx1,
            0 <= ty0,
            tx1 * TILE <= TEXT_REACH + TILE,
            ty1 * TILE <= TEXT_REACH + TILE,
            columns == tx1 - tx0,
            display.wf(),
            target.wf(),
            target.spec_width() == w,
            target.spec_height() == h,
            x == text.position.x,
            y == text.position.y,
            -TEXT_REACH <= x <= TEXT_REACH,
            -TEXT_REACH <= y <= TEXT_REACH,
            text.value@.len() <= TEXT_LENGTH_LIMIT,
            font == resolved_font(text.font),
            align == match text.align {
                Some(align) => align,
                None => Alignment::Left,
            },
            on == C::resolved(token(text.color)).is_on(),
            target@ == display@.paint(
                canvas,
                w,
                h,
                text.rows_dots::<C>(ty0 as int, (ty - ty0) as nat, tx0 as int, columns),
            ),
        decreases ty1 - ty,
    {
        let ghost above = text.rows_dots::<C>(ty0 as int, (ty - ty0) as nat, tx0 as int, columns);
        let mut tx: i64 = tx0;
        proof {
            assert(above + text.row_dots::<C>(ty as int, tx0 as int, 0) =~= above);
        }
        while tx < tx1
            invariant
                ty0 <= ty < ty1,
                tx0 <= tx <= tx1,
                0 <= tx0 <= tx1,
                0 <= ty0,
                tx1 * TILE <= TEXT_REACH + TILE,
                ty1 * TILE <= TEXT_REACH + TILE,
                columns == tx1 - tx0,
                display.wf(),
                target.wf(),
                target.spec_width() == w,
                target.spec_height() == h,
                x == text.position.x,
                y == text.position.y,
                -TEXT_REACH <= x <= TEXT_REACH,
                -TEXT_REACH <= y <= TEXT_REACH,
                text.value@.len() <= TEXT_LENGTH_LIMIT,
                font == resolved_font(text.font),
                align == match text.align {
                    Some(align) => align,
                    None => Alignment::Left,
                },
                on == C::resolved(token(text.color)).is_on(),
                above == text.rows_dots::<C>(
                    ty0 as int,
                    (ty - ty0) as nat,
                    tx0 as int,
                    columns,
                ),
                target@ == display@.paint(
                    canvas,
                    w,
                    h,
                    above + text.row_dots::<C>(ty as int, tx0 as int, (tx - tx0) as nat),
                ),
            decreases tx1 - tx,
        {
            let left: i64 = tx * TILE;
            let top: i64 = ty * TILE;
            let tile: Vec<u8> = render_tile(
                text.value.as_str(),
                font,
                align,
                (x - left) as i32,
                (y - top) as i32,
            );
            proof {
                let before = above + text.row_dots::<C>(ty as int, tx0 as int, (tx - tx0) as nat);
                let next = text.tile_dots::<C>(tx as int, ty as int);
                display@.lemma_paint_concat(canvas, w, h, before, next);
                assert(text.row_dots::<C>(ty as int, tx0 as int, (tx + 1 - tx0) as nat)
                    == text.row_dots::<C>(ty as int, tx0 as int, (tx - tx0) as nat) + next);
                assert(before + next =~= above + text.row_dots::<C>(
                    ty as int,
                    tx0 as int,
                    (tx + 1 - tx0) as nat,
                ));
            }
            draw_bitmap(target, display, &tile, left, top, on);
            tx += 1;
        }
        proof {
            assert(text.rows_dots::<C>(ty0 as int, (ty + 1 - ty0) as nat, tx0 as int, columns)
                == above + text.row_dots::<C>(ty as int, tx0 as int, columns));
        }
        ty += 1;
    }
    Ok(())
}

} // verus!
