use embedded_graphics::draw_target::DrawTarget;
use embedded_graphics::geometry::{OriginDimensions, Point as PlotPoint, Size as PlotSize};
use embedded_graphics::mono_font::ascii::{FONT_10X20, FONT_6X10, FONT_7X13_BOLD};
use embedded_graphics::mono_font::{MonoFont, MonoTextStyle};
use embedded_graphics::pixelcolor::BinaryColor as Ink;
use embedded_graphics::text::{Alignment as Side, Baseline, Text, TextStyleBuilder};
use embedded_graphics::{Drawable, Pixel as Plot};
use epd_display::binary_framebuffer::{BinaryColor, BinaryFrameBuffer};
use epd_display::geometry::{Point, Rectangle, Size};
use epd_display::renderer::container::{ShiftableDisplay, ShiftedDisplay};
use epd_display::renderer::drawing_error::DrawingError;
use epd_display::renderer::text::{
    draw_bitmap, draw_text, resolve_font, Alignment, Font, TextItem,
};
use epd_display::renderer::{same_text, ColorFromTemplate};

type Frame = BinaryFrameBuffer<BinaryColor>;

/// A canvas that keeps what the graphics crate draws on it.
struct Sheet {
    width: i32,
    height: i32,
    bits: Vec<bool>,
}

impl OriginDimensions for Sheet {
    fn size(&self) -> PlotSize {
        PlotSize::new(self.width as u32, self.height as u32)
    }
}

impl DrawTarget for Sheet {
    type Color = Ink;
    type Error = core::convert::Infallible;

    fn draw_iter<I>(&mut self, pixels: I) -> Result<(), Self::Error>
    where
        I: IntoIterator<Item = Plot<Ink>>,
    {
        for Plot(at, ink) in pixels {
            if 0 <= at.x && at.x < self.width && 0 <= at.y && at.y < self.height {
                self.bits[(at.y * self.width + at.x) as usize] = ink == Ink::On;
            }
        }
        Ok(())
    }
}

fn reference(
    width: i32,
    height: i32,
    value: &str,
    at: (i32, i32),
    font: &MonoFont<'static>,
    side: Side,
) -> Vec<bool> {
    let mut sheet = Sheet { width, height, bits: vec![false; (width * height) as usize] };
    let style = MonoTextStyle::new(font, Ink::On);
    let layout = TextStyleBuilder::new().baseline(Baseline::Top).alignment(side).build();
    Text::with_text_style(value, PlotPoint::new(at.0, at.1), style, layout)
        .draw(&mut sheet)
        .unwrap();
    sheet.bits
}

fn drawn_bits(width: u32, height: u32, text: &TextItem) -> Vec<bool> {
    let mut frame = Frame::new(width, height);
    let display = ShiftedDisplay::from(&frame);
    draw_text(&mut frame, &display, text).unwrap();
    (0..(width * height) as usize).map(|i| frame.get_bit(i)).collect()
}

fn item(value: &str, x: i32, y: i32, font: Option<&str>, align: Option<Alignment>) -> TextItem {
    TextItem {
        value: value.to_string(),
        position: Point { x, y },
        font: font.map(|f| f.to_string()),
        color: Some("white".to_string()),
        align,
    }
}

#[test]
fn text_matches_the_graphics_crate_across_tiles() {
    let value = "The quick brown fox\njumps over\n\nthe lazy dog 0123456789 !?";
    // 200 by 150 pixels: four tiles across and three down.
    let text = item(value, 3, 50, None, None);
    assert_eq!(drawn_bits(200, 150, &text), reference(200, 150, value, (3, 50), &FONT_6X10, Side::Left));
    let text = item(value, 100, -7, Some("10x20"), Some(Alignment::Center));
    assert_eq!(
        drawn_bits(200, 150, &text),
        reference(200, 150, value, (100, -7), &FONT_10X20, Side::Center)
    );
    let text = item(value, 190, 61, Some("7X13_bold"), Some(Alignment::Right));
    assert_eq!(
        drawn_bits(200, 150, &text),
        reference(200, 150, value, (190, 61), &FONT_7X13_BOLD, Side::Right)
    );
    let text = item(value, -40, 140, Some("6x10"), Some(Alignment::Left));
    assert_eq!(
        drawn_bits(200, 150, &text),
        reference(200, 150, value, (-40, 140), &FONT_6X10, Side::Left)
    );
    assert!(drawn_bits(200, 150, &text).iter().any(|&bit| bit));
}

#[test]
fn text_in_a_shifted_view() {
    let value = "Shifted";
    let mut frame = Frame::new(100, 70);
    let root = ShiftedDisplay::from(&frame);
    let child = root.shift(
        Rectangle::new(Point::new(30, 20), Size::new(40, 30)),
        0,
    );
    draw_text(&mut frame, &child, &item(value, -3, 2, None, None)).unwrap();
    // The same text, moved by the corner of the view and cut at its edges.
    let plain = reference(100, 70, value, (27, 22), &FONT_6X10, Side::Left);
    for y in 0..70 {
        for x in 0..100 {
            let inside = (30..70).contains(&x) && (20..50).contains(&y);
            assert_eq!(
                frame.get_bit(y * 100 + x),
                inside && plain[y * 100 + x],
                "pixel {} {}",
                x,
                y
            );
        }
    }
}

#[test]
fn text_colour_is_resolved() {
    let mut frame = Frame::new(20, 12);
    frame.fill(true);
    let display = ShiftedDisplay::from(&frame);
    let mut text = item("Hi", 0, 0, None, None);
    text.color = None;
    draw_text(&mut frame, &display, &text).unwrap();
    let ink = reference(20, 12, "Hi", (0, 0), &FONT_6X10, Side::Left);
    for i in 0..240 {
        assert_eq!(frame.get_bit(i), !ink[i]);
    }
    text.color = Some("1".to_string());
    draw_text(&mut frame, &display, &text).unwrap();
    for i in 0..240 {
        assert!(frame.get_bit(i));
    }
    assert_eq!(BinaryColor::resolve(&None), BinaryColor::Off);
    assert_eq!(BinaryColor::resolve(&Some("black".to_string())), BinaryColor::Off);
    assert_eq!(BinaryColor::resolve(&Some("0".to_string())), BinaryColor::Off);
    assert_eq!(BinaryColor::resolve(&Some("white".to_string())), BinaryColor::On);
    assert_eq!(BinaryColor::resolve(&Some("1".to_string())), BinaryColor::On);
    assert_eq!(BinaryColor::resolve(&Some("White".to_string())), BinaryColor::Off);
    assert_eq!(BinaryColor::resolve(&Some("".to_string())), BinaryColor::Off);
    assert_eq!(BinaryColor::On.invert(), BinaryColor::Off);
    assert_eq!(BinaryColor::Off.invert(), BinaryColor::On);
    assert!(same_text("abc", "abc"));
    assert!(!same_text("abc", "abd"));
    assert!(!same_text("abc", "ab"));
}

#[test]
fn font_names_ignore_the_case_of_letters() {
    let named = |name: &str| resolve_font(&Some(name.to_string()));
    assert_eq!(resolve_font(&None), Font::F6x10);
    assert_eq!(named("4x6"), Font::F4x6);
    assert_eq!(named("4X6"), Font::F4x6);
    assert_eq!(named("5x7"), Font::F5x7);
    assert_eq!(named("5x8"), Font::F5x8);
    assert_eq!(named("6x9"), Font::F6x9);
    assert_eq!(named("6x10"), Font::F6x10);
    assert_eq!(named("6x12"), Font::F6x12);
    assert_eq!(named("6x13"), Font::F6x13);
    assert_eq!(named("6x13_bold"), Font::F6x13Bold);
    assert_eq!(named("6X13_Italic"), Font::F6x13Italic);
    assert_eq!(named("7x13"), Font::F7x13);
    assert_eq!(named("7x13_BOLD"), Font::F7x13Bold);
    assert_eq!(named("7x13_italic"), Font::F7x13Italic);
    assert_eq!(named("7x14"), Font::F7x14);
    assert_eq!(named("7x14_bold"), Font::F7x14Bold);
    assert_eq!(named("8x13"), Font::F8x13);
    assert_eq!(named("8x13_bold"), Font::F8x13Bold);
    assert_eq!(named("8x13_italic"), Font::F8x13Italic);
    assert_eq!(named("9x15"), Font::F9x15);
    assert_eq!(named("9x15_bold"), Font::F9x15Bold);
    assert_eq!(named("9x18"), Font::F9x18);
    assert_eq!(named("9x18_bold"), Font::F9x18Bold);
    assert_eq!(named("10x20"), Font::F10x20);
    assert_eq!(named("10x21"), Font::F6x10);
    assert_eq!(named(""), Font::F6x10);
    assert_eq!(named(" 4x6"), Font::F6x10);
    assert_eq!(named("4\u{d7}6"), Font::F6x10);
}

#[test]
fn text_out_of_reach_is_refused() {
    let mut frame = Frame::new(20, 12);
    let display = ShiftedDisplay::from(&frame);
    for &(x, y) in &[(16777217, 0), (-16777217, 0), (0, 16777217), (0, i32::MIN)] {
        let result = draw_text(&mut frame, &display, &item("far", x, y, None, None));
        assert!(matches!(result, Err(DrawingError::OutOfRange)));
    }
    assert!(draw_text(&mut frame, &display, &item("far", 16777216, -16777216, None, None)).is_ok());
    let long = "x".repeat(65537);
    let result = draw_text(&mut frame, &display, &item(&long, 0, 0, None, None));
    assert!(matches!(result, Err(DrawingError::OutOfRange)));
    for i in 0..240 {
        assert!(!frame.get_bit(i));
    }
    let long = "\u{e9}".repeat(65536);
    assert!(draw_text(&mut frame, &display, &item(&long, 0, 0, None, None)).is_ok());
    assert!((0..240).any(|i| frame.get_bit(i)));
}

#[test]
fn bitmap_tiles_are_drawn_bit_by_bit() {
    let mut bits = vec![0u8; 512];
    bits[0] = 0b1000_0001;
    bits[8 * 63 + 7] = 0b0000_0001;
    let mut frame = Frame::new(70, 70);
    let display = ShiftedDisplay::from(&frame);
    draw_bitmap(&mut frame, &display, &bits, 3, 4, true);
    let set: Vec<usize> = (0..4900).filter(|&i| frame.get_bit(i)).collect();
    assert_eq!(set, vec![4 * 70 + 3, 4 * 70 + 10, 67 * 70 + 66]);
    // Cleared bits are transparent.
    frame.fill(true);
    draw_bitmap(&mut frame, &display, &bits, 3, 4, false);
    let cleared: Vec<usize> = (0..4900).filter(|&i| !frame.get_bit(i)).collect();
    assert_eq!(cleared, vec![4 * 70 + 3, 4 * 70 + 10, 67 * 70 + 66]);
}
