use epd_display::binary_framebuffer::{BinaryColor, BinaryFrameBuffer};
use epd_display::geometry::{Point, Rectangle, Size};
use epd_display::renderer::container::ShiftedDisplay;
use epd_display::renderer::drawing_error::DrawingError;
use epd_display::renderer::image::ImageFile;
use epd_display::renderer::positioning::{
    fits_placement, place_rectangle, Direction, HorizontalAlignment, VerticalAlignment,
};
use epd_display::renderer::progress::{draw_progress, Progress};
use epd_display::renderer::{draw, map_ascii, to_display_string, Primitive};

fn render_bars(size: Size, primitives: Vec<Primitive>, bounds: Option<Rectangle>) -> String {
    let mut buffer = BinaryFrameBuffer::<BinaryColor>::new(size.width, size.height);
    buffer.fill(true);
    let display = ShiftedDisplay::from(&buffer);
    let files: Vec<ImageFile> = Vec::new();
    let result = draw(&mut buffer, &display, &primitives, &files);
    result.unwrap();
    let display = to_display_string(&buffer, bounds);
    println!("{}", display);
    display
}

fn bar(
    position: Point,
    width: u32,
    height: u32,
    modulo: Option<u32>,
    threshold: Option<u32>,
    base: Option<u32>,
) -> Primitive {
    Primitive::Progress(Progress {
        position,
        width,
        height,
        align: Some(HorizontalAlignment::Center),
        vertical_align: Some(VerticalAlignment::Middle),
        direction: Some(Direction::Horizontal),
        modulo,
        threshold,
        base,
    })
}

#[test]
fn test_horizontal() {
    let display = render_bars(
        Size { width: 32, height: 32 },
        vec![
            bar(Point { x: 16, y: 3 }, 20, 4, Some(20), Some(0), None),
            bar(Point { x: 16, y: 8 }, 20, 4, Some(20), Some(5), None),
            bar(Point { x: 16, y: 13 }, 20, 4, Some(20), Some(15), None),
            bar(Point { x: 16, y: 18 }, 21, 4, Some(7), Some(4), Some(0)),
            bar(Point { x: 16, y: 23 }, 21, 4, Some(7), Some(4), Some(5)),
            bar(Point { x: 16, y: 28 }, 21, 4, Some(7), Some(4), Some(3)),
        ],
        None,
    );
    assert_eq!(
        String::from("\n") + &display,
        r#"
██████▀▀▀▀▀▀▀▀▀▀▀▀▀▀▀▀▀▀▀▀██████
██████                    ██████
██████▄▄▄▄▄▄▄▄▄▄▄▄▄▄▄▄▄▄▄▄██████
███████████               ██████
███████████               ██████
█████████████████████▀▀▀▀▀██████
█████████████████████     ██████
█████████████████████▄▄▄▄▄██████
██████████   ████   ████   █████
██████████   ████   ████   █████
██████▀▀████▀▀▀████▀▀▀████▀█████
██████  ████   ████   ████ █████
██████▄▄████▄▄▄████▄▄▄████▄█████
███████   ████   ████   ████████
███████   ████   ████   ████████
████████████████████████████████
"#
    );
}

#[test]
fn test_bit_rendering() {
    let w = 40;
    let size = Size { width: 40, height: 26 };
    let mut buffer = BinaryFrameBuffer::<BinaryColor>::new(size.width, size.height);
    buffer.set_bit(0, true);
    buffer.set_bit(1, false);
    buffer.set_bit(2, true);
    buffer.set_bit(w + 0, false);
    buffer.set_bit(w + 1, true);
    buffer.set_bit(w + 2, false);
    let display = to_display_string(
        &buffer,
        Some(Rectangle::new(Point { x: 0, y: 0 }, Size { width: 4, height: 2 })),
    );
    println!("{}", display);
    assert_eq!(
        String::from("\n") + &display,
        r#"
▀▄▀ 
"#
    );
}

#[test]
fn progress_foreground_is_below_threshold() {
    let mut buffer = BinaryFrameBuffer::<BinaryColor>::new(12, 3);
    let display = ShiftedDisplay::from(&buffer);
    let progress = Progress {
        position: Point { x: 1, y: 1 },
        width: 10,
        height: 1,
        align: None,
        vertical_align: None,
        direction: Some(Direction::Horizontal),
        modulo: Some(10),
        threshold: Some(3),
        base: Some(0),
    };
    draw_progress(&mut buffer, &display, &progress).unwrap();
    for x in 0..10 {
        assert_eq!(buffer.get_bit(12 + 1 + x), x < 3, "column {}", x);
    }
    for i in 0..36 {
        if !(13..23).contains(&i) {
            assert!(!buffer.get_bit(i));
        }
    }
}

#[test]
fn progress_defaults() {
    // Without a threshold nothing is in the foreground; paint over a set frame.
    let mut buffer = BinaryFrameBuffer::<BinaryColor>::new(6, 4);
    buffer.fill(true);
    let display = ShiftedDisplay::from(&buffer);
    let mut progress = Progress {
        position: Point { x: 0, y: 0 },
        width: 6,
        height: 4,
        align: None,
        vertical_align: None,
        direction: None,
        modulo: None,
        threshold: None,
        base: None,
    };
    draw_progress(&mut buffer, &display, &progress).unwrap();
    for i in 0..24 {
        assert!(!buffer.get_bit(i));
    }
    // The modulo defaults to the width: each row starts over.
    progress.threshold = Some(2);
    draw_progress(&mut buffer, &display, &progress).unwrap();
    for y in 0..4 {
        for x in 0..6 {
            assert_eq!(buffer.get_bit(y * 6 + x), x < 2);
        }
    }
}

#[test]
fn progress_vertical_counts_down_the_columns() {
    let mut buffer = BinaryFrameBuffer::<BinaryColor>::new(3, 4);
    let display = ShiftedDisplay::from(&buffer);
    let progress = Progress {
        position: Point { x: 0, y: 0 },
        width: 3,
        height: 4,
        align: None,
        vertical_align: None,
        direction: Some(Direction::Vertical),
        modulo: Some(12),
        threshold: Some(5),
        base: Some(1),
    };
    draw_progress(&mut buffer, &display, &progress).unwrap();
    for y in 0..4usize {
        for x in 0..3usize {
            let v = (1 + y + x * 4) % 12;
            assert_eq!(buffer.get_bit(y * 3 + x), v < 5, "cell {} {}", x, y);
        }
    }
}

#[test]
fn progress_with_zero_modulo_is_refused() {
    let mut buffer = BinaryFrameBuffer::<BinaryColor>::new(4, 4);
    let display = ShiftedDisplay::from(&buffer);
    let mut progress = Progress {
        position: Point { x: 0, y: 0 },
        width: 2,
        height: 2,
        align: None,
        vertical_align: None,
        direction: None,
        modulo: Some(0),
        threshold: Some(1),
        base: None,
    };
    let result = draw_progress(&mut buffer, &display, &progress);
    assert!(matches!(result, Err(DrawingError::ZeroModulo)));
    for i in 0..16 {
        assert!(!buffer.get_bit(i));
    }
    // A bar without cells never divides.
    progress.width = 0;
    assert!(draw_progress(&mut buffer, &display, &progress).is_ok());
}

#[test]
fn progress_out_of_range_is_refused() {
    let mut buffer = BinaryFrameBuffer::<BinaryColor>::new(4, 4);
    buffer.fill(true);
    let display = ShiftedDisplay::from(&buffer);
    let progress = Progress {
        position: Point { x: i32::MIN, y: 0 },
        width: 2,
        height: 2,
        align: Some(HorizontalAlignment::Right),
        vertical_align: None,
        direction: None,
        modulo: None,
        threshold: Some(1),
        base: None,
    };
    let result = draw_progress(&mut buffer, &display, &progress);
    assert!(matches!(result, Err(DrawingError::OutOfRange)));
    for i in 0..16 {
        assert!(buffer.get_bit(i));
    }
}

#[test]
fn place_rectangle_anchors() {
    let size = Size { width: 11, height: 6 };
    let pos = Point { x: 20, y: 30 };
    assert_eq!(place_rectangle(size, None, None, pos), Point { x: 20, y: 30 });
    assert_eq!(
        place_rectangle(
            size,
            Some(HorizontalAlignment::Left),
            Some(VerticalAlignment::Top),
            pos
        ),
        Point { x: 20, y: 30 }
    );
    assert_eq!(
        place_rectangle(
            size,
            Some(HorizontalAlignment::Center),
            Some(VerticalAlignment::Middle),
            pos
        ),
        Point { x: 15, y: 27 }
    );
    assert_eq!(
        place_rectangle(
            size,
            Some(HorizontalAlignment::Right),
            Some(VerticalAlignment::Bottom),
            pos
        ),
        Point { x: 9, y: 24 }
    );
    assert!(fits_placement(size, Some(HorizontalAlignment::Right), None, pos));
    assert!(!fits_placement(
        size,
        Some(HorizontalAlignment::Right),
        None,
        Point { x: i32::MIN + 10, y: 0 }
    ));
    assert!(!fits_placement(
        size,
        None,
        Some(VerticalAlignment::Middle),
        Point { x: 0, y: i32::MIN + 2 }
    ));
}

#[test]
fn map_ascii_blocks() {
    assert_eq!(map_ascii(0, 0), ' ');
    assert_eq!(map_ascii(0, 1), '\u{2584}');
    assert_eq!(map_ascii(1, 0), '\u{2580}');
    assert_eq!(map_ascii(1, 1), '\u{2588}');
    assert_eq!(map_ascii(7, 200), '\u{2588}');
}

#[test]
fn display_string_of_the_whole_frame() {
    let mut buffer = BinaryFrameBuffer::<BinaryColor>::new(3, 4);
    buffer.set_bit(0, true);
    buffer.set_bit(4, true);
    buffer.set_bit(5, true);
    buffer.set_bit(2 + 6, true);
    buffer.set_bit(2 + 9, true);
    let all = to_display_string(&buffer, None);
    assert_eq!(all, "\u{2580}\u{2584}\u{2584}\n  \u{2588}\n");
    // An area that starts on an odd row is shown from the even row above it.
    let odd = to_display_string(
        &buffer,
        Some(Rectangle::new(Point { x: 1, y: 1 }, Size { width: 2, height: 1 })),
    );
    assert_eq!(odd, "\u{2584}\u{2584}\n");
    let lower = to_display_string(
        &buffer,
        Some(Rectangle::new(Point { x: 2, y: 2 }, Size { width: 1, height: 2 })),
    );
    assert_eq!(lower, "\u{2588}\n");
}
