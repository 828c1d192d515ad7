use epd_display::binary_framebuffer::{BinaryColor, BinaryFrameBuffer, Pixel};
use epd_display::geometry::{Point, Rectangle, Size};
use epd_display::renderer::container::{
    clip_range, draw_container, Container, ShiftableDisplay, ShiftedDisplay, Window,
};
use epd_display::renderer::drawing_error::DrawingError;
use epd_display::renderer::image::{Image, ImageFile};
use epd_display::renderer::progress::Progress;
use epd_display::renderer::qrcode::QRCode;
use epd_display::renderer::{draw, Dummy, Primitive};

type Frame = BinaryFrameBuffer<BinaryColor>;

fn area(x: i32, y: i32, width: u32, height: u32) -> Rectangle {
    Rectangle::new(Point::new(x, y), Size::new(width, height))
}

fn set_bits(frame: &Frame, count: usize) -> Vec<usize> {
    (0..count).filter(|&i| frame.get_bit(i)).collect()
}

fn view(outer: Rectangle, inner: Size, rotate: i32) -> ShiftedDisplay {
    ShiftedDisplay {
        outer_bounds: outer,
        inner_bounds: Rectangle::new(Point::new(0, 0), inner),
        rotate,
    }
}

fn dot(x: i32, y: i32) -> Primitive {
    Primitive::Progress(Progress {
        position: Point { x, y },
        width: 1,
        height: 1,
        align: None,
        vertical_align: None,
        direction: None,
        modulo: None,
        threshold: Some(1),
        base: None,
    })
}

#[test]
fn root_view_covers_the_frame() {
    let frame = Frame::new(7, 5);
    let root = ShiftedDisplay::from(&frame);
    assert_eq!(root.outer_bounds, area(0, 0, 7, 5));
    assert_eq!(root.inner_bounds, area(0, 0, 7, 5));
    assert_eq!(root.rotate, 0);
    assert_eq!(root.bounding_box(), area(0, 0, 7, 5));
}

#[test]
fn origin_lands_at_the_corner_or_across() {
    // Unturned, the origin lands at the corner of the view.
    let mut frame = Frame::new(10, 8);
    view(area(3, 2, 4, 3), Size::new(4, 3), 0).draw_pixel(&mut frame, 0, 0, true);
    assert_eq!(set_bits(&frame, 80), vec![2 * 10 + 3]);
    // Turned twice, it lands at the corner moved by the inner size.
    let mut frame = Frame::new(10, 8);
    view(area(3, 2, 4, 3), Size::new(4, 3), 2).draw_pixel(&mut frame, 0, 0, true);
    assert_eq!(set_bits(&frame, 80), vec![(2 + 3) * 10 + (3 + 4)]);
}

#[test]
fn quarter_turns_map_as_stated() {
    let inner = Size::new(4, 3);
    let outer = area(1, 1, 3, 4);
    // (x, y) = (1, 2) in an inner area of 4 by 3, corner at (1, 1).
    let expected = [(1 + 1, 2 + 1), (2 + 1, 4 - 1 + 1), (4 - 1 + 1, 3 - 2 + 1), (3 - 2 + 1, 1 + 1)];
    for turns in 0..4 {
        let mut frame = Frame::new(10, 8);
        view(outer, inner, turns).draw_pixel(&mut frame, 1, 2, true);
        let (x, y) = expected[turns as usize];
        assert_eq!(set_bits(&frame, 80), vec![y * 10 + x], "{} turns", turns);
    }
}

#[test]
fn points_outside_the_inner_area_are_dropped() {
    let display = view(area(2, 2, 4, 3), Size::new(4, 3), 0);
    let mut frame = Frame::new(10, 8);
    for &(x, y) in &[(-1i64, 0i64), (0, -1), (4, 0), (0, 3), (4, 3), (i64::MIN, 0), (0, i64::MAX)]
    {
        display.draw_pixel(&mut frame, x, y, true);
    }
    assert!(set_bits(&frame, 80).is_empty());
    display.draw_pixel(&mut frame, 3, 2, true);
    assert_eq!(set_bits(&frame, 80), vec![4 * 10 + 5]);
    // A point that lands outside the frame is dropped as well.
    let far = view(area(8, 7, 4, 3), Size::new(4, 3), 0);
    far.draw_pixel(&mut frame, 2, 0, true);
    far.draw_pixel(&mut frame, 0, 1, true);
    let behind = view(area(-2, -1, 4, 3), Size::new(4, 3), 0);
    behind.draw_pixel(&mut frame, 1, 1, true);
    behind.draw_pixel(&mut frame, 2, 0, true);
    assert_eq!(set_bits(&frame, 80), vec![4 * 10 + 5]);
    behind.draw_pixel(&mut frame, 2, 1, true);
    far.draw_pixel(&mut frame, 1, 0, true);
    assert_eq!(set_bits(&frame, 80), vec![0, 4 * 10 + 5, 7 * 10 + 9]);
    display.draw_pixel(&mut frame, 3, 2, false);
    assert_eq!(set_bits(&frame, 80), vec![0, 7 * 10 + 9]);
}

#[test]
fn shift_moves_swaps_and_turns() {
    let frame = Frame::new(64, 32);
    let root = ShiftedDisplay::from(&frame);
    let child = root.shift(area(2, 3, 60, 28), 1);
    assert_eq!(child.outer_bounds, area(2, 3, 60, 28));
    assert_eq!(child.inner_bounds, area(0, 0, 28, 60));
    assert_eq!(child.rotate, 1);
    let grandchild = child.shift(area(-5, 4, 10, 6), 2);
    assert_eq!(grandchild.outer_bounds, area(-3, 7, 10, 6));
    assert_eq!(grandchild.inner_bounds, area(0, 0, 10, 6));
    assert_eq!(grandchild.rotate, 3);
    assert_eq!(grandchild.shift(area(0, 0, 1, 2), 3).rotate, 2);
    assert_eq!(grandchild.shift(area(0, 0, 1, 2), 3).inner_bounds, area(0, 0, 2, 1));
    // Turns are counted modulo four, backwards too.
    assert_eq!(root.shift(area(0, 0, 1, 2), -1).rotate, 3);
    assert_eq!(root.shift(area(0, 0, 1, 2), -1).inner_bounds, area(0, 0, 2, 1));
    assert_eq!(root.shift(area(0, 0, 1, 2), -6).rotate, 2);
    assert_eq!(root.shift(area(0, 0, 1, 2), 9).rotate, 1);
    assert_eq!(root.shift(area(0, 0, 1, 2), i32::MAX).rotate, 3);
    assert_eq!(root.shift(area(0, 0, 1, 2), i32::MIN).rotate, 0);
    assert_eq!(root.shift(area(0, 0, 1, 2), i32::MIN).inner_bounds, area(0, 0, 1, 2));
    assert!(root.fits_shift(&area(i32::MAX, i32::MIN, 1, 1)));
    assert!(child.fits_shift(&area(i32::MAX - 2, 0, 1, 1)));
    assert!(!child.fits_shift(&area(i32::MAX - 1, 0, 1, 1)));
    assert!(!grandchild.fits_shift(&area(i32::MIN, 0, 1, 1)));
    assert!(!child.fits_shift(&area(0, i32::MAX, 1, 1)));
}

#[test]
fn draw_iter_paints_in_order() {
    let mut frame = Frame::new(4, 2);
    let root = ShiftedDisplay::from(&frame);
    let pixels = vec![
        Pixel(Point::new(1, 0), BinaryColor::On),
        Pixel(Point::new(3, 1), BinaryColor::On),
        Pixel(Point::new(9, 0), BinaryColor::On),
        Pixel(Point::new(1, 0), BinaryColor::Off),
        Pixel(Point::new(2, 1), BinaryColor::Off),
        Pixel(Point::new(-1, 1), BinaryColor::On),
    ];
    root.draw_iter(&mut frame, &pixels);
    assert_eq!(set_bits(&frame, 8), vec![7]);
    root.draw_iter(&mut frame, &Vec::new());
    assert_eq!(set_bits(&frame, 8), vec![7]);
}

#[test]
fn fill_solid_is_clipped() {
    let mut frame = Frame::new(5, 4);
    let root = ShiftedDisplay::from(&frame);
    root.fill_solid(&mut frame, &area(3, -1, 4, 3), true);
    assert_eq!(set_bits(&frame, 20), vec![3, 4, 8, 9]);
    root.fill_solid(&mut frame, &area(4, 1, 1, 1), false);
    root.fill_solid(&mut frame, &area(0, 0, 0, 4), true);
    root.fill_solid(&mut frame, &area(0, 0, 5, 0), true);
    assert_eq!(set_bits(&frame, 20), vec![3, 4, 8]);
}

#[test]
fn window_holds_what_can_show() {
    let frame = Frame::new(10, 8);
    let root = ShiftedDisplay::from(&frame);
    assert_eq!(root.window(&frame), Window { left: 0, right: 10, top: 0, bottom: 8 });
    let inside = root.shift(area(4, 5, 20, 30), 0);
    assert_eq!(inside.window(&frame), Window { left: 0, right: 6, top: 0, bottom: 3 });
    let behind = root.shift(area(-4, -5, 20, 30), 0);
    assert_eq!(behind.window(&frame), Window { left: 4, right: 14, top: 5, bottom: 13 });
    let away = root.shift(area(40, 5, 20, 30), 0);
    let window = away.window(&frame);
    assert_eq!(window.left, window.right);
    // Every point that shows lies inside the window, however the view is turned.
    for turns in 0..4 {
        let display = root.shift(area(-3, 2, 9, 12), turns);
        let window = display.window(&frame);
        for y in -2..16i64 {
            for x in -2..16i64 {
                let mut probe = Frame::new(10, 8);
                display.draw_pixel(&mut probe, x, y, true);
                if !set_bits(&probe, 80).is_empty() {
                    assert!(window.left <= x && x < window.right, "{} turns", turns);
                    assert!(window.top <= y && y < window.bottom, "{} turns", turns);
                }
            }
        }
    }
    assert_eq!(clip_range(-5, 3, 10), (0, 3));
    assert_eq!(clip_range(2, 30, 10), (2, 10));
    assert_eq!(clip_range(12, 30, 10), (10, 10));
    assert_eq!(clip_range(-9, -3, 10), (0, 0));
    assert_eq!(clip_range(7, 3, 10), (7, 7));
}

#[test]
fn container_draws_its_content_in_its_own_frame() {
    let files: Vec<ImageFile> = Vec::new();
    let mut frame = Frame::new(10, 8);
    let root = ShiftedDisplay::from(&frame);
    let container = Container {
        position: Point { x: 6, y: 1 },
        size: Size { width: 3, height: 5 },
        rotate: None,
        content: Some(vec![dot(0, 0), dot(2, 4), dot(3, 0), dot(0, 5), dot(-1, 2)]),
    };
    draw_container(&mut frame, &root, &container, &files).unwrap();
    assert_eq!(set_bits(&frame, 80), vec![1 * 10 + 6, 5 * 10 + 8]);
    // Turned once, the content sees a frame of 5 by 3.
    let mut frame = Frame::new(10, 8);
    let turned = Container {
        position: Point { x: 6, y: 1 },
        size: Size { width: 3, height: 5 },
        rotate: Some(1),
        content: Some(vec![dot(4, 0), dot(4, 2), dot(5, 0)]),
    };
    draw_container(&mut frame, &root, &turned, &files).unwrap();
    assert_eq!(set_bits(&frame, 80), vec![(5 - 4 + 1) * 10 + 6, (5 - 4 + 1) * 10 + 8]);
    // No content at all is fine.
    let empty = Container {
        position: Point { x: 0, y: 0 },
        size: Size { width: 3, height: 5 },
        rotate: Some(2),
        content: None,
    };
    assert!(draw_container(&mut frame, &root, &empty, &files).is_ok());
}

#[test]
fn container_out_of_range_is_refused() {
    let files: Vec<ImageFile> = Vec::new();
    let mut frame = Frame::new(10, 8);
    let root = ShiftedDisplay::from(&frame);
    let nested = Primitive::Container(Container {
        position: Point { x: i32::MAX, y: 0 },
        size: Size { width: 3, height: 3 },
        rotate: None,
        content: Some(vec![Primitive::Container(Container {
            position: Point { x: 1, y: 0 },
            size: Size { width: 3, height: 3 },
            rotate: None,
            content: Some(vec![dot(0, 0)]),
        })]),
    });
    let result = draw(&mut frame, &root, &vec![nested, dot(1, 1)], &files);
    assert!(matches!(result, Err(DrawingError::OutOfRange)));
    assert_eq!(set_bits(&frame, 80), vec![11]);
}

#[test]
fn draw_goes_on_after_a_failure_and_reports_the_first() {
    let files = vec![ImageFile { path: "b.png".to_string(), content: Err("locked".to_string()) }];
    let image = |path: &str| {
        Primitive::Image(Image {
            path: path.to_string(),
            position: Point { x: 0, y: 0 },
            align: None,
            vertical_align: None,
            invert: None,
        })
    };
    let code = Primitive::QRCode(QRCode {
        value: "x".to_string(),
        position: Point { x: 0, y: 0 },
        color: None,
        background: None,
        ec_level: None,
        width: 5000,
        height: 10,
    });
    let primitives = vec![
        Primitive::Dummy(Dummy {}),
        dot(1, 0),
        Primitive::Container(Container {
            position: Point { x: 0, y: 1 },
            size: Size { width: 4, height: 1 },
            rotate: None,
            content: Some(vec![dot(0, 0), image("b.png"), dot(2, 0), image("a.png")]),
        }),
        code,
        dot(3, 0),
    ];
    let mut frame = Frame::new(4, 2);
    let root = ShiftedDisplay::from(&frame);
    match draw(&mut frame, &root, &primitives, &files) {
        Err(DrawingError::ResourceError(path, reason)) => {
            assert_eq!(path, "b.png");
            assert_eq!(reason, "locked");
        }
        other => panic!("{:?}", other),
    }
    assert_eq!(set_bits(&frame, 8), vec![1, 3, 4, 6]);
    // Later primitives paint over earlier ones.
    let mut frame = Frame::new(4, 2);
    let bar = |threshold: u32| {
        Primitive::Progress(Progress {
            position: Point { x: 0, y: 0 },
            width: 4,
            height: 1,
            align: None,
            vertical_align: None,
            direction: None,
            modulo: None,
            threshold: Some(threshold),
            base: None,
        })
    };
    draw(&mut frame, &root, &vec![bar(4), bar(1)], &files).unwrap();
    assert_eq!(set_bits(&frame, 8), vec![0]);
    assert!(draw(&mut frame, &root, &Vec::new(), &files).is_ok());
}
