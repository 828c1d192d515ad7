use epd_display::binary_change_tracker::BinaryChangeTracker;
use epd_display::binary_framebuffer::{BinaryColor, BinaryFrameBuffer};
use epd_display::geometry::{Point, Rectangle, Size};

type Frame = BinaryFrameBuffer<BinaryColor>;

fn changed(x: i32, y: i32, width: u32, height: u32) -> Rectangle {
    Rectangle::new(Point::new(x, y), Size::new(width, height))
}

fn setup(width: u32, height: u32, grain: u32) -> (BinaryChangeTracker, Frame, Frame) {
    let mut tracker = BinaryChangeTracker::new(width, height, grain);
    let frame = Frame::new(width, height);
    let mut reference = Frame::new(width, height);
    tracker.reset(&frame, &mut reference);
    (tracker, frame, reference)
}

#[test]
fn new_tracker_has_no_changes() {
    let tracker = BinaryChangeTracker::new(20, 10, 8);
    assert_eq!(tracker.width(), 20);
    assert_eq!(tracker.height(), 10);
    assert_eq!(tracker.get_max_changes(), 0);
}

#[test]
fn grain_count_rounds_up() {
    let tracker = BinaryChangeTracker::new(20, 10, 8);
    assert_eq!(tracker.grain_count(0), 0);
    assert_eq!(tracker.grain_count(1), 1);
    assert_eq!(tracker.grain_count(8), 1);
    assert_eq!(tracker.grain_count(9), 2);
    assert_eq!(tracker.grain_count(20), 3);
    assert_eq!(tracker.grain_count(u32::MAX), 536870912);
    assert_eq!(BinaryChangeTracker::new(1, 1, 1).grain_count(u32::MAX), u32::MAX);
}

#[test]
fn update_after_reset_reports_nothing() {
    let mut tracker = BinaryChangeTracker::new(20, 10, 8);
    let mut frame = Frame::new(20, 10);
    frame.set_bit(3, true);
    frame.set_bit(150, true);
    let mut reference = Frame::new(20, 10);
    tracker.reset(&frame, &mut reference);
    assert_eq!(reference.buffer(), frame.buffer());
    assert_eq!(tracker.get_max_changes(), 0);
    let mut rects = vec![changed(1, 2, 3, 4)];
    assert!(!tracker.update(&frame, &mut reference, &mut rects));
    assert_eq!(tracker.get_max_changes(), 0);
    assert_eq!(rects, vec![changed(1, 2, 3, 4)]);
}

#[test]
fn single_change_yields_one_unit_rectangle() {
    for &(x, y) in &[(0u32, 0u32), (7, 7), (8, 8), (19, 9), (13, 0), (0, 9)] {
        let (mut tracker, mut frame, mut reference) = setup(20, 10, 8);
        frame.set_pixel(x, y, BinaryColor::On);
        let mut rects = Vec::new();
        assert!(tracker.update(&frame, &mut reference, &mut rects));
        assert_eq!(rects, vec![changed(x as i32, y as i32, 1, 1)]);
        assert_eq!(tracker.get_max_changes(), 1);
        assert_eq!(reference.buffer(), frame.buffer());
    }
}

#[test]
fn changes_in_two_tiles_yield_two_rectangles() {
    let (mut tracker, mut frame, mut reference) = setup(20, 10, 8);
    frame.set_pixel(17, 1, BinaryColor::On);
    frame.set_pixel(2, 9, BinaryColor::On);
    let mut rects = Vec::new();
    assert!(tracker.update(&frame, &mut reference, &mut rects));
    assert_eq!(rects, vec![changed(17, 1, 1, 1), changed(2, 9, 1, 1)]);
    // Two neighbours on either side of a tile border are not merged.
    let (mut tracker, mut frame, mut reference) = setup(20, 10, 8);
    frame.set_pixel(7, 3, BinaryColor::On);
    frame.set_pixel(8, 3, BinaryColor::On);
    let mut rects = Vec::new();
    assert!(tracker.update(&frame, &mut reference, &mut rects));
    assert_eq!(rects, vec![changed(7, 3, 1, 1), changed(8, 3, 1, 1)]);
    assert_eq!(tracker.get_max_changes(), 1);
}

#[test]
fn changes_in_one_tile_yield_their_bounding_box() {
    let (mut tracker, mut frame, mut reference) = setup(20, 10, 8);
    frame.set_pixel(9, 6, BinaryColor::On);
    frame.set_pixel(14, 2, BinaryColor::On);
    let mut rects = Vec::new();
    assert!(tracker.update(&frame, &mut reference, &mut rects));
    assert_eq!(rects, vec![changed(9, 2, 6, 5)]);
    // A third pixel inside the box changes nothing, one outside widens it.
    frame.set_pixel(9, 6, BinaryColor::Off);
    frame.set_pixel(10, 3, BinaryColor::On);
    frame.set_pixel(15, 7, BinaryColor::On);
    let mut rects = Vec::new();
    assert!(tracker.update(&frame, &mut reference, &mut rects));
    assert_eq!(rects, vec![changed(9, 3, 7, 5)]);
    assert_eq!(tracker.get_max_changes(), 2);
}

#[test]
fn tiles_are_visited_row_by_row_and_clipped() {
    let (mut tracker, mut frame, mut reference) = setup(20, 10, 8);
    frame.fill(true);
    let mut rects = Vec::new();
    assert!(tracker.update(&frame, &mut reference, &mut rects));
    assert_eq!(
        rects,
        vec![
            changed(0, 0, 8, 8),
            changed(8, 0, 8, 8),
            changed(16, 0, 4, 8),
            changed(0, 8, 8, 2),
            changed(8, 8, 8, 2),
            changed(16, 8, 4, 2),
        ]
    );
    assert_eq!(tracker.get_max_changes(), 1);
    // A grain larger than the frame makes one tile of it.
    let (mut tracker, mut frame, mut reference) = setup(20, 10, 64);
    frame.set_pixel(1, 1, BinaryColor::On);
    frame.set_pixel(18, 8, BinaryColor::On);
    let mut rects = Vec::new();
    assert!(tracker.update(&frame, &mut reference, &mut rects));
    assert_eq!(rects, vec![changed(1, 1, 18, 8)]);
    // A grain of one makes a tile of every pixel.
    let (mut tracker, mut frame, mut reference) = setup(3, 2, 1);
    frame.set_pixel(2, 0, BinaryColor::On);
    frame.set_pixel(0, 1, BinaryColor::On);
    frame.set_pixel(1, 1, BinaryColor::On);
    let mut rects = Vec::new();
    assert!(tracker.update(&frame, &mut reference, &mut rects));
    assert_eq!(rects, vec![changed(2, 0, 1, 1), changed(0, 1, 1, 1), changed(1, 1, 1, 1)]);
}

#[test]
fn counters_accumulate_until_reset() {
    let (mut tracker, mut frame, mut reference) = setup(20, 10, 8);
    for n in 1..=6u8 {
        frame.set_pixel(5, 5, if n % 2 == 1 { BinaryColor::On } else { BinaryColor::Off });
        if n == 4 {
            frame.set_pixel(12, 1, BinaryColor::On);
        }
        let mut rects = Vec::new();
        assert!(tracker.update(&frame, &mut reference, &mut rects));
        assert_eq!(tracker.get_max_changes(), n);
    }
    // A pixel that changed less does not lower the maximum.
    frame.set_pixel(12, 1, BinaryColor::Off);
    let mut rects = Vec::new();
    assert!(tracker.update(&frame, &mut reference, &mut rects));
    assert_eq!(rects, vec![changed(12, 1, 1, 1)]);
    assert_eq!(tracker.get_max_changes(), 6);
    tracker.reset(&frame, &mut reference);
    assert_eq!(tracker.get_max_changes(), 0);
    frame.set_pixel(5, 5, BinaryColor::On);
    let mut rects = Vec::new();
    assert!(tracker.update(&frame, &mut reference, &mut rects));
    assert_eq!(tracker.get_max_changes(), 1);
}

#[test]
fn counters_stay_at_their_highest_value() {
    let (mut tracker, mut frame, mut reference) = setup(4, 4, 8);
    for n in 1..=300u32 {
        frame.set_pixel(1, 2, if n % 2 == 1 { BinaryColor::On } else { BinaryColor::Off });
        let mut rects = Vec::new();
        assert!(tracker.update(&frame, &mut reference, &mut rects));
        assert_eq!(rects, vec![changed(1, 2, 1, 1)]);
        assert_eq!(tracker.get_max_changes() as u32, n.min(255));
    }
}

#[test]
fn empty_frames_never_change() {
    let (mut tracker, frame, mut reference) = setup(0, 5, 8);
    let mut rects = Vec::new();
    assert!(!tracker.update(&frame, &mut reference, &mut rects));
    assert!(rects.is_empty());
    let (mut tracker, frame, mut reference) = setup(5, 0, 8);
    assert!(!tracker.update(&frame, &mut reference, &mut rects));
    assert!(rects.is_empty());
}
