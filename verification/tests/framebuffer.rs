use epd_display::binary_framebuffer::{
    bits_to_bytes_size, get_bit, BinarisedColor, BinaryColor, BinaryFrameBuffer,
};
use epd_display::geometry::Size;

#[test]
fn set_bit_then_get_bit() {
    let mut frame = BinaryFrameBuffer::<BinaryColor>::new(5, 3);
    assert_eq!(frame.width(), 5);
    assert_eq!(frame.height(), 3);
    assert_eq!(frame.dimensions(), Size { width: 5, height: 3 });
    for i in 0..15 {
        assert!(!frame.get_bit(i));
    }
    for i in 0..15 {
        frame.set_bit(i, true);
        for k in 0..15 {
            assert_eq!(frame.get_bit(k), k == i);
        }
        frame.set_bit(i, true);
        assert!(frame.get_bit(i));
        frame.set_bit(i, false);
        assert!(!frame.get_bit(i));
    }
}

#[test]
fn bits_are_packed_from_the_high_end() {
    let mut frame = BinaryFrameBuffer::<BinaryColor>::new(5, 3);
    assert_eq!(frame.buffer(), &[0u8, 0u8][..]);
    frame.set_bit(0, true);
    assert_eq!(frame.buffer(), &[0x80u8, 0u8][..]);
    frame.set_bit(7, true);
    assert_eq!(frame.buffer(), &[0x81u8, 0u8][..]);
    frame.set_bit(9, true);
    assert_eq!(frame.buffer(), &[0x81u8, 0x40u8][..]);
    frame.set_bit(0, false);
    assert_eq!(frame.buffer(), &[0x01u8, 0x40u8][..]);
    assert_eq!(get_bit(0), (0, 0x80));
    assert_eq!(get_bit(7), (0, 0x01));
    assert_eq!(get_bit(8), (1, 0x80));
    assert_eq!(get_bit(21), (2, 0x04));
}

#[test]
fn byte_counts_round_up() {
    assert_eq!(bits_to_bytes_size(0), 0);
    assert_eq!(bits_to_bytes_size(1), 1);
    assert_eq!(bits_to_bytes_size(8), 1);
    assert_eq!(bits_to_bytes_size(9), 2);
    assert_eq!(bits_to_bytes_size(15), 2);
    assert_eq!(bits_to_bytes_size(16), 2);
    assert_eq!(bits_to_bytes_size(usize::MAX), usize::MAX / 8 + 1);
    assert_eq!(BinaryFrameBuffer::<BinaryColor>::new(0, 7).buffer().len(), 0);
    assert_eq!(BinaryFrameBuffer::<BinaryColor>::new(128, 64).buffer().len(), 1024);
}

#[test]
fn pixels_are_addressed_row_by_row() {
    let mut frame = BinaryFrameBuffer::<BinaryColor>::new(5, 3);
    frame.set_pixel(2, 1, BinaryColor::On);
    assert!(frame.get_bit(7));
    assert_eq!(frame.get_pixel(2, 1), BinaryColor::On);
    assert_eq!(frame.get_pixel(1, 2), BinaryColor::Off);
    frame.set_pixel(4, 2, BinaryColor::On);
    assert!(frame.get_bit(14));
    frame.set_pixel(2, 1, BinaryColor::Off);
    assert!(!frame.get_bit(7));
    assert!(BinaryColor::On.to_binary_color());
    assert!(!BinaryColor::Off.to_binary_color());
    assert_eq!(BinaryColor::from_binary_color(true), BinaryColor::On);
    assert_eq!(BinaryColor::from_binary_color(false), BinaryColor::Off);
    assert_eq!(BinaryColor::default(), BinaryColor::Off);
}

#[test]
fn iter_yields_every_pixel_once() {
    let mut frame = BinaryFrameBuffer::<BinaryColor>::new(3, 2);
    frame.set_pixel(1, 0, BinaryColor::On);
    frame.set_pixel(2, 1, BinaryColor::On);
    let pixels = frame.iter();
    assert_eq!(pixels.len(), 6);
    for (i, pixel) in pixels.iter().enumerate() {
        assert_eq!(pixel.0.x as usize, i % 3);
        assert_eq!(pixel.0.y as usize, i / 3);
        assert_eq!(pixel.1 == BinaryColor::On, i == 1 || i == 5);
    }
    // The walk can be made again, and an empty frame has no pixel.
    assert_eq!(frame.iter().len(), 6);
    assert_eq!(BinaryFrameBuffer::<BinaryColor>::new(0, 4).iter().len(), 0);
}

#[test]
fn updated_copies_and_reports() {
    let mut new = BinaryFrameBuffer::<BinaryColor>::new(5, 3);
    let mut previous = BinaryFrameBuffer::<BinaryColor>::new(5, 3);
    assert!(!new.updated(&mut previous));
    new.set_bit(11, true);
    assert!(new.updated(&mut previous));
    assert!(previous.get_bit(11));
    assert_eq!(previous.buffer(), new.buffer());
    assert!(!new.updated(&mut previous));
    new.set_bit(11, false);
    new.set_bit(3, true);
    assert!(new.updated(&mut previous));
    assert!(!previous.get_bit(11));
    assert!(previous.get_bit(3));
    // Frames of another shape and the same number of pixels are accepted.
    let mut other = BinaryFrameBuffer::<BinaryColor>::new(3, 5);
    assert!(new.updated(&mut other));
    assert_eq!(other.width(), 3);
    assert!(other.get_bit(3));
}

#[test]
fn from_buffer_overwrites_the_leading_bytes() {
    let mut frame = BinaryFrameBuffer::<BinaryColor>::new(8, 3);
    frame.set_bit(23, true);
    frame.from_buffer(&[0xf0, 0x0f]);
    assert_eq!(frame.buffer(), &[0xf0u8, 0x0f, 0x01][..]);
    for i in 0..24 {
        assert_eq!(frame.get_bit(i), (i < 4) || (12..16).contains(&i) || i == 23);
    }
    frame.from_buffer(&[]);
    assert_eq!(frame.buffer(), &[0xf0u8, 0x0f, 0x01][..]);
    frame.from_buffer(&[1, 2, 3]);
    assert_eq!(frame.buffer(), &[1u8, 2, 3][..]);
}

#[test]
fn fill_sets_every_pixel() {
    let mut frame = BinaryFrameBuffer::<BinaryColor>::new(5, 3);
    frame.set_bit(4, true);
    frame.fill(true);
    for i in 0..15 {
        assert!(frame.get_bit(i));
    }
    frame.fill(false);
    for i in 0..15 {
        assert!(!frame.get_bit(i));
    }
    assert_eq!(frame.buffer(), &[0u8, 0][..]);
}
