use epd_display::binary_framebuffer::{BinaryColor, BinaryFrameBuffer};
use epd_display::geometry::{Point, Rectangle, Size};
use epd_display::renderer::container::ShiftedDisplay;
use epd_display::renderer::image::ImageFile;
use epd_display::renderer::qrcode::{EcLevel, QRCode};
use epd_display::renderer::{draw, to_display_string, Primitive};

fn render_codes(size: Size, primitives: Vec<Primitive>, bounds: Option<Rectangle>) -> String {
    let mut buffer = BinaryFrameBuffer::<BinaryColor>::new(size.width, size.height);
    buffer.fill(true);
    let display = ShiftedDisplay::from(&buffer);
    let files: Vec<ImageFile> = Vec::new();
    let result = draw(&mut buffer, &display, &primitives, &files);
    result.unwrap();
    let display = to_display_string(&buffer, bounds);
    println!("{}", display);
    display
}

#[test]
fn test_color_1() {
    let display = render_codes(
        Size { width: 32, height: 32 },
        vec![Primitive::QRCode(QRCode {
            value: "Hello, World!".to_string(),
            position: Point { x: 0, y: 0 },
            color: Some("1".to_string()),
            background: None,
            ec_level: None,
            width: 32,
            height: 32,
        })],
        None,
    );
    assert_eq!(
        String::from("\n") + &display,
        r#"
                                
                                
     ▄▄▄▄▄▄▄ ▄  ▄  ▄▄▄▄▄▄▄      
     █ ▄▄▄ █ ▀█ ▄  █ ▄▄▄ █      
     █ ███ █ ▀█▄█  █ ███ █      
     █▄▄▄▄▄█ ▄▀▄▀█ █▄▄▄▄▄█      
     ▄ ▄▄ ▄▄▄▀█ ██ ▄  ▄ ▄▄      
     ▄▄▀ █▀▄▀▀█▄▄▀█ ▄ ▀▀▄█      
     █ █▄ ▄▄ ▀▀█▀▄ ▄▄▀▀ ▀▄      
     ▄▄▄▄▄▄▄ █▄█▀▀▀▄ █ ▀ ▀      
     █ ▄▄▄ █ ▀██ ▀█ █▄███       
     █ ███ █ █  ▄█▀▄▄ ▀█▀       
     █▄▄▄▄▄█ ▄ ██▄███▀ ▄ ▀      
                                
                                
                                
"#
    );
}

#[test]
fn test_color_0() {
    let display = render_codes(
        Size { width: 32, height: 32 },
        vec![Primitive::QRCode(QRCode {
            value: "Hello, World!".to_string(),
            position: Point { x: 0, y: 0 },
            color: Some("0".to_string()),
            background: None,
            ec_level: None,
            width: 32,
            height: 32,
        })],
        None,
    );
    assert_eq!(
        String::from("\n") + &display,
        r#"
████████████████████████████████
████████████████████████████████
█████▀▀▀▀▀▀▀█▀██▀██▀▀▀▀▀▀▀██████
█████ █▀▀▀█ █▄ █▀██ █▀▀▀█ ██████
█████ █   █ █▄ ▀ ██ █   █ ██████
█████ ▀▀▀▀▀ █▀▄▀▄ █ ▀▀▀▀▀ ██████
█████▀█▀▀█▀▀▀▄ █  █▀██▀█▀▀██████
█████▀▀▄█ ▄▀▄▄ ▀▀▄ █▀█▄▄▀ ██████
█████ █ ▀█▀▀█▄▄ ▄▀█▀▀▄▄█▄▀██████
█████▀▀▀▀▀▀▀█ ▀ ▄▄▄▀█ █▄█▄██████
█████ █▀▀▀█ █▄  █▄ █ ▀   ███████
█████ █   █ █ ██▀ ▄▀▀█▄ ▄███████
█████ ▀▀▀▀▀ █▀█  ▀   ▄█▀█▄██████
████████████████████████████████
████████████████████████████████
████████████████████████████████
"#
    );
}

#[test]
fn test_render_overflow() {
    let display = render_codes(
        Size { width: 32, height: 32 },
        vec![Primitive::QRCode(QRCode {
            value: "Hello, World!".to_string(),
            position: Point { x: 16, y: 16 },
            color: Some("0".to_string()),
            background: None,
            ec_level: None,
            width: 32,
            height: 32,
        })],
        Some(Rectangle::new(Point { x: 0, y: 0 }, Size { width: 32, height: 32 })),
    );
    assert_eq!(
        String::from("\n") + &display,
        r#"
████████████████████████████████
████████████████████████████████
████████████████████████████████
████████████████████████████████
████████████████████████████████
████████████████████████████████
████████████████████████████████
████████████████████████████████
████████████████████████████████
████████████████████████████████
█████████████████████▀▀▀▀▀▀▀█▀██
█████████████████████ █▀▀▀█ █▄ █
█████████████████████ █   █ █▄ ▀
█████████████████████ ▀▀▀▀▀ █▀▄▀
█████████████████████▀█▀▀█▀▀▀▄ █
█████████████████████▀▀▄█ ▄▀▄▄ ▀
"#
    );
}

#[test]
fn test_render_fill() {
    let display = render_codes(
        Size { width: 90, height: 90 },
        vec![Primitive::QRCode(QRCode {
            value: "l\u{e9}s bon amis am\u{f6}s L3s \u{20ac}".to_string(),
            position: Point { x: 4, y: 6 },
            color: Some("1".to_string()),
            background: None,
            ec_level: Some(EcLevel::L),
            width: 82,
            height: 72,
        })],
        None,
    );
    assert_eq!(
        String::from("\n") + &display,
        r#"
██████████████████████████████████████████████████████████████████████████████████████████
██████████████████████████████████████████████████████████████████████████████████████████
██████████████████████████████████████████████████████████████████████████████████████████
████                                                                                  ████
████                                                                                  ████
████                                                                                  ████
████                                                                                  ████
████                                                                                  ████
████                ▄▄▄▄▄▄▄▄▄▄▄▄▄▄    ▄▄    ▄▄    ▄▄▄▄  ▄▄▄▄▄▄▄▄▄▄▄▄▄▄                ████
████                ██▀▀▀▀▀▀▀▀▀▀██  ▄▄▀▀  ▄▄██▄▄▄▄▀▀▀▀  ██▀▀▀▀▀▀▀▀▀▀██                ████
████                ██  ▄▄▄▄▄▄  ██  ██▄▄▄▄████▀▀▀▀▄▄▄▄  ██  ▄▄▄▄▄▄  ██                ████
████                ██  ██████  ██  ▀▀██████▀▀  ▄▄██▀▀  ██  ██████  ██                ████
████                ██  ██████  ██  ▄▄▀▀▀▀▀▀  ▄▄▀▀▀▀▄▄  ██  ██████  ██                ████
████                ██  ▀▀▀▀▀▀  ██  ██▄▄  ▄▄  ▀▀▄▄  ██  ██  ▀▀▀▀▀▀  ██                ████
████                ██▄▄▄▄▄▄▄▄▄▄██  ██▀▀▄▄▀▀▄▄  ██  ██  ██▄▄▄▄▄▄▄▄▄▄██                ████
████                ▀▀▀▀▀▀▀▀▀▀▀▀▀▀  ██▄▄▀▀  ██  ██▄▄▀▀  ▀▀▀▀▀▀▀▀▀▀▀▀▀▀                ████
████                ▄▄▄▄  ▄▄    ▄▄▄▄▀▀▀▀▄▄  ██▄▄▀▀██▄▄  ▄▄▄▄▄▄  ▄▄▄▄                  ████
████                ██▀▀▄▄▀▀▄▄▄▄▀▀██▄▄  ██▄▄▀▀██  ▀▀██▄▄██▀▀▀▀▄▄████▄▄                ████
████                ██  ██  ▀▀██▄▄▀▀▀▀▄▄██▀▀▄▄██▄▄  ██▀▀██▄▄▄▄██▀▀▀▀▀▀                ████
████                ▀▀▄▄▀▀▄▄▄▄██▀▀▄▄  ▀▀▀▀  ██████▄▄▀▀▄▄▀▀████▀▀  ▄▄▄▄                ████
████                  ██▄▄▀▀████▄▄██▄▄    ▄▄██▀▀▀▀▀▀▄▄██▄▄▀▀▀▀▄▄  ▀▀██                ████
████                  ▀▀██▄▄▀▀██▀▀████▄▄▄▄▀▀▀▀▄▄    ▀▀████    ██▄▄▄▄▀▀                ████
████                ▄▄  ██▀▀▄▄▀▀▄▄██▀▀▀▀▀▀  ▄▄▀▀▄▄  ▄▄▀▀▀▀  ▄▄██▀▀▀▀                  ████
████                ▀▀▄▄▀▀  ██▄▄▀▀▀▀▄▄      ▀▀▄▄▀▀▄▄▀▀      ████  ▄▄                  ████
████                ▄▄██▄▄▄▄████▄▄  ██  ▄▄  ▄▄▀▀▄▄▀▀▄▄▄▄▄▄▄▄██▀▀▄▄██                  ████
████                ▀▀▀▀▀▀▀▀▀▀▀▀▀▀  ██  ██  ▀▀▄▄▀▀▄▄██▀▀▀▀▀▀██▄▄▀▀▀▀▄▄                ████
████                ▄▄▄▄▄▄▄▄▄▄▄▄▄▄  ██  ██▄▄▄▄██▄▄████  ▄▄  ██▀▀▄▄▄▄██                ████
████                ██▀▀▀▀▀▀▀▀▀▀██  ▀▀  ██▀▀▀▀▀▀██████  ▀▀  ██  ██▀▀██                ████
████                ██  ▄▄▄▄▄▄  ██      ▀▀▄▄▄▄▄▄██▀▀██▄▄▄▄▄▄██  ▀▀▄▄▀▀                ████
████                ██  ██████  ██  ▄▄    ▀▀██████  ██▀▀▀▀████▄▄  ▀▀                  ████
████                ██  ██████  ██  ▀▀▄▄▄▄▄▄██▀▀██  ▀▀    ▀▀██▀▀▄▄  ▄▄                ████
████                ██  ▀▀▀▀▀▀  ██  ▄▄▀▀██▀▀▀▀▄▄▀▀  ▄▄  ▄▄  ▀▀  ▀▀  ▀▀                ████
████                ██▄▄▄▄▄▄▄▄▄▄██  ██  ██  ▄▄██▄▄▄▄██▄▄██▄▄      ▄▄▄▄                ████
████                ▀▀▀▀▀▀▀▀▀▀▀▀▀▀  ▀▀  ▀▀  ▀▀▀▀▀▀▀▀▀▀▀▀▀▀▀▀      ▀▀▀▀                ████
████                                                                                  ████
████                                                                                  ████
████                                                                                  ████
████                                                                                  ████
████                                                                                  ████
██████████████████████████████████████████████████████████████████████████████████████████
██████████████████████████████████████████████████████████████████████████████████████████
██████████████████████████████████████████████████████████████████████████████████████████
██████████████████████████████████████████████████████████████████████████████████████████
██████████████████████████████████████████████████████████████████████████████████████████
██████████████████████████████████████████████████████████████████████████████████████████
"#
    );
}
