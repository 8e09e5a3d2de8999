use twixelwall::blend::blend;
use twixelwall::canvas::Canvas;
use twixelwall::command::{parse, Color, PixelCommand};

const WHITE: Color = Color { r: 255, g: 255, b: 255, a: 255 };
const BLACK: Color = Color { r: 0, g: 0, b: 0, a: 255 };

fn filled(width: u32, height: u32, color: Color) -> Canvas {
    let pixels = vec![color; (width as usize) * (height as usize)];
    Canvas::from_pixels(width, height, pixels).unwrap()
}

fn numbered(width: u32, height: u32) -> Canvas {
    let mut pixels = Vec::new();
    for y in 0..height {
        for x in 0..width {
            pixels.push(Color { r: x as u8, g: y as u8, b: 7, a: 200 });
        }
    }
    Canvas::from_pixels(width, height, pixels).unwrap()
}

#[test]
fn canvas_needs_one_pixel_per_position() {
    assert!(Canvas::from_pixels(2, 3, vec![WHITE; 6]).is_some());
    assert!(Canvas::from_pixels(2, 3, vec![WHITE; 5]).is_none());
    assert!(Canvas::from_pixels(2, 3, vec![WHITE; 7]).is_none());
    assert!(Canvas::from_pixels(0, 3, vec![]).is_some());
    assert!(Canvas::from_pixels(0, 0, vec![WHITE]).is_none());
    let canvas = Canvas::from_pixels(2, 3, vec![WHITE; 6]).unwrap();
    assert_eq!(canvas.width(), 2);
    assert_eq!(canvas.height(), 3);
    assert_eq!(canvas.pixels().len(), 6);
}

#[test]
fn pixels_are_held_row_by_row() {
    let canvas = numbered(4, 3);
    assert_eq!(canvas.get_pixel(0, 0), Some(Color { r: 0, g: 0, b: 7, a: 200 }));
    assert_eq!(canvas.get_pixel(3, 0), Some(Color { r: 3, g: 0, b: 7, a: 200 }));
    assert_eq!(canvas.get_pixel(1, 2), Some(Color { r: 1, g: 2, b: 7, a: 200 }));
    assert_eq!(canvas.pixels()[2 * 4 + 1], Color { r: 1, g: 2, b: 7, a: 200 });
    assert_eq!(canvas.get_pixel(4, 0), None);
    assert_eq!(canvas.get_pixel(0, 3), None);
}

#[test]
fn put_pixel_writes_one_pixel() {
    let mut canvas = numbered(4, 3);
    let before = canvas.pixels().clone();
    assert!(canvas.put_pixel(2, 1, WHITE));
    for y in 0..3u32 {
        for x in 0..4u32 {
            let expected = if (x, y) == (2, 1) { WHITE } else { before[(y * 4 + x) as usize] };
            assert_eq!(canvas.get_pixel(x, y), Some(expected));
        }
    }
    assert!(!canvas.put_pixel(4, 1, BLACK));
    assert!(!canvas.put_pixel(2, 3, BLACK));
    assert_eq!(canvas.get_pixel(2, 1), Some(WHITE));
}

#[test]
fn opaque_source_replaces() {
    let src = Color { r: 1, g: 2, b: 3, a: 255 };
    assert_eq!(blend(Color { r: 10, g: 20, b: 30, a: 40 }, src), src);
    assert_eq!(blend(WHITE, src), src);
}

#[test]
fn transparent_source_keeps() {
    let dst = Color { r: 10, g: 20, b: 30, a: 40 };
    assert_eq!(blend(dst, Color { r: 1, g: 2, b: 3, a: 0 }), dst);
}

#[test]
fn partial_alpha_mixes() {
    let red_half = Color { r: 255, g: 0, b: 0, a: 128 };
    assert_eq!(blend(BLACK, red_half), Color { r: 128, g: 0, b: 0, a: 254 });
    assert_eq!(blend(WHITE, red_half), Color { r: 255, g: 127, b: 127, a: 254 });
    assert_eq!(
        blend(Color { r: 10, g: 20, b: 30, a: 255 }, Color { r: 200, g: 100, b: 50, a: 64 }),
        Color { r: 57, g: 40, b: 35, a: 255 }
    );
    assert_eq!(blend(Color { r: 0, g: 0, b: 0, a: 0 }, red_half), red_half);
}

#[test]
fn opaque_red_on_ten_by_ten() {
    let mut canvas = filled(10, 10, WHITE);
    let command = parse("3 4 255 0 0").unwrap();
    assert!(canvas.paint(&command));
    for y in 0..10u32 {
        for x in 0..10u32 {
            let expected = if (x, y) == (3, 4) { Color { r: 255, g: 0, b: 0, a: 255 } } else { WHITE };
            assert_eq!(canvas.get_pixel(x, y), Some(expected));
        }
    }
}

#[test]
fn half_red_on_ten_by_ten() {
    let mut canvas = filled(10, 10, BLACK);
    let command = parse("3 4 255 0 0 128").unwrap();
    assert!(canvas.paint(&command));
    for y in 0..10u32 {
        for x in 0..10u32 {
            let expected = if (x, y) == (3, 4) { Color { r: 128, g: 0, b: 0, a: 254 } } else { BLACK };
            assert_eq!(canvas.get_pixel(x, y), Some(expected));
        }
    }
}

#[test]
fn transparent_paint_changes_nothing() {
    let mut canvas = numbered(5, 5);
    let before = canvas.pixels().clone();
    let command = PixelCommand { x: 2, y: 2, color: Color { r: 9, g: 9, b: 9, a: 0 } };
    assert!(canvas.paint(&command));
    assert_eq!(canvas.pixels(), &before);
}

#[test]
fn paint_outside_changes_nothing() {
    let mut canvas = numbered(10, 10);
    let before = canvas.pixels().clone();
    assert!(!canvas.paint(&parse("12 4 255 0 0").unwrap()));
    assert!(!canvas.paint(&parse("10 0 255 0 0").unwrap()));
    assert!(!canvas.paint(&parse("0 10 255 0 0").unwrap()));
    assert!(!canvas.paint(&parse("4294967295 4294967295 255 0 0").unwrap()));
    assert_eq!(canvas.pixels(), &before);
    assert_eq!(canvas.width(), 10);
    assert_eq!(canvas.height(), 10);
}

#[test]
fn paint_at_the_corners() {
    let mut canvas = filled(10, 10, WHITE);
    assert!(canvas.paint(&parse("0 0 1 2 3").unwrap()));
    assert!(canvas.paint(&parse("9 9 4 5 6").unwrap()));
    assert_eq!(canvas.pixels()[0], Color { r: 1, g: 2, b: 3, a: 255 });
    assert_eq!(canvas.pixels()[99], Color { r: 4, g: 5, b: 6, a: 255 });
}

#[test]
fn raw_bytes_are_four_per_pixel() {
    let raw: Vec<u8> = vec![1, 2, 3, 4, 5, 6, 7, 8, 9, 10, 11, 12, 13, 14, 15, 16, 17, 18, 19, 20, 21, 22, 23, 24];
    let canvas = Canvas::from_rgba(3, 2, &raw).unwrap();
    assert_eq!(canvas.width(), 3);
    assert_eq!(canvas.height(), 2);
    assert_eq!(canvas.get_pixel(0, 0), Some(Color { r: 1, g: 2, b: 3, a: 4 }));
    assert_eq!(canvas.get_pixel(2, 0), Some(Color { r: 9, g: 10, b: 11, a: 12 }));
    assert_eq!(canvas.get_pixel(0, 1), Some(Color { r: 13, g: 14, b: 15, a: 16 }));
    assert_eq!(canvas.get_pixel(2, 1), Some(Color { r: 21, g: 22, b: 23, a: 24 }));
    assert_eq!(canvas.to_rgba(), raw);
}

#[test]
fn raw_bytes_must_fill_the_canvas() {
    assert!(Canvas::from_rgba(3, 2, &vec![0; 23]).is_none());
    assert!(Canvas::from_rgba(3, 2, &vec![0; 25]).is_none());
    assert!(Canvas::from_rgba(3, 2, &vec![0; 6]).is_none());
    assert!(Canvas::from_rgba(3, 2, &vec![0; 28]).is_none());
    assert!(Canvas::from_rgba(0, 0, &vec![]).is_some());
    assert!(Canvas::from_rgba(4294967295, 4294967295, &vec![0; 4]).is_none());
}

#[test]
fn painted_bytes_differ_only_at_the_pixel() {
    let raw: Vec<u8> = vec![50; 4 * 10 * 10];
    let mut canvas = Canvas::from_rgba(10, 10, &raw).unwrap();
    assert!(canvas.paint(&parse("3 4 255 0 0").unwrap()));
    let after = canvas.to_rgba();
    let at = 4 * (4 * 10 + 3);
    assert_eq!(&after[at..at + 4], &[255, 0, 0, 255]);
    assert_eq!(&after[..at], &raw[..at]);
    assert_eq!(&after[at + 4..], &raw[at + 4..]);
}
