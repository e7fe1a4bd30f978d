//! Tests of the canvas indexing and drawing paths.
use barnes_hut::canvas::{draw, draw_square_safe, draw_square_unsafe, Canvas};
use barnes_hut::fixed::Scalar;

#[test]
fn test_indexing() {
    let canvas: Canvas = Canvas::new(1000, 1000, (0, 0, 0, 0));
    assert_eq!(canvas.get_index(0, 0), 0);
    assert_eq!(canvas.get_index(1, 0), 1);
    assert_eq!(canvas.get_index(0, 1), canvas.width as usize);
    assert_eq!(canvas.get_index(1, 1), (canvas.height + 1) as usize);
    assert_eq!(
        canvas.get_index(1000, 1000),
        (canvas.height * canvas.width + canvas.width) as usize
    );
}

#[test]
fn test_canvas_size() {
    let canvas: Canvas = Canvas::new(5000, 5000, (0, 0, 0, 0));
    assert_eq!(canvas.buffer.len(), 5000 * 5000 + 5000);
}

#[test]
fn test_is_color() {
    let mut canvas: Canvas = Canvas::new(1000, 1000, (0, 0, 0, 0));
    canvas.set_color(0, 0, &(1, 2, 3, 4));
    assert_eq!(canvas.is_color(0, 0, &(1, 2, 3, 4)), true);
    assert_eq!(canvas.is_color(0, 0, &(1, 2, 3, 3)), false);
}

#[test]
fn square_border_is_painted() {
    let mut canvas: Canvas = Canvas::new(100, 100, (9, 9, 9, 9));
    canvas.draw_square_rgb(10, 20, 30, 40, &(1, 1, 1, 1));
    // corners and edge midpoints carry the color
    assert!(canvas.is_color(10, 20, &(1, 1, 1, 1)));
    assert!(canvas.is_color(40, 60, &(1, 1, 1, 1)));
    assert!(canvas.is_color(25, 20, &(1, 1, 1, 1)));
    assert!(canvas.is_color(10, 35, &(1, 1, 1, 1)));
    // the interior and the outside keep the default
    assert!(canvas.is_default(25, 35));
    assert!(canvas.is_default(9, 20));
    assert!(canvas.is_default(41, 60));
}

#[test]
fn safe_square_clips_off_canvas_points() {
    let mut canvas: Canvas = Canvas::new(50, 50, (0, 0, 0, 0));
    let hue = (Scalar::from_int(240), Scalar::from_int(1), Scalar::from_int(1));
    // the square pokes out on the right and bottom; no panic, and the
    // on-canvas part of the border is written
    canvas.draw_square_safe(40, 40, 30, 30, &hue);
    assert_eq!(canvas.huemap[(40 * 50 + 45) as usize], hue);
    assert_eq!(canvas.huemap[(45 * 50 + 40) as usize], hue);
    assert_eq!(
        canvas.huemap[0],
        (Scalar::from_raw(0), Scalar::from_raw(0), Scalar::from_raw(0))
    );
}

#[test]
fn increment_seeds_and_accumulates() {
    let mut canvas: Canvas = Canvas::new(10, 10, (0, 0, 0, 0));
    let start = (Scalar::from_int(240), Scalar::from_int(1), Scalar::from_int(1));
    canvas.increment_huemap(3, 4, start, Scalar::from_int(-1));
    assert_eq!(canvas.huemap[43].0, Scalar::from_int(239));
    canvas.increment_huemap(3, 4, start, Scalar::from_int(-1));
    assert_eq!(canvas.huemap[43].0, Scalar::from_int(238));
    // off-canvas increments are ignored
    canvas.increment_huemap(-1, 4, start, Scalar::from_int(-1));
    canvas.clear();
    assert_eq!(canvas.huemap[43].0, Scalar::from_raw(0));
    assert!(canvas.is_color(3, 4, &(0, 0, 0, 0)));
}

#[test]
fn draw_copies_pixels_and_clears_the_source() {
    let mut frame: Vec<u8> = vec![7u8; 8];
    let mut pixels = vec![(1u8, 2u8, 3u8, 4u8), (5u8, 6u8, 7u8, 8u8), (9u8, 9u8, 9u8, 9u8)];
    draw(&mut frame, &mut pixels);
    assert_eq!(frame, vec![1, 2, 3, 4, 5, 6, 7, 8]);
    assert_eq!(pixels[0], (0, 0, 0, 0));
    assert_eq!(pixels[1], (0, 0, 0, 0));
    assert_eq!(pixels[2], (9, 9, 9, 9));
}

#[test]
fn benchmark_paths_run() {
    draw_square_unsafe();
    draw_square_safe();
}
