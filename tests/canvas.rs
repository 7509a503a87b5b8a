use ray_tracer::canvas::Canvas;
use ray_tracer::error::RenderError;

#[derive(Debug, Clone, Copy, PartialEq)]
struct Color {
    r: f64,
    g: f64,
    b: f64,
}

fn color(r: f64, g: f64, b: f64) -> Color {
    Color { r, g, b }
}

#[test]
fn tests_canvas_operations() {
    // Creating a Canvas
    let black = color(0.0, 0.0, 0.0);
    let c = Canvas::new(10, 20, black);
    assert_eq!(c.width(), 10);
    assert_eq!(c.height(), 20);
    for y in 0..c.height() {
        for x in 0..c.width() {
            assert_eq!(c.at(x, y), Ok(black));
        }
    }

    // Writing pixels to the Canvas
    let mut c = Canvas::new(10, 20, black);
    let red = color(1.0, 0.0, 0.0);
    let _ = c.write(2, 3, red);
    assert_eq!(c.at(2, 3), Ok(color(1.0, 0.0, 0.0)));
}

#[test]
fn write_lands_at_row_major_index() {
    let mut c = Canvas::new(4, 3, 0u32);
    assert_eq!(c.write(1, 2, 7), Ok(()));
    assert_eq!(c.pixels()[2 * 4 + 1], 7);
    assert_eq!(c.pixels().iter().filter(|p| **p == 7).count(), 1);
    assert_eq!(c.at(1, 2), Ok(7));
    assert_eq!(c.at(2, 1), Ok(0));
}

#[test]
fn write_out_of_bounds_is_refused() {
    let mut c = Canvas::new(4, 3, 0u32);
    assert_eq!(c.write(4, 0, 1), Err(RenderError::OutOfBounds { x: 4, y: 0 }));
    assert_eq!(c.write(0, 3, 1), Err(RenderError::OutOfBounds { x: 0, y: 3 }));
    assert!(c.pixels().iter().all(|p| *p == 0));
    assert_eq!(c.at(9, 9), Err(RenderError::OutOfBounds { x: 9, y: 9 }));
}

#[test]
fn empty_canvas_has_no_pixels() {
    let mut c = Canvas::new(0, 5, 1u8);
    assert_eq!(c.pixels().len(), 0);
    assert_eq!(c.write(0, 0, 2), Err(RenderError::OutOfBounds { x: 0, y: 0 }));
}

#[test]
fn reset_fills_every_pixel() {
    let mut c = Canvas::new(3, 2, 0u8);
    c.write(1, 1, 9).unwrap();
    c.reset(5);
    assert_eq!(c.background(), 5);
    assert_eq!(c.pixels(), &vec![5u8; 6]);
}

#[test]
fn render_walks_rows_then_columns() {
    let mut c = Canvas::new(3, 2, (0usize, 0usize));
    let r = c.render(|x, y| Ok((x, y)));
    assert_eq!(r, Ok(()));
    assert_eq!(c.pixels(), &vec![(0, 0), (1, 0), (2, 0), (0, 1), (1, 1), (2, 1)]);
    assert_eq!(c.background(), (0, 0));
}

#[test]
fn render_stops_at_first_error() {
    let mut c = Canvas::new(3, 2, 0usize);
    let r = c.render(|x, y| {
        if x == 1 && y == 1 {
            Err(RenderError::NotInvertible)
        } else {
            Ok(10 * y + x + 1)
        }
    });
    assert_eq!(r, Err(RenderError::NotInvertible));
    assert_eq!(c.pixels(), &vec![1, 2, 3, 11, 0, 0]);
}

#[test]
fn map_applies_to_pixels_and_background() {
    let mut c = Canvas::new(2, 2, 1u32);
    c.write(0, 1, 4).unwrap();
    let d = c.map(|p| p * 10);
    assert_eq!(d.width(), 2);
    assert_eq!(d.height(), 2);
    assert_eq!(d.background(), 10);
    assert_eq!(d.pixels(), &vec![10, 10, 40, 10]);
}
