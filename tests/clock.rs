use ray_tracer::clock::{draw_clock, CLOCK_SIZE};
use ray_tracer::error::RenderError;

#[test]
fn clock_marks_on_background() {
    let marks = vec![(150, 100), (100, 150), (50, 100), (100, 50), (143, 125)];
    let face = draw_clock(&marks, 0u8, 1u8).unwrap();
    assert_eq!(face.width(), CLOCK_SIZE);
    assert_eq!(face.height(), CLOCK_SIZE);
    assert_eq!(face.width(), 200);
    for y in 0..CLOCK_SIZE {
        for x in 0..CLOCK_SIZE {
            let expected = if marks.contains(&(x, y)) { 1 } else { 0 };
            assert_eq!(face.at(x, y), Ok(expected));
        }
    }
}

#[test]
fn clock_mark_off_the_face_is_an_error() {
    let marks = vec![(10, 10), (200, 5), (300, 300)];
    assert_eq!(
        draw_clock(&marks, 0u8, 1u8).err(),
        Some(RenderError::OutOfBounds { x: 200, y: 5 })
    );
}

#[test]
fn clock_without_marks_is_plain() {
    let face = draw_clock(&vec![], 3u8, 1u8).unwrap();
    assert!(face.pixels().iter().all(|p| *p == 3));
    assert_eq!(face.pixels().len(), 40000);
}
