use ray_tracer::canvas::Canvas;
use ray_tracer::ppm::Rgb8;

fn rgb(r: u8, g: u8, b: u8) -> Rgb8 {
    Rgb8 { r, g, b }
}

fn text(c: &Canvas<Rgb8>) -> String {
    String::from_utf8(c.to_ppm()).unwrap()
}

#[test]
fn ppm_header_and_rows() {
    let mut c = Canvas::new(2, 3, rgb(0, 0, 0));
    c.write(0, 0, rgb(255, 0, 0)).unwrap();
    c.write(1, 1, rgb(0, 128, 7)).unwrap();
    c.write(1, 2, rgb(10, 99, 100)).unwrap();
    assert_eq!(
        text(&c),
        "P3\n2 3\n255\n255 0 0 0 0 0\n0 0 0 0 128 7\n0 0 0 10 99 100"
    );
}

#[test]
fn ppm_multi_digit_size() {
    let c = Canvas::new(12, 1, rgb(1, 2, 3));
    let t = text(&c);
    let mut expected = String::from("P3\n12 1\n255\n");
    expected.push_str(&vec!["1 2 3"; 12].join(" "));
    assert_eq!(t, expected);
}

#[test]
fn ppm_without_rows_or_columns_is_header_only() {
    assert_eq!(text(&Canvas::new(0, 3, rgb(9, 9, 9))), "P3\n0 3\n255");
    assert_eq!(text(&Canvas::new(5, 0, rgb(9, 9, 9))), "P3\n5 0\n255");
}

#[test]
fn ppm_is_byte_identical_for_identical_pixels() {
    let mut a = Canvas::new(3, 2, rgb(20, 30, 40));
    let mut b = Canvas::new(3, 2, rgb(0, 0, 0));
    b.reset(rgb(20, 30, 40));
    a.write(2, 1, rgb(255, 255, 255)).unwrap();
    b.write(2, 1, rgb(255, 255, 255)).unwrap();
    assert_eq!(a.to_ppm(), a.to_ppm());
    assert_eq!(a.to_ppm(), b.to_ppm());
}

#[test]
fn ppm_of_mapped_canvas() {
    let mut c = Canvas::new(2, 1, 0u8);
    c.write(1, 0, 200).unwrap();
    let q = c.map(|v| rgb(v, v / 2, 255 - v));
    assert_eq!(text(&q), "P3\n2 1\n255\n0 0 255 200 100 55");
}
