use raytrace::camera::ppm_header_bytes;
use raytrace::color::{linear_to_gamma, quantize, write_color, Color};
use raytrace::fixed::ONE;

#[test]
fn header_matches_the_output_format_exactly() {
    assert_eq!(String::from_utf8(ppm_header_bytes(4, 4)).unwrap(), "P3\n4 4\n255\n");
    assert_eq!(
        String::from_utf8(ppm_header_bytes(1200, 675)).unwrap(),
        "P3\n1200 675\n255\n"
    );
    assert_eq!(String::from_utf8(ppm_header_bytes(1, 100000)).unwrap(), "P3\n1 100000\n255\n");
    assert_eq!(String::from_utf8(ppm_header_bytes(0, 0)).unwrap(), "P3\n0 0\n255\n");
}

#[test]
fn gamma_and_clamp_round_trip_the_channel_extremes() {
    // full linear intensity reaches the brightest channel value
    assert_eq!(quantize(ONE), 255);
    // darkness stays dark
    assert_eq!(quantize(0), 0);
    // and anything above one is clamped, not wrapped
    assert_eq!(quantize(4 * ONE), 255);
    assert_eq!(quantize(-ONE), 0);
}

#[test]
fn gamma_correction_is_the_square_root() {
    assert_eq!(linear_to_gamma(ONE / 4), ONE / 2);
    assert_eq!(linear_to_gamma(ONE), ONE);
    assert_eq!(linear_to_gamma(0), 0);
    assert_eq!(linear_to_gamma(-ONE), 0);
}

#[test]
fn quantize_applies_gamma_before_scaling() {
    // a quarter of linear intensity has gamma one half: floor(255.999 / 2)
    assert_eq!(quantize(ONE / 4), 127);
}

#[test]
fn write_color_encodes_one_pixel_line() {
    let line = write_color(Color { x: 49152, y: 55705, z: 65536 });
    assert_eq!(String::from_utf8(line).unwrap(), "221 236 255\n");
    let black = write_color(Color { x: 0, y: 0, z: 0 });
    assert_eq!(String::from_utf8(black).unwrap(), "0 0 0\n");
    let white = write_color(Color { x: ONE, y: ONE, z: ONE });
    assert_eq!(String::from_utf8(white).unwrap(), "255 255 255\n");
}
