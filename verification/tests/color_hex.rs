use dioxus_components::color::{format_rgb_hex, parse_hex_rgb};
use palette::{encoding, FromColor, Hsv, IntoColor, RgbHue, Srgb};

fn color_hex_from_hsv(color: Hsv<encoding::Srgb, f64>) -> String {
    let rgb: Srgb<u8> = Srgb::<f64>::from_color(color).into_format();
    format_rgb_hex(rgb.red, rgb.green, rgb.blue)
}

#[test]
fn hsv_hex_round_trip_matches_normalized_parent_color() {
    let requested = Hsv::<encoding::Srgb, f64>::new(RgbHue::new(360.0), 1.0, 1.0);
    let normalized = Hsv::<encoding::Srgb, f64>::new(RgbHue::new(0.0), 1.0, 1.0);

    assert_eq!(
        color_hex_from_hsv(requested),
        color_hex_from_hsv(normalized)
    );
}

#[test]
fn parsed_hex_converts_to_hsv_and_back() {
    let (red, green, blue) = parse_hex_rgb("#3366cc").unwrap();
    let hsv: Hsv<encoding::Srgb, f64> = Srgb::new(red, green, blue).into_format::<f64>().into_color();
    assert_eq!(color_hex_from_hsv(hsv), "#3366CC");
}
