use bevy_color_lsp::parser::parse_text;
use bevy_color_lsp::color::Rgba8;
use bevy_color_lsp::detectors::bevy_hex::{detect, hex_call_color};
use bevy_color_lsp::detectors::{ColorMatch, ColorValue};

fn detect_str(src: &str) -> Vec<ColorMatch> {
    let mut out = Vec::new();
    detect(&parse_text(src).unwrap(), None, &mut out);
    out
}

fn rgba(m: &ColorMatch) -> Rgba8 {
    match &m.color {
        ColorValue::Srgba8(c) => *c,
        other => panic!("not a hex color: {other:?}"),
    }
}

#[test]
fn srgba_hex_six() {
    let m = detect_str(r#"Srgba::hex("FF8800")"#);
    assert_eq!(m.len(), 1);
    assert!((f32::from(rgba(&m[0]).r) / 255.0 - 1.0).abs() < 0.01);
    assert!((f32::from(rgba(&m[0]).g) / 255.0 - 0.533).abs() < 0.01);
}

#[test]
fn color_hex_with_hash() {
    let m = detect_str(r##"Color::hex("#abc")"##);
    assert_eq!(m.len(), 1);
}

#[test]
fn ignores_non_hex_ctor() {
    let m = detect_str(r#"Color::srgb("FF8800")"#);
    assert!(m.is_empty());
}

#[test]
fn invalid_hex_string_ignored() {
    assert!(detect_str(r#"Color::hex("nothex")"#).is_empty());
}

#[test]
fn hex_call_decisions() {
    assert_eq!(
        hex_call_color("LinearRgba", "hex", "000000"),
        Some(ColorValue::Srgba8(Rgba8 { r: 0, g: 0, b: 0, a: 255 }))
    );
    assert_eq!(hex_call_color("Hsla", "hex", "000000"), None);
    assert_eq!(hex_call_color("Color", "hex", "a€aa"), None);
}
