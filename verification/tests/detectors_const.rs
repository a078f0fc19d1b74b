use bevy_color_lsp::parser::parse_text;
use bevy_color_lsp::detectors::bevy_const::{detect, lookup};
use bevy_color_lsp::detectors::{ColorMatch, ColorValue};

fn detect_str(src: &str) -> Vec<ColorMatch> {
    let mut out = Vec::new();
    detect(&parse_text(src).unwrap(), None, &mut out);
    out
}

#[test]
fn white() {
    let m = detect_str("let c = Color::WHITE;");
    assert_eq!(m.len(), 1);
    assert_eq!(m[0].color, ColorValue::White);
}

#[test]
fn none_const() {
    let m = detect_str("Color::NONE");
    assert_eq!(m.len(), 1);
    // Fully transparent: alpha 0.
    assert_eq!(m[0].color, ColorValue::Transparent);
}

#[test]
fn ignores_non_color() {
    let m = detect_str("Foo::BAR");
    assert!(m.is_empty());
}

#[test]
fn const_span_covers_path() {
    let src = "let c = Color::WHITE;";
    let m = detect_str(src);
    assert_eq!(&src[m[0].start_byte..m[0].end_byte], "Color::WHITE");
}

#[test]
fn linear_black_and_named() {
    let m = detect_str("(LinearRgba::BLACK, Srgba::TOMATO, LinearRgba::TOMATO)");
    assert_eq!(m.len(), 2);
    assert_eq!(m[0].color, ColorValue::Black);
    assert_eq!(m[1].color, ColorValue::Named { palette: None, name: "TOMATO".to_string() });
}

#[test]
fn lookup_table() {
    assert_eq!(lookup("Srgba", "WHITE"), Some(ColorValue::White));
    assert_eq!(lookup("LinearRgba", "NONE"), Some(ColorValue::Transparent));
    assert_eq!(lookup("LinearRgba", "RED"), None);
    assert_eq!(lookup("Vec3", "WHITE"), None);
}

#[test]
fn lowercase_name_ignored() {
    assert!(detect_str("Color::white").is_empty());
}
