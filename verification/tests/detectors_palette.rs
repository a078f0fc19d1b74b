use bevy_color_lsp::parser::parse_text;
use bevy_color_lsp::detectors::palette::{detect, lookup_palette};
use bevy_color_lsp::detectors::{ColorMatch, ColorValue, PaletteModule};

fn detect_str(src: &str) -> Vec<ColorMatch> {
    let mut out = Vec::new();
    detect(&parse_text(src).unwrap(), None, &mut out);
    out
}

#[test]
fn tailwind_short_path() {
    let m = detect_str("palettes::tailwind::BLUE_500");
    assert_eq!(m.len(), 1);
}

#[test]
fn css_long_path() {
    let m = detect_str("bevy_color::palettes::css::TOMATO");
    assert_eq!(m.len(), 1);
}

#[test]
fn basic_red() {
    let m = detect_str("palettes::basic::RED");
    assert_eq!(m.len(), 1);
}

#[test]
fn ignores_other_module() {
    let m = detect_str("std::collections::HashMap");
    assert!(m.is_empty());
}

#[test]
fn palette_value_and_span() {
    let src = "x = bevy_color::palettes::css::TOMATO;";
    let m = detect_str(src);
    assert_eq!(
        m[0].color,
        ColorValue::Named { palette: Some(PaletteModule::Css), name: "TOMATO".to_string() }
    );
    assert_eq!(&src[m[0].start_byte..m[0].end_byte], "bevy_color::palettes::css::TOMATO");
}

#[test]
fn palette_lookup_modules() {
    assert_eq!(
        lookup_palette("basic", "RED"),
        Some(ColorValue::Named { palette: Some(PaletteModule::Basic), name: "RED".to_string() })
    );
    assert_eq!(lookup_palette("collections", "RED"), None);
}
