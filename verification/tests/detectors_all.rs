use bevy_color_lsp::parser::parse_text;
use bevy_color_lsp::detectors::{dedupe, detect_all, detect_in_range, ColorMatch, ColorValue};

fn at(start: usize, end: usize, color: ColorValue) -> ColorMatch {
    ColorMatch { start_byte: start, end_byte: end, color }
}

#[test]
fn all_detectors_ordered() {
    let src = r##"let a = palettes::css::RED; let b = Color::hex("#abc"); let c = Color::WHITE; let d = Color::srgb(1.0, 0.0, 0.0);"##;
    let m = detect_all(&parse_text(src).unwrap());
    assert_eq!(m.len(), 4);
    for w in m.windows(2) {
        assert!(w[0].start_byte < w[1].start_byte);
    }
    assert!(matches!(m[0].color, ColorValue::Named { .. }));
    assert!(matches!(m[1].color, ColorValue::Srgba8(_)));
    assert_eq!(m[2].color, ColorValue::White);
    assert!(matches!(m[3].color, ColorValue::Constructor { .. }));
}

#[test]
fn range_limits_detection() {
    let src = "let a = Color::WHITE;\nlet b = Color::BLACK;";
    let m = detect_in_range(&parse_text(src).unwrap(), Some(22..src.len()));
    assert_eq!(m.len(), 1);
    assert_eq!(m[0].color, ColorValue::Black);
}

#[test]
fn dedupe_keeps_first_per_range() {
    let mut v = vec![
        at(5, 9, ColorValue::White),
        at(1, 3, ColorValue::Black),
        at(5, 9, ColorValue::Transparent),
        at(1, 2, ColorValue::Transparent),
        at(1, 3, ColorValue::White),
    ];
    dedupe(&mut v);
    assert_eq!(
        v,
        vec![at(1, 2, ColorValue::Transparent), at(1, 3, ColorValue::Black), at(5, 9, ColorValue::White)]
    );
}

#[test]
fn dedupe_empty() {
    let mut v: Vec<ColorMatch> = Vec::new();
    dedupe(&mut v);
    assert!(v.is_empty());
}

#[test]
fn readme_patterns_are_detected() {
    let rows: [(&str, usize); 5] = [
        (
            r#"Color::srgb(1.0, 0.5, 0.0); Color::srgba(1.0, 0.5, 0.0, 1.0); Color::hsl(1.0, 0.5, 0.5);
               Color::hsv(1.0, 0.5, 0.5); Color::hwb(1.0, 0.5, 0.5); Color::oklab(0.5, 0.1, 0.1);
               Color::oklch(0.5, 0.1, 30.0); Color::linear_rgb(1.0, 0.5, 0.0); Color::srgb_u8(255, 128, 0);"#,
            9,
        ),
        (
            r#"Srgba::new(1.0, 0.5, 0.0, 1.0); LinearRgba::new(1.0, 0.5, 0.0, 1.0); Hsla::new(1.0, 0.5, 0.5, 1.0);
               Hsva::new(1.0, 0.5, 0.5, 1.0); Hwba::new(1.0, 0.5, 0.5, 1.0); Oklaba::new(0.5, 0.1, 0.1, 1.0);
               Oklcha::new(0.5, 0.1, 30.0, 1.0);"#,
            7,
        ),
        ("Color::WHITE; Color::BLACK; Color::NONE;", 3),
        (r##"Srgba::hex("FF8800"); Color::hex("#abc");"##, 2),
        ("palettes::css::TOMATO; palettes::tailwind::BLUE_500; palettes::basic::RED;", 3),
    ];
    for (src, expected) in rows {
        assert_eq!(detect_all(&parse_text(src).unwrap()).len(), expected, "{src}");
    }
}

#[test]
fn non_color_calls_are_not_detected() {
    let src = "Vec3::new(1.0, 2.0, 3.0); Transform::from_xyz(1.0, 2.0, 3.0); Vec3::ZERO;";
    assert!(detect_all(&parse_text(src).unwrap()).is_empty());
}

#[test]
fn parse_still_parses() {
    assert!(bevy_color_lsp::parser::parse("fn main() {}").is_some());
}

#[test]
fn parse_and_parse_text_agree() {
    for src in ["fn main() {}", "Color::WHITE", ""] {
        assert_eq!(bevy_color_lsp::parser::parse(src).is_some(), parse_text(src).is_some());
    }
}
