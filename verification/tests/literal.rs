use bevy_color_lsp::literal::{is_float_text, parse_numeric_literal, remove_separators, strip_rust_suffix};

#[test]
fn strips_suffixes() {
    assert_eq!(strip_rust_suffix("1.0f32"), "1.0");
    assert_eq!(strip_rust_suffix("255u8"), "255");
    assert_eq!(strip_rust_suffix("1i128"), "1");
    assert_eq!(strip_rust_suffix("7usize"), "7");
    assert_eq!(strip_rust_suffix("3u16"), "3");
    assert_eq!(strip_rust_suffix("2f64"), "2");
    assert_eq!(strip_rust_suffix("1.5"), "1.5");
    assert_eq!(strip_rust_suffix("1e"), "1e");
    assert_eq!(strip_rust_suffix(""), "");
    assert_eq!(strip_rust_suffix("f32"), "");
}

#[test]
fn removes_separators() {
    assert_eq!(remove_separators("1_000_000"), "1000000");
    assert_eq!(remove_separators("_"), "");
    assert_eq!(remove_separators("12"), "12");
}

#[test]
fn float_syntax() {
    for ok in ["1", "1.", ".5", "1.5", "-1.0", "+2", "1e5", "1E-5", "2.5e+3", "inf", "-Infinity", "NaN"] {
        assert!(is_float_text(ok), "{ok}");
        assert!(ok.parse::<f32>().is_ok(), "{ok}");
    }
    for bad in ["", ".", "e5", "1e", "1..2", "0x10", "1.0.", "--1", "1e+", "infinit", "1 "] {
        assert!(!is_float_text(bad), "{bad}");
        assert!(bad.parse::<f32>().is_err(), "{bad}");
    }
}

#[test]
fn numeric_literals() {
    assert_eq!(parse_numeric_literal("1_000.5f32").as_deref(), Some("1000.5"));
    assert_eq!(parse_numeric_literal("255u8").as_deref(), Some("255"));
    assert_eq!(parse_numeric_literal("0xFF"), None);
    assert_eq!(parse_numeric_literal("-1.0").as_deref(), Some("-1.0"));
}
