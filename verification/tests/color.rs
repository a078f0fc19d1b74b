use bevy_color_lsp::color::{parse_hex, Rgba8};

fn approx(a: f32, b: f32) {
    assert!((a - b).abs() < 0.01, "{a} != {b}");
}

fn unit(c: u8) -> f32 {
    f32::from(c) / 255.0
}

#[test]
fn hex_six() {
    let c = parse_hex("FF8800").unwrap();
    approx(unit(c.r), 1.0);
    approx(unit(c.g), 0.533);
    approx(unit(c.b), 0.0);
    approx(unit(c.a), 1.0);
}

#[test]
fn hex_three() {
    let c = parse_hex("#abc").unwrap();
    let (r, g, b) =
        (f32::from(0xaa_u8) / 255.0, f32::from(0xbb_u8) / 255.0, f32::from(0xcc_u8) / 255.0);
    approx(unit(c.r), r);
    approx(unit(c.g), g);
    approx(unit(c.b), b);
}

#[test]
fn hex_eight_with_alpha() {
    let c = parse_hex("FF000080").unwrap();
    approx(unit(c.r), 1.0);
    approx(unit(c.a), 128.0 / 255.0);
}

#[test]
fn hex_invalid() {
    assert!(parse_hex("XYZ").is_none());
    assert!(parse_hex("12345").is_none());
}

#[test]
fn hex_four_rgba() {
    // #RGBA short form: each nibble doubled
    let c = parse_hex("#f80f").unwrap();
    approx(unit(c.r), 1.0); // 0xff / 255
    approx(unit(c.g), 0.533); // 0x88 / 255
    approx(unit(c.b), 0.0); // 0x00 / 255
    approx(unit(c.a), 1.0); // 0xff / 255
}

#[test]
fn hex_exact_channels() {
    assert_eq!(parse_hex("FF8800"), Some(Rgba8 { r: 255, g: 0x88, b: 0, a: 255 }));
    assert_eq!(parse_hex("#abc"), Some(Rgba8 { r: 0xaa, g: 0xbb, b: 0xcc, a: 255 }));
    assert_eq!(parse_hex("##12345678"), Some(Rgba8 { r: 0x12, g: 0x34, b: 0x56, a: 0x78 }));
    assert_eq!(parse_hex("aBcD"), Some(Rgba8 { r: 0xaa, g: 0xbb, b: 0xcc, a: 0xdd }));
}

#[test]
fn hex_wrong_lengths() {
    assert!(parse_hex("").is_none());
    assert!(parse_hex("#").is_none());
    assert!(parse_hex("ab").is_none());
    assert!(parse_hex("abcde").is_none());
    assert!(parse_hex("abcdefa").is_none());
    assert!(parse_hex("abcdefabc").is_none());
}

#[test]
fn hex_non_ascii() {
    assert!(parse_hex("éé00").is_none());
    // A multi-byte character anywhere makes the literal invalid, without a panic.
    assert!(parse_hex("a€aa").is_none());
    assert!(parse_hex("zz€a").is_none());
    assert!(parse_hex("aé000").is_none());
}

#[test]
fn hex_plus_sign_is_not_a_digit() {
    assert!(parse_hex("+F+F+F").is_none());
    assert!(parse_hex("#+F+F+F+F").is_none());
    assert!(parse_hex("+FF").is_none());
    assert!(parse_hex("+f0000").is_none());
}

#[test]
fn short_forms_double_their_digits() {
    assert_eq!(parse_hex("#abc"), parse_hex("#aabbcc"));
    assert_eq!(parse_hex("f80f"), parse_hex("ff8800ff"));
    assert_eq!(parse_hex("#09F"), parse_hex("0099FF"));
    assert!(parse_hex("#abc").is_some());
}
