use bevy_color_lsp::color::Rgba8;
use bevy_color_lsp::detectors::bevy_ctor::{number_arg, numbers_of, SyntaxNode};
use bevy_color_lsp::detectors::{
    bevy_const, bevy_ctor, bevy_hex, palette, AlphaArg, CaptureSpan, ColorMatch, ColorSpace,
    ColorValue, CtorArgs, CtorPlan, NumberArg, PaletteModule,
};

fn leaf(kind: &str, named: bool, start: usize, end: usize) -> SyntaxNode {
    SyntaxNode { kind: kind.to_string(), named, start, end, children: Vec::new() }
}

fn unary(start: usize, end: usize, children: Vec<SyntaxNode>) -> SyntaxNode {
    SyntaxNode { kind: "unary_expression".to_string(), named: true, start, end, children }
}

fn cap(name: &str, start: usize, end: usize) -> CaptureSpan {
    CaptureSpan { name: name.to_string(), start, end }
}

fn arg(lit: &str) -> NumberArg {
    NumberArg { negative: false, literal: lit.to_string() }
}

#[test]
fn const_matches_from_captures() {
    let src = "let a = Color::WHITE; let b = Vec3::ZERO;";
    let matches = vec![
        vec![cap("type", 8, 13), cap("name", 15, 20), cap("full", 8, 20)],
        vec![cap("type", 30, 34), cap("name", 36, 40), cap("full", 30, 40)],
    ];
    let res = bevy_const::matches_from_captures(src, &matches);
    assert_eq!(res, vec![ColorMatch { start_byte: 8, end_byte: 20, color: ColorValue::White }]);
}

#[test]
fn const_last_capture_of_a_name_wins() {
    let src = "Srgba::BLACK Color::TOMATO";
    // Two `type` captures: the later one (`Color`) is read.
    let matches = vec![vec![
        cap("type", 0, 5),
        cap("name", 20, 26),
        cap("type", 13, 18),
        cap("full", 13, 26),
    ]];
    let res = bevy_const::matches_from_captures(src, &matches);
    assert_eq!(res.len(), 1);
    assert_eq!(
        res[0].color,
        ColorValue::Named { palette: None, name: "TOMATO".to_string() }
    );
    assert_eq!((res[0].start_byte, res[0].end_byte), (13, 26));
}

#[test]
fn const_span_off_the_text_makes_nothing() {
    let src = "Color::WHITE";
    let matches = vec![vec![cap("type", 0, 5), cap("name", 7, 12), cap("full", 0, 99)]];
    assert!(bevy_const::matches_from_captures(src, &matches).is_empty());
    let matches = vec![vec![cap("type", 0, 5), cap("name", 7, 12)]];
    // Without a `full` capture the match spans bytes 0..0.
    assert_eq!(
        bevy_const::matches_from_captures(src, &matches),
        vec![ColorMatch { start_byte: 0, end_byte: 0, color: ColorValue::White }]
    );
}

#[test]
fn hex_matches_from_captures() {
    let src = r#"Srgba::hex("FF8800") Vec3::hex("FF8800")"#;
    let matches = vec![
        vec![cap("type", 0, 5), cap("ctor", 7, 10), cap("hex", 12, 18), cap("call", 0, 20)],
        vec![cap("type", 21, 25), cap("ctor", 27, 30), cap("hex", 32, 38), cap("call", 21, 39)],
    ];
    let res = bevy_hex::matches_from_captures(src, &matches);
    assert_eq!(
        res,
        vec![ColorMatch {
            start_byte: 0,
            end_byte: 20,
            color: ColorValue::Srgba8(Rgba8 { r: 255, g: 136, b: 0, a: 255 }),
        }]
    );
}

#[test]
fn palette_matches_from_captures() {
    let src = "palettes::css::TOMATO other::foo::RED";
    let matches = vec![
        vec![cap("module", 10, 13), cap("name", 15, 21), cap("full", 0, 21)],
        vec![cap("module", 29, 32), cap("name", 34, 37), cap("full", 22, 37)],
    ];
    let res = palette::matches_from_captures(src, &matches);
    assert_eq!(
        res,
        vec![ColorMatch {
            start_byte: 0,
            end_byte: 21,
            color: ColorValue::Named {
                palette: Some(PaletteModule::Css),
                name: "TOMATO".to_string(),
            },
        }]
    );
}

#[test]
fn ctor_matches_from_captures() {
    let src = "Color::srgb(1.0, 0.5, 0.0) Vec3::new(1.0, 2.0, 3.0)";
    let matches = vec![
        vec![cap("type", 0, 5), cap("ctor", 7, 11), cap("args", 11, 26), cap("call", 0, 26)],
        vec![cap("type", 27, 31), cap("ctor", 33, 36), cap("args", 36, 51), cap("call", 27, 51)],
        vec![cap("type", 0, 5), cap("ctor", 7, 11), cap("call", 0, 26)],
    ];
    let color_args = || {
        vec![
            leaf("float_literal", true, 12, 15),
            leaf("float_literal", true, 17, 20),
            leaf("float_literal", true, 22, 25),
        ]
    };
    let args = vec![
        color_args(),
        vec![
            leaf("float_literal", true, 37, 40),
            leaf("float_literal", true, 42, 45),
            leaf("float_literal", true, 47, 50),
        ],
        color_args(),
    ];
    let res = bevy_ctor::matches_from_captures(src, &matches, &args);
    assert_eq!(
        res,
        vec![ColorMatch {
            start_byte: 0,
            end_byte: 26,
            color: ColorValue::Constructor {
                plan: CtorPlan { space: ColorSpace::Srgb, alpha: AlphaArg::Opaque },
                args: CtorArgs { first: arg("1.0"), second: arg("0.5"), third: arg("0.0"), alpha: None },
            },
        }]
    );
}

#[test]
fn ctor_needs_three_numbers() {
    let src = "Color::srgb(1.0, x, 0.0)";
    let matches =
        vec![vec![cap("type", 0, 5), cap("ctor", 7, 11), cap("args", 11, 24), cap("call", 0, 24)]];
    let args = vec![vec![
        leaf("float_literal", true, 12, 15),
        leaf("identifier", true, 17, 18),
        leaf("float_literal", true, 20, 23),
    ]];
    assert!(bevy_ctor::matches_from_captures(src, &matches, &args).is_empty());
}

#[test]
fn number_args_through_unary_operators() {
    let src = "-1_000.5f32 - -2 !3 x";
    // `-1_000.5f32`: a unary minus over a float literal.
    let neg = unary(0, 11, vec![leaf("-", false, 0, 1), leaf("float_literal", true, 1, 11)]);
    assert_eq!(
        number_arg(src, &neg, false),
        Some(NumberArg { negative: true, literal: "1000.5".to_string() })
    );
    // `- -2`: two minus signs cancel.
    let inner = unary(14, 16, vec![leaf("-", false, 14, 15), leaf("integer_literal", true, 15, 16)]);
    let double = unary(12, 16, vec![leaf("-", false, 12, 13), inner]);
    assert_eq!(
        number_arg(src, &double, false),
        Some(NumberArg { negative: false, literal: "2".to_string() })
    );
    // `!3`: other operators keep the value.
    let not = unary(17, 19, vec![leaf("!", false, 17, 18), leaf("integer_literal", true, 18, 19)]);
    assert_eq!(
        number_arg(src, &not, false),
        Some(NumberArg { negative: false, literal: "3".to_string() })
    );
    assert_eq!(number_arg(src, &leaf("identifier", true, 20, 21), false), None);
    assert_eq!(number_arg(src, &unary(0, 1, vec![leaf("-", false, 0, 1)]), false), None);
    let nums = numbers_of(src, &vec![neg, leaf("identifier", true, 20, 21), not]);
    assert_eq!(
        nums,
        vec![
            NumberArg { negative: true, literal: "1000.5".to_string() },
            NumberArg { negative: false, literal: "3".to_string() },
        ]
    );
}
