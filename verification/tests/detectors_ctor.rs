use bevy_color_lsp::parser::parse_text;
use bevy_color_lsp::detectors::bevy_ctor::{build_color, detect, plan_for};
use bevy_color_lsp::detectors::{
    AlphaArg, ColorMatch, ColorSpace, ColorValue, CtorArgs, CtorPlan, NumberArg,
};
use palette::{convert::FromColorUnclamped, FromColor, Hsl, Hsv, Hwb, LinSrgb, Oklab, Oklch, Srgb};

fn detect_str(src: &str) -> Vec<ColorMatch> {
    let mut out = Vec::new();
    detect(&parse_text(src).unwrap(), None, &mut out);
    out
}

fn value(a: &NumberArg) -> f32 {
    let v: f32 = a.literal.parse().unwrap();
    if a.negative {
        -v
    } else {
        v
    }
}

fn to_u8(x: f32) -> f32 {
    f32::from(x.round().clamp(0.0, 255.0) as u8) / 255.0
}

fn clamp01(c: (f32, f32, f32, f32)) -> (f32, f32, f32, f32) {
    (c.0.clamp(0.0, 1.0), c.1.clamp(0.0, 1.0), c.2.clamp(0.0, 1.0), c.3.clamp(0.0, 1.0))
}

/// The displayed color of a constructor match, as the server computes it.
fn rgba(m: &ColorMatch) -> (f32, f32, f32, f32) {
    let ColorValue::Constructor { plan, args } = &m.color else { panic!("not a constructor") };
    let (x, y, z) = (value(&args.first), value(&args.second), value(&args.third));
    let fourth = args.alpha.as_ref().map(value);
    let alpha = match plan.alpha {
        AlphaArg::Opaque => None,
        AlphaArg::FourthArg => fourth,
    };
    match plan.space {
        ColorSpace::Srgb => (x, y, z, alpha.unwrap_or(1.0)),
        ColorSpace::LinearSrgb => {
            let s: Srgb = LinSrgb::new(x, y, z).into();
            clamp01((s.red, s.green, s.blue, alpha.unwrap_or(1.0)))
        }
        ColorSpace::SrgbU8 => (to_u8(x), to_u8(y), to_u8(z), to_u8(alpha.unwrap_or(255.0))),
        ColorSpace::Hsl => {
            let s = Srgb::from_color(Hsl::new(x, y.clamp(0.0, 1.0), z.clamp(0.0, 1.0)));
            clamp01((s.red, s.green, s.blue, alpha.unwrap_or(1.0)))
        }
        ColorSpace::Hsv => {
            let s = Srgb::from_color(Hsv::new(x, y.clamp(0.0, 1.0), z.clamp(0.0, 1.0)));
            clamp01((s.red, s.green, s.blue, alpha.unwrap_or(1.0)))
        }
        ColorSpace::Hwb => {
            let (w, b) = (y.clamp(0.0, 1.0), z.clamp(0.0, 1.0));
            if w + b >= 1.0 {
                let g = w / (w + b);
                return (g, g, g, alpha.unwrap_or(1.0));
            }
            let s = Srgb::from_color(Hwb::new(x, w, b));
            clamp01((s.red, s.green, s.blue, alpha.unwrap_or(1.0)))
        }
        ColorSpace::Oklab => {
            let lin = LinSrgb::from_color_unclamped(Oklab::new(x, y, z));
            let s: Srgb = lin.into();
            clamp01((s.red, s.green, s.blue, alpha.unwrap_or(1.0)))
        }
        ColorSpace::Oklch => {
            let lin = LinSrgb::from_color_unclamped(Oklch::new(x, y, z));
            let s: Srgb = lin.into();
            clamp01((s.red, s.green, s.blue, alpha.unwrap_or(1.0)))
        }
    }
}

fn arg(lit: &str) -> NumberArg {
    NumberArg { negative: false, literal: lit.to_string() }
}

#[test]
fn srgb() {
    let m = detect_str("let c = Color::srgb(1.0, 0.5, 0.0);");
    assert_eq!(m.len(), 1);
    assert!((rgba(&m[0]).0 - 1.0).abs() < 0.01);
    assert!((rgba(&m[0]).1 - 0.5).abs() < 0.01);
    assert!((rgba(&m[0]).2 - 0.0).abs() < 0.01);
}

#[test]
fn srgb_u8() {
    let m = detect_str("Color::srgb_u8(255, 128, 0)");
    assert_eq!(m.len(), 1);
    assert!((rgba(&m[0]).1 - 128.0 / 255.0).abs() < 0.01);
}

#[test]
fn bevy_ctor_hsl_cyan() {
    let m = detect_str("Color::hsl(180.0, 1.0, 0.5)");
    assert_eq!(m.len(), 1);
    assert!((rgba(&m[0]).1 - 1.0).abs() < 0.01);
    assert!((rgba(&m[0]).2 - 1.0).abs() < 0.01);
}

#[test]
fn srgba_struct() {
    let m = detect_str("Srgba::new(0.1, 0.2, 0.3, 0.4)");
    assert_eq!(m.len(), 1);
    assert!((rgba(&m[0]).3 - 0.4).abs() < 0.01);
}

#[test]
fn ignores_non_color_call() {
    let m = detect_str("Vec3::new(1.0, 2.0, 3.0)");
    assert!(m.is_empty());
}

#[test]
fn handles_negative() {
    let m = detect_str("Color::oklab(0.5, -0.1, 0.1)");
    assert_eq!(m.len(), 1);
}

#[test]
fn srgba_with_alpha() {
    let m = detect_str("Color::srgba(1.0, 0.0, 0.5, 0.8)");
    assert_eq!(m.len(), 1);
    assert!((rgba(&m[0]).0 - 1.0).abs() < 0.01);
    assert!((rgba(&m[0]).3 - 0.8).abs() < 0.01);
}

#[test]
fn srgba_u8_with_alpha() {
    let m = detect_str("Color::srgba_u8(255, 0, 128, 200)");
    assert_eq!(m.len(), 1);
    assert!((rgba(&m[0]).0 - 1.0).abs() < 0.01);
    assert!((rgba(&m[0]).3 - 200.0 / 255.0).abs() < 0.01);
}

#[test]
fn linear_rgb_color() {
    let m = detect_str("Color::linear_rgb(1.0, 1.0, 1.0)");
    assert_eq!(m.len(), 1);
    // linear white -> sRGB white
    assert!((rgba(&m[0]).0 - 1.0).abs() < 0.01);
}

#[test]
fn linear_rgba_color() {
    let m = detect_str("Color::linear_rgba(1.0, 1.0, 1.0, 0.5)");
    assert_eq!(m.len(), 1);
    assert!((rgba(&m[0]).3 - 0.5).abs() < 0.01);
}

#[test]
fn linear_rgba_struct_rgb() {
    let m = detect_str("LinearRgba::rgb(0.5, 0.5, 0.5)");
    assert_eq!(m.len(), 1);
    // 0.5 linear -> ~0.735 sRGB
    assert!(rgba(&m[0]).0 > 0.7 && rgba(&m[0]).0 < 0.76);
}

#[test]
fn linear_rgba_struct_new() {
    let m = detect_str("LinearRgba::new(1.0, 0.0, 0.0, 1.0)");
    assert_eq!(m.len(), 1);
    assert!((rgba(&m[0]).0 - 1.0).abs() < 0.01);
    assert!((rgba(&m[0]).1).abs() < 0.01);
}

#[test]
fn hsla_struct_new() {
    let m = detect_str("Hsla::new(0.0, 1.0, 0.5, 0.7)");
    assert_eq!(m.len(), 1);
    assert!((rgba(&m[0]).0 - 1.0).abs() < 0.01); // red hue
    assert!((rgba(&m[0]).3 - 0.7).abs() < 0.01);
}

#[test]
fn hsla_color() {
    let m = detect_str("Color::hsla(120.0, 1.0, 0.5, 0.5)");
    assert_eq!(m.len(), 1);
    assert!((rgba(&m[0]).1 - 1.0).abs() < 0.01); // green
    assert!((rgba(&m[0]).3 - 0.5).abs() < 0.01);
}

#[test]
fn hsv_color() {
    let m = detect_str("Color::hsv(240.0, 1.0, 1.0)");
    assert_eq!(m.len(), 1);
    assert!((rgba(&m[0]).2 - 1.0).abs() < 0.01); // blue
}

#[test]
fn hsva_struct_new() {
    let m = detect_str("Hsva::new(240.0, 1.0, 1.0, 0.6)");
    assert_eq!(m.len(), 1);
    assert!((rgba(&m[0]).2 - 1.0).abs() < 0.01);
    assert!((rgba(&m[0]).3 - 0.6).abs() < 0.01);
}

#[test]
fn hwb_color() {
    let m = detect_str("Color::hwb(0.0, 0.0, 0.0)");
    assert_eq!(m.len(), 1);
    assert!((rgba(&m[0]).0 - 1.0).abs() < 0.01); // red
}

#[test]
fn hwba_struct_new() {
    let m = detect_str("Hwba::new(0.0, 0.5, 0.5, 1.0)");
    assert_eq!(m.len(), 1);
    // w+b=1 => gray 0.5
    assert!((rgba(&m[0]).0 - 0.5).abs() < 0.01);
}

#[test]
fn oklaba_struct_new() {
    let m = detect_str("Oklaba::new(0.5, 0.0, 0.0, 1.0)");
    assert_eq!(m.len(), 1);
    assert!((rgba(&m[0]).3 - 1.0).abs() < 0.01);
}

#[test]
fn oklch_color() {
    let m = detect_str("Color::oklch(0.5, 0.0, 0.0)");
    assert_eq!(m.len(), 1);
    // zero chroma => near-gray
    assert!((rgba(&m[0]).0 - rgba(&m[0]).1).abs() < 0.05);
}

#[test]
fn oklcha_struct_new() {
    let m = detect_str("Oklcha::new(0.5, 0.0, 0.0, 0.9)");
    assert_eq!(m.len(), 1);
    assert!((rgba(&m[0]).3 - 0.9).abs() < 0.01);
}

#[test]
fn srgba_rgba_u8_struct() {
    let m = detect_str("Srgba::rgba_u8(255, 128, 0, 200)");
    assert_eq!(m.len(), 1);
    assert!((rgba(&m[0]).0 - 1.0).abs() < 0.01);
    assert!((rgba(&m[0]).1 - 128.0 / 255.0).abs() < 0.01);
    assert!((rgba(&m[0]).3 - 200.0 / 255.0).abs() < 0.01);
}

#[test]
fn unknown_ctor_yields_no_match() {
    let m = detect_str("Color::unknown_ctor(1.0, 0.0, 0.0)");
    assert!(m.is_empty());
}

#[test]
fn negative_and_suffixed_args() {
    let m = detect_str("Color::oklab(0.5_f32, -0.1, - -2u8)");
    assert_eq!(m.len(), 1);
    let ColorValue::Constructor { args, .. } = &m[0].color else { panic!() };
    assert_eq!(args.first, arg("0.5"));
    assert_eq!(args.second, NumberArg { negative: true, literal: "0.1".to_string() });
    assert_eq!(args.third, arg("2"));
}

#[test]
fn non_numeric_args_are_skipped() {
    // `x` and the hex literal are not numbers; the remaining three are.
    let m = detect_str("Color::srgb(x, 0x10, 1.0, 0.5, 0.25)");
    assert_eq!(m.len(), 1);
    let ColorValue::Constructor { args, .. } = &m[0].color else { panic!() };
    assert_eq!(args.first, arg("1.0"));
    assert_eq!(args.third, arg("0.25"));
    assert!(detect_str("Color::srgb(x, 1.0, 0.5)").is_empty());
}

#[test]
fn build_color_plans() {
    assert_eq!(plan_for("Color", "srgb"), Some(CtorPlan { space: ColorSpace::Srgb, alpha: AlphaArg::Opaque }));
    assert_eq!(plan_for("LinearRgba", "new"), Some(CtorPlan { space: ColorSpace::LinearSrgb, alpha: AlphaArg::FourthArg }));
    assert_eq!(plan_for("Hsla", "hsl"), Some(CtorPlan { space: ColorSpace::Hsl, alpha: AlphaArg::Opaque }));
    assert_eq!(plan_for("Hwba", "hwb"), None);
    assert_eq!(plan_for("Laba", "new"), None);
    assert_eq!(build_color("Color", "srgb", &[arg("1"), arg("2")]), None);
    assert_eq!(
        build_color("Color", "srgba", &[arg("1"), arg("2"), arg("3")]),
        Some(ColorValue::Constructor {
            plan: CtorPlan { space: ColorSpace::Srgb, alpha: AlphaArg::FourthArg },
            args: CtorArgs { first: arg("1"), second: arg("2"), third: arg("3"), alpha: None },
        })
    );
    assert_eq!(
        build_color("Color", "srgb", &[arg("1"), arg("2"), arg("3"), arg("4")]),
        Some(ColorValue::Constructor {
            plan: CtorPlan { space: ColorSpace::Srgb, alpha: AlphaArg::Opaque },
            args: CtorArgs { first: arg("1"), second: arg("2"), third: arg("3"), alpha: None },
        })
    );
}

#[test]
fn other_types_make_no_color() {
    let nums = vec![arg("1.0"), arg("2.0"), arg("3.0")];
    assert_eq!(build_color("Vec3", "new", &nums), None);
    let nums = vec![arg("1.0"), arg("2.0"), arg("3.0")];
    assert_eq!(build_color("Transform", "srgb", &nums), None);
}
