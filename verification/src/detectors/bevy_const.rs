//! Bevy named color constants such as `Color::WHITE` and `Color::TOMATO`.
use vstd::prelude::*;
use crate::detectors::{
    capture_span_named, capture_text_named, captured_span, captured_text, extends, from_source, in_source,
    is_text_span, lemma_captured_text_from_source, lemma_made_of_all, lemma_made_of_next, made_of, range_bounds, range_of, spans_view,
    CaptureSpan, ColorMatch, ColorValue,
};
use crate::parser::{byte_len, query_result, run_query, span_text, SyntaxTree};
use crate::text::{str_eq, str_in};

verus! {

/// Paths such as `Color::WHITE`: a scoped identifier whose path is `Color`,
/// `Srgba` or `LinearRgba` and whose name is in upper snake case.
pub const QUERY_SRC: &'static str = r#"
(scoped_identifier
  path: (identifier) @type
  name: (identifier) @name
  (#match? @type "^(Color|Srgba|LinearRgba)$")
  (#match? @name "^[A-Z][A-Z0-9_]*$")) @full
"#;

/// `Color`, `Srgba` or `LinearRgba`.
pub open spec fn is_const_type(ty: Seq<char>) -> bool {
    ty == "Color"@ || ty == "Srgba"@ || ty == "LinearRgba"@
}

/// `r` is what the constant `name` of type `ty` denotes: `WHITE`, `BLACK`
/// and `NONE` of the three color types; otherwise, for `Color` and `Srgba`,
/// the palette color of that name; nothing else.
pub open spec fn denotes_const(ty: Seq<char>, name: Seq<char>, r: Option<ColorValue>) -> bool {
    if is_const_type(ty) && name == "WHITE"@ {
        r == Some(ColorValue::White)
    } else if is_const_type(ty) && name == "BLACK"@ {
        r == Some(ColorValue::Black)
    } else if is_const_type(ty) && name == "NONE"@ {
        r == Some(ColorValue::Transparent)
    } else if ty == "Srgba"@ || ty == "Color"@ {
        r matches Some(ColorValue::Named { palette, name: n }) && palette is None && n@ == name
    } else {
        r is None
    }
}

/// The color that the constant `name` of the color type `ty` denotes.
pub fn lookup(ty: &str, name: &str) -> (r: Option<ColorValue>)
    ensures
        denotes_const(ty@, name@, r),
        r is Some <==> names_const_color(ty@, name@),
{
    let types = ["Color", "Srgba", "LinearRgba"];
    let is_type = str_in(ty, &types);
    proof {
        assert(is_type == is_const_type(ty@)) by {
            if is_const_type(ty@) {
                if ty@ == "Color"@ {
                    assert(types@[0]@ == ty@);
                } else if ty@ == "Srgba"@ {
                    assert(types@[1]@ == ty@);
                } else {
                    assert(types@[2]@ == ty@);
                }
            }
        }
    }
    if is_type && str_eq(name, "WHITE") {
        Some(ColorValue::White)
    } else if is_type && str_eq(name, "BLACK") {
        Some(ColorValue::Black)
    } else if is_type && str_eq(name, "NONE") {
        Some(ColorValue::Transparent)
    } else if str_eq(ty, "Srgba") || str_eq(ty, "Color") {
        Some(ColorValue::Named { palette: None, name: name.to_owned() })
    } else {
        None
    }
}

/// A match that a constant detection in `source` can produce: the color
/// that a type and a constant name, each text of `source`, denote.
pub open spec fn is_const_match(source: Seq<char>, m: ColorMatch) -> bool {
    exists|ty: Seq<char>, name: Seq<char>|
        from_source(source, ty) && from_source(source, name) && #[trigger] denotes_const(ty, name, Some(m.color))
}

/// The constant `name` of type `ty` denotes a color.
pub open spec fn names_const_color(ty: Seq<char>, name: Seq<char>) -> bool {
    is_const_type(ty) && (name == "WHITE"@ || name == "BLACK"@ || name == "NONE"@ || ty == "Color"@ || ty
        == "Srgba"@)
}

/// What constant detection makes of one query match with captures `caps`:
/// the color that the texts of its last `type` and `name` captures denote,
/// spanning its last `full` capture, when they name a color and that span
/// is text of `source`; nothing otherwise.
pub open spec fn const_step(source: Seq<char>, caps: Seq<CaptureSpan>, r: Option<ColorMatch>) -> bool {
    let ty = captured_text(source, caps, "type"@);
    let name = captured_text(source, caps, "name"@);
    let span = captured_span(caps, "full"@);
    if names_const_color(ty, name) && span_text(source, span.0 as int, span.1 as int) is Some {
        r matches Some(m) && m.start_byte == span.0 && m.end_byte == span.1 && denotes_const(ty, name, Some(m.color))
    } else {
        r is None
    }
}

/// [`const_step`] for each of the query matches `matches`, by index.
pub open spec fn const_steps(source: Seq<char>, matches: Seq<Vec<CaptureSpan>>) -> spec_fn(int, Option<ColorMatch>) -> bool {
    |i: int, r: Option<ColorMatch>| const_step(source, matches[i]@, r)
}

/// The match that constant detection makes of one query match.
pub fn match_from_captures(source: &str, caps: &Vec<CaptureSpan>) -> (r: Option<ColorMatch>)
    ensures
        const_step(source@, caps@, r),
{
    let ty = capture_text_named(source, caps, "type");
    let name = capture_text_named(source, caps, "name");
    let (start, end) = capture_span_named(caps, "full");
    match lookup(ty, name) {
        Some(color) => if is_text_span(source, start, end) {
            Some(ColorMatch { start_byte: start, end_byte: end, color })
        } else {
            None
        },
        None => None,
    }
}

/// The matches that constant detection makes of the query matches
/// `matches` (captures as plain data), in order.
pub fn matches_from_captures(source: &str, matches: &Vec<Vec<CaptureSpan>>) -> (res: Vec<ColorMatch>)
    ensures
        made_of(matches@.len() as int, const_steps(source@, matches@), res@),
{
    let mut res: Vec<ColorMatch> = Vec::new();
    let mut m: usize = 0;
    while m < matches.len()
        invariant
            m <= matches@.len(),
            made_of(m as int, const_steps(source@, matches@), res@),
        decreases matches@.len() - m,
    {
        let r = match_from_captures(source, &matches[m]);
        proof {
            lemma_made_of_next(m as int, const_steps(source@, matches@), res@, r);
        }
        if let Some(x) = r {
            res.push(x);
        }
        m = m + 1;
    }
    res
}

/// What constant detection finds in `source`, within the byte range `range`
/// when one is given: what [`matches_from_captures`] makes of the matches
/// of the query [`QUERY_SRC`] over the parse of `source`.
pub open spec fn const_found(source: Seq<char>, range: (usize, usize), found: Seq<ColorMatch>) -> bool {
    match query_result(QUERY_SRC@, source, range) {
        Some(qc) => exists|spans: Seq<Vec<CaptureSpan>>|
            spans_view(spans) == qc && #[trigger] made_of(spans.len() as int, const_steps(source, spans), found),
        None => found.len() == 0,
    }
}

/// Scan the parsed text `syntax` for Bevy color constants, within
/// `byte_range` when one is given, and append a [`ColorMatch`] for each one
/// that denotes a color to `out`.
pub fn detect(syntax: &SyntaxTree, byte_range: Option<std::ops::Range<usize>>, out: &mut Vec<ColorMatch>)
    ensures
        extends(old(out)@, final(out)@),
        const_found(syntax.content(), range_bounds(byte_range), final(out)@.skip(old(out)@.len() as int)),
        forall|i: int|
            old(out)@.len() <= i < final(out)@.len() ==> is_const_match(syntax.content(), #[trigger] final(out)@[i]),
        forall|i: int|
            old(out)@.len() <= i < final(out)@.len() ==> in_source(syntax.content(), #[trigger] final(out)@[i]),
{
    let source = syntax.text();
    let ghost before = out@;
    proof {
        assert(out@.take(before.len() as int) =~= before);
    }
    let range = range_of(&byte_range);
    let spans = match run_query(QUERY_SRC, syntax, range) {
        Some(spans) => spans,
        None => {
            proof {
                assert(out@.skip(before.len() as int) =~= Seq::<ColorMatch>::empty());
            }
            return ;
        },
    };
    let mut found = matches_from_captures(source, &spans);
    proof {
        let step = const_steps(source@, spans@);
        let p = |m: ColorMatch| is_const_match(source@, m) && in_source(source@, m);
        assert forall|i: int, m: ColorMatch| 0 <= i < spans@.len() && #[trigger] step(i, Some(m)) implies p(m) by {
            let caps = spans@[i]@;
            lemma_captured_text_from_source(source@, caps, "type"@);
            lemma_captured_text_from_source(source@, caps, "name"@);
            assert(denotes_const(captured_text(source@, caps, "type"@), captured_text(source@, caps, "name"@), Some(m.color)));
        }
        lemma_made_of_all(spans@.len() as int, step, found@, p);
    }
    let ghost new = found@;
    out.append(&mut found);
    proof {
        assert(out@.take(before.len() as int) =~= before);
        assert(out@.skip(before.len() as int) =~= new);
        assert forall|i: int| before.len() <= i < out@.len() implies is_const_match(source@, #[trigger] out@[i])
            && in_source(source@, out@[i]) by {
            assert(out@[i] == new[i - before.len()]);
        }
    }
}

/// For each of `Color`, `Srgba` and `LinearRgba`, the constants `WHITE`,
/// `BLACK` and `NONE` denote opaque white, opaque black and transparent
/// black.
pub proof fn law_basic_constants(ty: Seq<char>, r: Option<ColorValue>)
    requires
        ty == "Color"@ || ty == "Srgba"@ || ty == "LinearRgba"@,
    ensures
        denotes_const(ty, "WHITE"@, r) ==> r == Some(ColorValue::White),
        denotes_const(ty, "BLACK"@, r) ==> r == Some(ColorValue::Black),
        denotes_const(ty, "NONE"@, r) ==> r == Some(ColorValue::Transparent),
{
    reveal_strlit("WHITE");
    assert("WHITE"@.len() == 5);
    reveal_strlit("BLACK");
    assert("BLACK"@.len() == 5);
    reveal_strlit("NONE");
    assert("NONE"@.len() == 4);
    reveal_strlit("Color");
    assert("Color"@.len() == 5);
    reveal_strlit("Srgba");
    assert("Srgba"@.len() == 5);
    reveal_strlit("LinearRgba");
    assert("LinearRgba"@.len() == 10);
    assert("WHITE"@[0] == 'W');
    assert("WHITE"@[1] == 'H');
    assert("WHITE"@[2] == 'I');
    assert("WHITE"@[3] == 'T');
    assert("WHITE"@[4] == 'E');
    assert("BLACK"@[0] == 'B');
    assert("BLACK"@[1] == 'L');
    assert("BLACK"@[2] == 'A');
    assert("BLACK"@[3] == 'C');
    assert("BLACK"@[4] == 'K');
    assert("NONE"@[0] == 'N');
    assert("NONE"@[1] == 'O');
    assert("NONE"@[2] == 'N');
    assert("NONE"@[3] == 'E');
    assert("Color"@[0] == 'C');
    assert("Color"@[1] == 'o');
    assert("Color"@[2] == 'l');
    assert("Color"@[3] == 'o');
    assert("Color"@[4] == 'r');
    assert("Srgba"@[0] == 'S');
    assert("Srgba"@[1] == 'r');
    assert("Srgba"@[2] == 'g');
    assert("Srgba"@[3] == 'b');
    assert("Srgba"@[4] == 'a');
    assert("LinearRgba"@[0] == 'L');
    assert("LinearRgba"@[1] == 'i');
    assert("LinearRgba"@[2] == 'n');
    assert("LinearRgba"@[3] == 'e');
    assert("LinearRgba"@[4] == 'a');
    assert("LinearRgba"@[5] == 'r');
    assert("LinearRgba"@[6] == 'R');
    assert("LinearRgba"@[7] == 'g');
    assert("LinearRgba"@[8] == 'b');
    assert("LinearRgba"@[9] == 'a');
}

} // verus!
