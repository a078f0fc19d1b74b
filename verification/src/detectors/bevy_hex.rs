//! Hex string constructors such as `Srgba::hex("FF8800")`.
use vstd::prelude::*;
use vstd::string::StringSliceAdditionalSpecFns;
use vstd::utf8::encode_utf8;
use crate::color::{hex_color, parse_hex};
use crate::detectors::{
    capture_span_named, capture_text_named, captured_span, captured_text, extends, from_source, in_source,
    is_text_span, lemma_captured_text_from_source, lemma_made_of_all, lemma_made_of_next, made_of, range_bounds, range_of, spans_view,
    CaptureSpan, ColorMatch, ColorValue,
};
use crate::detectors::bevy_const::is_const_type;
use crate::parser::{byte_len, query_result, run_query, span_text, SyntaxTree};
use crate::text::{str_eq, str_in};

verus! {

/// Calls `Color::hex`, `Srgba::hex` or `LinearRgba::hex` with a string
/// literal argument.
pub const QUERY_SRC: &'static str = r#"
(call_expression
  function: (scoped_identifier
    path: (identifier) @type
    name: (identifier) @ctor
    (#match? @type "^(Color|Srgba|LinearRgba)$")
    (#eq? @ctor "hex"))
  arguments: (arguments
    (string_literal
      (string_content) @hex))) @call
"#;

/// What `ty::ctor("hex")` denotes, for a string whose UTF-8 bytes are
/// `hex`: the parsed hex color for `hex` constructors of the three color
/// types, nothing otherwise.
pub open spec fn hex_call_value(ty: Seq<char>, ctor: Seq<char>, hex: Seq<u8>) -> Option<ColorValue> {
    if is_const_type(ty) && ctor == "hex"@ {
        match hex_color(hex) {
            Some(c) => Some(ColorValue::Srgba8(c)),
            None => None,
        }
    } else {
        None
    }
}

/// The color that the call `ty::ctor(hex)` denotes.
pub fn hex_call_color(ty: &str, ctor: &str, hex: &str) -> (r: Option<ColorValue>)
    ensures
        r == hex_call_value(ty@, ctor@, hex.spec_bytes()),
{
    let types = ["Color", "Srgba", "LinearRgba"];
    let is_type = str_in(ty, &types);
    proof {
        assert(is_type == is_const_type(ty@)) by {
            if is_const_type(ty@) {
                if ty@ == "Color"@ {
                    assert(types@[0]@ == ty@);
                } else if ty@ == "Srgba"@ {
                    assert(types@[1]@ == ty@);
                } else {
                    assert(types@[2]@ == ty@);
                }
            }
        }
    }
    if !is_type || !str_eq(ctor, "hex") {
        return None;
    }
    match parse_hex(hex) {
        Some(c) => Some(ColorValue::Srgba8(c)),
        None => None,
    }
}

/// A match that a hex detection in `source` can produce: the color that a
/// type, a constructor name and a string, each text of `source`, denote.
pub open spec fn is_hex_match(source: Seq<char>, m: ColorMatch) -> bool {
    exists|ty: Seq<char>, ctor: Seq<char>, hex: Seq<char>|
        from_source(source, ty) && from_source(source, ctor) && from_source(source, hex)
            && #[trigger] hex_call_value(ty, ctor, encode_utf8(hex)) == Some(m.color)
}

/// What hex detection makes of one query match with captures `caps`: the
/// color that the texts of its last `type`, `ctor` and `hex` captures
/// denote, spanning its last `call` capture, when they denote one and that
/// span is text of `source`; nothing otherwise.
pub open spec fn hex_step(source: Seq<char>, caps: Seq<CaptureSpan>, r: Option<ColorMatch>) -> bool {
    let value = hex_call_value(
        captured_text(source, caps, "type"@),
        captured_text(source, caps, "ctor"@),
        encode_utf8(captured_text(source, caps, "hex"@)),
    );
    let span = captured_span(caps, "call"@);
    if value is Some && span_text(source, span.0 as int, span.1 as int) is Some {
        r == Some(ColorMatch { start_byte: span.0, end_byte: span.1, color: value->0 })
    } else {
        r is None
    }
}

/// [`hex_step`] for each of the query matches `matches`, by index.
pub open spec fn hex_steps(source: Seq<char>, matches: Seq<Vec<CaptureSpan>>) -> spec_fn(int, Option<ColorMatch>) -> bool {
    |i: int, r: Option<ColorMatch>| hex_step(source, matches[i]@, r)
}

/// The match that hex detection makes of one query match.
pub fn match_from_captures(source: &str, caps: &Vec<CaptureSpan>) -> (r: Option<ColorMatch>)
    ensures
        hex_step(source@, caps@, r),
{
    let ty = capture_text_named(source, caps, "type");
    let ctor = capture_text_named(source, caps, "ctor");
    let hex = capture_text_named(source, caps, "hex");
    let (start, end) = capture_span_named(caps, "call");
    match hex_call_color(ty, ctor, hex) {
        Some(color) => if is_text_span(source, start, end) {
            Some(ColorMatch { start_byte: start, end_byte: end, color })
        } else {
            None
        },
        None => None,
    }
}

/// The matches that hex detection makes of the query matches `matches`
/// (captures as plain data), in order.
pub fn matches_from_captures(source: &str, matches: &Vec<Vec<CaptureSpan>>) -> (res: Vec<ColorMatch>)
    ensures
        made_of(matches@.len() as int, hex_steps(source@, matches@), res@),
{
    let mut res: Vec<ColorMatch> = Vec::new();
    let mut m: usize = 0;
    while m < matches.len()
        invariant
            m <= matches@.len(),
            made_of(m as int, hex_steps(source@, matches@), res@),
        decreases matches@.len() - m,
    {
        let r = match_from_captures(source, &matches[m]);
        proof {
            lemma_made_of_next(m as int, hex_steps(source@, matches@), res@, r);
        }
        if let Some(x) = r {
            res.push(x);
        }
        m = m + 1;
    }
    res
}

/// What hex detection finds in `source`, within the byte range `range`
/// when one is given: what [`matches_from_captures`] makes of the matches
/// of the query [`QUERY_SRC`] over the parse of `source`.
pub open spec fn hex_found(source: Seq<char>, range: (usize, usize), found: Seq<ColorMatch>) -> bool {
    match query_result(QUERY_SRC@, source, range) {
        Some(qc) => exists|spans: Seq<Vec<CaptureSpan>>|
            spans_view(spans) == qc && #[trigger] made_of(spans.len() as int, hex_steps(source, spans), found),
        None => found.len() == 0,
    }
}

/// Scan the parsed text `syntax` for hex string constructors, within
/// `byte_range` when one is given, and append a [`ColorMatch`] for each
/// one whose string is a hex color to `out`.
pub fn detect(syntax: &SyntaxTree, byte_range: Option<std::ops::Range<usize>>, out: &mut Vec<ColorMatch>)
    ensures
        extends(old(out)@, final(out)@),
        hex_found(syntax.content(), range_bounds(byte_range), final(out)@.skip(old(out)@.len() as int)),
        forall|i: int|
            old(out)@.len() <= i < final(out)@.len() ==> is_hex_match(syntax.content(), #[trigger] final(out)@[i]),
        forall|i: int|
            old(out)@.len() <= i < final(out)@.len() ==> in_source(syntax.content(), #[trigger] final(out)@[i]),
{
    let source = syntax.text();
    let ghost before = out@;
    proof {
        assert(out@.take(before.len() as int) =~= before);
    }
    let range = range_of(&byte_range);
    let spans = match run_query(QUERY_SRC, syntax, range) {
        Some(spans) => spans,
        None => {
            proof {
                assert(out@.skip(before.len() as int) =~= Seq::<ColorMatch>::empty());
            }
            return ;
        },
    };
    let mut found = matches_from_captures(source, &spans);
    proof {
        let step = hex_steps(source@, spans@);
        let p = |m: ColorMatch| is_hex_match(source@, m) && in_source(source@, m);
        assert forall|i: int, m: ColorMatch| 0 <= i < spans@.len() && #[trigger] step(i, Some(m)) implies p(m) by {
            let caps = spans@[i]@;
            lemma_captured_text_from_source(source@, caps, "type"@);
            lemma_captured_text_from_source(source@, caps, "ctor"@);
            lemma_captured_text_from_source(source@, caps, "hex"@);
            assert(hex_call_value(
                captured_text(source@, caps, "type"@),
                captured_text(source@, caps, "ctor"@),
                encode_utf8(captured_text(source@, caps, "hex"@)),
            ) == Some(m.color));
        }
        lemma_made_of_all(spans@.len() as int, step, found@, p);
    }
    let ghost new = found@;
    out.append(&mut found);
    proof {
        assert(out@.take(before.len() as int) =~= before);
        assert(out@.skip(before.len() as int) =~= new);
        assert forall|i: int| before.len() <= i < out@.len() implies is_hex_match(source@, #[trigger] out@[i])
            && in_source(source@, out@[i]) by {
            assert(out@[i] == new[i - before.len()]);
        }
    }
}

} // verus!
