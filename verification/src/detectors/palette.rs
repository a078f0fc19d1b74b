//! Palette color references such as `palettes::css::TOMATO`.
use vstd::prelude::*;
use crate::detectors::{
    capture_span_named, capture_text_named, captured_span, captured_text, extends, from_source, in_source,
    is_text_span, lemma_captured_text_from_source, lemma_made_of_all, lemma_made_of_next, made_of, range_bounds, range_of, spans_view,
    CaptureSpan, ColorMatch, ColorValue, PaletteModule,
};
use crate::parser::{byte_len, query_result, run_query, span_text, SyntaxTree};
use crate::text::str_eq;

verus! {

/// Paths such as `palettes::tailwind::BLUE_500`: a constant in upper snake
/// case under a module path ending in `css`, `tailwind` or `basic`.
pub const QUERY_SRC: &'static str = r#"
(scoped_identifier
  path: (scoped_identifier
    path: (_)
    name: (identifier) @module
    (#match? @module "^(css|tailwind|basic)$"))
  name: (identifier) @name
  (#match? @name "^[A-Z][A-Z0-9_]*$")) @full
"#;

/// The palette module named `module`, if it is one.
pub open spec fn palette_module(module: Seq<char>) -> Option<PaletteModule> {
    if module == "css"@ {
        Some(PaletteModule::Css)
    } else if module == "tailwind"@ {
        Some(PaletteModule::Tailwind)
    } else if module == "basic"@ {
        Some(PaletteModule::Basic)
    } else {
        None
    }
}

/// `r` is what constant `name` of palette module `module` denotes: the
/// named color of that palette, or nothing when `module` is not a palette.
pub open spec fn denotes_palette(module: Seq<char>, name: Seq<char>, r: Option<ColorValue>) -> bool {
    match palette_module(module) {
        Some(p) => r matches Some(ColorValue::Named { palette, name: n }) && palette == Some(p)
            && n@ == name,
        None => r is None,
    }
}

/// The color that constant `name` of the palette module `module` denotes.
pub fn lookup_palette(module: &str, name: &str) -> (r: Option<ColorValue>)
    ensures
        denotes_palette(module@, name@, r),
{
    let palette = if str_eq(module, "css") {
        PaletteModule::Css
    } else if str_eq(module, "tailwind") {
        PaletteModule::Tailwind
    } else if str_eq(module, "basic") {
        PaletteModule::Basic
    } else {
        return None;
    };
    Some(ColorValue::Named { palette: Some(palette), name: name.to_owned() })
}

/// A match that a palette detection in `source` can produce: the color
/// that a module name and a constant name, each text of `source`, denote.
pub open spec fn is_palette_match(source: Seq<char>, m: ColorMatch) -> bool {
    exists|module: Seq<char>, name: Seq<char>|
        from_source(source, module) && from_source(source, name) && #[trigger] denotes_palette(
            module,
            name,
            Some(m.color),
        )
}

/// What palette detection makes of one query match with captures `caps`:
/// the color that the texts of its last `module` and `name` captures
/// denote, spanning its last `full` capture, when the module is a palette
/// and that span is text of `source`; nothing otherwise.
pub open spec fn palette_step(source: Seq<char>, caps: Seq<CaptureSpan>, r: Option<ColorMatch>) -> bool {
    let module = captured_text(source, caps, "module"@);
    let name = captured_text(source, caps, "name"@);
    let span = captured_span(caps, "full"@);
    if palette_module(module) is Some && span_text(source, span.0 as int, span.1 as int) is Some {
        r matches Some(m) && m.start_byte == span.0 && m.end_byte == span.1 && denotes_palette(
            module,
            name,
            Some(m.color),
        )
    } else {
        r is None
    }
}

/// [`palette_step`] for each of the query matches `matches`, by index.
pub open spec fn palette_steps(source: Seq<char>, matches: Seq<Vec<CaptureSpan>>) -> spec_fn(int, Option<ColorMatch>) -> bool {
    |i: int, r: Option<ColorMatch>| palette_step(source, matches[i]@, r)
}

/// The match that palette detection makes of one query match.
pub fn match_from_captures(source: &str, caps: &Vec<CaptureSpan>) -> (r: Option<ColorMatch>)
    ensures
        palette_step(source@, caps@, r),
{
    let module = capture_text_named(source, caps, "module");
    let name = capture_text_named(source, caps, "name");
    let (start, end) = capture_span_named(caps, "full");
    match lookup_palette(module, name) {
        Some(color) => if is_text_span(source, start, end) {
            Some(ColorMatch { start_byte: start, end_byte: end, color })
        } else {
            None
        },
        None => None,
    }
}

/// The matches that palette detection makes of the query matches
/// `matches` (captures as plain data), in order.
pub fn matches_from_captures(source: &str, matches: &Vec<Vec<CaptureSpan>>) -> (res: Vec<ColorMatch>)
    ensures
        made_of(matches@.len() as int, palette_steps(source@, matches@), res@),
{
    let mut res: Vec<ColorMatch> = Vec::new();
    let mut m: usize = 0;
    while m < matches.len()
        invariant
            m <= matches@.len(),
            made_of(m as int, palette_steps(source@, matches@), res@),
        decreases matches@.len() - m,
    {
        let r = match_from_captures(source, &matches[m]);
        proof {
            lemma_made_of_next(m as int, palette_steps(source@, matches@), res@, r);
        }
        if let Some(x) = r {
            res.push(x);
        }
        m = m + 1;
    }
    res
}

/// What palette detection finds in `source`, within the byte range `range`
/// when one is given: what [`matches_from_captures`] makes of the matches
/// of the query [`QUERY_SRC`] over the parse of `source`.
pub open spec fn palette_found(source: Seq<char>, range: (usize, usize), found: Seq<ColorMatch>) -> bool {
    match query_result(QUERY_SRC@, source, range) {
        Some(qc) => exists|spans: Seq<Vec<CaptureSpan>>|
            spans_view(spans) == qc && #[trigger] made_of(spans.len() as int, palette_steps(source, spans), found),
        None => found.len() == 0,
    }
}

/// Scan the parsed text `syntax` for palette color references, within
/// `byte_range` when one is given, and append a [`ColorMatch`] for each to
/// `out`.
pub fn detect(syntax: &SyntaxTree, byte_range: Option<std::ops::Range<usize>>, out: &mut Vec<ColorMatch>)
    ensures
        extends(old(out)@, final(out)@),
        palette_found(syntax.content(), range_bounds(byte_range), final(out)@.skip(old(out)@.len() as int)),
        forall|i: int|
            old(out)@.len() <= i < final(out)@.len() ==> is_palette_match(syntax.content(), #[trigger] final(out)@[i]),
        forall|i: int|
            old(out)@.len() <= i < final(out)@.len() ==> in_source(syntax.content(), #[trigger] final(out)@[i]),
{
    let source = syntax.text();
    let ghost before = out@;
    proof {
        assert(out@.take(before.len() as int) =~= before);
    }
    let range = range_of(&byte_range);
    let spans = match run_query(QUERY_SRC, syntax, range) {
        Some(spans) => spans,
        None => {
            proof {
                assert(out@.skip(before.len() as int) =~= Seq::<ColorMatch>::empty());
            }
            return ;
        },
    };
    let mut found = matches_from_captures(source, &spans);
    proof {
        let step = palette_steps(source@, spans@);
        let p = |m: ColorMatch| is_palette_match(source@, m) && in_source(source@, m);
        assert forall|i: int, m: ColorMatch| 0 <= i < spans@.len() && #[trigger] step(i, Some(m)) implies p(m) by {
            let caps = spans@[i]@;
            lemma_captured_text_from_source(source@, caps, "module"@);
            lemma_captured_text_from_source(source@, caps, "name"@);
            assert(denotes_palette(
                captured_text(source@, caps, "module"@),
                captured_text(source@, caps, "name"@),
                Some(m.color),
            ));
        }
        lemma_made_of_all(spans@.len() as int, step, found@, p);
    }
    let ghost new = found@;
    out.append(&mut found);
    proof {
        assert(out@.take(before.len() as int) =~= before);
        assert(out@.skip(before.len() as int) =~= new);
        assert forall|i: int| before.len() <= i < out@.len() implies is_palette_match(source@, #[trigger] out@[i])
            && in_source(source@, out@[i]) by {
            assert(out@[i] == new[i - before.len()]);
        }
    }
}

} // verus!
