//! Color literals found in Rust source, and the merge of the matches of the
//! individual detectors.
use vstd::prelude::*;
use crate::color::Rgba8;
use crate::parser::{byte_len, span_text, text_between, SyntaxTree};
use crate::text::str_eq;

pub mod bevy_const;
pub mod bevy_ctor;
pub mod bevy_hex;
pub mod palette;

verus! {

/// The color space a constructor's numeric arguments are given in.
#[derive(Clone, Copy, Debug, PartialEq, Eq, Structural)]
pub enum ColorSpace {
    /// sRGB components in `[0, 1]`.
    Srgb,
    /// Linear-light RGB components, shown through the sRGB transfer curve.
    LinearSrgb,
    /// sRGB components in `[0, 255]`, rounded and clamped to bytes.
    SrgbU8,
    /// Hue (degrees), saturation, lightness.
    Hsl,
    /// Hue (degrees), saturation, value.
    Hsv,
    /// Hue (degrees), whiteness, blackness.
    Hwb,
    /// Oklab lightness and `a`/`b` axes.
    Oklab,
    /// Oklch lightness, chroma, hue (degrees).
    Oklch,
}

/// Where a constructor's alpha comes from.
#[derive(Clone, Copy, Debug, PartialEq, Eq, Structural)]
pub enum AlphaArg {
    /// Fully opaque.
    Opaque,
    /// The fourth numeric argument, fully opaque when there is none.
    FourthArg,
}

/// How a constructor call's numeric arguments make a color: the first three
/// arguments in `space`, alpha as `alpha` says.
#[derive(Clone, Copy, Debug, PartialEq, Eq, Structural)]
pub struct CtorPlan {
    /// Color space of the first three arguments.
    pub space: ColorSpace,
    /// Source of the alpha channel.
    pub alpha: AlphaArg,
}

/// A named-color palette module of Bevy (`palettes::css` and so on).
#[derive(Clone, Copy, Debug, PartialEq, Eq, Structural)]
pub enum PaletteModule {
    /// `palettes::css`.
    Css,
    /// `palettes::tailwind`.
    Tailwind,
    /// `palettes::basic`.
    Basic,
}

/// A numeric constructor argument: the decimal text of a literal (digit
/// separators and type suffix removed), negated when `negative`.
#[derive(Debug, PartialEq)]
pub struct NumberArg {
    /// The argument is the negation of the literal.
    pub negative: bool,
    /// Decimal text that `str::parse::<f32>` accepts.
    pub literal: String,
}

/// The color a detected expression denotes.
#[derive(Debug, PartialEq)]
pub enum ColorValue {
    /// Opaque white (`Color::WHITE`).
    White,
    /// Opaque black (`Color::BLACK`).
    Black,
    /// Fully transparent black (`Color::NONE`).
    Transparent,
    /// A color given by 8-bit channels (a hex literal).
    Srgba8(Rgba8),
    /// A color named by a palette constant: the palette module it was
    /// written with (if any) and the constant's name.
    Named {
        /// Palette module of the path, if the path named one.
        palette: Option<PaletteModule>,
        /// Name of the constant, such as `TOMATO`.
        name: String,
    },
    /// A constructor call with the numeric arguments that make the color.
    Constructor {
        /// How the arguments make the color.
        plan: CtorPlan,
        /// The arguments used.
        args: CtorArgs,
    },
}

/// The numeric arguments of a constructor call that make its color: the
/// first three, and the fourth when the constructor takes alpha from it.
#[derive(Debug, PartialEq)]
pub struct CtorArgs {
    /// First argument.
    pub first: NumberArg,
    /// Second argument.
    pub second: NumberArg,
    /// Third argument.
    pub third: NumberArg,
    /// Fourth argument, for constructors whose alpha is the fourth argument
    /// (`None` when the call has only three numeric arguments or the
    /// constructor is opaque).
    pub alpha: Option<NumberArg>,
}

/// A color detected at a byte range within the source text.
#[derive(Debug, PartialEq)]
pub struct ColorMatch {
    /// Inclusive start byte offset in the source string.
    pub start_byte: usize,
    /// Exclusive end byte offset in the source string.
    pub end_byte: usize,
    /// The color the expression denotes.
    pub color: ColorValue,
}

impl Clone for NumberArg {
    fn clone(&self) -> (res: Self)
        ensures
            res == *self,
    {
        NumberArg { negative: self.negative, literal: self.literal.clone() }
    }
}

impl Clone for ColorValue {
    fn clone(&self) -> (res: Self)
        ensures
            res == *self,
    {
        match self {
            ColorValue::White => ColorValue::White,
            ColorValue::Black => ColorValue::Black,
            ColorValue::Transparent => ColorValue::Transparent,
            ColorValue::Srgba8(c) => ColorValue::Srgba8(*c),
            ColorValue::Named { palette, name } => ColorValue::Named { palette: *palette, name: name.clone() },
            ColorValue::Constructor { plan, args } => ColorValue::Constructor { plan: *plan, args: args.clone() },
        }
    }
}

impl Clone for CtorArgs {
    fn clone(&self) -> (res: Self)
        ensures
            res == *self,
    {
        let alpha = match &self.alpha {
            Some(a) => Some(a.clone()),
            None => None,
        };
        CtorArgs { first: self.first.clone(), second: self.second.clone(), third: self.third.clone(), alpha }
    }
}

impl Clone for ColorMatch {
    fn clone(&self) -> (res: Self)
        ensures
            res == *self,
    {
        ColorMatch { start_byte: self.start_byte, end_byte: self.end_byte, color: self.color.clone() }
    }
}

/// `a`'s range comes before `b`'s (by start, then by end).
pub open spec fn key_lt(a: ColorMatch, b: ColorMatch) -> bool {
    a.start_byte < b.start_byte || (a.start_byte == b.start_byte && a.end_byte < b.end_byte)
}

/// `a` and `b` cover the same byte range.
pub open spec fn same_range(a: ColorMatch, b: ColorMatch) -> bool {
    a.start_byte == b.start_byte && a.end_byte == b.end_byte
}

/// The ranges of `r` are strictly increasing.
pub open spec fn strictly_ordered(r: Seq<ColorMatch>) -> bool {
    forall|a: int, b: int| 0 <= a < b < r.len() ==> key_lt(#[trigger] r[a], #[trigger] r[b])
}

/// `s[i]` is the first match of `s` from index `lo` on with its range.
pub open spec fn first_from(s: Seq<ColorMatch>, lo: int, i: int) -> bool {
    lo <= i < s.len() && forall|j: int| lo <= j < i ==> !same_range(#[trigger] s[j], s[i])
}

/// Some match of `r` covers the range of `m`.
pub open spec fn has_range(r: Seq<ColorMatch>, m: ColorMatch) -> bool {
    exists|k: int| 0 <= k < r.len() && same_range(#[trigger] r[k], m)
}

/// `m` is the first match of `s` (from index `lo` on) with its range.
pub open spec fn is_first_from(s: Seq<ColorMatch>, lo: int, m: ColorMatch) -> bool {
    exists|i: int| #[trigger] first_from(s, lo, i) && s[i] == m
}

/// `r` is `s` ordered by range with one match per range: the first of `s`
/// with that range.
pub open spec fn deduplicated(r: Seq<ColorMatch>, s: Seq<ColorMatch>) -> bool {
    &&& strictly_ordered(r)
    &&& forall|i: int| 0 <= i < s.len() ==> has_range(r, #[trigger] s[i])
    &&& forall|k: int| 0 <= k < r.len() ==> is_first_from(s, 0, #[trigger] r[k])
}

/// The invariant of [`dedupe`] after the matches of `s` from index `lo` on
/// have been merged into `r`.
spec fn merged(r: Seq<ColorMatch>, s: Seq<ColorMatch>, lo: int) -> bool {
    &&& strictly_ordered(r)
    &&& forall|idx: int| lo <= idx < s.len() ==> has_range(r, #[trigger] s[idx])
    &&& forall|k: int| 0 <= k < r.len() ==> is_first_from(s, lo, #[trigger] r[k])
}

proof fn lemma_merge_replace(old_r: Seq<ColorMatch>, s: Seq<ColorMatch>, lo: int, p: int)
    requires
        0 < lo <= s.len(),
        0 <= p < old_r.len(),
        merged(old_r, s, lo),
        same_range(old_r[p], s[lo - 1]),
    ensures
        merged(old_r.update(p, s[lo - 1]), s, lo - 1),
{
    let r = old_r.update(p, s[lo - 1]);
    let x = s[lo - 1];
    assert(first_from(s, lo - 1, lo - 1));
    assert forall|a: int, b: int| 0 <= a < b < r.len() implies key_lt(#[trigger] r[a], #[trigger] r[b]) by {
        assert(key_lt(old_r[a], old_r[b]));
    }
    assert forall|k: int| 0 <= k < r.len() implies is_first_from(s, lo - 1, #[trigger] r[k]) by {
        if k != p {
            let idx = choose|idx: int| #[trigger] first_from(s, lo, idx) && s[idx] == old_r[k];
            if k < p {
                assert(key_lt(old_r[k], old_r[p]));
            } else {
                assert(key_lt(old_r[p], old_r[k]));
            }
            assert(first_from(s, lo - 1, idx));
        }
    }
    assert forall|idx: int| lo - 1 <= idx < s.len() implies has_range(r, #[trigger] s[idx]) by {
        if idx == lo - 1 {
            assert(same_range(r[p], s[idx]));
        } else {
            let k = choose|k: int| 0 <= k < old_r.len() && same_range(#[trigger] old_r[k], s[idx]);
            assert(same_range(r[k], s[idx]));
        }
    }
}

proof fn lemma_insert_ordered(old_r: Seq<ColorMatch>, x: ColorMatch, p: int)
    requires
        0 <= p <= old_r.len(),
        strictly_ordered(old_r),
        forall|k: int| 0 <= k < p ==> key_lt(#[trigger] old_r[k], x),
        p < old_r.len() ==> !key_lt(old_r[p], x) && !same_range(old_r[p], x),
    ensures
        strictly_ordered(old_r.insert(p, x)),
{
    let r = old_r.insert(p, x);
    assert forall|a: int, b: int| 0 <= a < b < r.len() implies key_lt(#[trigger] r[a], #[trigger] r[b]) by {
        if b < p {
            assert(r[a] == old_r[a] && r[b] == old_r[b]);
        } else if a < p && b == p {
            assert(r[a] == old_r[a]);
        } else if a == p && b > p {
            assert(r[b] == old_r[b - 1]);
            if b - 1 > p {
                assert(key_lt(old_r[p], old_r[b - 1]));
            }
        } else if a < p && b > p {
            assert(r[a] == old_r[a]);
            assert(r[b] == old_r[b - 1]);
            assert(key_lt(old_r[a], x));
            if b - 1 > p {
                assert(key_lt(old_r[p], old_r[b - 1]));
            }
        } else {
            assert(r[a] == old_r[a - 1]);
            assert(r[b] == old_r[b - 1]);
        }
    }
}

proof fn lemma_insert_firsts(old_r: Seq<ColorMatch>, s: Seq<ColorMatch>, lo: int, p: int)
    requires
        0 < lo <= s.len(),
        0 <= p <= old_r.len(),
        merged(old_r, s, lo),
        forall|k: int| 0 <= k < p ==> key_lt(#[trigger] old_r[k], s[lo - 1]),
        p < old_r.len() ==> !key_lt(old_r[p], s[lo - 1]) && !same_range(old_r[p], s[lo - 1]),
    ensures
        forall|k: int|
            0 <= k < old_r.len() + 1 ==> is_first_from(s, lo - 1, #[trigger] old_r.insert(p, s[lo - 1])[k]),
{
    let x = s[lo - 1];
    let r = old_r.insert(p, x);
    assert(first_from(s, lo - 1, lo - 1));
    assert forall|k: int| 0 <= k < r.len() implies is_first_from(s, lo - 1, #[trigger] r[k]) by {
        if k != p {
            let ok = if k < p { k } else { k - 1 };
            assert(r[k] == old_r[ok]);
            let idx = choose|idx: int| #[trigger] first_from(s, lo, idx) && s[idx] == old_r[ok];
            if ok > p {
                assert(key_lt(old_r[p], old_r[ok]));
            }
            assert(!same_range(x, old_r[ok]));
            assert(first_from(s, lo - 1, idx));
        }
    }
}

proof fn lemma_merge_insert(old_r: Seq<ColorMatch>, s: Seq<ColorMatch>, lo: int, p: int)
    requires
        0 < lo <= s.len(),
        0 <= p <= old_r.len(),
        merged(old_r, s, lo),
        forall|k: int| 0 <= k < p ==> key_lt(#[trigger] old_r[k], s[lo - 1]),
        p < old_r.len() ==> !key_lt(old_r[p], s[lo - 1]) && !same_range(old_r[p], s[lo - 1]),
    ensures
        merged(old_r.insert(p, s[lo - 1]), s, lo - 1),
{
    let x = s[lo - 1];
    let r = old_r.insert(p, x);
    lemma_insert_ordered(old_r, x, p);
    lemma_insert_firsts(old_r, s, lo, p);
    assert forall|idx: int| lo - 1 <= idx < s.len() implies has_range(r, #[trigger] s[idx]) by {
        if idx == lo - 1 {
            assert(same_range(r[p], s[idx]));
        } else {
            let k = choose|k: int| 0 <= k < old_r.len() && same_range(#[trigger] old_r[k], s[idx]);
            if k < p {
                assert(same_range(r[k], s[idx]));
            } else {
                assert(same_range(r[k + 1], s[idx]));
            }
        }
    }
}

/// Order `matches` by range and keep, for each range, only the first match
/// that covered it.
pub fn dedupe(matches: &mut Vec<ColorMatch>)
    ensures
        deduplicated(final(matches)@, old(matches)@),
{
    let ghost s = matches@;
    let n = matches.len();
    let mut r: Vec<ColorMatch> = Vec::new();
    let mut i = n;
    while i > 0
        invariant
            i <= n,
            n == s.len(),
            matches@ == s.take(i as int),
            merged(r@, s, i as int),
        decreases i,
    {
        let x = matches.pop().unwrap();
        proof {
            assert(x == s[i - 1]);
            assert(matches@ =~= s.take(i - 1));
        }
        let mut p: usize = 0;
        while p < r.len() && (r[p].start_byte < x.start_byte || (r[p].start_byte == x.start_byte
            && r[p].end_byte < x.end_byte))
            invariant
                p <= r.len(),
                forall|k: int| 0 <= k < p ==> key_lt(#[trigger] r@[k], x),
            decreases r.len() - p,
        {
            p = p + 1;
        }
        let ghost old_r = r@;
        if p < r.len() && r[p].start_byte == x.start_byte && r[p].end_byte == x.end_byte {
            proof {
                lemma_merge_replace(old_r, s, i as int, p as int);
            }
            r.set(p, x);
        } else {
            proof {
                lemma_merge_insert(old_r, s, i as int, p as int);
            }
            r.insert(p, x);
        }
        i = i - 1;
    }
    proof {
        assert(deduplicated(r@, s));
    }
    *matches = r;
}

/// `new` is `old` with further matches appended.
pub open spec fn extends(old: Seq<ColorMatch>, new: Seq<ColorMatch>) -> bool {
    old.len() <= new.len() && new.take(old.len() as int) == old
}

/// The bytes `m` covers are text of `source`: they lie in it and start
/// and end on character boundaries.
pub open spec fn in_source(source: Seq<char>, m: ColorMatch) -> bool {
    span_text(source, m.start_byte as int, m.end_byte as int) is Some
}

/// `t` is empty or the text of some span of `source` that starts and ends
/// on character boundaries.
pub open spec fn from_source(source: Seq<char>, t: Seq<char>) -> bool {
    t.len() == 0 || exists|a: int, b: int| span_text(source, a, b) == Some(t)
}

/// One capture of a query match as plain data: the capture's name and the
/// bytes of the source its node spans.
pub struct CaptureSpan {
    /// Name of the capture (`type` for `@type`).
    pub name: String,
    /// First byte of the captured node.
    pub start: usize,
    /// End byte (exclusive) of the captured node.
    pub end: usize,
}

/// The last capture of `caps` named `name`, if any.
pub open spec fn last_capture(caps: Seq<CaptureSpan>, name: Seq<char>) -> Option<CaptureSpan>
    decreases caps.len(),
{
    if caps.len() == 0 {
        None
    } else if caps.last().name@ == name {
        Some(caps.last())
    } else {
        last_capture(caps.drop_last(), name)
    }
}

/// Index of the last capture of `caps` named `name`, if any.
pub open spec fn last_index(caps: Seq<CaptureSpan>, name: Seq<char>) -> Option<int>
    decreases caps.len(),
{
    if caps.len() == 0 {
        None
    } else if caps.last().name@ == name {
        Some(caps.len() - 1)
    } else {
        last_index(caps.drop_last(), name)
    }
}

/// The text of the last capture of `caps` named `name`: empty when there
/// is none or its span is not text of `source`.
pub open spec fn captured_text(source: Seq<char>, caps: Seq<CaptureSpan>, name: Seq<char>) -> Seq<char> {
    match last_capture(caps, name) {
        Some(c) => match span_text(source, c.start as int, c.end as int) {
            Some(t) => t,
            None => Seq::empty(),
        },
        None => Seq::empty(),
    }
}

/// The span of the last capture of `caps` named `name`, or `(0, 0)` when
/// there is none.
pub open spec fn captured_span(caps: Seq<CaptureSpan>, name: Seq<char>) -> (usize, usize) {
    match last_capture(caps, name) {
        Some(c) => (c.start, c.end),
        None => (0, 0),
    }
}

/// The text of a capture is text of `source` (or empty).
pub proof fn lemma_captured_text_from_source(source: Seq<char>, caps: Seq<CaptureSpan>, name: Seq<char>)
    ensures
        from_source(source, captured_text(source, caps, name)),
{
    if let Some(c) = last_capture(caps, name) {
        if let Some(t) = span_text(source, c.start as int, c.end as int) {
            assert(span_text(source, c.start as int, c.end as int) == Some(t));
        }
    }
}

/// `res` lists what a detector makes of `n` query matches, in order: for
/// match `i`, `step(i, Some(m))` when it makes the match `m`, and
/// `step(i, None)` when it makes none.
pub open spec fn made_of(n: int, step: spec_fn(int, Option<ColorMatch>) -> bool, res: Seq<ColorMatch>) -> bool
    decreases n,
{
    if n <= 0 {
        res.len() == 0
    } else {
        ||| step(n - 1, None) && made_of(n - 1, step, res)
        ||| res.len() > 0 && step(n - 1, Some(res.last())) && made_of(n - 1, step, res.drop_last())
    }
}

/// Every match made of query matches by `step` has property `p`, when
/// every match that `step` makes has it.
pub proof fn lemma_made_of_all(
    n: int,
    step: spec_fn(int, Option<ColorMatch>) -> bool,
    res: Seq<ColorMatch>,
    p: spec_fn(ColorMatch) -> bool,
)
    requires
        made_of(n, step, res),
        forall|i: int, m: ColorMatch| 0 <= i < n && #[trigger] step(i, Some(m)) ==> p(m),
    ensures
        forall|k: int| 0 <= k < res.len() ==> p(#[trigger] res[k]),
    decreases n,
{
    if n > 0 {
        if step(n - 1, None) && made_of(n - 1, step, res) {
            lemma_made_of_all(n - 1, step, res, p);
        } else {
            lemma_made_of_all(n - 1, step, res.drop_last(), p);
            assert forall|k: int| 0 <= k < res.len() implies p(#[trigger] res[k]) by {
                if k < res.len() - 1 {
                    assert(res[k] == res.drop_last()[k]);
                }
            }
        }
    }
}

/// Appending `m` (or nothing) for query match `n` extends what was made of
/// the first `n` matches.
pub proof fn lemma_made_of_next(
    n: int,
    step: spec_fn(int, Option<ColorMatch>) -> bool,
    res: Seq<ColorMatch>,
    r: Option<ColorMatch>,
)
    requires
        0 <= n,
        made_of(n, step, res),
        step(n, r),
    ensures
        made_of(
            n + 1,
            step,
            match r {
                Some(m) => res.push(m),
                None => res,
            },
        ),
{
    if let Some(m) = r {
        assert(res.push(m).drop_last() =~= res);
    }
}

/// Index of the last capture of `caps` named `name`.
pub fn find_capture(caps: &Vec<CaptureSpan>, name: &str) -> (r: Option<usize>)
    ensures
        r matches Some(i) ==> i < caps@.len() && last_capture(caps@, name@) == Some(caps@[i as int])
            && last_index(caps@, name@) == Some(i as int),
        r is None ==> last_capture(caps@, name@) is None && last_index(caps@, name@) is None,
{
    let mut k = caps.len();
    assert(caps@.take(k as int) =~= caps@);
    while k > 0
        invariant
            k <= caps@.len(),
            last_capture(caps@, name@) == last_capture(caps@.take(k as int), name@),
            last_index(caps@, name@) == last_index(caps@.take(k as int), name@),
        decreases k,
    {
        let ghost t = caps@.take(k as int);
        assert(t.drop_last() =~= caps@.take(k - 1));
        assert(t.last() == caps@[k - 1]);
        if str_eq(caps[k - 1].name.as_str(), name) {
            return Some(k - 1);
        }
        k = k - 1;
    }
    None
}

/// The text of the last capture of `caps` named `name` (see
/// [`captured_text`]).
pub fn capture_text_named<'a>(source: &'a str, caps: &Vec<CaptureSpan>, name: &str) -> (r: &'a str)
    ensures
        r@ == captured_text(source@, caps@, name@),
        from_source(source@, r@),
{
    proof {
        reveal_strlit("");
    }
    match find_capture(caps, name) {
        Some(i) => match text_between(source, caps[i].start, caps[i].end) {
            Some(t) => t,
            None => "",
        },
        None => "",
    }
}

/// The span of the last capture of `caps` named `name` (see
/// [`captured_span`]).
pub fn capture_span_named(caps: &Vec<CaptureSpan>, name: &str) -> (r: (usize, usize))
    ensures
        r == captured_span(caps@, name@),
{
    match find_capture(caps, name) {
        Some(i) => (caps[i].start, caps[i].end),
        None => (0, 0),
    }
}

/// The query captures `spans` as plain values: name, start and end of each.
pub open spec fn spans_view(spans: Seq<Vec<CaptureSpan>>) -> Seq<Seq<(Seq<char>, usize, usize)>> {
    spans.map_values(|m: Vec<CaptureSpan>| m@.map_values(|c: CaptureSpan| (c.name@, c.start, c.end)))
}

/// The byte range a query runs over: `r`, or everything when there is none.
pub open spec fn range_bounds(r: Option<std::ops::Range<usize>>) -> (usize, usize) {
    match r {
        Some(r) => (r.start, r.end),
        None => (0, usize::MAX),
    }
}

/// The byte range a query runs over (see [`range_bounds`]).
pub(crate) fn range_of(r: &Option<std::ops::Range<usize>>) -> (o: (usize, usize))
    ensures
        o == range_bounds(*r),
{
    match r {
        Some(r) => (r.start, r.end),
        None => (0, usize::MAX),
    }
}

/// Do bytes `start..end` lie in `source` on character boundaries?
pub(crate) fn is_text_span(source: &str, start: usize, end: usize) -> (r: bool)
    ensures
        r == (span_text(source@, start as int, end as int) is Some),
{
    text_between(source, start, end).is_some()
}

fn copy_range(r: &Option<std::ops::Range<usize>>) -> (c: Option<std::ops::Range<usize>>)
    ensures
        c == *r,
{
    match r {
        Some(r) => Some(std::ops::Range { start: r.start, end: r.end }),
        None => None,
    }
}

/// `res` is what merging the matches that the four detectors find in
/// `source` (within the byte range `range`) gives: constructor calls
/// (argument lists copied `depth` levels deep), then constants, then hex
/// strings, then palette references, ordered by range with the first match
/// of each range kept.
pub open spec fn detected(source: Seq<char>, depth: nat, range: (usize, usize), res: Seq<ColorMatch>) -> bool {
    exists|c: Seq<ColorMatch>, k: Seq<ColorMatch>, h: Seq<ColorMatch>, p: Seq<ColorMatch>|
        {
            &&& bevy_ctor::ctor_found(source, depth, range, c)
            &&& bevy_const::const_found(source, range, k)
            &&& bevy_hex::hex_found(source, range, h)
            &&& palette::palette_found(source, range, p)
            &&& #[trigger] deduplicated(res, c + k + h + p)
        }
}

/// Detect all color matches in the whole of the parsed text `syntax`.
pub fn detect_all(syntax: &SyntaxTree) -> (res: Vec<ColorMatch>)
    ensures
        detected(syntax.content(), byte_len(syntax.content()), range_bounds(None), res@),
        forall|i: int| 0 <= i < res@.len() ==> in_source(syntax.content(), #[trigger] res@[i]),
{
    detect_in_range(syntax, None)
}

/// Detect color matches within an optional byte range of `source`: the
/// matches of every detector, ordered by range, one per range (the first
/// detector's).
///
/// When `byte_range` is `Some`, only nodes overlapping that range are
/// visited. The returned matches still carry absolute byte offsets.
pub fn detect_in_range(syntax: &SyntaxTree, byte_range: Option<std::ops::Range<usize>>) -> (res: Vec<ColorMatch>)
    ensures
        detected(syntax.content(), byte_len(syntax.content()), range_bounds(byte_range), res@),
        forall|i: int| 0 <= i < res@.len() ==> in_source(syntax.content(), #[trigger] res@[i]),
{
    let source = syntax.text();
    let mut out: Vec<ColorMatch> = Vec::new();
    bevy_ctor::detect(syntax, copy_range(&byte_range), &mut out);
    let ghost c = out@;
    bevy_const::detect(syntax, copy_range(&byte_range), &mut out);
    let ghost ck = out@;
    bevy_hex::detect(syntax, copy_range(&byte_range), &mut out);
    let ghost ckh = out@;
    palette::detect(syntax, byte_range, &mut out);
    let ghost all = out@;
    proof {
        let k = ck.skip(c.len() as int);
        let h = ckh.skip(ck.len() as int);
        let p = all.skip(ckh.len() as int);
        assert(c =~= c.take(c.len() as int));
        assert(ck =~= c + k);
        assert(ckh =~= c + k + h);
        assert(all =~= c + k + h + p);
        assert(c.skip(0) =~= c);
        assert(bevy_ctor::ctor_found(source@, byte_len(source@), range_bounds(byte_range), c));
        assert(bevy_const::const_found(source@, range_bounds(byte_range), k));
        assert(bevy_hex::hex_found(source@, range_bounds(byte_range), h));
        assert(palette::palette_found(source@, range_bounds(byte_range), p));
    }
    dedupe(&mut out);
    proof {
        let k = ck.skip(c.len() as int);
        let h = ckh.skip(ck.len() as int);
        let p = all.skip(ckh.len() as int);
        assert(deduplicated(out@, c + k + h + p));
        assert forall|i: int| 0 <= i < out@.len() implies in_source(source@, #[trigger] out@[i]) by {
            assert(is_first_from(all, 0, out@[i]));
            let j = choose|j: int| #[trigger] first_from(all, 0, j) && all[j] == out@[i];
            assert(in_source(source@, all[j]));
        }
    }
    out
}

} // verus!
