//! Bevy color constructor calls such as `Color::srgb(1.0, 0.5, 0.0)`.
use vstd::prelude::*;
use crate::detectors::{
    capture_span_named, capture_text_named, captured_span, captured_text, extends, find_capture,
    from_source, in_source, is_text_span, last_capture, lemma_captured_text_from_source, lemma_made_of_all,
    lemma_made_of_next, made_of, range_bounds, range_of, spans_view, AlphaArg, CaptureSpan, ColorMatch, ColorSpace, ColorValue, CtorArgs,
    CtorPlan, NumberArg,
};
use crate::literal::{is_decimal_float, literal_decimal, parse_numeric_literal};
use crate::parser::{
    byte_len, node_shape, query_result, run_query, shape_at, span_text, text_between, SyntaxTree,
};
use crate::text::{str_eq, str_in};

verus! {

/// Calls of a function given by a one-segment path, such as
/// `Color::srgb(..)`, with the call, type, constructor and argument list
/// captured.
pub const QUERY_SRC: &'static str = r"
(call_expression
  function: (scoped_identifier
    path: (identifier) @type
    name: (identifier) @ctor)
  arguments: (arguments) @args) @call
";

/// The Bevy color types whose constructors are recognized.
pub open spec fn is_color_type(ty: Seq<char>) -> bool {
    ty == "Color"@ || ty == "Srgba"@ || ty == "LinearRgba"@ || ty == "Hsla"@ || ty == "Hsva"@
        || ty == "Hwba"@ || ty == "Laba"@ || ty == "Lcha"@ || ty == "Oklaba"@ || ty == "Oklcha"@
        || ty == "Xyza"@
}

/// How the constructor `ctor` of type `ty` makes a color from its
/// arguments, if it is a recognized color constructor.
pub open spec fn ctor_plan(ty: Seq<char>, ctor: Seq<char>) -> Option<CtorPlan> {
    let color = ty == "Color"@;
    let srgba = ty == "Srgba"@;
    let linear = ty == "LinearRgba"@;
    if (color && (ctor == "srgb"@ || ctor == "linear_rgb"@)) || ((srgba || linear) && ctor == "rgb"@) {
        Some(CtorPlan {
            space: if linear || ctor == "linear_rgb"@ { ColorSpace::LinearSrgb } else { ColorSpace::Srgb },
            alpha: AlphaArg::Opaque,
        })
    } else if (color && (ctor == "srgba"@ || ctor == "linear_rgba"@)) || ((srgba || linear) && ctor == "new"@) {
        Some(CtorPlan {
            space: if linear || ctor == "linear_rgba"@ { ColorSpace::LinearSrgb } else { ColorSpace::Srgb },
            alpha: AlphaArg::FourthArg,
        })
    } else if (color && ctor == "srgb_u8"@) || (srgba && ctor == "rgb_u8"@) {
        Some(CtorPlan { space: ColorSpace::SrgbU8, alpha: AlphaArg::Opaque })
    } else if (color && ctor == "srgba_u8"@) || (srgba && ctor == "rgba_u8"@) {
        Some(CtorPlan { space: ColorSpace::SrgbU8, alpha: AlphaArg::FourthArg })
    } else if (color || ty == "Hsla"@) && ctor == "hsl"@ {
        Some(CtorPlan { space: ColorSpace::Hsl, alpha: AlphaArg::Opaque })
    } else if (color && ctor == "hsla"@) || (ty == "Hsla"@ && ctor == "new"@) {
        Some(CtorPlan { space: ColorSpace::Hsl, alpha: AlphaArg::FourthArg })
    } else if (color || ty == "Hsva"@) && ctor == "hsv"@ {
        Some(CtorPlan { space: ColorSpace::Hsv, alpha: AlphaArg::Opaque })
    } else if ty == "Hsva"@ && ctor == "new"@ {
        Some(CtorPlan { space: ColorSpace::Hsv, alpha: AlphaArg::FourthArg })
    } else if color && ctor == "hwb"@ {
        Some(CtorPlan { space: ColorSpace::Hwb, alpha: AlphaArg::Opaque })
    } else if ty == "Hwba"@ && ctor == "new"@ {
        Some(CtorPlan { space: ColorSpace::Hwb, alpha: AlphaArg::FourthArg })
    } else if color && ctor == "oklab"@ {
        Some(CtorPlan { space: ColorSpace::Oklab, alpha: AlphaArg::Opaque })
    } else if ty == "Oklaba"@ && ctor == "new"@ {
        Some(CtorPlan { space: ColorSpace::Oklab, alpha: AlphaArg::FourthArg })
    } else if color && ctor == "oklch"@ {
        Some(CtorPlan { space: ColorSpace::Oklch, alpha: AlphaArg::Opaque })
    } else if ty == "Oklcha"@ && ctor == "new"@ {
        Some(CtorPlan { space: ColorSpace::Oklch, alpha: AlphaArg::FourthArg })
    } else {
        None
    }
}

/// The color the call `ty::ctor(..)` with numeric arguments `nums`
/// denotes: a recognized constructor with at least three numeric arguments,
/// made from the first three and, when the constructor takes alpha from it,
/// the fourth.
pub open spec fn ctor_color(ty: Seq<char>, ctor: Seq<char>, nums: Seq<NumberArg>) -> Option<ColorValue> {
    match ctor_plan(ty, ctor) {
        Some(plan) => if nums.len() >= 3 {
            Some(
                ColorValue::Constructor {
                    plan,
                    args: CtorArgs {
                        first: nums[0],
                        second: nums[1],
                        third: nums[2],
                        alpha: if plan.alpha == AlphaArg::FourthArg && nums.len() >= 4 {
                            Some(nums[3])
                        } else {
                            None
                        },
                    },
                },
            )
        } else {
            None
        },
        None => None,
    }
}

/// How constructor `ctor` of type `ty` makes a color, if it does.
pub fn plan_for(ty: &str, ctor: &str) -> (r: Option<CtorPlan>)
    ensures
        r == ctor_plan(ty@, ctor@),
{
    let color = str_eq(ty, "Color");
    let srgba = str_eq(ty, "Srgba");
    let linear = str_eq(ty, "LinearRgba");
    let hsla = str_eq(ty, "Hsla");
    let hsva = str_eq(ty, "Hsva");
    if (color && (str_eq(ctor, "srgb") || str_eq(ctor, "linear_rgb"))) || ((srgba || linear)
        && str_eq(ctor, "rgb")) {
        let space = if linear || str_eq(ctor, "linear_rgb") {
            ColorSpace::LinearSrgb
        } else {
            ColorSpace::Srgb
        };
        Some(CtorPlan { space, alpha: AlphaArg::Opaque })
    } else if (color && (str_eq(ctor, "srgba") || str_eq(ctor, "linear_rgba"))) || ((srgba
        || linear) && str_eq(ctor, "new")) {
        let space = if linear || str_eq(ctor, "linear_rgba") {
            ColorSpace::LinearSrgb
        } else {
            ColorSpace::Srgb
        };
        Some(CtorPlan { space, alpha: AlphaArg::FourthArg })
    } else if (color && str_eq(ctor, "srgb_u8")) || (srgba && str_eq(ctor, "rgb_u8")) {
        Some(CtorPlan { space: ColorSpace::SrgbU8, alpha: AlphaArg::Opaque })
    } else if (color && str_eq(ctor, "srgba_u8")) || (srgba && str_eq(ctor, "rgba_u8")) {
        Some(CtorPlan { space: ColorSpace::SrgbU8, alpha: AlphaArg::FourthArg })
    } else if (color || hsla) && str_eq(ctor, "hsl") {
        Some(CtorPlan { space: ColorSpace::Hsl, alpha: AlphaArg::Opaque })
    } else if (color && str_eq(ctor, "hsla")) || (hsla && str_eq(ctor, "new")) {
        Some(CtorPlan { space: ColorSpace::Hsl, alpha: AlphaArg::FourthArg })
    } else if (color || hsva) && str_eq(ctor, "hsv") {
        Some(CtorPlan { space: ColorSpace::Hsv, alpha: AlphaArg::Opaque })
    } else if hsva && str_eq(ctor, "new") {
        Some(CtorPlan { space: ColorSpace::Hsv, alpha: AlphaArg::FourthArg })
    } else if color && str_eq(ctor, "hwb") {
        Some(CtorPlan { space: ColorSpace::Hwb, alpha: AlphaArg::Opaque })
    } else if str_eq(ty, "Hwba") && str_eq(ctor, "new") {
        Some(CtorPlan { space: ColorSpace::Hwb, alpha: AlphaArg::FourthArg })
    } else if color && str_eq(ctor, "oklab") {
        Some(CtorPlan { space: ColorSpace::Oklab, alpha: AlphaArg::Opaque })
    } else if str_eq(ty, "Oklaba") && str_eq(ctor, "new") {
        Some(CtorPlan { space: ColorSpace::Oklab, alpha: AlphaArg::FourthArg })
    } else if color && str_eq(ctor, "oklch") {
        Some(CtorPlan { space: ColorSpace::Oklch, alpha: AlphaArg::Opaque })
    } else if str_eq(ty, "Oklcha") && str_eq(ctor, "new") {
        Some(CtorPlan { space: ColorSpace::Oklch, alpha: AlphaArg::FourthArg })
    } else {
        None
    }
}

/// The color that the call `ty::ctor(..)` denotes, given its numeric
/// arguments `nums` in order: a recognized constructor needs at least three.
pub fn build_color(ty: &str, ctor: &str, nums: &[NumberArg]) -> (r: Option<ColorValue>)
    ensures
        r == ctor_color(ty@, ctor@, nums@),
{
    match plan_for(ty, ctor) {
        Some(plan) => if nums.len() >= 3 {
            let alpha = if plan.alpha == AlphaArg::FourthArg && nums.len() >= 4 {
                Some(nums[3].clone())
            } else {
                None
            };
            let args = CtorArgs {
                first: nums[0].clone(),
                second: nums[1].clone(),
                third: nums[2].clone(),
                alpha,
            };
            Some(ColorValue::Constructor { plan, args })
        } else {
            None
        },
        None => None,
    }
}

/// Is `ty` one of the recognized color types?
pub fn is_color_type_name(ty: &str) -> (r: bool)
    ensures
        r == is_color_type(ty@),
{
    let types = [
        "Color",
        "Srgba",
        "LinearRgba",
        "Hsla",
        "Hsva",
        "Hwba",
        "Laba",
        "Lcha",
        "Oklaba",
        "Oklcha",
        "Xyza",
    ];
    let r = str_in(ty, &types);
    proof {
        if is_color_type(ty@) {
            let k: int = if ty@ == "Color"@ {
                0
            } else if ty@ == "Srgba"@ {
                1
            } else if ty@ == "LinearRgba"@ {
                2
            } else if ty@ == "Hsla"@ {
                3
            } else if ty@ == "Hsva"@ {
                4
            } else if ty@ == "Hwba"@ {
                5
            } else if ty@ == "Laba"@ {
                6
            } else if ty@ == "Lcha"@ {
                7
            } else if ty@ == "Oklaba"@ {
                8
            } else if ty@ == "Oklcha"@ {
                9
            } else {
                10
            };
            assert(types@[k]@ == ty@);
        }
    }
    r
}

/// The argument a numeric literal node with text `text` gives, negated when
/// `negative`.
pub fn literal_arg(text: &str, negative: bool) -> (r: Option<NumberArg>)
    ensures
        r matches Some(a) ==> a.negative == negative && literal_decimal(text@) == Some(a.literal@),
        r is None ==> literal_decimal(text@) is None,
{
    match parse_numeric_literal(text) {
        Some(literal) => Some(NumberArg { negative, literal }),
        None => None,
    }
}

/// `lit` is the decimal text of a numeric literal written in `source`.
pub open spec fn literal_in_source(source: Seq<char>, lit: Seq<char>) -> bool {
    exists|t: Seq<char>| from_source(source, t) && #[trigger] literal_decimal(t) == Some(lit)
}

/// Every argument of `nums` is the decimal text of a numeric literal
/// written in `source`.
pub open spec fn args_from_source(source: Seq<char>, nums: Seq<NumberArg>) -> bool {
    forall|i: int|
        0 <= i < nums.len() ==> is_decimal_float((#[trigger] nums[i]).literal@) && literal_in_source(
            source,
            nums[i].literal@,
        )
}

/// A syntax node as plain data: its grammar kind, whether it is named, the
/// bytes it spans and, for a unary expression, its children in order.
pub struct SyntaxNode {
    /// Grammar kind, such as `float_literal`.
    pub kind: String,
    /// Named node (not an anonymous token such as `-`).
    pub named: bool,
    /// First byte.
    pub start: usize,
    /// End byte (exclusive).
    pub end: usize,
    /// The children of a unary expression (empty for other kinds).
    pub children: Vec<SyntaxNode>,
}

/// The grammar kinds of numeric literals.
pub open spec fn is_literal_kind(kind: Seq<char>) -> bool {
    kind == "float_literal"@ || kind == "integer_literal"@ || kind == "negative_literal"@
}

/// Index of the last named node of `cs`, if any.
pub open spec fn last_named(cs: Seq<SyntaxNode>) -> Option<int>
    decreases cs.len(),
{
    if cs.len() == 0 {
        None
    } else if cs.last().named {
        Some(cs.len() - 1)
    } else {
        last_named(cs.drop_last())
    }
}

/// Some anonymous node of `cs` is the token `-` in `source`.
pub open spec fn has_minus(source: Seq<char>, cs: Seq<SyntaxNode>) -> bool {
    exists|i: int|
        0 <= i < cs.len() && !cs[i].named && #[trigger] span_text(source, cs[i].start as int, cs[i].end as int)
            == Some("-"@)
}

/// The value of an argument node, as a sign and the decimal text of a
/// literal: a numeric literal (negated when `negative`), or a unary
/// expression over one, read through its last named child, where a `-`
/// token negates and other operators keep the value.
pub open spec fn number_value(source: Seq<char>, n: SyntaxNode, negative: bool) -> Option<(bool, Seq<char>)>
    decreases n,
{
    if is_literal_kind(n.kind@) {
        match span_text(source, n.start as int, n.end as int) {
            Some(t) => match literal_decimal(t) {
                Some(l) => Some((negative, l)),
                None => None,
            },
            None => None,
        }
    } else if n.kind@ == "unary_expression"@ {
        match last_named(n.children@) {
            Some(i) => if 0 <= i < n.children@.len() {
                number_value(source, n.children@[i], negative != has_minus(source, n.children@))
            } else {
                None
            },
            None => None,
        }
    } else {
        None
    }
}

/// The values of the numeric arguments among `args`, in order.
pub open spec fn numbers(source: Seq<char>, args: Seq<SyntaxNode>) -> Seq<(bool, Seq<char>)>
    decreases args.len(),
{
    if args.len() == 0 {
        Seq::empty()
    } else {
        let rest = numbers(source, args.drop_last());
        match number_value(source, args.last(), false) {
            Some(v) => rest.push(v),
            None => rest,
        }
    }
}

/// The sign and decimal text of an argument.
pub open spec fn arg_value(a: NumberArg) -> (bool, Seq<char>) {
    (a.negative, a.literal@)
}

/// The sign and decimal text of each argument of `nums`.
pub open spec fn arg_values(nums: Seq<NumberArg>) -> Seq<(bool, Seq<char>)> {
    nums.map_values(|a: NumberArg| arg_value(a))
}

proof fn lemma_number_value_from_source(source: Seq<char>, n: SyntaxNode, negative: bool)
    ensures
        number_value(source, n, negative) matches Some(v) ==> is_decimal_float(v.1) && literal_in_source(
            source,
            v.1,
        ),
    decreases n,
{
    if is_literal_kind(n.kind@) {
        if let Some(t) = span_text(source, n.start as int, n.end as int) {
            if let Some(l) = literal_decimal(t) {
                assert(span_text(source, n.start as int, n.end as int) == Some(t));
                assert(from_source(source, t));
            }
        }
    } else if n.kind@ == "unary_expression"@ {
        if let Some(i) = last_named(n.children@) {
            if 0 <= i < n.children@.len() {
                lemma_number_value_from_source(
                    source,
                    n.children@[i],
                    negative != has_minus(source, n.children@),
                );
            }
        }
    }
}

proof fn lemma_numbers_from_source(source: Seq<char>, args: Seq<SyntaxNode>)
    ensures
        forall|k: int|
            0 <= k < numbers(source, args).len() ==> is_decimal_float((#[trigger] numbers(source, args)[k]).1)
                && literal_in_source(source, numbers(source, args)[k].1),
    decreases args.len(),
{
    if args.len() > 0 {
        let rest = numbers(source, args.drop_last());
        lemma_numbers_from_source(source, args.drop_last());
        lemma_number_value_from_source(source, args.last(), false);
        assert forall|k: int| 0 <= k < numbers(source, args).len() implies is_decimal_float(
            (#[trigger] numbers(source, args)[k]).1,
        ) && literal_in_source(source, numbers(source, args)[k].1) by {
            if k < rest.len() {
                assert(numbers(source, args)[k] == rest[k]);
            }
        }
    }
}

/// Arguments with the values of the numeric arguments of `args` are decimal
/// literals written in `source`.
proof fn lemma_args_from_source(source: Seq<char>, args: Seq<SyntaxNode>, nums: Seq<NumberArg>)
    requires
        arg_values(nums) == numbers(source, args),
    ensures
        args_from_source(source, nums),
{
    lemma_numbers_from_source(source, args);
    assert forall|k: int| 0 <= k < nums.len() implies is_decimal_float((#[trigger] nums[k]).literal@)
        && literal_in_source(source, nums[k].literal@) by {
        assert(arg_values(nums)[k] == arg_value(nums[k]));
        assert(numbers(source, args)[k] == arg_value(nums[k]));
    }
}

/// Is `kind` the grammar kind of a numeric literal?
fn is_literal_kind_name(kind: &str) -> (r: bool)
    ensures
        r == is_literal_kind(kind@),
{
    str_eq(kind, "float_literal") || str_eq(kind, "integer_literal") || str_eq(kind, "negative_literal")
}

/// The numeric argument that `node` gives (see [`number_value`]).
pub fn number_arg(source: &str, node: &SyntaxNode, negative: bool) -> (r: Option<NumberArg>)
    ensures
        r matches Some(a) ==> number_value(source@, *node, negative) == Some(arg_value(a)),
        r is None ==> number_value(source@, *node, negative) is None,
    decreases node,
{
    if is_literal_kind_name(node.kind.as_str()) {
        return match text_between(source, node.start, node.end) {
            Some(text) => literal_arg(text, negative),
            None => None,
        };
    }
    if !str_eq(node.kind.as_str(), "unary_expression") {
        return None;
    }
    let cs = &node.children;
    let mut inner: Option<usize> = None;
    let mut minus = false;
    let mut k: usize = 0;
    proof {
        reveal_strlit("-");
        assert(cs@.take(0) =~= Seq::<SyntaxNode>::empty());
    }
    while k < cs.len()
        invariant
            k <= cs@.len(),
            inner == (match last_named(cs@.take(k as int)) {
                Some(i) => Some(i as usize),
                None => None::<usize>,
            }),
            last_named(cs@.take(k as int)) matches Some(i) ==> 0 <= i < k,
            minus == has_minus(source@, cs@.take(k as int)),
        decreases cs.len() - k,
    {
        let ghost before = cs@.take(k as int);
        let ghost after = cs@.take(k + 1);
        proof {
            assert(after.drop_last() =~= before);
            assert(after.last() == cs@[k as int]);
        }
        if cs[k].named {
            inner = Some(k);
        }
        let mut dash = false;
        if !cs[k].named {
            if let Some(t) = text_between(source, cs[k].start, cs[k].end) {
                dash = str_eq(t, "-");
            }
        }
        proof {
            if has_minus(source@, after) && !has_minus(source@, before) {
                let w = choose|w: int|
                    0 <= w < after.len() && !after[w].named && #[trigger] span_text(
                        source@,
                        after[w].start as int,
                        after[w].end as int,
                    ) == Some("-"@);
                if w < k {
                    assert(before[w] == after[w]);
                }
            }
            if has_minus(source@, before) {
                let w = choose|w: int|
                    0 <= w < before.len() && !before[w].named && #[trigger] span_text(
                        source@,
                        before[w].start as int,
                        before[w].end as int,
                    ) == Some("-"@);
                assert(after[w] == before[w]);
            }
            if dash {
                assert(after[k as int] == cs@[k as int]);
            }
        }
        minus = minus || dash;
        k = k + 1;
    }
    proof {
        assert(cs@.take(cs@.len() as int) =~= cs@);
    }
    match inner {
        Some(i) => number_arg(source, &cs[i], negative != minus),
        None => None,
    }
}

/// The numeric arguments among `args`, in order (see [`numbers`]).
pub fn numbers_of(source: &str, args: &Vec<SyntaxNode>) -> (nums: Vec<NumberArg>)
    ensures
        arg_values(nums@) == numbers(source@, args@),
{
    let mut nums: Vec<NumberArg> = Vec::new();
    let mut k: usize = 0;
    proof {
        assert(args@.take(0) =~= Seq::<SyntaxNode>::empty());
        assert(arg_values(nums@) =~= Seq::<(bool, Seq<char>)>::empty());
    }
    while k < args.len()
        invariant
            k <= args@.len(),
            arg_values(nums@) == numbers(source@, args@.take(k as int)),
        decreases args.len() - k,
    {
        let ghost before = args@.take(k as int);
        proof {
            assert(args@.take(k + 1).drop_last() =~= before);
            assert(args@.take(k + 1).last() == args@[k as int]);
        }
        let ghost old_nums = nums@;
        if let Some(v) = number_arg(source, &args[k], false) {
            nums.push(v);
            proof {
                assert(arg_values(nums@) =~= arg_values(old_nums).push(arg_value(v)));
            }
        }
        k = k + 1;
    }
    proof {
        assert(args@.take(args@.len() as int) =~= args@);
    }
    nums
}

/// `n` is a copy made at most `depth` levels deep: only unary expressions
/// carry children, none below the `depth`-th level, and so on down.
pub open spec fn copied_within(n: SyntaxNode, depth: nat) -> bool
    decreases n,
{
    &&& n.children@.len() > 0 ==> depth > 0 && n.kind@ == "unary_expression"@
    &&& forall|i: int|
        0 <= i < n.children@.len() ==> copied_within(#[trigger] n.children@[i], (depth - 1) as nat)
}

/// The named nodes of `cs` (kind, named flag, span), in order.
pub open spec fn named_only(cs: Seq<(Seq<char>, bool, usize, usize)>) -> Seq<(Seq<char>, bool, usize, usize)>
    decreases cs.len(),
{
    if cs.len() == 0 {
        cs
    } else if cs.last().1 {
        named_only(cs.drop_last()).push(cs.last())
    } else {
        named_only(cs.drop_last())
    }
}

/// `r` copies the node `node` (kind, named flag, span) of the parse of
/// `source`: for a unary expression and `depth > 0`, with copies
/// `depth - 1` levels deep of the children of the node [`shape_at`] finds
/// at its span; with no children otherwise.
pub open spec fn copy_of(r: SyntaxNode, source: Seq<char>, node: (Seq<char>, bool, usize, usize), depth: nat) -> bool
    decreases depth,
{
    &&& r.kind@ == node.0
    &&& r.named == node.1
    &&& r.start == node.2
    &&& r.end == node.3
    &&& if depth > 0 && node.0 == "unary_expression"@ {
        match shape_at(source, node.2, node.3) {
            Some(sh) => {
                &&& r.children@.len() == sh.1.len()
                &&& forall|i: int|
                    0 <= i < r.children@.len() ==> copy_of(#[trigger] r.children@[i], source, sh.1[i], (depth - 1) as nat)
            },
            None => r.children@.len() == 0,
        }
    } else {
        r.children@.len() == 0
    }
}

/// `r` holds a copy, `depth` levels deep, of each node of `nodes`.
pub open spec fn copies_of(
    r: Seq<SyntaxNode>,
    source: Seq<char>,
    nodes: Seq<(Seq<char>, bool, usize, usize)>,
    depth: nat,
) -> bool {
    &&& r.len() == nodes.len()
    &&& forall|i: int| 0 <= i < r.len() ==> copy_of(#[trigger] r[i], source, nodes[i], depth)
}

/// A plain-data copy of the node of kind `kind`, named flag `named` and
/// span `start..end` of the parse `syntax`, with the children of unary
/// expressions copied `depth` levels deep.
pub(crate) fn snapshot(syntax: &SyntaxTree, kind: &str, named: bool, start: usize, end: usize, depth: usize) -> (r: SyntaxNode)
    ensures
        copied_within(r, depth as nat),
        copy_of(r, syntax.content(), (kind@, named, start, end), depth as nat),
    decreases depth,
{
    let mut children: Vec<SyntaxNode> = Vec::new();
    proof {
        reveal_strlit("unary_expression");
    assert("unary_expression"@.len() == 16);
    }
    if depth > 0 && str_eq(kind, "unary_expression") {
        if let Some(sh) = node_shape(syntax, start, end) {
            let cs = &sh.1;
            let ghost v = match shape_at(syntax.content(), start, end) {
            Some(sh) => sh.1,
            None => Seq::empty(),
        };
            assert(v == cs@.map_values(|c: (String, bool, usize, usize)| (c.0@, c.1, c.2, c.3)));
            let mut k: usize = 0;
            while k < cs.len()
                invariant
                    depth > 0,
                    v == cs@.map_values(|c: (String, bool, usize, usize)| (c.0@, c.1, c.2, c.3)),
                    children@.len() == k,
                    k <= cs@.len(),
                    forall|j: int|
                        0 <= j < children@.len() ==> copied_within(#[trigger] children@[j], (depth - 1) as nat)
                            && copy_of(children@[j], syntax.content(), v[j], (depth - 1) as nat),
                decreases cs.len() - k,
            {
                assert(v[k as int] == (cs@[k as int].0@, cs@[k as int].1, cs@[k as int].2, cs@[k as int].3));
                children.push(snapshot(syntax, cs[k].0.as_str(), cs[k].1, cs[k].2, cs[k].3, depth - 1));
                k = k + 1;
            }
        }
    }
    SyntaxNode { kind: String::from_str(kind), named, start, end, children }
}

/// Plain-data copies of the named children of the argument list spanning
/// `start..end` in the parse `syntax` (none when [`shape_at`] finds no
/// node there).
///
/// Each level of a unary expression spans its operator token, so a chain
/// nests fewer levels than the source has bytes.
fn argument_nodes(syntax: &SyntaxTree, start: usize, end: usize) -> (r: Vec<SyntaxNode>)
    ensures
        forall|i: int| 0 <= i < r@.len() ==> copied_within(#[trigger] r@[i], byte_len(syntax.content())),
        match shape_at(syntax.content(), start, end) {
            Some(sh) => copies_of(r@, syntax.content(), named_only(sh.1), byte_len(syntax.content())),
            None => r@.len() == 0,
        },
{
    let mut nodes: Vec<SyntaxNode> = Vec::new();
    let sh = match node_shape(syntax, start, end) {
        Some(sh) => sh,
        None => return nodes,
    };
    let cs = &sh.1;
    let ghost v = match shape_at(syntax.content(), start, end) {
            Some(sh) => sh.1,
            None => Seq::empty(),
        };
    assert(v == cs@.map_values(|c: (String, bool, usize, usize)| (c.0@, c.1, c.2, c.3)));
    let mut k: usize = 0;
    proof {
        assert(v.take(0) =~= Seq::<(Seq<char>, bool, usize, usize)>::empty());
    }
    while k < cs.len()
        invariant
            v == cs@.map_values(|c: (String, bool, usize, usize)| (c.0@, c.1, c.2, c.3)),
            k <= cs@.len(),
            forall|i: int| 0 <= i < nodes@.len() ==> copied_within(#[trigger] nodes@[i], byte_len(syntax.content())),
            copies_of(nodes@, syntax.content(), named_only(v.take(k as int)), byte_len(syntax.content())),
        decreases cs.len() - k,
    {
        proof {
            assert(v.take(k + 1).drop_last() =~= v.take(k as int));
            assert(v.take(k + 1).last() == v[k as int]);
            assert(v[k as int] == (cs@[k as int].0@, cs@[k as int].1, cs@[k as int].2, cs@[k as int].3));
        }
        let ghost before = nodes@;
        if cs[k].1 {
            let n = snapshot(syntax, cs[k].0.as_str(), cs[k].1, cs[k].2, cs[k].3, syntax.text().len());
            nodes.push(n);
            proof {
                assert forall|i: int| 0 <= i < nodes@.len() implies copy_of(
                    #[trigger] nodes@[i],
                    syntax.content(),
                    named_only(v.take(k + 1))[i],
                    byte_len(syntax.content()),
                ) by {
                    if i < before.len() {
                        assert(nodes@[i] == before[i]);
                    }
                }
            }
        }
        k = k + 1;
    }
    proof {
        assert(v.take(cs@.len() as int) =~= v);
    }
    nodes
}

/// A match that a constructor detection in `source` can produce: what a
/// recognized constructor, with type and name written in `source`, makes of
/// numeric arguments that are all decimal literals written in `source`.
pub open spec fn is_ctor_match(source: Seq<char>, m: ColorMatch) -> bool {
    exists|ty: Seq<char>, ctor: Seq<char>, nums: Seq<NumberArg>|
        {
            &&& from_source(source, ty)
            &&& from_source(source, ctor)
            &&& #[trigger] ctor_color(ty, ctor, nums) == Some(m.color)
            &&& args_from_source(source, nums)
        }
}

/// What constructor detection makes of one query match with captures
/// `caps`, whose argument list has the named children `args`: the color
/// that the constructor named by the texts of its last `type` and `ctor`
/// captures makes of the numeric arguments among `args`, spanning its last
/// `call` capture, when the type is a color type, the match has an `args`
/// capture, the constructor makes a color of them, and that span is text
/// of `source`; nothing otherwise.
pub open spec fn ctor_step(source: Seq<char>, caps: Seq<CaptureSpan>, args: Seq<SyntaxNode>, r: Option<ColorMatch>) -> bool {
    let ty = captured_text(source, caps, "type"@);
    let ctor = captured_text(source, caps, "ctor"@);
    let values = numbers(source, args);
    let span = captured_span(caps, "call"@);
    if is_color_type(ty) && last_capture(caps, "args"@) is Some && last_capture(caps, "call"@) is Some
        && ctor_plan(ty, ctor) is Some && values.len() >= 3 && span_text(source, span.0 as int, span.1 as int) is Some {
        r matches Some(m) && m.start_byte == span.0 && m.end_byte == span.1 && (exists|nums: Seq<NumberArg>|
            arg_values(nums) == values && #[trigger] ctor_color(ty, ctor, nums) == Some(m.color))
    } else {
        r is None
    }
}

/// [`ctor_step`] for each of the query matches `matches`, match `i` with
/// the argument nodes `args[i]`.
pub open spec fn ctor_steps(
    source: Seq<char>,
    matches: Seq<Vec<CaptureSpan>>,
    args: Seq<Vec<SyntaxNode>>,
) -> spec_fn(int, Option<ColorMatch>) -> bool {
    |i: int, r: Option<ColorMatch>| ctor_step(source, matches[i]@, args[i]@, r)
}

/// The match that constructor detection makes of one query match, whose
/// argument list has the named children `args`.
pub fn match_from_captures(source: &str, caps: &Vec<CaptureSpan>, args: &Vec<SyntaxNode>) -> (r: Option<ColorMatch>)
    ensures
        ctor_step(source@, caps@, args@, r),
{
    let ty = capture_text_named(source, caps, "type");
    let ctor = capture_text_named(source, caps, "ctor");
    if !is_color_type_name(ty) || find_capture(caps, "args").is_none() || find_capture(caps, "call").is_none() {
        return None;
    }
    let (start, end) = capture_span_named(caps, "call");
    let nums = numbers_of(source, args);
    proof {
        assert(arg_values(nums@).len() == nums@.len());
    }
    match build_color(ty, ctor, nums.as_slice()) {
        Some(color) => if is_text_span(source, start, end) {
            Some(ColorMatch { start_byte: start, end_byte: end, color })
        } else {
            None
        },
        None => None,
    }
}

/// The matches that constructor detection makes of the query matches
/// `matches` (captures as plain data), match `i` having the argument nodes
/// `args[i]`, in order.
pub fn matches_from_captures(
    source: &str,
    matches: &Vec<Vec<CaptureSpan>>,
    args: &Vec<Vec<SyntaxNode>>,
) -> (res: Vec<ColorMatch>)
    requires
        args@.len() == matches@.len(),
    ensures
        made_of(matches@.len() as int, ctor_steps(source@, matches@, args@), res@),
{
    let mut res: Vec<ColorMatch> = Vec::new();
    let mut m: usize = 0;
    while m < matches.len()
        invariant
            m <= matches@.len(),
            args@.len() == matches@.len(),
            made_of(m as int, ctor_steps(source@, matches@, args@), res@),
        decreases matches@.len() - m,
    {
        let r = match_from_captures(source, &matches[m], &args[m]);
        proof {
            lemma_made_of_next(m as int, ctor_steps(source@, matches@, args@), res@, r);
        }
        if let Some(x) = r {
            res.push(x);
        }
        m = m + 1;
    }
    res
}

/// `args` copies, `depth` levels deep, the named children of the argument
/// list of a query match with captures `caps` (the node [`shape_at`] finds
/// at its last `args` capture), when its type is a color type; it is empty
/// otherwise.
pub open spec fn args_copied(source: Seq<char>, depth: nat, caps: Seq<CaptureSpan>, args: Seq<SyntaxNode>) -> bool {
    if is_color_type(captured_text(source, caps, "type"@)) && last_capture(caps, "args"@) is Some {
        let c = last_capture(caps, "args"@)->0;
        match shape_at(source, c.start, c.end) {
            Some(sh) => copies_of(args, source, named_only(sh.1), depth),
            None => args.len() == 0,
        }
    } else {
        args.len() == 0
    }
}

/// What constructor detection finds in `source`, within the byte range
/// `range`: what [`matches_from_captures`] makes of the matches of the
/// query [`QUERY_SRC`] over the parse of `source` and of copies (`depth`
/// levels deep) of the named children of their argument lists.
pub open spec fn ctor_found(source: Seq<char>, depth: nat, range: (usize, usize), found: Seq<ColorMatch>) -> bool {
    match query_result(QUERY_SRC@, source, range) {
        Some(qc) => exists|spans: Seq<Vec<CaptureSpan>>, args: Seq<Vec<SyntaxNode>>|
            {
                &&& spans_view(spans) == qc
                &&& args.len() == spans.len()
                &&& forall|m: int| 0 <= m < spans.len() ==> args_copied(source, depth, spans[m]@, #[trigger] args[m]@)
                &&& #[trigger] made_of(spans.len() as int, ctor_steps(source, spans, args), found)
            },
        None => found.len() == 0,
    }
}

/// Scan the parsed text `syntax` for Bevy color constructor calls,
/// within `byte_range` when one is given, and append a [`ColorMatch`] for
/// each call that makes a color to `out`.
pub fn detect(syntax: &SyntaxTree, byte_range: Option<std::ops::Range<usize>>, out: &mut Vec<ColorMatch>)
    ensures
        extends(old(out)@, final(out)@),
        ctor_found(syntax.content(), byte_len(syntax.content()), range_bounds(byte_range), final(out)@.skip(old(out)@.len() as int)),
        forall|i: int|
            old(out)@.len() <= i < final(out)@.len() ==> is_ctor_match(syntax.content(), #[trigger] final(out)@[i]),
        forall|i: int|
            old(out)@.len() <= i < final(out)@.len() ==> in_source(syntax.content(), #[trigger] final(out)@[i]),
{
    let source = syntax.text();
    let ghost before = out@;
    proof {
        assert(out@.take(before.len() as int) =~= before);
    }
    let range = range_of(&byte_range);
    let spans = match run_query(QUERY_SRC, syntax, range) {
        Some(spans) => spans,
        None => {
            proof {
                assert(out@.skip(before.len() as int) =~= Seq::<ColorMatch>::empty());
            }
            return ;
        },
    };
    // The named children of the argument list of each call on a color type.
    let mut args: Vec<Vec<SyntaxNode>> = Vec::new();
    let mut m: usize = 0;
    while m < spans.len()
        invariant
            m <= spans@.len(),
            args@.len() == m,
            forall|j: int|
                0 <= j < m ==> args_copied(syntax.content(), byte_len(syntax.content()), spans@[j]@, #[trigger] args@[j]@),
            source@ == syntax.content(),
        decreases spans@.len() - m,
    {
        let caps = &spans[m];
        let mut nodes: Vec<SyntaxNode> = Vec::new();
        if is_color_type_name(capture_text_named(source, caps, "type")) {
            if let Some(i) = find_capture(caps, "args") {
                nodes = argument_nodes(syntax, caps[i].start, caps[i].end);
            }
        }
        args.push(nodes);
        m = m + 1;
    }
    let mut found = matches_from_captures(source, &spans, &args);
    proof {
        let step = ctor_steps(source@, spans@, args@);
        let p = |m: ColorMatch| is_ctor_match(source@, m) && in_source(source@, m);
        assert forall|i: int, m: ColorMatch| 0 <= i < spans@.len() && #[trigger] step(i, Some(m)) implies p(m) by {
            let caps = spans@[i]@;
            let ty = captured_text(source@, caps, "type"@);
            let ctor = captured_text(source@, caps, "ctor"@);
            lemma_captured_text_from_source(source@, caps, "type"@);
            lemma_captured_text_from_source(source@, caps, "ctor"@);
            let nums = choose|nums: Seq<NumberArg>|
                arg_values(nums) == numbers(source@, args@[i]@) && #[trigger] ctor_color(ty, ctor, nums)
                    == Some(m.color);
            lemma_args_from_source(source@, args@[i]@, nums);
        }
        lemma_made_of_all(spans@.len() as int, step, found@, p);
    }
    let ghost new = found@;
    out.append(&mut found);
    proof {
        assert(out@.take(before.len() as int) =~= before);
        assert(out@.skip(before.len() as int) =~= new);
        assert forall|i: int| before.len() <= i < out@.len() implies is_ctor_match(source@, #[trigger] out@[i])
            && in_source(source@, out@[i]) by {
            assert(out@[i] == new[i - before.len()]);
        }
    }
}

/// Only constructors of Bevy's color types make colors: a call such as
/// `Vec3::new(1.0, 2.0, 3.0)` on any other type makes none, whatever its
/// arguments.
pub proof fn law_only_color_types_make_colors(ty: Seq<char>, ctor: Seq<char>, nums: Seq<NumberArg>)
    requires
        (ctor_color(ty, ctor, nums) is Some),
    ensures
        is_color_type(ty),
{
}

/// The color space of a recognized constructor follows its names: `hsv`
/// constructors and `Hsva` read HSV, `hsl`/`hsla` and `Hsla` read HSL,
/// `hwb` and `Hwba` read HWB, `oklab`/`Oklaba` read Oklab, `oklch`/`Oklcha`
/// read Oklch, `_u8` constructors read bytes, and `linear_*` and
/// `LinearRgba` read linear RGB.
pub proof fn law_ctor_space_follows_names(ty: Seq<char>, ctor: Seq<char>)
    requires
        (ctor_plan(ty, ctor) is Some),
    ensures
        ctor == "hsv"@ || ty == "Hsva"@ ==> ctor_plan(ty, ctor)->0.space == ColorSpace::Hsv,
        ctor == "hsl"@ || ctor == "hsla"@ || ty == "Hsla"@ ==> ctor_plan(ty, ctor)->0.space == ColorSpace::Hsl,
        ctor == "hwb"@ || ty == "Hwba"@ ==> ctor_plan(ty, ctor)->0.space == ColorSpace::Hwb,
        ctor == "oklab"@ || ty == "Oklaba"@ ==> ctor_plan(ty, ctor)->0.space == ColorSpace::Oklab,
        ctor == "oklch"@ || ty == "Oklcha"@ ==> ctor_plan(ty, ctor)->0.space == ColorSpace::Oklch,
        ctor == "srgb_u8"@ || ctor == "srgba_u8"@ || ctor == "rgb_u8"@ || ctor == "rgba_u8"@
            ==> ctor_plan(ty, ctor)->0.space == ColorSpace::SrgbU8,
        ctor == "linear_rgb"@ || ctor == "linear_rgba"@ || ty == "LinearRgba"@ ==> ctor_plan(ty, ctor)->0.space
            == ColorSpace::LinearSrgb,
        ctor == "new"@ ==> ctor_plan(ty, ctor)->0.alpha == AlphaArg::FourthArg,
{
    reveal_strlit("Color");
    assert("Color"@.len() == 5);
    reveal_strlit("Srgba");
    assert("Srgba"@.len() == 5);
    reveal_strlit("LinearRgba");
    assert("LinearRgba"@.len() == 10);
    reveal_strlit("Hsla");
    assert("Hsla"@.len() == 4);
    reveal_strlit("Hsva");
    assert("Hsva"@.len() == 4);
    reveal_strlit("Hwba");
    assert("Hwba"@.len() == 4);
    reveal_strlit("Oklaba");
    assert("Oklaba"@.len() == 6);
    reveal_strlit("Oklcha");
    assert("Oklcha"@.len() == 6);
    reveal_strlit("srgb");
    assert("srgb"@.len() == 4);
    reveal_strlit("linear_rgb");
    assert("linear_rgb"@.len() == 10);
    reveal_strlit("rgb");
    assert("rgb"@.len() == 3);
    reveal_strlit("srgba");
    assert("srgba"@.len() == 5);
    reveal_strlit("linear_rgba");
    assert("linear_rgba"@.len() == 11);
    reveal_strlit("new");
    assert("new"@.len() == 3);
    reveal_strlit("srgb_u8");
    assert("srgb_u8"@.len() == 7);
    reveal_strlit("rgb_u8");
    assert("rgb_u8"@.len() == 6);
    reveal_strlit("srgba_u8");
    assert("srgba_u8"@.len() == 8);
    reveal_strlit("rgba_u8");
    assert("rgba_u8"@.len() == 7);
    reveal_strlit("hsl");
    assert("hsl"@.len() == 3);
    reveal_strlit("hsla");
    assert("hsla"@.len() == 4);
    reveal_strlit("hsv");
    assert("hsv"@.len() == 3);
    reveal_strlit("hwb");
    assert("hwb"@.len() == 3);
    reveal_strlit("oklab");
    assert("oklab"@.len() == 5);
    reveal_strlit("oklch");
    assert("oklch"@.len() == 5);
    assert("Color"@[0] == 'C');
    assert("Color"@[1] == 'o');
    assert("Color"@[2] == 'l');
    assert("Color"@[3] == 'o');
    assert("Color"@[4] == 'r');
    assert("Srgba"@[0] == 'S');
    assert("Srgba"@[1] == 'r');
    assert("Srgba"@[2] == 'g');
    assert("Srgba"@[3] == 'b');
    assert("Srgba"@[4] == 'a');
    assert("LinearRgba"@[0] == 'L');
    assert("LinearRgba"@[1] == 'i');
    assert("LinearRgba"@[2] == 'n');
    assert("LinearRgba"@[3] == 'e');
    assert("LinearRgba"@[4] == 'a');
    assert("LinearRgba"@[5] == 'r');
    assert("LinearRgba"@[6] == 'R');
    assert("LinearRgba"@[7] == 'g');
    assert("LinearRgba"@[8] == 'b');
    assert("LinearRgba"@[9] == 'a');
    assert("Hsla"@[0] == 'H');
    assert("Hsla"@[1] == 's');
    assert("Hsla"@[2] == 'l');
    assert("Hsla"@[3] == 'a');
    assert("Hsva"@[0] == 'H');
    assert("Hsva"@[1] == 's');
    assert("Hsva"@[2] == 'v');
    assert("Hsva"@[3] == 'a');
    assert("Hwba"@[0] == 'H');
    assert("Hwba"@[1] == 'w');
    assert("Hwba"@[2] == 'b');
    assert("Hwba"@[3] == 'a');
    assert("Oklaba"@[0] == 'O');
    assert("Oklaba"@[1] == 'k');
    assert("Oklaba"@[2] == 'l');
    assert("Oklaba"@[3] == 'a');
    assert("Oklaba"@[4] == 'b');
    assert("Oklaba"@[5] == 'a');
    assert("Oklcha"@[0] == 'O');
    assert("Oklcha"@[1] == 'k');
    assert("Oklcha"@[2] == 'l');
    assert("Oklcha"@[3] == 'c');
    assert("Oklcha"@[4] == 'h');
    assert("Oklcha"@[5] == 'a');
    assert("srgb"@[0] == 's');
    assert("srgb"@[1] == 'r');
    assert("srgb"@[2] == 'g');
    assert("srgb"@[3] == 'b');
    assert("linear_rgb"@[0] == 'l');
    assert("linear_rgb"@[1] == 'i');
    assert("linear_rgb"@[2] == 'n');
    assert("linear_rgb"@[3] == 'e');
    assert("linear_rgb"@[4] == 'a');
    assert("linear_rgb"@[5] == 'r');
    assert("linear_rgb"@[6] == '_');
    assert("linear_rgb"@[7] == 'r');
    assert("linear_rgb"@[8] == 'g');
    assert("linear_rgb"@[9] == 'b');
    assert("rgb"@[0] == 'r');
    assert("rgb"@[1] == 'g');
    assert("rgb"@[2] == 'b');
    assert("srgba"@[0] == 's');
    assert("srgba"@[1] == 'r');
    assert("srgba"@[2] == 'g');
    assert("srgba"@[3] == 'b');
    assert("srgba"@[4] == 'a');
    assert("linear_rgba"@[0] == 'l');
    assert("linear_rgba"@[1] == 'i');
    assert("linear_rgba"@[2] == 'n');
    assert("linear_rgba"@[3] == 'e');
    assert("linear_rgba"@[4] == 'a');
    assert("linear_rgba"@[5] == 'r');
    assert("linear_rgba"@[6] == '_');
    assert("linear_rgba"@[7] == 'r');
    assert("linear_rgba"@[8] == 'g');
    assert("linear_rgba"@[9] == 'b');
    assert("linear_rgba"@[10] == 'a');
    assert("new"@[0] == 'n');
    assert("new"@[1] == 'e');
    assert("new"@[2] == 'w');
    assert("srgb_u8"@[0] == 's');
    assert("srgb_u8"@[1] == 'r');
    assert("srgb_u8"@[2] == 'g');
    assert("srgb_u8"@[3] == 'b');
    assert("srgb_u8"@[4] == '_');
    assert("srgb_u8"@[5] == 'u');
    assert("srgb_u8"@[6] == '8');
    assert("rgb_u8"@[0] == 'r');
    assert("rgb_u8"@[1] == 'g');
    assert("rgb_u8"@[2] == 'b');
    assert("rgb_u8"@[3] == '_');
    assert("rgb_u8"@[4] == 'u');
    assert("rgb_u8"@[5] == '8');
    assert("srgba_u8"@[0] == 's');
    assert("srgba_u8"@[1] == 'r');
    assert("srgba_u8"@[2] == 'g');
    assert("srgba_u8"@[3] == 'b');
    assert("srgba_u8"@[4] == 'a');
    assert("srgba_u8"@[5] == '_');
    assert("srgba_u8"@[6] == 'u');
    assert("srgba_u8"@[7] == '8');
    assert("rgba_u8"@[0] == 'r');
    assert("rgba_u8"@[1] == 'g');
    assert("rgba_u8"@[2] == 'b');
    assert("rgba_u8"@[3] == 'a');
    assert("rgba_u8"@[4] == '_');
    assert("rgba_u8"@[5] == 'u');
    assert("rgba_u8"@[6] == '8');
    assert("hsl"@[0] == 'h');
    assert("hsl"@[1] == 's');
    assert("hsl"@[2] == 'l');
    assert("hsla"@[0] == 'h');
    assert("hsla"@[1] == 's');
    assert("hsla"@[2] == 'l');
    assert("hsla"@[3] == 'a');
    assert("hsv"@[0] == 'h');
    assert("hsv"@[1] == 's');
    assert("hsv"@[2] == 'v');
    assert("hwb"@[0] == 'h');
    assert("hwb"@[1] == 'w');
    assert("hwb"@[2] == 'b');
    assert("oklab"@[0] == 'o');
    assert("oklab"@[1] == 'k');
    assert("oklab"@[2] == 'l');
    assert("oklab"@[3] == 'a');
    assert("oklab"@[4] == 'b');
    assert("oklch"@[0] == 'o');
    assert("oklch"@[1] == 'k');
    assert("oklch"@[2] == 'l');
    assert("oklch"@[3] == 'c');
    assert("oklch"@[4] == 'h');
}

/// The HSV constructors are recognized and read HSV: `Color::hsv` and
/// `Hsva::hsv` opaque, `Hsva::new` with alpha from the fourth argument.
pub proof fn law_hsv_constructors(ty: Seq<char>)
    requires
        ty == "Color"@ || ty == "Hsva"@,
    ensures
        ctor_plan(ty, "hsv"@) == Some(CtorPlan { space: ColorSpace::Hsv, alpha: AlphaArg::Opaque }),
        ty == "Hsva"@ ==> ctor_plan(ty, "new"@) == Some(CtorPlan { space: ColorSpace::Hsv, alpha: AlphaArg::FourthArg }),
{
    reveal_strlit("Color");
    assert("Color"@.len() == 5);
    reveal_strlit("Srgba");
    assert("Srgba"@.len() == 5);
    reveal_strlit("LinearRgba");
    assert("LinearRgba"@.len() == 10);
    reveal_strlit("Hsla");
    assert("Hsla"@.len() == 4);
    reveal_strlit("Hsva");
    assert("Hsva"@.len() == 4);
    reveal_strlit("Hwba");
    assert("Hwba"@.len() == 4);
    reveal_strlit("Oklaba");
    assert("Oklaba"@.len() == 6);
    reveal_strlit("Oklcha");
    assert("Oklcha"@.len() == 6);
    reveal_strlit("srgb");
    assert("srgb"@.len() == 4);
    reveal_strlit("linear_rgb");
    assert("linear_rgb"@.len() == 10);
    reveal_strlit("rgb");
    assert("rgb"@.len() == 3);
    reveal_strlit("srgba");
    assert("srgba"@.len() == 5);
    reveal_strlit("linear_rgba");
    assert("linear_rgba"@.len() == 11);
    reveal_strlit("new");
    assert("new"@.len() == 3);
    reveal_strlit("srgb_u8");
    assert("srgb_u8"@.len() == 7);
    reveal_strlit("rgb_u8");
    assert("rgb_u8"@.len() == 6);
    reveal_strlit("srgba_u8");
    assert("srgba_u8"@.len() == 8);
    reveal_strlit("rgba_u8");
    assert("rgba_u8"@.len() == 7);
    reveal_strlit("hsl");
    assert("hsl"@.len() == 3);
    reveal_strlit("hsla");
    assert("hsla"@.len() == 4);
    reveal_strlit("hsv");
    assert("hsv"@.len() == 3);
    reveal_strlit("hwb");
    assert("hwb"@.len() == 3);
    reveal_strlit("oklab");
    assert("oklab"@.len() == 5);
    reveal_strlit("oklch");
    assert("oklch"@.len() == 5);
    assert("Color"@[0] == 'C');
    assert("Color"@[1] == 'o');
    assert("Color"@[2] == 'l');
    assert("Color"@[3] == 'o');
    assert("Color"@[4] == 'r');
    assert("Srgba"@[0] == 'S');
    assert("Srgba"@[1] == 'r');
    assert("Srgba"@[2] == 'g');
    assert("Srgba"@[3] == 'b');
    assert("Srgba"@[4] == 'a');
    assert("LinearRgba"@[0] == 'L');
    assert("LinearRgba"@[1] == 'i');
    assert("LinearRgba"@[2] == 'n');
    assert("LinearRgba"@[3] == 'e');
    assert("LinearRgba"@[4] == 'a');
    assert("LinearRgba"@[5] == 'r');
    assert("LinearRgba"@[6] == 'R');
    assert("LinearRgba"@[7] == 'g');
    assert("LinearRgba"@[8] == 'b');
    assert("LinearRgba"@[9] == 'a');
    assert("Hsla"@[0] == 'H');
    assert("Hsla"@[1] == 's');
    assert("Hsla"@[2] == 'l');
    assert("Hsla"@[3] == 'a');
    assert("Hsva"@[0] == 'H');
    assert("Hsva"@[1] == 's');
    assert("Hsva"@[2] == 'v');
    assert("Hsva"@[3] == 'a');
    assert("Hwba"@[0] == 'H');
    assert("Hwba"@[1] == 'w');
    assert("Hwba"@[2] == 'b');
    assert("Hwba"@[3] == 'a');
    assert("Oklaba"@[0] == 'O');
    assert("Oklaba"@[1] == 'k');
    assert("Oklaba"@[2] == 'l');
    assert("Oklaba"@[3] == 'a');
    assert("Oklaba"@[4] == 'b');
    assert("Oklaba"@[5] == 'a');
    assert("Oklcha"@[0] == 'O');
    assert("Oklcha"@[1] == 'k');
    assert("Oklcha"@[2] == 'l');
    assert("Oklcha"@[3] == 'c');
    assert("Oklcha"@[4] == 'h');
    assert("Oklcha"@[5] == 'a');
    assert("srgb"@[0] == 's');
    assert("srgb"@[1] == 'r');
    assert("srgb"@[2] == 'g');
    assert("srgb"@[3] == 'b');
    assert("linear_rgb"@[0] == 'l');
    assert("linear_rgb"@[1] == 'i');
    assert("linear_rgb"@[2] == 'n');
    assert("linear_rgb"@[3] == 'e');
    assert("linear_rgb"@[4] == 'a');
    assert("linear_rgb"@[5] == 'r');
    assert("linear_rgb"@[6] == '_');
    assert("linear_rgb"@[7] == 'r');
    assert("linear_rgb"@[8] == 'g');
    assert("linear_rgb"@[9] == 'b');
    assert("rgb"@[0] == 'r');
    assert("rgb"@[1] == 'g');
    assert("rgb"@[2] == 'b');
    assert("srgba"@[0] == 's');
    assert("srgba"@[1] == 'r');
    assert("srgba"@[2] == 'g');
    assert("srgba"@[3] == 'b');
    assert("srgba"@[4] == 'a');
    assert("linear_rgba"@[0] == 'l');
    assert("linear_rgba"@[1] == 'i');
    assert("linear_rgba"@[2] == 'n');
    assert("linear_rgba"@[3] == 'e');
    assert("linear_rgba"@[4] == 'a');
    assert("linear_rgba"@[5] == 'r');
    assert("linear_rgba"@[6] == '_');
    assert("linear_rgba"@[7] == 'r');
    assert("linear_rgba"@[8] == 'g');
    assert("linear_rgba"@[9] == 'b');
    assert("linear_rgba"@[10] == 'a');
    assert("new"@[0] == 'n');
    assert("new"@[1] == 'e');
    assert("new"@[2] == 'w');
    assert("srgb_u8"@[0] == 's');
    assert("srgb_u8"@[1] == 'r');
    assert("srgb_u8"@[2] == 'g');
    assert("srgb_u8"@[3] == 'b');
    assert("srgb_u8"@[4] == '_');
    assert("srgb_u8"@[5] == 'u');
    assert("srgb_u8"@[6] == '8');
    assert("rgb_u8"@[0] == 'r');
    assert("rgb_u8"@[1] == 'g');
    assert("rgb_u8"@[2] == 'b');
    assert("rgb_u8"@[3] == '_');
    assert("rgb_u8"@[4] == 'u');
    assert("rgb_u8"@[5] == '8');
    assert("srgba_u8"@[0] == 's');
    assert("srgba_u8"@[1] == 'r');
    assert("srgba_u8"@[2] == 'g');
    assert("srgba_u8"@[3] == 'b');
    assert("srgba_u8"@[4] == 'a');
    assert("srgba_u8"@[5] == '_');
    assert("srgba_u8"@[6] == 'u');
    assert("srgba_u8"@[7] == '8');
    assert("rgba_u8"@[0] == 'r');
    assert("rgba_u8"@[1] == 'g');
    assert("rgba_u8"@[2] == 'b');
    assert("rgba_u8"@[3] == 'a');
    assert("rgba_u8"@[4] == '_');
    assert("rgba_u8"@[5] == 'u');
    assert("rgba_u8"@[6] == '8');
    assert("hsl"@[0] == 'h');
    assert("hsl"@[1] == 's');
    assert("hsl"@[2] == 'l');
    assert("hsla"@[0] == 'h');
    assert("hsla"@[1] == 's');
    assert("hsla"@[2] == 'l');
    assert("hsla"@[3] == 'a');
    assert("hsv"@[0] == 'h');
    assert("hsv"@[1] == 's');
    assert("hsv"@[2] == 'v');
    assert("hwb"@[0] == 'h');
    assert("hwb"@[1] == 'w');
    assert("hwb"@[2] == 'b');
    assert("oklab"@[0] == 'o');
    assert("oklab"@[1] == 'k');
    assert("oklab"@[2] == 'l');
    assert("oklab"@[3] == 'a');
    assert("oklab"@[4] == 'b');
    assert("oklch"@[0] == 'o');
    assert("oklch"@[1] == 'k');
    assert("oklch"@[2] == 'l');
    assert("oklch"@[3] == 'c');
    assert("oklch"@[4] == 'h');
}

} // verus!
