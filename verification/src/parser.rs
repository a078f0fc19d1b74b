//! Parsing Rust source with the tree-sitter Rust grammar, and running
//! tree-sitter queries over the resulting syntax tree.
use vstd::prelude::*;
use vstd::string::StringSliceAdditionalSpecFns;
use vstd::utf8::*;
use tree_sitter::StreamingIterator;
use crate::detectors::CaptureSpan;

verus! {

#[verifier::external_type_specification]
#[verifier::external_body]
pub struct ExTree(tree_sitter::Tree);

/// Parse `source` with the tree-sitter Rust grammar, reusing the
/// edit-annotated tree `old` where one is given.
///
/// Calls `tree_sitter::Parser::parse` on a fresh parser set to
/// `tree_sitter_rust::LANGUAGE`, with no timeout or cancellation flag. From
/// scratch (`old` is `None`) it gives a tree exactly when the grammar loads
/// and parses the text, which is named [`parses`]. Nothing is claimed of the
/// tree itself (a fresh object each time), nor of a parse that reuses `old`.
#[verifier::external_body]
pub fn parse_incremental(source: &str, old: Option<&tree_sitter::Tree>) -> (r: Option<tree_sitter::Tree>)
    ensures
        old is None ==> (r is Some <==> parses(source@)),
{
    let mut parser = tree_sitter::Parser::new();
    match parser.set_language(&tree_sitter_rust::LANGUAGE.into()) {
        Ok(()) => parser.parse(source, old),
        Err(_) => None,
    }
}

/// Parse `source` from scratch: a tree exactly when the text parses.
pub fn parse(source: &str) -> (r: Option<tree_sitter::Tree>)
    ensures
        r is Some <==> parses(source@),
{
    parse_incremental(source, None)
}

/// A text with its tree-sitter Rust parse. Only [`parse_text`] makes one,
/// so the tree is always the parse of the text held beside it.
pub struct SyntaxTree {
    text: String,
    tree: tree_sitter::Tree,
}

impl SyntaxTree {
    /// The parsed text.
    pub closed spec fn content(&self) -> Seq<char> {
        self.text@
    }

    /// The parsed text.
    pub fn text(&self) -> (r: &str)
        ensures
            r@ == self.content(),
    {
        self.text.as_str()
    }
}

/// Whether the tree-sitter Rust grammar loads and parses `source`
/// (`tree_sitter::Parser::parse` gives a tree).
pub uninterp spec fn parses(source: Seq<char>) -> bool;

/// Parse `source` with a fresh parser set to the Rust grammar
/// (`tree_sitter::Parser::set_language`, `tree_sitter::Parser::parse`) and
/// keep the tree with a copy of the text. `None` exactly when that fails,
/// which is named [`parses`].
#[verifier::external_body]
pub fn parse_text(source: &str) -> (r: Option<SyntaxTree>)
    ensures
        r is Some <==> parses(source@),
        r matches Some(t) ==> t.content() == source@,
{
    let mut parser = tree_sitter::Parser::new();
    parser.set_language(&tree_sitter_rust::LANGUAGE.into()).ok()?;
    let tree = parser.parse(source, None)?;
    Some(SyntaxTree { text: source.to_string(), tree })
}

/// What running the tree-sitter query `pattern` over the Rust parse of
/// `source`, restricted to nodes overlapping the bytes `range`, yields: the
/// matches in order, each as its captures in order, each capture as its
/// name and the byte span of its node; `None` when the pattern does not
/// compile.
pub uninterp spec fn query_result(
    pattern: Seq<char>,
    source: Seq<char>,
    range: (usize, usize),
) -> Option<Seq<Seq<(Seq<char>, usize, usize)>>>;

/// Compile `pattern` (`tree_sitter::Query::new`) and run it over the tree of
/// `syntax`, restricted to `range` (`QueryCursor::set_byte_range`,
/// `QueryCursor::matches`, with the text the tree was parsed from). The
/// result is named [`query_result`], a function of the pattern, the text
/// and the range.
#[verifier::external_body]
pub(crate) fn run_query(pattern: &str, syntax: &SyntaxTree, range: (usize, usize)) -> (r: Option<Vec<Vec<CaptureSpan>>>)
    ensures
        captures_view(r) == query_result(pattern@, syntax.content(), range),
{
    let query = tree_sitter::Query::new(&tree_sitter_rust::LANGUAGE.into(), pattern).ok()?;
    let mut cursor = tree_sitter::QueryCursor::new();
    cursor.set_byte_range(range.0..range.1);
    let mut matches = cursor.matches(&query, syntax.tree.root_node(), syntax.text.as_bytes());
    let mut all = Vec::new();
    while let Some(m) = matches.next() {
        let span = |c: &tree_sitter::QueryCapture| (query.capture_names()[c.index as usize], c.node.byte_range());
        all.push(m.captures.iter().map(span).map(|(n, b)| CaptureSpan { name: n.into(), start: b.start, end: b.end }).collect());
    }
    Some(all)
}

/// The length in bytes of a text with characters `s`, as `str::len` gives it.
pub open spec fn byte_len(s: Seq<char>) -> nat {
    (encode_utf8(s).len() as usize) as nat
}

/// The captures `r` as plain values: name, start and end of each.
pub open spec fn captures_view(r: Option<Vec<Vec<CaptureSpan>>>) -> Option<Seq<Seq<(Seq<char>, usize, usize)>>> {
    match r {
        Some(v) => Some(
            v@.map_values(|m: Vec<CaptureSpan>| m@.map_values(|c: CaptureSpan| (c.name@, c.start, c.end))),
        ),
        None => None,
    }
}

/// A syntax node of the Rust parse of a text, as plain values: its grammar
/// kind and its children in order, each as kind, named flag and byte span.
pub type Shape = (String, Vec<(String, bool, usize, usize)>);

/// The smallest named node of the Rust parse of `source` that spans the
/// bytes `start..end`, as its kind and its children (kind, named flag,
/// span); `None` when no such node exists.
pub uninterp spec fn shape_at(
    source: Seq<char>,
    start: usize,
    end: usize,
) -> Option<(Seq<char>, Seq<(Seq<char>, bool, usize, usize)>)>;

/// Describe the smallest named node of the tree of `syntax` spanning
/// `start..end` (`Node::named_descendant_for_byte_range`, `Node::kind`,
/// `Node::children`, `Node::is_named`, `Node::start_byte`,
/// `Node::end_byte`). Named [`shape_at`].
#[verifier::external_body]
pub(crate) fn node_shape(syntax: &SyntaxTree, start: usize, end: usize) -> (r: Option<Shape>)
    ensures
        shape_view(r) == shape_at(syntax.content(), start, end),
{
    let node = syntax.tree.root_node().named_descendant_for_byte_range(start, end)?;
    let mut cursor = node.walk();
    let children = node.children(&mut cursor).map(|c| (c.kind().to_string(), c.is_named(), c.start_byte(), c.end_byte()));
    Some((node.kind().to_string(), children.collect()))
}

/// The shape `r` as plain values.
pub open spec fn shape_view(r: Option<Shape>) -> Option<(Seq<char>, Seq<(Seq<char>, bool, usize, usize)>)> {
    match r {
        Some((k, cs)) => Some((k@, cs@.map_values(|c: (String, bool, usize, usize)| (c.0@, c.1, c.2, c.3)))),
        None => None,
    }
}

/// The characters of `source` between bytes `start` and `end`, when that
/// span lies in the text and starts and ends on character boundaries.
pub open spec fn span_text(source: Seq<char>, start: int, end: int) -> Option<Seq<char>> {
    let bytes = encode_utf8(source);
    if start <= end <= bytes.len() && is_char_boundary(bytes, start) && is_char_boundary(bytes, end) {
        Some(decode_utf8(bytes.subrange(start, end)))
    } else {
        None
    }
}

/// The text between bytes `start` and `end` of `source`, or `None` when the
/// span does not lie on character boundaries within the text.
pub fn text_between(source: &str, start: usize, end: usize) -> (r: Option<&str>)
    ensures
        r matches Some(t) ==> span_text(source@, start as int, end as int) == Some(t@),
        r is None ==> span_text(source@, start as int, end as int) is None,
{
    let n = source.as_bytes().len();
    if start > end || end > n || !source.is_char_boundary(start) || !source.is_char_boundary(end) {
        return None;
    }
    let (head, _) = source.split_at(end);
    proof {
        encode_utf8_valid_utf8(source@);
        encode_utf8_valid_utf8(head@);
        assert(head.spec_bytes() =~= source.spec_bytes().subrange(0, end as int));
        if start < end {
            is_char_boundary_iff_not_is_continuation_byte(source.spec_bytes(), start as int);
            is_char_boundary_iff_not_is_continuation_byte(head.spec_bytes(), start as int);
            assert(head.spec_bytes()[start as int] == source.spec_bytes()[start as int]);
        } else {
            is_char_boundary_start_end_of_seq(head.spec_bytes());
        }
    }
    let (_, piece) = head.split_at(start);
    proof {
        assert(piece.spec_bytes() =~= source.spec_bytes().subrange(start as int, end as int));
        encode_utf8_decode_utf8(piece@);
    }
    Some(piece)
}

} // verus!
