//! Conversion of byte offsets in a document into LSP positions
//! (0-based line, column counted in UTF-16 code units).
use vstd::prelude::*;
use vstd::std_specs::iter::IteratorSpec;
use vstd::utf8::*;

verus! {

/// A position in a text document: 0-based line and 0-based column counted
/// in UTF-16 code units, as in the Language Server Protocol.
#[derive(Clone, Copy, Debug, PartialEq, Eq, Structural, Default)]
pub struct Position {
    /// Line index.
    pub line: u32,
    /// Column index in UTF-16 code units.
    pub character: u32,
}

/// A range in a text document, from `start` (inclusive) to `end` (exclusive).
#[derive(Clone, Copy, Debug, PartialEq, Eq, Structural, Default)]
pub struct Range {
    /// Start of the range.
    pub start: Position,
    /// End of the range.
    pub end: Position,
}

/// Number of bytes in the UTF-8 encoding of `c` (what `char::len_utf8` returns).
pub open spec fn utf8_width(c: char) -> nat {
    if (c as u32) < 0x80 {
        1
    } else if (c as u32) < 0x800 {
        2
    } else if (c as u32) < 0x10000 {
        3
    } else {
        4
    }
}

/// Number of UTF-16 code units encoding `c` (what `char::len_utf16` returns).
pub open spec fn utf16_width(c: char) -> nat {
    if (c as u32) < 0x10000 {
        1
    } else {
        2
    }
}

/// Number of leading characters of `s` that start before byte offset `byte`.
pub open spec fn chars_before(s: Seq<char>, byte: int) -> nat
    decreases s.len(),
{
    if s.len() == 0 || byte <= 0 {
        0
    } else {
        1 + chars_before(s.drop_first(), byte - utf8_width(s[0]))
    }
}

/// The (line, column) reached from `p` by reading character `c`.
pub open spec fn advance(p: (int, int), c: char) -> (int, int) {
    if c == '\n' {
        (p.0 + 1, 0)
    } else {
        (p.0, p.1 + utf16_width(c))
    }
}

/// The (line, column) reached from `p` by reading all of `s`.
pub open spec fn advance_all(p: (int, int), s: Seq<char>) -> (int, int)
    decreases s.len(),
{
    if s.len() == 0 {
        p
    } else {
        advance_all(advance(p, s[0]), s.drop_first())
    }
}

/// No line or column counter overflows `u32` while reading `s` from `p`.
pub open spec fn fits_u32_from(p: (int, int), s: Seq<char>) -> bool
    decreases s.len(),
{
    if s.len() == 0 {
        true
    } else {
        &&& advance(p, s[0]).0 <= u32::MAX
        &&& advance(p, s[0]).1 <= u32::MAX
        &&& fits_u32_from(advance(p, s[0]), s.drop_first())
    }
}

/// Counting lines and UTF-16 columns over all of `s` stays within `u32`.
pub open spec fn fits_u32(s: Seq<char>) -> bool {
    fits_u32_from((0, 0), s)
}

/// The LSP position of byte offset `byte` in a text with characters `s`:
/// the line and UTF-16 column reached after the characters that start
/// before `byte`.
pub open spec fn position_of(s: Seq<char>, byte: int) -> (int, int) {
    advance_all((0, 0), s.take(chars_before(s, byte) as int))
}

/// `c.len_utf8()`, computed from the scalar value.
pub fn char_len_utf8(c: char) -> (n: usize)
    ensures
        n == utf8_width(c),
{
    let v = c as u32;
    if v < 0x80 {
        1
    } else if v < 0x800 {
        2
    } else if v < 0x10000 {
        3
    } else {
        4
    }
}

/// `c.len_utf16()`, computed from the scalar value.
pub fn char_len_utf16(c: char) -> (n: u32)
    ensures
        n == utf16_width(c),
{
    if (c as u32) < 0x10000 {
        1
    } else {
        2
    }
}

proof fn lemma_advance_all_step(p: (int, int), s: Seq<char>, i: int, m: int)
    requires
        0 <= i < s.len(),
        1 <= m <= s.len() - i,
    ensures
        advance_all(p, s.skip(i).take(m)) == advance_all(
            advance(p, s[i]),
            s.skip(i + 1).take(m - 1),
        ),
        fits_u32_from(p, s.skip(i).take(m)) == (advance(p, s[i]).0 <= u32::MAX && advance(
            p,
            s[i],
        ).1 <= u32::MAX && fits_u32_from(advance(p, s[i]), s.skip(i + 1).take(m - 1))),
{
    assert(s.skip(i).take(m).drop_first() =~= s.skip(i + 1).take(m - 1));
}

proof fn lemma_chars_before_len(s: Seq<char>, byte: int)
    ensures
        chars_before(s, byte) <= s.len(),
    decreases s.len(),
{
    if s.len() > 0 && byte > 0 {
        lemma_chars_before_len(s.drop_first(), byte - utf8_width(s[0]));
    }
}

proof fn lemma_fits_prefix(p: (int, int), s: Seq<char>, m: int)
    requires
        0 <= m <= s.len(),
        fits_u32_from(p, s),
    ensures
        fits_u32_from(p, s.take(m)),
    decreases s.len(),
{
    if m > 0 {
        assert(s.take(m).drop_first() =~= s.drop_first().take(m - 1));
        lemma_fits_prefix(advance(p, s[0]), s.drop_first(), m - 1);
    }
}

/// Convert a byte offset into an LSP position: the line and UTF-16 column
/// reached after reading every character that starts before `byte`.
pub fn byte_to_position(text: &str, byte: usize) -> (pos: Position)
    requires
        fits_u32_from((0, 0), text@.take(chars_before(text@, byte as int) as int)),
    ensures
        (pos.line as int, pos.character as int) == position_of(text@, byte as int),
{
    let ghost s = text@;
    let ghost k = chars_before(s, byte as int) as int;
    let mut line: u32 = 0;
    let mut col_utf16: u32 = 0;
    let mut idx: usize = 0;
    let ghost mut i: int = 0;
    let mut it = text.chars();
    proof {
        assert(s.skip(0) =~= s);
        assert(s.take(k) =~= s.skip(0).take(k));
    }
    loop
        invariant_except_break
            0 <= i <= s.len(),
            it.remaining() == s.skip(i),
            it.obeys_prophetic_iter_laws(),
            i + chars_before(s.skip(i), byte - idx) == k,
            idx <= byte,
            advance_all((line as int, col_utf16 as int), s.skip(i).take(k - i)) == position_of(s, byte as int),
            fits_u32_from((line as int, col_utf16 as int), s.skip(i).take(k - i)),
        ensures
            (line as int, col_utf16 as int) == position_of(s, byte as int),
        decreases s.len() - i,
    {
        if idx >= byte {
            proof {
                assert(chars_before(s.skip(i), byte - idx) == 0);
                assert(s.skip(i).take(0) =~= Seq::<char>::empty());
            }
            break;
        }
        let next = it.next();
        match next {
            None => {
                proof {
                    assert(s.skip(i).len() == 0);
                    assert(s.skip(i).take(k - i) =~= Seq::<char>::empty());
                }
                break;
            }
            Some(ch) => {
                proof {
                    assert(ch == s[i]);
                    assert(s.skip(i).drop_first() =~= s.skip(i + 1));
                    assert(chars_before(s.skip(i), byte - idx) == 1 + chars_before(
                        s.skip(i + 1),
                        byte - idx - utf8_width(ch),
                    ));
                    lemma_chars_before_len(s.skip(i + 1), byte - idx - utf8_width(ch));
                    lemma_advance_all_step((line as int, col_utf16 as int), s, i, k - i);
                }
                let len = char_len_utf8(ch);
                if ch == '\n' {
                    line = line + 1;
                    col_utf16 = 0;
                } else {
                    col_utf16 = col_utf16 + char_len_utf16(ch);
                }
                proof {
                    assert(it.remaining() == s.skip(i + 1));
                }
                // Once the offset reaches `byte` the scan stops, so the offset
                // is kept at `byte` rather than past it.
                let ghost old_idx = idx;
                idx = if len >= byte - idx { byte } else { idx + len };
                proof {
                    if len >= byte - old_idx {
                        assert(chars_before(s.skip(i + 1), byte - old_idx - len) == 0);
                        assert(chars_before(s.skip(i + 1), byte - idx) == 0);
                    }
                    i = i + 1;
                }
            }
        }
    }
    Position { line, character: col_utf16 }
}


/// Byte offset at which character `i` of `s` starts in the UTF-8 encoding.
pub open spec fn char_offset(s: Seq<char>, i: int) -> int
    decreases i,
{
    if i <= 0 || s.len() == 0 {
        0
    } else {
        utf8_width(s[0]) + char_offset(s.drop_first(), i - 1)
    }
}

proof fn lemma_char_offset_step(s: Seq<char>, i: int)
    requires
        0 <= i < s.len(),
    ensures
        char_offset(s, i + 1) == char_offset(s, i) + utf8_width(s[i]),
    decreases i,
{
    assert(char_offset(s, i + 1) == utf8_width(s[0]) + char_offset(s.drop_first(), i));
    if i > 0 {
        assert(char_offset(s, i) == utf8_width(s[0]) + char_offset(s.drop_first(), i - 1));
        assert(s.drop_first()[i - 1] == s[i]);
        lemma_char_offset_step(s.drop_first(), i - 1);
    } else {
        assert(char_offset(s.drop_first(), 0) == 0);
    }
}

proof fn lemma_encode_len(s: Seq<char>)
    ensures
        encode_utf8(s).len() == char_offset(s, s.len() as int),
    decreases s.len(),
{
    if s.len() > 0 {
        char_is_scalar(s[0]);
        lemma_encode_len(s.drop_first());
    }
}

/// The characters of `s` that start before `b` are exactly the first `i`
/// when `b` lies after the start of character `i - 1` and at or before the
/// start of character `i`.
proof fn lemma_chars_before_exact(s: Seq<char>, b: int, i: int)
    requires
        0 <= i <= s.len(),
        i > 0 ==> char_offset(s, i - 1) < b,
        i < s.len() ==> b <= char_offset(s, i),
    ensures
        chars_before(s, b) == i,
    decreases s.len(),
{
    if i > 0 {
        if i > 1 {
            assert(char_offset(s, i - 1) == utf8_width(s[0]) + char_offset(s.drop_first(), i - 2));
        }
        if i < s.len() {
            assert(char_offset(s, i) == utf8_width(s[0]) + char_offset(s.drop_first(), i - 1));
        }
        lemma_chars_before_exact(s.drop_first(), b - utf8_width(s[0]), i - 1);
    }
}

proof fn lemma_advance_all_push(p: (int, int), a: Seq<char>, c: char)
    ensures
        advance_all(p, a.push(c)) == advance(advance_all(p, a), c),
        fits_u32_from(p, a.push(c)) == (fits_u32_from(p, a) && advance(advance_all(p, a), c).0
            <= u32::MAX && advance(advance_all(p, a), c).1 <= u32::MAX),
    decreases a.len(),
{
    assert(a.push(c)[0] == if a.len() == 0 { c } else { a[0] });
    if a.len() == 0 {
        assert(a.push(c).drop_first() =~= Seq::<char>::empty());
        assert(advance_all(advance(p, c), Seq::<char>::empty()) == advance(p, c));
        assert(fits_u32_from(advance(p, c), Seq::<char>::empty()));
    } else {
        assert(a.push(c).drop_first() =~= a.drop_first().push(c));
        lemma_advance_all_push(advance(p, a[0]), a.drop_first(), c);
    }
}

/// The LSP position of every byte offset in `offsets`, computed in a single
/// scan of `text` after ordering the offsets.
///
/// Entry `j` of the result is the position of `offsets[j]`, exactly as
/// [`byte_to_position`] computes it.
pub fn byte_offsets_to_positions(text: &str, offsets: &Vec<usize>) -> (res: Vec<Position>)
    requires
        fits_u32(text@),
    ensures
        res.len() == offsets.len(),
        forall|j: int|
            0 <= j < offsets.len() ==> ((#[trigger] res[j]).line as int, res[j].character as int)
                == position_of(text@, offsets[j] as int),
{
    let ghost s = text@;
    let n = offsets.len();
    // Order the slots by offset (insertion sort; stable).
    let mut order: Vec<usize> = Vec::new();
    let mut i: usize = 0;
    while i < n
        invariant
            n == offsets.len(),
            i <= n,
            order.len() == i,
            forall|k: int| 0 <= k < order.len() ==> (#[trigger] order[k]) < n,
            forall|a: int, b: int|
                0 <= a < b < order.len() ==> offsets[#[trigger] order[a] as int]
                    <= offsets[#[trigger] order[b] as int],
            forall|j: usize| j < i ==> #[trigger] order@.contains(j),
        decreases n - i,
    {
        let key = offsets[i];
        let mut pos = order.len();
        while pos > 0 && offsets[order[pos - 1]] > key
            invariant
                pos <= order.len(),
                n == offsets.len(),
                i < n,
                key == offsets[i as int],
                forall|k: int| 0 <= k < order.len() ==> (#[trigger] order[k]) < n,
                forall|k: int| pos <= k < order.len() ==> offsets[#[trigger] order[k] as int] > key,
            decreases pos,
        {
            pos = pos - 1;
        }
        proof {
            if pos > 0 {
                assert(offsets[order[pos - 1] as int] <= key);
            }
        }
        let ghost before = order@;
        order.insert(pos, i);
        proof {
            assert forall|j: usize| j < i + 1 implies #[trigger] order@.contains(j) by {
                if j == i {
                    assert(order@[pos as int] == j);
                } else {
                    assert(before.contains(j));
                    let k = choose|k: int| 0 <= k < before.len() && before[k] == j;
                    if k < pos {
                        assert(order@[k] == j);
                    } else {
                        assert(order@[k + 1] == j);
                    }
                }
            }
            assert forall|a: int, b: int|
                0 <= a < b < order.len() implies offsets[#[trigger] order[a] as int]
                <= offsets[#[trigger] order[b] as int] by {
                if a < pos && b == pos {
                    if a < pos - 1 {
                        assert(offsets[before[a] as int] <= offsets[before[pos - 1] as int]);
                    }
                } else if a == pos && b > pos {
                    assert(order[b] == before[b - 1]);
                } else if a < pos && b > pos {
                    assert(order[b] == before[b - 1]);
                } else if a > pos {
                    assert(order[a] == before[a - 1]);
                    assert(order[b] == before[b - 1]);
                }
            }
        }
        i = i + 1;
    }
    // Scan the text once, handing out positions in offset order.
    let mut out: Vec<Position> = Vec::new();
    let mut k: usize = 0;
    while k < n
        invariant
            k <= n,
            out.len() == k,
        decreases n - k,
    {
        out.push(Position { line: 0, character: 0 });
        k = k + 1;
    }
    let mut line: u32 = 0;
    let mut col_utf16: u32 = 0;
    let mut idx: usize = 0;
    let mut p: usize = 0;
    let ghost mut ci: int = 0;
    let bytes = text.as_bytes();
    let _byte_len = bytes.len();
    let mut it = text.chars();
    proof {
        lemma_encode_len(s);
        assert(s.skip(0) =~= s);
        assert(s.take(0) =~= Seq::<char>::empty());
    }
    loop
        invariant
            0 <= ci <= s.len(),
            it.remaining() == s.skip(ci),
            it.obeys_prophetic_iter_laws(),
            n == offsets.len(),
            order.len() == n,
            out.len() == n,
            p <= n,
            fits_u32(s),
            encode_utf8(s).len() == char_offset(s, s.len() as int),
            encode_utf8(s).len() <= usize::MAX,
            idx == char_offset(s, ci),
            (line as int, col_utf16 as int) == advance_all((0, 0), s.take(ci)),
            forall|q: int| 0 <= q < order.len() ==> (#[trigger] order[q]) < n,
            forall|a: int, b: int|
                0 <= a < b < order.len() ==> offsets[#[trigger] order[a] as int]
                    <= offsets[#[trigger] order[b] as int],
            forall|j: usize| j < n ==> #[trigger] order@.contains(j),
            ci > 0 ==> forall|q: int|
                p <= q < n ==> char_offset(s, ci - 1) < offsets[#[trigger] order[q] as int],
            forall|q: int|
                0 <= q < p ==> ((#[trigger] out[order[q] as int]).line as int, out[order[q] as int].character as int)
                    == position_of(s, offsets[order[q] as int] as int),
        ensures
            ci == s.len(),
        decreases s.len() - ci, n - p,
    {
        while p < n && offsets[order[p]] <= idx
            invariant
                0 <= ci <= s.len(),
                n == offsets.len(),
                order.len() == n,
                out.len() == n,
                p <= n,
                idx == char_offset(s, ci),
                (line as int, col_utf16 as int) == advance_all((0, 0), s.take(ci)),
                forall|q: int| 0 <= q < order.len() ==> (#[trigger] order[q]) < n,
                forall|a: int, b: int|
                    0 <= a < b < order.len() ==> offsets[#[trigger] order[a] as int]
                        <= offsets[#[trigger] order[b] as int],
                ci > 0 ==> forall|q: int|
                    p <= q < n ==> char_offset(s, ci - 1) < offsets[#[trigger] order[q] as int],
                forall|q: int|
                    0 <= q < p ==> ((#[trigger] out[order[q] as int]).line as int, out[order[q] as int].character as int)
                        == position_of(s, offsets[order[q] as int] as int),
            decreases n - p,
        {
            let slot = order[p];
            proof {
                lemma_chars_before_exact(s, offsets[slot as int] as int, ci);
            }
            out.set(slot, Position { line, character: col_utf16 });
            proof {
                assert forall|q: int| 0 <= q < p + 1 implies ((#[trigger] out[order[q] as int]).line as int,
                    out[order[q] as int].character as int) == position_of(s, offsets[order[q] as int] as int) by {
                    if order[q] == slot {
                        assert(offsets[order[q] as int] == offsets[slot as int]);
                    }
                }
            }
            p = p + 1;
        }
        let next = it.next();
        match next {
            None => {
                proof {
                    assert(s.skip(ci).len() == 0);
                }
                break;
            }
            Some(ch) => {
                proof {
                    assert(ch == s[ci]);
                    assert(s.take(ci + 1) =~= s.take(ci).push(ch));
                    lemma_advance_all_push((0, 0), s.take(ci), ch);
                    lemma_fits_prefix((0, 0), s, ci + 1);
                    lemma_char_offset_step(s, ci);
                    assert(s.skip(ci).drop_first() =~= s.skip(ci + 1));
                    // Offsets of later characters never exceed the text's length.
                    lemma_char_offset_mono(s, ci + 1, s.len() as int);
                }
                let len = char_len_utf8(ch);
                if ch == '\n' {
                    line = line + 1;
                    col_utf16 = 0;
                } else {
                    col_utf16 = col_utf16 + char_len_utf16(ch);
                }
                idx = idx + len;
                proof {
                    ci = ci + 1;
                }
            }
        }
    }
    // Offsets past the start of the last character see the whole text.
    while p < n
        invariant
            ci == s.len(),
            n == offsets.len(),
            order.len() == n,
            out.len() == n,
            p <= n,
            (line as int, col_utf16 as int) == advance_all((0, 0), s.take(ci)),
            forall|q: int| 0 <= q < order.len() ==> (#[trigger] order[q]) < n,
            ci > 0 ==> forall|q: int|
                p <= q < n ==> char_offset(s, ci - 1) < offsets[#[trigger] order[q] as int],
            forall|q: int|
                0 <= q < p ==> ((#[trigger] out[order[q] as int]).line as int, out[order[q] as int].character as int)
                    == position_of(s, offsets[order[q] as int] as int),
        decreases n - p,
    {
        let slot = order[p];
        proof {
            lemma_chars_before_exact(s, offsets[slot as int] as int, ci);
        }
        out.set(slot, Position { line, character: col_utf16 });
        proof {
            assert forall|q: int| 0 <= q < p + 1 implies ((#[trigger] out[order[q] as int]).line as int,
                out[order[q] as int].character as int) == position_of(s, offsets[order[q] as int] as int) by {
                if order[q] == slot {
                    assert(offsets[order[q] as int] == offsets[slot as int]);
                }
            }
        }
        p = p + 1;
    }
    proof {
        assert forall|j: int| 0 <= j < offsets.len() implies ((#[trigger] out[j]).line as int,
            out[j].character as int) == position_of(s, offsets[j] as int) by {
            assert(order@.contains(j as usize));
            let q = choose|q: int| 0 <= q < order.len() && order@[q] == j as usize;
            assert(order[q] as int == j);
            assert(out[order[q] as int] == out[j]);
        }
    }
    out
}

proof fn lemma_char_offset_mono(s: Seq<char>, i: int, j: int)
    requires
        0 <= i <= j <= s.len(),
    ensures
        char_offset(s, i) <= char_offset(s, j),
    decreases j - i,
{
    if i < j {
        lemma_char_offset_step(s, j - 1);
        lemma_char_offset_mono(s, i, j - 1);
    }
}

/// Does counting lines and UTF-16 columns over all of `text` stay within
/// `u32` (the range of LSP positions)?
pub fn positions_fit(text: &str) -> (r: bool)
    ensures
        r == fits_u32(text@),
{
    let ghost s = text@;
    let mut line: u32 = 0;
    let mut col: u32 = 0;
    let mut it = text.chars();
    let ghost mut i: int = 0;
    proof {
        assert(s.skip(0) =~= s);
    }
    loop
        invariant
            0 <= i <= s.len(),
            s == text@,
            it.remaining() == s.skip(i),
            it.obeys_prophetic_iter_laws(),
            fits_u32(s) == fits_u32_from((line as int, col as int), s.skip(i)),
        decreases s.len() - i,
    {
        match it.next() {
            None => {
                proof {
                    assert(s.skip(i).len() == 0);
                }
                return true;
            },
            Some(ch) => {
                proof {
                    assert(ch == s[i]);
                    assert(s.skip(i)[0] == ch);
                    assert(s.skip(i).drop_first() =~= s.skip(i + 1));
                }
                if ch == '\n' {
                    if line == u32::MAX {
                        return false;
                    }
                    line = line + 1;
                    col = 0;
                } else {
                    let w = char_len_utf16(ch);
                    if col > u32::MAX - w {
                        return false;
                    }
                    col = col + w;
                }
                proof {
                    i = i + 1;
                }
            },
        }
    }
}

/// `p` comes no later than `q` in a document: an earlier line, or the same
/// line and a column no greater.
pub open spec fn precedes_or_equals(p: (int, int), q: (int, int)) -> bool {
    p.0 < q.0 || (p.0 == q.0 && p.1 <= q.1)
}

proof fn lemma_chars_before_mono(s: Seq<char>, b1: int, b2: int)
    requires
        b1 <= b2,
    ensures
        chars_before(s, b1) <= chars_before(s, b2),
    decreases s.len(),
{
    if s.len() > 0 && b1 > 0 {
        lemma_chars_before_mono(s.drop_first(), b1 - utf8_width(s[0]), b2 - utf8_width(s[0]));
    }
}

proof fn lemma_reading_moves_forward(p: (int, int), t: Seq<char>)
    ensures
        precedes_or_equals(p, advance_all(p, t)),
    decreases t.len(),
{
    if t.len() > 0 {
        lemma_reading_moves_forward(advance(p, t[0]), t.drop_first());
    }
}

proof fn lemma_advance_all_concat(p: (int, int), a: Seq<char>, b: Seq<char>)
    ensures
        advance_all(p, a + b) == advance_all(advance_all(p, a), b),
    decreases a.len(),
{
    if a.len() == 0 {
        assert(a + b =~= b);
    } else {
        assert((a + b)[0] == a[0]);
        assert((a + b).drop_first() =~= a.drop_first() + b);
        lemma_advance_all_concat(advance(p, a[0]), a.drop_first(), b);
    }
}

/// Positions follow byte offsets: a byte offset no greater than another
/// never lies at a later LSP position, so every range of a match (start
/// byte before end byte) starts no later than it ends.
pub proof fn law_positions_ordered(s: Seq<char>, b1: int, b2: int)
    requires
        b1 <= b2,
    ensures
        precedes_or_equals(position_of(s, b1), position_of(s, b2)),
{
    let k1 = chars_before(s, b1) as int;
    let k2 = chars_before(s, b2) as int;
    lemma_chars_before_mono(s, b1, b2);
    lemma_chars_before_len(s, b2);
    assert(s.take(k2) =~= s.take(k1) + s.subrange(k1, k2));
    lemma_advance_all_concat((0, 0), s.take(k1), s.subrange(k1, k2));
    lemma_reading_moves_forward(advance_all((0, 0), s.take(k1)), s.subrange(k1, k2));
}

proof fn lemma_fits_within_bytes(p: (int, int), s: Seq<char>)
    requires
        0 <= p.0,
        0 <= p.1,
        p.0 + char_offset(s, s.len() as int) <= u32::MAX,
        p.1 + char_offset(s, s.len() as int) <= u32::MAX,
    ensures
        fits_u32_from(p, s),
    decreases s.len(),
{
    if s.len() > 0 {
        let c = s[0];
        assert(char_offset(s, s.len() as int) == utf8_width(c) + char_offset(s.drop_first(), s.len() - 1));
        assert(s.drop_first().len() == s.len() - 1);
        assert(utf16_width(c) <= utf8_width(c));
        lemma_char_offset_mono(s.drop_first(), 0, s.len() - 1);
        assert(char_offset(s.drop_first(), 0) == 0);
        assert(advance(p, c).0 <= u32::MAX && advance(p, c).1 <= u32::MAX);
        lemma_fits_within_bytes(advance(p, c), s.drop_first());
    }
}

/// A text of at most `u32::MAX` bytes has every line and UTF-16 column
/// within `u32`: counting never overflows on it.
pub proof fn law_short_texts_fit(text: Seq<char>)
    requires
        encode_utf8(text).len() <= u32::MAX,
    ensures
        fits_u32(text),
{
    lemma_encode_len(text);
    lemma_fits_within_bytes((0, 0), text);
}

/// A character takes two UTF-16 code units exactly when it is a
/// supplementary character, which is exactly when it takes four UTF-8
/// bytes; every other character (`'€'`, `'中'`, ASCII) takes one. So a
/// character advances the LSP column by one unit unless its UTF-8 form has
/// four bytes.
pub proof fn law_utf16_units(c: char)
    ensures
        utf16_width(c) == (if utf8_width(c) == 4 { 2nat } else { 1nat }),
        (c as u32) < 0x10000 ==> utf16_width(c) == 1,
        utf16_width(c) <= utf8_width(c),
{
}

/// Reading a character other than a newline moves the column right by its
/// UTF-16 width: one unit for every character below U+10000.
pub proof fn law_column_advance(p: (int, int), c: char)
    requires
        c != '\n',
        (c as u32) < 0x10000,
    ensures
        advance(p, c) == (p.0, p.1 + 1),
{
}

} // verus!
