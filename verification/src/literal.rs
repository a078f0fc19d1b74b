//! Rust numeric literals as they appear in constructor arguments: type
//! suffixes, digit separators, and whether the remaining text is a decimal
//! floating-point number.
use vstd::prelude::*;
use vstd::string::StrSliceExecFns;
use vstd::string::StringExecFns;
use crate::text::chars_of;

verus! {

/// Type suffixes that may end a literal whose last character is `last`,
/// in the order they are tried.
pub open spec fn suffix_candidates(last: char) -> Seq<&'static str> {
    if last == '2' {
        seq!["f32", "i32", "u32"]
    } else if last == '4' {
        seq!["f64", "i64", "u64"]
    } else if last == '6' {
        seq!["i16", "u16"]
    } else if last == '8' {
        seq!["i8", "u8", "i128", "u128"]
    } else if last == 'e' {
        seq!["isize", "usize"]
    } else {
        seq![]
    }
}

/// Does `s` end with `suf`?
pub open spec fn ends_with(s: Seq<char>, suf: Seq<char>) -> bool {
    suf.len() <= s.len() && s.subrange(s.len() - suf.len(), s.len() as int) == suf
}

/// `s` without the first of `cands` that it ends with (unchanged if none).
pub open spec fn strip_first(s: Seq<char>, cands: Seq<&str>) -> Seq<char>
    decreases cands.len(),
{
    if cands.len() == 0 {
        s
    } else if ends_with(s, cands[0]@) {
        s.subrange(0, s.len() - cands[0]@.len())
    } else {
        strip_first(s, cands.drop_first())
    }
}

/// `s` without its Rust integer or float type suffix, if it has one.
pub open spec fn without_type_suffix(s: Seq<char>) -> Seq<char> {
    if s.len() == 0 {
        s
    } else {
        strip_first(s, suffix_candidates(s.last()))
    }
}

fn candidates_for(last: char) -> (r: Vec<&'static str>)
    ensures
        r@ == suffix_candidates(last),
{
    let mut v: Vec<&'static str> = Vec::new();
    if last == '2' {
        v.push("f32");
        v.push("i32");
        v.push("u32");
    } else if last == '4' {
        v.push("f64");
        v.push("i64");
        v.push("u64");
    } else if last == '6' {
        v.push("i16");
        v.push("u16");
    } else if last == '8' {
        v.push("i8");
        v.push("u8");
        v.push("i128");
        v.push("u128");
    } else if last == 'e' {
        v.push("isize");
        v.push("usize");
    }
    proof {
        assert(v@ =~= suffix_candidates(last));
    }
    v
}

fn ends_with_exec(s: &Vec<char>, suf: &str) -> (r: bool)
    ensures
        r == ends_with(s@, suf@),
{
    let t = chars_of(suf);
    if t.len() > s.len() {
        return false;
    }
    let off = s.len() - t.len();
    let mut i: usize = 0;
    while i < t.len()
        invariant
            t@ == suf@,
            off + t.len() == s.len(),
            i <= t.len(),
            forall|j: int| 0 <= j < i ==> s@[off + j] == t@[j],
        decreases t.len() - i,
    {
        if s[off + i] != t[i] {
            proof {
                assert(s@.subrange(off as int, s.len() as int)[i as int] != suf@[i as int]);
            }
            return false;
        }
        i = i + 1;
    }
    proof {
        assert(s@.subrange(off as int, s.len() as int) =~= suf@);
    }
    true
}

/// Strip a trailing Rust integer/float type suffix (`f32`, `u8`, `isize`, ...)
/// from a literal. The suffixes that can end in the literal's last character
/// are tried in turn and the first that matches is removed.
pub fn strip_rust_suffix(s: &str) -> (r: &str)
    ensures
        r@ == without_type_suffix(s@),
{
    let cs = chars_of(s);
    let n = cs.len();
    if n == 0 {
        return s;
    }
    let cands = candidates_for(cs[n - 1]);
    let mut k: usize = 0;
    proof {
        assert(cands@.skip(0) =~= cands@);
    }
    while k < cands.len()
        invariant
            cs@ == s@,
            n == s@.len(),
            n > 0,
            cands@ == suffix_candidates(s@.last()),
            k <= cands.len(),
            strip_first(s@, cands@) == strip_first(s@, cands@.skip(k as int)),
        decreases cands.len() - k,
    {
        proof {
            assert(cands@.skip(k as int)[0] == cands@[k as int]);
            assert(cands@.skip(k as int).drop_first() =~= cands@.skip(k + 1));
        }
        if ends_with_exec(&cs, cands[k]) {
            let m = chars_of(cands[k]).len();
            return s.substring_char(0, n - m);
        }
        k = k + 1;
    }
    proof {
        assert(cands@.skip(k as int) =~= Seq::<&str>::empty());
    }
    s
}

/// `s` with every `_` digit separator removed.
pub open spec fn without_separators(s: Seq<char>) -> Seq<char>
    decreases s.len(),
{
    if s.len() == 0 {
        s
    } else if s.last() == '_' {
        without_separators(s.drop_last())
    } else {
        without_separators(s.drop_last()).push(s.last())
    }
}

/// A copy of `s` with every `_` removed.
pub fn remove_separators(s: &str) -> (r: String)
    ensures
        r@ == without_separators(s@),
{
    let cs = chars_of(s);
    let mut out = String::new();
    let mut i: usize = 0;
    proof {
        assert(s@.take(0) =~= Seq::<char>::empty());
    }
    while i < cs.len()
        invariant
            cs@ == s@,
            i <= cs.len(),
            out@ == without_separators(s@.take(i as int)),
        decreases cs.len() - i,
    {
        proof {
            assert(s@.take(i + 1).drop_last() =~= s@.take(i as int));
            assert(s@.take(i + 1).last() == s@[i as int]);
        }
        if cs[i] != '_' {
            let piece = s.substring_char(i, i + 1);
            proof {
                assert(piece@ =~= seq![s@[i as int]]);
            }
            out.append(piece);
            proof {
                assert(out@ =~= without_separators(s@.take(i as int)).push(s@[i as int]));
            }
        }
        i = i + 1;
    }
    proof {
        assert(s@.take(cs.len() as int) =~= s@);
    }
    out
}

/// An ASCII decimal digit.
pub open spec fn is_digit(c: char) -> bool {
    '0' <= c && c <= '9'
}

/// Every character of `s` is a decimal digit.
pub open spec fn all_digits(s: Seq<char>) -> bool {
    forall|i: int| 0 <= i < s.len() ==> is_digit(#[trigger] s[i])
}

/// `s` without one leading `+` or `-`.
pub open spec fn unsigned(s: Seq<char>) -> Seq<char> {
    if s.len() > 0 && (s[0] == '+' || s[0] == '-') {
        s.drop_first()
    } else {
        s
    }
}

/// Index of the first character of `s` equal to `a` or `b` (`s.len()` if none).
pub open spec fn first_of(s: Seq<char>, a: char, b: char) -> nat
    decreases s.len(),
{
    if s.len() == 0 {
        0
    } else if s[0] == a || s[0] == b {
        0
    } else {
        1 + first_of(s.drop_first(), a, b)
    }
}

/// The code of the ASCII lower case of `c`.
pub open spec fn lower_code(c: char) -> u32 {
    if 'A' <= c && c <= 'Z' {
        ((c as u32) + 32) as u32
    } else {
        c as u32
    }
}

/// `s` spells `word` (given in lower case) ignoring ASCII case.
pub open spec fn spells(s: Seq<char>, word: Seq<char>) -> bool {
    s.len() == word.len() && forall|i: int| 0 <= i < s.len() ==> lower_code(#[trigger] s[i]) == word[i] as u32
}

/// `inf`, `infinity` or `nan`, in any case.
pub open spec fn is_special_float(u: Seq<char>) -> bool {
    spells(u, seq!['i', 'n', 'f']) || spells(u, seq!['i', 'n', 'f', 'i', 'n', 'i', 't', 'y'])
        || spells(u, seq!['n', 'a', 'n'])
}

/// Digits with at most one `.` among them, and at least one digit.
pub open spec fn is_mantissa(m: Seq<char>) -> bool {
    let d = first_of(m, '.', '.') as int;
    if d == m.len() {
        m.len() >= 1 && all_digits(m)
    } else {
        m.len() >= 2 && all_digits(m.take(d)) && all_digits(m.skip(d + 1))
    }
}

/// An optional sign followed by at least one digit.
pub open spec fn is_exponent(e: Seq<char>) -> bool {
    unsigned(e).len() >= 1 && all_digits(unsigned(e))
}

/// `s` is a decimal floating-point number as `str::parse::<f32>` accepts it:
/// an optional sign, then `inf`, `infinity` or `nan` in any case, or digits
/// with at most one `.` (at least one digit) and an optional exponent
/// (`e` or `E`, an optional sign, at least one digit).
pub open spec fn is_decimal_float(s: Seq<char>) -> bool {
    let u = unsigned(s);
    is_special_float(u) || {
        let p = first_of(u, 'e', 'E') as int;
        &&& is_mantissa(u.take(p))
        &&& (p == u.len() || is_exponent(u.skip(p + 1)))
    }
}

proof fn lemma_first_of_found(s: Seq<char>, a: char, b: char, i: int)
    requires
        0 <= i <= s.len(),
        forall|j: int| 0 <= j < i ==> s[j] != a && s[j] != b,
        i == s.len() || s[i] == a || s[i] == b,
    ensures
        first_of(s, a, b) == i,
    decreases i,
{
    if i > 0 {
        lemma_first_of_found(s.drop_first(), a, b, i - 1);
    }
}

fn first_of_exec(cs: &Vec<char>, lo: usize, hi: usize, a: char, b: char) -> (r: usize)
    requires
        lo <= hi <= cs.len(),
    ensures
        lo <= r <= hi,
        r - lo == first_of(cs@.subrange(lo as int, hi as int), a, b),
{
    let mut i = lo;
    while i < hi && cs[i] != a && cs[i] != b
        invariant
            lo <= i <= hi,
            hi <= cs.len(),
            forall|j: int| lo <= j < i ==> cs@[j] != a && cs@[j] != b,
        decreases hi - i,
    {
        i = i + 1;
    }
    proof {
        lemma_first_of_found(cs@.subrange(lo as int, hi as int), a, b, i - lo);
    }
    i
}

fn all_digits_exec(cs: &Vec<char>, lo: usize, hi: usize) -> (r: bool)
    requires
        lo <= hi <= cs.len(),
    ensures
        r == all_digits(cs@.subrange(lo as int, hi as int)),
{
    let mut i = lo;
    while i < hi
        invariant
            lo <= i <= hi,
            hi <= cs.len(),
            forall|j: int| lo <= j < i ==> is_digit(cs@[j]),
        decreases hi - i,
    {
        if !('0' <= cs[i] && cs[i] <= '9') {
            proof {
                assert(!is_digit(cs@.subrange(lo as int, hi as int)[i - lo]));
            }
            return false;
        }
        i = i + 1;
    }
    proof {
        assert forall|j: int| 0 <= j < hi - lo implies is_digit(
            #[trigger] cs@.subrange(lo as int, hi as int)[j],
        ) by {
            assert(cs@.subrange(lo as int, hi as int)[j] == cs@[lo + j]);
        }
    }
    true
}

fn lower_code_exec(c: char) -> (r: u32)
    ensures
        r == lower_code(c),
{
    if 'A' <= c && c <= 'Z' {
        (c as u32) + 32
    } else {
        c as u32
    }
}

fn spells_exec(cs: &Vec<char>, lo: usize, word: &Vec<char>) -> (r: bool)
    requires
        lo <= cs.len(),
    ensures
        r == spells(cs@.skip(lo as int), word@),
{
    if cs.len() - lo != word.len() {
        return false;
    }
    let mut i: usize = 0;
    while i < word.len()
        invariant
            lo + word.len() == cs.len(),
            i <= word.len(),
            forall|j: int| 0 <= j < i ==> lower_code(cs@[lo + j]) == word@[j] as u32,
        decreases word.len() - i,
    {
        if lower_code_exec(cs[lo + i]) != word[i] as u32 {
            proof {
                assert(cs@.skip(lo as int)[i as int] == cs@[lo + i]);
            }
            return false;
        }
        i = i + 1;
    }
    proof {
        assert forall|j: int| 0 <= j < cs@.skip(lo as int).len() implies lower_code(
            #[trigger] cs@.skip(lo as int)[j],
        ) == word@[j] as u32 by {
            assert(cs@.skip(lo as int)[j] == cs@[lo + j]);
        }
    }
    true
}

/// Does `s` parse as an `f32` (see [`is_decimal_float`])?
pub fn is_float_text(s: &str) -> (r: bool)
    ensures
        r == is_decimal_float(s@),
{
    let cs = chars_of(s);
    let n = cs.len();
    let lo: usize = if n > 0 && (cs[0] == '+' || cs[0] == '-') { 1 } else { 0 };
    let ghost u = unsigned(s@);
    proof {
        assert(u =~= cs@.skip(lo as int));
        assert(cs@.subrange(lo as int, n as int) =~= u);
    }
    let inf = vec!['i', 'n', 'f'];
    let infinity = vec!['i', 'n', 'f', 'i', 'n', 'i', 't', 'y'];
    let nan = vec!['n', 'a', 'n'];
    if spells_exec(&cs, lo, &inf) || spells_exec(&cs, lo, &infinity) || spells_exec(&cs, lo, &nan) {
        return true;
    }
    let p = first_of_exec(&cs, lo, n, 'e', 'E');
    let ghost m = u.take(p - lo);
    proof {
        assert(cs@.subrange(lo as int, p as int) =~= m);
    }
    let d = first_of_exec(&cs, lo, p, '.', '.');
    let mantissa_ok = if d == p {
        p > lo && all_digits_exec(&cs, lo, p)
    } else {
        proof {
            assert(cs@.subrange(lo as int, d as int) =~= m.take(d - lo));
            assert(cs@.subrange(d + 1, p as int) =~= m.skip(d - lo + 1));
        }
        p - lo >= 2 && all_digits_exec(&cs, lo, d) && all_digits_exec(&cs, d + 1, p)
    };
    if !mantissa_ok {
        return false;
    }
    if p == n {
        return true;
    }
    let ghost e = u.skip(p - lo + 1);
    let elo: usize = if p + 1 < n && (cs[p + 1] == '+' || cs[p + 1] == '-') { p + 2 } else { p + 1 };
    proof {
        assert(e =~= cs@.skip(p + 1));
        assert(cs@.subrange(elo as int, n as int) =~= unsigned(e));
    }
    elo < n && all_digits_exec(&cs, elo, n)
}

/// The decimal text that a numeric literal's value is parsed from: the
/// literal without digit separators and type suffix, when that text is a
/// decimal float.
pub open spec fn literal_decimal(text: Seq<char>) -> Option<Seq<char>> {
    let t = without_type_suffix(without_separators(text));
    if is_decimal_float(t) {
        Some(t)
    } else {
        None
    }
}

/// The decimal text of a Rust numeric literal (`1_000.5f32` gives
/// `1000.5`), or `None` when what remains after removing separators and
/// suffix does not parse as an `f32`.
pub fn parse_numeric_literal(text: &str) -> (r: Option<String>)
    ensures
        r matches Some(t) ==> literal_decimal(text@) == Some(t@),
        r is None ==> literal_decimal(text@) is None,
{
    let cleaned = remove_separators(text);
    let stripped = strip_rust_suffix(cleaned.as_str());
    if is_float_text(stripped) {
        Some(stripped.to_owned())
    } else {
        None
    }
}

} // verus!
