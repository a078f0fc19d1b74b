//! Hex color literals: `#RGB`, `#RGBA`, `#RRGGBB` and `#RRGGBBAA`.
use vstd::prelude::*;
use vstd::string::StringSliceAdditionalSpecFns;

verus! {

/// An sRGB color with straight alpha, each channel an 8-bit value
/// (the value of the channel is the byte divided by 255).
#[derive(Clone, Copy, Debug, PartialEq, Eq, Structural)]
pub struct Rgba8 {
    /// Red channel.
    pub r: u8,
    /// Green channel.
    pub g: u8,
    /// Blue channel.
    pub b: u8,
    /// Alpha channel.
    pub a: u8,
}

/// The value of an ASCII hexadecimal digit (either case).
pub open spec fn hex_digit(b: u8) -> Option<u8> {
    if 0x30 <= b <= 0x39 {
        Some((b - 0x30) as u8)
    } else if 0x61 <= b <= 0x66 {
        Some((b - 0x61 + 10) as u8)
    } else if 0x41 <= b <= 0x46 {
        Some((b - 0x41 + 10) as u8)
    } else {
        None
    }
}

/// `s` with every leading `#` removed.
pub open spec fn trim_hashes(s: Seq<u8>) -> Seq<u8>
    decreases s.len(),
{
    if s.len() > 0 && s[0] == 0x23 {
        trim_hashes(s.drop_first())
    } else {
        s
    }
}

/// The byte that a one-digit component `d` stands for (the digit doubled,
/// so `a` stands for `0xaa`).
pub open spec fn short_value(d: u8) -> Option<u8> {
    match hex_digit(d) {
        Some(v) => Some((v * 17) as u8),
        None => None,
    }
}

/// A two-byte component read as a base-16 number: two hex digits.
pub open spec fn pair_value(b0: u8, b1: u8) -> Option<u8> {
    match (hex_digit(b0), hex_digit(b1)) {
        (Some(h), Some(l)) => Some((h * 16 + l) as u8),
        _ => None,
    }
}

/// The components of a short form (`RGB`/`RGBA`), one per byte.
pub open spec fn short_values(t: Seq<u8>) -> Option<Seq<u8>>
    decreases t.len(),
{
    if t.len() == 0 {
        Some(Seq::empty())
    } else {
        match (short_value(t[0]), short_values(t.drop_first())) {
            (Some(v), Some(rest)) => Some(seq![v] + rest),
            _ => None,
        }
    }
}

/// The components of a long form (`RRGGBB`/`RRGGBBAA`), one per byte pair,
/// read from pair `i` on; `None` as soon as a pair is not a number.
pub open spec fn pair_values(t: Seq<u8>, i: int) -> Option<Seq<u8>>
    decreases t.len() - i,
{
    if i < 0 || i + 2 > t.len() {
        Some(Seq::empty())
    } else {
        match pair_value(t[i], t[i + 1]) {
            None => None,
            Some(v) => match pair_values(t, i + 2) {
                Some(rest) => Some(seq![v] + rest),
                None => None,
            },
        }
    }
}

/// The channels denoted by the components `v` (three or four of them).
pub open spec fn channels(v: Seq<u8>) -> Option<Rgba8> {
    if v.len() == 3 {
        Some(Rgba8 { r: v[0], g: v[1], b: v[2], a: 255 })
    } else if v.len() == 4 {
        Some(Rgba8 { r: v[0], g: v[1], b: v[2], a: v[3] })
    } else {
        None
    }
}

/// The color a hex literal with UTF-8 bytes `s` denotes: after leading `#`s,
/// three or four one-digit components, or six or eight bytes read as
/// two-digit components; `None` for any other length or any byte that is
/// not a hex digit.
pub open spec fn hex_color(s: Seq<u8>) -> Option<Rgba8> {
    let t = trim_hashes(s);
    if t.len() == 3 || t.len() == 4 {
        match short_values(t) {
            Some(v) => channels(v),
            None => None,
        }
    } else if t.len() == 6 || t.len() == 8 {
        match pair_values(t, 0) {
            Some(v) => channels(v),
            None => None,
        }
    } else {
        None
    }
}

fn hex_digit_exec(b: u8) -> (r: Option<u8>)
    ensures
        r == hex_digit(b),
{
    if 0x30 <= b && b <= 0x39 {
        Some(b - 0x30)
    } else if 0x61 <= b && b <= 0x66 {
        Some(b - 0x61 + 10)
    } else if 0x41 <= b && b <= 0x46 {
        Some(b - 0x41 + 10)
    } else {
        None
    }
}

fn pair_value_exec(b0: u8, b1: u8) -> (r: Option<u8>)
    ensures
        r == pair_value(b0, b1),
{
    match (hex_digit_exec(b0), hex_digit_exec(b1)) {
        (Some(h), Some(l)) => Some(h * 16 + l),
        _ => None,
    }
}

proof fn lemma_trim_hashes(s: Seq<u8>, h: int)
    requires
        0 <= h <= s.len(),
        forall|k: int| 0 <= k < h ==> s[k] == 0x23,
        h == s.len() || s[h] != 0x23,
    ensures
        trim_hashes(s) == s.skip(h),
    decreases h,
{
    if h == 0 {
        assert(s.skip(0) =~= s);
    } else {
        assert(s.drop_first().skip(h - 1) =~= s.skip(h));
        lemma_trim_hashes(s.drop_first(), h - 1);
    }
}

/// Index of the first byte of `bytes` that is not `#`.
fn skip_hashes(bytes: &[u8]) -> (h: usize)
    ensures
        h <= bytes@.len(),
        trim_hashes(bytes@) == bytes@.skip(h as int),
{
    let mut h: usize = 0;
    while h < bytes.len() && bytes[h] == 0x23
        invariant
            h <= bytes@.len(),
            forall|k: int| 0 <= k < h ==> bytes@[k] == 0x23,
        decreases bytes@.len() - h,
    {
        h = h + 1;
    }
    proof {
        lemma_trim_hashes(bytes@, h as int);
    }
    h
}

proof fn lemma_short_values_step(t: Seq<u8>, i: int, acc: Seq<u8>)
    requires
        0 <= i < t.len(),
        short_values(t) == (match short_values(t.skip(i)) {
            Some(rest) => Some(acc + rest),
            None => None::<Seq<u8>>,
        }),
    ensures
        short_values(t) == (match (short_value(t[i]), short_values(t.skip(i + 1))) {
            (Some(v), Some(rest)) => Some(acc.push(v) + rest),
            _ => None::<Seq<u8>>,
        }),
{
    assert(t.skip(i).drop_first() =~= t.skip(i + 1));
    assert(t.skip(i)[0] == t[i]);
    match (short_value(t[i]), short_values(t.skip(i + 1))) {
        (Some(v), Some(rest)) => {
            assert(acc + (seq![v] + rest) =~= acc.push(v) + rest);
        },
        _ => {},
    }
}

proof fn lemma_pair_values_step(t: Seq<u8>, i: int, acc: Seq<u8>)
    requires
        0 <= i,
        i + 2 <= t.len(),
        pair_values(t, 0) == (match pair_values(t, i) {
            Some(rest) => Some(acc + rest),
            None => None::<Seq<u8>>,
        }),
    ensures
        pair_values(t, 0) == (match (pair_value(t[i], t[i + 1]), pair_values(t, i + 2)) {
            (Some(v), Some(rest)) => Some(acc.push(v) + rest),
            _ => None::<Seq<u8>>,
        }),
{
    match (pair_value(t[i], t[i + 1]), pair_values(t, i + 2)) {
        (Some(v), Some(rest)) => {
            assert(acc + (seq![v] + rest) =~= acc.push(v) + rest);
        },
        _ => {},
    }
}

/// Parse a hex color literal, with or without leading `#`s.
///
/// Accepts `RGB`, `RGBA`, `RRGGBB` and `RRGGBBAA`; a short component
/// stands for the digit doubled; the alpha of a three- or six-digit form is
/// 255. Returns `None` for any other length or any byte that is not a
/// hex digit.
pub fn parse_hex(s: &str) -> (res: Option<Rgba8>)
    ensures
        res == hex_color(s.spec_bytes()),
{
    let bytes = s.as_bytes();
    let h = skip_hashes(bytes);
    let n = bytes.len() - h;
    let ghost t = bytes@.skip(h as int);
    let mut vals: Vec<u8> = Vec::new();
    if n == 3 || n == 4 {
        let mut i: usize = 0;
        proof {
            assert(t.skip(0) =~= t);
            assert(Seq::<u8>::empty() + t =~= t);
            assert(vals@ + t.skip(0) =~= t.skip(0));
        }
        while i < n
            invariant
                t == bytes@.skip(h as int),
                bytes@ == s.spec_bytes(),
                trim_hashes(bytes@) == t,
                n == 3 || n == 4,
                bytes@.len() <= usize::MAX,
                n == t.len(),
                h + n == bytes@.len(),
                i <= n,
                vals@.len() == i,
                short_values(t) == (match short_values(t.skip(i as int)) {
                    Some(rest) => Some(vals@ + rest),
                    None => None::<Seq<u8>>,
                }),
            decreases n - i,
        {
            proof {
                lemma_short_values_step(t, i as int, vals@);
                assert(t[i as int] == bytes@[h + i]);
            }
            match hex_digit_exec(bytes[h + i]) {
                Some(v) => {
                    vals.push(v * 17);
                },
                None => {
                    return None;
                },
            }
            i = i + 1;
        }
        proof {
            assert(t.skip(n as int) =~= Seq::<u8>::empty());
            assert(vals@ + Seq::<u8>::empty() =~= vals@);
        }
    } else if n == 6 || n == 8 {
        let mut i: usize = 0;
        proof {
            assert(vals@ + pair_values(t, 0).unwrap_or(Seq::empty()) =~= pair_values(t, 0).unwrap_or(Seq::empty()));
        }
        while i + 2 <= n
            invariant
                t == bytes@.skip(h as int),
                bytes@ == s.spec_bytes(),
                trim_hashes(bytes@) == t,
                n == 6 || n == 8,
                bytes@.len() <= usize::MAX,
                n == t.len(),
                h + n == bytes@.len(),
                i <= n,
                i % 2 == 0,
                n % 2 == 0,
                vals@.len() == i / 2,
                pair_values(t, 0) == (match pair_values(t, i as int) {
                    Some(rest) => Some(vals@ + rest),
                    None => None::<Seq<u8>>,
                }),
            decreases n - i,
        {
            proof {
                lemma_pair_values_step(t, i as int, vals@);
                assert(t[i as int] == bytes@[h + i]);
                assert(t[i + 1] == bytes@[h + i + 1]);
            }
            match pair_value_exec(bytes[h + i], bytes[h + i + 1]) {
                Some(v) => {
                    vals.push(v);
                },
                None => {
                    return None;
                },
            }
            i = i + 2;
        }
        proof {
            assert(pair_values(t, i as int) == Some(Seq::<u8>::empty()));
            assert(vals@ + Seq::<u8>::empty() =~= vals@);
        }
    } else {
        return None;
    }
    if vals.len() == 3 {
        Some(Rgba8 { r: vals[0], g: vals[1], b: vals[2], a: 255 })
    } else {
        Some(Rgba8 { r: vals[0], g: vals[1], b: vals[2], a: vals[3] })
    }
}

/// `d` with every byte written twice (`abc` becomes `aabbcc`).
pub open spec fn doubled(d: Seq<u8>) -> Seq<u8> {
    Seq::new(2 * d.len(), |i: int| d[i / 2])
}

proof fn lemma_short_values_all(t: Seq<u8>)
    requires
        forall|i: int| 0 <= i < t.len() ==> (#[trigger] short_value(t[i])) is Some,
    ensures
        short_values(t) == Some(Seq::new(t.len(), |i: int| short_value(t[i])->0)),
    decreases t.len(),
{
    if t.len() > 0 {
        let r = t.drop_first();
        assert forall|i: int| 0 <= i < r.len() implies (#[trigger] short_value(r[i])) is Some by {
            assert(r[i] == t[i + 1]);
            assert(short_value(t[i + 1]) is Some);
        }
        lemma_short_values_all(r);
        assert(short_value(t[0]) is Some);
        assert(seq![short_value(t[0])->0] + Seq::new(r.len(), |i: int| short_value(r[i])->0) =~= Seq::new(
            t.len(),
            |i: int| short_value(t[i])->0,
        ));
    }
}

proof fn lemma_pair_values_all(t: Seq<u8>, i: int)
    requires
        0 <= i <= t.len(),
        (t.len() - i) % 2 == 0,
        forall|k: int| 0 <= k < (t.len() - i) / 2 ==> (#[trigger] pair_value(t[i + 2 * k], t[i + 2 * k + 1])) is Some,
    ensures
        pair_values(t, i) == Some(Seq::new(((t.len() - i) / 2) as nat, |k: int| pair_value(t[i + 2 * k], t[i + 2 * k + 1])->0)),
    decreases t.len() - i,
{
    let n = ((t.len() - i) / 2) as nat;
    if i + 2 <= t.len() {
        assert forall|k: int| 0 <= k < (t.len() - (i + 2)) / 2 implies (#[trigger] pair_value(
            t[(i + 2) + 2 * k],
            t[(i + 2) + 2 * k + 1],
        )) is Some by {
            assert(pair_value(t[i + 2 * (k + 1)], t[i + 2 * (k + 1) + 1]) is Some);
            assert(i + 2 * (k + 1) == (i + 2) + 2 * k);
        }
        lemma_pair_values_all(t, i + 2);
        assert(pair_value(t[i + 2 * 0], t[i + 2 * 0 + 1]) is Some);
        let rest = Seq::new(((t.len() - (i + 2)) / 2) as nat, |k: int| pair_value(t[(i + 2) + 2 * k], t[(i + 2) + 2 * k + 1])->0);
        let all = Seq::new(n, |k: int| pair_value(t[i + 2 * k], t[i + 2 * k + 1])->0);
        assert forall|k: int| 0 <= k < n implies (seq![pair_value(t[i], t[i + 1])->0] + rest)[k] == all[k] by {
            if k > 0 {
                assert(i + 2 * k == (i + 2) + 2 * (k - 1));
            }
        }
        assert(seq![pair_value(t[i], t[i + 1])->0] + rest =~= all);
    } else {
        assert(Seq::new(n, |k: int| pair_value(t[i + 2 * k], t[i + 2 * k + 1])->0) =~= Seq::<u8>::empty());
    }
}

/// A short form names the color of the long form with every digit doubled:
/// `#abc` is `#aabbcc` and `#f80f` is `#ff8800ff`.
pub proof fn law_short_form_doubles_digits(d: Seq<u8>)
    requires
        d.len() == 3 || d.len() == 4,
        forall|i: int| 0 <= i < d.len() ==> (#[trigger] hex_digit(d[i])) is Some,
    ensures
        hex_color(d) == hex_color(doubled(d)),
        hex_color(d) is Some,
{
    let e = doubled(d);
    assert(hex_digit(d[0]) is Some);
    assert(trim_hashes(d) == d);
    assert(e[0] == d[0]);
    assert(trim_hashes(e) == e);
    assert forall|i: int| 0 <= i < d.len() implies #[trigger] short_value(d[i]) is Some
        && pair_value(e[2 * i], e[2 * i + 1]) == short_value(d[i]) by {
        assert(e[2 * i] == d[i]);
        assert(e[2 * i + 1] == d[i]);
        assert(hex_digit(d[i]) is Some);
        let v = hex_digit(d[i])->0;
        assert(v <= 15);
        assert(v * 16 + v == v * 17);
    }
    lemma_short_values_all(d);
    assert forall|k: int| 0 <= k < (e.len() - 0) / 2 implies (#[trigger] pair_value(e[0 + 2 * k], e[0 + 2 * k + 1])) is Some by {
        assert(short_value(d[k]) is Some);
    }
    lemma_pair_values_all(e, 0);
    assert(Seq::new(d.len(), |i: int| short_value(d[i])->0) =~= Seq::new(
        ((e.len() - 0) / 2) as nat,
        |k: int| pair_value(e[0 + 2 * k], e[0 + 2 * k + 1])->0,
    ));
}

/// A byte is an ASCII hexadecimal digit, in either case.
pub open spec fn is_hex_char(b: u8) -> bool {
    (0x30 <= b <= 0x39) || (0x41 <= b <= 0x46) || (0x61 <= b <= 0x66)
}

/// Every hex digit has its base-16 value, and upper and lower case give
/// the same value: `'0'..='9'` are 0 to 9, `'A'..='F'` and `'a'..='f'` are
/// 10 to 15; any other byte is not a digit.
pub proof fn law_hex_digit_values(b: u8)
    ensures
        is_hex_char(b) <==> hex_digit(b) is Some,
        0x30 <= b <= 0x39 ==> hex_digit(b) == Some((b - 0x30) as u8),
        0x41 <= b <= 0x46 ==> hex_digit(b) == Some((b - 0x41 + 10) as u8) && hex_digit(b) == hex_digit(
            (b + 32) as u8,
        ),
        0x61 <= b <= 0x66 ==> hex_digit(b) == Some((b - 0x61 + 10) as u8),
{
}

/// Any string of three, four, six or eight hex digits (either case), after
/// any leading `#`s, names a color.
pub proof fn law_hex_strings_parse(s: Seq<u8>)
    requires
        trim_hashes(s).len() == 3 || trim_hashes(s).len() == 4 || trim_hashes(s).len() == 6
            || trim_hashes(s).len() == 8,
        forall|i: int| 0 <= i < trim_hashes(s).len() ==> is_hex_char(#[trigger] trim_hashes(s)[i]),
    ensures
        hex_color(s) is Some,
{
    let t = trim_hashes(s);
    if t.len() == 3 || t.len() == 4 {
        assert forall|i: int| 0 <= i < t.len() implies (#[trigger] short_value(t[i])) is Some by {
            assert(is_hex_char(t[i]));
        }
        lemma_short_values_all(t);
    } else {
        assert forall|k: int| 0 <= k < (t.len() - 0) / 2 implies (#[trigger] pair_value(
            t[0 + 2 * k],
            t[0 + 2 * k + 1],
        )) is Some by {
            assert(is_hex_char(t[2 * k]));
            assert(is_hex_char(t[2 * k + 1]));
        }
        lemma_pair_values_all(t, 0);
    }
}

} // verus!
