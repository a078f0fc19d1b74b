//! Small string utilities over the character view of `str`.
use vstd::prelude::*;
use vstd::std_specs::iter::IteratorSpec;

verus! {

/// The characters of `s`, in order.
pub fn chars_of(s: &str) -> (v: Vec<char>)
    ensures
        v@ == s@,
{
    let ghost full = s@;
    let mut v: Vec<char> = Vec::new();
    let mut it = s.chars();
    let ghost mut i: int = 0;
    proof {
        assert(full.skip(0) =~= full);
    }
    loop
        invariant
            0 <= i <= full.len(),
            v@ == full.take(i),
            it.remaining() == full.skip(i),
            it.obeys_prophetic_iter_laws(),
            full == s@,
        ensures
            v@ == full,
        decreases full.len() - i,
    {
        match it.next() {
            None => {
                proof {
                    assert(full.skip(i).len() == 0);
                    assert(full.take(i) =~= full);
                }
                break;
            },
            Some(c) => {
                proof {
                    assert(c == full[i]);
                    assert(full.skip(i).drop_first() =~= full.skip(i + 1));
                    assert(full.take(i + 1) =~= full.take(i).push(c));
                }
                v.push(c);
                proof {
                    i = i + 1;
                }
            },
        }
    }
    v
}

/// Do `a` and `b` hold the same characters?
pub fn str_eq(a: &str, b: &str) -> (r: bool)
    ensures
        r == (a@ == b@),
{
    let x = chars_of(a);
    let y = chars_of(b);
    if x.len() != y.len() {
        return false;
    }
    let mut i: usize = 0;
    while i < x.len()
        invariant
            x@ == a@,
            y@ == b@,
            x.len() == y.len(),
            i <= x.len(),
            forall|j: int| 0 <= j < i ==> x@[j] == y@[j],
        decreases x.len() - i,
    {
        if x[i] != y[i] {
            return false;
        }
        i = i + 1;
    }
    proof {
        assert(x@ =~= y@);
    }
    true
}

/// Is `s` one of the strings in `options`?
pub fn str_in(s: &str, options: &[&str]) -> (r: bool)
    ensures
        r == exists|k: int| 0 <= k < options@.len() && s@ == (#[trigger] options@[k])@,
{
    let mut k: usize = 0;
    while k < options.len()
        invariant
            k <= options@.len(),
            forall|j: int| 0 <= j < k ==> s@ != (#[trigger] options@[j])@,
        decreases options@.len() - k,
    {
        if str_eq(s, options[k]) {
            return true;
        }
        k = k + 1;
    }
    false
}

} // verus!
