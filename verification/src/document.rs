//! Open documents: their text, the colors found in it with their LSP
//! ranges, and a cache of those colors until the text changes.
use vstd::prelude::*;
use crate::detectors::{detect_all, detected, in_source, range_bounds, ColorMatch};
use crate::parser::{byte_len, parse_text, parses};
pub use crate::position::{byte_to_position, Position, Range};
use crate::position::{byte_offsets_to_positions, fits_u32, position_of, positions_fit};
use crate::text::str_eq;

verus! {

/// `r` is the LSP range of the bytes `start..end` of a text with
/// characters `text`.
pub open spec fn is_range_of(text: Seq<char>, start: usize, end: usize, r: Range) -> bool {
    &&& (r.start.line as int, r.start.character as int) == position_of(text, start as int)
    &&& (r.end.line as int, r.end.character as int) == position_of(text, end as int)
}

/// `colors` lists, with their LSP ranges in `text`, the merged detections
/// in the tree-sitter parse of `text` (none when it does not parse),
/// ordered by range; each covers a span of `text`.
pub open spec fn describes(text: Seq<char>, colors: Seq<(Range, ColorMatch)>) -> bool {
    &&& if parses(text) {
        detected(text, byte_len(text), range_bounds(None), colors.map_values(|p: (Range, ColorMatch)| p.1))
    } else {
        colors.len() == 0
    }
    &&& forall|i: int| 0 <= i < colors.len() ==> in_source(text, (#[trigger] colors[i]).1)
    &&& forall|i: int|
        0 <= i < colors.len() ==> is_range_of(
            text,
            (#[trigger] colors[i]).1.start_byte,
            colors[i].1.end_byte,
            colors[i].0,
        )
}

/// The LSP range of every match, converted in a single pass over `text`.
///
/// Range `i` spans the positions of `matches[i].start_byte` and
/// `matches[i].end_byte`, exactly as [`byte_to_position`] gives them.
pub fn byte_ranges_to_lsp(text: &str, matches: &[ColorMatch]) -> (res: Vec<Range>)
    requires
        fits_u32(text@),
    ensures
        res.len() == matches@.len(),
        forall|i: int|
            0 <= i < matches@.len() ==> is_range_of(
                text@,
                (#[trigger] matches@[i]).start_byte,
                matches@[i].end_byte,
                res[i],
            ),
{
    let n = matches.len();
    let mut offsets: Vec<usize> = Vec::new();
    let mut i: usize = 0;
    while i < n
        invariant
            n == matches@.len(),
            i <= n,
            offsets.len() == 2 * i,
            forall|j: int|
                0 <= j < i ==> offsets[2 * j] == (#[trigger] matches@[j]).start_byte && offsets[2 * j
                    + 1] == matches@[j].end_byte,
        decreases n - i,
    {
        offsets.push(matches[i].start_byte);
        offsets.push(matches[i].end_byte);
        i = i + 1;
    }
    let positions = byte_offsets_to_positions(text, &offsets);
    let mut ranges: Vec<Range> = Vec::new();
    let mut k: usize = 0;
    while k < n
        invariant
            n == matches@.len(),
            k <= n,
            offsets.len() == 2 * n,
            positions.len() == 2 * n,
            ranges.len() == k,
            forall|j: int|
                0 <= j < n ==> offsets[2 * j] == (#[trigger] matches@[j]).start_byte && offsets[2 * j
                    + 1] == matches@[j].end_byte,
            forall|j: int|
                0 <= j < 2 * n ==> ((#[trigger] positions[j]).line as int, positions[j].character as int)
                    == position_of(text@, offsets[j] as int),
            forall|j: int|
                0 <= j < k ==> is_range_of(
                    text@,
                    (#[trigger] matches@[j]).start_byte,
                    matches@[j].end_byte,
                    ranges[j],
                ),
        decreases n - k,
    {
        let r = Range { start: positions[2 * k], end: positions[2 * k + 1] };
        proof {
            assert(offsets[2 * k as int] == matches@[k as int].start_byte);
            assert(positions[2 * k as int] == r.start);
            assert(positions[2 * k + 1] == r.end);
        }
        ranges.push(r);
        k = k + 1;
    }
    ranges
}

/// Converting all ranges in one pass gives each range exactly the
/// positions that converting its two byte offsets one at a time with
/// [`byte_to_position`] gives.
pub proof fn law_batch_matches_single(text: Seq<char>, m: ColorMatch, r: Range, start: Position, end: Position)
    requires
        is_range_of(text, m.start_byte, m.end_byte, r),
        (start.line as int, start.character as int) == position_of(text, m.start_byte as int),
        (end.line as int, end.character as int) == position_of(text, m.end_byte as int),
    ensures
        r == (Range { start, end }),
{
}

/// A document's text with its colors, cached until the text changes.
pub struct Document {
    /// Current text.
    pub text: String,
    cache: Option<Vec<(Range, ColorMatch)>>,
}

impl Document {
    /// The characters of the current text.
    pub closed spec fn content(&self) -> Seq<char> {
        self.text@
    }

    /// The colors cached for the current text, if any.
    pub closed spec fn cached(&self) -> Option<Seq<(Range, ColorMatch)>> {
        match self.cache {
            Some(c) => Some(c@),
            None => None,
        }
    }

    /// A cache, when present, describes the current text.
    pub closed spec fn wf(&self) -> bool {
        self.cached() matches Some(c) ==> describes(self.content(), c)
    }

    /// A document holding `text`, with nothing cached.
    pub fn new(text: String) -> (d: Self)
        ensures
            d.content() == text@,
            d.cached() is None,
            d.wf(),
    {
        Self { text, cache: None }
    }

    /// Replace the text, dropping the cached colors.
    pub fn set_text(&mut self, text: String)
        ensures
            final(self).content() == text@,
            final(self).cached() is None,
            final(self).wf(),
    {
        self.text = text;
        self.cache = None;
    }

    /// The colors of the current text with their LSP ranges, ordered by
    /// range: the cached ones when present, else freshly computed and then
    /// cached.
    pub fn colors(&mut self) -> (res: Vec<(Range, ColorMatch)>)
        requires
            old(self).wf(),
            fits_u32(old(self).content()),
        ensures
            final(self).content() == old(self).content(),
            final(self).wf(),
            describes(old(self).content(), res@),
            old(self).cached() matches Some(c) ==> res@ == c && final(self).cached() == Some(c),
            old(self).cached() is None ==> final(self).cached() == Some(res@),
    {
        if let Some(cached) = &self.cache {
            return copy_colors(cached);
        }
        let computed = self.compute_colors();
        self.cache = Some(copy_colors(&computed));
        computed
    }

    fn compute_colors(&self) -> (res: Vec<(Range, ColorMatch)>)
        requires
            fits_u32(self.text@),
        ensures
            describes(self.text@, res@),
    {
        // The detectors' merged output is already ordered by range.
        let syntax = match parse_text(self.text.as_str()) {
            Some(t) => t,
            None => {
                let empty: Vec<(Range, ColorMatch)> = Vec::new();
                return empty;
            },
        };
        let mut matches = detect_all(&syntax);
        let ghost ms = matches@;
        let ranges = byte_ranges_to_lsp(self.text.as_str(), matches.as_slice());
        let n = matches.len();
        // Pair range and match, last first, then restore the order.
        let mut reversed: Vec<(Range, ColorMatch)> = Vec::new();
        let mut i = n;
        while i > 0
            invariant
                i <= n,
                n == ms.len(),
                ranges.len() == n,
                matches@ == ms.take(i as int),
                reversed.len() == n - i,
                forall|j: int|
                    0 <= j < n - i ==> (#[trigger] reversed@[j]) == (ranges[n - 1 - j], ms[n - 1 - j]),
            decreases i,
        {
            let m = matches.pop().unwrap();
            proof {
                assert(m == ms[i - 1]);
                assert(matches@ =~= ms.take(i - 1));
            }
            reversed.push((ranges[i - 1], m));
            i = i - 1;
        }
        let mut res: Vec<(Range, ColorMatch)> = Vec::new();
        while reversed.len() > 0
            invariant
                reversed.len() + res.len() == n,
                n == ms.len(),
                ranges.len() == n,
                forall|j: int|
                    0 <= j < reversed.len() ==> (#[trigger] reversed@[j]) == (ranges[n - 1 - j], ms[n - 1 - j]),
                forall|j: int| 0 <= j < res.len() ==> (#[trigger] res@[j]) == (ranges[j], ms[j]),
            decreases reversed.len(),
        {
            let p = reversed.pop().unwrap();
            res.push(p);
        }
        proof {
            assert(res@.map_values(|p: (Range, ColorMatch)| p.1) =~= ms);
            assert forall|j: int| 0 <= j < res@.len() implies is_range_of(
                self.text@,
                (#[trigger] res@[j]).1.start_byte,
                res@[j].1.end_byte,
                res@[j].0,
            ) by {
                assert(res@[j] == (ranges[j], ms[j]));
            }
            assert forall|j: int| 0 <= j < res@.len() implies in_source(self.text@, (#[trigger] res@[j]).1) by {
                assert(res@[j] == (ranges[j], ms[j]));
            }
        }
        res
    }
}

/// A copy of `colors`.
fn copy_colors(colors: &Vec<(Range, ColorMatch)>) -> (res: Vec<(Range, ColorMatch)>)
    ensures
        res@ == colors@,
{
    let mut res: Vec<(Range, ColorMatch)> = Vec::new();
    let mut i: usize = 0;
    while i < colors.len()
        invariant
            i <= colors.len(),
            res@ == colors@.take(i as int),
        decreases colors.len() - i,
    {
        res.push((colors[i].0, colors[i].1.clone()));
        proof {
            assert(res@ =~= colors@.take(i + 1));
        }
        i = i + 1;
    }
    proof {
        assert(colors@.take(colors.len() as int) =~= colors@);
    }
    res
}

/// The open documents, by URI.
pub struct DocumentStore {
    docs: Vec<(String, Document)>,
}

impl Default for DocumentStore {
    fn default() -> (s: Self)
        ensures
            s.wf(),
            forall|u: Seq<char>| s.doc(u) is None,
    {
        DocumentStore { docs: Vec::new() }
    }
}

/// `new` is `old` with `uri` holding a fresh document with text `text`
/// and every other document unchanged.
pub open spec fn opened(old: DocumentStore, new: DocumentStore, uri: Seq<char>, text: Seq<char>) -> bool {
    &&& new.doc(uri) matches Some(d) && d.content() == text && d.cached() is None
    &&& forall|u: Seq<char>| u != uri ==> #[trigger] new.doc(u) == old.doc(u)
}

/// `new` is `old` with the text of the document at `uri`, if there is one,
/// replaced by `text` and its cache dropped; every other document unchanged.
pub open spec fn updated(old: DocumentStore, new: DocumentStore, uri: Seq<char>, text: Seq<char>) -> bool {
    &&& old.doc(uri) is None ==> new.doc(uri) is None
    &&& old.doc(uri) is Some ==> (new.doc(uri) matches Some(d) && d.content() == text && d.cached() is None)
    &&& forall|u: Seq<char>| u != uri ==> #[trigger] new.doc(u) == old.doc(u)
}

/// `new` is `old` without the document at `uri`.
pub open spec fn removed(old: DocumentStore, new: DocumentStore, uri: Seq<char>) -> bool {
    &&& new.doc(uri) is None
    &&& forall|u: Seq<char>| u != uri ==> #[trigger] new.doc(u) == old.doc(u)
}

/// Reading the colors of `uri` from `old` gives `res` and leaves `new`:
/// for an open document, its colors (the cached ones if there were any,
/// now cached); nothing for any other URI. Texts are unchanged.
pub open spec fn colors_read(
    old: DocumentStore,
    new: DocumentStore,
    uri: Seq<char>,
    res: Seq<(Range, ColorMatch)>,
) -> bool {
    &&& forall|u: Seq<char>| u != uri ==> #[trigger] new.doc(u) == old.doc(u)
    &&& match old.doc(uri) {
        Some(d) => {
            &&& describes(d.content(), res)
            &&& new.doc(uri) matches Some(d2) && d2.content() == d.content() && d2.cached() == Some(res)
            &&& d.cached() matches Some(c) ==> res == c
        },
        None => res.len() == 0 && new.doc(uri) is None,
    }
}

impl DocumentStore {
    /// Documents are stored under distinct URIs, each with a cache that
    /// describes its text.
    pub closed spec fn wf(&self) -> bool {
        &&& forall|i: int, j: int|
            0 <= i < j < self.docs@.len() ==> (#[trigger] self.docs@[i]).0@ != (#[trigger] self.docs@[j]).0@
        &&& forall|i: int| 0 <= i < self.docs@.len() ==> (#[trigger] self.docs@[i]).1.wf()
    }

    /// The document open at `uri`, if any.
    pub closed spec fn doc(&self, uri: Seq<char>) -> Option<Document> {
        if exists|i: int| 0 <= i < self.docs@.len() && (#[trigger] self.docs@[i]).0@ == uri {
            let i = choose|i: int| 0 <= i < self.docs@.len() && (#[trigger] self.docs@[i]).0@ == uri;
            Some(self.docs@[i].1)
        } else {
            None
        }
    }

    fn find(&self, uri: &str) -> (r: Option<usize>)
        requires
            self.wf(),
        ensures
            r matches Some(i) ==> i < self.docs@.len() && self.docs@[i as int].0@ == uri@ && self.doc(uri@)
                == Some(self.docs@[i as int].1),
            r is None ==> self.doc(uri@) is None,
    {
        let mut i: usize = 0;
        while i < self.docs.len()
            invariant
                self.wf(),
                i <= self.docs@.len(),
                forall|j: int| 0 <= j < i ==> (#[trigger] self.docs@[j]).0@ != uri@,
            decreases self.docs@.len() - i,
        {
            if str_eq(self.docs[i].0.as_str(), uri) {
                proof {
                    assert(self.docs@[i as int].0@ == uri@);
                    let k = choose|k: int| 0 <= k < self.docs@.len() && (#[trigger] self.docs@[k]).0@ == uri@;
                    if k != i {
                        assert(self.docs@[k].0@ == self.docs@[i as int].0@);
                    }
                }
                return Some(i);
            }
            i = i + 1;
        }
        None
    }

    /// Open `uri` with `text`, replacing any document already open there.
    pub fn open(&mut self, uri: String, text: String)
        requires
            old(self).wf(),
        ensures
            final(self).wf(),
            opened(*old(self), *final(self), uri@, text@),
    {
        let ghost key = uri@;
        let ghost before = self.docs@;
        match self.find(uri.as_str()) {
            Some(i) => {
                self.docs.set(i, (uri, Document::new(text)));
                proof {
                    assert forall|u: Seq<char>| u != key implies #[trigger] self.doc(u) == old(self).doc(u) by {
                        if exists|j: int| 0 <= j < before.len() && (#[trigger] before[j]).0@ == u {
                            let j = choose|j: int| 0 <= j < before.len() && (#[trigger] before[j]).0@ == u;
                            assert(self.docs@[j].0@ == u);
                        }
                        if exists|j: int| 0 <= j < self.docs@.len() && (#[trigger] self.docs@[j]).0@ == u {
                            let j = choose|j: int| 0 <= j < self.docs@.len() && (#[trigger] self.docs@[j]).0@ == u;
                            assert(before[j].0@ == u);
                        }
                    }
                    assert(self.docs@[i as int].0@ == key);
                }
            },
            None => {
                self.docs.push((uri, Document::new(text)));
                proof {
                    let n = before.len() as int;
                    assert(self.docs@[n].0@ == key);
                    assert forall|u: Seq<char>| u != key implies #[trigger] self.doc(u) == old(self).doc(u) by {
                        if exists|j: int| 0 <= j < before.len() && (#[trigger] before[j]).0@ == u {
                            let j = choose|j: int| 0 <= j < before.len() && (#[trigger] before[j]).0@ == u;
                            assert(self.docs@[j].0@ == u);
                        }
                        if exists|j: int| 0 <= j < self.docs@.len() && (#[trigger] self.docs@[j]).0@ == u {
                            let j = choose|j: int| 0 <= j < self.docs@.len() && (#[trigger] self.docs@[j]).0@ == u;
                            assert(before[j].0@ == u);
                        }
                    }
                }
            },
        }
    }

    /// Replace the text of the document open at `uri`, if there is one.
    pub fn update(&mut self, uri: &str, text: String)
        requires
            old(self).wf(),
        ensures
            final(self).wf(),
            updated(*old(self), *final(self), uri@, text@),
    {
        let ghost before = self.docs@;
        if let Some(i) = self.find(uri) {
            let (key, mut doc) = self.docs.remove(i);
            doc.set_text(text);
            self.docs.insert(i, (key, doc));
            proof {
                assert(self.docs@ =~= before.update(i as int, self.docs@[i as int]));
                assert forall|u: Seq<char>| u != uri@ implies #[trigger] self.doc(u) == old(self).doc(u) by {
                    if exists|j: int| 0 <= j < before.len() && (#[trigger] before[j]).0@ == u {
                        let j = choose|j: int| 0 <= j < before.len() && (#[trigger] before[j]).0@ == u;
                        assert(self.docs@[j].0@ == u);
                    }
                    if exists|j: int| 0 <= j < self.docs@.len() && (#[trigger] self.docs@[j]).0@ == u {
                        let j = choose|j: int| 0 <= j < self.docs@.len() && (#[trigger] self.docs@[j]).0@ == u;
                        assert(before[j].0@ == u);
                    }
                }
                assert(self.docs@[i as int].0@ == uri@);
            }
        }
    }

    /// Close the document open at `uri`, if there is one.
    pub fn close(&mut self, uri: &str)
        requires
            old(self).wf(),
        ensures
            final(self).wf(),
            removed(*old(self), *final(self), uri@),
    {
        let ghost before = self.docs@;
        if let Some(i) = self.find(uri) {
            self.docs.remove(i);
            proof {
                assert(self.docs@ =~= before.remove(i as int));
                assert forall|u: Seq<char>| u != uri@ implies #[trigger] self.doc(u) == old(self).doc(u) by {
                    if exists|j: int| 0 <= j < before.len() && (#[trigger] before[j]).0@ == u {
                        let j = choose|j: int| 0 <= j < before.len() && (#[trigger] before[j]).0@ == u;
                        if j < i {
                            assert(self.docs@[j].0@ == u);
                        } else {
                            assert(self.docs@[j - 1].0@ == u);
                        }
                    }
                    if exists|j: int| 0 <= j < self.docs@.len() && (#[trigger] self.docs@[j]).0@ == u {
                        let j = choose|j: int| 0 <= j < self.docs@.len() && (#[trigger] self.docs@[j]).0@ == u;
                        if j < i {
                            assert(before[j].0@ == u);
                        } else {
                            assert(before[j + 1].0@ == u);
                        }
                    }
                }
                if exists|j: int| 0 <= j < self.docs@.len() && (#[trigger] self.docs@[j]).0@ == uri@ {
                    let j = choose|j: int| 0 <= j < self.docs@.len() && (#[trigger] self.docs@[j]).0@ == uri@;
                    if j < i {
                        assert(before[j].0@ == before[i as int].0@);
                    } else {
                        assert(before[j + 1].0@ == before[i as int].0@);
                    }
                }
            }
        }
    }

    /// Whether the positions of the document open at `uri`, if any, fit in
    /// LSP's `u32` lines and columns (see [`positions_fit`]).
    pub fn positions_fit_for(&self, uri: &str) -> (r: bool)
        requires
            self.wf(),
        ensures
            r == (self.doc(uri@) matches Some(d) ==> fits_u32(d.content())),
    {
        match self.find(uri) {
            Some(i) => positions_fit(self.docs[i].1.text.as_str()),
            None => true,
        }
    }

    /// The colors of the document open at `uri` (see [`Document::colors`]),
    /// or none when no document is open there.
    pub fn colors_for(&mut self, uri: &str) -> (res: Vec<(Range, ColorMatch)>)
        requires
            old(self).wf(),
            old(self).doc(uri@) matches Some(d) ==> fits_u32(d.content()),
        ensures
            final(self).wf(),
            colors_read(*old(self), *final(self), uri@, res@),
    {
        let ghost before = self.docs@;
        match self.find(uri) {
            Some(i) => {
                let (key, mut doc) = self.docs.remove(i);
                let res = doc.colors();
                self.docs.insert(i, (key, doc));
                proof {
                    assert(self.docs@ =~= before.update(i as int, self.docs@[i as int]));
                    assert forall|u: Seq<char>| u != uri@ implies #[trigger] self.doc(u) == old(self).doc(u) by {
                        if exists|j: int| 0 <= j < before.len() && (#[trigger] before[j]).0@ == u {
                            let j = choose|j: int| 0 <= j < before.len() && (#[trigger] before[j]).0@ == u;
                            assert(self.docs@[j].0@ == u);
                        }
                        if exists|j: int| 0 <= j < self.docs@.len() && (#[trigger] self.docs@[j]).0@ == u {
                            let j = choose|j: int| 0 <= j < self.docs@.len() && (#[trigger] self.docs@[j]).0@ == u;
                            assert(before[j].0@ == u);
                        }
                    }
                    assert(self.docs@[i as int].0@ == uri@);
                }
                res
            },
            None => Vec::new(),
        }
    }
}

/// Reading the colors of a document right after opening it gives colors
/// of the text it was opened with.
pub proof fn law_open_then_colors(
    s0: DocumentStore,
    s1: DocumentStore,
    s2: DocumentStore,
    uri: Seq<char>,
    text: Seq<char>,
    res: Seq<(Range, ColorMatch)>,
)
    requires
        opened(s0, s1, uri, text),
        colors_read(s1, s2, uri, res),
    ensures
        describes(text, res),
{
}

/// Reading the colors of an open document right after its text was
/// replaced gives colors of the new text, never the ones cached for the old.
pub proof fn law_update_then_colors(
    s0: DocumentStore,
    s1: DocumentStore,
    s2: DocumentStore,
    uri: Seq<char>,
    text: Seq<char>,
    res: Seq<(Range, ColorMatch)>,
)
    requires
        s0.doc(uri) is Some,
        updated(s0, s1, uri, text),
        colors_read(s1, s2, uri, res),
    ensures
        describes(text, res),
        s2.doc(uri) matches Some(d) && d.cached() == Some(res),
{
}

/// A closed document has no colors.
pub proof fn law_close_then_colors(
    s0: DocumentStore,
    s1: DocumentStore,
    s2: DocumentStore,
    uri: Seq<char>,
    res: Seq<(Range, ColorMatch)>,
)
    requires
        removed(s0, s1, uri),
        colors_read(s1, s2, uri, res),
    ensures
        res.len() == 0,
{
}

/// Reading the colors of a document twice in a row gives the same colors:
/// the second read is served from the cache the first one filled.
pub proof fn law_colors_stable(
    s0: DocumentStore,
    s1: DocumentStore,
    s2: DocumentStore,
    uri: Seq<char>,
    r1: Seq<(Range, ColorMatch)>,
    r2: Seq<(Range, ColorMatch)>,
)
    requires
        colors_read(s0, s1, uri, r1),
        colors_read(s1, s2, uri, r2),
    ensures
        r1 == r2,
{
}

/// Operations on one document leave every other document as it was.
pub proof fn law_other_documents_untouched(
    s0: DocumentStore,
    s1: DocumentStore,
    uri: Seq<char>,
    other: Seq<char>,
    text: Seq<char>,
    res: Seq<(Range, ColorMatch)>,
)
    requires
        other != uri,
        opened(s0, s1, uri, text) || updated(s0, s1, uri, text) || removed(s0, s1, uri) || colors_read(
            s0,
            s1,
            uri,
            res,
        ),
    ensures
        s1.doc(other) == s0.doc(other),
{
}

} // verus!
