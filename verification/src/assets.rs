//! The embedded web UI's two decisions: which representation of an asset a
//! client gets, and what an unmatched path is answered with — plus what the
//! embedded assets cost in flash.

use vstd::prelude::*;

verus! {

/// The bytes HTTP's optional whitespace is made of, as the server trims
/// them: space, tab, line feed, form feed and carriage return.
pub open spec fn is_space(byte: u8) -> bool {
    byte == 32 || byte == 9 || byte == 10 || byte == 12 || byte == 13
}

/// A byte with ASCII upper case folded to lower case.
pub open spec fn lower(byte: u8) -> u8 {
    if 65 <= byte <= 90 { (byte + 32) as u8 } else { byte }
}

/// Equal, ignoring ASCII case.
pub open spec fn same_ignoring_case(left: Seq<u8>, right: Seq<u8>) -> bool {
    &&& left.len() == right.len()
    &&& forall|i: int| 0 <= i < left.len() ==> lower(#[trigger] left[i]) == lower(right[i])
}

/// The pieces `bytes` splits into at each `separator`, as `slice::split`
/// yields them: always at least one, possibly empty.
pub open spec fn pieces(bytes: Seq<u8>, separator: u8) -> Seq<Seq<u8>>
    decreases bytes.len(),
{
    if bytes.len() == 0 {
        seq![Seq::<u8>::empty()]
    } else {
        let before = pieces(bytes.drop_last(), separator);
        if bytes.last() == separator {
            before.push(Seq::<u8>::empty())
        } else {
            before.update(before.len() - 1, before.last().push(bytes.last()))
        }
    }
}

/// `bytes` without leading optional whitespace.
pub open spec fn trim_start(bytes: Seq<u8>) -> Seq<u8>
    decreases bytes.len(),
{
    if bytes.len() > 0 && is_space(bytes[0]) {
        trim_start(bytes.subrange(1, bytes.len() as int))
    } else {
        bytes
    }
}

/// `bytes` without trailing optional whitespace.
pub open spec fn trim_end(bytes: Seq<u8>) -> Seq<u8>
    decreases bytes.len(),
{
    if bytes.len() > 0 && is_space(bytes.last()) {
        trim_end(bytes.drop_last())
    } else {
        bytes
    }
}

/// `bytes` without optional whitespace at either end.
pub open spec fn trimmed(bytes: Seq<u8>) -> Seq<u8> {
    trim_end(trim_start(bytes))
}

/// `gzip`.
pub open spec fn gzip_word() -> Seq<u8> {
    seq![103u8, 122, 105, 112]
}

/// `*`: any coding the server has.
pub open spec fn any_word() -> Seq<u8> {
    seq![42u8]
}

/// `q=0`: the coding is refused.
pub open spec fn refusal_word() -> Seq<u8> {
    seq![113u8, 61, 48]
}

/// One coding of an `Accept-Encoding` list accepts gzip: it names gzip or
/// anything, and none of its parameters is exactly `q=0`. Other `q` values
/// are preferences between codings, and there is only one coding here.
pub open spec fn coding_accepts_gzip(coding: Seq<u8>) -> bool {
    let parameters = pieces(coding, 59u8);
    let name = trimmed(parameters[0]);
    &&& same_ignoring_case(name, gzip_word()) || same_ignoring_case(name, any_word())
    &&& !exists|j: int| 1 <= j < parameters.len() && same_ignoring_case(trimmed(#[trigger] parameters[j]), refusal_word())
}

/// An `Accept-Encoding` value accepts gzip when one of its comma-separated
/// codings does.
pub open spec fn header_accepts_gzip(header: Seq<u8>) -> bool {
    exists|k: int| 0 <= k < pieces(header, 44u8).len() && coding_accepts_gzip(trimmed(#[trigger] pieces(header, 44u8)[k]))
}

/// Where, within `bytes[start..end]`, the trimmed text lies.
fn trim_range(bytes: &[u8], start: usize, end: usize) -> (range: (usize, usize))
    requires
        start <= end <= bytes@.len(),
    ensures
        start <= range.0 <= range.1 <= end,
        bytes@.subrange(range.0 as int, range.1 as int) == trimmed(bytes@.subrange(start as int, end as int)),
{
    let mut first = start;
    while first < end && (bytes[first] == 32 || bytes[first] == 9 || bytes[first] == 10 || bytes[first] == 12 || bytes[first] == 13)
        invariant
            start <= first <= end <= bytes@.len(),
            trim_start(bytes@.subrange(start as int, end as int)) == trim_start(bytes@.subrange(first as int, end as int)),
        decreases end - first,
    {
        assert(bytes@.subrange(first as int, end as int).subrange(1, (end - first) as int) =~= bytes@.subrange(first + 1, end as int));
        first += 1;
    }
    let mut last = end;
    while last > first && (bytes[last - 1] == 32 || bytes[last - 1] == 9 || bytes[last - 1] == 10 || bytes[last - 1] == 12 || bytes[last - 1] == 13)
        invariant
            start <= first <= last <= end <= bytes@.len(),
            trim_start(bytes@.subrange(start as int, end as int)) == bytes@.subrange(first as int, end as int),
            trimmed(bytes@.subrange(start as int, end as int)) == trim_end(bytes@.subrange(first as int, last as int)),
        decreases last - first,
    {
        assert(bytes@.subrange(first as int, last as int).drop_last() =~= bytes@.subrange(first as int, last - 1));
        last -= 1;
    }
    (first, last)
}

/// Whether `bytes[start..end]` is `word` (given in lower case) once trimmed,
/// ignoring ASCII case.
fn trimmed_is(bytes: &[u8], start: usize, end: usize, word: &[u8]) -> (same: bool)
    requires
        start <= end <= bytes@.len(),
        forall|i: int| 0 <= i < word@.len() ==> lower(#[trigger] word@[i]) == word@[i],
    ensures
        same == same_ignoring_case(trimmed(bytes@.subrange(start as int, end as int)), word@),
{
    let (first, last) = trim_range(bytes, start, end);
    let ghost text = bytes@.subrange(first as int, last as int);
    if last - first != word.len() {
        return false;
    }
    let mut index: usize = 0;
    while index < word.len()
        invariant
            start <= end <= bytes@.len(),
            first <= last <= bytes@.len(),
            last - first == word@.len(),
            text == bytes@.subrange(first as int, last as int),
            text == trimmed(bytes@.subrange(start as int, end as int)),
            index <= word@.len(),
            forall|i: int| 0 <= i < index ==> lower(#[trigger] text[i]) == lower(word@[i]),
        decreases word.len() - index,
    {
        let byte = bytes[first + index];
        let folded = if 65 <= byte && byte <= 90 { byte + 32 } else { byte };
        let expected = word[index];
        let expected_folded = if 65 <= expected && expected <= 90 { expected + 32 } else { expected };
        assert(text[index as int] == byte);
        assert(folded == lower(byte));
        assert(expected_folded == lower(expected));
        if folded != expected_folded {
            assert(lower(text[index as int]) != lower(word@[index as int]));
            return false;
        }
        index += 1;
    }
    true
}

/// One step of [`pieces`]: what appending a byte does.
proof fn lemma_pieces_step(bytes: Seq<u8>, upto: int, start: int, separator: u8)
    requires
        0 <= start <= upto < bytes.len(),
        pieces(bytes.subrange(start, upto), separator).len() >= 1,
    ensures
        pieces(bytes.subrange(start, upto + 1), separator) == (if bytes[upto] == separator {
            pieces(bytes.subrange(start, upto), separator).push(Seq::<u8>::empty())
        } else {
            let before = pieces(bytes.subrange(start, upto), separator);
            before.update(before.len() - 1, before.last().push(bytes[upto]))
        }),
{
    assert(bytes.subrange(start, upto + 1).drop_last() =~= bytes.subrange(start, upto));
}

/// Whether the coding at `bytes[start..end]` accepts gzip.
fn coding_accepts(bytes: &[u8], start: usize, end: usize) -> (accepts: bool)
    requires
        start <= end <= bytes@.len(),
    ensures
        accepts == coding_accepts_gzip(trimmed(bytes@.subrange(start as int, end as int))),
{
    let gzip: [u8; 4] = [103, 122, 105, 112];
    let any: [u8; 1] = [42];
    let refusal: [u8; 3] = [113, 61, 48];
    assert(gzip@ =~= gzip_word());
    assert(any@ =~= any_word());
    assert(refusal@ =~= refusal_word());
    let (first, last) = trim_range(bytes, start, end);
    let ghost coding = bytes@.subrange(first as int, last as int);
    let mut piece = first;
    let mut index = first;
    let mut named = false;
    let mut name_ok = false;
    let mut refused = false;
    proof {
        assert(bytes@.subrange(first as int, first as int) =~= Seq::<u8>::empty());
    }
    while index < last
        invariant
            start <= first <= piece <= index <= last <= end <= bytes@.len(),
            coding == bytes@.subrange(first as int, last as int),
            coding == trimmed(bytes@.subrange(start as int, end as int)),
            gzip@ == gzip_word(),
            any@ == any_word(),
            refusal@ == refusal_word(),
            pieces(bytes@.subrange(first as int, index as int), 59u8).len() >= 1,
            pieces(bytes@.subrange(first as int, index as int), 59u8).last() == bytes@.subrange(piece as int, index as int),
            named == (pieces(bytes@.subrange(first as int, index as int), 59u8).len() > 1),
            named ==> name_ok == (same_ignoring_case(trimmed(pieces(bytes@.subrange(first as int, index as int), 59u8)[0]), gzip_word())
                || same_ignoring_case(trimmed(pieces(bytes@.subrange(first as int, index as int), 59u8)[0]), any_word())),
            refused == exists|j: int| 1 <= j < pieces(bytes@.subrange(first as int, index as int), 59u8).len() - 1
                && same_ignoring_case(trimmed(#[trigger] pieces(bytes@.subrange(first as int, index as int), 59u8)[j]), refusal_word()),
        decreases last - index,
    {
        let ghost before = pieces(bytes@.subrange(first as int, index as int), 59u8);
        proof {
            lemma_pieces_step(bytes@, index as int, first as int, 59u8);
        }
        let ghost after = pieces(bytes@.subrange(first as int, index + 1), 59u8);
        if bytes[index] == 59 {
            if !named {
                name_ok = trimmed_is(bytes, piece, index, gzip.as_slice()) || trimmed_is(bytes, piece, index, any.as_slice());
                named = true;
            } else {
                let this = trimmed_is(bytes, piece, index, refusal.as_slice());
                proof {
                    assert(before.last() == before[before.len() - 1]);
                    if this {
                        assert(after[before.len() - 1] == before[before.len() - 1]);
                    }
                    if refused {
                        let j = choose|j: int| 1 <= j < before.len() - 1
                            && same_ignoring_case(trimmed(#[trigger] before[j]), refusal_word());
                        assert(after[j] == before[j]);
                    }
                    assert forall|j: int| 1 <= j < after.len() - 1
                        && same_ignoring_case(trimmed(#[trigger] after[j]), refusal_word()) implies (refused || this) by {
                        assert(after[j] == before[j]);
                    }
                }
                refused = refused || this;
            }
            piece = index + 1;
            proof {
                assert(bytes@.subrange(piece as int, index + 1) =~= Seq::<u8>::empty());
                assert(after[0] == before[0]);
            }
        } else {
            proof {
                assert(bytes@.subrange(piece as int, index + 1) =~= before.last().push(bytes@[index as int]));
                if before.len() > 1 {
                    assert(after[0] == before[0]);
                }
                assert(after.len() == before.len());
                if refused {
                    let j = choose|j: int| 1 <= j < before.len() - 1
                        && same_ignoring_case(trimmed(#[trigger] before[j]), refusal_word());
                    assert(after[j] == before[j]);
                }
                assert forall|j: int| 1 <= j < after.len() - 1
                    && same_ignoring_case(trimmed(#[trigger] after[j]), refusal_word()) implies refused by {
                    assert(after[j] == before[j]);
                }
            }
        }
        index += 1;
    }
    let ghost all = pieces(bytes@.subrange(first as int, last as int), 59u8);
    if !named {
        name_ok = trimmed_is(bytes, piece, last, gzip.as_slice()) || trimmed_is(bytes, piece, last, any.as_slice());
        proof {
            assert(all.len() == 1);
            assert(all[0] == all.last());
        }
    } else {
        let this = trimmed_is(bytes, piece, last, refusal.as_slice());
        proof {
            if this {
                assert(all[all.len() - 1] == all.last());
            }
            assert forall|j: int| 1 <= j < all.len()
                && same_ignoring_case(trimmed(#[trigger] all[j]), refusal_word()) implies (refused || this) by {
                if j == all.len() - 1 {
                    assert(all[j] == all.last());
                }
            }
        }
        refused = refused || this;
    }
    name_ok && !refused
}

/// Whether a request with this `Accept-Encoding` value will read gzip.
///
/// An absent header means no: guessing yes hands a client bytes it cannot
/// read, where guessing no costs flash already spent on the identity copy.
/// Codings are separated by commas and parameters by semicolons, each
/// trimmed of optional whitespace and compared ignoring ASCII case.
pub fn accepts_gzip(header: Option<&[u8]>) -> (accepts: bool)
    ensures
        accepts == (header matches Some(value) && header_accepts_gzip(value@)),
{
    let bytes = match header {
        Some(value) => value,
        None => return false,
    };
    let mut piece: usize = 0;
    let mut index: usize = 0;
    let mut found = false;
    proof {
        assert(bytes@.subrange(0, 0) =~= Seq::<u8>::empty());
    }
    while index < bytes.len()
        invariant
            piece <= index <= bytes@.len(),
            pieces(bytes@.subrange(0, index as int), 44u8).len() >= 1,
            pieces(bytes@.subrange(0, index as int), 44u8).last() == bytes@.subrange(piece as int, index as int),
            found == exists|k: int| 0 <= k < pieces(bytes@.subrange(0, index as int), 44u8).len() - 1
                && coding_accepts_gzip(trimmed(#[trigger] pieces(bytes@.subrange(0, index as int), 44u8)[k])),
        decreases bytes.len() - index,
    {
        let ghost before = pieces(bytes@.subrange(0, index as int), 44u8);
        proof {
            lemma_pieces_step(bytes@, index as int, 0, 44u8);
        }
        let ghost after = pieces(bytes@.subrange(0, index + 1), 44u8);
        if bytes[index] == 44 {
            let this = coding_accepts(bytes, piece, index);
            proof {
                assert(before.last() == before[before.len() - 1]);
                if this {
                    assert(after[before.len() - 1] == before[before.len() - 1]);
                }
                if found {
                    let k = choose|k: int| 0 <= k < before.len() - 1
                        && coding_accepts_gzip(trimmed(#[trigger] before[k]));
                    assert(after[k] == before[k]);
                }
                assert forall|k: int| 0 <= k < after.len() - 1
                    && coding_accepts_gzip(trimmed(#[trigger] after[k])) implies (found || this) by {
                    assert(after[k] == before[k]);
                }
            }
            found = found || this;
            piece = index + 1;
            proof {
                assert(bytes@.subrange(piece as int, index + 1) =~= Seq::<u8>::empty());
            }
        } else {
            proof {
                assert(bytes@.subrange(piece as int, index + 1) =~= before.last().push(bytes@[index as int]));
                assert(after.len() == before.len());
                if found {
                    let k = choose|k: int| 0 <= k < before.len() - 1
                        && coding_accepts_gzip(trimmed(#[trigger] before[k]));
                    assert(after[k] == before[k]);
                }
                assert forall|k: int| 0 <= k < after.len() - 1
                    && coding_accepts_gzip(trimmed(#[trigger] after[k])) implies found by {
                    assert(after[k] == before[k]);
                }
            }
        }
        index += 1;
    }
    let this = coding_accepts(bytes, piece, bytes.len());
    proof {
        let all = pieces(bytes@.subrange(0, bytes@.len() as int), 44u8);
        assert(bytes@.subrange(0, bytes@.len() as int) =~= bytes@);
        assert(all.last() == all[all.len() - 1]);
        if found {
            let k = choose|k: int| 0 <= k < all.len() - 1 && coding_accepts_gzip(trimmed(#[trigger] all[k]));
        }
        assert forall|k: int| 0 <= k < all.len() && coding_accepts_gzip(trimmed(#[trigger] all[k])) implies (found || this) by {}
    }
    found || this
}

/// One asset in both representations this device holds. A pair rather than
/// one body with a flag, so each representation's validator stays attached
/// to the body it describes.
pub struct Negotiated<F> {
    /// Sent when the client accepts gzip.
    pub compressed: F,
    /// Sent when it does not.
    pub identity: F,
}

impl<F> Negotiated<F> {
    /// The representation a request with this `Accept-Encoding` is sent.
    pub fn representation(&self, accept_encoding: Option<&[u8]>) -> (chosen: &F)
        ensures
            *chosen == (if accept_encoding matches Some(value) && header_accepts_gzip(value@) {
                self.compressed
            } else {
                self.identity
            }),
    {
        if accepts_gzip(accept_encoding) {
            &self.compressed
        } else {
            &self.identity
        }
    }
}

/// How an unmatched path is answered.
#[derive(Clone, Copy, Debug, PartialEq, Eq, Structural)]
pub enum Fallback {
    /// A path under `/api/`: a client mistake, and it must say so.
    NotFound,
    /// Anything else: one of the UI's own routes, answered with its shell so
    /// that a deep link or a bookmark loads.
    AppShell,
}

/// `/api/`.
pub open spec fn api_prefix() -> Seq<u8> {
    seq![47u8, 97, 112, 105, 47]
}

/// The answer to a path no route matched.
pub fn fallback(path: &[u8]) -> (answer: Fallback)
    ensures
        answer == (if path@.len() >= 5 && path@.subrange(0, 5) == api_prefix() {
            Fallback::NotFound
        } else {
            Fallback::AppShell
        }),
{
    if path.len() >= 5 && path[0] == 47 && path[1] == 97 && path[2] == 112 && path[3] == 105 && path[4] == 47 {
        assert(path@.subrange(0, 5) =~= api_prefix());
        Fallback::NotFound
    } else {
        proof {
            if path@.len() >= 5 && path@.subrange(0, 5) == api_prefix() {
                assert(path@.subrange(0, 5)[0] == path@[0]);
                assert(path@.subrange(0, 5)[1] == path@[1]);
                assert(path@.subrange(0, 5)[2] == path@[2]);
                assert(path@.subrange(0, 5)[3] == path@[3]);
                assert(path@.subrange(0, 5)[4] == path@[4]);
            }
        }
        Fallback::AppShell
    }
}

/// The bytes the three assets occupy, each in both representations.
#[derive(Clone, Copy, Debug)]
pub struct AssetSizes {
    pub index_html: usize,
    pub index_html_gz: usize,
    pub app_css: usize,
    pub app_css_gz: usize,
    pub app_js: usize,
    pub app_js_gz: usize,
}

/// What the UI costs: flash for both representations together, and the
/// compressed half a browser actually fetches.
#[derive(Clone, Copy, Debug, PartialEq, Eq, Structural)]
pub struct AssetReport {
    pub embedded: usize,
    pub compressed: usize,
}

/// The figures printed at boot beside the heap and stack.
pub fn report(sizes: AssetSizes) -> (figures: AssetReport)
    requires
        sizes.index_html + sizes.index_html_gz + sizes.app_css + sizes.app_css_gz + sizes.app_js
            + sizes.app_js_gz <= usize::MAX,
    ensures
        figures.embedded == sizes.index_html + sizes.index_html_gz + sizes.app_css + sizes.app_css_gz
            + sizes.app_js + sizes.app_js_gz,
        figures.compressed == sizes.index_html_gz + sizes.app_css_gz + sizes.app_js_gz,
{
    AssetReport {
        embedded: sizes.index_html + sizes.index_html_gz + sizes.app_css + sizes.app_css_gz + sizes.app_js
            + sizes.app_js_gz,
        compressed: sizes.index_html_gz + sizes.app_css_gz + sizes.app_js_gz,
    }
}

} // verus!
