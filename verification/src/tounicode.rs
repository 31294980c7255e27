//! The code-to-unicode table of a composite font.

use vstd::prelude::*;

use crate::err::{ErrView, Feature, PdfError};

verus! {

/// The mapping a composite font carries from two-byte character codes to
/// two-byte unicode values, together with the source text it was read
/// from. Later entries shadow earlier ones, as in the map the table was
/// parsed from.
#[derive(Debug)]
pub struct ToUnicode {
    origin: String,
    mapping: Vec<([u8; 2], [u8; 2])>,
}

/// The value the table assigns to `key`: the last entry for `key` wins.
pub open spec fn spec_lookup(m: Seq<([u8; 2], [u8; 2])>, key: [u8; 2]) -> Option<[u8; 2]>
    decreases m.len(),
{
    if m.len() == 0 {
        None
    } else if m.last().0@ == key@ {
        Some(m.last().1)
    } else {
        spec_lookup(m.drop_last(), key)
    }
}

impl ToUnicode {
    /// Builds a table from its source text and entry list.
    pub fn new(origin: String, mapping: Vec<([u8; 2], [u8; 2])>) -> (r: ToUnicode)
        ensures
            r.spec_origin() == origin@,
            r.spec_mapping() == mapping@,
    {
        ToUnicode { origin, mapping }
    }

    pub closed spec fn spec_origin(&self) -> Seq<char> {
        self.origin@
    }

    pub closed spec fn spec_mapping(&self) -> Seq<([u8; 2], [u8; 2])> {
        self.mapping@
    }

    /// The source text the table was read from.
    pub fn origin(&self) -> (r: &str)
        ensures
            r@ == self.spec_origin(),
    {
        self.origin.as_str()
    }

    /// The entry list, in the order the entries were read.
    pub fn mapping_raw(&self) -> (r: &Vec<([u8; 2], [u8; 2])>)
        ensures
            r@ == self.spec_mapping(),
    {
        &self.mapping
    }

    /// Looks a two-byte code up; the last entry for the code wins.
    pub fn lookup(&self, hex: [u8; 2]) -> (r: Option<[u8; 2]>)
        ensures
            r == spec_lookup(self.spec_mapping(), hex),
    {
        let mut i: usize = self.mapping.len();
        proof {
            assert(self.spec_mapping().take(i as int) =~= self.spec_mapping());
        }
        while i > 0
            invariant
                i <= self.mapping@.len(),
                spec_lookup(self.spec_mapping(), hex) == spec_lookup(
                    self.spec_mapping().take(i as int),
                    hex,
                ),
            decreases i,
        {
            i = i - 1;
            let entry = &self.mapping[i];
            if entry.0[0] == hex[0] && entry.0[1] == hex[1] {
                proof {
                    assert(self.spec_mapping().take(i + 1).last() == self.spec_mapping()[i as int]);
                    assert(entry.0@ =~= hex@);
                }
                return Some(entry.1);
            }
            proof {
                assert(self.spec_mapping().take(i + 1).drop_last() =~= self.spec_mapping().take(
                    i as int,
                ));
                assert(self.spec_mapping().take(i + 1).last() == self.spec_mapping()[i as int]);
                assert(self.spec_mapping().take(i + 1).last().0@ != hex@) by {
                    if entry.0@ == hex@ {
                        assert(entry.0@[0] == hex@[0] && entry.0@[1] == hex@[1]);
                    }
                }
            }
        }
        proof {
            assert(self.spec_mapping().take(0) =~= Seq::<([u8; 2], [u8; 2])>::empty());
        }
        None
    }

    /// The unicode value of a two-byte code that is known to be present.
    pub fn mapping(&self, hex: [u8; 2]) -> (r: [u8; 2])
        requires
            spec_lookup(self.spec_mapping(), hex) is Some,
        ensures
            Some(r) == spec_lookup(self.spec_mapping(), hex),
    {
        match self.lookup(hex) {
            Some(v) => v,
            None => vstd::pervasive::unreached(),
        }
    }
}


/// Whitespace as the map syntax knows it.
pub open spec fn spec_is_ws(b: u8) -> bool {
    b == 0x20 || b == 0x09 || b == 0x0a || b == 0x0d || b == 0x0c
}

/// The maximal runs of non-whitespace bytes, in order.
pub open spec fn spec_tokens(s: Seq<u8>) -> Seq<Seq<u8>>
    decreases s.len(),
{
    if s.len() == 0 {
        Seq::empty()
    } else if spec_is_ws(s.last()) {
        spec_tokens(s.drop_last())
    } else {
        let prev = spec_tokens(s.drop_last());
        if s.len() >= 2 && !spec_is_ws(s[s.len() - 2]) {
            prev.update(prev.len() - 1, prev.last().push(s.last()))
        } else {
            prev.push(seq![s.last()])
        }
    }
}

/// A byte run ending in a non-whitespace byte has a last token, and
/// that token is not empty.
proof fn lemma_tokens_last(s: Seq<u8>)
    requires
        s.len() > 0,
        !spec_is_ws(s.last()),
    ensures
        spec_tokens(s).len() > 0,
        spec_tokens(s).last().len() > 0,
    decreases s.len(),
{
    if s.len() >= 2 && !spec_is_ws(s[s.len() - 2]) {
        lemma_tokens_last(s.drop_last());
    }
}

/// The token views of a token list.
pub open spec fn token_views(ts: Seq<Vec<u8>>) -> Seq<Seq<u8>> {
    ts.map_values(|v: Vec<u8>| v@)
}

/// Reports whether a byte is whitespace.
fn is_ws(b: u8) -> (r: bool)
    ensures
        r == spec_is_ws(b),
{
    b == 0x20 || b == 0x09 || b == 0x0a || b == 0x0d || b == 0x0c
}

/// Splits a byte run into its whitespace-separated tokens.
fn tokenize(s: &Vec<u8>) -> (r: Vec<Vec<u8>>)
    ensures
        token_views(r@) == spec_tokens(s@),
{
    let mut out: Vec<Vec<u8>> = Vec::new();
    let mut i: usize = 0;
    proof {
        assert(s@.take(0) =~= Seq::<u8>::empty());
        assert(token_views(out@) =~= Seq::<Seq<u8>>::empty());
    }
    while i < s.len()
        invariant
            i <= s@.len(),
            token_views(out@) == spec_tokens(s@.take(i as int)),
            i > 0 && !spec_is_ws(s@[i - 1]) ==> out@.len() > 0,
        decreases s@.len() - i,
    {
        let b = s[i];
        let ghost prefix = s@.take(i as int);
        let ghost prefix1 = s@.take(i as int + 1);
        proof {
            assert(prefix1.drop_last() =~= prefix);
            assert(prefix1.last() == s@[i as int]);
            if i > 0 {
                assert(prefix1[prefix1.len() - 2] == s@[i as int - 1]);
            }
        }
        if is_ws(b) {
        } else if i > 0 && !is_ws(s[i - 1]) {
            let ghost out_before = out@;
            let mut t = match out.pop() {
                Some(t) => t,
                None => vstd::pervasive::unreached(),
            };
            let ghost t0 = t@;
            t.push(b);
            out.push(t);
            proof {
                assert(token_views(out@) =~= token_views(out_before).update(
                    out_before.len() - 1,
                    t0.push(b),
                ));
                assert(token_views(out_before).last() == out_before.last()@);
            }
        } else {
            let ghost out_before = out@;
            let mut t: Vec<u8> = Vec::new();
            t.push(b);
            out.push(t);
            proof {
                assert(out@.last()@ =~= seq![b]);
                assert(token_views(out@) =~= token_views(out_before).push(seq![b]));
            }
        }
        i = i + 1;
    }
    proof {
        assert(s@.take(s@.len() as int) =~= s@);
    }
    out
}

/// Whether the pattern occurs in the text at position `i`.
pub open spec fn spec_match_at(h: Seq<u8>, n: Seq<u8>, i: int) -> bool {
    &&& 0 <= i
    &&& i + n.len() <= h.len()
    &&& forall|k: int| 0 <= k < n.len() ==> h[i + k] == n[k]
}

/// The first occurrence of the pattern at or after position `i`.
pub open spec fn spec_find_from(h: Seq<u8>, n: Seq<u8>, i: int) -> Option<int>
    recommends
        0 <= i,
    decreases h.len() - i,
{
    if i < 0 || i + n.len() > h.len() {
        None
    } else if spec_match_at(h, n, i) {
        Some(i)
    } else {
        spec_find_from(h, n, i + 1)
    }
}

/// Reports whether the pattern occurs at position `i`.
fn match_at(h: &Vec<u8>, n: &Vec<u8>, i: usize) -> (r: bool)
    requires
        i + n@.len() <= h@.len(),
    ensures
        r == spec_match_at(h@, n@, i as int),
{
    let hl = h.len();
    let mut k: usize = 0;
    while k < n.len()
        invariant
            hl == h@.len(),
            i + n@.len() <= h@.len(),
            k <= n@.len(),
            forall|j: int| 0 <= j < k ==> h@[i + j] == n@[j],
        decreases n@.len() - k,
    {
        if h[i + k] != n[k] {
            proof {
                assert(!spec_match_at(h@, n@, i as int)) by {
                    if spec_match_at(h@, n@, i as int) {
                        assert(h@[i + k] == n@[k as int]);
                    }
                }
            }
            return false;
        }
        k = k + 1;
    }
    true
}

/// Finds the first occurrence of the pattern in the text.
fn find_sub(h: &Vec<u8>, n: &Vec<u8>) -> (r: Option<usize>)
    requires
        n@.len() > 0,
    ensures
        match spec_find_from(h@, n@, 0) {
            Some(j) => r matches Some(k) && k as int == j,
            None => r is None,
        },
{
    if n.len() > h.len() {
        return None;
    }
    let bound = h.len() - n.len();
    let mut i: usize = 0;
    while i <= bound
        invariant
            0 < n@.len() <= h@.len(),
            bound == h@.len() - n@.len(),
            i <= bound + 1,
            spec_find_from(h@, n@, 0) == spec_find_from(h@, n@, i as int),
        decreases h@.len() - i,
    {
        if match_at(h, n, i) {
            return Some(i);
        }
        if i == bound {
            proof {
                assert(spec_find_from(h@, n@, i + 1) is None);
            }
            return None;
        }
        i = i + 1;
    }
    None
}

/// The value of one hexadecimal digit.
pub open spec fn spec_hex_digit(b: u8) -> Option<int> {
    if 0x30 <= b <= 0x39 {
        Some((b - 0x30) as int)
    } else if 0x61 <= b <= 0x66 {
        Some((b - 0x61 + 10) as int)
    } else if 0x41 <= b <= 0x46 {
        Some((b - 0x41 + 10) as int)
    } else {
        None
    }
}

/// The value of a run of hexadecimal digits, most significant first.
pub open spec fn spec_hex_val(t: Seq<u8>) -> Option<int>
    decreases t.len(),
{
    if t.len() == 0 {
        Some(0)
    } else {
        match (spec_hex_val(t.drop_last()), spec_hex_digit(t.last())) {
            (Some(v), Some(d)) => Some(v * 16 + d),
            _ => None,
        }
    }
}

/// The code a `<hhhh>` token stands for: one to four hexadecimal digits
/// between single angle brackets.
pub open spec fn spec_hex_token(t: Seq<u8>) -> Option<u16> {
    if t.len() >= 3 && t[0] == 0x3c && t[t.len() - 1] == 0x3e {
        let inner = t.subrange(1, t.len() - 1);
        if inner.len() <= 4 {
            match spec_hex_val(inner) {
                Some(v) => Some(v as u16),
                None => None,
            }
        } else {
            None
        }
    } else {
        None
    }
}

/// Short hexadecimal runs stay within the value range their length
/// allows.
proof fn lemma_hex_val_bound(t: Seq<u8>)
    ensures
        spec_hex_val(t) matches Some(v) ==> v >= 0 && (t.len() <= 1 ==> v < 0x10) && (t.len() <= 2
            ==> v < 0x100) && (t.len() <= 3 ==> v < 0x1000) && (t.len() <= 4 ==> v < 0x10000),
    decreases t.len(),
{
    if t.len() > 0 {
        lemma_hex_val_bound(t.drop_last());
    }
}

/// Reads a `<hhhh>` token.
fn hex_token(t: &Vec<u8>) -> (r: Option<u16>)
    ensures
        r == spec_hex_token(t@),
{
    let n = t.len();
    if n < 3 || t[0] != 0x3c || t[n - 1] != 0x3e || n - 2 > 4 {
        return None;
    }
    let ghost inner = t@.subrange(1, t@.len() - 1);
    proof {
        lemma_hex_val_bound(inner);
    }
    let mut v: u32 = 0;
    let mut i: usize = 1;
    while i < n - 1
        invariant
            3 <= n <= 6,
            n == t@.len(),
            1 <= i <= n - 1,
            inner == t@.subrange(1, t@.len() - 1),
            spec_hex_val(inner.take(i - 1)) == Some(v as int),
            v < 0x10000,
        decreases n - i,
    {
        proof {
            assert(inner.take(i as int - 1 + 1).drop_last() =~= inner.take(i as int - 1));
            assert(inner.take(i as int).last() == inner[i as int - 1]);
            assert(inner[i as int - 1] == t@[i as int]);
            lemma_hex_val_bound(inner.take(i as int - 1));
        }
        let b = t[i];
        let d: u32 = if 0x30 <= b && b <= 0x39 {
            (b - 0x30) as u32
        } else if 0x61 <= b && b <= 0x66 {
            (b - 0x61 + 10) as u32
        } else if 0x41 <= b && b <= 0x46 {
            (b - 0x41 + 10) as u32
        } else {
            proof {
                assert(spec_hex_digit(inner[i as int - 1]) is None);
                assert(spec_hex_val(inner.take(i as int)) is None);
                lemma_hex_val_none_prefix(inner, i as int);
            }
            return None;
        };
        v = v * 16 + d;
        i = i + 1;
    }
    proof {
        assert(inner.take(i as int - 1) =~= inner);
    }
    Some(v as u16)
}

/// A failed digit poisons every longer run.
proof fn lemma_hex_val_none_prefix(t: Seq<u8>, i: int)
    requires
        0 < i <= t.len(),
        spec_hex_val(t.take(i)) is None,
    ensures
        spec_hex_val(t) is None,
    decreases t.len() - i,
{
    if i == t.len() {
        assert(t.take(i) =~= t);
    } else {
        assert(t.take(i + 1).drop_last() =~= t.take(i));
        lemma_hex_val_none_prefix(t, i + 1);
    }
}


/// The code values of a mapping table: each two-byte pair read as a
/// big-endian number.
pub open spec fn entry_views(m: Seq<([u8; 2], [u8; 2])>) -> Seq<(int, int)> {
    m.map_values(
        |e: ([u8; 2], [u8; 2])| (e.0@[0] * 256 + e.0@[1], e.1@[0] * 256 + e.1@[1]),
    )
}

/// The single-pair entries of a token run: `<src> <dst>` pairs until
/// the run ends; an odd run or a malformed token yields nothing.
pub open spec fn spec_pairs(ts: Seq<Seq<u8>>) -> Option<Seq<(int, int)>>
    decreases ts.len(),
{
    if ts.len() == 0 {
        Some(Seq::empty())
    } else if ts.len() == 1 {
        None
    } else {
        match (spec_hex_token(ts[0]), spec_hex_token(ts[1])) {
            (Some(f), Some(t)) => match spec_pairs(ts.skip(2)) {
                Some(rest) => Some(seq![(f as int, t as int)] + rest),
                None => None,
            },
            _ => None,
        }
    }
}

/// The entries a contiguous range stands for: codes `lo` through `hi`
/// map to `dst` onward. A reversed range, or one running past the
/// two-byte space, yields nothing.
pub open spec fn spec_expand_range(lo: int, hi: int, dst: int) -> Option<Seq<(int, int)>> {
    if lo > hi {
        None
    } else if dst + (hi - lo) > 0xFFFF {
        None
    } else {
        Some(Seq::new((hi - lo + 1) as nat, |k: int| (lo + k, dst + k)))
    }
}

/// The range entries of a token run: `<lo> <hi> <dst>` triples until
/// the run ends, each expanded.
pub open spec fn spec_ranges(ts: Seq<Seq<u8>>) -> Option<Seq<(int, int)>>
    decreases ts.len(),
{
    if ts.len() == 0 {
        Some(Seq::empty())
    } else if ts.len() < 3 {
        None
    } else {
        match (spec_hex_token(ts[0]), spec_hex_token(ts[1]), spec_hex_token(ts[2])) {
            (Some(lo), Some(hi), Some(dst)) => match spec_expand_range(
                lo as int,
                hi as int,
                dst as int,
            ) {
                Some(head) => match spec_ranges(ts.skip(3)) {
                    Some(rest) => Some(head + rest),
                    None => None,
                },
                None => None,
            },
            _ => None,
        }
    }
}

/// The tokens between the first occurrence of `beg` and the first
/// occurrence of `end`, with the opening marker's own token dropped.
pub open spec fn spec_section(data: Seq<u8>, beg: Seq<u8>, end: Seq<u8>) -> Option<Seq<Seq<u8>>> {
    match (spec_find_from(data, beg, 0), spec_find_from(data, end, 0)) {
        (Some(b), Some(e)) => if b <= e {
            let toks = spec_tokens(data.subrange(b, e));
            if toks.len() == 0 {
                Some(Seq::empty())
            } else {
                Some(toks.drop_first())
            }
        } else {
            None
        },
        _ => None,
    }
}

/// The code-to-unicode entries a map text holds: the single pairs of
/// its first bfchar section, then the expanded ranges of its first
/// bfrange section. Both sections must be present and well formed.
pub open spec fn spec_tounicode_codes(data: Seq<u8>) -> Option<Seq<(int, int)>> {
    match (
        spec_section(data, spec_bfchar_begin(), spec_bfchar_end()),
        spec_section(data, spec_bfrange_begin(), spec_bfrange_end()),
    ) {
        (Some(ct), Some(rt)) => match (spec_pairs(ct), spec_ranges(rt)) {
            (Some(a), Some(b)) => Some(a + b),
            _ => None,
        },
        _ => None,
    }
}

/// The bytes of the bfchar section opener.
pub open spec fn spec_bfchar_begin() -> Seq<u8> {
    seq![98u8, 101, 103, 105, 110, 98, 102, 99, 104, 97, 114]
}

/// The bytes of the bfchar section closer.
pub open spec fn spec_bfchar_end() -> Seq<u8> {
    seq![101u8, 110, 100, 98, 102, 99, 104, 97, 114]
}

/// The bytes of the bfrange section opener.
pub open spec fn spec_bfrange_begin() -> Seq<u8> {
    seq![98u8, 101, 103, 105, 110, 98, 102, 114, 97, 110, 103, 101]
}

/// The bytes of the bfrange section closer.
pub open spec fn spec_bfrange_end() -> Seq<u8> {
    seq![101u8, 110, 100, 98, 102, 114, 97, 110, 103, 101]
}

/// Copies a byte range.
fn copy_range(s: &Vec<u8>, lo: usize, hi: usize) -> (r: Vec<u8>)
    requires
        lo <= hi <= s@.len(),
    ensures
        r@ == s@.subrange(lo as int, hi as int),
{
    let mut out: Vec<u8> = Vec::new();
    let mut i: usize = lo;
    while i < hi
        invariant
            lo <= i <= hi <= s@.len(),
            out@ =~= s@.subrange(lo as int, i as int),
        decreases hi - i,
    {
        out.push(s[i]);
        proof {
            assert(out@ =~= s@.subrange(lo as int, i as int + 1));
        }
        i = i + 1;
    }
    out
}

/// A found position is a real match.
proof fn lemma_find_from_match(h: Seq<u8>, n: Seq<u8>, i: int)
    ensures
        spec_find_from(h, n, i) matches Some(j) ==> spec_match_at(h, n, j) && i <= j,
    decreases h.len() - i,
{
    if !(i < 0 || i + n.len() > h.len()) && !spec_match_at(h, n, i) {
        lemma_find_from_match(h, n, i + 1);
    }
}

/// Cuts a marker-delimited section out of the text and tokenizes it.
fn section_tokens(data: &Vec<u8>, beg: &Vec<u8>, end_marker: &Vec<u8>) -> (r: Option<Vec<Vec<u8>>>)
    requires
        beg@.len() > 0,
        end_marker@.len() > 0,
    ensures
        match spec_section(data@, beg@, end_marker@) {
            Some(ts) => r matches Some(v) && token_views(v@) == ts,
            None => r is None,
        },
{
    let b = match find_sub(data, beg) {
        Some(b) => b,
        None => {
            return None;
        },
    };
    let e = match find_sub(data, end_marker) {
        Some(e) => e,
        None => {
            return None;
        },
    };
    if b > e {
        return None;
    }
    proof {
        lemma_find_from_match(data@, end_marker@, 0);
        assert(e + end_marker@.len() <= data@.len());
    }
    let section = copy_range(data, b, e);
    let mut toks = tokenize(&section);
    if toks.len() == 0 {
        proof {
            assert(token_views(toks@) =~= Seq::<Seq<u8>>::empty());
        }
        return Some(toks);
    }
    let ghost toks0 = toks@;
    toks.remove(0);
    proof {
        assert(token_views(toks@) =~= token_views(toks0).drop_first());
    }
    Some(toks)
}

/// The big-endian byte pair of a two-byte value.
fn be_pair(v: u16) -> (r: [u8; 2])
    ensures
        r@[0] * 256 + r@[1] == v as int,
{
    let hi = (v / 256) as u8;
    let lo = (v % 256) as u8;
    let r = [hi, lo];
    proof {
        assert(r@[0] == hi && r@[1] == lo);
    }
    r
}

/// Reads the single-pair entries of a bfchar token run.
fn parse_pairs(ts: &Vec<Vec<u8>>) -> (r: Option<Vec<([u8; 2], [u8; 2])>>)
    ensures
        match spec_pairs(token_views(ts@)) {
            Some(codes) => r matches Some(m) && entry_views(m@) == codes,
            None => r is None,
        },
{
    let ghost tv = token_views(ts@);
    let mut out: Vec<([u8; 2], [u8; 2])> = Vec::new();
    let mut i: usize = 0;
    proof {
        assert(tv.skip(0) =~= tv);
        assert(entry_views(out@) =~= Seq::<(int, int)>::empty());
    }
    while i < ts.len()
        invariant
            tv == token_views(ts@),
            i <= tv.len(),
            tv.len() == ts@.len(),
            spec_pairs(tv) == match spec_pairs(tv.skip(i as int)) {
                Some(rest) => Some(entry_views(out@) + rest),
                None => None::<Seq<(int, int)>>,
            },
        decreases tv.len() - i,
    {
        proof {
            assert(tv.skip(i as int)[0] == tv[i as int]);
            assert(tv[i as int] == ts@[i as int]@);
        }
        if ts.len() - i < 2 {
            return None;
        }
        proof {
            assert(tv.skip(i as int)[1] == tv[i as int + 1]);
            assert(tv[i as int + 1] == ts@[i as int + 1]@);
            assert(tv.skip(i as int).skip(2) =~= tv.skip(i as int + 2));
        }
        let f = match hex_token(&ts[i]) {
            Some(f) => f,
            None => {
                return None;
            },
        };
        let t = match hex_token(&ts[i + 1]) {
            Some(t) => t,
            None => {
                return None;
            },
        };
        let ghost out0 = out@;
        out.push((be_pair(f), be_pair(t)));
        proof {
            let e = out@.last();
            assert(entry_views(out@) =~= entry_views(out0).push(
                (e.0@[0] * 256 + e.0@[1], e.1@[0] * 256 + e.1@[1]),
            ));
            assert(entry_views(out@) =~= entry_views(out0).push((f as int, t as int)));
            assert(forall|a: Seq<(int, int)>, x: (int, int), b: Seq<(int, int)>|
                (a.push(x) + b) =~= (a + (seq![x] + b)));
        }
        i = i + 2;
    }
    proof {
        assert(tv.skip(i as int) =~= Seq::<Seq<u8>>::empty());
        assert(entry_views(out@) + Seq::<(int, int)>::empty() =~= entry_views(out@));
    }
    Some(out)
}

/// Reads and expands the range entries of a bfrange token run.
fn parse_ranges(ts: &Vec<Vec<u8>>) -> (r: Option<Vec<([u8; 2], [u8; 2])>>)
    ensures
        match spec_ranges(token_views(ts@)) {
            Some(codes) => r matches Some(m) && entry_views(m@) == codes,
            None => r is None,
        },
{
    let ghost tv = token_views(ts@);
    let mut out: Vec<([u8; 2], [u8; 2])> = Vec::new();
    let mut i: usize = 0;
    proof {
        assert(tv.skip(0) =~= tv);
        assert(entry_views(out@) =~= Seq::<(int, int)>::empty());
    }
    while i < ts.len()
        invariant
            tv == token_views(ts@),
            i <= tv.len(),
            tv.len() == ts@.len(),
            spec_ranges(tv) == match spec_ranges(tv.skip(i as int)) {
                Some(rest) => Some(entry_views(out@) + rest),
                None => None::<Seq<(int, int)>>,
            },
        decreases tv.len() - i,
    {
        proof {
            assert(tv.skip(i as int)[0] == tv[i as int]);
            assert(tv[i as int] == ts@[i as int]@);
        }
        if ts.len() - i < 3 {
            return None;
        }
        proof {
            assert(tv.skip(i as int)[1] == tv[i as int + 1]);
            assert(tv[i as int + 1] == ts@[i as int + 1]@);
            assert(tv.skip(i as int)[2] == tv[i as int + 2]);
            assert(tv[i as int + 2] == ts@[i as int + 2]@);
            assert(tv.skip(i as int).skip(3) =~= tv.skip(i as int + 3));
        }
        let lo = match hex_token(&ts[i]) {
            Some(v) => v,
            None => {
                return None;
            },
        };
        let hi = match hex_token(&ts[i + 1]) {
            Some(v) => v,
            None => {
                return None;
            },
        };
        let dst = match hex_token(&ts[i + 2]) {
            Some(v) => v,
            None => {
                return None;
            },
        };
        if lo > hi {
            return None;
        }
        let span = hi - lo;
        if dst as u32 + span as u32 > 0xFFFF {
            return None;
        }
        let ghost out_entry = out@;
        let mut k: u32 = 0;
        while k <= span as u32
            invariant
                k <= span as u32 + 1,
                span == hi - lo,
                lo <= hi,
                dst + span <= 0xFFFF,
                out@.len() == out_entry.len() + k,
                forall|j: int|
                    0 <= j < out_entry.len() ==> #[trigger] out@[j] == out_entry[j],
                forall|j: int|
                    0 <= j < k ==> ((#[trigger] out@[out_entry.len() + j]).0@[0] * 256 + out@[
                        out_entry.len() + j
                    ].0@[1] == lo + j && out@[out_entry.len() + j].1@[0] * 256 + out@[
                        out_entry.len() + j
                    ].1@[1] == dst + j),
            decreases span as u32 + 1 - k,
        {
            let code = lo + k as u16;
            let uni = dst + k as u16;
            out.push((be_pair(code), be_pair(uni)));
            proof {
                let e = out@.last();
                assert(e.0@[0] * 256 + e.0@[1] == lo + k && e.1@[0] * 256 + e.1@[1] == dst + k);
            }
            k = k + 1;
        }
        proof {
            let head = spec_expand_range(lo as int, hi as int, dst as int)->Some_0;
            assert forall|j: int| 0 <= j < out@.len() implies entry_views(out@)[j] == (
            entry_views(out_entry) + head)[j] by {
                if j < out_entry.len() {
                    assert(out@[j] == out_entry[j]);
                } else {
                    let jj = j - out_entry.len();
                    assert(out@[out_entry.len() + jj] == out@[j]);
                    assert(out@[out_entry.len() + jj].0@[0] * 256 + out@[out_entry.len()
                        + jj].0@[1] == lo + jj);
                    assert(head[jj] == (lo + jj, dst + jj));
                }
            }
            assert(entry_views(out@) =~= entry_views(out_entry) + head);
            assert(forall|a: Seq<(int, int)>, x: Seq<(int, int)>, b: Seq<(int, int)>|
                ((a + x) + b) =~= (a + (x + b)));
        }
        i = i + 3;
    }
    proof {
        assert(tv.skip(i as int) =~= Seq::<Seq<u8>>::empty());
        assert(entry_views(out@) + Seq::<(int, int)>::empty() =~= entry_views(out@));
    }
    Some(out)
}

/// Reads a code-to-unicode map from its source bytes, pairing it with
/// the given source text. A text without both sections, or with tokens
/// that do not follow the expected layout, is reported as unsupported,
/// never guessed at.
pub fn parse_tounicode(data: &Vec<u8>, origin: String) -> (r: Result<ToUnicode, PdfError>)
    ensures
        match spec_tounicode_codes(data@) {
            Some(codes) => r matches Ok(t) && entry_views(t.spec_mapping()) == codes
                && t.spec_origin() == origin@,
            None => r matches Err(e) && e@ == ErrView::Unsupported { feature: Feature::ToUnicode },
        },
{
    let bfchar_begin: Vec<u8> = vec![98u8, 101, 103, 105, 110, 98, 102, 99, 104, 97, 114];
    let bfchar_end: Vec<u8> = vec![101u8, 110, 100, 98, 102, 99, 104, 97, 114];
    let bfrange_begin: Vec<u8> = vec![
        98u8,
        101,
        103,
        105,
        110,
        98,
        102,
        114,
        97,
        110,
        103,
        101,
    ];
    let bfrange_end: Vec<u8> = vec![101u8, 110, 100, 98, 102, 114, 97, 110, 103, 101];
    proof {
        assert(bfchar_begin@ =~= spec_bfchar_begin());
        assert(bfchar_end@ =~= spec_bfchar_end());
        assert(bfrange_begin@ =~= spec_bfrange_begin());
        assert(bfrange_end@ =~= spec_bfrange_end());
    }
    let char_toks = match section_tokens(data, &bfchar_begin, &bfchar_end) {
        Some(v) => v,
        None => {
            return Err(PdfError::Unsupported { feature: Feature::ToUnicode });
        },
    };
    let range_toks = match section_tokens(data, &bfrange_begin, &bfrange_end) {
        Some(v) => v,
        None => {
            return Err(PdfError::Unsupported { feature: Feature::ToUnicode });
        },
    };
    let mut mapping = match parse_pairs(&char_toks) {
        Some(m) => m,
        None => {
            return Err(PdfError::Unsupported { feature: Feature::ToUnicode });
        },
    };
    let mut ranges = match parse_ranges(&range_toks) {
        Some(m) => m,
        None => {
            return Err(PdfError::Unsupported { feature: Feature::ToUnicode });
        },
    };
    let ghost m0 = mapping@;
    let ghost r0 = ranges@;
    let mut j: usize = 0;
    proof {
        assert(ranges@ =~= r0.skip(0));
        assert(mapping@ =~= m0 + r0.take(0));
    }
    while ranges.len() > 0
        invariant
            ranges@.len() <= r0.len(),
            ranges@ =~= r0.skip(r0.len() - ranges@.len()),
            mapping@ =~= m0 + r0.take(r0.len() - ranges@.len()),
        decreases ranges@.len(),
    {
        let ghost done = r0.len() - ranges@.len();
        let e = ranges.remove(0);
        proof {
            assert(r0.skip(done as int)[0] == r0[done as int]);
            assert(e == r0[done as int]);
            assert(ranges@ =~= r0.skip(done as int + 1));
        }
        mapping.push(e);
        proof {
            assert(mapping@ =~= m0 + r0.take(done as int + 1));
        }
    }
    proof {
        assert(r0.take(r0.len() as int) =~= r0);
        assert(entry_views(m0 + r0) =~= entry_views(m0) + entry_views(r0));
    }
    Ok(ToUnicode::new(origin, mapping))
}

} // verus!
