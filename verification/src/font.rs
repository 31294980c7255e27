//! Font metrics: width tables for simple fonts, and the composite-font
//! descriptor the engine knows it cannot resolve.

use vstd::prelude::*;

use crate::err::{Feature, PdfError};
use crate::in_range;
use crate::tounicode::ToUnicode;

verus! {

/// One font of a page's resource dictionary.
///
/// A `Regular` font is byte-indexed: character code `c` has the width
/// `widths[c - first_char]`, expressed in thousandths of a text-space
/// unit. A `CidFont` is a composite font; the engine carries its
/// code-to-unicode table but does not resolve widths or characters
/// through it, and reports that as unsupported instead of guessing.
#[derive(Debug)]
pub enum PdfFont {
    Regular { first_char: i64, widths: Vec<i64> },
    CidFont { to_unicode: ToUnicode },
}

impl PdfFont {
    /// Every stored width lies in the supported coordinate range.
    pub open spec fn wf(&self) -> bool {
        match self {
            PdfFont::Regular { first_char, widths } => in_range(*first_char as int) && forall|i: int|
                0 <= i < widths@.len() ==> in_range(#[trigger] widths@[i] as int),
            PdfFont::CidFont { .. } => true,
        }
    }

    /// The width of character code `c`, in thousandths of a text-space
    /// unit, or the error that the code cannot be resolved.
    pub open spec fn spec_char_width(&self, c: u8) -> Result<i64, PdfError> {
        match self {
            PdfFont::Regular { first_char, widths } => {
                let idx = c - *first_char;
                if 0 <= idx < widths@.len() {
                    Ok(widths@[idx])
                } else {
                    Err(PdfError::GlyphOutOfRange { code: c })
                }
            },
            PdfFont::CidFont { .. } => Err(
                PdfError::Unsupported { feature: Feature::CompositeFont },
            ),
        }
    }

    /// Builds a simple font from its first character code and width
    /// table; widths beyond the coordinate range are clamped.
    pub fn regular(first_char: i64, widths: Vec<i64>) -> (r: PdfFont)
        ensures
            r.wf(),
            r matches PdfFont::Regular { first_char: f, widths: w } && f == crate::clamp(
                first_char as int,
            ) && w@.len()
                == widths@.len() && forall|i: int|
                0 <= i < widths@.len() ==> #[trigger] w@[i] == crate::clamp(widths@[i] as int),
    {
        let mut clamped: Vec<i64> = Vec::new();
        let mut i: usize = 0;
        while i < widths.len()
            invariant
                i <= widths@.len(),
                clamped@.len() == i,
                forall|j: int| 0 <= j < i ==> #[trigger] clamped@[j] == crate::clamp(widths@[j] as int),
            decreases widths@.len() - i,
        {
            clamped.push(crate::geom::clamp_exec(widths[i]));
            i = i + 1;
        }
        PdfFont::Regular { first_char: crate::geom::clamp_exec(first_char), widths: clamped }
    }

    /// Builds a composite font around its code-to-unicode table.
    pub fn cid(to_unicode: ToUnicode) -> (r: PdfFont)
        ensures
            r.wf(),
            r matches PdfFont::CidFont { to_unicode: t } && t.spec_mapping()
                == to_unicode.spec_mapping() && t.spec_origin() == to_unicode.spec_origin(),
    {
        PdfFont::CidFont { to_unicode }
    }

    /// Resolves the width of one character code. A code outside the
    /// table is an error, and the positioning pass propagates it; the
    /// engine does not substitute a zero width.
    pub fn get_char_width(&self, c: u8) -> (r: Result<i64, PdfError>)
        requires
            self.wf(),
        ensures
            r == self.spec_char_width(c),
            r matches Ok(w) ==> in_range(w as int),
    {
        match self {
            PdfFont::Regular { first_char, widths } => {
                if c as i64 >= *first_char {
                    let idx: i64 = c as i64 - *first_char;
                    if (idx as u64) < (widths.len() as u64) {
                        Ok(widths[idx as usize])
                    } else {
                        Err(PdfError::GlyphOutOfRange { code: c })
                    }
                } else {
                    Err(PdfError::GlyphOutOfRange { code: c })
                }
            },
            PdfFont::CidFont { .. } => Err(
                PdfError::Unsupported { feature: Feature::CompositeFont },
            ),
        }
    }

    /// The width of a two-byte code. Composite-font width resolution is
    /// not provided; the call reports that explicitly.
    pub fn get_cid_width(&self, hex: [u8; 2]) -> (r: Result<i64, PdfError>)
        requires
            self matches PdfFont::CidFont { .. },
        ensures
            r == Result::<i64, PdfError>::Err(
                PdfError::Unsupported { feature: Feature::CompositeFont },
            ),
    {
        let _ = hex;
        Err(PdfError::Unsupported { feature: Feature::CompositeFont })
    }

    /// The character of a two-byte code. Composite-font character
    /// resolution is not provided; the call reports that explicitly.
    pub fn get_cid_char(&self, hex: [u8; 2]) -> (r: Result<char, PdfError>)
        requires
            self matches PdfFont::CidFont { .. },
        ensures
            r == Result::<char, PdfError>::Err(
                PdfError::Unsupported { feature: Feature::CompositeFont },
            ),
    {
        let _ = hex;
        Err(PdfError::Unsupported { feature: Feature::CompositeFont })
    }
}

/// The font resources of one page: resource names paired with fonts, in
/// dictionary order. Resolution takes the first entry with the asked-for
/// name.
pub struct PdfFonts {
    pub entries: Vec<(Vec<u8>, PdfFont)>,
}

/// The position of the first entry named `name`, if any.
pub open spec fn spec_find_font(entries: Seq<(Vec<u8>, PdfFont)>, name: Seq<u8>) -> Option<int>
    decreases entries.len(),
{
    if entries.len() == 0 {
        None
    } else if entries[0].0@ == name {
        Some(0)
    } else {
        match spec_find_font(entries.drop_first(), name) {
            Some(i) => Some(i + 1),
            None => None,
        }
    }
}

impl PdfFonts {
    /// Every font of the page is well formed.
    pub open spec fn wf(&self) -> bool {
        forall|i: int| 0 <= i < self.entries@.len() ==> (#[trigger] self.entries@[i].1).wf()
    }

    /// Builds the provider from named fonts.
    pub fn from_entries(entries: Vec<(Vec<u8>, PdfFont)>) -> (r: PdfFonts)
        ensures
            r.entries@ == entries@,
    {
        PdfFonts { entries }
    }

    /// The position of the first font entry with the given resource name.
    pub fn find(&self, name: &Vec<u8>) -> (r: Option<usize>)
        ensures
            match spec_find_font(self.entries@, name@) {
                Some(i) => r matches Some(k) && k as int == i && i < self.entries@.len(),
                None => r is None,
            },
    {
        let mut i: usize = 0;
        proof {
            assert(self.entries@.skip(0) =~= self.entries@);
        }
        while i < self.entries.len()
            invariant
                i <= self.entries@.len(),
                spec_find_font(self.entries@, name@) == match spec_find_font(
                    self.entries@.skip(i as int),
                    name@,
                ) {
                    Some(j) => Some(j + i),
                    None => None::<int>,
                },
            decreases self.entries@.len() - i,
        {
            let entry_name: &Vec<u8> = &self.entries[i].0;
            if bytes_eq(entry_name, name) {
                proof {
                    let rest = self.entries@.skip(i as int);
                    assert(rest[0] == self.entries@[i as int]);
                    assert(spec_find_font(rest, name@) == Some(0int));
                }
                return Some(i);
            }
            proof {
                let rest = self.entries@.skip(i as int);
                assert(rest[0] == self.entries@[i as int]);
                assert(rest.drop_first() =~= self.entries@.skip(i + 1));
            }
            i = i + 1;
        }
        proof {
            assert(self.entries@.skip(i as int) =~= Seq::<(Vec<u8>, PdfFont)>::empty());
        }
        None
    }

    /// Resolves a font resource name, failing when the name is absent.
    pub fn get(&self, name: &Vec<u8>) -> (r: Result<&PdfFont, PdfError>)
        ensures
            match spec_find_font(self.entries@, name@) {
                Some(i) => r matches Ok(f) && *f == self.entries@[i].1,
                None => r matches Err(e) && e matches PdfError::MissingFont { name: n } && n@
                    == name@,
            },
    {
        match self.find(name) {
            Some(i) => {
                proof {
                    assert(spec_find_font(self.entries@, name@) == Some(i as int));
                }
                Ok(&self.entries[i].1)
            },
            None => Err(PdfError::MissingFont { name: name.clone() }),
        }
    }
}

/// Compares two byte strings for equality.
pub fn bytes_eq(a: &Vec<u8>, b: &Vec<u8>) -> (r: bool)
    ensures
        r == (a@ == b@),
{
    if a.len() != b.len() {
        proof {
            assert(a@ != b@) by {
                if a@ == b@ {
                    assert(a@.len() == b@.len());
                }
            }
        }
        return false;
    }
    let mut i: usize = 0;
    while i < a.len()
        invariant
            a@.len() == b@.len(),
            i <= a@.len(),
            forall|j: int| 0 <= j < i ==> a@[j] == b@[j],
        decreases a@.len() - i,
    {
        if a[i] != b[i] {
            proof {
                assert(a@ != b@) by {
                    if a@ == b@ {
                        assert(a@[i as int] == b@[i as int]);
                    }
                }
            }
            return false;
        }
        i = i + 1;
    }
    proof {
        assert(a@ =~= b@);
    }
    true
}


/// What the zlib decoder yields for a compressed byte string, if it
/// decodes at all: a function of the bytes alone.
pub uninterp spec fn zlib_inflate(data: Seq<u8>) -> Option<Seq<u8>>;

/// Relies on flate2's `bufread::ZlibDecoder` driven by
/// `std::io::Read::read_to_end`: the decoded bytes are a function of
/// the compressed bytes alone, and a stream that is not valid zlib
/// data fails instead of yielding anything.
#[verifier::external_body]
fn inflate(data: &Vec<u8>) -> (r: Option<Vec<u8>>)
    ensures
        r is Some <==> zlib_inflate(data@) is Some,
        r matches Some(v) ==> zlib_inflate(data@) == Some(v@),
{
    let mut decoder = flate2::bufread::ZlibDecoder::new(data.as_slice());
    let mut out = Vec::new();
    match std::io::Read::read_to_end(&mut decoder, &mut out) {
        Ok(_) => Some(out),
        Err(_) => None,
    }
}

/// Relies on `String::from_utf8`: it accepts exactly the valid UTF-8
/// byte strings and decodes them to their character sequence.
#[verifier::external_body]
fn utf8_string(data: &Vec<u8>) -> (r: Option<String>)
    ensures
        r is Some <==> vstd::utf8::valid_utf8(data@),
        r matches Some(s) ==> s@ == vstd::utf8::decode_utf8(data@),
{
    String::from_utf8(data.clone()).ok()
}

/// Builds a composite font from the compressed bytes of its
/// code-to-unicode stream: the bytes are inflated, decoded as text,
/// and parsed into the mapping table. A stream that cannot be
/// inflated, decoded or parsed is reported as unsupported.
pub fn cid_font_from_stream(compressed: &Vec<u8>) -> (r: Result<PdfFont, PdfError>)
    ensures
        match zlib_inflate(compressed@) {
            None => r matches Err(e) && e@ == crate::err::ErrView::Unsupported {
                feature: Feature::ToUnicode,
            },
            Some(bytes) => {
                if !vstd::utf8::valid_utf8(bytes) {
                    r matches Err(e) && e@ == crate::err::ErrView::Unsupported {
                        feature: Feature::ToUnicode,
                    }
                } else {
                    match crate::tounicode::spec_tounicode_codes(bytes) {
                        Some(codes) => r matches Ok(f) && f matches PdfFont::CidFont {
                            to_unicode: t,
                        } && crate::tounicode::entry_views(t.spec_mapping()) == codes
                            && t.spec_origin() == vstd::utf8::decode_utf8(bytes),
                        None => r matches Err(e) && e@ == crate::err::ErrView::Unsupported {
                            feature: Feature::ToUnicode,
                        },
                    }
                }
            },
        },
{
    let bytes = match inflate(compressed) {
        Some(b) => b,
        None => {
            return Err(PdfError::Unsupported { feature: Feature::ToUnicode });
        },
    };
    let origin = match utf8_string(&bytes) {
        Some(s) => s,
        None => {
            return Err(PdfError::Unsupported { feature: Feature::ToUnicode });
        },
    };
    match crate::tounicode::parse_tounicode(&bytes, origin) {
        Ok(t) => Ok(PdfFont::cid(t)),
        Err(e) => Err(e),
    }
}

} // verus!
