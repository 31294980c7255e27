// Font metrics and the composite-font code-to-unicode table.

use pdf_layout::err::{Feature, PdfError};
use pdf_layout::font::{cid_font_from_stream, PdfFont, PdfFonts};
use pdf_layout::tounicode::parse_tounicode;
use std::io::Write;

const CMAP: &str = "/CIDInit /ProcSet findresource begin 12 dict begin begincmap \
/CMapName /TT35 def /CMapType 2 def \
1 begincodespacerange <03ab> <03bb> endcodespacerange\n\
2 beginbfchar\n<03ab> <2212>\n<03bb> <221E>\nendbfchar\n\
1 beginbfrange\n<03b6> <03b7> <2264>\nendbfrange\n\
endcmap CMapName currentdict /CMap defineresource pop end end\n";

#[test]
fn simple_font_width_lookup() {
    // The width table holds per-mille widths: 247 stands for 0.247 of a
    // text-space unit.
    let font = PdfFont::regular(32, vec![247, 194]);
    assert_eq!(font.get_char_width(b' ').unwrap(), 247);
    assert_eq!(font.get_char_width(b'!').unwrap(), 194);
    assert_eq!(
        font.get_char_width(b'"').unwrap_err(),
        PdfError::GlyphOutOfRange { code: b'"' }
    );
    assert_eq!(
        font.get_char_width(0x1f).unwrap_err(),
        PdfError::GlyphOutOfRange { code: 0x1f }
    );
}

#[test]
fn font_resolution_takes_the_first_entry() {
    let fonts = PdfFonts::from_entries(vec![
        (b"TT4".to_vec(), PdfFont::regular(32, vec![247])),
        (b"TT4".to_vec(), PdfFont::regular(32, vec![999])),
    ]);
    let font = fonts.get(&b"TT4".to_vec()).unwrap();
    assert_eq!(font.get_char_width(b' ').unwrap(), 247);
    let err = fonts.get(&b"TT5".to_vec()).unwrap_err();
    assert_eq!(
        err,
        PdfError::MissingFont {
            name: b"TT5".to_vec()
        }
    );
}

#[test]
fn tounicode_parses_pairs_and_ranges() {
    let table = parse_tounicode(&CMAP.as_bytes().to_vec(), CMAP.to_string()).unwrap();
    assert_eq!(table.origin(), CMAP);
    assert_eq!(table.mapping_raw().len(), 4);
    assert_eq!(table.mapping([0x03, 0xab]), [0x22, 0x12]);
    assert_eq!(table.mapping([0x03, 0xbb]), [0x22, 0x1e]);
    // The range expands code by code.
    assert_eq!(table.mapping([0x03, 0xb6]), [0x22, 0x64]);
    assert_eq!(table.mapping([0x03, 0xb7]), [0x22, 0x65]);
    assert_eq!(table.lookup([0x03, 0xb8]), None);
}

#[test]
fn tounicode_without_sections_is_unsupported() {
    let text = b"no sections here".to_vec();
    let err = parse_tounicode(&text, String::from_utf8(text.clone()).unwrap()).unwrap_err();
    assert_eq!(
        err,
        PdfError::Unsupported {
            feature: Feature::ToUnicode
        }
    );
}

#[test]
fn tounicode_with_odd_pair_count_is_unsupported() {
    let text = b"1 beginbfchar\n<03ab>\nendbfchar 0 beginbfrange endbfrange".to_vec();
    let err = parse_tounicode(&text, String::new()).unwrap_err();
    assert_eq!(
        err,
        PdfError::Unsupported {
            feature: Feature::ToUnicode
        }
    );
}

#[test]
fn cid_font_from_compressed_stream() {
    let mut encoder =
        flate2::write::ZlibEncoder::new(Vec::new(), flate2::Compression::default());
    encoder.write_all(CMAP.as_bytes()).unwrap();
    let compressed = encoder.finish().unwrap();

    let font = cid_font_from_stream(&compressed).unwrap();
    match &font {
        PdfFont::CidFont { to_unicode } => {
            assert_eq!(to_unicode.origin(), CMAP);
            assert_eq!(to_unicode.mapping([0x03, 0xab]), [0x22, 0x12]);
            assert_eq!(to_unicode.mapping([0x03, 0xb7]), [0x22, 0x65]);
        }
        PdfFont::Regular { .. } => panic!("expected a composite font"),
    }
    // Width and character resolution through a composite font stay
    // explicitly unsupported.
    assert_eq!(
        font.get_char_width(b'A').unwrap_err(),
        PdfError::Unsupported {
            feature: Feature::CompositeFont
        }
    );
    assert_eq!(
        font.get_cid_width([0x03, 0xab]).unwrap_err(),
        PdfError::Unsupported {
            feature: Feature::CompositeFont
        }
    );
    assert_eq!(
        font.get_cid_char([0x03, 0xab]).unwrap_err(),
        PdfError::Unsupported {
            feature: Feature::CompositeFont
        }
    );
}

#[test]
fn corrupt_stream_is_unsupported() {
    let garbage = vec![0xde, 0xad, 0xbe, 0xef];
    let err = cid_font_from_stream(&garbage).unwrap_err();
    assert_eq!(
        err,
        PdfError::Unsupported {
            feature: Feature::ToUnicode
        }
    );
}
