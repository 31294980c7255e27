// Glyph clustering, display resolution, and reading order.

use pdf_layout::chars::{GlyphRaw, PdfChar};
use pdf_layout::cluster::{detect_strings, PdfString};
use pdf_layout::err::{Feature, PdfError};
use pdf_layout::geom::Rect;
use pdf_layout::order::sort_strings;

fn glyph(byte: u8, left: i64, bottom: i64, right: i64, top: i64) -> PdfChar {
    PdfChar {
        raw: GlyphRaw::Byte(byte),
        rect: Rect {
            left,
            bottom,
            right,
            top,
        },
        represent_as: None,
    }
}

#[test]
fn near_glyphs_form_one_string_in_reading_order() {
    // Two glyphs on one line, handed over right-to-left: one string,
    // members ordered by ascending center x.
    let glyphs = vec![
        glyph(b'b', 6_000, 0, 12_000, 10_000),
        glyph(b'a', 0, 0, 6_000, 10_000),
    ];
    let strings = detect_strings(glyphs).unwrap();
    assert_eq!(strings.len(), 1);
    assert_eq!(strings[0].get(), "ab");
}

#[test]
fn far_glyphs_never_merge() {
    // Centers 40 units apart, widths 6 units each: farther than the
    // half-width sum plus the 20-unit slack, so two strings.
    let glyphs = vec![
        glyph(b'a', 0, 0, 6_000, 10_000),
        glyph(b'b', 37_000, 0, 43_000, 10_000),
    ];
    let strings = detect_strings(glyphs).unwrap();
    assert_eq!(strings.len(), 2);
}

#[test]
fn borderline_glyphs_do_merge() {
    // Centers exactly 26 units apart with widths 6 units: right at the
    // half-width sum plus the slack, so still one string.
    let glyphs = vec![
        glyph(b'a', 0, 0, 6_000, 10_000),
        glyph(b'b', 26_000, 0, 32_000, 10_000),
    ];
    let strings = detect_strings(glyphs).unwrap();
    assert_eq!(strings.len(), 1);
}

#[test]
fn vertically_distant_glyphs_stay_apart() {
    // Same column, but the vertical distance of the centers exceeds a
    // third of the first string's height.
    let glyphs = vec![
        glyph(b'a', 0, 0, 6_000, 10_000),
        glyph(b'b', 0, 12_000, 6_000, 22_000),
    ];
    let strings = detect_strings(glyphs).unwrap();
    assert_eq!(strings.len(), 2);
}

#[test]
fn string_rect_is_the_union_of_member_rects() {
    let glyphs = vec![
        glyph(b'a', 0, 1_000, 6_000, 11_000),
        glyph(b'b', 6_000, 0, 12_000, 10_000),
    ];
    let strings = detect_strings(glyphs).unwrap();
    assert_eq!(strings.len(), 1);
    let r = strings[0].rect();
    assert_eq!(
        r,
        Rect {
            left: 0,
            bottom: 0,
            right: 12_000,
            top: 11_000,
        }
    );
}

#[test]
fn empty_string_rect_is_a_defect() {
    let empty = PdfString(Vec::new());
    assert_eq!(empty.try_rect().unwrap_err(), PdfError::EmptyStringRect);
}

#[test]
fn special_bytes_resolve_through_the_table() {
    let glyphs = vec![
        glyph(0x95, 0, 0, 6_000, 10_000),
        glyph(0x99, 5_000, 0, 11_000, 10_000),
    ];
    let strings = detect_strings(glyphs).unwrap();
    assert_eq!(strings.len(), 1);
    assert_eq!(strings[0].get(), "-\u{2122}");
}

#[test]
fn null_pair_resolves_to_the_empty_string() {
    let glyphs = vec![PdfChar {
        raw: GlyphRaw::Pair(0, 0),
        rect: Rect {
            left: 0,
            bottom: 0,
            right: 6_000,
            top: 10_000,
        },
        represent_as: None,
    }];
    let strings = detect_strings(glyphs).unwrap();
    assert_eq!(strings[0].get(), "");
}

#[test]
fn unmapped_byte_is_reported() {
    let glyphs = vec![glyph(0x01, 0, 0, 6_000, 10_000)];
    let err = detect_strings(glyphs).unwrap_err();
    assert_eq!(
        err,
        PdfError::Unsupported {
            feature: Feature::RawByte(0x01)
        }
    );
}

#[test]
fn unmapped_pair_is_reported() {
    let glyphs = vec![PdfChar {
        raw: GlyphRaw::Pair(0x03, 0xab),
        rect: Rect {
            left: 0,
            bottom: 0,
            right: 6_000,
            top: 10_000,
        },
        represent_as: None,
    }];
    let err = detect_strings(glyphs).unwrap_err();
    assert_eq!(
        err,
        PdfError::Unsupported {
            feature: Feature::RawPair(0x03, 0xab)
        }
    );
}

#[test]
fn higher_strings_sort_first_regardless_of_x() {
    // The lower string stands far left; the higher one still wins.
    let glyphs = vec![
        glyph(b'l', 0, 0, 6_000, 10_000),
        glyph(b'h', 90_000, 50_000, 96_000, 60_000),
    ];
    let mut strings = detect_strings(glyphs).unwrap();
    assert_eq!(strings.len(), 2);
    sort_strings(&mut strings);
    assert_eq!(strings[0].get(), "h");
    assert_eq!(strings[1].get(), "l");
}

#[test]
fn same_line_strings_sort_left_to_right() {
    // Slightly different baselines, within the two-thirds tolerance:
    // the left string comes first.
    let glyphs = vec![
        glyph(b'r', 60_000, 1_000, 66_000, 11_000),
        glyph(b'l', 0, 0, 6_000, 10_000),
    ];
    let mut strings = detect_strings(glyphs).unwrap();
    assert_eq!(strings.len(), 2);
    sort_strings(&mut strings);
    assert_eq!(strings[0].get(), "l");
    assert_eq!(strings[1].get(), "r");
}
