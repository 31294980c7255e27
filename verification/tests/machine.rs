// The text positioning state machine, on decoded operator lists. All
// coordinates are in thousandths of a page unit.

use pdf_layout::chars::{operator_to_chars, GlyphRaw};
use pdf_layout::err::{Feature, PdfError};
use pdf_layout::font::{PdfFont, PdfFonts};
use pdf_layout::geom::Rect;
use pdf_layout::ops::{Operand, Operation, TjItem};

fn rect(left: i64, bottom: i64, right: i64, top: i64) -> Rect {
    Rect {
        left,
        bottom,
        right,
        top,
    }
}

fn simple_fonts() -> PdfFonts {
    // Codes 65 and 66 ("A", "B"), both half a text-space unit wide.
    let font = PdfFont::regular(65, vec![500, 500]);
    PdfFonts::from_entries(vec![(b"F1".to_vec(), font)])
}

fn set_matrix(a: i64, b: i64, c: i64, d: i64, e: i64, f: i64) -> Operation {
    Operation::new(
        b"Tm".to_vec(),
        vec![
            Operand::Num(a),
            Operand::Num(b),
            Operand::Num(c),
            Operand::Num(d),
            Operand::Num(e),
            Operand::Num(f),
        ],
    )
}

fn set_font(name: &[u8], size: i64) -> Operation {
    Operation::new(
        b"Tf".to_vec(),
        vec![Operand::Name(name.to_vec()), Operand::Num(size)],
    )
}

fn show(bytes: &[u8]) -> Operation {
    Operation::new(b"Tj".to_vec(), vec![Operand::Str(bytes.to_vec())])
}

#[test]
fn glyph_run_positions_are_exact() {
    // Unit scale, font size 12: each glyph is 6 units wide.
    let fonts = simple_fonts();
    let ops = vec![
        set_matrix(1_000, 0, 0, 1_000, 0, 0),
        set_font(b"F1", 12_000),
        show(b"AB"),
    ];
    let glyphs = operator_to_chars(&fonts, &ops).unwrap();
    assert_eq!(glyphs.len(), 2);
    assert_eq!(glyphs[0].raw, GlyphRaw::Byte(b'A'));
    assert_eq!(glyphs[0].rect, rect(0, 0, 6_000, 1_000));
    assert_eq!(glyphs[1].rect, rect(6_000, 0, 12_000, 1_000));
}

#[test]
fn char_spacing_separates_glyphs() {
    // For a run of two glyphs of width 6 units with spacing 0.5 units,
    // the rightmost edge is 2 * 6 + 1 * 0.5 units.
    let fonts = simple_fonts();
    let ops = vec![
        set_matrix(1_000, 0, 0, 1_000, 0, 0),
        set_font(b"F1", 12_000),
        Operation::new(b"Tc".to_vec(), vec![Operand::Num(500)]),
        show(b"AB"),
    ];
    let glyphs = operator_to_chars(&fonts, &ops).unwrap();
    assert_eq!(glyphs[1].rect.right, 12_500);
}

#[test]
fn word_spacing_applies_once_per_operand() {
    let fonts = simple_fonts();
    let ops = vec![
        set_matrix(1_000, 0, 0, 1_000, 0, 0),
        set_font(b"F1", 12_000),
        Operation::new(b"Tw".to_vec(), vec![Operand::Num(2_000)]),
        Operation::new(
            b"Tj".to_vec(),
            vec![
                Operand::Str(b"A".to_vec()),
                Operand::Str(b"B".to_vec()),
            ],
        ),
    ];
    let glyphs = operator_to_chars(&fonts, &ops).unwrap();
    // The second operand starts after the first glyph plus one word space.
    assert_eq!(glyphs[1].rect.left, 8_000);
}

#[test]
fn move_text_scales_by_the_active_factors() {
    let fonts = simple_fonts();
    let ops = vec![
        set_matrix(2_000, 0, 0, 3_000, 0, 0),
        Operation::new(
            b"Td".to_vec(),
            vec![Operand::Num(10_000), Operand::Num(5_000)],
        ),
        set_font(b"F1", 1_000),
        show(b"A"),
    ];
    let glyphs = operator_to_chars(&fonts, &ops).unwrap();
    // dx * width_factor = 10 * 2, dy * height_factor = 5 * 3.
    assert_eq!(glyphs[0].rect.left, 20_000);
    assert_eq!(glyphs[0].rect.bottom, 15_000);
    // Width: 0.5 * 2 * 1; height: the height factor.
    assert_eq!(glyphs[0].rect.right, 21_000);
    assert_eq!(glyphs[0].rect.top, 18_000);
}

#[test]
fn rotated_matrix_keeps_the_pointer() {
    let fonts = simple_fonts();
    let ops = vec![
        set_matrix(1_000, 0, 0, 1_000, 30_000, 40_000),
        // A skewed matrix: factors update, the pointer stays.
        set_matrix(2_000, 500, 0, 2_000, 99_000, 99_000),
        set_font(b"F1", 1_000),
        show(b"A"),
    ];
    let glyphs = operator_to_chars(&fonts, &ops).unwrap();
    assert_eq!(glyphs[0].rect.left, 30_000);
    assert_eq!(glyphs[0].rect.bottom, 40_000);
    // Width still uses the new diagonal factor: 0.5 * 2 * 1 = 1 unit.
    assert_eq!(glyphs[0].rect.right, 31_000);
}

#[test]
fn next_line_steps_down_by_the_line_height() {
    let fonts = simple_fonts();
    let ops = vec![
        set_matrix(10_000, 0, 0, 10_000, 0, 100_000),
        Operation::new(b"T*".to_vec(), Vec::new()),
        set_font(b"F1", 1_000),
        show(b"A"),
    ];
    let glyphs = operator_to_chars(&fonts, &ops).unwrap();
    // 100 - 10 * 1.35 = 86.5 units.
    assert_eq!(glyphs[0].rect.bottom, 86_500);
}

#[test]
fn adjustment_array_shifts_between_strings() {
    let fonts = simple_fonts();
    let ops = vec![
        set_matrix(1_000, 0, 0, 1_000, 0, 0),
        set_font(b"F1", 12_000),
        Operation::new(
            b"TJ".to_vec(),
            vec![Operand::Array(vec![
                TjItem::Str(b"A".to_vec()),
                TjItem::Num(-250_000),
                TjItem::Str(b"B".to_vec()),
            ])],
        ),
    ];
    let glyphs = operator_to_chars(&fonts, &ops).unwrap();
    // A kerning value of -250 thousandths moves the point right by
    // 0.25 text-space units.
    assert_eq!(glyphs[0].rect.right, 6_000);
    assert_eq!(glyphs[1].rect.left, 6_250);
}

#[test]
fn show_text_without_font_fails() {
    let fonts = simple_fonts();
    let ops = vec![set_matrix(1_000, 0, 0, 1_000, 0, 0), show(b"A")];
    let err = operator_to_chars(&fonts, &ops).unwrap_err();
    assert_eq!(err, PdfError::NoActiveFont);
}

#[test]
fn missing_font_is_reported_by_name() {
    let fonts = simple_fonts();
    let ops = vec![set_font(b"F9", 12_000)];
    let err = operator_to_chars(&fonts, &ops).unwrap_err();
    assert_eq!(
        err,
        PdfError::MissingFont {
            name: b"F9".to_vec()
        }
    );
}

#[test]
fn malformed_operand_is_located() {
    let fonts = simple_fonts();
    let ops = vec![Operation::new(
        b"Tc".to_vec(),
        vec![Operand::Str(b"oops".to_vec())],
    )];
    let err = operator_to_chars(&fonts, &ops).unwrap_err();
    assert_eq!(
        err,
        PdfError::MalformedOperator {
            operator: b"Tc".to_vec(),
            operand_index: 0
        }
    );
}

#[test]
fn hexadecimal_string_is_unsupported() {
    let fonts = simple_fonts();
    let ops = vec![
        set_matrix(1_000, 0, 0, 1_000, 0, 0),
        set_font(b"F1", 12_000),
        Operation::new(b"Tj".to_vec(), vec![Operand::HexStr(b"03ab".to_vec())]),
    ];
    let err = operator_to_chars(&fonts, &ops).unwrap_err();
    assert_eq!(
        err,
        PdfError::Unsupported {
            feature: Feature::HexString
        }
    );
}

#[test]
fn font_size_operator_is_unsupported() {
    let fonts = simple_fonts();
    let ops = vec![Operation::new(b"Tfs".to_vec(), vec![Operand::Num(1_000)])];
    let err = operator_to_chars(&fonts, &ops).unwrap_err();
    assert_eq!(
        err,
        PdfError::Unsupported {
            feature: Feature::SetFontSize
        }
    );
}

#[test]
fn out_of_range_code_is_reported() {
    let fonts = simple_fonts();
    let ops = vec![
        set_matrix(1_000, 0, 0, 1_000, 0, 0),
        set_font(b"F1", 12_000),
        show(b"Z"),
    ];
    let err = operator_to_chars(&fonts, &ops).unwrap_err();
    assert_eq!(err, PdfError::GlyphOutOfRange { code: b'Z' });
}

#[test]
fn unknown_operators_are_ignored() {
    let fonts = simple_fonts();
    let ops = vec![
        Operation::new(b"BT".to_vec(), Vec::new()),
        Operation::new(b"q".to_vec(), Vec::new()),
    ];
    let glyphs = operator_to_chars(&fonts, &ops).unwrap();
    assert!(glyphs.is_empty());
}

#[test]
fn page_pipeline_orders_text_for_reading() {
    // Two lines shown bottom-up arrive back top-down.
    let fonts = simple_fonts();
    let ops = vec![
        set_matrix(10_000, 0, 0, 10_000, 0, 10_000),
        set_font(b"F1", 12_000),
        show(b"BA"),
        set_matrix(10_000, 0, 0, 10_000, 0, 200_000),
        show(b"AB"),
    ];
    let strings = pdf_layout::page::page_to_texts_v2(&fonts, &ops).unwrap();
    let texts: Vec<String> = strings.iter().map(|s| s.get()).collect();
    assert_eq!(texts, vec!["AB".to_string(), "BA".to_string()]);
}
