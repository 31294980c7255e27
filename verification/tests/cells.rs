// Cell reconstruction: boundary rectangles are given as [x, y, w, h] in
// thousandths of a page unit.

use pdf_layout::boxes::operator_to_boxes;
use pdf_layout::geom::Rect;
use pdf_layout::err::PdfError;
use pdf_layout::ops::{Operand, Operation};

fn make_line(x: i64, y: i64, w: i64, h: i64) -> Vec<Operand> {
    vec![
        Operand::Num(x),
        Operand::Num(y),
        Operand::Num(w),
        Operand::Num(h),
    ]
}

fn generate_cells(lines: &[[i64; 4]]) -> Vec<Rect> {
    let mut ops = Vec::new();
    for line in lines {
        ops.push(Operation::new(
            b"re".to_vec(),
            make_line(line[0], line[1], line[2], line[3]),
        ));
        ops.push(Operation::new(b"f".to_vec(), Vec::new()));
    }
    let mut boxes = operator_to_boxes(&ops).unwrap();
    boxes.prepare_cells();
    boxes.get_cells().clone()
}

fn rect(left: i64, bottom: i64, right: i64, top: i64) -> Rect {
    Rect {
        left,
        bottom,
        right,
        top,
    }
}

#[test]
fn test_prepare_cells_fit() {
    let cells = generate_cells(&[
        [0, 100_000, 100_000, 0],
        [0, 50_000, 100_000, 0],
        [0, 50_000, 0, 50_000],
        [100_000, 50_000, 0, 50_000],
    ]);
    assert_eq!(cells.len(), 1);
    let cell = cells[0];
    let expected = rect(0, 50_000, 100_000, 100_000);
    assert_eq!(cell, expected);
}

#[test]
fn test_prepare_cells_thick_line() {
    let cells = generate_cells(&[
        [5_000, 100_000, 95_000, 3_000],
        [5_000, 50_000, 95_000, 4_000],
        [0, 54_000, 5_000, 46_000],
        [100_000, 54_000, 6_000, 46_000],
    ]);
    assert_eq!(cells.len(), 1);
    let cell = cells[0];
    let expected = rect(5_000, 54_000, 100_000, 100_000);
    assert_eq!(cell, expected);
}

#[test]
fn test_prepare_cells_x_unfit_1() {
    let cells = generate_cells(&[
        [5_000, 100_000, 94_900, 3_000], // changed
        [5_000, 50_000, 95_000, 4_000],
        [0, 54_000, 5_000, 46_000],
        [100_000, 54_000, 6_000, 46_000],
    ]);
    assert!(cells.is_empty());
}

#[test]
fn test_prepare_cells_x_unfit_2() {
    let cells = generate_cells(&[
        [5_000, 100_000, 95_000, 3_000],
        [5_100, 50_000, 94_900, 4_000], // changed
        [0, 54_000, 5_000, 46_000],
        [100_000, 54_000, 6_000, 46_000],
    ]);
    assert!(cells.is_empty());
}

#[test]
fn test_prepare_cells_y_unfit_1() {
    let cells = generate_cells(&[
        [5_000, 100_000, 95_000, 3_000],
        [5_000, 50_000, 95_000, 4_000],
        [0, 54_000, 5_000, 46_000],
        [100_000, 54_100, 6_000, 46_000], // changed, right line moved a bit higher
    ]);
    assert!(cells.is_empty());
}

#[test]
fn test_prepare_cells_y_unfit_2() {
    let cells = generate_cells(&[
        [5_000, 100_000, 95_000, 3_000],
        [5_000, 50_000, 95_000, 4_000],
        [0, 54_000, 5_000, 45_900], // changed
        [100_000, 54_000, 6_000, 46_000],
    ]);
    assert!(cells.is_empty());
}

#[test]
fn prepare_cells_twice_yields_same_cells() {
    let mut ops = Vec::new();
    for line in &[
        [0, 100_000, 100_000, 0],
        [0, 50_000, 100_000, 0],
        [0, 50_000, 0, 50_000],
        [100_000, 50_000, 0, 50_000],
    ] {
        ops.push(Operation::new(
            b"re".to_vec(),
            make_line(line[0], line[1], line[2], line[3]),
        ));
        ops.push(Operation::new(b"f".to_vec(), Vec::new()));
    }
    let mut boxes = operator_to_boxes(&ops).unwrap();
    boxes.prepare_cells();
    let first = boxes.get_cells().clone();
    boxes.prepare_cells();
    let second = boxes.get_cells().clone();
    assert_eq!(first, second);
}

#[test]
fn square_boxes_are_neither_horizontal_nor_vertical() {
    // A square in place of the top ruling: no cell can be closed.
    let cells = generate_cells(&[
        [0, 100_000, 10_000, 10_000],
        [0, 50_000, 100_000, 0],
        [0, 50_000, 0, 50_000],
        [100_000, 50_000, 0, 50_000],
    ]);
    assert!(cells.is_empty());
}

#[test]
fn boxes_carry_sequential_ids_and_normalized_rects() {
    // Negative extents normalize, and each fill emits one box.
    let ops = vec![
        Operation::new(b"re".to_vec(), make_line(10_000, 20_000, -4_000, -6_000)),
        Operation::new(b"f".to_vec(), Vec::new()),
        Operation::new(b"F".to_vec(), Vec::new()),
    ];
    let boxes = operator_to_boxes(&ops).unwrap();
    let lines = boxes.get_lines();
    assert_eq!(lines.len(), 2);
    assert_eq!(lines[0].id, 0);
    assert_eq!(lines[1].id, 1);
    assert_eq!(lines[0].rect, rect(6_000, 14_000, 10_000, 20_000));
    assert_eq!(lines[1].rect, lines[0].rect);
}

#[test]
fn malformed_rectangle_operator_is_reported() {
    let ops = vec![Operation::new(
        b"re".to_vec(),
        vec![Operand::Num(0), Operand::Num(0), Operand::Num(5)],
    )];
    let err = operator_to_boxes(&ops).unwrap_err();
    assert_eq!(
        err,
        PdfError::MalformedOperator {
            operator: b"re".to_vec(),
            operand_index: 4
        }
    );
}

#[test]
fn wrapping_cell_query() {
    let mut ops = Vec::new();
    for line in &[
        [0, 100_000, 100_000, 0],
        [0, 50_000, 100_000, 0],
        [0, 50_000, 0, 50_000],
        [100_000, 50_000, 0, 50_000],
    ] {
        ops.push(Operation::new(
            b"re".to_vec(),
            make_line(line[0], line[1], line[2], line[3]),
        ));
        ops.push(Operation::new(b"f".to_vec(), Vec::new()));
    }
    let mut boxes = operator_to_boxes(&ops).unwrap();
    boxes.prepare_cells();
    let inside = rect(10_000, 60_000, 20_000, 70_000);
    assert_eq!(
        boxes.get_wrapping_cell(&inside),
        Some(rect(0, 50_000, 100_000, 100_000))
    );
    let outside = rect(10_000, 10_000, 20_000, 20_000);
    assert_eq!(boxes.get_wrapping_cell(&outside), None);
}
