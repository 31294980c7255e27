//! Filled rectangles ("boxes") collected from the path operators, and
//! the reconstruction of table cells from them.

use vstd::prelude::*;

use crate::err::{ErrView, PdfError};
use crate::geom::{spec_max, spec_min, Rect};
use crate::ops::{OpKind, Operation};
use crate::clamp;

verus! {

/// One filled rectangle, with its insertion-order id.
#[derive(Debug, Clone, Copy, PartialEq, Eq, Structural)]
pub struct PdfBox {
    pub id: usize,
    pub rect: Rect,
}

/// The boxes of one page, and the table cells reconstructed from them
/// once [`PdfBoxes::prepare_cells`] has run.
#[derive(Debug)]
pub struct PdfBoxes {
    pub lines: Vec<PdfBox>,
    pub cells: Option<Vec<Rect>>,
}

/// What one operator does to the box collector: a rectangle operator
/// replaces the current rectangle, a fill operator emits one box
/// carrying it; everything else is ignored. A rectangle operator with
/// anything but four numbers is malformed; the reported operand index
/// is the first non-numeric position, or four when the count is wrong.
pub open spec fn spec_box_step(cur: Rect, boxes: Seq<PdfBox>, op: Operation) -> Result<
    (Rect, Seq<PdfBox>),
    ErrView,
> {
    let name = op.name@;
    let operands = op.operands@;
    match crate::ops::spec_classify(name) {
        OpKind::FillPath => Ok(
            (cur, boxes.push(PdfBox { id: boxes.len() as usize, rect: cur })),
        ),
        OpKind::DefineRect => {
            if operands.len() != 4 {
                Err(ErrView::MalformedOperator { operator: name, operand_index: 4 })
            } else {
                match crate::chars::spec_num_operand(operands, 0) {
                    None => Err(ErrView::MalformedOperator { operator: name, operand_index: 0 }),
                    Some(x) => match crate::chars::spec_num_operand(operands, 1) {
                        None => Err(
                            ErrView::MalformedOperator { operator: name, operand_index: 1 },
                        ),
                        Some(y) => match crate::chars::spec_num_operand(operands, 2) {
                            None => Err(
                                ErrView::MalformedOperator { operator: name, operand_index: 2 },
                            ),
                            Some(w) => match crate::chars::spec_num_operand(operands, 3) {
                                None => Err(
                                    ErrView::MalformedOperator {
                                        operator: name,
                                        operand_index: 3,
                                    },
                                ),
                                Some(h) => Ok(
                                    (
                                        Rect::spec_from_corners(
                                            x as int,
                                            y as int,
                                            clamp(x + w),
                                            clamp(y + h),
                                        ),
                                        boxes,
                                    ),
                                ),
                            },
                        },
                    },
                }
            }
        },
        _ => Ok((cur, boxes)),
    }
}

/// What a whole operator list leaves in the box collector.
pub open spec fn spec_run_boxes(cur: Rect, boxes: Seq<PdfBox>, ops: Seq<Operation>) -> Result<
    (Rect, Seq<PdfBox>),
    ErrView,
>
    decreases ops.len(),
{
    if ops.len() == 0 {
        Ok((cur, boxes))
    } else {
        match spec_run_boxes(cur, boxes, ops.drop_last()) {
            Err(e) => Err(e),
            Ok(p) => spec_box_step(p.0, p.1, ops.last()),
        }
    }
}

/// The zero rectangle the collector starts from.
pub open spec fn spec_box_init() -> Rect {
    Rect { left: 0, bottom: 0, right: 0, top: 0 }
}

/// Once a prefix of the operator list fails the collector, the whole
/// list fails the same way.
proof fn lemma_run_boxes_err_prefix(cur: Rect, boxes: Seq<PdfBox>, ops: Seq<Operation>, i: int)
    requires
        0 <= i <= ops.len(),
        spec_run_boxes(cur, boxes, ops.take(i)) is Err,
    ensures
        spec_run_boxes(cur, boxes, ops) == spec_run_boxes(cur, boxes, ops.take(i)),
    decreases ops.len() - i,
{
    if i == ops.len() {
        assert(ops.take(i) =~= ops);
    } else {
        assert(ops.take(i + 1).drop_last() =~= ops.take(i));
        lemma_run_boxes_err_prefix(cur, boxes, ops, i + 1);
    }
}

/// Collects one box per fill operator, each carrying the rectangle the
/// last rectangle operator defined, with sequential ids. The collection
/// is pinned down by [`spec_run_boxes`] from the zero rectangle.
pub fn operator_to_boxes(data: &Vec<Operation>) -> (r: Result<PdfBoxes, PdfError>)
    ensures
        match r {
            Ok(b) => {
                &&& spec_run_boxes(spec_box_init(), Seq::empty(), data@) matches Ok(p) && b.lines@
                    == p.1
                &&& b.cells is None
                &&& forall|i: int|
                    0 <= i < b.lines@.len() ==> (#[trigger] b.lines@[i]).rect.wf() && b.lines@[
                        i
                    ].id == i
            },
            Err(e) => spec_run_boxes(spec_box_init(), Seq::empty(), data@) matches Err(d) && e@
                == d,
        },
{
    let mut cur = Rect { left: 0, bottom: 0, right: 0, top: 0 };
    let mut lines: Vec<PdfBox> = Vec::new();
    let mut k: usize = 0;
    proof {
        assert(data@.take(0) =~= Seq::<Operation>::empty());
    }
    while k < data.len()
        invariant
            k <= data@.len(),
            cur.wf(),
            spec_run_boxes(spec_box_init(), Seq::empty(), data@.take(k as int)) == Ok::<
                (Rect, Seq<PdfBox>),
                ErrView,
            >((cur, lines@)),
            forall|i: int|
                0 <= i < lines@.len() ==> (#[trigger] lines@[i]).rect.wf() && lines@[i].id == i,
        decreases data@.len() - k,
    {
        let op = &data[k];
        proof {
            assert(data@.take(k as int + 1).drop_last() =~= data@.take(k as int));
            assert(data@.take(k as int + 1).last() == data@[k as int]);
        }
        match crate::ops::classify(&op.name) {
            OpKind::FillPath => {
                lines.push(PdfBox { id: lines.len(), rect: cur });
            },
            OpKind::DefineRect => {
                if op.operands.len() != 4 {
                    proof {
                        lemma_run_boxes_err_prefix(
                            spec_box_init(),
                            Seq::empty(),
                            data@,
                            k as int + 1,
                        );
                    }
                    return Err(
                        PdfError::MalformedOperator { operator: op.name.clone(), operand_index: 4 },
                    );
                }
                let x = match crate::chars::num_operand(&op.operands, 0) {
                    Some(v) => v,
                    None => {
                        proof {
                            lemma_run_boxes_err_prefix(
                                spec_box_init(),
                                Seq::empty(),
                                data@,
                                k as int + 1,
                            );
                        }
                        return Err(
                            PdfError::MalformedOperator {
                                operator: op.name.clone(),
                                operand_index: 0,
                            },
                        );
                    },
                };
                let y = match crate::chars::num_operand(&op.operands, 1) {
                    Some(v) => v,
                    None => {
                        proof {
                            lemma_run_boxes_err_prefix(
                                spec_box_init(),
                                Seq::empty(),
                                data@,
                                k as int + 1,
                            );
                        }
                        return Err(
                            PdfError::MalformedOperator {
                                operator: op.name.clone(),
                                operand_index: 1,
                            },
                        );
                    },
                };
                let w = match crate::chars::num_operand(&op.operands, 2) {
                    Some(v) => v,
                    None => {
                        proof {
                            lemma_run_boxes_err_prefix(
                                spec_box_init(),
                                Seq::empty(),
                                data@,
                                k as int + 1,
                            );
                        }
                        return Err(
                            PdfError::MalformedOperator {
                                operator: op.name.clone(),
                                operand_index: 2,
                            },
                        );
                    },
                };
                let h = match crate::chars::num_operand(&op.operands, 3) {
                    Some(v) => v,
                    None => {
                        proof {
                            lemma_run_boxes_err_prefix(
                                spec_box_init(),
                                Seq::empty(),
                                data@,
                                k as int + 1,
                            );
                        }
                        return Err(
                            PdfError::MalformedOperator {
                                operator: op.name.clone(),
                                operand_index: 3,
                            },
                        );
                    },
                };
                let x2 = crate::add_clamped(x, w);
                let y2 = crate::add_clamped(y, h);
                cur = Rect::from_corners(x, y, x2, y2);
            },
            _ => {},
        }
        k = k + 1;
    }
    proof {
        assert(data@.take(data@.len() as int) =~= data@);
    }
    Ok(PdfBoxes { lines, cells: None })
}


/// The orders in which the reconstructor sorts rulings.
#[derive(Debug, Clone, Copy, PartialEq, Eq, Structural)]
pub enum RectKey {
    /// Ascending bottom edge.
    BottomAsc,
    /// Descending top edge.
    TopDesc,
    /// Ascending left edge.
    LeftAsc,
}

/// Whether `a` sorts at or before `b` under the key.
pub open spec fn spec_key_le(k: RectKey, a: Rect, b: Rect) -> bool {
    match k {
        RectKey::BottomAsc => a.bottom <= b.bottom,
        RectKey::TopDesc => a.top >= b.top,
        RectKey::LeftAsc => a.left <= b.left,
    }
}

/// The position a rectangle takes in the sorted list: after every
/// rectangle already at or before it, which keeps the sort stable.
pub open spec fn spec_key_pos(k: RectKey, t: Seq<Rect>, s: Rect) -> int
    decreases t.len(),
{
    if t.len() == 0 {
        0
    } else if !spec_key_le(k, t[0], s) {
        0
    } else {
        1 + spec_key_pos(k, t.drop_first(), s)
    }
}

/// The rectangles in key order: a stable insertion sort.
pub open spec fn spec_sort_rects(k: RectKey, ss: Seq<Rect>) -> Seq<Rect>
    decreases ss.len(),
{
    if ss.len() == 0 {
        Seq::empty()
    } else {
        let t = spec_sort_rects(k, ss.drop_last());
        t.insert(spec_key_pos(k, t, ss.last()), ss.last())
    }
}

/// The insertion position lies inside the list.
proof fn lemma_key_pos_in_range(k: RectKey, t: Seq<Rect>, s: Rect)
    ensures
        0 <= spec_key_pos(k, t, s) <= t.len(),
    decreases t.len(),
{
    if t.len() > 0 && spec_key_le(k, t[0], s) {
        lemma_key_pos_in_range(k, t.drop_first(), s);
    }
}

/// Sorting keeps the number of rectangles.
proof fn lemma_sort_rects_len(k: RectKey, ss: Seq<Rect>)
    ensures
        spec_sort_rects(k, ss).len() == ss.len(),
    decreases ss.len(),
{
    if ss.len() > 0 {
        lemma_sort_rects_len(k, ss.drop_last());
        let t = spec_sort_rects(k, ss.drop_last());
        lemma_key_pos_in_range(k, t, ss.last());
        t.insert_ensures(spec_key_pos(k, t, ss.last()), ss.last());
    }
}

/// Compares two rectangles under a sort key.
fn key_le(k: RectKey, a: &Rect, b: &Rect) -> (r: bool)
    ensures
        r == spec_key_le(k, *a, *b),
{
    match k {
        RectKey::BottomAsc => a.bottom <= b.bottom,
        RectKey::TopDesc => a.top >= b.top,
        RectKey::LeftAsc => a.left <= b.left,
    }
}

/// Sorts rectangles stably under a key.
fn sort_rects(k: RectKey, v: Vec<Rect>) -> (r: Vec<Rect>)
    ensures
        r@ == spec_sort_rects(k, v@),
{
    let ghost v0 = v@;
    let mut work = v;
    let mut out: Vec<Rect> = Vec::new();
    proof {
        assert(work@ =~= v0.skip(0));
        assert(v0.take(0) =~= Seq::<Rect>::empty());
    }
    while work.len() > 0
        invariant
            work@.len() <= v0.len(),
            work@ =~= v0.skip(v0.len() - work@.len()),
            out@ == spec_sort_rects(k, v0.take(v0.len() - work@.len())),
        decreases work@.len(),
    {
        let ghost n = v0.len() - work@.len();
        let s = work.remove(0);
        proof {
            assert(v0.skip(n as int)[0] == v0[n as int]);
            assert(s == v0[n as int]);
            assert(work@ =~= v0.skip(n as int + 1));
            assert(v0.take(n as int + 1).drop_last() =~= v0.take(n as int));
            assert(v0.take(n as int + 1).last() == v0[n as int]);
        }
        let ghost outv = out@;
        let mut j: usize = 0;
        let mut scanning = true;
        proof {
            assert(outv =~= outv.skip(0));
        }
        while j < out.len() && scanning
            invariant
                outv == out@,
                j <= out@.len(),
                scanning ==> spec_key_pos(k, outv, s) == j + spec_key_pos(
                    k,
                    outv.skip(j as int),
                    s,
                ),
                !scanning ==> spec_key_pos(k, outv, s) == j as int,
            decreases out@.len() - j + (if scanning {
                1int
            } else {
                0int
            }),
        {
            proof {
                assert(outv.skip(j as int)[0] == outv[j as int]);
                assert(outv.skip(j as int).drop_first() =~= outv.skip(j as int + 1));
            }
            if key_le(k, &out[j], &s) {
                j = j + 1;
            } else {
                proof {
                    assert(spec_key_pos(k, outv.skip(j as int), s) == 0);
                }
                scanning = false;
            }
        }
        proof {
            if scanning {
                assert(j == out@.len());
                assert(outv.skip(j as int) =~= Seq::<Rect>::empty());
                assert(spec_key_pos(k, outv.skip(j as int), s) == 0);
            }
            assert(spec_key_pos(k, outv, s) == j as int);
            outv.insert_ensures(j as int, s);
        }
        out.insert(j, s);
    }
    proof {
        assert(v0.take(v0.len() - work@.len()) =~= v0);
    }
    out
}

/// The horizontal rulings of the box list, in order: the boxes wider
/// than tall. A square box is neither horizontal nor vertical.
pub open spec fn spec_horizontals(lines: Seq<PdfBox>) -> Seq<Rect>
    decreases lines.len(),
{
    if lines.len() == 0 {
        Seq::empty()
    } else {
        let r = spec_horizontals(lines.drop_last());
        let b = lines.last().rect;
        if b.spec_width() > b.spec_height() {
            r.push(b)
        } else {
            r
        }
    }
}

/// The vertical rulings of the box list, in order: the boxes taller
/// than wide.
pub open spec fn spec_verticals(lines: Seq<PdfBox>) -> Seq<Rect>
    decreases lines.len(),
{
    if lines.len() == 0 {
        Seq::empty()
    } else {
        let r = spec_verticals(lines.drop_last());
        let b = lines.last().rect;
        if b.spec_height() > b.spec_width() {
            r.push(b)
        } else {
            r
        }
    }
}

/// Collects the horizontal rulings.
fn horizontals(lines: &Vec<PdfBox>) -> (r: Vec<Rect>)
    requires
        forall|i: int| 0 <= i < lines@.len() ==> (#[trigger] lines@[i]).rect.wf(),
    ensures
        r@ == spec_horizontals(lines@),
{
    let mut out: Vec<Rect> = Vec::new();
    let mut i: usize = 0;
    proof {
        assert(lines@.take(0) =~= Seq::<PdfBox>::empty());
    }
    while i < lines.len()
        invariant
            forall|j: int| 0 <= j < lines@.len() ==> (#[trigger] lines@[j]).rect.wf(),
            i <= lines@.len(),
            out@ == spec_horizontals(lines@.take(i as int)),
        decreases lines@.len() - i,
    {
        proof {
            assert(lines@.take(i as int + 1).drop_last() =~= lines@.take(i as int));
            assert(lines@.take(i as int + 1).last() == lines@[i as int]);
        }
        let b = &lines[i].rect;
        if b.width() > b.height() {
            out.push(*b);
        }
        i = i + 1;
    }
    proof {
        assert(lines@.take(lines@.len() as int) =~= lines@);
    }
    out
}

/// Collects the vertical rulings.
fn verticals(lines: &Vec<PdfBox>) -> (r: Vec<Rect>)
    requires
        forall|i: int| 0 <= i < lines@.len() ==> (#[trigger] lines@[i]).rect.wf(),
    ensures
        r@ == spec_verticals(lines@),
{
    let mut out: Vec<Rect> = Vec::new();
    let mut i: usize = 0;
    proof {
        assert(lines@.take(0) =~= Seq::<PdfBox>::empty());
    }
    while i < lines.len()
        invariant
            forall|j: int| 0 <= j < lines@.len() ==> (#[trigger] lines@[j]).rect.wf(),
            i <= lines@.len(),
            out@ == spec_verticals(lines@.take(i as int)),
        decreases lines@.len() - i,
    {
        proof {
            assert(lines@.take(i as int + 1).drop_last() =~= lines@.take(i as int));
            assert(lines@.take(i as int + 1).last() == lines@[i as int]);
        }
        let b = &lines[i].rect;
        if b.height() > b.width() {
            out.push(*b);
        }
        i = i + 1;
    }
    proof {
        assert(lines@.take(lines@.len() as int) =~= lines@);
    }
    out
}

/// The horizontal rulings strictly below `top`: their top edge under
/// `top`'s bottom edge.
pub open spec fn spec_below(hs: Seq<Rect>, top: Rect) -> Seq<Rect>
    decreases hs.len(),
{
    if hs.len() == 0 {
        Seq::empty()
    } else {
        let r = spec_below(hs.drop_last(), top);
        if hs.last().top < top.bottom {
            r.push(hs.last())
        } else {
            r
        }
    }
}

/// Collects the rulings strictly below `top`.
fn below(hs: &Vec<Rect>, top: &Rect) -> (r: Vec<Rect>)
    ensures
        r@ == spec_below(hs@, *top),
{
    let mut out: Vec<Rect> = Vec::new();
    let mut i: usize = 0;
    proof {
        assert(hs@.take(0) =~= Seq::<Rect>::empty());
    }
    while i < hs.len()
        invariant
            i <= hs@.len(),
            out@ == spec_below(hs@.take(i as int), *top),
        decreases hs@.len() - i,
    {
        proof {
            assert(hs@.take(i as int + 1).drop_last() =~= hs@.take(i as int));
            assert(hs@.take(i as int + 1).last() == hs@[i as int]);
        }
        if hs[i].top < top.bottom {
            out.push(hs[i]);
        }
        i = i + 1;
    }
    proof {
        assert(hs@.take(hs@.len() as int) =~= hs@);
    }
    out
}

/// The vertical rulings that can bound a cell between `top` and
/// `bottom`: their vertical extent spans from `top`'s bottom edge
/// through `bottom`'s top edge, and their horizontal extent meets the
/// x-overlap of the two rulings.
pub open spec fn spec_cands(vs: Seq<Rect>, top: Rect, bottom: Rect) -> Seq<Rect>
    decreases vs.len(),
{
    if vs.len() == 0 {
        Seq::empty()
    } else {
        let r = spec_cands(vs.drop_last(), top, bottom);
        let v = vs.last();
        if v.top >= top.bottom && v.bottom <= bottom.top && v.right >= spec_max(
            top.left as int,
            bottom.left as int,
        ) && v.left <= spec_min(top.right as int, bottom.right as int) {
            r.push(v)
        } else {
            r
        }
    }
}

/// Collects the vertical rulings that can bound a cell.
fn cands(vs: &Vec<Rect>, top: &Rect, bottom: &Rect) -> (r: Vec<Rect>)
    ensures
        r@ == spec_cands(vs@, *top, *bottom),
{
    let min_x = if top.left >= bottom.left {
        top.left
    } else {
        bottom.left
    };
    let max_x = if top.right <= bottom.right {
        top.right
    } else {
        bottom.right
    };
    let mut out: Vec<Rect> = Vec::new();
    let mut i: usize = 0;
    proof {
        assert(vs@.take(0) =~= Seq::<Rect>::empty());
    }
    while i < vs.len()
        invariant
            i <= vs@.len(),
            min_x == spec_max(top.left as int, bottom.left as int),
            max_x == spec_min(top.right as int, bottom.right as int),
            out@ == spec_cands(vs@.take(i as int), *top, *bottom),
        decreases vs@.len() - i,
    {
        proof {
            assert(vs@.take(i as int + 1).drop_last() =~= vs@.take(i as int));
            assert(vs@.take(i as int + 1).last() == vs@[i as int]);
        }
        let v = &vs[i];
        if v.top >= top.bottom && v.bottom <= bottom.top && v.right >= min_x && v.left <= max_x {
            out.push(*v);
        }
        i = i + 1;
    }
    proof {
        assert(vs@.take(vs@.len() as int) =~= vs@);
    }
    out
}

/// The cell built under `top`, if any: scanning the bottom candidates
/// from the nearest down, the first with at least two bounding
/// verticals wins; the cell runs from the leftmost vertical's right
/// edge and `top`'s bottom edge to the rightmost vertical's left edge
/// and the bottom ruling's top edge.
pub open spec fn spec_cell_for_top(vs: Seq<Rect>, bottoms: Seq<Rect>, top: Rect) -> Option<Rect>
    decreases bottoms.len(),
{
    if bottoms.len() == 0 {
        None
    } else {
        let cs = spec_cands(vs, top, bottoms[0]);
        if cs.len() >= 2 {
            let sorted = spec_sort_rects(RectKey::LeftAsc, cs);
            Some(
                Rect::spec_from_corners(
                    sorted[0].right as int,
                    top.bottom as int,
                    sorted[sorted.len() - 1].left as int,
                    bottoms[0].top as int,
                ),
            )
        } else {
            spec_cell_for_top(vs, bottoms.drop_first(), top)
        }
    }
}

/// Scans the bottom candidates for the first that closes a cell.
fn cell_for_top(vs: &Vec<Rect>, bottoms: Vec<Rect>, top: &Rect) -> (r: Option<Rect>)
    ensures
        r == spec_cell_for_top(vs@, bottoms@, *top),
{
    let ghost b0 = bottoms@;
    let mut j: usize = 0;
    proof {
        assert(b0.skip(0) =~= b0);
    }
    while j < bottoms.len()
        invariant
            b0 == bottoms@,
            j <= b0.len(),
            spec_cell_for_top(vs@, b0, *top) == spec_cell_for_top(vs@, b0.skip(j as int), *top),
        decreases b0.len() - j,
    {
        proof {
            assert(b0.skip(j as int)[0] == b0[j as int]);
            assert(b0.skip(j as int).drop_first() =~= b0.skip(j as int + 1));
        }
        let cs = cands(vs, top, &bottoms[j]);
        if cs.len() >= 2 {
            proof {
                lemma_sort_rects_len(RectKey::LeftAsc, cs@);
            }
            let sorted = sort_rects(RectKey::LeftAsc, cs);
            let left = sorted[0];
            let right = sorted[sorted.len() - 1];
            let cell = Rect::from_corners(left.right, top.bottom, right.left, bottoms[j].top);
            return Some(cell);
        }
        j = j + 1;
    }
    proof {
        assert(b0.skip(j as int) =~= Seq::<Rect>::empty());
    }
    None
}

/// The cells of the box list: the horizontal rulings sorted by bottom
/// edge serve in turn as a cell's top; for each, the nearest bottom
/// ruling with two bounding verticals closes one cell.
pub open spec fn spec_cells_from(hs: Seq<Rect>, vs: Seq<Rect>, tops: Seq<Rect>) -> Seq<Rect>
    decreases tops.len(),
{
    if tops.len() == 0 {
        Seq::empty()
    } else {
        let rest = spec_cells_from(hs, vs, tops.drop_first());
        match spec_cell_for_top(
            vs,
            spec_sort_rects(RectKey::TopDesc, spec_below(hs, tops[0])),
            tops[0],
        ) {
            Some(c) => seq![c] + rest,
            None => rest,
        }
    }
}

/// The cell list a box list reconstructs to.
pub open spec fn spec_cells_of(lines: Seq<PdfBox>) -> Seq<Rect> {
    let hs = spec_sort_rects(RectKey::BottomAsc, spec_horizontals(lines));
    let vs = spec_sort_rects(RectKey::LeftAsc, spec_verticals(lines));
    spec_cells_from(hs, vs, hs)
}

/// The first cell of the list containing the rectangle, if any.
pub open spec fn spec_wrapping(cells: Seq<Rect>, r: Rect) -> Option<Rect>
    decreases cells.len(),
{
    if cells.len() == 0 {
        None
    } else if cells[0].spec_contains(r) {
        Some(cells[0])
    } else {
        spec_wrapping(cells.drop_first(), r)
    }
}

impl PdfBoxes {
    /// Well-formed line rectangles, and cells, once computed, that are
    /// exactly the reconstruction of the lines.
    pub open spec fn inv(&self) -> bool {
        &&& forall|i: int| 0 <= i < self.lines@.len() ==> (#[trigger] self.lines@[i]).rect.wf()
        &&& match self.cells {
            Some(cs) => cs@ == spec_cells_of(self.lines@),
            None => true,
        }
    }

    /// The collected boxes.
    pub fn get_lines(&self) -> (r: &Vec<PdfBox>)
        ensures
            r@ == self.lines@,
    {
        &self.lines
    }

    /// The reconstructed cells; only read after [`Self::prepare_cells`].
    pub fn get_cells(&self) -> (r: &Vec<Rect>)
        requires
            self.cells is Some,
        ensures
            self.cells matches Some(cs) && r@ == cs@,
    {
        match &self.cells {
            Some(c) => c,
            None => vstd::pervasive::unreached(),
        }
    }

    /// Reconstructs the cells of the page from the collected boxes,
    /// once: the cell list is a function of the box list alone, so a
    /// second run leaves the value unchanged.
    pub fn prepare_cells(&mut self)
        requires
            old(self).inv(),
        ensures
            final(self).lines == old(self).lines,
            final(self).inv(),
            final(self).cells matches Some(cs) && cs@ == spec_cells_of(old(self).lines@),
            old(self).cells is Some ==> *final(self) == *old(self),
    {
        match &self.cells {
            Some(_) => {
                return;
            },
            None => {},
        }
        let hs = sort_rects(RectKey::BottomAsc, horizontals(&self.lines));
        let vs = sort_rects(RectKey::LeftAsc, verticals(&self.lines));
        let mut cells: Vec<Rect> = Vec::new();
        let mut t: usize = 0;
        proof {
            assert(hs@.skip(0) =~= hs@);
            assert(Seq::<Rect>::empty() + spec_cells_from(hs@, vs@, hs@) =~= spec_cells_from(
                hs@,
                vs@,
                hs@,
            ));
            assert(cells@ =~= Seq::<Rect>::empty());
        }
        while t < hs.len()
            invariant
                hs@ == spec_sort_rects(RectKey::BottomAsc, spec_horizontals(old(self).lines@)),
                vs@ == spec_sort_rects(RectKey::LeftAsc, spec_verticals(old(self).lines@)),
                self.lines == old(self).lines,
                self.cells == old(self).cells,
                t <= hs@.len(),
                spec_cells_from(hs@, vs@, hs@) == cells@ + spec_cells_from(
                    hs@,
                    vs@,
                    hs@.skip(t as int),
                ),
            decreases hs@.len() - t,
        {
            proof {
                assert(hs@.skip(t as int)[0] == hs@[t as int]);
                assert(hs@.skip(t as int).drop_first() =~= hs@.skip(t as int + 1));
            }
            let top = hs[t];
            let bots = sort_rects(RectKey::TopDesc, below(&hs, &top));
            let ghost cells_before = cells@;
            match cell_for_top(&vs, bots, &top) {
                Some(c) => {
                    cells.push(c);
                    proof {
                        assert(forall|a: Seq<Rect>, x: Rect, b: Seq<Rect>|
                            (a.push(x) + b) =~= (a + (seq![x] + b)));
                    }
                },
                None => {},
            }
            t = t + 1;
        }
        proof {
            assert(hs@.skip(t as int) =~= Seq::<Rect>::empty());
            assert(cells@ + Seq::<Rect>::empty() =~= cells@);
        }
        self.cells = Some(cells);
    }

    /// The cell containing the given rectangle, borders included, if
    /// any; only asked after [`Self::prepare_cells`].
    pub fn get_wrapping_cell(&self, rect: &Rect) -> (r: Option<Rect>)
        requires
            self.cells is Some,
        ensures
            self.cells matches Some(cs) && r == spec_wrapping(cs@, *rect),
    {
        let cells = self.get_cells();
        let mut i: usize = 0;
        proof {
            assert(cells@.skip(0) =~= cells@);
        }
        while i < cells.len()
            invariant
                self.cells matches Some(cs) && cells@ == cs@,
                i <= cells@.len(),
                spec_wrapping(cells@, *rect) == spec_wrapping(cells@.skip(i as int), *rect),
            decreases cells@.len() - i,
        {
            proof {
                assert(cells@.skip(i as int)[0] == cells@[i as int]);
                assert(cells@.skip(i as int).drop_first() =~= cells@.skip(i as int + 1));
            }
            if cells[i].contains(rect) {
                return Some(cells[i]);
            }
            i = i + 1;
        }
        proof {
            assert(cells@.skip(i as int) =~= Seq::<Rect>::empty());
        }
        None
    }
}

} // verus!
