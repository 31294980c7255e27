//! Reading order: a deterministic top-to-bottom, left-to-right order
//! over the detected strings.

use vstd::prelude::*;

use crate::cluster::{spec_string_rect, PdfString};
use crate::geom::Rect;

verus! {

/// Whether two string rectangles count as the same line: the higher
/// center lies within two thirds of the lower rectangle's height above
/// the lower center. The tolerance absorbs the slight baseline
/// differences between glyph runs of one line; it is stated over
/// doubled centers, which keeps it exact in integers.
pub open spec fn spec_same_line(a: Rect, b: Rect) -> bool {
    if a.center_y2() >= b.center_y2() {
        3 * (a.center_y2() - b.center_y2()) <= 4 * b.spec_height()
    } else {
        3 * (b.center_y2() - a.center_y2()) <= 4 * a.spec_height()
    }
}

/// Whether `a` sorts at or before `b`: on the same line the left center
/// goes first, otherwise the higher center goes first.
pub open spec fn spec_before(a: Rect, b: Rect) -> bool {
    if spec_same_line(a, b) {
        a.center_x2() <= b.center_x2()
    } else {
        a.center_y2() > b.center_y2()
    }
}

/// The reading-order comparator is consistent across lines: for two
/// strings not on the same line, the higher one always sorts first,
/// whatever their horizontal positions.
pub proof fn lemma_reading_order_consistent(a: Rect, b: Rect)
    requires
        a.wf(),
        b.wf(),
        !spec_same_line(a, b),
    ensures
        a.center_y2() != b.center_y2(),
        a.center_y2() > b.center_y2() ==> spec_before(a, b) && !spec_before(b, a),
        b.center_y2() > a.center_y2() ==> spec_before(b, a) && !spec_before(a, b),
{
}

/// The position a string takes in the sorted list: after every string
/// already at or before it, which keeps the sort stable.
pub open spec fn spec_order_pos(t: Seq<PdfString>, s: PdfString) -> int
    decreases t.len(),
{
    if t.len() == 0 {
        0
    } else if !spec_before(spec_string_rect(t[0]@), spec_string_rect(s@)) {
        0
    } else {
        1 + spec_order_pos(t.drop_first(), s)
    }
}

/// One stable insertion step of the sort.
pub open spec fn spec_insert_ordered(t: Seq<PdfString>, s: PdfString) -> Seq<PdfString> {
    t.insert(spec_order_pos(t, s), s)
}

/// The strings in reading order: a stable insertion sort under
/// [`spec_before`].
pub open spec fn spec_sort_strings(ss: Seq<PdfString>) -> Seq<PdfString>
    decreases ss.len(),
{
    if ss.len() == 0 {
        Seq::empty()
    } else {
        spec_insert_ordered(spec_sort_strings(ss.drop_last()), ss.last())
    }
}

/// Compares two string rectangles for reading order.
fn before(a: &Rect, b: &Rect) -> (r: bool)
    requires
        a.wf(),
        b.wf(),
    ensures
        r == spec_before(*a, *b),
{
    let acy = a.cy2();
    let bcy = b.cy2();
    let same_line = if acy >= bcy {
        3 * (acy - bcy) <= 4 * b.height()
    } else {
        3 * (bcy - acy) <= 4 * a.height()
    };
    if same_line {
        a.cx2() <= b.cx2()
    } else {
        acy > bcy
    }
}

/// Sorts the detected strings into reading order: higher centers first,
/// left centers first within a line, with the same-line tolerance of
/// [`spec_same_line`]. The order is pinned down by
/// [`spec_sort_strings`]; strings that compare equal keep their
/// relative order.
pub fn sort_strings(d: &mut Vec<PdfString>)
    requires
        forall|i: int| 0 <= i < old(d)@.len() ==> (#[trigger] old(d)@[i]).wf(),
    ensures
        final(d)@ == spec_sort_strings(old(d)@),
        forall|i: int| 0 <= i < final(d)@.len() ==> (#[trigger] final(d)@[i]).wf(),
        (forall|i: int| 0 <= i < old(d)@.len() ==> (#[trigger] old(d)@[i]).resolved()) ==> forall|
            i: int,
        | 0 <= i < final(d)@.len() ==> (#[trigger] final(d)@[i]).resolved(),
{
    let ghost all_resolved = forall|i: int| 0 <= i < old(d)@.len() ==> (
    #[trigger] old(d)@[i]).resolved();
    let ghost d0 = d@;
    let mut out: Vec<PdfString> = Vec::new();
    proof {
        assert(d@ =~= d0.skip(0));
        assert(d0.take(0) =~= Seq::<PdfString>::empty());
        assert(out@ == spec_sort_strings(d0.take(0)));
    }
    while d.len() > 0
        invariant
            d0 == old(d)@,
            d@.len() <= d0.len(),
            d@ =~= d0.skip(d0.len() - d@.len()),
            forall|i: int| 0 <= i < d0.len() ==> (#[trigger] d0[i]).wf(),
            forall|i: int| 0 <= i < out@.len() ==> (#[trigger] out@[i]).wf(),
            all_resolved == (forall|i: int| 0 <= i < d0.len() ==> (#[trigger] d0[i]).resolved()),
            all_resolved ==> forall|i: int|
                0 <= i < out@.len() ==> (#[trigger] out@[i]).resolved(),
            out@ == spec_sort_strings(d0.take(d0.len() - d@.len())),
        decreases d@.len(),
    {
        let ghost k = d0.len() - d@.len();
        let s = d.remove(0);
        proof {
            assert(d0.skip(k as int)[0] == d0[k as int]);
            assert(s == d0[k as int]);
            assert(d@ =~= d0.skip(k as int + 1));
            assert(d0.take(k as int + 1).drop_last() =~= d0.take(k as int));
            assert(d0.take(k as int + 1).last() == d0[k as int]);
        }
        let ghost outv = out@;
        let srect = s.rect();
        let mut j: usize = 0;
        proof {
            assert(outv =~= outv.skip(0));
        }
        let mut scanning = true;
        while j < out.len() && scanning
            invariant
                outv == out@,
                srect == spec_string_rect(s@),
                srect.wf(),
                s.wf(),
                j <= out@.len(),
                forall|i: int| 0 <= i < out@.len() ==> (#[trigger] out@[i]).wf(),
                scanning ==> spec_order_pos(outv, s) == j + spec_order_pos(
                    outv.skip(j as int),
                    s,
                ),
                !scanning ==> spec_order_pos(outv, s) == j as int,
            decreases out@.len() - j + (if scanning {
                1int
            } else {
                0int
            }),
        {
            proof {
                assert(outv.skip(j as int)[0] == outv[j as int]);
                assert(outv.skip(j as int).drop_first() =~= outv.skip(j as int + 1));
            }
            let orect = out[j].rect();
            if before(&orect, &srect) {
                j = j + 1;
            } else {
                proof {
                    assert(spec_order_pos(outv.skip(j as int), s) == 0);
                }
                scanning = false;
            }
        }
        proof {
            if scanning {
                assert(j == out@.len());
                assert(outv.skip(j as int) =~= Seq::<PdfString>::empty());
                assert(spec_order_pos(outv.skip(j as int), s) == 0);
            }
            assert(spec_order_pos(outv, s) == j as int);
            outv.insert_ensures(j as int, s);
        }
        out.insert(j, s);
        proof {
            assert(out@ == spec_insert_ordered(outv, s));
            assert forall|i: int| 0 <= i < out@.len() implies (#[trigger] out@[i]).wf() && (
            all_resolved ==> out@[i].resolved()) by {
                if i < j {
                    assert(out@[i] == outv[i]);
                } else if i == j {
                    assert(out@[i] == s);
                } else {
                    assert(out@[i] == outv[i - 1]);
                }
            }
        }
        proof {
            assert(out@ == spec_sort_strings(d0.take(k + 1)));
        }
    }
    proof {
        assert(d0.take(d0.len() - d@.len()) =~= d0);
    }
    *d = out;
}


/// The sort position lies inside the list.
pub proof fn lemma_order_pos_in_range(t: Seq<PdfString>, s: PdfString)
    ensures
        0 <= spec_order_pos(t, s) <= t.len(),
    decreases t.len(),
{
    if t.len() > 0 && spec_before(spec_string_rect(t[0]@), spec_string_rect(s@)) {
        lemma_order_pos_in_range(t.drop_first(), s);
    }
}

} // verus!
