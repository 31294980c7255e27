//! Glyph clustering: grouping placed glyphs into strings by spatial
//! adjacency.

use vstd::math::abs;
use vstd::prelude::*;

use crate::chars::{views_of, CharView, PdfChar};
use crate::err::{ErrView, PdfError};
use crate::geom::Rect;

verus! {

/// Horizontal clustering slack, in thousandths of a page unit: a glyph
/// may stand this far beyond the half-widths of a string and still join
/// it. A tunable threshold calibrated to the source documents' font
/// sizes, not a derived quantity.
pub const NEARBY_X: i64 = 20_000;

/// Vertical drift, in thousandths of a page unit, past which a glyph
/// counts as off the string's baseline and starts a new string.
pub const OFF_BASELINE: i64 = 10_000;

/// The bounding rectangle of a glyph run: the union of the members'
/// rectangles.
pub open spec fn spec_string_rect(s: Seq<CharView>) -> Rect
    recommends
        s.len() > 0,
    decreases s.len(),
{
    if s.len() <= 1 {
        s[0].rect
    } else {
        spec_string_rect(s.drop_last()).spec_union(s.last().rect)
    }
}

/// Whether a glyph with rectangle `c` is near a string with rectangle
/// `s`: the horizontal distance of the centers stays within the two
/// half-widths plus the slack, and the vertical distance within a third
/// of the string's height. Both conditions are stated over doubled
/// center coordinates, which keeps them exact in integers.
pub open spec fn spec_nearby(s: Rect, c: Rect) -> bool {
    &&& s.spec_width() + c.spec_width() + 2 * NEARBY_X >= abs(s.center_x2() - c.center_x2())
    &&& 2 * s.spec_height() >= 3 * abs(s.center_y2() - c.center_y2())
}

/// The first string of the list the glyph is near, if any.
pub open spec fn spec_find_nearby(strings: Seq<Seq<CharView>>, c: CharView) -> Option<int>
    decreases strings.len(),
{
    if strings.len() == 0 {
        None
    } else if spec_nearby(spec_string_rect(strings[0]), c.rect) {
        Some(0)
    } else {
        match spec_find_nearby(strings.drop_first(), c) {
            Some(i) => Some(i + 1),
            None => None,
        }
    }
}

/// The position keeping a string's members ordered by ascending center
/// x: the first member whose center lies right of the glyph's.
pub open spec fn spec_insert_pos(s: Seq<CharView>, c: CharView) -> int
    decreases s.len(),
{
    if s.len() == 0 {
        0
    } else if s[0].rect.center_x2() > c.rect.center_x2() {
        0
    } else {
        1 + spec_insert_pos(s.drop_first(), c)
    }
}

/// Adds one glyph to the string list: it joins the first string it is
/// near, at its center-x position, unless it drifts off that string's
/// baseline; a glyph that joins nothing, or drifts, starts a new
/// one-glyph string.
pub open spec fn spec_add_glyph(strings: Seq<Seq<CharView>>, c: CharView) -> Seq<Seq<CharView>> {
    match spec_find_nearby(strings, c) {
        None => strings.push(seq![c]),
        Some(i) => {
            let s = strings[i];
            let pos = spec_insert_pos(s, c);
            if pos > 0 && s[pos - 1].rect.center_y2() + 2 * OFF_BASELINE < c.rect.center_y2() {
                strings.push(seq![c])
            } else {
                strings.update(i, s.insert(pos, c))
            }
        },
    }
}

/// The string list grown from the glyph list, one glyph at a time,
/// starting from the last glyph.
pub open spec fn spec_detect(gs: Seq<CharView>) -> Seq<Seq<CharView>>
    decreases gs.len(),
{
    if gs.len() == 0 {
        Seq::empty()
    } else {
        spec_add_glyph(spec_detect(gs.drop_first()), gs.first())
    }
}

/// The glyph view with its display string resolved, or the error that
/// it has none.
pub open spec fn spec_resolve_one(g: CharView) -> Result<CharView, ErrView> {
    if g.repr is Some {
        Ok(g)
    } else {
        match crate::chars::spec_repr_raw(g.raw) {
            Some(cs) => Ok(CharView { repr: Some(cs), ..g }),
            None => Err(crate::chars::spec_repr_err(g.raw)),
        }
    }
}

/// All glyphs resolved in order, or the first resolution failure.
pub open spec fn spec_resolve_all(gs: Seq<CharView>) -> Result<Seq<CharView>, ErrView>
    decreases gs.len(),
{
    if gs.len() == 0 {
        Ok(Seq::empty())
    } else {
        match spec_resolve_one(gs.first()) {
            Err(e) => Err(e),
            Ok(g) => match spec_resolve_all(gs.drop_first()) {
                Err(e) => Err(e),
                Ok(rest) => Ok(seq![g] + rest),
            },
        }
    }
}

/// An ordered, non-empty run of glyphs that belong together spatially.
#[derive(Debug)]
pub struct PdfString(pub Vec<PdfChar>);

impl View for PdfString {
    type V = Seq<CharView>;

    open spec fn view(&self) -> Seq<CharView> {
        views_of(self.0@)
    }
}

/// The views of a string list.
pub open spec fn string_views(rs: Seq<PdfString>) -> Seq<Seq<CharView>> {
    rs.map_values(|s: PdfString| s@)
}

/// The concatenation of the members' display strings.
pub open spec fn spec_string_text(s: Seq<CharView>) -> Seq<char>
    decreases s.len(),
{
    if s.len() == 0 {
        Seq::empty()
    } else {
        spec_string_text(s.drop_last()) + s.last().repr.unwrap_or(Seq::empty())
    }
}

impl PdfString {
    /// Every member's rectangle is well formed.
    pub open spec fn members_wf(&self) -> bool {
        forall|i: int| 0 <= i < self@.len() ==> (#[trigger] self@[i]).rect.wf()
    }

    /// The members stand in ascending center-x order.
    pub open spec fn sorted(&self) -> bool {
        forall|i: int, j: int|
            0 <= i < j < self@.len() ==> (#[trigger] self@[i]).rect.center_x2() <= (
            #[trigger] self@[j]).rect.center_x2()
    }

    /// Every member's display string is resolved.
    pub open spec fn resolved(&self) -> bool {
        forall|i: int| 0 <= i < self@.len() ==> (#[trigger] self@[i]).repr is Some
    }

    /// Non-empty, well-formed members, in center-x order.
    pub open spec fn wf(&self) -> bool {
        self@.len() > 0 && self.members_wf() && self.sorted()
    }

    /// The concatenated display text of the string.
    pub fn get(&self) -> (r: String)
        requires
            self.resolved(),
        ensures
            r@ == spec_string_text(self@),
    {
        let mut r = String::new();
        let mut i: usize = 0;
        proof {
            assert(self@.take(0) =~= Seq::<CharView>::empty());
        }
        while i < self.0.len()
            invariant
                self.resolved(),
                i <= self@.len(),
                self@.len() == self.0@.len(),
                r@ == spec_string_text(self@.take(i as int)),
            decreases self@.len() - i,
        {
            proof {
                assert(self@.take(i as int + 1).drop_last() =~= self@.take(i as int));
                assert(self@.take(i as int + 1).last() == self@[i as int]);
                assert(self@[i as int] == self.0@[i as int]@);
            }
            r.append(self.0[i].get());
            i = i + 1;
        }
        proof {
            assert(self@.take(self@.len() as int) =~= self@);
        }
        r
    }

    /// The bounding rectangle: the union of the members' rectangles.
    pub fn rect(&self) -> (r: Rect)
        requires
            self@.len() > 0,
            self.members_wf(),
        ensures
            r == spec_string_rect(self@),
            r.wf(),
    {
        let mut r = self.0[0].rect;
        let mut i: usize = 1;
        proof {
            assert(self@.take(1)[0] == self@[0]);
            assert(self@[0] == self.0@[0]@);
            assert(r == spec_string_rect(self@.take(1)));
        }
        while i < self.0.len()
            invariant
                self.members_wf(),
                1 <= i <= self@.len(),
                self@.len() == self.0@.len(),
                r == spec_string_rect(self@.take(i as int)),
                r.wf(),
            decreases self@.len() - i,
        {
            proof {
                assert(self@.take(i as int + 1).drop_last() =~= self@.take(i as int));
                assert(self@.take(i as int + 1).last() == self@[i as int]);
                assert(self@[i as int] == self.0@[i as int]@);
            }
            r = r.union(&self.0[i].rect);
            i = i + 1;
        }
        proof {
            assert(self@.take(self@.len() as int) =~= self@);
        }
        r
    }

    /// The bounding rectangle, or the report that the string has no
    /// members: an invariant violation of the clustering step, surfaced
    /// as a defect rather than a default value.
    pub fn try_rect(&self) -> (r: Result<Rect, PdfError>)
        requires
            self.members_wf(),
        ensures
            self@.len() == 0 ==> (r matches Err(e) && e@ == ErrView::EmptyStringRect),
            self@.len() > 0 ==> (r matches Ok(rect) && rect == spec_string_rect(self@)),
    {
        if self.0.len() == 0 {
            Err(PdfError::EmptyStringRect)
        } else {
            Ok(self.rect())
        }
    }
}

/// The bounding rectangle of a string is the exact axis-aligned union
/// of its members' rectangles: no member juts out of it, and each of
/// its four edges is attained by some member.
pub proof fn lemma_string_rect_is_union(s: Seq<CharView>)
    requires
        s.len() > 0,
    ensures
        forall|i: int|
            0 <= i < s.len() ==> spec_string_rect(s).spec_contains((#[trigger] s[i]).rect),
        exists|i: int| 0 <= i < s.len() && (#[trigger] s[i]).rect.left == spec_string_rect(s).left,
        exists|i: int|
            0 <= i < s.len() && (#[trigger] s[i]).rect.bottom == spec_string_rect(s).bottom,
        exists|i: int|
            0 <= i < s.len() && (#[trigger] s[i]).rect.right == spec_string_rect(s).right,
        exists|i: int| 0 <= i < s.len() && (#[trigger] s[i]).rect.top == spec_string_rect(s).top,
    decreases s.len(),
{
    if s.len() == 1 {
        assert(s[0].rect.left == spec_string_rect(s).left);
    } else {
        lemma_string_rect_is_union(s.drop_last());
        let prefix = s.drop_last();
        let r = spec_string_rect(s);
        let rp = spec_string_rect(prefix);
        assert forall|i: int| 0 <= i < s.len() implies r.spec_contains((#[trigger] s[i]).rect) by {
            if i < s.len() - 1 {
                assert(prefix[i] == s[i]);
                assert(rp.spec_contains(s[i].rect));
            }
        }
        if r.left == rp.left {
            let w = choose|i: int| 0 <= i < prefix.len() && (#[trigger] prefix[i]).rect.left
                == rp.left;
            assert(s[w].rect.left == r.left);
        } else {
            assert(s[s.len() - 1].rect.left == r.left);
        }
        if r.bottom == rp.bottom {
            let w = choose|i: int| 0 <= i < prefix.len() && (#[trigger] prefix[i]).rect.bottom
                == rp.bottom;
            assert(s[w].rect.bottom == r.bottom);
        } else {
            assert(s[s.len() - 1].rect.bottom == r.bottom);
        }
        if r.right == rp.right {
            let w = choose|i: int| 0 <= i < prefix.len() && (#[trigger] prefix[i]).rect.right
                == rp.right;
            assert(s[w].rect.right == r.right);
        } else {
            assert(s[s.len() - 1].rect.right == r.right);
        }
        if r.top == rp.top {
            let w = choose|i: int| 0 <= i < prefix.len() && (#[trigger] prefix[i]).rect.top
                == rp.top;
            assert(s[w].rect.top == r.top);
        } else {
            assert(s[s.len() - 1].rect.top == r.top);
        }
    }
}

/// Two glyphs whose horizontal centers lie farther apart than the sum
/// of their half-widths plus the clustering slack are not near each
/// other: a one-glyph string made of either can never absorb the other.
pub proof fn lemma_far_glyphs_not_nearby(a: CharView, b: CharView)
    requires
        abs(a.rect.center_x2() - b.rect.center_x2()) > a.rect.spec_width() + b.rect.spec_width()
            + 2 * NEARBY_X,
    ensures
        !spec_nearby(spec_string_rect(seq![a]), b.rect),
{
    assert(spec_string_rect(seq![a]) == seq![a][0].rect);
}

/// The index of the string a glyph joins names an entry of the list.
pub proof fn lemma_find_nearby_in_range(strings: Seq<Seq<CharView>>, c: CharView)
    ensures
        spec_find_nearby(strings, c) matches Some(j) ==> 0 <= j < strings.len(),
    decreases strings.len(),
{
    if strings.len() > 0 && !spec_nearby(spec_string_rect(strings[0]), c.rect) {
        lemma_find_nearby_in_range(strings.drop_first(), c);
    }
}

/// A one-glyph string whose glyph lies too far from `b` is never the
/// string that `b` joins.
pub proof fn lemma_far_glyph_not_joined(strings: Seq<Seq<CharView>>, i: int, a: CharView, b: CharView)
    requires
        0 <= i < strings.len(),
        strings[i] == seq![a],
        abs(a.rect.center_x2() - b.rect.center_x2()) > a.rect.spec_width() + b.rect.spec_width()
            + 2 * NEARBY_X,
    ensures
        spec_find_nearby(strings, b) != Some(i),
    decreases strings.len(),
{
    lemma_far_glyphs_not_nearby(a, b);
    lemma_find_nearby_in_range(strings.drop_first(), b);
    if i == 0 {
        assert(spec_string_rect(strings[0]) == spec_string_rect(seq![a]));
        assert(!spec_nearby(spec_string_rect(strings[0]), b.rect));
        match spec_find_nearby(strings.drop_first(), b) {
            Some(j) => {
                assert(spec_find_nearby(strings, b) == Some(j + 1));
            },
            None => {
                assert(spec_find_nearby(strings, b) is None);
            },
        }
    } else if spec_nearby(spec_string_rect(strings[0]), b.rect) {
        assert(spec_find_nearby(strings, b) == Some(0int));
    } else {
        assert(strings.drop_first()[i - 1] == strings[i]);
        lemma_far_glyph_not_joined(strings.drop_first(), i - 1, a, b);
        match spec_find_nearby(strings.drop_first(), b) {
            Some(j) => {
                assert(j != i - 1);
                assert(spec_find_nearby(strings, b) == Some(j + 1));
            },
            None => {
                assert(spec_find_nearby(strings, b) is None);
            },
        }
    }
}



/// Views commute with inserting a glyph.
proof fn lemma_views_insert(v: Seq<PdfChar>, p: int, c: PdfChar)
    requires
        0 <= p <= v.len(),
    ensures
        views_of(v.insert(p, c)) =~= views_of(v).insert(p, c@),
{
    v.insert_ensures(p, c);
    views_of(v).insert_ensures(p, c@);
    assert forall|k: int| 0 <= k < v.len() + 1 implies views_of(v.insert(p, c))[k] == views_of(
        v,
    ).insert(p, c@)[k] by {
        if k < p {
            assert(v.insert(p, c)[k] == v[k]);
            assert(views_of(v).insert(p, c@)[k] == views_of(v)[k]);
        } else if k == p {
            assert(v.insert(p, c)[k] == c);
            assert(views_of(v).insert(p, c@)[k] == c@);
        } else {
            assert(v.insert(p, c)[k] == v[k - 1]);
            assert(views_of(v).insert(p, c@)[k] == views_of(v)[k - 1]);
        }
    }
}

/// Reports whether a glyph rectangle is near a string rectangle.
fn nearby(s: &Rect, c: &Rect) -> (r: bool)
    requires
        s.wf(),
        c.wf(),
    ensures
        r == spec_nearby(*s, *c),
{
    let sx = s.cx2();
    let cx = c.cx2();
    let xd = if sx >= cx {
        sx - cx
    } else {
        cx - sx
    };
    let sy = s.cy2();
    let cy = c.cy2();
    let yd = if sy >= cy {
        sy - cy
    } else {
        cy - sy
    };
    s.width() + c.width() + 2 * NEARBY_X >= xd && 2 * s.height() >= 3 * yd
}

/// Resolves the display string of every glyph, in order.
fn resolve_chars(cs: Vec<PdfChar>) -> (r: Result<Vec<PdfChar>, PdfError>)
    requires
        forall|i: int| 0 <= i < cs@.len() ==> (#[trigger] cs@[i]).rect.wf(),
    ensures
        match r {
            Ok(rc) => {
                &&& spec_resolve_all(views_of(cs@)) == Ok::<Seq<CharView>, ErrView>(
                    views_of(rc@),
                )
                &&& forall|i: int|
                    0 <= i < rc@.len() ==> (#[trigger] rc@[i]).rect.wf() && rc@[i].represent_as
                        is Some
            },
            Err(e) => spec_resolve_all(views_of(cs@)) matches Err(d) && e@ == d,
        },
{
    let ghost cs0 = cs@;
    let mut work = cs;
    let mut resolved: Vec<PdfChar> = Vec::new();
    proof {
        assert(views_of(resolved@) =~= Seq::<CharView>::empty());
        assert(work@ =~= cs0.skip(0));
    }
    while work.len() > 0
        invariant
            cs0 == cs@,
            forall|i: int| 0 <= i < cs0.len() ==> (#[trigger] cs0[i]).rect.wf(),
            work@ =~= cs0.skip(resolved@.len() as int),
            resolved@.len() <= cs0.len(),
            forall|i: int|
                0 <= i < resolved@.len() ==> (#[trigger] resolved@[i]).rect.wf()
                    && resolved@[i].represent_as is Some,
            spec_resolve_all(views_of(cs0)) == match spec_resolve_all(views_of(work@)) {
                Ok(rest) => Ok::<Seq<CharView>, ErrView>(views_of(resolved@) + rest),
                Err(d) => Err(d),
            },
        decreases work@.len(),
    {
        let ghost wv_before = views_of(work@);
        let ghost res_before = resolved@;
        let mut c = work.remove(0);
        proof {
            assert(wv_before.len() > 0);
            assert(wv_before[0] == c@);
            assert(views_of(work@) =~= wv_before.drop_first());
            assert(work@ =~= cs0.skip(res_before.len() as int + 1));
            assert(c.rect.wf()) by {
                assert(cs0.skip(res_before.len() as int)[0] == cs0[res_before.len() as int]);
            }
        }
        match c.make_ready() {
            Ok(_) => {},
            Err(e) => {
                proof {
                    assert(spec_resolve_one(wv_before[0]) == Err::<CharView, ErrView>(e@));
                    assert(spec_resolve_all(wv_before) == Err::<Seq<CharView>, ErrView>(e@));
                }
                return Err(e);
            },
        }
        proof {
            assert(spec_resolve_one(wv_before[0]) == Ok::<CharView, ErrView>(c@));
        }
        resolved.push(c);
        proof {
            assert(views_of(resolved@) =~= views_of(res_before).push(resolved@.last()@));
            assert(forall|a: Seq<CharView>, x: CharView, b: Seq<CharView>|
                (a.push(x) + b) =~= (a + (seq![x] + b)));
        }
    }
    proof {
        assert(views_of(work@) =~= Seq::<CharView>::empty());
        assert(views_of(resolved@) + Seq::<CharView>::empty() =~= views_of(resolved@));
    }
    Ok(resolved)
}

/// Adds one resolved glyph to the string list, as [`spec_add_glyph`]
/// says.
#[verifier::rlimit(60)]
fn add_glyph(result: &mut Vec<PdfString>, c: PdfChar)
    requires
        c.rect.wf(),
        c.represent_as is Some,
        forall|i: int| 0 <= i < old(result)@.len() ==> (#[trigger] old(result)@[i]).wf(),
        forall|i: int| 0 <= i < old(result)@.len() ==> (#[trigger] old(result)@[i]).resolved(),
    ensures
        string_views(final(result)@) == spec_add_glyph(string_views(old(result)@), c@),
        forall|i: int| 0 <= i < final(result)@.len() ==> (#[trigger] final(result)@[i]).wf(),
        forall|i: int| 0 <= i < final(result)@.len() ==> (#[trigger] final(result)@[i]).resolved(),
{
    let ghost strs = string_views(result@);
    let crect = c.rect;
    let mut found: Option<usize> = None;
    let mut si: usize = 0;
    proof {
        assert(strs.skip(0) =~= strs);
    }
    while si < result.len() && found.is_none()
        invariant
            strs == string_views(old(result)@),
            result@ == old(result)@,
            crect == c.rect,
            crect.wf(),
            si <= result@.len(),
            strs.len() == result@.len(),
            forall|i: int| 0 <= i < result@.len() ==> (#[trigger] result@[i]).wf(),
            found is None ==> spec_find_nearby(strs, c@) == match spec_find_nearby(
                strs.skip(si as int),
                c@,
            ) {
                Some(j) => Some(j + si),
                None => None::<int>,
            },
            found matches Some(k) ==> spec_find_nearby(strs, c@) == Some(k as int) && (k as int)
                < strs.len(),
        decreases strs.len() - si,
    {
        proof {
            assert(strs.skip(si as int)[0] == strs[si as int]);
            assert(strs.skip(si as int).drop_first() =~= strs.skip(si as int + 1));
            assert(strs[si as int] == result@[si as int]@);
        }
        let srect = result[si].rect();
        if nearby(&srect, &crect) {
            found = Some(si);
        }
        si = si + 1;
    }
    proof {
        if found is None {
            assert(si == strs.len());
            assert(strs.skip(strs.len() as int) =~= Seq::<Seq<CharView>>::empty());
            assert(spec_find_nearby(strs, c@) is None);
        }
    }
    match found {
        None => {
            let ghost result_before = result@;
            result.push(PdfString(vec![c]));
            proof {
                assert(result@.last()@ =~= seq![c@]);
                assert(string_views(result@) =~= string_views(result_before).push(seq![c@]));
                assert(result@.last().wf() && result@.last().resolved());
                assert(forall|i: int|
                    0 <= i < result_before.len() ==> result@[i] == result_before[i]);
            }
        },
        Some(si) => {
            let ghost sv = strs[si as int];
            let ccx2 = crect.cx2();
            let mut p: usize = 0;
            proof {
                assert(sv =~= sv.skip(0));
                assert(result@[si as int]@ == sv);
            }
            while p < result[si].0.len() && result[si].0[p].rect.left + result[si].0[p].rect.right
                <= ccx2
                invariant
                    strs == string_views(old(result)@),
                    result@ == old(result)@,
                    0 <= (si as int) < result@.len(),
                    sv == result@[si as int]@,
                    result@[si as int].wf(),
                    forall|i: int| 0 <= i < result@.len() ==> (#[trigger] result@[i]).wf(),
                    p <= sv.len(),
                    sv.len() == result@[si as int].0@.len(),
                    crect == c.rect,
                    crect.wf(),
                    ccx2 == c.rect.center_x2(),
                    forall|k: int|
                        0 <= k < p ==> (#[trigger] sv[k]).rect.center_x2() <= c.rect.center_x2(),
                    spec_insert_pos(sv, c@) == p + spec_insert_pos(sv.skip(p as int), c@),
                decreases sv.len() - p,
            {
                proof {
                    assert(sv.skip(p as int)[0] == sv[p as int]);
                    assert(sv.skip(p as int).drop_first() =~= sv.skip(p as int + 1));
                    assert(sv[p as int] == result@[si as int].0@[p as int]@);
                }
                p = p + 1;
            }
            proof {
                if p < result@[si as int].0@.len() {
                    assert(sv.skip(p as int)[0] == sv[p as int]);
                    assert(sv[p as int] == result@[si as int].0@[p as int]@);
                    assert(sv[p as int].rect.center_x2() > c.rect.center_x2());
                    assert(spec_insert_pos(sv.skip(p as int), c@) == 0);
                } else {
                    assert(sv.skip(p as int) =~= Seq::<CharView>::empty());
                    assert(spec_insert_pos(sv.skip(p as int), c@) == 0);
                }
                assert(spec_insert_pos(sv, c@) == p as int);
            }
            let off_baseline = if p > 0 {
                proof {
                    assert(sv[p as int - 1] == result@[si as int].0@[p as int - 1]@);
                    assert(sv[p as int - 1].rect.wf());
                }
                let prev_cy2 = result[si].0[p - 1].rect.cy2();
                prev_cy2 + 2 * OFF_BASELINE < crect.cy2()
            } else {
                false
            };
            if off_baseline {
                let ghost result_before = result@;
                result.push(PdfString(vec![c]));
                proof {
                    assert(result@.last()@ =~= seq![c@]);
                    assert(string_views(result@) =~= string_views(result_before).push(seq![c@]));
                    assert(result@.last().wf() && result@.last().resolved());
                    assert(forall|i: int|
                        0 <= i < result_before.len() ==> result@[i] == result_before[i]);
                }
            } else {
                let ghost result_before = result@;
                let mut s = result.remove(si);
                let ghost s_members = s.0@;
                s.0.insert(p, c);
                proof {
                    lemma_views_insert(s_members, p as int, c);
                    assert(s@ =~= sv.insert(p as int, c@));
                }
                result.insert(si, s);
                proof {
                    sv.insert_ensures(p as int, c@);
                    assert(result@ =~= result_before.update(si as int, result@[si as int]));
                    assert(string_views(result@) =~= string_views(result_before).update(
                        si as int,
                        sv.insert(p as int, c@),
                    ));
                    let ns = result@[si as int];
                    assert(ns@ == sv.insert(p as int, c@));
                    assert forall|a: int, b: int| 0 <= a < b < ns@.len() implies (
                    #[trigger] ns@[a]).rect.center_x2() <= (#[trigger] ns@[b]).rect.center_x2() by {
                        if b < p {
                            assert(ns@[a] == sv[a]);
                            assert(ns@[b] == sv[b]);
                        } else if a < p && b == p {
                            assert(ns@[a] == sv[a]);
                        } else if a < p && b > p {
                            assert(ns@[a] == sv[a]);
                            assert(ns@[b] == sv[b - 1]);
                        } else if a == p && b > p {
                            assert(ns@[b] == sv[b - 1]);
                            assert(sv[b - 1].rect.center_x2() >= sv[p as int].rect.center_x2());
                            assert(sv[p as int].rect.center_x2() > c@.rect.center_x2());
                        } else {
                            assert(ns@[a] == sv[a - 1]);
                            assert(ns@[b] == sv[b - 1]);
                        }
                    }
                    assert(ns.wf());
                    assert(ns.resolved());
                    assert(forall|i: int|
                        0 <= i < result@.len() && i != si as int ==> result@[i] == result_before[
                            i
                        ]);
                }
            }
        },
    }
}

/// Groups the placed glyphs of one page into strings. Display strings
/// are resolved first; then each glyph, taken from the end of the list,
/// joins the first string it is near, at its center-x position, or
/// starts a new string. The grouping is pinned down by [`spec_detect`]
/// over the resolved glyph views.
pub fn detect_strings(cs: Vec<PdfChar>) -> (r: Result<Vec<PdfString>, PdfError>)
    requires
        forall|i: int| 0 <= i < cs@.len() ==> (#[trigger] cs@[i]).rect.wf(),
    ensures
        match r {
            Ok(rs) => {
                &&& spec_resolve_all(views_of(cs@)) matches Ok(gs) && string_views(rs@)
                    == spec_detect(gs)
                &&& forall|i: int|
                    0 <= i < rs@.len() ==> (#[trigger] rs@[i]).wf() && rs@[i].resolved()
            },
            Err(e) => spec_resolve_all(views_of(cs@)) matches Err(d) && e@ == d,
        },
{
    let mut work = match resolve_chars(cs) {
        Ok(rc) => rc,
        Err(e) => {
            return Err(e);
        },
    };
    let ghost rc0 = work@;
    let ghost gs = views_of(work@);
    let mut result: Vec<PdfString> = Vec::new();
    proof {
        assert(gs.skip(gs.len() as int) =~= Seq::<CharView>::empty());
        assert(string_views(result@) =~= Seq::<Seq<CharView>>::empty());
        assert(work@ =~= rc0.take(rc0.len() as int));
    }
    while work.len() > 0
        invariant
            gs == views_of(rc0),
            work@ =~= rc0.take(work@.len() as int),
            work@.len() <= rc0.len(),
            forall|i: int|
                0 <= i < rc0.len() ==> (#[trigger] rc0[i]).rect.wf() && rc0[i].represent_as
                    is Some,
            string_views(result@) == spec_detect(gs.skip(work@.len() as int)),
            forall|i: int| 0 <= i < result@.len() ==> (#[trigger] result@[i]).wf(),
            forall|i: int| 0 <= i < result@.len() ==> (#[trigger] result@[i]).resolved(),
        decreases work@.len(),
    {
        let ghost m = work@.len() as int;
        let c = match work.pop() {
            Some(c) => c,
            None => vstd::pervasive::unreached(),
        };
        proof {
            assert(rc0.take(m)[m - 1] == rc0[m - 1]);
            assert(c == rc0[m - 1]);
            assert(work@ =~= rc0.take(m - 1));
            assert(gs.skip(m - 1)[0] == views_of(rc0)[m - 1]);
            assert(gs.skip(m - 1).drop_first() =~= gs.skip(m));
            assert(c@ == gs.skip(m - 1)[0]);
        }
        add_glyph(&mut result, c);
        proof {
            assert(string_views(result@) == spec_detect(gs.skip(m - 1)));
        }
    }
    proof {
        assert(gs.skip(0) =~= gs);
    }
    Ok(result)
}

} // verus!
