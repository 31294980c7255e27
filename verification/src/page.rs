//! The text pipeline of one page: glyph placement, clustering, and
//! reading order, composed.

use vstd::prelude::*;

use crate::chars::{operator_to_chars, spec_run, CharView, TextState};
use crate::cluster::{
    detect_strings, spec_detect, spec_resolve_all, spec_string_rect, string_views, PdfString,
};
use crate::err::PdfError;
use crate::font::PdfFonts;
use crate::ops::Operation;
use crate::order::{sort_strings, spec_before, spec_order_pos, spec_sort_strings};

verus! {

/// The reading-order position among string views.
pub open spec fn spec_order_pos_views(t: Seq<Seq<CharView>>, s: Seq<CharView>) -> int
    decreases t.len(),
{
    if t.len() == 0 {
        0
    } else if !spec_before(spec_string_rect(t[0]), spec_string_rect(s)) {
        0
    } else {
        1 + spec_order_pos_views(t.drop_first(), s)
    }
}

/// The reading order of a list of string views: the stable insertion
/// sort of [`spec_sort_strings`], stated over views.
pub open spec fn spec_sort_views(ss: Seq<Seq<CharView>>) -> Seq<Seq<CharView>>
    decreases ss.len(),
{
    if ss.len() == 0 {
        Seq::empty()
    } else {
        let t = spec_sort_views(ss.drop_last());
        t.insert(spec_order_pos_views(t, ss.last()), ss.last())
    }
}

/// The sort position depends on the strings' views alone.
proof fn lemma_order_pos_views(t: Seq<PdfString>, s: PdfString)
    ensures
        spec_order_pos(t, s) == spec_order_pos_views(string_views(t), s@),
    decreases t.len(),
{
    if t.len() > 0 {
        assert(string_views(t)[0] == t[0]@);
        assert(string_views(t).drop_first() =~= string_views(t.drop_first()));
        lemma_order_pos_views(t.drop_first(), s);
    }
}

/// Views commute with inserting a string.
proof fn lemma_string_views_insert(t: Seq<PdfString>, p: int, s: PdfString)
    requires
        0 <= p <= t.len(),
    ensures
        string_views(t.insert(p, s)) =~= string_views(t).insert(p, s@),
{
    t.insert_ensures(p, s);
    string_views(t).insert_ensures(p, s@);
    assert forall|k: int| 0 <= k < t.len() + 1 implies string_views(t.insert(p, s))[k]
        == string_views(t).insert(p, s@)[k] by {
        if k < p {
            assert(t.insert(p, s)[k] == t[k]);
            assert(string_views(t).insert(p, s@)[k] == string_views(t)[k]);
        } else if k == p {
            assert(t.insert(p, s)[k] == s);
            assert(string_views(t).insert(p, s@)[k] == s@);
        } else {
            assert(t.insert(p, s)[k] == t[k - 1]);
            assert(string_views(t).insert(p, s@)[k] == string_views(t)[k - 1]);
        }
    }
}

/// Sorting and taking views commute: the reading order of the string
/// values is the reading order of their views.
pub proof fn lemma_sort_views(ss: Seq<PdfString>)
    ensures
        string_views(spec_sort_strings(ss)) == spec_sort_views(string_views(ss)),
    decreases ss.len(),
{
    if ss.len() == 0 {
        assert(string_views(spec_sort_strings(ss)) =~= Seq::<Seq<CharView>>::empty());
    } else {
        lemma_sort_views(ss.drop_last());
        let t = spec_sort_strings(ss.drop_last());
        let p = spec_order_pos(t, ss.last());
        lemma_order_pos_views(t, ss.last());
        crate::order::lemma_order_pos_in_range(t, ss.last());
        lemma_string_views_insert(t, p, ss.last());
        assert(string_views(ss).drop_last() =~= string_views(ss.drop_last()));
        assert(string_views(ss).last() == ss.last()@);
    }
}

/// Reconstructs the text of one page: the operators place one glyph per
/// shown character, the glyphs cluster into strings, and the strings
/// come back in reading order.
pub fn page_to_texts_v2(fonts: &PdfFonts, data: &Vec<Operation>) -> (r: Result<
    Vec<PdfString>,
    PdfError,
>)
    requires
        fonts.wf(),
    ensures
        match r {
            Ok(rs) => {
                &&& spec_run(fonts.entries@, TextState::spec_init(), data@) matches Ok(p)
                    && spec_resolve_all(p.1) matches Ok(gs) && string_views(rs@)
                    == spec_sort_views(spec_detect(gs))
                &&& forall|i: int|
                    0 <= i < rs@.len() ==> (#[trigger] rs@[i]).wf() && rs@[i].resolved()
            },
            Err(e) => {
                ||| spec_run(fonts.entries@, TextState::spec_init(), data@) matches Err(d) && e@
                    == d
                ||| spec_run(fonts.entries@, TextState::spec_init(), data@) matches Ok(p)
                    && spec_resolve_all(p.1) matches Err(d) && e@ == d
            },
        },
{
    let glyphs = match operator_to_chars(fonts, data) {
        Ok(g) => g,
        Err(e) => {
            return Err(e);
        },
    };
    let mut strings = match detect_strings(glyphs) {
        Ok(s) => s,
        Err(e) => {
            return Err(e);
        },
    };
    let ghost before = strings@;
    sort_strings(&mut strings);
    proof {
        lemma_sort_views(before);
    }
    Ok(strings)
}

} // verus!
