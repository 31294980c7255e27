//! The text positioning state machine: it consumes the drawing operators
//! of one page in order and emits one placed glyph per shown character.

use vstd::prelude::*;

use crate::err::{ErrView, Feature, PdfError};
use crate::font::{PdfFont, PdfFonts};
use crate::geom::Rect;
use crate::ops::{OpKind, Operand, Operation, TjItem};
use crate::{clamp, in_range, tdiv, COORD_LIMIT};

verus! {


/// Numerator of the empirically chosen line-height multiplier applied by
/// the next-line operator. Adjust to 140 over 100 for fonts whose lines
/// land too close together.
pub const LINE_HEIGHT_NUM: i64 = 135;

/// Denominator of the line-height multiplier.
pub const LINE_HEIGHT_DEN: u64 = 100;

/// The raw identity of a drawn glyph: a single byte code, or a two-byte
/// code of a composite font.
#[derive(Debug, Clone, Copy, PartialEq, Eq, Structural)]
pub enum GlyphRaw {
    Byte(u8),
    Pair(u8, u8),
}

/// One drawn character: its raw code, its bounding rectangle in page
/// coordinates, and the display string it resolves to. The display
/// string starts out unresolved and is filled in exactly once.
#[derive(Debug)]
pub struct PdfChar {
    pub raw: GlyphRaw,
    pub rect: Rect,
    pub represent_as: Option<String>,
}

/// The mathematical shape of a glyph: the display string appears as a
/// character sequence.
pub struct CharView {
    pub raw: GlyphRaw,
    pub rect: Rect,
    pub repr: Option<Seq<char>>,
}

impl View for PdfChar {
    type V = CharView;

    open spec fn view(&self) -> CharView {
        CharView {
            raw: self.raw,
            rect: self.rect,
            repr: match self.represent_as {
                Some(s) => Some(s@),
                None => None,
            },
        }
    }
}

/// The glyph sequence a character sequence stands for.
pub open spec fn views_of(s: Seq<PdfChar>) -> Seq<CharView> {
    s.map_values(|c: PdfChar| c@)
}

/// The text positioning state: the current point, the two diagonal terms
/// of the active text transform, the font size factor, the two spacing
/// parameters, and the selected font, kept as an index into the page's
/// font list.
#[derive(Debug, Clone, Copy)]
pub struct TextState {
    pub x: i64,
    pub y: i64,
    pub width_factor: i64,
    pub height_factor: i64,
    pub font_scale: i64,
    pub char_space: i64,
    pub word_space: i64,
    pub font: Option<usize>,
}

impl TextState {
    /// Every numeric field lies in the supported coordinate range.
    pub open spec fn wf(self) -> bool {
        &&& in_range(self.x as int)
        &&& in_range(self.y as int)
        &&& in_range(self.width_factor as int)
        &&& in_range(self.height_factor as int)
        &&& in_range(self.font_scale as int)
        &&& in_range(self.char_space as int)
        &&& in_range(self.word_space as int)
    }

    /// The selected font, if any, names an entry of the page's font list.
    pub open spec fn font_ok(self, n_fonts: int) -> bool {
        match self.font {
            Some(i) => i < n_fonts,
            None => true,
        }
    }

    /// The state at the start of a page: the pointer at the origin, unit
    /// font scale, no spacing, no transform, no font.
    pub open spec fn spec_init() -> TextState {
        TextState {
            x: 0,
            y: 0,
            width_factor: 0,
            height_factor: 0,
            font_scale: 1000,
            char_space: 0,
            word_space: 0,
            font: None,
        }
    }

    /// Builds the state a page starts in.
    pub fn init() -> (r: TextState)
        ensures
            r == TextState::spec_init(),
            r.wf(),
    {
        TextState {
            x: 0,
            y: 0,
            width_factor: 0,
            height_factor: 0,
            font_scale: 1000,
            char_space: 0,
            word_space: 0,
            font: None,
        }
    }
}

/// Places one character of width-table value `w`: the glyph's rectangle
/// spans from the current point over the scaled width and the height
/// factor, and the point advances by that width plus the character
/// spacing.
pub open spec fn spec_place_glyph(st: TextState, c: u8, w: i64) -> (TextState, CharView) {
    let gw = clamp(tdiv(w * st.width_factor * st.font_scale, 1_000_000));
    let x2 = clamp(st.x + gw);
    let y2 = clamp(st.y + st.height_factor);
    let rect = Rect::spec_from_corners(st.x as int, st.y as int, x2, y2);
    (
        TextState { x: clamp(x2 + st.char_space) as i64, ..st },
        CharView { raw: GlyphRaw::Byte(c), rect, repr: None },
    )
}

/// Places the bytes of one literal string operand in order; fails when a
/// byte cannot be resolved through the font.
pub open spec fn spec_place_bytes(font: PdfFont, st: TextState, bytes: Seq<u8>) -> Result<
    (TextState, Seq<CharView>),
    ErrView,
>
    decreases bytes.len(),
{
    if bytes.len() == 0 {
        Ok((st, Seq::empty()))
    } else {
        match font.spec_char_width(bytes[0]) {
            Err(e) => Err(e@),
            Ok(w) => {
                let placed = spec_place_glyph(st, bytes[0], w);
                match spec_place_bytes(font, placed.0, bytes.drop_first()) {
                    Err(e) => Err(e),
                    Ok(p) => Ok((p.0, seq![placed.1] + p.1)),
                }
            },
        }
    }
}

/// Places one complete string operand: its bytes in order, then the word
/// spacing once.
pub open spec fn spec_show_string(font: PdfFont, st: TextState, bytes: Seq<u8>) -> Result<
    (TextState, Seq<CharView>),
    ErrView,
>
    {
    match spec_place_bytes(font, st, bytes) {
        Err(e) => Err(e),
        Ok(p) => Ok(
            (TextState { x: clamp(p.0.x + p.0.word_space) as i64, ..p.0 }, p.1),
        ),
    }
}

/// Places one string operand and advances past it.
fn place_string(font: &PdfFont, st: &mut TextState, bytes: &Vec<u8>, out: &mut Vec<PdfChar>) -> (r:
    Result<(), PdfError>)
    requires
        font.wf(),
        old(st).wf(),
    ensures
        match r {
            Ok(_) => {
                &&& spec_show_string(*font, *old(st), bytes@) matches Ok(p) && p.0 == *final(st)
                    && views_of(final(out)@) == views_of(old(out)@) + p.1
                &&& final(st).wf()
                &&& final(st).font == old(st).font
                &&& final(out)@.len() >= old(out)@.len()
                &&& forall|i: int| 0 <= i < old(out)@.len() ==> final(out)@[i] == old(out)@[i]
            },
            Err(e) => spec_show_string(*font, *old(st), bytes@) matches Err(d) && e@ == d,
        },
{
    let ghost st0 = *st;
    let ghost out0 = out@;
    let mut j: usize = 0;
    proof {
        assert(bytes@.skip(0) =~= bytes@);
        assert(out@.skip(out0.len() as int) =~= Seq::<PdfChar>::empty());
        assert(views_of(Seq::<PdfChar>::empty()) =~= Seq::<CharView>::empty());
    }
    while j < bytes.len()
        invariant
            st0 == *old(st),
            out0 == old(out)@,
            font.wf(),
            st.wf(),
            st.font == st0.font,
            j <= bytes@.len(),
            out@.len() >= out0.len(),
            forall|i: int| 0 <= i < out0.len() ==> out@[i] == out0[i],
            spec_place_bytes(*font, st0, bytes@) == match spec_place_bytes(
                *font,
                *st,
                bytes@.skip(j as int),
            ) {
                Ok(p) => Ok::<(TextState, Seq<CharView>), ErrView>(
                    (p.0, views_of(out@.skip(out0.len() as int)) + p.1),
                ),
                Err(e) => Err(e),
            },
        decreases bytes@.len() - j,
    {
        let c = bytes[j];
        proof {
            assert(bytes@.skip(j as int).len() > 0);
            assert(bytes@.skip(j as int)[0] == bytes@[j as int]);
            assert(bytes@.skip(j as int).drop_first() =~= bytes@.skip(j as int + 1));
        }
        match font.get_char_width(c) {
            Err(e) => {
                proof {
                    assert(font.spec_char_width(c) == Err::<i64, PdfError>(e));
                    assert(spec_place_bytes(*font, *st, bytes@.skip(j as int)) == Err::<
                        (TextState, Seq<CharView>),
                        ErrView,
                    >(e@));
                    assert(spec_place_bytes(*font, st0, bytes@) == Err::<
                        (TextState, Seq<CharView>),
                        ErrView,
                    >(e@));
                    assert(spec_show_string(*font, st0, bytes@) == Err::<
                        (TextState, Seq<CharView>),
                        ErrView,
                    >(e@));
                }
                return Err(e);
            },
            Ok(w) => {
                let ghost st_before = *st;
                let ghost prev_out = out@;
                let gw = crate::mul3_div_clamped(w, st.width_factor, st.font_scale, 1_000_000);
                let x2 = crate::add_clamped(st.x, gw);
                let y2 = crate::add_clamped(st.y, st.height_factor);
                let rect = Rect::from_corners(st.x, st.y, x2, y2);
                let g = PdfChar { raw: GlyphRaw::Byte(c), rect, represent_as: None };
                out.push(g);
                st.x = crate::add_clamped(x2, st.char_space);
                proof {
                    let placed = spec_place_glyph(st_before, c, w);
                    assert(placed.0 == *st);
                    assert(placed.1 == out@.last()@);
                    assert(out@.skip(out0.len() as int) =~= prev_out.skip(out0.len() as int).push(
                        out@.last(),
                    ));
                    assert(views_of(out@.skip(out0.len() as int)) =~= views_of(
                        prev_out.skip(out0.len() as int),
                    ).push(out@.last()@));
                    assert(forall|a: Seq<CharView>, b: Seq<CharView>, x: CharView|
                        (a.push(x) + b) =~= (a + (seq![x] + b)));
                }
            },
        }
        j = j + 1;
    }
    proof {
        assert(bytes@.skip(bytes@.len() as int) =~= Seq::<u8>::empty());
    }
    st.x = crate::add_clamped(st.x, st.word_space);
    proof {
        let p = spec_place_bytes(*font, st0, bytes@);
        assert(p is Ok);
        assert(views_of(out@.skip(out0.len() as int)) + Seq::<CharView>::empty() =~= views_of(
            out@.skip(out0.len() as int),
        ));
        assert(views_of(out@) =~= views_of(out0) + views_of(out@.skip(out0.len() as int)));
    }
    Ok(())
}


/// Runs the elements of a show-text adjustment array in order: numbers
/// shift the point left by their scaled value, strings are placed as
/// under a plain show-text operator.
pub open spec fn spec_show_items(
    font: PdfFont,
    st: TextState,
    items: Seq<TjItem>,
    opname: Seq<u8>,
    opidx: int,
) -> Result<(TextState, Seq<CharView>), ErrView>
    decreases items.len(),
{
    if items.len() == 0 {
        Ok((st, Seq::empty()))
    } else {
        match items[0] {
            TjItem::Num(v) => {
                let delta = clamp(tdiv(v * st.width_factor, 1_000_000));
                let st1 = TextState { x: clamp(st.x - delta) as i64, ..st };
                spec_show_items(font, st1, items.drop_first(), opname, opidx)
            },
            TjItem::Str(bytes) => match spec_show_string(font, st, bytes@) {
                Err(e) => Err(e),
                Ok(p) => match spec_show_items(font, p.0, items.drop_first(), opname, opidx) {
                    Err(e) => Err(e),
                    Ok(q) => Ok((q.0, p.1 + q.1)),
                },
            },
            TjItem::HexStr(_) => Err(ErrView::Unsupported { feature: Feature::HexString }),
            TjItem::Other => Err(
                ErrView::MalformedOperator { operator: opname, operand_index: opidx },
            ),
        }
    }
}

/// Runs the operand list of a show-text operator in order.
pub open spec fn spec_show_operands(
    font: PdfFont,
    st: TextState,
    operands: Seq<Operand>,
    opname: Seq<u8>,
    opidx: int,
) -> Result<(TextState, Seq<CharView>), ErrView>
    decreases operands.len(),
{
    if operands.len() == 0 {
        Ok((st, Seq::empty()))
    } else {
        let rest = operands.drop_first();
        match operands[0] {
            Operand::Str(bytes) => match spec_show_string(font, st, bytes@) {
                Err(e) => Err(e),
                Ok(p) => match spec_show_operands(font, p.0, rest, opname, opidx + 1) {
                    Err(e) => Err(e),
                    Ok(q) => Ok((q.0, p.1 + q.1)),
                },
            },
            Operand::HexStr(_) => Err(ErrView::Unsupported { feature: Feature::HexString }),
            Operand::Array(items) => match spec_show_items(font, st, items@, opname, opidx) {
                Err(e) => Err(e),
                Ok(p) => match spec_show_operands(font, p.0, rest, opname, opidx + 1) {
                    Err(e) => Err(e),
                    Ok(q) => Ok((q.0, p.1 + q.1)),
                },
            },
            _ => Err(ErrView::MalformedOperator { operator: opname, operand_index: opidx }),
        }
    }
}

/// The numeric operand at position `i`, if it exists and is a number.
pub open spec fn spec_num_operand(s: Seq<Operand>, i: int) -> Option<i64> {
    if 0 <= i < s.len() {
        match s[i] {
            Operand::Num(v) => Some(v),
            _ => None,
        }
    } else {
        None
    }
}

/// What one operator does to the state, and the glyphs it emits.
pub open spec fn spec_step(
    fonts: Seq<(Vec<u8>, PdfFont)>,
    st: TextState,
    op: Operation,
) -> Result<(TextState, Seq<CharView>), ErrView> {
    let name = op.name@;
    let operands = op.operands@;
    match crate::ops::spec_classify(name) {
        OpKind::SetFont => {
            if operands.len() < 1 {
                Err(ErrView::MalformedOperator { operator: name, operand_index: 0 })
            } else {
                match operands[0] {
                    Operand::Name(n) => match spec_num_operand(operands, 1) {
                        None => Err(
                            ErrView::MalformedOperator { operator: name, operand_index: 1 },
                        ),
                        Some(size) => match crate::font::spec_find_font(fonts, n@) {
                            None => Err(ErrView::MissingFont { name: n@ }),
                            Some(i) => Ok(
                                (
                                    TextState {
                                        font: Some(i as usize),
                                        font_scale: clamp(size as int) as i64,
                                        ..st
                                    },
                                    Seq::empty(),
                                ),
                            ),
                        },
                    },
                    _ => Err(ErrView::MalformedOperator { operator: name, operand_index: 0 }),
                }
            }
        },
        OpKind::SetCharSpace => match spec_num_operand(operands, 0) {
            None => Err(ErrView::MalformedOperator { operator: name, operand_index: 0 }),
            Some(v) => Ok((TextState { char_space: clamp(v as int) as i64, ..st }, Seq::empty())),
        },
        OpKind::SetWordSpace => match spec_num_operand(operands, 0) {
            None => Err(ErrView::MalformedOperator { operator: name, operand_index: 0 }),
            Some(v) => Ok((TextState { word_space: clamp(v as int) as i64, ..st }, Seq::empty())),
        },
        OpKind::NextLine => Ok(
            (
                TextState {
                    y: clamp(
                        st.y - clamp(tdiv(st.height_factor * LINE_HEIGHT_NUM, LINE_HEIGHT_DEN as int)),
                    ) as i64,
                    ..st
                },
                Seq::empty(),
            ),
        ),
        OpKind::MoveText => match spec_num_operand(operands, 0) {
            None => Err(ErrView::MalformedOperator { operator: name, operand_index: 0 }),
            Some(dx) => match spec_num_operand(operands, 1) {
                None => Err(ErrView::MalformedOperator { operator: name, operand_index: 1 }),
                Some(dy) => Ok(
                    (
                        TextState {
                            x: clamp(st.x + clamp(tdiv(dx * st.width_factor, 1000))) as i64,
                            y: clamp(st.y + clamp(tdiv(dy * st.height_factor, 1000))) as i64,
                            ..st
                        },
                        Seq::empty(),
                    ),
                ),
            },
        },
        OpKind::SetMatrix => match spec_num_operand(operands, 0) {
            None => Err(ErrView::MalformedOperator { operator: name, operand_index: 0 }),
            Some(a) => match spec_num_operand(operands, 1) {
                None => Err(ErrView::MalformedOperator { operator: name, operand_index: 1 }),
                Some(b) => match spec_num_operand(operands, 2) {
                    None => Err(ErrView::MalformedOperator { operator: name, operand_index: 2 }),
                    Some(c) => match spec_num_operand(operands, 3) {
                        None => Err(
                            ErrView::MalformedOperator { operator: name, operand_index: 3 },
                        ),
                        Some(d) => match spec_num_operand(operands, 4) {
                            None => Err(
                                ErrView::MalformedOperator { operator: name, operand_index: 4 },
                            ),
                            Some(e) => match spec_num_operand(operands, 5) {
                                None => Err(
                                    ErrView::MalformedOperator {
                                        operator: name,
                                        operand_index: 5,
                                    },
                                ),
                                Some(f) => {
                                    let moved = if a == d && b == 0 && c == 0 {
                                        TextState {
                                            x: clamp(e as int) as i64,
                                            y: clamp(f as int) as i64,
                                            ..st
                                        }
                                    } else {
                                        st
                                    };
                                    Ok(
                                        (
                                            TextState {
                                                width_factor: clamp(a as int) as i64,
                                                height_factor: clamp(d as int) as i64,
                                                ..moved
                                            },
                                            Seq::empty(),
                                        ),
                                    )
                                },
                            },
                        },
                    },
                },
            },
        },
        OpKind::ShowText => match st.font {
            None => Err(ErrView::NoActiveFont),
            Some(fi) => {
                if fi < fonts.len() {
                    spec_show_operands(fonts[fi as int].1, st, operands, name, 0)
                } else {
                    Err(ErrView::NoActiveFont)
                }
            },
        },
        OpKind::SetFontSize => Err(ErrView::Unsupported { feature: Feature::SetFontSize }),
        OpKind::DefineRect => Ok((st, Seq::empty())),
        OpKind::FillPath => Ok((st, Seq::empty())),
        OpKind::Other => Ok((st, Seq::empty())),
    }
}

/// What a whole operator list does, operator by operator, starting from
/// `st`: the final state and every glyph emitted, or the first failure.
pub open spec fn spec_run(
    fonts: Seq<(Vec<u8>, PdfFont)>,
    st: TextState,
    ops: Seq<Operation>,
) -> Result<(TextState, Seq<CharView>), ErrView>
    decreases ops.len(),
{
    if ops.len() == 0 {
        Ok((st, Seq::empty()))
    } else {
        match spec_run(fonts, st, ops.drop_last()) {
            Err(e) => Err(e),
            Ok(p) => match spec_step(fonts, p.0, ops.last()) {
                Err(e) => Err(e),
                Ok(q) => Ok((q.0, p.1 + q.1)),
            },
        }
    }
}

/// Once a prefix of the operator list fails, the whole list fails the
/// same way.
pub proof fn lemma_run_err_prefix(
    fonts: Seq<(Vec<u8>, PdfFont)>,
    st: TextState,
    ops: Seq<Operation>,
    i: int,
)
    requires
        0 <= i <= ops.len(),
        spec_run(fonts, st, ops.take(i)) is Err,
    ensures
        spec_run(fonts, st, ops) == spec_run(fonts, st, ops.take(i)),
    decreases ops.len() - i,
{
    if i == ops.len() {
        assert(ops.take(i) =~= ops);
    } else {
        assert(ops.take(i + 1).drop_last() =~= ops.take(i));
        assert(spec_run(fonts, st, ops.take(i + 1)) == spec_run(fonts, st, ops.take(i)));
        lemma_run_err_prefix(fonts, st, ops, i + 1);
    }
}


/// Every glyph of the sequence has a well-formed rectangle and an
/// unresolved display string.
pub open spec fn glyphs_wf(gs: Seq<CharView>) -> bool {
    forall|i: int| 0 <= i < gs.len() ==> (#[trigger] gs[i]).rect.wf() && gs[i].repr is None
}

proof fn lemma_place_bytes_wf(font: PdfFont, st: TextState, bytes: Seq<u8>)
    ensures
        spec_place_bytes(font, st, bytes) matches Ok(p) ==> glyphs_wf(p.1),
    decreases bytes.len(),
{
    if bytes.len() > 0 {
        match font.spec_char_width(bytes[0]) {
            Err(_) => {},
            Ok(w) => {
                let placed = spec_place_glyph(st, bytes[0], w);
                lemma_place_bytes_wf(font, placed.0, bytes.drop_first());
            },
        }
    }
}

proof fn lemma_show_items_wf(
    font: PdfFont,
    st: TextState,
    items: Seq<TjItem>,
    opname: Seq<u8>,
    opidx: int,
)
    ensures
        spec_show_items(font, st, items, opname, opidx) matches Ok(p) ==> glyphs_wf(p.1),
    decreases items.len(),
{
    if items.len() > 0 {
        match items[0] {
            TjItem::Num(v) => {
                let delta = clamp(tdiv(v * st.width_factor, 1_000_000));
                let st1 = TextState { x: clamp(st.x - delta) as i64, ..st };
                lemma_show_items_wf(font, st1, items.drop_first(), opname, opidx);
            },
            TjItem::Str(bytes) => {
                lemma_place_bytes_wf(font, st, bytes@);
                match spec_show_string(font, st, bytes@) {
                    Err(_) => {},
                    Ok(p) => {
                        lemma_show_items_wf(font, p.0, items.drop_first(), opname, opidx);
                    },
                }
            },
            _ => {},
        }
    }
}

proof fn lemma_show_operands_wf(
    font: PdfFont,
    st: TextState,
    operands: Seq<Operand>,
    opname: Seq<u8>,
    opidx: int,
)
    ensures
        spec_show_operands(font, st, operands, opname, opidx) matches Ok(p) ==> glyphs_wf(p.1),
    decreases operands.len(),
{
    if operands.len() > 0 {
        let rest = operands.drop_first();
        match operands[0] {
            Operand::Str(bytes) => {
                lemma_place_bytes_wf(font, st, bytes@);
                match spec_show_string(font, st, bytes@) {
                    Err(_) => {},
                    Ok(p) => {
                        lemma_show_operands_wf(font, p.0, rest, opname, opidx + 1);
                    },
                }
            },
            Operand::Array(items) => {
                lemma_show_items_wf(font, st, items@, opname, opidx);
                match spec_show_items(font, st, items@, opname, opidx) {
                    Err(_) => {},
                    Ok(p) => {
                        lemma_show_operands_wf(font, p.0, rest, opname, opidx + 1);
                    },
                }
            },
            _ => {},
        }
    }
}

proof fn lemma_step_wf(fonts: Seq<(Vec<u8>, PdfFont)>, st: TextState, op: Operation)
    ensures
        spec_step(fonts, st, op) matches Ok(p) ==> glyphs_wf(p.1),
{
    match crate::ops::spec_classify(op.name@) {
        OpKind::ShowText => {
            match st.font {
                None => {},
                Some(fi) => {
                    if fi < fonts.len() {
                        lemma_show_operands_wf(fonts[fi as int].1, st, op.operands@, op.name@, 0);
                    }
                },
            }
        },
        _ => {},
    }
}

proof fn lemma_run_wf(fonts: Seq<(Vec<u8>, PdfFont)>, st: TextState, ops: Seq<Operation>)
    ensures
        spec_run(fonts, st, ops) matches Ok(p) ==> glyphs_wf(p.1),
    decreases ops.len(),
{
    if ops.len() > 0 {
        lemma_run_wf(fonts, st, ops.drop_last());
        match spec_run(fonts, st, ops.drop_last()) {
            Err(_) => {},
            Ok(p) => {
                lemma_step_wf(fonts, p.0, ops.last());
            },
        }
    }
}

/// Views commute with taking a suffix.
pub proof fn lemma_views_skip(s: Seq<PdfChar>, k: int)
    requires
        0 <= k <= s.len(),
    ensures
        views_of(s.skip(k)) =~= views_of(s).skip(k),
{
    assert forall|i: int| 0 <= i < s.skip(k).len() implies views_of(s.skip(k))[i] == views_of(
        s,
    ).skip(k)[i] by {
        assert(s.skip(k)[i] == s[i + k]);
    }
}

/// The numeric operand at a position, if it exists and is a number.
pub(crate) fn num_operand(s: &Vec<Operand>, i: usize) -> (r: Option<i64>)
    ensures
        r == spec_num_operand(s@, i as int),
{
    if i < s.len() {
        match &s[i] {
            Operand::Num(v) => Some(*v),
            _ => None,
        }
    } else {
        None
    }
}

/// Runs one show-text adjustment array.
fn show_items(
    font: &PdfFont,
    st: &mut TextState,
    items: &Vec<TjItem>,
    opname: &Vec<u8>,
    opidx: usize,
    out: &mut Vec<PdfChar>,
) -> (r: Result<(), PdfError>)
    requires
        font.wf(),
        old(st).wf(),
    ensures
        match r {
            Ok(_) => {
                &&& spec_show_items(*font, *old(st), items@, opname@, opidx as int) matches Ok(p)
                    && p.0 == *final(st) && views_of(final(out)@) == views_of(old(out)@) + p.1
                &&& final(st).wf()
                &&& final(st).font == old(st).font
                &&& final(out)@.len() >= old(out)@.len()
                &&& forall|i: int| 0 <= i < old(out)@.len() ==> final(out)@[i] == old(out)@[i]
            },
            Err(e) => spec_show_items(*font, *old(st), items@, opname@, opidx as int) matches Err(
                d,
            ) && e@ == d,
        },
{
    let ghost st0 = *st;
    let ghost out0 = out@;
    let mut j: usize = 0;
    proof {
        assert(items@.skip(0) =~= items@);
        assert(out@.skip(out0.len() as int) =~= Seq::<PdfChar>::empty());
        assert(views_of(Seq::<PdfChar>::empty()) =~= Seq::<CharView>::empty());
    }
    while j < items.len()
        invariant
            st0 == *old(st),
            out0 == old(out)@,
            font.wf(),
            st.wf(),
            st.font == st0.font,
            j <= items@.len(),
            out@.len() >= out0.len(),
            forall|i: int| 0 <= i < out0.len() ==> out@[i] == out0[i],
            spec_show_items(*font, st0, items@, opname@, opidx as int) == match spec_show_items(
                *font,
                *st,
                items@.skip(j as int),
                opname@,
                opidx as int,
            ) {
                Ok(p) => Ok::<(TextState, Seq<CharView>), ErrView>(
                    (p.0, views_of(out@.skip(out0.len() as int)) + p.1),
                ),
                Err(e) => Err(e),
            },
        decreases items@.len() - j,
    {
        proof {
            assert(items@.skip(j as int).len() > 0);
            assert(items@.skip(j as int)[0] == items@[j as int]);
            assert(items@.skip(j as int).drop_first() =~= items@.skip(j as int + 1));
        }
        match &items[j] {
            TjItem::Num(v) => {
                let ghost st_before = *st;
                let delta = crate::mul_div_clamped(*v, st.width_factor, 1_000_000);
                st.x = crate::sub_clamped(st.x, delta);
                proof {
                    assert(*st == TextState {
                        x: clamp(
                            st_before.x - clamp(tdiv(*v * st_before.width_factor, 1_000_000)),
                        ) as i64,
                        ..st_before
                    });
                }
            },
            TjItem::Str(bytes) => {
                let ghost st_before = *st;
                let ghost out_before = out@;
                match place_string(font, st, bytes, out) {
                    Err(e) => {
                        return Err(e);
                    },
                    Ok(_) => {
                        proof {
                            match spec_show_string(*font, st_before, bytes@) {
                                Ok(p) => {
                                    let k = out0.len() as int;
                                    lemma_views_skip(out_before, k);
                                    lemma_views_skip(out@, k);
                                    assert(views_of(out@) == views_of(out_before) + p.1);
                                    assert(views_of(out@.skip(k)) =~= views_of(out_before.skip(k))
                                        + p.1);
                                    assert(forall|a: Seq<CharView>, b: Seq<CharView>, c: Seq<
                                        CharView,
                                    >| (a + b) + c =~= a + (b + c));
                                },
                                Err(_) => {
                                    assert(false);
                                },
                            }
                        }
                    },
                }
            },
            TjItem::HexStr(_) => {
                return Err(PdfError::Unsupported { feature: Feature::HexString });
            },
            TjItem::Other => {
                return Err(
                    PdfError::MalformedOperator { operator: opname.clone(), operand_index: opidx },
                );
            },
        }
        j = j + 1;
    }
    proof {
        assert(items@.skip(items@.len() as int) =~= Seq::<TjItem>::empty());
        assert(views_of(out@.skip(out0.len() as int)) + Seq::<CharView>::empty() =~= views_of(
            out@.skip(out0.len() as int),
        ));
        assert(views_of(out@) =~= views_of(out0) + views_of(out@.skip(out0.len() as int)));
    }
    Ok(())
}

/// Runs the operand list of one show-text operator.
fn show_operands(font: &PdfFont, st: &mut TextState, op: &Operation, out: &mut Vec<PdfChar>) -> (r:
    Result<(), PdfError>)
    requires
        font.wf(),
        old(st).wf(),
    ensures
        match r {
            Ok(_) => {
                &&& spec_show_operands(*font, *old(st), op.operands@, op.name@, 0) matches Ok(p)
                    && p.0 == *final(st) && views_of(final(out)@) == views_of(old(out)@) + p.1
                &&& final(st).wf()
                &&& final(st).font == old(st).font
                &&& final(out)@.len() >= old(out)@.len()
                &&& forall|i: int| 0 <= i < old(out)@.len() ==> final(out)@[i] == old(out)@[i]
            },
            Err(e) => spec_show_operands(*font, *old(st), op.operands@, op.name@, 0) matches Err(
                d,
            ) && e@ == d,
        },
{
    let ghost st0 = *st;
    let ghost out0 = out@;
    let mut j: usize = 0;
    proof {
        assert(op.operands@.skip(0) =~= op.operands@);
        assert(out@.skip(out0.len() as int) =~= Seq::<PdfChar>::empty());
        assert(views_of(Seq::<PdfChar>::empty()) =~= Seq::<CharView>::empty());
    }
    while j < op.operands.len()
        invariant
            st0 == *old(st),
            out0 == old(out)@,
            font.wf(),
            st.wf(),
            st.font == st0.font,
            j <= op.operands@.len(),
            out@.len() >= out0.len(),
            forall|i: int| 0 <= i < out0.len() ==> out@[i] == out0[i],
            spec_show_operands(*font, st0, op.operands@, op.name@, 0) == match spec_show_operands(
                *font,
                *st,
                op.operands@.skip(j as int),
                op.name@,
                j as int,
            ) {
                Ok(p) => Ok::<(TextState, Seq<CharView>), ErrView>(
                    (p.0, views_of(out@.skip(out0.len() as int)) + p.1),
                ),
                Err(e) => Err(e),
            },
        decreases op.operands@.len() - j,
    {
        proof {
            assert(op.operands@.skip(j as int).len() > 0);
            assert(op.operands@.skip(j as int)[0] == op.operands@[j as int]);
            assert(op.operands@.skip(j as int).drop_first() =~= op.operands@.skip(j as int + 1));
        }
        match &op.operands[j] {
            Operand::Str(bytes) => {
                let ghost st_before = *st;
                let ghost out_before = out@;
                match place_string(font, st, bytes, out) {
                    Err(e) => {
                        return Err(e);
                    },
                    Ok(_) => {
                        proof {
                            match spec_show_string(*font, st_before, bytes@) {
                                Ok(p) => {
                                    let k = out0.len() as int;
                                    lemma_views_skip(out_before, k);
                                    lemma_views_skip(out@, k);
                                    assert(views_of(out@) == views_of(out_before) + p.1);
                                    assert(views_of(out@.skip(k)) =~= views_of(out_before.skip(k))
                                        + p.1);
                                    assert(forall|a: Seq<CharView>, b: Seq<CharView>, c: Seq<
                                        CharView,
                                    >| (a + b) + c =~= a + (b + c));
                                },
                                Err(_) => {
                                    assert(false);
                                },
                            }
                        }
                    },
                }
            },
            Operand::HexStr(_) => {
                return Err(PdfError::Unsupported { feature: Feature::HexString });
            },
            Operand::Array(items) => {
                let ghost st_before = *st;
                let ghost out_before = out@;
                match show_items(font, st, items, &op.name, j, out) {
                    Err(e) => {
                        return Err(e);
                    },
                    Ok(_) => {
                        proof {
                            match spec_show_items(*font, st_before, items@, op.name@, j as int) {
                                Ok(p) => {
                                    let k = out0.len() as int;
                                    lemma_views_skip(out_before, k);
                                    lemma_views_skip(out@, k);
                                    assert(views_of(out@) == views_of(out_before) + p.1);
                                    assert(views_of(out@.skip(k)) =~= views_of(out_before.skip(k))
                                        + p.1);
                                    assert(forall|a: Seq<CharView>, b: Seq<CharView>, c: Seq<
                                        CharView,
                                    >| (a + b) + c =~= a + (b + c));
                                },
                                Err(_) => {
                                    assert(false);
                                },
                            }
                        }
                    },
                }
            },
            Operand::Num(_) => {
                return Err(
                    PdfError::MalformedOperator { operator: op.name.clone(), operand_index: j },
                );
            },
            Operand::Name(_) => {
                return Err(
                    PdfError::MalformedOperator { operator: op.name.clone(), operand_index: j },
                );
            },
            Operand::Other => {
                return Err(
                    PdfError::MalformedOperator { operator: op.name.clone(), operand_index: j },
                );
            },
        }
        j = j + 1;
    }
    proof {
        assert(op.operands@.skip(op.operands@.len() as int) =~= Seq::<Operand>::empty());
        assert(views_of(out@.skip(out0.len() as int)) + Seq::<CharView>::empty() =~= views_of(
            out@.skip(out0.len() as int),
        ));
        assert(views_of(out@) =~= views_of(out0) + views_of(out@.skip(out0.len() as int)));
    }
    Ok(())
}

/// Applies one operator to the state, collecting any glyphs it emits.
fn apply_op(fonts: &PdfFonts, st: &mut TextState, op: &Operation, out: &mut Vec<PdfChar>) -> (r:
    Result<(), PdfError>)
    requires
        fonts.wf(),
        old(st).wf(),
        old(st).font_ok(fonts.entries@.len() as int),
    ensures
        match r {
            Ok(_) => {
                &&& spec_step(fonts.entries@, *old(st), *op) matches Ok(p) && p.0 == *final(st)
                    && views_of(final(out)@) == views_of(old(out)@) + p.1
                &&& final(st).wf()
                &&& final(st).font_ok(fonts.entries@.len() as int)
                &&& final(out)@.len() >= old(out)@.len()
                &&& forall|i: int| 0 <= i < old(out)@.len() ==> final(out)@[i] == old(out)@[i]
            },
            Err(e) => spec_step(fonts.entries@, *old(st), *op) matches Err(d) && e@ == d,
        },
{
    proof {
        assert(views_of(out@) + Seq::<CharView>::empty() =~= views_of(out@));
    }
    match crate::ops::classify(&op.name) {
        OpKind::SetFont => {
            if op.operands.len() < 1 {
                return Err(
                    PdfError::MalformedOperator { operator: op.name.clone(), operand_index: 0 },
                );
            }
            match &op.operands[0] {
                Operand::Name(n) => match num_operand(&op.operands, 1) {
                    None => Err(
                        PdfError::MalformedOperator { operator: op.name.clone(), operand_index: 1 },
                    ),
                    Some(size) => match fonts.find(n) {
                        None => Err(PdfError::MissingFont { name: n.clone() }),
                        Some(fi) => {
                            st.font = Some(fi);
                            st.font_scale = crate::geom::clamp_exec(size);
                            Ok(())
                        },
                    },
                },
                _ => Err(PdfError::MalformedOperator { operator: op.name.clone(), operand_index: 0 }),
            }
        },
        OpKind::SetCharSpace => match num_operand(&op.operands, 0) {
            None => Err(PdfError::MalformedOperator { operator: op.name.clone(), operand_index: 0 }),
            Some(v) => {
                st.char_space = crate::geom::clamp_exec(v);
                Ok(())
            },
        },
        OpKind::SetWordSpace => match num_operand(&op.operands, 0) {
            None => Err(PdfError::MalformedOperator { operator: op.name.clone(), operand_index: 0 }),
            Some(v) => {
                st.word_space = crate::geom::clamp_exec(v);
                Ok(())
            },
        },
        OpKind::NextLine => {
            let delta = crate::mul_div_clamped(st.height_factor, LINE_HEIGHT_NUM, LINE_HEIGHT_DEN);
            st.y = crate::sub_clamped(st.y, delta);
            Ok(())
        },
        OpKind::MoveText => match num_operand(&op.operands, 0) {
            None => Err(PdfError::MalformedOperator { operator: op.name.clone(), operand_index: 0 }),
            Some(dx) => match num_operand(&op.operands, 1) {
                None => Err(
                    PdfError::MalformedOperator { operator: op.name.clone(), operand_index: 1 },
                ),
                Some(dy) => {
                    let ddx = crate::mul_div_clamped(dx, st.width_factor, 1000);
                    st.x = crate::add_clamped(st.x, ddx);
                    let ddy = crate::mul_div_clamped(dy, st.height_factor, 1000);
                    st.y = crate::add_clamped(st.y, ddy);
                    Ok(())
                },
            },
        },
        OpKind::SetMatrix => match num_operand(&op.operands, 0) {
            None => Err(PdfError::MalformedOperator { operator: op.name.clone(), operand_index: 0 }),
            Some(a) => match num_operand(&op.operands, 1) {
                None => Err(
                    PdfError::MalformedOperator { operator: op.name.clone(), operand_index: 1 },
                ),
                Some(b) => match num_operand(&op.operands, 2) {
                    None => Err(
                        PdfError::MalformedOperator { operator: op.name.clone(), operand_index: 2 },
                    ),
                    Some(c) => match num_operand(&op.operands, 3) {
                        None => Err(
                            PdfError::MalformedOperator {
                                operator: op.name.clone(),
                                operand_index: 3,
                            },
                        ),
                        Some(d) => match num_operand(&op.operands, 4) {
                            None => Err(
                                PdfError::MalformedOperator {
                                    operator: op.name.clone(),
                                    operand_index: 4,
                                },
                            ),
                            Some(e) => match num_operand(&op.operands, 5) {
                                None => Err(
                                    PdfError::MalformedOperator {
                                        operator: op.name.clone(),
                                        operand_index: 5,
                                    },
                                ),
                                Some(f) => {
                                    if a == d && b == 0 && c == 0 {
                                        st.x = crate::geom::clamp_exec(e);
                                        st.y = crate::geom::clamp_exec(f);
                                    }
                                    st.width_factor = crate::geom::clamp_exec(a);
                                    st.height_factor = crate::geom::clamp_exec(d);
                                    Ok(())
                                },
                            },
                        },
                    },
                },
            },
        },
        OpKind::ShowText => {
            match st.font {
                None => Err(PdfError::NoActiveFont),
                Some(fi) => {
                    let f = &fonts.entries[fi].1;
                    show_operands(f, st, op, out)
                },
            }
        },
        OpKind::SetFontSize => Err(PdfError::Unsupported { feature: Feature::SetFontSize }),
        OpKind::DefineRect => Ok(()),
        OpKind::FillPath => Ok(()),
        OpKind::Other => Ok(()),
    }
}

/// Interprets the drawing operators of one page in order, emitting one
/// glyph per shown character, placed by the positioning state the
/// operators build up. The interpretation of the whole list is pinned
/// down by [`spec_run`], starting from the initial state.
pub fn operator_to_chars(fonts: &PdfFonts, data: &Vec<Operation>) -> (r: Result<
    Vec<PdfChar>,
    PdfError,
>)
    requires
        fonts.wf(),
    ensures
        match r {
            Ok(cs) => {
                &&& spec_run(fonts.entries@, TextState::spec_init(), data@) matches Ok(p)
                    && views_of(cs@) == p.1
                &&& forall|i: int|
                    0 <= i < cs@.len() ==> (#[trigger] cs@[i]).rect.wf() && cs@[i].represent_as
                        is None
            },
            Err(e) => spec_run(fonts.entries@, TextState::spec_init(), data@) matches Err(d) && e@
                == d,
        },
{
    let mut st = TextState::init();
    let mut result: Vec<PdfChar> = Vec::new();
    let mut k: usize = 0;
    proof {
        assert(data@.take(0) =~= Seq::<Operation>::empty());
        assert(views_of(result@) =~= Seq::<CharView>::empty());
    }
    while k < data.len()
        invariant
            fonts.wf(),
            st.wf(),
            st.font_ok(fonts.entries@.len() as int),
            k <= data@.len(),
            spec_run(fonts.entries@, TextState::spec_init(), data@.take(k as int)) == Ok::<
                (TextState, Seq<CharView>),
                ErrView,
            >((st, views_of(result@))),
        decreases data@.len() - k,
    {
        let op = &data[k];
        proof {
            assert(data@.take(k as int + 1).drop_last() =~= data@.take(k as int));
            assert(data@.take(k as int + 1).last() == data@[k as int]);
        }
        match apply_op(fonts, &mut st, op, &mut result) {
            Err(e) => {
                proof {
                    lemma_run_err_prefix(
                        fonts.entries@,
                        TextState::spec_init(),
                        data@,
                        k as int + 1,
                    );
                }
                return Err(e);
            },
            Ok(_) => {},
        }
        k = k + 1;
    }
    proof {
        assert(data@.take(data@.len() as int) =~= data@);
        lemma_run_wf(fonts.entries@, TextState::spec_init(), data@);
        assert forall|i: int| 0 <= i < result@.len() implies (#[trigger] result@[i]).rect.wf()
            && result@[i].represent_as is None by {
            assert(views_of(result@)[i] == result@[i]@);
        }
    }
    Ok(result)
}


/// The display form of a raw single-byte code: printable seven-bit codes
/// stand for themselves, and a fixed table covers the special codes the
/// source documents use (quotes, dashes, mathematical signs). Every
/// other byte has no display form.
pub open spec fn spec_repr_byte(b: u8) -> Option<Seq<char>> {
    if 0x20 <= b <= 0x7e {
        Some(seq![b as char])
    } else if b == 0x02 || b == 0x8f {
        Some(seq!['\u{2260}'])
    } else if b == 0x03 {
        Some(seq!['\u{2265}'])
    } else if b == 0x04 {
        Some(seq!['\u{2264}'])
    } else if b == 0x05 {
        Some(seq!['*'])
    } else if b == 0x06 {
        Some(seq!['\u{221e}'])
    } else if b == 0x07 {
        Some(seq!['\u{3c0}'])
    } else if b == 0x08 {
        Some(seq!['\u{160}'])
    } else if b == 0x09 {
        Some(seq!['\u{3b5}'])
    } else if b == 0x0a {
        Some(seq!['\u{3a3}'])
    } else if b == 0x0b {
        Some(seq!['\u{3c3}'])
    } else if b == 0x82 {
        Some(seq![','])
    } else if b == 0x87 {
        Some(seq!['\u{2044}'])
    } else if b == 0x85 {
        Some(seq!['\u{2026}'])
    } else if b == 0x8a || b == 0x95 || b == 0x96 || b == 0x97 {
        Some(seq!['-'])
    } else if b == 0x91 || b == 0x92 {
        Some(seq!['\''])
    } else if b == 0x93 || b == 0x94 {
        Some(seq!['"'])
    } else if b == 0x99 {
        Some(seq!['\u{2122}'])
    } else if b == 0xab {
        Some(seq!['<', '<'])
    } else if b == 0xae {
        Some(seq!['\u{ae}'])
    } else if b == 0xb1 {
        Some(seq!['\u{b1}'])
    } else if b == 0xb5 {
        Some(seq!['\u{b5}'])
    } else if b == 0xbd {
        Some(seq!['\u{bd}'])
    } else {
        None
    }
}

/// Builds the one-character string of a printable seven-bit code.
fn ascii_char_string(b: u8) -> (r: String)
    requires
        0x20 <= b <= 0x7e,
    ensures
        r@ == seq![b as char],
{
    match b {
        0x20 => {
            proof {
                reveal_strlit(" ");
            }
            String::from_str(" ")
        },
        0x21 => {
            proof {
                reveal_strlit("!");
            }
            String::from_str("!")
        },
        0x22 => {
            proof {
                reveal_strlit("\"");
            }
            String::from_str("\"")
        },
        0x23 => {
            proof {
                reveal_strlit("#");
            }
            String::from_str("#")
        },
        0x24 => {
            proof {
                reveal_strlit("$");
            }
            String::from_str("$")
        },
        0x25 => {
            proof {
                reveal_strlit("%");
            }
            String::from_str("%")
        },
        0x26 => {
            proof {
                reveal_strlit("&");
            }
            String::from_str("&")
        },
        0x27 => {
            proof {
                reveal_strlit("'");
            }
            String::from_str("'")
        },
        0x28 => {
            proof {
                reveal_strlit("(");
            }
            String::from_str("(")
        },
        0x29 => {
            proof {
                reveal_strlit(")");
            }
            String::from_str(")")
        },
        0x2a => {
            proof {
                reveal_strlit("*");
            }
            String::from_str("*")
        },
        0x2b => {
            proof {
                reveal_strlit("+");
            }
            String::from_str("+")
        },
        0x2c => {
            proof {
                reveal_strlit(",");
            }
            String::from_str(",")
        },
        0x2d => {
            proof {
                reveal_strlit("-");
            }
            String::from_str("-")
        },
        0x2e => {
            proof {
                reveal_strlit(".");
            }
            String::from_str(".")
        },
        0x2f => {
            proof {
                reveal_strlit("/");
            }
            String::from_str("/")
        },
        0x30 => {
            proof {
                reveal_strlit("0");
            }
            String::from_str("0")
        },
        0x31 => {
            proof {
                reveal_strlit("1");
            }
            String::from_str("1")
        },
        0x32 => {
            proof {
                reveal_strlit("2");
            }
            String::from_str("2")
        },
        0x33 => {
            proof {
                reveal_strlit("3");
            }
            String::from_str("3")
        },
        0x34 => {
            proof {
                reveal_strlit("4");
            }
            String::from_str("4")
        },
        0x35 => {
            proof {
                reveal_strlit("5");
            }
            String::from_str("5")
        },
        0x36 => {
            proof {
                reveal_strlit("6");
            }
            String::from_str("6")
        },
        0x37 => {
            proof {
                reveal_strlit("7");
            }
            String::from_str("7")
        },
        0x38 => {
            proof {
                reveal_strlit("8");
            }
            String::from_str("8")
        },
        0x39 => {
            proof {
                reveal_strlit("9");
            }
            String::from_str("9")
        },
        0x3a => {
            proof {
                reveal_strlit(":");
            }
            String::from_str(":")
        },
        0x3b => {
            proof {
                reveal_strlit(";");
            }
            String::from_str(";")
        },
        0x3c => {
            proof {
                reveal_strlit("<");
            }
            String::from_str("<")
        },
        0x3d => {
            proof {
                reveal_strlit("=");
            }
            String::from_str("=")
        },
        0x3e => {
            proof {
                reveal_strlit(">");
            }
            String::from_str(">")
        },
        0x3f => {
            proof {
                reveal_strlit("?");
            }
            String::from_str("?")
        },
        0x40 => {
            proof {
                reveal_strlit("@");
            }
            String::from_str("@")
        },
        0x41 => {
            proof {
                reveal_strlit("A");
            }
            String::from_str("A")
        },
        0x42 => {
            proof {
                reveal_strlit("B");
            }
            String::from_str("B")
        },
        0x43 => {
            proof {
                reveal_strlit("C");
            }
            String::from_str("C")
        },
        0x44 => {
            proof {
                reveal_strlit("D");
            }
            String::from_str("D")
        },
        0x45 => {
            proof {
                reveal_strlit("E");
            }
            String::from_str("E")
        },
        0x46 => {
            proof {
                reveal_strlit("F");
            }
            String::from_str("F")
        },
        0x47 => {
            proof {
                reveal_strlit("G");
            }
            String::from_str("G")
        },
        0x48 => {
            proof {
                reveal_strlit("H");
            }
            String::from_str("H")
        },
        0x49 => {
            proof {
                reveal_strlit("I");
            }
            String::from_str("I")
        },
        0x4a => {
            proof {
                reveal_strlit("J");
            }
            String::from_str("J")
        },
        0x4b => {
            proof {
                reveal_strlit("K");
            }
            String::from_str("K")
        },
        0x4c => {
            proof {
                reveal_strlit("L");
            }
            String::from_str("L")
        },
        0x4d => {
            proof {
                reveal_strlit("M");
            }
            String::from_str("M")
        },
        0x4e => {
            proof {
                reveal_strlit("N");
            }
            String::from_str("N")
        },
        0x4f => {
            proof {
                reveal_strlit("O");
            }
            String::from_str("O")
        },
        0x50 => {
            proof {
                reveal_strlit("P");
            }
            String::from_str("P")
        },
        0x51 => {
            proof {
                reveal_strlit("Q");
            }
            String::from_str("Q")
        },
        0x52 => {
            proof {
                reveal_strlit("R");
            }
            String::from_str("R")
        },
        0x53 => {
            proof {
                reveal_strlit("S");
            }
            String::from_str("S")
        },
        0x54 => {
            proof {
                reveal_strlit("T");
            }
            String::from_str("T")
        },
        0x55 => {
            proof {
                reveal_strlit("U");
            }
            String::from_str("U")
        },
        0x56 => {
            proof {
                reveal_strlit("V");
            }
            String::from_str("V")
        },
        0x57 => {
            proof {
                reveal_strlit("W");
            }
            String::from_str("W")
        },
        0x58 => {
            proof {
                reveal_strlit("X");
            }
            String::from_str("X")
        },
        0x59 => {
            proof {
                reveal_strlit("Y");
            }
            String::from_str("Y")
        },
        0x5a => {
            proof {
                reveal_strlit("Z");
            }
            String::from_str("Z")
        },
        0x5b => {
            proof {
                reveal_strlit("[");
            }
            String::from_str("[")
        },
        0x5c => {
            proof {
                reveal_strlit("\\");
            }
            String::from_str("\\")
        },
        0x5d => {
            proof {
                reveal_strlit("]");
            }
            String::from_str("]")
        },
        0x5e => {
            proof {
                reveal_strlit("^");
            }
            String::from_str("^")
        },
        0x5f => {
            proof {
                reveal_strlit("_");
            }
            String::from_str("_")
        },
        0x60 => {
            proof {
                reveal_strlit("`");
            }
            String::from_str("`")
        },
        0x61 => {
            proof {
                reveal_strlit("a");
            }
            String::from_str("a")
        },
        0x62 => {
            proof {
                reveal_strlit("b");
            }
            String::from_str("b")
        },
        0x63 => {
            proof {
                reveal_strlit("c");
            }
            String::from_str("c")
        },
        0x64 => {
            proof {
                reveal_strlit("d");
            }
            String::from_str("d")
        },
        0x65 => {
            proof {
                reveal_strlit("e");
            }
            String::from_str("e")
        },
        0x66 => {
            proof {
                reveal_strlit("f");
            }
            String::from_str("f")
        },
        0x67 => {
            proof {
                reveal_strlit("g");
            }
            String::from_str("g")
        },
        0x68 => {
            proof {
                reveal_strlit("h");
            }
            String::from_str("h")
        },
        0x69 => {
            proof {
                reveal_strlit("i");
            }
            String::from_str("i")
        },
        0x6a => {
            proof {
                reveal_strlit("j");
            }
            String::from_str("j")
        },
        0x6b => {
            proof {
                reveal_strlit("k");
            }
            String::from_str("k")
        },
        0x6c => {
            proof {
                reveal_strlit("l");
            }
            String::from_str("l")
        },
        0x6d => {
            proof {
                reveal_strlit("m");
            }
            String::from_str("m")
        },
        0x6e => {
            proof {
                reveal_strlit("n");
            }
            String::from_str("n")
        },
        0x6f => {
            proof {
                reveal_strlit("o");
            }
            String::from_str("o")
        },
        0x70 => {
            proof {
                reveal_strlit("p");
            }
            String::from_str("p")
        },
        0x71 => {
            proof {
                reveal_strlit("q");
            }
            String::from_str("q")
        },
        0x72 => {
            proof {
                reveal_strlit("r");
            }
            String::from_str("r")
        },
        0x73 => {
            proof {
                reveal_strlit("s");
            }
            String::from_str("s")
        },
        0x74 => {
            proof {
                reveal_strlit("t");
            }
            String::from_str("t")
        },
        0x75 => {
            proof {
                reveal_strlit("u");
            }
            String::from_str("u")
        },
        0x76 => {
            proof {
                reveal_strlit("v");
            }
            String::from_str("v")
        },
        0x77 => {
            proof {
                reveal_strlit("w");
            }
            String::from_str("w")
        },
        0x78 => {
            proof {
                reveal_strlit("x");
            }
            String::from_str("x")
        },
        0x79 => {
            proof {
                reveal_strlit("y");
            }
            String::from_str("y")
        },
        0x7a => {
            proof {
                reveal_strlit("z");
            }
            String::from_str("z")
        },
        0x7b => {
            proof {
                reveal_strlit("{");
            }
            String::from_str("{")
        },
        0x7c => {
            proof {
                reveal_strlit("|");
            }
            String::from_str("|")
        },
        0x7d => {
            proof {
                reveal_strlit("}");
            }
            String::from_str("}")
        },
        0x7e => {
            proof {
                reveal_strlit("~");
            }
            String::from_str("~")
        },
        _ => vstd::pervasive::unreached(),
    }
}

/// The display form of one special byte above the printable range.
fn special_byte_string(b: u8) -> (r: Option<String>)
    requires
        !(0x20 <= b <= 0x7e),
    ensures
        match spec_repr_byte(b) {
            Some(cs) => r matches Some(s) && s@ == cs,
            None => r is None,
        },
{
    match b {
        0x2 => {
            proof {
                reveal_strlit("\u{2260}");
            }
            Some(String::from_str("\u{2260}"))
        },
        0x3 => {
            proof {
                reveal_strlit("\u{2265}");
            }
            Some(String::from_str("\u{2265}"))
        },
        0x4 => {
            proof {
                reveal_strlit("\u{2264}");
            }
            Some(String::from_str("\u{2264}"))
        },
        0x5 => {
            proof {
                reveal_strlit("*");
            }
            Some(String::from_str("*"))
        },
        0x6 => {
            proof {
                reveal_strlit("\u{221e}");
            }
            Some(String::from_str("\u{221e}"))
        },
        0x7 => {
            proof {
                reveal_strlit("\u{3c0}");
            }
            Some(String::from_str("\u{3c0}"))
        },
        0x8 => {
            proof {
                reveal_strlit("\u{160}");
            }
            Some(String::from_str("\u{160}"))
        },
        0x9 => {
            proof {
                reveal_strlit("\u{3b5}");
            }
            Some(String::from_str("\u{3b5}"))
        },
        0xa => {
            proof {
                reveal_strlit("\u{3a3}");
            }
            Some(String::from_str("\u{3a3}"))
        },
        0xb => {
            proof {
                reveal_strlit("\u{3c3}");
            }
            Some(String::from_str("\u{3c3}"))
        },
        0x82 => {
            proof {
                reveal_strlit(",");
            }
            Some(String::from_str(","))
        },
        0x87 => {
            proof {
                reveal_strlit("\u{2044}");
            }
            Some(String::from_str("\u{2044}"))
        },
        0x85 => {
            proof {
                reveal_strlit("\u{2026}");
            }
            Some(String::from_str("\u{2026}"))
        },
        0x8a => {
            proof {
                reveal_strlit("-");
            }
            Some(String::from_str("-"))
        },
        0x8f => {
            proof {
                reveal_strlit("\u{2260}");
            }
            Some(String::from_str("\u{2260}"))
        },
        0x91 => {
            proof {
                reveal_strlit("'");
            }
            Some(String::from_str("'"))
        },
        0x92 => {
            proof {
                reveal_strlit("'");
            }
            Some(String::from_str("'"))
        },
        0x93 => {
            proof {
                reveal_strlit("\"");
            }
            Some(String::from_str("\""))
        },
        0x94 => {
            proof {
                reveal_strlit("\"");
            }
            Some(String::from_str("\""))
        },
        0x95 => {
            proof {
                reveal_strlit("-");
            }
            Some(String::from_str("-"))
        },
        0x96 => {
            proof {
                reveal_strlit("-");
            }
            Some(String::from_str("-"))
        },
        0x97 => {
            proof {
                reveal_strlit("-");
            }
            Some(String::from_str("-"))
        },
        0x99 => {
            proof {
                reveal_strlit("\u{2122}");
            }
            Some(String::from_str("\u{2122}"))
        },
        0xab => {
            proof {
                reveal_strlit("<<");
            }
            Some(String::from_str("<<"))
        },
        0xae => {
            proof {
                reveal_strlit("\u{ae}");
            }
            Some(String::from_str("\u{ae}"))
        },
        0xb1 => {
            proof {
                reveal_strlit("\u{b1}");
            }
            Some(String::from_str("\u{b1}"))
        },
        0xb5 => {
            proof {
                reveal_strlit("\u{b5}");
            }
            Some(String::from_str("\u{b5}"))
        },
        0xbd => {
            proof {
                reveal_strlit("\u{bd}");
            }
            Some(String::from_str("\u{bd}"))
        },
        _ => None,
    }
}

/// The display form of a raw glyph code: single bytes go through the
/// byte table, and of the two-byte codes only the null pair is known,
/// standing for the empty string.
pub open spec fn spec_repr_raw(raw: GlyphRaw) -> Option<Seq<char>> {
    match raw {
        GlyphRaw::Byte(b) => spec_repr_byte(b),
        GlyphRaw::Pair(a, b) => if a == 0 && b == 0 {
            Some(Seq::empty())
        } else {
            None
        },
    }
}

/// The error reported for a raw code with no display form.
pub open spec fn spec_repr_err(raw: GlyphRaw) -> ErrView {
    match raw {
        GlyphRaw::Byte(b) => ErrView::Unsupported { feature: Feature::RawByte(b) },
        GlyphRaw::Pair(a, b) => ErrView::Unsupported { feature: Feature::RawPair(a, b) },
    }
}

impl PdfChar {
    /// Resolves the display string of this glyph, once: a glyph already
    /// resolved is left as it is, and a raw code with no display form is
    /// reported, not guessed.
    pub fn make_ready(&mut self) -> (r: Result<(), PdfError>)
        ensures
            match r {
                Ok(_) => {
                    &&& final(self).raw == old(self).raw
                    &&& final(self).rect == old(self).rect
                    &&& old(self).represent_as is Some ==> *final(self) == *old(self)
                    &&& old(self).represent_as is None ==> final(self)@.repr == spec_repr_raw(
                        old(self).raw,
                    ) && spec_repr_raw(old(self).raw) is Some
                    &&& final(self).represent_as is Some
                },
                Err(e) => {
                    &&& *final(self) == *old(self)
                    &&& old(self).represent_as is None
                    &&& spec_repr_raw(old(self).raw) is None
                    &&& e@ == spec_repr_err(old(self).raw)
                },
            },
    {
        match &self.represent_as {
            Some(_) => Ok(()),
            None => {
                match self.raw {
                    GlyphRaw::Byte(b) => {
                        if 0x20 <= b && b <= 0x7e {
                            self.represent_as = Some(ascii_char_string(b));
                            Ok(())
                        } else {
                            match special_byte_string(b) {
                                Some(s) => {
                                    self.represent_as = Some(s);
                                    Ok(())
                                },
                                None => Err(
                                    PdfError::Unsupported { feature: Feature::RawByte(b) },
                                ),
                            }
                        }
                    },
                    GlyphRaw::Pair(a, b) => {
                        if a == 0 && b == 0 {
                            let s = String::new();
                            proof {
                                assert(s@ =~= Seq::<char>::empty());
                            }
                            self.represent_as = Some(s);
                            Ok(())
                        } else {
                            Err(PdfError::Unsupported { feature: Feature::RawPair(a, b) })
                        }
                    },
                }
            },
        }
    }

    /// The resolved display string; only read after resolution.
    pub fn get(&self) -> (r: &str)
        requires
            self.represent_as is Some,
        ensures
            self@.repr matches Some(cs) && r@ == cs,
    {
        match &self.represent_as {
            Some(s) => s.as_str(),
            None => vstd::pervasive::unreached(),
        }
    }
}


/// The effective width a character code takes under the current state:
/// the width-table value scaled by the width factor and the font size.
pub open spec fn spec_glyph_width(font: PdfFont, st: TextState, c: u8) -> Option<int> {
    match font.spec_char_width(c) {
        Ok(tw) => Some(clamp(tdiv(tw * st.width_factor * st.font_scale, 1_000_000))),
        Err(_) => None,
    }
}

/// For a horizontal run of glyphs of one effective width `w` with
/// character spacing `s` and no adjustments, placed within the
/// coordinate range, the rightmost glyph edge after placing all of them
/// is exactly `start_x + n * w + (n - 1) * s`, and the pointer ends at
/// `start_x + n * (w + s)`. Word spacing enters only once per complete
/// string operand, in [`spec_show_string`], not per glyph.
pub proof fn lemma_equal_width_run(font: PdfFont, st: TextState, bytes: Seq<u8>, w: int)
    requires
        st.wf(),
        bytes.len() >= 1,
        w >= 0,
        st.char_space >= 0,
        forall|i: int| 0 <= i < bytes.len() ==> spec_glyph_width(font, st, #[trigger] bytes[i])
            == Some(w),
        st.x + bytes.len() * (w + st.char_space) <= COORD_LIMIT,
    ensures
        spec_place_bytes(font, st, bytes) matches Ok(p) && {
            let n = bytes.len() as int;
            &&& p.1.len() == n
            &&& p.1[n - 1].rect.right == st.x + n * w + (n - 1) * st.char_space
            &&& p.0.x == st.x + n * (w + st.char_space)
            &&& forall|i: int| 0 <= i < n ==> (#[trigger] p.1[i]).rect.right <= p.1[n - 1].rect.right
        },
    decreases bytes.len(),
{
    let n = bytes.len() as int;
    let s = st.char_space as int;
    let c = bytes[0];
    let tw = font.spec_char_width(c)->Ok_0;
    let placed = spec_place_glyph(st, c, tw);
    let st1 = placed.0;
    assert(n * (w + s) >= 1 * (w + s)) by (nonlinear_arith)
        requires
            n >= 1,
            w + s >= 0,
    ;
    assert(st.x + w + s <= COORD_LIMIT);
    assert(clamp(st.x + w) == st.x + w);
    assert(placed.1.rect.right == st.x + w);
    assert(st1.x == st.x + w + s);
    assert(st1.width_factor == st.width_factor && st1.font_scale == st.font_scale
        && st1.char_space == st.char_space);
    if n == 1 {
        assert(bytes.drop_first().len() == 0);
        let p = spec_place_bytes(font, st, bytes);
        assert(p matches Ok(q) && q.1 =~= seq![placed.1]);
    } else {
        let rest = bytes.drop_first();
        assert(forall|i: int|
            0 <= i < rest.len() ==> spec_glyph_width(font, st1, #[trigger] rest[i]) == Some(w));
        assert(st1.x + rest.len() * (w + s) == st.x + n * (w + s)) by (nonlinear_arith)
            requires
                st1.x == st.x + w + s,
                rest.len() == n - 1,
                n >= 1,
        ;
        lemma_equal_width_run(font, st1, rest, w);
        let pr = spec_place_bytes(font, st1, rest);
        let p = spec_place_bytes(font, st, bytes);
        assert(p matches Ok(q) && q.1 == seq![placed.1] + pr->Ok_0.1);
        let q = p->Ok_0;
        assert(q.1.len() == n);
        assert(q.1[n - 1] == pr->Ok_0.1[n - 2]);
        assert(pr->Ok_0.1[n - 2].rect.right == st1.x + (n - 1) * w + (n - 2) * s);
        assert(st1.x + (n - 1) * w + (n - 2) * s == st.x + n * w + (n - 1) * s)
            by (nonlinear_arith)
            requires
                st1.x == st.x + w + s,
                n >= 2,
        ;
        assert(q.0.x == st1.x + (n - 1) * (w + s));
        assert(st1.x + (n - 1) * (w + s) == st.x + n * (w + s)) by (nonlinear_arith)
            requires
                st1.x == st.x + w + s,
                n >= 2,
        ;
        assert forall|i: int| 0 <= i < n implies (#[trigger] q.1[i]).rect.right <= q.1[n
            - 1].rect.right by {
            if i == 0 {
                assert(q.1[0] == placed.1);
                assert((n - 1) * w + (n - 1) * s >= 0) by (nonlinear_arith)
                    requires
                        n >= 1,
                        w >= 0,
                        s >= 0,
                ;
            } else {
                assert(q.1[i] == pr->Ok_0.1[i - 1]);
            }
        }
    }
}

} // verus!
