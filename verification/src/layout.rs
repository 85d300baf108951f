//! The line-breaking engine.
//!
//! A [`Layouter`] consumes tokens and groups them into rows of segments of
//! placement items. A row is one vertical strip of the box; a carriage
//! return splits a row into segments that restart at the left edge. The
//! engine carries a word (or the tail of a split word) across row
//! boundaries, so every call makes progress and layout always terminates.
//!
//! The exec engine is a step machine whose every step is proved equal to
//! the spec-level step function [`spec_step`], so the whole layout is a
//! deterministic function of the text and the configuration.

use vstd::prelude::*;
use vstd::slice::slice_subrange;
use crate::alignment::HorizontalAlignment;
use crate::parser::{Parser, Token, TokenModel, spec_next_token, lemma_next_token_consumes};

verus! {

/// Everything the line breaker needs to know about the box and the font.
#[derive(Clone, Copy, Debug, PartialEq, Eq, Structural)]
pub struct LayoutConfig {
    /// Interior width of the box in pixels.
    pub width: u32,
    /// Horizontal advance of one glyph cell.
    pub char_width: u32,
    /// Width of one rendered space.
    pub space_width: u32,
    /// Distance between tab stops in pixels.
    pub tab_width: u32,
    /// The horizontal alignment strategy; the line breaker itself only
    /// cares whether leading spaces are kept (left alignment keeps them).
    pub alignment: HorizontalAlignment,
}

impl LayoutConfig {
    /// All pixel quantities are positive.
    pub open spec fn wf(&self) -> bool {
        self.width >= 1 && self.char_width >= 1 && self.space_width >= 1 && self.tab_width >= 1
    }
}

/// One placement instruction inside a segment.
#[derive(Clone, Copy, Debug)]
pub enum Item<'a> {
    /// A run of glyphs, one cell each.
    Word(&'a [char]),
    /// A run of rendered spaces (background only), by count.
    Spaces(usize),
    /// A single glyph, used for the visible hyphen of a taken break.
    Glyph(char),
    /// An invisible fixed-width gap, used for tab stops.
    Gap(u32),
}

/// The mathematical form of an [`Item`].
pub enum ItemModel {
    /// A run of glyphs.
    Word(Seq<char>),
    /// A run of rendered spaces, by count.
    Spaces(nat),
    /// A single glyph.
    Glyph(char),
    /// An invisible fixed-width gap.
    Gap(u32),
}

impl<'a> View for Item<'a> {
    type V = ItemModel;

    open spec fn view(&self) -> ItemModel {
        match self {
            Item::Word(w) => ItemModel::Word(w@),
            Item::Spaces(n) => ItemModel::Spaces(*n as nat),
            Item::Glyph(c) => ItemModel::Glyph(*c),
            Item::Gap(g) => ItemModel::Gap(*g),
        }
    }
}

/// The width in pixels an item occupies.
pub open spec fn item_width(it: ItemModel, cfg: LayoutConfig) -> int {
    match it {
        ItemModel::Word(w) => w.len() * cfg.char_width,
        ItemModel::Spaces(n) => n * cfg.space_width,
        ItemModel::Glyph(_) => cfg.char_width as int,
        ItemModel::Gap(g) => g as int,
    }
}

/// A run of items rendered left to right from one horizontal origin.
#[derive(Debug)]
pub struct Segment<'a> {
    /// The placement items, in order.
    pub items: Vec<Item<'a>>,
}

/// The items of a sequence, as models.
pub open spec fn items_model(s: Seq<Item>) -> Seq<ItemModel> {
    s.map_values(|i: Item| i@)
}

impl<'a> View for Segment<'a> {
    type V = Seq<ItemModel>;

    open spec fn view(&self) -> Seq<ItemModel> {
        items_model(self.items@)
    }
}

/// The segments of a sequence, as models.
pub open spec fn segments_model(s: Seq<Segment>) -> Seq<Seq<ItemModel>> {
    s.map_values(|sg: Segment| sg@)
}

/// One horizontal strip of the box: the segments share the same vertical
/// position; each restarts at the left edge (carriage return).
#[derive(Debug)]
pub struct Row<'a> {
    /// The segments of the row, in the order they were produced.
    pub segments: Vec<Segment<'a>>,
    /// Whether the row ends its paragraph (a newline or the end of the
    /// text), which exempts it from justification.
    pub para_end: bool,
}

/// The mathematical form of a [`Row`].
#[verifier::ext_equal]
pub struct RowModel {
    /// The segments, as item sequences.
    pub segments: Seq<Seq<ItemModel>>,
    /// Whether the row ends its paragraph.
    pub para_end: bool,
}

impl<'a> View for Row<'a> {
    type V = RowModel;

    open spec fn view(&self) -> RowModel {
        RowModel { segments: segments_model(self.segments@), para_end: self.para_end }
    }
}

/// The rows of a sequence, as models.
pub open spec fn rows_model(s: Seq<Row>) -> Seq<RowModel> {
    s.map_values(|r: Row| r@)
}

/// The full state of the line breaker.
#[verifier::ext_equal]
pub struct LayoutModel {
    /// Characters not yet consumed.
    pub remaining: Seq<char>,
    /// A word (or word tail) that wrapped and waits for the next row.
    pub carried: Option<Seq<char>>,
    /// Horizontal position inside the current segment.
    pub x: u32,
    /// Items of the current segment.
    pub seg: Seq<ItemModel>,
    /// Finished segments of the current row.
    pub segs: Seq<Seq<ItemModel>>,
    /// Finished rows.
    pub rows: Seq<RowModel>,
    /// Whether layout has ended.
    pub done: bool,
}

/// The number of characters a carry holds.
pub open spec fn carried_len(c: Option<Seq<char>>) -> nat {
    match c {
        Some(w) => w.len(),
        None => 0,
    }
}

/// The termination measure of the step machine: every step either finishes
/// layout or shrinks this quantity.
pub open spec fn spec_measure(m: LayoutModel) -> nat {
    2 * (m.remaining.len() + carried_len(m.carried)) + (if m.carried is None {
        1nat
    } else {
        0nat
    })
}

/// Ends the current row: current segment and row move into the finished
/// rows; position, segment and row start over.
pub open spec fn model_flush_row(m: LayoutModel, para_end: bool) -> LayoutModel {
    LayoutModel {
        x: 0,
        seg: Seq::empty(),
        segs: Seq::empty(),
        rows: m.rows.push(RowModel { segments: m.segs.push(m.seg), para_end }),
        ..m
    }
}

/// Appends an item to the current segment and advances the position.
pub open spec fn model_push(m: LayoutModel, it: ItemModel, new_x: u32) -> LayoutModel {
    LayoutModel { x: new_x, seg: m.seg.push(it), ..m }
}

/// Places a word whose characters are already consumed (or carried). If it
/// does not fit and the segment already has content, the word is carried to
/// the next row; at the start of a segment it is split so that every row
/// makes progress, overflowing only when not even one glyph fits.
pub open spec fn model_place_word(m: LayoutModel, w: Seq<char>, cfg: LayoutConfig) -> LayoutModel {
    let ww = w.len() * cfg.char_width;
    if m.x + ww <= cfg.width {
        model_push(LayoutModel { carried: None, ..m }, ItemModel::Word(w), (m.x + ww) as u32)
    } else if m.x == 0 {
        let kfit = cfg.width as int / cfg.char_width as int;
        let k = if kfit == 0 {
            1int
        } else {
            kfit
        };
        let chunk = if k < w.len() {
            w.take(k)
        } else {
            w
        };
        let rest = if k < w.len() {
            Some(w.skip(k))
        } else {
            None
        };
        let placed = model_push(
            LayoutModel { carried: rest, ..m },
            ItemModel::Word(chunk),
            (chunk.len() * cfg.char_width) as u32,
        );
        model_flush_row(placed, false)
    } else {
        model_flush_row(LayoutModel { carried: Some(w), ..m }, false)
    }
}

/// Handles a whitespace run of `n` counted spaces. At the start of a
/// segment the run is kept only for left alignment. In the middle of a
/// segment the run is placed whole when it and the following word fit;
/// otherwise the row wraps here: one space is consumed by the wrap and as
/// many of the others as fit are kept as trailing spaces.
pub open spec fn model_whitespace(m: LayoutModel, n: nat, cfg: LayoutConfig) -> LayoutModel {
    let sw = cfg.space_width as int;
    if m.x == 0 {
        if cfg.alignment == HorizontalAlignment::Left {
            let maxfit = cfg.width as int / sw;
            if n <= maxfit {
                model_push(m, ItemModel::Spaces(n), (n * sw) as u32)
            } else {
                model_flush_row(
                    model_push(m, ItemModel::Spaces(maxfit as nat), (maxfit * sw) as u32),
                    false,
                )
            }
        } else {
            m
        }
    } else {
        let word_follows = match spec_next_token(m.remaining) {
            Some(pair) => pair.0 matches TokenModel::Word(_),
            None => false,
        };
        let follow_len = match spec_next_token(m.remaining) {
            Some(pair) => match pair.0 {
                TokenModel::Word(w2) => w2.len() as int,
                _ => 0,
            },
            None => 0,
        };
        if word_follows {
            if m.x + n * sw + follow_len * cfg.char_width <= cfg.width {
                model_push(m, ItemModel::Spaces(n), (m.x + n * sw) as u32)
            } else {
                let fit = (cfg.width - m.x) as int / sw;
                let k = if n - 1 <= fit {
                    n - 1
                } else {
                    fit
                };
                let m2 = if k > 0 {
                    model_push(m, ItemModel::Spaces(k as nat), (m.x + k * sw) as u32)
                } else {
                    m
                };
                model_flush_row(m2, false)
            }
        } else {
            if m.x + n * sw <= cfg.width {
                model_push(m, ItemModel::Spaces(n), (m.x + n * sw) as u32)
            } else {
                let fit = (cfg.width - m.x) as int / sw;
                let m2 = if fit > 0 {
                    model_push(m, ItemModel::Spaces(fit as nat), (m.x + fit * sw) as u32)
                } else {
                    m
                };
                model_flush_row(m2, false)
            }
        }
    }
}

/// Handles a wrap opportunity. It is skipped silently unless a word
/// follows that no longer fits; then the break is taken: the optional
/// visible character is placed if it fits, and the row wraps.
pub open spec fn model_break(m: LayoutModel, ch: Option<char>, cfg: LayoutConfig) -> LayoutModel {
    if m.x == 0 {
        m
    } else {
        match spec_next_token(m.remaining) {
            Some(pair) => match pair.0 {
                TokenModel::Word(w2) => {
                    if m.x + w2.len() * cfg.char_width <= cfg.width {
                        m
                    } else {
                        let m2 = match ch {
                            Some(h) => if m.x + cfg.char_width <= cfg.width {
                                model_push(m, ItemModel::Glyph(h), (m.x + cfg.char_width) as u32)
                            } else {
                                m
                            },
                            None => m,
                        };
                        model_flush_row(m2, false)
                    }
                },
                _ => m,
            },
            None => m,
        }
    }
}

/// Advances to the next tab stop, or wraps when none is left on the row.
pub open spec fn model_tab(m: LayoutModel, cfg: LayoutConfig) -> LayoutModel {
    let t = cfg.tab_width as int;
    let x2 = (m.x as int / t + 1) * t;
    if x2 <= cfg.width {
        model_push(m, ItemModel::Gap((x2 - m.x) as u32), x2 as u32)
    } else {
        model_flush_row(m, false)
    }
}

/// Places a single carried character; it never wraps to the next row: if
/// it cannot fit mid-row the row ends and the character is dropped.
pub open spec fn model_extra(m: LayoutModel, ch: char, cfg: LayoutConfig) -> LayoutModel {
    if m.x + cfg.char_width <= cfg.width {
        model_push(m, ItemModel::Glyph(ch), (m.x + cfg.char_width) as u32)
    } else if m.x == 0 {
        model_flush_row(model_push(m, ItemModel::Glyph(ch), cfg.char_width), false)
    } else {
        model_flush_row(m, false)
    }
}

/// Ends layout: a last non-empty row is flushed as a paragraph end.
pub open spec fn model_finish(m: LayoutModel) -> LayoutModel {
    if m.seg.len() > 0 || m.segs.len() > 0 {
        LayoutModel { done: true, ..model_flush_row(m, true) }
    } else {
        LayoutModel { done: true, ..m }
    }
}

/// One step of the line breaker: place the carried word if there is one,
/// otherwise consume and dispatch the next token.
pub open spec fn spec_step(m: LayoutModel, cfg: LayoutConfig) -> LayoutModel {
    match m.carried {
        Some(w) => model_place_word(m, w, cfg),
        None => match spec_next_token(m.remaining) {
            None => model_finish(m),
            Some(pair) => {
                let m2 = LayoutModel { remaining: m.remaining.skip(pair.1 as int), ..m };
                match pair.0 {
                    TokenModel::Word(w) => model_place_word(m2, w, cfg),
                    TokenModel::Whitespace(n) => model_whitespace(m2, n, cfg),
                    TokenModel::Break(ch) => model_break(m2, ch, cfg),
                    TokenModel::NewLine => model_flush_row(m2, true),
                    TokenModel::CarriageReturn => LayoutModel {
                        x: 0,
                        seg: Seq::empty(),
                        segs: m2.segs.push(m2.seg),
                        ..m2
                    },
                    TokenModel::Tab => model_tab(m2, cfg),
                    TokenModel::Escape => m2,
                    TokenModel::ExtraCharacter(ch) => model_extra(m2, ch, cfg),
                }
            },
        },
    }
}

/// The state invariant of the step machine: the position stays inside the
/// row, and a carried word is never empty and only exists at the start of a
/// fresh row.
pub open spec fn model_wf(m: LayoutModel, cfg: LayoutConfig) -> bool {
    &&& m.x <= cfg.width
    &&& match m.carried {
        Some(w) => w.len() > 0 && m.x == 0,
        None => true,
    }
}


/// If `k` is at most `avail / unit`, then `k` units fit inside `avail`.
pub proof fn lemma_fit_mul(avail: int, unit: int, k: int)
    requires
        avail >= 0,
        unit >= 1,
        0 <= k <= avail / unit,
    ensures
        k * unit <= avail,
{
    vstd::arithmetic::div_mod::lemma_fundamental_div_mod(avail, unit);
    vstd::arithmetic::div_mod::lemma_mod_division_less_than_divisor(avail, unit);
    vstd::arithmetic::mul::lemma_mul_inequality(k, avail / unit, unit);
}

/// Every step preserves the state invariant.
pub proof fn lemma_step_wf(m: LayoutModel, cfg: LayoutConfig)
    requires
        !m.done,
        cfg.wf(),
        model_wf(m, cfg),
    ensures
        model_wf(spec_step(m, cfg), cfg),
{
    match m.carried {
        Some(w) => {
            let kfit = cfg.width as int / cfg.char_width as int;
            let k = if kfit == 0 {
                1int
            } else {
                kfit
            };
            if !(m.x + w.len() * cfg.char_width <= cfg.width) && k < w.len() {
                assert(w.skip(k).len() == w.len() - k);
            }
        },
        None => {
            if m.remaining.len() > 0 {
                lemma_next_token_consumes(m.remaining);
                let pair = spec_next_token(m.remaining)->Some_0;
                match pair.0 {
                    TokenModel::Word(w) => {
                        crate::parser::lemma_word_run_len_le(m.remaining);
                        assert(w.len() == pair.1);
                        let kfit = cfg.width as int / cfg.char_width as int;
                        let k = if kfit == 0 {
                            1int
                        } else {
                            kfit
                        };
                        if k < w.len() {
                            assert(w.skip(k).len() == w.len() - k);
                        }
                    },
                    TokenModel::Whitespace(n) => {
                        let sw = cfg.space_width as int;
                        if m.x == 0 && cfg.alignment == HorizontalAlignment::Left {
                            let maxfit = cfg.width as int / sw;
                            if n <= maxfit {
                                lemma_fit_mul(cfg.width as int, sw, n as int);
                            }
                        } else if m.x != 0 {
                        }
                    },
                    _ => {},
                }
            }
        },
    }
}

/// Forced progress: a step either finishes layout or strictly shrinks the
/// measure, so the engine always terminates.
pub proof fn lemma_step_progress(m: LayoutModel, cfg: LayoutConfig)
    requires
        !m.done,
        cfg.wf(),
        model_wf(m, cfg),
    ensures
        spec_measure(spec_step(m, cfg)) <= spec_measure(m),
        spec_step(m, cfg).done || spec_measure(spec_step(m, cfg)) < spec_measure(m),
{
    match m.carried {
        Some(w) => {
            let ww = w.len() * cfg.char_width;
            if m.x + ww <= cfg.width {
            } else if m.x == 0 {
                let kfit = cfg.width as int / cfg.char_width as int;
                let k = if kfit == 0 {
                    1int
                } else {
                    kfit
                };
                if k < w.len() {
                    assert(w.skip(k).len() == w.len() - k);
                }
            } else {
            }
        },
        None => {
            if m.remaining.len() == 0 {
            } else {
                lemma_next_token_consumes(m.remaining);
                let pair = spec_next_token(m.remaining)->Some_0;
                let k = pair.1;
                assert(m.remaining.skip(k as int).len() == m.remaining.len() - k);
                let m2 = LayoutModel { remaining: m.remaining.skip(k as int), ..m };
                match pair.0 {
                    TokenModel::Word(w) => {
                        crate::parser::lemma_word_run_len_le(m.remaining);
                        assert(w.len() == k);
                        let ww = w.len() * cfg.char_width;
                        if m2.x + ww <= cfg.width {
                        } else if m2.x == 0 {
                            let kfit = cfg.width as int / cfg.char_width as int;
                            let kk = if kfit == 0 {
                                1int
                            } else {
                                kfit
                            };
                            if kk < w.len() {
                                assert(w.skip(kk).len() == w.len() - kk);
                                assert(w.len() == k);
                                assert(kk >= 1);
                            } else {
                                assert(w.len() >= 1);
                            }
                        } else {
                            assert(w.len() == k);
                        }
                    },
                    _ => {},
                }
            }
        },
    }
}

/// Runs the step machine to completion.
pub open spec fn spec_run(m: LayoutModel, cfg: LayoutConfig) -> LayoutModel
    decreases
            spec_measure(m),
            (if m.done {
                0int
            } else {
                1int
            }),
        when cfg.wf() && model_wf(m, cfg)
        via spec_run_dec
{
    if m.done {
        m
    } else {
        spec_run(spec_step(m, cfg), cfg)
    }
}

#[via_fn]
proof fn spec_run_dec(m: LayoutModel, cfg: LayoutConfig) {
    if !m.done {
        lemma_step_progress(m, cfg);
        lemma_step_wf(m, cfg);
    }
}

/// The state the line breaker starts from.
pub open spec fn init_model(text: Seq<char>) -> LayoutModel {
    LayoutModel {
        remaining: text,
        carried: None,
        x: 0,
        seg: Seq::empty(),
        segs: Seq::empty(),
        rows: Seq::empty(),
        done: false,
    }
}

/// The rows a text lays out to under a configuration: the one meaning of
/// the whole engine.
pub open spec fn spec_layout(text: Seq<char>, cfg: LayoutConfig) -> Seq<RowModel> {
    spec_run(init_model(text), cfg).rows
}



/// Total width of a run of items.
pub open spec fn items_width(s: Seq<ItemModel>, cfg: LayoutConfig) -> int
    decreases s.len(),
{
    if s.len() == 0 {
        0
    } else {
        item_width(s[0], cfg) + items_width(s.drop_first(), cfg)
    }
}

/// Item widths are never negative.
pub proof fn lemma_items_width_nonneg(s: Seq<ItemModel>, cfg: LayoutConfig)
    ensures
        items_width(s, cfg) >= 0,
    decreases s.len(),
{
    if s.len() > 0 {
        lemma_items_width_nonneg(s.drop_first(), cfg);
        match s[0] {
            ItemModel::Word(w) => {
                vstd::arithmetic::mul::lemma_mul_nonnegative(
                    w.len() as int,
                    cfg.char_width as int,
                );
            },
            ItemModel::Spaces(n) => {
                vstd::arithmetic::mul::lemma_mul_nonnegative(n as int, cfg.space_width as int);
            },
            _ => {},
        }
    }
}

/// The width of a run grows by the width of a pushed item.
pub proof fn lemma_items_width_push(s: Seq<ItemModel>, it: ItemModel, cfg: LayoutConfig)
    ensures
        items_width(s.push(it), cfg) == items_width(s, cfg) + item_width(it, cfg),
    decreases s.len(),
{
    if s.len() == 0 {
        assert(s.push(it).drop_first() =~= s);
    } else {
        assert(s.push(it).drop_first() =~= s.drop_first().push(it));
        lemma_items_width_push(s.drop_first(), it, cfg);
    }
}

/// The widest a segment can get: the row width, or one glyph cell when even
/// a single glyph overflows the row.
pub open spec fn max_row_width(cfg: LayoutConfig) -> int {
    if cfg.char_width > cfg.width {
        cfg.char_width as int
    } else {
        cfg.width as int
    }
}

/// A finished segment stays within the widest admissible row.
pub open spec fn segment_ok(s: Seq<ItemModel>, cfg: LayoutConfig) -> bool {
    0 <= items_width(s, cfg) <= max_row_width(cfg)
}

/// All segments of a finished row are admissible.
pub open spec fn row_ok(r: RowModel, cfg: LayoutConfig) -> bool {
    forall|i: int| 0 <= i < r.segments.len() ==> segment_ok(#[trigger] r.segments[i], cfg)
}

/// The width bookkeeping of the machine: the position equals the width of
/// the open segment, and everything already finished is admissible.
pub open spec fn state_ok(m: LayoutModel, cfg: LayoutConfig) -> bool {
    &&& items_width(m.seg, cfg) == m.x
    &&& forall|i: int| 0 <= i < m.segs.len() ==> segment_ok(#[trigger] m.segs[i], cfg)
    &&& forall|i: int| 0 <= i < m.rows.len() ==> row_ok(#[trigger] m.rows[i], cfg)
}

/// Every step keeps the width bookkeeping intact.
pub proof fn lemma_step_ok(m: LayoutModel, cfg: LayoutConfig)
    requires
        !m.done,
        cfg.wf(),
        model_wf(m, cfg),
        state_ok(m, cfg),
    ensures
        state_ok(spec_step(m, cfg), cfg),
{
    let sw = cfg.space_width as int;
    let cw = cfg.char_width as int;
    assert forall|mm: LayoutModel, pe: bool|
        state_ok(mm, cfg) && mm.x <= max_row_width(cfg) implies state_ok(
        #[trigger] model_flush_row(mm, pe),
        cfg,
    ) by {
        let r = RowModel { segments: mm.segs.push(mm.seg), para_end: pe };
        lemma_items_width_nonneg(mm.seg, cfg);
        assert(segment_ok(mm.seg, cfg));
        assert forall|i: int| 0 <= i < r.segments.len() implies segment_ok(
            #[trigger] r.segments[i],
            cfg,
        ) by {
            if i < mm.segs.len() {
                assert(r.segments[i] == mm.segs[i]);
            } else {
                assert(r.segments[i] == mm.seg);
            }
        }
        let mf = model_flush_row(mm, pe);
        assert forall|i: int| 0 <= i < mf.rows.len() implies row_ok(#[trigger] mf.rows[i], cfg) by {
            if i < mm.rows.len() {
                assert(mf.rows[i] == mm.rows[i]);
            } else {
                assert(mf.rows[i] == r);
            }
        }
    }
    match m.carried {
        Some(w) => {
            lemma_place_word_ok(m, w, cfg);
        },
        None => {
            if m.remaining.len() == 0 {
                lemma_items_width_nonneg(m.seg, cfg);
            } else {
                lemma_next_token_consumes(m.remaining);
                let pair = spec_next_token(m.remaining)->Some_0;
                let m2 = LayoutModel { remaining: m.remaining.skip(pair.1 as int), ..m };
                assert(state_ok(m2, cfg));
                assert(model_wf(m2, cfg));
                match pair.0 {
                    TokenModel::Word(w) => {
                        lemma_place_word_ok(m2, w, cfg);
                    },
                    TokenModel::Whitespace(n) => {
                        lemma_whitespace_ok(m2, n, cfg);
                    },
                    TokenModel::Break(ch) => {
                        match ch {
                            Some(h) => {
                                if m2.x != 0 {
                                    match spec_next_token(m2.remaining) {
                                        Some(pair2) => match pair2.0 {
                                            TokenModel::Word(w2) => {
                                                if !(m2.x + w2.len() * cw <= cfg.width) {
                                                    if m2.x + cw <= cfg.width {
                                                        lemma_items_width_push(
                                                            m2.seg,
                                                            ItemModel::Glyph(h),
                                                            cfg,
                                                        );
                                                    }
                                                }
                                            },
                                            _ => {},
                                        },
                                        None => {},
                                    }
                                }
                            },
                            None => {},
                        }
                    },
                    TokenModel::NewLine => {},
                    TokenModel::CarriageReturn => {
                        let ms = spec_step(m, cfg);
                        assert forall|i: int| 0 <= i < ms.segs.len() implies segment_ok(
                            #[trigger] ms.segs[i],
                            cfg,
                        ) by {
                            if i < m2.segs.len() {
                                assert(ms.segs[i] == m2.segs[i]);
                            } else {
                                assert(ms.segs[i] == m2.seg);
                            }
                        }
                    },
                    TokenModel::Tab => {
                        let t = cfg.tab_width as int;
                        vstd::arithmetic::mul::lemma_mul_is_distributive_add_other_way(
                            t,
                            m2.x as int / t,
                            1,
                        );
                        vstd::arithmetic::mul::lemma_mul_is_commutative(m2.x as int / t, t);
                        vstd::arithmetic::div_mod::lemma_fundamental_div_mod(m2.x as int, t);
                        vstd::arithmetic::div_mod::lemma_mod_division_less_than_divisor(
                            m2.x as int,
                            t,
                        );
                        let x2 = (m2.x as int / t + 1) * t;
                        if x2 <= cfg.width {
                            assert(x2 - m2.x >= 0);
                            lemma_items_width_push(
                                m2.seg,
                                ItemModel::Gap((x2 - m2.x) as u32),
                                cfg,
                            );
                        }
                    },
                    TokenModel::Escape => {},
                    TokenModel::ExtraCharacter(ch) => {
                        if m2.x + cw <= cfg.width {
                            lemma_items_width_push(m2.seg, ItemModel::Glyph(ch), cfg);
                        } else if m2.x == 0 {
                            lemma_items_width_push(m2.seg, ItemModel::Glyph(ch), cfg);
                        }
                    },
                }
            }
        },
    }
}

/// Width bookkeeping through `model_place_word`.
proof fn lemma_place_word_ok(m: LayoutModel, w: Seq<char>, cfg: LayoutConfig)
    requires
        cfg.wf(),
        m.x <= cfg.width,
        state_ok(m, cfg),
    ensures
        state_ok(model_place_word(m, w, cfg), cfg),
{
    let cw = cfg.char_width as int;
    let ww = w.len() * cw;
    vstd::arithmetic::mul::lemma_mul_nonnegative(w.len() as int, cw);
    if m.x + ww <= cfg.width {
        lemma_items_width_push(m.seg, ItemModel::Word(w), cfg);
    } else if m.x == 0 {
        let kfit = cfg.width as int / cw;
        let k = if kfit == 0 {
            1int
        } else {
            kfit
        };
        lemma_fit_mul(cfg.width as int, cw, kfit);
        let chunk = if k < w.len() {
            w.take(k)
        } else {
            w
        };
        assert(chunk.len() * cw <= max_row_width(cfg)) by {
            if kfit == 0 {
                assert(w.len() >= 1);
                if k < w.len() {
                    assert(chunk.len() == 1);
                } else {
                    assert(w.len() == 1);
                }
            } else {
                assert(chunk.len() <= k);
                vstd::arithmetic::mul::lemma_mul_inequality(chunk.len() as int, kfit, cw);
            }
        }
        vstd::arithmetic::mul::lemma_mul_nonnegative(chunk.len() as int, cw);
        let mid = LayoutModel { carried: if k < w.len() {
            Some(w.skip(k))
        } else {
            None
        }, ..m };
        lemma_items_width_push(mid.seg, ItemModel::Word(chunk), cfg);
        lemma_flush_ok(
            model_push(mid, ItemModel::Word(chunk), (chunk.len() * cw) as u32),
            false,
            cfg,
        );
    } else {
        lemma_flush_ok(LayoutModel { carried: Some(w), ..m }, false, cfg);
    }
}

/// Width bookkeeping through `model_whitespace`.
proof fn lemma_whitespace_ok(m: LayoutModel, n: nat, cfg: LayoutConfig)
    requires
        cfg.wf(),
        m.x <= cfg.width,
        state_ok(m, cfg),
    ensures
        state_ok(model_whitespace(m, n, cfg), cfg),
{
    let sw = cfg.space_width as int;
    if m.x == 0 {
        if cfg.alignment == HorizontalAlignment::Left {
            let maxfit = cfg.width as int / sw;
            lemma_fit_mul(cfg.width as int, sw, maxfit);
            if n <= maxfit {
                vstd::arithmetic::mul::lemma_mul_nonnegative(n as int, sw);
                vstd::arithmetic::mul::lemma_mul_inequality(n as int, maxfit, sw);
                lemma_items_width_push(m.seg, ItemModel::Spaces(n), cfg);
            } else {
                vstd::arithmetic::mul::lemma_mul_nonnegative(maxfit, sw);
                lemma_items_width_push(m.seg, ItemModel::Spaces(maxfit as nat), cfg);
                lemma_flush_ok(
                    model_push(m, ItemModel::Spaces(maxfit as nat), (maxfit * sw) as u32),
                    false,
                    cfg,
                );
            }
        }
    } else {
        let word_follows = match spec_next_token(m.remaining) {
            Some(pair) => pair.0 matches TokenModel::Word(_),
            None => false,
        };
        let fit = (cfg.width - m.x) as int / sw;
        lemma_fit_mul((cfg.width - m.x) as int, sw, fit);
        if word_follows {
            let follow_len = match spec_next_token(m.remaining) {
                Some(pair) => match pair.0 {
                    TokenModel::Word(w2) => w2.len() as int,
                    _ => 0,
                },
                None => 0,
            };
            if m.x + n * sw + follow_len * cfg.char_width <= cfg.width {
                vstd::arithmetic::mul::lemma_mul_nonnegative(n as int, sw);
                vstd::arithmetic::mul::lemma_mul_nonnegative(
                    follow_len,
                    cfg.char_width as int,
                );
                lemma_items_width_push(m.seg, ItemModel::Spaces(n), cfg);
            } else {
                let k = if n - 1 <= fit {
                    n - 1
                } else {
                    fit
                };
                if k > 0 {
                    vstd::arithmetic::mul::lemma_mul_inequality(k, fit, sw);
                    vstd::arithmetic::mul::lemma_mul_nonnegative(k, sw);
                    lemma_items_width_push(m.seg, ItemModel::Spaces(k as nat), cfg);
                    lemma_flush_ok(
                        model_push(m, ItemModel::Spaces(k as nat), (m.x + k * sw) as u32),
                        false,
                        cfg,
                    );
                } else {
                    lemma_flush_ok(m, false, cfg);
                }
            }
        } else {
            if m.x + n * sw <= cfg.width {
                vstd::arithmetic::mul::lemma_mul_nonnegative(n as int, sw);
                lemma_items_width_push(m.seg, ItemModel::Spaces(n), cfg);
            } else {
                if fit > 0 {
                    vstd::arithmetic::mul::lemma_mul_inequality(fit, fit, sw);
                    vstd::arithmetic::mul::lemma_mul_nonnegative(fit, sw);
                    lemma_items_width_push(m.seg, ItemModel::Spaces(fit as nat), cfg);
                    lemma_flush_ok(
                        model_push(m, ItemModel::Spaces(fit as nat), (m.x + fit * sw) as u32),
                        false,
                        cfg,
                    );
                } else {
                    lemma_flush_ok(m, false, cfg);
                }
            }
        }
    }
}

/// Width bookkeeping through `model_flush_row`.
proof fn lemma_flush_ok(m: LayoutModel, pe: bool, cfg: LayoutConfig)
    requires
        cfg.wf(),
        state_ok(m, cfg),
        m.x <= max_row_width(cfg),
    ensures
        state_ok(model_flush_row(m, pe), cfg),
{
    let r = RowModel { segments: m.segs.push(m.seg), para_end: pe };
    lemma_items_width_nonneg(m.seg, cfg);
    assert forall|i: int| 0 <= i < r.segments.len() implies segment_ok(
        #[trigger] r.segments[i],
        cfg,
    ) by {
        if i < m.segs.len() {
            assert(r.segments[i] == m.segs[i]);
        } else {
            assert(r.segments[i] == m.seg);
        }
    }
    let mf = model_flush_row(m, pe);
    assert forall|i: int| 0 <= i < mf.rows.len() implies row_ok(#[trigger] mf.rows[i], cfg) by {
        if i < m.rows.len() {
            assert(mf.rows[i] == m.rows[i]);
        } else {
            assert(mf.rows[i] == r);
        }
    }
}

/// The bookkeeping holds for the whole run.
pub proof fn lemma_run_ok(m: LayoutModel, cfg: LayoutConfig)
    requires
        cfg.wf(),
        model_wf(m, cfg),
        state_ok(m, cfg),
    ensures
        state_ok(spec_run(m, cfg), cfg),
    decreases spec_measure(m),
        (if m.done {
            0int
        } else {
            1int
        }),
{
    if !m.done {
        lemma_step_progress(m, cfg);
        lemma_step_wf(m, cfg);
        lemma_step_ok(m, cfg);
        lemma_run_ok(spec_step(m, cfg), cfg);
    }
}

/// Wrap containment at the item level: every segment the engine produces
/// fits the row, except that a row may hold a single glyph wider than the
/// whole box.
pub proof fn lemma_layout_rows_ok(text: Seq<char>, cfg: LayoutConfig)
    requires
        cfg.wf(),
    ensures
        forall|i: int| 0 <= i < spec_layout(text, cfg).len() ==> row_ok(
            #[trigger] spec_layout(text, cfg)[i],
            cfg,
        ),
{
    lemma_run_ok(init_model(text), cfg);
}

/// Push distributes over the item view map.
proof fn lemma_items_push(s: Seq<Item>, it: Item)
    ensures
        items_model(s.push(it)) == items_model(s).push(it@),
{
    assert(items_model(s.push(it)) =~= items_model(s).push(it@));
}

/// Push distributes over the segment view map.
proof fn lemma_segments_push(s: Seq<Segment>, sg: Segment)
    ensures
        segments_model(s.push(sg)) == segments_model(s).push(sg@),
{
    assert(segments_model(s.push(sg)) =~= segments_model(s).push(sg@));
}

/// Push distributes over the row view map.
proof fn lemma_rows_push(s: Seq<Row>, r: Row)
    ensures
        rows_model(s.push(r)) == rows_model(s).push(r@),
{
    assert(rows_model(s.push(r)) =~= rows_model(s).push(r@));
}

/// Whether `x + count * unit <= limit`, computed without overflow.
fn fits_one(x: u32, count: usize, unit: u32, limit: u32) -> (r: bool)
    ensures
        r == (x + count * unit <= limit),
{
    if x > limit {
        return false;
    }
    let budget: u64 = (limit - x) as u64;
    match (count as u64).checked_mul(unit as u64) {
        Some(p) => p <= budget,
        None => false,
    }
}

/// Whether `x + c1 * u1 + c2 * u2 <= limit`, computed without overflow.
fn fits_two(x: u32, c1: usize, u1: u32, c2: usize, u2: u32, limit: u32) -> (r: bool)
    ensures
        r == (x + c1 * u1 + c2 * u2 <= limit),
{
    if x > limit {
        return false;
    }
    let budget: u64 = (limit - x) as u64;
    let p1 = match (c1 as u64).checked_mul(u1 as u64) {
        Some(p) => p,
        None => {
            return false;
        },
    };
    if p1 > budget {
        return false;
    }
    let p2 = match (c2 as u64).checked_mul(u2 as u64) {
        Some(p) => p,
        None => {
            return false;
        },
    };
    p2 <= budget - p1
}

/// The line breaker: an exec step machine over a parser, a carried word and
/// the rows built so far. Its view is a [`LayoutModel`], and each step is
/// proved equal to [`spec_step`].
pub struct Layouter<'a> {
    parser: Parser<'a>,
    carried: Option<&'a [char]>,
    x: u32,
    seg: Vec<Item<'a>>,
    segs: Vec<Segment<'a>>,
    rows: Vec<Row<'a>>,
    done: bool,
}

impl<'a> View for Layouter<'a> {
    type V = LayoutModel;

    closed spec fn view(&self) -> LayoutModel {
        LayoutModel {
            remaining: self.parser@,
            carried: match self.carried {
                Some(w) => Some(w@),
                None => None,
            },
            x: self.x,
            seg: items_model(self.seg@),
            segs: segments_model(self.segs@),
            rows: rows_model(self.rows@),
            done: self.done,
        }
    }
}

impl<'a> Layouter<'a> {
    /// The parser position is valid.
    pub closed spec fn wf(&self) -> bool {
        self.parser.wf()
    }

    /// Starts the line breaker at the beginning of the text.
    pub fn new(text: &'a [char]) -> (l: Layouter<'a>)
        ensures
            l.wf(),
            l@ == init_model(text@),
    {
        let l = Layouter {
            parser: Parser::parse(text),
            carried: None,
            x: 0,
            seg: Vec::new(),
            segs: Vec::new(),
            rows: Vec::new(),
            done: false,
        };
        proof {
            assert(items_model(Seq::<Item>::empty()) =~= Seq::<ItemModel>::empty());
            assert(segments_model(Seq::<Segment>::empty()) =~= Seq::<Seq<ItemModel>>::empty());
            assert(rows_model(Seq::<Row>::empty()) =~= Seq::<RowModel>::empty());
            assert(l@ =~~= init_model(text@));
        }
        l
    }

    /// Ends the current row.
    fn flush_row(&mut self, para_end: bool)
        requires
            old(self).wf(),
        ensures
            final(self).wf(),
            final(self)@ == model_flush_row(old(self)@, para_end),
    {
        let mut seg: Vec<Item<'a>> = Vec::new();
        core::mem::swap(&mut seg, &mut self.seg);
        let mut segs: Vec<Segment<'a>> = Vec::new();
        core::mem::swap(&mut segs, &mut self.segs);
        proof {
            lemma_segments_push(segs@, Segment { items: seg });
        }
        segs.push(Segment { items: seg });
        proof {
            lemma_rows_push(self.rows@, Row { segments: segs, para_end });
        }
        self.rows.push(Row { segments: segs, para_end });
        self.x = 0;
        proof {
            assert(items_model(Seq::<Item>::empty()) =~= Seq::<ItemModel>::empty());
            assert(segments_model(Seq::<Segment>::empty()) =~= Seq::<Seq<ItemModel>>::empty());
            assert(self@ =~~= model_flush_row(old(self)@, para_end));
        }
    }

    /// Appends an item and moves the position.
    fn push_item(&mut self, it: Item<'a>, new_x: u32)
        requires
            old(self).wf(),
        ensures
            final(self).wf(),
            final(self)@ == model_push(old(self)@, it@, new_x),
    {
        proof {
            lemma_items_push(self.seg@, it);
        }
        self.seg.push(it);
        self.x = new_x;
        proof {
            assert(self@ =~~= model_push(old(self)@, it@, new_x));
        }
    }

    /// Places a word or carries it to the next row.
    fn place_word(&mut self, w: &'a [char], cfg: &LayoutConfig)
        requires
            old(self).wf(),
            cfg.wf(),
            old(self)@.x <= cfg.width,
        ensures
            final(self).wf(),
            final(self)@ == model_place_word(old(self)@, w@, *cfg),
    {
        let wlen = w.len();
        if fits_one(self.x, wlen, cfg.char_width, cfg.width) {
            self.carried = None;
            let ghost mid = LayoutModel { carried: None, ..old(self)@ };
            proof {
                assert(self@ =~~= mid);
            }
            let new_x = ((self.x as u64) + (wlen as u64) * (cfg.char_width as u64)) as u32;
            self.push_item(Item::Word(w), new_x);
        } else if self.x == 0 {
            let kfit = (cfg.width / cfg.char_width) as usize;
            let k: usize = if kfit == 0 {
                1
            } else {
                kfit
            };
            proof {
                lemma_fit_mul(cfg.width as int, cfg.char_width as int, kfit as int);
            }
            if k < wlen {
                let chunk = slice_subrange(w, 0, k);
                let rest = slice_subrange(w, k, wlen);
                self.carried = Some(rest);
                let ghost mid = LayoutModel { carried: Some(w@.skip(k as int)), ..old(self)@ };
                proof {
                    assert(rest@ =~= w@.skip(k as int));
                    assert(chunk@ =~= w@.take(k as int));
                    assert(self@ =~~= mid);
                }
                let new_x = (k as u32) * cfg.char_width;
                self.push_item(Item::Word(chunk), new_x);
                self.flush_row(false);
            } else {
                self.carried = None;
                let ghost mid = LayoutModel { carried: None, ..old(self)@ };
                proof {
                    assert(self@ =~~= mid);
                    if kfit >= 1 {
                        vstd::arithmetic::mul::lemma_mul_inequality(
                            wlen as int,
                            kfit as int,
                            cfg.char_width as int,
                        );
                    } else {
                        assert(wlen == 1);
                    }
                }
                let new_x = (wlen as u32) * cfg.char_width;
                self.push_item(Item::Word(w), new_x);
                self.flush_row(false);
            }
        } else {
            self.carried = Some(w);
            let ghost mid = LayoutModel { carried: Some(w@), ..old(self)@ };
            proof {
                assert(self@ =~~= mid);
            }
            self.flush_row(false);
        }
    }

    /// Handles a whitespace run of `n` counted spaces.
    fn whitespace(&mut self, n: usize, cfg: &LayoutConfig)
        requires
            old(self).wf(),
            cfg.wf(),
            old(self)@.x <= cfg.width,
        ensures
            final(self).wf(),
            final(self)@ == model_whitespace(old(self)@, n as nat, *cfg),
    {
        if self.x == 0 {
            if cfg.alignment == HorizontalAlignment::Left {
                let maxfit = (cfg.width / cfg.space_width) as usize;
                proof {
                    lemma_fit_mul(cfg.width as int, cfg.space_width as int, maxfit as int);
                    if n <= maxfit {
                        vstd::arithmetic::mul::lemma_mul_inequality(
                            n as int,
                            maxfit as int,
                            cfg.space_width as int,
                        );
                    }
                }
                if n <= maxfit {
                    let new_x = (n as u32) * cfg.space_width;
                    self.push_item(Item::Spaces(n), new_x);
                } else {
                    let new_x = (maxfit as u32) * cfg.space_width;
                    self.push_item(Item::Spaces(maxfit), new_x);
                    self.flush_row(false);
                }
            }
        } else {
            let next = self.parser.peek_token();
            let is_word: bool = match next {
                Some(Token::Word(_)) => true,
                _ => false,
            };
            if is_word {
                let w2 = match next {
                    Some(Token::Word(w2)) => w2,
                    _ => &[],
                };
                if fits_two(self.x, n, cfg.space_width, w2.len(), cfg.char_width, cfg.width) {
                    let new_x = ((self.x as u64) + (n as u64) * (cfg.space_width as u64)) as u32;
                    self.push_item(Item::Spaces(n), new_x);
                } else {
                    let fit = ((cfg.width - self.x) / cfg.space_width) as usize;
                    proof {
                        lemma_fit_mul(
                            (cfg.width - self.x) as int,
                            cfg.space_width as int,
                            fit as int,
                        );
                    }
                    let k: usize = if n == 0 {
                        0
                    } else if n - 1 <= fit {
                        n - 1
                    } else {
                        fit
                    };
                    if k > 0 {
                        proof {
                            vstd::arithmetic::mul::lemma_mul_inequality(
                                k as int,
                                fit as int,
                                cfg.space_width as int,
                            );
                        }
                        let new_x = self.x + (k as u32) * cfg.space_width;
                        self.push_item(Item::Spaces(k), new_x);
                    }
                    self.flush_row(false);
                }
            } else {
                if fits_one(self.x, n, cfg.space_width, cfg.width) {
                    let new_x = ((self.x as u64) + (n as u64) * (cfg.space_width as u64)) as u32;
                    self.push_item(Item::Spaces(n), new_x);
                } else {
                    let fit = ((cfg.width - self.x) / cfg.space_width) as usize;
                    proof {
                        lemma_fit_mul(
                            (cfg.width - self.x) as int,
                            cfg.space_width as int,
                            fit as int,
                        );
                    }
                    if fit > 0 {
                        let new_x = self.x + (fit as u32) * cfg.space_width;
                        self.push_item(Item::Spaces(fit), new_x);
                    }
                    self.flush_row(false);
                }
            }
        }
    }

    /// Handles a wrap opportunity.
    fn wrap_break(&mut self, ch: Option<char>, cfg: &LayoutConfig)
        requires
            old(self).wf(),
            cfg.wf(),
            old(self)@.x <= cfg.width,
        ensures
            final(self).wf(),
            final(self)@ == model_break(old(self)@, ch, *cfg),
    {
        if self.x == 0 {
            return;
        }
        let next = self.parser.peek_token();
        match next {
            Some(Token::Word(w2)) => {
                if fits_one(self.x, w2.len(), cfg.char_width, cfg.width) {
                    return;
                }
                match ch {
                    Some(h) => {
                        if cfg.char_width <= cfg.width - self.x {
                            let new_x = self.x + cfg.char_width;
                            self.push_item(Item::Glyph(h), new_x);
                        }
                    },
                    None => {},
                }
                self.flush_row(false);
            },
            _ => {},
        }
    }

    /// Advances to the next tab stop.
    fn tab(&mut self, cfg: &LayoutConfig)
        requires
            old(self).wf(),
            cfg.wf(),
            old(self)@.x <= cfg.width,
        ensures
            final(self).wf(),
            final(self)@ == model_tab(old(self)@, *cfg),
    {
        let q = self.x / cfg.tab_width;
        proof {
            vstd::arithmetic::mul::lemma_mul_upper_bound(
                q as int + 1,
                0x1_0000_0000,
                cfg.tab_width as int,
                0xffff_ffff,
            );
            vstd::arithmetic::div_mod::lemma_fundamental_div_mod(
                self.x as int,
                cfg.tab_width as int,
            );
            vstd::arithmetic::div_mod::lemma_mod_division_less_than_divisor(
                self.x as int,
                cfg.tab_width as int,
            );
        }
        proof {
            vstd::arithmetic::mul::lemma_mul_is_distributive_add_other_way(
                cfg.tab_width as int,
                q as int,
                1,
            );
            vstd::arithmetic::mul::lemma_mul_is_commutative(q as int, cfg.tab_width as int);
        }
        let x2: u64 = (q as u64 + 1) * (cfg.tab_width as u64);
        if x2 <= cfg.width as u64 {
            let new_x = x2 as u32;
            self.push_item(Item::Gap(new_x - self.x), new_x);
        } else {
            self.flush_row(false);
        }
    }

    /// Places a single carried character.
    fn extra(&mut self, ch: char, cfg: &LayoutConfig)
        requires
            old(self).wf(),
            cfg.wf(),
            old(self)@.x <= cfg.width,
        ensures
            final(self).wf(),
            final(self)@ == model_extra(old(self)@, ch, *cfg),
    {
        if cfg.char_width <= cfg.width - self.x {
            let new_x = self.x + cfg.char_width;
            self.push_item(Item::Glyph(ch), new_x);
        } else if self.x == 0 {
            self.push_item(Item::Glyph(ch), cfg.char_width);
            self.flush_row(false);
        } else {
            self.flush_row(false);
        }
    }

    /// Ends layout, flushing a last non-empty row.
    fn finish(&mut self)
        requires
            old(self).wf(),
        ensures
            final(self).wf(),
            final(self)@ == model_finish(old(self)@),
    {
        if self.seg.len() > 0 || self.segs.len() > 0 {
            self.flush_row(true);
        }
        self.done = true;
        proof {
            assert(self@ =~~= model_finish(old(self)@));
        }
    }

    /// One step of the machine.
    fn step(&mut self, cfg: &LayoutConfig)
        requires
            old(self).wf(),
            cfg.wf(),
            model_wf(old(self)@, *cfg),
            !old(self)@.done,
        ensures
            final(self).wf(),
            final(self)@ == spec_step(old(self)@, *cfg),
    {
        let ghost m0 = self@;
        match self.carried {
            Some(w) => {
                self.place_word(w, cfg);
            },
            None => {
                let tok = self.parser.next_token();
                proof {
                    if m0.remaining.len() > 0 {
                        lemma_next_token_consumes(m0.remaining);
                        let pair = spec_next_token(m0.remaining)->Some_0;
                        assert(self@ =~~= LayoutModel {
                            remaining: m0.remaining.skip(pair.1 as int),
                            ..m0
                        });
                    }
                }
                match tok {
                    None => {
                        self.finish();
                    },
                    Some(Token::Word(w)) => {
                        self.place_word(w, cfg);
                    },
                    Some(Token::Whitespace(n)) => {
                        self.whitespace(n, cfg);
                    },
                    Some(Token::Break(ch)) => {
                        self.wrap_break(ch, cfg);
                    },
                    Some(Token::NewLine) => {
                        self.flush_row(true);
                    },
                    Some(Token::CarriageReturn) => {
                        let mut seg: Vec<Item<'a>> = Vec::new();
                        core::mem::swap(&mut seg, &mut self.seg);
                        proof {
                            lemma_segments_push(self.segs@, Segment { items: seg });
                        }
                        self.segs.push(Segment { items: seg });
                        self.x = 0;
                        proof {
                            assert(items_model(Seq::<Item>::empty())
                                =~= Seq::<ItemModel>::empty());
                            assert(self@ =~~= spec_step(m0, *cfg));
                        }
                    },
                    Some(Token::Tab) => {
                        self.tab(cfg);
                    },
                    Some(Token::Escape) => {
                    },
                    Some(Token::ExtraCharacter(ch)) => {
                        self.extra(ch, cfg);
                    },
                }
            },
        }
    }

    /// Runs the machine to completion.
    fn run(&mut self, cfg: &LayoutConfig)
        requires
            old(self).wf(),
            cfg.wf(),
            model_wf(old(self)@, *cfg),
        ensures
            final(self).wf(),
            final(self)@ == spec_run(old(self)@, *cfg),
    {
        while !self.done
            invariant
                self.wf(),
                cfg.wf(),
                model_wf(self@, *cfg),
                self.done == self@.done,
                spec_run(self@, *cfg) == spec_run(old(self)@, *cfg),
            decreases
                    spec_measure(self@),
                    (if self@.done {
                        0int
                    } else {
                        1int
                    }),
        {
            proof {
                lemma_step_progress(self@, *cfg);
                lemma_step_wf(self@, *cfg);
            }
            let ghost pre = self@;
            self.step(cfg);
            proof {
                assert(spec_run(pre, *cfg) == spec_run(self@, *cfg));
            }
        }
    }

    /// Hands out the finished rows.
    fn into_rows(self) -> (rows: Vec<Row<'a>>)
        ensures
            rows_model(rows@) == self@.rows,
    {
        let Layouter { rows, .. } = self;
        rows
    }
}

/// Breaks a text into rows: the verified entry point of the line breaker.
pub fn break_rows<'a>(text: &'a [char], cfg: &LayoutConfig) -> (rows: Vec<Row<'a>>)
    requires
        cfg.wf(),
    ensures
        rows_model(rows@) == spec_layout(text@, *cfg),
{
    let mut l = Layouter::new(text);
    l.run(cfg);
    l.into_rows()
}

} // verus!
