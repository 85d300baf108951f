//! Turning rows of items into placed elements and pixels.
//!
//! The first stage, [`finalize_segment`], fixes the column of every glyph
//! and space of a segment: it strips edge spaces for the alignments that
//! drop them, computes the alignment offset, and for justified rows widens
//! the inter-word gaps so the row spans the interior width exactly, giving
//! the remainder pixels to the earliest gaps.

use vstd::prelude::*;
use crate::alignment::HorizontalAlignment;
use crate::layout::{
    Item, ItemModel, LayoutConfig, Segment, item_width, items_width, items_model,
};

verus! {

/// A placed element of one row: a glyph cell or a background-filled gap,
/// at a column relative to the box's left edge.
#[derive(Clone, Copy, Debug, PartialEq, Eq, Structural)]
#[verifier::ext_equal]
pub enum RowElement {
    /// One glyph cell.
    Glyph {
        /// The character of the cell.
        ch: char,
        /// The column of the cell's left edge.
        x: u32,
    },
    /// A horizontal run filled with the background color.
    Space {
        /// The column of the run's left edge.
        x: u32,
        /// The width of the run.
        width: u32,
    },
}

/// The column just right of an element.
pub open spec fn element_right(el: RowElement, cfg: LayoutConfig) -> int {
    match el {
        RowElement::Glyph { ch, x } => x + cfg.char_width,
        RowElement::Space { x, width } => x + width,
    }
}

/// The left column of an element.
pub open spec fn element_left(el: RowElement) -> int {
    match el {
        RowElement::Glyph { ch, x } => x as int,
        RowElement::Space { x, width } => x as int,
    }
}

/// Items with the leading spaces removed.
pub open spec fn strip_front(items: Seq<ItemModel>) -> Seq<ItemModel>
    decreases items.len(),
{
    if items.len() > 0 && items[0] is Spaces {
        strip_front(items.drop_first())
    } else {
        items
    }
}

/// Items with the trailing spaces removed.
pub open spec fn strip_back(items: Seq<ItemModel>) -> Seq<ItemModel>
    decreases items.len(),
{
    if items.len() > 0 && items.last() is Spaces {
        strip_back(items.drop_last())
    } else {
        items
    }
}

/// Items with both edge space runs removed.
pub open spec fn strip_spaces(items: Seq<ItemModel>) -> Seq<ItemModel> {
    strip_back(strip_front(items))
}

/// Number of space items from index `i` on.
pub open spec fn count_spaces_from(items: Seq<ItemModel>, i: int) -> nat
    decreases items.len() - i,
{
    if i < 0 || i >= items.len() {
        0
    } else {
        (if items[i] is Spaces {
            1nat
        } else {
            0nat
        }) + count_spaces_from(items, i + 1)
    }
}

/// Number of space items: the stretchable gaps of a justified row.
pub open spec fn count_spaces(items: Seq<ItemModel>) -> nat {
    count_spaces_from(items, 0)
}

/// The widening of gap `j` of a justified row: the slack divided evenly,
/// with one extra pixel for each of the earliest `slack % gaps` gaps.
pub open spec fn gap_extra(j: nat, slack: int, gaps: nat) -> int {
    slack / (gaps as int) + if (j as int) < slack % (gaps as int) {
        1int
    } else {
        0int
    }
}

/// Total widening of gaps `from` (inclusive) to `upto` (exclusive).
pub open spec fn extras(from: nat, upto: nat, slack: int, gaps: nat) -> int
    decreases upto - from,
{
    if from >= upto {
        0
    } else {
        gap_extra(from, slack, gaps) + extras((from + 1) as nat, upto, slack, gaps)
    }
}

/// The glyph cell of character `k` of a word that starts at column `x0`.
pub open spec fn word_glyph(w: Seq<char>, x0: int, cw: int, k: int) -> RowElement {
    RowElement::Glyph { ch: w[k], x: (x0 + k * cw) as u32 }
}

/// The elements of the characters of `w`: one glyph cell every character
/// width, starting at column `x0`.
pub open spec fn word_elements(w: Seq<char>, x0: int, cw: int) -> Seq<RowElement> {
    Seq::new(w.len(), |k: int| word_glyph(w, x0, cw, k))
}

/// The placed elements of the items from index `i` on, starting at column
/// `x`, with `j` gaps already widened. `jp` carries the slack and gap count
/// of an actively justified row, or nothing.
pub open spec fn spec_elements(
    items: Seq<ItemModel>,
    i: int,
    x: int,
    jp: Option<(int, nat)>,
    j: nat,
    cfg: LayoutConfig,
) -> Seq<RowElement>
    decreases items.len() - i,
{
    if i < 0 || i >= items.len() {
        Seq::empty()
    } else {
        match items[i] {
            ItemModel::Word(w) => word_elements(w, x, cfg.char_width as int) + spec_elements(
                items,
                i + 1,
                x + w.len() * cfg.char_width,
                jp,
                j,
                cfg,
            ),
            ItemModel::Spaces(n) => {
                let gw = n * cfg.space_width + match jp {
                    Some(p) => gap_extra(j, p.0, p.1),
                    None => 0int,
                };
                seq![RowElement::Space { x: x as u32, width: gw as u32 }] + spec_elements(
                    items,
                    i + 1,
                    x + gw,
                    jp,
                    (j + 1) as nat,
                    cfg,
                )
            },
            ItemModel::Glyph(c) => seq![RowElement::Glyph { ch: c, x: x as u32 }]
                + spec_elements(items, i + 1, x + cfg.char_width, jp, j, cfg),
            ItemModel::Gap(g) => spec_elements(items, i + 1, x + g, jp, j, cfg),
        }
    }
}

/// The alignment offset: where the stripped items of a segment start.
pub open spec fn spec_offset(alignment: HorizontalAlignment, nw: int, width: int) -> int {
    match alignment {
        HorizontalAlignment::Left => 0,
        HorizontalAlignment::Right => if nw <= width {
            width - nw
        } else {
            0
        },
        HorizontalAlignment::Center => if nw <= width {
            (width - nw) / 2
        } else {
            0
        },
        HorizontalAlignment::Justified => 0,
    }
}

/// Whether a justified segment actively stretches its gaps: it must not end
/// its paragraph and must have a gap and room to stretch into.
pub open spec fn spec_justify_active(
    items: Seq<ItemModel>,
    para_end: bool,
    cfg: LayoutConfig,
) -> bool {
    cfg.alignment == HorizontalAlignment::Justified && !para_end && count_spaces(items) > 0
        && items_width(items, cfg) <= cfg.width
}

/// The placed elements of one segment of a row: edge spaces are stripped
/// unless the row is left-aligned, the remaining items start at the
/// alignment offset, and a justified row that does not end its paragraph
/// has its gaps widened by the slack.
pub open spec fn spec_finalize_segment(
    items: Seq<ItemModel>,
    para_end: bool,
    cfg: LayoutConfig,
) -> Seq<RowElement> {
    if cfg.alignment == HorizontalAlignment::Left {
        spec_elements(items, 0, 0, None, 0, cfg)
    } else {
        let its = strip_spaces(items);
        let nw = items_width(its, cfg);
        if spec_justify_active(its, para_end, cfg) {
            spec_elements(its, 0, 0, Some((cfg.width - nw, count_spaces(its))), 0, cfg)
        } else {
            spec_elements(its, 0, spec_offset(cfg.alignment, nw, cfg.width as int), None, 0, cfg)
        }
    }
}


/// Splitting a run splits its width.
pub proof fn lemma_items_width_split(s: Seq<ItemModel>, i: int, cfg: LayoutConfig)
    requires
        0 <= i <= s.len(),
    ensures
        items_width(s, cfg) == items_width(s.take(i), cfg) + items_width(s.skip(i), cfg),
    decreases i,
{
    if i == 0 {
        assert(s.take(0).len() == 0);
        assert(s.skip(0) =~= s);
    } else {
        assert(s.len() > 0);
        lemma_items_width_split(s.drop_first(), i - 1, cfg);
        assert(s.take(i)[0] == s[0]);
        assert(s.take(i).drop_first() =~= s.drop_first().take(i - 1));
        assert(s.skip(i) =~= s.drop_first().skip(i - 1));
    }
}

/// The prefix characterization of `strip_front`.
pub proof fn lemma_strip_front_is(s: Seq<ItemModel>, lo: int)
    requires
        0 <= lo <= s.len(),
        forall|i: int| 0 <= i < lo ==> s[i] is Spaces,
        lo == s.len() || !(s[lo] is Spaces),
    ensures
        strip_front(s) == s.skip(lo),
    decreases lo,
{
    if lo == 0 {
        assert(s.skip(0) =~= s);
    } else {
        let t = s.drop_first();
        assert(forall|i: int| 0 <= i < lo - 1 ==> t[i] == s[i + 1]);
        lemma_strip_front_is(t, lo - 1);
        assert(t.skip(lo - 1) =~= s.skip(lo));
    }
}

/// The suffix characterization of `strip_back`.
pub proof fn lemma_strip_back_is(s: Seq<ItemModel>, hi: int)
    requires
        0 <= hi <= s.len(),
        forall|i: int| hi <= i < s.len() ==> s[i] is Spaces,
        hi == 0 || !(s[hi - 1] is Spaces),
    ensures
        strip_back(s) == s.take(hi),
    decreases s.len() - hi,
{
    if hi == s.len() {
        assert(s.take(hi) =~= s);
    } else {
        let t = s.drop_last();
        assert(forall|i: int| hi <= i < t.len() ==> t[i] == s[i]);
        lemma_strip_back_is(t, hi);
        assert(t.take(hi) =~= s.take(hi));
    }
}


/// Gap widenings are never negative.
pub proof fn lemma_extras_nonneg(from: nat, upto: nat, slack: int, gaps: nat)
    requires
        slack >= 0,
        gaps >= 1,
    ensures
        extras(from, upto, slack, gaps) >= 0,
    decreases upto - from,
{
    if from < upto {
        vstd::arithmetic::div_mod::lemma_div_pos_is_pos(slack, gaps as int);
        lemma_extras_nonneg((from + 1) as nat, upto, slack, gaps);
    }
}

/// Closed form of the widening left from gap `j` on.
proof fn lemma_extras_partial(j: nat, slack: int, gaps: nat)
    requires
        slack >= 0,
        gaps >= 1,
        j <= gaps,
    ensures
        extras(j, gaps, slack, gaps) == (gaps - j) * (slack / (gaps as int)) + (if (j as int)
            < slack % (gaps as int) {
            slack % (gaps as int) - j
        } else {
            0int
        }),
    decreases gaps - j,
{
    let g = gaps as int;
    let q = slack / g;
    let r = slack % g;
    vstd::arithmetic::div_mod::lemma_mod_division_less_than_divisor(slack, g);
    if j == gaps {
        assert(extras(j, gaps, slack, gaps) == 0);
        assert((gaps - j) * q == 0) by {
            vstd::arithmetic::mul::lemma_mul_by_zero_is_zero(q);
        }
    } else {
        lemma_extras_partial((j + 1) as nat, slack, gaps);
        assert((g - j) * q == (g - j - 1) * q + q) by {
            vstd::arithmetic::mul::lemma_mul_is_distributive_add_other_way(q, g - j - 1, 1);
            vstd::arithmetic::mul::lemma_mul_is_commutative(g - j - 1, q);
            vstd::arithmetic::mul::lemma_mul_is_commutative(g - j, q);
            vstd::arithmetic::mul::lemma_mul_basics_3(q);
        }
    }
}

/// Justification exactness, arithmetic core: distributing the slack over
/// all gaps, remainder to the earliest gaps first, hands out exactly the
/// slack.
pub proof fn lemma_extras_total(slack: int, gaps: nat)
    requires
        slack >= 0,
        gaps >= 1,
    ensures
        extras(0, gaps, slack, gaps) == slack,
{
    let g = gaps as int;
    lemma_extras_partial(0, slack, gaps);
    vstd::arithmetic::div_mod::lemma_fundamental_div_mod(slack, g);
    vstd::arithmetic::div_mod::lemma_mod_division_less_than_divisor(slack, g);
    vstd::arithmetic::mul::lemma_mul_is_commutative(g, slack / g);
}

/// The width of one item, computed exactly.
fn item_width_exec(it: &Item, cfg: &LayoutConfig) -> (r: u64)
    requires
        item_width(it@, *cfg) <= u32::MAX,
    ensures
        r == item_width(it@, *cfg),
{
    match it {
        Item::Word(w) => {
            match (w.len() as u64).checked_mul(cfg.char_width as u64) {
                Some(p) => p,
                None => {
                    proof {
                        assert(false);
                    }
                    0
                },
            }
        },
        Item::Spaces(n) => {
            match (*n as u64).checked_mul(cfg.space_width as u64) {
                Some(p) => p,
                None => {
                    proof {
                        assert(false);
                    }
                    0
                },
            }
        },
        Item::Glyph(_) => cfg.char_width as u64,
        Item::Gap(g) => *g as u64,
    }
}

/// Emits the glyph cells of one word starting at column `x`.
#[verifier::loop_isolation(false)]
fn emit_word(out: &mut Vec<RowElement>, w: &[char], x: u64, cfg: &LayoutConfig) -> (nx: u64)
    requires
        cfg.wf(),
        0 <= x,
        x + w@.len() * cfg.char_width <= u32::MAX,
    ensures
        nx == x + w@.len() * cfg.char_width,
        final(out)@ == old(out)@ + word_elements(w@, x as int, cfg.char_width as int),
{
    let wlen = w.len();
    let cw = cfg.char_width;
    let ghost we = word_elements(w@, x as int, cw as int);
    let mut k: usize = 0;
    let mut xc: u64 = x;
    proof {
        vstd::arithmetic::mul::lemma_mul_by_zero_is_zero(cw as int);
        assert(out@ =~= old(out)@ + we.take(0));
    }
    while k < wlen
        invariant
            0 <= k <= wlen,
            xc as int == x + k as int * cw as int,
            out@ == old(out)@ + we.take(k as int),
        decreases wlen - k,
    {
        proof {
            vstd::arithmetic::mul::lemma_mul_inequality(k as int + 1, wlen as int, cw as int);
            vstd::arithmetic::mul::lemma_mul_is_distributive_add_other_way(
                cw as int,
                k as int,
                1,
            );
            vstd::arithmetic::mul::lemma_mul_is_commutative(k as int, cw as int);
            vstd::arithmetic::mul::lemma_mul_is_commutative(k as int + 1, cw as int);
            vstd::arithmetic::mul::lemma_mul_nonnegative(k as int, cw as int);
            assert(we[k as int] == word_glyph(w@, x as int, cw as int, k as int));
            assert(we[k as int] == RowElement::Glyph {
                ch: w@[k as int],
                x: (x + k as int * cw as int) as u32,
            });
        }
        out.push(RowElement::Glyph { ch: w[k], x: xc as u32 });
        xc = xc + cw as u64;
        k = k + 1;
        proof {
            assert(we.take(k as int) =~= we.take(k as int - 1).push(we[k as int - 1]));
            assert(out@ =~= old(out)@ + we.take(k as int));
        }
    }
    proof {
        assert(we.take(wlen as int) =~= we);
        vstd::arithmetic::mul::lemma_mul_is_commutative(wlen as int, cw as int);
    }
    xc
}

/// Emits the placed elements of the item range `lo..hi`, starting at the
/// offset, widening gaps by the justification parameters when active.
#[verifier::loop_isolation(false)]
#[verifier::rlimit(60)]
fn emit_elements(
    items: &Vec<Item>,
    lo: usize,
    hi: usize,
    off: u64,
    justify: bool,
    slack: u64,
    gaps: usize,
    cfg: &LayoutConfig,
) -> (out: Vec<RowElement>)
    requires
        cfg.wf(),
        lo <= hi <= items@.len(),
        off + items_width(items_model(items@).subrange(lo as int, hi as int), *cfg) + (if justify {
            slack as int
        } else {
            0int
        }) <= u32::MAX,
        0 <= items_width(items_model(items@).subrange(lo as int, hi as int), *cfg),
        justify ==> gaps as nat == count_spaces(
            items_model(items@).subrange(lo as int, hi as int),
        ) && gaps >= 1,
    ensures
        out@ == spec_elements(
            items_model(items@).subrange(lo as int, hi as int),
            0,
            off as int,
            if justify {
                Some((slack as int, gaps as nat))
            } else {
                None
            },
            0,
            *cfg,
        ),
{
    let ghost its = items_model(items@).subrange(lo as int, hi as int);
    let ghost jp: Option<(int, nat)> = if justify {
        Some((slack as int, gaps as nat))
    } else {
        None
    };
    let ghost x0 = off as int;
    let ghost total_w = items_width(its, *cfg);
    let ghost total_extra: int = if justify {
        slack as int
    } else {
        0int
    };
    proof {
        if justify {
            lemma_extras_total(slack as int, gaps as nat);
        }
        assert(its.skip(0) =~= its);
    }
    let mut out: Vec<RowElement> = Vec::new();
    let mut x: u64 = off;
    let mut j: usize = 0;
    let mut i: usize = lo;
    while i < hi
        invariant
            lo <= i <= hi,
            j + count_spaces_from(its, i - lo) == count_spaces(its),
            j <= i - lo,
            x as int + items_width(its.skip(i - lo), *cfg) + (if justify {
                extras(j as nat, gaps as nat, slack as int, gaps as nat)
            } else {
                0int
            }) == x0 + total_w + total_extra,
            out@ + spec_elements(its, i - lo, x as int, jp, j as nat, *cfg) == spec_elements(
                its,
                0,
                x0,
                jp,
                0,
                *cfg,
            ),
        decreases hi - i,
    {
        let ghost ii = i - lo;
        let ghost x_pre = x as int;
        proof {
            let s = its.skip(ii);
            assert(s[0] == its[ii]);
            assert(its[ii] == items_model(items@)[i as int]);
            assert(s.drop_first() =~= its.skip(ii + 1));
            crate::layout::lemma_items_width_nonneg(its.skip(ii + 1), *cfg);
            if justify {
                lemma_extras_nonneg(j as nat, gaps as nat, slack as int, gaps as nat);
            }
        }
        match items[i] {
            Item::Word(w) => {
                proof {
                    vstd::arithmetic::mul::lemma_mul_nonnegative(
                        w@.len() as int,
                        cfg.char_width as int,
                    );
                }
                x = emit_word(&mut out, w, x, cfg);
                proof {
                    assert(out@ + spec_elements(its, ii + 1, x as int, jp, j as nat, *cfg)
                        =~= spec_elements(its, 0, x0, jp, 0, *cfg));
                }
            },
            Item::Spaces(cnt) => {
                proof {
                    assert(count_spaces_from(its, ii) >= 1);
                    vstd::arithmetic::mul::lemma_mul_nonnegative(
                        cnt as int,
                        cfg.space_width as int,
                    );
                    if justify {
                        assert(j < gaps);
                        vstd::arithmetic::div_mod::lemma_div_pos_is_pos(
                            slack as int,
                            gaps as int,
                        );
                        vstd::arithmetic::div_mod::lemma_div_nonincreasing(
                            slack as int,
                            gaps as int,
                        );
                        vstd::arithmetic::div_mod::lemma_mod_division_less_than_divisor(
                            slack as int,
                            gaps as int,
                        );
                        lemma_extras_nonneg(
                            (j + 1) as nat,
                            gaps as nat,
                            slack as int,
                            gaps as nat,
                        );
                    }
                }
                let base = match (cnt as u64).checked_mul(cfg.space_width as u64) {
                    Some(p) => p,
                    None => {
                        proof {
                            assert(false);
                        }
                        0
                    },
                };
                let extra: u64 = if justify {
                    let g64 = gaps as u64;
                    let per = slack / g64;
                    let rem = slack % g64;
                    if (j as u64) < rem {
                        per + 1
                    } else {
                        per
                    }
                } else {
                    0
                };
                let gw = base + extra;
                out.push(RowElement::Space { x: x as u32, width: gw as u32 });
                x = x + gw;
                j = j + 1;
            },
            Item::Glyph(c) => {
                out.push(RowElement::Glyph { ch: c, x: x as u32 });
                x = x + cfg.char_width as u64;
            },
            Item::Gap(g) => {
                x = x + g as u64;
            },
        }
        i = i + 1;
        proof {
            assert(out@ + spec_elements(its, i - lo, x as int, jp, j as nat, *cfg)
                =~= spec_elements(its, 0, x0, jp, 0, *cfg));
        }
    }
    proof {
        assert(spec_elements(its, hi - lo, x as int, jp, j as nat, *cfg)
            =~= Seq::<RowElement>::empty());
        assert(out@ + Seq::<RowElement>::empty() =~= out@);
    }
    out
}

/// Lays out one segment: strips edge spaces where the alignment asks for
/// it, fixes the offset, widens justified gaps, and emits the placed
/// elements in reading order.
#[verifier::loop_isolation(false)]
#[verifier::rlimit(100)]
pub fn finalize_segment(seg: &Segment, para_end: bool, cfg: &LayoutConfig) -> (out: Vec<
    RowElement,
>)
    requires
        cfg.wf(),
        crate::layout::segment_ok(seg@, *cfg),
    ensures
        out@ == spec_finalize_segment(seg@, para_end, *cfg),
{
    let items = &seg.items;
    let n = items.len();
    let ghost whole = seg@;
    let left = cfg.alignment == HorizontalAlignment::Left;

    // Strip the edge spaces for the alignments that drop them.
    let mut lo: usize = 0;
    let mut hi: usize = n;
    if !left {
        while lo < n && matches!(items[lo as usize], Item::Spaces(_))
            invariant
                0 <= lo <= n,
                forall|i: int| 0 <= i < lo ==> whole[i] is Spaces,
            decreases n - lo,
        {
            lo = lo + 1;
        }
        while hi > lo && matches!(items[(hi - 1) as usize], Item::Spaces(_))
            invariant
                lo <= hi <= n,
                forall|i: int| hi <= i < n ==> whole[i] is Spaces,
            decreases hi,
        {
            hi = hi - 1;
        }
    }
    let ghost its = if left {
        whole
    } else {
        strip_spaces(whole)
    };
    proof {
        if !left {
            lemma_strip_front_is(whole, lo as int);
            let t = whole.skip(lo as int);
            assert(forall|i: int| (hi - lo) <= i < t.len() ==> t[i] is Spaces);
            lemma_strip_back_is(t, hi - lo);
            assert(strip_spaces(whole) == t.take(hi - lo));
            assert(t.take(hi - lo) =~= whole.subrange(lo as int, hi as int));
        } else {
            assert(whole.subrange(0, n as int) =~= whole);
        }
        assert(its =~= whole.subrange(lo as int, hi as int));
        // the stripped width is bounded by the whole width
        lemma_items_width_split(whole, lo as int, *cfg);
        crate::layout::lemma_items_width_nonneg(whole.take(lo as int), *cfg);
        lemma_items_width_split(whole.skip(lo as int), hi - lo, *cfg);
        crate::layout::lemma_items_width_nonneg(whole.skip(lo as int).skip(hi - lo), *cfg);
        assert(whole.skip(lo as int).take(hi - lo) =~= its);
        crate::layout::lemma_items_width_nonneg(its, *cfg);
        assert(0 <= items_width(its, *cfg) <= u32::MAX);
        assert(its.skip(0) =~= its);
    }
    let ghost total_w = items_width(its, *cfg);

    // Measure the stripped run.
    let mut nw: u64 = 0;
    let mut i: usize = lo;
    while i < hi
        invariant
            lo <= i <= hi,
            nw + items_width(its.skip(i - lo), *cfg) == total_w,
            nw <= total_w,
        decreases hi - i,
    {
        let ghost ii = i - lo;
        proof {
            let s = its.skip(ii);
            assert(s[0] == its[ii]);
            assert(its[ii] == whole[i as int]);
            assert(s.drop_first() =~= its.skip(ii + 1));
            crate::layout::lemma_items_width_nonneg(its.skip(ii + 1), *cfg);
        }
        let w = item_width_exec(&items[i], cfg);
        nw = nw + w;
        i = i + 1;
    }
    proof {
        assert(its.skip(hi - lo) =~= Seq::<ItemModel>::empty());
        assert(nw == total_w);
    }

    // Count the gaps and decide whether justification is active.
    let mut gaps: usize = 0;
    if cfg.alignment == HorizontalAlignment::Justified {
        let mut i2: usize = lo;
        while i2 < hi
            invariant
                lo <= i2 <= hi,
                gaps + count_spaces_from(its, i2 - lo) == count_spaces(its),
                gaps <= i2 - lo,
            decreases hi - i2,
        {
            proof {
                assert(its[i2 - lo] == whole[i2 as int]);
            }
            if matches!(items[i2], Item::Spaces(_)) {
                gaps = gaps + 1;
            }
            i2 = i2 + 1;
        }
        proof {
            assert(count_spaces_from(its, hi - lo) == 0);
        }
    }
    let justify = cfg.alignment == HorizontalAlignment::Justified && !para_end && gaps > 0 && nw
        <= cfg.width as u64;
    let slack: u64 = if justify {
        cfg.width as u64 - nw
    } else {
        0
    };

    // The alignment offset.
    let off: u64 = if justify || left {
        0
    } else if cfg.alignment == HorizontalAlignment::Right {
        if nw <= cfg.width as u64 {
            cfg.width as u64 - nw
        } else {
            0
        }
    } else if cfg.alignment == HorizontalAlignment::Center {
        if nw <= cfg.width as u64 {
            (cfg.width as u64 - nw) / 2
        } else {
            0
        }
    } else {
        0
    };
    proof {
        assert(off as int == spec_offset(cfg.alignment, total_w, cfg.width as int) || justify);
        if justify {
            assert(off == 0);
        }
        assert(off + total_w + (if justify {
            slack as int
        } else {
            0int
        }) <= u32::MAX);
    }
    let out = emit_elements(items, lo, hi, off, justify, slack, gaps, cfg);
    proof {
        assert(spec_justify_active(its, para_end, *cfg) == justify);
    }
    out
}


/// One colored pixel of the output stream.
#[derive(Clone, Copy, Debug, PartialEq, Eq)]
pub struct Pixel<C> {
    /// Where the pixel lies.
    pub position: crate::geometry::Point,
    /// Its color.
    pub color: C,
}

/// Whether pixel `(x, y)` of the 6-by-8 glyph cell of `c` is lit, as the
/// built-in font draws it.
pub uninterp spec fn font_6x8_glyph_pixel(c: char, x: u32, y: u32) -> bool;

/// Relies on embedded_graphics' `Font6x8` bitmap font: whether pixel
/// `(x, y)` of the glyph cell of `c` is lit. The glyph bitmaps are
/// constants of the font, so the result depends on the arguments alone.
/// Both coordinates must lie inside the 6-by-8 cell, which keeps the
/// bitmap lookup within the font image.
#[verifier::external_body]
fn font_6x8_pixel(c: char, x: u32, y: u32) -> (r: bool)
    requires
        x < 6,
        y < 8,
    ensures
        r == font_6x8_glyph_pixel(c, x, y),
{
    <embedded_graphics::fonts::Font6x8 as embedded_graphics::fonts::Font>::character_pixel(c, x, y)
}

/// Whether the pixel at `(dx, dy)` of the glyph cell of `c` is lit; cells
/// wider or taller than the font's own 6 by 8 stay dark outside it.
pub open spec fn spec_glyph_lit(c: char, dx: int, dy: int) -> bool {
    0 <= dx < 6 && 0 <= dy < 8 && font_6x8_glyph_pixel(c, dx as u32, dy as u32)
}

/// Looks a glyph pixel up, totalized over any cell size.
pub fn glyph_lit(c: char, dx: u32, dy: u32) -> (r: bool)
    ensures
        r == spec_glyph_lit(c, dx as int, dy as int),
{
    if dx < 6 && dy < 8 {
        font_6x8_pixel(c, dx, dy)
    } else {
        false
    }
}

/// Whether a coordinate is representable on the pixel grid.
pub open spec fn in_i32(v: int) -> bool {
    i32::MIN <= v <= i32::MAX
}

/// A pixel at integer coordinates.
pub open spec fn pixel_at<C>(x: int, y: int, color: C) -> Pixel<C> {
    Pixel { position: crate::geometry::Point { x: x as i32, y: y as i32 }, color }
}

/// The pixels of columns `dx..cw` of one pixel row of a glyph cell: lit
/// pixels in the foreground color, the others in the background color,
/// transparent colors and unrepresentable columns dropped.
pub open spec fn spec_glyph_row_pixels<C>(
    ch: char,
    left: int,
    y: int,
    dy: int,
    dx: int,
    cw: int,
    fg: Option<C>,
    bg: Option<C>,
) -> Seq<Pixel<C>>
    decreases cw - dx,
{
    if dx < 0 || dx >= cw {
        Seq::empty()
    } else {
        let color = if spec_glyph_lit(ch, dx, dy) {
            fg
        } else {
            bg
        };
        let rest = spec_glyph_row_pixels(ch, left, y, dy, dx + 1, cw, fg, bg);
        match color {
            Some(c) => if in_i32(left + dx) {
                seq![pixel_at(left + dx, y, c)] + rest
            } else {
                rest
            },
            None => rest,
        }
    }
}

/// The pixels of a glyph cell from cell row `dy` down, clipped to the
/// vertical interval `[clip_lo, clip_hi]`.
pub open spec fn spec_glyph_cell_pixels<C>(
    ch: char,
    left: int,
    top: int,
    dy: int,
    cw: int,
    chh: int,
    fg: Option<C>,
    bg: Option<C>,
    clip_lo: int,
    clip_hi: int,
) -> Seq<Pixel<C>>
    decreases chh - dy,
{
    if dy < 0 || dy >= chh {
        Seq::empty()
    } else {
        let y = top + dy;
        let row: Seq<Pixel<C>> = if clip_lo <= y <= clip_hi {
            spec_glyph_row_pixels(ch, left, y, dy, 0, cw, fg, bg)
        } else {
            Seq::empty()
        };
        row + spec_glyph_cell_pixels(ch, left, top, dy + 1, cw, chh, fg, bg, clip_lo, clip_hi)
    }
}

/// The pixels of columns `dx..width` of one pixel row of a space run.
pub open spec fn spec_space_row_pixels<C>(left: int, y: int, dx: int, width: int, color: C) -> Seq<
    Pixel<C>,
>
    decreases width - dx,
{
    if dx < 0 || dx >= width {
        Seq::empty()
    } else {
        let rest = spec_space_row_pixels(left, y, dx + 1, width, color);
        if in_i32(left + dx) {
            seq![pixel_at(left + dx, y, color)] + rest
        } else {
            rest
        }
    }
}

/// The pixels of a space run from pixel row `dy` down: background color
/// only, nothing when the background is transparent.
pub open spec fn spec_space_pixels<C>(
    left: int,
    top: int,
    dy: int,
    width: int,
    chh: int,
    bg: Option<C>,
    clip_lo: int,
    clip_hi: int,
) -> Seq<Pixel<C>>
    decreases chh - dy,
{
    if dy < 0 || dy >= chh {
        Seq::empty()
    } else {
        let y = top + dy;
        let row: Seq<Pixel<C>> = match bg {
            Some(c) => if clip_lo <= y <= clip_hi {
                spec_space_row_pixels(left, y, 0, width, c)
            } else {
                Seq::empty()
            },
            None => Seq::empty(),
        };
        row + spec_space_pixels(left, top, dy + 1, width, chh, bg, clip_lo, clip_hi)
    }
}

/// The pixels of one placed element.
pub open spec fn spec_element_pixels<C>(
    el: RowElement,
    ox: int,
    top: int,
    cw: int,
    chh: int,
    fg: Option<C>,
    bg: Option<C>,
    clip_lo: int,
    clip_hi: int,
) -> Seq<Pixel<C>> {
    match el {
        RowElement::Glyph { ch, x } => spec_glyph_cell_pixels(
            ch,
            ox + x,
            top,
            0,
            cw,
            chh,
            fg,
            bg,
            clip_lo,
            clip_hi,
        ),
        RowElement::Space { x, width } => spec_space_pixels(
            ox + x,
            top,
            0,
            width as int,
            chh,
            bg,
            clip_lo,
            clip_hi,
        ),
    }
}

/// The pixels of the placed elements from index `i` on.
pub open spec fn spec_elements_pixels<C>(
    els: Seq<RowElement>,
    i: int,
    ox: int,
    top: int,
    cw: int,
    chh: int,
    fg: Option<C>,
    bg: Option<C>,
    clip_lo: int,
    clip_hi: int,
) -> Seq<Pixel<C>>
    decreases els.len() - i,
{
    if i < 0 || i >= els.len() {
        Seq::empty()
    } else {
        spec_element_pixels(els[i], ox, top, cw, chh, fg, bg, clip_lo, clip_hi)
            + spec_elements_pixels(els, i + 1, ox, top, cw, chh, fg, bg, clip_lo, clip_hi)
    }
}

/// The pixels of the segments of a row from index `i` on, each segment
/// finalized under the row's paragraph flag.
pub open spec fn spec_segments_pixels<C>(
    segs: Seq<Seq<ItemModel>>,
    i: int,
    para_end: bool,
    cfg: LayoutConfig,
    ox: int,
    top: int,
    chh: int,
    fg: Option<C>,
    bg: Option<C>,
    clip_lo: int,
    clip_hi: int,
) -> Seq<Pixel<C>>
    decreases segs.len() - i,
{
    if i < 0 || i >= segs.len() {
        Seq::empty()
    } else {
        spec_elements_pixels(
            spec_finalize_segment(segs[i], para_end, cfg),
            0,
            ox,
            top,
            cfg.char_width as int,
            chh,
            fg,
            bg,
            clip_lo,
            clip_hi,
        ) + spec_segments_pixels(
            segs,
            i + 1,
            para_end,
            cfg,
            ox,
            top,
            chh,
            fg,
            bg,
            clip_lo,
            clip_hi,
        )
    }
}

/// The vertical interval of the box a row may draw into: everything for a
/// fully visible row, the intersection with the box for a clipped row, and
/// the empty interval `(1, 0)` when the policy suppresses the row.
pub open spec fn spec_row_clip(
    od: crate::style::VerticalOverdraw,
    top: int,
    chh: int,
    bounds: crate::geometry::Rectangle,
) -> (int, int) {
    match od {
        crate::style::VerticalOverdraw::FullRowsOnly => {
            if bounds.top_left.y <= top && top + chh - 1 <= bounds.bottom_right.y {
                (top, top + chh - 1)
            } else {
                (1int, 0int)
            }
        },
        crate::style::VerticalOverdraw::Clipped => {
            let lo = if top >= bounds.top_left.y {
                top
            } else {
                bounds.top_left.y as int
            };
            let hi = if top + chh - 1 <= bounds.bottom_right.y {
                top + chh - 1
            } else {
                bounds.bottom_right.y as int
            };
            if lo <= hi {
                (lo, hi)
            } else {
                (1int, 0int)
            }
        },
    }
}

/// The vertical offset of the whole text block inside the box: top, the
/// slack halved and rounded down, or the full slack.
pub open spec fn spec_vertical_offset(
    va: crate::alignment::VerticalAlignment,
    box_h: int,
    text_h: int,
) -> int {
    match va {
        crate::alignment::VerticalAlignment::Top => 0,
        crate::alignment::VerticalAlignment::Center => (box_h - text_h) / 2,
        crate::alignment::VerticalAlignment::Bottom => box_h - text_h,
    }
}

/// The pixels of the rows from index `i` on: row `i` starts at the box top
/// plus the vertical offset plus `i` row advances.
pub open spec fn spec_rows_pixels<C>(
    rows: Seq<crate::layout::RowModel>,
    i: int,
    bounds: crate::geometry::Rectangle,
    v_off: int,
    row_adv: int,
    cfg: LayoutConfig,
    chh: int,
    fg: Option<C>,
    bg: Option<C>,
    od: crate::style::VerticalOverdraw,
) -> Seq<Pixel<C>>
    decreases rows.len() - i,
{
    if i < 0 || i >= rows.len() {
        Seq::empty()
    } else {
        let top = bounds.top_left.y + v_off + i * row_adv;
        let clip = spec_row_clip(od, top, chh, bounds);
        spec_segments_pixels(
            rows[i].segments,
            0,
            rows[i].para_end,
            cfg,
            bounds.top_left.x as int,
            top,
            chh,
            fg,
            bg,
            clip.0,
            clip.1,
        ) + spec_rows_pixels(rows, i + 1, bounds, v_off, row_adv, cfg, chh, fg, bg, od)
    }
}

/// The interior width of a well-formed box, clamped to `u32`.
pub open spec fn spec_box_width(bounds: crate::geometry::Rectangle) -> u32 {
    if crate::geometry::spec_width(bounds) > u32::MAX {
        u32::MAX
    } else {
        crate::geometry::spec_width(bounds) as u32
    }
}

/// The whole pixel stream of a text inside a box under a style: the rows
/// of the layout, aligned, fitted to the vertical offset, colored, and
/// clipped by the overdraw policy.
pub open spec fn spec_render<C>(
    text: Seq<char>,
    bounds: crate::geometry::Rectangle,
    style: crate::style::TextBoxStyle<C>,
) -> Seq<Pixel<C>> {
    let cfg = style.spec_layout_config(spec_box_width(bounds));
    let rows = crate::layout::spec_layout(text, cfg);
    let text_h = crate::style::spec_rows_height(
        rows.len() as int,
        style.text_style.font.char_height,
        style.line_spacing,
    );
    let v_off = spec_vertical_offset(
        style.vertical_alignment,
        crate::geometry::spec_height(bounds),
        text_h as int,
    );
    spec_rows_pixels(
        rows,
        0,
        bounds,
        v_off,
        style.text_style.font.char_height + style.line_spacing,
        cfg,
        style.text_style.font.char_height as int,
        style.text_style.text_color,
        style.text_style.background_color,
        crate::style::spec_overdraw(style.height_mode),
    )
}


/// Emits one glyph cell's pixels.
#[verifier::loop_isolation(false)]
fn render_glyph_cell<C: Copy>(
    out: &mut Vec<Pixel<C>>,
    ch: char,
    left: i64,
    top: i128,
    cw: u32,
    chh: u32,
    fg: Option<C>,
    bg: Option<C>,
    clip_lo: i32,
    clip_hi: i32,
)
    requires
        -0x10_0000_0000_0000_0000_0000_0000i128 <= top <= 0x10_0000_0000_0000_0000_0000_0000i128,
        -0x4_0000_0000i64 <= left <= 0x4_0000_0000i64,
    ensures
        final(out)@ == old(out)@ + spec_glyph_cell_pixels(
            ch,
            left as int,
            top as int,
            0,
            cw as int,
            chh as int,
            fg,
            bg,
            clip_lo as int,
            clip_hi as int,
        ),
{
    let mut dy: u32 = 0;
    while dy < chh
        invariant
            0 <= dy <= chh,
            out@ + spec_glyph_cell_pixels(
                ch,
                left as int,
                top as int,
                dy as int,
                cw as int,
                chh as int,
                fg,
                bg,
                clip_lo as int,
                clip_hi as int,
            ) == old(out)@ + spec_glyph_cell_pixels(
                ch,
                left as int,
                top as int,
                0,
                cw as int,
                chh as int,
                fg,
                bg,
                clip_lo as int,
                clip_hi as int,
            ),
        decreases chh - dy,
    {
        let y: i128 = top + dy as i128;
        if clip_lo as i128 <= y && y <= clip_hi as i128 {
            let y32: i32 = y as i32;
            let mut dx: u32 = 0;
            while dx < cw
                invariant
                    0 <= dx <= cw,
                    clip_lo as int <= top + dy <= clip_hi as int,
                    y32 as int == top + dy,
                    out@ + spec_glyph_row_pixels(
                        ch,
                        left as int,
                        top + dy,
                        dy as int,
                        dx as int,
                        cw as int,
                        fg,
                        bg,
                    ) + spec_glyph_cell_pixels(
                        ch,
                        left as int,
                        top as int,
                        dy + 1,
                        cw as int,
                        chh as int,
                        fg,
                        bg,
                        clip_lo as int,
                        clip_hi as int,
                    ) == old(out)@ + spec_glyph_cell_pixels(
                        ch,
                        left as int,
                        top as int,
                        0,
                        cw as int,
                        chh as int,
                        fg,
                        bg,
                        clip_lo as int,
                        clip_hi as int,
                    ),
                decreases cw - dx,
            {
                let lit = glyph_lit(ch, dx, dy);
                let color = if lit {
                    fg
                } else {
                    bg
                };
                let px: i64 = left + dx as i64;
                match color {
                    Some(c) => {
                        if i32::MIN as i64 <= px && px <= i32::MAX as i64 {
                            out.push(
                                Pixel {
                                    position: crate::geometry::Point { x: px as i32, y: y32 },
                                    color: c,
                                },
                            );
                        }
                    },
                    None => {},
                }
                dx = dx + 1;
                proof {
                    assert(out@ + spec_glyph_row_pixels(
                        ch,
                        left as int,
                        top + dy,
                        dy as int,
                        dx as int,
                        cw as int,
                        fg,
                        bg,
                    ) + spec_glyph_cell_pixels(
                        ch,
                        left as int,
                        top as int,
                        dy + 1,
                        cw as int,
                        chh as int,
                        fg,
                        bg,
                        clip_lo as int,
                        clip_hi as int,
                    ) =~= old(out)@ + spec_glyph_cell_pixels(
                        ch,
                        left as int,
                        top as int,
                        0,
                        cw as int,
                        chh as int,
                        fg,
                        bg,
                        clip_lo as int,
                        clip_hi as int,
                    ));
                }
            }
        }
        dy = dy + 1;
        proof {
            assert(out@ + spec_glyph_cell_pixels(
                ch,
                left as int,
                top as int,
                dy as int,
                cw as int,
                chh as int,
                fg,
                bg,
                clip_lo as int,
                clip_hi as int,
            ) =~= old(out)@ + spec_glyph_cell_pixels(
                ch,
                left as int,
                top as int,
                0,
                cw as int,
                chh as int,
                fg,
                bg,
                clip_lo as int,
                clip_hi as int,
            ));
        }
    }
}

/// Emits one space run's background pixels.
#[verifier::loop_isolation(false)]
fn render_space<C: Copy>(
    out: &mut Vec<Pixel<C>>,
    left: i64,
    top: i128,
    width: u32,
    chh: u32,
    bg: Option<C>,
    clip_lo: i32,
    clip_hi: i32,
)
    requires
        -0x10_0000_0000_0000_0000_0000_0000i128 <= top <= 0x10_0000_0000_0000_0000_0000_0000i128,
        -0x4_0000_0000i64 <= left <= 0x4_0000_0000i64,
    ensures
        final(out)@ == old(out)@ + spec_space_pixels(
            left as int,
            top as int,
            0,
            width as int,
            chh as int,
            bg,
            clip_lo as int,
            clip_hi as int,
        ),
{
    let mut dy: u32 = 0;
    while dy < chh
        invariant
            0 <= dy <= chh,
            out@ + spec_space_pixels(
                left as int,
                top as int,
                dy as int,
                width as int,
                chh as int,
                bg,
                clip_lo as int,
                clip_hi as int,
            ) == old(out)@ + spec_space_pixels(
                left as int,
                top as int,
                0,
                width as int,
                chh as int,
                bg,
                clip_lo as int,
                clip_hi as int,
            ),
        decreases chh - dy,
    {
        let y: i128 = top + dy as i128;
        match bg {
            Some(c) => {
                if clip_lo as i128 <= y && y <= clip_hi as i128 {
                    let y32: i32 = y as i32;
                    let mut dx: u32 = 0;
                    while dx < width
                        invariant
                            0 <= dx <= width,
                            bg == Some(c),
                            clip_lo as int <= top + dy <= clip_hi as int,
                            y32 as int == top + dy,
                            out@ + spec_space_row_pixels(
                                left as int,
                                top + dy,
                                dx as int,
                                width as int,
                                c,
                            ) + spec_space_pixels(
                                left as int,
                                top as int,
                                dy + 1,
                                width as int,
                                chh as int,
                                bg,
                                clip_lo as int,
                                clip_hi as int,
                            ) == old(out)@ + spec_space_pixels(
                                left as int,
                                top as int,
                                0,
                                width as int,
                                chh as int,
                                bg,
                                clip_lo as int,
                                clip_hi as int,
                            ),
                        decreases width - dx,
                    {
                        let px: i64 = left + dx as i64;
                        if i32::MIN as i64 <= px && px <= i32::MAX as i64 {
                            out.push(
                                Pixel {
                                    position: crate::geometry::Point { x: px as i32, y: y32 },
                                    color: c,
                                },
                            );
                        }
                        dx = dx + 1;
                        proof {
                            assert(out@ + spec_space_row_pixels(
                                left as int,
                                top + dy,
                                dx as int,
                                width as int,
                                c,
                            ) + spec_space_pixels(
                                left as int,
                                top as int,
                                dy + 1,
                                width as int,
                                chh as int,
                                bg,
                                clip_lo as int,
                                clip_hi as int,
                            ) =~= old(out)@ + spec_space_pixels(
                                left as int,
                                top as int,
                                0,
                                width as int,
                                chh as int,
                                bg,
                                clip_lo as int,
                                clip_hi as int,
                            ));
                        }
                    }
                }
            },
            None => {},
        }
        dy = dy + 1;
        proof {
            assert(out@ + spec_space_pixels(
                left as int,
                top as int,
                dy as int,
                width as int,
                chh as int,
                bg,
                clip_lo as int,
                clip_hi as int,
            ) =~= old(out)@ + spec_space_pixels(
                left as int,
                top as int,
                0,
                width as int,
                chh as int,
                bg,
                clip_lo as int,
                clip_hi as int,
            ));
        }
    }
}

/// Emits the pixels of a finalized element list.
#[verifier::loop_isolation(false)]
fn render_elements<C: Copy>(
    out: &mut Vec<Pixel<C>>,
    els: &Vec<RowElement>,
    ox: i64,
    top: i128,
    cw: u32,
    chh: u32,
    fg: Option<C>,
    bg: Option<C>,
    clip_lo: i32,
    clip_hi: i32,
)
    requires
        -0x10_0000_0000_0000_0000_0000_0000i128 <= top <= 0x10_0000_0000_0000_0000_0000_0000i128,
        -0x1_0000_0000i64 <= ox <= 0x1_0000_0000i64,
    ensures
        final(out)@ == old(out)@ + spec_elements_pixels(
            els@,
            0,
            ox as int,
            top as int,
            cw as int,
            chh as int,
            fg,
            bg,
            clip_lo as int,
            clip_hi as int,
        ),
{
    let n = els.len();
    proof {
        assert(out@ + Seq::<Pixel<C>>::empty() =~= out@);
    }
    let mut i: usize = 0;
    while i < n
        invariant
            0 <= i <= n,
            out@ + spec_elements_pixels(
                els@,
                i as int,
                ox as int,
                top as int,
                cw as int,
                chh as int,
                fg,
                bg,
                clip_lo as int,
                clip_hi as int,
            ) == old(out)@ + spec_elements_pixels(
                els@,
                0,
                ox as int,
                top as int,
                cw as int,
                chh as int,
                fg,
                bg,
                clip_lo as int,
                clip_hi as int,
            ),
        decreases n - i,
    {
        match els[i] {
            RowElement::Glyph { ch, x } => {
                render_glyph_cell(out, ch, ox + x as i64, top, cw, chh, fg, bg, clip_lo, clip_hi);
            },
            RowElement::Space { x, width } => {
                render_space(out, ox + x as i64, top, width, chh, bg, clip_lo, clip_hi);
            },
        }
        i = i + 1;
        proof {
            assert(out@ + spec_elements_pixels(
                els@,
                i as int,
                ox as int,
                top as int,
                cw as int,
                chh as int,
                fg,
                bg,
                clip_lo as int,
                clip_hi as int,
            ) =~= old(out)@ + spec_elements_pixels(
                els@,
                0,
                ox as int,
                top as int,
                cw as int,
                chh as int,
                fg,
                bg,
                clip_lo as int,
                clip_hi as int,
            ));
        }
    }
    proof {
        assert(out@ + Seq::<Pixel<C>>::empty() =~= out@);
    }
}

/// Emits the pixels of one row: every segment is finalized and rendered at
/// the row's vertical position.
#[verifier::loop_isolation(false)]
fn render_row<C: Copy>(
    out: &mut Vec<Pixel<C>>,
    row: &crate::layout::Row,
    cfg: &LayoutConfig,
    ox: i64,
    top: i128,
    chh: u32,
    fg: Option<C>,
    bg: Option<C>,
    clip_lo: i32,
    clip_hi: i32,
)
    requires
        cfg.wf(),
        -0x10_0000_0000_0000_0000_0000_0000i128 <= top <= 0x10_0000_0000_0000_0000_0000_0000i128,
        -0x1_0000_0000i64 <= ox <= 0x1_0000_0000i64,
        crate::layout::row_ok(row@, *cfg),
    ensures
        final(out)@ == old(out)@ + spec_segments_pixels(
            row@.segments,
            0,
            row@.para_end,
            *cfg,
            ox as int,
            top as int,
            chh as int,
            fg,
            bg,
            clip_lo as int,
            clip_hi as int,
        ),
{
    let n = row.segments.len();
    let mut i: usize = 0;
    proof {
        assert(row@.segments.len() == n);
    }
    while i < n
        invariant
            0 <= i <= n,
            out@ + spec_segments_pixels(
                row@.segments,
                i as int,
                row@.para_end,
                *cfg,
                ox as int,
                top as int,
                chh as int,
                fg,
                bg,
                clip_lo as int,
                clip_hi as int,
            ) == old(out)@ + spec_segments_pixels(
                row@.segments,
                0,
                row@.para_end,
                *cfg,
                ox as int,
                top as int,
                chh as int,
                fg,
                bg,
                clip_lo as int,
                clip_hi as int,
            ),
        decreases n - i,
    {
        proof {
            assert(row@.segments[i as int] == row.segments@[i as int]@);
            assert(crate::layout::segment_ok(row@.segments[i as int], *cfg));
        }
        let els = finalize_segment(&row.segments[i], row.para_end, cfg);
        render_elements(out, &els, ox, top, cfg.char_width, chh, fg, bg, clip_lo, clip_hi);
        i = i + 1;
        proof {
            assert(out@ + spec_segments_pixels(
                row@.segments,
                i as int,
                row@.para_end,
                *cfg,
                ox as int,
                top as int,
                chh as int,
                fg,
                bg,
                clip_lo as int,
                clip_hi as int,
            ) =~= old(out)@ + spec_segments_pixels(
                row@.segments,
                0,
                row@.para_end,
                *cfg,
                ox as int,
                top as int,
                chh as int,
                fg,
                bg,
                clip_lo as int,
                clip_hi as int,
            ));
        }
    }
    proof {
        assert(out@ + Seq::<Pixel<C>>::empty() =~= out@);
    }
}

/// Computes a row's clip interval.
fn row_clip(
    od: crate::style::VerticalOverdraw,
    top: i128,
    chh: u32,
    bounds: &crate::geometry::Rectangle,
) -> (clip: (i32, i32))
    requires
        -0x10_0000_0000_0000_0000_0000_0000i128 <= top <= 0x10_0000_0000_0000_0000_0000_0000i128,
        chh >= 1,
        bounds.well_formed(),
    ensures
        (clip.0 as int, clip.1 as int) == spec_row_clip(od, top as int, chh as int, *bounds),
{
    let bottom: i128 = top + chh as i128 - 1;
    match od {
        crate::style::VerticalOverdraw::FullRowsOnly => {
            if bounds.top_left.y as i128 <= top && bottom <= bounds.bottom_right.y as i128 {
                (top as i32, bottom as i32)
            } else {
                (1, 0)
            }
        },
        crate::style::VerticalOverdraw::Clipped => {
            let lo: i128 = if top >= bounds.top_left.y as i128 {
                top
            } else {
                bounds.top_left.y as i128
            };
            let hi: i128 = if bottom <= bounds.bottom_right.y as i128 {
                bottom
            } else {
                bounds.bottom_right.y as i128
            };
            if lo <= hi {
                (lo as i32, hi as i32)
            } else {
                (1, 0)
            }
        },
    }
}

/// Renders the whole pixel stream of a text inside a box: rows from the
/// line breaker, horizontal alignment per segment, vertical alignment and
/// overdraw policy per row, glyphs in the text color over the optional
/// background color.
#[verifier::loop_isolation(false)]
#[verifier::rlimit(100)]
pub fn render_pixels<C: Copy>(
    text: &[char],
    bounds: &crate::geometry::Rectangle,
    style: &crate::style::TextBoxStyle<C>,
) -> (out: Vec<Pixel<C>>)
    requires
        style.wf(),
        bounds.well_formed(),
    ensures
        out@ == spec_render(text@, *bounds, *style),
{
    let size = crate::geometry::RectExt::size(*bounds);
    let width: u32 = size.width;
    proof {
        assert(width == spec_box_width(*bounds));
        assert(width >= 1);
    }
    let cfg = style.layout_config(width);
    let rows = crate::layout::break_rows(text, &cfg);
    let ghost rows_m = crate::layout::rows_model(rows@);
    proof {
        crate::layout::lemma_layout_rows_ok(text@, cfg);
    }
    let n = rows.len();
    let chh = style.text_style.font.char_height;
    let text_h = crate::style::rows_height(n, chh, style.line_spacing);
    let box_h: i64 = bounds.bottom_right.y as i64 - bounds.top_left.y as i64 + 1;
    let v_off: i64 = vertical_offset(style.vertical_alignment, box_h, text_h);
    let row_adv: i64 = chh as i64 + style.line_spacing as i64;
    let od = match style.height_mode {
        crate::style::HeightMode::Exact(od) => od,
        crate::style::HeightMode::FitToText => crate::style::VerticalOverdraw::Clipped,
        crate::style::HeightMode::ShrinkToText(od) => od,
    };
    let fg = style.text_style.text_color;
    let bg = style.text_style.background_color;
    let ghost v_off_g = spec_vertical_offset(
        style.vertical_alignment,
        crate::geometry::spec_height(*bounds),
        text_h as int,
    );
    let mut out: Vec<Pixel<C>> = Vec::new();
    proof {
        assert(out@ + Seq::<Pixel<C>>::empty() =~= out@);
        assert(rows_m.len() == n);
    }
    let mut i: usize = 0;
    while i < n
        invariant
            0 <= i <= n,
            out@ + spec_rows_pixels(
                rows_m,
                i as int,
                *bounds,
                v_off as int,
                row_adv as int,
                cfg,
                chh as int,
                fg,
                bg,
                od,
            ) == spec_rows_pixels(
                rows_m,
                0,
                *bounds,
                v_off as int,
                row_adv as int,
                cfg,
                chh as int,
                fg,
                bg,
                od,
            ),
        decreases n - i,
    {
        proof {
            if row_adv >= 0 {
                vstd::arithmetic::mul::lemma_mul_nonnegative(i as int, row_adv as int);
                vstd::arithmetic::mul::lemma_mul_upper_bound(
                    i as int,
                    usize::MAX as int,
                    row_adv as int,
                    0x2_0000_0000,
                );
            } else {
                vstd::arithmetic::mul::lemma_mul_nonnegative(i as int, -(row_adv as int));
                vstd::arithmetic::mul::lemma_mul_upper_bound(
                    i as int,
                    usize::MAX as int,
                    -(row_adv as int),
                    0x2_0000_0000,
                );
                vstd::arithmetic::mul::lemma_mul_unary_negation(i as int, row_adv as int);
            }
        }
        let top: i128 = bounds.top_left.y as i128 + v_off as i128 + (i as i128) * (
        row_adv as i128);
        let clip = row_clip(od, top, chh, bounds);
        proof {
            assert(rows_m == crate::layout::spec_layout(text@, cfg));
            assert(rows_m[i as int] == crate::layout::spec_layout(text@, cfg)[i as int]);
            assert(crate::layout::row_ok(rows_m[i as int], cfg));
            assert(rows_m[i as int] == rows@[i as int]@);
        }
        render_row(
            &mut out,
            &rows[i],
            &cfg,
            bounds.top_left.x as i64,
            top,
            chh,
            fg,
            bg,
            clip.0,
            clip.1,
        );
        i = i + 1;
        proof {
            assert(out@ + spec_rows_pixels(
                rows_m,
                i as int,
                *bounds,
                v_off as int,
                row_adv as int,
                cfg,
                chh as int,
                fg,
                bg,
                od,
            ) =~= spec_rows_pixels(
                rows_m,
                0,
                *bounds,
                v_off as int,
                row_adv as int,
                cfg,
                chh as int,
                fg,
                bg,
                od,
            ));
        }
    }
    proof {
        assert(out@ + Seq::<Pixel<C>>::empty() =~= out@);
        assert(spec_render(text@, *bounds, *style) == spec_rows_pixels(
            rows_m,
            0,
            *bounds,
            v_off as int,
            row_adv as int,
            cfg,
            chh as int,
            fg,
            bg,
            od,
        ));
    }
    out
}

/// Computes the vertical offset of the text block.
fn vertical_offset(va: crate::alignment::VerticalAlignment, box_h: i64, text_h: u32) -> (off: i64)
    requires
        1 <= box_h <= 0x1_0000_0000i64,
    ensures
        off == spec_vertical_offset(va, box_h as int, text_h as int),
{
    match va {
        crate::alignment::VerticalAlignment::Top => 0,
        crate::alignment::VerticalAlignment::Center => {
            let d: i64 = box_h - text_h as i64;
            if d >= 0 {
                (d as u64 / 2) as i64
            } else {
                let e: u64 = (-d) as u64;
                proof {
                    vstd::arithmetic::div_mod::lemma_fundamental_div_mod(d as int, 2);
                    vstd::arithmetic::div_mod::lemma_mod_division_less_than_divisor(d as int, 2);
                    vstd::arithmetic::div_mod::lemma_fundamental_div_mod(e as int, 2);
                    vstd::arithmetic::div_mod::lemma_mod_division_less_than_divisor(e as int, 2);
                }
                -(((e + 1) / 2) as i64)
            }
        },
        crate::alignment::VerticalAlignment::Bottom => box_h - text_h as i64,
    }
}


/// Justification exactness: for a justified row that does not end its
/// paragraph and still has an inter-word gap after stripping, the widened
/// gap widths add up so that the occupied row width — glyphs, gaps and
/// their widenings together — equals the interior width exactly.
///
/// The activation condition is the needed one: words separated only by
/// wrap opportunities or tabs leave no space run to stretch, and a row
/// wider than the box (the forced-overflow case) has no slack to
/// distribute; both render at their natural width instead.
pub proof fn lemma_justification_exact(items: Seq<ItemModel>, para_end: bool, cfg: LayoutConfig)
    requires
        cfg.wf(),
        cfg.alignment == HorizontalAlignment::Justified,
        spec_justify_active(strip_spaces(items), para_end, cfg),
    ensures
        ({
            let its = strip_spaces(items);
            let nw = items_width(its, cfg);
            nw + extras(0, count_spaces(its), cfg.width - nw, count_spaces(its)) == cfg.width
        }),
{
    let its = strip_spaces(items);
    let nw = items_width(its, cfg);
    lemma_extras_total(cfg.width - nw, count_spaces(its));
}

/// Dropping the leading spaces never widens a run.
proof fn lemma_strip_front_width_le(s: Seq<ItemModel>, cfg: LayoutConfig)
    ensures
        items_width(strip_front(s), cfg) <= items_width(s, cfg),
        items_width(strip_front(s), cfg) >= 0,
    decreases s.len(),
{
    crate::layout::lemma_items_width_nonneg(s, cfg);
    crate::layout::lemma_items_width_nonneg(strip_front(s), cfg);
    if s.len() > 0 && s[0] is Spaces {
        lemma_strip_front_width_le(s.drop_first(), cfg);
        match s[0] {
            ItemModel::Spaces(n) => {
                vstd::arithmetic::mul::lemma_mul_nonnegative(n as int, cfg.space_width as int);
            },
            _ => {},
        }
    }
}

/// Dropping the trailing spaces never widens a run.
proof fn lemma_strip_back_width_le(s: Seq<ItemModel>, cfg: LayoutConfig)
    ensures
        items_width(strip_back(s), cfg) <= items_width(s, cfg),
        items_width(strip_back(s), cfg) >= 0,
    decreases s.len(),
{
    crate::layout::lemma_items_width_nonneg(s, cfg);
    crate::layout::lemma_items_width_nonneg(strip_back(s), cfg);
    if s.len() > 0 && s.last() is Spaces {
        lemma_strip_back_width_le(s.drop_last(), cfg);
        lemma_items_width_split(s, s.len() - 1, cfg);
        assert(s.take(s.len() - 1) =~= s.drop_last());
        assert(s.skip(s.len() - 1) =~= seq![s.last()]);
        assert(items_width(seq![s.last()], cfg) == item_width(s.last(), cfg)) by {
            assert(seq![s.last()][0] == s.last());
            assert(seq![s.last()].drop_first() =~= Seq::<ItemModel>::empty());
            assert(items_width(Seq::<ItemModel>::empty(), cfg) == 0);
        }
        match s.last() {
            ItemModel::Spaces(n) => {
                vstd::arithmetic::mul::lemma_mul_nonnegative(n as int, cfg.space_width as int);
            },
            _ => {},
        }
    }
}

/// Every element of an item run stays inside the budget: it starts no
/// earlier than the starting column, and it ends no later than the start
/// plus the run's width and remaining gap widenings.
proof fn lemma_elements_within(
    its: Seq<ItemModel>,
    i: int,
    x: int,
    jp: Option<(int, nat)>,
    j: nat,
    cfg: LayoutConfig,
)
    requires
        cfg.wf(),
        0 <= i <= its.len(),
        x >= 0,
        jp matches Some(p) ==> p.0 >= 0 && p.1 >= 1 && j + count_spaces_from(its, i) <= p.1,
        x + items_width(its.skip(i), cfg) + (match jp {
            Some(p) => extras(j, p.1, p.0, p.1),
            None => 0int,
        }) <= u32::MAX,
    ensures
        forall|e: int|
            0 <= e < spec_elements(its, i, x, jp, j, cfg).len() ==> x <= element_left(
                #[trigger] spec_elements(its, i, x, jp, j, cfg)[e],
            ) && element_right(spec_elements(its, i, x, jp, j, cfg)[e], cfg) <= x + items_width(
                its.skip(i),
                cfg,
            ) + (match jp {
                Some(p) => extras(j, p.1, p.0, p.1),
                None => 0int,
            }),
    decreases its.len() - i,
{
    if i >= its.len() {
    } else {
        let s = its.skip(i);
        assert(s[0] == its[i]);
        assert(s.drop_first() =~= its.skip(i + 1));
        crate::layout::lemma_items_width_nonneg(its.skip(i + 1), cfg);
        let els = spec_elements(its, i, x, jp, j, cfg);
        match jp {
            Some(p) => {
                lemma_extras_nonneg(j, p.1, p.0, p.1);
            },
            None => {},
        }
        match its[i] {
            ItemModel::Word(w) => {
                let cw = cfg.char_width as int;
                let ww = w.len() * cw;
                vstd::arithmetic::mul::lemma_mul_nonnegative(w.len() as int, cw);
                lemma_elements_within(its, i + 1, x + ww, jp, j, cfg);
                let we = word_elements(w, x, cw);
                let rest = spec_elements(its, i + 1, x + ww, jp, j, cfg);
                assert(els == we + rest);
                assert forall|e: int| 0 <= e < els.len() implies x <= element_left(
                    #[trigger] els[e],
                ) && element_right(els[e], cfg) <= x + items_width(its.skip(i), cfg) + (match jp {
                    Some(p) => extras(j, p.1, p.0, p.1),
                    None => 0int,
                }) by {
                    if e < we.len() {
                        assert(els[e] == we[e]);
                        assert(we[e] == word_glyph(w, x, cw, e));
                        vstd::arithmetic::mul::lemma_mul_nonnegative(e, cw);
                        vstd::arithmetic::mul::lemma_mul_inequality(e + 1, w.len() as int, cw);
                        vstd::arithmetic::mul::lemma_mul_is_distributive_add_other_way(
                            cw,
                            e,
                            1,
                        );
                        vstd::arithmetic::mul::lemma_mul_is_commutative(e, cw);
                        vstd::arithmetic::mul::lemma_mul_is_commutative(e + 1, cw);
                        assert(element_left(we[e]) == x + e * cw);
                        assert(element_right(we[e], cfg) == x + e * cw + cw);
                    } else {
                        assert(els[e] == rest[e - we.len()]);
                    }
                }
            },
            ItemModel::Spaces(n) => {
                let sw = cfg.space_width as int;
                let extra = match jp {
                    Some(p) => gap_extra(j, p.0, p.1),
                    None => 0int,
                };
                let gw = n * sw + extra;
                vstd::arithmetic::mul::lemma_mul_nonnegative(n as int, sw);
                let jj: nat = (j + 1) as nat;
                match jp {
                    Some(p) => {
                        assert(count_spaces_from(its, i) >= 1);
                        assert(j < p.1);
                        vstd::arithmetic::div_mod::lemma_div_pos_is_pos(p.0, p.1 as int);
                        assert(extras(j, p.1, p.0, p.1) == gap_extra(j, p.0, p.1) + extras(
                            (j + 1) as nat,
                            p.1,
                            p.0,
                            p.1,
                        ));
                        lemma_extras_nonneg((j + 1) as nat, p.1, p.0, p.1);
                        lemma_elements_within(its, i + 1, x + gw, jp, (j + 1) as nat, cfg);
                    },
                    None => {
                        lemma_elements_within(its, i + 1, x + gw, jp, (j + 1) as nat, cfg);
                    },
                }
                let rest = spec_elements(its, i + 1, x + gw, jp, jj, cfg);
                let head = RowElement::Space { x: x as u32, width: gw as u32 };
                assert(els == seq![head] + rest);
                assert forall|e: int| 0 <= e < els.len() implies x <= element_left(
                    #[trigger] els[e],
                ) && element_right(els[e], cfg) <= x + items_width(its.skip(i), cfg) + (match jp {
                    Some(p) => extras(j, p.1, p.0, p.1),
                    None => 0int,
                }) by {
                    if e == 0 {
                        assert(els[0] == head);
                        assert(element_left(head) == x);
                        assert(element_right(head, cfg) == x + gw);
                    } else {
                        assert(els[e] == rest[e - 1]);
                    }
                }
            },
            ItemModel::Glyph(c) => {
                lemma_elements_within(its, i + 1, x + cfg.char_width, jp, j, cfg);
                let rest = spec_elements(its, i + 1, x + cfg.char_width, jp, j, cfg);
                let head = RowElement::Glyph { ch: c, x: x as u32 };
                assert(els == seq![head] + rest);
                assert forall|e: int| 0 <= e < els.len() implies x <= element_left(
                    #[trigger] els[e],
                ) && element_right(els[e], cfg) <= x + items_width(its.skip(i), cfg) + (match jp {
                    Some(p) => extras(j, p.1, p.0, p.1),
                    None => 0int,
                }) by {
                    if e == 0 {
                        assert(els[0] == head);
                    } else {
                        assert(els[e] == rest[e - 1]);
                    }
                }
            },
            ItemModel::Gap(g) => {
                lemma_elements_within(its, i + 1, x + g, jp, j, cfg);
                let rest = spec_elements(its, i + 1, x + g, jp, j, cfg);
                assert(els == rest);
                assert forall|e: int| 0 <= e < els.len() implies x <= element_left(
                    #[trigger] els[e],
                ) && element_right(els[e], cfg) <= x + items_width(its.skip(i), cfg) + (match jp {
                    Some(p) => extras(j, p.1, p.0, p.1),
                    None => 0int,
                }) by {
                    assert(els[e] == rest[e]);
                }
            },
        }
    }
}

/// Wrap containment: when a glyph cell fits the interior width at all,
/// every placed element of every segment the engine lays out starts at or
/// after the box's left edge and ends at or before its right edge. (A box
/// narrower than a single glyph cell is the one forced-overflow exception.)
pub proof fn lemma_wrap_containment(
    text: Seq<char>,
    para_end: bool,
    seg: Seq<ItemModel>,
    cfg: LayoutConfig,
)
    requires
        cfg.wf(),
        cfg.char_width <= cfg.width,
        crate::layout::segment_ok(seg, cfg),
    ensures
        forall|e: int|
            0 <= e < spec_finalize_segment(seg, para_end, cfg).len() ==> 0 <= element_left(
                #[trigger] spec_finalize_segment(seg, para_end, cfg)[e],
            ) && element_right(spec_finalize_segment(seg, para_end, cfg)[e], cfg) <= cfg.width,
{
    crate::layout::lemma_items_width_nonneg(seg, cfg);
    if cfg.alignment == HorizontalAlignment::Left {
        assert(seg.skip(0) =~= seg);
        lemma_elements_within(seg, 0, 0, None, 0, cfg);
    } else {
        let its = strip_spaces(seg);
        lemma_strip_front_width_le(seg, cfg);
        lemma_strip_back_width_le(strip_front(seg), cfg);
        let nw = items_width(its, cfg);
        assert(0 <= nw <= cfg.width);
        assert(its.skip(0) =~= its);
        if spec_justify_active(its, para_end, cfg) {
            let g = count_spaces(its);
            let s = cfg.width - nw;
            lemma_extras_total(s, g);
            lemma_elements_within(its, 0, 0, Some((s, g)), 0, cfg);
        } else {
            let off = spec_offset(cfg.alignment, nw, cfg.width as int);
            assert(off >= 0 && off + nw <= cfg.width) by {
                if cfg.alignment == HorizontalAlignment::Center {
                    vstd::arithmetic::div_mod::lemma_div_pos_is_pos(cfg.width - nw, 2);
                    vstd::arithmetic::div_mod::lemma_div_nonincreasing(cfg.width - nw, 2);
                }
            }
            lemma_elements_within(its, 0, off, None, 0, cfg);
        }
    }
}

} // verus!
