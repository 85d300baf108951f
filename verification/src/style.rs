//! Textbox styles: font metrics, colors, alignments, height modes, line
//! spacing and tab size, plus the text height measurement they induce.

use vstd::prelude::*;
use crate::alignment::{
    HorizontalAlignment, VerticalAlignment, HorizontalTextAlignment, VerticalTextAlignment,
};
use crate::layout::{LayoutConfig, spec_layout, break_rows, rows_model};

verus! {

/// Glyph metrics of a fixed-cell font: every glyph advances by the same
/// cell width and occupies the same cell height.
#[derive(Clone, Copy, Debug, PartialEq, Eq, Structural)]
pub struct FontMetrics {
    /// Width of one glyph cell in pixels.
    pub char_width: u32,
    /// Height of one glyph cell in pixels.
    pub char_height: u32,
}

impl FontMetrics {
    /// A glyph cell has at least one pixel in each direction.
    pub open spec fn wf(&self) -> bool {
        self.char_width >= 1 && self.char_height >= 1
    }

    /// The metrics of the built-in 6-by-8 font.
    pub fn font_6x8() -> (r: FontMetrics)
        ensures
            r == (FontMetrics { char_width: 6u32, char_height: 8u32 }),
            r.wf(),
    {
        FontMetrics { char_width: 6, char_height: 8 }
    }
}

/// Character-level style: the font and the two colors, each optional,
/// where a missing color means transparent.
#[derive(Clone, Copy, Debug, PartialEq, Eq)]
pub struct TextStyle<C> {
    /// The font's glyph metrics.
    pub font: FontMetrics,
    /// The foreground color of lit glyph pixels.
    pub text_color: Option<C>,
    /// The background color of unlit glyph pixels and spaces.
    pub background_color: Option<C>,
}

impl<C> TextStyle<C> {
    /// Creates a style drawing `color` on a transparent background.
    pub fn new(font: FontMetrics, color: C) -> (r: TextStyle<C>)
        ensures
            r.font == font,
            r.text_color == Some(color),
            r.background_color is None,
    {
        TextStyle { font, text_color: Some(color), background_color: None }
    }
}

/// What happens to a row that is only partly inside the box.
#[derive(Clone, Copy, Debug, PartialEq, Eq, Structural)]
pub enum VerticalOverdraw {
    /// A row is drawn only when its full height fits inside the box.
    FullRowsOnly,
    /// A partially visible row is drawn, clipped at the box edge.
    Clipped,
}

/// How the box's height is fixed before rendering starts.
#[derive(Clone, Copy, Debug, PartialEq, Eq, Structural)]
pub enum HeightMode {
    /// The height stays what the caller supplied; content is clipped to it
    /// by the overdraw policy.
    Exact(VerticalOverdraw),
    /// The height is recomputed to match the measured text exactly; it may
    /// grow or shrink.
    FitToText,
    /// The height is capped to the measured text: it can only shrink,
    /// never grow; overflow is clipped by the overdraw policy.
    ShrinkToText(VerticalOverdraw),
}

/// The complete style of a textbox.
#[derive(Clone, Copy, Debug, PartialEq, Eq)]
pub struct TextBoxStyle<C> {
    /// Font and colors.
    pub text_style: TextStyle<C>,
    /// Horizontal alignment strategy.
    pub alignment: HorizontalAlignment,
    /// Vertical alignment strategy.
    pub vertical_alignment: VerticalAlignment,
    /// Height mode applied when the style is attached to a box.
    pub height_mode: HeightMode,
    /// Signed extra pixels between consecutive rows; negative values
    /// overlap rows.
    pub line_spacing: i32,
    /// Distance between tab stops, in pixels.
    pub tab_size: u32,
}

impl<C> TextBoxStyle<C> {
    /// The font has positive cells and tab stops are positive.
    pub open spec fn wf(&self) -> bool {
        self.text_style.font.wf() && self.tab_size >= 1
    }

    /// The line-breaking configuration this style induces for a box of the
    /// given interior width.
    pub open spec fn spec_layout_config(&self, width: u32) -> LayoutConfig {
        LayoutConfig {
            width,
            char_width: self.text_style.font.char_width,
            space_width: self.text_style.font.char_width,
            tab_width: self.tab_size,
            alignment: self.alignment,
        }
    }

    /// Builds the line-breaking configuration for an interior width.
    pub fn layout_config(&self, width: u32) -> (cfg: LayoutConfig)
        requires
            self.wf(),
            width >= 1,
        ensures
            cfg == self.spec_layout_config(width),
            cfg.wf(),
    {
        LayoutConfig {
            width,
            char_width: self.text_style.font.char_width,
            space_width: self.text_style.font.char_width,
            tab_width: self.tab_size,
            alignment: self.alignment,
        }
    }

    /// Measures the height of the text when laid out at the given interior
    /// width: one font height per row plus the signed line spacing between
    /// consecutive rows, clamped to the representable range.
    pub fn measure_text_height(&self, text: &[char], width: u32) -> (h: u32)
        requires
            self.wf(),
            width >= 1,
        ensures
            h == spec_text_height(*self, text@, width),
    {
        let cfg = self.layout_config(width);
        let rows = break_rows(text, &cfg);
        let n = rows.len();
        proof {
            assert(rows@.len() == rows_model(rows@).len());
        }
        rows_height(n, self.text_style.font.char_height, self.line_spacing)
    }
}

/// The height of `n` rows: `n` font heights plus `n - 1` line spacings,
/// clamped to `[0, u32::MAX]`.
pub open spec fn spec_rows_height(n: int, char_height: u32, line_spacing: i32) -> u32 {
    if n <= 0 {
        0u32
    } else {
        let h = n * char_height + (n - 1) * line_spacing;
        if h <= 0 {
            0u32
        } else if h > u32::MAX {
            u32::MAX
        } else {
            h as u32
        }
    }
}

/// The measured height of a text under a style at a given interior width.
pub open spec fn spec_text_height<C>(style: TextBoxStyle<C>, text: Seq<char>, width: u32) -> u32 {
    spec_rows_height(
        spec_layout(text, style.spec_layout_config(width)).len() as int,
        style.text_style.font.char_height,
        style.line_spacing,
    )
}

/// Computes the clamped row-stack height.
pub fn rows_height(n: usize, char_height: u32, line_spacing: i32) -> (h: u32)
    ensures
        h == spec_rows_height(n as int, char_height, line_spacing),
{
    if n == 0 {
        return 0;
    }
    proof {
        vstd::arithmetic::mul::lemma_mul_upper_bound(
            n as int,
            usize::MAX as int,
            char_height as int,
            u32::MAX as int,
        );
        vstd::arithmetic::mul::lemma_mul_nonnegative(n as int, char_height as int);
        if line_spacing >= 0 {
            vstd::arithmetic::mul::lemma_mul_upper_bound(
                n as int - 1,
                usize::MAX as int,
                line_spacing as int,
                i32::MAX as int,
            );
            vstd::arithmetic::mul::lemma_mul_nonnegative(n as int - 1, line_spacing as int);
        } else {
            vstd::arithmetic::mul::lemma_mul_upper_bound(
                n as int - 1,
                usize::MAX as int,
                -(line_spacing as int),
                i32::MAX as int + 1,
            );
            vstd::arithmetic::mul::lemma_mul_nonnegative(n as int - 1, -(line_spacing as int));
            vstd::arithmetic::mul::lemma_mul_unary_negation(n as int - 1, line_spacing as int);
        }
    }
    let total: i128 = (n as i128) * (char_height as i128) + ((n - 1) as i128) * (
    line_spacing as i128);
    if total <= 0 {
        0
    } else if total > u32::MAX as i128 {
        u32::MAX
    } else {
        total as u32
    }
}

/// The height a height mode fixes for the box, from the box's current
/// height and the measured text height. A box always keeps at least one
/// pixel row.
pub open spec fn spec_apply_height(mode: HeightMode, current: int, measured: u32) -> int {
    match mode {
        HeightMode::Exact(_) => current,
        HeightMode::FitToText => if measured >= 1 {
            measured as int
        } else {
            1
        },
        HeightMode::ShrinkToText(_) => {
            let m: int = if measured >= 1 {
                measured as int
            } else {
                1
            };
            if m <= current {
                m
            } else {
                current
            }
        },
    }
}

/// Height-mode idempotence, arithmetic core: the measured text height
/// depends only on the text and the interior width, and a height mode
/// never changes the width, so applying the same mode to the height it
/// already produced changes nothing.
pub proof fn lemma_apply_height_idempotent(mode: HeightMode, current: int, measured: u32)
    requires
        current >= 1,
    ensures
        spec_apply_height(mode, spec_apply_height(mode, current, measured), measured)
            == spec_apply_height(mode, current, measured),
{
}

/// The overdraw policy a height mode carries; fitted boxes never clip, so
/// they use the permissive policy.
pub open spec fn spec_overdraw(mode: HeightMode) -> VerticalOverdraw {
    match mode {
        HeightMode::Exact(od) => od,
        HeightMode::FitToText => VerticalOverdraw::Clipped,
        HeightMode::ShrinkToText(od) => od,
    }
}

/// Builder for a [`TextBoxStyle`].
#[derive(Clone, Copy, Debug)]
pub struct TextBoxStyleBuilder<C> {
    /// Font and colors collected so far.
    pub text_style: TextStyle<C>,
    /// Horizontal alignment collected so far.
    pub alignment: HorizontalAlignment,
    /// Vertical alignment collected so far.
    pub vertical_alignment: VerticalAlignment,
    /// Height mode collected so far.
    pub height_mode: HeightMode,
    /// Line spacing collected so far.
    pub line_spacing: i32,
    /// Tab stop distance, if one was chosen explicitly.
    pub tab_size: Option<u32>,
}

impl<C> TextBoxStyleBuilder<C> {
    /// Starts a builder from font metrics. The defaults: left and top
    /// alignment, both colors transparent, exact height with whole rows
    /// only, no extra line spacing, tab stops four glyph cells apart.
    pub fn new(font: FontMetrics) -> (r: TextBoxStyleBuilder<C>)
        ensures
            r.text_style == (TextStyle::<C> { font, text_color: None, background_color: None }),
            r.alignment == HorizontalAlignment::Left,
            r.vertical_alignment == VerticalAlignment::Top,
            r.height_mode == HeightMode::Exact(VerticalOverdraw::FullRowsOnly),
            r.line_spacing == 0,
            r.tab_size is None,
    {
        TextBoxStyleBuilder {
            text_style: TextStyle { font, text_color: None, background_color: None },
            alignment: HorizontalAlignment::Left,
            vertical_alignment: VerticalAlignment::Top,
            height_mode: HeightMode::Exact(VerticalOverdraw::FullRowsOnly),
            line_spacing: 0,
            tab_size: None,
        }
    }

    /// Starts a builder from an existing character style.
    pub fn from_text_style(text_style: TextStyle<C>) -> (r: TextBoxStyleBuilder<C>)
        ensures
            r.text_style == text_style,
            r.alignment == HorizontalAlignment::Left,
            r.vertical_alignment == VerticalAlignment::Top,
            r.height_mode == HeightMode::Exact(VerticalOverdraw::FullRowsOnly),
            r.line_spacing == 0,
            r.tab_size is None,
    {
        TextBoxStyleBuilder {
            text_style,
            alignment: HorizontalAlignment::Left,
            vertical_alignment: VerticalAlignment::Top,
            height_mode: HeightMode::Exact(VerticalOverdraw::FullRowsOnly),
            line_spacing: 0,
            tab_size: None,
        }
    }

    /// Sets the text color. Once a color is set, no later builder call
    /// resets it to transparent.
    pub fn text_color(self, text_color: C) -> (r: TextBoxStyleBuilder<C>)
        ensures
            r == (TextBoxStyleBuilder {
                text_style: TextStyle {
                    text_color: Some(text_color),
                    ..self.text_style
                },
                ..self
            }),
    {
        TextBoxStyleBuilder {
            text_style: TextStyle { text_color: Some(text_color), ..self.text_style },
            ..self
        }
    }

    /// Sets the background color. Once a color is set, no later builder
    /// call resets it to transparent.
    pub fn background_color(self, background_color: C) -> (r: TextBoxStyleBuilder<C>)
        ensures
            r == (TextBoxStyleBuilder {
                text_style: TextStyle {
                    background_color: Some(background_color),
                    ..self.text_style
                },
                ..self
            }),
    {
        TextBoxStyleBuilder {
            text_style: TextStyle { background_color: Some(background_color), ..self.text_style },
            ..self
        }
    }

    /// Copies the set colors of an existing character style onto the
    /// builder. A transparent color of the argument changes nothing, so a
    /// color that was set earlier stays set; the font is kept as well.
    pub fn text_style(self, text_style: TextStyle<C>) -> (r: TextBoxStyleBuilder<C>)
        ensures
            r == (TextBoxStyleBuilder {
                text_style: TextStyle {
                    font: self.text_style.font,
                    text_color: if text_style.text_color is Some {
                        text_style.text_color
                    } else {
                        self.text_style.text_color
                    },
                    background_color: if text_style.background_color is Some {
                        text_style.background_color
                    } else {
                        self.text_style.background_color
                    },
                },
                ..self
            }),
    {
        let text_color = match text_style.text_color {
            Some(color) => Some(color),
            None => self.text_style.text_color,
        };
        let background_color = match text_style.background_color {
            Some(color) => Some(color),
            None => self.text_style.background_color,
        };
        TextBoxStyleBuilder {
            text_style: TextStyle { font: self.text_style.font, text_color, background_color },
            ..self
        }
    }

    /// Sets the horizontal text alignment.
    pub fn alignment<A: HorizontalTextAlignment>(self, alignment: A) -> (r: TextBoxStyleBuilder<
        C,
    >)
        ensures
            r == (TextBoxStyleBuilder { alignment: alignment.strategy_spec(), ..self }),
    {
        TextBoxStyleBuilder { alignment: alignment.strategy(), ..self }
    }

    /// Sets the vertical text alignment.
    pub fn vertical_alignment<V: VerticalTextAlignment>(
        self,
        vertical_alignment: V,
    ) -> (r: TextBoxStyleBuilder<C>)
        ensures
            r == (TextBoxStyleBuilder {
                vertical_alignment: vertical_alignment.vertical_spec(),
                ..self
            }),
    {
        TextBoxStyleBuilder { vertical_alignment: vertical_alignment.vertical(), ..self }
    }

    /// Sets the height mode.
    pub fn height_mode(self, height_mode: HeightMode) -> (r: TextBoxStyleBuilder<C>)
        ensures
            r == (TextBoxStyleBuilder { height_mode, ..self }),
    {
        TextBoxStyleBuilder { height_mode, ..self }
    }

    /// Sets the signed line spacing in pixels.
    pub fn line_spacing(self, line_spacing: i32) -> (r: TextBoxStyleBuilder<C>)
        ensures
            r == (TextBoxStyleBuilder { line_spacing, ..self }),
    {
        TextBoxStyleBuilder { line_spacing, ..self }
    }

    /// Sets the distance between tab stops in pixels; zero is lifted to one.
    pub fn tab_size(self, tab_size: u32) -> (r: TextBoxStyleBuilder<C>)
        ensures
            r == (TextBoxStyleBuilder {
                tab_size: Some(if tab_size >= 1 {
                    tab_size
                } else {
                    1
                }),
                ..self
            }),
    {
        TextBoxStyleBuilder {
            tab_size: Some(
                if tab_size >= 1 {
                    tab_size
                } else {
                    1
                },
            ),
            ..self
        }
    }

    /// The tab width the builder will hand to the style: the explicit
    /// value, or four glyph cells, saturated and at least one pixel.
    pub open spec fn spec_final_tab(self) -> u32 {
        match self.tab_size {
            Some(t) => if t >= 1 {
                t
            } else {
                1u32
            },
            None => {
                let four = 4 * self.text_style.font.char_width;
                if four > u32::MAX {
                    u32::MAX
                } else if four < 1 {
                    1u32
                } else {
                    four as u32
                }
            },
        }
    }

    /// Builds the style.
    pub fn build(self) -> (r: TextBoxStyle<C>)
        ensures
            r.text_style == self.text_style,
            r.alignment == self.alignment,
            r.vertical_alignment == self.vertical_alignment,
            r.height_mode == self.height_mode,
            r.line_spacing == self.line_spacing,
            r.tab_size == self.spec_final_tab(),
            self.text_style.font.wf() ==> r.wf(),
    {
        let tab_size: u32 = match self.tab_size {
            Some(t) => if t >= 1 {
                t
            } else {
                1
            },
            None => {
                let four: u64 = 4u64 * (self.text_style.font.char_width as u64);
                if four > u32::MAX as u64 {
                    u32::MAX
                } else if four < 1 {
                    1
                } else {
                    four as u32
                }
            },
        };
        TextBoxStyle {
            text_style: self.text_style,
            alignment: self.alignment,
            vertical_alignment: self.vertical_alignment,
            height_mode: self.height_mode,
            line_spacing: self.line_spacing,
            tab_size,
        }
    }
}

} // verus!
