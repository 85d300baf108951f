//! A text-box layout and rendering engine for small monochrome and color
//! displays.
//!
//! The engine lays multi-line text out inside a bounding
//! [`geometry::Rectangle`]: it tokenizes the text, wraps words at the box
//! edge, applies horizontal and vertical alignment, applies a height mode
//! that may resize the box to the measured text, and finally produces the
//! colored pixels of the glyphs drawn with a fixed-cell bitmap font.
//!
//! The entry points are [`TextBox`] (text plus bounds), combined with a
//! [`style::TextBoxStyle`] into a [`StyledTextBox`], whose `render` method
//! yields the pixels.

use vstd::prelude::*;

pub mod alignment;
pub mod geometry;
pub mod layout;
pub mod parser;
pub mod rendering;
pub mod style;

use crate::geometry::{Point, Rectangle, RectExt, spec_into_well_formed, spec_height, spec_translate};
use crate::rendering::{Pixel, spec_render, spec_box_width};
use crate::style::{TextBoxStyle, spec_text_height, spec_apply_height, HeightMode};

verus! {

/// A piece of text with the rectangle it is to be drawn into. The bounds
/// are normalized on construction, so they are always well-formed.
pub struct TextBox<'a> {
    /// The text to be displayed, as characters.
    pub text: &'a [char],
    /// The bounding box; always well-formed.
    pub bounds: Rectangle,
}

impl<'a> TextBox<'a> {
    /// The bounds are well-formed.
    pub open spec fn wf(&self) -> bool {
        self.bounds.well_formed()
    }

    /// Creates a textbox, normalizing the bounds.
    pub fn new(text: &'a [char], bounds: Rectangle) -> (r: TextBox<'a>)
        ensures
            r.text == text,
            r.bounds == spec_into_well_formed(bounds),
            r.wf(),
    {
        TextBox { text, bounds: bounds.into_well_formed() }
    }

    /// Attaches a style; the style's height mode is applied once, here.
    pub fn into_styled<C: Copy>(self, style: TextBoxStyle<C>) -> (r: StyledTextBox<'a, C>)
        requires
            self.wf(),
            style.wf(),
        ensures
            r.text_box.text == self.text,
            r.style == style,
            r.text_box.bounds == spec_apply_height_mode(style, self.text@, self.bounds),
            r.wf(),
    {
        let mut boxed = StyledTextBox { text_box: self, style };
        match style.height_mode {
            HeightMode::Exact(_) => {
                proof {
                    lemma_with_height_same(boxed.text_box.bounds);
                }
            },
            HeightMode::FitToText => {
                boxed.fit_height_limited(u32::MAX);
            },
            HeightMode::ShrinkToText(_) => {
                let size = RectExt::size(boxed.text_box.bounds);
                boxed.fit_height_limited(size.height);
                proof {
                    lemma_shrink_via_limit(
                        style,
                        self.text@,
                        self.bounds,
                    );
                }
            },
        }
        boxed
    }

    /// Moves the textbox by an offset, clamping at the coordinate range.
    pub fn translate(&self, by: Point) -> (r: TextBox<'a>)
        ensures
            r.text == self.text,
            r.bounds == spec_translate(self.bounds, by),
    {
        TextBox { text: self.text, bounds: self.bounds.translate(by) }
    }

    /// Moves the textbox in place.
    pub fn translate_mut(&mut self, by: Point)
        ensures
            final(self).text == old(self).text,
            final(self).bounds == spec_translate(old(self).bounds, by),
    {
        self.bounds = self.bounds.translate(by);
    }

    /// The bounding box.
    pub fn bounding_box(&self) -> (r: Rectangle)
        ensures
            r == self.bounds,
    {
        self.bounds
    }
}

/// A textbox with its style attached; its rectangle is fixed.
pub struct StyledTextBox<'a, C> {
    /// The textbox, with the height mode already applied to its bounds.
    pub text_box: TextBox<'a>,
    /// The style.
    pub style: TextBoxStyle<C>,
}

/// The box with its bottom edge moved so its height becomes the target (at
/// least one pixel row), clamped at the coordinate range.
pub open spec fn spec_with_height(bounds: Rectangle, h: int) -> Rectangle {
    let target: int = if h >= 1 {
        h
    } else {
        1
    };
    let y = bounds.top_left.y + target - 1;
    Rectangle {
        top_left: bounds.top_left,
        bottom_right: Point {
            x: bounds.bottom_right.x,
            y: if y > i32::MAX {
                i32::MAX
            } else {
                y as i32
            },
        },
    }
}

/// The box a height fit gives: its height becomes the measured text
/// height, capped at `max_height`.
pub open spec fn spec_fit_height<C>(
    style: TextBoxStyle<C>,
    text: Seq<char>,
    bounds: Rectangle,
    max_height: u32,
) -> Rectangle {
    let measured = spec_text_height(style, text, spec_box_width(bounds));
    let target: u32 = if measured <= max_height {
        measured
    } else {
        max_height
    };
    spec_with_height(bounds, target as int)
}

/// The box a height mode leaves behind: unchanged for the exact mode,
/// fitted to the measured text otherwise, only ever shrunk for the
/// shrinking mode.
pub open spec fn spec_apply_height_mode<C>(
    style: TextBoxStyle<C>,
    text: Seq<char>,
    bounds: Rectangle,
) -> Rectangle {
    let measured = spec_text_height(style, text, spec_box_width(bounds));
    spec_with_height(bounds, spec_apply_height(style.height_mode, spec_height(bounds), measured))
}

/// Re-imposing a box's own height changes nothing.
proof fn lemma_with_height_same(bounds: Rectangle)
    requires
        bounds.well_formed(),
    ensures
        spec_with_height(bounds, spec_height(bounds)) == bounds,
{
}

/// Fitting with the box's own height as the cap is exactly the shrinking
/// height mode.
proof fn lemma_shrink_via_limit<C>(style: TextBoxStyle<C>, text: Seq<char>, bounds: Rectangle)
    requires
        bounds.well_formed(),
        style.height_mode is ShrinkToText,
    ensures
        spec_fit_height(
            style,
            text,
            bounds,
            if spec_height(bounds) > u32::MAX {
                u32::MAX
            } else {
                spec_height(bounds) as u32
            },
        ) == spec_apply_height_mode(style, text, bounds),
{
}

impl<'a, C: Copy> StyledTextBox<'a, C> {
    /// Both parts are well-formed.
    pub open spec fn wf(&self) -> bool {
        self.text_box.wf() && self.style.wf()
    }

    /// Sets the height of the box to the height of the text.
    pub fn fit_height(&mut self)
        requires
            old(self).wf(),
        ensures
            final(self).wf(),
            final(self).style == old(self).style,
            final(self).text_box.text == old(self).text_box.text,
            final(self).text_box.bounds == spec_fit_height(
                old(self).style,
                old(self).text_box.text@,
                old(self).text_box.bounds,
                u32::MAX,
            ),
    {
        self.fit_height_limited(u32::MAX);
    }

    /// Sets the height of the box to the height of the text, at most
    /// `max_height`; a box always keeps at least one pixel row.
    pub fn fit_height_limited(&mut self, max_height: u32)
        requires
            old(self).wf(),
        ensures
            final(self).wf(),
            final(self).style == old(self).style,
            final(self).text_box.text == old(self).text_box.text,
            final(self).text_box.bounds == spec_fit_height(
                old(self).style,
                old(self).text_box.text@,
                old(self).text_box.bounds,
                max_height,
            ),
    {
        let size = RectExt::size(self.text_box.bounds);
        let measured = self.style.measure_text_height(self.text_box.text, size.width);
        let target: u32 = if measured <= max_height {
            measured
        } else {
            max_height
        };
        let target = if target >= 1 {
            target
        } else {
            1
        };
        let y: i64 = self.text_box.bounds.top_left.y as i64 + target as i64 - 1;
        let y32: i32 = if y > i32::MAX as i64 {
            i32::MAX
        } else {
            y as i32
        };
        self.text_box.bounds = Rectangle {
            top_left: self.text_box.bounds.top_left,
            bottom_right: Point { x: self.text_box.bounds.bottom_right.x, y: y32 },
        };
    }

    /// Renders the pixel stream of the styled text: glyph pixels in the
    /// text color, cell and space backgrounds in the background color,
    /// later pixels overwriting earlier ones where rows overlap.
    pub fn render(&self) -> (pixels: Vec<Pixel<C>>)
        requires
            self.wf(),
        ensures
            pixels@ == spec_render(self.text_box.text@, self.text_box.bounds, self.style),
    {
        crate::rendering::render_pixels(self.text_box.text, &self.text_box.bounds, &self.style)
    }

    /// Moves the styled textbox by an offset.
    pub fn translate(&self, by: Point) -> (r: StyledTextBox<'a, C>)
        ensures
            r.text_box.text == self.text_box.text,
            r.text_box.bounds == spec_translate(self.text_box.bounds, by),
            r.style == self.style,
    {
        StyledTextBox { text_box: self.text_box.translate(by), style: self.style }
    }

    /// Moves the styled textbox in place.
    pub fn translate_mut(&mut self, by: Point)
        ensures
            final(self).text_box.text == old(self).text_box.text,
            final(self).text_box.bounds == spec_translate(old(self).text_box.bounds, by),
            final(self).style == old(self).style,
    {
        self.text_box.translate_mut(by);
    }

    /// The bounding box.
    pub fn bounding_box(&self) -> (r: Rectangle)
        ensures
            r == self.text_box.bounds,
    {
        self.text_box.bounds
    }
}

/// Height-mode idempotence: a height mode moves only the box's bottom
/// edge, so the interior width — the one input of the text measurement
/// besides the text itself — is unchanged, and applying the same mode to a
/// box it has already sized changes nothing.
pub proof fn lemma_height_mode_idempotent<C>(
    style: TextBoxStyle<C>,
    text: Seq<char>,
    bounds: Rectangle,
)
    requires
        bounds.well_formed(),
        style.wf(),
    ensures
        spec_apply_height_mode(style, text, spec_apply_height_mode(style, text, bounds))
            == spec_apply_height_mode(style, text, bounds),
{
    let b1 = spec_apply_height_mode(style, text, bounds);
    assert(spec_box_width(b1) == spec_box_width(bounds));
    let m = spec_text_height(style, text, spec_box_width(bounds));
    let h1 = spec_apply_height(style.height_mode, spec_height(bounds), m);
    let h2 = spec_apply_height(style.height_mode, spec_height(b1), m);
    crate::style::lemma_apply_height_idempotent(style.height_mode, spec_height(bounds), m);
    assert(spec_with_height(b1, h2) == b1);
}

} // verus!
