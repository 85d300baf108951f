//! Scenario tests for the documented behaviors: placement, wrapping,
//! justification, height modes, and the builder.

use embedded_graphics::pixelcolor::BinaryColor;
use embedded_text::alignment::{
    BottomAligned, CenterAligned, Justified, LeftAligned, RightAligned, VerticalCenterAligned,
};
use embedded_text::geometry::{Point, RectExt, Rectangle};
use embedded_text::rendering::Pixel;
use embedded_text::style::{
    FontMetrics, HeightMode, TextBoxStyle, TextBoxStyleBuilder, TextStyle, VerticalOverdraw,
};
use embedded_text::TextBox;

fn chars(s: &str) -> Vec<char> {
    s.chars().collect()
}

fn render(
    text: &str,
    corner: (i32, i32),
    style: TextBoxStyle<BinaryColor>,
) -> Vec<Pixel<BinaryColor>> {
    let text = chars(text);
    TextBox::new(
        &text,
        Rectangle::with_corners(Point::zero(), Point::new(corner.0, corner.1)),
    )
    .into_styled(style)
    .render()
}

fn fg_style() -> TextBoxStyle<BinaryColor> {
    TextBoxStyleBuilder::new(FontMetrics::font_6x8())
        .alignment(LeftAligned)
        .text_color(BinaryColor::On)
        .build()
}

#[test]
fn single_word_placed_at_origin() {
    // A fitting word renders as a single row starting at the box origin.
    let pixels = render("word", (54, 7), fg_style());
    assert!(!pixels.is_empty());
    for p in &pixels {
        assert!(p.position.x >= 0 && p.position.x < 24);
        assert!(p.position.y >= 0 && p.position.y < 8);
    }
    // exact placement: same pixels as the word rendered in a one-row box
    let alone = render("word", (23, 7), fg_style());
    assert_eq!(pixels, alone);
}

#[test]
fn wrap_consumes_the_breaking_space() {
    // Box width exactly one word: the second word moves to the next row
    // and the space at the wrap point is consumed, not rendered.
    let pixels = render("word wrap", (23, 15), fg_style());
    let first = render("word", (23, 7), fg_style());
    let second = render("wrap", (23, 7), fg_style());
    let mut expected = first.clone();
    for p in &second {
        expected.push(Pixel {
            position: Point::new(p.position.x, p.position.y + 8),
            color: p.color,
        });
    }
    assert_eq!(pixels, expected);
}

#[test]
fn forced_overflow_stays_inside_the_box() {
    // A word wider than the whole box is split across rows, so no glyph
    // column leaves the box when a glyph cell fits at all.
    let pixels = render("word  somereallylongword", (54, 23), fg_style());
    assert!(!pixels.is_empty());
    for p in &pixels {
        assert!(p.position.x >= 0 && p.position.x <= 54, "column {} escapes", p.position.x);
        assert!(p.position.y >= 0 && p.position.y <= 23);
    }
}

#[test]
fn carriage_return_restarts_the_row() {
    // "O\rX": the carriage return rewinds to the row start, X draws over O.
    let over = render("O\rX", (54, 7), fg_style());
    let x_alone = render("X", (54, 7), fg_style());
    let o_alone = render("O", (54, 7), fg_style());
    // every pixel of X appears in the overdrawn output, at the row start
    for p in &x_alone {
        assert!(over.contains(p));
    }
    // and nothing outside the union of O and X appears
    for p in &over {
        assert!(x_alone.contains(p) || o_alone.contains(p));
    }
}

#[test]
fn justified_row_spans_the_full_width() {
    // Justified, two words on a non-final row: with the background set,
    // the row's pixels cover every column of the interior width.
    let style = TextBoxStyleBuilder::new(FontMetrics::font_6x8())
        .alignment(Justified)
        .text_color(BinaryColor::On)
        .background_color(BinaryColor::Off)
        .build();
    // width 31: "aa bb" fits the first row, "cc" wraps to the second
    let pixels = render("aa bb cc", (30, 15), style);
    let mut covered = [false; 31];
    for p in &pixels {
        if p.position.y < 8 {
            covered[p.position.x as usize] = true;
        }
    }
    assert!(covered.iter().all(|c| *c), "justified row leaves a gap: {:?}", covered);
}

#[test]
fn justified_final_row_is_not_stretched() {
    let style = TextBoxStyleBuilder::new(FontMetrics::font_6x8())
        .alignment(Justified)
        .text_color(BinaryColor::On)
        .build();
    let pixels = render("aa bb", (54, 7), style);
    // natural width of "aa bb" is 30 pixels; nothing reaches past it
    for p in &pixels {
        assert!(p.position.x < 30);
    }
}

#[test]
fn shrink_to_text_gives_exactly_two_rows() {
    // Two-line text in a much taller box: the shrunk height is exactly two
    // row heights.
    let style = TextBoxStyleBuilder::new(FontMetrics::font_6x8())
        .alignment(LeftAligned)
        .height_mode(HeightMode::ShrinkToText(VerticalOverdraw::FullRowsOnly))
        .text_color(BinaryColor::On)
        .build();
    let text = chars("word wrap");
    let styled = TextBox::new(
        &text,
        Rectangle::with_corners(Point::zero(), Point::new(23, 99)),
    )
    .into_styled(style);
    let size = RectExt::size(styled.bounding_box());
    assert_eq!(size.height, 16);
    assert_eq!(size.width, 24);
}

#[test]
fn shrink_to_text_respects_line_spacing() {
    let style = TextBoxStyleBuilder::new(FontMetrics::font_6x8())
        .alignment(LeftAligned)
        .height_mode(HeightMode::ShrinkToText(VerticalOverdraw::FullRowsOnly))
        .line_spacing(3)
        .text_color(BinaryColor::On)
        .build();
    let text = chars("word wrap");
    let styled = TextBox::new(
        &text,
        Rectangle::with_corners(Point::zero(), Point::new(23, 99)),
    )
    .into_styled(style);
    assert_eq!(RectExt::size(styled.bounding_box()).height, 19);
}

#[test]
fn height_fit_is_idempotent() {
    // Fitting the height of an already fitted box changes nothing.
    let text = chars("word wrap again");
    let mut styled = TextBox::new(
        &text,
        Rectangle::with_corners(Point::zero(), Point::new(23, 99)),
    )
    .into_styled(fg_style());
    styled.fit_height();
    let first = styled.bounding_box();
    styled.fit_height();
    assert_eq!(styled.bounding_box(), first);
    styled.fit_height_limited(1000);
    assert_eq!(styled.bounding_box(), first);
}

#[test]
fn measure_text_height_counts_rows() {
    let style = fg_style();
    let empty = chars("");
    let one = chars("word");
    let two = chars("word wrap");
    let blank = chars("a\n\nb");
    assert_eq!(style.measure_text_height(&empty, 24), 0);
    assert_eq!(style.measure_text_height(&one, 24), 8);
    assert_eq!(style.measure_text_height(&two, 24), 16);
    assert_eq!(style.measure_text_height(&blank, 24), 24);
}

#[test]
fn test_text_style_copy() {
    let text_styles: [TextStyle<BinaryColor>; 2] = [
        TextStyle {
            font: FontMetrics::font_6x8(),
            text_color: Some(BinaryColor::On),
            background_color: None,
        },
        TextStyle {
            font: FontMetrics::font_6x8(),
            text_color: None,
            background_color: Some(BinaryColor::On),
        },
    ];

    for &text_style in text_styles.iter() {
        let style = TextBoxStyleBuilder::new(FontMetrics::font_6x8())
            .text_style(text_style)
            .build();

        assert_eq!(style.text_style, text_style);
    }
}

#[test]
fn test_text_style_copy_ctr() {
    let text_styles: [TextStyle<BinaryColor>; 2] = [
        TextStyle {
            font: FontMetrics::font_6x8(),
            text_color: Some(BinaryColor::On),
            background_color: None,
        },
        TextStyle {
            font: FontMetrics::font_6x8(),
            text_color: None,
            background_color: Some(BinaryColor::On),
        },
    ];

    for &text_style in text_styles.iter() {
        let style = TextBoxStyleBuilder::from_text_style(text_style).build();

        assert_eq!(style.text_style, text_style);
    }
}

#[test]
fn test_well_formed() {
    assert_eq!(
        Rectangle::with_corners(Point::new(0, -4), Point::new(3, 0)),
        Rectangle::with_corners(Point::new(3, -4), Point::zero()).into_well_formed()
    );
}

#[test]
fn zero_tab_size_is_lifted_to_one() {
    // The builder lifts a zero tab size to one pixel.
    let style = TextBoxStyleBuilder::<BinaryColor>::new(FontMetrics::font_6x8())
        .tab_size(0)
        .build();
    assert_eq!(style.tab_size, 1);
}

#[test]
fn soft_hyphen_renders_when_the_break_is_taken() {
    // "foo\u{AD}bar" in a box that fits only "foo-": the hyphen appears.
    let taken = render("foo\u{ad}bar", (23, 15), fg_style());
    let reference = render("foo-", (23, 7), fg_style());
    let bar = render("bar", (23, 7), fg_style());
    let mut expected = reference.clone();
    for p in &bar {
        expected.push(Pixel {
            position: Point::new(p.position.x, p.position.y + 8),
            color: p.color,
        });
    }
    assert_eq!(taken, expected);

    // in a wide box the break is skipped silently
    let skipped = render("foo\u{ad}bar", (54, 7), fg_style());
    let joined = render("foobar", (54, 7), fg_style());
    assert_eq!(skipped, joined);
}

#[test]
fn bottom_alignment_moves_the_block_down() {
    let style = TextBoxStyleBuilder::new(FontMetrics::font_6x8())
        .alignment(LeftAligned)
        .vertical_alignment(BottomAligned)
        .text_color(BinaryColor::On)
        .build();
    let pixels = render("word", (54, 15), style);
    assert!(!pixels.is_empty());
    for p in &pixels {
        assert!(p.position.y >= 8 && p.position.y < 16);
    }
}

#[test]
fn center_alignment_halves_the_slack() {
    let style = TextBoxStyleBuilder::new(FontMetrics::font_6x8())
        .alignment(LeftAligned)
        .vertical_alignment(VerticalCenterAligned)
        .text_color(BinaryColor::On)
        .build();
    // box height 20, text height 8: offset (20 - 8) / 2 = 6
    let pixels = render("word", (54, 19), style);
    assert!(!pixels.is_empty());
    for p in &pixels {
        assert!(p.position.y >= 6 && p.position.y < 14);
    }
}

#[test]
fn full_rows_only_suppresses_the_partial_row() {
    // box height 12 holds one full row and half of the second
    let style = TextBoxStyleBuilder::new(FontMetrics::font_6x8())
        .alignment(LeftAligned)
        .height_mode(HeightMode::Exact(VerticalOverdraw::FullRowsOnly))
        .text_color(BinaryColor::On)
        .build();
    let pixels = render("word wrap", (23, 11), style);
    assert!(!pixels.is_empty());
    for p in &pixels {
        assert!(p.position.y < 8, "partial row drawn at {}", p.position.y);
    }
}

#[test]
fn clipped_overdraw_cuts_the_partial_row_at_the_edge() {
    let style = TextBoxStyleBuilder::new(FontMetrics::font_6x8())
        .alignment(LeftAligned)
        .height_mode(HeightMode::Exact(VerticalOverdraw::Clipped))
        .text_color(BinaryColor::On)
        .build();
    let pixels = render("word wrap", (23, 11), style);
    let clipped_rows: Vec<_> = pixels.iter().filter(|p| p.position.y >= 8).collect();
    assert!(!clipped_rows.is_empty());
    for p in &pixels {
        assert!(p.position.y < 12, "pixel below the box at {}", p.position.y);
    }
}

#[test]
fn tab_advances_to_the_next_stop() {
    // the default tab stop distance is four glyph cells: 24 pixels
    let pixels = render("a	b", (54, 7), fg_style());
    assert!(!pixels.is_empty());
    for p in &pixels {
        assert!(p.position.x < 6 || p.position.x >= 24);
    }
    assert!(pixels.iter().any(|p| p.position.x >= 24));
}

#[test]
fn right_alignment_ends_at_the_right_edge() {
    let style = TextBoxStyleBuilder::new(FontMetrics::font_6x8())
        .alignment(RightAligned)
        .text_color(BinaryColor::On)
        .background_color(BinaryColor::Off)
        .build();
    // interior width 30, "word" is 24 wide: cells span columns 6..30
    let pixels = render("word", (29, 7), style);
    assert!(!pixels.is_empty());
    for p in &pixels {
        assert!(p.position.x >= 6 && p.position.x < 30);
    }
    assert!(pixels.iter().any(|p| p.position.x == 29));
}

#[test]
fn center_alignment_splits_the_slack() {
    let style = TextBoxStyleBuilder::new(FontMetrics::font_6x8())
        .alignment(CenterAligned)
        .text_color(BinaryColor::On)
        .background_color(BinaryColor::Off)
        .build();
    // interior width 30, "word" is 24 wide: offset (30 - 24) / 2 = 3
    let pixels = render("word", (29, 7), style);
    assert!(!pixels.is_empty());
    for p in &pixels {
        assert!(p.position.x >= 3 && p.position.x < 27);
    }
}

#[test]
fn text_style_keeps_already_set_colors() {
    // Copying a character style with unset colors never resets a color
    // that an earlier builder call has set.
    let unset = TextStyle::<BinaryColor> {
        font: FontMetrics::font_6x8(),
        text_color: None,
        background_color: None,
    };
    let style = TextBoxStyleBuilder::new(FontMetrics::font_6x8())
        .text_color(BinaryColor::On)
        .background_color(BinaryColor::Off)
        .text_style(unset)
        .build();
    assert_eq!(style.text_style.text_color, Some(BinaryColor::On));
    assert_eq!(style.text_style.background_color, Some(BinaryColor::Off));

    // set colors of the argument do overwrite
    let set = TextStyle::<BinaryColor> {
        font: FontMetrics::font_6x8(),
        text_color: Some(BinaryColor::Off),
        background_color: None,
    };
    let style2 = TextBoxStyleBuilder::new(FontMetrics::font_6x8())
        .text_color(BinaryColor::On)
        .text_style(set)
        .build();
    assert_eq!(style2.text_style.text_color, Some(BinaryColor::Off));
    assert_eq!(style2.text_style.background_color, None);
}
