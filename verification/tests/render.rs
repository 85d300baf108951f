//! Rendering tests against a mock display, pixel for pixel.

use embedded_graphics::drawable::Pixel;
use embedded_graphics::mock_display::MockDisplay;
use embedded_graphics::pixelcolor::BinaryColor;
use embedded_graphics::DrawTarget;
use embedded_text::alignment::LeftAligned;
use embedded_text::geometry::{Point as TbPoint, Rectangle as TbRect};
use embedded_text::rendering::Pixel as TbPixel;
use embedded_text::style::{FontMetrics, TextBoxStyle, TextBoxStyleBuilder};
use embedded_text::TextBox;

fn chars(s: &str) -> Vec<char> {
    s.chars().collect()
}

fn draw(
    text: &str,
    corner: (i32, i32),
    style: TextBoxStyle<BinaryColor>,
) -> MockDisplay<BinaryColor> {
    let text = chars(text);
    let text_box = TextBox::new(
        &text,
        TbRect::with_corners(TbPoint::zero(), TbPoint::new(corner.0, corner.1)),
    );
    let pixels: Vec<TbPixel<BinaryColor>> = text_box.into_styled(style).render();
    let mut display = MockDisplay::new();
    for p in pixels {
        display
            .draw_pixel(Pixel(
                embedded_graphics::geometry::Point::new(p.position.x, p.position.y),
                p.color,
            ))
            .unwrap();
    }
    display
}

fn style_on_off() -> TextBoxStyle<BinaryColor> {
    TextBoxStyleBuilder::new(FontMetrics::font_6x8())
        .alignment(LeftAligned)
        .text_color(BinaryColor::On)
        .background_color(BinaryColor::Off)
        .build()
}

#[test]
fn simple_render() {
    let display = draw("word", (54, 7), style_on_off());

    assert_eq!(
        display,
        MockDisplay::from_pattern(&[
            "......................#.",
            "......................#.",
            "#...#..###..#.##...##.#.",
            "#...#.#...#.##..#.#..##.",
            "#.#.#.#...#.#.....#...#.",
            "#.#.#.#...#.#.....#...#.",
            ".#.#...###..#......####.",
            "........................",
        ])
    );
}

#[test]
fn simple_render_cr() {
    let style = TextBoxStyleBuilder::new(FontMetrics::font_6x8())
        .alignment(LeftAligned)
        .text_color(BinaryColor::On)
        .build();

    let display = draw("O\rX", (54, 7), style);

    assert_eq!(
        display,
        MockDisplay::from_pattern(&[
            "#####    ",
            "#   #    ",
            "## ##    ",
            "# # #    ",
            "## ##    ",
            "#   #    ",
            "#####    ",
        ])
    );
}

#[test]
fn simple_word_wrapping() {
    let display = draw("word wrapping", (54, 15), style_on_off());

    assert_eq!(
        display,
        MockDisplay::from_pattern(&[
            "......................#.                        ",
            "......................#.                        ",
            "#...#..###..#.##...##.#.                        ",
            "#...#.#...#.##..#.#..##.                        ",
            "#.#.#.#...#.#.....#...#.                        ",
            "#.#.#.#...#.#.....#...#.                        ",
            ".#.#...###..#......####.                        ",
            "........................                        ",
            "................................#...............",
            "................................................",
            "#...#.#.##...###..####..####...##...#.##...####.",
            "#...#.##..#.....#.#...#.#...#...#...##..#.#...#.",
            "#.#.#.#......####.#...#.#...#...#...#...#.#...#.",
            "#.#.#.#.....#...#.####..####....#...#...#..####.",
            ".#.#..#......####.#.....#......###..#...#.....#.",
            "..................#.....#..................###.."
        ])
    );
}

#[test]
fn simple_word_wrapping_by_space() {
    let display = draw("wrapping word", (47, 15), style_on_off());

    assert_eq!(
        display,
        MockDisplay::from_pattern(&[
            "................................#...............",
            "................................................",
            "#...#.#.##...###..####..####...##...#.##...####.",
            "#...#.##..#.....#.#...#.#...#...#...##..#.#...#.",
            "#.#.#.#......####.#...#.#...#...#...#...#.#...#.",
            "#.#.#.#.....#...#.####..####....#...#...#..####.",
            ".#.#..#......####.#.....#......###..#...#.....#.",
            "..................#.....#..................###..",
            "......................#.                        ",
            "......................#.                        ",
            "#...#..###..#.##...##.#.                        ",
            "#...#.#...#.##..#.#..##.                        ",
            "#.#.#.#...#.#.....#...#.                        ",
            "#.#.#.#...#.#.....#...#.                        ",
            ".#.#...###..#......####.                        ",
            "........................                        ",
        ])
    );
}

#[test]
fn simple_word_wrapping_with_line_spacing() {
    let style = TextBoxStyleBuilder::new(FontMetrics::font_6x8())
        .alignment(LeftAligned)
        .text_color(BinaryColor::On)
        .background_color(BinaryColor::Off)
        .line_spacing(2)
        .build();

    let display = draw("wrapping word", (47, 50), style);

    assert_eq!(
        display,
        MockDisplay::from_pattern(&[
            "................................#...............",
            "................................................",
            "#...#.#.##...###..####..####...##...#.##...####.",
            "#...#.##..#.....#.#...#.#...#...#...##..#.#...#.",
            "#.#.#.#......####.#...#.#...#...#...#...#.#...#.",
            "#.#.#.#.....#...#.####..####....#...#...#..####.",
            ".#.#..#......####.#.....#......###..#...#.....#.",
            "..................#.....#..................###..",
            "                                                ",
            "                                                ",
            "......................#.                        ",
            "......................#.                        ",
            "#...#..###..#.##...##.#.                        ",
            "#...#.#...#.##..#.#..##.                        ",
            "#.#.#.#...#.#.....#...#.                        ",
            "#.#.#.#...#.#.....#...#.                        ",
            ".#.#...###..#......####.                        ",
            "........................                        ",
        ])
    );
}

#[test]
fn simple_word_wrapping_with_negative_line_spacing() {
    let style = TextBoxStyleBuilder::new(FontMetrics::font_6x8())
        .alignment(LeftAligned)
        .text_color(BinaryColor::On)
        .background_color(BinaryColor::Off)
        .line_spacing(-1)
        .build();

    let display = draw("wrapping word", (47, 50), style);

    assert_eq!(
        display,
        MockDisplay::from_pattern(&[
            "................................#...............",
            "................................................",
            "#...#.#.##...###..####..####...##...#.##...####.",
            "#...#.##..#.....#.#...#.#...#...#...##..#.#...#.",
            "#.#.#.#......####.#...#.#...#...#...#...#.#...#.",
            "#.#.#.#.....#...#.####..####....#...#...#..####.",
            ".#.#..#......####.#.....#......###..#...#.....#.",
            "......................#.#..................###..", // note the first p being drawn over
            "......................#.                        ",
            "#...#..###..#.##...##.#.                        ",
            "#...#.#...#.##..#.#..##.                        ",
            "#.#.#.#...#.#.....#...#.                        ",
            "#.#.#.#...#.#.....#...#.                        ",
            ".#.#...###..#......####.                        ",
            "........................                        ",
        ])
    );
}

#[test]
fn whitespace_word_wrapping() {
    let display = draw("word  wrap", (30, 15), style_on_off());

    assert_eq!(
        display,
        MockDisplay::from_pattern(&[
            "......................#.......",
            "......................#.......",
            "#...#..###..#.##...##.#.......",
            "#...#.#...#.##..#.#..##.......",
            "#.#.#.#...#.#.....#...#.......",
            "#.#.#.#...#.#.....#...#.......",
            ".#.#...###..#......####.......",
            "..............................",
            "........................      ",
            "........................      ",
            "#...#.#.##...###..####..      ",
            "#...#.##..#.....#.#...#.      ",
            "#.#.#.#......####.#...#.      ",
            "#.#.#.#.....#...#.####..      ",
            ".#.#..#......####.#.....      ",
            "..................#.....      "
        ])
    );
}

#[test]
fn word_longer_than_line_wraps_word_and_removes_a_space() {
    let display = draw("word  somereallylongword", (54, 23), style_on_off());

    assert_eq!(
        display,
        MockDisplay::from_pattern(&[
            "......................#.......                        ",
            "......................#.......                        ",
            "#...#..###..#.##...##.#.......                        ",
            "#...#.#...#.##..#.#..##.......                        ",
            "#.#.#.#...#.#.....#...#.......                        ",
            "#.#.#.#...#.#.....#...#.......                        ",
            ".#.#...###..#......####.......                        ",
            "..............................                        ",
            "...........................................##....##...",
            "............................................#.....#...",
            ".####..###..##.#...###..#.##...###...###....#.....#...",
            "#.....#...#.#.#.#.#...#.##..#.#...#.....#...#.....#...",
            ".###..#...#.#...#.#####.#.....#####..####...#.....#...",
            "....#.#...#.#...#.#.....#.....#.....#...#...#.....#...",
            "####...###..#...#..###..#......###...####..###...###..",
            "......................................................",
            ".......##...........................................#.",
            "........#...........................................#.",
            "#...#...#....###..#.##...####.#...#..###..#.##...##.#.",
            "#...#...#...#...#.##..#.#...#.#...#.#...#.##..#.#..##.",
            "#...#...#...#...#.#...#.#...#.#.#.#.#...#.#.....#...#.",
            ".####...#...#...#.#...#..####.#.#.#.#...#.#.....#...#.",
            "....#..###...###..#...#.....#..#.#...###..#......####.",
            ".###.....................###..........................",
        ])
    );
}

#[test]
fn first_word_longer_than_line_wraps_word() {
    let display = draw("somereallylongword", (54, 15), style_on_off());

    assert_eq!(
        display,
        MockDisplay::from_pattern(&[
            "...........................................##....##...",
            "............................................#.....#...",
            ".####..###..##.#...###..#.##...###...###....#.....#...",
            "#.....#...#.#.#.#.#...#.##..#.#...#.....#...#.....#...",
            ".###..#...#.#...#.#####.#.....#####..####...#.....#...",
            "....#.#...#.#...#.#.....#.....#.....#...#...#.....#...",
            "####...###..#...#..###..#......###...####..###...###..",
            "......................................................",
            ".......##...........................................#.",
            "........#...........................................#.",
            "#...#...#....###..#.##...####.#...#..###..#.##...##.#.",
            "#...#...#...#...#.##..#.#...#.#...#.#...#.##..#.#..##.",
            "#...#...#...#...#.#...#.#...#.#.#.#.#...#.#.....#...#.",
            ".####...#...#...#.#...#..####.#.#.#.#...#.#.....#...#.",
            "....#..###...###..#...#.....#..#.#...###..#......####.",
            ".###.....................###..........................",
        ])
    );
}
