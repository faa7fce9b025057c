use tft_lcd::bus::BusOp;
use tft_lcd::font::{AsciiFont, FontSize};
use tft_lcd::lcd::{CharMode, Direction, LcdError, LCD};
use tft_lcd::numbers::{digit_at, digit_glyph, format_fixed, format_int};

fn text(glyphs: Vec<char>) -> String {
    glyphs.into_iter().collect()
}

/// A font from the space to '9', each glyph filled with its own code.
fn digits_font(size: FontSize) -> AsciiFont {
    let per_row = (size.x() as usize + 7) / 8;
    let len = per_row * size.y() as usize;
    let glyphs = (32u8..=57).map(|code| vec![code; len]).collect();
    AsciiFont::new(size, glyphs).unwrap()
}

#[test]
fn digits_by_weight() {
    assert_eq!(digit_at(1200, 0), 0);
    assert_eq!(digit_at(1200, 2), 2);
    assert_eq!(digit_at(1200, 3), 1);
    assert_eq!(digit_at(65535, 0), 5);
    assert_eq!(digit_at(65535, 1), 3);
    assert_eq!(digit_at(65535, 4), 6);
    assert_eq!(digit_at(9, 1), 0);
}

#[test]
fn digits_above_the_range_are_zero() {
    for k in [5u8, 6, 19, 20, 100, 255] {
        assert_eq!(digit_at(65535, k), 0);
        assert_eq!(digit_at(0, k), 0);
    }
}

#[test]
fn digit_glyphs() {
    assert_eq!(digit_glyph(0), '0');
    assert_eq!(digit_glyph(4), '4');
    assert_eq!(digit_glyph(9), '9');
}

#[test]
fn integer_with_leading_blanks() {
    assert_eq!(format_int(42, 4), vec![' ', ' ', '4', '2']);
}

#[test]
fn integer_that_fills_its_field() {
    assert_eq!(text(format_int(1200, 4)), "1200");
    assert_eq!(text(format_int(160, 3)), "160");
    assert_eq!(text(format_int(65535, 5)), "65535");
}

#[test]
fn integer_zero_shows_its_last_digit() {
    assert_eq!(text(format_int(0, 1)), "0");
    assert_eq!(text(format_int(0, 3)), "  0");
    assert_eq!(text(format_int(0, 5)), "    0");
}

#[test]
fn integer_zeros_after_the_first_digit_are_shown() {
    assert_eq!(text(format_int(1005, 4)), "1005");
    assert_eq!(text(format_int(100, 4)), " 100");
    assert_eq!(text(format_int(80, 3)), " 80");
    assert_eq!(text(format_int(10, 5)), "   10");
}

#[test]
fn integer_wider_than_its_field_loses_its_high_digits() {
    assert_eq!(text(format_int(12345, 3)), "345");
    assert_eq!(text(format_int(12045, 3)), " 45");
    assert_eq!(text(format_int(12005, 3)), "  5");
    assert_eq!(text(format_int(12000, 3)), "  0");
    assert_eq!(text(format_int(1234, 1)), "4");
}

#[test]
fn integer_in_an_empty_field() {
    assert_eq!(format_int(42, 0), Vec::<char>::new());
}

#[test]
fn integer_in_a_field_wider_than_any_number() {
    assert_eq!(text(format_int(42, 7)), "     42");
    assert_eq!(text(format_int(65535, 8)), "   65535");
    let wide = format_int(7, 255);
    assert_eq!(wide.len(), 255);
    assert!(wide[..254].iter().all(|&c| c == ' '));
    assert_eq!(wide[254], '7');
}

#[test]
fn fixed_point_with_a_leading_zero() {
    assert_eq!(format_fixed(314, 4), vec!['0', '3', '.', '1', '4']);
}

#[test]
fn fixed_point_fields() {
    assert_eq!(text(format_fixed(314, 3)), "3.14");
    assert_eq!(text(format_fixed(314, 2)), ".14");
    assert_eq!(text(format_fixed(0, 4)), "00.00");
    assert_eq!(text(format_fixed(5, 3)), "0.05");
    assert_eq!(text(format_fixed(12345, 5)), "123.45");
    assert_eq!(text(format_fixed(65535, 5)), "655.35");
    assert_eq!(text(format_fixed(12345, 4)), "23.45");
    assert_eq!(text(format_fixed(100, 7)), "00001.00");
}

#[test]
fn fixed_point_in_the_widest_field() {
    let wide = format_fixed(4207, 255);
    assert_eq!(wide.len(), 256);
    assert!(wide[..251].iter().all(|&c| c == '0'));
    assert_eq!(text(wide[251..].to_vec()), "42.07");
}

#[test]
fn show_int_num_draws_opaque_cells_a_cell_width_apart() {
    let font = digits_font(FontSize::_8x16);
    let mut lcd = LCD::new(Direction::Horizontal0);
    assert_eq!(lcd.show_int_num((58, 20), 42, 4, 1, 0, &font), Ok(()));
    let mut each = LCD::new(Direction::Horizontal0);
    each.show_char((58, 20), ' ', 1, 0, &font, CharMode::NonOverlay).unwrap();
    each.show_char((66, 20), ' ', 1, 0, &font, CharMode::NonOverlay).unwrap();
    each.show_char((74, 20), '4', 1, 0, &font, CharMode::NonOverlay).unwrap();
    each.show_char((82, 20), '2', 1, 0, &font, CharMode::NonOverlay).unwrap();
    assert_eq!(lcd.take_ops(), each.take_ops());
}

#[test]
fn show_int_num_in_a_narrow_font() {
    let font = digits_font(FontSize::_6x12);
    let mut lcd = LCD::new(Direction::Vertical0);
    assert_eq!(lcd.show_int_num((0, 0), 160, 3, 1, 0, &font), Ok(()));
    let mut each = LCD::new(Direction::Vertical0);
    each.show_char((0, 0), '1', 1, 0, &font, CharMode::NonOverlay).unwrap();
    each.show_char((6, 0), '6', 1, 0, &font, CharMode::NonOverlay).unwrap();
    each.show_char((12, 0), '0', 1, 0, &font, CharMode::NonOverlay).unwrap();
    assert_eq!(lcd.take_ops(), each.take_ops());
}

#[test]
fn show_int_num_without_digits_draws_nothing() {
    let mut lcd = LCD::new(Direction::Horizontal0);
    assert_eq!(lcd.show_int_num((0, 0), 42, 0, 1, 0, &digits_font(FontSize::_8x16)), Ok(()));
    assert_eq!(lcd.take_ops(), Vec::<BusOp>::new());
}

#[test]
fn show_int_num_reports_a_font_without_digits() {
    let font = AsciiFont::new(FontSize::_6x12, vec![vec![0; 12]]).unwrap();
    let mut lcd = LCD::new(Direction::Horizontal0);
    assert_eq!(lcd.show_int_num((0, 0), 7, 3, 1, 0, &font), Err(LcdError::OutOfTableGlyph));
    let mut each = LCD::new(Direction::Horizontal0);
    each.show_char((0, 0), ' ', 1, 0, &font, CharMode::NonOverlay).unwrap();
    each.show_char((6, 0), ' ', 1, 0, &font, CharMode::NonOverlay).unwrap();
    assert_eq!(lcd.take_ops(), each.take_ops());
}

#[test]
fn show_float_num_draws_the_point_in_a_cell_of_its_own() {
    let font = digits_font(FontSize::_8x16);
    let mut lcd = LCD::new(Direction::Horizontal0);
    assert_eq!(lcd.show_float_num((10, 40), 314, 4, 1, 0, &font), Ok(()));
    let mut each = LCD::new(Direction::Horizontal0);
    each.show_char((10, 40), '0', 1, 0, &font, CharMode::NonOverlay).unwrap();
    each.show_char((18, 40), '3', 1, 0, &font, CharMode::NonOverlay).unwrap();
    each.show_char((26, 40), '.', 1, 0, &font, CharMode::NonOverlay).unwrap();
    each.show_char((34, 40), '1', 1, 0, &font, CharMode::NonOverlay).unwrap();
    each.show_char((42, 40), '4', 1, 0, &font, CharMode::NonOverlay).unwrap();
    assert_eq!(lcd.take_ops(), each.take_ops());
}

#[test]
fn show_float_num_in_the_smallest_field() {
    let font = digits_font(FontSize::_16x32);
    let mut lcd = LCD::new(Direction::Horizontal0);
    assert_eq!(lcd.show_float_num((0, 0), 907, 2, 1, 0, &font), Ok(()));
    let mut each = LCD::new(Direction::Horizontal0);
    each.show_char((0, 0), '.', 1, 0, &font, CharMode::NonOverlay).unwrap();
    each.show_char((16, 0), '0', 1, 0, &font, CharMode::NonOverlay).unwrap();
    each.show_char((32, 0), '7', 1, 0, &font, CharMode::NonOverlay).unwrap();
    assert_eq!(lcd.take_ops(), each.take_ops());
}
