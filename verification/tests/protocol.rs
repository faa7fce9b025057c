use tft_lcd::bus::BusOp;
use tft_lcd::lcd::{Color, Direction, LcdError, LCD};

fn command(cmd: u8) -> Vec<BusOp> {
    vec![
        BusOp::DataSelect(false),
        BusOp::ChipSelect(false),
        BusOp::Write8(vec![cmd]),
        BusOp::ChipSelect(true),
        BusOp::DataSelect(true),
    ]
}

fn data8(bytes: &[u8]) -> Vec<BusOp> {
    vec![BusOp::ChipSelect(false), BusOp::Write8(bytes.to_vec()), BusOp::ChipSelect(true)]
}

fn data16(words: &[u16]) -> Vec<BusOp> {
    vec![BusOp::ChipSelect(false), BusOp::Write16(words.to_vec()), BusOp::ChipSelect(true)]
}

fn window(cols: (u16, u16), rows: (u16, u16)) -> Vec<BusOp> {
    let mut ops = command(0x2a);
    ops.extend(data16(&[cols.0, cols.1]));
    ops.extend(command(0x2b));
    ops.extend(data16(&[rows.0, rows.1]));
    ops.extend(command(0x2c));
    ops
}

fn register(cmd: u8, params: &[u8]) -> Vec<BusOp> {
    let mut ops = command(cmd);
    ops.extend(data8(params));
    ops
}

fn expected_init(memory_access: u8) -> Vec<BusOp> {
    let mut ops = vec![
        BusOp::Reset(false),
        BusOp::DelayMs(100),
        BusOp::Reset(true),
        BusOp::DelayMs(100),
        BusOp::Backlight(true),
        BusOp::DelayMs(100),
    ];
    ops.extend(command(0x11));
    ops.push(BusOp::DelayMs(120));
    ops.extend(register(0xb1, &[0x05, 0x3c, 0x3c]));
    ops.extend(register(0xb2, &[0x05, 0x3c, 0x3c]));
    ops.extend(register(0xb3, &[0x05, 0x3c, 0x3c, 0x05, 0x3c, 0x3c]));
    ops.extend(register(0xb4, &[0x03]));
    ops.extend(register(0xc0, &[0x0e, 0x0e, 0x04]));
    ops.extend(register(0xc1, &[0xc5]));
    ops.extend(register(0xc2, &[0x0d, 0x00]));
    ops.extend(register(0xc3, &[0x8d, 0x2a]));
    ops.extend(register(0xc4, &[0x8d, 0xee]));
    ops.extend(register(0xc5, &[0x06]));
    ops.extend(register(0x36, &[memory_access]));
    ops.extend(register(0x3a, &[0x55]));
    ops.extend(register(
        0xe0,
        &[
            0x0b, 0x17, 0x0a, 0x0d, 0x1a, 0x19, 0x16, 0x1d, 0x21, 0x26, 0x37, 0x3c, 0x00, 0x09,
            0x05, 0x10,
        ],
    ));
    ops.extend(register(
        0xe1,
        &[
            0x0c, 0x19, 0x09, 0x0d, 0x1b, 0x19, 0x15, 0x1d, 0x21, 0x26, 0x39, 0x3e, 0x00, 0x09,
            0x05, 0x10,
        ],
    ));
    ops.push(BusOp::DelayMs(120));
    ops.extend(command(0x29));
    ops
}

#[test]
fn new_driver_has_nothing_queued() {
    let mut lcd = LCD::new(Direction::Vertical1);
    assert_eq!(lcd.direction(), Direction::Vertical1);
    assert_eq!(lcd.take_ops(), Vec::<BusOp>::new());
}

#[test]
fn take_ops_starts_a_new_transcript() {
    let mut lcd = LCD::new(Direction::Horizontal0);
    lcd.draw_point(1, 2, 3);
    let first = lcd.take_ops();
    assert_eq!(first.len(), 24);
    assert_eq!(lcd.take_ops(), Vec::<BusOp>::new());
    lcd.draw_point(1, 2, 3);
    assert_eq!(lcd.take_ops(), first);
}

#[test]
fn init_sends_the_register_table_for_each_mounting() {
    let cases = [
        (Direction::Vertical0, 0x08u8),
        (Direction::Vertical1, 0xc8),
        (Direction::Horizontal0, 0x78),
        (Direction::Horizontal1, 0xa8),
    ];
    for (direction, byte) in cases {
        let mut lcd = LCD::new(direction);
        lcd.init();
        assert_eq!(lcd.take_ops(), expected_init(byte));
        assert_eq!(direction.memory_access(), byte);
    }
}

#[test]
fn init_appends_to_what_is_queued() {
    let mut lcd = LCD::new(Direction::Horizontal0);
    lcd.set_brightness(40);
    lcd.init();
    let mut expected = vec![BusOp::Brightness(40)];
    expected.extend(expected_init(0x78));
    assert_eq!(lcd.take_ops(), expected);
}

#[test]
fn window_offsets_rows_when_horizontal() {
    for direction in [Direction::Horizontal0, Direction::Horizontal1] {
        let mut lcd = LCD::new(direction);
        lcd.set_address(1, 2, 30, 40);
        assert_eq!(lcd.take_ops(), window((1, 30), (26, 64)));
    }
}

#[test]
fn window_offsets_columns_when_vertical() {
    for direction in [Direction::Vertical0, Direction::Vertical1] {
        let mut lcd = LCD::new(direction);
        lcd.set_address(1, 2, 30, 40);
        assert_eq!(lcd.take_ops(), window((25, 54), (2, 40)));
    }
}

#[test]
fn window_offset_wraps_at_sixteen_bits() {
    let mut lcd = LCD::new(Direction::Vertical0);
    lcd.set_address(65530, 0, 65535, 65535);
    assert_eq!(lcd.take_ops(), window((18, 23), (0, 65535)));
    let mut lcd = LCD::new(Direction::Horizontal0);
    lcd.set_address(65535, 65512, 0, 65511);
    assert_eq!(lcd.take_ops(), window((65535, 0), (0, 65535)));
}

#[test]
fn setting_the_same_window_twice_repeats_the_same_events() {
    let mut lcd = LCD::new(Direction::Horizontal0);
    lcd.set_address(3, 4, 5, 6);
    let once = lcd.take_ops();
    lcd.set_address(3, 4, 5, 6);
    lcd.set_address(3, 4, 5, 6);
    let twice = lcd.take_ops();
    assert_eq!(twice.len(), 2 * once.len());
    assert_eq!(&twice[..once.len()], &once[..]);
    assert_eq!(&twice[once.len()..], &once[..]);
}

#[test]
fn draw_point_sets_a_one_pixel_window_and_writes_one_word() {
    let mut lcd = LCD::new(Direction::Horizontal0);
    lcd.draw_point(7, 9, 0xF800);
    let mut expected = window((7, 7), (33, 33));
    expected.extend(data16(&[0xF800]));
    assert_eq!(lcd.take_ops(), expected);
}

#[test]
fn fill_streams_one_word_per_pixel() {
    let mut lcd = LCD::new(Direction::Horizontal0);
    lcd.fill(2, 3, 5, 5, 0x07E0);
    let mut expected = window((2, 4), (27, 28));
    for _ in 0..6 {
        expected.extend(data16(&[0x07E0]));
    }
    assert_eq!(lcd.take_ops(), expected);
}

#[test]
fn fill_of_one_pixel() {
    let mut lcd = LCD::new(Direction::Vertical0);
    lcd.fill(0, 0, 1, 1, 0xFFFF);
    let mut expected = window((24, 24), (0, 0));
    expected.extend(data16(&[0xFFFF]));
    assert_eq!(lcd.take_ops(), expected);
}

#[test]
fn fill_of_the_whole_panel_writes_every_pixel() {
    let direction = Direction::Horizontal0;
    let mut lcd = LCD::new(direction);
    lcd.fill(0, 0, direction.width(), direction.height(), Color::White.value());
    let ops = lcd.take_ops();
    let head = window((0, 159), (24, 103));
    assert_eq!(&ops[..head.len()], &head[..]);
    let pixels = &ops[head.len()..];
    assert_eq!(pixels.len(), 3 * 160 * 80);
    for chunk in pixels.chunks(3) {
        assert_eq!(chunk, &data16(&[0xFFFF])[..]);
    }
}

#[test]
fn fill_beyond_the_panel_is_forwarded_as_it_is() {
    let mut lcd = LCD::new(Direction::Horizontal0);
    lcd.fill(1000, 2000, 1002, 2001, 1);
    let mut expected = window((1000, 1001), (2024, 2024));
    expected.extend(data16(&[1]));
    expected.extend(data16(&[1]));
    assert_eq!(lcd.take_ops(), expected);
}

#[test]
fn show_picture_streams_two_bytes_per_pixel() {
    let mut lcd = LCD::new(Direction::Horizontal0);
    let pic = [0x12u8, 0x34, 0x56, 0x78, 0x9a, 0xbc, 0xde, 0xf0, 0x01, 0x02, 0x03, 0x04];
    assert_eq!(lcd.show_picture((10, 20), (3, 2), &pic), Ok(()));
    let mut expected = window((10, 12), (44, 45));
    for pixel in pic.chunks(2) {
        expected.extend(data8(pixel));
    }
    assert_eq!(lcd.take_ops(), expected);
}

#[test]
fn show_picture_ignores_bytes_past_the_last_pixel() {
    let mut lcd = LCD::new(Direction::Vertical0);
    let pic = [1u8, 2, 3, 4, 5];
    assert_eq!(lcd.show_picture((0, 0), (2, 1), &pic), Ok(()));
    let mut expected = window((24, 25), (0, 0));
    expected.extend(data8(&[1, 2]));
    expected.extend(data8(&[3, 4]));
    assert_eq!(lcd.take_ops(), expected);
}

#[test]
fn show_picture_rejects_a_short_buffer() {
    let mut lcd = LCD::new(Direction::Horizontal0);
    let pic = [0u8; 11];
    assert_eq!(lcd.show_picture((0, 0), (3, 2), &pic), Err(LcdError::MalformedImageBuffer));
    assert_eq!(lcd.take_ops(), Vec::<BusOp>::new());
    assert_eq!(lcd.show_picture((0, 0), (65535, 65535), &pic), Err(LcdError::MalformedImageBuffer));
    assert_eq!(lcd.take_ops(), Vec::<BusOp>::new());
}

#[test]
fn show_picture_without_pixels_only_sets_the_window() {
    let mut lcd = LCD::new(Direction::Horizontal0);
    assert_eq!(lcd.show_picture((5, 6), (0, 4), &[]), Ok(()));
    assert_eq!(lcd.take_ops(), window((5, 4), (30, 33)));
}

#[test]
fn set_brightness_queues_the_percentage() {
    let mut lcd = LCD::new(Direction::Horizontal0);
    lcd.set_brightness(0);
    lcd.set_brightness(100);
    assert_eq!(lcd.take_ops(), vec![BusOp::Brightness(0), BusOp::Brightness(100)]);
}

#[test]
fn area_is_the_same_in_every_mounting() {
    for direction in [
        Direction::Vertical0,
        Direction::Vertical1,
        Direction::Horizontal0,
        Direction::Horizontal1,
    ] {
        assert_eq!(direction.width() as u32 * direction.height() as u32, 80 * 160);
    }
    assert_eq!((Direction::Vertical0.width(), Direction::Vertical0.height()), (80, 160));
    assert_eq!((Direction::Vertical1.width(), Direction::Vertical1.height()), (80, 160));
    assert_eq!((Direction::Horizontal0.width(), Direction::Horizontal0.height()), (160, 80));
    assert_eq!((Direction::Horizontal1.width(), Direction::Horizontal1.height()), (160, 80));
}

#[test]
fn palette_values() {
    let palette = [
        (Color::White, 0xFFFFu16),
        (Color::Black, 0x0000),
        (Color::Blue, 0x001F),
        (Color::Gblue, 0x07FF),
        (Color::Red, 0xF800),
        (Color::Magenta, 0xF81F),
        (Color::Green, 0x07E0),
        (Color::Cyan, 0x7FFF),
        (Color::Yellow, 0xFFE0),
        (Color::Brown, 0xBC40),
        (Color::Brred, 0xFC07),
        (Color::Gray, 0x8430),
        (Color::Darkblue, 0x01CF),
        (Color::Lightblue, 0x7D7C),
        (Color::Grayblue, 0x5458),
        (Color::Lightgreen, 0x841F),
        (Color::Lgray, 0xC618),
        (Color::Lgrayblue, 0xA651),
        (Color::Lbblue, 0x2B12),
    ];
    for (color, value) in palette {
        assert_eq!(color.value(), value);
    }
}

#[test]
fn command_transfer_frames_the_bytes_with_both_lines() {
    let mut lcd = LCD::new(Direction::Horizontal0);
    lcd.write_reg(&[0x2a, 0x01]);
    assert_eq!(
        lcd.take_ops(),
        vec![
            BusOp::DataSelect(false),
            BusOp::ChipSelect(false),
            BusOp::Write8(vec![0x2a, 0x01]),
            BusOp::ChipSelect(true),
            BusOp::DataSelect(true),
        ]
    );
}

#[test]
fn payload_transfers_leave_the_command_line_alone() {
    let mut lcd = LCD::new(Direction::Horizontal0);
    lcd.write_data8(&[1, 2, 3]);
    lcd.write_data(&[0x1234, 0xFFFF]);
    lcd.write_data8(&[]);
    let mut expected = data8(&[1, 2, 3]);
    expected.extend(data16(&[0x1234, 0xFFFF]));
    expected.extend(data8(&[]));
    assert_eq!(lcd.take_ops(), expected);
}
