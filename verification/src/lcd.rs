//! Controller protocol: orientation, palette, addressing window and the
//! pixel-stream primitives everything else is drawn with.

use crate::bus::{
    command_events, copy_bytes, data16_events, data8_events, events, lemma_append_assoc,
    lemma_events_push, BusEvent, BusOp,
};
use vstd::prelude::*;

verus! {

/// Mounting of the panel: two portrait and two landscape variants.
#[derive(Clone, Copy, Debug, PartialEq, Eq, Structural)]
pub enum Direction {
    Vertical0,
    Vertical1,
    Horizontal0,
    Horizontal1,
}

/// Named colours in the packed 5-6-5 format.
#[derive(Clone, Copy, Debug, PartialEq, Eq, Structural)]
pub enum Color {
    White,
    Black,
    Blue,
    Gblue,
    Red,
    Magenta,
    Green,
    Cyan,
    Yellow,
    Brown,
    Brred,
    Gray,
    Darkblue,
    Lightblue,
    Grayblue,
    Lightgreen,
    Lgray,
    Lgrayblue,
    Lbblue,
}

/// How a glyph treats the pixels its bitmap leaves clear.
#[derive(Clone, Copy, Debug, PartialEq, Eq, Structural)]
pub enum CharMode {
    /// Paint clear bits in the background colour (opaque box).
    NonOverlay,
    /// Leave clear bits untouched (transparent).
    Overlay,
}

/// What a drawing call can fail with. None of these touches the bus.
#[derive(Clone, Copy, Debug, PartialEq, Eq, Structural)]
pub enum LcdError {
    /// A Latin font has no bitmap for the character.
    OutOfTableGlyph,
    /// An indexed font has no entry for the character.
    GlyphNotFound,
    /// A picture buffer is shorter than its dimensions require.
    MalformedImageBuffer,
}

/// Offset between panel coordinates and controller memory on the panel's
/// short axis.
pub const PANEL_OFFSET: u16 = 24;

/// Column-address-set command.
pub const CMD_COLUMN_SET: u8 = 0x2a;

/// Row-address-set command.
pub const CMD_ROW_SET: u8 = 0x2b;

/// Memory-write command: arms the controller for a pixel stream.
pub const CMD_MEMORY_WRITE: u8 = 0x2c;

impl Direction {
    /// Whether the panel stands upright (short axis horizontal).
    pub open spec fn is_vertical(self) -> bool {
        self == Direction::Vertical0 || self == Direction::Vertical1
    }

    pub open spec fn spec_width(self) -> u16 {
        if self.is_vertical() {
            80
        } else {
            160
        }
    }

    pub open spec fn spec_height(self) -> u16 {
        if self.is_vertical() {
            160
        } else {
            80
        }
    }

    /// Offset added to column addresses.
    pub open spec fn x_offset(self) -> u16 {
        if self.is_vertical() {
            PANEL_OFFSET
        } else {
            0
        }
    }

    /// Offset added to row addresses.
    pub open spec fn y_offset(self) -> u16 {
        if self.is_vertical() {
            0
        } else {
            PANEL_OFFSET
        }
    }

    pub open spec fn spec_memory_access(self) -> u8 {
        match self {
            Direction::Vertical0 => 0x08,
            Direction::Vertical1 => 0xc8,
            Direction::Horizontal0 => 0x78,
            Direction::Horizontal1 => 0xa8,
        }
    }

    /// Visible width in pixels.
    #[verifier::when_used_as_spec(spec_width)]
    pub fn width(self) -> (w: u16)
        ensures
            w == self.spec_width(),
    {
        match self {
            Direction::Vertical0 | Direction::Vertical1 => 80,
            Direction::Horizontal0 | Direction::Horizontal1 => 160,
        }
    }

    /// Visible height in pixels.
    #[verifier::when_used_as_spec(spec_height)]
    pub fn height(self) -> (h: u16)
        ensures
            h == self.spec_height(),
    {
        match self {
            Direction::Vertical0 | Direction::Vertical1 => 160,
            Direction::Horizontal0 | Direction::Horizontal1 => 80,
        }
    }

    /// Parameter of the memory-access-control register for this mounting.
    #[verifier::when_used_as_spec(spec_memory_access)]
    pub fn memory_access(self) -> (byte: u8)
        ensures
            byte == self.spec_memory_access(),
    {
        match self {
            Direction::Vertical0 => 0x08,
            Direction::Vertical1 => 0xc8,
            Direction::Horizontal0 => 0x78,
            Direction::Horizontal1 => 0xa8,
        }
    }

    /// The visible area is the same 80 by 160 pixels in every mounting; only
    /// the axes trade places, and with them the axis that carries the offset.
    pub proof fn lemma_area_is_fixed(self)
        ensures
            self.spec_width() * self.spec_height() == 80 * 160,
            self.is_vertical() ==> self.spec_width() == 80 && self.spec_height() == 160,
            !self.is_vertical() ==> self.spec_width() == 160 && self.spec_height() == 80,
            self.x_offset() + self.y_offset() == PANEL_OFFSET,
            (self.x_offset() == PANEL_OFFSET) == (self.spec_width() == 80),
            (self.y_offset() == PANEL_OFFSET) == (self.spec_height() == 80),
    {
    }
}

impl Color {
    pub open spec fn spec_value(self) -> u16 {
        match self {
            Color::White => 0xFFFF,
            Color::Black => 0x0000,
            Color::Blue => 0x001F,
            Color::Gblue => 0x07FF,
            Color::Red => 0xF800,
            Color::Magenta => 0xF81F,
            Color::Green => 0x07E0,
            Color::Cyan => 0x7FFF,
            Color::Yellow => 0xFFE0,
            Color::Brown => 0xBC40,
            Color::Brred => 0xFC07,
            Color::Gray => 0x8430,
            Color::Darkblue => 0x01CF,
            Color::Lightblue => 0x7D7C,
            Color::Grayblue => 0x5458,
            Color::Lightgreen => 0x841F,
            Color::Lgray => 0xC618,
            Color::Lgrayblue => 0xA651,
            Color::Lbblue => 0x2B12,
        }
    }

    /// The packed 16-bit value of the colour.
    #[verifier::when_used_as_spec(spec_value)]
    pub fn value(self) -> (v: u16)
        ensures
            v == self.spec_value(),
    {
        match self {
            Color::White => 0xFFFF,
            Color::Black => 0x0000,
            Color::Blue => 0x001F,
            Color::Gblue => 0x07FF,
            Color::Red => 0xF800,
            Color::Magenta => 0xF81F,
            Color::Green => 0x07E0,
            Color::Cyan => 0x7FFF,
            Color::Yellow => 0xFFE0,
            Color::Brown => 0xBC40,
            Color::Brred => 0xFC07,
            Color::Gray => 0x8430,
            Color::Darkblue => 0x01CF,
            Color::Lightblue => 0x7D7C,
            Color::Grayblue => 0x5458,
            Color::Lightgreen => 0x841F,
            Color::Lgray => 0xC618,
            Color::Lgrayblue => 0xA651,
            Color::Lbblue => 0x2B12,
        }
    }
}

/// Sum of two coordinates modulo 2^16.
pub open spec fn wrap_add(a: u16, b: int) -> u16 {
    ((a + b) % 0x1_0000) as u16
}

/// Events that select the window `(x1, y1)-(x2, y2)` and arm the controller
/// for a pixel stream. The orientation's offset is added to the axis that
/// runs along the panel's short side, modulo 2^16.
#[verifier::opaque]
pub open spec fn window_events(d: Direction, x1: u16, y1: u16, x2: u16, y2: u16) -> Seq<BusEvent> {
    command_events(seq![CMD_COLUMN_SET])
        + data16_events(seq![wrap_add(x1, d.x_offset() as int), wrap_add(x2, d.x_offset() as int)])
        + command_events(seq![CMD_ROW_SET])
        + data16_events(seq![wrap_add(y1, d.y_offset() as int), wrap_add(y2, d.y_offset() as int)])
        + command_events(seq![CMD_MEMORY_WRITE])
}

/// Events that paint the single pixel `(x, y)`.
#[verifier::opaque]
pub open spec fn point_events(d: Direction, x: u16, y: u16, color: u16) -> Seq<BusEvent> {
    window_events(d, x, y, x, y) + data16_events(seq![color])
}

/// Events of `n` single-word transfers of `color`.
pub open spec fn repeat_events(color: u16, n: nat) -> Seq<BusEvent>
    decreases n,
{
    if n == 0 {
        Seq::empty()
    } else {
        repeat_events(color, (n - 1) as nat) + data16_events(seq![color])
    }
}

/// Events of a solid fill of `[x_start, x_end) x [y_start, y_end)`.
pub open spec fn fill_events(
    d: Direction,
    x_start: u16,
    y_start: u16,
    x_end: u16,
    y_end: u16,
    color: u16,
) -> Seq<BusEvent> {
    window_events(d, x_start, y_start, (x_end - 1) as u16, (y_end - 1) as u16) + repeat_events(
        color,
        ((x_end - x_start) * (y_end - y_start)) as nat,
    )
}

/// Events of the first `n` pixels of a picture: each pixel travels as its
/// two bytes, in the order the buffer holds them.
pub open spec fn picture_pixels(pic: Seq<u8>, n: nat) -> Seq<BusEvent>
    decreases n,
{
    if n == 0 {
        Seq::empty()
    } else {
        picture_pixels(pic, (n - 1) as nat) + data8_events(seq![pic[2 * (n - 1)], pic[2 * (n - 1) + 1]])
    }
}

/// Events of a picture `length` by `width` pixels with its corner at
/// `(x, y)`.
pub open spec fn picture_events(
    d: Direction,
    x: u16,
    y: u16,
    length: u16,
    width: u16,
    pic: Seq<u8>,
) -> Seq<BusEvent> {
    window_events(d, x, y, wrap_add(x, length - 1), wrap_add(y, width - 1)) + picture_pixels(
        pic,
        (length * width) as nat,
    )
}

/// The coordinate that ends a span of `len` pixels starting at `a`, modulo
/// 2^16.
pub fn span_end(a: u16, len: u16) -> (r: u16)
    ensures
        r == wrap_add(a, len - 1),
{
    a.wrapping_add(len).wrapping_sub(1)
}

/// Sleep-out command.
pub const CMD_SLEEP_OUT: u8 = 0x11;

/// Display-on command.
pub const CMD_DISPLAY_ON: u8 = 0x29;

/// Events that load one controller register: the command byte, then its
/// parameter bytes as one payload transfer.
pub open spec fn register_events(cmd: u8, params: Seq<u8>) -> Seq<BusEvent> {
    command_events(seq![cmd]) + data8_events(params)
}

/// Events of the power-up sequence: the reset pulse and backlight with
/// their settle delays, sleep-out, the vendor's register table with the
/// memory-access byte of the mounting, and display-on.
pub open spec fn init_events(d: Direction) -> Seq<BusEvent> {
    seq![
        BusEvent::Reset(false),
        BusEvent::DelayMs(100),
        BusEvent::Reset(true),
        BusEvent::DelayMs(100),
        BusEvent::Backlight(true),
        BusEvent::DelayMs(100),
    ]
        + command_events(seq![CMD_SLEEP_OUT])
        + seq![BusEvent::DelayMs(120)]
        + register_events(0xb1, seq![0x05u8, 0x3c, 0x3c])
        + register_events(0xb2, seq![0x05u8, 0x3c, 0x3c])
        + register_events(0xb3, seq![0x05u8, 0x3c, 0x3c, 0x05, 0x3c, 0x3c])
        + register_events(0xb4, seq![0x03u8])
        + register_events(0xc0, seq![0x0eu8, 0x0e, 0x04])
        + register_events(0xc1, seq![0xc5u8])
        + register_events(0xc2, seq![0x0du8, 0x00])
        + register_events(0xc3, seq![0x8du8, 0x2a])
        + register_events(0xc4, seq![0x8du8, 0xee])
        + register_events(0xc5, seq![0x06u8])
        + register_events(0x36, seq![d.spec_memory_access()])
        + register_events(0x3a, seq![0x55u8])
        + register_events(
        0xe0,
        seq![
            0x0bu8, 0x17, 0x0a, 0x0d, 0x1a, 0x19, 0x16, 0x1d, 0x21, 0x26, 0x37, 0x3c, 0x00, 0x09,
            0x05, 0x10,
        ],
    )
        + register_events(
        0xe1,
        seq![
            0x0cu8, 0x19, 0x09, 0x0d, 0x1b, 0x19, 0x15, 0x1d, 0x21, 0x26, 0x39, 0x3e, 0x00, 0x09,
            0x05, 0x10,
        ],
    )
        + seq![BusEvent::DelayMs(120)]
        + command_events(seq![CMD_DISPLAY_ON])
}

/// Extends the events appended to a transcript by one more group.
proof fn lemma_extend(before: Seq<BusEvent>, acc: Seq<BusEvent>, next: Seq<BusEvent>) -> (sum: Seq<
    BusEvent,
>)
    ensures
        sum == acc + next,
        before + acc + next == before + sum,
{
    lemma_append_assoc(before, acc, next);
    acc + next
}

/// The display driver: an orientation and the transcript rendered so far.
pub struct LCD {
    direction: Direction,
    ops: Vec<BusOp>,
}

/// The coordinate `k` steps after `a`, modulo 2^16.
pub fn offset(a: u16, k: u16) -> (r: u16)
    ensures
        r == wrap_add(a, k as int),
{
    a.wrapping_add(k)
}

impl LCD {
    /// Events rendered and not yet handed to the transport.
    pub closed spec fn trace(&self) -> Seq<BusEvent> {
        events(self.ops@)
    }

    /// The mounting the driver was made for.
    pub closed spec fn orientation(&self) -> Direction {
        self.direction
    }

    /// A driver for a panel mounted as `direction`, with nothing rendered.
    pub fn new(direction: Direction) -> (lcd: Self)
        ensures
            lcd.trace() == Seq::<BusEvent>::empty(),
            lcd.orientation() == direction,
    {
        let lcd = LCD { direction, ops: Vec::new() };
        assert(lcd.trace() =~= Seq::<BusEvent>::empty());
        lcd
    }

    /// The mounting the driver was made for.
    pub fn direction(&self) -> (d: Direction)
        ensures
            d == self.orientation(),
    {
        self.direction
    }

    /// Hands the rendered operations to the caller and starts a new
    /// transcript.
    pub fn take_ops(&mut self) -> (ops: Vec<BusOp>)
        ensures
            events(ops@) == old(self).trace(),
            final(self).trace() == Seq::<BusEvent>::empty(),
            final(self).orientation() == old(self).orientation(),
    {
        let mut ops: Vec<BusOp> = Vec::new();
        std::mem::swap(&mut ops, &mut self.ops);
        assert(self.trace() =~= Seq::<BusEvent>::empty());
        ops
    }

    /// Queues one operation.
    fn emit(&mut self, op: BusOp)
        ensures
            final(self).trace() == old(self).trace().push(op@),
            final(self).orientation() == old(self).orientation(),
    {
        proof {
            lemma_events_push(self.ops@, op);
        }
        self.ops.push(op);
    }

    /// Dims the backlight to `percent` of full brightness.
    pub fn set_brightness(&mut self, percent: u8)
        requires
            percent <= 100,
        ensures
            final(self).trace() == old(self).trace().push(BusEvent::Brightness(percent)),
            final(self).orientation() == old(self).orientation(),
    {
        self.emit(BusOp::Brightness(percent));
    }

    /// Sends command bytes: command/data-select low, the transfer under
    /// chip-select, command/data-select high again.
    pub fn write_reg(&mut self, data: &[u8])
        ensures
            final(self).trace() == old(self).trace() + command_events(data@),
            final(self).orientation() == old(self).orientation(),
    {
        let bytes = copy_bytes(data);
        self.emit(BusOp::DataSelect(false));
        self.emit(BusOp::ChipSelect(false));
        self.emit(BusOp::Write8(bytes));
        self.emit(BusOp::ChipSelect(true));
        self.emit(BusOp::DataSelect(true));
        assert(self.trace() =~= old(self).trace() + command_events(data@));
    }

    /// Sends payload bytes under chip-select.
    pub fn write_data8(&mut self, data: &[u8])
        ensures
            final(self).trace() == old(self).trace() + data8_events(data@),
            final(self).orientation() == old(self).orientation(),
    {
        let bytes = copy_bytes(data);
        self.emit(BusOp::ChipSelect(false));
        self.emit(BusOp::Write8(bytes));
        self.emit(BusOp::ChipSelect(true));
        assert(self.trace() =~= old(self).trace() + data8_events(data@));
    }

    /// Sends 16-bit payload words under chip-select.
    pub fn write_data(&mut self, data: &[u16])
        ensures
            final(self).trace() == old(self).trace() + data16_events(data@),
            final(self).orientation() == old(self).orientation(),
    {
        let mut words: Vec<u16> = Vec::new();
        let mut i: usize = 0;
        while i < data.len()
            invariant
                i <= data.len(),
                words@ == data@.subrange(0, i as int),
            decreases data.len() - i,
        {
            words.push(data[i]);
            i += 1;
            assert(words@ == data@.subrange(0, i as int));
        }
        assert(data@.subrange(0, data.len() as int) == data@);
        self.emit(BusOp::ChipSelect(false));
        self.emit(BusOp::Write16(words));
        self.emit(BusOp::ChipSelect(true));
        assert(self.trace() =~= old(self).trace() + data16_events(data@));
    }

    /// Sends a one-byte command.
    pub(crate) fn command(&mut self, cmd: u8)
        ensures
            final(self).trace() == old(self).trace() + command_events(seq![cmd]),
            final(self).orientation() == old(self).orientation(),
    {
        let bytes: [u8; 1] = [cmd];
        assert(bytes@ =~= seq![cmd]);
        self.write_reg(&bytes);
    }

    /// Sends one pixel word.
    pub(crate) fn pixel(&mut self, color: u16)
        ensures
            final(self).trace() == old(self).trace() + data16_events(seq![color]),
            final(self).orientation() == old(self).orientation(),
    {
        let words: [u16; 1] = [color];
        assert(words@ =~= seq![color]);
        self.write_data(&words);
    }

    /// Sends the start and end of an address range.
    fn range(&mut self, start: u16, end: u16)
        ensures
            final(self).trace() == old(self).trace() + data16_events(seq![start, end]),
            final(self).orientation() == old(self).orientation(),
    {
        let words: [u16; 2] = [start, end];
        assert(words@ =~= seq![start, end]);
        self.write_data(&words);
    }

    /// Loads one controller register.
    fn register(&mut self, cmd: u8, params: &[u8])
        ensures
            final(self).trace() == old(self).trace() + register_events(cmd, params@),
            final(self).orientation() == old(self).orientation(),
    {
        self.command(cmd);
        self.write_data8(params);
        proof {
            lemma_append_assoc(old(self).trace(), command_events(seq![cmd]), data8_events(params@));
        }
    }

    /// Powers the panel up: reset pulse, backlight, sleep-out, the register
    /// table and display-on, with the settle delays between them.
    pub fn init(&mut self)
        ensures
            final(self).trace() == old(self).trace() + init_events(old(self).orientation()),
            final(self).orientation() == old(self).orientation(),
    {
        let ghost d = self.orientation();
        let ghost before = self.trace();
        self.emit(BusOp::Reset(false));
        self.emit(BusOp::DelayMs(100));
        self.emit(BusOp::Reset(true));
        self.emit(BusOp::DelayMs(100));
        self.emit(BusOp::Backlight(true));
        self.emit(BusOp::DelayMs(100));
        let ghost mut acc = seq![
            BusEvent::Reset(false),
            BusEvent::DelayMs(100),
            BusEvent::Reset(true),
            BusEvent::DelayMs(100),
            BusEvent::Backlight(true),
            BusEvent::DelayMs(100),
        ];
        assert(self.trace() =~= before + acc);
        self.command(CMD_SLEEP_OUT);
        proof {
            acc = lemma_extend(before, acc, command_events(seq![CMD_SLEEP_OUT]));
        }
        self.emit(BusOp::DelayMs(120));
        proof {
            assert(self.trace() =~= before + acc + seq![BusEvent::DelayMs(120)]);
            acc = lemma_extend(before, acc, seq![BusEvent::DelayMs(120)]);
        }
        let params: [u8; 3] = [0x05, 0x3c, 0x3c];
        assert(params@ =~= seq![0x05u8, 0x3c, 0x3c]);
        self.register(0xb1, &params);
        proof {
            acc = lemma_extend(before, acc, register_events(0xb1, seq![0x05u8, 0x3c, 0x3c]));
        }
        let params: [u8; 3] = [0x05, 0x3c, 0x3c];
        assert(params@ =~= seq![0x05u8, 0x3c, 0x3c]);
        self.register(0xb2, &params);
        proof {
            acc = lemma_extend(before, acc, register_events(0xb2, seq![0x05u8, 0x3c, 0x3c]));
        }
        let params: [u8; 6] = [0x05, 0x3c, 0x3c, 0x05, 0x3c, 0x3c];
        assert(params@ =~= seq![0x05u8, 0x3c, 0x3c, 0x05, 0x3c, 0x3c]);
        self.register(0xb3, &params);
        proof {
            acc = lemma_extend(before, acc, register_events(0xb3, seq![0x05u8, 0x3c, 0x3c, 0x05, 0x3c, 0x3c]));
        }
        // Dot inversion.
        let params: [u8; 1] = [0x03];
        assert(params@ =~= seq![0x03u8]);
        self.register(0xb4, &params);
        proof {
            acc = lemma_extend(before, acc, register_events(0xb4, seq![0x03u8]));
        }
        let params: [u8; 3] = [0x0e, 0x0e, 0x04];
        assert(params@ =~= seq![0x0eu8, 0x0e, 0x04]);
        self.register(0xc0, &params);
        proof {
            acc = lemma_extend(before, acc, register_events(0xc0, seq![0x0eu8, 0x0e, 0x04]));
        }
        let params: [u8; 1] = [0xc5];
        assert(params@ =~= seq![0xc5u8]);
        self.register(0xc1, &params);
        proof {
            acc = lemma_extend(before, acc, register_events(0xc1, seq![0xc5u8]));
        }
        let params: [u8; 2] = [0x0d, 0x00];
        assert(params@ =~= seq![0x0du8, 0x00]);
        self.register(0xc2, &params);
        proof {
            acc = lemma_extend(before, acc, register_events(0xc2, seq![0x0du8, 0x00]));
        }
        let params: [u8; 2] = [0x8d, 0x2a];
        assert(params@ =~= seq![0x8du8, 0x2a]);
        self.register(0xc3, &params);
        proof {
            acc = lemma_extend(before, acc, register_events(0xc3, seq![0x8du8, 0x2a]));
        }
        let params: [u8; 2] = [0x8d, 0xee];
        assert(params@ =~= seq![0x8du8, 0xee]);
        self.register(0xc4, &params);
        proof {
            acc = lemma_extend(before, acc, register_events(0xc4, seq![0x8du8, 0xee]));
        }
        // VCOM.
        let params: [u8; 1] = [0x06];
        assert(params@ =~= seq![0x06u8]);
        self.register(0xc5, &params);
        proof {
            acc = lemma_extend(before, acc, register_events(0xc5, seq![0x06u8]));
        }
        // Memory access control: mirroring and colour order.
        let access = self.direction.memory_access();
        let params: [u8; 1] = [access];
        assert(params@ =~= seq![d.spec_memory_access()]);
        self.register(0x36, &params);
        proof {
            acc = lemma_extend(before, acc, register_events(0x36, seq![d.spec_memory_access()]));
        }
        // Pixel format: 16 bits per pixel.
        let params: [u8; 1] = [0x55];
        assert(params@ =~= seq![0x55u8]);
        self.register(0x3a, &params);
        proof {
            acc = lemma_extend(before, acc, register_events(0x3a, seq![0x55u8]));
        }
        // Positive gamma curve.
        let params: [u8; 16] = [0x0b, 0x17, 0x0a, 0x0d, 0x1a, 0x19, 0x16, 0x1d, 0x21, 0x26, 0x37, 0x3c, 0x00, 0x09, 0x05, 0x10];
        assert(params@ =~= seq![0x0bu8, 0x17, 0x0a, 0x0d, 0x1a, 0x19, 0x16, 0x1d, 0x21, 0x26, 0x37, 0x3c, 0x00, 0x09, 0x05, 0x10]);
        self.register(0xe0, &params);
        proof {
            acc = lemma_extend(before, acc, register_events(0xe0, seq![0x0bu8, 0x17, 0x0a, 0x0d, 0x1a, 0x19, 0x16, 0x1d, 0x21, 0x26, 0x37, 0x3c, 0x00, 0x09, 0x05, 0x10]));
        }
        // Negative gamma curve.
        let params: [u8; 16] = [0x0c, 0x19, 0x09, 0x0d, 0x1b, 0x19, 0x15, 0x1d, 0x21, 0x26, 0x39, 0x3e, 0x00, 0x09, 0x05, 0x10];
        assert(params@ =~= seq![0x0cu8, 0x19, 0x09, 0x0d, 0x1b, 0x19, 0x15, 0x1d, 0x21, 0x26, 0x39, 0x3e, 0x00, 0x09, 0x05, 0x10]);
        self.register(0xe1, &params);
        proof {
            acc = lemma_extend(before, acc, register_events(0xe1, seq![0x0cu8, 0x19, 0x09, 0x0d, 0x1b, 0x19, 0x15, 0x1d, 0x21, 0x26, 0x39, 0x3e, 0x00, 0x09, 0x05, 0x10]));
        }
        self.emit(BusOp::DelayMs(120));
        proof {
            assert(self.trace() =~= before + acc + seq![BusEvent::DelayMs(120)]);
            acc = lemma_extend(before, acc, seq![BusEvent::DelayMs(120)]);
        }
        self.command(CMD_DISPLAY_ON);
        proof {
            acc = lemma_extend(before, acc, command_events(seq![CMD_DISPLAY_ON]));
        }
    }

    /// Selects the window `(x1, y1)-(x2, y2)` and arms the controller for a
    /// pixel stream.
    pub fn set_address(&mut self, x1: u16, y1: u16, x2: u16, y2: u16)
        ensures
            final(self).trace() == old(self).trace() + window_events(
                old(self).orientation(),
                x1,
                y1,
                x2,
                y2,
            ),
            final(self).orientation() == old(self).orientation(),
    {
        match self.direction {
            Direction::Vertical0 | Direction::Vertical1 => {
                self.command(CMD_COLUMN_SET);
                self.range(offset(x1, PANEL_OFFSET), offset(x2, PANEL_OFFSET));
                self.command(CMD_ROW_SET);
                self.range(y1, y2);
            },
            Direction::Horizontal0 | Direction::Horizontal1 => {
                self.command(CMD_COLUMN_SET);
                self.range(x1, x2);
                self.command(CMD_ROW_SET);
                self.range(offset(y1, PANEL_OFFSET), offset(y2, PANEL_OFFSET));
            },
        }
        self.command(CMD_MEMORY_WRITE);
        proof {
            reveal(window_events);
            let d = old(self).orientation();
            let t = old(self).trace();
            let a = command_events(seq![CMD_COLUMN_SET]);
            let b = data16_events(
                seq![wrap_add(x1, d.x_offset() as int), wrap_add(x2, d.x_offset() as int)],
            );
            let c = command_events(seq![CMD_ROW_SET]);
            let e = data16_events(
                seq![wrap_add(y1, d.y_offset() as int), wrap_add(y2, d.y_offset() as int)],
            );
            let f = command_events(seq![CMD_MEMORY_WRITE]);
            assert(self.trace() == t + a + b + c + e + f);
            lemma_append_assoc(t, a, b);
            lemma_append_assoc(t, a + b, c);
            lemma_append_assoc(t, a + b + c, e);
            lemma_append_assoc(t, a + b + c + e, f);
        }
    }

    /// Paints the pixel `(x, y)`.
    pub fn draw_point(&mut self, x: u16, y: u16, color: u16)
        ensures
            final(self).trace() == old(self).trace() + point_events(
                old(self).orientation(),
                x,
                y,
                color,
            ),
            final(self).orientation() == old(self).orientation(),
    {
        self.set_address(x, y, x, y);
        self.pixel(color);
        proof {
            reveal(point_events);
            lemma_append_assoc(
                old(self).trace(),
                window_events(old(self).orientation(), x, y, x, y),
                data16_events(seq![color]),
            );
        }
    }
    /// Fills `[x_start, x_end) x [y_start, y_end)` with one colour: the
    /// window over the area, then one word per pixel.
    pub fn fill(&mut self, x_start: u16, y_start: u16, x_end: u16, y_end: u16, color: u16)
        requires
            x_end > x_start,
            y_end > y_start,
        ensures
            final(self).trace() == old(self).trace() + fill_events(
                old(self).orientation(),
                x_start,
                y_start,
                x_end,
                y_end,
                color,
            ),
            final(self).orientation() == old(self).orientation(),
    {
        let ghost d = self.orientation();
        let ghost before = self.trace();
        let ghost window = window_events(
            d,
            x_start,
            y_start,
            (x_end - 1) as u16,
            (y_end - 1) as u16,
        );
        let ghost w = x_end - x_start;
        self.set_address(x_start, y_start, x_end - 1, y_end - 1);
        assert(self.trace() =~= before + window + repeat_events(color, 0));
        let mut y = y_start;
        assert(0 * w == 0) by (nonlinear_arith);
        while y < y_end
            invariant
                y_start <= y <= y_end,
                x_start < x_end,
                w == x_end - x_start,
                self.orientation() == d,
                self.trace() == before + window + repeat_events(
                    color,
                    ((y - y_start) * w) as nat,
                ),
            decreases y_end - y,
        {
            let mut x = x_start;
            assert(0 <= (y - y_start) * w) by (nonlinear_arith)
                requires
                    0 <= y - y_start,
                    0 <= w,
            ;
            while x < x_end
                invariant
                    x_start <= x <= x_end,
                    0 <= (y - y_start) * w,
                    self.orientation() == d,
                    self.trace() == before + window + repeat_events(
                        color,
                        ((y - y_start) * w + (x - x_start)) as nat,
                    ),
                decreases x_end - x,
            {
                let ghost n = ((y - y_start) * w + (x - x_start)) as nat;
                self.pixel(color);
                proof {
                    lemma_append_assoc(
                        before + window,
                        repeat_events(color, n),
                        data16_events(seq![color]),
                    );
                    assert(repeat_events(color, n + 1) == repeat_events(color, n) + data16_events(
                        seq![color],
                    ));
                }
                x += 1;
            }
            assert((y + 1 - y_start) * w == (y - y_start) * w + w) by (nonlinear_arith);
            y += 1;
        }
        proof {
            assert((y - y_start) * w == (x_end - x_start) * (y_end - y_start)) by (nonlinear_arith)
                requires
                    y == y_end,
                    w == x_end - x_start,
            ;
            lemma_append_assoc(
                before,
                window,
                repeat_events(color, ((x_end - x_start) * (y_end - y_start)) as nat),
            );
        }
    }

    /// Streams a picture of `dims.0` by `dims.1` pixels into the window with
    /// its corner at `pos`. Each pixel is two consecutive bytes of `pic`,
    /// sent in the order they are stored; bytes past the last pixel are
    /// ignored.
    ///
    /// A buffer with fewer than two bytes per pixel draws nothing and is
    /// reported as [`LcdError::MalformedImageBuffer`].
    pub fn show_picture(&mut self, pos: (u16, u16), dims: (u16, u16), pic: &[u8]) -> (done: Result<
        (),
        LcdError,
    >)
        ensures
            done is Ok <==> pic@.len() >= 2 * (dims.0 * dims.1),
            done is Err ==> done == Err::<(), LcdError>(LcdError::MalformedImageBuffer),
            done is Ok ==> final(self).trace() == old(self).trace() + picture_events(
                old(self).orientation(),
                pos.0,
                pos.1,
                dims.0,
                dims.1,
                pic@,
            ),
            done is Err ==> final(self).trace() == old(self).trace(),
            final(self).orientation() == old(self).orientation(),
    {
        let (x, y) = pos;
        let (length, width) = dims;
        assert(0 <= length * width <= 0xFFFF * 0xFFFF) by (nonlinear_arith)
            requires
                0 <= length <= 0xFFFF,
                0 <= width <= 0xFFFF,
        ;
        let count: u64 = (length as u64) * (width as u64);
        if (pic.len() as u64) < 2 * count {
            return Err(LcdError::MalformedImageBuffer);
        }
        let ghost d = self.orientation();
        let ghost before = self.trace();
        let ghost window = window_events(
            d,
            x,
            y,
            wrap_add(x, length - 1),
            wrap_add(y, width - 1),
        );
        self.set_address(x, y, span_end(x, length), span_end(y, width));
        assert(self.trace() =~= before + window + picture_pixels(pic@, 0));
        let mut k: usize = 0;
        while (k as u64) < count
            invariant
                k <= count,
                count == length * width,
                2 * count <= pic@.len(),
                pic@.len() <= usize::MAX,
                self.orientation() == d,
                self.trace() == before + window + picture_pixels(pic@, k as nat),
            decreases count - k,
        {
            let bytes: [u8; 2] = [pic[k * 2], pic[k * 2 + 1]];
            assert(bytes@ =~= seq![pic@[2 * k], pic@[2 * k + 1]]);
            self.write_data8(&bytes);
            proof {
                lemma_append_assoc(
                    before + window,
                    picture_pixels(pic@, k as nat),
                    data8_events(seq![pic@[2 * k], pic@[2 * k + 1]]),
                );
            }
            k += 1;
        }
        proof {
            lemma_append_assoc(before, window, picture_pixels(pic@, count as nat));
        }
        Ok(())
    }
}

} // verus!
