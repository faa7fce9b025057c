//! Command framing for a W25Q serial NOR flash: identification, erase,
//! paged programming and reads, rendered as a transcript for the transport.

use vstd::prelude::*;

verus! {

/// Bytes in one programmable page.
pub const SPI_FLASH_PAGE_SIZE: usize = 256;

/// Most bytes one page-program command accepts.
pub const SPI_FLASH_PER_WRITE_PAGE_SIZE: usize = 256;

pub const W25X_WRITE_ENABLE: u8 = 0x06;

pub const W25X_WRITE_DISABLE: u8 = 0x04;

pub const W25X_READ_STATUS_REG: u8 = 0x05;

pub const W25X_WRITE_STATUS_REG: u8 = 0x01;

pub const W25X_READ_DATA: u8 = 0x03;

pub const W25X_FAST_READ_DATA: u8 = 0x0B;

pub const W25X_FAST_READ_DUAL: u8 = 0x3B;

pub const W25X_PAGE_PROGRAM: u8 = 0x02;

pub const W25X_BLOCK_ERASE: u8 = 0xD8;

pub const W25X_SECTOR_ERASE: u8 = 0x20;

pub const W25X_CHIP_ERASE: u8 = 0xC7;

pub const W25X_POWER_DOWN: u8 = 0xB9;

pub const W25X_RELEASE_POWER_DOWN: u8 = 0xAB;

pub const W25X_DEVICE_ID: u8 = 0xAB;

pub const W25X_MANUFACT_DEVICE_ID: u8 = 0x90;

pub const W25X_JEDEC_DEVICE_ID: u8 = 0x9F;

/// Write-in-progress bit of the status register.
pub const WIP_FLAG: u8 = 0x01;

/// Byte clocked out while the chip answers.
pub const DUMMY_BYTE: u8 = 0xFF;

/// Chips of the family, by their JEDEC identification.
#[derive(Clone, Copy, Debug, PartialEq, Eq, Structural)]
pub enum W25QxxID {
    W25Q16,
    W25Q32,
    W25Q64,
    W25Q80,
}

impl W25QxxID {
    pub open spec fn spec_id(self) -> u32 {
        match self {
            W25QxxID::W25Q16 => 0xEF4015,
            W25QxxID::W25Q32 => 0xEF4016,
            W25QxxID::W25Q64 => 0xEF4017,
            W25QxxID::W25Q80 => 0xEF4014,
        }
    }

    pub open spec fn spec_megabytes(self) -> u8 {
        match self {
            W25QxxID::W25Q16 => 2,
            W25QxxID::W25Q32 => 4,
            W25QxxID::W25Q64 => 8,
            W25QxxID::W25Q80 => 1,
        }
    }

    /// The JEDEC identification of the chip.
    #[verifier::when_used_as_spec(spec_id)]
    pub fn id(self) -> (id: u32)
        ensures
            id == self.spec_id(),
    {
        match self {
            W25QxxID::W25Q16 => 0xEF4015,
            W25QxxID::W25Q32 => 0xEF4016,
            W25QxxID::W25Q64 => 0xEF4017,
            W25QxxID::W25Q80 => 0xEF4014,
        }
    }

    /// Capacity of the chip in megabytes.
    #[verifier::when_used_as_spec(spec_megabytes)]
    pub fn megabytes(self) -> (mb: u8)
        ensures
            mb == self.spec_megabytes(),
    {
        match self {
            W25QxxID::W25Q16 => 2,
            W25QxxID::W25Q32 => 4,
            W25QxxID::W25Q64 => 8,
            W25QxxID::W25Q80 => 1,
        }
    }

    /// The chip with the given identification, or the number back if no
    /// chip of the family has it.
    pub fn try_from_primitive(number: u32) -> (chip: Result<W25QxxID, u32>)
        ensures
            chip matches Ok(c) ==> c.spec_id() == number,
            chip matches Err(n) ==> n == number && forall|c: W25QxxID| c.spec_id() != number,
    {
        if number == 0xEF4015 {
            Ok(W25QxxID::W25Q16)
        } else if number == 0xEF4016 {
            Ok(W25QxxID::W25Q32)
        } else if number == 0xEF4017 {
            Ok(W25QxxID::W25Q64)
        } else if number == 0xEF4014 {
            Ok(W25QxxID::W25Q80)
        } else {
            Err(number)
        }
    }
}

/// One step on the flash link, in the order the transport must perform it.
#[derive(Clone, Debug, PartialEq, Eq)]
pub enum FlashOp {
    /// Drive the chip-select line (low selects the chip).
    ChipSelect(bool),
    /// Send the bytes.
    Write(Vec<u8>),
    /// Send the bytes and keep what comes back in their place.
    Transfer(Vec<u8>),
    /// Receive this many bytes.
    Read(usize),
    /// Exchange one dummy byte at a time until the status that comes back
    /// is not busy.
    AwaitIdle,
}

/// Mathematical value of a [`FlashOp`].
pub ghost enum FlashEvent {
    ChipSelect(bool),
    Write(Seq<u8>),
    Transfer(Seq<u8>),
    Read(nat),
    AwaitIdle,
}

impl View for FlashOp {
    type V = FlashEvent;

    open spec fn view(&self) -> FlashEvent {
        match *self {
            FlashOp::ChipSelect(level) => FlashEvent::ChipSelect(level),
            FlashOp::Write(bytes) => FlashEvent::Write(bytes@),
            FlashOp::Transfer(bytes) => FlashEvent::Transfer(bytes@),
            FlashOp::Read(n) => FlashEvent::Read(n as nat),
            FlashOp::AwaitIdle => FlashEvent::AwaitIdle,
        }
    }
}

/// The events that a list of operations stands for, in order.
pub open spec fn flash_events(ops: Seq<FlashOp>) -> Seq<FlashEvent> {
    ops.map_values(|op: FlashOp| op@)
}

/// A command byte followed by the low three bytes of an address, most
/// significant first.
pub open spec fn addressed(cmd: u8, addr: u32) -> Seq<u8> {
    seq![
        cmd,
        ((addr / 0x1_0000) % 0x100) as u8,
        ((addr / 0x100) % 0x100) as u8,
        (addr % 0x100) as u8,
    ]
}

/// Events that set the write-enable latch.
pub open spec fn write_enable_events() -> Seq<FlashEvent> {
    seq![
        FlashEvent::ChipSelect(false),
        FlashEvent::Write(seq![W25X_WRITE_ENABLE]),
        FlashEvent::ChipSelect(true),
    ]
}

/// Events that wait for a program or erase cycle to end.
pub open spec fn wait_events() -> Seq<FlashEvent> {
    seq![
        FlashEvent::ChipSelect(false),
        FlashEvent::Write(seq![W25X_READ_STATUS_REG]),
        FlashEvent::AwaitIdle,
        FlashEvent::ChipSelect(true),
    ]
}

/// Events that ask for the device identification.
pub open spec fn device_id_events() -> Seq<FlashEvent> {
    seq![
        FlashEvent::ChipSelect(false),
        FlashEvent::Transfer(seq![W25X_DEVICE_ID, DUMMY_BYTE, DUMMY_BYTE, DUMMY_BYTE, DUMMY_BYTE]),
        FlashEvent::ChipSelect(true),
    ]
}

/// Events that ask for the JEDEC identification.
pub open spec fn jedec_id_events() -> Seq<FlashEvent> {
    seq![
        FlashEvent::ChipSelect(false),
        FlashEvent::Transfer(seq![W25X_JEDEC_DEVICE_ID, DUMMY_BYTE, DUMMY_BYTE, DUMMY_BYTE]),
        FlashEvent::ChipSelect(true),
    ]
}

/// Events that erase the sector at `addr`.
pub open spec fn sector_erase_events(addr: u32) -> Seq<FlashEvent> {
    write_enable_events() + wait_events() + seq![
        FlashEvent::ChipSelect(false),
        FlashEvent::Write(addressed(W25X_SECTOR_ERASE, addr)),
        FlashEvent::ChipSelect(true),
    ] + wait_events()
}

/// The bytes one page-program command takes from `data`: all of it, up to
/// a page.
pub open spec fn page_payload(data: Seq<u8>) -> Seq<u8> {
    if data.len() <= SPI_FLASH_PER_WRITE_PAGE_SIZE {
        data
    } else {
        data.subrange(0, SPI_FLASH_PER_WRITE_PAGE_SIZE as int)
    }
}

/// Events that program `data` at `addr` with one page-program command.
#[verifier::opaque]
pub open spec fn page_write_events(data: Seq<u8>, addr: u32) -> Seq<FlashEvent> {
    write_enable_events() + seq![
        FlashEvent::ChipSelect(false),
        FlashEvent::Write(addressed(W25X_PAGE_PROGRAM, addr)),
        FlashEvent::Write(page_payload(data)),
        FlashEvent::ChipSelect(true),
    ] + wait_events()
}

/// Events that read `len` bytes starting at `addr`.
pub open spec fn read_events(len: nat, addr: u32) -> Seq<FlashEvent> {
    seq![
        FlashEvent::ChipSelect(false),
        FlashEvent::Write(addressed(W25X_READ_DATA, addr)),
        FlashEvent::Read(len),
        FlashEvent::ChipSelect(true),
    ]
}

/// Bytes between `addr` and the end of the page it lies in.
pub open spec fn room_in_page(addr: int) -> int {
    SPI_FLASH_PAGE_SIZE - addr % (SPI_FLASH_PAGE_SIZE as int)
}

/// Length of the piece that programming takes next once `done` bytes of
/// `len` are written from `addr` on: up to the end of the page, or to the
/// end of the data.
pub open spec fn next_piece(addr: u32, len: nat, done: nat) -> nat {
    let room = room_in_page(addr + done);
    if len - done < room {
        (len - done) as nat
    } else {
        room as nat
    }
}

/// Events that program the bytes of `data` from position `done` on at
/// `addr + done`, piece by piece, no piece crossing a page boundary.
/// Addresses are taken modulo 2^32.
pub open spec fn buffer_write_events(data: Seq<u8>, addr: u32, done: nat) -> Seq<FlashEvent>
    decreases data.len() - done,
{
    if done >= data.len() {
        Seq::empty()
    } else {
        let n = next_piece(addr, data.len(), done);
        page_write_events(
            data.subrange(done as int, (done + n) as int),
            ((addr + done) % 0x1_0000_0000) as u32,
        ) + buffer_write_events(data, addr, done + n)
    }
}

/// An address kept modulo 2^32 lies in its page where the unreduced address
/// does, and stepping it is stepping the unreduced address.
pub proof fn lemma_address_step(start: u32, done: nat, n: nat, current: u32)
    requires
        current == (start + done) % 0x1_0000_0000,
    ensures
        current % 256 == (start + done) % 256,
        (current + n) % 0x1_0000_0000 == (start + done + n) % 0x1_0000_0000,
{
    let x = start + done;
    let q = x / 0x1_0000_0000;
    assert(x == q * 0x1_0000_0000 + current);
    assert(x == (q * 0x100_0000) * 256 + current);
    vstd::arithmetic::div_mod::lemma_mod_multiples_vanish(q * 0x100_0000, current as int, 256);
    vstd::arithmetic::div_mod::lemma_mod_multiples_vanish(q, current + n, 0x1_0000_0000);
}

/// Concatenation of flash event sequences is associative.
pub proof fn lemma_flash_assoc(a: Seq<FlashEvent>, b: Seq<FlashEvent>, c: Seq<FlashEvent>)
    ensures
        (a + b) + c == a + (b + c),
{
    assert((a + b) + c =~= a + (b + c));
}

/// The flash driver: the transcript rendered so far.
pub struct W25Qxx {
    ops: Vec<FlashOp>,
}

impl W25Qxx {
    /// Events rendered and not yet handed to the transport.
    pub closed spec fn trace(&self) -> Seq<FlashEvent> {
        flash_events(self.ops@)
    }

    /// A driver with nothing rendered.
    pub fn new() -> (flash: Self)
        ensures
            flash.trace() == Seq::<FlashEvent>::empty(),
    {
        let flash = W25Qxx { ops: Vec::new() };
        assert(flash.trace() =~= Seq::<FlashEvent>::empty());
        flash
    }

    /// Hands the rendered operations to the caller and starts a new
    /// transcript.
    pub fn take_ops(&mut self) -> (ops: Vec<FlashOp>)
        ensures
            flash_events(ops@) == old(self).trace(),
            final(self).trace() == Seq::<FlashEvent>::empty(),
    {
        let mut ops: Vec<FlashOp> = Vec::new();
        std::mem::swap(&mut ops, &mut self.ops);
        assert(self.trace() =~= Seq::<FlashEvent>::empty());
        ops
    }

    /// Queues one operation.
    fn emit(&mut self, op: FlashOp)
        ensures
            final(self).trace() == old(self).trace().push(op@),
    {
        assert(flash_events(self.ops@.push(op)) =~= flash_events(self.ops@).push(op@));
        self.ops.push(op);
    }

    /// Queues a command byte with a 24-bit address under chip-select,
    /// leaving the chip selected.
    fn select_addressed(&mut self, cmd: u8, addr: u32)
        ensures
            final(self).trace() == old(self).trace() + seq![
                FlashEvent::ChipSelect(false),
                FlashEvent::Write(addressed(cmd, addr)),
            ],
    {
        let mut bytes: Vec<u8> = Vec::new();
        bytes.push(cmd);
        bytes.push(((addr / 0x1_0000) % 0x100) as u8);
        bytes.push(((addr / 0x100) % 0x100) as u8);
        bytes.push((addr % 0x100) as u8);
        assert(bytes@ =~= addressed(cmd, addr));
        self.emit(FlashOp::ChipSelect(false));
        self.emit(FlashOp::Write(bytes));
        assert(self.trace() =~= old(self).trace() + seq![
            FlashEvent::ChipSelect(false),
            FlashEvent::Write(addressed(cmd, addr)),
        ]);
    }

    /// Asks for the device identification. The answer is the last of the
    /// five bytes that come back: see [`W25Qxx::device_id_of`].
    pub fn read_device_id(&mut self)
        ensures
            final(self).trace() == old(self).trace() + device_id_events(),
    {
        let mut bytes: Vec<u8> = Vec::new();
        bytes.push(W25X_DEVICE_ID);
        bytes.push(DUMMY_BYTE);
        bytes.push(DUMMY_BYTE);
        bytes.push(DUMMY_BYTE);
        bytes.push(DUMMY_BYTE);
        assert(bytes@ =~= seq![W25X_DEVICE_ID, DUMMY_BYTE, DUMMY_BYTE, DUMMY_BYTE, DUMMY_BYTE]);
        self.emit(FlashOp::ChipSelect(false));
        self.emit(FlashOp::Transfer(bytes));
        self.emit(FlashOp::ChipSelect(true));
        assert(self.trace() =~= old(self).trace() + device_id_events());
    }

    /// The device identification in the answer to
    /// [`W25Qxx::read_device_id`].
    pub fn device_id_of(reply: &[u8; 5]) -> (id: u8)
        ensures
            id == reply@[4],
    {
        reply[4]
    }

    /// Asks for the JEDEC identification. The answer is in the last three
    /// of the four bytes that come back: see [`W25Qxx::id_of`].
    pub fn read_id(&mut self)
        ensures
            final(self).trace() == old(self).trace() + jedec_id_events(),
    {
        let mut bytes: Vec<u8> = Vec::new();
        bytes.push(W25X_JEDEC_DEVICE_ID);
        bytes.push(DUMMY_BYTE);
        bytes.push(DUMMY_BYTE);
        bytes.push(DUMMY_BYTE);
        assert(bytes@ =~= seq![W25X_JEDEC_DEVICE_ID, DUMMY_BYTE, DUMMY_BYTE, DUMMY_BYTE]);
        self.emit(FlashOp::ChipSelect(false));
        self.emit(FlashOp::Transfer(bytes));
        self.emit(FlashOp::ChipSelect(true));
        assert(self.trace() =~= old(self).trace() + jedec_id_events());
    }

    /// The JEDEC identification in the answer to [`W25Qxx::read_id`]:
    /// manufacturer, memory type and capacity, most significant first.
    pub fn id_of(reply: &[u8; 4]) -> (id: u32)
        ensures
            id == reply@[1] * 0x1_0000 + reply@[2] * 0x100 + reply@[3],
    {
        (reply[1] as u32) * 0x1_0000 + (reply[2] as u32) * 0x100 + (reply[3] as u32)
    }

    /// Whether a status byte reports a program or erase cycle in progress.
    pub fn is_busy(status: u8) -> (busy: bool)
        ensures
            busy == (status & WIP_FLAG != 0),
    {
        status & WIP_FLAG != 0
    }

    /// Sets the write-enable latch.
    pub fn write_enable(&mut self)
        ensures
            final(self).trace() == old(self).trace() + write_enable_events(),
    {
        let mut bytes: Vec<u8> = Vec::new();
        bytes.push(W25X_WRITE_ENABLE);
        assert(bytes@ =~= seq![W25X_WRITE_ENABLE]);
        self.emit(FlashOp::ChipSelect(false));
        self.emit(FlashOp::Write(bytes));
        self.emit(FlashOp::ChipSelect(true));
        assert(self.trace() =~= old(self).trace() + write_enable_events());
    }

    /// Waits for a program or erase cycle to end: selects the status
    /// register and polls it until it is not busy.
    pub fn wait_for_write_end(&mut self)
        ensures
            final(self).trace() == old(self).trace() + wait_events(),
    {
        let mut bytes: Vec<u8> = Vec::new();
        bytes.push(W25X_READ_STATUS_REG);
        assert(bytes@ =~= seq![W25X_READ_STATUS_REG]);
        self.emit(FlashOp::ChipSelect(false));
        self.emit(FlashOp::Write(bytes));
        self.emit(FlashOp::AwaitIdle);
        self.emit(FlashOp::ChipSelect(true));
        assert(self.trace() =~= old(self).trace() + wait_events());
    }

    /// Erases the sector at `sector_addr`.
    pub fn sector_erase(&mut self, sector_addr: u32)
        ensures
            final(self).trace() == old(self).trace() + sector_erase_events(sector_addr),
    {
        let ghost before = self.trace();
        self.write_enable();
        self.wait_for_write_end();
        self.select_addressed(W25X_SECTOR_ERASE, sector_addr);
        self.emit(FlashOp::ChipSelect(true));
        let ghost erase = seq![
            FlashEvent::ChipSelect(false),
            FlashEvent::Write(addressed(W25X_SECTOR_ERASE, sector_addr)),
            FlashEvent::ChipSelect(true),
        ];
        assert(self.trace() =~= before + write_enable_events() + wait_events() + erase);
        self.wait_for_write_end();
        proof {
            lemma_flash_assoc(before, write_enable_events(), wait_events());
            lemma_flash_assoc(before, write_enable_events() + wait_events(), erase);
            lemma_flash_assoc(
                before,
                write_enable_events() + wait_events() + erase,
                wait_events(),
            );
        }
    }

    /// Programs `buffer` at `write_addr` with one page-program command.
    /// Bytes past the first page of `buffer` are left out.
    pub fn page_write(&mut self, buffer: &[u8], write_addr: u32)
        ensures
            final(self).trace() == old(self).trace() + page_write_events(buffer@, write_addr),
    {
        let ghost before = self.trace();
        self.write_enable();
        self.select_addressed(W25X_PAGE_PROGRAM, write_addr);
        let write_count = if buffer.len() < SPI_FLASH_PER_WRITE_PAGE_SIZE {
            buffer.len()
        } else {
            SPI_FLASH_PER_WRITE_PAGE_SIZE
        };
        let mut payload: Vec<u8> = Vec::new();
        let mut i: usize = 0;
        while i < write_count
            invariant
                i <= write_count <= buffer.len(),
                payload@ == buffer@.subrange(0, i as int),
            decreases write_count - i,
        {
            payload.push(buffer[i]);
            i += 1;
            assert(payload@ == buffer@.subrange(0, i as int));
        }
        assert(payload@ =~= page_payload(buffer@));
        self.emit(FlashOp::Write(payload));
        self.emit(FlashOp::ChipSelect(true));
        let ghost program = seq![
            FlashEvent::ChipSelect(false),
            FlashEvent::Write(addressed(W25X_PAGE_PROGRAM, write_addr)),
            FlashEvent::Write(page_payload(buffer@)),
            FlashEvent::ChipSelect(true),
        ];
        assert(self.trace() =~= before + write_enable_events() + program);
        self.wait_for_write_end();
        proof {
            reveal(page_write_events);
            lemma_flash_assoc(before, write_enable_events(), program);
            lemma_flash_assoc(before, write_enable_events() + program, wait_events());
        }
    }

    /// Reads `len` bytes starting at `read_addr`; the transport delivers
    /// them.
    pub fn buffer_read(&mut self, len: usize, read_addr: u32)
        ensures
            final(self).trace() == old(self).trace() + read_events(len as nat, read_addr),
    {
        self.select_addressed(W25X_READ_DATA, read_addr);
        self.emit(FlashOp::Read(len));
        self.emit(FlashOp::ChipSelect(true));
        assert(self.trace() =~= old(self).trace() + read_events(len as nat, read_addr));
    }

    /// Programs `buffer` at `write_addr`, however long it is and wherever
    /// it starts: in pieces that each stay within one page.
    pub fn buffer_write(&mut self, buffer: &[u8], write_addr: u32)
        ensures
            final(self).trace() == old(self).trace() + buffer_write_events(buffer@, write_addr, 0),
    {
        let ghost before = self.trace();
        let ghost whole = buffer_write_events(buffer@, write_addr, 0);
        let total_bytes = buffer.len();
        let mut current_addr = write_addr;
        let mut bytes_written: usize = 0;
        while bytes_written < total_bytes
            invariant
                bytes_written <= total_bytes == buffer@.len(),
                current_addr == (write_addr + bytes_written) % 0x1_0000_0000,
                whole == buffer_write_events(buffer@, write_addr, 0),
                before + whole == self.trace() + buffer_write_events(
                    buffer@,
                    write_addr,
                    bytes_written as nat,
                ),
            decreases total_bytes - bytes_written,
        {
            let bytes_to_write = piece_len(current_addr, total_bytes - bytes_written);
            let ghost here = self.trace();
            proof {
                lemma_piece(buffer@, write_addr, bytes_written as nat, current_addr);
            }
            let chunk = slice_part(buffer, bytes_written, bytes_written + bytes_to_write);
            self.page_write(chunk, current_addr);
            proof {
                lemma_flash_assoc(
                    here,
                    page_write_events(chunk@, current_addr),
                    buffer_write_events(
                        buffer@,
                        write_addr,
                        (bytes_written + bytes_to_write) as nat,
                    ),
                );
            }
            bytes_written += bytes_to_write;
            current_addr = step_address(current_addr, bytes_to_write);
        }
        proof {
            lemma_done(buffer@, write_addr, bytes_written as nat);
            assert(self.trace() + Seq::<FlashEvent>::empty() =~= self.trace());
        }
    }
}

/// Length of the next piece: to the end of the page `current` lies in, or
/// to the end of the data.
fn piece_len(current: u32, remaining: usize) -> (n: usize)
    requires
        remaining > 0,
    ensures
        1 <= n <= remaining,
        n <= SPI_FLASH_PAGE_SIZE,
        n == if remaining < SPI_FLASH_PAGE_SIZE - current % 256 {
            remaining as int
        } else {
            SPI_FLASH_PAGE_SIZE - current % 256
        },
{
    let page_offset = (current % 256) as usize;
    let room = SPI_FLASH_PAGE_SIZE - page_offset;
    if remaining < room {
        remaining
    } else {
        room
    }
}

/// The address `n` bytes on, modulo 2^32.
fn step_address(current: u32, n: usize) -> (next: u32)
    requires
        n <= SPI_FLASH_PAGE_SIZE,
    ensures
        next == (current + n) % 0x1_0000_0000,
{
    current.wrapping_add(n as u32)
}

/// With data left to program, the next piece is what the page of the
/// current address leaves room for, and the events are that piece's
/// followed by those of the rest.
proof fn lemma_piece(data: Seq<u8>, start: u32, done: nat, current: u32)
    requires
        done < data.len(),
        current == (start + done) % 0x1_0000_0000,
    ensures
        next_piece(start, data.len(), done) == if data.len() - done < SPI_FLASH_PAGE_SIZE - current
            % 256 {
            data.len() - done
        } else {
            SPI_FLASH_PAGE_SIZE - current % 256
        },
        buffer_write_events(data, start, done) == page_write_events(
            data.subrange(done as int, (done + next_piece(start, data.len(), done)) as int),
            current,
        ) + buffer_write_events(data, start, done + next_piece(start, data.len(), done)),
        (current + next_piece(start, data.len(), done)) % 0x1_0000_0000 == (start + done
            + next_piece(start, data.len(), done)) % 0x1_0000_0000,
{
    lemma_address_step(start, done, next_piece(start, data.len(), done), current);
}

/// With no data left, nothing is programmed.
proof fn lemma_done(data: Seq<u8>, start: u32, done: nat)
    requires
        done >= data.len(),
    ensures
        buffer_write_events(data, start, done) == Seq::<FlashEvent>::empty(),
{
}

/// The part of a slice between two positions.
fn slice_part(data: &[u8], from: usize, to: usize) -> (part: &[u8])
    requires
        from <= to <= data@.len(),
    ensures
        part@ == data@.subrange(from as int, to as int),
{
    vstd::slice::slice_subrange(data, from, to)
}

} // verus!
