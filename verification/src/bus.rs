//! Wire-level events of the display link and the transcript they form.

use vstd::prelude::*;

verus! {

/// One step on the display link, in the order the transport must perform it.
///
/// A level of `false` drives the line low, `true` drives it high.
#[derive(Clone, Debug, PartialEq, Eq)]
pub enum BusOp {
    /// Drive the chip-select line (low selects the controller).
    ChipSelect(bool),
    /// Drive the command/data-select line (low announces a command).
    DataSelect(bool),
    /// Drive the reset line (low holds the controller in reset).
    Reset(bool),
    /// Drive the backlight line (high lights the panel).
    Backlight(bool),
    /// Dim the backlight to the given percentage of full brightness.
    Brightness(u8),
    /// Wait for the given number of milliseconds.
    DelayMs(u32),
    /// Transfer the bytes in one blocking bus write.
    Write8(Vec<u8>),
    /// Transfer the 16-bit words in one blocking bus write.
    Write16(Vec<u16>),
}

/// Mathematical value of a [`BusOp`].
pub ghost enum BusEvent {
    ChipSelect(bool),
    DataSelect(bool),
    Reset(bool),
    Backlight(bool),
    Brightness(u8),
    DelayMs(u32),
    Write8(Seq<u8>),
    Write16(Seq<u16>),
}

impl View for BusOp {
    type V = BusEvent;

    open spec fn view(&self) -> BusEvent {
        match *self {
            BusOp::ChipSelect(level) => BusEvent::ChipSelect(level),
            BusOp::DataSelect(level) => BusEvent::DataSelect(level),
            BusOp::Reset(level) => BusEvent::Reset(level),
            BusOp::Backlight(level) => BusEvent::Backlight(level),
            BusOp::Brightness(percent) => BusEvent::Brightness(percent),
            BusOp::DelayMs(ms) => BusEvent::DelayMs(ms),
            BusOp::Write8(bytes) => BusEvent::Write8(bytes@),
            BusOp::Write16(words) => BusEvent::Write16(words@),
        }
    }
}

/// The events that a list of operations stands for, in order.
pub open spec fn events(ops: Seq<BusOp>) -> Seq<BusEvent> {
    ops.map_values(|op: BusOp| op@)
}

/// Events of a command transfer: command/data-select goes low, the bytes
/// travel under chip-select, and command/data-select returns high.
pub open spec fn command_events(bytes: Seq<u8>) -> Seq<BusEvent> {
    seq![
        BusEvent::DataSelect(false),
        BusEvent::ChipSelect(false),
        BusEvent::Write8(bytes),
        BusEvent::ChipSelect(true),
        BusEvent::DataSelect(true),
    ]
}

/// Events of a byte payload transfer under chip-select.
pub open spec fn data8_events(bytes: Seq<u8>) -> Seq<BusEvent> {
    seq![BusEvent::ChipSelect(false), BusEvent::Write8(bytes), BusEvent::ChipSelect(true)]
}

/// Events of a 16-bit word payload transfer under chip-select.
pub open spec fn data16_events(words: Seq<u16>) -> Seq<BusEvent> {
    seq![BusEvent::ChipSelect(false), BusEvent::Write16(words), BusEvent::ChipSelect(true)]
}

/// Appending one operation appends its event.
pub proof fn lemma_events_push(ops: Seq<BusOp>, op: BusOp)
    ensures
        events(ops.push(op)) == events(ops).push(op@),
{
    assert(events(ops.push(op)) =~= events(ops).push(op@));
}

/// Concatenation of event sequences is associative.
pub proof fn lemma_append_assoc(a: Seq<BusEvent>, b: Seq<BusEvent>, c: Seq<BusEvent>)
    ensures
        (a + b) + c == a + (b + c),
{
    assert((a + b) + c =~= a + (b + c));
}

/// Copies a slice into a fresh vector.
pub fn copy_bytes(data: &[u8]) -> (out: Vec<u8>)
    ensures
        out@ == data@,
{
    let mut out: Vec<u8> = Vec::new();
    let mut i: usize = 0;
    while i < data.len()
        invariant
            i <= data.len(),
            out@ == data@.subrange(0, i as int),
        decreases data.len() - i,
    {
        out.push(data[i]);
        i += 1;
        assert(out@ == data@.subrange(0, i as int));
    }
    assert(data@.subrange(0, data.len() as int) == data@);
    out
}

} // verus!
