//! A model of the display controller, and what the driver's transcripts do
//! to it: which pixels a fill paints, and that selecting a window twice is
//! selecting it once.

use crate::bus::{command_events, data16_events, BusEvent};
use crate::lcd::{
    fill_events, repeat_events, window_events, wrap_add, Direction, CMD_COLUMN_SET,
    CMD_MEMORY_WRITE, CMD_ROW_SET,
};
use vstd::arithmetic::div_mod::{lemma_fundamental_div_mod, lemma_fundamental_div_mod_converse};
use vstd::prelude::*;

verus! {

/// State of the controller as far as the driver can change it.
pub ghost struct Panel {
    /// Chip-select is low.
    pub selected: bool,
    /// Command/data-select is low.
    pub command: bool,
    /// The command received last.
    pub register: u8,
    /// First and last column of the addressing window.
    pub col_start: int,
    pub col_end: int,
    /// First and last row of the addressing window.
    pub row_start: int,
    pub row_end: int,
    /// Pixels written into the window since it was armed.
    pub cursor: nat,
    /// Frame memory, by column and row.
    pub memory: Map<(int, int), u16>,
}

impl Panel {
    /// Columns in the window.
    pub open spec fn width(self) -> int {
        self.col_end - self.col_start + 1
    }

    /// Rows in the window.
    pub open spec fn height(self) -> int {
        self.row_end - self.row_start + 1
    }

    /// The cell that pixel `k` of a stream lands on: the window is filled
    /// row by row.
    pub open spec fn cell(self, k: nat) -> (int, int) {
        (self.col_start + k as int % self.width(), self.row_start + k as int / self.width())
    }

    /// The pixel stored at a cell, if one was ever written there.
    pub open spec fn pixel(self, col: int, row: int) -> Option<u16> {
        if self.memory.dom().contains((col, row)) {
            Some(self.memory[(col, row)])
        } else {
            None
        }
    }

    /// Stores one pixel at the cursor and moves the cursor on, back to the
    /// start after the last cell. A window without cells stores nothing.
    pub open spec fn store(self, word: u16) -> Panel {
        if self.width() <= 0 || self.height() <= 0 {
            self
        } else {
            Panel {
                memory: self.memory.insert(self.cell(self.cursor), word),
                cursor: ((self.cursor + 1) as int % (self.width() * self.height())) as nat,
                ..self
            }
        }
    }

    /// Stores a run of pixels.
    pub open spec fn store_all(self, words: Seq<u16>) -> Panel
        decreases words.len(),
    {
        if words.len() == 0 {
            self
        } else {
            self.store_all(words.drop_last()).store(words.last())
        }
    }

    /// Receives a command byte. The memory-write command arms the window.
    pub open spec fn latch(self, cmd: u8) -> Panel {
        Panel {
            register: cmd,
            cursor: if cmd == CMD_MEMORY_WRITE {
                0
            } else {
                self.cursor
            },
            ..self
        }
    }

    /// Receives 16-bit payload words: an address range for the column or
    /// row command, pixels after the memory-write command.
    pub open spec fn receive_words(self, words: Seq<u16>) -> Panel {
        if self.register == CMD_COLUMN_SET && words.len() == 2 {
            Panel { col_start: words[0] as int, col_end: words[1] as int, ..self }
        } else if self.register == CMD_ROW_SET && words.len() == 2 {
            Panel { row_start: words[0] as int, row_end: words[1] as int, ..self }
        } else if self.register == CMD_MEMORY_WRITE {
            self.store_all(words)
        } else {
            self
        }
    }

    /// Receives payload bytes: after the memory-write command, a pair of
    /// bytes is one pixel, high byte first.
    pub open spec fn receive_bytes(self, bytes: Seq<u8>) -> Panel {
        if self.register == CMD_MEMORY_WRITE && bytes.len() == 2 {
            self.store((bytes[0] * 256 + bytes[1]) as u16)
        } else {
            self
        }
    }

    /// The state after one wire event. Transfers reach the controller only
    /// while it is selected.
    pub open spec fn apply(self, event: BusEvent) -> Panel {
        match event {
            BusEvent::ChipSelect(level) => Panel { selected: !level, ..self },
            BusEvent::DataSelect(level) => Panel { command: !level, ..self },
            BusEvent::Write8(bytes) => if !self.selected {
                self
            } else if self.command {
                if bytes.len() == 0 {
                    self
                } else {
                    self.latch(bytes.last())
                }
            } else {
                self.receive_bytes(bytes)
            },
            BusEvent::Write16(words) => if !self.selected || self.command {
                self
            } else {
                self.receive_words(words)
            },
            _ => self,
        }
    }

    /// The state after a transcript.
    pub open spec fn run(self, events: Seq<BusEvent>) -> Panel
        decreases events.len(),
    {
        if events.len() == 0 {
            self
        } else {
            self.run(events.drop_last()).apply(events.last())
        }
    }

    /// Whether a cell is among the first `k` of the window.
    pub open spec fn covers(self, cell: (int, int), k: int) -> bool {
        &&& self.col_start <= cell.0 <= self.col_end
        &&& self.row_start <= cell.1
        &&& (cell.1 - self.row_start) * self.width() + (cell.0 - self.col_start) < k
    }

    /// The memory after the first `k` cells of the window were painted.
    pub open spec fn painted(self, color: u16, k: int) -> Map<(int, int), u16> {
        Map::new(
            |c: (int, int)| self.memory.dom().contains(c) || self.covers(c, k),
            |c: (int, int)|
                if self.covers(c, k) {
                    color
                } else {
                    self.memory[c]
                },
        )
    }
}

/// Running two transcripts in a row is running their concatenation.
pub proof fn lemma_run_concat(p: Panel, a: Seq<BusEvent>, b: Seq<BusEvent>)
    ensures
        p.run(a + b) == p.run(a).run(b),
    decreases b.len(),
{
    if b.len() == 0 {
        assert(a + b =~= a);
    } else {
        assert((a + b).drop_last() =~= a + b.drop_last());
        lemma_run_concat(p, a, b.drop_last());
    }
}

/// A command transfer selects, latches the command and deselects.
pub proof fn lemma_run_command(p: Panel, cmd: u8)
    ensures
        p.run(command_events(seq![cmd])) == (Panel { selected: false, command: false, ..p }).latch(
            cmd,
        ),
{
    let e = command_events(seq![cmd]);
    let e4 = e.drop_last();
    let e3 = e4.drop_last();
    let e2 = e3.drop_last();
    let e1 = e2.drop_last();
    assert(e1.drop_last().len() == 0);
    assert(p.run(e1.drop_last()) == p);
    assert(p.run(e1) == p.apply(BusEvent::DataSelect(false)));
    assert(p.run(e2) == p.run(e1).apply(BusEvent::ChipSelect(false)));
    assert(e3.last() == BusEvent::Write8(seq![cmd]));
    assert(seq![cmd].last() == cmd);
    assert(p.run(e3) == p.run(e2).apply(BusEvent::Write8(seq![cmd])));
    assert(p.run(e4) == p.run(e3).apply(BusEvent::ChipSelect(true)));
    assert(p.run(e) == p.run(e4).apply(BusEvent::DataSelect(true)));
}

/// A word transfer in data mode selects, delivers the words and deselects.
pub proof fn lemma_run_words(p: Panel, words: Seq<u16>)
    requires
        !p.command,
    ensures
        p.run(data16_events(words)) == (Panel {
            selected: false,
            ..(Panel { selected: true, ..p }).receive_words(words)
        }),
{
    let e = data16_events(words);
    let e2 = e.drop_last();
    let e1 = e2.drop_last();
    assert(e1.drop_last().len() == 0);
    assert(p.run(e1.drop_last()) == p);
    assert(p.run(e1) == p.apply(BusEvent::ChipSelect(false)));
    assert(e2.last() == BusEvent::Write16(words));
    assert(p.run(e2) == p.run(e1).apply(BusEvent::Write16(words)));
    assert(p.run(e) == p.run(e2).apply(BusEvent::ChipSelect(true)));
}

/// The state a window selection leaves: the window set with the
/// orientation's offset, the stream armed at its first cell, the memory
/// untouched.
pub open spec fn windowed(p: Panel, d: Direction, x1: u16, y1: u16, x2: u16, y2: u16) -> Panel {
    Panel {
        selected: false,
        command: false,
        register: CMD_MEMORY_WRITE,
        col_start: wrap_add(x1, d.x_offset() as int) as int,
        col_end: wrap_add(x2, d.x_offset() as int) as int,
        row_start: wrap_add(y1, d.y_offset() as int) as int,
        row_end: wrap_add(y2, d.y_offset() as int) as int,
        cursor: 0,
        memory: p.memory,
    }
}

/// What a window selection does to the controller, whatever state it was
/// in.
pub proof fn lemma_run_window(p: Panel, d: Direction, x1: u16, y1: u16, x2: u16, y2: u16)
    ensures
        p.run(window_events(d, x1, y1, x2, y2)) == windowed(p, d, x1, y1, x2, y2),
{
    reveal(window_events);
    let a = command_events(seq![CMD_COLUMN_SET]);
    let b = data16_events(
        seq![wrap_add(x1, d.x_offset() as int), wrap_add(x2, d.x_offset() as int)],
    );
    let c = command_events(seq![CMD_ROW_SET]);
    let e = data16_events(
        seq![wrap_add(y1, d.y_offset() as int), wrap_add(y2, d.y_offset() as int)],
    );
    let f = command_events(seq![CMD_MEMORY_WRITE]);
    lemma_run_concat(p, a + b + c + e, f);
    lemma_run_concat(p, a + b + c, e);
    lemma_run_concat(p, a + b, c);
    lemma_run_concat(p, a, b);
    let after_a = p.run(a);
    lemma_run_command(p, CMD_COLUMN_SET);
    let after_b = after_a.run(b);
    lemma_run_words(
        after_a,
        seq![wrap_add(x1, d.x_offset() as int), wrap_add(x2, d.x_offset() as int)],
    );
    let after_c = after_b.run(c);
    lemma_run_command(after_b, CMD_ROW_SET);
    let after_e = after_c.run(e);
    lemma_run_words(
        after_c,
        seq![wrap_add(y1, d.y_offset() as int), wrap_add(y2, d.y_offset() as int)],
    );
    lemma_run_command(after_e, CMD_MEMORY_WRITE);
}

/// Selecting the same window again leaves the controller as selecting it
/// once does: neither a second nor a third selection in a row can be told
/// from the first.
pub proof fn lemma_window_idempotent(p: Panel, d: Direction, x1: u16, y1: u16, x2: u16, y2: u16)
    ensures
        p.run(window_events(d, x1, y1, x2, y2) + window_events(d, x1, y1, x2, y2)) == p.run(
            window_events(d, x1, y1, x2, y2),
        ),
        p.run(
            window_events(d, x1, y1, x2, y2) + window_events(d, x1, y1, x2, y2) + window_events(
                d,
                x1,
                y1,
                x2,
                y2,
            ),
        ) == p.run(window_events(d, x1, y1, x2, y2)),
{
    let w = window_events(d, x1, y1, x2, y2);
    lemma_run_concat(p, w, w);
    lemma_run_concat(p, w + w, w);
    lemma_run_window(p, d, x1, y1, x2, y2);
    lemma_run_window(p.run(w), d, x1, y1, x2, y2);
}

/// Painting one more cell of the window paints exactly the cell the
/// stream has reached.
pub proof fn lemma_covers_step(s: Panel, c: (int, int), k: nat)
    requires
        s.width() > 0,
    ensures
        s.covers(c, k as int + 1) <==> s.covers(c, k as int) || c == s.cell(k),
{
    let w = s.width();
    lemma_fundamental_div_mod(k as int, w);
    assert(w * (k as int / w) == (k as int / w) * w) by (nonlinear_arith);
    vstd::arithmetic::div_mod::lemma_mod_bound(k as int, w);
    vstd::arithmetic::div_mod::lemma_div_pos_is_pos(k as int, w);
    if s.covers(c, k as int + 1) && !s.covers(c, k as int) {
        lemma_fundamental_div_mod_converse(
            k as int,
            w,
            c.1 - s.row_start,
            c.0 - s.col_start,
        );
    }
}

/// A cell is among the first `width * height` of the window exactly if it
/// lies in the window.
pub proof fn lemma_covers_all(s: Panel, c: (int, int))
    requires
        s.width() > 0,
        s.height() > 0,
    ensures
        s.covers(c, s.width() * s.height()) <==> s.col_start <= c.0 <= s.col_end && s.row_start
            <= c.1 <= s.row_end,
{
    let w = s.width();
    let h = s.height();
    let r = c.1 - s.row_start;
    let a = c.0 - s.col_start;
    if 0 <= a < w && 0 <= r {
        if r < h {
            assert(r * w + a < w * h) by (nonlinear_arith)
                requires
                    0 <= a < w,
                    0 <= r <= h - 1,
            ;
        } else {
            assert(r * w + a >= w * h) by (nonlinear_arith)
                requires
                    0 <= a,
                    0 < w,
                    r >= h,
            ;
        }
    }
}

/// A stream of `n` equal pixels into a freshly armed window paints its
/// first `n` cells and nothing else.
pub proof fn lemma_run_pixels(s: Panel, color: u16, n: nat)
    requires
        !s.command,
        s.register == CMD_MEMORY_WRITE,
        s.cursor == 0,
        s.width() > 0,
        s.height() > 0,
        n <= s.width() * s.height(),
    ensures
        s.run(repeat_events(color, n)) == (Panel {
            selected: if n == 0 {
                s.selected
            } else {
                false
            },
            cursor: (n as int % (s.width() * s.height())) as nat,
            memory: s.painted(color, n as int),
            ..s
        }),
    decreases n,
{
    let area = s.width() * s.height();
    assert(area > 0) by (nonlinear_arith)
        requires
            area == s.width() * s.height(),
            s.width() > 0,
            s.height() > 0,
    ;
    if n == 0 {
        assert(s.painted(color, 0) =~= s.memory) by {
            assert forall|c: (int, int)| !s.covers(c, 0) by {
                if s.col_start <= c.0 <= s.col_end && s.row_start <= c.1 {
                    assert((c.1 - s.row_start) * s.width() >= 0) by (nonlinear_arith)
                        requires
                            c.1 - s.row_start >= 0,
                            s.width() > 0,
                    ;
                }
            }
        }
        vstd::arithmetic::div_mod::lemma_small_mod(0, area as nat);
    } else {
        let m = (n - 1) as nat;
        lemma_run_pixels(s, color, m);
        let t = s.run(repeat_events(color, m));
        lemma_run_concat(s, repeat_events(color, m), data16_events(seq![color]));
        lemma_run_words(t, seq![color]);
        vstd::arithmetic::div_mod::lemma_small_mod(m, area as nat);
        let t1 = Panel { selected: true, ..t };
        assert(seq![color].drop_last() =~= Seq::<u16>::empty());
        assert(t1.store_all(seq![color].drop_last()) == t1);
        assert(t1.store_all(seq![color]) == t1.store(color));
        assert(t1.cell(m) == s.cell(m));
        assert(s.painted(color, m as int).insert(s.cell(m), color) =~= s.painted(color, n as int))
            by {
            assert forall|c: (int, int)|
                s.covers(c, n as int) <==> s.covers(c, m as int) || c == s.cell(m) by {
                lemma_covers_step(s, c, m);
            }
        }
    }
}

impl Panel {
    /// The pixel the panel shows at `(x, y)` when mounted as `d`.
    pub open spec fn shown(self, d: Direction, x: int, y: int) -> Option<u16> {
        self.pixel(x + d.x_offset(), y + d.y_offset())
    }
}

/// After a fill, every pixel of the filled area has the requested colour
/// and every other pixel is as it was, whatever state the controller was
/// in. The area must lie within the controller's 16-bit address range.
pub proof fn lemma_fill_paints_area(
    p: Panel,
    d: Direction,
    x_start: u16,
    y_start: u16,
    x_end: u16,
    y_end: u16,
    color: u16,
)
    requires
        x_start < x_end,
        y_start < y_end,
        x_end - 1 + d.x_offset() <= 0xFFFF,
        y_end - 1 + d.y_offset() <= 0xFFFF,
    ensures
        forall|x: int, y: int|
            #![trigger p.run(fill_events(d, x_start, y_start, x_end, y_end, color)).shown(d, x, y)]
            p.run(fill_events(d, x_start, y_start, x_end, y_end, color)).shown(d, x, y) == if x_start
                <= x < x_end && y_start <= y < y_end {
                Some(color)
            } else {
                p.shown(d, x, y)
            },
{
    let x2 = (x_end - 1) as u16;
    let y2 = (y_end - 1) as u16;
    let window = window_events(d, x_start, y_start, x2, y2);
    let n = ((x_end - x_start) * (y_end - y_start)) as nat;
    let s = windowed(p, d, x_start, y_start, x2, y2);
    lemma_run_window(p, d, x_start, y_start, x2, y2);
    lemma_run_concat(p, window, repeat_events(color, n));
    assert(s.width() == x_end - x_start);
    assert(s.height() == y_end - y_start);
    assert(n == s.width() * s.height()) by (nonlinear_arith)
        requires
            n == (x_end - x_start) * (y_end - y_start),
            s.width() == x_end - x_start,
            s.height() == y_end - y_start,
    ;
    lemma_run_pixels(s, color, n);
    let q = p.run(fill_events(d, x_start, y_start, x_end, y_end, color));
    assert(q.memory == s.painted(color, n as int));
    assert forall|x: int, y: int|
        #![trigger q.shown(d, x, y)]
        q.shown(d, x, y) == if x_start <= x < x_end && y_start <= y < y_end {
            Some(color)
        } else {
            p.shown(d, x, y)
        } by {
        lemma_covers_all(s, (x + d.x_offset(), y + d.y_offset()));
    }
}

} // verus!
