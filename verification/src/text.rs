//! Glyph rendering: one bit-unpacking routine with two drawing modes,
//! shared by the Latin and the indexed fonts, and fixed-advance text.

use crate::bus::{data16_events, lemma_append_assoc, BusEvent};
use crate::cast::{byte_to_coord, byte_to_index};
use crate::font::{row_bytes, AsciiFont, ChineseFont};
use crate::lcd::{
    offset, point_events, window_events, wrap_add, CharMode, Direction, LcdError, LCD,
};
use vstd::arithmetic::div_mod::lemma_fundamental_div_mod_converse;
use vstd::prelude::*;
use vstd::string::StrSliceExecFns;

verus! {

/// Whether pixel `p` of a bitmap is set, counting pixels row by row.
///
/// Rows are packed into whole bytes, least significant bit first; a byte
/// past the end of the bitmap reads as clear.
pub open spec fn glyph_bit(raster: Seq<u8>, width: nat, p: nat) -> bool {
    let row = p / width;
    let col = p % width;
    let i = row * row_bytes(width) + col / 8;
    i < raster.len() && (raster[i as int] & (1u8 << ((col % 8) as u8))) != 0
}

/// Events of one glyph pixel that lands on `(px, py)`.
///
/// An opaque glyph streams one word per pixel, foreground or background. A
/// transparent glyph plots its set pixels one by one and skips the others.
pub open spec fn bit_events(
    d: Direction,
    set: bool,
    px: u16,
    py: u16,
    fc: u16,
    bc: u16,
    mode: CharMode,
) -> Seq<BusEvent> {
    match mode {
        CharMode::NonOverlay => data16_events(
            seq![if set {
                fc
            } else {
                bc
            }],
        ),
        CharMode::Overlay => if set {
            point_events(d, px, py, fc)
        } else {
            Seq::empty()
        },
    }
}

/// Events of pixel `p` of a glyph whose cell starts at `(x, y)`.
pub open spec fn glyph_pixel_events(
    d: Direction,
    raster: Seq<u8>,
    width: nat,
    x: u16,
    y: u16,
    fc: u16,
    bc: u16,
    mode: CharMode,
    p: nat,
) -> Seq<BusEvent> {
    bit_events(
        d,
        glyph_bit(raster, width, p),
        wrap_add(x, (p % width) as int),
        wrap_add(y, (p / width) as int),
        fc,
        bc,
        mode,
    )
}

/// Events of the first `n` pixels of a glyph.
pub open spec fn glyph_events(
    d: Direction,
    raster: Seq<u8>,
    width: nat,
    x: u16,
    y: u16,
    fc: u16,
    bc: u16,
    mode: CharMode,
    n: nat,
) -> Seq<BusEvent>
    decreases n,
{
    if n == 0 {
        Seq::empty()
    } else {
        glyph_events(d, raster, width, x, y, fc, bc, mode, (n - 1) as nat) + glyph_pixel_events(
            d,
            raster,
            width,
            x,
            y,
            fc,
            bc,
            mode,
            (n - 1) as nat,
        )
    }
}

/// Events of a whole glyph cell: the window over the cell, then the pixels.
pub open spec fn cell_events(
    d: Direction,
    raster: Seq<u8>,
    width: nat,
    height: nat,
    x: u16,
    y: u16,
    fc: u16,
    bc: u16,
    mode: CharMode,
) -> Seq<BusEvent> {
    window_events(d, x, y, wrap_add(x, width - 1), wrap_add(y, height - 1)) + glyph_events(
        d,
        raster,
        width,
        x,
        y,
        fc,
        bc,
        mode,
        width * height,
    )
}

/// Reads pixel `(row, col)` of a bitmap `width` pixels wide.
fn read_bit(raster: &[u8], width: usize, row: usize, col: usize) -> (set: bool)
    requires
        0 < width <= 255,
        row <= 255,
        col < width,
    ensures
        set == glyph_bit(raster@, width as nat, (row * width + col) as nat),
        (row * width + col) % (width as int) == col,
        (row * width + col) / (width as int) == row,
        0 <= row * width + col < 255 * 256,
{
    let per_row: usize = width / 8 + if width % 8 != 0 {
        1
    } else {
        0
    };
    assert(row * per_row <= 255 * 32) by (nonlinear_arith)
        requires
            row <= 255,
            per_row <= 32,
    ;
    assert(0 <= row * width <= 255 * 255) by (nonlinear_arith)
        requires
            0 <= row <= 255,
            0 <= width <= 255,
    ;
    let i: usize = row * per_row + col / 8;
    let t: u8 = (col % 8) as u8;
    proof {
        lemma_fundamental_div_mod_converse(
            row * width + col,
            width as int,
            row as int,
            col as int,
        );
    }
    i < raster.len() && (raster[i] & (1u8 << t)) != 0
}

impl LCD {
    /// Emits one glyph pixel that lands on `(px, py)`.
    fn plot_bit(&mut self, set: bool, px: u16, py: u16, fc: u16, bc: u16, mode: CharMode)
        ensures
            final(self).trace() == old(self).trace() + bit_events(
                old(self).orientation(),
                set,
                px,
                py,
                fc,
                bc,
                mode,
            ),
            final(self).orientation() == old(self).orientation(),
    {
        match mode {
            CharMode::NonOverlay => {
                self.pixel(
                    if set {
                        fc
                    } else {
                        bc
                    },
                );
            },
            CharMode::Overlay => {
                if set {
                    self.draw_point(px, py, fc);
                } else {
                    assert(self.trace() + Seq::<BusEvent>::empty() =~= self.trace());
                }
            },
        }
    }

    /// Streams the pixels of a bitmap whose cell starts at `(x, y)`.
    pub(crate) fn render_glyph(
        &mut self,
        x: u16,
        y: u16,
        raster: &[u8],
        width: u8,
        height: u8,
        fc: u16,
        bc: u16,
        mode: CharMode,
    )
        requires
            width > 0,
        ensures
            final(self).trace() == old(self).trace() + glyph_events(
                old(self).orientation(),
                raster@,
                width as nat,
                x,
                y,
                fc,
                bc,
                mode,
                (width as nat) * (height as nat),
            ),
            final(self).orientation() == old(self).orientation(),
    {
        let w = byte_to_index(width);
        let h = byte_to_index(height);
        let ghost d = self.orientation();
        let ghost before = self.trace();
        let mut row: usize = 0;
        assert(before + glyph_events(d, raster@, w as nat, x, y, fc, bc, mode, 0) =~= before);
        assert(0 * w == 0) by (nonlinear_arith);
        while row < h
            invariant
                row <= h,
                0 < w <= 255,
                h <= 255,
                self.orientation() == d,
                self.trace() == before + glyph_events(
                    d,
                    raster@,
                    w as nat,
                    x,
                    y,
                    fc,
                    bc,
                    mode,
                    (row * w) as nat,
                ),
            decreases h - row,
        {
            let mut col: usize = 0;
            while col < w
                invariant
                    col <= w,
                    row < h,
                    0 < w <= 255,
                    h <= 255,
                    0 <= row * w,
                    self.orientation() == d,
                    self.trace() == before + glyph_events(
                        d,
                        raster@,
                        w as nat,
                        x,
                        y,
                        fc,
                        bc,
                        mode,
                        (row * w + col) as nat,
                    ),
                decreases w - col,
            {
                let set = read_bit(raster, w, row, col);
                let ghost p = (row * w + col) as nat;
                let ghost sofar = glyph_events(d, raster@, w as nat, x, y, fc, bc, mode, p);
                self.plot_bit(
                    set,
                    offset(x, col as u16),
                    offset(y, row as u16),
                    fc,
                    bc,
                    mode,
                );
                proof {
                    let step = glyph_pixel_events(d, raster@, w as nat, x, y, fc, bc, mode, p);
                    assert(self.trace() == before + sofar + step);
                    lemma_append_assoc(before, sofar, step);
                    assert(glyph_events(d, raster@, w as nat, x, y, fc, bc, mode, p + 1) == sofar
                        + step);
                }
                col += 1;
            }
            assert((row + 1) * w == row * w + w) by (nonlinear_arith);
            row += 1;
        }
        assert(row * w == (width as nat) * (height as nat)) by (nonlinear_arith)
            requires
                row == height,
                w == width,
        ;
    }

    /// Draws the glyph of `ch` with its top left corner at `pos`.
    ///
    /// A character the font has no bitmap for draws nothing and is reported
    /// as [`LcdError::OutOfTableGlyph`].
    pub fn show_char(
        &mut self,
        pos: (u16, u16),
        ch: char,
        fc: u16,
        bc: u16,
        font: &AsciiFont,
        mode: CharMode,
    ) -> (done: Result<(), LcdError>)
        requires
            font.wf(),
        ensures
            done is Ok <==> font.has_glyph(ch),
            done is Err ==> done == Err::<(), LcdError>(LcdError::OutOfTableGlyph),
            final(self).trace() == old(self).trace() + char_events(
                old(self).orientation(),
                *font,
                ch,
                pos.0,
                pos.1,
                fc,
                bc,
                mode,
            ),
            final(self).orientation() == old(self).orientation(),
    {
        let (x, y) = pos;
        let size = font.size();
        let width = size.x();
        let height = size.y();
        match font.glyph(ch) {
            None => {
                assert(self.trace() + Seq::<BusEvent>::empty() =~= self.trace());
                Err(LcdError::OutOfTableGlyph)
            },
            Some(raster) => {
                self.set_address(
                    x,
                    y,
                    offset(x, byte_to_coord(width) - 1),
                    offset(y, byte_to_coord(height) - 1),
                );
                self.render_glyph(x, y, raster, width, height, fc, bc, mode);
                proof {
                    lemma_append_assoc(
                        old(self).trace(),
                        window_events(
                            old(self).orientation(),
                            x,
                            y,
                            wrap_add(x, width - 1),
                            wrap_add(y, height - 1),
                        ),
                        glyph_events(
                            old(self).orientation(),
                            raster@,
                            width as nat,
                            x,
                            y,
                            fc,
                            bc,
                            mode,
                            (width as nat) * (height as nat),
                        ),
                    );
                }
                Ok(())
            },
        }
    }
}

/// Events of one Latin character: its cell if the font holds it, nothing
/// otherwise.
pub open spec fn char_events(
    d: Direction,
    font: AsciiFont,
    ch: char,
    x: u16,
    y: u16,
    fc: u16,
    bc: u16,
    mode: CharMode,
) -> Seq<BusEvent> {
    if font.has_glyph(ch) {
        cell_events(
            d,
            font.raster_of(ch),
            font.cell().spec_x() as nat,
            font.cell().spec_y() as nat,
            x,
            y,
            fc,
            bc,
            mode,
        )
    } else {
        Seq::empty()
    }
}

/// Stepping a coordinate twice is stepping it once by the sum.
pub proof fn lemma_wrap_add_twice(a: u16, j: int, k: int)
    requires
        0 <= j,
        0 <= k,
    ensures
        wrap_add(wrap_add(a, j), k) == wrap_add(a, j + k),
{
}

/// Events of the first `n` characters of a run of Latin text that starts at
/// `(x, y)` and advances `step` pixels per character. A character without a
/// bitmap draws nothing but still takes its place.
pub open spec fn text_events(
    d: Direction,
    font: AsciiFont,
    chars: Seq<char>,
    x: u16,
    y: u16,
    step: nat,
    fc: u16,
    bc: u16,
    mode: CharMode,
    n: nat,
) -> Seq<BusEvent>
    decreases n,
{
    if n == 0 {
        Seq::empty()
    } else {
        text_events(d, font, chars, x, y, step, fc, bc, mode, (n - 1) as nat) + char_events(
            d,
            font,
            chars[n - 1],
            wrap_add(x, (n - 1) * step),
            y,
            fc,
            bc,
            mode,
        )
    }
}

/// Whether the font holds a bitmap for each of the characters.
pub open spec fn all_in_table(font: AsciiFont, chars: Seq<char>) -> bool {
    forall|i: int| 0 <= i < chars.len() ==> font.has_glyph(#[trigger] chars[i])
}

/// Events of one indexed character: the cell of the first matching entry
/// if the font holds one, nothing otherwise.
pub open spec fn chinese_char_events(
    d: Direction,
    font: ChineseFont,
    ch: char,
    x: u16,
    y: u16,
    fc: u16,
    bc: u16,
    mode: CharMode,
) -> Seq<BusEvent> {
    let side = font.cell().spec_y() as nat;
    match font.lookup(ch) {
        Some(i) => cell_events(d, font.rasters()[i], side, side, x, y, fc, bc, mode),
        None => Seq::empty(),
    }
}

/// Events of the first `n` characters of a run of indexed text that starts
/// at `(x, y)` and advances one cell per character. A character without an
/// entry draws nothing but still takes its place.
pub open spec fn chinese_text_events(
    d: Direction,
    font: ChineseFont,
    chars: Seq<char>,
    x: u16,
    y: u16,
    fc: u16,
    bc: u16,
    mode: CharMode,
    n: nat,
) -> Seq<BusEvent>
    decreases n,
{
    if n == 0 {
        Seq::empty()
    } else {
        chinese_text_events(d, font, chars, x, y, fc, bc, mode, (n - 1) as nat)
            + chinese_char_events(
            d,
            font,
            chars[n - 1],
            wrap_add(x, (n - 1) * (font.cell().spec_y() as nat)),
            y,
            fc,
            bc,
            mode,
        )
    }
}

/// Whether the font holds an entry for each of the characters.
pub open spec fn all_indexed(font: ChineseFont, chars: Seq<char>) -> bool {
    forall|i: int| 0 <= i < chars.len() ==> font.lookup(#[trigger] chars[i]) is Some
}

/// The characters of a string, in order.
pub fn chars_of(s: &str) -> (chars: Vec<char>)
    ensures
        chars@ == s@,
{
    let n = s.unicode_len();
    let mut chars: Vec<char> = Vec::new();
    let mut i: usize = 0;
    while i < n
        invariant
            i <= n,
            n == s@.len(),
            chars@ == s@.subrange(0, i as int),
        decreases n - i,
    {
        chars.push(s.get_char(i));
        i += 1;
        assert(chars@ == s@.subrange(0, i as int));
    }
    assert(s@.subrange(0, n as int) == s@);
    chars
}

impl LCD {
    /// Draws Latin characters from left to right, starting at `pos` and
    /// advancing `step` pixels per character.
    ///
    /// A character the font has no bitmap for is skipped, the rest is still
    /// drawn, and the call reports [`LcdError::OutOfTableGlyph`].
    pub fn show_chars(
        &mut self,
        pos: (u16, u16),
        chars: &Vec<char>,
        step: u16,
        fc: u16,
        bc: u16,
        font: &AsciiFont,
        mode: CharMode,
    ) -> (done: Result<(), LcdError>)
        requires
            font.wf(),
        ensures
            done is Ok <==> all_in_table(*font, chars@),
            done is Err ==> done == Err::<(), LcdError>(LcdError::OutOfTableGlyph),
            final(self).trace() == old(self).trace() + text_events(
                old(self).orientation(),
                *font,
                chars@,
                pos.0,
                pos.1,
                step as nat,
                fc,
                bc,
                mode,
                chars@.len(),
            ),
            final(self).orientation() == old(self).orientation(),
    {
        let (x, y) = pos;
        let ghost d = self.orientation();
        let ghost before = self.trace();
        let mut cx = x;
        let mut complete = true;
        let mut i: usize = 0;
        assert(before + text_events(d, *font, chars@, x, y, step as nat, fc, bc, mode, 0)
            =~= before);
        assert(0 * step == 0) by (nonlinear_arith);
        while i < chars.len()
            invariant
                i <= chars.len(),
                font.wf(),
                cx == wrap_add(x, i * step),
                complete <==> forall|j: int| 0 <= j < i ==> font.has_glyph(#[trigger] chars@[j]),
                self.orientation() == d,
                self.trace() == before + text_events(
                    d,
                    *font,
                    chars@,
                    x,
                    y,
                    step as nat,
                    fc,
                    bc,
                    mode,
                    i as nat,
                ),
            decreases chars.len() - i,
        {
            let ghost sofar = text_events(d, *font, chars@, x, y, step as nat, fc, bc, mode, i as nat);
            let shown = self.show_char((cx, y), chars[i], fc, bc, font, mode);
            if shown.is_err() {
                complete = false;
            }
            proof {
                lemma_append_assoc(
                    before,
                    sofar,
                    char_events(d, *font, chars@[i as int], cx, y, fc, bc, mode),
                );
                assert(i * step >= 0) by (nonlinear_arith)
                    requires
                        i >= 0,
                        step >= 0,
                ;
                lemma_wrap_add_twice(x, i * step, step as int);
                assert((i + 1) * step == i * step + step) by (nonlinear_arith);
            }
            cx = offset(cx, step);
            i += 1;
        }
        if complete {
            Ok(())
        } else {
            Err(LcdError::OutOfTableGlyph)
        }
    }

    /// Draws a string of Latin text from left to right, starting at `pos`.
    /// The cursor advances by half the cell height per character.
    ///
    /// A character the font has no bitmap for is skipped, the rest is still
    /// drawn, and the call reports [`LcdError::OutOfTableGlyph`].
    pub fn show_string(
        &mut self,
        pos: (u16, u16),
        s: &str,
        fc: u16,
        bc: u16,
        font: &AsciiFont,
        mode: CharMode,
    ) -> (done: Result<(), LcdError>)
        requires
            font.wf(),
        ensures
            done is Ok <==> all_in_table(*font, s@),
            done is Err ==> done == Err::<(), LcdError>(LcdError::OutOfTableGlyph),
            final(self).trace() == old(self).trace() + text_events(
                old(self).orientation(),
                *font,
                s@,
                pos.0,
                pos.1,
                (font.cell().spec_y() / 2) as nat,
                fc,
                bc,
                mode,
                s@.len(),
            ),
            final(self).orientation() == old(self).orientation(),
    {
        let chars = chars_of(s);
        let step = byte_to_coord(font.size().y()) / 2;
        self.show_chars(pos, &chars, step, fc, bc, font, mode)
    }

    /// Draws one indexed character with its top left corner at `pos`.
    ///
    /// The entry is looked up first. A character the font has no entry for
    /// draws nothing and is reported as [`LcdError::GlyphNotFound`].
    pub fn show_chinese_char(
        &mut self,
        pos: (u16, u16),
        ch: char,
        fc: u16,
        bc: u16,
        font: &ChineseFont,
        mode: CharMode,
    ) -> (done: Result<(), LcdError>)
        ensures
            done is Ok <==> font.lookup(ch) is Some,
            done is Err ==> done == Err::<(), LcdError>(LcdError::GlyphNotFound),
            final(self).trace() == old(self).trace() + chinese_char_events(
                old(self).orientation(),
                *font,
                ch,
                pos.0,
                pos.1,
                fc,
                bc,
                mode,
            ),
            final(self).orientation() == old(self).orientation(),
    {
        let (x, y) = pos;
        let side = font.size().y();
        let ghost d = self.orientation();
        match font.glyph(ch) {
            None => {
                assert(self.trace() + Seq::<BusEvent>::empty() =~= self.trace());
                Err(LcdError::GlyphNotFound)
            },
            Some(raster) => {
                self.set_address(
                    x,
                    y,
                    offset(x, byte_to_coord(side) - 1),
                    offset(y, byte_to_coord(side) - 1),
                );
                self.render_glyph(x, y, raster, side, side, fc, bc, mode);
                proof {
                    lemma_append_assoc(
                        old(self).trace(),
                        window_events(d, x, y, wrap_add(x, side - 1), wrap_add(y, side - 1)),
                        glyph_events(
                            d,
                            raster@,
                            side as nat,
                            x,
                            y,
                            fc,
                            bc,
                            mode,
                            (side as nat) * (side as nat),
                        ),
                    );
                }
                Ok(())
            },
        }
    }

    /// Draws a string of indexed text from left to right, starting at
    /// `pos`. The cursor advances by one cell per character.
    ///
    /// A character the font has no entry for is skipped and keeps its
    /// place, the rest is still drawn, and the call reports
    /// [`LcdError::GlyphNotFound`].
    pub fn show_chinese(
        &mut self,
        pos: (u16, u16),
        s: &str,
        fc: u16,
        bc: u16,
        font: &ChineseFont,
        mode: CharMode,
    ) -> (done: Result<(), LcdError>)
        ensures
            done is Ok <==> all_indexed(*font, s@),
            done is Err ==> done == Err::<(), LcdError>(LcdError::GlyphNotFound),
            final(self).trace() == old(self).trace() + chinese_text_events(
                old(self).orientation(),
                *font,
                s@,
                pos.0,
                pos.1,
                fc,
                bc,
                mode,
                s@.len(),
            ),
            final(self).orientation() == old(self).orientation(),
    {
        let (x, y) = pos;
        let chars = chars_of(s);
        let step = byte_to_coord(font.size().y());
        let ghost d = self.orientation();
        let ghost before = self.trace();
        let mut cx = x;
        let mut complete = true;
        let mut i: usize = 0;
        assert(before + chinese_text_events(d, *font, s@, x, y, fc, bc, mode, 0) =~= before);
        assert(0 * step == 0) by (nonlinear_arith);
        while i < chars.len()
            invariant
                i <= chars.len(),
                chars@ == s@,
                step == font.cell().spec_y(),
                cx == wrap_add(x, i * step),
                complete <==> forall|j: int| 0 <= j < i ==> font.lookup(#[trigger] s@[j]) is Some,
                self.orientation() == d,
                self.trace() == before + chinese_text_events(
                    d,
                    *font,
                    s@,
                    x,
                    y,
                    fc,
                    bc,
                    mode,
                    i as nat,
                ),
            decreases chars.len() - i,
        {
            let ghost sofar = chinese_text_events(d, *font, s@, x, y, fc, bc, mode, i as nat);
            let shown = self.show_chinese_char((cx, y), chars[i], fc, bc, font, mode);
            if shown.is_err() {
                complete = false;
            }
            proof {
                lemma_append_assoc(
                    before,
                    sofar,
                    chinese_char_events(d, *font, s@[i as int], cx, y, fc, bc, mode),
                );
                assert(i * step >= 0) by (nonlinear_arith)
                    requires
                        i >= 0,
                        step >= 0,
                ;
                lemma_wrap_add_twice(x, i * step, step as int);
                assert((i + 1) * step == i * step + step) by (nonlinear_arith);
            }
            cx = offset(cx, step);
            i += 1;
        }
        if complete {
            Ok(())
        } else {
            Err(LcdError::GlyphNotFound)
        }
    }
}

} // verus!
