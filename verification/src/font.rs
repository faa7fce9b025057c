//! Bitmap fonts: fixed-cell Latin tables addressed by code point, and
//! indexed tables of square glyphs found by exact character match.

use crate::cast::{byte_to_index, char_index};
use vstd::prelude::*;

verus! {

/// Cell size of a Latin font, width by height in pixels.
#[derive(Clone, Copy, Debug, PartialEq, Eq, Structural)]
pub enum FontSize {
    _6x12,
    _8x16,
    _12x24,
    _16x32,
}

/// Cell size of an indexed font; the cells are square.
#[derive(Clone, Copy, Debug, PartialEq, Eq, Structural)]
pub enum ChineseFontSize {
    _12x12,
    _16x16,
    _24x24,
    _32x32,
}

impl FontSize {
    pub open spec fn spec_x(self) -> u8 {
        match self {
            FontSize::_6x12 => 6,
            FontSize::_8x16 => 8,
            FontSize::_12x24 => 12,
            FontSize::_16x32 => 16,
        }
    }

    pub open spec fn spec_y(self) -> u8 {
        match self {
            FontSize::_6x12 => 12,
            FontSize::_8x16 => 16,
            FontSize::_12x24 => 24,
            FontSize::_16x32 => 32,
        }
    }

    /// Cell width in pixels.
    #[verifier::when_used_as_spec(spec_x)]
    pub fn x(self) -> (w: u8)
        ensures
            w == self.spec_x(),
    {
        match self {
            FontSize::_6x12 => 6,
            FontSize::_8x16 => 8,
            FontSize::_12x24 => 12,
            FontSize::_16x32 => 16,
        }
    }

    /// Cell height in pixels.
    #[verifier::when_used_as_spec(spec_y)]
    pub fn y(self) -> (h: u8)
        ensures
            h == self.spec_y(),
    {
        match self {
            FontSize::_6x12 => 12,
            FontSize::_8x16 => 16,
            FontSize::_12x24 => 24,
            FontSize::_16x32 => 32,
        }
    }
}

impl ChineseFontSize {
    pub open spec fn spec_x(self) -> u8 {
        match self {
            ChineseFontSize::_12x12 => 12,
            ChineseFontSize::_16x16 => 16,
            ChineseFontSize::_24x24 => 24,
            ChineseFontSize::_32x32 => 32,
        }
    }

    pub open spec fn spec_y(self) -> u8 {
        self.spec_x()
    }

    /// Cell width in pixels.
    #[verifier::when_used_as_spec(spec_x)]
    pub fn x(self) -> (w: u8)
        ensures
            w == self.spec_x(),
    {
        match self {
            ChineseFontSize::_12x12 => 12,
            ChineseFontSize::_16x16 => 16,
            ChineseFontSize::_24x24 => 24,
            ChineseFontSize::_32x32 => 32,
        }
    }

    /// Cell height in pixels; equal to the width.
    #[verifier::when_used_as_spec(spec_y)]
    pub fn y(self) -> (h: u8)
        ensures
            h == self.spec_y(),
    {
        self.x()
    }
}

/// Bytes that hold one row of a bitmap `width` pixels wide.
pub open spec fn row_bytes(width: nat) -> nat {
    width / 8 + if width % 8 != 0 {
        1nat
    } else {
        0nat
    }
}

/// Bytes of a row-major, byte-packed bitmap.
pub open spec fn raster_len(width: nat, height: nat) -> nat {
    row_bytes(width) * height
}

/// Code point of the first glyph of a Latin table, the space.
pub const FIRST_CODE: usize = 32;

/// Position of `ch` in a Latin table, counted from the space.
pub open spec fn glyph_index(ch: char) -> int {
    ch as u32 as int - FIRST_CODE as int
}

/// A Latin font: one bitmap per code point, starting at the space.
pub struct AsciiFont {
    size: FontSize,
    glyphs: Vec<Vec<u8>>,
}

impl AsciiFont {
    /// The cell size.
    pub closed spec fn cell(&self) -> FontSize {
        self.size
    }

    /// The bitmaps, in code point order.
    pub closed spec fn rasters(&self) -> Seq<Seq<u8>> {
        Seq::new(self.glyphs@.len(), |i: int| self.glyphs@[i]@)
    }

    /// Every bitmap has exactly the bytes its cell needs.
    pub open spec fn wf(&self) -> bool {
        forall|i: int|
            0 <= i < self.rasters().len() ==> (#[trigger] self.rasters()[i]).len() == raster_len(
                self.cell().spec_x() as nat,
                self.cell().spec_y() as nat,
            )
    }

    /// Whether the table holds a bitmap for `ch`.
    pub open spec fn has_glyph(&self, ch: char) -> bool {
        0 <= glyph_index(ch) < self.rasters().len()
    }

    /// The bitmap of `ch`.
    pub open spec fn raster_of(&self, ch: char) -> Seq<u8>
        recommends
            self.has_glyph(ch),
    {
        self.rasters()[glyph_index(ch)]
    }

    /// Makes a font from its table, or `None` if some bitmap does not have
    /// the length of the cell.
    pub fn new(size: FontSize, glyphs: Vec<Vec<u8>>) -> (font: Option<Self>)
        ensures
            font is Some <==> (forall|i: int|
                0 <= i < glyphs@.len() ==> (#[trigger] glyphs@[i])@.len() == raster_len(
                    size.spec_x() as nat,
                    size.spec_y() as nat,
                )),
            font matches Some(f) ==> f.wf() && f.cell() == size && f.rasters() == Seq::new(
                glyphs@.len(),
                |i: int| glyphs@[i]@,
            ),
    {
        let w = byte_to_index(size.x());
        let h = byte_to_index(size.y());
        let per_row = w / 8 + if w % 8 != 0 {
            1
        } else {
            0
        };
        let expected = per_row * h;
        assert(expected == raster_len(size.spec_x() as nat, size.spec_y() as nat)) by {
            assert(per_row == row_bytes(size.spec_x() as nat));
        }
        let mut i: usize = 0;
        while i < glyphs.len()
            invariant
                i <= glyphs.len(),
                expected == raster_len(size.spec_x() as nat, size.spec_y() as nat),
                forall|j: int| 0 <= j < i ==> (#[trigger] glyphs@[j])@.len() == expected,
            decreases glyphs.len() - i,
        {
            if glyphs[i].len() != expected {
                assert(glyphs@[i as int]@.len() != expected);
                return None;
            }
            i += 1;
        }
        let font = AsciiFont { size, glyphs };
        assert(font.wf()) by {
            assert forall|k: int| 0 <= k < font.rasters().len() implies (
            #[trigger] font.rasters()[k]).len() == expected by {
                assert(font.rasters()[k] == font.glyphs@[k]@);
            }
        }
        Some(font)
    }

    /// The cell size.
    pub fn size(&self) -> (size: FontSize)
        ensures
            size == self.cell(),
    {
        self.size
    }

    /// Number of glyphs in the table.
    pub fn len(&self) -> (n: usize)
        ensures
            n == self.rasters().len(),
    {
        self.glyphs.len()
    }

    /// The bitmap of `ch`, or `None` if `ch` lies before the space or past
    /// the end of the table.
    pub fn glyph(&self, ch: char) -> (raster: Option<&[u8]>)
        ensures
            raster is Some <==> self.has_glyph(ch),
            raster matches Some(r) ==> r@ == self.raster_of(ch),
    {
        let code = char_index(ch);
        let first = char_index(' ');
        if code < first {
            return None;
        }
        let num = code - first;
        if num >= self.glyphs.len() {
            return None;
        }
        assert(self.rasters()[num as int] == self.glyphs@[num as int]@);
        Some(self.glyphs[num].as_slice())
    }
}

/// One entry of an indexed font: a character and its bitmap.
pub struct IndexedGlyph {
    pub index: char,
    pub msk: Vec<u8>,
}

/// An indexed font: square glyphs found by exact character match.
pub struct ChineseFont {
    size: ChineseFontSize,
    glyphs: Vec<IndexedGlyph>,
}

/// Position of the first entry for `ch` among the first `n` entries.
pub open spec fn first_match(keys: Seq<char>, ch: char, n: int) -> Option<int>
    decreases n,
{
    if n <= 0 {
        None
    } else {
        match first_match(keys, ch, n - 1) {
            Some(i) => Some(i),
            None => if keys[n - 1] == ch {
                Some(n - 1)
            } else {
                None
            },
        }
    }
}

/// What `first_match` finds is the least position that holds `ch`.
pub proof fn lemma_first_match(keys: Seq<char>, ch: char, n: int)
    requires
        0 <= n <= keys.len(),
    ensures
        first_match(keys, ch, n) matches Some(i) ==> 0 <= i < n && keys[i] == ch && forall|j: int|
            0 <= j < i ==> keys[j] != ch,
        first_match(keys, ch, n) is None ==> forall|j: int| 0 <= j < n ==> keys[j] != ch,
    decreases n,
{
    if n > 0 {
        lemma_first_match(keys, ch, n - 1);
    }
}

impl ChineseFont {
    /// The cell size.
    pub closed spec fn cell(&self) -> ChineseFontSize {
        self.size
    }

    /// The characters of the entries, in table order.
    pub closed spec fn keys(&self) -> Seq<char> {
        Seq::new(self.glyphs@.len(), |i: int| self.glyphs@[i].index)
    }

    /// The bitmaps of the entries, in table order.
    pub closed spec fn rasters(&self) -> Seq<Seq<u8>> {
        Seq::new(self.glyphs@.len(), |i: int| self.glyphs@[i].msk@)
    }

    /// The entry that a lookup of `ch` selects: the first that matches.
    pub open spec fn lookup(&self, ch: char) -> Option<int> {
        first_match(self.keys(), ch, self.keys().len() as int)
    }

    /// Makes a font from its table.
    pub fn new(size: ChineseFontSize, glyphs: Vec<IndexedGlyph>) -> (font: Self)
        ensures
            font.cell() == size,
            font.keys() == Seq::new(glyphs@.len(), |i: int| glyphs@[i].index),
            font.rasters() == Seq::new(glyphs@.len(), |i: int| glyphs@[i].msk@),
    {
        ChineseFont { size, glyphs }
    }

    /// The cell size.
    pub fn size(&self) -> (size: ChineseFontSize)
        ensures
            size == self.cell(),
    {
        self.size
    }

    /// The bitmap of the first entry for `ch`, found by a linear scan.
    pub fn glyph(&self, ch: char) -> (raster: Option<&[u8]>)
        ensures
            self.keys().len() == self.rasters().len(),
            raster is Some <==> self.lookup(ch) is Some,
            raster matches Some(r) ==> r@ == self.rasters()[self.lookup(ch).unwrap()],
    {
        let mut i: usize = 0;
        while i < self.glyphs.len()
            invariant
                i <= self.glyphs.len(),
                self.keys().len() == self.glyphs@.len(),
                first_match(self.keys(), ch, i as int) is None,
            decreases self.glyphs.len() - i,
        {
            assert(self.keys()[i as int] == self.glyphs@[i as int].index);
            if self.glyphs[i].index == ch {
                assert(first_match(self.keys(), ch, i + 1) == Some(i as int));
                proof {
                    lemma_first_match_stable(self.keys(), ch, i + 1, self.keys().len() as int);
                }
                assert(self.rasters()[i as int] == self.glyphs@[i as int].msk@);
                return Some(self.glyphs[i].msk.as_slice());
            }
            i += 1;
        }
        None
    }
}

/// Once an entry is found, later entries do not change the result.
pub proof fn lemma_first_match_stable(keys: Seq<char>, ch: char, n: int, m: int)
    requires
        0 <= n <= m,
        first_match(keys, ch, n) is Some,
    ensures
        first_match(keys, ch, m) == first_match(keys, ch, n),
    decreases m - n,
{
    if n < m {
        lemma_first_match_stable(keys, ch, n, m - 1);
    }
}

} // verus!
