//! Decimal formatting: zero-suppressed integers and two-place fixed-point
//! numbers, as the glyphs to draw and as drawing calls.

use crate::cast::byte_to_coord;
use crate::font::AsciiFont;
use crate::lcd::{CharMode, LcdError, LCD};
use crate::text::{all_in_table, text_events};
use vstd::prelude::*;

verus! {

/// Ten to the power `k`.
pub open spec fn pow10(k: nat) -> nat
    decreases k,
{
    if k == 0 {
        1
    } else {
        10 * pow10((k - 1) as nat)
    }
}

/// Decimal digit of `num` with weight ten to the `k`.
pub open spec fn digit(num: nat, k: nat) -> nat {
    (num / pow10(k)) % 10
}

/// The character that shows a decimal digit.
pub open spec fn digit_char(v: nat) -> char
    recommends
        v < 10,
{
    (48 + v) as u8 as char
}

/// Powers of ten from the fifth on exceed every 16-bit number.
pub proof fn lemma_pow10_large(k: nat)
    requires
        k >= 5,
    ensures
        pow10(k) >= 100_000,
    decreases k,
{
    reveal_with_fuel(pow10, 6);
    if k > 5 {
        lemma_pow10_large((k - 1) as nat);
    }
}

/// Decimal digit of `num` with weight ten to the `k`; zero where that
/// weight exceeds the number.
pub fn digit_at(num: u16, k: u8) -> (v: u8)
    ensures
        v == digit(num as nat, k as nat),
        v < 10,
{
    if k >= 5 {
        proof {
            lemma_pow10_large(k as nat);
            let p = pow10(k as nat);
            assert(num as nat / p == 0) by (nonlinear_arith)
                requires
                    0 <= num < p,
            ;
        }
        return 0;
    }
    let mut weight: u16 = 1;
    let mut i: u8 = 0;
    while i < k
        invariant
            i <= k < 5,
            weight == pow10(i as nat),
            1 <= weight <= 10_000,
            i < 4 ==> weight <= 1_000,
        decreases k - i,
    {
        proof {
            reveal_with_fuel(pow10, 6);
        }
        weight = weight * 10;
        i += 1;
    }
    ((num / weight) % 10) as u8
}

/// The character that shows a decimal digit.
pub fn digit_glyph(v: u8) -> (ch: char)
    requires
        v < 10,
    ensures
        ch == digit_char(v as nat),
{
    (v + 48) as char
}

/// Digit at position `t` of a field of `len` digits, counted from the most
/// significant.
pub open spec fn field_digit(num: nat, len: nat, t: nat) -> nat {
    digit(num, (len - 1 - t) as nat)
}

/// Whether position `t` of a zero-suppressed field of `len` digits is
/// blank: it is not the last position, and the digit there and all digits
/// before it are zero.
pub open spec fn blank_at(num: nat, len: nat, t: nat) -> bool {
    t + 1 < len && forall|j: nat| j <= t ==> field_digit(num, len, j) == 0
}

/// Glyphs of `num` in a zero-suppressed field of `len` digits, most
/// significant first: leading zeros show as spaces, the last position
/// always shows its digit.
pub open spec fn int_glyphs(num: nat, len: nat) -> Seq<char> {
    Seq::new(
        len,
        |t: int|
            if blank_at(num, len, t as nat) {
                ' '
            } else {
                digit_char(field_digit(num, len, t as nat))
            },
    )
}

/// Glyphs of the hundredths `scaled` in a field of `len` digits, most
/// significant first, with the decimal point before the last two.
pub open spec fn fixed_glyphs(scaled: nat, len: nat) -> Seq<char>
    recommends
        len >= 2,
{
    Seq::new(
        len + 1,
        |t: int|
            if t < len - 2 {
                digit_char(field_digit(scaled, len, t as nat))
            } else if t == len - 2 {
                '.'
            } else {
                digit_char(digit(scaled, (len - t) as nat))
            },
    )
}

/// Formats `num` as a zero-suppressed field of `len` digits.
pub fn format_int(num: u16, len: u8) -> (glyphs: Vec<char>)
    ensures
        glyphs@ == int_glyphs(num as nat, len as nat),
{
    let mut glyphs: Vec<char> = Vec::new();
    let mut enshow = false;
    let mut t: u8 = 0;
    while t < len
        invariant
            t <= len,
            glyphs@.len() == t,
            enshow <==> exists|j: nat|
                j < t && j + 1 < len && field_digit(num as nat, len as nat, j) != 0,
            forall|i: int|
                0 <= i < t ==> #[trigger] glyphs@[i] == int_glyphs(num as nat, len as nat)[i],
        decreases len - t,
    {
        let temp = digit_at(num, len - t - 1);
        let ghost shown_before = enshow;
        let mut glyph = digit_glyph(temp);
        if !enshow && t < len - 1 {
            if temp == 0 {
                glyph = ' ';
            } else {
                enshow = true;
            }
        }
        proof {
            assert(temp == field_digit(num as nat, len as nat, t as nat));
            let blank = blank_at(num as nat, len as nat, t as nat);
            if t + 1 < len && !shown_before && temp == 0 {
                assert forall|j: nat| j <= t implies field_digit(num as nat, len as nat, j)
                    == 0 by {
                    if j < t {
                        assert(!(j < t && j + 1 < len && field_digit(num as nat, len as nat, j)
                            != 0));
                    }
                }
                assert(blank);
            } else if t + 1 < len && shown_before {
                let j = choose|j: nat|
                    j < t && j + 1 < len && field_digit(num as nat, len as nat, j) != 0;
                assert(field_digit(num as nat, len as nat, j) != 0);
                assert(!blank);
            } else {
                assert(!blank);
            }
            assert(glyph == int_glyphs(num as nat, len as nat)[t as int]);
            if enshow && !shown_before {
                assert((t as nat) < t + 1 && t + 1 < len && field_digit(
                    num as nat,
                    len as nat,
                    t as nat,
                ) != 0);
            }
        }
        glyphs.push(glyph);
        t += 1;
    }
    assert(glyphs@ =~= int_glyphs(num as nat, len as nat));
    glyphs
}

/// Formats the hundredths `scaled` as a field of `len` digits with the
/// decimal point before the last two.
pub fn format_fixed(scaled: u16, len: u8) -> (glyphs: Vec<char>)
    requires
        len >= 2,
    ensures
        glyphs@ == fixed_glyphs(scaled as nat, len as nat),
{
    let mut glyphs: Vec<char> = Vec::new();
    let mut t: u8 = 0;
    while t < len - 2
        invariant
            t <= len - 2,
            len >= 2,
            glyphs@.len() == t,
            forall|i: int|
                0 <= i < t ==> #[trigger] glyphs@[i] == fixed_glyphs(scaled as nat, len as nat)[i],
        decreases len - t,
    {
        glyphs.push(digit_glyph(digit_at(scaled, len - t - 1)));
        t += 1;
    }
    glyphs.push('.');
    glyphs.push(digit_glyph(digit_at(scaled, 1)));
    glyphs.push(digit_glyph(digit_at(scaled, 0)));
    assert(glyphs@ =~= fixed_glyphs(scaled as nat, len as nat));
    glyphs
}

impl LCD {
    /// Draws `num` as a zero-suppressed field of `len` digits with its top
    /// left corner at `pos`, one opaque cell per digit.
    ///
    /// A glyph the font has no bitmap for is skipped, the rest is still
    /// drawn, and the call reports [`LcdError::OutOfTableGlyph`].
    pub fn show_int_num(
        &mut self,
        pos: (u16, u16),
        num: u16,
        len: u8,
        fc: u16,
        bc: u16,
        font: &AsciiFont,
    ) -> (done: Result<(), LcdError>)
        requires
            font.wf(),
        ensures
            done is Ok <==> all_in_table(*font, int_glyphs(num as nat, len as nat)),
            done is Err ==> done == Err::<(), LcdError>(LcdError::OutOfTableGlyph),
            final(self).trace() == old(self).trace() + text_events(
                old(self).orientation(),
                *font,
                int_glyphs(num as nat, len as nat),
                pos.0,
                pos.1,
                font.cell().spec_x() as nat,
                fc,
                bc,
                CharMode::NonOverlay,
                len as nat,
            ),
            final(self).orientation() == old(self).orientation(),
    {
        let glyphs = format_int(num, len);
        let step = byte_to_coord(font.size().x());
        self.show_chars(pos, &glyphs, step, fc, bc, font, CharMode::NonOverlay)
    }

    /// Draws the hundredths `scaled` as a field of `len` digits and a
    /// decimal point before the last two, with its top left corner at `pos`,
    /// one opaque cell per glyph.
    ///
    /// A glyph the font has no bitmap for is skipped, the rest is still
    /// drawn, and the call reports [`LcdError::OutOfTableGlyph`].
    pub fn show_float_num(
        &mut self,
        pos: (u16, u16),
        scaled: u16,
        len: u8,
        fc: u16,
        bc: u16,
        font: &AsciiFont,
    ) -> (done: Result<(), LcdError>)
        requires
            font.wf(),
            len >= 2,
        ensures
            done is Ok <==> all_in_table(*font, fixed_glyphs(scaled as nat, len as nat)),
            done is Err ==> done == Err::<(), LcdError>(LcdError::OutOfTableGlyph),
            final(self).trace() == old(self).trace() + text_events(
                old(self).orientation(),
                *font,
                fixed_glyphs(scaled as nat, len as nat),
                pos.0,
                pos.1,
                font.cell().spec_x() as nat,
                fc,
                bc,
                CharMode::NonOverlay,
                (len + 1) as nat,
            ),
            final(self).orientation() == old(self).orientation(),
    {
        let glyphs = format_fixed(scaled, len);
        let step = byte_to_coord(font.size().x());
        self.show_chars(pos, &glyphs, step, fc, bc, font, CharMode::NonOverlay)
    }
}

} // verus!
