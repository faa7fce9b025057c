//! Width conversions between the integer types the driver mixes.

use as_what::{AsU16, AsUsize};
use vstd::prelude::*;

verus! {

/// Code point of a character as an index.
///
/// Calls `as_what::AsUsize::as_usize` on a `char`, which is the cast
/// `self as usize`: the result is the character's scalar value.
#[verifier::external_body]
pub(crate) fn char_index(ch: char) -> (code: usize)
    ensures
        code == ch as u32,
{
    ch.as_usize()
}

/// A byte-sized count as a coordinate.
///
/// Calls `as_what::AsU16::as_u16` on a `u8`, which is the cast
/// `self as u16`: the value is kept.
#[verifier::external_body]
pub(crate) fn byte_to_coord(value: u8) -> (wide: u16)
    ensures
        wide == value,
{
    value.as_u16()
}

/// A byte-sized count as an index.
///
/// Calls `as_what::AsUsize::as_usize` on a `u8`, which is the cast
/// `self as usize`: the value is kept.
#[verifier::external_body]
pub(crate) fn byte_to_index(value: u8) -> (wide: usize)
    ensures
        wide == value,
{
    value.as_usize()
}

} // verus!
