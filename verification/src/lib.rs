//! Driver core for a small SPI TFT panel and its companion serial flash.
//!
//! Every operation is rendered into a transcript of wire-level events; a
//! transport outside this crate plays the transcript onto the hardware.

pub mod bus;
mod cast;
pub mod font;
pub mod lcd;
pub mod numbers;
pub mod panel;
pub mod shapes;
pub mod text;
pub mod w25qxx;
