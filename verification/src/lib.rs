//! Driver core for Sharp memory-in-pixel LCDs.
//!
//! The panel is a monochrome display on a synchronous serial bus with a
//! chip-select line of its own. This crate keeps the picture, one bit to a
//! pixel, and turns it into the bytes that the panel's controller expects,
//! with the polarity bit that has to alternate from command to command.
//!
//! - [`bitmap`] holds the packed picture and reads and writes its pixels.
//! - [`protocol`] describes a controller and lays out the bytes of a frame.
//! - [`display`] is the driver: picture, polarity and the transaction under
//!   way. It decides what is to be done on the bus, step by step, and leaves
//!   the doing to its owner.
//! - [`transcript`] follows whole transactions and states what holds of them.
//! - [`bits`] deals with the single bits of a byte.

pub mod bitmap;
pub mod bits;
pub mod display;
pub mod protocol;
pub mod transcript;
