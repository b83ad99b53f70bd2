//! Driver logic for the 3641AS seven segment display with four digits.
//!
//! The display shows 4-digit integers, numbers with a single digit after the decimal
//! point, and such numbers followed by a trailing character. Only one digit can be lit
//! at a time, so the driver multiplexes: every refresh step lights one digit position
//! and the next step moves on to the next one.
//!
//! This crate holds the decisions of the driver. Each refresh step is described as the
//! ordered list of pin writes ([`PinWrite`]) that lights the current digit; whoever owns
//! the GPIO pins performs those writes in order and stops at the first failing one.
//!
//! Modules:
//! - `glyph`: the segment patterns of digits and characters,
//! - `pins`: pin names, pin writes and the level each pin is left at,
//! - `display`: the display state and the refresh frames,
//! - `laws`: what the refresh frames leave the display showing.

pub mod glyph;
pub mod pins;
pub mod display;
pub mod laws;

pub use glyph::{DisplayChar, digit_pattern};
pub use pins::{Pin, PinWrite};
pub use display::{DisplayNumber, SegmentConfiguration, SegmentError, SevenSegment};
