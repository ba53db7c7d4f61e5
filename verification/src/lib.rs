//! Aster: a Vigenère-style line cipher over the full byte range.
//!
//! Every character of a line is shifted by the byte value of the key
//! character under a cursor that starts at the first key character on each
//! line and cycles through the key. The shift wraps around a boundary of 127
//! rather than modulo 256, which is what makes the byte arithmetic in
//! [`shift`] worth stating precisely.

pub mod cipher;
pub mod context;
pub mod execution;
pub mod shift;

pub use cipher::vigenere;
pub use context::{derive_aster_context, validate_aster_context, AsterExecutionContext};
pub use execution::{handle_aster_execution, handle_aster_line};
pub use shift::{shift_char_down, shift_char_up};
