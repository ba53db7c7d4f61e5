//! The byte-shift arithmetic of the cipher.
//!
//! Shifting up adds the shift to the byte and shifting down subtracts it.
//! When the plain sum or difference leaves the byte range, the result is
//! folded back around 127, and only then reduced to a byte. The fold is not
//! the ordinary wraparound modulo 256, so the two directions undo each other
//! on some pairs of byte and shift and not on others;
//! [`lemma_shift_round_trip`] says exactly on which.

use vstd::prelude::*;

verus! {

/// The byte that an integer reduces to: its residue modulo 256.
pub open spec fn wrap_byte(v: int) -> u8 {
    (v % 256) as u8
}

/// The byte `ch` shifted up by `shift`.
///
/// While the sum fits in a byte it is the result. Otherwise the result is
/// `shift - (127 - ch)`, reduced to a byte.
pub open spec fn shift_up(ch: u8, shift: u8) -> u8 {
    if ch + shift <= 255 {
        (ch + shift) as u8
    } else {
        wrap_byte(shift - (127 - ch))
    }
}

/// The byte `ch` shifted down by `shift`.
///
/// While `ch` is at least `shift` the difference is the result. Otherwise the
/// result is `127 - (shift - ch)`, reduced to a byte.
pub open spec fn shift_down(ch: u8, shift: u8) -> u8 {
    if ch >= shift {
        (ch - shift) as u8
    } else {
        wrap_byte(127 - (shift - ch))
    }
}

/// Whether shifting `ch` up by `shift` can be undone by shifting down.
///
/// It cannot exactly when `ch` is 127 or more and the sum lies from 256 to
/// 382: the fold then lands on `ch + shift - 127`, which is no less than
/// `shift`, so that shifting down takes the plain difference and arrives at
/// `ch - 127`.
pub open spec fn shift_round_trips(ch: u8, shift: u8) -> bool {
    ch + shift <= 255 || ch < 127 || ch + shift >= 383
}

/// Shifts `ch` up by `shift`.
pub fn shift_char_up(ch: u8, shift: u8) -> (out: u8)
    ensures
        out == shift_up(ch, shift),
{
    match ch.checked_add(shift) {
        Some(v) => v,
        None => shift.wrapping_sub(127u8.wrapping_sub(ch)),
    }
}

/// Shifts `ch` down by `shift`.
pub fn shift_char_down(ch: u8, shift: u8) -> (out: u8)
    ensures
        out == shift_down(ch, shift),
{
    match ch.checked_sub(shift) {
        Some(v) => v,
        None => 127u8.wrapping_sub(shift - ch),
    }
}

/// Shifting down undoes shifting up by the same amount exactly on the pairs
/// that [`shift_round_trips`] admits.
pub proof fn lemma_shift_round_trip(ch: u8, shift: u8)
    ensures
        shift_down(shift_up(ch, shift), shift) == ch <==> shift_round_trips(ch, shift),
{
}

} // verus!
