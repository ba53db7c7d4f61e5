//! The line cipher: one line of text against a key, in either direction.
//!
//! A line is a sequence of characters and so is the key. The character at
//! position `i` of the line meets the key character at position `i` modulo
//! the key's length: the cursor into the key starts at the first key
//! character on every line, moves on by one with each character of the line,
//! and returns to the start after the last key character.
//!
//! Both the character of the line and the key character count by their byte
//! value, the low eight bits of the scalar value, and the shifted byte is
//! read back as the character with that scalar value. A line made of
//! characters up to U+00FF is therefore handled byte for byte; a character
//! beyond that range is cut down to its low byte and cannot come back.

use vstd::arithmetic::div_mod::{lemma_add_mod_noop, lemma_mod_self_0, lemma_small_mod};
use vstd::prelude::*;
use crate::shift::{
    lemma_shift_round_trip, shift_char_down, shift_char_up, shift_down, shift_round_trips,
    shift_up,
};

verus! {

/// Assumed of the standard library's `String::push`: the string afterwards is
/// the string before with `ch` appended as its last character.
pub assume_specification[ String::push ](s: &mut String, ch: char)
    ensures
        final(s)@ == old(s)@.push(ch),
;

/// The byte value of a character: the low eight bits of its scalar value.
pub open spec fn char_byte(c: char) -> u8 {
    ((c as int) % 256) as u8
}

/// The character whose scalar value is `b`.
pub open spec fn byte_char(b: u8) -> char {
    b as char
}

/// Whether the scalar value of `c` fits in one byte.
pub open spec fn is_single_byte(c: char) -> bool {
    (c as int) <= 255
}

/// One character of the line, `c`, against one character of the key, `k`.
pub open spec fn cipher_char(c: char, k: char, decrypt: bool) -> char {
    if decrypt {
        byte_char(shift_down(char_byte(c), char_byte(k)))
    } else {
        byte_char(shift_up(char_byte(c), char_byte(k)))
    }
}

/// The position in a key of length `key_len` that the cursor points at when
/// the character at position `i` of a line is processed.
pub open spec fn key_cursor(i: int, key_len: nat) -> int {
    i % (key_len as int)
}

/// The line that `text` turns into under `key`: encrypted when `decrypt` is
/// false, decrypted when it is true.
pub open spec fn vigenere_line(text: Seq<char>, key: Seq<char>, decrypt: bool) -> Seq<char> {
    Seq::new(
        text.len(),
        |i: int| cipher_char(text[i], key[key_cursor(i, key.len())], decrypt),
    )
}

/// Whether encrypting `text` under `key` can be undone by decrypting: every
/// character fits in one byte, and its byte and the byte of the key character
/// it meets are a pair on which shifting up can be undone.
pub open spec fn text_round_trips(text: Seq<char>, key: Seq<char>) -> bool {
    forall|i: int|
        0 <= i < text.len() ==> {
            &&& is_single_byte(#[trigger] text[i])
            &&& shift_round_trips(char_byte(text[i]), char_byte(key[key_cursor(i, key.len())]))
        }
}

/// The byte value of `c`.
fn byte_of_char(c: char) -> (b: u8)
    ensures
        b == char_byte(c),
{
    let scalar: u32 = c as u32;
    (scalar % 256) as u8
}

/// The character with scalar value `b`.
fn char_of_byte(b: u8) -> (c: char)
    ensures
        c == byte_char(b),
{
    b as char
}

/// The shift amounts of a key, one per key character.
fn key_shifts(key: &str) -> (shifts: Vec<u8>)
    ensures
        shifts@.len() == key@.len(),
        forall|i: int| 0 <= i < key@.len() ==> shifts@[i] == char_byte(#[trigger] key@[i]),
{
    let mut shifts: Vec<u8> = Vec::new();
    for k in it: key.chars()
        invariant
            it.seq() == key@,
            shifts@.len() == it.index(),
            forall|i: int| 0 <= i < shifts@.len() ==> shifts@[i] == char_byte(#[trigger] key@[i]),
    {
        shifts.push(byte_of_char(k));
    }
    shifts
}

/// Encrypts or decrypts one line.
///
/// The result has as many characters as `plaintext`. Its character at
/// position `i` is the character of `plaintext` at `i`, shifted by the byte
/// value of the key character at `i` modulo the key's length: up to encrypt,
/// down when `decrypt` is set. The line terminator is left to the caller.
pub fn vigenere(plaintext: String, key: &String, decrypt: bool) -> (line: String)
    requires
        key@.len() > 0,
    ensures
        line@ == vigenere_line(plaintext@, key@, decrypt),
        line@.len() == plaintext@.len(),
        forall|i: int|
            0 <= i < plaintext@.len() ==> #[trigger] line@[i] == cipher_char(
                plaintext@[i],
                key@[i % (key@.len() as int)],
                decrypt,
            ),
{
    let shifts = key_shifts(key.as_str());
    let key_len: usize = shifts.len();
    let mut line = String::new();
    let mut key_idx: usize = 0;
    for ch in it: plaintext.as_str().chars()
        invariant
            it.seq() == plaintext@,
            key_len == key@.len(),
            key_len > 0,
            shifts@.len() == key_len,
            forall|i: int| 0 <= i < key@.len() ==> shifts@[i] == char_byte(#[trigger] key@[i]),
            key_idx == key_cursor(it.index() as int, key@.len()),
            line@ == vigenere_line(plaintext@.take(it.index() as int), key@, decrypt),
    {
        let shift = shifts[key_idx];
        let byte = byte_of_char(ch);
        let shifted = if decrypt {
            shift_char_down(byte, shift)
        } else {
            shift_char_up(byte, shift)
        };
        line.push(char_of_byte(shifted));
        key_idx += 1;
        key_idx = key_idx % key_len;
        proof {
            lemma_key_cursor(it.index() as int, key@.len());
        }
    }
    line
}

/// Cursor determinism: the cursor is at the first key character when a line
/// starts, and from one character of the line to the next it moves on by
/// exactly one key character, back to the first after the last.
pub proof fn lemma_key_cursor(i: int, key_len: nat)
    requires
        0 <= i,
        key_len > 0,
    ensures
        key_cursor(0, key_len) == 0,
        0 <= key_cursor(i, key_len) < key_len,
        key_cursor(i + 1, key_len) == if key_cursor(i, key_len) + 1 == key_len {
            0
        } else {
            key_cursor(i, key_len) + 1
        },
        key_cursor(i + 1, key_len) == (key_cursor(i, key_len) + 1) % (key_len as int),
{
    let n = key_len as int;
    lemma_add_mod_noop(i, 1, n);
    lemma_mod_self_0(n);
    if key_len > 1 {
        lemma_small_mod(1, key_len);
    }
    if key_cursor(i, key_len) + 1 < n {
        lemma_small_mod((key_cursor(i, key_len) + 1) as nat, key_len);
    }
}

/// What one character turns into when it is encrypted and then decrypted
/// against the same key character is that character again exactly when it
/// fits in one byte and its byte and the key byte are a pair on which
/// shifting up can be undone.
pub proof fn lemma_cipher_char_round_trip(c: char, k: char)
    ensures
        cipher_char(cipher_char(c, k, false), k, true) == c <==> is_single_byte(c)
            && shift_round_trips(char_byte(c), char_byte(k)),
{
    let byte = char_byte(c);
    let shift = char_byte(k);
    // The encrypted character is read back as the byte it was made from.
    assert(char_byte(byte_char(shift_up(byte, shift))) == shift_up(byte, shift));
    lemma_shift_round_trip(byte, shift);
    // Only a character that fits in one byte is the character of its byte.
    assert(byte_char(byte) == c <==> is_single_byte(c));
}

/// Round trip: decrypting an encrypted line under the same non-empty key
/// gives the line back, for every line that [`text_round_trips`] admits.
pub proof fn lemma_vigenere_round_trip(text: Seq<char>, key: Seq<char>)
    requires
        key.len() > 0,
        text_round_trips(text, key),
    ensures
        vigenere_line(vigenere_line(text, key, false), key, true) == text,
{
    let encrypted = vigenere_line(text, key, false);
    let decrypted = vigenere_line(encrypted, key, true);
    assert forall|i: int| 0 <= i < text.len() implies decrypted[i] == text[i] by {
        lemma_cipher_char_round_trip(text[i], key[key_cursor(i, key.len())]);
    }
}

/// The round trip holds on no other line: where [`text_round_trips`] does
/// not admit `text`, decrypting the encrypted line gives a different line.
pub proof fn lemma_vigenere_round_trip_fails_elsewhere(text: Seq<char>, key: Seq<char>)
    requires
        key.len() > 0,
        !text_round_trips(text, key),
    ensures
        vigenere_line(vigenere_line(text, key, false), key, true) != text,
{
    let encrypted = vigenere_line(text, key, false);
    let decrypted = vigenere_line(encrypted, key, true);
    let i = choose|i: int|
        0 <= i < text.len() && !(is_single_byte(#[trigger] text[i]) && shift_round_trips(
            char_byte(text[i]),
            char_byte(key[key_cursor(i, key.len())]),
        ));
    lemma_cipher_char_round_trip(text[i], key[key_cursor(i, key.len())]);
    assert(decrypted[i] != text[i]);
}

/// A line whose characters all lie below U+007F comes back under every
/// non-empty key: a byte below 127 can be shifted back whatever the shift.
pub proof fn lemma_seven_bit_text_round_trips(text: Seq<char>, key: Seq<char>)
    requires
        key.len() > 0,
        forall|i: int| 0 <= i < text.len() ==> ((#[trigger] text[i]) as int) < 127,
    ensures
        vigenere_line(vigenere_line(text, key, false), key, true) == text,
{
    assert forall|i: int| 0 <= i < text.len() implies is_single_byte(#[trigger] text[i])
        && char_byte(text[i]) < 127 by {
        lemma_seven_bit_char(text[i]);
    }
    lemma_vigenere_round_trip(text, key);
}

/// A character below U+007F is its own byte.
proof fn lemma_seven_bit_char(c: char)
    requires
        (c as int) < 127,
    ensures
        is_single_byte(c),
        char_byte(c) < 127,
{
}

} // verus!
