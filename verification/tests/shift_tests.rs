use aster::{shift_char_down, shift_char_up};

#[test]
fn shift_up_adds_while_the_sum_fits() {
    assert_eq!(shift_char_up(97, 98), 195);
    assert_eq!(shift_char_up(0, 0), 0);
    assert_eq!(shift_char_up(255, 0), 255);
    assert_eq!(shift_char_up(0, 255), 255);
    assert_eq!(shift_char_up(157, 98), 255);
}

#[test]
fn shift_up_folds_around_127_on_overflow() {
    assert_eq!(shift_char_up(200, 98), 171);
    assert_eq!(shift_char_up(158, 98), 129);
    assert_eq!(shift_char_up(1, 255), 129);
    assert_eq!(shift_char_up(127, 129), 129);
    assert_eq!(shift_char_up(128, 128), 129);
    assert_eq!(shift_char_up(126, 130), 129);
}

#[test]
fn shift_up_fold_is_reduced_to_a_byte() {
    assert_eq!(shift_char_up(255, 255), 127);
    assert_eq!(shift_char_up(255, 128), 0);
    assert_eq!(shift_char_up(200, 200), 17);
}

#[test]
fn shift_down_subtracts_while_the_byte_is_large_enough() {
    assert_eq!(shift_char_down(195, 98), 97);
    assert_eq!(shift_char_down(98, 98), 0);
    assert_eq!(shift_char_down(255, 0), 255);
    assert_eq!(shift_char_down(255, 255), 0);
}

#[test]
fn shift_down_folds_around_127_on_underflow() {
    assert_eq!(shift_char_down(3, 5), 125);
    assert_eq!(shift_char_down(0, 1), 126);
    assert_eq!(shift_char_down(0, 127), 0);
}

#[test]
fn shift_down_fold_is_reduced_to_a_byte() {
    assert_eq!(shift_char_down(0, 128), 255);
    assert_eq!(shift_char_down(3, 200), 186);
    assert_eq!(shift_char_down(0, 255), 128);
}

#[test]
fn boundary_vector_with_key_byte_98() {
    let up = shift_char_up(200, 98);
    assert_eq!(up, 171);
    // 171 is not below 98, so shifting down takes the plain difference and
    // does not lead back to 200.
    assert_eq!(shift_char_down(up, 98), 73);
}

#[test]
fn overflow_from_a_low_byte_round_trips() {
    let up = shift_char_up(100, 200);
    assert_eq!(up, 173);
    assert_eq!(shift_char_down(up, 200), 100);
}

#[test]
fn overflow_past_383_round_trips() {
    let up = shift_char_up(200, 200);
    assert_eq!(up, 17);
    assert_eq!(shift_char_down(up, 200), 200);
}

#[test]
fn round_trip_holds_exactly_on_the_stated_pairs() {
    for ch in 0..=255u8 {
        for shift in 0..=255u8 {
            let sum = ch as u32 + shift as u32;
            let expected = sum <= 255 || ch < 127 || sum >= 383;
            let back = shift_char_down(shift_char_up(ch, shift), shift);
            assert_eq!(back == ch, expected, "ch = {}, shift = {}", ch, shift);
        }
    }
}

#[test]
fn shifts_agree_with_the_formulas_on_every_pair() {
    for ch in 0..=255i32 {
        for shift in 0..=255i32 {
            let up = if ch + shift <= 255 {
                ch + shift
            } else {
                (shift - (127 - ch)).rem_euclid(256)
            };
            let down = if ch >= shift {
                ch - shift
            } else {
                (127 - (shift - ch)).rem_euclid(256)
            };
            assert_eq!(shift_char_up(ch as u8, shift as u8) as i32, up);
            assert_eq!(shift_char_down(ch as u8, shift as u8) as i32, down);
        }
    }
}
