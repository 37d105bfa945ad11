//! Tests of the word-level bit utilities.

use lc3_asm_vm::binary_utils::{
    add_2s_complement, as_negative_i16, bits_required_for_number, flag_is_set, invert_sign,
    is_negative, isolate_bits_then_shift, merge_bytes, set_flag_false, set_flag_true, sign_extend,
    truncate_to,
};

#[test]
pub fn flag() {
    let a = 0b0000_0000_0000_0001;
    assert_eq!(isolate_bits_then_shift(a, (0, 0)), 1);
    assert!(flag_is_set(a, 0));
    assert!(!flag_is_set(a, 1));

    let b = 0b0001;

    assert_eq!(set_flag_false(b, 0), 0);
    assert_eq!(set_flag_true(b, 2), 5);
}

#[test]
pub fn add_basic() {
    let a = 0b0001;
    let b = 0b0000;

    assert_eq!(add_2s_complement(a, b), a);

    assert_eq!(add_2s_complement(a, a), 0b0010);
}

#[test]
pub fn add_negatives() {
    let a = 0b0001;
    let b = !a + 1;

    assert!(is_negative(b));

    assert_eq!(add_2s_complement(b, a), 0);
    assert_eq!(add_2s_complement(b, a), 0);
    assert_eq!(add_2s_complement(b, 5), 4);

    let a = 5;
    let b = !10 + 1;
    assert!(is_negative(add_2s_complement(a, b)));

    println!(
        "\n{:016b} + {:016b} = {:016b}",
        0x300i16,
        -2i16,
        0x300i16 - 2i16
    );

    assert_eq!(add_2s_complement(0x300, !2 + 1), 0x300 - (2));
}

#[test]
fn bits_required_matches_powers_of_two() {
    for (n, expected) in [(0u16, 0u16), (1, 1), (2, 2), (3, 2), (255, 8), (256, 9), (0x7FFF, 15), (0x8000, 16), (0xFFFF, 16)] {
        assert_eq!(bits_required_for_number(n), expected);
    }
    // bits_required_for(n) <= k exactly when n < 2^k.
    for n in [0u16, 1, 7, 8, 200, 4096, 0xFFFF] {
        for k in 0..=16u32 {
            let fits = (n as u32) < (1u32 << k);
            assert_eq!(bits_required_for_number(n) as u32 <= k, fits);
        }
    }
}

#[test]
fn two_complement_add_is_commutative_and_associative() {
    let samples = [0u16, 1, 0x7FFF, 0x8000, 0xABCD, 0xFFFF];
    for &a in &samples {
        for &b in &samples {
            assert_eq!(add_2s_complement(a, b), add_2s_complement(b, a));
            for &c in &samples {
                assert_eq!(
                    add_2s_complement(add_2s_complement(a, b), c),
                    add_2s_complement(a, add_2s_complement(b, c))
                );
            }
        }
    }
}

#[test]
fn sign_extend_then_truncate_is_identity() {
    for (v, m) in [(0b10000u16, 4u16), (0b01111, 4), (0x1FF, 8), (0x0FF, 8), (0, 0), (1, 0)] {
        assert_eq!(truncate_to(sign_extend(v, m), m + 1), v);
    }
    assert_eq!(sign_extend(0b10000, 4), 0xFFF0);
    assert_eq!(sign_extend(0b01111, 4), 0x000F);
}

#[test]
fn merge_invert_and_signed_views() {
    assert_eq!(merge_bytes(0x34, 0x12), 0x1234);
    assert_eq!(invert_sign(1), 0xFFFF);
    assert_eq!(invert_sign(0), 0);
    assert_eq!(as_negative_i16(0xFFFF), -1);
    assert_eq!(as_negative_i16(0x7FFF), 32767);
    assert_eq!(as_negative_i16(0x8000), -32768);
}
