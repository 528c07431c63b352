use curve_limbs::limb::{
    limbs_are_zero_constant_time, limbs_from_le_bytes, limbs_less_than_limbs_constant_time,
    limbs_reduce_once_constant_time, starts_with_0b100, Limb, Range, LIMB_BITS, LIMB_BYTES,
};

const MAX_LIMB: Limb = 0xffffffffffffffff;

/// The integer that up to two limbs stand for.
fn value_of(limbs: &[Limb]) -> u128 {
    let mut v: u128 = 0;
    for (i, l) in limbs.iter().enumerate() {
        v |= (*l as u128) << (64 * i);
    }
    v
}

/// Whether the binary form of `v` begins with the bits `100`.
fn begins_with_100(v: u128) -> bool {
    let bits = 128 - v.leading_zeros();
    bits >= 3 && (v >> (bits - 3)) == 0b100
}

#[test]
fn test_limbs_in_range() {
    let limbs = &[MAX_LIMB, MAX_LIMB];
    let range = Range::from_max_exclusive(limbs);
    assert!(!range.are_limbs_within(&[MAX_LIMB, MAX_LIMB]));
    assert!(range.are_limbs_within(&[MAX_LIMB, MAX_LIMB - 1]));
    assert!(range.are_limbs_within(&[MAX_LIMB - 1, MAX_LIMB]));
    assert!(!range.are_limbs_within(&[0, 0]));
    assert!(range.are_limbs_within(&[1, 0]));
    assert!(range.are_limbs_within(&[0, 1]));

    let limbs = &[0xdeadbeef, 0xdeadbeef];
    let range = Range::from_max_exclusive(limbs);
    assert!(!range.are_limbs_within(&[0xdeadbeef, 0xdeadbeef]));
    assert!(range.are_limbs_within(&[0xdeadbeee, 0xdeadbeef]));
    assert!(range.are_limbs_within(&[0xdeadbeef, 0xdeadbeee]));
    assert!(!range.are_limbs_within(&[0xdeadbeff, 0xdeadbeef]));
    assert!(!range.are_limbs_within(&[0xdeadbeef, 0xdeadbeff]));

    let limbs = &[2];
    let range = Range::from_max_exclusive(limbs);
    assert!(!range.are_limbs_within(&[0]));
    assert!(range.are_limbs_within(&[1]));
    assert!(!range.are_limbs_within(&[2]));
}

#[test]
fn test_starts_with_0b100() {
    assert!(!starts_with_0b100(&[1]));
    assert!(!starts_with_0b100(&[2]));
    assert!(!starts_with_0b100(&[3]));
    assert!(starts_with_0b100(&[4]));
    assert!(!starts_with_0b100(&[5]));
    assert!(!starts_with_0b100(&[6]));
    assert!(!starts_with_0b100(&[7]));
    assert!(starts_with_0b100(&[8]));
    assert!(starts_with_0b100(&[9]));
    assert!(!starts_with_0b100(&[10]));

    assert!(starts_with_0b100(&[0, 1]));
    assert!(starts_with_0b100(&[Limb::max_value() >> 2, 1]));
    assert!(!starts_with_0b100(&[Limb::max_value() >> 1, 1]));
    assert!(starts_with_0b100(&[Limb::max_value() >> 1, 2]));
    assert!(!starts_with_0b100(&[Limb::max_value(), 2]));
    assert!(!starts_with_0b100(&[Limb::max_value() >> 1, 3]));
    assert!(starts_with_0b100(&[Limb::max_value(), 4]));
    assert!(!starts_with_0b100(&[0, 5]));
    assert!(!starts_with_0b100(&[0, 6]));
    assert!(!starts_with_0b100(&[0, 7]));
    assert!(starts_with_0b100(&[0, 8]));
    assert!(starts_with_0b100(&[0, 9]));
    assert!(!starts_with_0b100(&[0, 10]));
}

#[test]
fn limb_constants() {
    assert_eq!(LIMB_BITS, 64);
    assert_eq!(LIMB_BYTES, 8);
}

#[test]
fn starts_with_0b100_matches_the_leading_bits_of_one_limb() {
    for v in 1..=4096u64 {
        assert_eq!(starts_with_0b100(&[v]), begins_with_100(v as u128), "{}", v);
    }
    for shift in 0..64 {
        for top in [0b100u64, 0b101, 0b110, 0b111, 0b1000, 0b1001, 0b1010] {
            let v = top << shift;
            if v >> shift == top {
                assert_eq!(starts_with_0b100(&[v]), begins_with_100(v as u128), "{:x}", v);
                assert_eq!(starts_with_0b100(&[v | 1]), begins_with_100((v | 1) as u128));
            }
        }
    }
    assert!(starts_with_0b100(&[1 << 63]));
    assert!(starts_with_0b100(&[(1 << 63) | (1 << 60)]));
    assert!(!starts_with_0b100(&[(1 << 63) | (1 << 61)]));
    assert!(!starts_with_0b100(&[MAX_LIMB]));
}

#[test]
fn starts_with_0b100_matches_the_leading_bits_of_two_limbs() {
    let lows = [0, 1, 1 << 61, (1 << 62) - 1, 1 << 62, (1 << 63) - 1, 1 << 63, MAX_LIMB];
    let tops = [1, 2, 3, 4, 5, 7, 8, 9, 10, 0x4000, 0x5000, 1 << 63, MAX_LIMB];
    for low in lows {
        for top in tops {
            let limbs = [low, top];
            assert_eq!(
                starts_with_0b100(&limbs),
                begins_with_100(value_of(&limbs)),
                "{:x} {:x}",
                top,
                low
            );
        }
    }
}

#[test]
fn starts_with_0b100_reads_only_the_two_top_limbs() {
    assert!(starts_with_0b100(&[MAX_LIMB, MAX_LIMB, 4]));
    assert!(starts_with_0b100(&[MAX_LIMB, (1 << 62) - 1, 1]));
    assert!(!starts_with_0b100(&[0, 1 << 62, 1]));
    assert!(starts_with_0b100(&[MAX_LIMB, (1 << 63) - 1, 2]));
    assert!(!starts_with_0b100(&[0, 1 << 63, 2]));
    assert!(!starts_with_0b100(&[0, 0, 3]));
}

#[test]
fn are_zero_is_true_for_all_zero_limbs_only() {
    assert!(limbs_are_zero_constant_time(&[]));
    assert!(limbs_are_zero_constant_time(&[0]));
    assert!(limbs_are_zero_constant_time(&[0, 0, 0, 0, 0, 0]));
    assert!(!limbs_are_zero_constant_time(&[MAX_LIMB]));
    assert!(!limbs_are_zero_constant_time(&[MAX_LIMB, MAX_LIMB, MAX_LIMB]));
    for len in 1..6 {
        for at in 0..len {
            for bit in [0, 1, 31, 32, 62, 63] {
                let mut limbs = vec![0; len];
                limbs[at] = 1 << bit;
                assert!(!limbs_are_zero_constant_time(&limbs), "{} {} {}", len, at, bit);
            }
        }
    }
}

#[test]
fn less_than_is_the_numeric_comparison() {
    let words = [0, 1, 2, 0xdeadbeef, 1 << 63, MAX_LIMB - 1, MAX_LIMB];
    for a in words {
        for b in words {
            assert_eq!(limbs_less_than_limbs_constant_time(&[a], &[b]), a < b);
        }
    }
    for a0 in words {
        for a1 in words {
            for b0 in words {
                for b1 in words {
                    let a = [a0, a1];
                    let b = [b0, b1];
                    assert_eq!(
                        limbs_less_than_limbs_constant_time(&a, &b),
                        value_of(&a) < value_of(&b)
                    );
                }
            }
        }
    }
}

#[test]
fn less_than_on_equal_maximal_and_empty_vectors() {
    assert!(!limbs_less_than_limbs_constant_time(&[], &[]));
    for len in 1..7 {
        let max = vec![MAX_LIMB; len];
        let zero = vec![0; len];
        assert!(!limbs_less_than_limbs_constant_time(&max, &max));
        assert!(!limbs_less_than_limbs_constant_time(&zero, &zero));
        assert!(limbs_less_than_limbs_constant_time(&zero, &max));
        assert!(!limbs_less_than_limbs_constant_time(&max, &zero));
        let mut below = max.clone();
        below[0] = MAX_LIMB - 1;
        assert!(limbs_less_than_limbs_constant_time(&below, &max));
        assert!(!limbs_less_than_limbs_constant_time(&max, &below));
    }
}

#[test]
fn less_than_is_decided_by_the_most_significant_difference() {
    assert!(limbs_less_than_limbs_constant_time(&[MAX_LIMB, MAX_LIMB, 0], &[0, 0, 1]));
    assert!(!limbs_less_than_limbs_constant_time(&[0, 0, 1], &[MAX_LIMB, MAX_LIMB, 0]));
    assert!(limbs_less_than_limbs_constant_time(&[MAX_LIMB, 5, 7], &[0, 6, 7]));
    assert!(!limbs_less_than_limbs_constant_time(&[0, 6, 7], &[MAX_LIMB, 5, 7]));
    assert!(limbs_less_than_limbs_constant_time(&[4, 6, 7], &[5, 6, 7]));
}

#[test]
fn reduce_once_subtracts_where_r_is_not_below_m() {
    let mut r = [9];
    limbs_reduce_once_constant_time(&mut r, &[4]);
    assert_eq!(r, [5]);

    let mut r = [4];
    limbs_reduce_once_constant_time(&mut r, &[4]);
    assert_eq!(r, [0]);

    let mut r = [0, 1];
    limbs_reduce_once_constant_time(&mut r, &[1, 0]);
    assert_eq!(r, [MAX_LIMB, 0]);

    let mut r = [0, 0, 1];
    limbs_reduce_once_constant_time(&mut r, &[1, 0, 0]);
    assert_eq!(r, [MAX_LIMB, MAX_LIMB, 0]);

    let mut r = [5, MAX_LIMB];
    limbs_reduce_once_constant_time(&mut r, &[7, 0xdeadbeef]);
    assert_eq!(r, [MAX_LIMB - 1, MAX_LIMB - 0xdeadbeef - 1]);

    let mut r = [MAX_LIMB, MAX_LIMB];
    limbs_reduce_once_constant_time(&mut r, &[MAX_LIMB, MAX_LIMB]);
    assert_eq!(r, [0, 0]);
}

#[test]
fn reduce_once_leaves_a_smaller_r_unchanged() {
    let mut r = [3];
    limbs_reduce_once_constant_time(&mut r, &[4]);
    assert_eq!(r, [3]);

    let mut r = [0];
    limbs_reduce_once_constant_time(&mut r, &[4]);
    assert_eq!(r, [0]);

    let mut r = [MAX_LIMB, 0];
    limbs_reduce_once_constant_time(&mut r, &[0, 1]);
    assert_eq!(r, [MAX_LIMB, 0]);

    let mut r = [MAX_LIMB - 1, MAX_LIMB];
    limbs_reduce_once_constant_time(&mut r, &[MAX_LIMB, MAX_LIMB]);
    assert_eq!(r, [MAX_LIMB - 1, MAX_LIMB]);
}

#[test]
fn reduce_once_subtracts_one_time_only() {
    let mut r = [8];
    limbs_reduce_once_constant_time(&mut r, &[4]);
    assert_eq!(r, [4]);
    limbs_reduce_once_constant_time(&mut r, &[4]);
    assert_eq!(r, [0]);

    let mut r = [MAX_LIMB, MAX_LIMB];
    limbs_reduce_once_constant_time(&mut r, &[1, 0]);
    assert_eq!(r, [MAX_LIMB - 1, MAX_LIMB]);
}

#[test]
fn reduce_once_agrees_with_wide_arithmetic() {
    let words = [0, 1, 2, 0xdeadbeef, 1 << 63, MAX_LIMB - 1, MAX_LIMB];
    for r0 in words {
        for r1 in words {
            for m0 in words {
                for m1 in words {
                    let mut r = [r0, r1];
                    let m = [m0, m1];
                    let before = value_of(&r);
                    limbs_reduce_once_constant_time(&mut r, &m);
                    let expected = if before >= value_of(&m) {
                        before - value_of(&m)
                    } else {
                        before
                    };
                    assert_eq!(value_of(&r), expected);
                }
            }
        }
    }
}

#[test]
fn limbs_are_read_from_bytes_least_significant_byte_first() {
    let bytes: Vec<u8> = (1..=16).collect();
    let mut limbs = [0, 0];
    limbs_from_le_bytes(&mut limbs, &bytes);
    assert_eq!(limbs, [0x0807060504030201, 0x100f0e0d0c0b0a09]);

    let mut limbs = [7];
    limbs_from_le_bytes(&mut limbs, &[0xff, 0, 0, 0, 0, 0, 0, 0x80]);
    assert_eq!(limbs, [0x80000000000000ff]);

    let mut limbs: [Limb; 0] = [];
    limbs_from_le_bytes(&mut limbs, &[]);
    assert_eq!(limbs, []);
}

#[test]
fn leading_zero_bits_counts_the_unused_bits_of_the_top_limb() {
    assert_eq!(Range::from_max_exclusive(&[1]).leading_zero_bits(), 63);
    assert_eq!(Range::from_max_exclusive(&[2]).leading_zero_bits(), 62);
    assert_eq!(Range::from_max_exclusive(&[4]).leading_zero_bits(), 61);
    assert_eq!(Range::from_max_exclusive(&[MAX_LIMB, 0xdeadbeef]).leading_zero_bits(), 32);
    assert_eq!(Range::from_max_exclusive(&[0, 1 << 63]).leading_zero_bits(), 0);
    assert_eq!(Range::from_max_exclusive(&[0, 0, MAX_LIMB]).leading_zero_bits(), 0);
}

#[test]
fn are_limbs_within_excludes_zero_and_the_bound() {
    let bound = [5, 0, 7];
    let range = Range::from_max_exclusive(&bound);
    assert!(!range.are_limbs_within(&[0, 0, 0]));
    assert!(range.are_limbs_within(&[1, 0, 0]));
    assert!(range.are_limbs_within(&[4, 0, 7]));
    assert!(!range.are_limbs_within(&[5, 0, 7]));
    assert!(!range.are_limbs_within(&[6, 0, 7]));
    assert!(range.are_limbs_within(&[MAX_LIMB, MAX_LIMB, 6]));
    assert!(!range.are_limbs_within(&[0, 1, 7]));
}
