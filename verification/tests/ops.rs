use curve_limbs::ec::suite_b::ops::p384::{
    common_ops, p384_elem_sqr_mont, p384_point_mul_base_impl, private_key_ops, public_key_ops,
    public_scalar_ops, P384_A, P384_B, P384_GENERATOR_X, P384_GENERATOR_Y, P384_N, P384_NUM_LIMBS,
    P384_P, P384_Q_MINUS_N, P384_RR,
};
use curve_limbs::ec::suite_b::ops::{
    Elem, FieldArithmetic, Point, PrivateKeyCapable, Scalar, MAX_LIMBS, POINT_LIMBS,
};
use curve_limbs::limb::{
    limbs_less_than_limbs_constant_time, limbs_reduce_once_constant_time, Limb, Range,
};

/// A backend that works limb by limb, so that a test can tell from a result
/// what the entry point was given.
struct LimbwiseBackend;

impl FieldArithmetic for LimbwiseBackend {
    fn elem_add(&self, a: &Elem, b: &Elem) -> Elem {
        let mut r = Elem { limbs: [0; MAX_LIMBS] };
        for i in 0..MAX_LIMBS {
            r.limbs[i] = a.limbs[i].wrapping_add(b.limbs[i]);
        }
        r
    }

    fn elem_mul_mont(&self, a: &Elem, b: &Elem) -> Elem {
        let mut r = Elem { limbs: [0; MAX_LIMBS] };
        for i in 0..MAX_LIMBS {
            r.limbs[i] = a.limbs[i].wrapping_mul(b.limbs[i].wrapping_add(1));
        }
        r
    }

    fn elem_sqr_mont(&self, a: &Elem) -> Elem {
        p384_elem_sqr_mont(self, a)
    }
}

impl PrivateKeyCapable for LimbwiseBackend {
    fn elem_inv(&self, a: &Elem) -> Elem {
        *a
    }

    fn point_mul_base(&self, scalar: &Scalar) -> Point {
        p384_point_mul_base_impl(self, scalar)
    }

    fn point_mul(&self, scalar: &Scalar, point: &(Elem, Elem)) -> Point {
        let mut r = Point { xyz: [0; POINT_LIMBS] };
        for i in 0..MAX_LIMBS {
            r.xyz[i] = scalar.limbs[i];
            r.xyz[MAX_LIMBS + i] = point.0.limbs[i];
            r.xyz[2 * MAX_LIMBS + i] = point.1.limbs[i];
        }
        r
    }
}

/// The limbs of a constant that is written as twelve 32-bit words, most
/// significant word first.
fn limbs_of_words(words: [u32; 12]) -> [Limb; 6] {
    let mut limbs = [0; 6];
    for i in 0..6 {
        let high = words[11 - (2 * i + 1)] as Limb;
        let low = words[11 - 2 * i] as Limb;
        limbs[i] = (high << 32) | low;
    }
    limbs
}

#[test]
fn p384_tables_hold_the_constants_of_the_curve() {
    let ops = common_ops();
    assert_eq!(ops.num_limbs, 6);
    assert_eq!(P384_NUM_LIMBS, 384 / 64);
    assert_eq!(
        ops.q.p,
        limbs_of_words([
            0xffffffff, 0xffffffff, 0xffffffff, 0xffffffff, 0xffffffff, 0xffffffff, 0xffffffff,
            0xfffffffe, 0xffffffff, 0x00000000, 0x00000000, 0xffffffff
        ])
    );
    assert_eq!(
        ops.q.rr,
        limbs_of_words([0, 0, 0, 1, 2, 0, 0xfffffffe, 0, 2, 0, 0xfffffffe, 1])
    );
    assert_eq!(
        ops.n.limbs,
        limbs_of_words([
            0xffffffff, 0xffffffff, 0xffffffff, 0xffffffff, 0xffffffff, 0xffffffff, 0xc7634d81,
            0xf4372ddf, 0x581a0db2, 0x48b0a77a, 0xecec196a, 0xccc52973
        ])
    );
    assert_eq!(
        ops.a.limbs,
        limbs_of_words([
            0xffffffff, 0xffffffff, 0xffffffff, 0xffffffff, 0xffffffff, 0xffffffff, 0xffffffff,
            0xfffffffb, 0xfffffffc, 0x00000000, 0x00000003, 0xfffffffc
        ])
    );
    assert_eq!(
        ops.b.limbs,
        limbs_of_words([
            0xcd08114b, 0x604fbff9, 0xb62b21f4, 0x1f022094, 0xe3374bee, 0x94938ae2, 0x77f2209b,
            0x1920022e, 0xf729add8, 0x7a4c32ec, 0x08118871, 0x9d412dcc
        ])
    );
    assert_eq!(
        ops.generator.0.limbs,
        limbs_of_words([
            0x4d3aadc2, 0x299e1513, 0x812ff723, 0x614ede2b, 0x64548684, 0x59a30eff, 0x879c3afc,
            0x541b4d6e, 0x20e378e2, 0xa0d6ce38, 0x3dd07566, 0x49c0b528
        ])
    );
    assert_eq!(
        ops.generator.1.limbs,
        limbs_of_words([
            0x2b78abc2, 0x5a15c5e9, 0xdd800226, 0x3969a840, 0xc6c35219, 0x68f4ffd9, 0x8bade756,
            0x2e83b050, 0xa1bfa8bf, 0x7bb4a9ac, 0x23043dad, 0x4b03a4fe
        ])
    );
    assert_eq!(ops.q.p, P384_P);
    assert_eq!(ops.q.rr, P384_RR);
    assert_eq!(ops.n.limbs, P384_N);
    assert_eq!(ops.a.limbs, P384_A);
    assert_eq!(ops.b.limbs, P384_B);
    assert_eq!(ops.generator.0.limbs, P384_GENERATOR_X);
    assert_eq!(ops.generator.1.limbs, P384_GENERATOR_Y);
}

#[test]
fn p384_role_tables_share_the_common_table() {
    assert_eq!(private_key_ops().common, common_ops());
    assert_eq!(public_key_ops().common, common_ops());
    assert_eq!(public_scalar_ops().public_key_ops, public_key_ops());
    assert_eq!(public_scalar_ops().q_minus_n.limbs, P384_Q_MINUS_N);
}

#[test]
fn p384_q_minus_n_is_the_prime_less_the_order() {
    let ops = public_scalar_ops();
    let common = ops.public_key_ops.common;
    assert!(limbs_less_than_limbs_constant_time(&common.n.limbs, &common.q.p));
    let mut difference = common.q.p;
    limbs_reduce_once_constant_time(&mut difference, &common.n.limbs);
    assert_eq!(difference, ops.q_minus_n.limbs);
    assert_eq!(
        ops.q_minus_n.limbs,
        [0x1313e696333ad68c, 0xa7e5f24cb74f5885, 0x389cb27e0bc8d21f, 0, 0, 0]
    );
}

#[test]
fn p384_constants_are_residues_of_the_prime() {
    let ops = common_ops();
    for limbs in [ops.q.rr, ops.a.limbs, ops.b.limbs, ops.generator.0.limbs, ops.generator.1.limbs]
    {
        assert!(limbs_less_than_limbs_constant_time(&limbs, &ops.q.p));
    }
    assert_eq!(ops.q.p[0] & 1, 1);
}

#[test]
fn p384_order_bounds_a_range() {
    let ops = common_ops();
    let range = Range::from_max_exclusive(&ops.n.limbs);
    assert!(range.are_limbs_within(&[1, 0, 0, 0, 0, 0]));
    assert!(!range.are_limbs_within(&ops.n.limbs));
    assert!(!range.are_limbs_within(&ops.q.p));
    let mut below = ops.n.limbs;
    below[0] -= 1;
    assert!(range.are_limbs_within(&below));
}

#[test]
fn base_point_multiplication_hands_the_generator_to_the_backend() {
    let backend = LimbwiseBackend;
    let scalar = Scalar { limbs: [1, 2, 3, 4, 5, 6] };
    let r = p384_point_mul_base_impl(&backend, &scalar);
    assert_eq!(r.xyz[..6], [1, 2, 3, 4, 5, 6]);
    assert_eq!(r.xyz[6..12], P384_GENERATOR_X);
    assert_eq!(r.xyz[12..], P384_GENERATOR_Y);
    assert_eq!(r, backend.point_mul(&scalar, &common_ops().generator));
    assert_eq!(r, backend.point_mul_base(&scalar));
}

#[test]
fn squaring_multiplies_an_element_by_itself() {
    let backend = LimbwiseBackend;
    let a = Elem { limbs: [1, 2, 3, 4, 5, 6] };
    assert_eq!(p384_elem_sqr_mont(&backend, &a), Elem { limbs: [2, 6, 12, 20, 30, 42] });
    assert_eq!(backend.elem_sqr_mont(&a), backend.elem_mul_mont(&a, &a));
    assert_eq!(backend.elem_add(&a, &a), Elem { limbs: [2, 4, 6, 8, 10, 12] });
    assert_eq!(backend.elem_inv(&a), a);
}
