//! The curve P-384: `y^2 = x^3 - 3 * x + b` over the field of
//! `p = 2^384 - 2^128 - 2^96 + 2^32 - 1` elements.
//!
//! The tables hold the constants as limbs, least-significant limb first,
//! field elements in the Montgomery domain. Each of them is proved here to be
//! the number that it is meant to be.

use crate::ec::suite_b::ops::{
    montgomery_radix, to_montgomery, CommonOps, Elem, ElemDecoded, FieldArithmetic, Mont, Point,
    PrivateKeyCapable, PrivateKeyOps, PublicKeyOps, PublicScalarOps, Scalar, MAX_LIMBS,
};
use crate::limb::{is_valid_bound, Limb};
use crate::limb_value::limbs_value;
use vstd::arithmetic::div_mod::{lemma_fundamental_div_mod_converse, lemma_mod_multiples_vanish};
use vstd::arithmetic::power2::{lemma_pow2_adds, lemma2_to64, lemma2_to64_rest, pow2};
use vstd::prelude::*;

verus! {

/// The number of limbs of a value of P-384.
pub const P384_NUM_LIMBS: usize = 6;

/// The field prime `p`.
pub const P384_P: [Limb; MAX_LIMBS] = [
    0x0000_0000_ffff_ffff,
    0xffff_ffff_0000_0000,
    0xffff_ffff_ffff_fffe,
    0xffff_ffff_ffff_ffff,
    0xffff_ffff_ffff_ffff,
    0xffff_ffff_ffff_ffff,
];

/// `R * R mod p`.
pub const P384_RR: [Limb; MAX_LIMBS] = [
    0xffff_fffe_0000_0001,
    0x0000_0002_0000_0000,
    0xffff_fffe_0000_0000,
    0x0000_0002_0000_0000,
    0x0000_0000_0000_0001,
    0x0000_0000_0000_0000,
];

/// The group order `n`.
pub const P384_N: [Limb; MAX_LIMBS] = [
    0xecec_196a_ccc5_2973,
    0x581a_0db2_48b0_a77a,
    0xc763_4d81_f437_2ddf,
    0xffff_ffff_ffff_ffff,
    0xffff_ffff_ffff_ffff,
    0xffff_ffff_ffff_ffff,
];

/// The coefficient `a = -3`, in the Montgomery domain.
pub const P384_A: [Limb; MAX_LIMBS] = [
    0x0000_0003_ffff_fffc,
    0xffff_fffc_0000_0000,
    0xffff_ffff_ffff_fffb,
    0xffff_ffff_ffff_ffff,
    0xffff_ffff_ffff_ffff,
    0xffff_ffff_ffff_ffff,
];

/// The coefficient `b`, in the Montgomery domain.
pub const P384_B: [Limb; MAX_LIMBS] = [
    0x0811_8871_9d41_2dcc,
    0xf729_add8_7a4c_32ec,
    0x77f2_209b_1920_022e,
    0xe337_4bee_9493_8ae2,
    0xb62b_21f4_1f02_2094,
    0xcd08_114b_604f_bff9,
];

/// The coordinate `x` of the generator, in the Montgomery domain.
pub const P384_GENERATOR_X: [Limb; MAX_LIMBS] = [
    0x3dd0_7566_49c0_b528,
    0x20e3_78e2_a0d6_ce38,
    0x879c_3afc_541b_4d6e,
    0x6454_8684_59a3_0eff,
    0x812f_f723_614e_de2b,
    0x4d3a_adc2_299e_1513,
];

/// The coordinate `y` of the generator, in the Montgomery domain.
pub const P384_GENERATOR_Y: [Limb; MAX_LIMBS] = [
    0x2304_3dad_4b03_a4fe,
    0xa1bf_a8bf_7bb4_a9ac,
    0x8bad_e756_2e83_b050,
    0xc6c3_5219_68f4_ffd9,
    0xdd80_0226_3969_a840,
    0x2b78_abc2_5a15_c5e9,
];

/// The field prime less the group order, `p - n`.
pub const P384_Q_MINUS_N: [Limb; MAX_LIMBS] = [
    0x1313_e696_333a_d68c,
    0xa7e5_f24c_b74f_5885,
    0x389c_b27e_0bc8_d21f,
    0x0000_0000_0000_0000,
    0x0000_0000_0000_0000,
    0x0000_0000_0000_0000,
];

/// The field prime `p = 2^384 - 2^128 - 2^96 + 2^32 - 1`.
pub open spec fn p384_prime() -> nat {
    0xffffffff_ffffffff_ffffffff_ffffffff_ffffffff_ffffffff_ffffffff_fffffffe_ffffffff_00000000_00000000_ffffffffnat
}

/// The order `n` of the group that the generator spans.
pub open spec fn p384_order() -> nat {
    0xffffffff_ffffffff_ffffffff_ffffffff_ffffffff_ffffffff_c7634d81_f4372ddf_581a0db2_48b0a77a_ecec196a_ccc52973nat
}

/// The coefficient `b` of the curve equation.
pub open spec fn p384_coefficient_b() -> nat {
    0xb3312fa7_e23ee7e4_988e056b_e3f82d19_181d9c6e_fe814112_0314088f_5013875a_c656398d_8a2ed19d_2a85c8ed_d3ec2aefnat
}

/// The coordinate `x` of the generator.
pub open spec fn p384_generator_x() -> nat {
    0xaa87ca22_be8b0537_8eb1c71e_f320ad74_6e1d3b62_8ba79b98_59f741e0_82542a38_5502f25d_bf55296c_3a545e38_72760ab7nat
}

/// The coordinate `y` of the generator.
pub open spec fn p384_generator_y() -> nat {
    0x3617de4a_96262c6f_5d9e98bf_9292dc29_f8f41dbd_289a147c_e9da3113_b5f0b8c0_0a60b1ce_1d7e819d_7a431d7c_90ea0e5fnat
}

/// The Montgomery radix `R = 2^384`.
pub open spec fn p384_radix() -> nat {
    0x1_00000000_00000000_00000000_00000000_00000000_00000000_00000000_00000000_00000000_00000000_00000000_00000000nat
}

/// The table of constants of P-384.
pub open spec fn p384_common_ops() -> CommonOps {
    CommonOps {
        num_limbs: P384_NUM_LIMBS,
        q: Mont { p: P384_P, rr: P384_RR },
        n: ElemDecoded { limbs: P384_N },
        a: Elem { limbs: P384_A },
        b: Elem { limbs: P384_B },
        generator: (Elem { limbs: P384_GENERATOR_X }, Elem { limbs: P384_GENERATOR_Y }),
    }
}

/// The table of P-384 for the scalar arithmetic of signature verification.
pub open spec fn p384_public_scalar_ops() -> PublicScalarOps {
    PublicScalarOps {
        public_key_ops: PublicKeyOps { common: p384_common_ops() },
        q_minus_n: ElemDecoded { limbs: P384_Q_MINUS_N },
    }
}

/// The radix is `2^384`, and the prime is `2^384 - 2^128 - 2^96 + 2^32 - 1`.
pub proof fn lemma_p384_radix_and_prime()
    ensures
        p384_radix() == pow2(384),
        p384_radix() == montgomery_radix(P384_NUM_LIMBS as nat),
        p384_prime() == pow2(384) - pow2(128) - pow2(96) + pow2(32) - 1,
{
    lemma2_to64();
    lemma2_to64_rest();
    lemma_pow2_adds(64, 32);
    lemma_pow2_adds(64, 64);
    lemma_pow2_adds(128, 128);
    lemma_pow2_adds(256, 128);
    let p64 = pow2(64);
    let p128 = pow2(128);
    let p256 = pow2(256);
    assert(p64 * pow2(32) == 0x1_00000000_00000000_00000000nat) by (nonlinear_arith)
        requires
            p64 == 0x1_00000000_00000000nat,
            pow2(32) == 0x1_00000000nat,
    ;
    assert(p64 * p64 == 0x1_00000000_00000000_00000000_00000000nat) by (nonlinear_arith)
        requires
            p64 == 0x1_00000000_00000000nat,
    ;
    assert(p128 * p128
        == 0x1_00000000_00000000_00000000_00000000_00000000_00000000_00000000_00000000nat)
        by (nonlinear_arith)
        requires
            p128 == 0x1_00000000_00000000_00000000_00000000nat,
    ;
    assert(p256 * p128 == p384_radix()) by (nonlinear_arith)
        requires
            p128 == 0x1_00000000_00000000_00000000_00000000nat,
            p256
                == 0x1_00000000_00000000_00000000_00000000_00000000_00000000_00000000_00000000nat,
    ;
}

/// The limbs of the tables stand for the numbers that they are named after.
pub proof fn lemma_p384_limbs()
    ensures
        limbs_value(P384_P@) == p384_prime(),
        limbs_value(P384_N@) == p384_order(),
        limbs_value(P384_Q_MINUS_N@) + p384_order() == p384_prime(),
        p384_order() < p384_prime(),
{
    assert(limbs_value(P384_P@) == p384_prime()) by {
        reveal_with_fuel(limbs_value, 7);
    }
    assert(limbs_value(P384_N@) == p384_order()) by {
        reveal_with_fuel(limbs_value, 7);
    }
    assert(limbs_value(P384_Q_MINUS_N@) == 0x389cb27e_0bc8d21f_a7e5f24c_b74f5885_1313e696_333ad68cnat)
        by {
        reveal_with_fuel(limbs_value, 7);
    }
}

/// `rr` is `R * R mod p`.
pub proof fn lemma_p384_rr()
    ensures
        limbs_value(P384_RR@) == to_montgomery(p384_radix(), p384_radix(), p384_prime()),
{
    reveal_with_fuel(limbs_value, 7);
    let k: int =
        0x1_00000000_00000000_00000000_00000000_00000000_00000000_00000000_00000001_00000000_ffffffff_ffffffff_00000001int;
    let r = p384_radix() as int;
    let p = p384_prime() as int;
    let v = limbs_value(P384_RR@) as int;
    assert(r * r == k * p + v) by (nonlinear_arith)
        requires
            r == p384_radix(),
            p == p384_prime(),
            k
                == 0x1_00000000_00000000_00000000_00000000_00000000_00000000_00000000_00000001_00000000_ffffffff_ffffffff_00000001int,
            v == 0x1_00000002_00000000_fffffffe_00000000_00000002_00000000_fffffffe_00000001int,
    ;
    lemma_fundamental_div_mod_converse(r * r, p, k, v);
}

/// The coefficient `a` of the table is `-3` in the Montgomery domain.
pub proof fn lemma_p384_a()
    ensures
        limbs_value(P384_A@) == to_montgomery(
            (p384_prime() - 3) as nat,
            p384_radix(),
            p384_prime(),
        ),
{
    reveal_with_fuel(limbs_value, 7);
    let k: int =
        0xffffffff_ffffffff_ffffffff_ffffffff_ffffffff_ffffffff_ffffffff_ffffffff_ffffffff_ffffffff_ffffffff_fffffffcint;
    let r = p384_radix() as int;
    let p = p384_prime() as int;
    let v = limbs_value(P384_A@) as int;
    assert((p - 3) * r == k * p + v) by (nonlinear_arith)
        requires
            r == p384_radix(),
            p == p384_prime(),
            k
                == 0xffffffff_ffffffff_ffffffff_ffffffff_ffffffff_ffffffff_ffffffff_ffffffff_ffffffff_ffffffff_ffffffff_fffffffcint,
            v
                == 0xffffffff_ffffffff_ffffffff_ffffffff_ffffffff_ffffffff_ffffffff_fffffffb_fffffffc_00000000_00000003_fffffffcint,
    ;
    lemma_fundamental_div_mod_converse((p - 3) * r, p, k, v);
}

/// The coefficient `b` of the table is `b` in the Montgomery domain.
pub proof fn lemma_p384_b()
    ensures
        limbs_value(P384_B@) == to_montgomery(p384_coefficient_b(), p384_radix(), p384_prime()),
{
    reveal_with_fuel(limbs_value, 7);
    let k: int =
        0xb3312fa7_e23ee7e4_988e056b_e3f82d19_181d9c6e_fe814112_0314088f_5013875b_79876936_1f9ee929_a552b63d_9d412dccint;
    let r = p384_radix() as int;
    let p = p384_prime() as int;
    let x = p384_coefficient_b() as int;
    let v = limbs_value(P384_B@) as int;
    assert(x * r == k * p + v) by (nonlinear_arith)
        requires
            r == p384_radix(),
            p == p384_prime(),
            x == p384_coefficient_b(),
            k
                == 0xb3312fa7_e23ee7e4_988e056b_e3f82d19_181d9c6e_fe814112_0314088f_5013875b_79876936_1f9ee929_a552b63d_9d412dccint,
            v
                == 0xcd08114b_604fbff9_b62b21f4_1f022094_e3374bee_94938ae2_77f2209b_1920022e_f729add8_7a4c32ec_08118871_9d412dccint,
    ;
    lemma_fundamental_div_mod_converse(x * r, p, k, v);
}

/// The generator of the table is the generator in the Montgomery domain.
pub proof fn lemma_p384_generator()
    ensures
        limbs_value(P384_GENERATOR_X@) == to_montgomery(
            p384_generator_x(),
            p384_radix(),
            p384_prime(),
        ),
        limbs_value(P384_GENERATOR_Y@) == to_montgomery(
            p384_generator_y(),
            p384_radix(),
            p384_prime(),
        ),
{
    reveal_with_fuel(limbs_value, 7);
    let kx: int =
        0xaa87ca22_be8b0537_8eb1c71e_f320ad74_6e1d3b62_8ba79b98_59f741e0_82542a38_ff8abc81_2867f8c6_87912a8e_49c0b528int;
    let ky: int =
        0x3617de4a_96262c6f_5d9e98bf_9292dc29_f8f41dbd_289a147c_e9da3113_b5f0b8c0_40789018_e9bc8c57_6e07e2ab_4b03a4feint;
    let r = p384_radix() as int;
    let p = p384_prime() as int;
    let x = p384_generator_x() as int;
    let y = p384_generator_y() as int;
    let vx = limbs_value(P384_GENERATOR_X@) as int;
    let vy = limbs_value(P384_GENERATOR_Y@) as int;
    assert(x * r == kx * p + vx) by (nonlinear_arith)
        requires
            r == p384_radix(),
            p == p384_prime(),
            x == p384_generator_x(),
            kx
                == 0xaa87ca22_be8b0537_8eb1c71e_f320ad74_6e1d3b62_8ba79b98_59f741e0_82542a38_ff8abc81_2867f8c6_87912a8e_49c0b528int,
            vx
                == 0x4d3aadc2_299e1513_812ff723_614ede2b_64548684_59a30eff_879c3afc_541b4d6e_20e378e2_a0d6ce38_3dd07566_49c0b528int,
    ;
    assert(y * r == ky * p + vy) by (nonlinear_arith)
        requires
            r == p384_radix(),
            p == p384_prime(),
            y == p384_generator_y(),
            ky
                == 0x3617de4a_96262c6f_5d9e98bf_9292dc29_f8f41dbd_289a147c_e9da3113_b5f0b8c0_40789018_e9bc8c57_6e07e2ab_4b03a4feint,
            vy
                == 0x2b78abc2_5a15c5e9_dd800226_3969a840_c6c35219_68f4ffd9_8bade756_2e83b050_a1bfa8bf_7bb4a9ac_23043dad_4b03a4feint,
    ;
    lemma_fundamental_div_mod_converse(x * r, p, kx, vx);
    lemma_fundamental_div_mod_converse(y * r, p, ky, vy);
}

/// The generator lies on the curve: `y^2 = x^3 - 3 * x + b` modulo `p`.
pub proof fn lemma_p384_generator_on_curve()
    ensures
        (p384_generator_y() * p384_generator_y()) % p384_prime() == (p384_generator_x()
            * p384_generator_x() * p384_generator_x() + (p384_prime() - 3) * p384_generator_x()
            + p384_coefficient_b()) % (p384_prime() as int),
{
    let k: int =
        0x4bab9bc1_7641ab3b_ca6dd8cf_8cc8319b_9532b7b1_e5dc1af1_f571cb67_e0305b62_0dc799a2_e4b3e3e5_532ca58a_ee3fa565_68f578cd_e158cf51_01262416_e14ea141_725d31dd_e77b47d3_6ea9360b_87d7db1f_f432be36_f793e9e0_f644fc87_1b3e85c7int;
    let p = p384_prime() as int;
    let x = p384_generator_x() as int;
    let y = p384_generator_y() as int;
    let b = p384_coefficient_b() as int;
    assert(x * x * x + (p - 3) * x + b == p * k + y * y) by (nonlinear_arith)
        requires
            p == p384_prime(),
            x == p384_generator_x(),
            y == p384_generator_y(),
            b == p384_coefficient_b(),
            k
                == 0x4bab9bc1_7641ab3b_ca6dd8cf_8cc8319b_9532b7b1_e5dc1af1_f571cb67_e0305b62_0dc799a2_e4b3e3e5_532ca58a_ee3fa565_68f578cd_e158cf51_01262416_e14ea141_725d31dd_e77b47d3_6ea9360b_87d7db1f_f432be36_f793e9e0_f644fc87_1b3e85c7int,
    ;
    lemma_mod_multiples_vanish(k, y * y, p);
}

/// The tables of P-384 are well formed.
pub proof fn lemma_p384_tables_are_well_formed()
    ensures
        p384_common_ops().wf(),
        p384_public_scalar_ops().wf(),
        p384_common_ops().prime() == p384_prime(),
        p384_common_ops().radix() == p384_radix(),
        p384_common_ops().n.value() == p384_order(),
{
    lemma_p384_radix_and_prime();
    lemma_p384_limbs();
    lemma_p384_rr();
    let ops = p384_common_ops();
    assert(ops.a.value() < p384_prime() && ops.b.value() < p384_prime() && ops.generator.0.value()
        < p384_prime() && ops.generator.1.value() < p384_prime()) by {
        reveal_with_fuel(limbs_value, 7);
    }
    assert(ops.n.limbs@.subrange(0, 6) =~= P384_N@);
    assert(is_valid_bound(P384_N@));
}

/// The table of constants of P-384.
pub fn common_ops() -> (ops: CommonOps)
    ensures
        ops == p384_common_ops(),
        ops.wf(),
{
    proof {
        lemma_p384_tables_are_well_formed();
    }
    CommonOps {
        num_limbs: P384_NUM_LIMBS,
        q: Mont { p: P384_P, rr: P384_RR },
        n: ElemDecoded { limbs: P384_N },
        a: Elem { limbs: P384_A },
        b: Elem { limbs: P384_B },
        generator: (Elem { limbs: P384_GENERATOR_X }, Elem { limbs: P384_GENERATOR_Y }),
    }
}

/// The table of P-384 for work with private keys.
pub fn private_key_ops() -> (ops: PrivateKeyOps)
    ensures
        ops.common == p384_common_ops(),
        ops.common.wf(),
{
    PrivateKeyOps { common: common_ops() }
}

/// The table of P-384 for work with public keys.
pub fn public_key_ops() -> (ops: PublicKeyOps)
    ensures
        ops.common == p384_common_ops(),
        ops.common.wf(),
{
    PublicKeyOps { common: common_ops() }
}

/// The table of P-384 for the scalar arithmetic of signature verification.
pub fn public_scalar_ops() -> (ops: PublicScalarOps)
    ensures
        ops == p384_public_scalar_ops(),
        ops.wf(),
{
    proof {
        lemma_p384_tables_are_well_formed();
    }
    PublicScalarOps {
        public_key_ops: public_key_ops(),
        q_minus_n: ElemDecoded { limbs: P384_Q_MINUS_N },
    }
}

/// `a` times the generator of P-384, by the backend's multiplication of an
/// arbitrary point.
pub fn p384_point_mul_base_impl<K: PrivateKeyCapable>(kernels: &K, a: &Scalar) -> (r: Point)
    ensures
        call_ensures(K::point_mul, (kernels, a, &p384_common_ops().generator), r),
{
    let generator: (Elem, Elem) = (
        Elem { limbs: P384_GENERATOR_X },
        Elem { limbs: P384_GENERATOR_Y },
    );
    let point_mul = K::point_mul;
    point_mul(kernels, a, &generator)
}

/// The Montgomery square of `a`, by the backend's multiplication: P-384 has
/// no squaring routine of its own.
pub fn p384_elem_sqr_mont<F: FieldArithmetic>(field: &F, a: &Elem) -> (r: Elem)
    ensures
        call_ensures(F::elem_mul_mont, (field, a, a), r),
{
    let product = F::elem_mul_mont;
    product(field, a, a)
}

} // verus!
