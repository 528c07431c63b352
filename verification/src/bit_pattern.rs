//! The leading bit pattern `100` of an integer, which decides how many
//! random bits the sampler may draw for a bound.

use crate::limb::Limb;
use crate::limb_value::{
    lemma_limb_weight_step, lemma_value_bound, lemma_value_push, limb_radix, limb_weight,
    limbs_value,
};
use vstd::arithmetic::div_mod::{lemma_fundamental_div_mod, lemma_fundamental_div_mod_converse};
use vstd::arithmetic::power2::{lemma_pow2_adds, lemma_pow2_pos, lemma_pow2_unfold, lemma2_to64, pow2};
use vstd::bits::{lemma_u64_pow2_no_overflow, lemma_u64_shl_is_mul};
use vstd::prelude::*;
use vstd::std_specs::bits::{axiom_u64_leading_zeros, u64_leading_zeros};

verus! {

/// Whether the binary form of `v`, read from its highest set bit, begins
/// with the three bits `100`.
///
/// An integer below 4 has fewer than three bits and never does. Dropping the
/// lowest bit of an integer of four or more bits does not change its three
/// leading bits.
pub open spec fn leading_bits_are_100(v: nat) -> bool
    decreases v,
{
    if v < 4 {
        false
    } else if v < 8 {
        v == 4
    } else {
        leading_bits_are_100(v / 2)
    }
}

/// An integer `v` with `4 * 2^k <= v < 8 * 2^k` begins with `100` exactly when
/// it is below `5 * 2^k`.
pub proof fn lemma_leading_bits_by_magnitude(v: nat, k: nat)
    requires
        4 * pow2(k) <= v < 8 * pow2(k),
    ensures
        leading_bits_are_100(v) <==> v < 5 * pow2(k),
    decreases k,
{
    lemma2_to64();
    if k > 0 {
        lemma_pow2_unfold(k);
        lemma_pow2_pos((k - 1) as nat);
        lemma_leading_bits_by_magnitude(v / 2, (k - 1) as nat);
    }
}

/// For `x` with `4 * 2^j <= x < 8 * 2^j`, putting any `k` bits below `x` gives
/// an integer that begins with `100` exactly when `x < 5 * 2^j`.
pub proof fn lemma_leading_bits_of_top(x: nat, j: nat, k: nat, lower: nat)
    requires
        4 * pow2(j) <= x < 8 * pow2(j),
        lower < pow2(k),
    ensures
        leading_bits_are_100(x * pow2(k) + lower) <==> x < 5 * pow2(j),
{
    let w = pow2(k);
    let p = pow2(j);
    let v = x * w + lower;
    lemma_pow2_adds(j, k);
    assert(4 * (p * w) <= x * w) by (nonlinear_arith)
        requires
            4 * p <= x,
    ;
    assert((x + 1) * w <= 8 * (p * w)) by (nonlinear_arith)
        requires
            x + 1 <= 8 * p,
    ;
    assert((x + 1) * w == x * w + w) by (nonlinear_arith);
    lemma_leading_bits_by_magnitude(v, j + k);
    if x < 5 * p {
        assert((x + 1) * w <= 5 * (p * w)) by (nonlinear_arith)
            requires
                x + 1 <= 5 * p,
        ;
    } else {
        assert(5 * (p * w) <= x * w) by (nonlinear_arith)
            requires
                5 * p <= x,
        ;
    }
}

/// A limb `x` that is not zero and has `z` leading zero bits lies between
/// `2^(63 - z)` and `2^(64 - z)`.
pub proof fn lemma_limb_magnitude(x: Limb)
    requires
        x > 0,
    ensures
        0 <= u64_leading_zeros(x) < 64,
        pow2((63 - u64_leading_zeros(x)) as nat) <= x < pow2((64 - u64_leading_zeros(x)) as nat),
{
    axiom_u64_leading_zeros(x);
    let s: u64 = (63 - u64_leading_zeros(x)) as u64;
    let bit: u64 = 1u64 << s;
    assert(x >> ((s + 1) as u64) == 0);
    assert((x >> s) & 1 != 0);
    assert(bit <= x && x - bit < bit && bit != 0) by (bit_vector)
        requires
            s < 64,
            bit == 1u64 << s,
            x >> ((s + 1) as u64) == 0,
            (x >> s) & 1 != 0,
    ;
    lemma_u64_pow2_no_overflow(s as nat);
    assert(1 * pow2(s as nat) == pow2(s as nat));
    lemma_u64_shl_is_mul(1, s);
    lemma_pow2_unfold((s + 1) as nat);
}

/// The value of a non-empty vector is its most significant limb at its
/// weight plus the value of the limbs below it, which is under that weight.
pub proof fn lemma_value_split_last(limbs: Seq<Limb>)
    requires
        limbs.len() > 0,
    ensures
        limbs_value(limbs) == limbs.last() * limb_weight((limbs.len() - 1) as nat) + limbs_value(
            limbs.drop_last(),
        ),
        limbs_value(limbs.drop_last()) < limb_weight((limbs.len() - 1) as nat),
{
    lemma_value_push(limbs.drop_last(), limbs.last());
    assert(limbs.drop_last().push(limbs.last()) =~= limbs);
    lemma_value_bound(limbs.drop_last());
}

/// The value of a vector of two or more limbs is its two most significant
/// limbs, read as one number, at the weight of the lower of them, plus the
/// value of the limbs below, which is under that weight.
pub proof fn lemma_value_split_last_two(limbs: Seq<Limb>)
    requires
        limbs.len() > 1,
    ensures
        limbs_value(limbs) == (limbs[limbs.len() - 1] * limb_radix() + limbs[limbs.len() - 2])
            * limb_weight((limbs.len() - 2) as nat) + limbs_value(
            limbs.drop_last().drop_last(),
        ),
        limbs_value(limbs.drop_last().drop_last()) < limb_weight((limbs.len() - 2) as nat),
{
    let n = limbs.len();
    let top = limbs[n - 1];
    let next = limbs[n - 2];
    let w = limb_weight((n - 2) as nat);
    lemma_value_split_last(limbs);
    lemma_value_split_last(limbs.drop_last());
    lemma_limb_weight_step((n - 2) as nat);
    assert(limbs.drop_last().last() == next);
    assert(top * (limb_radix() * w) + next * w == (top * limb_radix() + next) * w)
        by (nonlinear_arith);
}

/// Keeping the low `k` bits of the most significant limb keeps the low
/// `64 * (n - 1) + k` bits of the value of a vector of `n` limbs.
pub proof fn lemma_value_mask_top(limbs: Seq<Limb>, k: nat, kept: Limb)
    requires
        limbs.len() > 0,
        kept == (limbs.last() as int) % (pow2(k) as int),
    ensures
        limbs_value(limbs.update(limbs.len() - 1, kept)) == limbs_value(limbs) % pow2(
            64 * (limbs.len() - 1) as nat + k,
        ),
{
    let n = limbs.len();
    let masked = limbs.update(n - 1, kept);
    let w = limb_weight((n - 1) as nat);
    let p = pow2(k);
    let top = limbs.last();
    let q = (top as int) / (p as int);
    let lower = limbs_value(limbs.drop_last());
    lemma_pow2_pos(k);
    lemma_pow2_pos(64 * (n - 1) as nat);
    lemma_pow2_adds(64 * (n - 1) as nat, k);
    lemma_value_split_last(limbs);
    lemma_value_split_last(masked);
    assert(masked.drop_last() =~= limbs.drop_last());
    lemma_fundamental_div_mod(top as int, p as int);
    assert(top * w == q * (p * w) + kept * w) by (nonlinear_arith)
        requires
            top == p * q + kept,
    ;
    assert((kept + 1) * w <= p * w) by (nonlinear_arith)
        requires
            kept + 1 <= p,
    ;
    assert((kept + 1) * w == kept * w + w) by (nonlinear_arith);
    assert(0 <= kept * w) by (nonlinear_arith);
    let d = pow2(64 * (n - 1) as nat + k);
    assert(d == p * w) by (nonlinear_arith)
        requires
            d == w * p,
    ;
    assert(limbs_value(limbs) == q * d + (kept * w + lower));
    lemma_fundamental_div_mod_converse(
        limbs_value(limbs) as int,
        d as int,
        q,
        (kept * w + lower) as int,
    );
}

} // verus!
