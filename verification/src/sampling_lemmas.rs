//! What holds of every candidate and every bound of the sampler.

use crate::bit_pattern::{
    lemma_leading_bits_by_magnitude, lemma_limb_magnitude, lemma_value_split_last,
};
use crate::limb::{
    bound_leading_zero_bits, bound_reduces_twice, candidate_bits,
    candidate_value, is_valid_bound, reduce_once_value, sample_outcome, Limb,
};
use crate::limb_value::{limb_weight, limbs_value};
use vstd::arithmetic::div_mod::{lemma_fundamental_div_mod_converse, lemma_mod_bound, lemma_small_mod};
use vstd::arithmetic::power2::{lemma_pow2_adds, lemma_pow2_pos, lemma_pow2_unfold, lemma2_to64, pow2};
use vstd::prelude::*;

verus! {

/// The number of bits of a valid bound: the bits of its limbs without the
/// unused leading bits of the most significant one.
pub open spec fn bound_bit_length(bound: Seq<Limb>) -> nat {
    (64 * bound.len() - bound_leading_zero_bits(bound)) as nat
}

/// One conditional subtraction leaves a value below `2 * m` below `m`, and a
/// value below `m` as it is.
pub proof fn lemma_reduce_once_below(r: nat, m: nat)
    ensures
        r < m ==> reduce_once_value(r, m) == r,
        m <= r ==> reduce_once_value(r, m) == r - m,
        r < 2 * m ==> reduce_once_value(r, m) < m,
{
}

/// An accepted candidate leaves an integer of the range `[1, max)`.
pub proof fn lemma_accepted_is_in_range(max: nat, twice: bool, c: nat)
    requires
        sample_outcome(max, twice, c).0,
    ensures
        1 <= sample_outcome(max, twice, c).1 < max,
{
}

/// Which candidates are accepted, and what they leave.
///
/// A candidate is accepted exactly when it is not a multiple of the bound
/// and lies below the bound, or below three times the bound where candidates
/// are reduced twice. What an accepted candidate leaves is its remainder
/// modulo the bound, so each integer of the range is left by exactly one
/// candidate below the bound, and by exactly three below three times the
/// bound: no integer of the range is favoured.
pub proof fn lemma_sample_outcome(max: nat, twice: bool, c: nat)
    requires
        max > 0,
    ensures
        sample_outcome(max, twice, c).0 <==> c % max != 0 && c < (if twice {
            3 * max
        } else {
            max
        }),
        sample_outcome(max, twice, c).0 ==> sample_outcome(max, twice, c).1 == c % max,
{
    if c < max {
        lemma_small_mod(c, max);
    } else if c < 2 * max {
        lemma_fundamental_div_mod_converse(c as int, max as int, 1, c - max);
    } else if c < 3 * max {
        lemma_fundamental_div_mod_converse(c as int, max as int, 2, c - 2 * max);
    }
}

/// A valid bound of bit length `l` lies between `2^(l - 1)` and `2^l`.
pub proof fn lemma_bound_magnitude(bound: Seq<Limb>)
    requires
        is_valid_bound(bound),
    ensures
        bound_bit_length(bound) >= 1,
        0 <= bound_leading_zero_bits(bound) < 64,
        pow2((bound_bit_length(bound) - 1) as nat) <= limbs_value(bound) < pow2(
            bound_bit_length(bound),
        ),
{
    let n = bound.len();
    let top = bound.last();
    let z = bound_leading_zero_bits(bound);
    let w = limb_weight((n - 1) as nat);
    let lo = pow2((63 - z) as nat);
    let hi = pow2((64 - z) as nat);
    lemma_limb_magnitude(top);
    lemma_value_split_last(bound);
    lemma_pow2_adds((63 - z) as nat, 64 * (n - 1) as nat);
    lemma_pow2_adds((64 - z) as nat, 64 * (n - 1) as nat);
    assert(lo * w <= top * w) by (nonlinear_arith)
        requires
            lo <= top,
    ;
    assert((top + 1) * w <= hi * w) by (nonlinear_arith)
        requires
            top + 1 <= hi,
    ;
    assert((top + 1) * w == top * w + w) by (nonlinear_arith);
}

/// How wide candidates are drawn, measured by the bound.
///
/// Every integer of the range is a candidate. Where candidates are not
/// reduced, they lie below twice the bound. Where they are reduced twice,
/// three times the bound fits below the candidates' limit, so that each of
/// `[0, max)`, `[max, 2 * max)` and `[2 * max, 3 * max)` is drawn in full,
/// and the candidates lie below four times the bound.
pub proof fn lemma_candidate_width(bound: Seq<Limb>)
    requires
        is_valid_bound(bound),
    ensures
        limbs_value(bound) < pow2(candidate_bits(bound)),
        pow2(candidate_bits(bound)) <= 4 * limbs_value(bound),
        !bound_reduces_twice(bound) ==> pow2(candidate_bits(bound)) <= 2 * limbs_value(bound),
        bound_reduces_twice(bound) ==> 3 * limbs_value(bound) < pow2(candidate_bits(bound)),
{
    let l = bound_bit_length(bound);
    let v = limbs_value(bound);
    lemma_bound_magnitude(bound);
    lemma_pow2_unfold(l);
    lemma_pow2_unfold(l + 1);
    lemma_pow2_pos((l - 1) as nat);
    lemma2_to64();
    if bound_reduces_twice(bound) {
        assert(candidate_bits(bound) == l + 1);
        if l < 3 {
            if l == 1 {
                assert(v < 2);
            } else {
                lemma_pow2_unfold(1);
                assert(v < 4);
            }
            assert(false);
        }
        lemma_pow2_unfold((l - 1) as nat);
        lemma_pow2_unfold((l - 2) as nat);
        lemma_pow2_pos((l - 3) as nat);
        lemma_leading_bits_by_magnitude(v, (l - 3) as nat);
    } else {
        assert(candidate_bits(bound) == l);
    }
}

/// No integer of the range is favoured.
///
/// An integer `v` of the range is what is left of the candidate `v`, where
/// candidates are reduced twice also of `v + max` and of `v + 2 * max`, and
/// of no other candidate. All of these lie below the candidates' limit. So
/// among the equally likely candidates each integer of the range has the same
/// number that lead to it: one, or three.
pub proof fn lemma_sample_is_unbiased(bound: Seq<Limb>, v: nat, c: nat)
    requires
        is_valid_bound(bound),
        1 <= v < limbs_value(bound),
    ensures
        sample_outcome(limbs_value(bound), bound_reduces_twice(bound), c) == (true, v) <==> (c == v
            || (bound_reduces_twice(bound) && (c == v + limbs_value(bound) || c == v + 2
            * limbs_value(bound)))),
        v < pow2(candidate_bits(bound)),
        bound_reduces_twice(bound) ==> v + 2 * limbs_value(bound) < pow2(candidate_bits(bound)),
{
    lemma_candidate_width(bound);
}

/// A candidate lies below the candidates' limit.
pub proof fn lemma_candidate_below_limit(bound: Seq<Limb>, raw: Seq<Limb>)
    ensures
        candidate_value(bound, raw) < pow2(candidate_bits(bound)),
{
    lemma_pow2_pos(candidate_bits(bound));
    lemma_mod_bound(limbs_value(raw) as int, pow2(candidate_bits(bound)) as int);
}

} // verus!
