//! The integer that a vector of limbs stands for, and the facts about it
//! that the limb routines are proved from.

use crate::limb::Limb;
use vstd::arithmetic::power2::{lemma_pow2_adds, lemma_pow2_pos, lemma2_to64, lemma2_to64_rest, pow2};
use vstd::prelude::*;

verus! {

/// The radix of the limb representation, `2^64`.
pub open spec fn limb_radix() -> nat {
    0x1_0000_0000_0000_0000
}

/// The non-negative integer encoded by `limbs`, least-significant limb first:
/// `limbs[0] + limbs[1] * 2^64 + limbs[2] * 2^128 + ...`.
pub open spec fn limbs_value(limbs: Seq<Limb>) -> nat
    decreases limbs.len(),
{
    if limbs.len() == 0 {
        0
    } else {
        limbs[0] as nat + limb_radix() * limbs_value(limbs.drop_first())
    }
}

/// Whether every limb is zero.
pub open spec fn limbs_all_zero(limbs: Seq<Limb>) -> bool {
    forall|i: int| 0 <= i < limbs.len() ==> limbs[i] == 0
}

/// The weight of limb `i`: `2^(64 * i)`.
pub open spec fn limb_weight(i: nat) -> nat {
    pow2(64 * i)
}

/// The weight of limb zero is one, and each further limb weighs `2^64` times more.
pub proof fn lemma_limb_weight_step(i: nat)
    ensures
        limb_weight(0) == 1,
        limb_weight(i + 1) == limb_radix() * limb_weight(i),
        limb_weight(i) > 0,
{
    lemma2_to64();
    lemma2_to64_rest();
    lemma_pow2_adds(64, 64 * i);
    lemma_pow2_pos(64 * i);
    assert(64 * (i + 1) == 64 + 64 * i);
}

/// The value of the limbs from index `i` on is limb `i` plus `2^64` times the
/// value of the limbs after it.
pub proof fn lemma_value_suffix_step(limbs: Seq<Limb>, i: int)
    requires
        0 <= i < limbs.len(),
    ensures
        limbs_value(limbs.subrange(i, limbs.len() as int)) == limbs[i] + limb_radix()
            * limbs_value(limbs.subrange(i + 1, limbs.len() as int)),
{
    let n = limbs.len() as int;
    assert(limbs.subrange(i, n).drop_first() =~= limbs.subrange(i + 1, n));
}

/// A vector stands for zero exactly when all its limbs are zero.
pub proof fn lemma_value_zero(limbs: Seq<Limb>)
    ensures
        limbs_value(limbs) == 0 <==> limbs_all_zero(limbs),
    decreases limbs.len(),
{
    if limbs.len() > 0 {
        let rest = limbs.drop_first();
        lemma_value_zero(rest);
        if limbs_all_zero(limbs) {
            assert forall|i: int| 0 <= i < rest.len() implies rest[i] == 0 by {
                assert(rest[i] == limbs[i + 1]);
            }
        }
        if limbs_value(limbs) == 0 {
            assert(limbs[0] == 0);
            assert(limbs_value(rest) == 0);
            assert forall|i: int| 0 <= i < limbs.len() implies limbs[i] == 0 by {
                if i > 0 {
                    assert(limbs[i] == rest[i - 1]);
                }
            }
        }
    }
}

/// A vector of `n` limbs stands for an integer below `2^(64 * n)`.
pub proof fn lemma_value_bound(limbs: Seq<Limb>)
    ensures
        limbs_value(limbs) < limb_weight(limbs.len()),
    decreases limbs.len(),
{
    lemma_limb_weight_step(0);
    if limbs.len() > 0 {
        let rest = limbs.drop_first();
        lemma_value_bound(rest);
        lemma_limb_weight_step(rest.len());
    }
}

/// Appending a limb `x` to `n` limbs adds `x * 2^(64 * n)` to the value.
pub proof fn lemma_value_push(limbs: Seq<Limb>, x: Limb)
    ensures
        limbs_value(limbs.push(x)) == limbs_value(limbs) + x * limb_weight(limbs.len()),
    decreases limbs.len(),
{
    lemma_limb_weight_step(0);
    if limbs.len() == 0 {
        assert(limbs.push(x).drop_first() =~= Seq::<Limb>::empty());
        assert(limbs_value(limbs.push(x).drop_first()) == 0);
        assert(x * limb_weight(0) == x);
    } else {
        let rest = limbs.drop_first();
        lemma_value_push(rest, x);
        assert(limbs.push(x).drop_first() =~= rest.push(x));
        lemma_limb_weight_step(rest.len());
        let w = limb_weight(rest.len());
        assert(limb_radix() * (x * w) == x * (limb_radix() * w)) by (nonlinear_arith);
        assert(limb_radix() * (limbs_value(rest) + x * w) == limb_radix() * limbs_value(rest)
            + limb_radix() * (x * w)) by (nonlinear_arith);
    }
}

/// The value of the first `i + 1` limbs is the value of the first `i` limbs
/// plus limb `i` at its weight.
pub proof fn lemma_value_prefix_step(limbs: Seq<Limb>, i: int)
    requires
        0 <= i < limbs.len(),
    ensures
        limbs_value(limbs.subrange(0, i + 1)) == limbs_value(limbs.subrange(0, i)) + limbs[i]
            * limb_weight(i as nat),
{
    lemma_value_push(limbs.subrange(0, i), limbs[i]);
    assert(limbs.subrange(0, i).push(limbs[i]) =~= limbs.subrange(0, i + 1));
}

/// Two vectors of the same length that stand for the same integer are equal.
pub proof fn lemma_value_injective(a: Seq<Limb>, b: Seq<Limb>)
    requires
        a.len() == b.len(),
        limbs_value(a) == limbs_value(b),
    ensures
        a == b,
    decreases a.len(),
{
    if a.len() > 0 {
        let ra = a.drop_first();
        let rb = b.drop_first();
        assert(limbs_value(ra) == limbs_value(rb) && a[0] == b[0]) by {
            let va = limbs_value(ra);
            let vb = limbs_value(rb);
            if va < vb {
                assert(limb_radix() * va + limb_radix() <= limb_radix() * vb);
            } else if vb < va {
                assert(limb_radix() * vb + limb_radix() <= limb_radix() * va);
            }
        }
        lemma_value_injective(ra, rb);
        assert forall|i: int| 0 <= i < a.len() implies a[i] == b[i] by {
            if i > 0 {
                assert(a[i] == ra[i - 1]);
                assert(b[i] == rb[i - 1]);
            }
        }
    }
    assert(a =~= b);
}

} // verus!
