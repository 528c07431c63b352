//! Limb vectors: constant-time comparison and reduction, and the sampling of
//! a uniformly distributed integer from a range `[1, max_exclusive)`.
//!
//! A limb vector is a slice of limbs, least-significant limb first, and
//! stands for the integer [`limbs_value`] gives it.

use crate::bit_pattern::{
    leading_bits_are_100, lemma_leading_bits_of_top, lemma_limb_magnitude, lemma_value_mask_top,
    lemma_value_split_last, lemma_value_split_last_two,
};
use crate::ct::{ct_eq, ct_is_zero, ct_lt, ct_select, mask_of, MASK_FALSE, MASK_TRUE};
use crate::error::Unspecified;
use crate::limb_value::{
    lemma_limb_weight_step, lemma_value_bound, lemma_value_prefix_step, lemma_value_suffix_step,
    lemma_value_zero, limb_radix, limb_weight, limbs_all_zero, limbs_value,
};
use crate::rand::SecureRandom;
use vstd::arithmetic::div_mod::lemma_small_mod;
use vstd::arithmetic::power2::{
    lemma_pow2_adds, lemma_pow2_strictly_increases, lemma2_to64, lemma2_to64_rest, pow2,
};
use vstd::bits::{
    lemma_u64_low_bits_mask_is_mod, lemma_u64_pow2_no_overflow, lemma_u64_shl_is_mul, low_bits_mask,
};
use vstd::prelude::*;
use vstd::std_specs::bits::u64_leading_zeros;

verus! {

/// The machine word that big integers are made of.
pub type Limb = u64;

/// The number of bits in a limb.
pub const LIMB_BITS: usize = 64;

/// The number of bytes in a limb.
pub const LIMB_BYTES: usize = (LIMB_BITS + 7) / 8;

/// What one conditional subtraction makes of `r`: `r - m` if `r >= m`, and
/// `r` itself otherwise.
pub open spec fn reduce_once_value(r: nat, m: nat) -> nat {
    if r >= m {
        (r - m) as nat
    } else {
        r
    }
}

/// The mask that says whether `a` stands for a smaller integer than `b`.
///
/// The limbs are compared from the most significant one downward; every limb
/// is read whatever the others hold.
fn limbs_less_than_mask(a: &[Limb], b: &[Limb]) -> (lt: u64)
    requires
        a.len() == b.len(),
    ensures
        lt == mask_of(limbs_value(a@) < limbs_value(b@)),
{
    let n: usize = a.len();
    let mut lt: u64 = MASK_FALSE;
    let mut eq: u64 = MASK_TRUE;
    let mut i: usize = n;
    assert(a@.subrange(n as int, n as int) =~= Seq::<Limb>::empty());
    assert(b@.subrange(n as int, n as int) =~= Seq::<Limb>::empty());
    while i > 0
        invariant
            i <= n,
            n == a.len(),
            n == b.len(),
            lt == mask_of(
                limbs_value(a@.subrange(i as int, n as int)) < limbs_value(
                    b@.subrange(i as int, n as int),
                ),
            ),
            eq == mask_of(
                limbs_value(a@.subrange(i as int, n as int)) == limbs_value(
                    b@.subrange(i as int, n as int),
                ),
            ),
        decreases i,
    {
        i -= 1;
        proof {
            lemma_value_suffix_step(a@, i as int);
            lemma_value_suffix_step(b@, i as int);
            let va = limbs_value(a@.subrange(i + 1, n as int));
            let vb = limbs_value(b@.subrange(i + 1, n as int));
            if va < vb {
                assert(limb_radix() * va + limb_radix() <= limb_radix() * vb);
            } else if vb < va {
                assert(limb_radix() * vb + limb_radix() <= limb_radix() * va);
            }
        }
        let x: Limb = a[i];
        let y: Limb = b[i];
        lt = ct_select(eq, ct_lt(x, y), lt);
        eq = ct_select(eq, ct_eq(x, y), eq);
    }
    assert(a@.subrange(0, n as int) =~= a@);
    assert(b@.subrange(0, n as int) =~= b@);
    lt
}

/// Whether `a` stands for a strictly smaller integer than `b`, decided in
/// time that depends on the length alone.
pub fn limbs_less_than_limbs_constant_time(a: &[Limb], b: &[Limb]) -> (r: bool)
    requires
        a.len() == b.len(),
    ensures
        r == (limbs_value(a@) < limbs_value(b@)),
{
    limbs_less_than_mask(a, b) != 0
}

/// Whether every limb is zero, decided in time that depends on the length
/// alone: all limbs are read, whichever of them is not zero.
pub fn limbs_are_zero_constant_time(limbs: &[Limb]) -> (r: bool)
    ensures
        r == limbs_all_zero(limbs@),
        r == (limbs_value(limbs@) == 0),
{
    let n: usize = limbs.len();
    let mut all_zero: u64 = MASK_TRUE;
    let mut i: usize = 0;
    while i < n
        invariant
            i <= n,
            n == limbs.len(),
            all_zero == mask_of(forall|j: int| 0 <= j < i ==> limbs@[j] == 0),
        decreases n - i,
    {
        all_zero = ct_select(ct_is_zero(limbs[i]), all_zero, MASK_FALSE);
        i += 1;
    }
    proof {
        lemma_value_zero(limbs@);
    }
    all_zero != 0
}

/// Subtracts `y` and the incoming borrow from `x`: the difference modulo
/// `2^64`, and the outgoing borrow.
fn limb_sub_borrow(x: Limb, y: Limb, borrow: Limb) -> (r: (Limb, Limb))
    requires
        borrow <= 1,
    ensures
        r.1 <= 1,
        r.0 == x - y - borrow + r.1 * limb_radix(),
{
    let t: Limb = x.wrapping_sub(y);
    let b1: Limb = ct_lt(x, y) & 1;
    let d: Limb = t.wrapping_sub(borrow);
    let b2: Limb = ct_lt(t, borrow) & 1;
    assert(0xffff_ffff_ffff_ffffu64 & 1 == 1 && 0u64 & 1 == 0) by (bit_vector);
    let carry: Limb = b1 | b2;
    assert(carry == b1 + b2) by (bit_vector)
        requires
            carry == b1 | b2,
            b1 <= 1,
            b2 <= 1,
            !(b1 == 1 && b2 == 1),
    ;
    assert(carry * limb_radix() == (if carry == 1 { limb_radix() } else { 0 }));
    (d, carry)
}

/// Replaces `r` by `r - m` if `r >= m`, and leaves it as it is otherwise.
///
/// Both the comparison and the subtraction run over all limbs whatever they
/// hold: the subtrahend is selected by a mask, not by a branch.
pub fn limbs_reduce_once_constant_time(r: &mut [Limb], m: &[Limb])
    requires
        old(r).len() == m.len(),
    ensures
        final(r).len() == old(r).len(),
        limbs_value(final(r)@) == reduce_once_value(limbs_value(old(r)@), limbs_value(m@)),
        limbs_value(old(r)@) < limbs_value(m@) ==> final(r)@ == old(r)@,
        limbs_value(old(r)@) < 2 * limbs_value(m@) ==> limbs_value(final(r)@) < limbs_value(m@),
{
    let n: usize = m.len();
    let lt: u64 = limbs_less_than_mask(r, m);
    let ghost r0 = r@;
    let mut borrow: Limb = 0;
    let mut i: usize = 0;
    proof {
        lemma_limb_weight_step(0);
        assert(r@.subrange(0, 0) =~= Seq::<Limb>::empty());
        assert(m@.subrange(0, 0) =~= Seq::<Limb>::empty());
    }
    while i < n
        invariant
            i <= n,
            n == m.len(),
            n == r.len(),
            r0.len() == n,
            borrow <= 1,
            lt == mask_of(limbs_value(r0) < limbs_value(m@)),
            forall|j: int| i <= j < n ==> r@[j] == r0[j],
            lt == MASK_TRUE ==> borrow == 0 && r@ == r0,
            lt != MASK_TRUE ==> limbs_value(r@.subrange(0, i as int)) + limbs_value(
                m@.subrange(0, i as int),
            ) == limbs_value(r0.subrange(0, i as int)) + borrow * limb_weight(i as nat),
        decreases n - i,
    {
        let ghost before = r@;
        let ghost borrow_in = borrow;
        let subtrahend: Limb = ct_select(lt, 0, m[i]);
        let (d, b) = limb_sub_borrow(r[i], subtrahend, borrow);
        r[i] = d;
        borrow = b;
        proof {
            if lt == MASK_TRUE {
                assert(r@ =~= r0);
            } else {
                let k = i as int;
                let w = limb_weight(i as nat);
                lemma_value_prefix_step(r@, k);
                lemma_value_prefix_step(m@, k);
                lemma_value_prefix_step(r0, k);
                lemma_limb_weight_step(i as nat);
                assert(r@.subrange(0, k) =~= before.subrange(0, k));
                assert(d * w == (r0[k] - m@[k] - borrow_in + b * limb_radix()) * w);
                assert((r0[k] - m@[k] - borrow_in + b * limb_radix()) * w == r0[k] * w - m@[k] * w
                    - borrow_in * w + b * (limb_radix() * w)) by (nonlinear_arith);
            }
        }
        i += 1;
    }
    proof {
        assert(r@.subrange(0, n as int) =~= r@);
        assert(m@.subrange(0, n as int) =~= m@);
        assert(r0.subrange(0, n as int) =~= r0);
        lemma_value_bound(r@);
        lemma_value_bound(r0);
        if lt != MASK_TRUE && borrow == 1 {
            assert(borrow * limb_weight(n as nat) == limb_weight(n as nat));
        }
        if lt != MASK_TRUE && borrow == 0 {
            assert(borrow * limb_weight(n as nat) == 0);
        }
    }
}

/// Whether the bound that `limbs` stands for begins, from its highest set
/// bit, with the bit pattern `100`.
///
/// Only the two most significant limbs are read: the most significant one
/// holds the highest set bit, and where it holds fewer than three bits the
/// limb below supplies the rest of the pattern.
pub fn starts_with_0b100(limbs: &[Limb]) -> (r: bool)
    requires
        limbs.len() > 0,
        limbs@[limbs.len() - 1] > 0,
    ensures
        r == leading_bits_are_100(limbs_value(limbs@)),
{
    let n: usize = limbs.len();
    let most_sig_limb: Limb = limbs[n - 1];
    let next_limb: Option<Limb> = if n > 1 {
        Some(limbs[n - 2])
    } else {
        None
    };
    proof {
        lemma2_to64();
        lemma2_to64_rest();
        lemma_limb_weight_step(0);
        lemma_value_split_last(limbs@);
        assert(1u64 << 63 == 0x8000_0000_0000_0000 && 1u64 << 62 == 0x4000_0000_0000_0000)
            by (bit_vector);
        let lower = limbs_value(limbs@.drop_last());
        if n > 1 {
            lemma_value_split_last_two(limbs@);
            let two = (most_sig_limb * limb_radix() + limbs@[n - 2]) as nat;
            let below = limbs_value(limbs@.drop_last().drop_last());
            if most_sig_limb == 1 {
                lemma_leading_bits_of_top(two, 62, (64 * (n - 2)) as nat, below);
            } else if most_sig_limb == 2 || most_sig_limb == 3 {
                lemma_leading_bits_of_top(two, 63, (64 * (n - 2)) as nat, below);
            }
        } else {
            assert(lower == 0);
            assert(most_sig_limb * limb_weight(0) == most_sig_limb);
        }
        if most_sig_limb == 4 {
            lemma_leading_bits_of_top(4, 0, (64 * (n - 1)) as nat, lower);
        }
    }
    match most_sig_limb {
        4 => true,
        3 => false,
        2 => match next_limb {
            None => false,
            Some(l) => l < (1u64 << 63),
        },
        1 => match next_limb {
            None => false,
            Some(l) => l < (1u64 << 62),
        },
        _ => {
            let zeros: u32 = most_sig_limb.leading_zeros();
            proof {
                lemma_limb_magnitude(most_sig_limb);
            }
            let used_bits: usize = LIMB_BITS - (zeros as usize);
            let shift: u64 = (used_bits - 1) as u64;
            proof {
                assert(1 * pow2(shift as nat) == pow2(shift as nat));
                lemma_u64_shl_is_mul(1, shift);
                if shift < 2 {
                    lemma_pow2_strictly_increases((shift + 1) as nat, 3);
                }
                lemma_pow2_adds(2, (shift - 2) as nat);
            }
            let most_sig_bit: Limb = 1u64 << shift;
            proof {
                assert(most_sig_bit >> 2 == most_sig_bit / 4) by (bit_vector);
                lemma_leading_bits_of_top(
                    most_sig_limb as nat,
                    (shift - 2) as nat,
                    (64 * (n - 1)) as nat,
                    limbs_value(limbs@.drop_last()),
                );
            }
            most_sig_limb - most_sig_bit < most_sig_bit >> 2
        },
    }
}

/// The limb that eight bytes stand for, least-significant byte first.
pub open spec fn limb_of_le_bytes(bytes: Seq<u8>) -> Limb
    recommends
        bytes.len() == 8,
{
    (bytes[0] + bytes[1] * 0x100 + bytes[2] * 0x1_0000 + bytes[3] * 0x100_0000 + bytes[4]
        * 0x1_0000_0000 + bytes[5] * 0x100_0000_0000 + bytes[6] * 0x1_0000_0000_0000 + bytes[7]
        * 0x100_0000_0000_0000) as Limb
}

/// The limbs that a run of bytes stands for: limb `i` is made of the eight
/// bytes from `8 * i` on, least-significant byte first.
pub open spec fn limbs_of_le_bytes(bytes: Seq<u8>) -> Seq<Limb> {
    Seq::new(bytes.len() / 8, |i: int| limb_of_le_bytes(bytes.subrange(8 * i, 8 * i + 8)))
}

/// Overwrites `dest` with the limbs that `bytes` stands for.
pub fn limbs_from_le_bytes(dest: &mut [Limb], bytes: &[u8])
    requires
        bytes.len() == 8 * old(dest).len(),
    ensures
        final(dest)@ == limbs_of_le_bytes(bytes@),
{
    let n: usize = dest.len();
    let mut i: usize = 0;
    while i < n
        invariant
            i <= n,
            n == dest.len(),
            bytes.len() == 8 * n,
            forall|j: int| 0 <= j < i ==> dest@[j] == limb_of_le_bytes(
                #[trigger] bytes@.subrange(8 * j, 8 * j + 8),
            ),
        decreases n - i,
    {
        let at: usize = i * 8;
        let b0: u8 = bytes[at];
        let b1: u8 = bytes[at + 1];
        let b2: u8 = bytes[at + 2];
        let b3: u8 = bytes[at + 3];
        let b4: u8 = bytes[at + 4];
        let b5: u8 = bytes[at + 5];
        let b6: u8 = bytes[at + 6];
        let b7: u8 = bytes[at + 7];
        let limb: Limb = (b0 as u64) | ((b1 as u64) << 8) | ((b2 as u64) << 16) | ((b3 as u64)
            << 24) | ((b4 as u64) << 32) | ((b5 as u64) << 40) | ((b6 as u64) << 48) | ((b7 as u64)
            << 56);
        assert(limb == b0 + b1 * 0x100 + b2 * 0x1_0000 + b3 * 0x100_0000 + b4 * 0x1_0000_0000 + b5
            * 0x100_0000_0000 + b6 * 0x1_0000_0000_0000 + b7 * 0x100_0000_0000_0000)
            by (bit_vector)
            requires
                limb == (b0 as u64) | ((b1 as u64) << 8) | ((b2 as u64) << 16) | ((b3 as u64)
                    << 24) | ((b4 as u64) << 32) | ((b5 as u64) << 40) | ((b6 as u64) << 48) | ((
                b7 as u64) << 56),
        ;
        dest[i] = limb;
        i += 1;
    }
    assert(dest@ =~= limbs_of_le_bytes(bytes@));
}

/// Whether `bound` can be the exclusive upper end of a range: it has a most
/// significant limb, and that limb is not zero.
pub open spec fn is_valid_bound(bound: Seq<Limb>) -> bool {
    bound.len() > 0 && bound.last() > 0
}

/// The number of unused leading bits in the most significant limb of `bound`.
pub open spec fn bound_leading_zero_bits(bound: Seq<Limb>) -> int {
    u64_leading_zeros(bound.last())
}

/// Whether a candidate for `bound` is drawn one bit wider than the bound and
/// brought back by up to two subtractions: the bound begins with the bits
/// `100` and leaves a leading bit of its most significant limb unused.
pub open spec fn bound_reduces_twice(bound: Seq<Limb>) -> bool {
    leading_bits_are_100(limbs_value(bound)) && bound_leading_zero_bits(bound) > 0
}

/// The number of leading bits that are cleared in a candidate for `bound`.
pub open spec fn bound_mask_bits(bound: Seq<Limb>) -> int {
    if bound_reduces_twice(bound) {
        bound_leading_zero_bits(bound) - 1
    } else {
        bound_leading_zero_bits(bound)
    }
}

/// The number of random bits that a candidate for `bound` keeps.
pub open spec fn candidate_bits(bound: Seq<Limb>) -> nat {
    (64 * bound.len() - bound_mask_bits(bound)) as nat
}

/// The candidate that the random limbs `raw` give for `bound`: their value
/// with the leading bits cleared.
pub open spec fn candidate_value(bound: Seq<Limb>, raw: Seq<Limb>) -> nat {
    limbs_value(raw) % pow2(candidate_bits(bound))
}

/// What becomes of a candidate `c` for the range `[1, max)`: whether it is
/// accepted, and the value that is left.
///
/// A candidate inside the range is accepted as it is. Where `twice` holds,
/// one outside of it is reduced once, and once more if that does not bring it
/// into the range; where it does not hold, it is rejected as it is.
pub open spec fn sample_outcome(max: nat, twice: bool, c: nat) -> (bool, nat) {
    if 0 < c < max {
        (true, c)
    } else if twice {
        let c1 = reduce_once_value(c, max);
        if 0 < c1 < max {
            (true, c1)
        } else {
            let c2 = reduce_once_value(c1, max);
            (0 < c2 < max, c2)
        }
    } else {
        (false, c)
    }
}

/// The number of candidates that one call of the sampler draws at most.
pub const SAMPLE_ATTEMPTS: usize = 100;

/// A range `[1, max_exclusive)` of positive integers, where `max_exclusive` is
/// a borrowed limb vector whose most significant limb is not zero.
pub struct Range<'a> {
    max_exclusive: &'a [Limb],
}

impl<'a> View for Range<'a> {
    type V = Seq<Limb>;

    /// The limbs of the exclusive upper end.
    closed spec fn view(&self) -> Seq<Limb> {
        self.max_exclusive@
    }
}

impl<'a> Range<'a> {
    #[verifier::type_invariant]
    spec fn well_formed(&self) -> bool {
        is_valid_bound(self.max_exclusive@)
    }

    /// The range `[1, max_exclusive)`.
    pub fn from_max_exclusive(max_exclusive: &'a [Limb]) -> (range: Range<'a>)
        requires
            !limbs_all_zero(max_exclusive@),
            max_exclusive.len() > 0,
            max_exclusive@[max_exclusive.len() - 1] > 0,
        ensures
            range@ == max_exclusive@,
    {
        Range { max_exclusive }
    }

    /// The number of unused leading bits in the most significant limb of the
    /// upper end. It is below 64, since that limb is not zero.
    pub fn leading_zero_bits(&self) -> (bits: usize)
        ensures
            bits == bound_leading_zero_bits(self@),
            bits < 64,
    {
        proof {
            use_type_invariant(self);
        }
        let most_significant_limb: Limb = self.max_exclusive[self.max_exclusive.len() - 1];
        proof {
            lemma_limb_magnitude(most_significant_limb);
        }
        most_significant_limb.leading_zeros() as usize
    }

    /// Whether `limbs` stands for an integer of the range: `0 < limbs < max_exclusive`.
    ///
    /// Both tests are made whatever the first one finds.
    pub fn are_limbs_within(&self, limbs: &[Limb]) -> (within: bool)
        requires
            limbs.len() == self@.len(),
        ensures
            within == (0 < limbs_value(limbs@) < limbs_value(self@)),
    {
        let is_gt_zero: bool = !limbs_are_zero_constant_time(limbs);
        let is_lt_max: bool = limbs_less_than_limbs_constant_time(limbs, self.max_exclusive);
        is_lt_max && is_gt_zero
    }

    /// Whether candidates are reduced twice, and the number of leading bits
    /// that are cleared in them.
    fn sampling_shape(&self) -> (shape: (bool, usize))
        ensures
            shape.0 == bound_reduces_twice(self@),
            shape.1 == bound_mask_bits(self@),
            shape.1 < 64,
    {
        proof {
            use_type_invariant(self);
        }
        let zeros: usize = self.leading_zero_bits();
        let twice: bool = starts_with_0b100(self.max_exclusive) && zeros > 0;
        let bits_to_mask: usize = if twice {
            zeros - 1
        } else {
            zeros
        };
        (twice, bits_to_mask)
    }

    /// Clears the top `bits_to_mask` bits of `dest`, then accepts it, reduces
    /// it or rejects it.
    fn settle(&self, dest: &mut [Limb], twice: bool, bits_to_mask: usize) -> (accepted: bool)
        requires
            old(dest).len() == self@.len(),
            twice == bound_reduces_twice(self@),
            bits_to_mask == bound_mask_bits(self@),
            bits_to_mask < 64,
        ensures
            final(dest).len() == old(dest).len(),
            (accepted, limbs_value(final(dest)@)) == sample_outcome(
                limbs_value(self@),
                twice,
                candidate_value(self@, old(dest)@),
            ),
    {
        proof {
            use_type_invariant(self);
        }
        let n: usize = self.max_exclusive.len();
        if bits_to_mask > 0 {
            let kept_bits: u64 = (LIMB_BITS - bits_to_mask) as u64;
            proof {
                lemma_u64_pow2_no_overflow(kept_bits as nat);
                assert(1 * pow2(kept_bits as nat) == pow2(kept_bits as nat));
                lemma_u64_shl_is_mul(1, kept_bits);
            }
            let mask: Limb = (1u64 << kept_bits) - 1;
            let top: Limb = dest[n - 1];
            proof {
                lemma_u64_low_bits_mask_is_mod(top, kept_bits as nat);
                assert(mask == low_bits_mask(kept_bits as nat));
                lemma_value_mask_top(dest@, kept_bits as nat, top & mask);
            }
            dest[n - 1] = top & mask;
        } else {
            proof {
                lemma_value_bound(dest@);
                lemma_small_mod(limbs_value(dest@), pow2(64 * n as nat));
            }
        }
        if self.are_limbs_within(dest) {
            return true;
        }
        if twice {
            limbs_reduce_once_constant_time(dest, self.max_exclusive);
            if self.are_limbs_within(dest) {
                return true;
            }
            limbs_reduce_once_constant_time(dest, self.max_exclusive);
            if self.are_limbs_within(dest) {
                return true;
            }
        }
        false
    }

    /// Makes of the random limbs in `dest` a candidate for the range, and
    /// accepts or rejects it.
    ///
    /// The leading bits of `dest` are cleared. A candidate inside the range
    /// stays as it is. Where the bound begins with the bits `100` and leaves a
    /// leading bit unused, a candidate outside the range has the bound
    /// subtracted up to two times. Returns whether `dest` now holds an
    /// integer of the range.
    pub fn reduce_candidate(&self, dest: &mut [Limb]) -> (accepted: bool)
        requires
            old(dest).len() == self@.len(),
        ensures
            final(dest).len() == old(dest).len(),
            (accepted, limbs_value(final(dest)@)) == sample_outcome(
                limbs_value(self@),
                bound_reduces_twice(self@),
                candidate_value(self@, old(dest)@),
            ),
            accepted == (0 < limbs_value(final(dest)@) < limbs_value(self@)),
    {
        let (twice, bits_to_mask) = self.sampling_shape();
        self.settle(dest, twice, bits_to_mask)
    }

    /// Chooses a positive integer within the range and stores it into `dest`,
    /// least-significant limb first.
    ///
    /// Up to [`SAMPLE_ATTEMPTS`] candidates are drawn from `rng`, each from
    /// fresh bytes whose limbs are read least-significant byte first; the
    /// first that is accepted is returned. The call fails as soon as `rng`
    /// fails, and when no candidate was accepted: see [`sample_run`].
    pub fn sample_into_limbs<R: SecureRandom + ?Sized>(
        &self,
        dest: &mut [Limb],
        rng: &R,
    ) -> (result: Result<(), Unspecified>)
        requires
            old(dest).len() == self@.len(),
            old(dest).len() * 8 <= usize::MAX,
        ensures
            final(dest).len() == old(dest).len(),
            result.is_ok() ==> 0 < limbs_value(final(dest)@) < limbs_value(self@),
            sample_run(
                self@,
                |raw: Seq<u8>|
                    exists|b: &mut [u8], r: Result<(), Unspecified>|
                        b@.len() == 8 * self@.len() && #[trigger] call_ensures(R::fill, (rng, b), r)
                            && r.is_ok() && final(b)@ == raw,
                exists|b: &mut [u8], r: Result<(), Unspecified>|
                    b@.len() == 8 * self@.len() && #[trigger] call_ensures(R::fill, (rng, b), r)
                        && r.is_err(),
                result.is_ok(),
                limbs_value(final(dest)@),
            ),
    {
        let n: usize = dest.len();
        let (twice, bits_to_mask) = self.sampling_shape();
        let mut bytes: Vec<u8> = vec![0u8; n * LIMB_BYTES];
        let fill = R::fill;
        let ghost mut raws: Seq<Seq<u8>> = Seq::empty();
        let mut attempt: usize = 0;
        while attempt < SAMPLE_ATTEMPTS
            invariant
                n == dest.len(),
                n == old(dest).len(),
                n == self@.len(),
                bytes.len() == n * 8,
                twice == bound_reduces_twice(self@),
                bits_to_mask == bound_mask_bits(self@),
                bits_to_mask < 64,
                attempt <= SAMPLE_ATTEMPTS,
                raws.len() == attempt,
                forall|i: int|
                    0 <= i < raws.len() ==> exists|b: &mut [u8], r: Result<(), Unspecified>|
                        b@.len() == 8 * n && #[trigger] call_ensures(R::fill, (rng, b), r)
                            && r.is_ok() && final(b)@ == #[trigger] raws[i],
                forall|i: int| 0 <= i < raws.len() ==> !draw_outcome(self@, #[trigger] raws[i]).0,
            decreases SAMPLE_ATTEMPTS - attempt,
        {
            let filled = fill(rng, bytes.as_mut_slice());
            assert(exists|b: &mut [u8]|
                b@.len() == 8 * n && #[trigger] call_ensures(R::fill, (rng, b), filled) && final(b)@
                    == bytes@);
            if filled.is_err() {
                return filled;
            }
            let ghost raw = bytes@;
            limbs_from_le_bytes(dest, bytes.as_slice());
            let accepted = self.settle(dest, twice, bits_to_mask);
            proof {
                let before = raws;
                raws = raws.push(raw);
                assert(raws.last() == raw);
                assert(draw_outcome(self@, raw) == (accepted, limbs_value(dest@)));
                assert forall|i: int| 0 <= i < raws.len() implies exists|
                    b: &mut [u8],
                    r: Result<(), Unspecified>,
                |
                    b@.len() == 8 * n && #[trigger] call_ensures(R::fill, (rng, b), r) && r.is_ok()
                        && final(b)@ == #[trigger] raws[i] by {
                    if i < before.len() {
                        assert(raws[i] == before[i]);
                    }
                }
                assert forall|i: int| 0 <= i < raws.len() - 1 implies !draw_outcome(
                    self@,
                    #[trigger] raws[i],
                ).0 by {
                    assert(raws[i] == before[i]);
                }
            }
            if accepted {
                return Ok(());
            }
            attempt += 1;
        }
        Err(Unspecified)
    }
}

/// What becomes of the bytes `raw` of one draw for `bound`: whether the
/// candidate that they give is accepted, and the value that is left.
pub open spec fn draw_outcome(bound: Seq<Limb>, raw: Seq<u8>) -> (bool, nat) {
    sample_outcome(
        limbs_value(bound),
        bound_reduces_twice(bound),
        candidate_value(bound, limbs_of_le_bytes(raw)),
    )
}

/// What a run of the sampler for `bound` returns, over the draws that the
/// entropy source gave.
///
/// `gives(raw)` says that the source can fill a buffer of eight bytes for
/// each limb of the bound with `raw`, and `fails` that it can fail on such a
/// buffer. A run draws at most [`SAMPLE_ATTEMPTS`] times and rejects every
/// draw but its last. It ends well (`ok`) with `value` when its last draw is
/// accepted and leaves `value`. It ends badly when its last draw is rejected
/// too, and either the source then fails or the attempts are used up.
pub open spec fn sample_run(
    bound: Seq<Limb>,
    gives: spec_fn(Seq<u8>) -> bool,
    fails: bool,
    ok: bool,
    value: nat,
) -> bool {
    exists|raws: Seq<Seq<u8>>|
        {
            &&& raws.len() <= SAMPLE_ATTEMPTS
            &&& forall|i: int| 0 <= i < raws.len() ==> gives(#[trigger] raws[i])
            &&& forall|i: int|
                0 <= i < raws.len() - 1 ==> !draw_outcome(bound, #[trigger] raws[i]).0
            &&& if ok {
                raws.len() >= 1 && draw_outcome(bound, raws.last()) == (true, value)
            } else {
                &&& raws.len() >= 1 ==> !draw_outcome(bound, raws.last()).0
                &&& raws.len() == SAMPLE_ATTEMPTS || fails
            }
        }
}

/// Samples from `[1, max_exclusive)` into `dest` and reports the outcome as a
/// status: 1 where `dest` holds a sample, 0 where sampling failed.
///
/// The status is 1 exactly when the run of the sampler over the draws that
/// `rng` gave ends well: see [`sample_run`].
#[allow(non_snake_case)]
pub fn GFp_rand_mod<R: SecureRandom + ?Sized>(
    dest: &mut [Limb],
    max_exclusive: &[Limb],
    rng: &R,
) -> (status: i32)
    requires
        old(dest).len() == max_exclusive.len(),
        old(dest).len() * 8 <= usize::MAX,
        !limbs_all_zero(max_exclusive@),
        max_exclusive.len() > 0,
        max_exclusive@[max_exclusive.len() - 1] > 0,
    ensures
        final(dest).len() == old(dest).len(),
        status == 1 || status == 0,
        status == 1 ==> 0 < limbs_value(final(dest)@) < limbs_value(max_exclusive@),
        sample_run(
            max_exclusive@,
            |raw: Seq<u8>|
                exists|b: &mut [u8], r: Result<(), Unspecified>|
                    b@.len() == 8 * max_exclusive@.len() && #[trigger] call_ensures(
                        R::fill,
                        (rng, b),
                        r,
                    ) && r.is_ok() && final(b)@ == raw,
            exists|b: &mut [u8], r: Result<(), Unspecified>|
                b@.len() == 8 * max_exclusive@.len() && #[trigger] call_ensures(R::fill, (rng, b), r)
                    && r.is_err(),
            status == 1,
            limbs_value(final(dest)@),
        ),
{
    let range = Range::from_max_exclusive(max_exclusive);
    let result = range.sample_into_limbs(dest, rng);
    if result.is_err() {
        return 0;
    }
    1
}

} // verus!
