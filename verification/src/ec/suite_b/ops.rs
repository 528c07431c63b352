//! The tables of constants that describe a curve, and the arithmetic entry
//! points that a backend supplies for it.
//!
//! The algorithms above this layer are written against the tables and the
//! capability traits alone. A curve is added by a new set of tables and a new
//! backend, without a change to anything here.

use crate::limb::{is_valid_bound, Limb};
use crate::limb_value::limbs_value;
use vstd::arithmetic::power2::pow2;
use vstd::prelude::*;

pub mod p384;

verus! {

/// The number of limbs of the widest curve: 384 bits.
pub const MAX_LIMBS: usize = 6;

/// The number of limbs of a point: three coordinates.
pub const POINT_LIMBS: usize = 18;

/// A field element in the Montgomery domain: the limbs stand for
/// `x * R mod p`, where `R` is `2^(64 * num_limbs)`.
#[derive(Clone, Copy, Debug, PartialEq, Eq)]
pub struct Elem {
    pub limbs: [Limb; MAX_LIMBS],
}

/// A field value in its plain form, outside the Montgomery domain.
#[derive(Clone, Copy, Debug, PartialEq, Eq)]
pub struct ElemDecoded {
    pub limbs: [Limb; MAX_LIMBS],
}

/// An integer modulo the group order.
#[derive(Clone, Copy, Debug, PartialEq, Eq)]
pub struct Scalar {
    pub limbs: [Limb; MAX_LIMBS],
}

/// A point as the backend represents it: three coordinates of `MAX_LIMBS`
/// limbs each, in the Montgomery domain.
#[derive(Clone, Copy, Debug, PartialEq, Eq)]
pub struct Point {
    pub xyz: [Limb; POINT_LIMBS],
}

/// A field modulus `p` with the constant `R * R mod p` that takes a value
/// into the Montgomery domain.
#[derive(Clone, Copy, Debug, PartialEq, Eq)]
pub struct Mont {
    pub p: [Limb; MAX_LIMBS],
    pub rr: [Limb; MAX_LIMBS],
}

impl Elem {
    /// The integer that the limbs stand for.
    pub open spec fn value(&self) -> nat {
        limbs_value(self.limbs@)
    }
}

impl ElemDecoded {
    /// The integer that the limbs stand for.
    pub open spec fn value(&self) -> nat {
        limbs_value(self.limbs@)
    }
}

impl Scalar {
    /// The integer that the limbs stand for.
    pub open spec fn value(&self) -> nat {
        limbs_value(self.limbs@)
    }
}

/// The Montgomery radix `R` of a curve of `num_limbs` limbs.
pub open spec fn montgomery_radix(num_limbs: nat) -> nat {
    pow2(64 * num_limbs)
}

/// The Montgomery form of `x` for the modulus `p` and the radix `r`.
pub open spec fn to_montgomery(x: nat, r: nat, p: nat) -> nat {
    (x * r) % p
}

/// Whether the limbs from `num_limbs` on are zero.
pub open spec fn unused_limbs_are_zero(limbs: Seq<Limb>, num_limbs: nat) -> bool {
    forall|i: int| num_limbs <= i < limbs.len() ==> limbs[i] == 0
}

/// The constants that every use of a curve needs.
#[derive(Clone, Copy, Debug, PartialEq, Eq)]
pub struct CommonOps {
    /// The number of limbs that the curve's values take.
    pub num_limbs: usize,
    /// The field prime, with `R * R` modulo it.
    pub q: Mont,
    /// The order of the group that the generator spans.
    pub n: ElemDecoded,
    /// The coefficient `a` of the curve equation.
    pub a: Elem,
    /// The coefficient `b` of the curve equation.
    pub b: Elem,
    /// The coordinates `x` and `y` of the generator.
    pub generator: (Elem, Elem),
}

impl CommonOps {
    /// The field prime `p`.
    pub open spec fn prime(&self) -> nat {
        limbs_value(self.q.p@)
    }

    /// The Montgomery radix `R`.
    pub open spec fn radix(&self) -> nat {
        montgomery_radix(self.num_limbs as nat)
    }

    /// Whether the table is one that the backends can work with: the limb
    /// count is in range, every constant keeps to it, the prime is odd and
    /// above 2, `rr` is `R * R mod p`, the coefficients and the generator's
    /// coordinates are residues modulo the prime, and the most significant
    /// limb of the order is not zero, so that the order can bound a range.
    pub open spec fn wf(&self) -> bool {
        &&& 0 < self.num_limbs <= MAX_LIMBS
        &&& unused_limbs_are_zero(self.q.p@, self.num_limbs as nat)
        &&& unused_limbs_are_zero(self.q.rr@, self.num_limbs as nat)
        &&& unused_limbs_are_zero(self.n.limbs@, self.num_limbs as nat)
        &&& unused_limbs_are_zero(self.a.limbs@, self.num_limbs as nat)
        &&& unused_limbs_are_zero(self.b.limbs@, self.num_limbs as nat)
        &&& unused_limbs_are_zero(self.generator.0.limbs@, self.num_limbs as nat)
        &&& unused_limbs_are_zero(self.generator.1.limbs@, self.num_limbs as nat)
        &&& self.prime() >= 3
        &&& self.prime() % 2 == 1
        &&& limbs_value(self.q.rr@) == to_montgomery(self.radix(), self.radix(), self.prime())
        &&& self.a.value() < self.prime()
        &&& self.b.value() < self.prime()
        &&& self.generator.0.value() < self.prime()
        &&& self.generator.1.value() < self.prime()
        &&& is_valid_bound(self.n.limbs@.subrange(0, self.num_limbs as int))
    }
}

/// The constants for work with private keys.
#[derive(Clone, Copy, Debug, PartialEq, Eq)]
pub struct PrivateKeyOps {
    pub common: CommonOps,
}

/// The constants for work with public keys.
#[derive(Clone, Copy, Debug, PartialEq, Eq)]
pub struct PublicKeyOps {
    pub common: CommonOps,
}

/// The constants for the scalar arithmetic of signature verification.
#[derive(Clone, Copy, Debug, PartialEq, Eq)]
pub struct PublicScalarOps {
    pub public_key_ops: PublicKeyOps,
    /// The field prime less the group order, by which a field value is
    /// folded back into the range of the scalars.
    pub q_minus_n: ElemDecoded,
}

impl PublicScalarOps {
    /// Whether the common table is well formed and `q_minus_n` is the field
    /// prime less the group order.
    pub open spec fn wf(&self) -> bool {
        &&& self.public_key_ops.common.wf()
        &&& unused_limbs_are_zero(
            self.q_minus_n.limbs@,
            self.public_key_ops.common.num_limbs as nat,
        )
        &&& self.q_minus_n.value() + self.public_key_ops.common.n.value()
            == self.public_key_ops.common.prime()
    }
}

/// The field entry points that every use of a curve needs.
///
/// All operands and results are residues modulo the field prime in the
/// Montgomery domain. The time that an entry point takes must not depend on
/// the values it is given.
pub trait FieldArithmetic {
    /// `a + b` modulo the field prime.
    fn elem_add(&self, a: &Elem, b: &Elem) -> (r: Elem);

    /// The Montgomery product of `a` and `b`.
    fn elem_mul_mont(&self, a: &Elem, b: &Elem) -> (r: Elem);

    /// The Montgomery square of `a`.
    fn elem_sqr_mont(&self, a: &Elem) -> (r: Elem);
}

/// The entry points for work with private keys.
///
/// A scalar handed to a point multiplication is reduced modulo the group
/// order by the caller.
pub trait PrivateKeyCapable: FieldArithmetic {
    /// The inverse of `a` modulo the field prime.
    fn elem_inv(&self, a: &Elem) -> (r: Elem);

    /// `scalar` times the generator.
    fn point_mul_base(&self, scalar: &Scalar) -> (r: Point);

    /// `scalar` times the point with the affine coordinates `point`.
    fn point_mul(&self, scalar: &Scalar, point: &(Elem, Elem)) -> (r: Point);
}

/// The entry points for the scalar arithmetic of signature verification.
pub trait PublicScalarCapable: FieldArithmetic {
    /// The Montgomery product of `a` and `b` modulo the group order.
    fn scalar_mul_mont(&self, a: &Scalar, b: &Scalar) -> (r: Scalar);

    /// The inverse of `a` modulo the group order, in the Montgomery domain.
    fn scalar_inv_to_mont(&self, a: &Scalar) -> (r: Scalar);
}

} // verus!
