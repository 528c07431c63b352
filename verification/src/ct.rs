//! Word-level selection primitives whose control flow never depends on the
//! values they are given.
//!
//! A *mask* is a word that is either all ones (true) or all zeros (false).
//! Every function here is straight-line code over `&`, `|`, `^`, `!`, shifts
//! and wrapping subtraction, so the time it takes is the same for every input.

use vstd::prelude::*;

verus! {

/// The word with every bit set: the mask for "true".
pub const MASK_TRUE: u64 = 0xffff_ffff_ffff_ffff;

/// The word with every bit clear: the mask for "false".
pub const MASK_FALSE: u64 = 0;

/// Whether `m` is one of the two masks.
pub open spec fn is_mask(m: u64) -> bool {
    m == MASK_TRUE || m == MASK_FALSE
}

/// The mask that stands for the truth value `b`.
pub open spec fn mask_of(b: bool) -> u64 {
    if b {
        MASK_TRUE
    } else {
        MASK_FALSE
    }
}

/// Copies the top bit of `a` into every bit of the result.
pub fn ct_msb(a: u64) -> (m: u64)
    ensures
        m == mask_of(a >= 0x8000_0000_0000_0000),
{
    let top: u64 = a >> 63;
    assert(top == (if a >= 0x8000_0000_0000_0000 { 1u64 } else { 0u64 })) by (bit_vector)
        requires
            top == a >> 63,
    ;
    0u64.wrapping_sub(top)
}

/// The true mask if `a` is zero, the false mask otherwise.
pub fn ct_is_zero(a: u64) -> (m: u64)
    ensures
        m == mask_of(a == 0),
{
    let below: u64 = a.wrapping_sub(1);
    let t: u64 = !a & below;
    assert(t >= 0x8000_0000_0000_0000 <==> a == 0) by (bit_vector)
        requires
            below == (if a == 0 { 0xffff_ffff_ffff_ffffu64 } else { (a - 1) as u64 }),
            t == !a & below,
    ;
    ct_msb(t)
}

/// The true mask if `a` equals `b`, the false mask otherwise.
pub fn ct_eq(a: u64, b: u64) -> (m: u64)
    ensures
        m == mask_of(a == b),
{
    let x: u64 = a ^ b;
    assert(x == 0 <==> a == b) by (bit_vector)
        requires
            x == a ^ b,
    ;
    ct_is_zero(x)
}

/// The true mask if `a` is strictly below `b`, the false mask otherwise.
pub fn ct_lt(a: u64, b: u64) -> (m: u64)
    ensures
        m == mask_of(a < b),
{
    let d: u64 = a.wrapping_sub(b);
    let t: u64 = a ^ ((a ^ b) | (d ^ b));
    assert(t >= 0x8000_0000_0000_0000 <==> a < b) by (bit_vector)
        requires
            d == (if a < b {
                (a - b + 0x1_0000_0000_0000_0000) as u64
            } else {
                (a - b) as u64
            }),
            t == a ^ ((a ^ b) | (d ^ b)),
    ;
    ct_msb(t)
}

/// `x` where `m` is the true mask and `y` where it is the false mask.
pub fn ct_select(m: u64, x: u64, y: u64) -> (r: u64)
    requires
        is_mask(m),
    ensures
        r == (if m == MASK_TRUE { x } else { y }),
{
    let r: u64 = (m & x) | (!m & y);
    assert(r == (if m == 0xffff_ffff_ffff_ffffu64 { x } else { y })) by (bit_vector)
        requires
            m == 0xffff_ffff_ffff_ffffu64 || m == 0u64,
            r == (m & x) | (!m & y),
    ;
    r
}

} // verus!
