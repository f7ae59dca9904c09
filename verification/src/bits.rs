//! Trusted boundary around the packed bit vector that stores the filter's flags.
//!
//! The filter's logic never reads `bit_vec::BitVec` directly: it sees the
//! vector only as the sequence of booleans named by [`bit_vec_bits`], through
//! the small wrappers below.

use bit_vec::BitVec;
use vstd::prelude::*;

verus! {

/// The sequence of boolean flags that a `BitVec` holds, index for index.
pub uninterp spec fn bit_vec_bits(v: BitVec) -> Seq<bool>;

#[verifier::external_type_specification]
#[verifier::external_body]
#[verifier::reject_recursive_types(B)]
pub struct ExBitVec<B>(BitVec<B>);

/// Relies on `bit_vec::BitVec::from_elem`: a vector of `len` bits, each equal to `bit`.
#[verifier::external_body]
pub(crate) fn bits_new(len: usize, bit: bool) -> (r: BitVec)
    ensures
        bit_vec_bits(r).len() == len,
        forall|i: int| 0 <= i < len ==> bit_vec_bits(r)[i] == bit,
{
    BitVec::from_elem(len, bit)
}

/// Relies on `bit_vec::BitVec::len`: the number of bits held.
#[verifier::external_body]
pub(crate) fn bits_len(v: &BitVec) -> (r: usize)
    ensures
        r == bit_vec_bits(*v).len(),
{
    v.len()
}

/// Relies on `bit_vec::BitVec::get`: `Some` of bit `i` exactly when `i` is in
/// range, so the unwrap cannot panic under the precondition.
#[verifier::external_body]
pub(crate) fn bits_get(v: &BitVec, i: usize) -> (r: bool)
    requires
        i < bit_vec_bits(*v).len(),
    ensures
        r == bit_vec_bits(*v)[i as int],
{
    v.get(i).unwrap()
}

/// Relies on `bit_vec::BitVec::set`: writes bit `i` and leaves every other
/// bit; out-of-range indices, on which `set` panics, are ruled out.
#[verifier::external_body]
pub(crate) fn bits_set(v: &mut BitVec, i: usize, x: bool)
    requires
        i < bit_vec_bits(*old(v)).len(),
    ensures
        bit_vec_bits(*final(v)) == bit_vec_bits(*old(v)).update(i as int, x),
{
    v.set(i, x)
}

} // verus!
