//! A validated (value, complement) pair at a fixed bit width.

use vstd::prelude::*;
use vstd::arithmetic::power2::pow2;
use vstd::arithmetic::power2::lemma_pow2_pos;
use crate::error::HierarchyError;
use crate::ubig::Ubig;
use crate::ubig::big_add;
use crate::ubig::big_lt;
use crate::ubig::big_sub;
use crate::ubig::pow2_big;

verus! {

/// The bitwise complement of an `n`-bit value: 2^n - 1 - v.
pub open spec fn complement_of(v: nat, n: nat) -> nat {
    (pow2(n) - 1 - v) as nat
}

/// The canonical ordering of a value and its complement: the smaller of the
/// two first.  A value equal to its own complement stays first.
pub open spec fn canonical_pair(v: nat, n: nat) -> (nat, nat) {
    let c = complement_of(v, n);
    if v <= c {
        (v, c)
    } else {
        (c, v)
    }
}

/// An N-bit value `x` together with its bitwise complement `x_prime`.
/// For every entity built by a constructor, `x + x_prime == 2^n_bits - 1`.
#[derive(Debug)]
pub struct PairedEntity {
    /// The N-bit value.  Canonical constructors store the numerically
    /// smaller value of the pair here.
    pub x: Ubig,
    /// The N-bit bitwise complement of `x`.
    pub x_prime: Ubig,
    /// The bit width N of `x` and `x_prime`.
    pub n_bits: usize,
}

impl PairedEntity {
    /// Pairs an N-bit value with its computed complement, keeping the value
    /// first (no canonicalization).
    pub fn new(x: Ubig, n_bits: usize) -> (r: Result<PairedEntity, HierarchyError>)
        ensures
            n_bits == 0 ==> (r matches Err(HierarchyError::NonPositiveNBits(n)) && n == n_bits),
            n_bits > 0 && x@ >= pow2(n_bits as nat) ==> (r matches Err(
                HierarchyError::ValueTooLargeForNBits { value, n_bits: nb },
            ) && value@ == x@ && nb == n_bits),
            n_bits > 0 && x@ < pow2(n_bits as nat) ==> (r matches Ok(pe) && pe.x@ == x@
                && pe.x_prime@ == complement_of(x@, n_bits as nat) && pe.n_bits == n_bits),
    {
        if n_bits == 0 {
            return Err(HierarchyError::NonPositiveNBits(n_bits));
        }
        let limit_exclusive = pow2_big(n_bits);
        if !big_lt(&x, &limit_exclusive) {
            return Err(HierarchyError::ValueTooLargeForNBits { value: x, n_bits });
        }
        proof {
            lemma_pow2_pos(n_bits as nat);
        }
        let one = Ubig::from_u64(1);
        let all_ones = big_sub(&limit_exclusive, &one);
        let x_prime = big_sub(&all_ones, &x);
        Ok(PairedEntity { x, x_prime, n_bits })
    }

    /// Pairs a value with its complement in canonical order: the smaller of
    /// the two is stored as `x`, the larger as `x_prime`.
    pub fn new_canonical_from_x(value: Ubig, n_bits: usize) -> (r: Result<
        PairedEntity,
        HierarchyError,
    >)
        ensures
            n_bits == 0 ==> (r matches Err(HierarchyError::NonPositiveNBits(n)) && n == n_bits),
            n_bits > 0 && value@ >= pow2(n_bits as nat) ==> (r matches Err(
                HierarchyError::ValueTooLargeForNBits { value: v, n_bits: nb },
            ) && v@ == value@ && nb == n_bits),
            n_bits > 0 && value@ < pow2(n_bits as nat) ==> (r matches Ok(pe) && pe.x@
                == canonical_pair(value@, n_bits as nat).0 && pe.x_prime@ == canonical_pair(
                value@,
                n_bits as nat,
            ).1 && pe.n_bits == n_bits),
    {
        if n_bits == 0 {
            return Err(HierarchyError::NonPositiveNBits(n_bits));
        }
        let limit_exclusive = pow2_big(n_bits);
        if !big_lt(&value, &limit_exclusive) {
            return Err(HierarchyError::ValueTooLargeForNBits { value, n_bits });
        }
        proof {
            lemma_pow2_pos(n_bits as nat);
        }
        let one = Ubig::from_u64(1);
        let all_ones = big_sub(&limit_exclusive, &one);
        let complement = big_sub(&all_ones, &value);
        if value.le(&complement) {
            Ok(PairedEntity { x: value, x_prime: complement, n_bits })
        } else {
            Ok(PairedEntity { x: complement, x_prime: value, n_bits })
        }
    }

    /// Builds a canonical entity from two values asserted to be N-bit
    /// complements of each other, rejecting the pair when they are not.
    pub fn new_from_pair_assert_canonical(
        val1: Ubig,
        val2_supposed_complement: Ubig,
        n_bits: usize,
    ) -> (r: Result<PairedEntity, HierarchyError>)
        ensures
            n_bits == 0 ==> (r matches Err(HierarchyError::NonPositiveNBits(n)) && n == n_bits),
            n_bits > 0 && val1@ >= pow2(n_bits as nat) ==> (r matches Err(
                HierarchyError::ValueTooLargeForNBits { value, n_bits: nb },
            ) && value@ == val1@ && nb == n_bits),
            n_bits > 0 && val1@ < pow2(n_bits as nat) && val2_supposed_complement@ >= pow2(
                n_bits as nat,
            ) ==> (r matches Err(HierarchyError::ValueTooLargeForNBits { value, n_bits: nb })
                && value@ == val2_supposed_complement@ && nb == n_bits),
            n_bits > 0 && val1@ < pow2(n_bits as nat) && val2_supposed_complement@ < pow2(
                n_bits as nat,
            ) && val1@ + val2_supposed_complement@ != pow2(n_bits as nat) - 1 ==> (r matches Err(
                HierarchyError::NonComplementaryPair { val1: v1, val2_complement: v2, n_bits: nb },
            ) && v1@ == val1@ && v2@ == val2_supposed_complement@ && nb == n_bits),
            n_bits > 0 && val1@ < pow2(n_bits as nat) && val2_supposed_complement@ < pow2(
                n_bits as nat,
            ) && val1@ + val2_supposed_complement@ == pow2(n_bits as nat) - 1 ==> (r matches Ok(pe)
                && pe.x@ == canonical_pair(val1@, n_bits as nat).0 && pe.x_prime@ == canonical_pair(
                val1@,
                n_bits as nat,
            ).1 && pe.n_bits == n_bits),
    {
        if n_bits == 0 {
            return Err(HierarchyError::NonPositiveNBits(n_bits));
        }
        let limit_exclusive = pow2_big(n_bits);
        if !big_lt(&val1, &limit_exclusive) {
            return Err(HierarchyError::ValueTooLargeForNBits { value: val1, n_bits });
        }
        if !big_lt(&val2_supposed_complement, &limit_exclusive) {
            return Err(
                HierarchyError::ValueTooLargeForNBits { value: val2_supposed_complement, n_bits },
            );
        }
        proof {
            lemma_pow2_pos(n_bits as nat);
        }
        let one = Ubig::from_u64(1);
        let all_ones = big_sub(&limit_exclusive, &one);
        let sum = big_add(&val1, &val2_supposed_complement);
        if !sum.equals(&all_ones) {
            return Err(
                HierarchyError::NonComplementaryPair {
                    val1,
                    val2_complement: val2_supposed_complement,
                    n_bits,
                },
            );
        }
        if val1.le(&val2_supposed_complement) {
            Ok(PairedEntity { x: val1, x_prime: val2_supposed_complement, n_bits })
        } else {
            Ok(PairedEntity { x: val2_supposed_complement, x_prime: val1, n_bits })
        }
    }
}

/// Canonicalization is stable under complement: the canonical pair of a
/// value and the canonical pair of its complement are the same pair, and
/// the smaller value always comes first.
pub proof fn lemma_canonical_complement(v: nat, n: nat)
    requires
        n >= 1,
        v < pow2(n),
    ensures
        canonical_pair(v, n).0 <= canonical_pair(v, n).1,
        canonical_pair(complement_of(v, n), n) == canonical_pair(v, n),
{
    lemma_pow2_pos(n);
}

} // verus!
