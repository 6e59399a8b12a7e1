//! Arbitrary-precision unsigned integers.
//!
//! A [`Ubig`] holds the little-endian base-2^32 digits of an unsigned
//! integer; its mathematical value is given by [`nat_of`].  The arithmetic
//! the hierarchy needs (add, subtract, shift, remainder, compare) is
//! delegated to `num_bigint`, each operation behind one trusted wrapper
//! whose contract states the operation's effect on the value.

use vstd::prelude::*;
use vstd::arithmetic::power2::pow2;
use vstd::arithmetic::power2::lemma_pow2_pos;

verus! {

/// The value of a little-endian sequence of base-2^32 digits.
pub open spec fn nat_of(digits: Seq<u32>) -> nat
    decreases digits.len(),
{
    if digits.len() == 0 {
        0
    } else {
        digits[0] as nat + 0x1_0000_0000 * nat_of(digits.skip(1))
    }
}

/// An arbitrary-precision unsigned integer, stored as little-endian
/// base-2^32 digits.  Its abstract value is `self@`, a `nat`.
#[derive(Debug)]
pub struct Ubig {
    limbs: Vec<u32>,
}

impl View for Ubig {
    type V = nat;

    closed spec fn view(&self) -> nat {
        nat_of(self.limbs@)
    }
}

/// The values of a sequence of big integers.
pub open spec fn views_of(s: Seq<Ubig>) -> Seq<nat> {
    s.map_values(|u: Ubig| u@)
}

pub(crate) proof fn lemma_views_push(s: Seq<Ubig>, x: Ubig)
    ensures
        views_of(s.push(x)) =~= views_of(s).push(x@),
{
    assert forall|i: int| 0 <= i < s.len() + 1 implies views_of(s.push(x))[i] == views_of(
        s,
    ).push(x@)[i] by {
        if i < s.len() {
            assert(s.push(x)[i] == s[i]);
        } else {
            assert(s.push(x)[i] == x);
        }
    }
}

proof fn lemma_nat_of_singleton(d: u32)
    ensures
        nat_of(seq![d]) == d,
{
    assert(nat_of(Seq::<u32>::empty()) == 0);
    assert(seq![d].skip(1) =~= Seq::<u32>::empty());
}

proof fn lemma_nat_of_pair(lo: u32, hi: u32)
    ensures
        nat_of(seq![lo, hi]) == lo as nat + 0x1_0000_0000 * (hi as nat),
{
    assert(seq![lo, hi].skip(1) =~= seq![hi]);
    lemma_nat_of_singleton(hi);
}

fn clone_digits(v: &Vec<u32>) -> (r: Vec<u32>)
    ensures
        r@ == v@,
{
    let mut out: Vec<u32> = Vec::new();
    let mut i: usize = 0;
    while i < v.len()
        invariant
            i <= v.len(),
            out@ == v@.take(i as int),
        decreases v.len() - i,
    {
        out.push(v[i]);
        assert(v@.take(i as int).push(v@[i as int]) =~= v@.take(i + 1));
        i = i + 1;
    }
    assert(v@.take(v.len() as int) =~= v@);
    out
}

impl Clone for Ubig {
    fn clone(&self) -> (r: Self)
        ensures
            r@ == self@,
    {
        Ubig { limbs: clone_digits(&self.limbs) }
    }
}

impl Ubig {
    /// The integer written with the given little-endian base-2^32 digits.
    pub fn from_u32_digits(digits: Vec<u32>) -> (r: Ubig)
        ensures
            r@ == nat_of(digits@),
    {
        Ubig { limbs: digits }
    }

    /// The little-endian base-2^32 digits of this integer.
    pub fn to_u32_digits(&self) -> (r: Vec<u32>)
        ensures
            nat_of(r@) == self@,
    {
        clone_digits(&self.limbs)
    }

    /// The big integer with the given small value.
    pub fn from_u64(v: u64) -> (r: Ubig)
        ensures
            r@ == v as nat,
    {
        let lo: u32 = (v % 0x1_0000_0000) as u32;
        let hi: u32 = (v / 0x1_0000_0000) as u32;
        proof {
            vstd::arithmetic::div_mod::lemma_fundamental_div_mod(v as int, 0x1_0000_0000);
            assert(v as nat == lo as nat + 0x1_0000_0000 * (hi as nat));
        }
        if hi == 0 {
            if lo == 0 {
                let r = Ubig { limbs: Vec::new() };
                assert(r.limbs@ =~= Seq::<u32>::empty());
                r
            } else {
                let r = Ubig { limbs: vec![lo] };
                proof {
                    assert(r.limbs@ =~= seq![lo]);
                    lemma_nat_of_singleton(lo);
                }
                r
            }
        } else {
            let r = Ubig { limbs: vec![lo, hi] };
            proof {
                assert(r.limbs@ =~= seq![lo, hi]);
                lemma_nat_of_pair(lo, hi);
            }
            r
        }
    }

    /// Whether two big integers have the same value.
    pub fn equals(&self, other: &Ubig) -> (r: bool)
        ensures
            r == (self@ == other@),
    {
        !big_lt(self, other) && !big_lt(other, self)
    }

    /// Whether this value is at most the other.
    pub fn le(&self, other: &Ubig) -> (r: bool)
        ensures
            r == (self@ <= other@),
    {
        !big_lt(other, self)
    }
}

/// Relies on `num_bigint::BigUint`: `BigUint::new` reads little-endian
/// base-2^32 digits, `+` adds with arbitrary precision, and
/// `to_u32_digits` writes the little-endian digits of the result back.
#[verifier::external_body]
pub(crate) fn big_add(a: &Ubig, b: &Ubig) -> (r: Ubig)
    ensures
        r@ == a@ + b@,
{
    let x = num_bigint::BigUint::new(a.limbs.clone()) + num_bigint::BigUint::new(b.limbs.clone());
    Ubig { limbs: x.to_u32_digits() }
}

/// Relies on `num_bigint::BigUint`: `-` subtracts with arbitrary precision
/// and panics when the subtrahend is larger, which the precondition rules
/// out.
#[verifier::external_body]
pub(crate) fn big_sub(a: &Ubig, b: &Ubig) -> (r: Ubig)
    requires
        b@ <= a@,
    ensures
        r@ == a@ - b@,
{
    let x = num_bigint::BigUint::new(a.limbs.clone()) - num_bigint::BigUint::new(b.limbs.clone());
    Ubig { limbs: x.to_u32_digits() }
}

/// Relies on `num_bigint::BigUint`: `<< k` multiplies by 2^k.
#[verifier::external_body]
pub(crate) fn big_shl(a: &Ubig, k: usize) -> (r: Ubig)
    ensures
        r@ == a@ * pow2(k as nat),
{
    let x = num_bigint::BigUint::new(a.limbs.clone()) << k;
    Ubig { limbs: x.to_u32_digits() }
}

/// Relies on `num_bigint::BigUint`: `>> k` divides by 2^k, rounding down.
#[verifier::external_body]
pub(crate) fn big_shr(a: &Ubig, k: usize) -> (r: Ubig)
    ensures
        r@ == a@ / pow2(k as nat),
{
    let x = num_bigint::BigUint::new(a.limbs.clone()) >> k;
    Ubig { limbs: x.to_u32_digits() }
}

/// Relies on `num_bigint::BigUint`: `%` is the Euclidean remainder and
/// panics on a zero divisor, which the precondition rules out.
#[verifier::external_body]
pub(crate) fn big_rem(a: &Ubig, b: &Ubig) -> (r: Ubig)
    requires
        b@ > 0,
    ensures
        r@ == a@ % b@,
{
    let x = num_bigint::BigUint::new(a.limbs.clone()) % num_bigint::BigUint::new(b.limbs.clone());
    Ubig { limbs: x.to_u32_digits() }
}

/// Relies on `num_bigint::BigUint`: `<` compares the numeric values.
#[verifier::external_body]
pub(crate) fn big_lt(a: &Ubig, b: &Ubig) -> (r: bool)
    ensures
        r == (a@ < b@),
{
    num_bigint::BigUint::new(a.limbs.clone()) < num_bigint::BigUint::new(b.limbs.clone())
}

/// The big integer 2^k.
pub(crate) fn pow2_big(k: usize) -> (r: Ubig)
    ensures
        r@ == pow2(k as nat),
{
    let one = Ubig::from_u64(1);
    let r = big_shl(&one, k);
    proof {
        lemma_pow2_pos(k as nat);
    }
    r
}

} // verus!
