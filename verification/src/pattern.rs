//! The validated, immutable base pattern: the seed set of values at the
//! base bit-width.

use vstd::prelude::*;
use vstd::arithmetic::power2::pow2;
use vstd::arithmetic::power2::lemma_pow2_pos;
use crate::error::HierarchyError;
use crate::ubig::Ubig;
use crate::ubig::big_lt;
use crate::ubig::big_sub;
use crate::ubig::lemma_views_push;
use crate::ubig::pow2_big;
use crate::ubig::views_of;

verus! {

/// Whether the sequence holds the value.
pub open spec fn seq_contains(s: Seq<nat>, v: nat) -> bool {
    exists|i: int| 0 <= i < s.len() && s[i] == v
}

fn contains_ubig(v: &Vec<Ubig>, x: &Ubig) -> (r: bool)
    ensures
        r == seq_contains(views_of(v@), x@),
{
    let mut i: usize = 0;
    while i < v.len()
        invariant
            i <= v@.len(),
            forall|j: int| 0 <= j < i ==> (#[trigger] v@[j])@ != x@,
        decreases v@.len() - i,
    {
        if v[i].equals(x) {
            proof {
                assert(views_of(v@)[i as int] == x@);
            }
            return true;
        }
        i = i + 1;
    }
    proof {
        assert forall|j: int| 0 <= j < views_of(v@).len() implies views_of(v@)[j] != x@ by {
            assert(views_of(v@)[j] == v@[j]@);
        }
    }
    false
}

/// The validated base pattern: a non-empty set of distinct values, each
/// representable within the base bit-width.  Validation happens once, in
/// [`InitialPattern::new`]; the pattern is immutable afterwards.
#[derive(Debug)]
pub struct InitialPattern {
    /// The distinct values of the base pattern.
    pub s_base_values: Vec<Ubig>,
    /// The bit width of the values in `s_base_values`.
    pub n_base_bits: usize,
}

impl InitialPattern {
    /// The values of the base pattern.
    pub open spec fn values(&self) -> Seq<nat> {
        views_of(self.s_base_values@)
    }

    /// The invariant every validated pattern has: a positive base width and
    /// a non-empty set of distinct, in-range values.
    pub open spec fn wf(&self) -> bool {
        &&& self.n_base_bits >= 1
        &&& self.s_base_values@.len() >= 1
        &&& forall|i: int|
            0 <= i < self.s_base_values@.len() ==> (#[trigger] self.s_base_values@[i])@ < pow2(
                self.n_base_bits as nat,
            )
        &&& forall|i: int, j: int|
            0 <= i < j < self.s_base_values@.len() ==> (#[trigger] self.s_base_values@[i])@ != (
            #[trigger] self.s_base_values@[j])@
    }

    /// Validates a base pattern: the width must be positive, the values
    /// non-empty, and every value representable in the width.  Duplicate
    /// values are kept once; the first out-of-range value is reported.
    pub fn new(s_base_values: Vec<Ubig>, n_base_bits: usize) -> (r: Result<
        InitialPattern,
        HierarchyError,
    >)
        ensures
            n_base_bits == 0 ==> (r matches Err(HierarchyError::NonPositiveNBits(n)) && n
                == n_base_bits),
            n_base_bits > 0 && s_base_values@.len() == 0 ==> r matches Err(
                HierarchyError::EmptySBaseValues,
            ),
            n_base_bits > 0 && s_base_values@.len() > 0 && !(forall|i: int|
                0 <= i < s_base_values@.len() ==> (#[trigger] s_base_values@[i])@ < pow2(
                    n_base_bits as nat,
                )) ==> (r matches Err(
                HierarchyError::ValueExceedsNBaseBits { value, n_bits, max_val },
            ) && n_bits == n_base_bits && max_val@ == pow2(n_base_bits as nat) - 1 && (exists|
                i: int,
            |
                0 <= i < s_base_values@.len() && (#[trigger] s_base_values@[i])@ == value@ && value@
                    >= pow2(n_base_bits as nat) && (forall|j: int|
                    0 <= j < i ==> (#[trigger] s_base_values@[j])@ < pow2(n_base_bits as nat)))),
            n_base_bits > 0 && s_base_values@.len() > 0 && (forall|i: int|
                0 <= i < s_base_values@.len() ==> (#[trigger] s_base_values@[i])@ < pow2(
                    n_base_bits as nat,
                )) ==> (r matches Ok(p) && p.wf() && p.n_base_bits == n_base_bits && (forall|
                v: nat,
            |
                seq_contains(p.values(), v) == seq_contains(views_of(s_base_values@), v))),
    {
        if n_base_bits == 0 {
            return Err(HierarchyError::NonPositiveNBits(n_base_bits));
        }
        if s_base_values.len() == 0 {
            return Err(HierarchyError::EmptySBaseValues);
        }
        let limit_exclusive = pow2_big(n_base_bits);
        let mut i: usize = 0;
        while i < s_base_values.len()
            invariant
                n_base_bits >= 1,
                i <= s_base_values@.len(),
                limit_exclusive@ == pow2(n_base_bits as nat),
                forall|j: int|
                    0 <= j < i ==> (#[trigger] s_base_values@[j])@ < pow2(n_base_bits as nat),
            decreases s_base_values@.len() - i,
        {
            if !big_lt(&s_base_values[i], &limit_exclusive) {
                proof {
                    lemma_pow2_pos(n_base_bits as nat);
                }
                let one = Ubig::from_u64(1);
                let max_val = big_sub(&limit_exclusive, &one);
                let value = s_base_values[i].clone();
                return Err(
                    HierarchyError::ValueExceedsNBaseBits { value, n_bits: n_base_bits, max_val },
                );
            }
            i = i + 1;
        }
        let mut uniq: Vec<Ubig> = Vec::new();
        let mut k: usize = 0;
        while k < s_base_values.len()
            invariant
                n_base_bits >= 1,
                k <= s_base_values@.len(),
                s_base_values@.len() > 0,
                k > 0 ==> uniq@.len() >= 1,
                forall|a: int|
                    0 <= a < s_base_values@.len() ==> (#[trigger] s_base_values@[a])@ < pow2(
                        n_base_bits as nat,
                    ),
                forall|a: int|
                    0 <= a < uniq@.len() ==> (#[trigger] uniq@[a])@ < pow2(n_base_bits as nat),
                forall|a: int, b: int|
                    0 <= a < b < uniq@.len() ==> (#[trigger] uniq@[a])@ != (#[trigger] uniq@[b])@,
                forall|a: int|
                    0 <= a < uniq@.len() ==> seq_contains(
                        views_of(s_base_values@),
                        (#[trigger] uniq@[a])@,
                    ),
                forall|b: int|
                    0 <= b < k ==> seq_contains(views_of(uniq@), (#[trigger] s_base_values@[b])@),
            decreases s_base_values@.len() - k,
        {
            if !contains_ubig(&uniq, &s_base_values[k]) {
                let ghost old_uniq = uniq@;
                let x = s_base_values[k].clone();
                proof {
                    assert(views_of(s_base_values@)[k as int] == s_base_values@[k as int]@);
                    lemma_views_push(old_uniq, x);
                }
                uniq.push(x);
                proof {
                    assert forall|a: int, b: int| 0 <= a < b < uniq@.len() implies (
                    #[trigger] uniq@[a])@ != (#[trigger] uniq@[b])@ by {
                        if b == uniq@.len() - 1 {
                            assert(views_of(old_uniq)[a] == old_uniq[a]@);
                        }
                    }
                    assert forall|b: int| 0 <= b < k + 1 implies seq_contains(
                        views_of(uniq@),
                        (#[trigger] s_base_values@[b])@,
                    ) by {
                        if b < k {
                            let w = choose|w: int|
                                0 <= w < views_of(old_uniq).len() && views_of(old_uniq)[w]
                                    == s_base_values@[b]@;
                            assert(views_of(uniq@)[w] == s_base_values@[b]@);
                        } else {
                            assert(views_of(uniq@)[old_uniq.len() as int] == s_base_values@[b]@);
                        }
                    }
                }
            } else {
                proof {
                    assert(views_of(s_base_values@)[k as int] == s_base_values@[k as int]@);
                }
            }
            k = k + 1;
        }
        let p = InitialPattern { s_base_values: uniq, n_base_bits };
        proof {
            assert forall|v: nat|
                seq_contains(p.values(), v) == seq_contains(
                    views_of(s_base_values@),
                    v,
                ) by {
                if seq_contains(p.values(), v) {
                    let a = choose|a: int|
                        0 <= a < p.values().len() && p.values()[a] == v;
                    assert(p.values()[a] == p.s_base_values@[a]@);
                    assert(seq_contains(views_of(s_base_values@), p.s_base_values@[a]@));
                }
                if seq_contains(views_of(s_base_values@), v) {
                    let b = choose|b: int|
                        0 <= b < views_of(s_base_values@).len() && views_of(s_base_values@)[b]
                            == v;
                    assert(views_of(s_base_values@)[b] == s_base_values@[b]@);
                    assert(seq_contains(views_of(p.s_base_values@), s_base_values@[b]@));
                }
            }
        }
        Ok(p)
    }

    /// Whether the base pattern holds the given value.
    pub fn contains_value(&self, x: &Ubig) -> (r: bool)
        ensures
            r == seq_contains(self.values(), x@),
    {
        contains_ubig(&self.s_base_values, x)
    }
}

} // verus!
