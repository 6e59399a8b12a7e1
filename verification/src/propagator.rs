//! Read-only hierarchy queries over one validated base pattern: level
//! validity, membership, decomposition, composition, and random sampling.

use vstd::prelude::*;
use vstd::arithmetic::power2::pow2;
use vstd::arithmetic::power2::lemma_pow2_adds;
use vstd::arithmetic::power2::lemma_pow2_pos;
use vstd::arithmetic::div_mod::lemma_fundamental_div_mod;
use vstd::arithmetic::div_mod::lemma_fundamental_div_mod_converse;
use vstd::arithmetic::div_mod::lemma_small_mod;
use crate::error::HierarchyError;
use crate::pattern::InitialPattern;
use crate::pattern::seq_contains;
use crate::rng::RandomSource;
use crate::ubig::Ubig;
use crate::ubig::big_add;
use crate::ubig::big_lt;
use crate::ubig::big_rem;
use crate::ubig::big_shl;
use crate::ubig::big_shr;
use crate::ubig::big_sub;
use crate::ubig::lemma_views_push;
use crate::ubig::pow2_big;
use crate::ubig::views_of;

verus! {

/// Whether `n` is a power of two (2^k for some k >= 0).
pub open spec fn is_pow_of_two(n: nat) -> bool
    decreases n,
{
    if n == 0 {
        false
    } else if n == 1 {
        true
    } else {
        n % 2 == 0 && is_pow_of_two(n / 2)
    }
}

/// Whether `t` is a hierarchy level over the base width: a width equal to
/// `base * 2^k` for some k >= 0.  These are the only widths at which
/// queries are legal.
pub open spec fn is_level(t: nat, base: nat) -> bool {
    base >= 1 && t % base == 0 && is_pow_of_two(t / base)
}

/// Membership in the selected set at width `t` over base set `s`: at the
/// base width, direct base-set membership; at a wider level, the upper and
/// lower halves must both be members at the half width.
pub open spec fn member_at(s: Seq<nat>, base: nat, t: nat, x: nat) -> bool
    decreases t,
{
    if t <= base {
        t == base && seq_contains(s, x)
    } else {
        member_at(s, base, t / 2, x / pow2(t / 2)) && member_at(s, base, t / 2, x % pow2(t / 2))
    }
}

/// The base-level leaves of a value at width `t`, collected in pre-order:
/// upper half before lower half at every level.
pub open spec fn leaves_of(base: nat, t: nat, x: nat) -> Seq<nat>
    decreases t,
{
    if t <= base {
        seq![x]
    } else {
        leaves_of(base, t / 2, x / pow2(t / 2)) + leaves_of(base, t / 2, x % pow2(t / 2))
    }
}

/// The value composed from an ordered sequence of base-level components:
/// the left half composes the upper bits, the right half the lower bits.
pub open spec fn compose_of(base: nat, comps: Seq<nat>) -> nat
    decreases comps.len(),
{
    if comps.len() <= 1 {
        if comps.len() == 1 {
            comps[0]
        } else {
            0
        }
    } else {
        let mid = comps.len() as int / 2;
        compose_of(base, comps.take(mid)) * pow2((comps.len() / 2) * base) + compose_of(
            base,
            comps.skip(mid),
        )
    }
}

/// The value sampled at width `t` from base set `s` when the source is in
/// state `st`, together with the source state left behind.  At the base
/// width one element is drawn by index; at a wider level the upper half is
/// sampled first, then the lower half from the state the first sample left.
pub open spec fn sample_at<R: RandomSource>(s: Seq<nat>, base: nat, t: nat, st: nat) -> (nat, nat)
    decreases t,
{
    if t <= base {
        let i = (R::draw_at(st) as int) % (s.len() as int);
        (s[i], R::step_at(st))
    } else {
        let u = sample_at::<R>(s, base, t / 2, st);
        let l = sample_at::<R>(s, base, t / 2, u.1);
        (u.0 * pow2(t / 2) + l.0, l.1)
    }
}

/// Stepping down one hierarchy level: every valid level above the base is
/// even, and its half is again a valid level.
pub proof fn lemma_level_step(t: nat, base: nat)
    requires
        is_level(t, base),
        t != base,
    ensures
        t > base,
        t % 2 == 0,
        base <= t / 2 < t,
        is_level(t / 2, base),
        (t / 2) / base == (t / base) / 2,
        t / base >= 2,
        (t / base) % 2 == 0,
        t / 2 == base * ((t / base) / 2),
{
    let f = t / base;
    lemma_fundamental_div_mod(t as int, base as int);
    assert(t == base * f);
    assert(f >= 1);
    if f == 1 {
        assert(base * 1 == base) by (nonlinear_arith);
        assert(false);
    }
    assert(f >= 2 && f % 2 == 0 && is_pow_of_two(f / 2));
    let g = f / 2;
    assert(f == 2 * g);
    assert(g >= 1);
    assert(base * f == 2 * (base * g)) by (nonlinear_arith)
        requires
            f == 2 * g,
    ;
    lemma_fundamental_div_mod_converse(t as int, 2, (base * g) as int, 0);
    lemma_fundamental_div_mod_converse((base * g) as int, base as int, g as int, 0);
    assert(base * g >= base * 1 && base * f > base * 1) by (nonlinear_arith)
        requires
            g >= 1,
            f >= 2,
            base >= 1,
    ;
    assert(base * 1 == base) by (nonlinear_arith);
}

/// A valid level is at least the base width.
pub proof fn lemma_level_at_least_base(t: nat, base: nat)
    requires
        is_level(t, base),
    ensures
        t >= base,
        t / base >= 1,
        t == base * (t / base),
{
    let f = t / base;
    lemma_fundamental_div_mod(t as int, base as int);
    assert(f >= 1);
    assert(base * f >= base * 1) by (nonlinear_arith)
        requires
            f >= 1,
            base >= 1,
    ;
    assert(base * 1 == base) by (nonlinear_arith);
}

/// Decomposition at a valid level yields exactly `t / base` leaves.
pub proof fn lemma_leaves_len(base: nat, t: nat, x: nat)
    requires
        is_level(t, base),
    ensures
        leaves_of(base, t, x).len() == t / base,
    decreases t,
{
    if t <= base {
        lemma_level_at_least_base(t, base);
        if t / base >= 2 {
            assert(base * (t / base) >= base * 2) by (nonlinear_arith)
                requires
                    t / base >= 2,
                    base >= 1,
            ;
            assert(false);
        }
        assert(t / base == 1);
    } else {
        lemma_pow2_pos(t / 2);
        lemma_level_step(t, base);
        lemma_leaves_len(base, t / 2, x / pow2(t / 2));
        lemma_leaves_len(base, t / 2, x % pow2(t / 2));
        lemma_fundamental_div_mod((t / base) as int, 2);
    }
}

/// Every leaf of a member at a valid level lies in the base set.
pub proof fn lemma_leaves_members(s: Seq<nat>, base: nat, t: nat, x: nat)
    requires
        is_level(t, base),
        member_at(s, base, t, x),
    ensures
        forall|i: int|
            0 <= i < leaves_of(base, t, x).len() ==> seq_contains(
                s,
                #[trigger] leaves_of(base, t, x)[i],
            ),
    decreases t,
{
    if t <= base {
    } else {
        lemma_pow2_pos(t / 2);
        lemma_level_step(t, base);
        let a = leaves_of(base, t / 2, x / pow2(t / 2));
        let b = leaves_of(base, t / 2, x % pow2(t / 2));
        lemma_leaves_members(s, base, t / 2, x / pow2(t / 2));
        lemma_leaves_members(s, base, t / 2, x % pow2(t / 2));
        assert forall|i: int| 0 <= i < leaves_of(base, t, x).len() implies seq_contains(
            s,
            #[trigger] leaves_of(base, t, x)[i],
        ) by {
            if i < a.len() {
                assert(leaves_of(base, t, x)[i] == a[i]);
            } else {
                assert(leaves_of(base, t, x)[i] == b[i - a.len()]);
            }
        }
    }
}

/// Composing the leaves of any value that fits a valid level returns the
/// value: composition is the exact inverse of decomposition.
pub proof fn lemma_compose_leaves(base: nat, t: nat, x: nat)
    requires
        is_level(t, base),
        x < pow2(t),
    ensures
        compose_of(base, leaves_of(base, t, x)) == x,
    decreases t,
{
    if t <= base {
    } else {
        lemma_pow2_pos(t / 2);
        lemma_level_step(t, base);
        let h = t / 2;
        let g = (t / base) / 2;
        lemma_level_at_least_base(h, base);
        lemma_pow2_adds(h, h);
        let up = x / pow2(h);
        let lo = x % pow2(h);
        vstd::arithmetic::div_mod::lemma_multiply_divide_lt(
            x as int,
            pow2(h) as int,
            pow2(h) as int,
        );
        vstd::arithmetic::div_mod::lemma_mod_bound(x as int, pow2(h) as int);
        lemma_compose_leaves(base, h, up);
        lemma_compose_leaves(base, h, lo);
        let a = leaves_of(base, h, up);
        let b = leaves_of(base, h, lo);
        lemma_leaves_len(base, h, up);
        lemma_leaves_len(base, h, lo);
        assert((a + b).take(g as int) =~= a);
        assert((a + b).skip(g as int) =~= b);
        vstd::arithmetic::mul::lemma_mul_is_commutative(g as int, base as int);
        vstd::arithmetic::mul::lemma_mul_is_commutative(up as int, pow2(h) as int);
        lemma_fundamental_div_mod(x as int, pow2(h) as int);
    }
}

/// Closure property of sampling: at any valid level, the sampled value is
/// a member of the selected set at that level, whatever state the source
/// starts in.
pub proof fn lemma_sample_member<R: RandomSource>(s: Seq<nat>, base: nat, t: nat, st: nat)
    requires
        is_level(t, base),
        s.len() >= 1,
        forall|i: int| 0 <= i < s.len() ==> s[i] < pow2(base),
    ensures
        member_at(s, base, t, sample_at::<R>(s, base, t, st).0),
        sample_at::<R>(s, base, t, st).0 < pow2(t),
    decreases t,
{
    if t <= base {
        lemma_level_at_least_base(t, base);
        let i = (R::draw_at(st) as int) % (s.len() as int);
        vstd::arithmetic::div_mod::lemma_mod_bound(R::draw_at(st) as int, s.len() as int);
        assert(seq_contains(s, s[i]));
    } else {
        lemma_pow2_pos(t / 2);
        lemma_level_step(t, base);
        lemma_pow2_adds(t / 2, t / 2);
        let u = sample_at::<R>(s, base, t / 2, st);
        let l = sample_at::<R>(s, base, t / 2, u.1);
        lemma_sample_member::<R>(s, base, t / 2, st);
        lemma_sample_member::<R>(s, base, t / 2, u.1);
        let p = pow2(t / 2);
        let v = u.0 * p + l.0;
        assert(v < p * p) by (nonlinear_arith)
            requires
                u.0 < p,
                l.0 < p,
                v == u.0 * p + l.0,
        ;
        lemma_fundamental_div_mod_converse(v as int, p as int, u.0 as int, l.0 as int);
    }
}

/// The round trip: for any member `x` of the selected set at a valid level
/// `t`, its decomposition is a power-of-two-long sequence of base-set
/// members, exactly `t / base` of them, and composing that sequence yields
/// `x` back at width `t`.
pub proof fn lemma_decompose_compose_round_trip(s: Seq<nat>, base: nat, t: nat, x: nat)
    requires
        is_level(t, base),
        x < pow2(t),
        member_at(s, base, t, x),
    ensures
        leaves_of(base, t, x).len() == t / base,
        is_pow_of_two(t / base),
        forall|i: int|
            0 <= i < leaves_of(base, t, x).len() ==> seq_contains(
                s,
                #[trigger] leaves_of(base, t, x)[i],
            ),
        compose_of(base, leaves_of(base, t, x)) == x,
{
    lemma_leaves_len(base, t, x);
    lemma_leaves_members(s, base, t, x);
    lemma_compose_leaves(base, t, x);
}

/// Determinism of sampling: the sampled value and the state left behind
/// are a function of the base set, the width, and the source's starting
/// state alone, so equal starting states give equal outcomes.
pub proof fn lemma_sampling_deterministic<R: RandomSource>(
    s: Seq<nat>,
    base: nat,
    t: nat,
    st1: nat,
    st2: nat,
)
    requires
        st1 == st2,
    ensures
        sample_at::<R>(s, base, t, st1) == sample_at::<R>(s, base, t, st2),
{
}

fn check_pow_of_two(n: usize) -> (r: bool)
    ensures
        r == is_pow_of_two(n as nat),
{
    if n == 0 {
        return false;
    }
    let mut m: usize = n;
    while m > 1 && m % 2 == 0
        invariant
            1 <= m <= n,
            is_pow_of_two(n as nat) == is_pow_of_two(m as nat),
        decreases m,
    {
        m = m / 2;
    }
    m == 1
}

/// Read-only hierarchy queries over one validated `InitialPattern`.  Every
/// operation is a pure function of the pattern and its arguments.
#[derive(Debug)]
pub struct Propagator {
    /// The validated base pattern the queries are answered against.
    pub initial_pattern: InitialPattern,
}

impl Propagator {
    /// The base bit-width of the pattern.
    pub open spec fn base(&self) -> nat {
        self.initial_pattern.n_base_bits as nat
    }

    /// The values of the base pattern.
    pub open spec fn values(&self) -> Seq<nat> {
        self.initial_pattern.values()
    }

    /// Whether the held pattern is validated.
    pub open spec fn wf(&self) -> bool {
        self.initial_pattern.wf()
    }

    /// Wraps a validated pattern for querying.
    pub fn new(initial_pattern: InitialPattern) -> (r: Self)
        ensures
            r.initial_pattern == initial_pattern,
    {
        Self { initial_pattern }
    }

    /// The pattern this propagator queries.
    pub fn initial_pattern(&self) -> (r: &InitialPattern)
        ensures
            *r == self.initial_pattern,
    {
        &self.initial_pattern
    }

    /// Whether `target_n_bits` is reachable from the base width by repeated
    /// doubling.
    pub fn is_valid_hierarchical_level(&self, target_n_bits: usize) -> (r: bool)
        requires
            self.wf(),
        ensures
            r == is_level(target_n_bits as nat, self.base()),
    {
        let base_n_bits = self.initial_pattern.n_base_bits;
        if target_n_bits < base_n_bits {
            proof {
                if target_n_bits as nat % self.base() == 0 {
                    lemma_small_mod(target_n_bits as nat, self.base());
                    assert(target_n_bits == 0);
                    lemma_fundamental_div_mod_converse(0, base_n_bits as int, 0, 0);
                }
            }
            return false;
        }
        if target_n_bits == base_n_bits {
            proof {
                lemma_fundamental_div_mod_converse(
                    base_n_bits as int,
                    base_n_bits as int,
                    1,
                    0,
                );
            }
            return true;
        }
        if target_n_bits % base_n_bits != 0 {
            return false;
        }
        let factor = target_n_bits / base_n_bits;
        check_pow_of_two(factor)
    }

    fn member_rec(&self, x: &Ubig, t: usize) -> (r: bool)
        requires
            self.wf(),
            is_level(t as nat, self.base()),
        ensures
            r == member_at(self.values(), self.base(), t as nat, x@),
        decreases t,
    {
        if t == self.initial_pattern.n_base_bits {
            self.initial_pattern.contains_value(x)
        } else {
            proof {
                lemma_level_step(t as nat, self.base());
                lemma_pow2_pos((t / 2) as nat);
            }
            let half = t / 2;
            let half_limit = pow2_big(half);
            let h_upper = big_shr(x, half);
            let h_lower = big_rem(x, &half_limit);
            let upper_in = self.member_rec(&h_upper, half);
            let lower_in = self.member_rec(&h_lower, half);
            upper_in && lower_in
        }
    }

    /// Whether `x_target` is a member of the selected set at width
    /// `n_target_bits`.  The width is validated first (it must be a valid
    /// level), then the value's range; all validation happens here, before
    /// the recursion.
    pub fn is_member(&self, x_target: &Ubig, n_target_bits: usize) -> (r: Result<
        bool,
        HierarchyError,
    >)
        requires
            self.wf(),
        ensures
            !is_level(n_target_bits as nat, self.base()) ==> (r matches Err(
                HierarchyError::InvalidHierarchicalLevel { target_n_bits, base_n_bits },
            ) && target_n_bits == n_target_bits && base_n_bits
                == self.initial_pattern.n_base_bits),
            is_level(n_target_bits as nat, self.base()) && x_target@ >= pow2(n_target_bits as nat)
                ==> (r matches Err(HierarchyError::ValueTooLargeForNBits { value, n_bits })
                && value@ == x_target@ && n_bits == n_target_bits),
            is_level(n_target_bits as nat, self.base()) && x_target@ < pow2(n_target_bits as nat)
                ==> (r matches Ok(b) && b == member_at(
                self.values(),
                self.base(),
                n_target_bits as nat,
                x_target@,
            )),
    {
        if !self.is_valid_hierarchical_level(n_target_bits) {
            return Err(
                HierarchyError::InvalidHierarchicalLevel {
                    target_n_bits: n_target_bits,
                    base_n_bits: self.initial_pattern.n_base_bits,
                },
            );
        }
        let limit_exclusive = pow2_big(n_target_bits);
        if !big_lt(x_target, &limit_exclusive) {
            let value = x_target.clone();
            return Err(HierarchyError::ValueTooLargeForNBits { value, n_bits: n_target_bits });
        }
        Ok(self.member_rec(x_target, n_target_bits))
    }

    fn decompose_rec(&self, x: &Ubig, t: usize, components: &mut Vec<Ubig>)
        requires
            self.wf(),
            is_level(t as nat, self.base()),
        ensures
            views_of(final(components)@) == views_of(old(components)@) + leaves_of(
                self.base(),
                t as nat,
                x@,
            ),
        decreases t,
    {
        proof {
            lemma_pow2_pos((t / 2) as nat);
        }
        if t == self.initial_pattern.n_base_bits {
            let ghost pre = components@;
            let leaf = x.clone();
            proof {
                lemma_views_push(pre, leaf);
            }
            components.push(leaf);
            proof {
                assert(views_of(components@) =~= views_of(pre) + seq![x@]);
            }
        } else {
            proof {
                lemma_level_step(t as nat, self.base());
            }
            let half = t / 2;
            let half_limit = pow2_big(half);
            let h_upper = big_shr(x, half);
            let h_lower = big_rem(x, &half_limit);
            let ghost pre = components@;
            self.decompose_rec(&h_upper, half, components);
            self.decompose_rec(&h_lower, half, components);
            proof {
                assert(views_of(components@) =~= views_of(pre) + leaves_of(
                    self.base(),
                    t as nat,
                    x@,
                ));
            }
        }
    }

    /// Decomposes a member of the selected set at width `n_target_bits`
    /// into its ordered base-level components, upper half before lower half
    /// at every level.
    pub fn decompose_to_base(&self, x_target: &Ubig, n_target_bits: usize) -> (r: Result<
        Vec<Ubig>,
        HierarchyError,
    >)
        requires
            self.wf(),
        ensures
            !is_level(n_target_bits as nat, self.base()) ==> (r matches Err(
                HierarchyError::InvalidHierarchicalLevel { target_n_bits, base_n_bits },
            ) && target_n_bits == n_target_bits && base_n_bits
                == self.initial_pattern.n_base_bits),
            is_level(n_target_bits as nat, self.base()) && x_target@ >= pow2(n_target_bits as nat)
                ==> (r matches Err(HierarchyError::ValueTooLargeForNBits { value, n_bits })
                && value@ == x_target@ && n_bits == n_target_bits),
            is_level(n_target_bits as nat, self.base()) && x_target@ < pow2(n_target_bits as nat)
                && !member_at(self.values(), self.base(), n_target_bits as nat, x_target@) ==> (
            r matches Err(HierarchyError::NotAMember(v)) && v@ == x_target@),
            is_level(n_target_bits as nat, self.base()) && x_target@ < pow2(n_target_bits as nat)
                && member_at(self.values(), self.base(), n_target_bits as nat, x_target@) ==> (
            r matches Ok(c) && views_of(c@) == leaves_of(
                self.base(),
                n_target_bits as nat,
                x_target@,
            ) && c@.len() == n_target_bits as nat / self.base()),
    {
        match self.is_member(x_target, n_target_bits) {
            Err(e) => Err(e),
            Ok(false) => Err(HierarchyError::NotAMember(x_target.clone())),
            Ok(true) => {
                let mut components: Vec<Ubig> = Vec::new();
                proof {
                    assert(views_of(components@) =~= Seq::<nat>::empty());
                }
                self.decompose_rec(x_target, n_target_bits, &mut components);
                proof {
                    lemma_leaves_len(self.base(), n_target_bits as nat, x_target@);
                    assert(views_of(components@) =~= leaves_of(
                        self.base(),
                        n_target_bits as nat,
                        x_target@,
                    ));
                }
                Ok(components)
            },
        }
    }

    fn compose_rec(&self, comps: &Vec<Ubig>, from: usize, to: usize) -> (r: (Ubig, usize))
        requires
            self.wf(),
            from < to <= comps@.len(),
            is_pow_of_two((to - from) as nat),
            (to - from) * self.base() <= usize::MAX,
        ensures
            r.1 == (to - from) * self.initial_pattern.n_base_bits,
            r.0@ == compose_of(self.base(), views_of(comps@).subrange(from as int, to as int)),
        decreases to - from,
    {
        let len = to - from;
        if len == 1 {
            let v = comps[from].clone();
            proof {
                assert(views_of(comps@).subrange(from as int, to as int) =~= seq![
                    comps@[from as int]@,
                ]);
                vstd::arithmetic::mul::lemma_mul_is_commutative(
                    1,
                    self.initial_pattern.n_base_bits as int,
                );
            }
            (v, self.initial_pattern.n_base_bits)
        } else {
            proof {
                assert(len as nat % 2 == 0 && is_pow_of_two(len as nat / 2));
                assert((len / 2) * self.base() <= len * self.base()) by (nonlinear_arith)
                    requires
                        len / 2 <= len,
                        self.base() >= 0,
                ;
            }
            let half = len / 2;
            let mid = from + half;
            let (upper_val, upper_n_bits) = self.compose_rec(comps, from, mid);
            let (lower_val, _lower_n_bits) = self.compose_rec(comps, mid, to);
            proof {
                assert(2 * ((len / 2) * self.base()) == len * self.base()) by (nonlinear_arith)
                    requires
                        len as nat % 2 == 0,
                        len / 2 == len as nat / 2,
                ;
            }
            let composed_n_bits = upper_n_bits * 2;
            let shifted = big_shl(&upper_val, upper_n_bits);
            let composed_val = big_add(&shifted, &lower_val);
            proof {
                let s = views_of(comps@).subrange(from as int, to as int);
                assert(s.take(half as int) =~= views_of(comps@).subrange(
                    from as int,
                    mid as int,
                ));
                assert(s.skip(half as int) =~= views_of(comps@).subrange(mid as int, to as int));
                assert((s.len() / 2) * self.base() == upper_n_bits as nat);
            }
            (composed_val, composed_n_bits)
        }
    }

    /// Composes a member of the selected set from an ordered sequence of
    /// base-level components: the inverse of decomposition.  Returns the
    /// composed value together with its width.
    pub fn compose_from_base(&self, s_base_components: &Vec<Ubig>) -> (r: Result<
        (Ubig, usize),
        HierarchyError,
    >)
        requires
            self.wf(),
            s_base_components@.len() * self.base() <= usize::MAX,
        ensures
            !is_pow_of_two(s_base_components@.len() as nat) ==> (r matches Err(
                HierarchyError::InvalidComponentCount(n),
            ) && n == s_base_components@.len()),
            is_pow_of_two(s_base_components@.len() as nat) && !(forall|i: int|
                0 <= i < s_base_components@.len() ==> seq_contains(
                    self.values(),
                    (#[trigger] s_base_components@[i])@,
                )) ==> (r matches Err(HierarchyError::InvalidBaseComponent(c)) && (exists|i: int|
                0 <= i < s_base_components@.len() && (#[trigger] s_base_components@[i])@ == c@
                    && !seq_contains(self.values(), s_base_components@[i]@) && (forall|j: int|
                    0 <= j < i ==> seq_contains(
                        self.values(),
                        (#[trigger] s_base_components@[j])@,
                    )))),
            is_pow_of_two(s_base_components@.len() as nat) && (forall|i: int|
                0 <= i < s_base_components@.len() ==> seq_contains(
                    self.values(),
                    (#[trigger] s_base_components@[i])@,
                )) ==> (r matches Ok(vw) && vw.0@ == compose_of(
                self.base(),
                views_of(s_base_components@),
            ) && vw.1 == s_base_components@.len() * self.initial_pattern.n_base_bits),
    {
        let num_components = s_base_components.len();
        if num_components == 0 || !check_pow_of_two(num_components) {
            return Err(HierarchyError::InvalidComponentCount(num_components));
        }
        let limit_exclusive_base = pow2_big(self.initial_pattern.n_base_bits);
        let mut i: usize = 0;
        while i < num_components
            invariant
                self.wf(),
                num_components == s_base_components@.len(),
                is_pow_of_two(num_components as nat),
                i <= num_components,
                limit_exclusive_base@ == pow2(self.base()),
                forall|j: int|
                    0 <= j < i ==> seq_contains(
                        self.values(),
                        (#[trigger] s_base_components@[j])@,
                    ),
            decreases num_components - i,
        {
            if !self.initial_pattern.contains_value(&s_base_components[i]) {
                return Err(HierarchyError::InvalidBaseComponent(s_base_components[i].clone()));
            }
            // Defensive range check: unreachable once the component is known
            // to lie in a validated pattern, whose values all fit the base
            // width.
            if !big_lt(&s_base_components[i], &limit_exclusive_base) {
                proof {
                    let w = choose|w: int|
                        0 <= w < self.values().len() && self.values()[w]
                            == s_base_components@[i as int]@;
                    assert(self.values()[w] == self.initial_pattern.s_base_values@[w]@);
                    assert(false);
                }
                let one = Ubig::from_u64(1);
                let max_val = big_sub(&limit_exclusive_base, &one);
                return Err(
                    HierarchyError::ValueExceedsNBaseBits {
                        value: s_base_components[i].clone(),
                        n_bits: self.initial_pattern.n_base_bits,
                        max_val,
                    },
                );
            }
            i = i + 1;
        }
        let (composed_val, composed_n_bits) = self.compose_rec(s_base_components, 0, num_components);
        proof {
            assert(views_of(s_base_components@).subrange(0, num_components as int) =~= views_of(
                s_base_components@,
            ));
        }
        Ok((composed_val, composed_n_bits))
    }

    fn gen_rec<R: RandomSource>(&self, t: usize, rng: &mut R) -> (r: Ubig)
        requires
            self.wf(),
            is_level(t as nat, self.base()),
        ensures
            r@ == sample_at::<R>(self.values(), self.base(), t as nat, old(rng).state()).0,
            final(rng).state() == sample_at::<R>(
                self.values(),
                self.base(),
                t as nat,
                old(rng).state(),
            ).1,
        decreases t,
    {
        if t == self.initial_pattern.n_base_bits {
            let n = rng.next_u32();
            let len = self.initial_pattern.s_base_values.len();
            let idx = (n as usize) % len;
            let v = self.initial_pattern.s_base_values[idx].clone();
            proof {
                assert(self.values()[idx as int] == self.initial_pattern.s_base_values@[
                    idx as int]@);
            }
            v
        } else {
            proof {
                lemma_pow2_pos((t / 2) as nat);
                lemma_level_step(t as nat, self.base());
            }
            let half = t / 2;
            let h_upper = self.gen_rec(half, rng);
            let h_lower = self.gen_rec(half, rng);
            let shifted = big_shl(&h_upper, half);
            big_add(&shifted, &h_lower)
        }
    }

    /// Samples a uniformly structured random member of the selected set at
    /// width `target_n_bits`, drawing from the supplied source.  The result
    /// is always a member of the set (closure), and is a function of the
    /// pattern, the width, and the source's starting state alone
    /// (determinism).
    pub fn generate_random_s_n_member<R: RandomSource>(
        &self,
        target_n_bits: usize,
        rng: &mut R,
    ) -> (r: Result<Ubig, HierarchyError>)
        requires
            self.wf(),
        ensures
            !is_level(target_n_bits as nat, self.base()) ==> (r matches Err(
                HierarchyError::InvalidHierarchicalLevel { target_n_bits: tb, base_n_bits },
            ) && tb == target_n_bits && base_n_bits == self.initial_pattern.n_base_bits
                && *final(rng) == *old(rng)),
            is_level(target_n_bits as nat, self.base()) ==> (r matches Ok(v) && v@
                == sample_at::<R>(
                self.values(),
                self.base(),
                target_n_bits as nat,
                old(rng).state(),
            ).0 && final(rng).state() == sample_at::<R>(
                self.values(),
                self.base(),
                target_n_bits as nat,
                old(rng).state(),
            ).1 && member_at(self.values(), self.base(), target_n_bits as nat, v@) && v@ < pow2(
                target_n_bits as nat,
            )),
    {
        if !self.is_valid_hierarchical_level(target_n_bits) {
            return Err(
                HierarchyError::InvalidHierarchicalLevel {
                    target_n_bits,
                    base_n_bits: self.initial_pattern.n_base_bits,
                },
            );
        }
        // Defensive check: unreachable for a validated pattern, which is
        // never empty.
        if self.initial_pattern.s_base_values.len() == 0 {
            return Err(HierarchyError::EmptySBaseForRandomGeneration);
        }
        let v = self.gen_rec(target_n_bits, rng);
        proof {
            assert forall|i: int| 0 <= i < self.values().len() implies self.values()[i] < pow2(
                self.base(),
            ) by {
                assert(self.values()[i] == self.initial_pattern.s_base_values@[i]@);
            }
            lemma_sample_member::<R>(
                self.values(),
                self.base(),
                target_n_bits as nat,
                old(rng).state(),
            );
        }
        Ok(v)
    }
}

} // verus!
