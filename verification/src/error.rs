//! The closed set of errors that the hierarchy's operations report.

use vstd::prelude::*;
use crate::ubig::Ubig;

verus! {

/// Every failure of a validated constructor or a hierarchy query.  Each
/// variant carries the offending values, so a caller can surface the
/// failure losslessly.
#[derive(Debug)]
pub enum HierarchyError {
    /// A bit-width argument was zero.
    NonPositiveNBits(usize),
    /// The set of base values for an initial pattern was empty.
    EmptySBaseValues,
    /// A base-pattern element does not fit within the declared base width;
    /// `max_val` is the largest representable value, 2^`n_bits` - 1.
    ValueExceedsNBaseBits { value: Ubig, n_bits: usize, max_val: Ubig },
    /// The requested width is not reachable from the base width by repeated
    /// doubling (also reported when the target is zero or below the base).
    InvalidHierarchicalLevel { target_n_bits: usize, base_n_bits: usize },
    /// A queried value does not fit the width it is claimed to have.
    ValueTooLargeForNBits { value: Ubig, n_bits: usize },
    /// Decomposition was requested on a value that is not a member of the
    /// selected set at the requested width.
    NotAMember(Ubig),
    /// A composition input is not drawn from the validated base set.
    InvalidBaseComponent(Ubig),
    /// A composition input length is zero or not a power of two.
    InvalidComponentCount(usize),
    /// Two values handed to the asserted-pair constructor do not sum to
    /// 2^`n_bits` - 1.
    NonComplementaryPair { val1: Ubig, val2_complement: Ubig, n_bits: usize },
    /// Random generation found the base set empty (unreachable for a
    /// validated pattern, checked defensively).
    EmptySBaseForRandomGeneration,
}

} // verus!
