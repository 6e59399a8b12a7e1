//! A self-similar hierarchy of binary value sets built from bitwise
//! complement pairs.
//!
//! Starting from a validated base set of values at a fixed bit-width, the
//! library defines, for every width reachable from the base width by repeated
//! doubling, a selected set whose members are exactly those values whose
//! upper and lower halves are themselves members, recursively bottoming out
//! in base-set membership.  It offers membership testing, decomposition of a
//! member into its base-level leaves, composition of leaves back into a
//! member, and structure-respecting random sampling through an explicit
//! randomness capability.

pub mod entity;
pub mod error;
pub mod pattern;
pub mod propagator;
pub mod rng;
pub mod ubig;

pub use entity::PairedEntity;
pub use error::HierarchyError;
pub use pattern::InitialPattern;
pub use propagator::Propagator;
pub use rng::RandomSource;
pub use rng::SimpleSeededRng;
pub use ubig::Ubig;
