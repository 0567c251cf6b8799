//! Configuration errors, rejected when a component is constructed rather
//! than discovered mid-run.

use vstd::prelude::*;

verus! {

#[derive(Debug, Clone, Copy, PartialEq, Eq, Structural)]
pub enum ConfigError {
    /// A team of zero players can form no match.
    ZeroTeamSize,
    /// The team size exceeds the bound the fixed-point sums are proved for.
    TeamSizeTooLarge,
    /// The queue-size factor lies below one (1000 thousandths).
    SizeFactorTooSmall,
    /// The queue-size factor exceeds the supported bound.
    SizeFactorTooLarge,
    /// The prefill factor exceeds one (1000 thousandths).
    PrefillFactorTooLarge,
    /// The range lower bound exceeds the upper bound.
    EmptyRange,
    /// A range bound lies outside the storable skill values.
    RangeOutOfBounds,
}

} // verus!
