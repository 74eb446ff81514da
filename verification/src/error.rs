//! Why settings are refused.

use vstd::prelude::*;

verus! {

/// Why settings are refused.
#[derive(Debug, Clone, Copy, PartialEq, Eq)]
pub enum ConfigError {
    /// An axis of the range ends before it starts.
    InvertedRange,
    /// A voxel edge is zero or negative.
    VoxelSizeNotPositive,
    /// The threshold is not a share between zero and one.
    ThresholdOutOfRange,
    /// A box ends in height before it starts.
    InvertedHeight,
    /// A box has no direction.
    NoHeading,
}

} // verus!
