//! The static-point filter: a voxel grid that remembers in which time
//! windows each voxel was hit, and calls a point background when its
//! voxel was hit in a large enough share of the windows so far.
//!
//! Coordinates and sizes are integers in a unit of the caller's choosing.
//! The share is a fraction of two integers.

use crate::bits::{
    fits_window, lemma_popcount_bound, lemma_window_bits, lemma_window_masks, popcount,
};
use crate::error::ConfigError;
use crate::voxel_map::{
    flushed, no_voxels, store_flush_all, store_get, store_insert, store_new, voxels_of,
};
use dashmap::DashMap;
use vstd::prelude::*;

verus! {

/// The world range of the grid, each axis with both ends included.
#[derive(Debug, Clone, Copy, PartialEq, Eq)]
pub struct Range {
    pub x_bound: (i32, i32),
    pub y_bound: (i32, i32),
    pub z_bound: (i32, i32),
}

/// The edge lengths of a voxel.
#[derive(Debug, Clone, Copy, PartialEq, Eq)]
pub struct VoxelSize {
    pub x_size: i32,
    pub y_size: i32,
    pub z_size: i32,
}

/// A share between zero and one.
#[derive(Debug, Clone, Copy, PartialEq, Eq)]
pub struct Fraction {
    pub numerator: u64,
    pub denominator: u64,
}

/// The settings of a static-point filter.
#[derive(Debug, Clone, Copy, PartialEq, Eq)]
pub struct Config {
    pub range: Range,
    pub voxel_size: VoxelSize,
    /// The share of windows in which a voxel must have been hit for its
    /// points to count as background.
    pub background_threshold: Fraction,
}

/// The grid as the contracts see it.
pub struct GridState {
    /// How often the filter has advanced.
    pub step: nat,
    /// For each voxel that was ever hit: the word of the current block of
    /// 64 windows, and the number of hits in the blocks before it.
    pub voxels: Map<(u64, u64, u64), (u64, u64)>,
}

/// The counters of a filter.
pub struct Inner {
    voxels: DashMap<(u64, u64, u64), (u64, u64)>,
    step: u64,
    mask: u64,
    threshold: u64,
}

/// A static-point filter.
pub struct StaticPointFilter {
    config: Config,
    inner: Inner,
}

/// The older name of the filter.
pub type BackgroundPointFilter = StaticPointFilter;

/// What is wrong with the settings, if anything; the range is looked at
/// first, then the voxel size, then the threshold.
pub open spec fn fault_of(config: Config) -> Option<ConfigError> {
    if config.range.x_bound.0 > config.range.x_bound.1 || config.range.y_bound.0
        > config.range.y_bound.1 || config.range.z_bound.0 > config.range.z_bound.1 {
        Some(ConfigError::InvertedRange)
    } else if config.voxel_size.x_size <= 0 || config.voxel_size.y_size <= 0
        || config.voxel_size.z_size <= 0 {
        Some(ConfigError::VoxelSizeNotPositive)
    } else if config.background_threshold.denominator == 0
        || config.background_threshold.numerator > config.background_threshold.denominator {
        Some(ConfigError::ThresholdOutOfRange)
    } else {
        None
    }
}

/// The index of the voxel that holds coordinate `p` on an axis that runs
/// from `bound.0` to `bound.1` in voxels of edge `size`; none outside the
/// axis.
pub open spec fn axis_index(p: i32, bound: (i32, i32), size: i32) -> Option<u64> {
    if bound.0 <= p <= bound.1 {
        Some(((p - bound.0) / (size as int)) as u64)
    } else {
        None
    }
}

/// The key of the voxel that holds a point; none for a point outside the
/// range.
pub open spec fn voxel_key(config: Config, point: [i32; 3]) -> Option<(u64, u64, u64)> {
    match (
        axis_index(point[0], config.range.x_bound, config.voxel_size.x_size),
        axis_index(point[1], config.range.y_bound, config.voxel_size.y_size),
        axis_index(point[2], config.range.z_bound, config.voxel_size.z_size),
    ) {
        (Some(x), Some(y), Some(z)) => Some((x, y, z)),
        _ => None,
    }
}

/// The place of the current window in its block of 64.
pub open spec fn window_of(step: nat) -> u64 {
    (step % 64) as u64
}

/// The word with only the current window's bit set.
pub open spec fn mask_of(step: nat) -> u64 {
    1u64 << window_of(step)
}

/// The least number of hits that makes a voxel background after `step`
/// advances: `step` times the share, rounded up.
pub open spec fn threshold_of(step: nat, share: Fraction) -> nat {
    ((step * share.numerator + share.denominator - 1) / (share.denominator as int)) as nat
}

/// The two words of a voxel; zeros for a voxel never hit.
pub open spec fn voxel_at(state: GridState, key: (u64, u64, u64)) -> (u64, u64) {
    if state.voxels.contains_key(key) {
        state.voxels[key]
    } else {
        (0, 0)
    }
}

/// The number of windows in which a voxel was hit.
pub open spec fn hits(voxel: (u64, u64)) -> nat {
    voxel.1 as nat + popcount(voxel.0)
}

/// The grid after a hit of the voxel `key` in the current window.
pub open spec fn activated(state: GridState, key: (u64, u64, u64)) -> GridState {
    GridState {
        step: state.step,
        voxels: state.voxels.insert(
            key,
            (voxel_at(state, key).0 | mask_of(state.step), voxel_at(state, key).1),
        ),
    }
}

/// The grid after one advance. Every 64th advance flushes each voxel.
pub open spec fn advanced(state: GridState) -> GridState {
    GridState {
        step: state.step + 1,
        voxels: if (state.step + 1) % 64 == 0 {
            state.voxels.map_values(|voxel: (u64, u64)| flushed(voxel))
        } else {
            state.voxels
        },
    }
}

/// The grid of a new filter.
pub open spec fn initial() -> GridState {
    GridState { step: 0, voxels: no_voxels() }
}

/// Whether after a hit in the current window the voxel `key` has been hit
/// in enough windows to be background.
pub open spec fn is_background(state: GridState, key: (u64, u64, u64), share: Fraction) -> bool {
    hits(voxel_at(activated(state, key), key)) >= threshold_of(state.step, share)
}

/// What holds of every grid that a filter can reach: a voxel has no bit
/// set for a window still to come, and its count is at most the number of
/// windows in the blocks that are over.
pub open spec fn consistent(state: GridState) -> bool {
    forall|key: (u64, u64, u64)| #[trigger]
        state.voxels.contains_key(key) ==> {
            &&& fits_window(state.voxels[key].0, window_of(state.step))
            &&& state.voxels[key].1 + window_of(state.step) <= state.step
        }
}

/// In a consistent grid no voxel was hit in more windows than there were:
/// the windows that are over, and the current one.
pub proof fn lemma_hits_at_most_windows(state: GridState, key: (u64, u64, u64))
    requires
        consistent(state),
    ensures
        hits(voxel_at(state, key)) <= state.step + 1,
{
    let window = window_of(state.step);
    if state.voxels.contains_key(key) {
        lemma_popcount_bound(state.voxels[key].0, window);
    } else {
        lemma_window_masks(window);
        lemma_popcount_bound(0, window);
    }
}

/// The threshold never exceeds the number of advances.
pub proof fn lemma_threshold_at_most_step(step: nat, share: Fraction)
    requires
        share.denominator > 0,
        share.numerator <= share.denominator,
    ensures
        threshold_of(step, share) <= step,
{
    let n = share.numerator as int;
    let d = share.denominator as int;
    let s = step as int;
    assert((s * n + d - 1) / d <= s) by (nonlinear_arith)
        requires
            0 <= n <= d,
            d > 0,
            s >= 0,
    ;
    assert(0 <= (s * n + d - 1) / d) by (nonlinear_arith)
        requires
            0 <= n,
            d > 0,
            s >= 0,
    ;
}

/// The threshold never falls from one advance to a later one.
pub proof fn lemma_threshold_monotone(earlier: nat, later: nat, share: Fraction)
    requires
        share.denominator > 0,
        earlier <= later,
    ensures
        threshold_of(earlier, share) <= threshold_of(later, share),
{
    let n = share.numerator as int;
    let d = share.denominator as int;
    let a = earlier as int;
    let b = later as int;
    assert((a * n + d - 1) / d <= (b * n + d - 1) / d) by (nonlinear_arith)
        requires
            0 <= n,
            d > 0,
            0 <= a <= b,
    ;
    assert(0 <= (a * n + d - 1) / d) by (nonlinear_arith)
        requires
            0 <= n,
            d > 0,
            a >= 0,
    ;
}

/// The threshold is the ceiling of `step` times the share: the least
/// whole number that is at least as large.
pub proof fn lemma_threshold_is_ceiling(step: nat, share: Fraction)
    requires
        share.denominator > 0,
    ensures
        threshold_of(step, share) * share.denominator >= step * share.numerator,
        (threshold_of(step, share) - 1) * share.denominator < step * share.numerator,
{
    let n = share.numerator as int;
    let d = share.denominator as int;
    let s = step as int;
    let t = (s * n + d - 1) / d;
    assert(t * d >= s * n && (t - 1) * d < s * n && t >= 0) by (nonlinear_arith)
        requires
            t == (s * n + d - 1) / d,
            0 <= n,
            d > 0,
            s >= 0,
    ;
}

/// The index of the voxel that holds `p` on one axis.
fn index_on_axis(p: i32, bound: (i32, i32), size: i32) -> (r: Option<u64>)
    requires
        size > 0,
    ensures
        r == axis_index(p, bound, size),
{
    if bound.0 <= p && p <= bound.1 {
        let offset: i64 = p as i64 - bound.0 as i64;
        let index: i64 = offset / (size as i64);
        assert(0 <= index <= offset) by (nonlinear_arith)
            requires
                index == (offset as int) / (size as int),
                offset >= 0,
                size > 0,
        ;
        Some(index as u64)
    } else {
        None
    }
}

impl Config {
    /// Checks the settings.
    pub fn validate(&self) -> (r: Result<(), ConfigError>)
        ensures
            match r {
                Ok(_) => fault_of(*self) is None,
                Err(e) => fault_of(*self) == Some(e),
            },
    {
        if self.range.x_bound.0 > self.range.x_bound.1 || self.range.y_bound.0
            > self.range.y_bound.1 || self.range.z_bound.0 > self.range.z_bound.1 {
            Err(ConfigError::InvertedRange)
        } else if self.voxel_size.x_size <= 0 || self.voxel_size.y_size <= 0
            || self.voxel_size.z_size <= 0 {
            Err(ConfigError::VoxelSizeNotPositive)
        } else if self.background_threshold.denominator == 0
            || self.background_threshold.numerator > self.background_threshold.denominator {
            Err(ConfigError::ThresholdOutOfRange)
        } else {
            Ok(())
        }
    }

    /// A new filter with these settings, or the reason they are refused.
    pub fn build(&self) -> (r: Result<StaticPointFilter, ConfigError>)
        ensures
            match r {
                Ok(filter) => fault_of(*self) is None && filter.wf() && filter.config() == *self
                    && filter@ == initial(),
                Err(e) => fault_of(*self) == Some(e),
            },
    {
        StaticPointFilter::new(self)
    }

    /// The key of the voxel that holds a point; none for a point outside
    /// the range.
    pub fn key_of(&self, point: &[i32; 3]) -> (r: Option<(u64, u64, u64)>)
        requires
            fault_of(*self) is None,
        ensures
            r == voxel_key(*self, *point),
    {
        let x = index_on_axis(point[0], self.range.x_bound, self.voxel_size.x_size);
        let y = index_on_axis(point[1], self.range.y_bound, self.voxel_size.y_size);
        let z = index_on_axis(point[2], self.range.z_bound, self.voxel_size.z_size);
        match (x, y, z) {
            (Some(x), Some(y), Some(z)) => Some((x, y, z)),
            _ => None,
        }
    }
}

/// `step` times the share, rounded up.
fn threshold_after(step: u64, share: Fraction) -> (r: u64)
    requires
        share.denominator > 0,
        share.numerator <= share.denominator,
    ensures
        r == threshold_of(step as nat, share),
{
    proof {
        lemma_threshold_at_most_step(step as nat, share);
    }
    let s = step as u128;
    let n = share.numerator as u128;
    let d = share.denominator as u128;
    assert(s * n <= 0xffff_ffff_ffff_ffff * 0xffff_ffff_ffff_ffff) by (nonlinear_arith)
        requires
            0 <= s <= 0xffff_ffff_ffff_ffff,
            0 <= n <= 0xffff_ffff_ffff_ffff,
    ;
    let scaled: u128 = s * n + (d - 1);
    (scaled / d) as u64
}

impl View for StaticPointFilter {
    type V = GridState;

    closed spec fn view(&self) -> GridState {
        GridState { step: self.inner.step as nat, voxels: voxels_of(self.inner.voxels) }
    }
}

impl StaticPointFilter {
    /// The settings the filter was built with.
    pub closed spec fn config(&self) -> Config {
        self.config
    }

    /// Whether the filter is in order. Every filter that `new` returns is,
    /// and the filter's own methods keep it so.
    pub closed spec fn wf(&self) -> bool {
        &&& fault_of(self.config) is None
        &&& self.inner.mask == mask_of(self.inner.step as nat)
        &&& self.inner.threshold == threshold_of(
            self.inner.step as nat,
            self.config.background_threshold,
        )
        &&& consistent(self@)
    }

    /// A filter in order has a consistent grid of fewer than 2^64 advances.
    pub proof fn lemma_wf(&self)
        requires
            self.wf(),
        ensures
            consistent(self@),
            fault_of(self.config()) is None,
            self@.step <= u64::MAX,
    {
    }

    /// A new filter with the given settings, or the reason they are
    /// refused. The new filter has seen no window and no point.
    pub fn new(config: &Config) -> (r: Result<StaticPointFilter, ConfigError>)
        ensures
            match r {
                Ok(filter) => fault_of(*config) is None && filter.wf() && filter.config()
                    == *config && filter@ == initial(),
                Err(e) => fault_of(*config) == Some(e),
            },
    {
        match config.validate() {
            Err(e) => Err(e),
            Ok(_) => {
                let filter = StaticPointFilter {
                    config: *config,
                    inner: Inner { voxels: store_new(), step: 0, mask: 1, threshold: 0 },
                };
                proof {
                    lemma_window_masks(0);
                    assert(threshold_of(0, config.background_threshold) == 0) by {
                        let d = config.background_threshold.denominator as int;
                        assert((0 * (config.background_threshold.numerator as int) + d - 1) / d
                            == 0) by (nonlinear_arith)
                            requires
                                d > 0,
                        ;
                    }
                }
                Ok(filter)
            },
        }
    }

    /// The settings the filter was built with.
    pub fn to_config(&self) -> (r: Config)
        ensures
            r == self.config(),
    {
        self.config
    }

    /// The two words of a voxel: the hits of the current block of 64
    /// windows, one bit a window, and the number of hits before the block.
    /// Zeros for a voxel never hit.
    pub fn voxel(&self, key: (u64, u64, u64)) -> (r: (u64, u64))
        ensures
            r == voxel_at(self@, key),
    {
        match store_get(&self.inner.voxels, key) {
            Some(voxel) => voxel,
            None => (0, 0),
        }
    }

    /// How often the filter has advanced.
    pub fn step_count(&self) -> (r: u64)
        ensures
            r == self@.step,
    {
        self.inner.step
    }

    /// The word with only the current window's bit set.
    pub fn mask(&self) -> (r: u64)
        requires
            self.wf(),
        ensures
            r == mask_of(self@.step),
            r == 1u64 << ((self@.step % 64) as u64),
    {
        self.inner.mask
    }

    /// The number of hits that makes a voxel background now.
    pub fn threshold(&self) -> (r: u64)
        requires
            self.wf(),
        ensures
            r == threshold_of(self@.step, self.config().background_threshold),
            r <= self@.step,
    {
        proof {
            lemma_threshold_at_most_step(self@.step, self.config.background_threshold);
        }
        self.inner.threshold
    }

    /// Ends the current window. The threshold follows the new number of
    /// windows, and every 64th advance moves each voxel's hits of the
    /// block that is over into its count.
    pub fn step(&mut self)
        requires
            old(self).wf(),
            old(self)@.step < u64::MAX,
        ensures
            final(self).wf(),
            final(self).config() == old(self).config(),
            final(self)@ == advanced(old(self)@),
    {
        let ghost before = self@;
        let ghost window = window_of(before.step);
        self.inner.step = self.inner.step + 1;
        self.inner.threshold = threshold_after(self.inner.step, self.config.background_threshold);
        if self.inner.step % 64 == 0 {
            store_flush_all(&mut self.inner.voxels);
            self.inner.mask = 1;
            proof {
                assert(window == 63);
                lemma_window_masks(0);
                let after = voxels_of(self.inner.voxels);
                assert forall|key: (u64, u64, u64)| #[trigger]
                    before.voxels.contains_key(key) implies after[key] == flushed(
                    before.voxels[key],
                ) && after[key].1 <= before.step + 1 by {
                    lemma_popcount_bound(before.voxels[key].0, window);
                }
                assert(after =~= before.voxels.map_values(|voxel: (u64, u64)| flushed(voxel)));
                assert(self@ == advanced(before));
            }
        } else {
            proof {
                assert(window < 63);
                assert forall|key: (u64, u64, u64)| #[trigger]
                    before.voxels.contains_key(key) implies fits_window(
                    before.voxels[key].0,
                    (window + 1) as u64,
                ) by {
                    lemma_window_bits(before.voxels[key].0, window);
                }
                lemma_window_masks(window);
            }
            self.inner.mask = self.inner.mask << 1;
            proof {
                assert(self@ == advanced(before));
            }
        }
    }

    /// Records a hit of the point's voxel in the current window and tells
    /// whether the point is background: whether its voxel, this hit
    /// counted, was hit in at least the threshold's number of windows. A
    /// point outside the range is background and changes nothing.
    pub fn check_is_background(&mut self, point: &[i32; 3]) -> (r: bool)
        requires
            old(self).wf(),
        ensures
            final(self).wf(),
            final(self).config() == old(self).config(),
            match voxel_key(old(self).config(), *point) {
                None => r && final(self)@ == old(self)@,
                Some(key) => final(self)@ == activated(old(self)@, key) && r == is_background(
                    old(self)@,
                    key,
                    old(self).config().background_threshold,
                ),
            },
    {
        let ghost before = self@;
        let ghost window = window_of(before.step);
        let key = match self.config.key_of(point) {
            Some(key) => key,
            None => {
                return true;
            },
        };
        let voxel = match store_get(&self.inner.voxels, key) {
            Some(voxel) => voxel,
            None => (0, 0),
        };
        let bits = voxel.0 | self.inner.mask;
        proof {
            lemma_window_masks(window);
            assert(voxel == voxel_at(before, key));
            assert(fits_window(voxel.0, window));
            lemma_window_bits(voxel.0, window);
            lemma_popcount_bound(bits, window);
        }
        store_insert(&mut self.inner.voxels, key, (bits, voxel.1));
        proof {
            assert(self@ == activated(before, key));
        }
        let total: u128 = voxel.1 as u128 + bits.count_ones() as u128;
        total >= self.inner.threshold as u128
    }
}

} // verus!
