//! The elementary predicates that filter expressions name: a box over
//! the ground plane, and a range of intensity.
//!
//! Lengths, coordinates and intensities are integers in units of the
//! caller's choosing. The direction of a box is a vector of integers, so
//! that membership is decided without rounding.

use crate::bound::Bound;
use crate::error::ConfigError;
use vstd::prelude::*;

verus! {

/// The settings of a box: its centre and its two edge lengths in the
/// ground plane, the vector along which its first edge runs, and its
/// lowest and highest height, each of which may be left open.
#[derive(Debug, Clone, Copy, PartialEq, Eq)]
pub struct PlanarBoxFilterConfig {
    pub xy: [i32; 2],
    pub wh: [u32; 2],
    pub z_min: Option<i32>,
    pub z_max: Option<i32>,
    pub heading: [i16; 2],
}

/// A box over the ground plane, turned about the vertical.
#[derive(Debug, Clone, Copy, PartialEq, Eq)]
pub struct PlanarBoxFilter {
    config: PlanarBoxFilterConfig,
    /// The squared length of the heading.
    norm_sq: u32,
}

/// The settings of an intensity range: `min` is inside, `max` is not; no
/// `max` leaves the range open above.
#[derive(Debug, Clone, Copy, PartialEq, Eq)]
pub struct IntensityFilterConfig {
    pub min: i32,
    pub max: Option<i32>,
}

/// A range of intensity.
#[derive(Debug, Clone, Copy, PartialEq, Eq)]
pub struct IntensityFilter {
    min: i32,
    max: Option<i32>,
}

/// The intensity that stands for a reading that is not a number.
pub const NOT_A_NUMBER: i32 = i32::MIN;

/// A named predicate of the rule engine.
#[derive(Debug, Clone, Copy, PartialEq, Eq)]
pub enum Item {
    Box(PlanarBoxFilter),
    Intensity(IntensityFilter),
}

/// What is wrong with the settings of a box, if anything; the height is
/// looked at first.
pub open spec fn box_fault(config: PlanarBoxFilterConfig) -> Option<ConfigError> {
    if config.z_min is Some && config.z_max is Some && config.z_min->0 > config.z_max->0 {
        Some(ConfigError::InvertedHeight)
    } else if config.heading[0] == 0 && config.heading[1] == 0 {
        Some(ConfigError::NoHeading)
    } else {
        None
    }
}

/// The squared length of the heading.
pub open spec fn heading_norm_sq(config: PlanarBoxFilterConfig) -> int {
    config.heading[0] * config.heading[0] + config.heading[1] * config.heading[1]
}

/// How far the point lies from the centre along the heading, times the
/// length of the heading.
pub open spec fn offset_along(config: PlanarBoxFilterConfig, point: [i32; 3]) -> int {
    (point[0] - config.xy[0]) * config.heading[0] + (point[1] - config.xy[1]) * config.heading[1]
}

/// How far the point lies from the centre across the heading, to its
/// left, times the length of the heading.
pub open spec fn offset_across(config: PlanarBoxFilterConfig, point: [i32; 3]) -> int {
    (point[1] - config.xy[1]) * config.heading[0] - (point[0] - config.xy[0]) * config.heading[1]
}

/// Whether a distance is at most half of `size`, where `scaled` is the
/// distance times the length of the heading: both sides of
/// `2 |scaled| <= size |heading|` are squared.
pub open spec fn within_half(scaled: int, size: int, norm_sq: int) -> bool {
    4 * (scaled * scaled) <= (size * size) * norm_sq
}

/// Whether a height is within the limits; a limit left open admits all.
pub open spec fn in_height(z: i32, z_min: Option<i32>, z_max: Option<i32>) -> bool {
    &&& z_min is Some ==> z_min->0 <= z
    &&& z_max is Some ==> z <= z_max->0
}

/// Whether the box holds the point: seen from the box, the point is at
/// most half an edge away from the centre along each edge, and its height
/// is within the limits. The faces belong to the box.
pub open spec fn box_contains(config: PlanarBoxFilterConfig, point: [i32; 3]) -> bool {
    &&& within_half(offset_along(config, point), config.wh[0] as int, heading_norm_sq(config))
    &&& within_half(offset_across(config, point), config.wh[1] as int, heading_norm_sq(config))
    &&& in_height(point[2], config.z_min, config.z_max)
}

/// Whether the range holds a reading. A point without intensity is held
/// by every range, and a reading that is not a number by none.
pub open spec fn intensity_contains(config: IntensityFilterConfig, intensity: Option<i32>) -> bool {
    match intensity {
        None => true,
        Some(value) => value != NOT_A_NUMBER && config.min <= value && (config.max is Some
            ==> value < config.max->0),
    }
}

/// The product of two numbers that are small enough for it.
fn times(a: i128, b: i128) -> (r: i128)
    requires
        -0x1_0000_0000_0000_0000 <= a <= 0x1_0000_0000_0000_0000,
        -0x1_0000_0000_0000 <= b <= 0x1_0000_0000_0000,
    ensures
        r == a * b,
        -0x1_0000_0000_0000_0000_0000_0000_0000 <= r <= 0x1_0000_0000_0000_0000_0000_0000_0000,
{
    assert(-0x1_0000_0000_0000_0000_0000_0000_0000 <= a * b
        <= 0x1_0000_0000_0000_0000_0000_0000_0000) by (nonlinear_arith)
        requires
            -0x1_0000_0000_0000_0000 <= a <= 0x1_0000_0000_0000_0000,
            -0x1_0000_0000_0000 <= b <= 0x1_0000_0000_0000,
    ;
    a * b
}

/// Decides `within_half` for numbers that are small enough.
fn is_within_half(scaled: i128, size: u32, norm_sq: u32) -> (r: bool)
    requires
        -0x1_0000_0000_0000 <= scaled <= 0x1_0000_0000_0000,
    ensures
        r == within_half(scaled as int, size as int, norm_sq as int),
{
    let lhs = 4 * times(scaled, scaled);
    let side = size as i128;
    assert(0 <= side * side <= 0x1_0000_0000_0000_0000) by (nonlinear_arith)
        requires
            0 <= side <= 0x1_0000_0000,
    ;
    let rhs = times(times(side, side), norm_sq as i128);
    lhs <= rhs
}

impl View for PlanarBoxFilter {
    type V = PlanarBoxFilterConfig;

    closed spec fn view(&self) -> PlanarBoxFilterConfig {
        self.config
    }
}

impl PlanarBoxFilter {
    /// Whether the box is in order: built from settings without fault.
    pub closed spec fn wf(&self) -> bool {
        &&& box_fault(self.config) is None
        &&& self.norm_sq == heading_norm_sq(self.config)
    }

    /// A box with the given settings, or the reason they are refused.
    pub fn try_from(config: PlanarBoxFilterConfig) -> (r: Result<PlanarBoxFilter, ConfigError>)
        ensures
            match r {
                Ok(filter) => box_fault(config) is None && filter.wf() && filter@ == config,
                Err(e) => box_fault(config) == Some(e),
            },
    {
        match (config.z_min, config.z_max) {
            (Some(low), Some(high)) => {
                if low > high {
                    return Err(ConfigError::InvertedHeight);
                }
            },
            _ => {},
        }
        if config.heading[0] == 0 && config.heading[1] == 0 {
            return Err(ConfigError::NoHeading);
        }
        let hx = config.heading[0] as i128;
        let hy = config.heading[1] as i128;
        let norm_sq = times(hx, hx) + times(hy, hy);
        assert(0 <= hx * hx <= 0x4000_0000 && 0 <= hy * hy <= 0x4000_0000) by (nonlinear_arith)
            requires
                -0x8000 <= hx <= 0x8000,
                -0x8000 <= hy <= 0x8000,
        ;
        Ok(PlanarBoxFilter { config, norm_sq: norm_sq as u32 })
    }

    /// The settings of the box.
    pub fn config(&self) -> (r: PlanarBoxFilterConfig)
        ensures
            r == self@,
    {
        self.config
    }

    /// Whether the box holds the point.
    pub fn contains(&self, point: &[i32; 3]) -> (r: bool)
        requires
            self.wf(),
        ensures
            r == box_contains(self@, *point),
    {
        let dx = point[0] as i128 - self.config.xy[0] as i128;
        let dy = point[1] as i128 - self.config.xy[1] as i128;
        let hx = self.config.heading[0] as i128;
        let hy = self.config.heading[1] as i128;
        let along = times(dx, hx) + times(dy, hy);
        let across = times(dy, hx) - times(dx, hy);
        assert(-0x8000_0000_0000 <= dx * hx <= 0x8000_0000_0000 && -0x8000_0000_0000 <= dy * hy
            <= 0x8000_0000_0000 && -0x8000_0000_0000 <= dy * hx <= 0x8000_0000_0000
            && -0x8000_0000_0000 <= dx * hy <= 0x8000_0000_0000) by (nonlinear_arith)
            requires
                -0x1_0000_0000 <= dx <= 0x1_0000_0000,
                -0x1_0000_0000 <= dy <= 0x1_0000_0000,
                -0x8000 <= hx <= 0x8000,
                -0x8000 <= hy <= 0x8000,
        ;
        let z = point[2];
        let above = match self.config.z_min {
            Some(low) => low <= z,
            None => true,
        };
        let below = match self.config.z_max {
            Some(high) => z <= high,
            None => true,
        };
        is_within_half(along, self.config.wh[0], self.norm_sq) && is_within_half(
            across,
            self.config.wh[1],
            self.norm_sq,
        ) && above && below
    }

    /// The length of the edge along the heading.
    pub fn size_x(&self) -> (r: u32)
        ensures
            r == self@.wh[0],
    {
        self.config.wh[0]
    }

    /// The length of the edge across the heading.
    pub fn size_y(&self) -> (r: u32)
        ensures
            r == self@.wh[1],
    {
        self.config.wh[1]
    }

    /// The vector along which the first edge runs.
    pub fn heading(&self) -> (r: [i16; 2])
        ensures
            r == self@.heading,
    {
        self.config.heading
    }

    /// The limits of the height: each one inside, or left open.
    pub fn z_bound(&self) -> (r: (Bound<i32>, Bound<i32>))
        ensures
            r.0 == match self@.z_min {
                Some(low) => Bound::Included(low),
                None => Bound::Unbounded,
            },
            r.1 == match self@.z_max {
                Some(high) => Bound::Included(high),
                None => Bound::Unbounded,
            },
    {
        let lower = match self.config.z_min {
            Some(low) => Bound::Included(low),
            None => Bound::Unbounded,
        };
        let upper = match self.config.z_max {
            Some(high) => Bound::Included(high),
            None => Bound::Unbounded,
        };
        (lower, upper)
    }

    /// The centre in the ground plane.
    pub fn center_2d(&self) -> (r: [i32; 2])
        ensures
            r == self@.xy,
    {
        self.config.xy
    }

    /// The two edge lengths in the ground plane.
    pub fn extends_2d(&self) -> (r: [u32; 2])
        ensures
            r == self@.wh,
    {
        self.config.wh
    }

    /// The height halfway between the two limits, rounded down; none
    /// where a limit is left open.
    pub fn z_center(&self) -> (r: Option<i32>)
        requires
            self.wf(),
        ensures
            r == match (self@.z_min, self@.z_max) {
                (Some(low), Some(high)) => Some((low + (high - low) / 2) as i32),
                _ => None,
            },
    {
        match (self.config.z_min, self.config.z_max) {
            (Some(low), Some(high)) => {
                let span: i64 = high as i64 - low as i64;
                Some((low as i64 + span / 2) as i32)
            },
            _ => None,
        }
    }

    /// The centre in space; none where a height limit is left open.
    pub fn center_3d(&self) -> (r: Option<[i32; 3]>)
        requires
            self.wf(),
        ensures
            match (self@.z_min, self@.z_max) {
                (Some(low), Some(high)) => r is Some && r->0@ == seq![
                    self@.xy[0],
                    self@.xy[1],
                    (low + (high - low) / 2) as i32,
                ],
                _ => r is None,
            },
    {
        match self.z_center() {
            Some(z) => {
                let center = [self.config.xy[0], self.config.xy[1], z];
                assert(center@ =~= seq![self@.xy[0], self@.xy[1], z]);
                Some(center)
            },
            None => None,
        }
    }

    /// The three edge lengths; none where a height limit is left open.
    pub fn extends_3d(&self) -> (r: Option<[u32; 3]>)
        requires
            self.wf(),
        ensures
            match (self@.z_min, self@.z_max) {
                (Some(low), Some(high)) => r is Some && r->0@ == seq![
                    self@.wh[0],
                    self@.wh[1],
                    (high - low) as u32,
                ],
                _ => r is None,
            },
    {
        match (self.config.z_min, self.config.z_max) {
            (Some(low), Some(high)) => {
                let span: i64 = high as i64 - low as i64;
                let extends = [self.config.wh[0], self.config.wh[1], span as u32];
                assert(extends@ =~= seq![self@.wh[0], self@.wh[1], span as u32]);
                Some(extends)
            },
            _ => None,
        }
    }
}

impl PlanarBoxFilterConfig {
    /// The settings of a box.
    pub fn from(filter: PlanarBoxFilter) -> (r: PlanarBoxFilterConfig)
        ensures
            r == filter@,
    {
        filter.config
    }
}

impl View for IntensityFilter {
    type V = IntensityFilterConfig;

    closed spec fn view(&self) -> IntensityFilterConfig {
        IntensityFilterConfig { min: self.min, max: self.max }
    }
}

impl IntensityFilter {
    /// The range with the given settings.
    pub fn from(config: IntensityFilterConfig) -> (r: IntensityFilter)
        ensures
            r@ == config,
    {
        IntensityFilter { min: config.min, max: config.max }
    }

    /// Whether the range holds a reading.
    pub fn contains(&self, intensity: Option<i32>) -> (r: bool)
        ensures
            r == intensity_contains(self@, intensity),
    {
        match intensity {
            None => true,
            Some(value) => {
                value != NOT_A_NUMBER && self.min <= value && match self.max {
                    Some(max) => value < max,
                    None => true,
                }
            },
        }
    }
}

impl IntensityFilterConfig {
    /// The settings of a range.
    pub fn from(filter: IntensityFilter) -> (r: IntensityFilterConfig)
        ensures
            r == filter@,
    {
        IntensityFilterConfig { min: filter.min, max: filter.max }
    }
}

/// Whether an item holds a point with its intensity: a box looks at the
/// point, a range at the intensity.
pub open spec fn item_contains(item: Item, point: [i32; 3], intensity: Option<i32>) -> bool {
    match item {
        Item::Box(filter) => box_contains(filter@, point),
        Item::Intensity(filter) => intensity_contains(filter@, intensity),
    }
}

impl Item {
    /// Whether the item is in order.
    pub open spec fn wf(&self) -> bool {
        match *self {
            Item::Box(filter) => filter.wf(),
            Item::Intensity(_) => true,
        }
    }

    /// Whether the item holds a point with its intensity.
    pub fn contains(&self, point: &[i32; 3], intensity: Option<i32>) -> (r: bool)
        requires
            self.wf(),
        ensures
            r == item_contains(*self, *point, intensity),
    {
        match self {
            Item::Box(filter) => filter.contains(point),
            Item::Intensity(filter) => filter.contains(intensity),
        }
    }
}

/// The settings of a box in order are without fault, and a box in order
/// with the same settings is the same box: building a box from the
/// settings of a box gives that box.
pub proof fn lemma_box_round_trip(filter: PlanarBoxFilter, rebuilt: PlanarBoxFilter)
    requires
        filter.wf(),
        rebuilt.wf(),
        rebuilt@ == filter@,
    ensures
        box_fault(filter@) is None,
        rebuilt == filter,
{
}

/// A range with the settings of a range is that range.
pub proof fn lemma_intensity_round_trip(filter: IntensityFilter, rebuilt: IntensityFilter)
    requires
        rebuilt@ == filter@,
    ensures
        rebuilt == filter,
{
}

} // verus!
