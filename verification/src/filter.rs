//! The composite filter: a cascade of stages that a point must pass to be
//! kept, and the per-frame driver of the static-point filter.
//!
//! The stages, in order: the distance to the sensor, the ground, the rule
//! engine, the background. The first two are decided outside this
//! library and come in as verdicts with each point. A point that fails a
//! stage is not shown to the later ones.

use crate::error::ConfigError;
use crate::filter_program::{
    first_undefined, items_wf, truth_at, FilterProgram, RuleError, SerializedFilterProgram,
};
use crate::form_logic::holds;
use crate::static_point_filter;
use crate::static_point_filter::{
    activated, advanced, fault_of, initial, is_background, voxel_key, GridState, StaticPointFilter,
};
use vstd::prelude::*;

verus! {

/// A point of a cloud: its coordinates and, where the sensor gives one,
/// its intensity.
#[derive(Debug, Clone, Copy, PartialEq, Eq, Hash)]
pub struct Pt<T> {
    pub xyz: [T; 3],
    pub intensity: Option<T>,
}

/// A point with the verdicts of the two stages that are decided outside:
/// whether its distance to the sensor is within the limits, and whether
/// it lies above the ground and near enough. A stage that is switched off
/// passes every point.
#[derive(Debug, Clone, Copy, PartialEq, Eq)]
pub struct Sample {
    pub point: Pt<i32>,
    pub in_lidar_range: bool,
    pub above_ground: bool,
}

/// The settings of a composite filter. A stage without settings is
/// switched off.
#[derive(Debug, PartialEq, Eq)]
pub struct Config {
    pub range_filter: Option<SerializedFilterProgram>,
    pub background_filter: Option<static_point_filter::Config>,
}

/// Why a composite filter cannot be built.
#[derive(Debug, Clone, PartialEq, Eq)]
pub enum BuildError {
    /// The rule engine cannot be built.
    Rule(RuleError),
    /// The settings of the static-point filter are refused.
    Background(ConfigError),
}

/// The background stage as the contracts see it.
pub struct BackgroundState {
    pub config: static_point_filter::Config,
    pub grid: GridState,
}

/// A composite filter.
pub struct Filter {
    range_filter: Option<FilterProgram>,
    background_filter: Option<StaticPointFilter>,
}

/// Whether the rule engine, where there is one, holds the point.
pub open spec fn rule_accepts(rule: Option<FilterProgram>, point: Pt<i32>) -> bool {
    match rule {
        None => true,
        Some(engine) => holds(
            engine.formula(),
            truth_at(engine.items(), point.xyz, point.intensity),
        ),
    }
}

/// Whether a sample passes the stages before the background stage.
pub open spec fn reaches_background(rule: Option<FilterProgram>, sample: Sample) -> bool {
    sample.in_lidar_range && sample.above_ground && rule_accepts(rule, sample.point)
}

/// The grid after a sample: hit at the sample's voxel if the sample
/// reaches the background stage and lies in the range, and else as before.
pub open spec fn grid_after(
    rule: Option<FilterProgram>,
    config: static_point_filter::Config,
    grid: GridState,
    sample: Sample,
) -> GridState {
    if reaches_background(rule, sample) {
        match voxel_key(config, sample.point.xyz) {
            Some(key) => activated(grid, key),
            None => grid,
        }
    } else {
        grid
    }
}

/// Whether the static-point filter calls the point background.
pub open spec fn called_background(
    config: static_point_filter::Config,
    grid: GridState,
    point: [i32; 3],
) -> bool {
    match voxel_key(config, point) {
        Some(key) => is_background(grid, key, config.background_threshold),
        None => true,
    }
}

/// Whether a sample is kept: it passes every stage that is switched on,
/// the last of which keeps what is not background.
pub open spec fn keeps(
    rule: Option<FilterProgram>,
    background: Option<BackgroundState>,
    sample: Sample,
) -> bool {
    reaches_background(rule, sample) && match background {
        None => true,
        Some(BackgroundState { config, grid }) => !called_background(config, grid, sample.point.xyz),
    }
}

/// The points of a frame that are kept, in the frame's order, when the
/// samples are shown to the filter one after the other.
pub open spec fn kept_of_frame(
    rule: Option<FilterProgram>,
    background: Option<BackgroundState>,
    frame: Seq<Sample>,
) -> Seq<Pt<i32>>
    decreases frame.len(),
{
    if frame.len() == 0 {
        Seq::empty()
    } else {
        let first = if keeps(rule, background, frame[0]) {
            seq![frame[0].point]
        } else {
            Seq::empty()
        };
        first + kept_of_frame(rule, background_after(rule, background, frame[0]), frame.drop_first())
    }
}

/// The settings and grid of the background stage after one sample.
pub open spec fn background_after(
    rule: Option<FilterProgram>,
    background: Option<BackgroundState>,
    sample: Sample,
) -> Option<BackgroundState> {
    match background {
        None => None,
        Some(BackgroundState { config, grid }) => Some(BackgroundState { config, grid: grid_after(rule, config, grid, sample) }),
    }
}

/// The settings and grid of the background stage after a frame's samples,
/// before the advance that ends the frame.
pub open spec fn background_after_frame(
    rule: Option<FilterProgram>,
    background: Option<BackgroundState>,
    frame: Seq<Sample>,
) -> Option<BackgroundState>
    decreases frame.len(),
{
    if frame.len() == 0 {
        background
    } else {
        background_after_frame(
            rule,
            background_after(rule, background, frame[0]),
            frame.drop_first(),
        )
    }
}

/// The settings and grid of the background stage after an advance.
pub open spec fn background_advanced(
    background: Option<BackgroundState>,
) -> Option<BackgroundState> {
    match background {
        None => None,
        Some(BackgroundState { config, grid }) => Some(BackgroundState { config, grid: advanced(grid) }),
    }
}

/// What is wrong with the settings of a composite filter, if anything;
/// the rule engine is looked at first.
pub open spec fn build_fault(config: Config) -> bool {
    ||| (config.range_filter is Some && first_undefined(
        config.range_filter->0.program@,
        config.range_filter->0.items@,
    ) is Some)
    ||| (config.background_filter is Some && fault_of(config.background_filter->0) is Some)
}

impl Filter {
    /// The rule engine, where that stage is switched on.
    pub closed spec fn range_filter(&self) -> Option<FilterProgram> {
        self.range_filter
    }

    /// The settings and the grid of the background stage, where that stage
    /// is switched on.
    pub closed spec fn background(&self) -> Option<BackgroundState> {
        match self.background_filter {
            None => None,
            Some(filter) => Some(BackgroundState { config: filter.config(), grid: filter@ }),
        }
    }

    /// Whether the filter is in order: its stages are.
    pub closed spec fn wf(&self) -> bool {
        &&& self.range_filter is Some ==> self.range_filter->0.wf()
        &&& self.background_filter is Some ==> self.background_filter->0.wf()
    }

    /// The number of advances so far; none without background stage.
    pub fn step_count(&self) -> (r: Option<u64>)
        ensures
            match r {
                None => self.background() is None,
                Some(count) => self.background() is Some && self.background()->0.grid.step == count,
            },
    {
        match &self.background_filter {
            None => None,
            Some(filter) => Some(filter.step_count()),
        }
    }

    /// Builds the filter from its settings: each stage with settings is
    /// built, the rule engine first. The first stage that cannot be built
    /// gives the error.
    pub fn new(config: Config) -> (r: Result<Filter, BuildError>)
        requires
            config.range_filter is Some ==> items_wf(config.range_filter->0.items@),
        ensures
            match r {
                Ok(filter) => {
                    &&& !build_fault(config)
                    &&& filter.wf()
                    &&& match config.range_filter {
                        None => filter.range_filter() is None,
                        Some(rule) => filter.range_filter() is Some
                            && filter.range_filter()->0.formula() == rule.program@
                            && filter.range_filter()->0.items() == rule.items@,
                    }
                    &&& match config.background_filter {
                        None => filter.background() is None,
                        Some(settings) => filter.background() == Some(
                            BackgroundState { config: settings, grid: initial() },
                        ),
                    }
                },
                Err(BuildError::Rule(RuleError::UndefinedItem(name))) => config.range_filter
                    is Some && first_undefined(
                    config.range_filter->0.program@,
                    config.range_filter->0.items@,
                ) == Some(name@),
                Err(BuildError::Rule(RuleError::Parse(_))) => false,
                Err(BuildError::Background(e)) => !(config.range_filter is Some
                    && first_undefined(
                    config.range_filter->0.program@,
                    config.range_filter->0.items@,
                ) is Some) && config.background_filter is Some && fault_of(
                    config.background_filter->0,
                ) == Some(e),
            },
    {
        let Config { range_filter, background_filter } = config;
        let range_filter = match range_filter {
            None => None,
            Some(rule) => match FilterProgram::try_from(rule) {
                Ok(engine) => Some(engine),
                Err(e) => {
                    return Err(BuildError::Rule(e));
                },
            },
        };
        let background_filter = match background_filter {
            None => None,
            Some(settings) => match StaticPointFilter::new(&settings) {
                Ok(filter) => Some(filter),
                Err(e) => {
                    return Err(BuildError::Background(e));
                },
            },
        };
        Ok(Filter { range_filter, background_filter })
    }

    /// The settings of the filter. The grid of the background stage is not
    /// part of them: a filter built from them starts with an empty grid.
    pub fn into_config(self) -> (r: Config)
        ensures
            match self.range_filter() {
                None => r.range_filter is None,
                Some(engine) => r.range_filter is Some && r.range_filter->0.program@
                    == engine.formula() && r.range_filter->0.items@ == engine.items(),
            },
            match self.background() {
                None => r.background_filter is None,
                Some(stage) => r.background_filter == Some(stage.config),
            },
    {
        let Filter { range_filter, background_filter } = self;
        Config {
            range_filter: match range_filter {
                None => None,
                Some(engine) => Some(SerializedFilterProgram::from(engine)),
            },
            background_filter: match background_filter {
                None => None,
                Some(filter) => Some(filter.to_config()),
            },
        }
    }

    /// Shows a sample to the stages in order and tells whether the point
    /// is kept. Only a sample that passes the earlier stages is shown to
    /// the background stage, and only then does the grid record a hit.
    pub fn contains(&mut self, sample: &Sample) -> (r: bool)
        requires
            old(self).wf(),
        ensures
            final(self).wf(),
            final(self).range_filter() == old(self).range_filter(),
            r == keeps(old(self).range_filter(), old(self).background(), *sample),
            final(self).background() == background_after(
                old(self).range_filter(),
                old(self).background(),
                *sample,
            ),
    {
        if !sample.in_lidar_range {
            return false;
        }
        if !sample.above_ground {
            return false;
        }
        match &self.range_filter {
            Some(engine) => {
                if !engine.contains(&sample.point.xyz, sample.point.intensity) {
                    return false;
                }
            },
            None => {},
        }
        match &mut self.background_filter {
            Some(filter) => !filter.check_is_background(&sample.point.xyz),
            None => true,
        }
    }

    /// Ends the frame: the background stage, where there is one, advances
    /// by one window.
    pub fn step(&mut self)
        requires
            old(self).wf(),
            old(self).background() is Some ==> old(self).background()->0.grid.step < u64::MAX,
        ensures
            final(self).wf(),
            final(self).range_filter() == old(self).range_filter(),
            final(self).background() == background_advanced(old(self).background()),
    {
        match &mut self.background_filter {
            Some(filter) => {
                filter.step();
            },
            None => {},
        }
    }

    /// Filters one frame: shows the samples to the filter in order, keeps
    /// the points that pass, and then advances once.
    pub fn filter_frame(&mut self, frame: Vec<Sample>) -> (r: Vec<Pt<i32>>)
        requires
            old(self).wf(),
            old(self).background() is Some ==> old(self).background()->0.grid.step < u64::MAX,
        ensures
            final(self).wf(),
            final(self).range_filter() == old(self).range_filter(),
            r@ == kept_of_frame(old(self).range_filter(), old(self).background(), frame@),
            final(self).background() == background_advanced(
                background_after_frame(old(self).range_filter(), old(self).background(), frame@),
            ),
    {
        let ghost rule = self.range_filter();
        let ghost start = self.background();
        let mut points: Vec<Pt<i32>> = Vec::new();
        let mut i: usize = 0;
        assert(frame@.skip(0) =~= frame@);
        while i < frame.len()
            invariant
                self.wf(),
                self.range_filter() == rule,
                i <= frame.len(),
                points@ + kept_of_frame(rule, self.background(), frame@.skip(i as int))
                    == kept_of_frame(rule, start, frame@),
                background_after_frame(rule, self.background(), frame@.skip(i as int))
                    == background_after_frame(rule, start, frame@),
                self.background() is Some ==> self.background()->0.grid.step < u64::MAX,
            decreases frame.len() - i,
        {
            let ghost rest = frame@.skip(i as int);
            let ghost before = self.background();
            let ghost so_far = points@;
            assert(rest[0] == frame@[i as int]);
            assert(rest.drop_first() =~= frame@.skip(i + 1));
            let sample = frame[i];
            if self.contains(&sample) {
                points.push(sample.point);
                assert((so_far + seq![sample.point]) + kept_of_frame(
                    rule,
                    self.background(),
                    rest.drop_first(),
                ) =~= so_far + kept_of_frame(rule, before, rest));
            } else {
                assert(so_far + kept_of_frame(rule, self.background(), rest.drop_first())
                    =~= so_far + kept_of_frame(rule, before, rest));
            }
            i += 1;
        }
        assert(frame@.skip(frame@.len() as int) =~= Seq::<Sample>::empty());
        self.step();
        points
    }
}

/// The settings of a filter in order are without fault: a filter can be
/// built from them again.
pub proof fn lemma_filter_round_trip(filter: Filter, config: Config)
    requires
        filter.wf(),
        match filter.range_filter() {
            None => config.range_filter is None,
            Some(engine) => config.range_filter is Some && config.range_filter->0.program@
                == engine.formula() && config.range_filter->0.items@ == engine.items(),
        },
        match filter.background() {
            None => config.background_filter is None,
            Some(stage) => config.background_filter == Some(stage.config),
        },
    ensures
        !build_fault(config),
        config.range_filter is Some ==> items_wf(config.range_filter->0.items@),
{
    if filter.range_filter is Some {
        filter.range_filter->0.lemma_wf();
    }
    if filter.background_filter is Some {
        filter.background_filter->0.lemma_wf();
    }
}

} // verus!
