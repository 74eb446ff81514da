use point_filter::filter::{BuildError, Config, Filter, Pt, Sample};
use point_filter::filter_program::{RuleError, SerializedFilterProgram};
use point_filter::item::{Item, PlanarBoxFilter, PlanarBoxFilterConfig};
use point_filter::parser::parse_str;
use point_filter::static_point_filter;
use point_filter::error::ConfigError;
use point_filter::static_point_filter::{Fraction, Range, VoxelSize};

fn slab(low: i32, high: i32) -> Item {
    Item::Box(
        PlanarBoxFilter::try_from(PlanarBoxFilterConfig {
            xy: [(low + high) / 2, 0],
            wh: [(high - low) as u32, 1000],
            z_min: None,
            z_max: None,
            heading: [1, 0],
        })
        .unwrap(),
    )
}

fn rule(text: &str) -> SerializedFilterProgram {
    SerializedFilterProgram {
        program: parse_str(text).unwrap(),
        items: vec![("near".to_string(), slab(0, 100))],
    }
}

fn grid() -> static_point_filter::Config {
    static_point_filter::Config {
        range: Range {
            x_bound: (-1000, 1000),
            y_bound: (-1000, 1000),
            z_bound: (-1000, 1000),
        },
        voxel_size: VoxelSize {
            x_size: 10,
            y_size: 10,
            z_size: 10,
        },
        background_threshold: Fraction {
            numerator: 1,
            denominator: 2,
        },
    }
}

fn sample(x: i32) -> Sample {
    Sample {
        point: Pt {
            xyz: [x, 0, 0],
            intensity: None,
        },
        in_lidar_range: true,
        above_ground: true,
    }
}

#[test]
fn no_stage_keeps_everything() {
    let mut filter = Filter::new(Config {
        range_filter: None,
        background_filter: None,
    })
    .unwrap();
    assert!(filter.contains(&sample(5)));
    assert!(filter.contains(&sample(5000)));
    assert_eq!(filter.step_count(), None);
    filter.step();
    assert_eq!(
        filter.filter_frame(vec![sample(1), sample(2)]),
        vec![sample(1).point, sample(2).point]
    );
}

#[test]
fn outside_verdicts_reject() {
    let mut filter = Filter::new(Config {
        range_filter: None,
        background_filter: None,
    })
    .unwrap();
    let mut far = sample(5);
    far.in_lidar_range = false;
    assert!(!filter.contains(&far));
    let mut low = sample(5);
    low.above_ground = false;
    assert!(!filter.contains(&low));
}

#[test]
fn rule_stage_rejects() {
    let mut filter = Filter::new(Config {
        range_filter: Some(rule("near")),
        background_filter: None,
    })
    .unwrap();
    assert!(filter.contains(&sample(50)));
    assert!(!filter.contains(&sample(150)));
}

#[test]
fn background_stage_keeps_what_is_not_background() {
    let mut filter = Filter::new(Config {
        range_filter: None,
        background_filter: Some(grid()),
    })
    .unwrap();
    // In the first window everything is background.
    assert!(!filter.contains(&sample(5)));
    filter.step();
    filter.step();
    filter.step();
    filter.step();
    // Four windows are over, two hits are needed; this voxel has one old
    // hit and gets one more.
    assert!(!filter.contains(&sample(5)));
    // This voxel was never hit.
    assert!(filter.contains(&sample(55)));
    // Out of the grid's range is background.
    assert!(!filter.contains(&sample(5000)));
    assert_eq!(filter.step_count(), Some(4));
}

#[test]
fn rejected_points_do_not_reach_the_grid() {
    let mut filter = Filter::new(Config {
        range_filter: Some(rule("near")),
        background_filter: Some(grid()),
    })
    .unwrap();
    let mut hidden = sample(5);
    hidden.in_lidar_range = false;
    let mut frames = 0;
    while frames < 4 {
        // Shown in every window, but each time rejected before the grid.
        assert!(!filter.contains(&hidden));
        assert!(!filter.contains(&sample(155)));
        filter.step();
        frames += 1;
    }
    // Had the grid seen them, their voxels would be background by now.
    assert!(filter.contains(&sample(5)));
    assert!(!filter.contains(&sample(155)));
}

#[test]
fn frame_is_filtered_in_order_and_advances_once() {
    let mut filter = Filter::new(Config {
        range_filter: Some(rule("near")),
        background_filter: Some(grid()),
    })
    .unwrap();
    // First window: all background, nothing kept.
    assert_eq!(filter.filter_frame(vec![sample(5), sample(25)]), vec![]);
    assert_eq!(filter.step_count(), Some(1));
    assert_eq!(filter.filter_frame(vec![]), vec![]);
    assert_eq!(filter.filter_frame(vec![]), vec![]);
    assert_eq!(filter.filter_frame(vec![]), vec![]);
    assert_eq!(filter.step_count(), Some(4));
    // Two hits are needed. 5 and 25 have one and get a second, 45 and 65
    // get their first, 150 fails the rule. The second sample of voxel 45
    // is the same hit.
    assert_eq!(
        filter.filter_frame(vec![
            sample(45),
            sample(5),
            sample(150),
            sample(65),
            sample(46),
            sample(25)
        ]),
        vec![sample(45).point, sample(65).point, sample(46).point]
    );
    assert_eq!(filter.step_count(), Some(5));
}

#[test]
fn build_errors() {
    assert_eq!(
        Filter::new(Config {
            range_filter: Some(rule("near * far")),
            background_filter: None,
        })
        .err(),
        Some(BuildError::Rule(RuleError::UndefinedItem(
            "far".to_string()
        )))
    );
    let mut bad = grid();
    bad.voxel_size.x_size = 0;
    assert_eq!(
        Filter::new(Config {
            range_filter: Some(rule("near")),
            background_filter: Some(bad),
        })
        .err(),
        Some(BuildError::Background(ConfigError::VoxelSizeNotPositive))
    );
    // The rule is looked at first.
    assert_eq!(
        Filter::new(Config {
            range_filter: Some(rule("far")),
            background_filter: Some(bad),
        })
        .err(),
        Some(BuildError::Rule(RuleError::UndefinedItem(
            "far".to_string()
        )))
    );
}

#[test]
fn settings_round_trip() {
    let mut filter = Filter::new(Config {
        range_filter: Some(rule("!near")),
        background_filter: Some(grid()),
    })
    .unwrap();
    filter.contains(&sample(500));
    filter.step();
    let config = filter.into_config();
    assert_eq!(
        config,
        Config {
            range_filter: Some(rule("!near")),
            background_filter: Some(grid()),
        }
    );
    // A filter built from the settings starts anew.
    let rebuilt = Filter::new(config).unwrap();
    assert_eq!(rebuilt.step_count(), Some(0));
}
