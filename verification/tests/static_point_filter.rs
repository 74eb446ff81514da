use point_filter::error::ConfigError;
use point_filter::static_point_filter::{Config, Fraction, Range, StaticPointFilter, VoxelSize};

// Coordinates are in tenths of a unit.
fn warm_up_config() -> Config {
    Config {
        range: Range {
            x_bound: (-45, 45),
            y_bound: (-45, 45),
            z_bound: (-45, 45),
        },
        voxel_size: VoxelSize {
            x_size: 10,
            y_size: 10,
            z_size: 10,
        },
        background_threshold: Fraction {
            numerator: 8,
            denominator: 10,
        },
    }
}

#[test]
fn background_filter_test() {
    let mut filter = warm_up_config().build().unwrap();
    let point1 = [0, 0, 0];
    let point2 = [-43, 0, 0];
    let point3 = [1000, 0, 0];

    assert!(filter.check_is_background(&point1));
    assert!(filter.check_is_background(&point2));
    assert!(filter.check_is_background(&point3));
    filter.step();

    for _ in 1..50 {
        assert!(filter.check_is_background(&point1));
        assert!(filter.check_is_background(&point2));
        assert!(filter.check_is_background(&point3));
        filter.step();
    }

    for _ in 50..65 {
        assert!(filter.check_is_background(&point1));
        assert!(filter.check_is_background(&point3));
        filter.step();
    }

    assert!(filter.check_is_background(&point1));
    assert!(!filter.check_is_background(&point2));
    assert!(filter.check_is_background(&point3));
}

#[test]
fn simple_filter_test() {
    let mut filter = StaticPointFilter::new(&warm_up_config()).unwrap();
    let point1 = [0, 0, 0];
    let point2 = [-43, 0, 0];
    let point3 = [1000, 0, 0];

    assert!(filter.check_is_background(&point1));
    assert!(filter.check_is_background(&point2));
    assert!(filter.check_is_background(&point3));
    filter.step();

    for _ in 1..50 {
        assert!(filter.check_is_background(&point1));
        assert!(filter.check_is_background(&point2));
        assert!(filter.check_is_background(&point3));
        filter.step();
    }

    for _ in 50..65 {
        assert!(filter.check_is_background(&point1));
        assert!(filter.check_is_background(&point3));
        filter.step();
    }

    assert!(filter.check_is_background(&point1));
    assert!(!filter.check_is_background(&point2));
    assert!(filter.check_is_background(&point3));
}

#[test]
fn threshold_is_the_ceiling() {
    let mut filter = warm_up_config().build().unwrap();
    let expected = [0u64, 1, 2, 3, 4, 4, 5, 6, 7, 8, 8, 9];
    for want in expected {
        assert_eq!(filter.threshold(), want);
        filter.step();
    }
    assert_eq!(filter.step_count(), 12);
}

#[test]
fn threshold_never_falls() {
    let mut filter = warm_up_config().build().unwrap();
    let mut last = filter.threshold();
    for _ in 0..200 {
        filter.step();
        let now = filter.threshold();
        assert!(now >= last);
        assert!(now <= filter.step_count());
        last = now;
    }
}

#[test]
fn first_check_is_background() {
    let mut filter = warm_up_config().build().unwrap();
    assert!(filter.check_is_background(&[12, -7, 30]));
}

#[test]
fn out_of_range_is_background_whatever_came_before() {
    let mut filter = warm_up_config().build().unwrap();
    for _ in 0..70 {
        filter.step();
    }
    // A voxel never hit is not background after 70 windows.
    assert!(!filter.check_is_background(&[0, 0, 0]));
    assert!(filter.check_is_background(&[46, 0, 0]));
    assert!(filter.check_is_background(&[0, -46, 0]));
    assert!(filter.check_is_background(&[0, 0, 1000]));
}

#[test]
fn range_ends_are_inside() {
    let mut filter = warm_up_config().build().unwrap();
    for _ in 0..10 {
        filter.step();
    }
    // In range, never hit: one hit of eight needed.
    assert!(!filter.check_is_background(&[45, 45, 45]));
    assert!(!filter.check_is_background(&[-45, -45, -45]));
}

#[test]
fn voxel_keys_are_floored_offsets() {
    let config = warm_up_config();
    assert_eq!(config.key_of(&[0, 0, 0]), Some((4, 4, 4)));
    assert_eq!(config.key_of(&[-43, 0, 0]), Some((0, 4, 4)));
    assert_eq!(config.key_of(&[-45, -36, 45]), Some((0, 0, 9)));
    assert_eq!(config.key_of(&[-35, 0, 0]), Some((1, 4, 4)));
    assert_eq!(config.key_of(&[1000, 0, 0]), None);
}

#[test]
fn second_check_in_a_window_agrees_with_the_first() {
    let mut filter = warm_up_config().build().unwrap();
    for _ in 0..3 {
        filter.step();
    }
    // Three windows are over, three hits are needed, the voxel has none.
    let first = filter.check_is_background(&[5, 5, 5]);
    let second = filter.check_is_background(&[5, 5, 5]);
    assert!(!first);
    assert_eq!(first, second);
    // Another point of the same voxel counts as the same hit.
    assert!(!filter.check_is_background(&[9, 9, 9]));
}

#[test]
fn flush_moves_hits_into_the_count() {
    let mut config = warm_up_config();
    config.background_threshold = Fraction {
        numerator: 1,
        denominator: 2,
    };
    let mut filter = config.build().unwrap();
    // Hit the voxel in windows 0..40 and not in 40..64.
    for window in 0..64 {
        if window < 40 {
            filter.check_is_background(&[0, 0, 0]);
            filter.check_is_background(&[1, 1, 1]);
        }
        filter.step();
    }
    assert_eq!(filter.step_count(), 64);
    assert_eq!(filter.threshold(), 32);
    // 40 hits were counted by the flush; window 64 gives the 41st.
    assert!(filter.check_is_background(&[0, 0, 0]));
    for _ in 0..17 {
        filter.step();
    }
    // Window 81 gives the 42nd hit, and 41 are needed.
    assert_eq!(filter.threshold(), 41);
    assert!(filter.check_is_background(&[0, 0, 0]));
    for _ in 0..8 {
        filter.step();
    }
    // Window 89 gives the 43rd hit, and 45 are needed.
    assert_eq!(filter.threshold(), 45);
    assert!(!filter.check_is_background(&[0, 0, 0]));
}

#[test]
fn hits_before_a_flush_are_not_lost() {
    let mut config = warm_up_config();
    config.background_threshold = Fraction {
        numerator: 1,
        denominator: 1,
    };
    let mut filter = config.build().unwrap();
    // With a share of one a voxel is background only if hit in every window.
    for _ in 0..130 {
        assert!(filter.check_is_background(&[0, 0, 0]));
        filter.step();
    }
    assert_eq!(filter.threshold(), 130);
    // The voxel has 130 hits and gets the 131st.
    assert!(filter.check_is_background(&[0, 0, 0]));
    filter.step();
    filter.step();
    // One window was missed: 131 hits and this one make 132 of 132.
    assert!(filter.check_is_background(&[0, 0, 0]));
    filter.step();
    filter.step();
    // Two were missed: 133 of 134.
    assert!(!filter.check_is_background(&[0, 0, 0]));
}

#[test]
fn refused_configs() {
    let mut config = warm_up_config();
    config.range.y_bound = (3, 2);
    assert_eq!(config.build().err(), Some(ConfigError::InvertedRange));

    let mut config = warm_up_config();
    config.voxel_size.z_size = 0;
    assert_eq!(config.build().err(), Some(ConfigError::VoxelSizeNotPositive));

    let mut config = warm_up_config();
    config.voxel_size.x_size = -1;
    assert_eq!(config.build().err(), Some(ConfigError::VoxelSizeNotPositive));

    let mut config = warm_up_config();
    config.background_threshold = Fraction {
        numerator: 11,
        denominator: 10,
    };
    assert_eq!(config.build().err(), Some(ConfigError::ThresholdOutOfRange));

    let mut config = warm_up_config();
    config.background_threshold = Fraction {
        numerator: 0,
        denominator: 0,
    };
    assert_eq!(config.build().err(), Some(ConfigError::ThresholdOutOfRange));

    // The range is looked at before the voxel size.
    let mut config = warm_up_config();
    config.range.x_bound = (1, 0);
    config.voxel_size.x_size = 0;
    assert_eq!(config.validate(), Err(ConfigError::InvertedRange));
}

#[test]
fn counts_after_a_flush_are_the_windows_hit() {
    let mut filter = warm_up_config().build().unwrap();
    let near = [0, 0, 0];
    let edge = [-43, 0, 0];
    let mut hits_near: u64 = 0;
    let mut hits_edge: u64 = 0;
    for window in 0..64u64 {
        if window % 3 != 0 {
            filter.check_is_background(&near);
            filter.check_is_background(&near);
            hits_near += 1;
        }
        if window % 5 == 0 {
            filter.check_is_background(&edge);
            hits_edge += 1;
        }
        filter.step();
    }
    assert_eq!(filter.step_count(), 64);
    assert_eq!(filter.mask(), 1);
    assert_eq!(filter.voxel((4, 4, 4)), (0, hits_near));
    assert_eq!(filter.voxel((0, 4, 4)), (0, hits_edge));
    assert_eq!(filter.voxel((1, 1, 1)), (0, 0));
    assert_eq!(
        filter.voxel((4, 4, 4)).1 + filter.voxel((0, 4, 4)).1,
        hits_near + hits_edge
    );
}

#[test]
fn window_word_has_one_bit_a_window() {
    let mut filter = warm_up_config().build().unwrap();
    assert_eq!(filter.mask(), 1);
    filter.check_is_background(&[0, 0, 0]);
    assert_eq!(filter.voxel((4, 4, 4)), (1, 0));
    filter.step();
    assert_eq!(filter.mask(), 2);
    filter.step();
    assert_eq!(filter.mask(), 4);
    filter.check_is_background(&[0, 0, 0]);
    filter.check_is_background(&[0, 0, 0]);
    assert_eq!(filter.voxel((4, 4, 4)), (0b101, 0));
    for _ in 2..63 {
        filter.step();
    }
    assert_eq!(filter.mask(), 1 << 63);
    filter.check_is_background(&[0, 0, 0]);
    assert_eq!(filter.voxel((4, 4, 4)), ((1 << 63) | 0b101, 0));
    filter.step();
    assert_eq!(filter.mask(), 1);
    assert_eq!(filter.voxel((4, 4, 4)), (0, 3));
    assert_eq!(filter.to_config(), warm_up_config());
}
