use point_filter::item::{
    IntensityFilter, IntensityFilterConfig, Item, PlanarBoxFilter, PlanarBoxFilterConfig,
    NOT_A_NUMBER,
};
use point_filter::bound::Bound;
use point_filter::error::ConfigError;

// Lengths are in tenths of a unit.
fn upright_box(z_min: Option<i32>, z_max: Option<i32>) -> PlanarBoxFilterConfig {
    PlanarBoxFilterConfig {
        xy: [10, 20],
        wh: [50, 100],
        z_min,
        z_max,
        heading: [1, 0],
    }
}

#[test]
fn inclusive_box_filter_test() {
    let filter = PlanarBoxFilter::try_from(upright_box(None, None)).unwrap();
    assert!(filter.contains(&[34, 20, 0]));
    assert!(!filter.contains(&[36, 20, 0]));
}

#[test]
fn planar_box_filter_inclusive_box_filter_test() {
    // No limit of height.
    {
        let filter = PlanarBoxFilter::try_from(upright_box(None, None)).unwrap();

        assert!(filter.contains(&[34, 20, 0]));
        assert!(!filter.contains(&[36, 20, 0]));
    }

    // A lowest height.
    {
        let filter = PlanarBoxFilter::try_from(upright_box(Some(40), None)).unwrap();

        assert!(filter.contains(&[34, 20, 50]));
        assert!(!filter.contains(&[34, 20, 0]));
    }

    // A lowest and a highest height.
    {
        let filter = PlanarBoxFilter::try_from(upright_box(Some(40), Some(50))).unwrap();

        assert!(filter.contains(&[34, 20, 45]));
        assert!(!filter.contains(&[34, 20, 0]));
        assert!(!filter.contains(&[34, 20, 60]));
    }
}

#[test]
fn box_faces_are_inside() {
    let filter = PlanarBoxFilter::try_from(upright_box(Some(40), Some(50))).unwrap();
    assert!(filter.contains(&[35, 20, 40]));
    assert!(filter.contains(&[-15, 20, 50]));
    assert!(filter.contains(&[10, 70, 45]));
    assert!(filter.contains(&[10, -30, 45]));
    assert!(!filter.contains(&[10, 71, 45]));
    assert!(!filter.contains(&[10, -31, 45]));
    assert!(!filter.contains(&[10, 20, 39]));
    assert!(!filter.contains(&[10, 20, 51]));
}

#[test]
fn heading_length_does_not_matter() {
    let mut config = upright_box(None, None);
    config.heading = [1000, 0];
    let filter = PlanarBoxFilter::try_from(config).unwrap();
    assert!(filter.contains(&[34, 20, 0]));
    assert!(!filter.contains(&[36, 20, 0]));
}

#[test]
fn quarter_turn_swaps_the_edges() {
    let mut config = upright_box(None, None);
    config.heading = [0, 1];
    let filter = PlanarBoxFilter::try_from(config).unwrap();
    // The edge of 50 now runs along y, the edge of 100 along x.
    assert!(filter.contains(&[60, 20, 0]));
    assert!(!filter.contains(&[61, 20, 0]));
    assert!(filter.contains(&[10, 45, 0]));
    assert!(!filter.contains(&[10, 46, 0]));
}

#[test]
fn diagonal_box() {
    let config = PlanarBoxFilterConfig {
        xy: [0, 0],
        wh: [20, 2],
        z_min: None,
        z_max: None,
        heading: [1, 1],
    };
    let filter = PlanarBoxFilter::try_from(config).unwrap();
    // Along the diagonal the box reaches 10, that is 7 in x and y.
    assert!(filter.contains(&[7, 7, 0]));
    assert!(!filter.contains(&[8, 8, 0]));
    // Across it the box reaches 1: (1, -1) is 1.41 away.
    assert!(!filter.contains(&[1, -1, 0]));
    assert!(filter.contains(&[1, 0, 0]));
}

#[test]
fn far_points_are_handled() {
    let filter = PlanarBoxFilter::try_from(PlanarBoxFilterConfig {
        xy: [i32::MIN, i32::MAX],
        wh: [u32::MAX, u32::MAX],
        z_min: None,
        z_max: None,
        heading: [i16::MIN, i16::MIN],
    })
    .unwrap();
    assert!(!filter.contains(&[i32::MAX, i32::MIN, 0]));
    assert!(filter.contains(&[i32::MIN, i32::MAX, i32::MIN]));
}

#[test]
fn refused_boxes() {
    assert_eq!(
        PlanarBoxFilter::try_from(upright_box(Some(5), Some(4))).err(),
        Some(ConfigError::InvertedHeight)
    );
    let mut config = upright_box(None, None);
    config.heading = [0, 0];
    assert_eq!(
        PlanarBoxFilter::try_from(config).err(),
        Some(ConfigError::NoHeading)
    );
    let mut config = upright_box(Some(1), Some(0));
    config.heading = [0, 0];
    assert_eq!(
        PlanarBoxFilter::try_from(config).err(),
        Some(ConfigError::InvertedHeight)
    );
    assert!(PlanarBoxFilter::try_from(upright_box(Some(4), Some(4))).is_ok());
}

#[test]
fn box_round_trip() {
    let config = upright_box(Some(-3), None);
    let filter = PlanarBoxFilter::try_from(config).unwrap();
    let deflated = PlanarBoxFilterConfig::from(filter);
    assert_eq!(deflated, config);
    assert_eq!(PlanarBoxFilter::try_from(deflated).unwrap(), filter);
}

#[test]
fn box_measures() {
    let filter = PlanarBoxFilter::try_from(upright_box(Some(40), Some(51))).unwrap();
    assert_eq!(filter.size_x(), 50);
    assert_eq!(filter.size_y(), 100);
    assert_eq!(filter.heading(), [1, 0]);
    assert_eq!(
        filter.z_bound(),
        (Bound::Included(40), Bound::Included(51))
    );
    assert_eq!(filter.center_2d(), [10, 20]);
    assert_eq!(filter.extends_2d(), [50, 100]);
    assert_eq!(filter.z_center(), Some(45));
    assert_eq!(filter.center_3d(), Some([10, 20, 45]));
    assert_eq!(filter.extends_3d(), Some([50, 100, 11]));
    let open = PlanarBoxFilter::try_from(upright_box(Some(40), None)).unwrap();
    assert_eq!(open.z_bound(), (Bound::Included(40), Bound::Unbounded));
    assert_eq!(open.z_center(), None);
    assert_eq!(open.center_3d(), None);
    assert_eq!(open.extends_3d(), None);
}

#[test]
fn intensity_range() {
    let filter = IntensityFilter::from(IntensityFilterConfig {
        min: 10,
        max: Some(20),
    });
    assert!(filter.contains(None));
    assert!(filter.contains(Some(10)));
    assert!(filter.contains(Some(19)));
    assert!(!filter.contains(Some(20)));
    assert!(!filter.contains(Some(9)));
    let open = IntensityFilter::from(IntensityFilterConfig { min: 10, max: None });
    assert!(open.contains(Some(i32::MAX)));
    assert!(!open.contains(Some(9)));
}

#[test]
fn intensity_round_trip() {
    let config = IntensityFilterConfig {
        min: -4,
        max: Some(7),
    };
    let filter = IntensityFilter::from(config);
    assert_eq!(IntensityFilterConfig::from(filter), config);
    assert_eq!(IntensityFilter::from(IntensityFilterConfig::from(filter)), filter);
}

#[test]
fn item_asks_the_right_predicate() {
    let boxed = Item::Box(PlanarBoxFilter::try_from(upright_box(None, None)).unwrap());
    let range = Item::Intensity(IntensityFilter::from(IntensityFilterConfig {
        min: 5,
        max: None,
    }));
    assert!(boxed.contains(&[34, 20, 0], Some(0)));
    assert!(!boxed.contains(&[36, 20, 0], Some(100)));
    assert!(range.contains(&[36, 20, 0], Some(100)));
    assert!(!range.contains(&[34, 20, 0], Some(0)));
}

#[test]
fn not_a_number_is_in_no_range() {
    let widest = IntensityFilter::from(IntensityFilterConfig {
        min: i32::MIN,
        max: None,
    });
    assert!(!widest.contains(Some(NOT_A_NUMBER)));
    assert!(widest.contains(Some(i32::MIN + 1)));
    assert!(widest.contains(None));
}
