use point_filter::combinators::{All, Any, Not};
use point_filter::filter_program::FilterProgram;
use point_filter::item::{Item, PlanarBoxFilter, PlanarBoxFilterConfig};

fn slab(low: i32, high: i32) -> Item {
    Item::Box(
        PlanarBoxFilter::try_from(PlanarBoxFilterConfig {
            xy: [(low + high) / 2, 0],
            wh: [(high - low) as u32, 1000],
            z_min: None,
            z_max: None,
            heading: [1, 0],
        })
        .unwrap(),
    )
}

fn within(low: i32, high: i32) -> FilterProgram {
    FilterProgram::parse("s", vec![("s".to_string(), slab(low, high))]).unwrap()
}

#[test]
fn all_needs_every_engine() {
    let all = All {
        filters: vec![within(0, 20), within(10, 30)],
    };
    assert!(all.contains(&[15, 0, 0], None));
    assert!(!all.contains(&[5, 0, 0], None));
    assert!(!all.contains(&[25, 0, 0], None));
    assert!(All { filters: vec![] }.contains(&[5, 0, 0], None));
}

#[test]
fn any_needs_one_engine() {
    let any = Any {
        filters: vec![within(0, 20), within(10, 30)],
    };
    assert!(any.contains(&[5, 0, 0], None));
    assert!(any.contains(&[25, 0, 0], None));
    assert!(!any.contains(&[35, 0, 0], None));
    assert!(!Any { filters: vec![] }.contains(&[5, 0, 0], None));
}

#[test]
fn not_turns_the_answer() {
    let not = Not {
        filter: Box::new(within(0, 20)),
    };
    assert!(!not.contains(&[5, 0, 0], None));
    assert!(not.contains(&[25, 0, 0], None));
}
