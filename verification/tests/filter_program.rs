use point_filter::filter_program::{FilterProgram, RuleError, SerializedFilterProgram};
use point_filter::item::{
    IntensityFilter, IntensityFilterConfig, Item, PlanarBoxFilter, PlanarBoxFilterConfig,
};
use point_filter::parser::{parse_str, ParseError};

// An item that holds exactly the points whose intensity is at least 1: a
// point of intensity 1 makes the name true, one of intensity 0 false.
fn flag() -> Item {
    Item::Intensity(IntensityFilter::from(IntensityFilterConfig {
        min: 1,
        max: None,
    }))
}

// A box that holds the points with x between `low` and `high`.
fn slab(low: i32, high: i32) -> Item {
    Item::Box(
        PlanarBoxFilter::try_from(PlanarBoxFilterConfig {
            xy: [(low + high) / 2, 0],
            wh: [(high - low) as u32, 1000],
            z_min: None,
            z_max: None,
            heading: [1, 0],
        })
        .unwrap(),
    )
}

fn named(name: &str, item: Item) -> (String, Item) {
    (name.to_string(), item)
}

// a holds x in 0..=10, b holds x in 20..=30, c holds x in 5..=25.
fn abc() -> Vec<(String, Item)> {
    vec![
        named("a", slab(0, 10)),
        named("b", slab(20, 30)),
        named("c", slab(4, 26)),
    ]
}

#[test]
fn rule_follows_the_expression() {
    let engine = FilterProgram::parse("a * (b + c)", abc()).unwrap();
    // a true, b false, c true
    assert!(engine.contains(&[6, 0, 0], None));
    // a true, b false, c false
    assert!(!engine.contains(&[2, 0, 0], None));
    // a false, b true, c true
    assert!(!engine.contains(&[22, 0, 0], None));
}

#[test]
fn subtraction_in_rules() {
    let engine = FilterProgram::parse("c - a", abc()).unwrap();
    assert!(engine.contains(&[12, 0, 0], None));
    assert!(!engine.contains(&[6, 0, 0], None));
    assert!(!engine.contains(&[40, 0, 0], None));
}

#[test]
fn undefined_identifier() {
    let items = vec![named("a", slab(0, 10)), named("b", slab(20, 30))];
    assert_eq!(
        FilterProgram::parse("a + z", items).err(),
        Some(RuleError::UndefinedItem("z".to_string()))
    );
}

#[test]
fn first_undefined_name_is_reported() {
    let items = vec![named("a", slab(0, 10))];
    assert_eq!(
        FilterProgram::parse("a * (y + !x) - z", items).err(),
        Some(RuleError::UndefinedItem("y".to_string()))
    );
    let config = SerializedFilterProgram {
        program: parse_str("!(q * a)").unwrap(),
        items: vec![named("a", slab(0, 10))],
    };
    assert_eq!(
        config.check_program(&config.program),
        Err("q".to_string())
    );
    assert_eq!(config.check_expr(&parse_str("a").unwrap().0), Ok(()));
}

#[test]
fn malformed_rule_is_refused_before_names_are_looked_up() {
    assert_eq!(
        FilterProgram::parse("z +", abc()).err(),
        Some(RuleError::Parse(ParseError::Malformed))
    );
    assert_eq!(
        FilterProgram::parse("z ? a", abc()).err(),
        Some(RuleError::Parse(ParseError::UnknownToken))
    );
}

#[test]
fn later_entry_of_a_name_counts() {
    let items = vec![named("a", slab(0, 10)), named("a", slab(20, 30))];
    let engine = FilterProgram::parse("a", items).unwrap();
    assert!(engine.contains(&[25, 0, 0], None));
    assert!(!engine.contains(&[5, 0, 0], None));
}

#[test]
fn intensity_items_look_at_the_intensity() {
    let items = vec![named("near", slab(0, 10)), named("bright", flag())];
    let engine = FilterProgram::parse("near * bright", items).unwrap();
    assert!(engine.contains(&[5, 0, 0], Some(1)));
    assert!(!engine.contains(&[5, 0, 0], Some(0)));
    assert!(engine.contains(&[5, 0, 0], None));
    assert!(!engine.contains(&[15, 0, 0], Some(1)));
}

#[test]
fn empty_form_is_false_and_empty_product_is_true() {
    let never = FilterProgram::parse("a * !a", abc()).unwrap();
    assert!(!never.contains(&[5, 0, 0], None));
    assert_eq!(never.evaluate(&[5, 0, 0], None).consulted, 0);
    let always = FilterProgram::parse("!(a * !a)", abc()).unwrap();
    assert!(always.contains(&[5, 0, 0], None));
    assert!(always.contains(&[50, 0, 0], None));
    assert_eq!(always.evaluate(&[5, 0, 0], None).consulted, 0);
}

#[test]
fn evaluation_stops_when_the_result_is_known() {
    // Products in order: a*b, a*c (terms sorted by name).
    let engine = FilterProgram::parse("a * (b + c)", abc()).unwrap();
    // a fails: one look at each of the two products.
    let far = engine.evaluate(&[50, 0, 0], None);
    assert!(!far.verdict);
    assert_eq!(far.consulted, 2);
    // a holds, b fails, then a and c hold.
    let both = engine.evaluate(&[6, 0, 0], None);
    assert!(both.verdict);
    assert_eq!(both.consulted, 4);

    // The first product holds: the second is not looked at.
    let either = FilterProgram::parse("a + b + c", abc()).unwrap();
    let first = either.evaluate(&[2, 0, 0], None);
    assert!(first.verdict);
    assert_eq!(first.consulted, 1);
    let last = either.evaluate(&[15, 0, 0], None);
    assert!(last.verdict);
    assert_eq!(last.consulted, 3);
    let none = either.evaluate(&[50, 0, 0], None);
    assert!(!none.verdict);
    assert_eq!(none.consulted, 3);
}

#[test]
fn rule_round_trip() {
    let engine = FilterProgram::parse("a - b * !c", abc()).unwrap();
    let config = SerializedFilterProgram::from(engine);
    assert_eq!(config.program.to_string(), "(a) * (!((b) * (!(c))))");
    assert_eq!(config.items, abc());
    let text = config.program.to_string();
    let rebuilt = FilterProgram::parse(&text, config.items).unwrap();
    assert_eq!(
        rebuilt,
        FilterProgram::parse("a - b * !c", abc()).unwrap()
    );
}
