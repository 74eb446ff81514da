use point_filter::normal_form::{Cnf, ConjProduct, DisjSum, Dnf, Term};
use point_filter::parser::{parse_str, BinOp, Expr, Ident};

fn truth(assignment: &[(&str, bool)], name: &str) -> bool {
    for (key, value) in assignment {
        if *key == name {
            return *value;
        }
    }
    panic!("no value for {}", name);
}

fn eval_expr(expr: &Expr, assignment: &[(&str, bool)]) -> bool {
    match expr {
        Expr::Ident(ident) => truth(assignment, &ident.0),
        Expr::UnaryOp(inner) => !eval_expr(inner, assignment),
        Expr::BinOp(node) => match node.op {
            BinOp::Mul => eval_expr(&node.lhs, assignment) && eval_expr(&node.rhs, assignment),
            BinOp::Add => eval_expr(&node.lhs, assignment) || eval_expr(&node.rhs, assignment),
        },
    }
}

fn eval_term(term: &Term, assignment: &[(&str, bool)]) -> bool {
    term.invert ^ truth(assignment, &term.ident.0)
}

fn eval_dnf(dnf: &Dnf, assignment: &[(&str, bool)]) -> bool {
    dnf.0
        .iter()
        .any(|product| product.0.iter().all(|term| eval_term(term, assignment)))
}

fn eval_cnf(cnf: &Cnf, assignment: &[(&str, bool)]) -> bool {
    cnf.0
        .iter()
        .all(|sum| sum.0.iter().any(|term| eval_term(term, assignment)))
}

fn dnf_of(text: &str) -> Dnf {
    Dnf::from_program(parse_str(text).unwrap())
}

fn cnf_of(text: &str) -> Cnf {
    Cnf::from_program(parse_str(text).unwrap())
}

fn term(name: &str, invert: bool) -> Term {
    Term {
        ident: Ident(name.to_string()),
        invert,
    }
}

fn check_all_assignments(text: &str, names: &[&str]) {
    let program = parse_str(text).unwrap();
    let dnf = dnf_of(text);
    let cnf = cnf_of(text);
    for bits in 0..(1u32 << names.len()) {
        let assignment: Vec<(&str, bool)> = names
            .iter()
            .enumerate()
            .map(|(i, name)| (*name, bits & (1 << i) != 0))
            .collect();
        let want = eval_expr(&program.0, &assignment);
        assert_eq!(eval_dnf(&dnf, &assignment), want);
        assert_eq!(eval_cnf(&cnf, &assignment), want);
    }
    for product in &dnf.0 {
        assert!(!product.is_false());
        for pair in product.0.windows(2) {
            assert!(pair[0] < pair[1]);
        }
    }
    for sum in &cnf.0 {
        assert!(!sum.is_true());
        for pair in sum.0.windows(2) {
            assert!(pair[0] < pair[1]);
        }
    }
}

#[test]
fn dnf_identities() {
    let dnf = dnf_of("a * (b + c)");
    assert!(eval_dnf(&dnf, &[("a", true), ("b", false), ("c", true)]));
    assert!(!eval_dnf(&dnf, &[("a", true), ("b", false), ("c", false)]));
}

#[test]
fn subtraction_sugar() {
    let dnf = dnf_of("a - b");
    assert!(eval_dnf(&dnf, &[("a", true), ("b", false)]));
    assert!(!eval_dnf(&dnf, &[("a", true), ("b", true)]));
    assert!(!eval_dnf(&dnf, &[("a", false), ("b", false)]));
}

#[test]
fn normal_forms_agree_with_the_expression() {
    check_all_assignments("a", &["a"]);
    check_all_assignments("!a", &["a"]);
    check_all_assignments("!!a", &["a"]);
    check_all_assignments("a * (b + c)", &["a", "b", "c"]);
    check_all_assignments("a - b", &["a", "b"]);
    check_all_assignments("a + z", &["a", "z"]);
    check_all_assignments("f - !a * !(b + c) * d + e", &["a", "b", "c", "d", "e", "f"]);
    check_all_assignments("!(a * b) + !(c + d)", &["a", "b", "c", "d"]);
    check_all_assignments("(a + b) * (c + d) * (a + !c)", &["a", "b", "c", "d"]);
    check_all_assignments("a * !a", &["a"]);
    check_all_assignments("a + !a", &["a"]);
    check_all_assignments("!(a * !a)", &["a"]);
    check_all_assignments("!(a + !a) + b", &["a", "b"]);
    check_all_assignments("(a - b) - (b - a)", &["a", "b"]);
}

#[test]
fn known_forms() {
    assert_eq!(dnf_of("a").0, vec![ConjProduct(vec![term("a", false)])]);
    assert_eq!(
        dnf_of("b * a").0,
        vec![ConjProduct(vec![term("a", false), term("b", false)])]
    );
    assert_eq!(
        dnf_of("a + b").0,
        vec![
            ConjProduct(vec![term("a", false)]),
            ConjProduct(vec![term("b", false)])
        ]
    );
    assert_eq!(
        dnf_of("a - b").0,
        vec![ConjProduct(vec![term("a", false), term("b", true)])]
    );
    assert_eq!(dnf_of("a * a").0, vec![ConjProduct(vec![term("a", false)])]);
    assert_eq!(
        dnf_of("a * (b + c)").0,
        vec![
            ConjProduct(vec![term("a", false), term("b", false)]),
            ConjProduct(vec![term("a", false), term("c", false)])
        ]
    );
    assert_eq!(
        cnf_of("a + b").0,
        vec![DisjSum(vec![term("a", false), term("b", false)])]
    );
}

#[test]
fn contradiction_has_no_product() {
    // No product is left: the form never holds.
    assert_eq!(dnf_of("a * !a").0, vec![]);
    // The negation of nothing is the empty product: it always holds.
    assert_eq!(dnf_of("!(a * !a)").0, vec![ConjProduct(vec![])]);
    assert_eq!(cnf_of("a + !a").0, vec![]);
    assert_eq!(cnf_of("!(a + !a)").0, vec![DisjSum(vec![])]);
}

#[test]
fn clash_is_found_in_either_order() {
    assert!(ConjProduct(vec![term("a", true), term("b", false), term("a", false)]).is_false());
    assert!(ConjProduct(vec![term("a", false), term("b", false), term("a", true)]).is_false());
    assert!(!ConjProduct(vec![term("a", true), term("b", false), term("a", true)]).is_false());
    assert!(!ConjProduct(vec![]).is_false());
    assert!(DisjSum(vec![term("x", true), term("x", false)]).is_true());
    assert!(!DisjSum(vec![term("x", true), term("y", false)]).is_true());
}

#[test]
fn inversion_flips_every_term() {
    assert_eq!(term("a", false).invert(), term("a", true));
    assert_eq!(term("a", true).invert(), term("a", false));
    assert_eq!(
        ConjProduct(vec![term("a", false), term("b", true)]).invert(),
        DisjSum(vec![term("a", true), term("b", false)])
    );
    assert_eq!(
        DisjSum(vec![term("a", false), term("b", true)]).invert(),
        ConjProduct(vec![term("a", true), term("b", false)])
    );
}

#[test]
fn conversion_takes_one_term_of_each_clause() {
    // (a + b) * (c + d), the choice from the last sum changing fastest.
    let cnf = Cnf(vec![
        DisjSum(vec![term("a", false), term("b", false)]),
        DisjSum(vec![term("c", false), term("d", false)]),
    ]);
    assert_eq!(
        Dnf::from_cnf(cnf).0,
        vec![
            ConjProduct(vec![term("a", false), term("c", false)]),
            ConjProduct(vec![term("a", false), term("d", false)]),
            ConjProduct(vec![term("b", false), term("c", false)]),
            ConjProduct(vec![term("b", false), term("d", false)]),
        ]
    );
    // No sum at all: the conjunction holds, and so does the empty product.
    assert_eq!(Dnf::from_cnf(Cnf(vec![])).0, vec![ConjProduct(vec![])]);
    // An empty sum never holds: no product is left.
    assert_eq!(
        Dnf::from_cnf(Cnf(vec![
            DisjSum(vec![term("a", false)]),
            DisjSum(vec![])
        ]))
        .0,
        vec![]
    );
    assert_eq!(Cnf::from_dnf(Dnf(vec![])).0, vec![DisjSum(vec![])]);
}

#[test]
fn terms_are_ordered_by_name_then_sign() {
    assert!(term("a", false).precedes(&term("a", true)));
    assert!(!term("a", true).precedes(&term("a", false)));
    assert!(term("a", true).precedes(&term("b", false)));
    assert!(term("a", false).precedes(&term("ab", false)));
    assert!(term("B", false).precedes(&term("a", false)));
    assert!(!term("a", false).precedes(&term("a", false)));
    assert!(term("a", false).same_as(&term("a", false)));
    assert!(!term("a", false).same_as(&term("a", true)));
}

#[test]
fn forms_as_text() {
    assert_eq!(term("a", false).to_string(), "a");
    assert_eq!(term("a", true).to_string(), "!a");
    assert_eq!(
        ConjProduct(vec![term("a", false), term("b", true), term("c", false)]).to_string(),
        "a * !b * c"
    );
    assert_eq!(ConjProduct(vec![]).to_string(), "");
    assert_eq!(DisjSum(vec![term("a", true)]).to_string(), "!a");
    assert_eq!(
        DisjSum(vec![term("a", false), term("b", false)]).to_string(),
        "a + b"
    );
    assert_eq!(dnf_of("a * (b + c) - d").to_string(), "a * b * !d + a * c * !d");
    assert_eq!(dnf_of("a * !a").to_string(), "");
    assert_eq!(cnf_of("a * (b + c) - d").to_string(), "(a) * (b + c) * (!d)");
    assert_eq!(cnf_of("a + b * c").to_string(), "(a + b) * (a + c)");
}

#[test]
fn pairwise_conjunction() {
    let lhs = dnf_of("a + b");
    let rhs = dnf_of("c + d");
    assert_eq!(lhs.conj_with(rhs).to_string(), "a * c + a * d + b * c + b * d");
    let lhs = cnf_of("a * b");
    let rhs = cnf_of("c * d");
    assert_eq!(
        lhs.disj_with(rhs).to_string(),
        "(a + c) * (a + d) * (b + c) * (b + d)"
    );
    assert_eq!(dnf_of("a + b").disj_with(dnf_of("c")).to_string(), "a + b + c");
    assert_eq!(dnf_of("a + b").invert().to_string(), "!a * !b");
    assert_eq!(dnf_of("a * b").invert().to_string(), "!a + !b");
    assert_eq!(cnf_of("a * b").invert().to_string(), "(!a + !b)");
}
