//! The rule engine: a filter expression over named items, compiled to
//! disjunctive normal form and evaluated on points.

use crate::form_logic::{all_hold, dnf_holds, holds, is_dnf_of, literal_holds, mentions, names_in};
use crate::item::{item_contains, Item};
use crate::normal_form::{Dnf, Literal, Term};
use crate::parser::{parse_str, parsed, BinOp, Expr, ExprBinOp, Formula, Ident, ParseError, Program};
use vstd::prelude::*;

verus! {

/// Why a rule engine cannot be built.
#[derive(Debug, Clone, PartialEq, Eq)]
pub enum RuleError {
    /// The expression is not in the language.
    Parse(ParseError),
    /// The expression names an item that is not in the table: the first
    /// such name, reading the expression from left to right.
    UndefinedItem(String),
}

/// The settings of a rule engine: the expression, and the items by name.
/// Where a name stands twice, the later entry counts.
#[derive(Debug, PartialEq, Eq)]
pub struct SerializedFilterProgram {
    pub program: Program,
    pub items: Vec<(String, Item)>,
}

/// A rule engine.
#[derive(Debug, PartialEq, Eq)]
pub struct FilterProgram {
    dnf: Dnf,
    program: Program,
    items: Vec<(String, Item)>,
}

/// What evaluating a rule on a point gave, and how many item predicates
/// were asked on the way.
#[derive(Debug, Clone, Copy, PartialEq, Eq)]
pub struct Evaluation {
    pub verdict: bool,
    pub consulted: u128,
}

/// The item that a table gives a name; of several entries the last.
pub open spec fn lookup(entries: Seq<(String, Item)>, name: Seq<char>) -> Option<Item>
    decreases entries.len(),
{
    if entries.len() == 0 {
        None
    } else if entries.last().0@ == name {
        Some(entries.last().1)
    } else {
        lookup(entries.drop_last(), name)
    }
}

/// Whether every item of a table is in order.
pub open spec fn items_wf(entries: Seq<(String, Item)>) -> bool {
    forall|i: int| 0 <= i < entries.len() ==> (#[trigger] entries[i]).1.wf()
}

/// The first name, reading from left to right, that a formula mentions
/// and the table does not hold.
pub open spec fn first_undefined(formula: Formula, entries: Seq<(String, Item)>) -> Option<
    Seq<char>,
>
    decreases formula,
{
    match formula {
        Formula::Var(name) => if lookup(entries, name) is Some {
            None
        } else {
            Some(name)
        },
        Formula::Not(inner) => first_undefined(*inner, entries),
        Formula::And(lhs, rhs) => match first_undefined(*lhs, entries) {
            Some(name) => Some(name),
            None => first_undefined(*rhs, entries),
        },
        Formula::Or(lhs, rhs) => match first_undefined(*lhs, entries) {
            Some(name) => Some(name),
            None => first_undefined(*rhs, entries),
        },
    }
}

/// The truth value that a point gives each name: whether the item of that
/// name holds the point. A name without item is false.
pub open spec fn truth_at(entries: Seq<(String, Item)>, point: [i32; 3], intensity: Option<i32>)
    -> spec_fn(Seq<char>) -> bool {
    |name: Seq<char>|
        match lookup(entries, name) {
            Some(item) => item_contains(item, point, intensity),
            None => false,
        }
}

/// The number of literals of a product that are looked at from position
/// `from` on: all up to the first that fails, and that one.
pub open spec fn consulted_in(
    product: Seq<Literal>,
    from: int,
    truth: spec_fn(Seq<char>) -> bool,
) -> nat
    decreases product.len() - from,
{
    if from < 0 || from >= product.len() {
        0
    } else if literal_holds(product[from], truth) {
        1 + consulted_in(product, from + 1, truth)
    } else {
        1
    }
}

/// The number of literals that are looked at from product `from` on: in
/// every product up to the first that holds, and in that one. No literal
/// is looked at once its product is known to fail, and no product once
/// one is known to hold.
pub open spec fn consulted(
    products: Seq<Seq<Literal>>,
    from: int,
    truth: spec_fn(Seq<char>) -> bool,
) -> nat
    decreases products.len() - from,
{
    if from < 0 || from >= products.len() {
        0
    } else if all_hold(products[from], truth) {
        consulted_in(products[from], 0, truth)
    } else {
        consulted_in(products[from], 0, truth) + consulted(products, from + 1, truth)
    }
}

/// A formula without undefined name mentions only names of the table.
pub proof fn lemma_all_defined(formula: Formula, entries: Seq<(String, Item)>, name: Seq<char>)
    requires
        first_undefined(formula, entries) is None,
        mentions(formula, name),
    ensures
        lookup(entries, name) is Some,
    decreases formula,
{
    match formula {
        Formula::Var(_) => {},
        Formula::Not(inner) => {
            lemma_all_defined(*inner, entries, name);
        },
        Formula::And(lhs, rhs) => {
            if mentions(*lhs, name) {
                lemma_all_defined(*lhs, entries, name);
            } else {
                lemma_all_defined(*rhs, entries, name);
            }
        },
        Formula::Or(lhs, rhs) => {
            if mentions(*lhs, name) {
                lemma_all_defined(*lhs, entries, name);
            } else {
                lemma_all_defined(*rhs, entries, name);
            }
        },
    }
}

/// An item of a table in order is in order.
proof fn lemma_lookup_wf(entries: Seq<(String, Item)>, name: Seq<char>)
    requires
        items_wf(entries),
        lookup(entries, name) is Some,
    ensures
        lookup(entries, name)->0.wf(),
    decreases entries.len(),
{
    if entries.len() > 0 && entries.last().0@ != name {
        assert forall|i: int| 0 <= i < entries.drop_last().len() implies (
        #[trigger] entries.drop_last()[i]).1.wf() by {
            assert(entries.drop_last()[i] == entries[i]);
        }
        lemma_lookup_wf(entries.drop_last(), name);
    }
}

/// The item that the table gives a name.
fn find_item(items: &Vec<(String, Item)>, name: &String) -> (r: Option<Item>)
    ensures
        r == lookup(items@, name@),
{
    let mut i: usize = items.len();
    assert(items@.take(i as int) =~= items@);
    while i > 0
        invariant
            i <= items.len(),
            lookup(items@, name@) == lookup(items@.take(i as int), name@),
        decreases i,
    {
        i -= 1;
        assert(items@.take(i + 1).drop_last() =~= items@.take(i as int));
        if items[i].0 == *name {
            return Some(items[i].1);
        }
    }
    None
}

impl Expr {
    /// A copy of the expression.
    pub fn duplicate(&self) -> (r: Expr)
        ensures
            r@ == self@,
        decreases self,
    {
        match self {
            Expr::Ident(ident) => Expr::Ident(Ident(ident.0.clone())),
            Expr::UnaryOp(inner) => Expr::UnaryOp(Box::new(inner.duplicate())),
            Expr::BinOp(node) => Expr::BinOp(
                ExprBinOp {
                    op: node.op,
                    lhs: Box::new(node.lhs.duplicate()),
                    rhs: Box::new(node.rhs.duplicate()),
                },
            ),
        }
    }
}

impl Program {
    /// A copy of the program.
    pub fn duplicate(&self) -> (r: Program)
        ensures
            r@ == self@,
    {
        Program(self.0.duplicate())
    }
}

impl SerializedFilterProgram {
    /// Whether the table holds every name of the program; if not, the
    /// first name it lacks.
    pub fn check_program(&self, program: &Program) -> (r: Result<(), String>)
        ensures
            match r {
                Ok(_) => first_undefined(program@, self.items@) is None,
                Err(name) => first_undefined(program@, self.items@) == Some(name@),
            },
    {
        self.check_expr(&program.0)
    }

    /// Whether the table holds every name of the expression; if not, the
    /// first name it lacks.
    pub fn check_expr(&self, expr: &Expr) -> (r: Result<(), String>)
        ensures
            match r {
                Ok(_) => first_undefined(expr@, self.items@) is None,
                Err(name) => first_undefined(expr@, self.items@) == Some(name@),
            },
        decreases expr,
    {
        match expr {
            Expr::Ident(ident) => self.check_ident(ident),
            Expr::UnaryOp(inner) => self.check_expr(inner),
            Expr::BinOp(node) => {
                match self.check_expr(&node.lhs) {
                    Err(name) => Err(name),
                    Ok(_) => self.check_expr(&node.rhs),
                }
            },
        }
    }

    /// Whether the table holds the name.
    pub fn check_ident(&self, ident: &Ident) -> (r: Result<(), String>)
        ensures
            match r {
                Ok(_) => lookup(self.items@, ident@) is Some,
                Err(name) => lookup(self.items@, ident@) is None && name@ == ident@,
            },
    {
        match find_item(&self.items, &ident.0) {
            Some(_) => Ok(()),
            None => Err(ident.to_string()),
        }
    }

    /// The settings of a rule engine.
    pub fn from(from: FilterProgram) -> (r: SerializedFilterProgram)
        ensures
            r.program@ == from.formula(),
            r.items@ == from.items(),
    {
        let FilterProgram { items, program, dnf: _ } = from;
        SerializedFilterProgram { program, items }
    }
}

impl FilterProgram {
    /// The formula of the rule.
    pub closed spec fn formula(&self) -> Formula {
        self.program@
    }

    /// The table of items.
    pub closed spec fn items(&self) -> Seq<(String, Item)> {
        self.items@
    }

    /// The compiled form of the rule.
    pub closed spec fn products(&self) -> Seq<Seq<Literal>> {
        self.dnf@
    }

    /// Whether the engine is in order: its compiled form is a normal form
    /// of its rule, the table holds every name of the rule, and the items
    /// are in order.
    pub closed spec fn wf(&self) -> bool {
        &&& is_dnf_of(self.dnf@, self.program@)
        &&& first_undefined(self.program@, self.items@) is None
        &&& items_wf(self.items@)
    }

    /// What being in order means.
    pub proof fn lemma_wf(&self)
        requires
            self.wf(),
        ensures
            is_dnf_of(self.products(), self.formula()),
            first_undefined(self.formula(), self.items()) is None,
            items_wf(self.items()),
    {
    }

    /// Builds the engine of a rule and a table. Fails exactly where the
    /// rule names an item that the table lacks, with the first such name.
    pub fn try_from(from: SerializedFilterProgram) -> (r: Result<FilterProgram, RuleError>)
        requires
            items_wf(from.items@),
        ensures
            match r {
                Ok(engine) => first_undefined(from.program@, from.items@) is None && engine.wf()
                    && engine.formula() == from.program@ && engine.items() == from.items@,
                Err(RuleError::UndefinedItem(name)) => first_undefined(from.program@, from.items@)
                    == Some(name@),
                Err(RuleError::Parse(_)) => false,
            },
    {
        match from.check_program(&from.program) {
            Err(name) => Err(RuleError::UndefinedItem(name)),
            Ok(_) => {
                let dnf = Dnf::from_program(from.program.duplicate());
                Ok(FilterProgram { dnf, items: from.items, program: from.program })
            },
        }
    }

    /// Builds the engine of a rule, given as text, and a table. A text
    /// that is not in the language is refused first.
    pub fn parse(text: &str, items: Vec<(String, Item)>) -> (r: Result<FilterProgram, RuleError>)
        requires
            items_wf(items@),
        ensures
            match r {
                Ok(engine) => parsed(text@) == Ok::<Formula, ParseError>(engine.formula())
                    && first_undefined(engine.formula(), items@) is None && engine.wf()
                    && engine.items() == items@,
                Err(RuleError::Parse(e)) => parsed(text@) == Err::<Formula, ParseError>(e),
                Err(RuleError::UndefinedItem(name)) => parsed(text@) is Ok && first_undefined(
                    parsed(text@)->Ok_0,
                    items@,
                ) == Some(name@),
            },
    {
        match parse_str(text) {
            Err(e) => Err(RuleError::Parse(e)),
            Ok(program) => FilterProgram::try_from(SerializedFilterProgram { program, items }),
        }
    }

    /// Whether one term holds at a point.
    fn term_holds(&self, term: &Term, point: &[i32; 3], intensity: Option<i32>) -> (r: bool)
        requires
            self.wf(),
            mentions(self.program@, term@.name),
        ensures
            r == literal_holds(term@, truth_at(self.items@, *point, intensity)),
    {
        proof {
            lemma_all_defined(self.program@, self.items@, term@.name);
            lemma_lookup_wf(self.items@, term@.name);
        }
        let yes = match find_item(&self.items, &term.ident.0) {
            Some(item) => item.contains(point, intensity),
            None => false,
        };
        term.invert ^ yes
    }

    /// Evaluates the rule at a point, product by product and term by
    /// term, and stops as soon as the result is known. Counts the item
    /// predicates asked.
    pub fn evaluate(&self, point: &[i32; 3], intensity: Option<i32>) -> (r: Evaluation)
        requires
            self.wf(),
        ensures
            r.verdict == holds(self.formula(), truth_at(self.items(), *point, intensity)),
            r.consulted == consulted(
                self.products(),
                0,
                truth_at(self.items(), *point, intensity),
            ),
    {
        let ghost truth = truth_at(self.items@, *point, intensity);
        let ghost products = self.dnf@;
        let mut consulted_so_far: u128 = 0;
        let mut i: usize = 0;
        while i < self.dnf.0.len()
            invariant
                self.wf(),
                truth == truth_at(self.items@, *point, intensity),
                products == self.dnf@,
                i <= self.dnf.0.len(),
                forall|k: int| 0 <= k < i ==> !all_hold(#[trigger] products[k], truth),
                consulted_so_far + consulted(products, i as int, truth) == consulted(
                    products,
                    0,
                    truth,
                ),
                consulted_so_far <= i * 0x1_0000_0000_0000_0000,
            decreases self.dnf.0.len() - i,
        {
            let product = &self.dnf.0[i];
            let ghost list = product@;
            assert(list == products[i as int]);
            let mut j: usize = 0;
            let mut failed = false;
            let ghost start = consulted_so_far;
            while j < product.0.len() && !failed
                invariant
                    self.wf(),
                    truth == truth_at(self.items@, *point, intensity),
                    products == self.dnf@,
                    i < self.dnf.0.len(),
                    list == product@,
                    list == products[i as int],
                    j <= product.0.len(),
                    !failed ==> forall|k: int| 0 <= k < j ==> literal_holds(
                        #[trigger] list[k],
                        truth,
                    ),
                    failed ==> !all_hold(list, truth),
                    !failed ==> consulted_so_far + consulted_in(list, j as int, truth) == start
                        + consulted_in(list, 0, truth),
                    failed ==> consulted_so_far == start + consulted_in(list, 0, truth),
                    consulted_so_far == start + j,
                    start <= i * 0x1_0000_0000_0000_0000,
                decreases product.0.len() - j + (if failed { 0int } else { 1int }),
            {
                let term = &product.0[j];
                assert(term@ == list[j as int]);
                assert(mentions(self.program@, term@.name)) by {
                    assert(names_in(self.program@).contains(products[i as int][j as int].name));
                }
                let ok = self.term_holds(term, point, intensity);
                consulted_so_far = consulted_so_far + 1;
                if !ok {
                    failed = true;
                }
                j += 1;
            }
            if !failed {
                assert(all_hold(list, truth));
                assert(consulted_in(list, j as int, truth) == 0);
                assert(dnf_holds(products, truth));
                return Evaluation { verdict: true, consulted: consulted_so_far };
            }
            i += 1;
        }
        assert(!dnf_holds(products, truth));
        Evaluation { verdict: false, consulted: consulted_so_far }
    }

    /// Whether the rule holds at a point: whether its expression holds when
    /// each name is given the answer of its item.
    pub fn contains(&self, point: &[i32; 3], intensity: Option<i32>) -> (r: bool)
        requires
            self.wf(),
        ensures
            r == holds(self.formula(), truth_at(self.items(), *point, intensity)),
    {
        self.evaluate(point, intensity).verdict
    }
}

/// The older name of the rule engine.
pub type FilterRule = FilterProgram;

/// The settings of an engine in order name no item that the table lacks,
/// and an engine in order with the same settings holds the same points:
/// building an engine from the settings of an engine gives an engine that
/// decides as the first one does.
pub proof fn lemma_rule_round_trip(
    engine: FilterProgram,
    rebuilt: FilterProgram,
    point: [i32; 3],
    intensity: Option<i32>,
)
    requires
        engine.wf(),
        rebuilt.wf(),
        rebuilt.formula() == engine.formula(),
        rebuilt.items() == engine.items(),
    ensures
        first_undefined(engine.formula(), engine.items()) is None,
        items_wf(engine.items()),
        holds(rebuilt.formula(), truth_at(rebuilt.items(), point, intensity)) == holds(
            engine.formula(),
            truth_at(engine.items(), point, intensity),
        ),
        dnf_holds(rebuilt.products(), truth_at(rebuilt.items(), point, intensity)) == dnf_holds(
            engine.products(),
            truth_at(engine.items(), point, intensity),
        ),
{
}

} // verus!
