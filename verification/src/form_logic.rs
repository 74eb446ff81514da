//! What normal forms mean: when a formula, a clause and a normal form
//! hold under an assignment of truth values to names, and what relates a
//! normal form to the formula or the form it was made from.

use crate::choices::choices;
use crate::normal_form::Literal;
use crate::parser::Formula;
use crate::text::precedes;
use vstd::prelude::*;

verus! {

/// Whether a formula holds when each name has the truth value that
/// `truth` gives it.
pub open spec fn holds(formula: Formula, truth: spec_fn(Seq<char>) -> bool) -> bool
    decreases formula,
{
    match formula {
        Formula::Var(name) => truth(name),
        Formula::Not(inner) => !holds(*inner, truth),
        Formula::And(lhs, rhs) => holds(*lhs, truth) && holds(*rhs, truth),
        Formula::Or(lhs, rhs) => holds(*lhs, truth) || holds(*rhs, truth),
    }
}

/// Whether a literal holds: its name is true, unless it is negated.
pub open spec fn literal_holds(literal: Literal, truth: spec_fn(Seq<char>) -> bool) -> bool {
    truth(literal.name) != literal.invert
}

/// Whether every literal of a list holds. The empty list holds.
pub open spec fn all_hold(list: Seq<Literal>, truth: spec_fn(Seq<char>) -> bool) -> bool {
    forall|i: int| 0 <= i < list.len() ==> literal_holds(#[trigger] list[i], truth)
}

/// Whether some literal of a list holds. The empty list does not.
pub open spec fn some_holds(list: Seq<Literal>, truth: spec_fn(Seq<char>) -> bool) -> bool {
    exists|i: int| 0 <= i < list.len() && literal_holds(#[trigger] list[i], truth)
}

/// Whether a disjunction of products holds. With no product it does not.
pub open spec fn dnf_holds(products: Seq<Seq<Literal>>, truth: spec_fn(Seq<char>) -> bool) -> bool {
    exists|i: int| 0 <= i < products.len() && all_hold(#[trigger] products[i], truth)
}

/// Whether a conjunction of sums holds. With no sum it does.
pub open spec fn cnf_holds(sums: Seq<Seq<Literal>>, truth: spec_fn(Seq<char>) -> bool) -> bool {
    forall|i: int| 0 <= i < sums.len() ==> some_holds(#[trigger] sums[i], truth)
}

/// Whether a list holds a name both plain and negated.
pub open spec fn clashes(list: Seq<Literal>) -> bool {
    exists|i: int, j: int|
        0 <= i < list.len() && 0 <= j < list.len() && (#[trigger] list[i]).name == (
        #[trigger] list[j]).name && list[i].invert != list[j].invert
}

/// The order of literals: by name, and for one name the plain literal
/// before the negated one.
pub open spec fn literal_precedes(x: Literal, y: Literal) -> bool {
    precedes(x.name, y.name) || (x.name == y.name && !x.invert && y.invert)
}

/// Whether each literal of a list comes before all that follow it. Such a
/// list holds no literal twice.
pub open spec fn strictly_sorted(list: Seq<Literal>) -> bool {
    forall|i: int, j: int|
        0 <= i < j < list.len() ==> literal_precedes(#[trigger] list[i], #[trigger] list[j])
}

/// Whether two lists hold the same literals, in whatever order and number.
pub open spec fn same_literals(x: Seq<Literal>, y: Seq<Literal>) -> bool {
    forall|l: Literal| x.contains(l) <==> y.contains(l)
}

/// Whether a formula mentions a name.
pub open spec fn mentions(formula: Formula, name: Seq<char>) -> bool
    decreases formula,
{
    match formula {
        Formula::Var(var) => var == name,
        Formula::Not(inner) => mentions(*inner, name),
        Formula::And(lhs, rhs) => mentions(*lhs, name) || mentions(*rhs, name),
        Formula::Or(lhs, rhs) => mentions(*lhs, name) || mentions(*rhs, name),
    }
}

/// The same literals with each one's negation flipped.
pub open spec fn negated(list: Seq<Literal>) -> Seq<Literal> {
    list.map_values(|l: Literal| Literal { name: l.name, invert: !l.invert })
}

/// Whether every name in the clauses is one of `allowed`.
pub open spec fn named_within(clauses: Seq<Seq<Literal>>, allowed: Set<Seq<char>>) -> bool {
    forall|i: int, j: int|
        0 <= i < clauses.len() && 0 <= j < clauses[i].len() ==> allowed.contains(
            (#[trigger] clauses[i][j]).name,
        )
}

/// Whether every clause lists its literals in order, each once.
pub open spec fn sorted_clauses(clauses: Seq<Seq<Literal>>) -> bool {
    forall|i: int| 0 <= i < clauses.len() ==> strictly_sorted(#[trigger] clauses[i])
}

/// Whether no clause holds a name both plain and negated.
pub open spec fn clash_free(clauses: Seq<Seq<Literal>>) -> bool {
    forall|i: int| 0 <= i < clauses.len() ==> !clashes(#[trigger] clauses[i])
}

/// The names that a formula mentions.
pub open spec fn names_in(formula: Formula) -> Set<Seq<char>> {
    Set::new(|name: Seq<char>| mentions(formula, name))
}

/// Whether `products` is a disjunctive normal form of `formula`: the two
/// hold under the same assignments, every product is in order and free of
/// clashes, and no name occurs that the formula does not mention.
pub open spec fn is_dnf_of(products: Seq<Seq<Literal>>, formula: Formula) -> bool {
    &&& forall|truth: spec_fn(Seq<char>) -> bool| #[trigger]
        dnf_holds(products, truth) == holds(formula, truth)
    &&& sorted_clauses(products)
    &&& clash_free(products)
    &&& named_within(products, names_in(formula))
}

/// Whether `sums` is a conjunctive normal form of `formula`: the two hold
/// under the same assignments, every sum is in order and free of clashes,
/// and no name occurs that the formula does not mention.
pub open spec fn is_cnf_of(sums: Seq<Seq<Literal>>, formula: Formula) -> bool {
    &&& forall|truth: spec_fn(Seq<char>) -> bool| #[trigger]
        cnf_holds(sums, truth) == holds(formula, truth)
    &&& sorted_clauses(sums)
    &&& clash_free(sums)
    &&& named_within(sums, names_in(formula))
}

/// Each clause with every literal's negation flipped.
pub open spec fn negated_clauses(clauses: Seq<Seq<Literal>>) -> Seq<Seq<Literal>> {
    clauses.map_values(|c: Seq<Literal>| negated(c))
}

/// Whether `made` holds one clause for each way of choosing a literal
/// from every clause of `source`, in the order of [`choices`]: the chosen
/// literals, each once, in the order of literals.
pub open spec fn is_choice_form(made: Seq<Seq<Literal>>, source: Seq<Seq<Literal>>) -> bool {
    &&& made.len() == choices(source).len()
    &&& forall|k: int|
        0 <= k < made.len() ==> same_literals(#[trigger] made[k], choices(source)[k])
    &&& sorted_clauses(made)
}

/// Whether a clause holds the literals of some clause of `x` and some
/// clause of `y`, and no other.
pub open spec fn joins_a_pair(
    clause: Seq<Literal>,
    x: Seq<Seq<Literal>>,
    y: Seq<Seq<Literal>>,
) -> bool {
    exists|i: int, j: int|
        0 <= i < x.len() && 0 <= j < y.len() && #[trigger] same_literals(clause, x[i] + y[j])
}

/// The literals of clause `i` of `x` and of clause `j` of `y`.
pub open spec fn union_at(x: Seq<Seq<Literal>>, y: Seq<Seq<Literal>>, i: int, j: int) -> Seq<
    Literal,
> {
    x[i] + y[j]
}

/// Whether some clause of `made` holds the literals of `both`, and no
/// other.
pub open spec fn holds_clause_of(made: Seq<Seq<Literal>>, both: Seq<Literal>) -> bool {
    exists|k: int| 0 <= k < made.len() && #[trigger] same_literals(made[k], both)
}

/// Whether `made` holds, for each clause of `x` and each clause of `y`,
/// a clause with the literals of both, and nothing else.
pub open spec fn is_pairwise_union(
    made: Seq<Seq<Literal>>,
    x: Seq<Seq<Literal>>,
    y: Seq<Seq<Literal>>,
) -> bool {
    &&& forall|k: int| 0 <= k < made.len() ==> joins_a_pair(#[trigger] made[k], x, y)
    &&& forall|i: int, j: int|
        0 <= i < x.len() && 0 <= j < y.len() ==> holds_clause_of(
            made,
            #[trigger] union_at(x, y, i, j),
        )
}

} // verus!
