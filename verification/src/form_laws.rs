//! Laws of normal forms: what the steps of the compiler keep.

use crate::choices::{choices, is_choice, lemma_choices_complete, lemma_choices_sound};
use crate::form_logic::{
    all_hold, clash_free, clashes, cnf_holds, dnf_holds, holds_clause_of, is_pairwise_union,
    joins_a_pair, literal_holds, literal_precedes, named_within, negated, negated_clauses,
    same_literals, some_holds, sorted_clauses, strictly_sorted, union_at,
};
use crate::normal_form::Literal;
use crate::text::{
    lemma_precedes_irreflexive, lemma_precedes_total, lemma_precedes_transitive, precedes,
};
use vstd::prelude::*;

verus! {

/// The order of literals is strict and total: no literal comes before
/// itself, the order is transitive, and of two different literals one
/// comes before the other.
pub proof fn lemma_literal_order(x: Literal, y: Literal, z: Literal)
    ensures
        !literal_precedes(x, x),
        literal_precedes(x, y) && literal_precedes(y, z) ==> literal_precedes(x, z),
        x == y || literal_precedes(x, y) || literal_precedes(y, x),
{
    lemma_precedes_irreflexive(x.name);
    lemma_precedes_total(x.name, y.name);
    if literal_precedes(x, y) && literal_precedes(y, z) {
        if precedes(x.name, y.name) && precedes(y.name, z.name) {
            lemma_precedes_transitive(x.name, y.name, z.name);
        }
    }
}

/// A clause in order holds no literal twice.
pub proof fn lemma_sorted_holds_each_once(list: Seq<Literal>)
    requires
        strictly_sorted(list),
    ensures
        list.no_duplicates(),
{
    assert forall|i: int, j: int| 0 <= i < list.len() && 0 <= j < list.len() && i != j implies list[i]
        != list[j] by {
        lemma_literal_order(list[i], list[i], list[i]);
        if i < j {
            assert(literal_precedes(list[i], list[j]));
        } else {
            assert(literal_precedes(list[j], list[i]));
        }
    }
}

/// There is one way only to list given literals in order, each once.
pub proof fn lemma_order_is_unique(x: Seq<Literal>, y: Seq<Literal>)
    requires
        strictly_sorted(x),
        strictly_sorted(y),
        same_literals(x, y),
    ensures
        x == y,
    decreases x.len(),
{
    if x.len() == 0 {
        if y.len() > 0 {
            assert(y.contains(y[0]));
            assert(x.contains(y[0]));
        }
        assert(x =~= y);
    } else if y.len() == 0 {
        assert(x.contains(x[0]));
        assert(y.contains(x[0]));
    } else {
        // The first literal of each list comes before all others of both.
        assert(x.contains(x[0]));
        assert(y.contains(x[0]));
        let a = choose|a: int| 0 <= a < y.len() && y[a] == x[0];
        assert(y.contains(y[0]));
        assert(x.contains(y[0]));
        let b = choose|b: int| 0 <= b < x.len() && x[b] == y[0];
        lemma_literal_order(x[0], y[0], x[0]);
        if a > 0 {
            assert(literal_precedes(y[0], y[a]));
        }
        if b > 0 {
            assert(literal_precedes(x[0], x[b]));
        }
        assert(x[0] == y[0]);
        let xs = x.drop_first();
        let ys = y.drop_first();
        assert forall|l: Literal| xs.contains(l) <==> ys.contains(l) by {
            lemma_literal_order(x[0], l, x[0]);
            if xs.contains(l) {
                let i = choose|i: int| 0 <= i < xs.len() && xs[i] == l;
                assert(x[i + 1] == l);
                assert(literal_precedes(x[0], x[i + 1]));
                assert(x.contains(l));
                assert(y.contains(l));
                let j = choose|j: int| 0 <= j < y.len() && y[j] == l;
                assert(j > 0);
                assert(ys[j - 1] == l);
            }
            if ys.contains(l) {
                let i = choose|i: int| 0 <= i < ys.len() && ys[i] == l;
                assert(y[i + 1] == l);
                assert(literal_precedes(y[0], y[i + 1]));
                assert(y.contains(l));
                assert(x.contains(l));
                let j = choose|j: int| 0 <= j < x.len() && x[j] == l;
                assert(j > 0);
                assert(xs[j - 1] == l);
            }
        }
        assert forall|i: int, j: int| 0 <= i < j < xs.len() implies literal_precedes(
            #[trigger] xs[i],
            #[trigger] xs[j],
        ) by {
            assert(literal_precedes(x[i + 1], x[j + 1]));
        }
        assert forall|i: int, j: int| 0 <= i < j < ys.len() implies literal_precedes(
            #[trigger] ys[i],
            #[trigger] ys[j],
        ) by {
            assert(literal_precedes(y[i + 1], y[j + 1]));
        }
        lemma_order_is_unique(xs, ys);
        assert(x =~= seq![x[0]] + xs);
        assert(y =~= seq![y[0]] + ys);
    }
}

/// Lists with the same literals hold, as conjunctions and as disjunctions,
/// under the same assignments.
pub proof fn lemma_same_literals_hold(
    x: Seq<Literal>,
    y: Seq<Literal>,
    truth: spec_fn(Seq<char>) -> bool,
)
    requires
        same_literals(x, y),
    ensures
        all_hold(x, truth) == all_hold(y, truth),
        some_holds(x, truth) == some_holds(y, truth),
{
    assert forall|i: int| 0 <= i < x.len() implies y.contains(#[trigger] x[i]) by {
        assert(x.contains(x[i]));
    }
    assert forall|i: int| 0 <= i < y.len() implies x.contains(#[trigger] y[i]) by {
        assert(y.contains(y[i]));
    }
    if all_hold(x, truth) {
        assert forall|i: int| 0 <= i < y.len() implies literal_holds(#[trigger] y[i], truth) by {
            assert(x.contains(y[i]));
        }
    }
    if all_hold(y, truth) {
        assert forall|i: int| 0 <= i < x.len() implies literal_holds(#[trigger] x[i], truth) by {
            assert(y.contains(x[i]));
        }
    }
    if some_holds(x, truth) {
        let i = choose|i: int| 0 <= i < x.len() && literal_holds(#[trigger] x[i], truth);
        assert(y.contains(x[i]));
    }
    if some_holds(y, truth) {
        let i = choose|i: int| 0 <= i < y.len() && literal_holds(#[trigger] y[i], truth);
        assert(x.contains(y[i]));
    }
}

/// A list that holds a name both plain and negated never holds as a
/// conjunction and always holds as a disjunction.
pub proof fn lemma_clash_decides(list: Seq<Literal>, truth: spec_fn(Seq<char>) -> bool)
    requires
        clashes(list),
    ensures
        !all_hold(list, truth),
        some_holds(list, truth),
{
    let (i, j) = choose|i: int, j: int|
        0 <= i < list.len() && 0 <= j < list.len() && (#[trigger] list[i]).name == (
        #[trigger] list[j]).name && list[i].invert != list[j].invert;
    if literal_holds(list[i], truth) {
        assert(!literal_holds(list[j], truth));
    } else {
        assert(literal_holds(list[j], truth));
    }
}

/// Negating every literal of a list turns "all hold" into "none holds".
pub proof fn lemma_negated_holds(list: Seq<Literal>, truth: spec_fn(Seq<char>) -> bool)
    ensures
        all_hold(negated(list), truth) == !some_holds(list, truth),
        some_holds(negated(list), truth) == !all_hold(list, truth),
{
    let neg = negated(list);
    if some_holds(list, truth) {
        let i = choose|i: int| 0 <= i < list.len() && literal_holds(#[trigger] list[i], truth);
        assert(!literal_holds(neg[i], truth));
    }
    if !all_hold(neg, truth) {
        let i = choose|i: int| 0 <= i < neg.len() && !literal_holds(#[trigger] neg[i], truth);
        assert(literal_holds(list[i], truth));
    }
    if some_holds(neg, truth) {
        let i = choose|i: int| 0 <= i < neg.len() && literal_holds(#[trigger] neg[i], truth);
        assert(!literal_holds(list[i], truth));
    }
    if !all_hold(list, truth) {
        let i = choose|i: int| 0 <= i < list.len() && !literal_holds(#[trigger] list[i], truth);
        assert(literal_holds(neg[i], truth));
    }
}

/// Products made of the choices from the sums of a conjunction hold, as a
/// disjunction, exactly when the conjunction holds.
pub proof fn lemma_products_of_choices(
    sums: Seq<Seq<Literal>>,
    products: Seq<Seq<Literal>>,
    truth: spec_fn(Seq<char>) -> bool,
)
    requires
        products.len() == choices(sums).len(),
        forall|k: int|
            0 <= k < products.len() ==> same_literals(#[trigger] products[k], choices(sums)[k]),
    ensures
        dnf_holds(products, truth) == cnf_holds(sums, truth),
{
    if dnf_holds(products, truth) {
        let k = choose|k: int| 0 <= k < products.len() && all_hold(#[trigger] products[k], truth);
        let choice = choices(sums)[k];
        lemma_same_literals_hold(products[k], choice, truth);
        lemma_choices_sound(sums, k);
        assert forall|i: int| 0 <= i < sums.len() implies some_holds(
            #[trigger] sums[i],
            truth,
        ) by {
            assert(sums[i].contains(choice[i]));
            let at = choose|at: int| 0 <= at < sums[i].len() && sums[i][at] == choice[i];
            assert(literal_holds(choice[i], truth));
            assert(literal_holds(sums[i][at], truth));
        }
    }
    if cnf_holds(sums, truth) {
        let choice = Seq::new(
            sums.len(),
            |i: int|
                sums[i][choose|at: int|
                    0 <= at < sums[i].len() && literal_holds(#[trigger] sums[i][at], truth)],
        );
        assert forall|i: int| 0 <= i < sums.len() implies (#[trigger] sums[i]).contains(
            choice[i],
        ) && literal_holds(choice[i], truth) by {
            assert(some_holds(sums[i], truth));
            let at = choose|at: int|
                0 <= at < sums[i].len() && literal_holds(#[trigger] sums[i][at], truth);
            assert(sums[i][at] == choice[i]);
        }
        assert(is_choice(choice, sums));
        lemma_choices_complete(sums, choice);
        let k = choose|k: int| 0 <= k < choices(sums).len() && choices(sums)[k] == choice;
        assert(all_hold(choice, truth)) by {
            assert forall|i: int| 0 <= i < choice.len() implies literal_holds(
                #[trigger] choice[i],
                truth,
            ) by {
                assert(sums[i].contains(choice[i]));
            }
        }
        lemma_same_literals_hold(products[k], choice, truth);
    }
}

/// Sums made of the choices from the products of a disjunction hold, as a
/// conjunction, exactly when the disjunction holds.
pub proof fn lemma_sums_of_choices(
    products: Seq<Seq<Literal>>,
    sums: Seq<Seq<Literal>>,
    truth: spec_fn(Seq<char>) -> bool,
)
    requires
        sums.len() == choices(products).len(),
        forall|k: int|
            0 <= k < sums.len() ==> same_literals(#[trigger] sums[k], choices(products)[k]),
    ensures
        cnf_holds(sums, truth) == dnf_holds(products, truth),
{
    if dnf_holds(products, truth) {
        let i = choose|i: int| 0 <= i < products.len() && all_hold(#[trigger] products[i], truth);
        assert forall|k: int| 0 <= k < sums.len() implies some_holds(
            #[trigger] sums[k],
            truth,
        ) by {
            let choice = choices(products)[k];
            lemma_choices_sound(products, k);
            assert(products[i].contains(choice[i]));
            let at = choose|at: int| 0 <= at < products[i].len() && products[i][at] == choice[i];
            assert(literal_holds(products[i][at], truth));
            assert(literal_holds(choice[i], truth));
            lemma_same_literals_hold(sums[k], choice, truth);
        }
    } else {
        let choice = Seq::new(
            products.len(),
            |i: int|
                products[i][choose|at: int|
                    0 <= at < products[i].len() && !literal_holds(
                        #[trigger] products[i][at],
                        truth,
                    )],
        );
        assert forall|i: int| 0 <= i < products.len() implies (#[trigger] products[i]).contains(
            choice[i],
        ) && !literal_holds(choice[i], truth) by {
            assert(!all_hold(products[i], truth));
            let at = choose|at: int|
                0 <= at < products[i].len() && !literal_holds(
                    #[trigger] products[i][at],
                    truth,
                );
            assert(products[i][at] == choice[i]);
        }
        assert(is_choice(choice, products));
        lemma_choices_complete(products, choice);
        let k = choose|k: int| 0 <= k < choices(products).len() && choices(products)[k] == choice;
        assert(!some_holds(choice, truth)) by {
            if some_holds(choice, truth) {
                let i = choose|i: int|
                    0 <= i < choice.len() && literal_holds(#[trigger] choice[i], truth);
                assert(products[i].contains(choice[i]));
            }
        }
        lemma_same_literals_hold(sums[k], choice, truth);
        assert(!some_holds(sums[k], truth));
    }
}

/// Clauses made of the choices from other clauses name nothing new.
pub proof fn lemma_choices_named_within(
    source: Seq<Seq<Literal>>,
    made: Seq<Seq<Literal>>,
    allowed: Set<Seq<char>>,
)
    requires
        made.len() == choices(source).len(),
        forall|k: int|
            0 <= k < made.len() ==> same_literals(#[trigger] made[k], choices(source)[k]),
        named_within(source, allowed),
    ensures
        named_within(made, allowed),
{
    assert forall|k: int, j: int| 0 <= k < made.len() && 0 <= j < made[k].len() implies allowed.contains(
        (#[trigger] made[k][j]).name,
    ) by {
        let choice = choices(source)[k];
        assert(made[k].contains(made[k][j]));
        assert(choice.contains(made[k][j]));
        let i = choose|i: int| 0 <= i < choice.len() && choice[i] == made[k][j];
        lemma_choices_sound(source, k);
        assert(source[i].contains(choice[i]));
        let at = choose|at: int| 0 <= at < source[i].len() && source[i][at] == choice[i];
        assert(allowed.contains(source[i][at].name));
    }
}

/// Leaving out the products that clash changes nothing about when a
/// disjunction holds.
pub proof fn lemma_dnf_without_clashes(
    products: Seq<Seq<Literal>>,
    truth: spec_fn(Seq<char>) -> bool,
)
    ensures
        dnf_holds(products.filter(|p: Seq<Literal>| !clashes(p)), truth) == dnf_holds(
            products,
            truth,
        ),
{
    let pred = |p: Seq<Literal>| !clashes(p);
    let kept = products.filter(pred);
    if dnf_holds(kept, truth) {
        let k = choose|k: int| 0 <= k < kept.len() && all_hold(#[trigger] kept[k], truth);
        assert(kept.contains(kept[k]));
        products.lemma_filter_contains_rev(pred, kept[k]);
        let i = choose|i: int| 0 <= i < products.len() && products[i] == kept[k];
        assert(all_hold(products[i], truth));
    }
    if dnf_holds(products, truth) {
        let i = choose|i: int| 0 <= i < products.len() && all_hold(#[trigger] products[i], truth);
        if clashes(products[i]) {
            lemma_clash_decides(products[i], truth);
        }
        products.lemma_filter_contains(pred, i);
        let k = choose|k: int| 0 <= k < kept.len() && kept[k] == products[i];
        assert(all_hold(kept[k], truth));
    }
}

/// Leaving out the sums that clash changes nothing about when a
/// conjunction holds.
pub proof fn lemma_cnf_without_clashes(sums: Seq<Seq<Literal>>, truth: spec_fn(Seq<char>) -> bool)
    ensures
        cnf_holds(sums.filter(|s: Seq<Literal>| !clashes(s)), truth) == cnf_holds(sums, truth),
{
    let pred = |s: Seq<Literal>| !clashes(s);
    let kept = sums.filter(pred);
    if cnf_holds(sums, truth) {
        assert forall|k: int| 0 <= k < kept.len() implies some_holds(
            #[trigger] kept[k],
            truth,
        ) by {
            assert(kept.contains(kept[k]));
            sums.lemma_filter_contains_rev(pred, kept[k]);
            let i = choose|i: int| 0 <= i < sums.len() && sums[i] == kept[k];
            assert(some_holds(sums[i], truth));
        }
    }
    if cnf_holds(kept, truth) {
        assert forall|i: int| 0 <= i < sums.len() implies some_holds(
            #[trigger] sums[i],
            truth,
        ) by {
            if clashes(sums[i]) {
                lemma_clash_decides(sums[i], truth);
            } else {
                sums.lemma_filter_contains(pred, i);
                let k = choose|k: int| 0 <= k < kept.len() && kept[k] == sums[i];
                assert(some_holds(kept[k], truth));
            }
        }
    }
}

/// What is left after the clashing clauses are taken out is free of
/// clashes, and keeps the order and the names of what was there.
pub proof fn lemma_without_clashes_keeps(clauses: Seq<Seq<Literal>>, allowed: Set<Seq<char>>)
    ensures
        clash_free(clauses.filter(|c: Seq<Literal>| !clashes(c))),
        sorted_clauses(clauses) ==> sorted_clauses(clauses.filter(|c: Seq<Literal>| !clashes(c))),
        named_within(clauses, allowed) ==> named_within(
            clauses.filter(|c: Seq<Literal>| !clashes(c)),
            allowed,
        ),
{
    let pred = |c: Seq<Literal>| !clashes(c);
    let kept = clauses.filter(pred);
    assert forall|k: int| 0 <= k < kept.len() implies !clashes(#[trigger] kept[k]) && (
    sorted_clauses(clauses) ==> strictly_sorted(kept[k])) && (named_within(clauses, allowed)
        ==> forall|j: int| 0 <= j < kept[k].len() ==> allowed.contains((#[trigger] kept[k][j]).name)) by {
        assert(kept.contains(kept[k]));
        clauses.lemma_filter_contains_rev(pred, kept[k]);
        let i = choose|i: int| 0 <= i < clauses.len() && clauses[i] == kept[k];
        if named_within(clauses, allowed) {
            assert forall|j: int| 0 <= j < kept[k].len() implies allowed.contains(
                (#[trigger] kept[k][j]).name,
            ) by {
                assert(clauses[i][j] == kept[k][j]);
            }
        }
    }
}

/// De Morgan: the negated products of a disjunction, read as sums of a
/// conjunction, hold exactly when the disjunction does not, and the other
/// way round.
pub proof fn lemma_negated_clauses_hold(
    clauses: Seq<Seq<Literal>>,
    truth: spec_fn(Seq<char>) -> bool,
)
    ensures
        cnf_holds(negated_clauses(clauses), truth) == !dnf_holds(clauses, truth),
        dnf_holds(negated_clauses(clauses), truth) == !cnf_holds(clauses, truth),
{
    let neg = negated_clauses(clauses);
    assert forall|i: int| 0 <= i < clauses.len() implies all_hold(#[trigger] neg[i], truth)
        == !some_holds(clauses[i], truth) && some_holds(neg[i], truth) == !all_hold(
        clauses[i],
        truth,
    ) by {
        lemma_negated_holds(clauses[i], truth);
    }
    if dnf_holds(clauses, truth) {
        let i = choose|i: int| 0 <= i < clauses.len() && all_hold(#[trigger] clauses[i], truth);
        assert(!some_holds(neg[i], truth));
    }
    if !cnf_holds(neg, truth) {
        let i = choose|i: int| 0 <= i < neg.len() && !some_holds(#[trigger] neg[i], truth);
        assert(all_hold(clauses[i], truth));
    }
    if dnf_holds(neg, truth) {
        let i = choose|i: int| 0 <= i < neg.len() && all_hold(#[trigger] neg[i], truth);
        assert(!some_holds(clauses[i], truth));
    }
    if !cnf_holds(clauses, truth) {
        let i = choose|i: int| 0 <= i < clauses.len() && !some_holds(#[trigger] clauses[i], truth);
        assert(all_hold(neg[i], truth));
    }
}

/// Negation names nothing new.
pub proof fn lemma_negated_clauses_named_within(
    clauses: Seq<Seq<Literal>>,
    allowed: Set<Seq<char>>,
)
    requires
        named_within(clauses, allowed),
    ensures
        named_within(negated_clauses(clauses), allowed),
{
    let neg = negated_clauses(clauses);
    assert forall|i: int, j: int| 0 <= i < neg.len() && 0 <= j < neg[i].len() implies allowed.contains(
        (#[trigger] neg[i][j]).name,
    ) by {
        assert(neg[i][j].name == clauses[i][j].name);
    }
}

/// A disjunction of two lists of products holds when either list does;
/// a conjunction of two lists of sums holds when both lists do.
pub proof fn lemma_joined_clauses_hold(
    x: Seq<Seq<Literal>>,
    y: Seq<Seq<Literal>>,
    truth: spec_fn(Seq<char>) -> bool,
)
    ensures
        dnf_holds(x + y, truth) == (dnf_holds(x, truth) || dnf_holds(y, truth)),
        cnf_holds(x + y, truth) == (cnf_holds(x, truth) && cnf_holds(y, truth)),
{
    let both = x + y;
    if dnf_holds(x, truth) {
        let i = choose|i: int| 0 <= i < x.len() && all_hold(#[trigger] x[i], truth);
        assert(both[i] == x[i]);
    }
    if dnf_holds(y, truth) {
        let i = choose|i: int| 0 <= i < y.len() && all_hold(#[trigger] y[i], truth);
        assert(both[x.len() + i] == y[i]);
    }
    if dnf_holds(both, truth) {
        let i = choose|i: int| 0 <= i < both.len() && all_hold(#[trigger] both[i], truth);
        if i < x.len() {
            assert(both[i] == x[i]);
        } else {
            assert(both[i] == y[i - x.len()]);
        }
    }
    if cnf_holds(both, truth) {
        assert forall|i: int| 0 <= i < x.len() implies some_holds(#[trigger] x[i], truth) by {
            assert(both[i] == x[i]);
        }
        assert forall|i: int| 0 <= i < y.len() implies some_holds(#[trigger] y[i], truth) by {
            assert(both[x.len() + i] == y[i]);
        }
    }
    if cnf_holds(x, truth) && cnf_holds(y, truth) {
        assert forall|i: int| 0 <= i < both.len() implies some_holds(
            #[trigger] both[i],
            truth,
        ) by {
            if i < x.len() {
                assert(both[i] == x[i]);
            } else {
                assert(both[i] == y[i - x.len()]);
            }
        }
    }
}

/// Two lists of clauses joined keep the order within each clause and name
/// nothing new.
pub proof fn lemma_joined_clauses_keep(
    x: Seq<Seq<Literal>>,
    y: Seq<Seq<Literal>>,
    allowed: Set<Seq<char>>,
)
    ensures
        sorted_clauses(x) && sorted_clauses(y) ==> sorted_clauses(x + y),
        named_within(x, allowed) && named_within(y, allowed) ==> named_within(x + y, allowed),
{
    let both = x + y;
    assert forall|i: int| 0 <= i < both.len() implies both[i] == (if i < x.len() {
        x[i]
    } else {
        y[i - x.len()]
    }) by {}
    if sorted_clauses(x) && sorted_clauses(y) {
        assert forall|i: int| 0 <= i < both.len() implies strictly_sorted(#[trigger] both[i]) by {
            if i < x.len() {
                assert(both[i] == x[i]);
            } else {
                assert(both[i] == y[i - x.len()]);
            }
        }
    }
    if named_within(x, allowed) && named_within(y, allowed) {
        assert forall|i: int, j: int|
            0 <= i < both.len() && 0 <= j < both[i].len() implies allowed.contains(
            (#[trigger] both[i][j]).name,
        ) by {
            if i < x.len() {
                assert(both[i][j] == x[i][j]);
            } else {
                assert(both[i][j] == y[i - x.len()][j]);
            }
        }
    }
}

/// A normal form of one clause of one literal holds when the literal does.
pub proof fn lemma_single_literal(literal: Literal)
    ensures
        forall|truth: spec_fn(Seq<char>) -> bool| #[trigger]
            dnf_holds(seq![seq![literal]], truth) == literal_holds(literal, truth),
        forall|truth: spec_fn(Seq<char>) -> bool| #[trigger]
            cnf_holds(seq![seq![literal]], truth) == literal_holds(literal, truth),
        sorted_clauses(seq![seq![literal]]),
        forall|allowed: Set<Seq<char>>|
            allowed.contains(literal.name) ==> #[trigger] named_within(
                seq![seq![literal]],
                allowed,
            ),
{
    let clauses = seq![seq![literal]];
    assert(clauses[0][0] == literal);
    assert forall|truth: spec_fn(Seq<char>) -> bool| #[trigger]
        dnf_holds(clauses, truth) == literal_holds(literal, truth) by {
        if literal_holds(literal, truth) {
            assert(all_hold(clauses[0], truth));
        }
        if dnf_holds(clauses, truth) {
            let i = choose|i: int| 0 <= i < clauses.len() && all_hold(#[trigger] clauses[i], truth);
            assert(literal_holds(clauses[i][0], truth));
        }
    }
    assert forall|truth: spec_fn(Seq<char>) -> bool| #[trigger]
        cnf_holds(clauses, truth) == literal_holds(literal, truth) by {
        if literal_holds(literal, truth) {
            assert(some_holds(clauses[0], truth));
        }
        if cnf_holds(clauses, truth) {
            assert(some_holds(clauses[0], truth));
        }
    }
}

/// The names of a part of a formula are names of the formula.
pub proof fn lemma_named_within_grows(
    clauses: Seq<Seq<Literal>>,
    small: Set<Seq<char>>,
    big: Set<Seq<char>>,
)
    requires
        named_within(clauses, small),
        small.subset_of(big),
    ensures
        named_within(clauses, big),
{
    assert forall|i: int, j: int|
        0 <= i < clauses.len() && 0 <= j < clauses[i].len() implies big.contains(
        (#[trigger] clauses[i][j]).name,
    ) by {
        assert(small.contains(clauses[i][j].name));
    }
}

/// Two lists put together hold as a conjunction when both do, and as a
/// disjunction when either does.
pub proof fn lemma_appended_literals_hold(
    x: Seq<Literal>,
    y: Seq<Literal>,
    truth: spec_fn(Seq<char>) -> bool,
)
    ensures
        all_hold(x + y, truth) == (all_hold(x, truth) && all_hold(y, truth)),
        some_holds(x + y, truth) == (some_holds(x, truth) || some_holds(y, truth)),
{
    let both = x + y;
    assert forall|i: int| 0 <= i < both.len() implies both[i] == (if i < x.len() {
        x[i]
    } else {
        y[i - x.len()]
    }) by {}
    if all_hold(both, truth) {
        assert forall|i: int| 0 <= i < x.len() implies literal_holds(#[trigger] x[i], truth) by {
            assert(both[i] == x[i]);
        }
        assert forall|i: int| 0 <= i < y.len() implies literal_holds(#[trigger] y[i], truth) by {
            assert(both[x.len() + i] == y[i]);
        }
    }
    if all_hold(x, truth) && all_hold(y, truth) {
        assert forall|i: int| 0 <= i < both.len() implies literal_holds(
            #[trigger] both[i],
            truth,
        ) by {
            if i < x.len() {
                assert(both[i] == x[i]);
            } else {
                assert(both[i] == y[i - x.len()]);
            }
        }
    }
    if some_holds(x, truth) {
        let i = choose|i: int| 0 <= i < x.len() && literal_holds(#[trigger] x[i], truth);
        assert(both[i] == x[i]);
    }
    if some_holds(y, truth) {
        let i = choose|i: int| 0 <= i < y.len() && literal_holds(#[trigger] y[i], truth);
        assert(both[x.len() + i] == y[i]);
    }
    if some_holds(both, truth) {
        let i = choose|i: int| 0 <= i < both.len() && literal_holds(#[trigger] both[i], truth);
        if i < x.len() {
            assert(both[i] == x[i]);
        } else {
            assert(both[i] == y[i - x.len()]);
        }
    }
}

/// The pairwise unions of the products of two disjunctions hold, as a
/// disjunction, when both disjunctions do; the pairwise unions of the
/// sums of two conjunctions hold, as a conjunction, when either
/// conjunction does.
pub proof fn lemma_pairwise_union_holds(
    made: Seq<Seq<Literal>>,
    x: Seq<Seq<Literal>>,
    y: Seq<Seq<Literal>>,
    truth: spec_fn(Seq<char>) -> bool,
)
    requires
        is_pairwise_union(made, x, y),
    ensures
        dnf_holds(made, truth) == (dnf_holds(x, truth) && dnf_holds(y, truth)),
        cnf_holds(made, truth) == (cnf_holds(x, truth) || cnf_holds(y, truth)),
{
    if dnf_holds(made, truth) {
        let k = choose|k: int| 0 <= k < made.len() && all_hold(#[trigger] made[k], truth);
        assert(joins_a_pair(made[k], x, y));
        let (i, j) = choose|i: int, j: int|
            0 <= i < x.len() && 0 <= j < y.len() && #[trigger] same_literals(
                made[k],
                x[i] + y[j],
            );
        lemma_same_literals_hold(made[k], x[i] + y[j], truth);
        lemma_appended_literals_hold(x[i], y[j], truth);
    }
    if dnf_holds(x, truth) && dnf_holds(y, truth) {
        let i = choose|i: int| 0 <= i < x.len() && all_hold(#[trigger] x[i], truth);
        let j = choose|j: int| 0 <= j < y.len() && all_hold(#[trigger] y[j], truth);
        assert(holds_clause_of(made, union_at(x, y, i, j)));
        let k = choose|k: int|
            0 <= k < made.len() && #[trigger] same_literals(made[k], x[i] + y[j]);
        lemma_same_literals_hold(made[k], x[i] + y[j], truth);
        lemma_appended_literals_hold(x[i], y[j], truth);
    }
    if !cnf_holds(made, truth) {
        let k = choose|k: int| 0 <= k < made.len() && !some_holds(#[trigger] made[k], truth);
        assert(joins_a_pair(made[k], x, y));
        let (i, j) = choose|i: int, j: int|
            0 <= i < x.len() && 0 <= j < y.len() && #[trigger] same_literals(
                made[k],
                x[i] + y[j],
            );
        lemma_same_literals_hold(made[k], x[i] + y[j], truth);
        lemma_appended_literals_hold(x[i], y[j], truth);
        assert(!some_holds(x[i], truth));
        assert(!some_holds(y[j], truth));
    }
    if !cnf_holds(x, truth) && !cnf_holds(y, truth) {
        let i = choose|i: int| 0 <= i < x.len() && !some_holds(#[trigger] x[i], truth);
        let j = choose|j: int| 0 <= j < y.len() && !some_holds(#[trigger] y[j], truth);
        assert(holds_clause_of(made, union_at(x, y, i, j)));
        let k = choose|k: int|
            0 <= k < made.len() && #[trigger] same_literals(made[k], x[i] + y[j]);
        lemma_same_literals_hold(made[k], x[i] + y[j], truth);
        lemma_appended_literals_hold(x[i], y[j], truth);
        assert(!some_holds(made[k], truth));
    }
}

/// Pairwise unions name nothing new.
pub proof fn lemma_pairwise_union_named_within(
    made: Seq<Seq<Literal>>,
    x: Seq<Seq<Literal>>,
    y: Seq<Seq<Literal>>,
    allowed: Set<Seq<char>>,
)
    requires
        is_pairwise_union(made, x, y),
        named_within(x, allowed),
        named_within(y, allowed),
    ensures
        named_within(made, allowed),
{
    assert forall|k: int, m: int| 0 <= k < made.len() && 0 <= m < made[k].len() implies allowed.contains(
        (#[trigger] made[k][m]).name,
    ) by {
        assert(joins_a_pair(made[k], x, y));
        let (i, j) = choose|i: int, j: int|
            0 <= i < x.len() && 0 <= j < y.len() && #[trigger] same_literals(
                made[k],
                x[i] + y[j],
            );
        let both = x[i] + y[j];
        assert(made[k].contains(made[k][m]));
        assert(both.contains(made[k][m]));
        let at = choose|at: int| 0 <= at < both.len() && both[at] == made[k][m];
        if at < x[i].len() {
            assert(both[at] == x[i][at]);
        } else {
            assert(both[at] == y[j][at - x[i].len()]);
        }
    }
}

} // verus!
