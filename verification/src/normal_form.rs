//! Disjunctive and conjunctive normal forms of filter expressions.
//!
//! A product is a conjunction of terms, a sum a disjunction of terms. A
//! [`Dnf`] is a disjunction of products, a [`Cnf`] a conjunction of sums.
//! Each is built from an expression so that it holds under exactly the
//! assignments under which the expression holds.

use crate::choices::{cartesian_product, choices, literal_lists};
use crate::form_laws::{
    lemma_choices_named_within, lemma_cnf_without_clashes, lemma_dnf_without_clashes,
    lemma_joined_clauses_hold, lemma_joined_clauses_keep, lemma_literal_order,
    lemma_named_within_grows, lemma_negated_clauses_hold, lemma_negated_clauses_named_within,
    lemma_pairwise_union_holds, lemma_pairwise_union_named_within, lemma_products_of_choices,
    lemma_single_literal, lemma_sums_of_choices, lemma_without_clashes_keeps,
};
use crate::form_logic::{
    clashes, cnf_holds, dnf_holds, holds, holds_clause_of, is_choice_form, is_cnf_of, is_dnf_of,
    is_pairwise_union, joins_a_pair, literal_precedes, named_within, names_in, negated,
    negated_clauses, same_literals, sorted_clauses, strictly_sorted, union_at,
};
use crate::parser::{formula_of, BinOp, Expr, ExprBinOp, Ident, Program};
use crate::text::{precedes, str_precedes};
use vstd::prelude::*;

verus! {

/// An item name, possibly negated.
#[derive(Debug, Clone, PartialEq, Eq, PartialOrd, Ord, Hash)]
pub struct Term {
    pub ident: Ident,
    pub invert: bool,
}

/// A conjunction of terms.
#[derive(Debug, Clone, PartialEq, Eq)]
pub struct ConjProduct(pub Vec<Term>);

/// A disjunction of terms.
#[derive(Debug, Clone, PartialEq, Eq)]
pub struct DisjSum(pub Vec<Term>);

/// A disjunction of products.
#[derive(Debug, Clone, PartialEq, Eq)]
pub struct Dnf(pub Vec<ConjProduct>);

/// A conjunction of sums.
#[derive(Debug, Clone, PartialEq, Eq)]
pub struct Cnf(pub Vec<DisjSum>);

/// The mathematical form of a term.
pub struct Literal {
    pub name: Seq<char>,
    pub invert: bool,
}

impl View for Term {
    type V = Literal;

    open spec fn view(&self) -> Literal {
        Literal { name: self.ident@, invert: self.invert }
    }
}

/// The mathematical forms of a list of terms.
pub open spec fn literals(terms: Seq<Term>) -> Seq<Literal> {
    terms.map_values(|t: Term| t@)
}

impl View for ConjProduct {
    type V = Seq<Literal>;

    open spec fn view(&self) -> Seq<Literal> {
        literals(self.0@)
    }
}

impl View for DisjSum {
    type V = Seq<Literal>;

    open spec fn view(&self) -> Seq<Literal> {
        literals(self.0@)
    }
}

/// The mathematical forms of a list of products.
pub open spec fn product_views(products: Seq<ConjProduct>) -> Seq<Seq<Literal>> {
    products.map_values(|p: ConjProduct| p@)
}

/// The mathematical forms of a list of sums.
pub open spec fn sum_views(sums: Seq<DisjSum>) -> Seq<Seq<Literal>> {
    sums.map_values(|s: DisjSum| s@)
}

impl View for Dnf {
    type V = Seq<Seq<Literal>>;

    open spec fn view(&self) -> Seq<Seq<Literal>> {
        product_views(self.0@)
    }
}

impl View for Cnf {
    type V = Seq<Seq<Literal>>;

    open spec fn view(&self) -> Seq<Seq<Literal>> {
        sum_views(self.0@)
    }
}

impl Term {
    /// The negation of the term.
    pub fn invert(self) -> (r: Term)
        ensures
            r@.name == self@.name,
            r@.invert == !self@.invert,
    {
        let Term { ident, invert: negate } = self;
        Term { ident, invert: !negate }
    }

    /// The plain term of a name.
    pub fn from_ident(ident: Ident) -> (r: Term)
        ensures
            r@ == (Literal { name: ident@, invert: false }),
    {
        Term { ident, invert: false }
    }

    /// A copy of the term.
    pub fn duplicate(&self) -> (r: Term)
        ensures
            r@ == self@,
    {
        Term { ident: Ident(self.ident.0.clone()), invert: self.invert }
    }

    /// Whether this term comes before `other` in the order of literals.
    pub fn precedes(&self, other: &Term) -> (r: bool)
        ensures
            r == literal_precedes(self@, other@),
    {
        if str_precedes(self.ident.0.as_str(), other.ident.0.as_str()) {
            true
        } else if self.ident.0 == other.ident.0 {
            !self.invert && other.invert
        } else {
            false
        }
    }

    /// Whether the two terms are the same literal.
    pub fn same_as(&self, other: &Term) -> (r: bool)
        ensures
            r == (self@ == other@),
    {
        self.ident.0 == other.ident.0 && self.invert == other.invert
    }
}

/// The same terms, each once, in the order of literals.
pub fn normalized(terms: Vec<Term>) -> (r: Vec<Term>)
    ensures
        strictly_sorted(literals(r@)),
        same_literals(literals(r@), literals(terms@)),
{
    let ghost all = literals(terms@);
    let mut out: Vec<Term> = Vec::new();
    for term in it: terms
        invariant
            it.seq() == terms@,
            all == literals(terms@),
            strictly_sorted(literals(out@)),
            forall|l: Literal|
                literals(out@).contains(l) <==> all.take(it.index() as int).contains(l),
    {
        let ghost before = literals(out@);
        let ghost seen = all.take(it.index() as int);
        let ghost lit = term@;
        assert(all.take(it.index() + 1) =~= seen.push(lit));
        let mut pos: usize = 0;
        while pos < out.len() && out[pos].precedes(&term)
            invariant
                pos <= out.len(),
                before == literals(out@),
                lit == term@,
                forall|k: int| 0 <= k < pos ==> literal_precedes(#[trigger] before[k], lit),
            decreases out.len() - pos,
        {
            pos += 1;
        }
        if pos < out.len() && out[pos].same_as(&term) {
            assert forall|l: Literal| before.contains(l) <==> seen.push(lit).contains(l) by {
                if seen.push(lit).contains(l) {
                    let k = choose|k: int| 0 <= k < seen.len() + 1 && seen.push(lit)[k] == l;
                    if k < seen.len() {
                        assert(seen.contains(l));
                    } else {
                        assert(before[pos as int] == l);
                    }
                }
                if before.contains(l) {
                    let k = choose|k: int| 0 <= k < seen.len() && seen[k] == l;
                    assert(seen.push(lit)[k] == l);
                }
            }
        } else {
            out.insert(pos, term);
            proof {
                let after = literals(out@);
                assert(after =~= before.insert(pos as int, lit));
                assert forall|i: int, j: int| 0 <= i < j < after.len() implies literal_precedes(
                    #[trigger] after[i],
                    #[trigger] after[j],
                ) by {
                    if j == pos {
                        assert(after[i] == before[i]);
                    } else if i == pos {
                        assert(after[j] == before[j - 1]);
                        lemma_literal_order(before[pos as int], lit, lit);
                        lemma_literal_order(lit, before[pos as int], before[j - 1]);
                    } else {
                        let oi = if i < pos { i } else { i - 1 };
                        let oj = if j < pos { j } else { j - 1 };
                        assert(after[i] == before[oi]);
                        assert(after[j] == before[oj]);
                    }
                }
                assert forall|l: Literal| after.contains(l) <==> seen.push(lit).contains(l) by {
                    if after.contains(l) {
                        let k = choose|k: int| 0 <= k < after.len() && after[k] == l;
                        if k == pos {
                            assert(seen.push(lit)[seen.len() as int] == l);
                        } else {
                            let ok = if k < pos { k } else { k - 1 };
                            assert(before[ok] == l);
                            assert(before.contains(l));
                            let m = choose|m: int| 0 <= m < seen.len() && seen[m] == l;
                            assert(seen.push(lit)[m] == l);
                        }
                    }
                    if seen.push(lit).contains(l) {
                        let k = choose|k: int| 0 <= k < seen.len() + 1 && seen.push(lit)[k] == l;
                        if k < seen.len() {
                            assert(seen.contains(l));
                            assert(before.contains(l));
                            let m = choose|m: int| 0 <= m < before.len() && before[m] == l;
                            let nm = if m < pos { m } else { m + 1 };
                            assert(after[nm] == l);
                        } else {
                            assert(after[pos as int] == l);
                        }
                    }
                }
            }
        }
    }
    assert(all.take(terms@.len() as int) =~= all);
    out
}

/// Whether some name occurs both plain and negated among the terms.
fn has_clash(terms: &Vec<Term>) -> (r: bool)
    ensures
        r == clashes(literals(terms@)),
{
    let n = terms.len();
    let ghost list = literals(terms@);
    let mut i: usize = 0;
    while i < n
        invariant
            n == terms.len(),
            list == literals(terms@),
            i <= n,
            forall|a: int, b: int|
                0 <= a < i && 0 <= b < n ==> !((#[trigger] list[a]).name == (
                #[trigger] list[b]).name && list[a].invert != list[b].invert),
        decreases n - i,
    {
        let mut j: usize = 0;
        while j < n
            invariant
                n == terms.len(),
                list == literals(terms@),
                i < n,
                j <= n,
                forall|b: int|
                    0 <= b < j ==> !(list[i as int].name == (#[trigger] list[b]).name
                        && list[i as int].invert != list[b].invert),
            decreases n - j,
        {
            if terms[i].ident.0 == terms[j].ident.0 && terms[i].invert != terms[j].invert {
                assert(list[i as int].name == list[j as int].name);
                return true;
            }
            j += 1;
        }
        i += 1;
    }
    false
}

/// The negations of the terms, in the same order.
fn inverted(terms: Vec<Term>) -> (r: Vec<Term>)
    ensures
        literals(r@) == negated(literals(terms@)),
{
    let ghost all = literals(terms@);
    let mut out: Vec<Term> = Vec::new();
    for term in it: terms
        invariant
            it.seq() == terms@,
            all == literals(terms@),
            literals(out@) == negated(all.take(it.index() as int)),
    {
        let ghost before = literals(out@);
        let ghost lit = term@;
        out.push(term.invert());
        proof {
            let seen = all.take(it.index() as int);
            assert(all.take(it.index() + 1) =~= seen.push(lit));
            let flipped = Literal { name: lit.name, invert: !lit.invert };
            assert(out@.last()@ == flipped);
            assert(literals(out@) =~= before.push(flipped));
            assert(negated(seen.push(lit)) =~= negated(seen).push(flipped));
        }
    }
    assert(all.take(terms@.len() as int) =~= all);
    out
}

impl ConjProduct {
    /// The sum of the negated terms: by De Morgan, the negation of the
    /// product.
    pub fn invert(self) -> (r: DisjSum)
        ensures
            r@ == negated(self@),
    {
        DisjSum(inverted(self.0))
    }

    /// Whether the product can never hold because it holds a name both
    /// plain and negated.
    pub fn is_false(&self) -> (r: bool)
        ensures
            r == clashes(self@),
    {
        has_clash(&self.0)
    }

    /// The product of one term.
    pub fn from_term(term: Term) -> (r: ConjProduct)
        ensures
            r@ == seq![term@],
    {
        let mut terms: Vec<Term> = Vec::new();
        terms.push(term);
        assert(literals(terms@) =~= seq![term@]);
        ConjProduct(terms)
    }
}

impl DisjSum {
    /// The product of the negated terms: by De Morgan, the negation of the
    /// sum.
    pub fn invert(self) -> (r: ConjProduct)
        ensures
            r@ == negated(self@),
    {
        ConjProduct(inverted(self.0))
    }

    /// Whether the sum always holds because it holds a name both plain and
    /// negated.
    pub fn is_true(&self) -> (r: bool)
        ensures
            r == clashes(self@),
    {
        has_clash(&self.0)
    }

    /// The sum of one term.
    pub fn from_term(term: Term) -> (r: DisjSum)
        ensures
            r@ == seq![term@],
    {
        let mut terms: Vec<Term> = Vec::new();
        terms.push(term);
        assert(literals(terms@) =~= seq![term@]);
        DisjSum(terms)
    }

    /// The sum of one plain name.
    pub fn from_ident(ident: Ident) -> (r: DisjSum)
        ensures
            r@ == seq![Literal { name: ident@, invert: false }],
    {
        DisjSum::from_term(Term::from_ident(ident))
    }
}

/// The term lists of a list of sums.
fn lists_of_sums(sums: Vec<DisjSum>) -> (r: Vec<Vec<Term>>)
    ensures
        literal_lists(r@) == sum_views(sums@),
{
    let ghost all = sum_views(sums@);
    let mut out: Vec<Vec<Term>> = Vec::new();
    for sum in it: sums
        invariant
            it.seq() == sums@,
            all == sum_views(sums@),
            literal_lists(out@) == all.take(it.index() as int),
    {
        let ghost list = sum@;
        let ghost before = literal_lists(out@);
        out.push(sum.0);
        proof {
            assert(literal_lists(out@) =~= before.push(list));
            assert(all.take(it.index() + 1) =~= all.take(it.index() as int).push(list));
        }
    }
    assert(all.take(sums@.len() as int) =~= all);
    out
}

/// The term lists of a list of products.
fn lists_of_products(products: Vec<ConjProduct>) -> (r: Vec<Vec<Term>>)
    ensures
        literal_lists(r@) == product_views(products@),
{
    let ghost all = product_views(products@);
    let mut out: Vec<Vec<Term>> = Vec::new();
    for product in it: products
        invariant
            it.seq() == products@,
            all == product_views(products@),
            literal_lists(out@) == all.take(it.index() as int),
    {
        let ghost list = product@;
        let ghost before = literal_lists(out@);
        out.push(product.0);
        proof {
            assert(literal_lists(out@) =~= before.push(list));
            assert(all.take(it.index() + 1) =~= all.take(it.index() as int).push(list));
        }
    }
    assert(all.take(products@.len() as int) =~= all);
    out
}

/// Term lists as sums.
fn sums_of_lists(lists: Vec<Vec<Term>>) -> (r: Vec<DisjSum>)
    ensures
        sum_views(r@) == literal_lists(lists@),
{
    let ghost all = literal_lists(lists@);
    let mut out: Vec<DisjSum> = Vec::new();
    for list in it: lists
        invariant
            it.seq() == lists@,
            all == literal_lists(lists@),
            sum_views(out@) == all.take(it.index() as int),
    {
        let ghost lits = literals(list@);
        let ghost before = sum_views(out@);
        out.push(DisjSum(list));
        proof {
            assert(sum_views(out@) =~= before.push(lits));
            assert(all.take(it.index() + 1) =~= all.take(it.index() as int).push(lits));
        }
    }
    assert(all.take(lists@.len() as int) =~= all);
    out
}

/// Term lists as products.
fn products_of_lists(lists: Vec<Vec<Term>>) -> (r: Vec<ConjProduct>)
    ensures
        product_views(r@) == literal_lists(lists@),
{
    let ghost all = literal_lists(lists@);
    let mut out: Vec<ConjProduct> = Vec::new();
    for list in it: lists
        invariant
            it.seq() == lists@,
            all == literal_lists(lists@),
            product_views(out@) == all.take(it.index() as int),
    {
        let ghost lits = literals(list@);
        let ghost before = product_views(out@);
        out.push(ConjProduct(list));
        proof {
            assert(product_views(out@) =~= before.push(lits));
            assert(all.take(it.index() + 1) =~= all.take(it.index() as int).push(lits));
        }
    }
    assert(all.take(lists@.len() as int) =~= all);
    out
}

/// Each term list with every term negated.
fn inverted_lists(lists: Vec<Vec<Term>>) -> (r: Vec<Vec<Term>>)
    ensures
        literal_lists(r@) == negated_clauses(literal_lists(lists@)),
{
    let ghost all = literal_lists(lists@);
    let mut out: Vec<Vec<Term>> = Vec::new();
    for list in it: lists
        invariant
            it.seq() == lists@,
            all == literal_lists(lists@),
            literal_lists(out@) == negated_clauses(all.take(it.index() as int)),
    {
        let ghost lits = literals(list@);
        let ghost before = literal_lists(out@);
        let ghost seen = all.take(it.index() as int);
        out.push(inverted(list));
        proof {
            assert(literal_lists(out@) =~= before.push(negated(lits)));
            assert(all.take(it.index() + 1) =~= seen.push(lits));
            assert(negated_clauses(seen.push(lits)) =~= negated_clauses(seen).push(negated(lits)));
        }
    }
    assert(all.take(lists@.len() as int) =~= all);
    out
}

/// Whether the clause made of clause `a` and clause `b` has a place, and
/// that place is marked as theirs.
spec fn placed(place: Map<(int, int), int>, origin: Seq<(int, int)>, a: int, b: int) -> bool {
    &&& place.contains_key((a, b))
    &&& 0 <= place[(a, b)] < origin.len()
    &&& origin[place[(a, b)]] == (a, b)
}

/// The terms of both lists, those of `x` first.
fn appended(x: &Vec<Term>, y: &Vec<Term>) -> (r: Vec<Term>)
    ensures
        literals(r@) == literals(x@) + literals(y@),
{
    let mut out: Vec<Term> = Vec::new();
    let mut i: usize = 0;
    while i < x.len()
        invariant
            i <= x.len(),
            literals(out@) == literals(x@).take(i as int),
        decreases x.len() - i,
    {
        let ghost before = literals(out@);
        out.push(x[i].duplicate());
        assert(literals(out@) =~= before.push(x@[i as int]@));
        assert(literals(x@).take(i + 1) =~= literals(x@).take(i as int).push(x@[i as int]@));
        i += 1;
    }
    assert(literals(x@).take(x@.len() as int) =~= literals(x@));
    let mut j: usize = 0;
    while j < y.len()
        invariant
            j <= y.len(),
            literals(out@) == literals(x@) + literals(y@).take(j as int),
        decreases y.len() - j,
    {
        let ghost before = literals(out@);
        out.push(y[j].duplicate());
        assert(literals(out@) =~= before.push(y@[j as int]@));
        assert(literals(y@).take(j + 1) =~= literals(y@).take(j as int).push(y@[j as int]@));
        assert(literals(x@) + literals(y@).take(j as int).push(y@[j as int]@) =~= (literals(x@)
            + literals(y@).take(j as int)).push(y@[j as int]@));
        j += 1;
    }
    assert(literals(y@).take(y@.len() as int) =~= literals(y@));
    out
}

/// For each list of `xs` and each list of `ys`, the terms of both, each
/// once, in order.
fn unions_of_pairs(xs: &Vec<Vec<Term>>, ys: &Vec<Vec<Term>>) -> (r: Vec<Vec<Term>>)
    ensures
        is_pairwise_union(literal_lists(r@), literal_lists(xs@), literal_lists(ys@)),
        sorted_clauses(literal_lists(r@)),
{
    let ghost x = literal_lists(xs@);
    let ghost y = literal_lists(ys@);
    let ghost mut origin: Seq<(int, int)> = Seq::empty();
    let ghost mut place: Map<(int, int), int> = Map::empty();
    let mut out: Vec<Vec<Term>> = Vec::new();
    let mut i: usize = 0;
    while i < xs.len()
        invariant
            x == literal_lists(xs@),
            y == literal_lists(ys@),
            i <= xs.len(),
            origin.len() == out@.len(),
            sorted_clauses(literal_lists(out@)),
            forall|k: int|
                0 <= k < out@.len() ==> 0 <= (#[trigger] origin[k]).0 < x.len() && 0
                    <= origin[k].1 < y.len() && same_literals(
                    literal_lists(out@)[k],
                    x[origin[k].0] + y[origin[k].1],
                ),
            forall|a: int, b: int|
                0 <= a < i && 0 <= b < y.len() ==> #[trigger] placed(place, origin, a, b),
        decreases xs.len() - i,
    {
        let mut j: usize = 0;
        while j < ys.len()
            invariant
                x == literal_lists(xs@),
                y == literal_lists(ys@),
                i < xs.len(),
                j <= ys.len(),
                origin.len() == out@.len(),
                sorted_clauses(literal_lists(out@)),
                forall|k: int|
                    0 <= k < out@.len() ==> 0 <= (#[trigger] origin[k]).0 < x.len() && 0
                        <= origin[k].1 < y.len() && same_literals(
                        literal_lists(out@)[k],
                        x[origin[k].0] + y[origin[k].1],
                    ),
                forall|a: int, b: int|
                    (0 <= a < i && 0 <= b < y.len()) || (a == i && 0 <= b < j) ==> #[trigger] placed(
                        place,
                        origin,
                        a,
                        b,
                    ),
            decreases ys.len() - j,
        {
            let ghost before = literal_lists(out@);
            let ghost old_origin = origin;
            let ghost old_place = place;
            let both = appended(&xs[i], &ys[j]);
            let clause = normalized(both);
            let ghost lits = literals(clause@);
            out.push(clause);
            proof {
                origin = origin.push((i as int, j as int));
                place = place.insert((i as int, j as int), before.len() as int);
                assert(literal_lists(out@) =~= before.push(lits));
                assert(x[i as int] == literals(xs@[i as int]@));
                assert(y[j as int] == literals(ys@[j as int]@));
                assert forall|k: int| 0 <= k < out@.len() implies 0 <= (#[trigger] origin[k]).0
                    < x.len() && 0 <= origin[k].1 < y.len() && same_literals(
                    literal_lists(out@)[k],
                    x[origin[k].0] + y[origin[k].1],
                ) by {
                    if k < before.len() {
                        assert(origin[k] == old_origin[k]);
                        assert(literal_lists(out@)[k] == before[k]);
                    }
                }
                assert forall|k: int| 0 <= k < out@.len() implies strictly_sorted(
                    #[trigger] literal_lists(out@)[k],
                ) by {
                    if k < before.len() {
                        assert(literal_lists(out@)[k] == before[k]);
                    }
                }
                assert forall|a: int, b: int|
                    (0 <= a < i && 0 <= b < y.len()) || (a == i && 0 <= b < j + 1) implies #[trigger] placed(
                    place,
                    origin,
                    a,
                    b,
                ) by {
                    if a == i && b == j {
                    } else {
                        assert(placed(old_place, old_origin, a, b));
                        assert(place[(a, b)] == old_place[(a, b)]);
                        assert(origin[old_place[(a, b)]] == old_origin[old_place[(a, b)]]);
                    }
                }
            }
            j += 1;
        }
        i += 1;
    }
    proof {
        let made = literal_lists(out@);
        assert forall|k: int| 0 <= k < made.len() implies joins_a_pair(
            #[trigger] made[k],
            x,
            y,
        ) by {
            let a = origin[k].0;
            let b = origin[k].1;
            assert(same_literals(made[k], x[a] + y[b]));
        }
        assert forall|a: int, b: int| 0 <= a < x.len() && 0 <= b < y.len() implies holds_clause_of(
            made,
            #[trigger] union_at(x, y, a, b),
        ) by {
            assert(placed(place, origin, a, b));
            let k = place[(a, b)];
            assert(origin[k] == (a, b));
            assert(same_literals(made[k], x[origin[k].0] + y[origin[k].1]));
        }
    }
    out
}

/// One clause for each way of choosing a term from each list: the chosen
/// terms, each once, in order.
fn clauses_of_choices(lists: Vec<Vec<Term>>) -> (r: Vec<Vec<Term>>)
    ensures
        r@.len() == choices(literal_lists(lists@)).len(),
        forall|k: int|
            0 <= k < r@.len() ==> same_literals(
                #[trigger] literal_lists(r@)[k],
                choices(literal_lists(lists@))[k],
            ),
        sorted_clauses(literal_lists(r@)),
{
    let ghost want = choices(literal_lists(lists@));
    let tuples = cartesian_product(lists);
    let mut out: Vec<Vec<Term>> = Vec::new();
    for tuple in it: tuples
        invariant
            it.seq() == tuples@,
            literal_lists(tuples@) == want,
            out@.len() == it.index(),
            forall|k: int|
                0 <= k < out@.len() ==> same_literals(#[trigger] literal_lists(out@)[k], want[k]),
            sorted_clauses(literal_lists(out@)),
    {
        let ghost before = literal_lists(out@);
        let ghost at = it.index() as int;
        assert(literals(tuple@) == want[at]) by {
            assert(literal_lists(tuples@)[at] == literals(tuples@[at]@));
        }
        let clause = normalized(tuple);
        let ghost lits = literals(clause@);
        out.push(clause);
        proof {
            assert(literal_lists(out@) =~= before.push(lits));
            assert forall|k: int| 0 <= k < out@.len() implies same_literals(
                #[trigger] literal_lists(out@)[k],
                want[k],
            ) by {
                if k < at {
                    assert(literal_lists(out@)[k] == before[k]);
                }
            }
            assert forall|k: int| 0 <= k < out@.len() implies strictly_sorted(
                #[trigger] literal_lists(out@)[k],
            ) by {
                if k < at {
                    assert(literal_lists(out@)[k] == before[k]);
                }
            }
        }
    }
    out
}

impl Dnf {
    /// The normal form of a program.
    pub fn from_program(lang: Program) -> (r: Dnf)
        ensures
            is_dnf_of(r@, lang@),
    {
        Dnf::from_expr(lang.0)
    }

    /// The normal form of an expression.
    pub fn from_expr(expr: Expr) -> (r: Dnf)
        ensures
            is_dnf_of(r@, expr@),
        decreases expr,
    {
        let ghost formula = expr@;
        let raw = match expr {
            Expr::Ident(ident) => {
                let single = Dnf::from_ident(ident);
                proof {
                    lemma_single_literal(Literal { name: ident@, invert: false });
                }
                single
            },
            Expr::UnaryOp(inner) => {
                let ghost part = formula_of(*inner);
                let positive = Dnf::from_expr(*inner);
                proof {
                    lemma_named_within_grows(positive@, names_in(part), names_in(formula));
                }
                let negative = positive.invert();
                assert forall|truth: spec_fn(Seq<char>) -> bool| #[trigger]
                    dnf_holds(negative@, truth) == holds(formula, truth) by {
                    assert(dnf_holds(positive@, truth) == holds(part, truth));
                }
                negative
            },
            Expr::BinOp(ExprBinOp { op, lhs, rhs }) => {
                let ghost left = formula_of(*lhs);
                let ghost right = formula_of(*rhs);
                let lhs = Dnf::from_expr(*lhs);
                let rhs = Dnf::from_expr(*rhs);
                let ghost l = lhs@;
                let ghost m = rhs@;
                proof {
                    lemma_named_within_grows(l, names_in(left), names_in(formula));
                    lemma_named_within_grows(m, names_in(right), names_in(formula));
                }
                match op {
                    BinOp::Mul => {
                        let both = lhs.conj_with(rhs);
                        assert forall|truth: spec_fn(Seq<char>) -> bool| #[trigger]
                            dnf_holds(both@, truth) == holds(formula, truth) by {
                            lemma_joined_clauses_hold(l, m, truth);
                            assert(dnf_holds(l, truth) == holds(left, truth));
                            assert(dnf_holds(m, truth) == holds(right, truth));
                        }
                        proof {
                            lemma_joined_clauses_keep(l, m, names_in(formula));
                        }
                        both
                    },
                    BinOp::Add => {
                        let either = lhs.disj_with(rhs);
                        assert forall|truth: spec_fn(Seq<char>) -> bool| #[trigger]
                            dnf_holds(either@, truth) == holds(formula, truth) by {
                            lemma_joined_clauses_hold(l, m, truth);
                            assert(dnf_holds(l, truth) == holds(left, truth));
                            assert(dnf_holds(m, truth) == holds(right, truth));
                        }
                        proof {
                            lemma_joined_clauses_keep(l, m, names_in(formula));
                        }
                        either
                    },
                }
            },
        };
        let ghost before = raw@;
        let r = raw.reduce();
        proof {
            assert(sorted_clauses(before));
            assert(named_within(before, names_in(formula)));
            lemma_without_clashes_keeps(before, names_in(formula));
            assert forall|truth: spec_fn(Seq<char>) -> bool| #[trigger]
                dnf_holds(r@, truth) == holds(formula, truth) by {
                lemma_dnf_without_clashes(before, truth);
            }
        }
        r
    }

    /// The normal form of one term.
    pub fn from_term(term: Term) -> (r: Dnf)
        ensures
            r@ == seq![seq![term@]],
    {
        let mut products: Vec<ConjProduct> = Vec::new();
        products.push(ConjProduct::from_term(term));
        assert(product_views(products@) =~= seq![seq![term@]]);
        Dnf(products)
    }

    /// The normal form of one plain name.
    pub fn from_ident(ident: Ident) -> (r: Dnf)
        ensures
            r@ == seq![seq![Literal { name: ident@, invert: false }]],
    {
        Dnf::from_term(Term::from_ident(ident))
    }

    /// The disjunctive form of a conjunctive form: one product for each
    /// way of choosing a term from every sum.
    pub fn from_cnf(cnf: Cnf) -> (r: Dnf)
        ensures
            is_choice_form(r@, cnf@),
            forall|truth: spec_fn(Seq<char>) -> bool| #[trigger]
                dnf_holds(r@, truth) == cnf_holds(cnf@, truth),
            sorted_clauses(r@),
            forall|allowed: Set<Seq<char>>|
                named_within(cnf@, allowed) ==> #[trigger] named_within(r@, allowed),
    {
        let ghost source = cnf@;
        let lists = lists_of_sums(cnf.0);
        let clauses = clauses_of_choices(lists);
        let r = Dnf(products_of_lists(clauses));
        proof {
            assert forall|truth: spec_fn(Seq<char>) -> bool| #[trigger]
                dnf_holds(r@, truth) == cnf_holds(source, truth) by {
                lemma_products_of_choices(source, r@, truth);
            }
            assert forall|allowed: Set<Seq<char>>| named_within(source, allowed) implies 
                #[trigger] named_within(r@, allowed) by {
                lemma_choices_named_within(source, r@, allowed);
            }
        }
        r
    }

    /// The conjunction of two normal forms: for each product of the one
    /// and each product of the other, the product of the terms of both.
    pub fn conj_with(self, other: Dnf) -> (r: Dnf)
        ensures
            is_pairwise_union(r@, self@, other@),
            forall|truth: spec_fn(Seq<char>) -> bool| #[trigger]
                dnf_holds(r@, truth) == (dnf_holds(self@, truth) && dnf_holds(other@, truth)),
            sorted_clauses(r@),
            forall|allowed: Set<Seq<char>>|
                named_within(self@, allowed) && named_within(other@, allowed)
                    ==> #[trigger] named_within(r@, allowed),
    {
        let ghost x = self@;
        let ghost y = other@;
        let lhs = lists_of_products(self.0);
        let rhs = lists_of_products(other.0);
        let r = Dnf(products_of_lists(unions_of_pairs(&lhs, &rhs)));
        proof {
            assert forall|truth: spec_fn(Seq<char>) -> bool| #[trigger]
                dnf_holds(r@, truth) == (dnf_holds(x, truth) && dnf_holds(y, truth)) by {
                lemma_pairwise_union_holds(r@, x, y, truth);
            }
            assert forall|allowed: Set<Seq<char>>|
                named_within(x, allowed) && named_within(y, allowed) implies #[trigger] named_within(
                r@,
                allowed,
            ) by {
                lemma_pairwise_union_named_within(r@, x, y, allowed);
            }
        }
        r
    }

    /// The disjunction of two normal forms: the products of both.
    pub fn disj_with(self, other: Dnf) -> (r: Dnf)
        ensures
            r@ == self@ + other@,
    {
        let mut products = self.0;
        let mut more = other.0;
        products.append(&mut more);
        assert(product_views(products@) =~= self@ + other@);
        Dnf(products)
    }

    /// The same form without the products that can never hold.
    pub fn reduce(self) -> (r: Dnf)
        ensures
            r@ == self@.filter(|p: Seq<Literal>| !clashes(p)),
    {
        let ghost all = self@;
        let ghost keep = |p: Seq<Literal>| !clashes(p);
        let mut out: Vec<ConjProduct> = Vec::new();
        for product in it: self.0
            invariant
                it.seq() == self.0@,
                all == product_views(self.0@),
                keep == (|p: Seq<Literal>| !clashes(p)),
                product_views(out@) == all.take(it.index() as int).filter(keep),
        {
            let ghost seen = all.take(it.index() as int);
            let ghost before = product_views(out@);
            let ghost list = product@;
            proof {
                assert(all.take(it.index() + 1) =~= seen.push(list));
                assert(seen.push(list).drop_last() =~= seen);
                reveal(Seq::filter);
            }
            if !product.is_false() {
                out.push(product);
                assert(product_views(out@) =~= before.push(list));
            }
        }
        assert(all.take(self.0@.len() as int) =~= all);
        Dnf(out)
    }

    /// The negation of a normal form, again as a disjunction of products.
    pub fn invert(self) -> (r: Dnf)
        ensures
            is_choice_form(r@, negated_clauses(self@)),
            forall|truth: spec_fn(Seq<char>) -> bool| #[trigger]
                dnf_holds(r@, truth) == !dnf_holds(self@, truth),
            sorted_clauses(r@),
            forall|allowed: Set<Seq<char>>|
                named_within(self@, allowed) ==> #[trigger] named_within(r@, allowed),
    {
        let ghost source = self@;
        let sums = sums_of_lists(inverted_lists(lists_of_products(self.0)));
        let cnf = Cnf(sums);
        let ghost c = cnf@;
        let r = Dnf::from_cnf(cnf);
        proof {
            assert(c == negated_clauses(source));
            assert forall|truth: spec_fn(Seq<char>) -> bool| #[trigger]
                dnf_holds(r@, truth) == !dnf_holds(source, truth) by {
                lemma_negated_clauses_hold(source, truth);
                assert(dnf_holds(r@, truth) == cnf_holds(c, truth));
            }
            assert forall|allowed: Set<Seq<char>>| named_within(source, allowed) implies 
                #[trigger] named_within(r@, allowed) by {
                lemma_negated_clauses_named_within(source, allowed);
            }
        }
        r
    }
}

impl Cnf {
    /// The normal form of a program.
    pub fn from_program(lang: Program) -> (r: Cnf)
        ensures
            is_cnf_of(r@, lang@),
    {
        Cnf::from_expr(lang.0)
    }

    /// The normal form of an expression.
    pub fn from_expr(expr: Expr) -> (r: Cnf)
        ensures
            is_cnf_of(r@, expr@),
        decreases expr,
    {
        let ghost formula = expr@;
        let raw = match expr {
            Expr::Ident(ident) => {
                let single = Cnf::from_ident(ident);
                proof {
                    lemma_single_literal(Literal { name: ident@, invert: false });
                }
                single
            },
            Expr::UnaryOp(inner) => {
                let ghost part = formula_of(*inner);
                let positive = Cnf::from_expr(*inner);
                proof {
                    lemma_named_within_grows(positive@, names_in(part), names_in(formula));
                }
                let negative = positive.invert();
                assert forall|truth: spec_fn(Seq<char>) -> bool| #[trigger]
                    cnf_holds(negative@, truth) == holds(formula, truth) by {
                    assert(cnf_holds(positive@, truth) == holds(part, truth));
                }
                negative
            },
            Expr::BinOp(ExprBinOp { op, lhs, rhs }) => {
                let ghost left = formula_of(*lhs);
                let ghost right = formula_of(*rhs);
                let lhs = Cnf::from_expr(*lhs);
                let rhs = Cnf::from_expr(*rhs);
                let ghost l = lhs@;
                let ghost m = rhs@;
                proof {
                    lemma_named_within_grows(l, names_in(left), names_in(formula));
                    lemma_named_within_grows(m, names_in(right), names_in(formula));
                }
                match op {
                    BinOp::Mul => {
                        let both = lhs.conj_with(rhs);
                        assert forall|truth: spec_fn(Seq<char>) -> bool| #[trigger]
                            cnf_holds(both@, truth) == holds(formula, truth) by {
                            lemma_joined_clauses_hold(l, m, truth);
                            assert(cnf_holds(l, truth) == holds(left, truth));
                            assert(cnf_holds(m, truth) == holds(right, truth));
                        }
                        proof {
                            lemma_joined_clauses_keep(l, m, names_in(formula));
                        }
                        both
                    },
                    BinOp::Add => {
                        let either = lhs.disj_with(rhs);
                        assert forall|truth: spec_fn(Seq<char>) -> bool| #[trigger]
                            cnf_holds(either@, truth) == holds(formula, truth) by {
                            lemma_joined_clauses_hold(l, m, truth);
                            assert(cnf_holds(l, truth) == holds(left, truth));
                            assert(cnf_holds(m, truth) == holds(right, truth));
                        }
                        proof {
                            lemma_joined_clauses_keep(l, m, names_in(formula));
                        }
                        either
                    },
                }
            },
        };
        let ghost before = raw@;
        let r = raw.reduce();
        proof {
            assert(sorted_clauses(before));
            assert(named_within(before, names_in(formula)));
            lemma_without_clashes_keeps(before, names_in(formula));
            assert forall|truth: spec_fn(Seq<char>) -> bool| #[trigger]
                cnf_holds(r@, truth) == holds(formula, truth) by {
                lemma_cnf_without_clashes(before, truth);
            }
        }
        r
    }

    /// The normal form of one plain name.
    pub fn from_ident(ident: Ident) -> (r: Cnf)
        ensures
            r@ == seq![seq![Literal { name: ident@, invert: false }]],
    {
        let ghost lit = Literal { name: ident@, invert: false };
        let mut sums: Vec<DisjSum> = Vec::new();
        sums.push(DisjSum::from_ident(ident));
        assert(sum_views(sums@) =~= seq![seq![lit]]);
        Cnf(sums)
    }

    /// The conjunctive form of a disjunctive form: one sum for each way of
    /// choosing a term from every product.
    pub fn from_dnf(dnf: Dnf) -> (r: Cnf)
        ensures
            is_choice_form(r@, dnf@),
            forall|truth: spec_fn(Seq<char>) -> bool| #[trigger]
                cnf_holds(r@, truth) == dnf_holds(dnf@, truth),
            sorted_clauses(r@),
            forall|allowed: Set<Seq<char>>|
                named_within(dnf@, allowed) ==> #[trigger] named_within(r@, allowed),
    {
        let ghost source = dnf@;
        let lists = lists_of_products(dnf.0);
        let clauses = clauses_of_choices(lists);
        let r = Cnf(sums_of_lists(clauses));
        proof {
            assert forall|truth: spec_fn(Seq<char>) -> bool| #[trigger]
                cnf_holds(r@, truth) == dnf_holds(source, truth) by {
                lemma_sums_of_choices(source, r@, truth);
            }
            assert forall|allowed: Set<Seq<char>>| named_within(source, allowed) implies 
                #[trigger] named_within(r@, allowed) by {
                lemma_choices_named_within(source, r@, allowed);
            }
        }
        r
    }

    /// The negation of a normal form, again as a conjunction of sums.
    pub fn invert(self) -> (r: Cnf)
        ensures
            is_choice_form(r@, negated_clauses(self@)),
            forall|truth: spec_fn(Seq<char>) -> bool| #[trigger]
                cnf_holds(r@, truth) == !cnf_holds(self@, truth),
            sorted_clauses(r@),
            forall|allowed: Set<Seq<char>>|
                named_within(self@, allowed) ==> #[trigger] named_within(r@, allowed),
    {
        let ghost source = self@;
        let products = products_of_lists(inverted_lists(lists_of_sums(self.0)));
        let dnf = Dnf(products);
        let ghost d = dnf@;
        let r = Cnf::from_dnf(dnf);
        proof {
            assert(d == negated_clauses(source));
            assert forall|truth: spec_fn(Seq<char>) -> bool| #[trigger]
                cnf_holds(r@, truth) == !cnf_holds(source, truth) by {
                lemma_negated_clauses_hold(source, truth);
                assert(cnf_holds(r@, truth) == dnf_holds(d, truth));
            }
            assert forall|allowed: Set<Seq<char>>| named_within(source, allowed) implies 
                #[trigger] named_within(r@, allowed) by {
                lemma_negated_clauses_named_within(source, allowed);
            }
        }
        r
    }

    /// The conjunction of two normal forms: the sums of both.
    pub fn conj_with(self, other: Cnf) -> (r: Cnf)
        ensures
            r@ == self@ + other@,
    {
        let mut sums = self.0;
        let mut more = other.0;
        sums.append(&mut more);
        assert(sum_views(sums@) =~= self@ + other@);
        Cnf(sums)
    }

    /// The disjunction of two normal forms: for each sum of the one and
    /// each sum of the other, the sum of the terms of both.
    pub fn disj_with(self, other: Cnf) -> (r: Cnf)
        ensures
            is_pairwise_union(r@, self@, other@),
            forall|truth: spec_fn(Seq<char>) -> bool| #[trigger]
                cnf_holds(r@, truth) == (cnf_holds(self@, truth) || cnf_holds(other@, truth)),
            sorted_clauses(r@),
            forall|allowed: Set<Seq<char>>|
                named_within(self@, allowed) && named_within(other@, allowed)
                    ==> #[trigger] named_within(r@, allowed),
    {
        let ghost x = self@;
        let ghost y = other@;
        let lhs = lists_of_sums(self.0);
        let rhs = lists_of_sums(other.0);
        let r = Cnf(sums_of_lists(unions_of_pairs(&lhs, &rhs)));
        proof {
            assert forall|truth: spec_fn(Seq<char>) -> bool| #[trigger]
                cnf_holds(r@, truth) == (cnf_holds(x, truth) || cnf_holds(y, truth)) by {
                lemma_pairwise_union_holds(r@, x, y, truth);
            }
            assert forall|allowed: Set<Seq<char>>|
                named_within(x, allowed) && named_within(y, allowed) implies #[trigger] named_within(
                r@,
                allowed,
            ) by {
                lemma_pairwise_union_named_within(r@, x, y, allowed);
            }
        }
        r
    }

    /// The same form without the sums that always hold.
    pub fn reduce(self) -> (r: Cnf)
        ensures
            r@ == self@.filter(|s: Seq<Literal>| !clashes(s)),
    {
        let ghost all = self@;
        let ghost keep = |s: Seq<Literal>| !clashes(s);
        let mut out: Vec<DisjSum> = Vec::new();
        for sum in it: self.0
            invariant
                it.seq() == self.0@,
                all == sum_views(self.0@),
                keep == (|s: Seq<Literal>| !clashes(s)),
                sum_views(out@) == all.take(it.index() as int).filter(keep),
        {
            let ghost seen = all.take(it.index() as int);
            let ghost before = sum_views(out@);
            let ghost list = sum@;
            proof {
                assert(all.take(it.index() + 1) =~= seen.push(list));
                assert(seen.push(list).drop_last() =~= seen);
                reveal(Seq::filter);
            }
            if !sum.is_true() {
                out.push(sum);
                assert(sum_views(out@) =~= before.push(list));
            }
        }
        assert(all.take(self.0@.len() as int) =~= all);
        Cnf(out)
    }
}

} // verus!
