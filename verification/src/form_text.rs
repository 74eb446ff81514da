//! Normal forms as text.

use crate::normal_form::{literals, Cnf, ConjProduct, DisjSum, Dnf, Literal, Term};
use vstd::prelude::*;
use vstd::string::StringExecFns;

verus! {

/// The text of a literal: the name, after a `!` if it is negated.
pub open spec fn term_text(literal: Literal) -> Seq<char> {
    if literal.invert {
        seq!['!'] + literal.name
    } else {
        literal.name
    }
}

/// The texts in order, with `sep` between each two.
pub open spec fn joined(parts: Seq<Seq<char>>, sep: Seq<char>) -> Seq<char>
    decreases parts.len(),
{
    if parts.len() == 0 {
        Seq::empty()
    } else if parts.len() == 1 {
        parts[0]
    } else {
        joined(parts.drop_last(), sep) + sep + parts.last()
    }
}

/// The texts of the literals of a clause.
pub open spec fn term_texts(clause: Seq<Literal>) -> Seq<Seq<char>> {
    clause.map_values(|l: Literal| term_text(l))
}

/// The text of a product: its terms with ` * ` between them.
pub open spec fn product_text(clause: Seq<Literal>) -> Seq<char> {
    joined(term_texts(clause), seq![' ', '*', ' '])
}

/// The text of a sum: its terms with ` + ` between them.
pub open spec fn sum_text(clause: Seq<Literal>) -> Seq<char> {
    joined(term_texts(clause), seq![' ', '+', ' '])
}

/// The text of a disjunctive form: its products with ` + ` between them.
pub open spec fn dnf_text(products: Seq<Seq<Literal>>) -> Seq<char> {
    joined(products.map_values(|p: Seq<Literal>| product_text(p)), seq![' ', '+', ' '])
}

/// The text of a conjunctive form: its sums, each in brackets, with ` * `
/// between them.
pub open spec fn cnf_text(sums: Seq<Seq<Literal>>) -> Seq<char> {
    joined(
        sums.map_values(|s: Seq<Literal>| seq!['('] + sum_text(s) + seq![')']),
        seq![' ', '*', ' '],
    )
}

/// The views of a list of texts.
pub open spec fn text_views(parts: Seq<String>) -> Seq<Seq<char>> {
    parts.map_values(|p: String| p@)
}

/// The texts in order, with `sep` between each two.
fn join(parts: &Vec<String>, sep: &str) -> (r: String)
    ensures
        r@ == joined(text_views(parts@), sep@),
{
    let mut out = String::new();
    let ghost all = text_views(parts@);
    let mut i: usize = 0;
    while i < parts.len()
        invariant
            i <= parts.len(),
            all == text_views(parts@),
            out@ == joined(all.take(i as int), sep@),
        decreases parts.len() - i,
    {
        proof {
            assert(all.take(i + 1).drop_last() =~= all.take(i as int));
            assert(all.take(i + 1).last() == parts@[i as int]@);
        }
        if i > 0 {
            out.append(sep);
        }
        out.append(parts[i].as_str());
        proof {
            if i == 0 {
                assert(out@ =~= parts@[0]@);
            }
        }
        i += 1;
    }
    assert(all.take(parts@.len() as int) =~= all);
    out
}

/// The texts of the terms of a clause.
fn texts_of_terms(terms: &Vec<Term>) -> (r: Vec<String>)
    ensures
        text_views(r@) == term_texts(literals(terms@)),
{
    let ghost want = term_texts(literals(terms@));
    let mut out: Vec<String> = Vec::new();
    let mut i: usize = 0;
    while i < terms.len()
        invariant
            i <= terms.len(),
            want == term_texts(literals(terms@)),
            text_views(out@) == want.take(i as int),
        decreases terms.len() - i,
    {
        let ghost before = text_views(out@);
        let text = terms[i].to_string();
        out.push(text);
        proof {
            assert(text_views(out@) =~= before.push(want[i as int]));
            assert(want.take(i + 1) =~= want.take(i as int).push(want[i as int]));
        }
        i += 1;
    }
    assert(want.take(terms@.len() as int) =~= want);
    out
}

impl Term {
    /// The term as text: the name, after a `!` if the term is negated.
    pub fn to_string(&self) -> (r: String)
        ensures
            r@ == term_text(self@),
    {
        if self.invert {
            proof {
                reveal_strlit("!");
            }
            let mut out = String::from_str("!");
            out.append(self.ident.0.as_str());
            assert(out@ =~= seq!['!'] + self@.name);
            out
        } else {
            self.ident.0.clone()
        }
    }
}

impl ConjProduct {
    /// The product as text: its terms, in the order held, with ` * `
    /// between them.
    pub fn to_string(&self) -> (r: String)
        ensures
            r@ == product_text(self@),
    {
        proof {
            reveal_strlit(" * ");
            assert(" * "@ =~= seq![' ', '*', ' ']);
        }
        join(&texts_of_terms(&self.0), " * ")
    }
}

impl DisjSum {
    /// The sum as text: its terms, in the order held, with ` + ` between
    /// them.
    pub fn to_string(&self) -> (r: String)
        ensures
            r@ == sum_text(self@),
    {
        proof {
            reveal_strlit(" + ");
            assert(" + "@ =~= seq![' ', '+', ' ']);
        }
        join(&texts_of_terms(&self.0), " + ")
    }
}

impl Dnf {
    /// The form as text: its products with ` + ` between them.
    pub fn to_string(&self) -> (r: String)
        ensures
            r@ == dnf_text(self@),
    {
        let ghost want = self@.map_values(|p: Seq<Literal>| product_text(p));
        let mut parts: Vec<String> = Vec::new();
        let mut i: usize = 0;
        while i < self.0.len()
            invariant
                i <= self.0.len(),
                want == self@.map_values(|p: Seq<Literal>| product_text(p)),
                text_views(parts@) == want.take(i as int),
            decreases self.0.len() - i,
        {
            let ghost before = text_views(parts@);
            parts.push(self.0[i].to_string());
            proof {
                assert(self@[i as int] == self.0@[i as int]@);
                assert(text_views(parts@) =~= before.push(want[i as int]));
                assert(want.take(i + 1) =~= want.take(i as int).push(want[i as int]));
            }
            i += 1;
        }
        proof {
            assert(want.take(self.0@.len() as int) =~= want);
            reveal_strlit(" + ");
            assert(" + "@ =~= seq![' ', '+', ' ']);
        }
        join(&parts, " + ")
    }
}

impl Cnf {
    /// The form as text: its sums, each in brackets, with ` * ` between
    /// them.
    pub fn to_string(&self) -> (r: String)
        ensures
            r@ == cnf_text(self@),
    {
        let ghost want = self@.map_values(|s: Seq<Literal>| seq!['('] + sum_text(s) + seq![')']);
        let mut parts: Vec<String> = Vec::new();
        let mut i: usize = 0;
        proof {
            reveal_strlit("(");
            reveal_strlit(")");
        }
        while i < self.0.len()
            invariant
                i <= self.0.len(),
                "("@ == seq!['('],
                ")"@ == seq![')'],
                want == self@.map_values(|s: Seq<Literal>| seq!['('] + sum_text(s) + seq![')']),
                text_views(parts@) == want.take(i as int),
            decreases self.0.len() - i,
        {
            let ghost before = text_views(parts@);
            let mut part = String::from_str("(");
            part.append(self.0[i].to_string().as_str());
            part.append(")");
            proof {
                assert(self@[i as int] == self.0@[i as int]@);
                assert(part@ =~= want[i as int]);
            }
            parts.push(part);
            proof {
                assert(text_views(parts@) =~= before.push(want[i as int]));
                assert(want.take(i + 1) =~= want.take(i as int).push(want[i as int]));
            }
            i += 1;
        }
        proof {
            assert(want.take(self.0@.len() as int) =~= want);
            reveal_strlit(" * ");
            assert(" * "@ =~= seq![' ', '*', ' ']);
        }
        join(&parts, " * ")
    }
}

} // verus!
