//! Printing a formula and parsing the print gives the formula back.

use crate::lexer::{
    followed_by, is_name_part, is_name_start, is_space, lexemes_from, lexemes_of, name_end,
    symbol_of, Lexeme, Symbol,
};
use crate::parser::{
    advances, atom_at, parsed, product_at, product_rest, rendered, sign_at, sum_at, sum_rest,
    unary_at, Formula, ParseError,
};
use vstd::prelude::*;

verus! {

/// Whether a text is a name of the language.
pub open spec fn is_name(text: Seq<char>) -> bool {
    &&& text.len() > 0
    &&& is_name_start(text[0])
    &&& forall|i: int| 0 < i < text.len() ==> is_name_part(#[trigger] text[i])
}

/// Whether every name in a formula is a name of the language.
pub open spec fn well_named(formula: Formula) -> bool
    decreases formula,
{
    match formula {
        Formula::Var(name) => is_name(name),
        Formula::Not(inner) => well_named(*inner),
        Formula::And(lhs, rhs) => well_named(*lhs) && well_named(*rhs),
        Formula::Or(lhs, rhs) => well_named(*lhs) && well_named(*rhs),
    }
}

/// The tokens of the print of a formula.
pub open spec fn tokens_of(formula: Formula) -> Seq<Lexeme>
    decreases formula,
{
    match formula {
        Formula::Var(name) => seq![Lexeme::Name(name)],
        Formula::Not(inner) => seq![Lexeme::Sign(Symbol::Bang), Lexeme::Sign(Symbol::Open)]
            + tokens_of(*inner) + seq![Lexeme::Sign(Symbol::Close)],
        Formula::And(lhs, rhs) => seq![Lexeme::Sign(Symbol::Open)] + tokens_of(*lhs) + seq![
            Lexeme::Sign(Symbol::Close),
            Lexeme::Sign(Symbol::Star),
            Lexeme::Sign(Symbol::Open),
        ] + tokens_of(*rhs) + seq![Lexeme::Sign(Symbol::Close)],
        Formula::Or(lhs, rhs) => seq![Lexeme::Sign(Symbol::Open)] + tokens_of(*lhs) + seq![
            Lexeme::Sign(Symbol::Close),
            Lexeme::Sign(Symbol::Plus),
            Lexeme::Sign(Symbol::Open),
        ] + tokens_of(*rhs) + seq![Lexeme::Sign(Symbol::Close)],
    }
}

/// Whether the tokens of `ts` from `pos` on start with `part`.
pub open spec fn tokens_at(ts: Seq<Lexeme>, pos: int, part: Seq<Lexeme>) -> bool {
    &&& 0 <= pos
    &&& pos + part.len() <= ts.len()
    &&& forall|k: int| 0 <= k < part.len() ==> ts[pos + k] == #[trigger] part[k]
}

/// Whether the characters of `s` from `pos` on start with `part`.
pub open spec fn text_at(s: Seq<char>, pos: int, part: Seq<char>) -> bool {
    &&& 0 <= pos
    &&& pos + part.len() <= s.len()
    &&& forall|k: int| 0 <= k < part.len() ==> s[pos + k] == #[trigger] part[k]
}

/// Whether no operator stands at `pos`: what was read before `pos` is not
/// carried on.
pub open spec fn ends_operand(ts: Seq<Lexeme>, pos: int) -> bool {
    !sign_at(ts, pos, Symbol::Star) && !sign_at(ts, pos, Symbol::Plus) && !sign_at(
        ts,
        pos,
        Symbol::Minus,
    )
}

/// Whether no character at `pos` could carry a name on.
pub open spec fn ends_name(s: Seq<char>, pos: int) -> bool {
    pos >= s.len() || !is_name_part(s[pos])
}

/// The print of a formula has at least one token.
proof fn lemma_tokens_nonempty(formula: Formula)
    ensures
        tokens_of(formula).len() > 0,
{
}

/// An atom in brackets.
proof fn lemma_bracketed(ts: Seq<Lexeme>, pos: int, inner: Formula, end: int)
    requires
        sign_at(ts, pos, Symbol::Open),
        sum_at(ts, pos + 1) == Some((inner, end)),
        sign_at(ts, end, Symbol::Close),
    ensures
        atom_at(ts, pos) == Some((inner, end + 1)),
        unary_at(ts, pos) == Some((inner, end + 1)),
{
}

/// An operand that nothing carries on is a product and a sum.
proof fn lemma_lone_operand(ts: Seq<Lexeme>, pos: int, operand: Formula, end: int)
    requires
        unary_at(ts, pos) == Some((operand, end)),
        advances(ts, pos, end),
        ends_operand(ts, end),
    ensures
        product_at(ts, pos) == Some((operand, end)),
        sum_at(ts, pos) == Some((operand, end)),
{
    assert(product_rest(ts, end, operand) == Some((operand, end)));
    assert(sum_rest(ts, end, operand) == Some((operand, end)));
}

/// The tokens of the print of a formula, wherever they stand with no
/// operator after them, are read as that formula.
pub proof fn lemma_tokens_parse(formula: Formula, ts: Seq<Lexeme>, pos: int)
    requires
        tokens_at(ts, pos, tokens_of(formula)),
        ends_operand(ts, pos + tokens_of(formula).len()),
    ensures
        sum_at(ts, pos) == Some((formula, pos + tokens_of(formula).len())),
    decreases formula, 1int,
{
    let part = tokens_of(formula);
    let end = pos + part.len();
    match formula {
        Formula::Var(name) => {
            assert(ts[pos] == part[0]);
            assert(atom_at(ts, pos) == Some((formula, pos + 1)));
            assert(unary_at(ts, pos) == Some((formula, pos + 1)));
            lemma_lone_operand(ts, pos, formula, end);
        },
        Formula::Not(inner) => {
            lemma_negation_parses(formula, *inner, ts, pos);
            lemma_lone_operand(ts, pos, formula, end);
        },
        Formula::And(lhs, rhs) => {
            lemma_operands_parse(formula, *lhs, *rhs, Symbol::Star, ts, pos);
            let mid = pos + 1 + tokens_of(*lhs).len();
            assert(product_rest(ts, end, formula) == Some((formula, end)));
            assert(product_rest(ts, mid + 1, *lhs) == Some((formula, end)));
            assert(product_at(ts, pos) == Some((formula, end)));
            assert(sum_rest(ts, end, formula) == Some((formula, end)));
        },
        Formula::Or(lhs, rhs) => {
            lemma_operands_parse(formula, *lhs, *rhs, Symbol::Plus, ts, pos);
            let mid = pos + 1 + tokens_of(*lhs).len();
            assert(product_rest(ts, mid + 1, *lhs) == Some((*lhs, mid + 1)));
            assert(product_at(ts, pos) == Some((*lhs, mid + 1)));
            assert(product_rest(ts, end, *rhs) == Some((*rhs, end)));
            assert(product_at(ts, mid + 2) == Some((*rhs, end)));
            assert(sum_rest(ts, end, formula) == Some((formula, end)));
            assert(sum_rest(ts, mid + 1, *lhs) == Some((formula, end)));
        },
    }
}

/// The tokens of the print of a negation are read as one operand.
proof fn lemma_negation_parses(formula: Formula, inner: Formula, ts: Seq<Lexeme>, pos: int)
    requires
        formula == Formula::Not(Box::new(inner)),
        tokens_at(ts, pos, tokens_of(formula)),
    ensures
        unary_at(ts, pos) == Some((formula, pos + tokens_of(formula).len())),
        advances(ts, pos, pos + tokens_of(formula).len()),
    decreases formula, 0int,
{
    let part = tokens_of(formula);
    let sub = tokens_of(inner);
    let n = sub.len() as int;
    assert(part =~= seq![Lexeme::Sign(Symbol::Bang), Lexeme::Sign(Symbol::Open)] + sub + seq![
        Lexeme::Sign(Symbol::Close),
    ]);
    assert(ts[pos] == part[0]);
    assert(ts[pos + 1] == part[1]);
    assert(ts[pos + (2 + n)] == part[2 + n]);
    assert forall|k: int| 0 <= k < sub.len() implies ts[pos + 2 + k] == #[trigger] sub[k] by {
        assert(ts[pos + (2 + k)] == part[2 + k]);
    }
    lemma_tokens_parse(inner, ts, pos + 2);
    lemma_bracketed(ts, pos + 1, inner, pos + 2 + n);
}

/// In the tokens of the print of a formula of two operands, each operand
/// in its brackets is read as one operand, and the sign stands between.
proof fn lemma_operands_parse(
    formula: Formula,
    lhs: Formula,
    rhs: Formula,
    sign: Symbol,
    ts: Seq<Lexeme>,
    pos: int,
)
    requires
        (formula == Formula::And(Box::new(lhs), Box::new(rhs)) && sign == Symbol::Star) || (
        formula == Formula::Or(Box::new(lhs), Box::new(rhs)) && sign == Symbol::Plus),
        tokens_at(ts, pos, tokens_of(formula)),
    ensures
        unary_at(ts, pos) == Some((lhs, pos + 2 + tokens_of(lhs).len())),
        sign_at(ts, pos + 2 + tokens_of(lhs).len(), sign),
        unary_at(ts, pos + 3 + tokens_of(lhs).len()) == Some(
            (rhs, pos + tokens_of(formula).len()),
        ),
        tokens_of(formula).len() == 5 + tokens_of(lhs).len() + tokens_of(rhs).len(),
        pos + tokens_of(formula).len() <= ts.len(),
        0 <= pos,
    decreases formula, 0int,
{
    let part = tokens_of(formula);
    let left = tokens_of(lhs);
    let right = tokens_of(rhs);
    let ll = left.len() as int;
    let lr = right.len() as int;
    assert(part =~= seq![Lexeme::Sign(Symbol::Open)] + left + seq![
        Lexeme::Sign(Symbol::Close),
        Lexeme::Sign(sign),
        Lexeme::Sign(Symbol::Open),
    ] + right + seq![Lexeme::Sign(Symbol::Close)]);
    let mid = pos + 1 + ll;
    assert(ts[pos] == part[0]);
    assert(ts[pos + (1 + ll)] == part[1 + ll]);
    assert(ts[pos + (2 + ll)] == part[2 + ll]);
    assert(ts[pos + (3 + ll)] == part[3 + ll]);
    assert(ts[pos + (4 + ll + lr)] == part[4 + ll + lr]);
    assert forall|k: int| 0 <= k < left.len() implies ts[pos + 1 + k] == #[trigger] left[k] by {
        assert(ts[pos + (1 + k)] == part[1 + k]);
    }
    assert forall|k: int| 0 <= k < right.len() implies ts[mid + 3 + k] == #[trigger] right[k] by {
        assert(ts[pos + (4 + ll + k)] == part[4 + ll + k]);
    }
    lemma_tokens_parse(lhs, ts, pos + 1);
    lemma_bracketed(ts, pos, lhs, mid);
    lemma_tokens_parse(rhs, ts, mid + 3);
    lemma_bracketed(ts, mid + 2, rhs, mid + 3 + lr);
}

/// A run of name characters that something ends is read to its end.
proof fn lemma_name_end_reaches(s: Seq<char>, from: int, end: int)
    requires
        0 <= from <= end <= s.len(),
        forall|k: int| from <= k < end ==> is_name_part(#[trigger] s[k]),
        ends_name(s, end),
    ensures
        name_end(s, from) == end,
    decreases end - from,
{
    if from < end {
        lemma_name_end_reaches(s, from + 1, end);
    }
}

/// One sign character is one token.
proof fn lemma_sign_is_read(s: Seq<char>, pos: int, sign: Symbol)
    requires
        0 <= pos < s.len(),
        symbol_of(s[pos]) == Some(sign),
    ensures
        lexemes_from(s, pos) == followed_by(seq![Lexeme::Sign(sign)], lexemes_from(s, pos + 1)),
{
}

/// A blank is no token.
proof fn lemma_blank_is_skipped(s: Seq<char>, pos: int)
    requires
        0 <= pos < s.len(),
        s[pos] == ' ',
    ensures
        lexemes_from(s, pos) == lexemes_from(s, pos + 1),
{
}

/// Tokens read one after the other are read together.
proof fn lemma_followed_twice(x: Seq<Lexeme>, y: Seq<Lexeme>, rest: Option<Seq<Lexeme>>)
    ensures
        followed_by(x, followed_by(y, rest)) == followed_by(x + y, rest),
{
    if rest is Some {
        assert(x + (y + rest->0) =~= (x + y) + rest->0);
    }
}

/// The print of a formula, wherever it stands with nothing after it that
/// could carry a name on, is read as the tokens of the print.
pub proof fn lemma_text_lexes(formula: Formula, s: Seq<char>, pos: int)
    requires
        well_named(formula),
        text_at(s, pos, rendered(formula)),
        ends_name(s, pos + rendered(formula).len()),
    ensures
        rendered(formula).len() > 0,
        lexemes_from(s, pos) == followed_by(
            tokens_of(formula),
            lexemes_from(s, pos + rendered(formula).len()),
        ),
    decreases formula,
{
    let text = rendered(formula);
    let end = pos + text.len();
    let after = lexemes_from(s, end);
    match formula {
        Formula::Var(name) => {
            assert(s[pos] == text[0]);
            assert forall|k: int| pos + 1 <= k < end implies is_name_part(#[trigger] s[k]) by {
                assert(s[pos + (k - pos)] == text[k - pos]);
            }
            lemma_name_end_reaches(s, pos + 1, end);
            assert(s.subrange(pos, end) =~= name) by {
                assert forall|k: int| 0 <= k < name.len() implies s.subrange(pos, end)[k]
                    == name[k] by {
                    assert(s[pos + k] == text[k]);
                }
            }
        },
        Formula::Not(inner) => {
            let sub = rendered(*inner);
            assert(text =~= seq!['!', '('] + sub + seq![')']);
            assert(s[pos] == text[0]);
            assert(s[pos + 1] == text[1]);
            assert(s[pos + 2 + sub.len()] == text[2 + (sub.len() as int)]);
            assert forall|k: int| 0 <= k < sub.len() implies s[pos + 2 + k] == #[trigger] sub[k] by {
                assert(s[pos + (2 + k)] == text[2 + k]);
            }
            lemma_text_lexes(*inner, s, pos + 2);
            let close = pos + 2 + sub.len();
            lemma_sign_is_read(s, close, Symbol::Close);
            lemma_sign_is_read(s, pos + 1, Symbol::Open);
            lemma_sign_is_read(s, pos, Symbol::Bang);
            let t_close = seq![Lexeme::Sign(Symbol::Close)];
            let t_open = seq![Lexeme::Sign(Symbol::Open)];
            let t_bang = seq![Lexeme::Sign(Symbol::Bang)];
            lemma_followed_twice(tokens_of(*inner), t_close, after);
            lemma_followed_twice(t_open, tokens_of(*inner) + t_close, after);
            lemma_followed_twice(t_bang, t_open + (tokens_of(*inner) + t_close), after);
            assert(t_bang + (t_open + (tokens_of(*inner) + t_close)) =~= tokens_of(formula));
        },
        Formula::And(lhs, rhs) => {
            lemma_connective_lexes(formula, *lhs, *rhs, '*', Symbol::Star, s, pos);
        },
        Formula::Or(lhs, rhs) => {
            lemma_connective_lexes(formula, *lhs, *rhs, '+', Symbol::Plus, s, pos);
        },
    }
}

/// The case of `lemma_text_lexes` for a formula of two operands.
proof fn lemma_connective_lexes(
    formula: Formula,
    lhs: Formula,
    rhs: Formula,
    mark: char,
    sign: Symbol,
    s: Seq<char>,
    pos: int,
)
    requires
        (formula == Formula::And(Box::new(lhs), Box::new(rhs)) && mark == '*' && sign
            == Symbol::Star) || (formula == Formula::Or(Box::new(lhs), Box::new(rhs)) && mark
            == '+' && sign == Symbol::Plus),
        well_named(formula),
        text_at(s, pos, rendered(formula)),
    ensures
        rendered(formula).len() > 0,
        lexemes_from(s, pos) == followed_by(
            tokens_of(formula),
            lexemes_from(s, pos + rendered(formula).len()),
        ),
    decreases formula, 0int,
{
    let text = rendered(formula);
    let end = pos + text.len();
    let after = lexemes_from(s, end);
    let left = rendered(lhs);
    let right = rendered(rhs);
    assert(text =~= seq!['('] + left + seq![')', ' ', mark, ' ', '('] + right + seq![')']);
    let mid = pos + 1 + left.len();
    assert(s[pos] == text[0]);
    assert(s[mid] == text[1 + (left.len() as int)]);
    assert(s[mid + 1] == text[2 + (left.len() as int)]);
    assert(s[mid + 2] == text[3 + (left.len() as int)]);
    assert(s[mid + 3] == text[4 + (left.len() as int)]);
    assert(s[mid + 4] == text[5 + (left.len() as int)]);
    assert(s[mid + 5 + right.len()] == text[6 + (left.len() as int) + (right.len() as int)]);
    assert forall|k: int| 0 <= k < left.len() implies s[pos + 1 + k] == #[trigger] left[k] by {
        assert(s[pos + (1 + k)] == text[1 + k]);
    }
    assert forall|k: int| 0 <= k < right.len() implies s[mid + 5 + k] == #[trigger] right[k] by {
        assert(s[pos + (6 + left.len() + k)] == text[6 + (left.len() as int) + k]);
    }
    lemma_text_lexes(lhs, s, pos + 1);
    lemma_text_lexes(rhs, s, mid + 5);
    lemma_sign_is_read(s, pos, Symbol::Open);
    lemma_sign_is_read(s, mid, Symbol::Close);
    lemma_blank_is_skipped(s, mid + 1);
    lemma_sign_is_read(s, mid + 2, sign);
    lemma_blank_is_skipped(s, mid + 3);
    lemma_sign_is_read(s, mid + 4, Symbol::Open);
    lemma_sign_is_read(s, mid + 5 + right.len(), Symbol::Close);
    let t_open = seq![Lexeme::Sign(Symbol::Open)];
    let t_close = seq![Lexeme::Sign(Symbol::Close)];
    let t_sign = seq![Lexeme::Sign(sign)];
    let tl = tokens_of(lhs);
    let tr = tokens_of(rhs);
    lemma_followed_twice(tr, t_close, after);
    lemma_followed_twice(t_open, tr + t_close, after);
    lemma_followed_twice(t_sign, t_open + (tr + t_close), after);
    lemma_followed_twice(t_close, t_sign + (t_open + (tr + t_close)), after);
    lemma_followed_twice(tl, t_close + (t_sign + (t_open + (tr + t_close))), after);
    lemma_followed_twice(t_open, tl + (t_close + (t_sign + (t_open + (tr + t_close)))), after);
    assert(t_open + (tl + (t_close + (t_sign + (t_open + (tr + t_close))))) =~= tokens_of(
        formula,
    ));
}

/// Parsing the print of a formula whose names are names of the language
/// gives the formula.
pub proof fn lemma_print_then_parse(formula: Formula)
    requires
        well_named(formula),
    ensures
        parsed(rendered(formula)) == Ok::<Formula, ParseError>(formula),
{
    let text = rendered(formula);
    let ts = tokens_of(formula);
    assert(text_at(text, 0, text));
    lemma_text_lexes(formula, text, 0);
    assert(lexemes_from(text, text.len() as int) == Some(Seq::<Lexeme>::empty()));
    assert(ts + Seq::<Lexeme>::empty() =~= ts);
    assert(lexemes_of(text) == Some(ts));
    assert(tokens_at(ts, 0, ts));
    lemma_tokens_parse(formula, ts, 0);
}

/// Whether every name token is a name of the language.
pub open spec fn names_valid(ts: Seq<Lexeme>) -> bool {
    forall|i: int|
        0 <= i < ts.len() ==> match #[trigger] ts[i] {
            Lexeme::Name(name) => is_name(name),
            Lexeme::Sign(_) => true,
        }
}

/// The characters before the end of a run of name characters are name
/// characters.
proof fn lemma_name_end_covers(s: Seq<char>, from: int, k: int)
    requires
        0 <= from <= k < name_end(s, from),
    ensures
        k < s.len(),
        is_name_part(s[k]),
    decreases s.len() - from,
{
    if from < s.len() && is_name_part(s[from]) {
        if k > from {
            lemma_name_end_covers(s, from + 1, k);
        }
    }
}

/// The name tokens of a text are names of the language.
pub proof fn lemma_lexed_names_valid(s: Seq<char>, pos: int)
    requires
        0 <= pos,
        lexemes_from(s, pos) is Some,
    ensures
        names_valid(lexemes_from(s, pos)->0),
    decreases s.len() - pos,
{
    let ts = lexemes_from(s, pos)->0;
    if pos >= s.len() {
    } else if is_space(s[pos]) {
        lemma_lexed_names_valid(s, pos + 1);
    } else if is_name_start(s[pos]) {
        let end = name_end(s, pos + 1);
        crate::lexer::lemma_name_end_bounds(s, pos + 1);
        lemma_lexed_names_valid(s, end);
        let rest = lexemes_from(s, end)->0;
        let name = s.subrange(pos, end);
        assert forall|i: int| 0 < i < name.len() implies is_name_part(#[trigger] name[i]) by {
            lemma_name_end_covers(s, pos + 1, pos + i);
        }
        assert(is_name(name));
        assert forall|i: int| 0 <= i < ts.len() implies match #[trigger] ts[i] {
            Lexeme::Name(n) => is_name(n),
            Lexeme::Sign(_) => true,
        } by {
            if i > 0 {
                assert(ts[i] == rest[i - 1]);
            }
        }
    } else {
        lemma_lexed_names_valid(s, pos + 1);
        let rest = lexemes_from(s, pos + 1)->0;
        assert forall|i: int| 0 <= i < ts.len() implies match #[trigger] ts[i] {
            Lexeme::Name(n) => is_name(n),
            Lexeme::Sign(_) => true,
        } by {
            if i > 0 {
                assert(ts[i] == rest[i - 1]);
            }
        }
    }
}

/// A formula read from valid tokens has valid names: the case of an atom.
proof fn lemma_atom_well_named(ts: Seq<Lexeme>, pos: int)
    requires
        names_valid(ts),
        atom_at(ts, pos) is Some,
    ensures
        well_named((atom_at(ts, pos)->0).0),
    decreases ts.len() - pos, 0int,
{
    match ts[pos] {
        Lexeme::Name(_) => {},
        Lexeme::Sign(_) => {
            lemma_sum_well_named(ts, pos + 1);
        },
    }
}

/// The case of an operand.
proof fn lemma_unary_well_named(ts: Seq<Lexeme>, pos: int)
    requires
        names_valid(ts),
        unary_at(ts, pos) is Some,
    ensures
        well_named((unary_at(ts, pos)->0).0),
    decreases ts.len() - pos, 1int,
{
    if sign_at(ts, pos, Symbol::Bang) {
        lemma_unary_well_named(ts, pos + 1);
    } else {
        lemma_atom_well_named(ts, pos);
    }
}

/// The case of the factors after the first.
proof fn lemma_product_rest_well_named(ts: Seq<Lexeme>, pos: int, lhs: Formula)
    requires
        names_valid(ts),
        well_named(lhs),
        product_rest(ts, pos, lhs) is Some,
    ensures
        well_named((product_rest(ts, pos, lhs)->0).0),
    decreases ts.len() - pos, 2int,
{
    if sign_at(ts, pos, Symbol::Star) {
        lemma_unary_well_named(ts, pos + 1);
        let (rhs, end) = unary_at(ts, pos + 1)->0;
        lemma_product_rest_well_named(ts, end, Formula::And(Box::new(lhs), Box::new(rhs)));
    }
}

/// The case of a product.
proof fn lemma_product_well_named(ts: Seq<Lexeme>, pos: int)
    requires
        names_valid(ts),
        product_at(ts, pos) is Some,
    ensures
        well_named((product_at(ts, pos)->0).0),
    decreases ts.len() - pos, 3int,
{
    lemma_unary_well_named(ts, pos);
    let (lhs, end) = unary_at(ts, pos)->0;
    lemma_product_rest_well_named(ts, end, lhs);
}

/// The case of the terms after the first.
proof fn lemma_sum_rest_well_named(ts: Seq<Lexeme>, pos: int, lhs: Formula)
    requires
        names_valid(ts),
        well_named(lhs),
        sum_rest(ts, pos, lhs) is Some,
    ensures
        well_named((sum_rest(ts, pos, lhs)->0).0),
    decreases ts.len() - pos, 4int,
{
    if sign_at(ts, pos, Symbol::Plus) {
        lemma_product_well_named(ts, pos + 1);
        let (rhs, end) = product_at(ts, pos + 1)->0;
        lemma_sum_rest_well_named(ts, end, Formula::Or(Box::new(lhs), Box::new(rhs)));
    } else if sign_at(ts, pos, Symbol::Minus) {
        lemma_product_well_named(ts, pos + 1);
        let (rhs, end) = product_at(ts, pos + 1)->0;
        let negated = Formula::Not(Box::new(rhs));
        assert(well_named(negated));
        lemma_sum_rest_well_named(ts, end, Formula::And(Box::new(lhs), Box::new(negated)));
    }
}

/// The case of a sum.
proof fn lemma_sum_well_named(ts: Seq<Lexeme>, pos: int)
    requires
        names_valid(ts),
        sum_at(ts, pos) is Some,
    ensures
        well_named((sum_at(ts, pos)->0).0),
    decreases ts.len() - pos, 5int,
{
    lemma_product_well_named(ts, pos);
    let (lhs, end) = product_at(ts, pos)->0;
    lemma_sum_rest_well_named(ts, end, lhs);
}

/// Every formula that the parser gives has names of the language only.
pub proof fn lemma_parsed_is_well_named(text: Seq<char>)
    requires
        parsed(text) is Ok,
    ensures
        well_named(parsed(text)->Ok_0),
{
    lemma_lexed_names_valid(text, 0);
    lemma_sum_well_named(lexemes_of(text)->0, 0);
}

/// Printing what was parsed and parsing the print gives the same formula
/// again.
pub proof fn lemma_parse_print_parse(text: Seq<char>)
    requires
        parsed(text) is Ok,
    ensures
        parsed(rendered(parsed(text)->Ok_0)) == parsed(text),
{
    lemma_parsed_is_well_named(text);
    lemma_print_then_parse(parsed(text)->Ok_0);
}

} // verus!
