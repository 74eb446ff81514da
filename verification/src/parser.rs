//! The filter-expression language: its syntax tree, its grammar and its
//! parser.
//!
//! ```text
//! sum     := product (('+' | '-') product)*
//! product := unary ('*' unary)*
//! unary   := '!' unary | atom
//! atom    := NAME | '(' sum ')'
//! NAME    := [A-Za-z_][A-Za-z0-9_]*
//! ```
//!
//! `+` is "or", `*` is "and", `!` is "not", and `a - b` stands for
//! `a * !b`. Blanks, tabs and line ends separate tokens and mean nothing
//! else.

use crate::lexer::{lexemes, lexemes_of, tokenize, Lexeme, Symbol, Token};
use vstd::prelude::*;
use vstd::string::StringExecFns;

verus! {

/// The name of an item.
#[derive(Debug, Clone, PartialEq, Eq, PartialOrd, Ord, Hash)]
pub struct Ident(pub String);

/// The two binary connectives.
#[derive(Debug, Clone, Copy, PartialEq, Eq, Hash)]
pub enum BinOp {
    /// Conjunction.
    Mul,
    /// Disjunction.
    Add,
}

/// A binary node of the syntax tree.
#[derive(Debug, PartialEq, Eq, Hash)]
pub struct ExprBinOp {
    pub op: BinOp,
    pub lhs: Box<Expr>,
    pub rhs: Box<Expr>,
}

/// A filter expression.
#[derive(Debug, PartialEq, Eq, Hash)]
pub enum Expr {
    /// An item, by name.
    Ident(Ident),
    /// The negation of an expression.
    UnaryOp(Box<Expr>),
    /// Two expressions joined by a connective.
    BinOp(ExprBinOp),
}

/// A whole filter expression, as written by the user.
#[derive(Debug, PartialEq, Eq, Hash)]
pub struct Program(pub Expr);

/// Why a text is not a filter expression.
#[derive(Debug, Clone, Copy, PartialEq, Eq)]
pub enum ParseError {
    /// The text holds a character that starts no token.
    UnknownToken,
    /// The tokens do not form an expression: an operand is missing, a
    /// group is left open, or something follows the expression.
    Malformed,
}

/// The mathematical form of an expression: a propositional formula over
/// item names.
pub enum Formula {
    Var(Seq<char>),
    Not(Box<Formula>),
    And(Box<Formula>, Box<Formula>),
    Or(Box<Formula>, Box<Formula>),
}

impl View for Ident {
    type V = Seq<char>;

    open spec fn view(&self) -> Seq<char> {
        self.0@
    }
}

/// The formula that an expression stands for.
pub open spec fn formula_of(expr: Expr) -> Formula
    decreases expr,
{
    match expr {
        Expr::Ident(ident) => Formula::Var(ident@),
        Expr::UnaryOp(inner) => Formula::Not(Box::new(formula_of(*inner))),
        Expr::BinOp(node) => match node.op {
            BinOp::Mul => Formula::And(
                Box::new(formula_of(*node.lhs)),
                Box::new(formula_of(*node.rhs)),
            ),
            BinOp::Add => Formula::Or(
                Box::new(formula_of(*node.lhs)),
                Box::new(formula_of(*node.rhs)),
            ),
        },
    }
}

impl View for Expr {
    type V = Formula;

    open spec fn view(&self) -> Formula {
        formula_of(*self)
    }
}

impl View for Program {
    type V = Formula;

    open spec fn view(&self) -> Formula {
        self.0@
    }
}

/// The text of a formula: a name as it is, every operand of a connective in
/// brackets.
pub open spec fn rendered(formula: Formula) -> Seq<char>
    decreases formula,
{
    match formula {
        Formula::Var(name) => name,
        Formula::Not(inner) => seq!['!', '('] + rendered(*inner) + seq![')'],
        Formula::And(lhs, rhs) => seq!['('] + rendered(*lhs) + seq![')', ' ', '*', ' ', '(']
            + rendered(*rhs) + seq![')'],
        Formula::Or(lhs, rhs) => seq!['('] + rendered(*lhs) + seq![')', ' ', '+', ' ', '(']
            + rendered(*rhs) + seq![')'],
    }
}

impl Ident {
    /// The name as text.
    pub fn to_string(&self) -> (r: String)
        ensures
            r@ == self@,
    {
        self.0.clone()
    }
}

impl BinOp {
    /// The sign of the connective: `*` or `+`.
    pub fn to_string(&self) -> (r: String)
        ensures
            r@ == match *self {
                BinOp::Mul => seq!['*'],
                BinOp::Add => seq!['+'],
            },
    {
        proof {
            reveal_strlit("*");
            reveal_strlit("+");
        }
        match self {
            BinOp::Mul => {
                let r = String::from_str("*");
                assert(r@ =~= seq!['*']);
                r
            },
            BinOp::Add => {
                let r = String::from_str("+");
                assert(r@ =~= seq!['+']);
                r
            },
        }
    }
}

impl Expr {
    /// The expression as text, every operand in brackets.
    pub fn to_string(&self) -> (r: String)
        ensures
            r@ == rendered(self@),
        decreases self,
    {
        proof {
            reveal_strlit("!(");
            reveal_strlit("(");
            reveal_strlit(") ");
            reveal_strlit(" (");
            reveal_strlit(")");
        }
        match self {
            Expr::Ident(ident) => ident.to_string(),
            Expr::UnaryOp(inner) => {
                let mut out = String::from_str("!(");
                out.append(inner.to_string().as_str());
                out.append(")");
                assert(out@ =~= rendered(self@));
                out
            },
            Expr::BinOp(node) => {
                let mut out = String::from_str("(");
                out.append(node.lhs.to_string().as_str());
                out.append(") ");
                out.append(node.op.to_string().as_str());
                out.append(" (");
                out.append(node.rhs.to_string().as_str());
                out.append(")");
                assert(out@ =~= rendered(self@));
                out
            },
        }
    }
}

impl Program {
    /// The program as text. Where the names of the program are names of
    /// the language, parsing the text gives the program back.
    pub fn to_string(&self) -> (r: String)
        ensures
            r@ == rendered(self@),
    {
        self.0.to_string()
    }
}

/// Whether the token at `pos` is the sign `sign`.
pub open spec fn sign_at(ts: Seq<Lexeme>, pos: int, sign: Symbol) -> bool {
    0 <= pos < ts.len() && ts[pos] == Lexeme::Sign(sign)
}

/// Whether a piece of the token list that starts at `pos` and ends before
/// `end` holds at least one token.
pub open spec fn advances(ts: Seq<Lexeme>, pos: int, end: int) -> bool {
    pos < end <= ts.len()
}

/// An atom at `pos`: a name, or a sum in brackets. Gives the formula and
/// the position after the atom.
pub open spec fn atom_at(ts: Seq<Lexeme>, pos: int) -> Option<(Formula, int)>
    decreases ts.len() - pos, 0int,
{
    if 0 <= pos < ts.len() {
        match ts[pos] {
            Lexeme::Name(name) => Some((Formula::Var(name), pos + 1)),
            Lexeme::Sign(Symbol::Open) => match sum_at(ts, pos + 1) {
                Some((inner, end)) => if sign_at(ts, end, Symbol::Close) {
                    Some((inner, end + 1))
                } else {
                    None
                },
                None => None,
            },
            Lexeme::Sign(_) => None,
        }
    } else {
        None
    }
}

/// Any number of `!`, then an atom.
pub open spec fn unary_at(ts: Seq<Lexeme>, pos: int) -> Option<(Formula, int)>
    decreases ts.len() - pos, 1int,
{
    if sign_at(ts, pos, Symbol::Bang) {
        match unary_at(ts, pos + 1) {
            Some((inner, end)) => Some((Formula::Not(Box::new(inner)), end)),
            None => None,
        }
    } else {
        atom_at(ts, pos)
    }
}

/// The factors that follow `lhs` in a product, joined to it from the left.
pub open spec fn product_rest(ts: Seq<Lexeme>, pos: int, lhs: Formula) -> Option<(Formula, int)>
    decreases ts.len() - pos, 2int,
{
    if sign_at(ts, pos, Symbol::Star) {
        match unary_at(ts, pos + 1) {
            Some((rhs, end)) => if advances(ts, pos, end) {
                product_rest(ts, end, Formula::And(Box::new(lhs), Box::new(rhs)))
            } else {
                None
            },
            None => None,
        }
    } else {
        Some((lhs, pos))
    }
}

/// One factor or several, joined by `*` from the left.
pub open spec fn product_at(ts: Seq<Lexeme>, pos: int) -> Option<(Formula, int)>
    decreases ts.len() - pos, 3int,
{
    match unary_at(ts, pos) {
        Some((lhs, end)) => if advances(ts, pos, end) {
            product_rest(ts, end, lhs)
        } else {
            None
        },
        None => None,
    }
}

/// The terms that follow `lhs` in a sum, joined to it from the left:
/// `lhs + t` is a disjunction, `lhs - t` the conjunction of `lhs` with the
/// negation of `t`.
pub open spec fn sum_rest(ts: Seq<Lexeme>, pos: int, lhs: Formula) -> Option<(Formula, int)>
    decreases ts.len() - pos, 4int,
{
    if sign_at(ts, pos, Symbol::Plus) {
        match product_at(ts, pos + 1) {
            Some((rhs, end)) => if advances(ts, pos, end) {
                sum_rest(ts, end, Formula::Or(Box::new(lhs), Box::new(rhs)))
            } else {
                None
            },
            None => None,
        }
    } else if sign_at(ts, pos, Symbol::Minus) {
        match product_at(ts, pos + 1) {
            Some((rhs, end)) => if advances(ts, pos, end) {
                sum_rest(
                    ts,
                    end,
                    Formula::And(Box::new(lhs), Box::new(Formula::Not(Box::new(rhs)))),
                )
            } else {
                None
            },
            None => None,
        }
    } else {
        Some((lhs, pos))
    }
}

/// One term or several, joined by `+` and `-` from the left.
pub open spec fn sum_at(ts: Seq<Lexeme>, pos: int) -> Option<(Formula, int)>
    decreases ts.len() - pos, 5int,
{
    match product_at(ts, pos) {
        Some((lhs, end)) => if advances(ts, pos, end) {
            sum_rest(ts, end, lhs)
        } else {
            None
        },
        None => None,
    }
}

/// The formula that a token list writes: a sum that takes up the whole list.
pub open spec fn formula_of_tokens(ts: Seq<Lexeme>) -> Option<Formula> {
    match sum_at(ts, 0) {
        Some((formula, end)) => if end == ts.len() {
            Some(formula)
        } else {
            None
        },
        None => None,
    }
}

/// The result of parsing a text: the formula it writes, or the reason it
/// writes none.
pub open spec fn parsed(text: Seq<char>) -> Result<Formula, ParseError> {
    match lexemes_of(text) {
        None => Err(ParseError::UnknownToken),
        Some(ts) => match formula_of_tokens(ts) {
            None => Err(ParseError::Malformed),
            Some(formula) => Ok(formula),
        },
    }
}

/// What a parsing step returns: on success the expression agrees with the
/// grammar's formula `want` and the step took at least one token.
pub open spec fn step_agrees(
    got: Option<(Expr, usize)>,
    want: Option<(Formula, int)>,
    ts: Seq<Lexeme>,
    pos: int,
) -> bool {
    match got {
        Some((expr, end)) => want == Some((expr@, end as int)) && advances(ts, pos, end as int),
        None => want is None,
    }
}

fn is_sign(tokens: &Vec<Token>, pos: usize, sign: Symbol) -> (r: bool)
    ensures
        r == sign_at(lexemes(tokens@), pos as int, sign),
{
    if pos < tokens.len() {
        match &tokens[pos] {
            Token::Sign(found) => *found == sign,
            Token::Name(_) => false,
        }
    } else {
        false
    }
}

impl Ident {
    /// The name held by a name token.
    fn parse(name: &String) -> (r: Self)
        ensures
            r@ == name@,
    {
        Ident(name.clone())
    }
}

impl Expr {
    fn parse_atom(tokens: &Vec<Token>, pos: usize) -> (r: Option<(Expr, usize)>)
        ensures
            step_agrees(r, atom_at(lexemes(tokens@), pos as int), lexemes(tokens@), pos as int),
        decreases tokens.len() - pos, 0int,
    {
        if pos >= tokens.len() {
            return None;
        }
        match &tokens[pos] {
            Token::Name(name) => Some((Expr::Ident(Ident::parse(name)), pos + 1)),
            Token::Sign(Symbol::Open) => match Expr::parse_sum(tokens, pos + 1) {
                Some((inner, end)) => if is_sign(tokens, end, Symbol::Close) {
                    Some((inner, end + 1))
                } else {
                    None
                },
                None => None,
            },
            Token::Sign(_) => None,
        }
    }

    fn parse_unary(tokens: &Vec<Token>, pos: usize) -> (r: Option<(Expr, usize)>)
        ensures
            step_agrees(r, unary_at(lexemes(tokens@), pos as int), lexemes(tokens@), pos as int),
        decreases tokens.len() - pos, 1int,
    {
        if is_sign(tokens, pos, Symbol::Bang) {
            match Expr::parse_unary(tokens, pos + 1) {
                Some((inner, end)) => Some((Expr::UnaryOp(Box::new(inner)), end)),
                None => None,
            }
        } else {
            Expr::parse_atom(tokens, pos)
        }
    }

    fn parse_product_rest(tokens: &Vec<Token>, pos: usize, lhs: Expr) -> (r: Option<
        (Expr, usize),
    >)
        requires
            pos <= tokens.len(),
        ensures
            match r {
                Some((expr, end)) => product_rest(lexemes(tokens@), pos as int, lhs@) == Some(
                    (expr@, end as int),
                ) && pos <= end <= tokens.len(),
                None => product_rest(lexemes(tokens@), pos as int, lhs@) is None,
            },
        decreases tokens.len() - pos, 2int,
    {
        if is_sign(tokens, pos, Symbol::Star) {
            match Expr::parse_unary(tokens, pos + 1) {
                Some((rhs, end)) => {
                    let joined = Expr::BinOp(
                        ExprBinOp { op: BinOp::Mul, lhs: Box::new(lhs), rhs: Box::new(rhs) },
                    );
                    Expr::parse_product_rest(tokens, end, joined)
                },
                None => None,
            }
        } else {
            Some((lhs, pos))
        }
    }

    fn parse_product(tokens: &Vec<Token>, pos: usize) -> (r: Option<(Expr, usize)>)
        ensures
            step_agrees(r, product_at(lexemes(tokens@), pos as int), lexemes(tokens@), pos as int),
        decreases tokens.len() - pos, 3int,
    {
        match Expr::parse_unary(tokens, pos) {
            Some((lhs, end)) => Expr::parse_product_rest(tokens, end, lhs),
            None => None,
        }
    }

    fn parse_sum_rest(tokens: &Vec<Token>, pos: usize, lhs: Expr) -> (r: Option<(Expr, usize)>)
        requires
            pos <= tokens.len(),
        ensures
            match r {
                Some((expr, end)) => sum_rest(lexemes(tokens@), pos as int, lhs@) == Some(
                    (expr@, end as int),
                ) && pos <= end <= tokens.len(),
                None => sum_rest(lexemes(tokens@), pos as int, lhs@) is None,
            },
        decreases tokens.len() - pos, 4int,
    {
        if is_sign(tokens, pos, Symbol::Plus) {
            match Expr::parse_product(tokens, pos + 1) {
                Some((rhs, end)) => {
                    let joined = Expr::BinOp(
                        ExprBinOp { op: BinOp::Add, lhs: Box::new(lhs), rhs: Box::new(rhs) },
                    );
                    Expr::parse_sum_rest(tokens, end, joined)
                },
                None => None,
            }
        } else if is_sign(tokens, pos, Symbol::Minus) {
            match Expr::parse_product(tokens, pos + 1) {
                Some((rhs, end)) => {
                    let joined = Expr::BinOp(
                        ExprBinOp {
                            op: BinOp::Mul,
                            lhs: Box::new(lhs),
                            rhs: Box::new(Expr::UnaryOp(Box::new(rhs))),
                        },
                    );
                    proof {
                        reveal_with_fuel(formula_of, 3);
                    }
                    Expr::parse_sum_rest(tokens, end, joined)
                },
                None => None,
            }
        } else {
            Some((lhs, pos))
        }
    }

    fn parse_sum(tokens: &Vec<Token>, pos: usize) -> (r: Option<(Expr, usize)>)
        ensures
            step_agrees(r, sum_at(lexemes(tokens@), pos as int), lexemes(tokens@), pos as int),
        decreases tokens.len() - pos, 5int,
    {
        match Expr::parse_product(tokens, pos) {
            Some((lhs, end)) => Expr::parse_sum_rest(tokens, end, lhs),
            None => None,
        }
    }

    /// Reads a whole token list as one expression.
    pub fn parse(tokens: &Vec<Token>) -> (r: Option<Expr>)
        ensures
            match r {
                Some(expr) => formula_of_tokens(lexemes(tokens@)) == Some(expr@),
                None => formula_of_tokens(lexemes(tokens@)) is None,
            },
    {
        match Expr::parse_sum(tokens, 0) {
            Some((expr, end)) => if end == tokens.len() {
                Some(expr)
            } else {
                None
            },
            None => None,
        }
    }
}

impl Program {
    /// Reads a whole token list as a program.
    pub fn parse(tokens: &Vec<Token>) -> (r: Option<Program>)
        ensures
            match r {
                Some(program) => formula_of_tokens(lexemes(tokens@)) == Some(program@),
                None => formula_of_tokens(lexemes(tokens@)) is None,
            },
    {
        match Expr::parse(tokens) {
            Some(expr) => Some(Program(expr)),
            None => None,
        }
    }
}

/// The parser of the filter-expression language.
#[derive(Debug, Clone, Copy)]
pub struct ExprParser;

impl ExprParser {
    /// Parses a text. Succeeds exactly on the texts that the grammar
    /// accepts, with the formula that the grammar gives them.
    pub fn parse(input: &str) -> (r: Result<Program, ParseError>)
        ensures
            match r {
                Ok(program) => parsed(input@) == Ok::<Formula, ParseError>(program@),
                Err(e) => parsed(input@) == Err::<Formula, ParseError>(e),
            },
    {
        match tokenize(input) {
            None => Err(ParseError::UnknownToken),
            Some(tokens) => match Program::parse(&tokens) {
                None => Err(ParseError::Malformed),
                Some(program) => Ok(program),
            },
        }
    }
}

/// Parses a filter expression. Succeeds exactly on the texts that the
/// grammar accepts, with the formula that the grammar gives them.
pub fn parse_str(input: &str) -> (r: Result<Program, ParseError>)
    ensures
        match r {
            Ok(program) => parsed(input@) == Ok::<Formula, ParseError>(program@),
            Err(e) => parsed(input@) == Err::<Formula, ParseError>(e),
        },
{
    ExprParser::parse(input)
}

} // verus!
