//! Tokens of the filter-expression language.

use crate::text::chars_of;
use vstd::prelude::*;
use vstd::string::StrSliceExecFns;

verus! {

/// The signs of the language.
#[derive(Debug, Clone, Copy, PartialEq, Eq, Structural)]
pub enum Symbol {
    Plus,
    Minus,
    Star,
    Bang,
    Open,
    Close,
}

/// A token: a name or a sign.
#[derive(Debug, Clone, PartialEq, Eq)]
pub enum Token {
    Name(String),
    Sign(Symbol),
}

/// The mathematical form of a token.
pub enum Lexeme {
    Name(Seq<char>),
    Sign(Symbol),
}

impl View for Token {
    type V = Lexeme;

    open spec fn view(&self) -> Lexeme {
        match self {
            Token::Name(name) => Lexeme::Name(name@),
            Token::Sign(sign) => Lexeme::Sign(*sign),
        }
    }
}

/// The mathematical forms of a list of tokens.
pub open spec fn lexemes(tokens: Seq<Token>) -> Seq<Lexeme> {
    tokens.map_values(|t: Token| t@)
}


/// Blanks, tabs and line ends separate tokens.
pub open spec fn is_space(c: char) -> bool {
    c == ' ' || c == '\t' || c == '\n' || c == '\r'
}

/// A name starts with an ASCII letter or an underscore.
pub open spec fn is_name_start(c: char) -> bool {
    ('a' <= c && c <= 'z') || ('A' <= c && c <= 'Z') || c == '_'
}

/// A name goes on with ASCII letters, digits and underscores.
pub open spec fn is_name_part(c: char) -> bool {
    is_name_start(c) || ('0' <= c && c <= '9')
}

/// The sign that a character writes, if it writes one.
pub open spec fn symbol_of(c: char) -> Option<Symbol> {
    if c == '+' {
        Some(Symbol::Plus)
    } else if c == '-' {
        Some(Symbol::Minus)
    } else if c == '*' {
        Some(Symbol::Star)
    } else if c == '!' {
        Some(Symbol::Bang)
    } else if c == '(' {
        Some(Symbol::Open)
    } else if c == ')' {
        Some(Symbol::Close)
    } else {
        None
    }
}

/// Where the run of name characters that starts at `pos` ends.
pub open spec fn name_end(s: Seq<char>, pos: int) -> int
    decreases s.len() - pos,
{
    if 0 <= pos < s.len() && is_name_part(s[pos]) {
        name_end(s, pos + 1)
    } else {
        pos
    }
}

/// A run of name characters ends at or after its start, and within the text.
pub proof fn lemma_name_end_bounds(s: Seq<char>, pos: int)
    requires
        0 <= pos <= s.len(),
    ensures
        pos <= name_end(s, pos) <= s.len(),
    decreases s.len() - pos,
{
    if pos < s.len() && is_name_part(s[pos]) {
        lemma_name_end_bounds(s, pos + 1);
    }
}

/// `first`, then the tokens of `rest`, where there are any.
pub open spec fn followed_by(first: Seq<Lexeme>, rest: Option<Seq<Lexeme>>) -> Option<
    Seq<Lexeme>,
> {
    match rest {
        Some(rest) => Some(first + rest),
        None => None,
    }
}

/// The tokens of `s` from `pos` on, or `None` where a character starts no
/// token. A name is as long as it can be.
pub open spec fn lexemes_from(s: Seq<char>, pos: int) -> Option<Seq<Lexeme>>
    decreases s.len() - pos,
    via lexemes_from_decreases
{
    if pos < 0 || pos >= s.len() {
        Some(Seq::empty())
    } else if is_space(s[pos]) {
        lexemes_from(s, pos + 1)
    } else if is_name_start(s[pos]) {
        let end = name_end(s, pos + 1);
        followed_by(seq![Lexeme::Name(s.subrange(pos, end))], lexemes_from(s, end))
    } else {
        match symbol_of(s[pos]) {
            Some(sign) => followed_by(seq![Lexeme::Sign(sign)], lexemes_from(s, pos + 1)),
            None => None,
        }
    }
}

#[via_fn]
proof fn lexemes_from_decreases(s: Seq<char>, pos: int) {
    if 0 <= pos < s.len() {
        lemma_name_end_bounds(s, pos + 1);
    }
}

/// The tokens of a text.
pub open spec fn lexemes_of(s: Seq<char>) -> Option<Seq<Lexeme>> {
    lexemes_from(s, 0)
}

fn is_space_char(c: char) -> (r: bool)
    ensures
        r == is_space(c),
{
    c == ' ' || c == '\t' || c == '\n' || c == '\r'
}

fn is_name_start_char(c: char) -> (r: bool)
    ensures
        r == is_name_start(c),
{
    ('a' <= c && c <= 'z') || ('A' <= c && c <= 'Z') || c == '_'
}

fn is_name_part_char(c: char) -> (r: bool)
    ensures
        r == is_name_part(c),
{
    is_name_start_char(c) || ('0' <= c && c <= '9')
}

fn symbol_of_char(c: char) -> (r: Option<Symbol>)
    ensures
        r == symbol_of(c),
{
    if c == '+' {
        Some(Symbol::Plus)
    } else if c == '-' {
        Some(Symbol::Minus)
    } else if c == '*' {
        Some(Symbol::Star)
    } else if c == '!' {
        Some(Symbol::Bang)
    } else if c == '(' {
        Some(Symbol::Open)
    } else if c == ')' {
        Some(Symbol::Close)
    } else {
        None
    }
}

/// Splits a text into tokens. Fails exactly where the text holds a
/// character that is neither a separator nor the start of a token.
pub fn tokenize(input: &str) -> (r: Option<Vec<Token>>)
    ensures
        match r {
            Some(tokens) => lexemes_of(input@) == Some(lexemes(tokens@)),
            None => lexemes_of(input@) is None,
        },
{
    let chars = chars_of(input);
    let mut tokens: Vec<Token> = Vec::new();
    let mut pos: usize = 0;
    while pos < chars.len()
        invariant
            pos <= chars.len(),
            chars@ == input@,
            lexemes_of(input@) == followed_by(lexemes(tokens@), lexemes_from(chars@, pos as int)),
        decreases chars.len() - pos,
    {
        let c = chars[pos];
        let ghost before = lexemes(tokens@);
        if is_space_char(c) {
            pos += 1;
        } else if is_name_start_char(c) {
            let mut end: usize = pos + 1;
            while end < chars.len() && is_name_part_char(chars[end])
                invariant
                    pos < end <= chars.len(),
                    name_end(chars@, pos + 1) == name_end(chars@, end as int),
                decreases chars.len() - end,
            {
                end += 1;
            }
            let name = input.substring_char(pos, end).to_owned();
            tokens.push(Token::Name(name));
            proof {
                let rest = lexemes_from(chars@, end as int);
                let one = seq![Lexeme::Name(chars@.subrange(pos as int, end as int))];
                assert(lexemes(tokens@) =~= before + one);
                if rest is Some {
                    assert(before + (one + rest->0) =~= (before + one) + rest->0);
                }
            }
            pos = end;
        } else {
            match symbol_of_char(c) {
                Some(sign) => {
                    tokens.push(Token::Sign(sign));
                    proof {
                        let rest = lexemes_from(chars@, pos + 1);
                        let one = seq![Lexeme::Sign(sign)];
                        assert(lexemes(tokens@) =~= before + one);
                        if rest is Some {
                            assert(before + (one + rest->0) =~= (before + one) + rest->0);
                        }
                    }
                    pos += 1;
                },
                None => {
                    return None;
                },
            }
        }
    }
    proof {
        assert(lexemes(tokens@) + Seq::<Lexeme>::empty() =~= lexemes(tokens@));
    }
    Some(tokens)
}

} // verus!
