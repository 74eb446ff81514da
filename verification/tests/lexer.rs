use point_filter::lexer::{tokenize, Symbol, Token};
use point_filter::text::{chars_of, str_precedes};

fn name(text: &str) -> Token {
    Token::Name(text.to_string())
}

#[test]
fn tokens_of_a_text() {
    assert_eq!(
        tokenize("f - !a*(b_1+C)"),
        Some(vec![
            name("f"),
            Token::Sign(Symbol::Minus),
            Token::Sign(Symbol::Bang),
            name("a"),
            Token::Sign(Symbol::Star),
            Token::Sign(Symbol::Open),
            name("b_1"),
            Token::Sign(Symbol::Plus),
            name("C"),
            Token::Sign(Symbol::Close),
        ])
    );
    assert_eq!(tokenize(""), Some(vec![]));
    assert_eq!(tokenize(" \t\r\n"), Some(vec![]));
}

#[test]
fn names_are_as_long_as_they_can_be() {
    assert_eq!(tokenize("ab cd"), Some(vec![name("ab"), name("cd")]));
    assert_eq!(tokenize("a1_"), Some(vec![name("a1_")]));
    assert_eq!(tokenize("_"), Some(vec![name("_")]));
}

#[test]
fn unknown_characters_stop_the_lexer() {
    assert_eq!(tokenize("a # b"), None);
    assert_eq!(tokenize("7"), None);
    assert_eq!(tokenize("a\u{a0}b"), None);
    assert_eq!(tokenize("ä"), None);
}

#[test]
fn characters_of_a_text() {
    assert_eq!(chars_of("aé!"), vec!['a', 'é', '!']);
    assert_eq!(chars_of(""), Vec::<char>::new());
}

#[test]
fn dictionary_order() {
    assert!(str_precedes("a", "b"));
    assert!(str_precedes("a", "ab"));
    assert!(str_precedes("", "a"));
    assert!(str_precedes("Z", "a"));
    assert!(str_precedes("ab", "b"));
    assert!(!str_precedes("b", "ab"));
    assert!(!str_precedes("a", "a"));
    assert!(!str_precedes("", ""));
    assert!(str_precedes("z", "é"));
}
