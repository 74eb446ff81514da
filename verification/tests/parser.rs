use point_filter::parser::{parse_str, ParseError};

#[test]
fn parse_test() {
    let input = "f - !a * !(b + c) * d + e";
    let program = parse_str(input).unwrap();

    assert_eq!(
        program.to_string(),
        "((f) * (!(((!(a)) * (!((b) + (c)))) * (d)))) + (e)"
    );
}

#[test]
fn parse_rejects_unknown_character() {
    assert_eq!(parse_str("a + #"), Err(ParseError::UnknownToken));
}

#[test]
fn parse_rejects_malformed_text() {
    for text in ["", "a +", "a b", "(a", "a)", "()", "*a", "a ! b", "a + * b", "!"] {
        assert_eq!(parse_str(text), Err(ParseError::Malformed), "{}", text);
    }
    for text in ["a & b", "a + 1", "a.b", "é", "a + b;"] {
        assert_eq!(parse_str(text), Err(ParseError::UnknownToken), "{}", text);
    }
}

#[test]
fn parse_precedence_and_association() {
    let cases = [
        ("a", "a"),
        ("  a\t\n", "a"),
        ("_x1", "_x1"),
        ("!a", "!(a)"),
        ("!!a", "!(!(a))"),
        ("a+b+c", "((a) + (b)) + (c)"),
        ("a*b*c", "((a) * (b)) * (c)"),
        ("a+b*c", "(a) + ((b) * (c))"),
        ("a*b+c", "((a) * (b)) + (c)"),
        ("a-b", "(a) * (!(b))"),
        ("a-b-c", "((a) * (!(b))) * (!(c))"),
        ("a-b+c", "((a) * (!(b))) + (c)"),
        ("a-b*c", "(a) * (!((b) * (c)))"),
        ("!a*b", "(!(a)) * (b)"),
        ("!(a*b)", "!((a) * (b))"),
        ("(a+b)*c", "((a) + (b)) * (c)"),
        ("((a))", "a"),
    ];
    for (text, want) in cases {
        assert_eq!(parse_str(text).unwrap().to_string(), want, "{}", text);
    }
}

#[test]
fn printed_program_parses_to_itself() {
    for text in ["f - !a * !(b + c) * d + e", "a", "!(!a)", "a * (b + c) - d"] {
        let program = parse_str(text).unwrap();
        let printed = program.to_string();
        assert_eq!(parse_str(&printed).unwrap(), program);
    }
}

#[test]
fn a_digit_cannot_start_a_name() {
    assert_eq!(parse_str("1a"), Err(ParseError::UnknownToken));
    assert_eq!(parse_str("a1").unwrap().to_string(), "a1");
}
