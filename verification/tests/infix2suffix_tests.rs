use dragonbook::infix2suffix::{Infix2Suffix, InfixError};

fn output_of(parser: &Infix2Suffix) -> String {
    parser.output().iter().collect()
}

#[test]
fn infix2suffix_new_test() {
    let _ = Infix2Suffix::new("1+1".to_string());
}

#[test]
fn tests_new_test() {
    let _ = Infix2Suffix::new("1+1".to_string());
}

#[test]
fn infix2suffix_parse_test() {
    let mut parser = Infix2Suffix::new("9+5-2".to_string());
    assert!(parser.parse().is_ok());
}

#[test]
fn tests_parse_test() {
    let mut parser = Infix2Suffix::new("9+5-2".to_string());
    assert!(parser.parse().is_ok());
}

#[test]
fn infix2suffix_term_test() {
    let mut parser = Infix2Suffix::new("2+2".to_string());
    let _ = parser.term();
}

#[test]
fn tests_term_test() {
    let mut parser = Infix2Suffix::new("2+2".to_string());
    let _ = parser.term();
}

#[test]
fn infix2suffix_expect_test() {
    let mut parser = Infix2Suffix::new("abcdefg".to_string());
    assert!(parser.expect('a'));
    assert!(!parser.expect('A'));
}

#[test]
fn tests_expect_test() {
    let mut parser = Infix2Suffix::new("abcdefg".to_string());
    assert!(parser.expect('a'));
    assert!(!parser.expect('A'));
}

#[test]
fn infix2suffix_lookahead_test() {
    let parser = Infix2Suffix::new("abcdefg".to_string());
    assert_eq!('a', parser.get_lookahead());
}

#[test]
fn tests_lookahead_test() {
    let parser = Infix2Suffix::new("abcdefg".to_string());
    assert_eq!('a', parser.get_lookahead());
}

#[test]
fn parse_emits_postfix() {
    let mut parser = Infix2Suffix::new("9+5-2".to_string());
    assert!(parser.parse().is_ok());
    assert_eq!(output_of(&parser), "95+2-");
}

#[test]
fn parse_single_operand() {
    let mut parser = Infix2Suffix::new("7".to_string());
    assert!(parser.parse().is_ok());
    assert_eq!(output_of(&parser), "7");
}

#[test]
fn parse_missing_operand_fails_at_position() {
    // The operand after `+` is missing: the parse stops at its position.
    let mut parser = Infix2Suffix::new("9+".to_string());
    assert_eq!(parser.parse().unwrap_err(), InfixError { at: 2 });
    assert_eq!(output_of(&parser), "9");
}

#[test]
fn parse_empty_expression_fails() {
    let mut parser = Infix2Suffix::new("".to_string());
    assert_eq!(parser.parse().unwrap_err(), InfixError { at: 0 });
}

#[test]
fn term_emits_one_digit() {
    let mut parser = Infix2Suffix::new("2+2".to_string());
    assert!(parser.term().is_ok());
    assert_eq!(output_of(&parser), "2");
}

#[test]
fn expect_never_matches_underscore() {
    // The underscore stands in for the end of the expression, so
    // expecting it never succeeds, not even on a literal underscore.
    let mut parser = Infix2Suffix::new("_".to_string());
    assert!(!parser.expect('_'));
}
