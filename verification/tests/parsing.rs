use proplogic::ast::{BinaryOperator, Expression, UnaryOperator};
use proplogic::lexer::LexicalError;
use proplogic::parser::{parse, ParseError};

#[test]
fn logical_and() {
    let ast = parse("p&q");
    assert!(ast.is_ok());
}

#[test]
fn logical_or() {
    let ast = parse("p|q");
    assert!(ast.is_ok());
}

#[test]
fn logical_not() {
    let ast = parse("!p");
    assert!(ast.is_ok());
}

#[test]
fn implication() {
    let ast = parse("p=>q");
    assert!(ast.is_ok());
}

#[test]
fn and_then_or() {
    let ast = parse("p&q|r");
    assert!(ast.is_ok());
}

#[test]
fn or_then_and() {
    let ast = parse("p|q&r");
    assert!(ast.is_ok());
}

#[test]
fn ignore_spaces() {
    let ast = parse("p & q");
    assert!(ast.is_ok());
}

#[test]
fn bare_identifier_is_a_formula() {
    let ast = parse("p").unwrap();
    assert!(matches!(ast, Expression::Identifier { ref value } if value == "p"));
}

#[test]
fn bare_literals_are_formulas() {
    assert!(matches!(parse("true").unwrap(), Expression::True));
    assert!(matches!(parse("false").unwrap(), Expression::False));
}

#[test]
fn and_binds_tighter_than_or() {
    // "p|q&r" parses as p | (q & r).
    let ast = parse("p|q&r").unwrap();
    match ast {
        Expression::Binary { left, op: BinaryOperator::Or, right } => {
            assert!(matches!(*left, Expression::Identifier { ref value } if value == "p"));
            assert!(matches!(*right, Expression::Binary { op: BinaryOperator::And, .. }));
        }
        other => panic!("wrong shape: {:?}", other),
    }
}

#[test]
fn or_binds_looser_than_and_on_the_left() {
    // "p&q|r" parses as (p & q) | r.
    let ast = parse("p&q|r").unwrap();
    match ast {
        Expression::Binary { left, op: BinaryOperator::Or, right } => {
            assert!(matches!(*left, Expression::Binary { op: BinaryOperator::And, .. }));
            assert!(matches!(*right, Expression::Identifier { ref value } if value == "r"));
        }
        other => panic!("wrong shape: {:?}", other),
    }
}

#[test]
fn implication_is_loosest() {
    // "p&q=>r" parses as (p & q) => r.
    let ast = parse("p&q=>r").unwrap();
    match ast {
        Expression::Binary { left, op: BinaryOperator::Implies, right } => {
            assert!(matches!(*left, Expression::Binary { op: BinaryOperator::And, .. }));
            assert!(matches!(*right, Expression::Identifier { ref value } if value == "r"));
        }
        other => panic!("wrong shape: {:?}", other),
    }
}

#[test]
fn same_precedence_associates_left_to_right() {
    // "p&q&r" parses as (p & q) & r.
    let ast = parse("p&q&r").unwrap();
    match ast {
        Expression::Binary { left, op: BinaryOperator::And, right } => {
            assert!(matches!(*left, Expression::Binary { op: BinaryOperator::And, .. }));
            assert!(matches!(*right, Expression::Identifier { ref value } if value == "r"));
        }
        other => panic!("wrong shape: {:?}", other),
    }
}

#[test]
fn parentheses_override_precedence() {
    // "(p|q)&r" keeps the disjunction inside the group.
    let ast = parse("(p|q)&r").unwrap();
    match ast {
        Expression::Binary { left, op: BinaryOperator::And, .. } => match *left {
            Expression::Enclosed { inner } => {
                assert!(matches!(*inner, Expression::Binary { op: BinaryOperator::Or, .. }));
            }
            other => panic!("wrong shape: {:?}", other),
        },
        other => panic!("wrong shape: {:?}", other),
    }
}

#[test]
fn negation_is_prefix_unary() {
    let ast = parse("!!p").unwrap();
    match ast {
        Expression::Unary { op: UnaryOperator::Not, expr } => {
            assert!(matches!(*expr, Expression::Unary { op: UnaryOperator::Not, .. }));
        }
        other => panic!("wrong shape: {:?}", other),
    }
}

#[test]
fn empty_input_is_rejected() {
    assert_eq!(parse("").unwrap_err(), ParseError::UnexpectedEndOfInput);
    assert_eq!(parse("   ").unwrap_err(), ParseError::UnexpectedEndOfInput);
}

#[test]
fn truncated_input_is_rejected() {
    assert_eq!(parse("p &").unwrap_err(), ParseError::UnexpectedEndOfInput);
    assert_eq!(parse("!").unwrap_err(), ParseError::UnexpectedEndOfInput);
}

#[test]
fn unclosed_group_is_rejected() {
    assert_eq!(parse("(p").unwrap_err(), ParseError::UnexpectedEndOfInput);
    assert_eq!(parse("(p q").unwrap_err(), ParseError::UnmatchedParenthesis);
}

#[test]
fn stray_tokens_are_rejected() {
    assert_eq!(parse("p)").unwrap_err(), ParseError::TrailingTokens);
    assert_eq!(parse("p q").unwrap_err(), ParseError::TrailingTokens);
    assert_eq!(parse(")p").unwrap_err(), ParseError::UnexpectedToken);
    assert_eq!(parse("&p").unwrap_err(), ParseError::UnexpectedToken);
}

#[test]
fn unreadable_text_is_a_lexical_failure() {
    assert_eq!(parse("p $ q").unwrap_err(), ParseError::Lexical(LexicalError));
    // A bare '=' is not a token: only the two-character '=>' is.
    assert_eq!(parse("p = q").unwrap_err(), ParseError::Lexical(LexicalError));
    assert_eq!(parse("p5").unwrap_err(), ParseError::Lexical(LexicalError));
}

#[test]
fn identifiers_are_case_sensitive() {
    let ast = parse("P&p").unwrap();
    let vars = ast.get_variables();
    assert_eq!(vars, vec!["P".to_string(), "p".to_string()]);
}

#[test]
fn literal_words_are_maximal_runs() {
    // "truex" is one identifier, not the literal "true" followed by "x".
    let ast = parse("truex").unwrap();
    assert_eq!(ast.get_variables(), vec!["truex".to_string()]);
}

#[test]
fn implies_needs_no_surrounding_space() {
    let spaced = parse("p => q");
    let tight = parse("p=>q");
    assert!(spaced.is_ok());
    assert!(tight.is_ok());
}
