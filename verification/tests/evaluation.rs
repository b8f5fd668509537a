use proplogic::ast::{BinaryOperator, UnaryOperator};
use proplogic::parser::parse;
use proplogic::valuation::Valuation;

fn valuation_of(pairs: &[(&str, bool)]) -> Valuation {
    let mut v = Valuation::new();
    for (name, value) in pairs {
        v.insert(name.to_string(), *value);
    }
    v
}

#[test]
fn and_truth_table() {
    let ast = parse("p&q").unwrap();
    assert_eq!(ast.evaluate(&valuation_of(&[("p", true), ("q", true)])), true);
    assert_eq!(ast.evaluate(&valuation_of(&[("p", true), ("q", false)])), false);
    assert_eq!(ast.evaluate(&valuation_of(&[("p", false), ("q", true)])), false);
    assert_eq!(ast.evaluate(&valuation_of(&[("p", false), ("q", false)])), false);
}

#[test]
fn or_truth_table() {
    let ast = parse("p|q").unwrap();
    assert_eq!(ast.evaluate(&valuation_of(&[("p", true), ("q", true)])), true);
    assert_eq!(ast.evaluate(&valuation_of(&[("p", true), ("q", false)])), true);
    assert_eq!(ast.evaluate(&valuation_of(&[("p", false), ("q", true)])), true);
    assert_eq!(ast.evaluate(&valuation_of(&[("p", false), ("q", false)])), false);
}

#[test]
fn not_truth_table() {
    let ast = parse("!p").unwrap();
    assert_eq!(ast.evaluate(&valuation_of(&[("p", true)])), false);
    assert_eq!(ast.evaluate(&valuation_of(&[("p", false)])), true);
}

#[test]
fn implication_truth_table() {
    // (T,T) -> T, (T,F) -> F, (F,T) -> T, (F,F) -> T.
    let ast = parse("p=>q").unwrap();
    assert_eq!(ast.evaluate(&valuation_of(&[("p", true), ("q", true)])), true);
    assert_eq!(ast.evaluate(&valuation_of(&[("p", true), ("q", false)])), false);
    assert_eq!(ast.evaluate(&valuation_of(&[("p", false), ("q", true)])), true);
    assert_eq!(ast.evaluate(&valuation_of(&[("p", false), ("q", false)])), true);
}

#[test]
fn operator_truth_functions() {
    assert_eq!(BinaryOperator::Implies.evaluate(true, true), true);
    assert_eq!(BinaryOperator::Implies.evaluate(true, false), false);
    assert_eq!(BinaryOperator::Implies.evaluate(false, true), true);
    assert_eq!(BinaryOperator::Implies.evaluate(false, false), true);
    assert_eq!(BinaryOperator::And.evaluate(true, false), false);
    assert_eq!(BinaryOperator::Or.evaluate(true, false), true);
    assert_eq!(UnaryOperator::Not.evaluate(true), false);
    assert_eq!(UnaryOperator::Not.evaluate(false), true);
}

#[test]
fn evaluation_is_deterministic() {
    let ast = parse("(p|q)&!r=>s").unwrap();
    let v = valuation_of(&[("p", true), ("r", false)]);
    let first = ast.evaluate(&v);
    let second = ast.evaluate(&v);
    assert_eq!(first, second);
}

#[test]
fn unset_variables_read_as_false() {
    let ast = parse("p").unwrap();
    assert_eq!(ast.evaluate(&Valuation::new()), false);
    let negated = parse("!p").unwrap();
    assert_eq!(negated.evaluate(&Valuation::new()), true);
}

#[test]
fn later_insertion_overrides_earlier() {
    let ast = parse("p").unwrap();
    let mut v = Valuation::new();
    v.insert("p".to_string(), true);
    v.insert("p".to_string(), false);
    assert_eq!(ast.evaluate(&v), false);
}

#[test]
fn literals_are_constant() {
    assert_eq!(parse("true").unwrap().evaluate(&Valuation::new()), true);
    assert_eq!(parse("false").unwrap().evaluate(&Valuation::new()), false);
    let v = valuation_of(&[("true", false)]);
    assert_eq!(parse("true").unwrap().evaluate(&v), true);
}

#[test]
fn enclosed_evaluates_to_its_inner_value() {
    let ast = parse("((p))").unwrap();
    assert_eq!(ast.evaluate(&valuation_of(&[("p", true)])), true);
    assert_eq!(ast.evaluate(&valuation_of(&[("p", false)])), false);
}

#[test]
fn valuation_from_true_names() {
    let names = vec!["p".to_string(), "q".to_string()];
    let v = Valuation::from_true_names(&names);
    assert_eq!(parse("p&q").unwrap().evaluate(&v), true);
    assert_eq!(parse("r").unwrap().evaluate(&v), false);
    assert_eq!(v.get(&"p".to_string()), true);
    assert_eq!(v.get(&"r".to_string()), false);
}

#[test]
fn free_variables_of_literals_are_empty() {
    assert!(parse("true").unwrap().get_variables().is_empty());
    assert_eq!(parse("true&p").unwrap().get_variables(), vec!["p".to_string()]);
}

#[test]
fn free_variables_come_deduplicated_in_first_occurrence_order() {
    let ast = parse("q&p|q&!r|p").unwrap();
    assert_eq!(
        ast.get_variables(),
        vec!["q".to_string(), "p".to_string(), "r".to_string()]
    );
}
