use proplogic::analysis::{entails, equivalent, satisfiable, truth_table, ScaleError, MAX_VARIABLES};
use proplogic::parser::parse;

#[test]
fn truth_table_has_a_row_per_bitmask() {
    let ast = parse("p&q").unwrap();
    let table = truth_table(&ast).unwrap();
    assert_eq!(table.variables, vec!["p".to_string(), "q".to_string()]);
    assert_eq!(table.rows.len(), 4);
    // Increasing bitmask order: bit 0 is p, bit 1 is q.
    assert_eq!(table.rows[0].assignment, vec![false, false]);
    assert_eq!(table.rows[1].assignment, vec![true, false]);
    assert_eq!(table.rows[2].assignment, vec![false, true]);
    assert_eq!(table.rows[3].assignment, vec![true, true]);
    assert_eq!(table.rows[0].result, false);
    assert_eq!(table.rows[1].result, false);
    assert_eq!(table.rows[2].result, false);
    assert_eq!(table.rows[3].result, true);
}

#[test]
fn truth_table_rows_are_distinct() {
    let ast = parse("p|q&r").unwrap();
    let table = truth_table(&ast).unwrap();
    assert_eq!(table.rows.len(), 8);
    for i in 0..table.rows.len() {
        for j in (i + 1)..table.rows.len() {
            assert_ne!(table.rows[i].assignment, table.rows[j].assignment);
        }
    }
}

#[test]
fn truth_table_without_variables_has_one_row() {
    let table = truth_table(&parse("true").unwrap()).unwrap();
    assert!(table.variables.is_empty());
    assert_eq!(table.rows.len(), 1);
    assert!(table.rows[0].assignment.is_empty());
    assert_eq!(table.rows[0].result, true);

    let table = truth_table(&parse("false").unwrap()).unwrap();
    assert_eq!(table.rows.len(), 1);
    assert_eq!(table.rows[0].result, false);
}

#[test]
fn conjunction_is_satisfiable_at_the_all_true_mask() {
    // The first satisfying bitmask of "p&q" in increasing order is the one
    // with both bits set.
    let ast = parse("p&q").unwrap();
    let solution = satisfiable(&ast).unwrap().unwrap();
    assert_eq!(solution.get(&"p".to_string()), true);
    assert_eq!(solution.get(&"q".to_string()), true);
}

#[test]
fn satisfiability_reports_the_first_satisfying_mask() {
    // For "p|q" the first satisfying bitmask is 1: p true, q false.
    let ast = parse("p|q").unwrap();
    let solution = satisfiable(&ast).unwrap().unwrap();
    assert_eq!(solution.get(&"p".to_string()), true);
    assert_eq!(solution.get(&"q".to_string()), false);
}

#[test]
fn contradiction_is_unsatisfiable() {
    let ast = parse("!p&p").unwrap();
    assert!(satisfiable(&ast).unwrap().is_none());
}

#[test]
fn satisfiability_handles_formulas_without_variables() {
    assert!(satisfiable(&parse("true").unwrap()).unwrap().is_some());
    assert!(satisfiable(&parse("false").unwrap()).unwrap().is_none());
}

#[test]
fn conjunction_entails_disjunction() {
    let f = parse("p&q").unwrap();
    let e = parse("p|q").unwrap();
    assert_eq!(entails(&f, &e), Ok(true));
}

#[test]
fn conjunction_does_not_entail_negation() {
    // Counterexample: p true, q true.
    let f = parse("p&q").unwrap();
    let e = parse("!p").unwrap();
    assert_eq!(entails(&f, &e), Ok(false));
}

#[test]
fn entailment_enumerates_the_union_of_variables() {
    // q appears only on the right; it must still be enumerated, else the
    // counterexample p true, q false is missed.
    let f = parse("p").unwrap();
    let e = parse("q").unwrap();
    assert_eq!(entails(&f, &e), Ok(false));
    // A tautology over a variable of the right side alone is entailed.
    let f = parse("true").unwrap();
    let e = parse("q|!q").unwrap();
    assert_eq!(entails(&f, &e), Ok(true));
}

#[test]
fn every_formula_entails_itself() {
    let f = parse("p|q&!r").unwrap();
    let e = parse("p|q&!r").unwrap();
    assert_eq!(entails(&f, &e), Ok(true));
}

#[test]
fn conjunction_is_equivalent_to_itself() {
    let f = parse("p&q").unwrap();
    let e = parse("p&q").unwrap();
    assert_eq!(equivalent(&f, &e), Ok(true));
}

#[test]
fn conjunction_is_not_equivalent_to_disjunction() {
    // Counterexample: p true, q false.
    let f = parse("p&q").unwrap();
    let e = parse("p|q").unwrap();
    assert_eq!(equivalent(&f, &e), Ok(false));
}

#[test]
fn equivalence_does_not_require_equal_variable_sets() {
    // q is absent from the left formula and irrelevant on the right.
    let f = parse("p").unwrap();
    let e = parse("p|(q&!q)").unwrap();
    assert_eq!(equivalent(&f, &e), Ok(true));
}

#[test]
fn precedence_or_over_and() {
    // "p|q&r" is equivalent to "p|(q&r)" under every valuation.
    let flat = parse("p|q&r").unwrap();
    let grouped = parse("p|(q&r)").unwrap();
    assert_eq!(equivalent(&flat, &grouped), Ok(true));
    // And it differs from the other grouping.
    let other = parse("(p|q)&r").unwrap();
    assert_eq!(equivalent(&flat, &other), Ok(false));
}

#[test]
fn precedence_and_over_or() {
    // "p&q|r" is equivalent to "(p&q)|r" under every valuation.
    let flat = parse("p&q|r").unwrap();
    let grouped = parse("(p&q)|r").unwrap();
    assert_eq!(equivalent(&flat, &grouped), Ok(true));
}

#[test]
fn double_negation_changes_nothing() {
    let doubled = parse("!!p").unwrap();
    let plain = parse("p").unwrap();
    assert_eq!(equivalent(&doubled, &plain), Ok(true));
}

#[test]
fn too_many_variables_is_a_typed_failure() {
    // Seventeen distinct variables exceed the enumeration ceiling.
    let text = "a&b&c&d&e&g&h&i&j&k&l&m&n&o&u&v&w";
    let ast = parse(text).unwrap();
    assert_eq!(ast.get_variables().len(), 17);
    assert!(17 > MAX_VARIABLES);
    assert_eq!(satisfiable(&ast).err(), Some(ScaleError { count: 17 }));
    assert_eq!(truth_table(&ast).err(), Some(ScaleError { count: 17 }));
    let small = parse("a").unwrap();
    assert_eq!(entails(&ast, &small), Err(ScaleError { count: 17 }));
    assert_eq!(equivalent(&ast, &small), Err(ScaleError { count: 17 }));
}

#[test]
fn scale_failure_counts_the_union() {
    // Nine variables on each side, one shared: seventeen in the union.
    let f = parse("a&b&c&d&e&g&h&i&j").unwrap();
    let e = parse("j&k&l&m&n&o&u&v&w").unwrap();
    assert_eq!(entails(&f, &e), Err(ScaleError { count: 17 }));
}

#[test]
fn enumeration_at_the_ceiling_still_runs() {
    // Exactly sixteen variables: the full 2^16 space is searched and the
    // single satisfying assignment (all true) is the last mask.
    let text = "a&b&c&d&e&g&h&i&j&k&l&m&n&o&u&v";
    let ast = parse(text).unwrap();
    assert_eq!(ast.get_variables().len(), MAX_VARIABLES);
    let solution = satisfiable(&ast).unwrap().unwrap();
    for name in ast.get_variables() {
        assert_eq!(solution.get(&name), true);
    }
}
