//! A propositional-logic toolkit: boolean formulas over named atoms with
//! negation, conjunction, disjunction and implication are parsed into an
//! abstract syntax tree and analysed by exhaustive enumeration of variable
//! assignments — direct evaluation under a valuation, truth-table generation,
//! brute-force satisfiability search, and entailment / equivalence checking.

pub mod analysis;
pub mod ast;
pub mod lexer;
pub mod parser;
pub mod semantics;
pub mod valuation;
