//! The abstract syntax tree of propositional formulas and its evaluator.
//!
//! An [`Expression`] is a tree of exclusively owned nodes; evaluation under a
//! [`Valuation`] is total and deterministic, and is specified against the
//! mathematical semantics in [`crate::semantics`].

use vstd::prelude::*;

use crate::semantics::{dedup, eval, eval_binary, eval_unary, lookup, ordered_vars, var_seq, Formula};
use crate::valuation::Valuation;

verus! {

/// A binary connective: conjunction, disjunction or implication.
#[derive(Copy, Clone, Debug, PartialEq, Eq, Structural)]
pub enum BinaryOperator {
    And,
    Or,
    Implies,
}

impl BinaryOperator {
    /// The truth function of the connective; implication is material:
    /// `a => b` is `!a | b`.
    pub fn evaluate(&self, left: bool, right: bool) -> (result: bool)
        ensures
            result == eval_binary(*self, left, right),
    {
        match *self {
            Self::And => left && right,
            Self::Or => left || right,
            Self::Implies => !left || right,
        }
    }
}

/// A unary connective: negation.
#[derive(Copy, Clone, Debug, PartialEq, Eq, Structural)]
pub enum UnaryOperator {
    Not,
}

impl UnaryOperator {
    /// The truth function of the connective.
    pub fn evaluate(&self, value: bool) -> (result: bool)
        ensures
            result == eval_unary(*self, value),
    {
        match *self {
            Self::Not => !value,
        }
    }
}

/// A node of the abstract syntax tree. Each node exclusively owns its
/// children, so a value of this type is always a finite tree.
#[derive(Debug)]
pub enum Expression {
    Binary { left: Box<Expression>, op: BinaryOperator, right: Box<Expression> },
    Unary { op: UnaryOperator, expr: Box<Expression> },
    Enclosed { inner: Box<Expression> },
    Identifier { value: String },
    True,
    False,
}

/// The mathematical formula an expression stands for: the same tree with
/// identifiers abstracted to character sequences.
pub open spec fn to_formula(e: Expression) -> Formula
    decreases e,
{
    match e {
        Expression::Binary { left, op, right } => Formula::Binary {
            left: Box::new(to_formula(*left)),
            op,
            right: Box::new(to_formula(*right)),
        },
        Expression::Unary { op, expr } => Formula::Unary { op, expr: Box::new(to_formula(*expr)) },
        Expression::Enclosed { inner } => Formula::Enclosed { inner: Box::new(to_formula(*inner)) },
        Expression::Identifier { value } => Formula::Identifier { name: value@ },
        Expression::True => Formula::True,
        Expression::False => Formula::False,
    }
}

impl View for Expression {
    type V = Formula;

    open spec fn view(&self) -> Formula {
        to_formula(*self)
    }
}

/// The larger of two naturals.
pub open spec fn nat_max(a: nat, b: nat) -> nat {
    if a >= b {
        a
    } else {
        b
    }
}

/// The height of an expression tree, the termination measure of the
/// evaluator and its helpers.
pub open spec fn height(e: Expression) -> nat
    decreases e,
{
    match e {
        Expression::Binary { left, op, right } => 1 + nat_max(height(*left), height(*right)),
        Expression::Unary { op, expr } => 1 + height(*expr),
        Expression::Enclosed { inner } => 1 + height(*inner),
        Expression::Identifier { value } => 0,
        Expression::True => 0,
        Expression::False => 0,
    }
}

impl Expression {
    /// Evaluates the expression under the given valuation. Total: a variable
    /// the valuation does not mention is read as false.
    pub fn evaluate(&self, valuations: &Valuation) -> (result: bool)
        ensures
            result == eval(self@, valuations@),
        decreases height(*self), 0int,
    {
        match self {
            Expression::Binary { left, op, right } => {
                evaluate_binary_expr(valuations, left, *op, right)
            },
            Expression::Unary { op, expr } => evaluate_unary_expr(valuations, *op, expr),
            Expression::Identifier { value } => evaluate_identifier(valuations, value),
            Expression::Enclosed { inner } => inner.evaluate(valuations),
            Expression::True => true,
            Expression::False => false,
        }
    }

    /// The free variables of the expression: the name of every identifier,
    /// in order of first occurrence, each exactly once. The literals are
    /// constants and contribute nothing. The position of a name in this list
    /// is its bit position during enumeration.
    pub fn get_variables(&self) -> (variables: Vec<String>)
        ensures
            variables.deep_view() == ordered_vars(self@),
    {
        let mut occurrences: Vec<String> = Vec::new();
        self.push_variables(&mut occurrences);
        dedup_names(&occurrences)
    }

    /// Appends every identifier occurrence of the expression to `out`, left
    /// to right, duplicates kept.
    pub(crate) fn push_variables(&self, out: &mut Vec<String>)
        ensures
            final(out).deep_view() == old(out).deep_view() + var_seq(self@),
        decreases *self,
    {
        match self {
            Expression::Binary { left, op, right } => {
                left.push_variables(out);
                right.push_variables(out);
                proof {
                    assert(out.deep_view() =~= old(out).deep_view() + var_seq(self@));
                }
            },
            Expression::Unary { op, expr } => {
                expr.push_variables(out);
            },
            Expression::Enclosed { inner } => {
                inner.push_variables(out);
            },
            Expression::Identifier { value } => {
                out.push(value.clone());
                proof {
                    assert(out.deep_view() =~= old(out).deep_view() + var_seq(self@));
                }
            },
            Expression::True => {
                proof {
                    assert(out.deep_view() =~= old(out).deep_view() + var_seq(self@));
                }
            },
            Expression::False => {
                proof {
                    assert(out.deep_view() =~= old(out).deep_view() + var_seq(self@));
                }
            },
        }
    }
}

/// Determinism of evaluation: two calls of [`Expression::evaluate`] on one
/// expression and one valuation return the same boolean.
pub proof fn lemma_evaluate_deterministic(
    e: &Expression,
    valuations: &Valuation,
    first: bool,
    second: bool,
)
    requires
        call_ensures(Expression::evaluate, (e, valuations), first),
        call_ensures(Expression::evaluate, (e, valuations), second),
    ensures
        first == second,
{
}

/// Whether some entry of `names` has the same characters as `name`.
pub(crate) fn contains_name(names: &Vec<String>, name: &String) -> (present: bool)
    ensures
        present == names.deep_view().contains(name@),
{
    let mut j: usize = 0;
    while j < names.len()
        invariant
            j <= names.len(),
            forall|k: int| 0 <= k < j ==> names.deep_view()[k] != name@,
        decreases names.len() - j,
    {
        if names[j] == *name {
            proof {
                assert(names.deep_view()[j as int] == name@);
            }
            return true;
        }
        j = j + 1;
    }
    proof {
        if names.deep_view().contains(name@) {
            let k = choose|k: int|
                0 <= k < names.deep_view().len() && names.deep_view()[k] == name@;
            assert(false);
        }
    }
    false
}

/// Removes repeated names, keeping the first occurrence of each and the
/// order of those occurrences.
pub(crate) fn dedup_names(occurrences: &Vec<String>) -> (names: Vec<String>)
    ensures
        names.deep_view() == dedup(occurrences.deep_view()),
{
    let mut names: Vec<String> = Vec::new();
    let mut i: usize = 0;
    proof {
        assert(occurrences.deep_view().take(0) =~= Seq::<Seq<char>>::empty());
    }
    while i < occurrences.len()
        invariant
            i <= occurrences.len(),
            names.deep_view() == dedup(occurrences.deep_view().take(i as int)),
        decreases occurrences.len() - i,
    {
        let present = contains_name(&names, &occurrences[i]);
        proof {
            assert(occurrences.deep_view().take(i as int + 1).drop_last()
                =~= occurrences.deep_view().take(i as int));
            assert(occurrences.deep_view().take(i as int + 1).last() == occurrences.deep_view()[i as int]);
            assert(occurrences.deep_view()[i as int] == occurrences[i as int]@);
        }
        if !present {
            names.push(occurrences[i].clone());
            proof {
                assert(names.deep_view() =~= dedup(occurrences.deep_view().take(i as int)).push(
                    occurrences.deep_view()[i as int],
                ));
            }
        }
        i = i + 1;
    }
    proof {
        assert(occurrences.deep_view().take(occurrences.len() as int) =~= occurrences.deep_view());
    }
    names
}

fn evaluate_binary_expr(
    valuations: &Valuation,
    left: &Box<Expression>,
    op: BinaryOperator,
    right: &Box<Expression>,
) -> (result: bool)
    ensures
        result == eval_binary(op, eval(left@, valuations@), eval(right@, valuations@)),
    decreases nat_max(height(**left), height(**right)), 1int,
{
    let lhs = left.evaluate(valuations);
    let rhs = right.evaluate(valuations);

    op.evaluate(lhs, rhs)
}

fn evaluate_unary_expr(valuations: &Valuation, op: UnaryOperator, expr: &Box<Expression>) -> (result:
    bool)
    ensures
        result == eval_unary(op, eval(expr@, valuations@)),
    decreases height(**expr), 1int,
{
    let value = expr.evaluate(valuations);

    op.evaluate(value)
}

fn evaluate_identifier(valuations: &Valuation, ident: &String) -> (result: bool)
    ensures
        result == lookup(valuations@, ident@),
{
    valuations.get(ident)
}

} // verus!
