//! The mathematical semantics of propositional formulas.
//!
//! A [`Formula`] is the specification-level counterpart of
//! [`crate::ast::Expression`]: the same tree shape with identifiers
//! abstracted to character sequences. Truth-functional evaluation, free
//! variables and the supporting lemmas live here; every executable function
//! of the crate is specified against these definitions.

use vstd::prelude::*;

use crate::ast::{BinaryOperator, UnaryOperator};

verus! {

/// A propositional formula over named atoms, the specification-level image
/// of an abstract syntax tree.
pub enum Formula {
    Binary { left: Box<Formula>, op: BinaryOperator, right: Box<Formula> },
    Unary { op: UnaryOperator, expr: Box<Formula> },
    Enclosed { inner: Box<Formula> },
    Identifier { name: Seq<char> },
    True,
    False,
}

/// The truth function of a binary connective; implication is material.
pub open spec fn eval_binary(op: BinaryOperator, left: bool, right: bool) -> bool {
    match op {
        BinaryOperator::And => left && right,
        BinaryOperator::Or => left || right,
        BinaryOperator::Implies => !left || right,
    }
}

/// The truth function of a unary connective.
pub open spec fn eval_unary(op: UnaryOperator, value: bool) -> bool {
    match op {
        UnaryOperator::Not => !value,
    }
}

/// Reads a variable from a valuation; a variable the valuation does not
/// mention is false.
pub open spec fn lookup(valuation: Map<Seq<char>, bool>, name: Seq<char>) -> bool {
    if valuation.contains_key(name) {
        valuation[name]
    } else {
        false
    }
}

/// The truth value of a formula under a valuation: total and deterministic.
pub open spec fn eval(f: Formula, valuation: Map<Seq<char>, bool>) -> bool
    decreases f,
{
    match f {
        Formula::Binary { left, op, right } => eval_binary(
            op,
            eval(*left, valuation),
            eval(*right, valuation),
        ),
        Formula::Unary { op, expr } => eval_unary(op, eval(*expr, valuation)),
        Formula::Enclosed { inner } => eval(*inner, valuation),
        Formula::Identifier { name } => lookup(valuation, name),
        Formula::True => true,
        Formula::False => false,
    }
}

/// Every identifier occurrence of a formula, left to right, duplicates kept.
pub open spec fn var_seq(f: Formula) -> Seq<Seq<char>>
    decreases f,
{
    match f {
        Formula::Binary { left, op, right } => var_seq(*left) + var_seq(*right),
        Formula::Unary { op, expr } => var_seq(*expr),
        Formula::Enclosed { inner } => var_seq(*inner),
        Formula::Identifier { name } => seq![name],
        Formula::True => Seq::empty(),
        Formula::False => Seq::empty(),
    }
}

/// The set of free variables of a formula. The literals are constants, not
/// variables, and contribute nothing.
pub open spec fn free_vars(f: Formula) -> Set<Seq<char>> {
    var_seq(f).to_set()
}

/// Removes repeated names from a sequence, keeping the first occurrence of
/// each and the order of those occurrences.
pub open spec fn dedup(s: Seq<Seq<char>>) -> Seq<Seq<char>>
    decreases s.len(),
{
    if s.len() == 0 {
        Seq::empty()
    } else {
        let rest = dedup(s.drop_last());
        if rest.contains(s.last()) {
            rest
        } else {
            rest.push(s.last())
        }
    }
}

/// The free variables of a formula as an ordered, duplicate-free list: the
/// order of first occurrence. This fixes the bit position of each variable
/// for the enumeration-based analyses.
pub open spec fn ordered_vars(f: Formula) -> Seq<Seq<char>> {
    dedup(var_seq(f))
}

/// A deduplicated sequence has no repeated elements.
pub proof fn lemma_dedup_no_duplicates(s: Seq<Seq<char>>)
    ensures
        dedup(s).no_duplicates(),
    decreases s.len(),
{
    if s.len() > 0 {
        lemma_dedup_no_duplicates(s.drop_last());
        let rest = dedup(s.drop_last());
        if !rest.contains(s.last()) {
            assert forall|i: int, j: int|
                0 <= i < rest.push(s.last()).len() && 0 <= j < rest.push(s.last()).len() && i
                    != j implies rest.push(s.last())[i] != rest.push(s.last())[j] by {
                if i < rest.len() && j < rest.len() {
                    assert(rest[i] != rest[j]);
                } else if i < rest.len() {
                    assert(rest.contains(rest[i]));
                } else if j < rest.len() {
                    assert(rest.contains(rest[j]));
                }
            }
        }
    }
}

/// Deduplication keeps exactly the elements of the sequence.
pub proof fn lemma_dedup_contains_elem(s: Seq<Seq<char>>, k: Seq<char>)
    ensures
        dedup(s).contains(k) <==> s.contains(k),
    decreases s.len(),
{
    if s.len() > 0 {
        lemma_dedup_contains_elem(s.drop_last(), k);
        lemma_dedup_contains_elem(s.drop_last(), s.last());
        let rest = dedup(s.drop_last());
        if s.contains(k) {
            let i = choose|i: int| 0 <= i < s.len() && s[i] == k;
            if i < s.len() - 1 {
                assert(s.drop_last()[i] == k);
                assert(s.drop_last().contains(k));
                if rest.contains(s.last())  {
                    assert(dedup(s).contains(k));
                } else {
                    let j = choose|j: int| 0 <= j < rest.len() && rest[j] == k;
                    assert(rest.push(s.last())[j] == k);
                    assert(dedup(s).contains(k));
                }
            } else {
                assert(k == s.last());
                if rest.contains(s.last()) {
                    assert(dedup(s).contains(k));
                } else {
                    assert(rest.push(s.last())[rest.len() as int] == k);
                    assert(dedup(s).contains(k));
                }
            }
        }
        if dedup(s).contains(k) {
            if rest.contains(s.last()) {
                let i = choose|i: int| 0 <= i < s.drop_last().len() && s.drop_last()[i] == k;
                assert(s[i] == k);
                assert(s.contains(k));
            } else {
                let j = choose|j: int|
                    0 <= j < rest.push(s.last()).len() && rest.push(s.last())[j] == k;
                if j < rest.len() {
                    assert(rest[j] == k);
                    let i = choose|i: int| 0 <= i < s.drop_last().len() && s.drop_last()[i] == k;
                    assert(s[i] == k);
                    assert(s.contains(k));
                } else {
                    assert(k == s.last());
                    assert(s[s.len() - 1] == k);
                    assert(s.contains(k));
                }
            }
        }
    }
}

/// Deduplication keeps exactly the elements of the sequence, for every
/// element at once.
pub proof fn lemma_dedup_contains(s: Seq<Seq<char>>)
    ensures
        forall|k: Seq<char>| #[trigger] dedup(s).contains(k) <==> s.contains(k),
{
    assert forall|k: Seq<char>| #[trigger] dedup(s).contains(k) <==> s.contains(k) by {
        lemma_dedup_contains_elem(s, k);
    }
}

/// An element of a concatenation comes from one of the two parts.
pub proof fn lemma_concat_contains(a: Seq<Seq<char>>, b: Seq<Seq<char>>)
    ensures
        forall|k: Seq<char>| #[trigger] (a + b).contains(k) <==> a.contains(k) || b.contains(k),
{
    assert forall|k: Seq<char>| #[trigger] (a + b).contains(k) implies a.contains(k) || b.contains(
        k,
    ) by {
        let i = choose|i: int| 0 <= i < (a + b).len() && (a + b)[i] == k;
        if i < a.len() {
            assert(a[i] == k);
        } else {
            assert(b[i - a.len()] == k);
        }
    }
    assert forall|k: Seq<char>| a.contains(k) || b.contains(k) implies #[trigger] (a + b).contains(
        k,
    ) by {
        if a.contains(k) {
            let i = choose|i: int| 0 <= i < a.len() && a[i] == k;
            assert((a + b)[i] == k);
        } else {
            let i = choose|i: int| 0 <= i < b.len() && b[i] == k;
            assert((a + b)[a.len() + i] == k);
        }
    }
}

/// Double negation changes nothing: `!!f` has the truth value of `f` under
/// every valuation.
pub proof fn lemma_double_negation(f: Formula, m: Map<Seq<char>, bool>)
    ensures
        eval(
            Formula::Unary {
                op: UnaryOperator::Not,
                expr: Box::new(Formula::Unary { op: UnaryOperator::Not, expr: Box::new(f) }),
            },
            m,
        ) == eval(f, m),
{
    reveal_with_fuel(eval, 3);
}

/// The truth value of a formula depends only on its free variables: two
/// valuations that read the same on every free variable give the same value.
pub proof fn lemma_eval_relevance(f: Formula, m1: Map<Seq<char>, bool>, m2: Map<Seq<char>, bool>)
    requires
        forall|k: Seq<char>| #[trigger] var_seq(f).contains(k) ==> lookup(m1, k) == lookup(m2, k),
    ensures
        eval(f, m1) == eval(f, m2),
    decreases f,
{
    match f {
        Formula::Binary { left, op, right } => {
            lemma_concat_contains(var_seq(*left), var_seq(*right));
            assert(var_seq(f) == var_seq(*left) + var_seq(*right));
            assert forall|k: Seq<char>| #[trigger] var_seq(*left).contains(k) implies lookup(
                m1,
                k,
            ) == lookup(m2, k) by {
                assert(var_seq(f).contains(k));
            }
            assert forall|k: Seq<char>| #[trigger] var_seq(*right).contains(k) implies lookup(
                m1,
                k,
            ) == lookup(m2, k) by {
                assert(var_seq(f).contains(k));
            }
            lemma_eval_relevance(*left, m1, m2);
            lemma_eval_relevance(*right, m1, m2);
        },
        Formula::Unary { op, expr } => {
            assert(var_seq(f) == var_seq(*expr));
            lemma_eval_relevance(*expr, m1, m2);
        },
        Formula::Enclosed { inner } => {
            assert(var_seq(f) == var_seq(*inner));
            lemma_eval_relevance(*inner, m1, m2);
        },
        Formula::Identifier { name } => {
            assert(var_seq(f)[0] == name);
            assert(var_seq(f).contains(name));
        },
        Formula::True => {},
        Formula::False => {},
    }
}

} // verus!
