//! The parser: token sequence to abstract syntax tree, or a structured
//! failure — never a partial tree.
//!
//! Precedence from loosest to tightest is implication, disjunction,
//! conjunction, negation; parentheses override everything; chains of one
//! binary operator associate left to right; a bare identifier or literal is
//! a complete formula:
//!
//! ```text
//! expr    := implies
//! implies := or  ('=>' or)*
//! or      := and ('|' and)*
//! and     := unary ('&' unary)*
//! unary   := '!' unary | atom
//! atom    := IDENT | 'true' | 'false' | '(' expr ')'
//! ```
//!
//! The `spec_*` functions transcribe this grammar as the mathematical
//! definition of parsing, and the executable parser is proved to return
//! exactly what they define.

use vstd::prelude::*;

use crate::ast::{BinaryOperator, Expression, UnaryOperator};
use crate::lexer::{spec_lex, tokenize, LexicalError, Token, TokenModel};
use crate::semantics::{eval, Formula};

verus! {

/// A parse failure. Every failure is reported through this type; the parser
/// never panics and never yields a partial tree.
#[derive(Debug, Clone, Copy, PartialEq, Eq, Structural)]
pub enum ParseError {
    /// The text held a character no token starts with.
    Lexical(LexicalError),
    /// A token no formula can have at this place.
    UnexpectedToken,
    /// The text ended where a formula or a closing parenthesis was owed.
    UnexpectedEndOfInput,
    /// A parenthesized group goes on with something other than `)`.
    UnmatchedParenthesis,
    /// A complete formula followed by further tokens.
    TrailingTokens,
}

/// Parses `atom := IDENT | 'true' | 'false' | '(' expr ')'` at `pos`,
/// yielding the formula and the position after it.
pub open spec fn spec_atom(ts: Seq<TokenModel>, pos: int) -> Result<(Formula, int), ParseError>
    decreases ts.len() - pos, 0int,
{
    if !(0 <= pos < ts.len()) {
        Err(ParseError::UnexpectedEndOfInput)
    } else {
        match ts[pos] {
            TokenModel::Identifier(name) => Ok((Formula::Identifier { name }, pos + 1)),
            TokenModel::True => Ok((Formula::True, pos + 1)),
            TokenModel::False => Ok((Formula::False, pos + 1)),
            TokenModel::LeftParen => match spec_implies(ts, pos + 1) {
                Ok((inner, next)) => if next < ts.len() && ts[next] is RightParen {
                    Ok((Formula::Enclosed { inner: Box::new(inner) }, next + 1))
                } else if next >= ts.len() {
                    Err(ParseError::UnexpectedEndOfInput)
                } else {
                    Err(ParseError::UnmatchedParenthesis)
                },
                Err(e) => Err(e),
            },
            _ => Err(ParseError::UnexpectedToken),
        }
    }
}

/// Parses `unary := '!' unary | atom` at `pos`.
pub open spec fn spec_unary(ts: Seq<TokenModel>, pos: int) -> Result<(Formula, int), ParseError>
    decreases ts.len() - pos, 1int,
{
    if 0 <= pos < ts.len() && ts[pos] is Not {
        match spec_unary(ts, pos + 1) {
            Ok((inner, next)) => Ok(
                (Formula::Unary { op: UnaryOperator::Not, expr: Box::new(inner) }, next),
            ),
            Err(e) => Err(e),
        }
    } else {
        spec_atom(ts, pos)
    }
}

/// Extends `acc` with `('&' unary)*` from `pos`, associating left to right.
/// Parsing a term always advances the position, so the guard on `next` never
/// fails; it only bounds the recursion.
pub open spec fn spec_and_rest(ts: Seq<TokenModel>, pos: int, acc: Formula) -> Result<
    (Formula, int),
    ParseError,
>
    decreases ts.len() - pos, 2int,
{
    if 0 <= pos < ts.len() && ts[pos] is And {
        match spec_unary(ts, pos + 1) {
            Ok((rhs, next)) => if pos + 1 <= next <= ts.len() {
                spec_and_rest(
                    ts,
                    next,
                    Formula::Binary {
                        left: Box::new(acc),
                        op: BinaryOperator::And,
                        right: Box::new(rhs),
                    },
                )
            } else {
                Err(ParseError::UnexpectedToken)
            },
            Err(e) => Err(e),
        }
    } else {
        Ok((acc, pos))
    }
}

/// Parses `and := unary ('&' unary)*` at `pos`.
pub open spec fn spec_and(ts: Seq<TokenModel>, pos: int) -> Result<(Formula, int), ParseError>
    decreases ts.len() - pos, 3int,
{
    match spec_unary(ts, pos) {
        Ok((first, next)) => if pos <= next <= ts.len() {
            spec_and_rest(ts, next, first)
        } else {
            Err(ParseError::UnexpectedToken)
        },
        Err(e) => Err(e),
    }
}

/// Extends `acc` with `('|' and)*` from `pos`, associating left to right.
pub open spec fn spec_or_rest(ts: Seq<TokenModel>, pos: int, acc: Formula) -> Result<
    (Formula, int),
    ParseError,
>
    decreases ts.len() - pos, 4int,
{
    if 0 <= pos < ts.len() && ts[pos] is Or {
        match spec_and(ts, pos + 1) {
            Ok((rhs, next)) => if pos + 1 <= next <= ts.len() {
                spec_or_rest(
                    ts,
                    next,
                    Formula::Binary {
                        left: Box::new(acc),
                        op: BinaryOperator::Or,
                        right: Box::new(rhs),
                    },
                )
            } else {
                Err(ParseError::UnexpectedToken)
            },
            Err(e) => Err(e),
        }
    } else {
        Ok((acc, pos))
    }
}

/// Parses `or := and ('|' and)*` at `pos`.
pub open spec fn spec_or(ts: Seq<TokenModel>, pos: int) -> Result<(Formula, int), ParseError>
    decreases ts.len() - pos, 5int,
{
    match spec_and(ts, pos) {
        Ok((first, next)) => if pos <= next <= ts.len() {
            spec_or_rest(ts, next, first)
        } else {
            Err(ParseError::UnexpectedToken)
        },
        Err(e) => Err(e),
    }
}

/// Extends `acc` with `('=>' or)*` from `pos`, associating left to right.
pub open spec fn spec_implies_rest(ts: Seq<TokenModel>, pos: int, acc: Formula) -> Result<
    (Formula, int),
    ParseError,
>
    decreases ts.len() - pos, 6int,
{
    if 0 <= pos < ts.len() && ts[pos] is Implies {
        match spec_or(ts, pos + 1) {
            Ok((rhs, next)) => if pos + 1 <= next <= ts.len() {
                spec_implies_rest(
                    ts,
                    next,
                    Formula::Binary {
                        left: Box::new(acc),
                        op: BinaryOperator::Implies,
                        right: Box::new(rhs),
                    },
                )
            } else {
                Err(ParseError::UnexpectedToken)
            },
            Err(e) => Err(e),
        }
    } else {
        Ok((acc, pos))
    }
}

/// Parses `implies := or ('=>' or)*`, the loosest level, at `pos`.
pub open spec fn spec_implies(ts: Seq<TokenModel>, pos: int) -> Result<(Formula, int), ParseError>
    decreases ts.len() - pos, 7int,
{
    match spec_or(ts, pos) {
        Ok((first, next)) => if pos <= next <= ts.len() {
            spec_implies_rest(ts, next, first)
        } else {
            Err(ParseError::UnexpectedToken)
        },
        Err(e) => Err(e),
    }
}

/// Whether the tokenizer reported unreadable text anywhere in the sequence.
pub open spec fn has_error_token(ts: Seq<TokenModel>) -> bool {
    exists|i: int| 0 <= i < ts.len() && ts[i] is Error
}

/// Parses a whole token sequence: a lexical failure if any token is an error
/// token, otherwise one complete formula covering every token.
pub open spec fn spec_parse(ts: Seq<TokenModel>) -> Result<Formula, ParseError> {
    if has_error_token(ts) {
        Err(ParseError::Lexical(LexicalError))
    } else {
        match spec_implies(ts, 0) {
            Ok((f, next)) => if next == ts.len() {
                Ok(f)
            } else {
                Err(ParseError::TrailingTokens)
            },
            Err(e) => Err(e),
        }
    }
}

/// Precedence law: conjunction binds tighter than disjunction. For any
/// identifiers `p`, `q`, `r`, the token sequence `p | q & r` parses, the
/// sequence `p | ( q & r )` parses, and the two formulas agree under every
/// valuation.
#[verifier::rlimit(100)]
#[verifier::spinoff_prover]
pub proof fn lemma_precedence_or_over_and(
    p: Seq<char>,
    q: Seq<char>,
    r: Seq<char>,
    m: Map<Seq<char>, bool>,
)
    ensures
        ({
            let flat = spec_parse(
                seq![
                    TokenModel::Identifier(p),
                    TokenModel::Or,
                    TokenModel::Identifier(q),
                    TokenModel::And,
                    TokenModel::Identifier(r),
                ],
            );
            let grouped = spec_parse(
                seq![
                    TokenModel::Identifier(p),
                    TokenModel::Or,
                    TokenModel::LeftParen,
                    TokenModel::Identifier(q),
                    TokenModel::And,
                    TokenModel::Identifier(r),
                    TokenModel::RightParen,
                ],
            );
            &&& flat matches Ok(ff)
            &&& grouped matches Ok(gf)
            &&& (flat matches Ok(ff) && grouped matches Ok(gf) ==> eval(ff, m) == eval(gf, m))
        }),
{
    let fp = Formula::Identifier { name: p };
    let fq = Formula::Identifier { name: q };
    let fr = Formula::Identifier { name: r };
    let qr = Formula::Binary { left: Box::new(fq), op: BinaryOperator::And, right: Box::new(fr) };
    let flat_formula = Formula::Binary {
        left: Box::new(fp),
        op: BinaryOperator::Or,
        right: Box::new(qr),
    };
    let group = Formula::Enclosed { inner: Box::new(qr) };
    let grouped_formula = Formula::Binary {
        left: Box::new(fp),
        op: BinaryOperator::Or,
        right: Box::new(group),
    };
    let flat_toks = seq![
        TokenModel::Identifier(p),
        TokenModel::Or,
        TokenModel::Identifier(q),
        TokenModel::And,
        TokenModel::Identifier(r),
    ];
    let grouped_toks = seq![
        TokenModel::Identifier(p),
        TokenModel::Or,
        TokenModel::LeftParen,
        TokenModel::Identifier(q),
        TokenModel::And,
        TokenModel::Identifier(r),
        TokenModel::RightParen,
    ];
    if has_error_token(flat_toks) {
        let i = choose|i: int| 0 <= i < flat_toks.len() && flat_toks[i] is Error;
        assert(false);
    }
    if has_error_token(grouped_toks) {
        let i = choose|i: int| 0 <= i < grouped_toks.len() && grouped_toks[i] is Error;
        assert(false);
    }
    let ts = flat_toks;
    assert(spec_unary(ts, 0) == Ok::<(Formula, int), ParseError>((fp, 1)));
    assert(spec_and(ts, 0) == Ok::<(Formula, int), ParseError>((fp, 1)));
    assert(spec_unary(ts, 2) == Ok::<(Formula, int), ParseError>((fq, 3)));
    assert(spec_unary(ts, 4) == Ok::<(Formula, int), ParseError>((fr, 5)));
    assert(spec_and_rest(ts, 5, qr) == Ok::<(Formula, int), ParseError>((qr, 5)));
    assert(spec_and_rest(ts, 3, fq) == Ok::<(Formula, int), ParseError>((qr, 5)));
    assert(spec_and(ts, 2) == Ok::<(Formula, int), ParseError>((qr, 5)));
    assert(spec_or_rest(ts, 5, flat_formula) == Ok::<(Formula, int), ParseError>(
        (flat_formula, 5),
    ));
    assert(spec_or_rest(ts, 1, fp) == Ok::<(Formula, int), ParseError>((flat_formula, 5)));
    assert(spec_or(ts, 0) == Ok::<(Formula, int), ParseError>((flat_formula, 5)));
    assert(spec_implies_rest(ts, 5, flat_formula) == Ok::<(Formula, int), ParseError>(
        (flat_formula, 5),
    ));
    assert(spec_implies(ts, 0) == Ok::<(Formula, int), ParseError>((flat_formula, 5)));
    assert(spec_parse(flat_toks) == Ok::<Formula, ParseError>(flat_formula));
    let gs = grouped_toks;
    assert(spec_unary(gs, 0) == Ok::<(Formula, int), ParseError>((fp, 1)));
    assert(spec_and(gs, 0) == Ok::<(Formula, int), ParseError>((fp, 1)));
    assert(spec_unary(gs, 3) == Ok::<(Formula, int), ParseError>((fq, 4)));
    assert(spec_unary(gs, 5) == Ok::<(Formula, int), ParseError>((fr, 6)));
    assert(spec_and_rest(gs, 6, qr) == Ok::<(Formula, int), ParseError>((qr, 6)));
    assert(spec_and_rest(gs, 4, fq) == Ok::<(Formula, int), ParseError>((qr, 6)));
    assert(spec_and(gs, 3) == Ok::<(Formula, int), ParseError>((qr, 6)));
    assert(spec_or_rest(gs, 6, qr) == Ok::<(Formula, int), ParseError>((qr, 6)));
    assert(spec_or(gs, 3) == Ok::<(Formula, int), ParseError>((qr, 6)));
    assert(spec_implies_rest(gs, 6, qr) == Ok::<(Formula, int), ParseError>((qr, 6)));
    assert(spec_implies(gs, 3) == Ok::<(Formula, int), ParseError>((qr, 6)));
    assert(spec_atom(gs, 2) == Ok::<(Formula, int), ParseError>((group, 7)));
    assert(spec_unary(gs, 2) == Ok::<(Formula, int), ParseError>((group, 7)));
    assert(spec_and_rest(gs, 7, group) == Ok::<(Formula, int), ParseError>((group, 7)));
    assert(spec_and(gs, 2) == Ok::<(Formula, int), ParseError>((group, 7)));
    assert(spec_or_rest(gs, 7, grouped_formula) == Ok::<(Formula, int), ParseError>(
        (grouped_formula, 7),
    ));
    assert(spec_or_rest(gs, 1, fp) == Ok::<(Formula, int), ParseError>((grouped_formula, 7)));
    assert(spec_or(gs, 0) == Ok::<(Formula, int), ParseError>((grouped_formula, 7)));
    assert(spec_implies_rest(gs, 7, grouped_formula) == Ok::<(Formula, int), ParseError>(
        (grouped_formula, 7),
    ));
    assert(spec_implies(gs, 0) == Ok::<(Formula, int), ParseError>((grouped_formula, 7)));
    assert(spec_parse(grouped_toks) == Ok::<Formula, ParseError>(grouped_formula));
    reveal_with_fuel(eval, 4);
    assert(eval(flat_formula, m) == eval(grouped_formula, m));
}

/// Precedence law: disjunction binds looser than conjunction on the left as
/// well. For any identifiers `p`, `q`, `r`, the token sequences `p & q | r`
/// and `( p & q ) | r` both parse and the two formulas agree under every
/// valuation.
#[verifier::rlimit(100)]
#[verifier::spinoff_prover]
pub proof fn lemma_precedence_and_over_or(
    p: Seq<char>,
    q: Seq<char>,
    r: Seq<char>,
    m: Map<Seq<char>, bool>,
)
    ensures
        ({
            let flat = spec_parse(
                seq![
                    TokenModel::Identifier(p),
                    TokenModel::And,
                    TokenModel::Identifier(q),
                    TokenModel::Or,
                    TokenModel::Identifier(r),
                ],
            );
            let grouped = spec_parse(
                seq![
                    TokenModel::LeftParen,
                    TokenModel::Identifier(p),
                    TokenModel::And,
                    TokenModel::Identifier(q),
                    TokenModel::RightParen,
                    TokenModel::Or,
                    TokenModel::Identifier(r),
                ],
            );
            &&& flat matches Ok(ff)
            &&& grouped matches Ok(gf)
            &&& (flat matches Ok(ff) && grouped matches Ok(gf) ==> eval(ff, m) == eval(gf, m))
        }),
{
    let fp = Formula::Identifier { name: p };
    let fq = Formula::Identifier { name: q };
    let fr = Formula::Identifier { name: r };
    let pq = Formula::Binary { left: Box::new(fp), op: BinaryOperator::And, right: Box::new(fq) };
    let flat_formula = Formula::Binary {
        left: Box::new(pq),
        op: BinaryOperator::Or,
        right: Box::new(fr),
    };
    let group = Formula::Enclosed { inner: Box::new(pq) };
    let grouped_formula = Formula::Binary {
        left: Box::new(group),
        op: BinaryOperator::Or,
        right: Box::new(fr),
    };
    let flat_toks = seq![
        TokenModel::Identifier(p),
        TokenModel::And,
        TokenModel::Identifier(q),
        TokenModel::Or,
        TokenModel::Identifier(r),
    ];
    let grouped_toks = seq![
        TokenModel::LeftParen,
        TokenModel::Identifier(p),
        TokenModel::And,
        TokenModel::Identifier(q),
        TokenModel::RightParen,
        TokenModel::Or,
        TokenModel::Identifier(r),
    ];
    if has_error_token(flat_toks) {
        let i = choose|i: int| 0 <= i < flat_toks.len() && flat_toks[i] is Error;
        assert(false);
    }
    if has_error_token(grouped_toks) {
        let i = choose|i: int| 0 <= i < grouped_toks.len() && grouped_toks[i] is Error;
        assert(false);
    }
    let ts = flat_toks;
    assert(spec_unary(ts, 0) == Ok::<(Formula, int), ParseError>((fp, 1)));
    assert(spec_unary(ts, 2) == Ok::<(Formula, int), ParseError>((fq, 3)));
    assert(spec_and_rest(ts, 3, pq) == Ok::<(Formula, int), ParseError>((pq, 3)));
    assert(spec_and_rest(ts, 1, fp) == Ok::<(Formula, int), ParseError>((pq, 3)));
    assert(spec_and(ts, 0) == Ok::<(Formula, int), ParseError>((pq, 3)));
    assert(spec_unary(ts, 4) == Ok::<(Formula, int), ParseError>((fr, 5)));
    assert(spec_and_rest(ts, 5, fr) == Ok::<(Formula, int), ParseError>((fr, 5)));
    assert(spec_and(ts, 4) == Ok::<(Formula, int), ParseError>((fr, 5)));
    assert(spec_or_rest(ts, 5, flat_formula) == Ok::<(Formula, int), ParseError>(
        (flat_formula, 5),
    ));
    assert(spec_or_rest(ts, 3, pq) == Ok::<(Formula, int), ParseError>((flat_formula, 5)));
    assert(spec_or(ts, 0) == Ok::<(Formula, int), ParseError>((flat_formula, 5)));
    assert(spec_implies_rest(ts, 5, flat_formula) == Ok::<(Formula, int), ParseError>(
        (flat_formula, 5),
    ));
    assert(spec_implies(ts, 0) == Ok::<(Formula, int), ParseError>((flat_formula, 5)));
    assert(spec_parse(flat_toks) == Ok::<Formula, ParseError>(flat_formula));
    let gs = grouped_toks;
    assert(spec_unary(gs, 1) == Ok::<(Formula, int), ParseError>((fp, 2)));
    assert(spec_unary(gs, 3) == Ok::<(Formula, int), ParseError>((fq, 4)));
    assert(spec_and_rest(gs, 4, pq) == Ok::<(Formula, int), ParseError>((pq, 4)));
    assert(spec_and_rest(gs, 2, fp) == Ok::<(Formula, int), ParseError>((pq, 4)));
    assert(spec_and(gs, 1) == Ok::<(Formula, int), ParseError>((pq, 4)));
    assert(spec_or_rest(gs, 4, pq) == Ok::<(Formula, int), ParseError>((pq, 4)));
    assert(spec_or(gs, 1) == Ok::<(Formula, int), ParseError>((pq, 4)));
    assert(spec_implies_rest(gs, 4, pq) == Ok::<(Formula, int), ParseError>((pq, 4)));
    assert(spec_implies(gs, 1) == Ok::<(Formula, int), ParseError>((pq, 4)));
    assert(spec_atom(gs, 0) == Ok::<(Formula, int), ParseError>((group, 5)));
    assert(spec_unary(gs, 0) == Ok::<(Formula, int), ParseError>((group, 5)));
    assert(spec_and_rest(gs, 5, group) == Ok::<(Formula, int), ParseError>((group, 5)));
    assert(spec_and(gs, 0) == Ok::<(Formula, int), ParseError>((group, 5)));
    assert(spec_unary(gs, 6) == Ok::<(Formula, int), ParseError>((fr, 7)));
    assert(spec_and_rest(gs, 7, fr) == Ok::<(Formula, int), ParseError>((fr, 7)));
    assert(spec_and(gs, 6) == Ok::<(Formula, int), ParseError>((fr, 7)));
    assert(spec_or_rest(gs, 7, grouped_formula) == Ok::<(Formula, int), ParseError>(
        (grouped_formula, 7),
    ));
    assert(spec_or_rest(gs, 5, group) == Ok::<(Formula, int), ParseError>((grouped_formula, 7)));
    assert(spec_or(gs, 0) == Ok::<(Formula, int), ParseError>((grouped_formula, 7)));
    assert(spec_implies_rest(gs, 7, grouped_formula) == Ok::<(Formula, int), ParseError>(
        (grouped_formula, 7),
    ));
    assert(spec_implies(gs, 0) == Ok::<(Formula, int), ParseError>((grouped_formula, 7)));
    assert(spec_parse(grouped_toks) == Ok::<Formula, ParseError>(grouped_formula));
    reveal_with_fuel(eval, 4);
    assert(eval(flat_formula, m) == eval(grouped_formula, m));
}

fn parse_atom(tokens: &Vec<Token>, pos: usize) -> (result: Result<(Expression, usize), ParseError>)
    requires
        pos <= tokens.len(),
    ensures
        match result {
            Ok((e, next)) => spec_atom(tokens.deep_view(), pos as int) == Ok::<
                (Formula, int),
                ParseError,
            >((e@, next as int)) && pos < next <= tokens.len(),
            Err(pe) => spec_atom(tokens.deep_view(), pos as int) == Err::<
                (Formula, int),
                ParseError,
            >(pe),
        },
    decreases tokens.len() - pos, 0int,
{
    if pos >= tokens.len() {
        return Err(ParseError::UnexpectedEndOfInput);
    }
    match &tokens[pos] {
        Token::Identifier(name) => {
            let value = name.clone();
            Ok((Expression::Identifier { value }, pos + 1))
        },
        Token::True => Ok((Expression::True, pos + 1)),
        Token::False => Ok((Expression::False, pos + 1)),
        Token::LeftParen => {
            match parse_implies(tokens, pos + 1) {
                Ok((inner, next)) => {
                    if next < tokens.len() {
                        let closing = match &tokens[next] {
                            Token::RightParen => true,
                            _ => false,
                        };
                        if closing {
                            Ok((Expression::Enclosed { inner: Box::new(inner) }, next + 1))
                        } else {
                            Err(ParseError::UnmatchedParenthesis)
                        }
                    } else {
                        Err(ParseError::UnexpectedEndOfInput)
                    }
                },
                Err(pe) => Err(pe),
            }
        },
        _ => Err(ParseError::UnexpectedToken),
    }
}

fn parse_unary(tokens: &Vec<Token>, pos: usize) -> (result: Result<(Expression, usize), ParseError>)
    requires
        pos <= tokens.len(),
    ensures
        match result {
            Ok((e, next)) => spec_unary(tokens.deep_view(), pos as int) == Ok::<
                (Formula, int),
                ParseError,
            >((e@, next as int)) && pos < next <= tokens.len(),
            Err(pe) => spec_unary(tokens.deep_view(), pos as int) == Err::<
                (Formula, int),
                ParseError,
            >(pe),
        },
    decreases tokens.len() - pos, 1int,
{
    let negated = pos < tokens.len() && match &tokens[pos] {
        Token::Not => true,
        _ => false,
    };
    if negated {
        match parse_unary(tokens, pos + 1) {
            Ok((inner, next)) => Ok(
                (Expression::Unary { op: UnaryOperator::Not, expr: Box::new(inner) }, next),
            ),
            Err(pe) => Err(pe),
        }
    } else {
        parse_atom(tokens, pos)
    }
}

fn parse_and_rest(tokens: &Vec<Token>, pos: usize, acc: Expression) -> (result: Result<
    (Expression, usize),
    ParseError,
>)
    requires
        pos <= tokens.len(),
    ensures
        match result {
            Ok((e, next)) => spec_and_rest(tokens.deep_view(), pos as int, acc@) == Ok::<
                (Formula, int),
                ParseError,
            >((e@, next as int)) && pos <= next <= tokens.len(),
            Err(pe) => spec_and_rest(tokens.deep_view(), pos as int, acc@) == Err::<
                (Formula, int),
                ParseError,
            >(pe),
        },
    decreases tokens.len() - pos, 2int,
{
    let more = pos < tokens.len() && match &tokens[pos] {
        Token::And => true,
        _ => false,
    };
    if more {
        match parse_unary(tokens, pos + 1) {
            Ok((rhs, next)) => parse_and_rest(
                tokens,
                next,
                Expression::Binary {
                    left: Box::new(acc),
                    op: BinaryOperator::And,
                    right: Box::new(rhs),
                },
            ),
            Err(pe) => Err(pe),
        }
    } else {
        Ok((acc, pos))
    }
}

fn parse_and(tokens: &Vec<Token>, pos: usize) -> (result: Result<(Expression, usize), ParseError>)
    requires
        pos <= tokens.len(),
    ensures
        match result {
            Ok((e, next)) => spec_and(tokens.deep_view(), pos as int) == Ok::<
                (Formula, int),
                ParseError,
            >((e@, next as int)) && pos < next <= tokens.len(),
            Err(pe) => spec_and(tokens.deep_view(), pos as int) == Err::<
                (Formula, int),
                ParseError,
            >(pe),
        },
    decreases tokens.len() - pos, 3int,
{
    match parse_unary(tokens, pos) {
        Ok((first, next)) => parse_and_rest(tokens, next, first),
        Err(pe) => Err(pe),
    }
}

fn parse_or_rest(tokens: &Vec<Token>, pos: usize, acc: Expression) -> (result: Result<
    (Expression, usize),
    ParseError,
>)
    requires
        pos <= tokens.len(),
    ensures
        match result {
            Ok((e, next)) => spec_or_rest(tokens.deep_view(), pos as int, acc@) == Ok::<
                (Formula, int),
                ParseError,
            >((e@, next as int)) && pos <= next <= tokens.len(),
            Err(pe) => spec_or_rest(tokens.deep_view(), pos as int, acc@) == Err::<
                (Formula, int),
                ParseError,
            >(pe),
        },
    decreases tokens.len() - pos, 4int,
{
    let more = pos < tokens.len() && match &tokens[pos] {
        Token::Or => true,
        _ => false,
    };
    if more {
        match parse_and(tokens, pos + 1) {
            Ok((rhs, next)) => parse_or_rest(
                tokens,
                next,
                Expression::Binary {
                    left: Box::new(acc),
                    op: BinaryOperator::Or,
                    right: Box::new(rhs),
                },
            ),
            Err(pe) => Err(pe),
        }
    } else {
        Ok((acc, pos))
    }
}

fn parse_or(tokens: &Vec<Token>, pos: usize) -> (result: Result<(Expression, usize), ParseError>)
    requires
        pos <= tokens.len(),
    ensures
        match result {
            Ok((e, next)) => spec_or(tokens.deep_view(), pos as int) == Ok::<
                (Formula, int),
                ParseError,
            >((e@, next as int)) && pos < next <= tokens.len(),
            Err(pe) => spec_or(tokens.deep_view(), pos as int) == Err::<
                (Formula, int),
                ParseError,
            >(pe),
        },
    decreases tokens.len() - pos, 5int,
{
    match parse_and(tokens, pos) {
        Ok((first, next)) => parse_or_rest(tokens, next, first),
        Err(pe) => Err(pe),
    }
}

fn parse_implies_rest(tokens: &Vec<Token>, pos: usize, acc: Expression) -> (result: Result<
    (Expression, usize),
    ParseError,
>)
    requires
        pos <= tokens.len(),
    ensures
        match result {
            Ok((e, next)) => spec_implies_rest(tokens.deep_view(), pos as int, acc@) == Ok::<
                (Formula, int),
                ParseError,
            >((e@, next as int)) && pos <= next <= tokens.len(),
            Err(pe) => spec_implies_rest(tokens.deep_view(), pos as int, acc@) == Err::<
                (Formula, int),
                ParseError,
            >(pe),
        },
    decreases tokens.len() - pos, 6int,
{
    let more = pos < tokens.len() && match &tokens[pos] {
        Token::Implies => true,
        _ => false,
    };
    if more {
        match parse_or(tokens, pos + 1) {
            Ok((rhs, next)) => parse_implies_rest(
                tokens,
                next,
                Expression::Binary {
                    left: Box::new(acc),
                    op: BinaryOperator::Implies,
                    right: Box::new(rhs),
                },
            ),
            Err(pe) => Err(pe),
        }
    } else {
        Ok((acc, pos))
    }
}

fn parse_implies(tokens: &Vec<Token>, pos: usize) -> (result: Result<
    (Expression, usize),
    ParseError,
>)
    requires
        pos <= tokens.len(),
    ensures
        match result {
            Ok((e, next)) => spec_implies(tokens.deep_view(), pos as int) == Ok::<
                (Formula, int),
                ParseError,
            >((e@, next as int)) && pos < next <= tokens.len(),
            Err(pe) => spec_implies(tokens.deep_view(), pos as int) == Err::<
                (Formula, int),
                ParseError,
            >(pe),
        },
    decreases tokens.len() - pos, 7int,
{
    match parse_or(tokens, pos) {
        Ok((first, next)) => parse_implies_rest(tokens, next, first),
        Err(pe) => Err(pe),
    }
}

/// Parses a token sequence into one complete abstract syntax tree, or
/// reports the failure [`spec_parse`] assigns to the sequence.
pub fn parse_tokens(tokens: &Vec<Token>) -> (result: Result<Expression, ParseError>)
    ensures
        match result {
            Ok(e) => spec_parse(tokens.deep_view()) == Ok::<Formula, ParseError>(e@),
            Err(pe) => spec_parse(tokens.deep_view()) == Err::<Formula, ParseError>(pe),
        },
{
    let mut i: usize = 0;
    while i < tokens.len()
        invariant
            i <= tokens.len(),
            forall|j: int| 0 <= j < i ==> !(tokens.deep_view()[j] is Error),
        decreases tokens.len() - i,
    {
        let erroneous = match &tokens[i] {
            Token::Error => true,
            _ => false,
        };
        if erroneous {
            proof {
                assert(tokens.deep_view()[i as int] is Error);
            }
            return Err(ParseError::Lexical(LexicalError));
        }
        i = i + 1;
    }
    proof {
        if has_error_token(tokens.deep_view()) {
            let j = choose|j: int|
                0 <= j < tokens.deep_view().len() && tokens.deep_view()[j] is Error;
            assert(false);
        }
    }
    match parse_implies(tokens, 0) {
        Ok((e, next)) => {
            if next == tokens.len() {
                Ok(e)
            } else {
                Err(ParseError::TrailingTokens)
            }
        },
        Err(pe) => Err(pe),
    }
}

/// Parses a piece of text into one complete abstract syntax tree: the
/// composition of [`tokenize`] and [`parse_tokens`].
pub fn parse(text: &str) -> (result: Result<Expression, ParseError>)
    ensures
        match result {
            Ok(e) => spec_parse(spec_lex(text@)) == Ok::<Formula, ParseError>(e@),
            Err(pe) => spec_parse(spec_lex(text@)) == Err::<Formula, ParseError>(pe),
        },
{
    let tokens = tokenize(text);
    parse_tokens(&tokens)
}

} // verus!
