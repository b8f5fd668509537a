//! The enumeration-based analyses: truth table, satisfiability search,
//! entailment and equivalence.
//!
//! Every analysis walks the same space: the free variables of the formula
//! (or the union of two formulas' free variables) are given bit positions in
//! order of first occurrence, and each bitmask from `0` to `2^n - 1`, in
//! increasing order, names the valuation where variable `i` is true exactly
//! when bit `i` of the mask is set. Bitmask 0 is the all-false valuation and
//! `2^n - 1` the all-true one. The completeness lemmas below show that this
//! enumeration reaches every valuation that matters, so the contracts of
//! [`satisfiable`], [`entails`] and [`equivalent`] quantify over *all*
//! valuations, not merely the enumerated ones.

use vstd::arithmetic::power2::pow2;
use vstd::bits::{lemma_u64_pow2_no_overflow, lemma_u64_shl_is_mul};
use vstd::prelude::*;

use crate::ast::{dedup_names, Expression};
use crate::semantics::{
    dedup, eval, lemma_concat_contains, lemma_dedup_contains, lemma_dedup_no_duplicates,
    lemma_eval_relevance, lookup, ordered_vars, var_seq, Formula,
};
use crate::valuation::Valuation;

verus! {

/// The most variables one enumeration may cover: the search space is `2^n`,
/// so a formula (or a pair of formulas) with more distinct variables than
/// this is refused rather than enumerated.
pub const MAX_VARIABLES: usize = 16;

/// Refusal to enumerate: the formulas have more distinct variables than
/// [`MAX_VARIABLES`].
#[derive(Debug, Clone, Copy, PartialEq, Eq, Structural)]
pub struct ScaleError {
    /// How many distinct variables the enumeration would have covered.
    pub count: usize,
}

/// Whether bit `i` of `mask` is set.
pub open spec fn bit_of(mask: u64, i: u64) -> bool {
    (mask >> i) & 1u64 == 1u64
}

/// The valuation a bitmask names over an ordered variable list: variable `i`
/// is true exactly when bit `i` of the mask is set.
pub open spec fn mask_val(vars: Seq<Seq<char>>, mask: u64) -> Map<Seq<char>, bool>
    decreases vars.len(),
{
    if vars.len() == 0 {
        Map::empty()
    } else {
        mask_val(vars.drop_last(), mask).insert(
            vars.last(),
            bit_of(mask, (vars.len() - 1) as u64),
        )
    }
}

/// The bitmask that names the valuation agreeing with `m` on every variable
/// of the list.
pub open spec fn mask_of(vars: Seq<Seq<char>>, m: Map<Seq<char>, bool>) -> u64
    decreases vars.len(),
{
    if vars.len() == 0 {
        0u64
    } else if lookup(m, vars.last()) {
        mask_of(vars.drop_last(), m) | (1u64 << ((vars.len() - 1) as u64))
    } else {
        mask_of(vars.drop_last(), m)
    }
}

/// The mask built for a list of `n` variables stays below `2^n`.
pub proof fn lemma_mask_of_bound(vars: Seq<Seq<char>>, m: Map<Seq<char>, bool>)
    requires
        vars.len() <= 63,
    ensures
        mask_of(vars, m) < (1u64 << (vars.len() as u64)),
    decreases vars.len(),
{
    if vars.len() == 0 {
        assert(0u64 < (1u64 << 0u64)) by (bit_vector);
    } else {
        lemma_mask_of_bound(vars.drop_last(), m);
        let x = mask_of(vars.drop_last(), m);
        let k = (vars.len() - 1) as u64;
        let k1 = vars.len() as u64;
        assert((x < (1u64 << k) && k < 63 && k1 == k + 1) ==> ((x | (1u64 << k)) < (1u64 << k1)
            && x < (1u64 << k1))) by (bit_vector);
    }
}

/// Bit `i` of the mask built from `m` reads exactly what `m` assigns to
/// variable `i`.
pub proof fn lemma_mask_of_bits(vars: Seq<Seq<char>>, m: Map<Seq<char>, bool>)
    requires
        vars.len() <= 63,
    ensures
        forall|i: int| 0 <= i < vars.len() ==> bit_of(mask_of(vars, m), i as u64) == lookup(
            m,
            vars[i],
        ),
    decreases vars.len(),
{
    if vars.len() > 0 {
        lemma_mask_of_bits(vars.drop_last(), m);
        lemma_mask_of_bound(vars.drop_last(), m);
        let x = mask_of(vars.drop_last(), m);
        let k = (vars.len() - 1) as u64;
        assert forall|i: int| 0 <= i < vars.len() implies bit_of(mask_of(vars, m), i as u64)
            == lookup(m, vars[i]) by {
            if i < vars.len() - 1 {
                assert(vars.drop_last()[i] == vars[i]);
                assert(bit_of(x, i as u64) == lookup(m, vars[i]));
                let b = i as u64;
                assert((x < (1u64 << k) && k < 63 && b < k) ==> ((((x | (1u64 << k)) >> b) & 1u64)
                    == ((x >> b) & 1u64))) by (bit_vector);
            } else {
                assert((x < (1u64 << k) && k < 63) ==> ((((x | (1u64 << k)) >> k) & 1u64 == 1u64)
                    && (((x >> k) & 1u64) != 1u64))) by (bit_vector);
            }
        }
    }
}

/// What the valuation named by a mask assigns to variable `j`: bit `j`.
pub proof fn lemma_mask_val_lookup(vars: Seq<Seq<char>>, mask: u64, j: int)
    requires
        vars.no_duplicates(),
        0 <= j < vars.len(),
    ensures
        lookup(mask_val(vars, mask), vars[j]) == bit_of(mask, j as u64),
    decreases vars.len(),
{
    if j == vars.len() - 1 {
    } else {
        assert(vars[j] != vars[vars.len() - 1]);
        assert(vars.drop_last().no_duplicates()) by {
            assert forall|a: int, b: int|
                0 <= a < vars.drop_last().len() && 0 <= b < vars.drop_last().len() && a
                    != b implies vars.drop_last()[a] != vars.drop_last()[b] by {
                assert(vars.drop_last()[a] == vars[a]);
                assert(vars.drop_last()[b] == vars[b]);
            }
        }
        lemma_mask_val_lookup(vars.drop_last(), mask, j);
        assert(vars.drop_last()[j] == vars[j]);
    }
}

/// The valuation named by the mask built from `m` agrees with `m` on every
/// variable of the list.
pub proof fn lemma_mask_of_agrees(vars: Seq<Seq<char>>, m: Map<Seq<char>, bool>)
    requires
        vars.no_duplicates(),
        vars.len() <= 63,
    ensures
        forall|k: Seq<char>| #[trigger] vars.contains(k) ==> lookup(
            mask_val(vars, mask_of(vars, m)),
            k,
        ) == lookup(m, k),
{
    lemma_mask_of_bits(vars, m);
    assert forall|k: Seq<char>| #[trigger] vars.contains(k) implies lookup(
        mask_val(vars, mask_of(vars, m)),
        k,
    ) == lookup(m, k) by {
        let j = choose|j: int| 0 <= j < vars.len() && vars[j] == k;
        lemma_mask_val_lookup(vars, mask_of(vars, m), j);
    }
}

/// Completeness of the enumeration: for any valuation `m` whatever, the
/// valuation named by `mask_of(vars, m)` gives the formula the same truth
/// value, provided every free variable of the formula is in the list.
pub proof fn lemma_eval_mask_of(vars: Seq<Seq<char>>, m: Map<Seq<char>, bool>, f: Formula)
    requires
        vars.no_duplicates(),
        vars.len() <= 63,
        forall|k: Seq<char>| #[trigger] var_seq(f).contains(k) ==> vars.contains(k),
    ensures
        eval(f, mask_val(vars, mask_of(vars, m))) == eval(f, m),
{
    lemma_mask_of_agrees(vars, m);
    lemma_eval_relevance(f, mask_val(vars, mask_of(vars, m)), m);
}

/// Two masks below `2^n` that agree on bits `0` to `n - 1` are equal.
pub proof fn lemma_bits_injective(m1: u64, m2: u64, n: u64)
    requires
        n <= 63,
        m1 < (1u64 << n),
        m2 < (1u64 << n),
        forall|b: u64| b < n ==> bit_of(m1, b) == bit_of(m2, b),
    ensures
        m1 == m2,
    decreases n,
{
    if n == 0 {
        assert((m1 < (1u64 << 0u64) && m2 < (1u64 << 0u64)) ==> m1 == m2) by (bit_vector);
    } else {
        let h1 = m1 >> 1u64;
        let h2 = m2 >> 1u64;
        let nm1 = (n - 1) as u64;
        assert((m1 < (1u64 << n) && 0 < n <= 63 && nm1 == n - 1) ==> ((m1 >> 1u64) < (1u64 << nm1)))
            by (bit_vector);
        assert((m2 < (1u64 << n) && 0 < n <= 63 && nm1 == n - 1) ==> ((m2 >> 1u64) < (1u64 << nm1)))
            by (bit_vector);
        assert forall|b: u64| b < nm1 implies bit_of(h1, b) == bit_of(h2, b) by {
            let bb = (b + 1) as u64;
            assert((b <= 62 && bb == b + 1) ==> ((((m1 >> 1u64) >> b) & 1u64) == ((m1 >> bb)
                & 1u64))) by (bit_vector);
            assert((b <= 62 && bb == b + 1) ==> ((((m2 >> 1u64) >> b) & 1u64) == ((m2 >> bb)
                & 1u64))) by (bit_vector);
            assert(bit_of(m1, bb) == bit_of(m2, bb));
        }
        lemma_bits_injective(h1, h2, nm1);
        assert(bit_of(m1, 0u64) == bit_of(m2, 0u64));
        assert(((m1 >> 0u64) & 1u64) == 0u64 || ((m1 >> 0u64) & 1u64) == 1u64) by (bit_vector);
        assert(((m2 >> 0u64) & 1u64) == 0u64 || ((m2 >> 0u64) & 1u64) == 1u64) by (bit_vector);
        assert((m1 >> 1u64 == m2 >> 1u64 && ((m1 >> 0u64) & 1u64) == ((m2 >> 0u64) & 1u64)) ==> m1
            == m2) by (bit_vector);
    }
}

/// The bits of a mask as a row of booleans, bit 0 first.
fn bits_of(n: usize, mask: u64) -> (bits: Vec<bool>)
    requires
        n <= 63,
    ensures
        bits@.len() == n,
        forall|b: int| 0 <= b < n ==> bits@[b] == bit_of(mask, b as u64),
{
    let mut bits: Vec<bool> = Vec::new();
    let mut i: usize = 0;
    while i < n
        invariant
            i <= n <= 63,
            bits@.len() == i,
            forall|b: int| 0 <= b < i ==> bits@[b] == bit_of(mask, b as u64),
        decreases n - i,
    {
        bits.push((mask >> (i as u64)) & 1u64 == 1u64);
        i = i + 1;
    }
    bits
}

/// The valuation a mask names over an ordered variable list.
fn valuation_for_mask(variables: &Vec<String>, mask: u64) -> (v: Valuation)
    requires
        variables.len() <= 63,
    ensures
        v@ == mask_val(variables.deep_view(), mask),
{
    let mut v = Valuation::new();
    let mut i: usize = 0;
    proof {
        assert(variables.deep_view().take(0) =~= Seq::<Seq<char>>::empty());
    }
    while i < variables.len()
        invariant
            i <= variables.len() <= 63,
            v@ == mask_val(variables.deep_view().take(i as int), mask),
        decreases variables.len() - i,
    {
        let set = (mask >> (i as u64)) & 1u64 == 1u64;
        v.insert(variables[i].clone(), set);
        proof {
            assert(variables.deep_view().take(i as int + 1).drop_last() =~= variables.deep_view()
                .take(i as int));
            assert(variables.deep_view().take(i as int + 1).last() == variables.deep_view()[
                i as int]);
            assert(variables.deep_view()[i as int] == variables@[i as int]@);
        }
        i = i + 1;
    }
    proof {
        assert(variables.deep_view().take(variables.len() as int) =~= variables.deep_view());
    }
    v
}

/// The distinct variables of two formulas together, in order of first
/// occurrence over the pair, each with a fixed bit position. Entailment and
/// equivalence enumerate over this union so that a variable of either
/// formula is indexed consistently in both.
fn union_variables(f: &Expression, e: &Expression) -> (variables: Vec<String>)
    ensures
        variables.deep_view() == dedup(var_seq(f@) + var_seq(e@)),
{
    let mut occurrences: Vec<String> = Vec::new();
    f.push_variables(&mut occurrences);
    e.push_variables(&mut occurrences);
    proof {
        assert(occurrences.deep_view() =~= var_seq(f@) + var_seq(e@));
    }
    dedup_names(&occurrences)
}

/// One row of a truth table: the value of each variable, bit 0 first, and
/// the truth value of the formula under that assignment.
pub struct TruthTableRow {
    /// The value assigned to each variable, in the order of the table's
    /// variable list.
    pub assignment: Vec<bool>,
    /// The truth value of the formula under this assignment.
    pub result: bool,
}

/// A complete truth table: every assignment of the formula's free variables,
/// in increasing bitmask order, with the formula's value under each.
pub struct TruthTable {
    /// The free variables, in order of first occurrence; the position of a
    /// variable here is its bit position in every row.
    pub variables: Vec<String>,
    /// One row per bitmask from `0` to `2^n - 1`, in increasing order.
    pub rows: Vec<TruthTableRow>,
}

/// Builds the truth table of a formula: exactly `2^n` rows over its `n` free
/// variables, in increasing bitmask order, every row distinct. A formula
/// without free variables gets exactly one row, the empty assignment.
pub fn truth_table(expression: &Expression) -> (result: Result<TruthTable, ScaleError>)
    ensures
        match result {
            Ok(table) => ({
                let vars = ordered_vars(expression@);
                &&& vars.len() <= MAX_VARIABLES
                &&& table.variables.deep_view() == vars
                &&& table.rows@.len() == pow2(vars.len())
                &&& forall|r: int|
                    0 <= r < table.rows@.len() ==> (#[trigger] table.rows@[r].assignment@.len()
                        == vars.len() && (forall|b: int|
                        0 <= b < vars.len() ==> table.rows@[r].assignment@[b] == bit_of(
                            r as u64,
                            b as u64,
                        )) && table.rows@[r].result == eval(expression@, mask_val(vars, r as u64)))
                &&& forall|r1: int, r2: int|
                    0 <= r1 < r2 < table.rows@.len() ==> #[trigger] table.rows@[r1].assignment@
                        != #[trigger] table.rows@[r2].assignment@
            }),
            Err(sc) => sc.count == ordered_vars(expression@).len() && sc.count > MAX_VARIABLES,
        },
{
    let variables = expression.get_variables();
    let n = variables.len();
    if n > MAX_VARIABLES {
        return Err(ScaleError { count: n });
    }
    proof {
        lemma_dedup_no_duplicates(var_seq(expression@));
        lemma_u64_pow2_no_overflow(n as nat);
        lemma_u64_shl_is_mul(1u64, n as u64);
    }
    let total: u64 = 1u64 << (n as u64);
    let mut rows: Vec<TruthTableRow> = Vec::new();
    let mut mask: u64 = 0;
    while mask < total
        invariant
            n == variables.len() <= MAX_VARIABLES,
            variables.deep_view() == ordered_vars(expression@),
            variables.deep_view().no_duplicates(),
            total == pow2(n as nat),
            total == (1u64 << (n as u64)),
            mask <= total,
            rows@.len() == mask as int,
            forall|r: int|
                0 <= r < mask as int ==> (#[trigger] rows@[r].assignment@.len() == n && (forall|
                    b: int,
                |
                    0 <= b < n ==> rows@[r].assignment@[b] == bit_of(r as u64, b as u64))
                    && rows@[r].result == eval(
                    expression@,
                    mask_val(variables.deep_view(), r as u64),
                )),
        decreases total - mask,
    {
        let assignment = bits_of(n, mask);
        let valuation = valuation_for_mask(&variables, mask);
        let result = expression.evaluate(&valuation);
        let ghost previous = rows@;
        rows.push(TruthTableRow { assignment, result });
        proof {
            assert forall|r: int|
                0 <= r < mask as int + 1 implies (#[trigger] rows@[r].assignment@.len() == n && (
                forall|b: int|
                    0 <= b < n ==> rows@[r].assignment@[b] == bit_of(r as u64, b as u64))
                    && rows@[r].result == eval(
                    expression@,
                    mask_val(variables.deep_view(), r as u64),
                )) by {
                if r < mask as int {
                    assert(rows@[r] == previous[r]);
                    assert(previous[r].assignment@.len() == n);
                } else {
                    assert(rows@[r] == (TruthTableRow { assignment, result }));
                    assert(rows@[r].assignment@ == assignment@);
                    assert(rows@[r].result == result);
                }
            }
        }
        mask = mask + 1;
    }
    proof {
        assert forall|r1: int, r2: int| 0 <= r1 < r2 < rows@.len() implies rows@[r1].assignment@
            != rows@[r2].assignment@ by {
            assert(rows@[r1].assignment@.len() == n);
            assert(rows@[r2].assignment@.len() == n);
            if rows@[r1].assignment@ == rows@[r2].assignment@ {
                assert forall|b: u64| b < n as u64 implies #[trigger] bit_of(r1 as u64, b)
                    == bit_of(r2 as u64, b) by {
                    assert(rows@[r1].assignment@[b as int] == bit_of(r1 as u64, b));
                    assert(rows@[r2].assignment@[b as int] == bit_of(r2 as u64, b));
                }
                lemma_bits_injective(r1 as u64, r2 as u64, n as u64);
            }
        }
    }
    Ok(TruthTable { variables, rows })
}

/// Searches for a satisfying valuation in increasing bitmask order and
/// returns the first one found, or nothing when the formula is false under
/// every valuation whatever — not only the enumerated ones.
pub fn satisfiable(expression: &Expression) -> (result: Result<Option<Valuation>, ScaleError>)
    ensures
        match result {
            Ok(Some(v)) => ({
                let vars = ordered_vars(expression@);
                &&& vars.len() <= MAX_VARIABLES
                &&& eval(expression@, v@)
                &&& exists|mask: u64|
                    mask < pow2(vars.len()) && v@ == #[trigger] mask_val(vars, mask) && eval(
                        expression@,
                        mask_val(vars, mask),
                    ) && (forall|earlier: u64|
                        earlier < mask ==> !eval(expression@, mask_val(vars, earlier)))
            }),
            Ok(None) => ordered_vars(expression@).len() <= MAX_VARIABLES && (forall|
                m: Map<Seq<char>, bool>,
            | !eval(expression@, m)),
            Err(sc) => sc.count == ordered_vars(expression@).len() && sc.count > MAX_VARIABLES,
        },
{
    let variables = expression.get_variables();
    let n = variables.len();
    if n > MAX_VARIABLES {
        return Err(ScaleError { count: n });
    }
    proof {
        lemma_dedup_no_duplicates(var_seq(expression@));
        lemma_u64_pow2_no_overflow(n as nat);
        lemma_u64_shl_is_mul(1u64, n as u64);
    }
    let total: u64 = 1u64 << (n as u64);
    let ghost vars = ordered_vars(expression@);
    let mut mask: u64 = 0;
    while mask < total
        invariant
            n == variables.len() <= MAX_VARIABLES,
            variables.deep_view() == vars,
            vars == ordered_vars(expression@),
            vars.no_duplicates(),
            total == pow2(n as nat),
            total == (1u64 << (n as u64)),
            mask <= total,
            forall|earlier: u64| earlier < mask ==> !eval(expression@, mask_val(vars, earlier)),
        decreases total - mask,
    {
        let valuation = valuation_for_mask(&variables, mask);
        if expression.evaluate(&valuation) {
            proof {
                assert(mask < pow2(vars.len()) && valuation@ == mask_val(vars, mask) && eval(
                    expression@,
                    mask_val(vars, mask),
                ) && (forall|earlier: u64|
                    earlier < mask ==> !eval(expression@, mask_val(vars, earlier))));
            }
            return Ok(Some(valuation));
        }
        mask = mask + 1;
    }
    proof {
        lemma_dedup_contains(var_seq(expression@));
        assert forall|m: Map<Seq<char>, bool>| !eval(expression@, m) by {
            lemma_mask_of_bound(vars, m);
            lemma_eval_mask_of(vars, m, expression@);
            assert(!eval(expression@, mask_val(vars, mask_of(vars, m))));
        }
    }
    Ok(None)
}

/// Whether `f` entails `e`: under every valuation whatever — enumerated over
/// the union of both formulas' free variables — a valuation making `f` true
/// also makes `e` true.
pub fn entails(f: &Expression, e: &Expression) -> (result: Result<bool, ScaleError>)
    ensures
        match result {
            Ok(holds) => dedup(var_seq(f@) + var_seq(e@)).len() <= MAX_VARIABLES && holds == (forall|
                m: Map<Seq<char>, bool>,
            | eval(f@, m) ==> eval(e@, m)),
            Err(sc) => sc.count == dedup(var_seq(f@) + var_seq(e@)).len() && sc.count
                > MAX_VARIABLES,
        },
{
    let variables = union_variables(f, e);
    let n = variables.len();
    if n > MAX_VARIABLES {
        return Err(ScaleError { count: n });
    }
    proof {
        lemma_dedup_no_duplicates(var_seq(f@) + var_seq(e@));
        lemma_u64_pow2_no_overflow(n as nat);
        lemma_u64_shl_is_mul(1u64, n as u64);
    }
    let total: u64 = 1u64 << (n as u64);
    let ghost vars = dedup(var_seq(f@) + var_seq(e@));
    let mut mask: u64 = 0;
    while mask < total
        invariant
            n == variables.len() <= MAX_VARIABLES,
            variables.deep_view() == vars,
            vars == dedup(var_seq(f@) + var_seq(e@)),
            vars.no_duplicates(),
            total == (1u64 << (n as u64)),
            mask <= total,
            forall|earlier: u64|
                earlier < mask ==> (eval(f@, #[trigger] mask_val(vars, earlier)) ==> eval(
                    e@,
                    mask_val(vars, earlier),
                )),
        decreases total - mask,
    {
        let valuation = valuation_for_mask(&variables, mask);
        let f_value = f.evaluate(&valuation);
        let e_value = e.evaluate(&valuation);
        if f_value && !e_value {
            proof {
                assert(eval(f@, mask_val(vars, mask)) && !eval(e@, mask_val(vars, mask)));
            }
            return Ok(false);
        }
        mask = mask + 1;
    }
    proof {
        lemma_dedup_contains(var_seq(f@) + var_seq(e@));
        lemma_concat_contains(var_seq(f@), var_seq(e@));
        assert forall|m: Map<Seq<char>, bool>| eval(f@, m) implies eval(e@, m) by {
            lemma_mask_of_bound(vars, m);
            lemma_eval_mask_of(vars, m, f@);
            lemma_eval_mask_of(vars, m, e@);
            assert(eval(f@, mask_val(vars, mask_of(vars, m))) ==> eval(
                e@,
                mask_val(vars, mask_of(vars, m)),
            ));
        }
    }
    Ok(true)
}

/// Whether `f` and `e` are equivalent: they agree under every valuation
/// whatever, enumerated over the union of both formulas' free variables. A
/// variable absent from one formula simply reads as false there; the two
/// variable lists need not be equal.
pub fn equivalent(f: &Expression, e: &Expression) -> (result: Result<bool, ScaleError>)
    ensures
        match result {
            Ok(holds) => dedup(var_seq(f@) + var_seq(e@)).len() <= MAX_VARIABLES && holds == (forall|
                m: Map<Seq<char>, bool>,
            | eval(f@, m) == eval(e@, m)),
            Err(sc) => sc.count == dedup(var_seq(f@) + var_seq(e@)).len() && sc.count
                > MAX_VARIABLES,
        },
{
    let variables = union_variables(f, e);
    let n = variables.len();
    if n > MAX_VARIABLES {
        return Err(ScaleError { count: n });
    }
    proof {
        lemma_dedup_no_duplicates(var_seq(f@) + var_seq(e@));
        lemma_u64_pow2_no_overflow(n as nat);
        lemma_u64_shl_is_mul(1u64, n as u64);
    }
    let total: u64 = 1u64 << (n as u64);
    let ghost vars = dedup(var_seq(f@) + var_seq(e@));
    let mut mask: u64 = 0;
    while mask < total
        invariant
            n == variables.len() <= MAX_VARIABLES,
            variables.deep_view() == vars,
            vars == dedup(var_seq(f@) + var_seq(e@)),
            vars.no_duplicates(),
            total == (1u64 << (n as u64)),
            mask <= total,
            forall|earlier: u64|
                earlier < mask ==> (eval(f@, #[trigger] mask_val(vars, earlier)) == eval(
                    e@,
                    mask_val(vars, earlier),
                )),
        decreases total - mask,
    {
        let valuation = valuation_for_mask(&variables, mask);
        let f_value = f.evaluate(&valuation);
        let e_value = e.evaluate(&valuation);
        if f_value != e_value {
            proof {
                assert(eval(f@, mask_val(vars, mask)) != eval(e@, mask_val(vars, mask)));
            }
            return Ok(false);
        }
        mask = mask + 1;
    }
    proof {
        lemma_dedup_contains(var_seq(f@) + var_seq(e@));
        lemma_concat_contains(var_seq(f@), var_seq(e@));
        assert forall|m: Map<Seq<char>, bool>| eval(f@, m) == eval(e@, m) by {
            lemma_mask_of_bound(vars, m);
            lemma_eval_mask_of(vars, m, f@);
            lemma_eval_mask_of(vars, m, e@);
        }
    }
    Ok(true)
}

} // verus!
