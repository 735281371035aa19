//! Evaluation of an expression over the lattice {zero, non-zero, unknown},
//! knowing only which selectors are enabled, and the columns that an
//! expression mentions.

use vstd::prelude::*;
use crate::model::{Column, ColumnKind, ColumnQuery, Expression};

verus! {

/// What is known of an expression's value from the selectors alone. This is
/// no field value: `NonZero` arises from enabled selectors only.
#[derive(Debug, Clone, Copy, PartialEq, Eq, Structural)]
pub enum AbsResult {
    Zero,
    NonZero,
    Unknown,
}

/// The abstract value of `e` when exactly the selectors in `enabled` are on.
pub open spec fn abstract_value(e: Expression, enabled: Set<usize>) -> AbsResult
    decreases e,
{
    match e {
        Expression::Constant(v) => if v == 0 {
            AbsResult::Zero
        } else {
            AbsResult::Unknown
        },
        Expression::Selector(s) => if enabled.contains(s) {
            AbsResult::NonZero
        } else {
            AbsResult::Zero
        },
        Expression::Fixed { .. } => AbsResult::Unknown,
        Expression::Advice { .. } => AbsResult::Unknown,
        Expression::Instance { .. } => AbsResult::Unknown,
        Expression::Negated(a) => abstract_value(*a, enabled),
        Expression::Sum(a, b) => if abstract_value(*a, enabled) == AbsResult::Zero
            && abstract_value(*b, enabled) == AbsResult::Zero {
            AbsResult::Zero
        } else {
            AbsResult::Unknown
        },
        Expression::Product(a, b) => if abstract_value(*a, enabled) == AbsResult::Zero
            || abstract_value(*b, enabled) == AbsResult::Zero {
            AbsResult::Zero
        } else {
            AbsResult::Unknown
        },
        Expression::Scaled(a, c) => if c == 0 || abstract_value(*a, enabled) == AbsResult::Zero {
            AbsResult::Zero
        } else {
            AbsResult::Unknown
        },
    }
}

/// The fixed and advice columns, with their rotations, that occur in `e`.
pub open spec fn columns_of(e: Expression) -> Set<ColumnQuery>
    decreases e,
{
    match e {
        Expression::Constant(_) => Set::empty(),
        Expression::Selector(_) => Set::empty(),
        Expression::Fixed { column, rotation } => set![fixed_query(column, rotation)],
        Expression::Advice { column, rotation } => set![advice_query(column, rotation)],
        Expression::Instance { .. } => Set::empty(),
        Expression::Negated(a) => columns_of(*a),
        Expression::Sum(a, b) => columns_of(*a).union(columns_of(*b)),
        Expression::Product(a, b) => columns_of(*a).union(columns_of(*b)),
        Expression::Scaled(a, _) => columns_of(*a),
    }
}

/// The query of advice column `column` at `rotation`.
pub open spec fn advice_query(column: usize, rotation: i32) -> ColumnQuery {
    ColumnQuery { column: Column { kind: ColumnKind::Advice, index: column }, rotation }
}

/// The query of fixed column `column` at `rotation`.
pub open spec fn fixed_query(column: usize, rotation: i32) -> ColumnQuery {
    ColumnQuery { column: Column { kind: ColumnKind::Fixed, index: column }, rotation }
}

/// The selectors that occur in `e`.
pub open spec fn selectors_of(e: Expression) -> Set<usize>
    decreases e,
{
    match e {
        Expression::Constant(_) => Set::empty(),
        Expression::Selector(s) => set![s],
        Expression::Fixed { .. } => Set::empty(),
        Expression::Advice { .. } => Set::empty(),
        Expression::Instance { .. } => Set::empty(),
        Expression::Negated(a) => selectors_of(*a),
        Expression::Sum(a, b) => selectors_of(*a).union(selectors_of(*b)),
        Expression::Product(a, b) => selectors_of(*a).union(selectors_of(*b)),
        Expression::Scaled(a, _) => selectors_of(*a),
    }
}

/// `e` holds neither the constant zero nor a scaling by zero.
pub open spec fn free_of_zero_constants(e: Expression) -> bool
    decreases e,
{
    match e {
        Expression::Constant(v) => v != 0,
        Expression::Selector(_) => true,
        Expression::Fixed { .. } => true,
        Expression::Advice { .. } => true,
        Expression::Instance { .. } => true,
        Expression::Negated(a) => free_of_zero_constants(*a),
        Expression::Sum(a, b) => free_of_zero_constants(*a) && free_of_zero_constants(*b),
        Expression::Product(a, b) => free_of_zero_constants(*a) && free_of_zero_constants(*b),
        Expression::Scaled(a, c) => c != 0 && free_of_zero_constants(*a),
    }
}

/// Whether `x` occurs in `v`.
pub fn contains_index(v: &Vec<usize>, x: usize) -> (found: bool)
    ensures
        found == v@.contains(x),
{
    let mut i: usize = 0;
    while i < v.len()
        invariant
            i <= v.len(),
            forall|j: int| 0 <= j < i ==> v@[j] != x,
        decreases v.len() - i,
    {
        if v[i] == x {
            return true;
        }
        i += 1;
    }
    false
}

/// Whether `q` occurs in `v`.
pub fn contains_query(v: &Vec<ColumnQuery>, q: ColumnQuery) -> (found: bool)
    ensures
        found == v@.contains(q),
{
    let mut i: usize = 0;
    while i < v.len()
        invariant
            i <= v.len(),
            forall|j: int| 0 <= j < i ==> v@[j] != q,
        decreases v.len() - i,
    {
        if v[i] == q {
            return true;
        }
        i += 1;
    }
    false
}

/// Evaluates `expr` over the selector lattice: a selector is zero when it is
/// absent from `selectors` and non-zero otherwise, and only what follows from
/// that and from explicit zero constants is reported as zero.
pub fn eval_abstract(expr: &Expression, selectors: &Vec<usize>) -> (res: AbsResult)
    ensures
        res == abstract_value(*expr, selectors@.to_set()),
    decreases *expr,
{
    match expr {
        Expression::Constant(v) => {
            if *v == 0 {
                AbsResult::Zero
            } else {
                AbsResult::Unknown
            }
        },
        Expression::Selector(s) => {
            if contains_index(selectors, *s) {
                AbsResult::NonZero
            } else {
                AbsResult::Zero
            }
        },
        Expression::Fixed { .. } => AbsResult::Unknown,
        Expression::Advice { .. } => AbsResult::Unknown,
        Expression::Instance { .. } => AbsResult::Unknown,
        Expression::Negated(a) => eval_abstract(a, selectors),
        Expression::Sum(a, b) => {
            let left = eval_abstract(a, selectors);
            let right = eval_abstract(b, selectors);
            if left == AbsResult::Zero && right == AbsResult::Zero {
                AbsResult::Zero
            } else {
                AbsResult::Unknown
            }
        },
        Expression::Product(a, b) => {
            let left = eval_abstract(a, selectors);
            let right = eval_abstract(b, selectors);
            if left == AbsResult::Zero || right == AbsResult::Zero {
                AbsResult::Zero
            } else {
                AbsResult::Unknown
            }
        },
        Expression::Scaled(a, c) => {
            let inner = eval_abstract(a, selectors);
            if *c == 0 || inner == AbsResult::Zero {
                AbsResult::Zero
            } else {
                AbsResult::Unknown
            }
        },
    }
}

fn insert_query(dst: &mut Vec<ColumnQuery>, q: ColumnQuery)
    requires
        old(dst)@.no_duplicates(),
    ensures
        final(dst)@.no_duplicates(),
        final(dst)@.to_set() == old(dst)@.to_set().insert(q),
{
    if !contains_query(dst, q) {
        dst.push(q);
        assert(dst@.to_set() =~= old(dst)@.to_set().insert(q)) by {
            assert forall|x: ColumnQuery| dst@.contains(x) <==> (old(dst)@.contains(x) || x == q) by {
                if old(dst)@.contains(x) {
                    let j = choose|j: int| 0 <= j < old(dst)@.len() && old(dst)@[j] == x;
                    assert(dst@[j] == x);
                }
                if x == q {
                    assert(dst@[dst@.len() - 1] == x);
                }
            }
        }
    } else {
        assert(dst@.to_set() =~= old(dst)@.to_set().insert(q));
    }
}

fn collect_columns(expr: &Expression, dst: &mut Vec<ColumnQuery>)
    requires
        old(dst)@.no_duplicates(),
    ensures
        final(dst)@.no_duplicates(),
        final(dst)@.to_set() == old(dst)@.to_set().union(columns_of(*expr)),
    decreases *expr,
{
    match expr {
        Expression::Fixed { column, rotation } => {
            let q = ColumnQuery {
                column: Column { kind: ColumnKind::Fixed, index: *column },
                rotation: *rotation,
            };
            insert_query(dst, q);
            assert(dst@.to_set() =~= old(dst)@.to_set().union(columns_of(*expr)));
        },
        Expression::Advice { column, rotation } => {
            let q = ColumnQuery {
                column: Column { kind: ColumnKind::Advice, index: *column },
                rotation: *rotation,
            };
            insert_query(dst, q);
            assert(dst@.to_set() =~= old(dst)@.to_set().union(columns_of(*expr)));
        },
        Expression::Negated(a) => {
            collect_columns(a, dst);
        },
        Expression::Sum(a, b) => {
            collect_columns(a, dst);
            collect_columns(b, dst);
            assert(dst@.to_set() =~= old(dst)@.to_set().union(columns_of(*expr)));
        },
        Expression::Product(a, b) => {
            collect_columns(a, dst);
            collect_columns(b, dst);
            assert(dst@.to_set() =~= old(dst)@.to_set().union(columns_of(*expr)));
        },
        Expression::Scaled(a, _) => {
            collect_columns(a, dst);
        },
        _ => {
            assert(dst@.to_set() =~= old(dst)@.to_set().union(columns_of(*expr)));
        },
    }
}

/// Collects every fixed and advice column, with its rotation, that occurs in
/// `expr`, whatever the selectors are. Each occurs once in the result.
pub fn extract_columns(expr: &Expression) -> (res: Vec<ColumnQuery>)
    ensures
        res@.to_set() == columns_of(*expr),
        res@.no_duplicates(),
{
    let mut res: Vec<ColumnQuery> = Vec::new();
    assert(res@.to_set() =~= Set::<ColumnQuery>::empty());
    collect_columns(expr, &mut res);
    assert(res@.to_set() =~= columns_of(*expr));
    res
}

/// Where none of an expression's selectors is enabled, its abstract value is
/// never `NonZero`.
pub proof fn lemma_disabled_selectors_never_nonzero(e: Expression, enabled: Set<usize>)
    requires
        selectors_of(e).disjoint(enabled),
    ensures
        abstract_value(e, enabled) != AbsResult::NonZero,
    decreases e,
{
    match e {
        Expression::Selector(s) => {
            assert(selectors_of(e).contains(s));
        },
        Expression::Negated(a) => {
            lemma_disabled_selectors_never_nonzero(*a, enabled);
        },
        _ => {},
    }
}

/// A product with a disabled selector as one factor is zero, whatever the
/// other factor is.
pub proof fn lemma_product_with_disabled_selector(s: usize, e: Expression, enabled: Set<usize>)
    requires
        !enabled.contains(s),
    ensures
        abstract_value(
            Expression::Product(Box::new(Expression::Selector(s)), Box::new(e)),
            enabled,
        ) == AbsResult::Zero,
        abstract_value(
            Expression::Product(Box::new(e), Box::new(Expression::Selector(s))),
            enabled,
        ) == AbsResult::Zero,
{
    reveal_with_fuel(abstract_value, 2);
}

/// An expression that is zero stays zero under any product, scaling or
/// negation around it.
pub proof fn lemma_zero_absorbs(e: Expression, other: Expression, c: u128, enabled: Set<usize>)
    requires
        abstract_value(e, enabled) == AbsResult::Zero,
    ensures
        abstract_value(Expression::Product(Box::new(e), Box::new(other)), enabled)
            == AbsResult::Zero,
        abstract_value(Expression::Product(Box::new(other), Box::new(e)), enabled)
            == AbsResult::Zero,
        abstract_value(Expression::Scaled(Box::new(e), c), enabled) == AbsResult::Zero,
        abstract_value(Expression::Negated(Box::new(e)), enabled) == AbsResult::Zero,
{
}

/// An expression without selectors, zero constants and zero scalings is
/// unknown under every selector set.
pub proof fn lemma_selector_free_is_unknown(e: Expression, enabled: Set<usize>)
    requires
        selectors_of(e) == Set::<usize>::empty(),
        free_of_zero_constants(e),
    ensures
        abstract_value(e, enabled) == AbsResult::Unknown,
    decreases e,
{
    match e {
        Expression::Selector(s) => {
            assert(selectors_of(e).contains(s));
        },
        Expression::Negated(a) => {
            lemma_selector_free_is_unknown(*a, enabled);
        },
        Expression::Sum(a, b) => {
            assert(selectors_of(*a) =~= Set::<usize>::empty()) by {
                assert forall|s: usize| !selectors_of(*a).contains(s) by {
                    assert(!selectors_of(e).contains(s));
                }
            }
            lemma_selector_free_is_unknown(*a, enabled);
        },
        Expression::Product(a, b) => {
            assert(selectors_of(*a) =~= Set::<usize>::empty()) by {
                assert forall|s: usize| !selectors_of(*a).contains(s) by {
                    assert(!selectors_of(e).contains(s));
                }
            }
            assert(selectors_of(*b) =~= Set::<usize>::empty()) by {
                assert forall|s: usize| !selectors_of(*b).contains(s) by {
                    assert(!selectors_of(e).contains(s));
                }
            }
            lemma_selector_free_is_unknown(*a, enabled);
            lemma_selector_free_is_unknown(*b, enabled);
        },
        Expression::Scaled(a, _) => {
            lemma_selector_free_is_unknown(*a, enabled);
        },
        _ => {},
    }
}

/// The columns of a sum of two advice queries are exactly those two.
pub proof fn lemma_columns_of_advice_sum(c1: usize, r1: i32, c2: usize, r2: i32)
    ensures
        columns_of(
            Expression::Sum(
                Box::new(Expression::Advice { column: c1, rotation: r1 }),
                Box::new(Expression::Advice { column: c2, rotation: r2 }),
            ),
        ) == set![advice_query(c1, r1), advice_query(c2, r2)],
{
    let e = Expression::Sum(
        Box::new(Expression::Advice { column: c1, rotation: r1 }),
        Box::new(Expression::Advice { column: c2, rotation: r2 }),
    );
    reveal_with_fuel(columns_of, 2);
    assert(columns_of(e) =~= set![advice_query(c1, r1), advice_query(c2, r2)]);
}

/// The only column of a negated fixed query is that query.
pub proof fn lemma_columns_of_negated_fixed(c: usize, r: i32)
    ensures
        columns_of(Expression::Negated(Box::new(Expression::Fixed { column: c, rotation: r })))
            == set![fixed_query(c, r)],
{
    reveal_with_fuel(columns_of, 2);
}

} // verus!
