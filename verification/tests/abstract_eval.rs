use korrekt::abstract_expr::{eval_abstract, extract_columns, AbsResult};
use korrekt::model::{Column, ColumnKind, ColumnQuery, Expression};

fn advice(column: usize, rotation: i32) -> Expression {
    Expression::Advice { column, rotation }
}

fn fixed(column: usize, rotation: i32) -> Expression {
    Expression::Fixed { column, rotation }
}

fn product(a: Expression, b: Expression) -> Expression {
    Expression::Product(Box::new(a), Box::new(b))
}

fn sum(a: Expression, b: Expression) -> Expression {
    Expression::Sum(Box::new(a), Box::new(b))
}

fn negated(a: Expression) -> Expression {
    Expression::Negated(Box::new(a))
}

fn advice_query(index: usize, rotation: i32) -> ColumnQuery {
    ColumnQuery { column: Column { kind: ColumnKind::Advice, index }, rotation }
}

fn fixed_query(index: usize, rotation: i32) -> ColumnQuery {
    ColumnQuery { column: Column { kind: ColumnKind::Fixed, index }, rotation }
}

#[test]
fn constants_are_zero_only_when_zero() {
    assert_eq!(eval_abstract(&Expression::Constant(0), &vec![]), AbsResult::Zero);
    assert_eq!(eval_abstract(&Expression::Constant(1), &vec![]), AbsResult::Unknown);
    assert_eq!(eval_abstract(&Expression::Constant(u128::MAX), &vec![3]), AbsResult::Unknown);
}

#[test]
fn selectors_follow_the_enabled_set() {
    assert_eq!(eval_abstract(&Expression::Selector(2), &vec![0, 2]), AbsResult::NonZero);
    assert_eq!(eval_abstract(&Expression::Selector(1), &vec![0, 2]), AbsResult::Zero);
    assert_eq!(eval_abstract(&Expression::Selector(0), &vec![]), AbsResult::Zero);
}

#[test]
fn cell_references_are_unknown() {
    assert_eq!(eval_abstract(&advice(0, 0), &vec![]), AbsResult::Unknown);
    assert_eq!(eval_abstract(&fixed(1, -1), &vec![1]), AbsResult::Unknown);
    assert_eq!(
        eval_abstract(&Expression::Instance { column: 0, rotation: 2 }, &vec![]),
        AbsResult::Unknown
    );
}

#[test]
fn negation_keeps_the_class() {
    assert_eq!(eval_abstract(&negated(Expression::Selector(0)), &vec![0]), AbsResult::NonZero);
    assert_eq!(eval_abstract(&negated(Expression::Selector(0)), &vec![]), AbsResult::Zero);
    assert_eq!(eval_abstract(&negated(advice(0, 0)), &vec![]), AbsResult::Unknown);
}

#[test]
fn sum_is_zero_only_of_two_zeros() {
    let zero = Expression::Selector(0);
    assert_eq!(eval_abstract(&sum(zero.clone(), Expression::Constant(0)), &vec![]), AbsResult::Zero);
    assert_eq!(eval_abstract(&sum(zero.clone(), advice(0, 0)), &vec![]), AbsResult::Unknown);
    assert_eq!(
        eval_abstract(&sum(Expression::Selector(1), zero.clone()), &vec![1]),
        AbsResult::Unknown
    );
    assert_eq!(
        eval_abstract(&sum(Expression::Selector(1), Expression::Selector(1)), &vec![1]),
        AbsResult::Unknown
    );
}

#[test]
fn product_is_zero_of_any_zero() {
    let off = Expression::Selector(0);
    assert_eq!(eval_abstract(&product(off.clone(), advice(0, 0)), &vec![]), AbsResult::Zero);
    assert_eq!(eval_abstract(&product(advice(0, 0), off.clone()), &vec![]), AbsResult::Zero);
    assert_eq!(eval_abstract(&product(off.clone(), advice(0, 0)), &vec![0]), AbsResult::Unknown);
    assert_eq!(
        eval_abstract(&product(Expression::Selector(0), Expression::Selector(0)), &vec![0]),
        AbsResult::Unknown
    );
}

#[test]
fn scaling_is_a_product_with_a_constant() {
    let scaled_by_zero = Expression::Scaled(Box::new(advice(0, 0)), 0);
    let scaled = Expression::Scaled(Box::new(advice(0, 0)), 7);
    let scaled_zero = Expression::Scaled(Box::new(Expression::Selector(4)), 7);
    assert_eq!(eval_abstract(&scaled_by_zero, &vec![]), AbsResult::Zero);
    assert_eq!(eval_abstract(&scaled, &vec![]), AbsResult::Unknown);
    assert_eq!(eval_abstract(&scaled_zero, &vec![]), AbsResult::Zero);
    assert_eq!(eval_abstract(&scaled_zero, &vec![4]), AbsResult::Unknown);
}

#[test]
fn disabled_selector_silences_a_nested_product() {
    let e = product(
        sum(Expression::Constant(3), Expression::Scaled(Box::new(advice(1, 0)), 2)),
        negated(product(Expression::Selector(5), Expression::Constant(9))),
    );
    assert_eq!(eval_abstract(&e, &vec![]), AbsResult::Zero);
    assert_eq!(eval_abstract(&e, &vec![1, 2, 3]), AbsResult::Zero);
    assert_eq!(eval_abstract(&e, &vec![5]), AbsResult::Unknown);
}

#[test]
fn without_enabled_selectors_nothing_is_nonzero() {
    let samples = vec![
        Expression::Selector(0),
        negated(Expression::Selector(0)),
        sum(Expression::Selector(0), Expression::Selector(1)),
        product(Expression::Constant(2), Expression::Constant(3)),
        Expression::Scaled(Box::new(Expression::Constant(2)), 3),
        sum(Expression::Constant(2), negated(Expression::Constant(2))),
    ];
    for e in samples.iter() {
        assert_ne!(eval_abstract(e, &vec![]), AbsResult::NonZero);
    }
    assert_eq!(
        eval_abstract(&product(Expression::Constant(2), Expression::Constant(3)), &vec![]),
        AbsResult::Unknown
    );
}

#[test]
fn columns_of_a_sum_of_two_advice_queries() {
    let columns = extract_columns(&sum(advice(1, 0), advice(2, -1)));
    assert_eq!(columns.len(), 2);
    assert!(columns.contains(&advice_query(1, 0)));
    assert!(columns.contains(&advice_query(2, -1)));
}

#[test]
fn columns_of_a_negated_fixed_query() {
    let columns = extract_columns(&negated(fixed(3, 1)));
    assert_eq!(columns, vec![fixed_query(3, 1)]);
}

#[test]
fn columns_are_collected_once_and_whatever_the_selectors() {
    let e = product(
        Expression::Selector(0),
        sum(
            advice(0, 0),
            product(advice(0, 0), Expression::Scaled(Box::new(fixed(0, 0)), 0)),
        ),
    );
    let columns = extract_columns(&e);
    assert_eq!(columns, vec![advice_query(0, 0), fixed_query(0, 0)]);
}

#[test]
fn instance_queries_selectors_and_constants_have_no_columns() {
    let e = sum(
        Expression::Instance { column: 0, rotation: 0 },
        product(Expression::Selector(1), Expression::Constant(4)),
    );
    assert!(extract_columns(&e).is_empty());
}

#[test]
fn an_advice_and_a_fixed_column_of_one_index_differ() {
    let columns = extract_columns(&sum(advice(0, 0), fixed(0, 0)));
    assert_eq!(columns.len(), 2);
    assert_ne!(columns[0], columns[1]);
}
