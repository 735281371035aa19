use korrekt::analyzer::Analyzer;
use korrekt::encoder::write_cell_name;
use korrekt::error::AnalyzerError;
use korrekt::lookup::{collect_table_columns, read_table};
use korrekt::model::{
    AnalyticLayouter, CellValue, ConstraintSystem, Expression, Gate, Lookup, Region,
};
use korrekt::smt::{NodeType, Printer};

fn names(items: &[&str]) -> Vec<String> {
    items.iter().map(|s| s.to_string()).collect()
}

fn advice(column: usize, rotation: i32) -> Expression {
    Expression::Advice { column, rotation }
}

fn fixed(column: usize, rotation: i32) -> Expression {
    Expression::Fixed { column, rotation }
}

fn boxed(e: Expression) -> Box<Expression> {
    Box::new(e)
}

fn region(name: &str, row_count: usize, enabled: &[&str]) -> Region {
    Region {
        name: name.to_owned(),
        row_count,
        columns: vec![],
        selectors: vec![],
        enabled_selectors: names(enabled),
        advice_eq_table: vec![],
        eq_table: vec![],
    }
}

fn analyzer(gates: Vec<Gate>, lookups: Vec<Lookup>, regions: Vec<Region>) -> Analyzer {
    Analyzer::new(
        ConstraintSystem { num_selectors: 4, gates, lookups, advice_queries: vec![] },
        AnalyticLayouter { regions, eq_table: vec![] },
    )
}

fn encode(e: &Expression, region_no: usize, row: i32, enabled: &[&str]) -> (String, NodeType, Printer) {
    let mut printer = Printer::new();
    let term = Analyzer::decompose_expression(e, &mut printer, region_no, row, &names(enabled));
    (term.text, term.kind, printer)
}

#[test]
fn a_constant_is_a_field_literal() {
    let (text, kind, printer) = encode(&Expression::Constant(12345), 0, 0, &[]);
    assert_eq!(text, "(as ff12345 F)");
    assert_eq!(kind, NodeType::Constant);
    assert_eq!(printer.out, "");
}

#[test]
fn a_selector_is_one_where_its_cell_is_enabled() {
    let enabled = ["S-1-2-3"];
    let (on, kind, _) = encode(&Expression::Selector(2), 1, 3, &enabled);
    assert_eq!(on, "(as ff1 F)");
    assert_eq!(kind, NodeType::Fixed);
    let (other_row, _, _) = encode(&Expression::Selector(2), 1, 4, &enabled);
    assert_eq!(other_row, "(as ff0 F)");
    let (other_region, _, _) = encode(&Expression::Selector(2), 0, 3, &enabled);
    assert_eq!(other_region, "(as ff0 F)");
    let (other_selector, _, _) = encode(&Expression::Selector(3), 1, 3, &enabled);
    assert_eq!(other_selector, "(as ff0 F)");
}

#[test]
fn a_fixed_query_is_named_by_region_column_and_row() {
    let (text, kind, printer) = encode(&fixed(4, 1), 2, 5, &[]);
    assert_eq!(text, "F-2-4-6");
    assert_eq!(kind, NodeType::Fixed);
    assert!(printer.vars.is_empty());
}

#[test]
fn an_advice_query_is_named_and_declared() {
    let (text, kind, printer) = encode(&advice(1, -1), 0, 3, &[]);
    assert_eq!(text, "A-0-1-2");
    assert_eq!(kind, NodeType::Advice);
    assert_eq!(printer.vars, names(&["A-0-1-2"]));
    assert_eq!(printer.out, "(declare-fun A-0-1-2 () F)\n");
}

#[test]
fn a_row_before_the_first_is_written_with_its_sign() {
    let (text, _, _) = encode(&advice(0, -2), 0, 1, &[]);
    assert_eq!(text, "A-0-0--1");
    let (far, _, _) = encode(&fixed(0, i32::MAX), 0, i32::MAX, &[]);
    assert_eq!(far, "F-0-0-4294967294");
}

#[test]
fn an_instance_query_is_left_empty() {
    let (text, kind, printer) = encode(&Expression::Instance { column: 0, rotation: 0 }, 0, 0, &[]);
    assert_eq!(text, "");
    assert_eq!(kind, NodeType::Instance);
    assert_eq!(printer.out, "");
}

#[test]
fn negation_wraps_compound_terms_only() {
    let (atomic, kind, _) = encode(&Expression::Negated(boxed(advice(0, 0))), 0, 0, &[]);
    assert_eq!(atomic, "ff.neg A-0-0-0");
    assert_eq!(kind, NodeType::Negated);
    let (compound, _, _) = encode(
        &Expression::Negated(boxed(Expression::Sum(boxed(advice(0, 0)), boxed(advice(1, 0))))),
        0,
        0,
        &[],
    );
    assert_eq!(compound, "ff.neg (ff.add A-0-0-0 A-0-1-0)");
    let (twice, _, _) = encode(
        &Expression::Negated(boxed(Expression::Negated(boxed(Expression::Constant(1))))),
        0,
        0,
        &[],
    );
    assert_eq!(twice, "ff.neg (ff.neg (as ff1 F))");
}

#[test]
fn sums_and_products_combine_their_operands() {
    let e = Expression::Sum(
        boxed(Expression::Product(boxed(Expression::Selector(0)), boxed(advice(0, 0)))),
        boxed(Expression::Negated(boxed(advice(1, 0)))),
    );
    let (text, kind, printer) = encode(&e, 0, 0, &["S-0-0-0"]);
    assert_eq!(text, "ff.add (ff.mul (as ff1 F) A-0-0-0) (ff.neg A-0-1-0)");
    assert_eq!(kind, NodeType::Add);
    assert_eq!(printer.vars, names(&["A-0-0-0", "A-0-1-0"]));
    let (product, kind, _) = encode(&Expression::Product(boxed(advice(0, 0)), boxed(fixed(0, 0))), 0, 0, &[]);
    assert_eq!(product, "ff.mul A-0-0-0 F-0-0-0");
    assert_eq!(kind, NodeType::Mult);
}

#[test]
fn scaling_is_the_product_of_the_constant_and_the_term() {
    let e = Expression::Scaled(boxed(Expression::Sum(boxed(advice(0, 0)), boxed(advice(0, 1)))), 3);
    let (text, kind, printer) = encode(&e, 0, 0, &[]);
    assert_eq!(text, "ff.mul (as ff3 F) (ff.add A-0-0-0 A-0-0-1)");
    assert_eq!(kind, NodeType::Scaled);
    assert_eq!(printer.vars, names(&["A-0-0-0", "A-0-0-1"]));
    let same = Expression::Product(
        boxed(Expression::Constant(3)),
        boxed(Expression::Sum(boxed(advice(0, 0)), boxed(advice(0, 1)))),
    );
    assert_eq!(encode(&same, 0, 0, &[]).0, text);
}

#[test]
fn an_advice_cell_met_twice_is_declared_once() {
    let e = Expression::Product(boxed(advice(0, 0)), boxed(advice(0, 0)));
    let (_, _, printer) = encode(&e, 0, 0, &[]);
    assert_eq!(printer.out, "(declare-fun A-0-0-0 () F)\n");
}

#[test]
fn gates_are_asserted_at_every_row_of_every_region() {
    let gate = Gate {
        name: "mul".to_owned(),
        polys: vec![Expression::Product(boxed(Expression::Selector(0)), boxed(advice(0, 0)))],
    };
    let a = analyzer(
        vec![gate],
        vec![],
        vec![region("first", 2, &["S-0-0-1"]), region("second", 1, &[])],
    );
    let mut printer = Printer::new();
    assert_eq!(a.decompose_polynomial(&mut printer, &vec![]), Ok(()));
    assert_eq!(
        printer.out,
        "(declare-fun A-0-0-0 () F)\n\
         (assert ( = (ff.mul (as ff0 F) A-0-0-0) (as ff0 F)))\n\
         (declare-fun A-0-0-1 () F)\n\
         (assert ( = (ff.mul (as ff1 F) A-0-0-1) (as ff0 F)))\n\
         (declare-fun A-1-0-0 () F)\n\
         (assert ( = (ff.mul (as ff0 F) A-1-0-0) (as ff0 F)))\n"
    );
    assert_eq!(printer.vars, names(&["A-0-0-0", "A-0-0-1", "A-1-0-0"]));
}

#[test]
fn a_polynomial_is_asserted_in_parentheses_whatever_its_kind() {
    let gate = Gate { name: "zero".to_owned(), polys: vec![advice(0, 0)] };
    let a = analyzer(vec![gate], vec![], vec![region("r", 1, &[])]);
    let mut printer = Printer::new();
    assert_eq!(a.decompose_polynomial(&mut printer, &vec![]), Ok(()));
    assert_eq!(
        printer.out,
        "(declare-fun A-0-0-0 () F)\n(assert ( = (A-0-0-0) (as ff0 F)))\n"
    );
}

#[test]
fn nothing_is_written_without_regions_or_rows() {
    let gate = Gate { name: "g".to_owned(), polys: vec![advice(0, 0)] };
    let mut printer = Printer::new();
    assert_eq!(analyzer(vec![gate.clone()], vec![], vec![]).decompose_polynomial(&mut printer, &vec![]), Ok(()));
    assert_eq!(printer.out, "");
    assert_eq!(
        analyzer(vec![gate], vec![], vec![region("empty", 0, &[])]).decompose_polynomial(&mut printer, &vec![]),
        Ok(())
    );
    assert_eq!(printer.out, "");
}

fn table_fixture() -> Vec<Vec<CellValue>> {
    vec![
        vec![CellValue::Assigned(0), CellValue::Assigned(1), CellValue::Assigned(2), CellValue::Unassigned],
        vec![CellValue::Assigned(10), CellValue::Assigned(11), CellValue::Assigned(12), CellValue::Assigned(13)],
    ]
}

#[test]
fn a_lookup_is_the_disjunction_over_the_table_rows() {
    let lookup = Lookup {
        input_expressions: vec![advice(0, 0), Expression::Product(boxed(advice(1, 0)), boxed(advice(1, 0)))],
        table_expressions: vec![fixed(0, 0), fixed(1, 0)],
    };
    let a = analyzer(vec![], vec![lookup], vec![region("r", 1, &[])]);
    let mut printer = Printer::new();
    assert_eq!(a.decompose_polynomial(&mut printer, &table_fixture()), Ok(()));
    let row = |x: u32, y: u32| {
        format!(
            "(and ( = (A-0-0-0) (as ff{} F)) ( = (ff.mul A-0-1-0 A-0-1-0) (as ff{} F)))",
            x, y
        )
    };
    assert_eq!(
        printer.out,
        format!(
            "(declare-fun A-0-0-0 () F)\n(declare-fun A-0-1-0 () F)\n(assert (or {} {} {}))\n",
            row(0, 10),
            row(1, 11),
            row(2, 12)
        )
    );
}

#[test]
fn a_table_ends_at_its_first_gap() {
    let fixed_columns = vec![vec![
        CellValue::Assigned(5),
        CellValue::Unassigned,
        CellValue::Assigned(6),
    ]];
    assert_eq!(read_table(&fixed_columns, &vec![0], 1), Some(vec![vec![5]]));
    let lookup = Lookup { input_expressions: vec![advice(0, 0)], table_expressions: vec![fixed(0, 0)] };
    let a = analyzer(vec![], vec![lookup], vec![region("r", 1, &[])]);
    let mut printer = Printer::new();
    assert_eq!(a.decompose_polynomial(&mut printer, &fixed_columns), Ok(()));
    assert_eq!(
        printer.out,
        "(declare-fun A-0-0-0 () F)\n(assert ( = (A-0-0-0) (as ff5 F)))\n"
    );
}

#[test]
fn a_lookup_into_an_empty_table_cannot_hold() {
    let fixed_columns = vec![vec![CellValue::Unassigned, CellValue::Assigned(1)]];
    let lookup = Lookup { input_expressions: vec![advice(0, 0)], table_expressions: vec![fixed(0, 0)] };
    let a = analyzer(vec![], vec![lookup], vec![region("r", 1, &[])]);
    let mut printer = Printer::new();
    assert_eq!(a.decompose_polynomial(&mut printer, &fixed_columns), Ok(()));
    assert_eq!(printer.out, "(declare-fun A-0-0-0 () F)\n(assert false)\n");
}

#[test]
fn table_expressions_that_are_no_fixed_queries_are_passed_over() {
    let table = vec![advice(0, 0), fixed(3, 0), Expression::Constant(1), fixed(1, 2)];
    assert_eq!(collect_table_columns(&table), vec![3, 1]);
    assert!(collect_table_columns(&vec![]).is_empty());
}

#[test]
fn reading_a_table_that_is_out_of_shape_fails() {
    let columns = table_fixture();
    assert_eq!(read_table(&vec![], &vec![0], 1), None);
    assert_eq!(read_table(&columns, &vec![2], 1), None);
    assert_eq!(read_table(&columns, &vec![0, 1], 1), None);
    assert_eq!(read_table(&vec![vec![CellValue::Poison(0)]], &vec![0], 1), None);
    assert_eq!(
        read_table(&vec![vec![CellValue::Assigned(1), CellValue::Assigned(2)], vec![CellValue::Assigned(1)]], &vec![0, 1], 2),
        None
    );
    assert_eq!(
        read_table(&columns, &vec![1, 0], 2),
        Some(vec![vec![10, 0], vec![11, 1], vec![12, 2]])
    );
    assert_eq!(read_table(&columns, &vec![], 0), Some(vec![vec![], vec![], vec![], vec![]]));
}

#[test]
fn an_unreadable_table_fails_the_encoding_and_writes_nothing() {
    let gate = Gate { name: "g".to_owned(), polys: vec![advice(0, 0)] };
    let lookup = Lookup { input_expressions: vec![advice(0, 0)], table_expressions: vec![fixed(0, 0)] };
    let a = analyzer(vec![gate], vec![lookup], vec![region("r", 1, &[])]);
    let mut printer = Printer::new();
    assert_eq!(
        a.decompose_polynomial(&mut printer, &vec![vec![CellValue::Poison(7)]]),
        Err(AnalyzerError::EncodingFailure)
    );
    assert_eq!(printer.out, "");
    assert_eq!(
        a.decompose_polynomial(&mut printer, &vec![]),
        Err(AnalyzerError::EncodingFailure)
    );
    assert_eq!(printer.out, "");
}

#[test]
fn a_region_with_more_rows_than_row_numbers_fails_the_encoding() {
    if usize::BITS >= 64 {
        let gate = Gate { name: "g".to_owned(), polys: vec![advice(0, 0)] };
        let a = analyzer(vec![gate], vec![], vec![region("huge", 0x8000_0001, &[])]);
        let mut printer = Printer::new();
        assert_eq!(a.decompose_polynomial(&mut printer, &vec![]), Err(AnalyzerError::EncodingFailure));
        assert_eq!(printer.out, "");
        let lookup = Lookup { input_expressions: vec![advice(0, 0)], table_expressions: vec![] };
        let b = analyzer(vec![], vec![lookup], vec![region("huge", 0x8000_0001, &[])]);
        assert_eq!(
            b.decompose_polynomial(&mut printer, &vec![vec![CellValue::Unassigned]]),
            Err(AnalyzerError::EncodingFailure)
        );
        assert_eq!(printer.out, "");
    }
}

#[test]
fn rows_need_no_number_where_no_expression_is_encoded() {
    if usize::BITS >= 64 {
        let empty_gate = Gate { name: "g".to_owned(), polys: vec![] };
        let a = analyzer(vec![empty_gate], vec![], vec![region("huge", 0x8000_0001, &[])]);
        let mut printer = Printer::new();
        assert_eq!(a.decompose_polynomial(&mut printer, &vec![]), Ok(()));
        assert_eq!(printer.out, "");
    }
}

#[test]
fn tables_are_read_only_where_a_lookup_is_asserted() {
    let gate = Gate { name: "g".to_owned(), polys: vec![advice(0, 0)] };
    let lookup = Lookup { input_expressions: vec![advice(0, 0)], table_expressions: vec![fixed(0, 0)] };
    let no_fixed: Vec<Vec<CellValue>> = vec![];
    let mut printer = Printer::new();
    let without_regions = analyzer(vec![gate.clone()], vec![lookup.clone()], vec![]);
    assert_eq!(without_regions.decompose_polynomial(&mut printer, &no_fixed), Ok(()));
    assert_eq!(printer.out, "");
    let without_rows =
        analyzer(vec![gate.clone()], vec![lookup.clone()], vec![region("a", 0, &[]), region("b", 0, &[])]);
    assert_eq!(without_rows.decompose_polynomial(&mut printer, &no_fixed), Ok(()));
    assert_eq!(
        without_rows.decompose_polynomial(&mut printer, &vec![vec![CellValue::Poison(1)]]),
        Ok(())
    );
    assert_eq!(printer.out, "");
    let with_a_row = analyzer(vec![gate], vec![lookup], vec![region("a", 0, &[]), region("b", 1, &[])]);
    assert_eq!(
        with_a_row.decompose_polynomial(&mut printer, &no_fixed),
        Err(AnalyzerError::EncodingFailure)
    );
    assert_eq!(printer.out, "");
}

#[test]
fn a_lookup_without_inputs_is_asserted_at_every_row() {
    let lookup = Lookup { input_expressions: vec![], table_expressions: vec![] };
    let a = analyzer(vec![], vec![lookup], vec![region("r", 2, &[])]);
    let mut printer = Printer::new();
    let columns = vec![vec![CellValue::Assigned(1), CellValue::Assigned(2)]];
    assert_eq!(a.decompose_polynomial(&mut printer, &columns), Ok(()));
    assert_eq!(printer.out, "(assert (or true true))\n(assert (or true true))\n");
}

#[test]
fn error_messages_differ() {
    let messages = vec![
        AnalyzerError::EncodingFailure.message(),
        AnalyzerError::SolverInvocationFailure.message(),
        AnalyzerError::ModelLookupFailure.message(),
    ];
    assert_eq!(messages[0], "the constraints cannot be encoded");
    assert_eq!(messages[1], "the solver's answer cannot be read");
    assert_eq!(messages[2], "the model lacks a variable");
}

#[test]
fn different_cells_have_different_names() {
    let mut seen = std::collections::HashSet::new();
    for prefix in ["A-", "F-", "S-"] {
        for region in [0usize, 1, 11] {
            for column in [0usize, 1, 10, 11] {
                for row in [-11i64, -1, 0, 1, 11, 110] {
                    assert!(seen.insert(write_cell_name(prefix, region, column, row)));
                }
            }
        }
    }
    assert_eq!(write_cell_name("A-", 1, 11, -1), "A-1-11--1");
    assert_eq!(write_cell_name("A-", 11, 1, 1), "A-11-1-1");
}
