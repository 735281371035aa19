use korrekt::analyzer::{Analyzer, Dispatch};
use korrekt::analyzer_io_type::{AnalyzerOutputStatus, AnalyzerType, InstanceValue};
use korrekt::dead_code::{is_cell_constrained, is_gate_unused, is_query_mentioned, write_column};
use korrekt::model::{
    AdviceQuery, AnalyticLayouter, CellEquality, Column, ColumnKind, ColumnQuery, ConstraintSystem,
    Expression, Gate, Region, RegionCell, RegionColumn,
};

fn advice(column: usize, rotation: i32) -> Expression {
    Expression::Advice { column, rotation }
}

fn gated(selector: usize, column: usize) -> Expression {
    Expression::Product(Box::new(Expression::Selector(selector)), Box::new(advice(column, 0)))
}

fn gate(name: &str, polys: Vec<Expression>) -> Gate {
    Gate { name: name.to_owned(), polys }
}

fn column(kind: ColumnKind, index: usize) -> Column {
    Column { kind, index }
}

fn cell(kind: ColumnKind, index: usize, rotation: i32) -> RegionCell {
    RegionCell { column: RegionColumn::Column(column(kind, index)), rotation }
}

fn region(name: &str, selectors: Vec<usize>, columns: Vec<RegionCell>) -> Region {
    Region {
        name: name.to_owned(),
        row_count: 1,
        columns,
        selectors,
        enabled_selectors: vec![],
        advice_eq_table: vec![],
        eq_table: vec![],
    }
}

fn equality(left: &str, right: &str) -> CellEquality {
    CellEquality { left: left.to_owned(), right: right.to_owned() }
}

fn analyzer(gates: Vec<Gate>, queries: Vec<AdviceQuery>, regions: Vec<Region>) -> Analyzer {
    Analyzer::new(
        ConstraintSystem { num_selectors: 4, gates, lookups: vec![], advice_queries: queries },
        AnalyticLayouter { regions, eq_table: vec![] },
    )
}

#[test]
fn a_gate_behind_a_selector_enabled_nowhere_is_unused() {
    let mut a = analyzer(
        vec![gate("dead", vec![gated(1, 0)])],
        vec![],
        vec![region("a", vec![0], vec![]), region("b", vec![], vec![])],
    );
    let output = a.analyze_unused_custom_gates();
    assert_eq!(output.output_status, AnalyzerOutputStatus::UnusedCustomGates);
    assert_eq!(
        a.log().clone(),
        vec![[
            "unused gate: \"dead\" (consider removing the",
            " gate or checking selectors in regions)"
        ]
        .concat()]
    );
}

#[test]
fn a_gate_live_in_one_region_is_used() {
    let mut a = analyzer(
        vec![gate("live", vec![gated(1, 0)]), gate("dead", vec![gated(2, 0), gated(3, 1)])],
        vec![],
        vec![region("a", vec![0], vec![]), region("b", vec![1], vec![])],
    );
    a.analyze_unused_custom_gates();
    assert_eq!(a.log().len(), 1);
    assert!(a.log()[0].starts_with("unused gate: \"dead\""));
    assert!(!is_gate_unused(&a.cs.gates[0], &a.layouter.regions));
    assert!(is_gate_unused(&a.cs.gates[1], &a.layouter.regions));
}

#[test]
fn a_gate_with_one_live_polynomial_is_used() {
    let mut a = analyzer(
        vec![gate("mixed", vec![gated(2, 0), advice(1, 0)])],
        vec![],
        vec![region("a", vec![], vec![])],
    );
    a.analyze_unused_custom_gates();
    assert!(a.log().is_empty());
}

#[test]
fn without_regions_every_gate_is_unused() {
    let mut a = analyzer(vec![gate("g", vec![advice(0, 0)]), gate("h", vec![])], vec![], vec![]);
    a.analyze_unused_custom_gates();
    assert_eq!(a.log().len(), 2);
    assert!(a.log()[0].contains("\"g\""));
    assert!(a.log()[1].contains("\"h\""));
}

#[test]
fn findings_are_appended_to_the_log() {
    let mut a = analyzer(vec![gate("g", vec![gated(0, 0)])], vec![], vec![]);
    a.analyze_unused_custom_gates();
    a.analyze_unused_custom_gates();
    assert_eq!(a.log().len(), 2);
    assert_eq!(a.log()[0], a.log()[1]);
    assert_eq!(a.counter, 0);
}

#[test]
fn an_advice_query_that_no_gate_mentions_is_unused() {
    let mut a = analyzer(
        vec![gate("g", vec![gated(0, 0)])],
        vec![
            AdviceQuery { column: 0, rotation: 0 },
            AdviceQuery { column: 0, rotation: 1 },
            AdviceQuery { column: 2, rotation: 0 },
        ],
        vec![],
    );
    let output = a.analyze_unused_columns();
    assert_eq!(output.output_status, AnalyzerOutputStatus::UnusedColumns);
    assert_eq!(
        a.log().clone(),
        vec![
            "unused column: Column { index: 0, column_type: Advice }".to_owned(),
            "unused column: Column { index: 2, column_type: Advice }".to_owned(),
        ]
    );
}

#[test]
fn column_use_does_not_depend_on_selectors() {
    let gates = vec![gate("off", vec![gated(3, 1)])];
    let q = ColumnQuery { column: column(ColumnKind::Advice, 1), rotation: 0 };
    assert!(is_query_mentioned(q, &gates));
    let fixed_twin = ColumnQuery { column: column(ColumnKind::Fixed, 1), rotation: 0 };
    assert!(!is_query_mentioned(fixed_twin, &gates));
    assert!(!is_cell_constrained(q, &gates, &vec![]));
    assert!(is_cell_constrained(q, &gates, &vec![3]));
}

#[test]
fn a_cell_that_only_dead_polynomials_mention_is_unconstrained() {
    let mut a = analyzer(
        vec![gate("g", vec![gated(0, 0), gated(1, 1)])],
        vec![],
        vec![region(
            "main",
            vec![0],
            vec![
                cell(ColumnKind::Advice, 0, 0),
                cell(ColumnKind::Advice, 1, 0),
                RegionCell { column: RegionColumn::Selector(0), rotation: 0 },
                cell(ColumnKind::Fixed, 0, -1),
            ],
        )],
    );
    let output = a.analyze_unconstrained_cells();
    assert_eq!(output.output_status, AnalyzerOutputStatus::UnconstrainedCells);
    assert_eq!(
        a.log().clone(),
        vec![
            "unconstrained cell in \"main\" region: Column(Column { index: 1, column_type: Advice }) (rotation: Rotation(0)) -- very likely a bug."
                .to_owned(),
            "unconstrained cell in \"main\" region: Column(Column { index: 0, column_type: Fixed }) (rotation: Rotation(-1)) -- very likely a bug."
                .to_owned(),
        ]
    );
}

#[test]
fn cells_are_judged_by_the_selectors_of_their_own_region() {
    let mut a = analyzer(
        vec![gate("g", vec![gated(0, 0)])],
        vec![],
        vec![
            region("on", vec![0], vec![cell(ColumnKind::Advice, 0, 0)]),
            region("off", vec![1], vec![cell(ColumnKind::Advice, 0, 0)]),
        ],
    );
    a.analyze_unconstrained_cells();
    assert_eq!(a.log().len(), 1);
    assert!(a.log()[0].starts_with("unconstrained cell in \"off\" region"));
}

#[test]
fn columns_are_shown_with_index_and_kind() {
    assert_eq!(write_column(column(ColumnKind::Instance, 12)), "Column { index: 12, column_type: Instance }");
}

#[test]
fn instance_columns_are_the_left_cells_each_once() {
    let a = analyzer(vec![], vec![], vec![]);
    let found = a.extract_instance_cols(&vec![
        equality("A-0-0-0", "I-0-0"),
        equality("A-0-1-0", "I-0-1"),
        equality("A-0-0-0", "I-0-2"),
    ]);
    assert_eq!(
        found,
        vec![
            InstanceValue { name: "A-0-0-0".to_owned(), value: 0 },
            InstanceValue { name: "A-0-1-0".to_owned(), value: 0 },
        ]
    );
    assert!(a.extract_instance_cols(&vec![]).is_empty());
}

fn layout_with_tables() -> Analyzer {
    let mut first = region("first", vec![], vec![]);
    first.eq_table = vec![equality("A-0-0-0", "I-0-0"), equality("A-0-1-0", "A-0-0-0")];
    first.advice_eq_table = vec![equality("A-0-5-0", "A-0-6-0")];
    let mut second = region("second", vec![], vec![]);
    second.eq_table = vec![equality("A-1-0-0", "I-0-1"), equality("A-0-0-0", "I-0-0")];
    Analyzer::new(
        ConstraintSystem {
            num_selectors: 1,
            gates: vec![gate("g", vec![gated(0, 3)])],
            lookups: vec![],
            advice_queries: vec![AdviceQuery { column: 9, rotation: 0 }],
        },
        AnalyticLayouter { regions: vec![first, second], eq_table: vec![equality("T-0", "I-0-9")] },
    )
}

#[test]
fn instance_columns_of_the_regions() {
    let names: Vec<String> =
        layout_with_tables().extract_instance_cols_from_region().into_iter().map(|i| i.name).collect();
    assert_eq!(names, vec!["A-0-0-0", "A-0-1-0", "A-1-0-0"]);
}

#[test]
fn dispatch_runs_the_liveness_analyses() {
    let mut a = layout_with_tables();
    assert_eq!(
        a.dispatch_analysis(AnalyzerType::UnusedGates),
        Dispatch::Finished(korrekt::analyzer_io_type::AnalyzerOutput {
            output_status: AnalyzerOutputStatus::UnusedCustomGates
        })
    );
    assert_eq!(a.log().len(), 1);
    match a.dispatch_analysis(AnalyzerType::UnusedColumns) {
        Dispatch::Finished(output) => assert_eq!(output.output_status, AnalyzerOutputStatus::UnusedColumns),
        other => panic!("{:?}", other),
    }
    assert_eq!(a.log().len(), 2);
    match a.dispatch_analysis(AnalyzerType::UnconstrainedCells) {
        Dispatch::Finished(output) => {
            assert_eq!(output.output_status, AnalyzerOutputStatus::UnconstrainedCells)
        }
        other => panic!("{:?}", other),
    }
    assert_eq!(a.log().len(), 2);
}

#[test]
fn dispatch_asks_for_the_instance_values_of_the_search() {
    let mut a = layout_with_tables();
    match a.dispatch_analysis(AnalyzerType::UnderconstrainedCircuit) {
        Dispatch::NeedsInput(instances) => {
            let names: Vec<&str> = instances.iter().map(|i| i.name.as_str()).collect();
            assert_eq!(names, vec!["T-0", "A-0-0-0", "A-0-1-0", "A-1-0-0"]);
            assert!(instances.iter().all(|i| i.value == 0));
        }
        other => panic!("{:?}", other),
    }
    assert!(a.log().is_empty());
}

#[test]
fn regions_may_enable_declared_selectors_only() {
    let declared = analyzer(vec![], vec![], vec![region("a", vec![0, 3], vec![]), region("b", vec![], vec![])]);
    assert!(declared.is_well_formed());
    let undeclared = analyzer(vec![], vec![], vec![region("a", vec![0], vec![]), region("b", vec![4], vec![])]);
    assert!(!undeclared.is_well_formed());
    assert!(analyzer(vec![], vec![], vec![]).is_well_formed());
}

#[test]
fn a_well_formed_layout_lists_nothing_twice() {
    let base = || region("a", vec![0, 1], vec![cell(ColumnKind::Advice, 0, 0), cell(ColumnKind::Advice, 0, 1)]);
    assert!(analyzer(vec![], vec![], vec![base()]).is_well_formed());

    let mut cells_twice = base();
    cells_twice.columns.push(cell(ColumnKind::Advice, 0, 0));
    assert!(!analyzer(vec![], vec![], vec![cells_twice]).is_well_formed());

    let mut selector_twice = base();
    selector_twice.selectors.push(1);
    assert!(!analyzer(vec![], vec![], vec![selector_twice]).is_well_formed());

    let mut enabled_twice = base();
    enabled_twice.enabled_selectors = vec!["S-0-0-0".to_owned(), "S-0-1-0".to_owned(), "S-0-0-0".to_owned()];
    assert!(!analyzer(vec![], vec![], vec![enabled_twice]).is_well_formed());

    let mut advice_left_twice = base();
    advice_left_twice.advice_eq_table = vec![equality("A-0-0-0", "A-0-1-0"), equality("A-0-0-0", "A-0-2-0")];
    assert!(!analyzer(vec![], vec![], vec![advice_left_twice]).is_well_formed());

    let mut copy_left_twice = base();
    copy_left_twice.eq_table = vec![equality("A-0-0-0", "I-0-0"), equality("A-0-0-0", "I-0-1")];
    assert!(!analyzer(vec![], vec![], vec![base(), copy_left_twice]).is_well_formed());

    let mut same_right = base();
    same_right.eq_table = vec![equality("A-0-0-0", "I-0-0"), equality("A-0-1-0", "I-0-0")];
    assert!(analyzer(vec![], vec![], vec![same_right]).is_well_formed());

    let mut top_level = analyzer(vec![], vec![], vec![base()]);
    top_level.layouter.eq_table = vec![equality("x", "y"), equality("x", "z")];
    assert!(!top_level.is_well_formed());
}

#[test]
fn lists_that_hold_nothing_twice() {
    assert!(korrekt::distinct::distinct_indices(&vec![]));
    assert!(korrekt::distinct::distinct_indices(&vec![3, 1, 2]));
    assert!(!korrekt::distinct::distinct_indices(&vec![3, 1, 3]));
    assert!(korrekt::distinct::distinct_names(&vec!["a".to_owned(), "b".to_owned()]));
    assert!(!korrekt::distinct::distinct_names(&vec!["a".to_owned(), "a".to_owned()]));
    assert!(korrekt::distinct::distinct_instances(&vec![
        InstanceValue { name: "a".to_owned(), value: 1 },
        InstanceValue { name: "b".to_owned(), value: 1 },
    ]));
    assert!(!korrekt::distinct::distinct_instances(&vec![
        InstanceValue { name: "a".to_owned(), value: 1 },
        InstanceValue { name: "a".to_owned(), value: 2 },
    ]));
}
