use korrekt::analyzer::Analyzer;
use korrekt::analyzer_io_type::{
    AnalyzerInput, AnalyzerOutputStatus, InstanceValue, VerificationInput, VerificationMethod,
};
use korrekt::error::AnalyzerError;
use korrekt::model::{
    AnalyticLayouter, CellEquality, CellValue, ConstraintSystem, Expression, Gate, Region,
};
use korrekt::smt::Printer;
use korrekt::smt_parser::{extract_model_response, ModelResult, Satisfiability};
use korrekt::uniqueness::{SearchAction, SearchPhase, UniquenessSearch};

const HEADER: &str = "(set-info :smt-lib-version 2.6)\n(set-info :category \"crafted\")\n(set-option :produce-models true)\n(set-option :incremental true)\n(set-logic QF_FF)\n(define-sort F () (_ FiniteField 7))\n";

fn advice(column: usize) -> Expression {
    Expression::Advice { column, rotation: 0 }
}

fn sum(a: Expression, b: Expression) -> Expression {
    Expression::Sum(Box::new(a), Box::new(b))
}

fn minus(a: Expression, b: Expression) -> Expression {
    sum(a, Expression::Negated(Box::new(b)))
}

fn circuit(polys: Vec<Expression>, copies: Vec<(&str, &str)>) -> Analyzer {
    let region = Region {
        name: "main".to_owned(),
        row_count: 1,
        columns: vec![],
        selectors: vec![],
        enabled_selectors: vec![],
        advice_eq_table: vec![],
        eq_table: copies
            .into_iter()
            .map(|(left, right)| CellEquality { left: left.to_owned(), right: right.to_owned() })
            .collect(),
    };
    Analyzer::new(
        ConstraintSystem {
            num_selectors: 0,
            gates: vec![Gate { name: "gate".to_owned(), polys }],
            lookups: vec![],
            advice_queries: vec![],
        },
        AnalyticLayouter { regions: vec![region], eq_table: vec![] },
    )
}

fn specific(values: Vec<(&str, i64)>) -> AnalyzerInput {
    AnalyzerInput {
        verification_method: VerificationMethod::Specific,
        verification_input: VerificationInput {
            instances_string: values
                .into_iter()
                .map(|(name, value)| InstanceValue { name: name.to_owned(), value })
                .collect(),
            iterations: 0,
        },
    }
}

fn random(names: Vec<&str>, iterations: u128) -> AnalyzerInput {
    AnalyzerInput {
        verification_method: VerificationMethod::Random,
        verification_input: VerificationInput {
            instances_string: names
                .into_iter()
                .map(|name| InstanceValue { name: name.to_owned(), value: 0 })
                .collect(),
            iterations,
        },
    }
}

fn start(analyzer: &Analyzer, input: &AnalyzerInput, prime: &str) -> UniquenessSearch {
    let fixed: Vec<Vec<CellValue>> = vec![];
    match analyzer.analyze_underconstrained(input, &fixed, &prime.to_owned()) {
        Ok(search) => search,
        Err(e) => panic!("{:?}", e),
    }
}

fn model(pairs: &[(&str, u32)], prime: u32) -> ModelResult {
    let mut text = "sat\n".to_owned();
    for (name, value) in pairs {
        text.push_str(&format!("(({} #f{}m{}))\n", name, value, prime));
    }
    extract_model_response(&text).unwrap()
}

fn verdict(sat: Satisfiability) -> ModelResult {
    ModelResult { sat, result: vec![] }
}

fn sum_circuit() -> Analyzer {
    circuit(vec![minus(sum(advice(0), advice(1)), advice(2))], vec![("A-0-2-0", "I-0-0")])
}

fn sum_script() -> String {
    format!(
        "{}{}",
        HEADER,
        "(declare-fun A-0-0-0 () F)\n\
         (declare-fun A-0-1-0 () F)\n\
         (declare-fun A-0-2-0 () F)\n\
         (assert ( = (ff.add (ff.add A-0-0-0 A-0-1-0) (ff.neg A-0-2-0)) (as ff0 F)))\n\
         (declare-fun I-0-0 () F)\n\
         (assert ( = (ff.add A-0-2-0 (ff.neg I-0-0)) (as ff0 F)))\n"
    )
}

#[test]
fn the_script_of_a_circuit() {
    let search = start(&sum_circuit(), &random(vec!["A-0-2-0"], 3), "7");
    assert_eq!(search.printer.out, sum_script());
    assert_eq!(search.variables, vec!["A-0-0-0", "A-0-1-0", "A-0-2-0", "I-0-0"]);
    assert_eq!(search.instances, vec!["A-0-2-0"]);
    assert_eq!(search.max_iterations, 3);
    assert_eq!(search.phase, SearchPhase::Base);
    assert_eq!(search.action(), SearchAction::Query);
    assert_eq!(
        search.query(),
        format!(
            "{}(check-sat)\n(get-value (A-0-0-0))\n(get-value (A-0-1-0))\n(get-value (A-0-2-0))\n(get-value (I-0-0))\n",
            sum_script()
        )
    );
}

#[test]
fn a_specific_input_pins_the_instance_variables() {
    let search = start(&sum_circuit(), &specific(vec![("A-0-2-0", 5), ("extra", -2)]), "7");
    assert_eq!(
        search.printer.out,
        format!(
            "{}(assert ( = A-0-2-0 (as ff5 F)))\n(declare-fun extra () F)\n(assert ( = extra (as ff-2 F)))\n",
            sum_script()
        )
    );
    assert_eq!(search.variables, vec!["A-0-0-0", "A-0-1-0", "A-0-2-0", "I-0-0"]);
    assert_eq!(search.max_iterations, 1);
}

#[test]
fn advice_equalities_come_before_copy_constraints() {
    let mut analyzer = circuit(vec![], vec![("A-0-0-0", "I-0-0")]);
    analyzer.layouter.regions[0].advice_eq_table =
        vec![CellEquality { left: "A-0-1-0".to_owned(), right: "A-0-0-0".to_owned() }];
    let search = start(&analyzer, &random(vec![], 1), "7");
    assert_eq!(
        search.printer.out,
        format!(
            "{}{}",
            HEADER,
            "(declare-fun A-0-1-0 () F)\n\
             (declare-fun A-0-0-0 () F)\n\
             (assert ( = (ff.add A-0-1-0 (ff.neg A-0-0-0)) (as ff0 F)))\n\
             (declare-fun I-0-0 () F)\n\
             (assert ( = (ff.add A-0-0-0 (ff.neg I-0-0)) (as ff0 F)))\n"
        )
    );
}

#[test]
fn an_unsatisfiable_system_is_overconstrained() {
    let analyzer = circuit(
        vec![
            minus(advice(0), Expression::Constant(1)),
            minus(advice(0), Expression::Constant(2)),
        ],
        vec![("A-0-0-0", "I-0-0")],
    );
    let mut search = start(&analyzer, &random(vec!["A-0-0-0"], 5), "7");
    assert!(search.printer.out.contains("(assert ( = (ff.add A-0-0-0 (ff.neg (as ff1 F))) (as ff0 F)))\n"));
    assert!(search.printer.out.contains("(assert ( = (ff.add A-0-0-0 (ff.neg (as ff2 F))) (as ff0 F)))\n"));
    let before = search.printer.out.clone();
    assert_eq!(
        search.advance(verdict(Satisfiability::Unsatisfiable)),
        Ok(SearchAction::Done(AnalyzerOutputStatus::Overconstrained))
    );
    assert_eq!(search.phase, SearchPhase::Done);
    assert_eq!(search.status, AnalyzerOutputStatus::Overconstrained);
    assert_eq!(search.printer.out, before);
    assert_eq!(search.action(), SearchAction::Done(AnalyzerOutputStatus::Overconstrained));
    assert_eq!(
        search.advance(verdict(Satisfiability::Satisfiable)),
        Ok(SearchAction::Done(AnalyzerOutputStatus::Overconstrained))
    );
}

#[test]
fn a_sum_with_a_given_public_value_is_underconstrained() {
    let mut search = start(&sum_circuit(), &specific(vec![("A-0-2-0", 5)]), "7");
    let script = search.printer.out.clone();
    let first = [("A-0-0-0", 2), ("A-0-1-0", 3), ("A-0-2-0", 5), ("I-0-0", 5)];
    assert_eq!(search.advance(model(&first, 7)), Ok(SearchAction::Query));
    assert_eq!(search.phase, SearchPhase::Candidate);
    assert_eq!(search.iteration, 1);
    assert_eq!(search.advance(model(&first, 7)), Ok(SearchAction::Query));
    assert_eq!(search.phase, SearchPhase::Alternative);
    assert_eq!(
        search.printer.out,
        format!(
            "{}(push 1)\n(assert (or (not ( = A-0-0-0 (as ff2 F))) (not ( = A-0-1-0 (as ff3 F))) (not ( = A-0-2-0 (as ff5 F))) (not ( = I-0-0 (as ff5 F)))))\n",
            script
        )
    );
    let second = [("A-0-0-0", 1), ("A-0-1-0", 4), ("A-0-2-0", 5), ("I-0-0", 5)];
    assert_eq!(
        search.advance(model(&second, 7)),
        Ok(SearchAction::Done(AnalyzerOutputStatus::Underconstrained))
    );
    assert_eq!(search.printer.depth, 1);
}

#[test]
fn a_random_search_holds_the_public_input_and_varies_the_rest() {
    let mut search = start(&sum_circuit(), &random(vec!["A-0-2-0"], 2), "7");
    let script = search.printer.out.clone();
    let first = [("A-0-0-0", 0), ("A-0-1-0", 6), ("A-0-2-0", 6), ("I-0-0", 6)];
    assert_eq!(search.advance(model(&first, 7)), Ok(SearchAction::Query));
    assert_eq!(search.advance(model(&first, 7)), Ok(SearchAction::Query));
    assert_eq!(
        search.printer.out,
        format!(
            "{}(push 1)\n(assert (and ( = A-0-2-0 (as ff6 F)) (or (not ( = A-0-0-0 (as ff0 F))) (not ( = A-0-1-0 (as ff6 F))) (not ( = I-0-0 (as ff6 F))))))\n",
            script
        )
    );
    assert_eq!(
        search.advance(verdict(Satisfiability::Satisfiable)),
        Ok(SearchAction::Done(AnalyzerOutputStatus::Underconstrained))
    );
}

fn equality_circuit() -> Analyzer {
    circuit(vec![], vec![("A-0-0-0", "I-0-0")])
}

#[test]
fn a_direct_equality_has_one_witness_for_a_given_public_value() {
    for public in [0u32, 3, 6] {
        let mut search = start(&equality_circuit(), &specific(vec![("A-0-0-0", public as i64)]), "7");
        let answer = [("A-0-0-0", public), ("I-0-0", public)];
        assert_eq!(search.advance(model(&answer, 7)), Ok(SearchAction::Query));
        assert_eq!(search.advance(model(&answer, 7)), Ok(SearchAction::Query));
        assert_eq!(
            search.advance(verdict(Satisfiability::Unsatisfiable)),
            Ok(SearchAction::Done(AnalyzerOutputStatus::NotUnderconstrainedLocal))
        );
        assert_eq!(search.printer.depth, 0);
    }
}

#[test]
fn a_given_public_value_without_a_witness_is_not_underconstrained() {
    let mut search = start(&equality_circuit(), &specific(vec![("A-0-0-0", 3)]), "7");
    assert_eq!(search.advance(verdict(Satisfiability::Unknown)), Ok(SearchAction::Query));
    assert_eq!(
        search.advance(verdict(Satisfiability::Unsatisfiable)),
        Ok(SearchAction::Done(AnalyzerOutputStatus::NotUnderconstrained))
    );
}

/// Runs a search over `a = public` in the field of order `order` against a
/// solver that answers faithfully: a candidate is the model with the least
/// public value that the script does not exclude, and no second model exists.
fn run_over_equality(order: u32, iterations: u128) -> (AnalyzerOutputStatus, Vec<u32>, u32, u128) {
    let mut search =
        start(&equality_circuit(), &random(vec!["A-0-0-0"], iterations), &order.to_string());
    let mut examined: Vec<u32> = vec![];
    let mut queries = 0;
    let status = loop {
        match search.action() {
            SearchAction::Done(status) => break status,
            SearchAction::Query => {}
        }
        queries += 1;
        assert!(queries < 100);
        let script = search.query();
        let free: Vec<u32> = (0..order)
            .filter(|v| !script.contains(&format!("(assert (not ( = A-0-0-0 (as ff{} F))))\n", v)))
            .collect();
        let answer = match search.phase {
            SearchPhase::Alternative => verdict(Satisfiability::Unsatisfiable),
            _ => match free.first() {
                None => verdict(Satisfiability::Unsatisfiable),
                Some(v) => {
                    if search.phase == SearchPhase::Candidate {
                        assert!(!examined.contains(v));
                        examined.push(*v);
                    }
                    model(&[("A-0-0-0", *v), ("I-0-0", *v)], order)
                }
            },
        };
        search.advance(answer).unwrap();
    };
    assert_eq!(search.printer.depth, 0);
    (status, examined, queries, search.iteration)
}

#[test]
fn no_public_input_is_examined_twice() {
    let (status, examined, queries, iteration) = run_over_equality(3, 10);
    assert_eq!(status, AnalyzerOutputStatus::NotUnderconstrained);
    assert_eq!(examined, vec![0, 1, 2]);
    assert_eq!(iteration, 4);
    assert_eq!(queries, 8);
}

#[test]
fn the_outcome_goes_by_the_bound_and_the_number_of_public_inputs() {
    for order in [1u32, 2, 3, 5] {
        for iterations in 0..8u128 {
            let (status, examined, queries, iteration) = run_over_equality(order, iterations);
            if iterations > order as u128 {
                assert_eq!(status, AnalyzerOutputStatus::NotUnderconstrained);
                assert_eq!(iteration, order as u128 + 1);
                assert_eq!(queries, 2 * order + 2);
                assert_eq!(examined.len(), order as usize);
            } else {
                assert_eq!(status, AnalyzerOutputStatus::NotUnderconstrainedLocal);
                assert_eq!(iteration, iterations);
                assert_eq!(queries as u128, 2 * iterations + 1);
                assert_eq!(examined.len() as u128, iterations);
            }
        }
    }
}

#[test]
fn a_used_up_budget_ends_the_search_as_far_as_it_looked() {
    let mut search = start(&equality_circuit(), &random(vec!["A-0-0-0"], 2), "7");
    let script = search.printer.out.clone();
    assert_eq!(search.advance(model(&[("A-0-0-0", 1), ("I-0-0", 1)], 7)), Ok(SearchAction::Query));
    assert_eq!(search.advance(model(&[("A-0-0-0", 1), ("I-0-0", 1)], 7)), Ok(SearchAction::Query));
    assert_eq!(search.advance(verdict(Satisfiability::Unknown)), Ok(SearchAction::Query));
    assert_eq!(search.iteration, 2);
    assert_eq!(search.phase, SearchPhase::Candidate);
    let first_round = format!(
        "{}(push 1)\n(assert (and ( = A-0-0-0 (as ff1 F)) (not ( = I-0-0 (as ff1 F)))))\n(pop 1)\n(assert (not ( = A-0-0-0 (as ff1 F))))\n",
        script
    );
    assert_eq!(search.printer.out, first_round);
    assert_eq!(search.advance(model(&[("I-0-0", 2), ("A-0-0-0", 2)], 7)), Ok(SearchAction::Query));
    assert_eq!(
        search.advance(verdict(Satisfiability::Unsatisfiable)),
        Ok(SearchAction::Done(AnalyzerOutputStatus::NotUnderconstrainedLocal))
    );
    assert_eq!(
        search.printer.out,
        format!(
            "{}(push 1)\n(assert (and ( = A-0-0-0 (as ff2 F)) (not ( = I-0-0 (as ff2 F)))))\n(pop 1)\n(assert (not ( = A-0-0-0 (as ff2 F))))\n",
            first_round
        )
    );
}

#[test]
fn without_iterations_only_the_constraints_are_looked_at() {
    let mut search = start(&equality_circuit(), &random(vec!["A-0-0-0"], 0), "7");
    assert_eq!(
        search.advance(verdict(Satisfiability::Satisfiable)),
        Ok(SearchAction::Done(AnalyzerOutputStatus::NotUnderconstrainedLocal))
    );
    let mut other = start(&equality_circuit(), &random(vec!["A-0-0-0"], 0), "7");
    assert_eq!(
        other.advance(verdict(Satisfiability::Unsatisfiable)),
        Ok(SearchAction::Done(AnalyzerOutputStatus::Overconstrained))
    );
}

#[test]
fn without_instance_variables_the_one_public_input_is_excluded_outright() {
    let mut search = start(&equality_circuit(), &random(vec![], 3), "7");
    let script = search.printer.out.clone();
    let answer = [("A-0-0-0", 1), ("I-0-0", 1)];
    search.advance(model(&answer, 7)).unwrap();
    search.advance(model(&answer, 7)).unwrap();
    assert_eq!(search.advance(verdict(Satisfiability::Unsatisfiable)), Ok(SearchAction::Query));
    assert_eq!(
        search.printer.out,
        format!(
            "{}(push 1)\n(assert (or (not ( = A-0-0-0 (as ff1 F))) (not ( = I-0-0 (as ff1 F)))))\n(pop 1)\n(assert false)\n",
            script
        )
    );
}

#[test]
fn a_model_that_lacks_a_variable_fails_the_search() {
    let mut search = start(&sum_circuit(), &random(vec!["A-0-2-0"], 2), "7");
    search.advance(verdict(Satisfiability::Satisfiable)).unwrap();
    let before = search.printer.out.clone();
    assert_eq!(
        search.advance(model(&[("A-0-0-0", 1), ("A-0-1-0", 1), ("I-0-0", 2)], 7)),
        Err(AnalyzerError::ModelLookupFailure)
    );
    assert_eq!(search.phase, SearchPhase::Candidate);
    assert_eq!(search.printer.out, before);
    assert_eq!(search.printer.depth, 0);
    assert_eq!(
        search.advance(verdict(Satisfiability::Unknown)),
        Err(AnalyzerError::ModelLookupFailure)
    );
}

#[test]
fn a_search_can_start_on_any_script() {
    let mut printer = Printer::new();
    printer.write_var("x".to_owned());
    printer.write_var("y".to_owned());
    let input = random(vec!["x"], 1);
    let mut search = Analyzer::uniqueness_assertion(
        &input.verification_input.instances_string,
        &input,
        printer,
    );
    assert_eq!(search.query(), "(declare-fun x () F)\n(declare-fun y () F)\n(check-sat)\n(get-value (x))\n(get-value (y))\n");
    search.advance(verdict(Satisfiability::Satisfiable)).unwrap();
    search.advance(model(&[("x", 1), ("y", 2)], 5)).unwrap();
    assert!(search.printer.out.ends_with("(push 1)\n(assert (and ( = x (as ff1 F)) (not ( = y (as ff2 F)))))\n"));
    assert_eq!(search.candidate.len(), 2);
}

#[test]
fn an_unencodable_circuit_starts_no_search() {
    let mut analyzer = sum_circuit();
    analyzer.cs.lookups.push(korrekt::model::Lookup {
        input_expressions: vec![advice(0)],
        table_expressions: vec![Expression::Fixed { column: 0, rotation: 0 }],
    });
    let fixed: Vec<Vec<CellValue>> = vec![];
    match analyzer.analyze_underconstrained(&random(vec![], 1), &fixed, &"7".to_owned()) {
        Err(e) => assert_eq!(e, AnalyzerError::EncodingFailure),
        Ok(_) => panic!("a search was started"),
    }
}

#[test]
fn a_search_inside_an_open_scope_leaves_it_open() {
    let mut printer = Printer::new();
    printer.write_var("x".to_owned());
    printer.write_push();
    let input = random(vec!["x"], 1);
    let mut search = Analyzer::uniqueness_assertion(
        &input.verification_input.instances_string,
        &input,
        printer,
    );
    assert_eq!(search.base_depth, 1);
    search.advance(verdict(Satisfiability::Satisfiable)).unwrap();
    search.advance(model(&[("x", 4)], 5)).unwrap();
    assert_eq!(search.printer.depth, 2);
    assert_eq!(
        search.advance(verdict(Satisfiability::Unsatisfiable)),
        Ok(SearchAction::Done(AnalyzerOutputStatus::NotUnderconstrainedLocal))
    );
    assert_eq!(search.printer.depth, 1);
    assert_eq!(
        search.printer.out,
        "(declare-fun x () F)\n(push 1)\n(push 1)\n(assert (and ( = x (as ff4 F)) false))\n(pop 1)\n(assert (not ( = x (as ff4 F))))\n"
    );
}

#[test]
fn a_well_formed_input_names_no_instance_variable_twice() {
    assert!(specific(vec![("a", 1), ("b", 1)]).is_well_formed());
    assert!(!specific(vec![("a", 1), ("b", 1), ("a", 2)]).is_well_formed());
    assert!(random(vec![], 3).is_well_formed());
    assert!(!random(vec!["x", "x"], 3).is_well_formed());
}
