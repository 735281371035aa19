use korrekt::analyzer::Analyzer;
use korrekt::error::AnalyzerError;
use korrekt::model::Expression;
use korrekt::smt::Printer;
use korrekt::smt_parser::{
    extract_model_response, lookup, FieldElement, ModelResult, Satisfiability, Variable,
};
use korrekt::solver::{copy_path_for, copy_path_of_stem};
use korrekt::text::{find_char, to_chars};

fn variable(name: &str, element: &str, order: &str) -> Variable {
    Variable {
        name: name.to_owned(),
        value: FieldElement { order: order.to_owned(), element: element.to_owned() },
    }
}

#[test]
fn a_model_is_read_line_by_line() {
    let model = extract_model_response("sat\n((A-0-0-0 #f5m7))\n((A-0-1-0 #f0m7))\n").unwrap();
    assert_eq!(
        model,
        ModelResult {
            sat: Satisfiability::Satisfiable,
            result: vec![variable("A-0-0-0", "5", "7"), variable("A-0-1-0", "0", "7")],
        }
    );
}

#[test]
fn empty_lines_are_passed_over() {
    let model = extract_model_response("sat\n\n((x #f1m3))\n\n\n((y #f2m3))").unwrap();
    assert_eq!(model.result, vec![variable("x", "1", "3"), variable("y", "2", "3")]);
    assert_eq!(extract_model_response("sat").unwrap().result, vec![]);
    assert_eq!(extract_model_response("sat\n").unwrap().result, vec![]);
}

#[test]
fn after_another_verdict_the_rest_is_not_read() {
    let unsat = extract_model_response("unsat\n(error \"no model\")\n").unwrap();
    assert_eq!(unsat, ModelResult { sat: Satisfiability::Unsatisfiable, result: vec![] });
    let unknown = extract_model_response("unknown\n((x #f1m3))\n").unwrap();
    assert_eq!(unknown, ModelResult { sat: Satisfiability::Unknown, result: vec![] });
}

#[test]
fn an_answer_without_a_verdict_cannot_be_read() {
    for text in ["", "\nsat", "SAT\n", "sat \n", " sat\n", "(error \"x\")\nsat\n", "satisfiable\n"] {
        assert_eq!(extract_model_response(text), Err(AnalyzerError::SolverInvocationFailure));
    }
}

#[test]
fn a_line_that_is_no_binding_cannot_be_read() {
    for line in [
        "(x #f1m3)",
        "((x #f1m3)",
        "((x 1))",
        "((x #f1m))",
        "((x #fm3))",
        "((x #f13))",
        "(( #f1m3))",
        "((x#f1m3))",
        "((x  #f1m3))",
        "((x #b1m3))",
        " ",
        "((x #f1m3)) ",
    ] {
        let text = format!("sat\n((ok #f0m3))\n{}\n", line);
        assert_eq!(
            extract_model_response(&text),
            Err(AnalyzerError::SolverInvocationFailure),
            "{:?}",
            line
        );
    }
}

#[test]
fn the_first_m_parts_value_and_order() {
    let model = extract_model_response("sat\n((x #f12m34m5))").unwrap();
    assert_eq!(model.result, vec![variable("x", "12", "34m5")]);
    let negative = extract_model_response("sat\n((x #f-1m7))").unwrap();
    assert_eq!(negative.result, vec![variable("x", "-1", "7")]);
}

#[test]
fn the_first_space_ends_the_name() {
    let model = extract_model_response("sat\n((a b #f1m3))");
    assert_eq!(model, Err(AnalyzerError::SolverInvocationFailure));
}

#[test]
fn the_analyzer_reads_the_solver_s_output() {
    assert_eq!(
        Analyzer::solve_and_get_model("unsat\n"),
        Ok(ModelResult { sat: Satisfiability::Unsatisfiable, result: vec![] })
    );
    assert_eq!(Analyzer::solve_and_get_model("timeout"), Err(AnalyzerError::SolverInvocationFailure));
}

#[test]
fn a_later_entry_takes_the_place_of_an_earlier_one() {
    let result = vec![variable("x", "1", "7"), variable("y", "2", "7"), variable("x", "3", "7")];
    assert_eq!(lookup(&result, &"x".to_owned()), Some(&"3".to_owned()));
    assert_eq!(lookup(&result, &"y".to_owned()), Some(&"2".to_owned()));
    assert_eq!(lookup(&result, &"z".to_owned()), None);
    assert_eq!(lookup(&vec![], &"x".to_owned()), None);
}

#[test]
fn a_constant_comes_back_from_the_solver_unchanged() {
    for k in [0u128, 1, 9, 10, 255, 1 << 64, u128::MAX] {
        let mut printer = Printer::new();
        let term = Analyzer::decompose_expression(&Expression::Constant(k), &mut printer, 0, 0, &vec![]);
        let numeral = term.text.strip_prefix("(as ff").unwrap().strip_suffix(" F)").unwrap();
        let answer = format!("sat\n((c #f{}m340282366920938463463374607431768211507))\n", numeral);
        let model = extract_model_response(&answer).unwrap();
        let value = lookup(&model.result, &"c".to_owned()).unwrap();
        assert_eq!(value.parse::<u128>().unwrap(), k);
    }
}

#[test]
fn characters_and_places() {
    assert_eq!(to_chars("a\u{e9}\n"), vec!['a', '\u{e9}', '\n']);
    assert!(to_chars("").is_empty());
    let chars = to_chars("ab\ncd\n");
    assert_eq!(find_char(&chars, '\n', 0), 2);
    assert_eq!(find_char(&chars, '\n', 2), 2);
    assert_eq!(find_char(&chars, '\n', 3), 5);
    assert_eq!(find_char(&chars, 'x', 0), 6);
    assert_eq!(find_char(&chars, 'a', 9), 6);
}

#[test]
fn the_working_copy_is_named_by_the_file_stem() {
    assert_eq!(
        Analyzer::generate_copy_path("src/output/out.smt2"),
        Some("src/output/out_temp.smt2".to_owned())
    );
    assert_eq!(
        Analyzer::generate_copy_path("circuit.v2.smt2"),
        Some("src/output/circuit.v2_temp.smt2".to_owned())
    );
    assert_eq!(Analyzer::generate_copy_path(""), None);
    assert_eq!(Analyzer::generate_copy_path(".."), None);
    assert_eq!(copy_path_for(&"x".to_owned()), "src/output/x_temp.smt2");
}

#[test]
fn a_copy_path_follows_from_the_stem_alone() {
    assert_eq!(
        copy_path_of_stem(&Some("out".to_owned())),
        Some("src/output/out_temp.smt2".to_owned())
    );
    assert_eq!(copy_path_of_stem(&Some(String::new())), Some("src/output/_temp.smt2".to_owned()));
    assert_eq!(copy_path_of_stem(&None), None);
}
