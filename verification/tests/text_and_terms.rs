use korrekt::smt::{
    get_and, get_assert, get_or, literal, operand, write_negation, write_query, write_start,
    write_term, NodeType, Operation, Printer,
};
use korrekt::text::{decimal_string, signed_decimal_string};

fn s(text: &str) -> String {
    text.to_owned()
}

#[test]
fn decimal_numerals() {
    assert_eq!(decimal_string(0), "0");
    assert_eq!(decimal_string(7), "7");
    assert_eq!(decimal_string(10), "10");
    assert_eq!(decimal_string(1234567890), "1234567890");
    assert_eq!(decimal_string(u128::MAX), "340282366920938463463374607431768211455");
}

#[test]
fn signed_decimal_numerals() {
    assert_eq!(signed_decimal_string(0), "0");
    assert_eq!(signed_decimal_string(-1), "-1");
    assert_eq!(signed_decimal_string(42), "42");
    assert_eq!(signed_decimal_string(i64::MIN), "-9223372036854775808");
    assert_eq!(signed_decimal_string(i64::MAX), "9223372036854775807");
}

#[test]
fn operands_are_wrapped_unless_atomic() {
    assert_eq!(operand(&s("A-0-0-0"), NodeType::Advice), "A-0-0-0");
    assert_eq!(operand(&s("F-0-0-0"), NodeType::Fixed), "F-0-0-0");
    assert_eq!(operand(&s("(as ff1 F)"), NodeType::Constant), "(as ff1 F)");
    assert_eq!(operand(&s(""), NodeType::Instance), "");
    assert_eq!(operand(&s("ff.neg x"), NodeType::Negated), "(ff.neg x)");
    assert_eq!(operand(&s("ff.add x y"), NodeType::Add), "(ff.add x y)");
    assert_eq!(operand(&s("ff.mul x y"), NodeType::Mult), "(ff.mul x y)");
    assert_eq!(operand(&s("ff.mul x y"), NodeType::Scaled), "(ff.mul x y)");
    assert_eq!(operand(&s("x"), NodeType::Poly), "(x)");
}

#[test]
fn literals_and_terms() {
    assert_eq!(literal(&s("17")), "(as ff17 F)");
    assert_eq!(write_negation(&s("x"), NodeType::Advice), "ff.neg x");
    assert_eq!(write_negation(&s("ff.add x y"), NodeType::Add), "ff.neg (ff.add x y)");
    assert_eq!(
        write_term(&s("add"), &s("x"), NodeType::Advice, &s("ff.mul y z"), NodeType::Mult),
        "ff.add x (ff.mul y z)"
    );
    assert_eq!(
        write_term(&s("mul"), &s("ff.neg x"), NodeType::Negated, &s("(as ff2 F)"), NodeType::Constant),
        "ff.mul (ff.neg x) (as ff2 F)"
    );
}

#[test]
fn relations_are_written_and_connectives_refused() {
    assert_eq!(
        get_assert(&s("x"), &s("5"), NodeType::Instance, Operation::Equal),
        Some(s("( = x (as ff5 F))"))
    );
    assert_eq!(
        get_assert(&s("x"), &s("5"), NodeType::Instance, Operation::NotEqual),
        Some(s("(not ( = x (as ff5 F)))"))
    );
    assert_eq!(
        get_assert(&s("ff.add x y"), &s("0"), NodeType::Add, Operation::Equal),
        Some(s("( = (ff.add x y) (as ff0 F))"))
    );
    assert_eq!(get_assert(&s("x"), &s("5"), NodeType::Instance, Operation::And), None);
    assert_eq!(get_assert(&s("x"), &s("5"), NodeType::Instance, Operation::Or), None);
}

#[test]
fn connectives_of_none_one_and_many() {
    assert_eq!(get_and(&vec![]), "true");
    assert_eq!(get_or(&vec![]), "false");
    assert_eq!(get_and(&vec![s("p")]), "p");
    assert_eq!(get_or(&vec![s("p")]), "p");
    assert_eq!(get_and(&vec![s("p"), s("q")]), "(and p q)");
    assert_eq!(get_or(&vec![s("p"), s("q"), s("r")]), "(or p q r)");
}

#[test]
fn a_variable_is_declared_once() {
    let mut printer = Printer::new();
    printer.write_var(s("x"));
    printer.write_var(s("y"));
    printer.write_var(s("x"));
    assert_eq!(printer.out, "(declare-fun x () F)\n(declare-fun y () F)\n");
    assert_eq!(printer.vars, vec![s("x"), s("y")]);
}

#[test]
fn assertions_are_written_as_commands() {
    let mut printer = Printer::new();
    printer.write_assert(&s("x"), &s("3"), NodeType::Advice, Operation::Equal);
    printer.write_assert(&s("x"), &s("3"), NodeType::Advice, Operation::NotEqual);
    printer.write_assert(&s("x"), &s("3"), NodeType::Advice, Operation::And);
    printer.write_assert_bool(&vec![s("p"), s("q")], Operation::And);
    printer.write_assert_bool(&vec![s("p"), s("q")], Operation::Or);
    printer.write_assert_bool(&vec![s("p"), s("q")], Operation::Equal);
    assert_eq!(
        printer.out,
        "(assert ( = x (as ff3 F)))\n(assert (not ( = x (as ff3 F))))\n(assert (and p q))\n(assert (or p q))\n"
    );
}

#[test]
fn scopes_are_counted() {
    let mut printer = Printer::new();
    printer.write_push();
    assert_eq!(printer.depth, 1);
    printer.write_pop();
    assert_eq!(printer.depth, 0);
    assert_eq!(printer.out, "(push 1)\n(pop 1)\n");
}

#[test]
fn a_script_starts_with_the_field() {
    let printer = write_start(&s("7"));
    assert_eq!(
        printer.out,
        "(set-info :smt-lib-version 2.6)\n(set-info :category \"crafted\")\n(set-option :produce-models true)\n(set-option :incremental true)\n(set-logic QF_FF)\n(define-sort F () (_ FiniteField 7))\n"
    );
    assert!(printer.vars.is_empty());
    assert_eq!(printer.depth, 0);
}

#[test]
fn a_query_checks_and_asks_for_each_value() {
    let query = write_query(&s("(assert p)\n"), &vec![s("x"), s("y")]);
    assert_eq!(query, "(assert p)\n(check-sat)\n(get-value (x))\n(get-value (y))\n");
    assert_eq!(write_query(&s(""), &vec![]), "(check-sat)\n");
}
