//! The encoding of expressions, gates, lookups and copy constraints as
//! terms and assertions of the solver script.

use vstd::prelude::*;
use crate::analyzer::Analyzer;
use crate::error::AnalyzerError;
use crate::lookup::{
    collect_table_columns, lemma_table_rows_shape, read_table, rows_view, table_columns, table_rows,
};
use crate::model::{CellValue, ConstraintSystem, Expression, Gate, Lookup, Region};
use crate::smt::{
    assert_line, binary_text, conjunction_text, contains_name, declared, disjunction_text, emitted,
    equality, equality_text, get_and, get_or, lemma_names_push, literal, literal_text, names,
    negation_text, terms_view, write_negation, write_term, NodeType, Operation, Printer,
    PrinterView, SymbolicTerm, TermView,
};
use crate::text::{decimal, decimal_string, signed_decimal, signed_decimal_string};

verus! {

/// The name of a cell: a prefix for its kind, then region, column and row,
/// separated by `-`.
pub open spec fn cell_name(prefix: Seq<char>, region: nat, column: nat, row: int) -> Seq<char> {
    prefix + decimal(region) + "-"@ + decimal(column) + "-"@ + signed_decimal(row)
}

/// The kind of the term of `e`.
pub open spec fn term_kind(e: Expression) -> NodeType {
    match e {
        Expression::Constant(_) => NodeType::Constant,
        Expression::Selector(_) => NodeType::Fixed,
        Expression::Fixed { .. } => NodeType::Fixed,
        Expression::Advice { .. } => NodeType::Advice,
        Expression::Instance { .. } => NodeType::Instance,
        Expression::Negated(_) => NodeType::Negated,
        Expression::Sum(_, _) => NodeType::Add,
        Expression::Product(_, _) => NodeType::Mult,
        Expression::Scaled(_, _) => NodeType::Scaled,
    }
}

/// The term of `e` at row `row` of region `region`, where
/// `enabled` holds the names of the enabled selector cells. A selector is the
/// literal 1 or 0, a fixed or advice query is the name of its cell, an
/// instance query is left empty, and a scaling is the product of the constant
/// and the scaled term.
pub open spec fn term_text(e: Expression, region: nat, row: int, enabled: Seq<Seq<char>>) -> Seq<
    char,
>
    decreases e,
{
    match e {
        Expression::Constant(v) => literal_text(decimal(v as nat)),
        Expression::Selector(s) => if enabled.contains(cell_name("S-"@, region, s as nat, row)) {
            literal_text("1"@)
        } else {
            literal_text("0"@)
        },
        Expression::Fixed { column, rotation } => cell_name(
            "F-"@,
            region,
            column as nat,
            rotation + row,
        ),
        Expression::Advice { column, rotation } => cell_name(
            "A-"@,
            region,
            column as nat,
            rotation + row,
        ),
        Expression::Instance { .. } => Seq::empty(),
        Expression::Negated(a) => negation_text(term_text(*a, region, row, enabled), term_kind(*a)),
        Expression::Sum(a, b) => binary_text(
            "add"@,
            term_text(*a, region, row, enabled),
            term_kind(*a),
            term_text(*b, region, row, enabled),
            term_kind(*b),
        ),
        Expression::Product(a, b) => binary_text(
            "mul"@,
            term_text(*a, region, row, enabled),
            term_kind(*a),
            term_text(*b, region, row, enabled),
            term_kind(*b),
        ),
        Expression::Scaled(a, c) => binary_text(
            "mul"@,
            literal_text(decimal(c as nat)),
            NodeType::Constant,
            term_text(*a, region, row, enabled),
            term_kind(*a),
        ),
    }
}

/// The printer after the advice cells of `e` are declared, left to right.
pub open spec fn advice_declared(p: PrinterView, e: Expression, region: nat, row: int) -> PrinterView
    decreases e,
{
    match e {
        Expression::Advice { column, rotation } => declared(
            p,
            cell_name("A-"@, region, column as nat, rotation + row),
        ),
        Expression::Negated(a) => advice_declared(p, *a, region, row),
        Expression::Sum(a, b) => advice_declared(
            advice_declared(p, *a, region, row),
            *b,
            region,
            row,
        ),
        Expression::Product(a, b) => advice_declared(
            advice_declared(p, *a, region, row),
            *b,
            region,
            row,
        ),
        Expression::Scaled(a, _) => advice_declared(p, *a, region, row),
        _ => p,
    }
}

/// Writes the name of a cell.
pub fn write_cell_name(prefix: &str, region: usize, column: usize, row: i64) -> (res: String)
    ensures
        res@ == cell_name(prefix@, region as nat, column as nat, row as int),
{
    let mut s = prefix.to_owned();
    let r = decimal_string(region as u128);
    s.append(r.as_str());
    s.append("-");
    let c = decimal_string(column as u128);
    s.append(c.as_str());
    s.append("-");
    let w = signed_decimal_string(row);
    s.append(w.as_str());
    s
}

/// The term of `e` with its kind.
pub open spec fn term_of(e: Expression, region: nat, row: int, enabled: Seq<Seq<char>>) -> TermView {
    TermView { text: term_text(e, region, row, enabled), kind: term_kind(e) }
}

/// The terms of the input expressions of a lookup, in order.
pub open spec fn input_terms(
    inputs: Seq<Expression>,
    region: nat,
    row: int,
    enabled: Seq<Seq<char>>,
) -> Seq<TermView> {
    Seq::new(inputs.len(), |k: int| term_of(inputs[k], region, row, enabled))
}

/// The printer after the advice cells of each of `inputs` are declared, in
/// order.
pub open spec fn inputs_declared(
    p: PrinterView,
    inputs: Seq<Expression>,
    region: nat,
    row: int,
) -> PrinterView
    decreases inputs.len(),
{
    if inputs.len() == 0 {
        p
    } else {
        advice_declared(
            inputs_declared(p, inputs.drop_last(), region, row),
            inputs.last(),
            region,
            row,
        )
    }
}

/// The equalities of one table row: the k-th term equals the k-th value.
/// Each term is set in parentheses, whatever its kind.
pub open spec fn row_equalities(values: Seq<u128>, terms: Seq<TermView>) -> Seq<Seq<char>> {
    Seq::new(
        values.len(),
        |k: int| equality_text(terms[k].text, decimal(values[k] as nat), NodeType::Mult),
    )
}

/// The formula that the terms equal, one by one, the values of a table row.
pub open spec fn row_formula(values: Seq<u128>, terms: Seq<TermView>) -> Seq<char> {
    conjunction_text(row_equalities(values, terms))
}

/// The formulas of the rows of a table.
pub open spec fn row_formulas(rows: Seq<Seq<u128>>, terms: Seq<TermView>) -> Seq<Seq<char>> {
    Seq::new(rows.len(), |r: int| row_formula(rows[r], terms))
}

/// The formula of a lookup: the terms equal some row of the table.
pub open spec fn lookup_formula(rows: Seq<Seq<u128>>, terms: Seq<TermView>) -> Seq<char> {
    disjunction_text(row_formulas(rows, terms))
}

fn write_row_formula(values: &Vec<u128>, terms: &Vec<SymbolicTerm>) -> (res: String)
    requires
        values@.len() <= terms@.len(),
    ensures
        res@ == row_formula(values@, terms_view(terms@)),
{
    let mut parts: Vec<String> = Vec::new();
    let mut k: usize = 0;
    assert(names(parts@) =~= row_equalities(values@, terms_view(terms@)).take(0));
    while k < values.len()
        invariant
            k <= values.len(),
            values@.len() <= terms@.len(),
            names(parts@) == row_equalities(values@, terms_view(terms@)).take(k as int),
        decreases values.len() - k,
    {
        let digits = decimal_string(values[k]);
        let formula = equality(&terms[k].text, &digits, NodeType::Mult);
        proof {
            lemma_names_push(parts@, formula);
            assert(names(parts@).push(formula@) =~= row_equalities(
                values@,
                terms_view(terms@),
            ).take(k + 1));
        }
        parts.push(formula);
        k += 1;
    }
    assert(row_equalities(values@, terms_view(terms@)).take(values@.len() as int)
        =~= row_equalities(values@, terms_view(terms@)));
    get_and(&parts)
}

fn write_lookup_formula(rows: &Vec<Vec<u128>>, terms: &Vec<SymbolicTerm>) -> (res: String)
    requires
        forall|r: int| 0 <= r < rows@.len() ==> (#[trigger] rows@[r])@.len() <= terms@.len(),
    ensures
        res@ == lookup_formula(rows_view(rows@), terms_view(terms@)),
{
    let mut parts: Vec<String> = Vec::new();
    let mut r: usize = 0;
    assert(names(parts@) =~= row_formulas(rows_view(rows@), terms_view(terms@)).take(0));
    while r < rows.len()
        invariant
            r <= rows.len(),
            forall|r: int| 0 <= r < rows@.len() ==> (#[trigger] rows@[r])@.len() <= terms@.len(),
            names(parts@) == row_formulas(rows_view(rows@), terms_view(terms@)).take(r as int),
        decreases rows.len() - r,
    {
        let formula = write_row_formula(&rows[r], terms);
        proof {
            lemma_names_push(parts@, formula);
            assert(names(parts@).push(formula@) =~= row_formulas(
                rows_view(rows@),
                terms_view(terms@),
            ).take(r + 1));
        }
        parts.push(formula);
        r += 1;
    }
    assert(row_formulas(rows_view(rows@), terms_view(terms@)).take(rows@.len() as int)
        =~= row_formulas(rows_view(rows@), terms_view(terms@)));
    get_or(&parts)
}

/// The printer after `e` is asserted to be zero at `row` of `region`: its
/// advice cells are declared, then the assertion is written, with the term
/// in parentheses whatever its kind.
pub open spec fn poly_asserted(
    p: PrinterView,
    e: Expression,
    region: nat,
    row: int,
    enabled: Seq<Seq<char>>,
) -> PrinterView {
    emitted(
        advice_declared(p, e, region, row),
        assert_line(equality_text(term_text(e, region, row, enabled), "0"@, NodeType::Poly)),
    )
}

/// The printer after each of `polys` is asserted to be zero, in order.
pub open spec fn polys_asserted(
    p: PrinterView,
    polys: Seq<Expression>,
    region: nat,
    row: int,
    enabled: Seq<Seq<char>>,
) -> PrinterView
    decreases polys.len(),
{
    if polys.len() == 0 {
        p
    } else {
        poly_asserted(
            polys_asserted(p, polys.drop_last(), region, row, enabled),
            polys.last(),
            region,
            row,
            enabled,
        )
    }
}

/// The printer after the polynomials of each of `gates` are asserted to be
/// zero at one row, gate by gate.
pub open spec fn gates_asserted(
    p: PrinterView,
    gates: Seq<Gate>,
    region: nat,
    row: int,
    enabled: Seq<Seq<char>>,
) -> PrinterView
    decreases gates.len(),
{
    if gates.len() == 0 {
        p
    } else {
        polys_asserted(
            gates_asserted(p, gates.drop_last(), region, row, enabled),
            gates.last().polys@,
            region,
            row,
            enabled,
        )
    }
}

/// The printer after the gates are asserted at the first `rows` rows of a
/// region, row by row.
pub open spec fn gate_rows_asserted(
    p: PrinterView,
    gates: Seq<Gate>,
    region: nat,
    enabled: Seq<Seq<char>>,
    rows: nat,
) -> PrinterView
    decreases rows,
{
    if rows == 0 {
        p
    } else {
        gates_asserted(
            gate_rows_asserted(p, gates, region, enabled, (rows - 1) as nat),
            gates,
            region,
            rows - 1,
            enabled,
        )
    }
}

fn assert_polys(
    polys: &Vec<Expression>,
    printer: &mut Printer,
    region_no: usize,
    row_num: usize,
    es: &Vec<String>,
)
    requires
        polys@.len() > 0 ==> row_num <= 0x7fff_ffff,
    ensures
        final(printer).depth == old(printer).depth,
        final(printer)@ == polys_asserted(
            old(printer)@,
            polys@,
            region_no as nat,
            row_num as int,
            names(es@),
        ),
{
    let mut i: usize = 0;
    assert(polys@.take(0) =~= Seq::<Expression>::empty());
    while i < polys.len()
        invariant
            i <= polys.len(),
            polys@.len() > 0 ==> row_num <= 0x7fff_ffff,
            printer.depth == old(printer).depth,
            printer@ == polys_asserted(
                old(printer)@,
                polys@.take(i as int),
                region_no as nat,
                row_num as int,
                names(es@),
            ),
        decreases polys.len() - i,
    {
        proof {
            let next = polys@.take(i + 1);
            assert(next.drop_last() =~= polys@.take(i as int));
            assert(next.last() == polys@[i as int]);
        }
        let term = Analyzer::decompose_expression(
            &polys[i],
            printer,
            region_no,
            row_num as i32,
            es,
        );
        let zero = "0".to_owned();
        printer.write_assert(&term.text, &zero, NodeType::Poly, Operation::Equal);
        i += 1;
    }
    assert(polys@.take(polys.len() as int) =~= polys@);
}

fn assert_gates(
    gates: &Vec<Gate>,
    printer: &mut Printer,
    region_no: usize,
    row_num: usize,
    es: &Vec<String>,
)
    requires
        has_polys(gates@) ==> row_num <= 0x7fff_ffff,
    ensures
        final(printer).depth == old(printer).depth,
        final(printer)@ == gates_asserted(
            old(printer)@,
            gates@,
            region_no as nat,
            row_num as int,
            names(es@),
        ),
{
    let mut i: usize = 0;
    assert(gates@.take(0) =~= Seq::<Gate>::empty());
    while i < gates.len()
        invariant
            i <= gates.len(),
            has_polys(gates@) ==> row_num <= 0x7fff_ffff,
            printer.depth == old(printer).depth,
            printer@ == gates_asserted(
                old(printer)@,
                gates@.take(i as int),
                region_no as nat,
                row_num as int,
                names(es@),
            ),
        decreases gates.len() - i,
    {
        proof {
            let next = gates@.take(i + 1);
            assert(next.drop_last() =~= gates@.take(i as int));
            assert(next.last() == gates@[i as int]);
        }
        assert(gates@[i as int].polys@.len() > 0 ==> has_polys(gates@));
        assert_polys(&gates[i].polys, printer, region_no, row_num, es);
        i += 1;
    }
    assert(gates@.take(gates.len() as int) =~= gates@);
}

fn assert_gate_rows(
    gates: &Vec<Gate>,
    printer: &mut Printer,
    region_no: usize,
    row_count: usize,
    es: &Vec<String>,
)
    requires
        has_polys(gates@) ==> row_count <= 0x8000_0000,
    ensures
        final(printer).depth == old(printer).depth,
        final(printer)@ == gate_rows_asserted(
            old(printer)@,
            gates@,
            region_no as nat,
            names(es@),
            row_count as nat,
        ),
{
    let mut row: usize = 0;
    while row < row_count
        invariant
            row <= row_count,
            has_polys(gates@) ==> row_count <= 0x8000_0000,
            printer.depth == old(printer).depth,
            printer@ == gate_rows_asserted(
                old(printer)@,
                gates@,
                region_no as nat,
                names(es@),
                row as nat,
            ),
        decreases row_count - row,
    {
        assert_gates(gates, printer, region_no, row, es);
        row += 1;
    }
}

/// The table of a lookup as the fixed columns hold it, `None` where it cannot
/// be read.
pub open spec fn lookup_table(lookup: Lookup, fixed: Seq<Vec<CellValue>>) -> Option<
    Seq<Seq<u128>>,
> {
    table_rows(
        fixed,
        table_columns(lookup.table_expressions@),
        lookup.input_expressions@.len(),
    )
}

/// The printer after a lookup is asserted at `row` of `region`: the advice
/// cells of its inputs are declared, then the disjunction over the table rows
/// is asserted.
pub open spec fn lookup_asserted(
    p: PrinterView,
    lookup: Lookup,
    fixed: Seq<Vec<CellValue>>,
    region: nat,
    row: int,
    enabled: Seq<Seq<char>>,
) -> PrinterView {
    emitted(
        inputs_declared(p, lookup.input_expressions@, region, row),
        assert_line(
            lookup_formula(
                lookup_table(lookup, fixed).unwrap(),
                input_terms(lookup.input_expressions@, region, row, enabled),
            ),
        ),
    )
}

/// The printer after each of `lookups` is asserted at one row, in order.
pub open spec fn lookups_asserted(
    p: PrinterView,
    lookups: Seq<Lookup>,
    fixed: Seq<Vec<CellValue>>,
    region: nat,
    row: int,
    enabled: Seq<Seq<char>>,
) -> PrinterView
    decreases lookups.len(),
{
    if lookups.len() == 0 {
        p
    } else {
        lookup_asserted(
            lookups_asserted(p, lookups.drop_last(), fixed, region, row, enabled),
            lookups.last(),
            fixed,
            region,
            row,
            enabled,
        )
    }
}

/// The printer after the lookups are asserted at the first `rows` rows of a
/// region, row by row.
pub open spec fn lookup_rows_asserted(
    p: PrinterView,
    lookups: Seq<Lookup>,
    fixed: Seq<Vec<CellValue>>,
    region: nat,
    enabled: Seq<Seq<char>>,
    rows: nat,
) -> PrinterView
    decreases rows,
{
    if rows == 0 {
        p
    } else {
        lookups_asserted(
            lookup_rows_asserted(p, lookups, fixed, region, enabled, (rows - 1) as nat),
            lookups,
            fixed,
            region,
            rows - 1,
            enabled,
        )
    }
}

/// `tables` holds the table of each of `lookups`, read from `fixed`.
pub open spec fn tables_read(
    tables: Seq<Vec<Vec<u128>>>,
    lookups: Seq<Lookup>,
    fixed: Seq<Vec<CellValue>>,
) -> bool {
    &&& tables.len() == lookups.len()
    &&& forall|l: int|
        0 <= l < lookups.len() ==> lookup_table(#[trigger] lookups[l], fixed) == Some(
            rows_view(tables[l]@),
        )
}

fn decompose_inputs(
    inputs: &Vec<Expression>,
    printer: &mut Printer,
    region_no: usize,
    row_num: usize,
    es: &Vec<String>,
) -> (res: Vec<SymbolicTerm>)
    requires
        inputs@.len() > 0 ==> row_num <= 0x7fff_ffff,
    ensures
        terms_view(res@) == input_terms(inputs@, region_no as nat, row_num as int, names(es@)),
        final(printer).depth == old(printer).depth,
        final(printer)@ == inputs_declared(
            old(printer)@,
            inputs@,
            region_no as nat,
            row_num as int,
        ),
{
    let mut res: Vec<SymbolicTerm> = Vec::new();
    let mut i: usize = 0;
    assert(inputs@.take(0) =~= Seq::<Expression>::empty());
    while i < inputs.len()
        invariant
            i <= inputs.len(),
            inputs@.len() > 0 ==> row_num <= 0x7fff_ffff,
            res@.len() == i,
            forall|k: int|
                0 <= k < i ==> (#[trigger] res@[k])@ == term_of(
                    inputs@[k],
                    region_no as nat,
                    row_num as int,
                    names(es@),
                ),
            printer.depth == old(printer).depth,
            printer@ == inputs_declared(
                old(printer)@,
                inputs@.take(i as int),
                region_no as nat,
                row_num as int,
            ),
        decreases inputs.len() - i,
    {
        proof {
            let next = inputs@.take(i + 1);
            assert(next.drop_last() =~= inputs@.take(i as int));
            assert(next.last() == inputs@[i as int]);
        }
        let term = Analyzer::decompose_expression(
            &inputs[i],
            printer,
            region_no,
            row_num as i32,
            es,
        );
        res.push(term);
        i += 1;
    }
    assert(inputs@.take(inputs.len() as int) =~= inputs@);
    assert(terms_view(res@) =~= input_terms(
        inputs@,
        region_no as nat,
        row_num as int,
        names(es@),
    ));
    res
}

fn assert_lookups(
    lookups: &Vec<Lookup>,
    tables: &Vec<Vec<Vec<u128>>>,
    fixed: &Vec<Vec<CellValue>>,
    printer: &mut Printer,
    region_no: usize,
    row_num: usize,
    es: &Vec<String>,
)
    requires
        lookups@.len() > 0 ==> tables_read(tables@, lookups@, fixed@),
        has_inputs(lookups@) ==> row_num <= 0x7fff_ffff,
    ensures
        final(printer).depth == old(printer).depth,
        final(printer)@ == lookups_asserted(
            old(printer)@,
            lookups@,
            fixed@,
            region_no as nat,
            row_num as int,
            names(es@),
        ),
{
    let mut i: usize = 0;
    assert(lookups@.take(0) =~= Seq::<Lookup>::empty());
    while i < lookups.len()
        invariant
            i <= lookups.len(),
            lookups@.len() > 0 ==> tables_read(tables@, lookups@, fixed@),
            has_inputs(lookups@) ==> row_num <= 0x7fff_ffff,
            printer.depth == old(printer).depth,
            printer@ == lookups_asserted(
                old(printer)@,
                lookups@.take(i as int),
                fixed@,
                region_no as nat,
                row_num as int,
                names(es@),
            ),
        decreases lookups.len() - i,
    {
        proof {
            let next = lookups@.take(i + 1);
            assert(next.drop_last() =~= lookups@.take(i as int));
            assert(next.last() == lookups@[i as int]);
            assert(lookup_table(lookups@[i as int], fixed@) == Some(rows_view(tables@[i as int]@)));
            lemma_table_rows_shape(
                fixed@,
                table_columns(lookups@[i as int].table_expressions@),
                lookups@[i as int].input_expressions@.len(),
            );
        }
        assert(lookups@[i as int].input_expressions@.len() > 0 ==> has_inputs(lookups@));
        let terms = decompose_inputs(
            &lookups[i].input_expressions,
            printer,
            region_no,
            row_num,
            es,
        );
        let table = &tables[i];
        proof {
            assert(terms@.len() == terms_view(terms@).len());
            assert forall|r: int| 0 <= r < table@.len() implies (#[trigger] table@[r])@.len()
                <= terms@.len() by {
                assert(rows_view(table@)[r] == table@[r]@);
            }
        }
        let formula = write_lookup_formula(table, &terms);
        printer.write_formula(&formula);
        i += 1;
    }
    assert(lookups@.take(lookups.len() as int) =~= lookups@);
}

fn assert_lookup_rows(
    lookups: &Vec<Lookup>,
    tables: &Vec<Vec<Vec<u128>>>,
    fixed: &Vec<Vec<CellValue>>,
    printer: &mut Printer,
    region_no: usize,
    row_count: usize,
    es: &Vec<String>,
)
    requires
        lookups@.len() > 0 && row_count > 0 ==> tables_read(tables@, lookups@, fixed@),
        has_inputs(lookups@) ==> row_count <= 0x8000_0000,
    ensures
        final(printer).depth == old(printer).depth,
        final(printer)@ == lookup_rows_asserted(
            old(printer)@,
            lookups@,
            fixed@,
            region_no as nat,
            names(es@),
            row_count as nat,
        ),
{
    let mut row: usize = 0;
    while row < row_count
        invariant
            row <= row_count,
            has_inputs(lookups@) ==> row_count <= 0x8000_0000,
            lookups@.len() > 0 && row_count > 0 ==> tables_read(tables@, lookups@, fixed@),
            printer.depth == old(printer).depth,
            printer@ == lookup_rows_asserted(
                old(printer)@,
                lookups@,
                fixed@,
                region_no as nat,
                names(es@),
                row as nat,
            ),
        decreases row_count - row,
    {
        assert_lookups(lookups, tables, fixed, printer, region_no, row, es);
        row += 1;
    }
}

fn read_tables(lookups: &Vec<Lookup>, fixed: &Vec<Vec<CellValue>>) -> (res: Option<
    Vec<Vec<Vec<u128>>>,
>)
    ensures
        match res {
            Some(tables) => tables_read(tables@, lookups@, fixed@),
            None => exists|l: int|
                0 <= l < lookups@.len() && lookup_table(#[trigger] lookups@[l], fixed@) is None,
        },
{
    let mut tables: Vec<Vec<Vec<u128>>> = Vec::new();
    let mut i: usize = 0;
    while i < lookups.len()
        invariant
            i <= lookups.len(),
            tables@.len() == i,
            forall|l: int|
                0 <= l < i ==> lookup_table(#[trigger] lookups@[l], fixed@) == Some(
                    rows_view(tables@[l]@),
                ),
        decreases lookups.len() - i,
    {
        let cols = collect_table_columns(&lookups[i].table_expressions);
        match read_table(fixed, &cols, lookups[i].input_expressions.len()) {
            Some(rows) => {
                tables.push(rows);
            },
            None => {
                assert(lookup_table(lookups@[i as int], fixed@) is None);
                return None;
            },
        }
        i += 1;
    }
    Some(tables)
}

/// The printer after the gates are asserted at every row of every region,
/// region by region.
pub open spec fn gate_regions_asserted(
    p: PrinterView,
    gates: Seq<Gate>,
    regions: Seq<Region>,
) -> PrinterView
    decreases regions.len(),
{
    if regions.len() == 0 {
        p
    } else {
        gate_rows_asserted(
            gate_regions_asserted(p, gates, regions.drop_last()),
            gates,
            (regions.len() - 1) as nat,
            names(regions.last().enabled_selectors@),
            regions.last().row_count as nat,
        )
    }
}

/// The printer after the lookups are asserted at every row of every region,
/// region by region.
pub open spec fn lookup_regions_asserted(
    p: PrinterView,
    lookups: Seq<Lookup>,
    fixed: Seq<Vec<CellValue>>,
    regions: Seq<Region>,
) -> PrinterView
    decreases regions.len(),
{
    if regions.len() == 0 {
        p
    } else {
        lookup_rows_asserted(
            lookup_regions_asserted(p, lookups, fixed, regions.drop_last()),
            lookups,
            fixed,
            (regions.len() - 1) as nat,
            names(regions.last().enabled_selectors@),
            regions.last().row_count as nat,
        )
    }
}

/// No region has more rows than row numbers can count.
pub open spec fn rows_in_range(regions: Seq<Region>) -> bool {
    forall|r: int| 0 <= r < regions.len() ==> (#[trigger] regions[r]).row_count <= 0x8000_0000
}

/// The table of every lookup can be read from the fixed columns.
pub open spec fn tables_readable(lookups: Seq<Lookup>, fixed: Seq<Vec<CellValue>>) -> bool {
    forall|l: int| 0 <= l < lookups.len() ==> lookup_table(#[trigger] lookups[l], fixed) is Some
}

/// Some gate has a polynomial.
pub open spec fn has_polys(gates: Seq<Gate>) -> bool {
    exists|g: int| 0 <= g < gates.len() && (#[trigger] gates[g]).polys@.len() > 0
}

/// Some lookup has an input expression.
pub open spec fn has_inputs(lookups: Seq<Lookup>) -> bool {
    exists|l: int| 0 <= l < lookups.len() && (#[trigger] lookups[l]).input_expressions@.len() > 0
}

/// Some region has a row.
pub open spec fn has_rows(regions: Seq<Region>) -> bool {
    exists|r: int| 0 <= r < regions.len() && (#[trigger] regions[r]).row_count > 0
}

/// The constraints can be encoded. Where an expression is to be encoded at
/// all, every row must have a row number; where a lookup is asserted at some
/// row, the table of every lookup must be readable.
pub open spec fn encodable(
    cs: ConstraintSystem,
    regions: Seq<Region>,
    fixed: Seq<Vec<CellValue>>,
) -> bool {
    &&& has_polys(cs.gates@) || has_inputs(cs.lookups@) ==> rows_in_range(regions)
    &&& cs.lookups@.len() > 0 && has_rows(regions) ==> tables_readable(cs.lookups@, fixed)
}

/// The printer after the constraints are encoded: every gate polynomial
/// asserted to be zero at every row of every region, then every lookup
/// asserted at every row of every region.
pub open spec fn constraints_encoded(
    p: PrinterView,
    cs: ConstraintSystem,
    regions: Seq<Region>,
    fixed: Seq<Vec<CellValue>>,
) -> PrinterView {
    lookup_regions_asserted(
        gate_regions_asserted(p, cs.gates@, regions),
        cs.lookups@,
        fixed,
        regions,
    )
}

/// Without a gate polynomial the gates write nothing, however many rows
/// there are.
pub proof fn lemma_no_polys_no_assertions(p: PrinterView, gates: Seq<Gate>, regions: Seq<Region>)
    requires
        !has_polys(gates),
    ensures
        gate_regions_asserted(p, gates, regions) == p,
    decreases regions.len(),
{
    if regions.len() > 0 {
        lemma_no_polys_no_assertions(p, gates, regions.drop_last());
        lemma_no_polys_no_rows(
            p,
            gates,
            (regions.len() - 1) as nat,
            names(regions.last().enabled_selectors@),
            regions.last().row_count as nat,
        );
    }
}

proof fn lemma_no_polys_no_rows(
    p: PrinterView,
    gates: Seq<Gate>,
    region: nat,
    enabled: Seq<Seq<char>>,
    rows: nat,
)
    requires
        !has_polys(gates),
    ensures
        gate_rows_asserted(p, gates, region, enabled, rows) == p,
    decreases rows,
{
    if rows > 0 {
        lemma_no_polys_no_rows(p, gates, region, enabled, (rows - 1) as nat);
        lemma_no_polys_at_row(p, gates, gates.len(), region, rows - 1, enabled);
        assert(gates.take(gates.len() as int) =~= gates);
    }
}

proof fn lemma_no_polys_at_row(
    p: PrinterView,
    gates: Seq<Gate>,
    n: nat,
    region: nat,
    row: int,
    enabled: Seq<Seq<char>>,
)
    requires
        !has_polys(gates),
        n <= gates.len(),
    ensures
        gates_asserted(p, gates.take(n as int), region, row, enabled) == p,
    decreases n,
{
    if n > 0 {
        lemma_no_polys_at_row(p, gates, (n - 1) as nat, region, row, enabled);
        let first = gates.take(n as int);
        assert(first.drop_last() =~= gates.take(n - 1));
        assert(first.last() == gates[n - 1]);
        assert(gates[n - 1].polys@.len() == 0);
    }
}

/// Without a lookup the lookups write nothing, however many rows there are.
pub proof fn lemma_no_lookups_no_assertions(
    p: PrinterView,
    fixed: Seq<Vec<CellValue>>,
    regions: Seq<Region>,
)
    ensures
        lookup_regions_asserted(p, Seq::<Lookup>::empty(), fixed, regions) == p,
    decreases regions.len(),
{
    if regions.len() > 0 {
        lemma_no_lookups_no_assertions(p, fixed, regions.drop_last());
        lemma_no_lookups_no_rows(
            p,
            fixed,
            (regions.len() - 1) as nat,
            names(regions.last().enabled_selectors@),
            regions.last().row_count as nat,
        );
    }
}

proof fn lemma_no_lookups_no_rows(
    p: PrinterView,
    fixed: Seq<Vec<CellValue>>,
    region: nat,
    enabled: Seq<Seq<char>>,
    rows: nat,
)
    ensures
        lookup_rows_asserted(p, Seq::<Lookup>::empty(), fixed, region, enabled, rows) == p,
    decreases rows,
{
    if rows > 0 {
        lemma_no_lookups_no_rows(p, fixed, region, enabled, (rows - 1) as nat);
    }
}

/// Without a region nothing is written and nothing can fail, whatever the
/// gates, the lookups and the fixed columns are.
pub proof fn lemma_no_regions_nothing_encoded(
    p: PrinterView,
    cs: ConstraintSystem,
    fixed: Seq<Vec<CellValue>>,
)
    ensures
        encodable(cs, Seq::<Region>::empty(), fixed),
        constraints_encoded(p, cs, Seq::<Region>::empty(), fixed) == p,
{
}

fn any_polys(gates: &Vec<Gate>) -> (res: bool)
    ensures
        res == has_polys(gates@),
{
    let mut i: usize = 0;
    while i < gates.len()
        invariant
            i <= gates.len(),
            forall|g: int| 0 <= g < i ==> (#[trigger] gates@[g]).polys@.len() == 0,
        decreases gates.len() - i,
    {
        if gates[i].polys.len() > 0 {
            assert(gates@[i as int].polys@.len() > 0);
            return true;
        }
        i += 1;
    }
    false
}

fn any_inputs(lookups: &Vec<Lookup>) -> (res: bool)
    ensures
        res == has_inputs(lookups@),
{
    let mut i: usize = 0;
    while i < lookups.len()
        invariant
            i <= lookups.len(),
            forall|l: int| 0 <= l < i ==> (#[trigger] lookups@[l]).input_expressions@.len() == 0,
        decreases lookups.len() - i,
    {
        if lookups[i].input_expressions.len() > 0 {
            assert(lookups@[i as int].input_expressions@.len() > 0);
            return true;
        }
        i += 1;
    }
    false
}

fn any_rows(regions: &Vec<Region>) -> (res: bool)
    ensures
        res == has_rows(regions@),
{
    let mut i: usize = 0;
    while i < regions.len()
        invariant
            i <= regions.len(),
            forall|r: int| 0 <= r < i ==> (#[trigger] regions@[r]).row_count == 0,
        decreases regions.len() - i,
    {
        if regions[i].row_count > 0 {
            assert(regions@[i as int].row_count > 0);
            return true;
        }
        i += 1;
    }
    false
}

fn check_rows_in_range(regions: &Vec<Region>) -> (res: bool)
    ensures
        res == rows_in_range(regions@),
{
    let mut i: usize = 0;
    while i < regions.len()
        invariant
            i <= regions.len(),
            forall|r: int| 0 <= r < i ==> (#[trigger] regions@[r]).row_count <= 0x8000_0000,
        decreases regions.len() - i,
    {
        if regions[i].row_count > 0x8000_0000 {
            return false;
        }
        i += 1;
    }
    true
}

impl Analyzer {
    /// Encodes `poly` at row `row_num` of region `region_no` as a term
    /// of the solver's logic and declares its advice cells in `printer`.
    /// `es` holds the names of the selector cells that are enabled.
    pub fn decompose_expression(
        poly: &Expression,
        printer: &mut Printer,
        region_no: usize,
        row_num: i32,
        es: &Vec<String>,
    ) -> (res: SymbolicTerm)
        ensures
            res.text@ == term_text(*poly, region_no as nat, row_num as int, names(es@)),
            res.kind == term_kind(*poly),
            final(printer).depth == old(printer).depth,
            final(printer)@ == advice_declared(
                old(printer)@,
                *poly,
                region_no as nat,
                row_num as int,
            ),
        decreases *poly,
    {
        match poly {
            Expression::Constant(v) => {
                let digits = decimal_string(*v);
                SymbolicTerm { text: literal(&digits), kind: NodeType::Constant }
            },
            Expression::Selector(s) => {
                let name = write_cell_name("S-", region_no, *s, row_num as i64);
                let digit = if contains_name(es, &name) {
                    "1".to_owned()
                } else {
                    "0".to_owned()
                };
                SymbolicTerm { text: literal(&digit), kind: NodeType::Fixed }
            },
            Expression::Fixed { column, rotation } => {
                let row: i64 = *rotation as i64 + row_num as i64;
                SymbolicTerm {
                    text: write_cell_name("F-", region_no, *column, row),
                    kind: NodeType::Fixed,
                }
            },
            Expression::Advice { column, rotation } => {
                let row: i64 = *rotation as i64 + row_num as i64;
                let name = write_cell_name("A-", region_no, *column, row);
                printer.write_var(name.clone());
                SymbolicTerm { text: name, kind: NodeType::Advice }
            },
            Expression::Instance { .. } => SymbolicTerm {
                text: String::new(),
                kind: NodeType::Instance,
            },
            Expression::Negated(a) => {
                let inner = Self::decompose_expression(a, printer, region_no, row_num, es);
                SymbolicTerm {
                    text: write_negation(&inner.text, inner.kind),
                    kind: NodeType::Negated,
                }
            },
            Expression::Sum(a, b) => {
                let left = Self::decompose_expression(a, printer, region_no, row_num, es);
                let right = Self::decompose_expression(b, printer, region_no, row_num, es);
                let op = "add".to_owned();
                SymbolicTerm {
                    text: write_term(&op, &left.text, left.kind, &right.text, right.kind),
                    kind: NodeType::Add,
                }
            },
            Expression::Product(a, b) => {
                let left = Self::decompose_expression(a, printer, region_no, row_num, es);
                let right = Self::decompose_expression(b, printer, region_no, row_num, es);
                let op = "mul".to_owned();
                SymbolicTerm {
                    text: write_term(&op, &left.text, left.kind, &right.text, right.kind),
                    kind: NodeType::Mult,
                }
            },
            Expression::Scaled(a, c) => {
                let digits = decimal_string(*c);
                let left = literal(&digits);
                let right = Self::decompose_expression(a, printer, region_no, row_num, es);
                let op = "mul".to_owned();
                SymbolicTerm {
                    text: write_term(&op, &left, NodeType::Constant, &right.text, right.kind),
                    kind: NodeType::Scaled,
                }
            },
        }
    }
    /// Encodes the constraints into `printer`: each gate polynomial is
    /// asserted to be zero at every row of every region, then each lookup is
    /// asserted, at every row of every region, as the disjunction over the
    /// rows of its table. Where nothing is to be encoded nothing is asked of
    /// the rows or of `fixed`. Where the encoding fails nothing is written.
    pub fn decompose_polynomial(&self, printer: &mut Printer, fixed: &Vec<Vec<CellValue>>) -> (res:
        Result<(), AnalyzerError>)
        ensures
            final(printer).depth == old(printer).depth,
            encodable(self.cs, self.layouter.regions@, fixed@) ==> res is Ok && final(printer)@
                == constraints_encoded(old(printer)@, self.cs, self.layouter.regions@, fixed@),
            !encodable(self.cs, self.layouter.regions@, fixed@) ==> res == Err::<
                (),
                AnalyzerError,
            >(AnalyzerError::EncodingFailure) && final(printer)@ == old(printer)@,
    {
        let regions = &self.layouter.regions;
        let polys_present = any_polys(&self.cs.gates);
        let rows_numbered = polys_present || any_inputs(&self.cs.lookups);
        if rows_numbered && !check_rows_in_range(regions) {
            return Err(AnalyzerError::EncodingFailure);
        }
        let tables_needed = self.cs.lookups.len() > 0 && any_rows(regions);
        let tables = if tables_needed {
            match read_tables(&self.cs.lookups, fixed) {
                Some(tables) => tables,
                None => {
                    return Err(AnalyzerError::EncodingFailure);
                },
            }
        } else {
            Vec::new()
        };
        assert(tables_needed ==> tables_readable(self.cs.lookups@, fixed@));
        proof {
            if !polys_present {
                lemma_no_polys_no_assertions(printer@, self.cs.gates@, regions@);
            }
            if self.cs.lookups@.len() == 0 {
                assert(self.cs.lookups@ =~= Seq::<Lookup>::empty());
                lemma_no_lookups_no_assertions(
                    gate_regions_asserted(printer@, self.cs.gates@, regions@),
                    fixed@,
                    regions@,
                );
            }
        }
        let mut i: usize = if polys_present {
            0
        } else {
            regions.len()
        };
        assert(regions@.take(0) =~= Seq::<Region>::empty());
        assert(regions@.take(regions.len() as int) =~= regions@);
        while i < regions.len()
            invariant
                i <= regions.len(),
                has_polys(self.cs.gates@) ==> rows_in_range(regions@),
                printer.depth == old(printer).depth,
                printer@ == gate_regions_asserted(
                    old(printer)@,
                    self.cs.gates@,
                    regions@.take(i as int),
                ),
            decreases regions.len() - i,
        {
            proof {
                let next = regions@.take(i + 1);
                assert(next.drop_last() =~= regions@.take(i as int));
                assert(next.last() == regions@[i as int]);
            }
            assert_gate_rows(
                &self.cs.gates,
                printer,
                i,
                regions[i].row_count,
                &regions[i].enabled_selectors,
            );
            i += 1;
        }
        assert(regions@.take(regions.len() as int) =~= regions@);
        let ghost mid = printer@;
        let mut j: usize = if self.cs.lookups.len() > 0 {
            0
        } else {
            regions.len()
        };
        while j < regions.len()
            invariant
                j <= regions.len(),
                has_inputs(self.cs.lookups@) ==> rows_in_range(regions@),
                tables_needed == (self.cs.lookups@.len() > 0 && has_rows(regions@)),
                tables_needed ==> tables_read(tables@, self.cs.lookups@, fixed@),
                printer.depth == old(printer).depth,
                printer@ == lookup_regions_asserted(
                    mid,
                    self.cs.lookups@,
                    fixed@,
                    regions@.take(j as int),
                ),
            decreases regions.len() - j,
        {
            proof {
                let next = regions@.take(j + 1);
                assert(next.drop_last() =~= regions@.take(j as int));
                assert(next.last() == regions@[j as int]);
                assert(regions@[j as int].row_count > 0 ==> has_rows(regions@));
            }
            assert_lookup_rows(
                &self.cs.lookups,
                &tables,
                fixed,
                printer,
                j,
                regions[j].row_count,
                &regions[j].enabled_selectors,
            );
            j += 1;
        }
        assert(regions@.take(regions.len() as int) =~= regions@);
        Ok(())
    }
}

} // verus!
