//! The script only grows: whatever is encoded or asserted is appended to
//! the text, new variables are appended to the declared ones, and the
//! encoding opens and closes no scope.

use vstd::prelude::*;
use crate::analyzer_io_type::InstanceValue;
use crate::encoder::{
    advice_declared, cell_name, constraints_encoded, gate_regions_asserted, gate_rows_asserted,
    gates_asserted, inputs_declared, lookup_asserted, lookup_regions_asserted,
    lookup_rows_asserted, lookups_asserted, poly_asserted, polys_asserted,
};
use crate::model::{CellEquality, CellValue, ConstraintSystem, Expression, Gate, Lookup, Region};
use crate::smt::{declared, emitted, header_text, names, PrinterView};
use crate::underconstrained::{
    advice_tables_asserted, circuit_encoded, copy_tables_asserted, equality_asserted,
    table_asserted,
};
use crate::uniqueness::pinned;

verus! {

/// The printer `after` holds what `before` holds, and what it holds more
/// comes after: the text and the declared variables of `before` begin those
/// of `after`, and as many scopes are open.
pub open spec fn extends(before: PrinterView, after: PrinterView) -> bool {
    &&& before.text.is_prefix_of(after.text)
    &&& before.vars.is_prefix_of(after.vars)
    &&& before.depth == after.depth
}

/// Growing is transitive.
pub proof fn lemma_extends_transitive(a: PrinterView, b: PrinterView, c: PrinterView)
    requires
        extends(a, b),
        extends(b, c),
    ensures
        extends(a, c),
{
    assert(a.text =~= c.text.subrange(0, a.text.len() as int)) by {
        assert(a.text =~= b.text.subrange(0, a.text.len() as int));
        assert(b.text =~= c.text.subrange(0, b.text.len() as int));
    }
    assert(a.vars =~= c.vars.subrange(0, a.vars.len() as int)) by {
        assert(a.vars =~= b.vars.subrange(0, a.vars.len() as int));
        assert(b.vars =~= c.vars.subrange(0, b.vars.len() as int));
    }
}

/// Writing text and declaring a variable only append.
pub proof fn lemma_steps_extend(p: PrinterView, text: Seq<char>, name: Seq<char>)
    ensures
        extends(p, p),
        extends(p, emitted(p, text)),
        extends(p, declared(p, name)),
{
    assert(p.text =~= p.text.subrange(0, p.text.len() as int));
    assert(p.vars =~= p.vars.subrange(0, p.vars.len() as int));
    assert(p.text =~= (p.text + text).subrange(0, p.text.len() as int));
    assert(p.text =~= declared(p, name).text.subrange(0, p.text.len() as int));
    assert(p.vars =~= declared(p, name).vars.subrange(0, p.vars.len() as int));
}

/// Declaring the advice cells of an expression only appends.
pub proof fn lemma_advice_declared_extends(p: PrinterView, e: Expression, region: nat, row: int)
    ensures
        extends(p, advice_declared(p, e, region, row)),
    decreases e,
{
    lemma_steps_extend(p, Seq::empty(), Seq::empty());
    match e {
        Expression::Advice { column, rotation } => {
            lemma_steps_extend(
                p,
                Seq::empty(),
                cell_name("A-"@, region, column as nat, rotation + row),
            );
        },
        Expression::Negated(a) => {
            lemma_advice_declared_extends(p, *a, region, row);
        },
        Expression::Sum(a, b) => {
            let mid = advice_declared(p, *a, region, row);
            lemma_advice_declared_extends(p, *a, region, row);
            lemma_advice_declared_extends(mid, *b, region, row);
            lemma_extends_transitive(p, mid, advice_declared(mid, *b, region, row));
        },
        Expression::Product(a, b) => {
            let mid = advice_declared(p, *a, region, row);
            lemma_advice_declared_extends(p, *a, region, row);
            lemma_advice_declared_extends(mid, *b, region, row);
            lemma_extends_transitive(p, mid, advice_declared(mid, *b, region, row));
        },
        Expression::Scaled(a, _) => {
            lemma_advice_declared_extends(p, *a, region, row);
        },
        _ => {},
    }
}

/// Asserting the polynomials of the gates at one row only appends.
pub proof fn lemma_gates_asserted_extends(
    p: PrinterView,
    gates: Seq<Gate>,
    region: nat,
    row: int,
    enabled: Seq<Seq<char>>,
)
    ensures
        extends(p, gates_asserted(p, gates, region, row, enabled)),
    decreases gates.len(),
{
    lemma_steps_extend(p, Seq::empty(), Seq::empty());
    if gates.len() > 0 {
        let mid = gates_asserted(p, gates.drop_last(), region, row, enabled);
        lemma_gates_asserted_extends(p, gates.drop_last(), region, row, enabled);
        lemma_polys_asserted_extends(mid, gates.last().polys@, region, row, enabled);
        lemma_extends_transitive(
            p,
            mid,
            polys_asserted(mid, gates.last().polys@, region, row, enabled),
        );
    }
}

/// Asserting polynomials to be zero only appends.
pub proof fn lemma_polys_asserted_extends(
    p: PrinterView,
    polys: Seq<Expression>,
    region: nat,
    row: int,
    enabled: Seq<Seq<char>>,
)
    ensures
        extends(p, polys_asserted(p, polys, region, row, enabled)),
    decreases polys.len(),
{
    lemma_steps_extend(p, Seq::empty(), Seq::empty());
    if polys.len() > 0 {
        let mid = polys_asserted(p, polys.drop_last(), region, row, enabled);
        lemma_polys_asserted_extends(p, polys.drop_last(), region, row, enabled);
        let named = advice_declared(mid, polys.last(), region, row);
        lemma_advice_declared_extends(mid, polys.last(), region, row);
        let after = poly_asserted(mid, polys.last(), region, row, enabled);
        assert(extends(named, after)) by {
            assert(named.text =~= after.text.subrange(0, named.text.len() as int));
            assert(named.vars =~= after.vars.subrange(0, named.vars.len() as int));
        }
        lemma_extends_transitive(mid, named, after);
        lemma_extends_transitive(p, mid, after);
    }
}

/// Asserting the gates row by row only appends.
pub proof fn lemma_gate_rows_asserted_extends(
    p: PrinterView,
    gates: Seq<Gate>,
    region: nat,
    enabled: Seq<Seq<char>>,
    rows: nat,
)
    ensures
        extends(p, gate_rows_asserted(p, gates, region, enabled, rows)),
    decreases rows,
{
    lemma_steps_extend(p, Seq::empty(), Seq::empty());
    if rows > 0 {
        let mid = gate_rows_asserted(p, gates, region, enabled, (rows - 1) as nat);
        lemma_gate_rows_asserted_extends(p, gates, region, enabled, (rows - 1) as nat);
        lemma_gates_asserted_extends(mid, gates, region, rows - 1, enabled);
        lemma_extends_transitive(p, mid, gates_asserted(mid, gates, region, rows - 1, enabled));
    }
}

/// Asserting the gates region by region only appends.
pub proof fn lemma_gate_regions_asserted_extends(
    p: PrinterView,
    gates: Seq<Gate>,
    regions: Seq<Region>,
)
    ensures
        extends(p, gate_regions_asserted(p, gates, regions)),
    decreases regions.len(),
{
    lemma_steps_extend(p, Seq::empty(), Seq::empty());
    if regions.len() > 0 {
        let mid = gate_regions_asserted(p, gates, regions.drop_last());
        lemma_gate_regions_asserted_extends(p, gates, regions.drop_last());
        let enabled = names(regions.last().enabled_selectors@);
        let region = (regions.len() - 1) as nat;
        let rows = regions.last().row_count as nat;
        lemma_gate_rows_asserted_extends(mid, gates, region, enabled, rows);
        lemma_extends_transitive(p, mid, gate_rows_asserted(mid, gates, region, enabled, rows));
    }
}

/// Declaring the advice cells of the inputs of a lookup only appends.
pub proof fn lemma_inputs_declared_extends(
    p: PrinterView,
    inputs: Seq<Expression>,
    region: nat,
    row: int,
)
    ensures
        extends(p, inputs_declared(p, inputs, region, row)),
    decreases inputs.len(),
{
    lemma_steps_extend(p, Seq::empty(), Seq::empty());
    if inputs.len() > 0 {
        let mid = inputs_declared(p, inputs.drop_last(), region, row);
        lemma_inputs_declared_extends(p, inputs.drop_last(), region, row);
        lemma_advice_declared_extends(mid, inputs.last(), region, row);
        lemma_extends_transitive(p, mid, advice_declared(mid, inputs.last(), region, row));
    }
}

/// Asserting the lookups at one row only appends.
pub proof fn lemma_lookups_asserted_extends(
    p: PrinterView,
    lookups: Seq<Lookup>,
    fixed: Seq<Vec<CellValue>>,
    region: nat,
    row: int,
    enabled: Seq<Seq<char>>,
)
    ensures
        extends(p, lookups_asserted(p, lookups, fixed, region, row, enabled)),
    decreases lookups.len(),
{
    lemma_steps_extend(p, Seq::empty(), Seq::empty());
    if lookups.len() > 0 {
        let mid = lookups_asserted(p, lookups.drop_last(), fixed, region, row, enabled);
        lemma_lookups_asserted_extends(p, lookups.drop_last(), fixed, region, row, enabled);
        let named = inputs_declared(mid, lookups.last().input_expressions@, region, row);
        lemma_inputs_declared_extends(mid, lookups.last().input_expressions@, region, row);
        let after = lookup_asserted(mid, lookups.last(), fixed, region, row, enabled);
        assert(extends(named, after)) by {
            assert(named.text =~= after.text.subrange(0, named.text.len() as int));
            assert(named.vars =~= after.vars.subrange(0, named.vars.len() as int));
        }
        lemma_extends_transitive(mid, named, after);
        lemma_extends_transitive(p, mid, after);
    }
}

/// Asserting the lookups row by row only appends.
pub proof fn lemma_lookup_rows_asserted_extends(
    p: PrinterView,
    lookups: Seq<Lookup>,
    fixed: Seq<Vec<CellValue>>,
    region: nat,
    enabled: Seq<Seq<char>>,
    rows: nat,
)
    ensures
        extends(p, lookup_rows_asserted(p, lookups, fixed, region, enabled, rows)),
    decreases rows,
{
    lemma_steps_extend(p, Seq::empty(), Seq::empty());
    if rows > 0 {
        let mid = lookup_rows_asserted(p, lookups, fixed, region, enabled, (rows - 1) as nat);
        lemma_lookup_rows_asserted_extends(p, lookups, fixed, region, enabled, (rows - 1) as nat);
        lemma_lookups_asserted_extends(mid, lookups, fixed, region, rows - 1, enabled);
        lemma_extends_transitive(
            p,
            mid,
            lookups_asserted(mid, lookups, fixed, region, rows - 1, enabled),
        );
    }
}

/// Asserting the lookups region by region only appends.
pub proof fn lemma_lookup_regions_asserted_extends(
    p: PrinterView,
    lookups: Seq<Lookup>,
    fixed: Seq<Vec<CellValue>>,
    regions: Seq<Region>,
)
    ensures
        extends(p, lookup_regions_asserted(p, lookups, fixed, regions)),
    decreases regions.len(),
{
    lemma_steps_extend(p, Seq::empty(), Seq::empty());
    if regions.len() > 0 {
        let mid = lookup_regions_asserted(p, lookups, fixed, regions.drop_last());
        lemma_lookup_regions_asserted_extends(p, lookups, fixed, regions.drop_last());
        let enabled = names(regions.last().enabled_selectors@);
        let region = (regions.len() - 1) as nat;
        let rows = regions.last().row_count as nat;
        lemma_lookup_rows_asserted_extends(mid, lookups, fixed, region, enabled, rows);
        lemma_extends_transitive(
            p,
            mid,
            lookup_rows_asserted(mid, lookups, fixed, region, enabled, rows),
        );
    }
}

/// Encoding the constraints only appends to the script.
pub proof fn lemma_constraints_encoded_extends(
    p: PrinterView,
    cs: ConstraintSystem,
    regions: Seq<Region>,
    fixed: Seq<Vec<CellValue>>,
)
    ensures
        extends(p, constraints_encoded(p, cs, regions, fixed)),
{
    let mid = gate_regions_asserted(p, cs.gates@, regions);
    lemma_gate_regions_asserted_extends(p, cs.gates@, regions);
    lemma_lookup_regions_asserted_extends(mid, cs.lookups@, fixed, regions);
    lemma_extends_transitive(p, mid, constraints_encoded(p, cs, regions, fixed));
}

/// Asserting the equalities of a table only appends.
pub proof fn lemma_table_asserted_extends(p: PrinterView, table: Seq<CellEquality>)
    ensures
        extends(p, table_asserted(p, table)),
    decreases table.len(),
{
    lemma_steps_extend(p, Seq::empty(), Seq::empty());
    if table.len() > 0 {
        let mid = table_asserted(p, table.drop_last());
        lemma_table_asserted_extends(p, table.drop_last());
        let left = table.last().left@;
        let right = table.last().right@;
        let one = declared(mid, left);
        let two = declared(one, right);
        let after = equality_asserted(mid, left, right);
        lemma_steps_extend(mid, Seq::empty(), left);
        lemma_steps_extend(one, Seq::empty(), right);
        assert(extends(two, after)) by {
            assert(two.text =~= after.text.subrange(0, two.text.len() as int));
            assert(two.vars =~= after.vars.subrange(0, two.vars.len() as int));
        }
        lemma_extends_transitive(mid, one, two);
        lemma_extends_transitive(mid, two, after);
        lemma_extends_transitive(p, mid, after);
    }
}

/// Asserting the equality tables of the regions only appends.
pub proof fn lemma_tables_asserted_extend(p: PrinterView, regions: Seq<Region>)
    ensures
        extends(p, advice_tables_asserted(p, regions)),
        extends(p, copy_tables_asserted(p, regions)),
    decreases regions.len(),
{
    lemma_steps_extend(p, Seq::empty(), Seq::empty());
    if regions.len() > 0 {
        lemma_tables_asserted_extend(p, regions.drop_last());
        let advice = advice_tables_asserted(p, regions.drop_last());
        lemma_table_asserted_extends(advice, regions.last().advice_eq_table@);
        lemma_extends_transitive(p, advice, advice_tables_asserted(p, regions));
        let copies = copy_tables_asserted(p, regions.drop_last());
        lemma_table_asserted_extends(copies, regions.last().eq_table@);
        lemma_extends_transitive(p, copies, copy_tables_asserted(p, regions));
    }
}

/// Pinning the instance variables only appends.
pub proof fn lemma_pinned_extends(p: PrinterView, instances: Seq<InstanceValue>)
    ensures
        extends(p, pinned(p, instances)),
    decreases instances.len(),
{
    lemma_steps_extend(p, Seq::empty(), Seq::empty());
    if instances.len() > 0 {
        let mid = pinned(p, instances.drop_last());
        lemma_pinned_extends(p, instances.drop_last());
        let named = declared(mid, instances.last().name@);
        let after = pinned(p, instances);
        lemma_steps_extend(mid, Seq::empty(), instances.last().name@);
        assert(extends(named, after)) by {
            assert(named.text =~= after.text.subrange(0, named.text.len() as int));
            assert(named.vars =~= after.vars.subrange(0, named.vars.len() as int));
        }
        lemma_extends_transitive(mid, named, after);
        lemma_extends_transitive(p, mid, after);
    }
}

/// The script of a circuit begins with the header of its field, and no scope
/// is open in it.
pub proof fn lemma_circuit_encoded_begins_with_header(
    cs: ConstraintSystem,
    regions: Seq<Region>,
    fixed: Seq<Vec<CellValue>>,
    prime: Seq<char>,
)
    ensures
        header_text(prime).is_prefix_of(circuit_encoded(cs, regions, fixed, prime).text),
        circuit_encoded(cs, regions, fixed, prime).depth == 0,
{
    let start = PrinterView { text: header_text(prime), vars: Seq::empty(), depth: 0 };
    let encoded = constraints_encoded(start, cs, regions, fixed);
    let advice = advice_tables_asserted(encoded, regions);
    lemma_constraints_encoded_extends(start, cs, regions, fixed);
    lemma_tables_asserted_extend(encoded, regions);
    lemma_tables_asserted_extend(advice, regions);
    lemma_extends_transitive(start, encoded, advice);
    lemma_extends_transitive(start, advice, circuit_encoded(cs, regions, fixed, prime));
}

} // verus!
