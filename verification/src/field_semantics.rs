//! What the terms of the script mean over a prime field, and that the term
//! of an expression has the value of the expression.

use vstd::prelude::*;
use crate::encoder::{cell_name, input_terms, row_equalities, term_kind, term_text};
use crate::underconstrained::difference_text;
use crate::model::Expression;
use crate::smt::{is_atomic, literal_text};
use crate::text::decimal;

verus! {

/// A term of the script as a tree.
pub enum Term {
    /// A field literal.
    Literal(nat),
    /// The name of a cell.
    Name(Seq<char>),
    /// The empty place that an instance query leaves.
    Hole,
    Neg(Box<Term>),
    Add(Box<Term>, Box<Term>),
    Mul(Box<Term>, Box<Term>),
}

/// The tree of the term of `e`.
pub open spec fn term_tree(e: Expression, region: nat, row: int, enabled: Seq<Seq<char>>) -> Term
    decreases e,
{
    match e {
        Expression::Constant(v) => Term::Literal(v as nat),
        Expression::Selector(s) => if enabled.contains(cell_name("S-"@, region, s as nat, row)) {
            Term::Literal(1)
        } else {
            Term::Literal(0)
        },
        Expression::Fixed { column, rotation } => Term::Name(
            cell_name("F-"@, region, column as nat, rotation + row),
        ),
        Expression::Advice { column, rotation } => Term::Name(
            cell_name("A-"@, region, column as nat, rotation + row),
        ),
        Expression::Instance { .. } => Term::Hole,
        Expression::Negated(a) => Term::Neg(Box::new(term_tree(*a, region, row, enabled))),
        Expression::Sum(a, b) => Term::Add(
            Box::new(term_tree(*a, region, row, enabled)),
            Box::new(term_tree(*b, region, row, enabled)),
        ),
        Expression::Product(a, b) => Term::Mul(
            Box::new(term_tree(*a, region, row, enabled)),
            Box::new(term_tree(*b, region, row, enabled)),
        ),
        Expression::Scaled(a, c) => Term::Mul(
            Box::new(Term::Literal(c as nat)),
            Box::new(term_tree(*a, region, row, enabled)),
        ),
    }
}

/// A term that is written as one token or literal.
pub open spec fn is_leaf(t: Term) -> bool {
    t is Literal || t is Name || t is Hole
}

/// The text of a term, without outer parentheses.
pub open spec fn rendered(t: Term) -> Seq<char>
    decreases t, 0nat,
{
    match t {
        Term::Literal(n) => literal_text(decimal(n)),
        Term::Name(name) => name,
        Term::Hole => Seq::empty(),
        Term::Neg(a) => "ff.neg "@ + as_operand(*a),
        Term::Add(a, b) => "ff."@ + "add"@ + " "@ + as_operand(*a) + " "@ + as_operand(*b),
        Term::Mul(a, b) => "ff."@ + "mul"@ + " "@ + as_operand(*a) + " "@ + as_operand(*b),
    }
}

/// The text of a term as an operand: in parentheses unless a leaf.
pub open spec fn as_operand(t: Term) -> Seq<char>
    decreases t, 1nat,
{
    if is_leaf(t) {
        rendered(t)
    } else {
        "("@ + rendered(t) + ")"@
    }
}

/// The value of a term in the field of order `p`, where `cells` gives the
/// value of each named cell. The hole has the value zero.
pub open spec fn term_value(t: Term, cells: Map<Seq<char>, nat>, p: nat) -> nat
    decreases t,
{
    match t {
        Term::Literal(n) => n % p,
        Term::Name(name) => cells[name] % p,
        Term::Hole => 0,
        Term::Neg(a) => ((p - term_value(*a, cells, p)) % (p as int)) as nat,
        Term::Add(a, b) => (term_value(*a, cells, p) + term_value(*b, cells, p)) % p,
        Term::Mul(a, b) => (term_value(*a, cells, p) * term_value(*b, cells, p)) % p,
    }
}

/// The values of the cells of one region, by kind, column and row, and the
/// selectors that are on at each row.
pub struct RegionValues {
    pub advice: spec_fn(nat, int) -> nat,
    pub fixed: spec_fn(nat, int) -> nat,
    pub selector_on: spec_fn(nat, int) -> bool,
}

/// The value of `e` at `row` in the field of order `p`: a selector is one
/// where it is on and zero where it is off, a query reads the cell at its
/// rotation from the row, and a scaling multiplies by its constant. An
/// instance query has the value zero here; it is not part of any gate's
/// encoding.
pub open spec fn expression_value(e: Expression, row: int, values: RegionValues, p: nat) -> nat
    decreases e,
{
    match e {
        Expression::Constant(v) => (v as nat) % p,
        Expression::Selector(s) => if (values.selector_on)(s as nat, row) {
            1nat % p
        } else {
            0
        },
        Expression::Fixed { column, rotation } => (values.fixed)(column as nat, rotation + row)
            % p,
        Expression::Advice { column, rotation } => (values.advice)(column as nat, rotation + row)
            % p,
        Expression::Instance { .. } => 0,
        Expression::Negated(a) => ((p - expression_value(*a, row, values, p)) % (p as int)) as nat,
        Expression::Sum(a, b) => (expression_value(*a, row, values, p) + expression_value(
            *b,
            row,
            values,
            p,
        )) % p,
        Expression::Product(a, b) => (expression_value(*a, row, values, p) * expression_value(
            *b,
            row,
            values,
            p,
        )) % p,
        Expression::Scaled(a, c) => (expression_value(*a, row, values, p) * ((c as nat) % p)) % p,
    }
}

/// The values that the named cells of region `region` have under `cells`,
/// with the selectors on whose cells are named in `enabled`.
pub open spec fn region_values(
    cells: Map<Seq<char>, nat>,
    region: nat,
    enabled: Seq<Seq<char>>,
) -> RegionValues {
    RegionValues {
        advice: |column: nat, row: int| cells[cell_name("A-"@, region, column, row)],
        fixed: |column: nat, row: int| cells[cell_name("F-"@, region, column, row)],
        selector_on: |selector: nat, row: int|
            enabled.contains(cell_name("S-"@, region, selector, row)),
    }
}

/// The text of an expression's term is the text of its term tree, and the
/// term counts as atomic exactly where the tree is a
/// leaf.
pub proof fn lemma_term_text_rendered(
    e: Expression,
    region: nat,
    row: int,
    enabled: Seq<Seq<char>>,
)
    ensures
        term_text(e, region, row, enabled) == rendered(term_tree(e, region, row, enabled)),
        is_atomic(term_kind(e)) == is_leaf(term_tree(e, region, row, enabled)),
    decreases e,
{
    match e {
        Expression::Selector(s) => {
            reveal_strlit("1");
            reveal_strlit("0");
            assert(decimal(1) =~= "1"@);
            assert(decimal(0) =~= "0"@);
        },
        Expression::Negated(a) => {
            lemma_term_text_rendered(*a, region, row, enabled);
        },
        Expression::Sum(a, b) => {
            lemma_term_text_rendered(*a, region, row, enabled);
            lemma_term_text_rendered(*b, region, row, enabled);
        },
        Expression::Product(a, b) => {
            lemma_term_text_rendered(*a, region, row, enabled);
            lemma_term_text_rendered(*b, region, row, enabled);
        },
        Expression::Scaled(a, c) => {
            lemma_term_text_rendered(*a, region, row, enabled);
            assert(as_operand(Term::Literal(c as nat)) == literal_text(decimal(c as nat)));
        },
        _ => {},
    }
}

/// The term of an expression has the value of the expression: under any
/// values of the named cells, in a field of any order, the term that `e` is
/// encoded as at `row` of `region` evaluates to what `e` evaluates to
/// there.
pub proof fn lemma_term_value(
    e: Expression,
    region: nat,
    row: int,
    enabled: Seq<Seq<char>>,
    cells: Map<Seq<char>, nat>,
    p: nat,
)
    requires
        p > 0,
    ensures
        term_value(term_tree(e, region, row, enabled), cells, p) == expression_value(
            e,
            row,
            region_values(cells, region, enabled),
            p,
        ),
    decreases e,
{
    let values = region_values(cells, region, enabled);
    match e {
        Expression::Selector(s) => {
            assert(0nat % p == 0) by (nonlinear_arith)
                requires
                    p > 0,
            ;
            assert((values.selector_on)(s as nat, row) == enabled.contains(
                cell_name("S-"@, region, s as nat, row),
            ));
        },
        Expression::Negated(a) => {
            lemma_term_value(*a, region, row, enabled, cells, p);
        },
        Expression::Sum(a, b) => {
            lemma_term_value(*a, region, row, enabled, cells, p);
            lemma_term_value(*b, region, row, enabled, cells, p);
        },
        Expression::Product(a, b) => {
            lemma_term_value(*a, region, row, enabled, cells, p);
            lemma_term_value(*b, region, row, enabled, cells, p);
        },
        Expression::Scaled(a, c) => {
            lemma_term_value(*a, region, row, enabled, cells, p);
            let inner = expression_value(*a, row, values, p);
            let scale = (c as nat) % p;
            assert(term_value(Term::Literal(c as nat), cells, p) == scale);
            assert(scale * inner == inner * scale) by (nonlinear_arith);
        },
        _ => {},
    }
}

/// What a gate's assertion says: the term of a polynomial is zero exactly
/// where the polynomial is zero.
pub proof fn lemma_gate_assertion_meaning(
    e: Expression,
    region: nat,
    row: int,
    enabled: Seq<Seq<char>>,
    cells: Map<Seq<char>, nat>,
    p: nat,
)
    requires
        p > 0,
    ensures
        term_value(term_tree(e, region, row, enabled), cells, p) == term_value(
            Term::Literal(0),
            cells,
            p,
        ) <==> expression_value(e, row, region_values(cells, region, enabled), p) == 0,
{
    lemma_term_value(e, region, row, enabled, cells, p);
    assert(0nat % p == 0) by (nonlinear_arith)
        requires
            p > 0,
    ;
}

/// The tree of the term that is zero exactly where two named cells are
/// equal.
pub open spec fn difference_tree(left: Seq<char>, right: Seq<char>) -> Term {
    Term::Add(Box::new(Term::Name(left)), Box::new(Term::Neg(Box::new(Term::Name(right)))))
}

/// The text of a copy constraint's term is the text of the difference of
/// the two cells.
pub proof fn lemma_difference_rendered(left: Seq<char>, right: Seq<char>)
    ensures
        difference_text(left, right) == rendered(difference_tree(left, right)),
{
    reveal_with_fuel(rendered, 3);
    reveal_with_fuel(as_operand, 3);
    let negated = Term::Neg(Box::new(Term::Name(right)));
    assert(as_operand(Term::Name(right)) == right);
    assert(rendered(negated) == "ff.neg "@ + right);
    assert(as_operand(negated) =~= "(ff.neg "@ + right + ")"@) by {
        reveal_strlit("(");
        reveal_strlit("ff.neg ");
        reveal_strlit("(ff.neg ");
    }
    assert(as_operand(Term::Name(left)) == left);
}

/// What a copy constraint says: the difference of two cells is zero exactly
/// where the cells hold the same field value.
pub proof fn lemma_copy_constraint_meaning(
    left: Seq<char>,
    right: Seq<char>,
    cells: Map<Seq<char>, nat>,
    p: nat,
)
    requires
        p > 0,
    ensures
        term_value(difference_tree(left, right), cells, p) == 0 <==> cells[left] % p
            == cells[right] % p,
{
    reveal_with_fuel(term_value, 4);
    let a = cells[left] % p;
    let b = cells[right] % p;
    let negated = ((p - b) % (p as int)) as nat;
    assert(term_value(Term::Name(left), cells, p) == a);
    assert(term_value(Term::Name(right), cells, p) == b);
    assert(term_value(Term::Neg(Box::new(Term::Name(right))), cells, p) == negated);
    assert(term_value(difference_tree(left, right), cells, p) == (a + negated) % p);
    assert(0 <= a < p && 0 <= b < p) by (nonlinear_arith)
        requires
            p > 0,
            a == cells[left] % p,
            b == cells[right] % p,
    ;
    if b == 0 {
        assert(negated == 0) by (nonlinear_arith)
            requires
                p > 0,
                b == 0,
                negated == ((p - b) % (p as int)) as nat,
        ;
        assert((a + negated) % p == a) by (nonlinear_arith)
            requires
                negated == 0,
                0 <= a < p,
        ;
    } else {
        assert(negated == p - b) by (nonlinear_arith)
            requires
                0 < b < p,
                negated == ((p - b) % (p as int)) as nat,
        ;
        if a == b {
            assert((a + negated) % p == 0) by (nonlinear_arith)
                requires
                    a + negated == p,
                    p > 0,
            ;
        } else if a < b {
            assert((a + negated) % p == a + negated) by (nonlinear_arith)
                requires
                    0 <= a + negated < p,
            ;
        } else {
            assert((a + negated) % p == a + negated - p) by (nonlinear_arith)
                requires
                    p <= a + negated < 2 * p,
                    p > 0,
            ;
        }
    }
}

/// The values of one table row are matched: each input term has the field
/// value of the row's value in its place.
pub open spec fn row_matched(
    inputs: Seq<Term>,
    values: Seq<u128>,
    cells: Map<Seq<char>, nat>,
    p: nat,
) -> bool {
    forall|k: int|
        0 <= k < values.len() ==> term_value(#[trigger] inputs[k], cells, p) == (values[k] as nat)
            % p
}

/// A lookup holds: the input terms match some row of the table.
pub open spec fn lookup_holds(
    inputs: Seq<Term>,
    rows: Seq<Seq<u128>>,
    cells: Map<Seq<char>, nat>,
    p: nat,
) -> bool {
    exists|r: int| 0 <= r < rows.len() && row_matched(inputs, #[trigger] rows[r], cells, p)
}

/// The trees of the input terms of a lookup.
pub open spec fn input_trees(
    inputs: Seq<Expression>,
    region: nat,
    row: int,
    enabled: Seq<Seq<char>>,
) -> Seq<Term> {
    Seq::new(inputs.len(), |k: int| term_tree(inputs[k], region, row, enabled))
}

/// The input expressions have, one by one, the field values of a table
/// row.
pub open spec fn row_equalled(
    inputs: Seq<Expression>,
    values: Seq<u128>,
    row: int,
    at: RegionValues,
    p: nat,
) -> bool {
    forall|k: int|
        0 <= k < values.len() ==> expression_value(#[trigger] inputs[k], row, at, p) == (
        values[k] as nat) % p
}

/// The input expressions have the field values of some row of the table.
pub open spec fn some_row_equalled(
    inputs: Seq<Expression>,
    rows: Seq<Seq<u128>>,
    row: int,
    at: RegionValues,
    p: nat,
) -> bool {
    exists|r: int| 0 <= r < rows.len() && row_equalled(inputs, #[trigger] rows[r], row, at, p)
}

/// What a lookup's assertion says: the input terms match a row of the table
/// exactly where the input expressions have the values of that row. So the
/// lookup holds exactly where the tuple of input values is a row of the
/// table.
pub proof fn lemma_lookup_meaning(
    inputs: Seq<Expression>,
    rows: Seq<Seq<u128>>,
    region: nat,
    row: int,
    enabled: Seq<Seq<char>>,
    cells: Map<Seq<char>, nat>,
    p: nat,
)
    requires
        p > 0,
        forall|r: int| 0 <= r < rows.len() ==> (#[trigger] rows[r]).len() <= inputs.len(),
    ensures
        lookup_holds(input_trees(inputs, region, row, enabled), rows, cells, p)
            <==> some_row_equalled(inputs, rows, row, region_values(cells, region, enabled), p),
{
    let trees = input_trees(inputs, region, row, enabled);
    let at = region_values(cells, region, enabled);
    assert forall|r: int| 0 <= r < rows.len() implies (row_matched(
        trees,
        #[trigger] rows[r],
        cells,
        p,
    ) <==> row_equalled(inputs, rows[r], row, at, p)) by {
        assert forall|k: int| 0 <= k < rows[r].len() implies term_value(
            #[trigger] trees[k],
            cells,
            p,
        ) == expression_value(inputs[k], row, at, p) by {
            lemma_term_value(inputs[k], region, row, enabled, cells, p);
        }
        if row_matched(trees, rows[r], cells, p) {
            assert forall|k: int| 0 <= k < rows[r].len() implies expression_value(
                #[trigger] inputs[k],
                row,
                at,
                p,
            ) == (rows[r][k] as nat) % p by {
                assert(term_value(trees[k], cells, p) == (rows[r][k] as nat) % p);
            }
        }
        if row_equalled(inputs, rows[r], row, at, p) {
            assert forall|k: int| 0 <= k < rows[r].len() implies term_value(
                #[trigger] trees[k],
                cells,
                p,
            ) == (rows[r][k] as nat) % p by {
                assert(expression_value(inputs[k], row, at, p) == (rows[r][k] as nat) % p);
            }
        }
    }
    if lookup_holds(trees, rows, cells, p) {
        let r = choose|r: int| 0 <= r < rows.len() && row_matched(trees, #[trigger] rows[r], cells, p);
        assert(row_equalled(inputs, rows[r], row, at, p));
    }
    if some_row_equalled(inputs, rows, row, at, p) {
        let r = choose|r: int|
            0 <= r < rows.len() && row_equalled(inputs, #[trigger] rows[r], row, at, p);
        assert(row_matched(trees, rows[r], cells, p));
    }
}

/// The formula that a term, set in parentheses, has the field value
/// `value`.
pub open spec fn equality_rendered(t: Term, value: nat) -> Seq<char> {
    "( = "@ + ("("@ + rendered(t) + ")"@) + " "@ + literal_text(decimal(value)) + ")"@
}

/// The equalities of a table row, as the lookup's assertion writes them,
/// are the formulas that each input term has the row's value in its place.
pub proof fn lemma_row_equalities_rendered(
    inputs: Seq<Expression>,
    values: Seq<u128>,
    region: nat,
    row: int,
    enabled: Seq<Seq<char>>,
)
    requires
        values.len() <= inputs.len(),
    ensures
        row_equalities(values, input_terms(inputs, region, row, enabled)).len() == values.len(),
        forall|k: int|
            0 <= k < values.len() ==> #[trigger] row_equalities(
                values,
                input_terms(inputs, region, row, enabled),
            )[k] == equality_rendered(
                input_trees(inputs, region, row, enabled)[k],
                values[k] as nat,
            ),
{
    assert forall|k: int| 0 <= k < values.len() implies #[trigger] row_equalities(
        values,
        input_terms(inputs, region, row, enabled),
    )[k] == equality_rendered(
        input_trees(inputs, region, row, enabled)[k],
        values[k] as nat,
    ) by {
        lemma_term_text_rendered(inputs[k], region, row, enabled);
    }
}

} // verus!
