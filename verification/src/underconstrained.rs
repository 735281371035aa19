//! Setting up the search for a second witness: the whole script, from the
//! header to the copy constraints.

use vstd::prelude::*;
use crate::analyzer::Analyzer;
use crate::analyzer_io_type::{AnalyzerInput, VerificationMethod};
use crate::encoder::{constraints_encoded, encodable};
use crate::error::AnalyzerError;
use crate::model::{CellEquality, CellValue, ConstraintSystem, Region};
use crate::smt::{
    assert_line, binary_text, declared, emitted, equality_text, header_text, names, write_start,
    write_term, NodeType, Operation, Printer, PrinterView,
};
use crate::uniqueness::{instance_names, pinned, SearchPhase, UniquenessSearch};

verus! {

/// The term that is zero exactly where the cells `left` and `right` are
/// equal: their difference.
pub open spec fn difference_text(left: Seq<char>, right: Seq<char>) -> Seq<char> {
    binary_text(
        "add"@,
        left,
        NodeType::Advice,
        "(ff.neg "@ + right + ")"@,
        NodeType::Advice,
    )
}

/// The printer after one equality is asserted: both cells are declared, then
/// their difference is asserted to be zero.
pub open spec fn equality_asserted(p: PrinterView, left: Seq<char>, right: Seq<char>) -> PrinterView {
    emitted(
        declared(declared(p, left), right),
        assert_line(equality_text(difference_text(left, right), "0"@, NodeType::Poly)),
    )
}

/// The printer after each equality of `table` is asserted, in order.
pub open spec fn table_asserted(p: PrinterView, table: Seq<CellEquality>) -> PrinterView
    decreases table.len(),
{
    if table.len() == 0 {
        p
    } else {
        equality_asserted(
            table_asserted(p, table.drop_last()),
            table.last().left@,
            table.last().right@,
        )
    }
}

/// The printer after the equalities between advice cells of each region are
/// asserted, region by region.
pub open spec fn advice_tables_asserted(p: PrinterView, regions: Seq<Region>) -> PrinterView
    decreases regions.len(),
{
    if regions.len() == 0 {
        p
    } else {
        table_asserted(
            advice_tables_asserted(p, regions.drop_last()),
            regions.last().advice_eq_table@,
        )
    }
}

/// The printer after the copy constraints of each region are asserted,
/// region by region.
pub open spec fn copy_tables_asserted(p: PrinterView, regions: Seq<Region>) -> PrinterView
    decreases regions.len(),
{
    if regions.len() == 0 {
        p
    } else {
        table_asserted(copy_tables_asserted(p, regions.drop_last()), regions.last().eq_table@)
    }
}

/// The script of a circuit over the field of order `prime`: the header, the
/// gates and lookups, the equalities between advice cells, and the copy
/// constraints.
pub open spec fn circuit_encoded(
    cs: ConstraintSystem,
    regions: Seq<Region>,
    fixed: Seq<Vec<CellValue>>,
    prime: Seq<char>,
) -> PrinterView {
    copy_tables_asserted(
        advice_tables_asserted(
            constraints_encoded(
                PrinterView { text: header_text(prime), vars: Seq::empty(), depth: 0 },
                cs,
                regions,
                fixed,
            ),
            regions,
        ),
        regions,
    )
}

fn assert_table(printer: &mut Printer, table: &Vec<CellEquality>)
    ensures
        final(printer).depth == old(printer).depth,
        final(printer)@ == table_asserted(old(printer)@, table@),
{
    let mut i: usize = 0;
    assert(table@.take(0) =~= Seq::<CellEquality>::empty());
    while i < table.len()
        invariant
            i <= table.len(),
            printer.depth == old(printer).depth,
            printer@ == table_asserted(old(printer)@, table@.take(i as int)),
        decreases table.len() - i,
    {
        proof {
            let next = table@.take(i + 1);
            assert(next.drop_last() =~= table@.take(i as int));
            assert(next.last() == table@[i as int]);
        }
        printer.write_var(table[i].left.clone());
        printer.write_var(table[i].right.clone());
        let mut negated = "(ff.neg ".to_owned();
        negated.append(table[i].right.as_str());
        negated.append(")");
        let op = "add".to_owned();
        let term = write_term(&op, &table[i].left, NodeType::Advice, &negated, NodeType::Advice);
        let zero = "0".to_owned();
        printer.write_assert(&term, &zero, NodeType::Poly, Operation::Equal);
        i += 1;
    }
    assert(table@.take(table.len() as int) =~= table@);
}

impl Analyzer {
    /// Encodes the circuit over the field of order `base_field_prime` and
    /// sets up the search for a second witness on the script. The search
    /// waits for the solver's answer on the script as it stands. The
    /// equality tables and the instance variables are taken as they are
    /// listed; on a well-formed analyzer and input no cell stands twice on
    /// the left of a table and no instance variable is named twice.
    pub fn analyze_underconstrained(
        &self,
        analyzer_input: &AnalyzerInput,
        fixed: &Vec<Vec<CellValue>>,
        base_field_prime: &String,
    ) -> (res: Result<UniquenessSearch, AnalyzerError>)
        ensures
            match res {
                Ok(search) => {
                    let script = circuit_encoded(
                        self.cs,
                        self.layouter.regions@,
                        fixed@,
                        base_field_prime@,
                    );
                    &&& encodable(self.cs, self.layouter.regions@, fixed@)
                    &&& search.well_formed()
                    &&& search.phase == SearchPhase::Base
                    &&& search.base_depth == 0
                    &&& names(search.variables@) == script.vars
                    &&& names(search.instances@) == instance_names(
                        analyzer_input.verification_input.instances_string@,
                    )
                    &&& search.method == analyzer_input.verification_method
                    &&& search.max_iterations == match analyzer_input.verification_method {
                        VerificationMethod::Specific => 1u128,
                        VerificationMethod::Random => analyzer_input.verification_input.iterations,
                    }
                    &&& search.printer@ == match analyzer_input.verification_method {
                        VerificationMethod::Specific => pinned(
                            script,
                            analyzer_input.verification_input.instances_string@,
                        ),
                        VerificationMethod::Random => script,
                    }
                },
                Err(e) => e == AnalyzerError::EncodingFailure && !encodable(
                    self.cs,
                    self.layouter.regions@,
                    fixed@,
                ),
            },
    {
        let mut printer = write_start(base_field_prime);
        assert(printer@ == (PrinterView {
            text: header_text(base_field_prime@),
            vars: Seq::empty(),
            depth: 0,
        }));
        match self.decompose_polynomial(&mut printer, fixed) {
            Ok(()) => {},
            Err(e) => {
                return Err(e);
            },
        }
        let regions = &self.layouter.regions;
        let ghost encoded = printer@;
        let mut i: usize = 0;
        assert(regions@.take(0) =~= Seq::<Region>::empty());
        while i < regions.len()
            invariant
                i <= regions.len(),
                printer.depth == 0,
                printer@ == advice_tables_asserted(encoded, regions@.take(i as int)),
            decreases regions.len() - i,
        {
            proof {
                let next = regions@.take(i + 1);
                assert(next.drop_last() =~= regions@.take(i as int));
                assert(next.last() == regions@[i as int]);
            }
            assert_table(&mut printer, &regions[i].advice_eq_table);
            i += 1;
        }
        assert(regions@.take(regions.len() as int) =~= regions@);
        let ghost mid = printer@;
        let mut j: usize = 0;
        while j < regions.len()
            invariant
                j <= regions.len(),
                printer.depth == 0,
                printer@ == copy_tables_asserted(mid, regions@.take(j as int)),
            decreases regions.len() - j,
        {
            proof {
                let next = regions@.take(j + 1);
                assert(next.drop_last() =~= regions@.take(j as int));
                assert(next.last() == regions@[j as int]);
            }
            assert_table(&mut printer, &regions[j].eq_table);
            j += 1;
        }
        assert(regions@.take(regions.len() as int) =~= regions@);
        Ok(
            Analyzer::uniqueness_assertion(
                &analyzer_input.verification_input.instances_string,
                analyzer_input,
                printer,
            ),
        )
    }
}

} // verus!
