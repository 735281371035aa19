//! The analyses that need no solver: gates that are zero in every region,
//! advice columns that no gate mentions, and cells that no live gate
//! polynomial constrains.

use vstd::prelude::*;
use crate::abstract_expr::{
    abstract_value, advice_query, columns_of, contains_query, eval_abstract, extract_columns,
    AbsResult,
};
use crate::analyzer::Analyzer;
use crate::analyzer_io_type::{AnalyzerOutput, AnalyzerOutputStatus};
use crate::model::{
    AdviceQuery, Column, ColumnKind, ColumnQuery, Expression, Gate, Region, RegionCell,
    RegionColumn,
};
use crate::smt::{lemma_names_push, names};
use crate::text::{decimal, decimal_string, signed_decimal, signed_decimal_string};

verus! {

/// A gate is unused where each of its polynomials is zero under the
/// selectors of every region.
pub open spec fn gate_unused(gate: Gate, regions: Seq<Region>) -> bool {
    forall|r: int, p: int|
        0 <= r < regions.len() && 0 <= p < gate.polys@.len() ==> abstract_value(
            #[trigger] gate.polys@[p],
            (#[trigger] regions[r]).selectors@.to_set(),
        ) == AbsResult::Zero
}

/// The finding that reports an unused gate.
pub open spec fn unused_gate_message(name: Seq<char>) -> Seq<char> {
    "unused gate: \""@ + name + "\" (consider removing the"@
        + " gate or checking selectors in regions)"@
}

/// The findings on the unused gates among `gates`, in the order of the gates.
pub open spec fn unused_gate_findings(gates: Seq<Gate>, regions: Seq<Region>) -> Seq<Seq<char>>
    decreases gates.len(),
{
    if gates.len() == 0 {
        Seq::empty()
    } else if gate_unused(gates.last(), regions) {
        unused_gate_findings(gates.drop_last(), regions).push(
            unused_gate_message(gates.last().name@),
        )
    } else {
        unused_gate_findings(gates.drop_last(), regions)
    }
}

fn polys_zero_in(polys: &Vec<Expression>, selectors: &Vec<usize>) -> (res: bool)
    ensures
        res == (forall|p: int|
            0 <= p < polys@.len() ==> abstract_value(#[trigger] polys@[p], selectors@.to_set())
                == AbsResult::Zero),
{
    let mut p: usize = 0;
    while p < polys.len()
        invariant
            p <= polys.len(),
            forall|q: int|
                0 <= q < p ==> abstract_value(#[trigger] polys@[q], selectors@.to_set())
                    == AbsResult::Zero,
        decreases polys.len() - p,
    {
        if eval_abstract(&polys[p], selectors) != AbsResult::Zero {
            return false;
        }
        p += 1;
    }
    true
}

/// Whether each polynomial of `gate` is zero in every region.
pub fn is_gate_unused(gate: &Gate, regions: &Vec<Region>) -> (res: bool)
    ensures
        res == gate_unused(*gate, regions@),
{
    let mut r: usize = 0;
    while r < regions.len()
        invariant
            r <= regions.len(),
            forall|s: int, p: int|
                0 <= s < r && 0 <= p < gate.polys@.len() ==> abstract_value(
                    #[trigger] gate.polys@[p],
                    (#[trigger] regions@[s]).selectors@.to_set(),
                ) == AbsResult::Zero,
        decreases regions.len() - r,
    {
        if !polys_zero_in(&gate.polys, &regions[r].selectors) {
            assert(!gate_unused(*gate, regions@)) by {
                let p = choose|p: int|
                    0 <= p < gate.polys@.len() && abstract_value(
                        #[trigger] gate.polys@[p],
                        regions@[r as int].selectors@.to_set(),
                    ) != AbsResult::Zero;
                assert(abstract_value(gate.polys@[p], regions@[r as int].selectors@.to_set())
                    != AbsResult::Zero);
            }
            return false;
        }
        r += 1;
    }
    true
}

/// Some gate polynomial mentions the query `q`.
pub open spec fn query_mentioned(q: ColumnQuery, gates: Seq<Gate>) -> bool {
    exists|g: int, p: int|
        0 <= g < gates.len() && 0 <= p < gates[g].polys@.len() && columns_of(
            #[trigger] gates[g].polys@[p],
        ).contains(q)
}

/// The name of a column kind.
pub open spec fn kind_text(kind: ColumnKind) -> Seq<char> {
    match kind {
        ColumnKind::Advice => "Advice"@,
        ColumnKind::Fixed => "Fixed"@,
        ColumnKind::Instance => "Instance"@,
    }
}

/// A column as findings show it.
pub open spec fn column_text(column: Column) -> Seq<char> {
    "Column { index: "@ + decimal(column.index as nat) + ", column_type: "@ + kind_text(
        column.kind,
    ) + " }"@
}

/// The finding that reports an unused advice column.
pub open spec fn unused_column_message(column: usize) -> Seq<char> {
    "unused column: "@ + column_text(Column { kind: ColumnKind::Advice, index: column })
}

/// The findings on the advice queries that no gate polynomial mentions, in
/// the order of the queries.
pub open spec fn unused_column_findings(queries: Seq<AdviceQuery>, gates: Seq<Gate>) -> Seq<
    Seq<char>,
>
    decreases queries.len(),
{
    if queries.len() == 0 {
        Seq::empty()
    } else if !query_mentioned(advice_query(queries.last().column, queries.last().rotation), gates) {
        unused_column_findings(queries.drop_last(), gates).push(
            unused_column_message(queries.last().column),
        )
    } else {
        unused_column_findings(queries.drop_last(), gates)
    }
}

fn polys_mention(polys: &Vec<Expression>, q: ColumnQuery) -> (res: bool)
    ensures
        res == (exists|p: int| 0 <= p < polys@.len() && columns_of(#[trigger] polys@[p]).contains(q)),
{
    let mut p: usize = 0;
    while p < polys.len()
        invariant
            p <= polys.len(),
            forall|k: int| 0 <= k < p ==> !columns_of(#[trigger] polys@[k]).contains(q),
        decreases polys.len() - p,
    {
        let columns = extract_columns(&polys[p]);
        if contains_query(&columns, q) {
            assert(columns_of(polys@[p as int]).contains(q));
            return true;
        }
        p += 1;
    }
    false
}

/// Whether some gate polynomial mentions `q`.
pub fn is_query_mentioned(q: ColumnQuery, gates: &Vec<Gate>) -> (res: bool)
    ensures
        res == query_mentioned(q, gates@),
{
    let mut g: usize = 0;
    while g < gates.len()
        invariant
            g <= gates.len(),
            forall|h: int, p: int|
                0 <= h < g && 0 <= p < gates@[h].polys@.len() ==> !columns_of(
                    #[trigger] gates@[h].polys@[p],
                ).contains(q),
        decreases gates.len() - g,
    {
        if polys_mention(&gates[g].polys, q) {
            let ghost p = choose|p: int|
                0 <= p < gates@[g as int].polys@.len() && columns_of(
                    #[trigger] gates@[g as int].polys@[p],
                ).contains(q);
            assert(columns_of(gates@[g as int].polys@[p]).contains(q));
            return true;
        }
        g += 1;
    }
    false
}

/// Writes the name of a column kind.
pub fn write_kind(kind: ColumnKind) -> (res: &'static str)
    ensures
        res@ == kind_text(kind),
{
    match kind {
        ColumnKind::Advice => "Advice",
        ColumnKind::Fixed => "Fixed",
        ColumnKind::Instance => "Instance",
    }
}

/// Writes a column as findings show it.
pub fn write_column(column: Column) -> (res: String)
    ensures
        res@ == column_text(column),
{
    let mut s = "Column { index: ".to_owned();
    let digits = decimal_string(column.index as u128);
    s.append(digits.as_str());
    s.append(", column_type: ");
    s.append(write_kind(column.kind));
    s.append(" }");
    s
}

/// Some gate polynomial that is not zero under `selectors` mentions `q`.
pub open spec fn cell_constrained(q: ColumnQuery, gates: Seq<Gate>, selectors: Set<usize>) -> bool {
    exists|g: int, p: int|
        0 <= g < gates.len() && 0 <= p < gates[g].polys@.len() && abstract_value(
            #[trigger] gates[g].polys@[p],
            selectors,
        ) != AbsResult::Zero && columns_of(gates[g].polys@[p]).contains(q)
}

/// The finding that reports an unconstrained cell.
pub open spec fn unconstrained_cell_message(region: Seq<char>, column: Column, rotation: i32) -> Seq<
    char,
> {
    "unconstrained cell in \""@ + region + "\" region: Column("@ + column_text(column)
        + ") (rotation: Rotation("@ + signed_decimal(rotation as int)
        + ")) -- very likely a bug."@
}

/// Whether a finding is due for `cell` of `region`: it is a concrete column
/// that no live gate polynomial mentions. Selector cells hold no data and are
/// passed over.
pub open spec fn cell_unconstrained(cell: RegionCell, region: Region, gates: Seq<Gate>) -> bool {
    match cell.column {
        RegionColumn::Selector(_) => false,
        RegionColumn::Column(column) => !cell_constrained(
            ColumnQuery { column, rotation: cell.rotation },
            gates,
            region.selectors@.to_set(),
        ),
    }
}

/// The findings on the unconstrained cells among `cells` of `region`, in the
/// order of the cells.
pub open spec fn region_cell_findings(cells: Seq<RegionCell>, region: Region, gates: Seq<Gate>) -> Seq<
    Seq<char>,
>
    decreases cells.len(),
{
    if cells.len() == 0 {
        Seq::empty()
    } else if cell_unconstrained(cells.last(), region, gates) {
        region_cell_findings(cells.drop_last(), region, gates).push(
            unconstrained_cell_message(
                region.name@,
                cells.last().column->Column_0,
                cells.last().rotation,
            ),
        )
    } else {
        region_cell_findings(cells.drop_last(), region, gates)
    }
}

/// The findings on the unconstrained cells of `regions`, region by region.
pub open spec fn unconstrained_cell_findings(regions: Seq<Region>, gates: Seq<Gate>) -> Seq<
    Seq<char>,
>
    decreases regions.len(),
{
    if regions.len() == 0 {
        Seq::empty()
    } else {
        unconstrained_cell_findings(regions.drop_last(), gates) + region_cell_findings(
            regions.last().columns@,
            regions.last(),
            gates,
        )
    }
}

fn polys_constrain(polys: &Vec<Expression>, q: ColumnQuery, selectors: &Vec<usize>) -> (res: bool)
    ensures
        res == (exists|p: int|
            0 <= p < polys@.len() && abstract_value(#[trigger] polys@[p], selectors@.to_set())
                != AbsResult::Zero && columns_of(polys@[p]).contains(q)),
{
    let mut p: usize = 0;
    while p < polys.len()
        invariant
            p <= polys.len(),
            forall|k: int|
                0 <= k < p ==> !(abstract_value(#[trigger] polys@[k], selectors@.to_set())
                    != AbsResult::Zero && columns_of(polys@[k]).contains(q)),
        decreases polys.len() - p,
    {
        let columns = extract_columns(&polys[p]);
        let value = eval_abstract(&polys[p], selectors);
        if value != AbsResult::Zero && contains_query(&columns, q) {
            assert(columns_of(polys@[p as int]).contains(q));
            assert(abstract_value(polys@[p as int], selectors@.to_set()) != AbsResult::Zero);
            return true;
        }
        p += 1;
    }
    false
}

/// Whether some gate polynomial that is not zero under `selectors` mentions
/// `q`.
pub fn is_cell_constrained(q: ColumnQuery, gates: &Vec<Gate>, selectors: &Vec<usize>) -> (res: bool)
    ensures
        res == cell_constrained(q, gates@, selectors@.to_set()),
{
    let mut g: usize = 0;
    while g < gates.len()
        invariant
            g <= gates.len(),
            forall|h: int, p: int|
                0 <= h < g && 0 <= p < gates@[h].polys@.len() ==> !(abstract_value(
                    #[trigger] gates@[h].polys@[p],
                    selectors@.to_set(),
                ) != AbsResult::Zero && columns_of(gates@[h].polys@[p]).contains(q)),
        decreases gates.len() - g,
    {
        if polys_constrain(&gates[g].polys, q, selectors) {
            let ghost p = choose|p: int|
                0 <= p < gates@[g as int].polys@.len() && abstract_value(
                    #[trigger] gates@[g as int].polys@[p],
                    selectors@.to_set(),
                ) != AbsResult::Zero && columns_of(gates@[g as int].polys@[p]).contains(q);
            assert(abstract_value(gates@[g as int].polys@[p], selectors@.to_set())
                != AbsResult::Zero);
            return true;
        }
        g += 1;
    }
    false
}

fn write_cell_message(region: &String, column: Column, rotation: i32) -> (res: String)
    ensures
        res@ == unconstrained_cell_message(region@, column, rotation),
{
    let mut s = "unconstrained cell in \"".to_owned();
    s.append(region.as_str());
    s.append("\" region: Column(");
    let shown = write_column(column);
    s.append(shown.as_str());
    s.append(") (rotation: Rotation(");
    let r = signed_decimal_string(rotation as i64);
    s.append(r.as_str());
    s.append(")) -- very likely a bug.");
    s
}

fn push_region_findings(log: &mut Vec<String>, region: &Region, gates: &Vec<Gate>)
    ensures
        names(final(log)@) == names(old(log)@) + region_cell_findings(
            region.columns@,
            *region,
            gates@,
        ),
{
    let mut i: usize = 0;
    assert(region.columns@.take(0) =~= Seq::<RegionCell>::empty());
    assert(names(log@) =~= names(old(log)@) + Seq::<Seq<char>>::empty());
    while i < region.columns.len()
        invariant
            i <= region.columns.len(),
            names(log@) == names(old(log)@) + region_cell_findings(
                region.columns@.take(i as int),
                *region,
                gates@,
            ),
        decreases region.columns.len() - i,
    {
        proof {
            let next = region.columns@.take(i + 1);
            assert(next.drop_last() =~= region.columns@.take(i as int));
            assert(next.last() == region.columns@[i as int]);
        }
        let cell = region.columns[i];
        match cell.column {
            RegionColumn::Selector(_) => {},
            RegionColumn::Column(column) => {
                let q = ColumnQuery { column, rotation: cell.rotation };
                if !is_cell_constrained(q, gates, &region.selectors) {
                    let message = write_cell_message(&region.name, column, cell.rotation);
                    proof {
                        lemma_names_push(log@, message);
                        assert(names(log@).push(message@) =~= names(old(log)@)
                            + region_cell_findings(
                            region.columns@.take(i + 1),
                            *region,
                            gates@,
                        ));
                    }
                    log.push(message);
                }
            },
        }
        i += 1;
    }
    assert(region.columns@.take(region.columns@.len() as int) =~= region.columns@);
}

/// Every unused gate has its finding among the findings on the gates.
pub proof fn lemma_unused_gate_is_reported(gates: Seq<Gate>, regions: Seq<Region>, g: int)
    requires
        0 <= g < gates.len(),
        gate_unused(gates[g], regions),
    ensures
        unused_gate_findings(gates, regions).contains(unused_gate_message(gates[g].name@)),
    decreases gates.len(),
{
    let findings = unused_gate_findings(gates, regions);
    if g == gates.len() - 1 {
        assert(findings[findings.len() - 1] == unused_gate_message(gates[g].name@));
    } else {
        lemma_unused_gate_is_reported(gates.drop_last(), regions, g);
        let rest = unused_gate_findings(gates.drop_last(), regions);
        let j = choose|j: int| 0 <= j < rest.len() && rest[j] == unused_gate_message(gates[g].name@);
        assert(findings[j] == unused_gate_message(gates[g].name@));
    }
}

/// A gate whose only polynomial is a selector times an advice cell, with the
/// selector enabled in no region, is unused and reported.
pub proof fn lemma_disabled_gate_is_reported(
    gates: Seq<Gate>,
    regions: Seq<Region>,
    g: int,
    s: usize,
    c: usize,
)
    requires
        0 <= g < gates.len(),
        gates[g].polys@ == seq![
            Expression::Product(
                Box::new(Expression::Selector(s)),
                Box::new(Expression::Advice { column: c, rotation: 0 }),
            ),
        ],
        forall|r: int| 0 <= r < regions.len() ==> !(#[trigger] regions[r]).selectors@.contains(s),
    ensures
        gate_unused(gates[g], regions),
        unused_gate_findings(gates, regions).contains(unused_gate_message(gates[g].name@)),
{
    reveal_with_fuel(abstract_value, 2);
    assert(gate_unused(gates[g], regions)) by {
        assert forall|r: int, p: int|
            0 <= r < regions.len() && 0 <= p < gates[g].polys@.len() implies abstract_value(
            #[trigger] gates[g].polys@[p],
            (#[trigger] regions[r]).selectors@.to_set(),
        ) == AbsResult::Zero by {
            assert(!regions[r].selectors@.contains(s));
        }
    }
    lemma_unused_gate_is_reported(gates, regions, g);
}

impl Analyzer {
    /// Appends one finding to the log for each gate that is zero in every
    /// region, in the order of the gates. A region's selectors are taken as it
    /// lists them; on a well-formed analyzer they are declared ones, each
    /// listed once.
    pub fn analyze_unused_custom_gates(&mut self) -> (res: AnalyzerOutput)
        ensures
            final(self).cs == old(self).cs,
            final(self).layouter == old(self).layouter,
            final(self).counter == old(self).counter,
            names(final(self).log@) == names(old(self).log@) + unused_gate_findings(
                old(self).cs.gates@,
                old(self).layouter.regions@,
            ),
            res.output_status == AnalyzerOutputStatus::UnusedCustomGates,
    {
        let mut i: usize = 0;
        assert(self.cs.gates@.take(0) =~= Seq::<Gate>::empty());
        assert(names(self.log@) =~= names(old(self).log@) + Seq::<Seq<char>>::empty());
        while i < self.cs.gates.len()
            invariant
                i <= self.cs.gates.len(),
                self.cs == old(self).cs,
                self.layouter == old(self).layouter,
                self.counter == old(self).counter,
                names(self.log@) == names(old(self).log@) + unused_gate_findings(
                    self.cs.gates@.take(i as int),
                    self.layouter.regions@,
                ),
            decreases self.cs.gates.len() - i,
        {
            proof {
                let next = self.cs.gates@.take(i + 1);
                assert(next.drop_last() =~= self.cs.gates@.take(i as int));
                assert(next.last() == self.cs.gates@[i as int]);
            }
            if is_gate_unused(&self.cs.gates[i], &self.layouter.regions) {
                let mut message = "unused gate: \"".to_owned();
                message.append(self.cs.gates[i].name.as_str());
                message.append("\" (consider removing the");
                message.append(" gate or checking selectors in regions)");
                proof {
                    lemma_names_push(self.log@, message);
                    assert(names(self.log@).push(message@) =~= names(old(self).log@)
                        + unused_gate_findings(
                        self.cs.gates@.take(i + 1),
                        self.layouter.regions@,
                    ));
                }
                self.log.push(message);
            }
            i += 1;
        }
        assert(self.cs.gates@.take(self.cs.gates@.len() as int) =~= self.cs.gates@);
        AnalyzerOutput { output_status: AnalyzerOutputStatus::UnusedCustomGates }
    }
    /// Appends one finding to the log for each advice query that no gate
    /// polynomial mentions, whatever the selectors are, in the order of the
    /// queries, as the constraint system lists them.
    pub fn analyze_unused_columns(&mut self) -> (res: AnalyzerOutput)
        ensures
            final(self).cs == old(self).cs,
            final(self).layouter == old(self).layouter,
            final(self).counter == old(self).counter,
            names(final(self).log@) == names(old(self).log@) + unused_column_findings(
                old(self).cs.advice_queries@,
                old(self).cs.gates@,
            ),
            res.output_status == AnalyzerOutputStatus::UnusedColumns,
    {
        let mut i: usize = 0;
        assert(self.cs.advice_queries@.take(0) =~= Seq::<AdviceQuery>::empty());
        assert(names(self.log@) =~= names(old(self).log@) + Seq::<Seq<char>>::empty());
        while i < self.cs.advice_queries.len()
            invariant
                i <= self.cs.advice_queries.len(),
                self.cs == old(self).cs,
                self.layouter == old(self).layouter,
                self.counter == old(self).counter,
                names(self.log@) == names(old(self).log@) + unused_column_findings(
                    self.cs.advice_queries@.take(i as int),
                    self.cs.gates@,
                ),
            decreases self.cs.advice_queries.len() - i,
        {
            proof {
                let next = self.cs.advice_queries@.take(i + 1);
                assert(next.drop_last() =~= self.cs.advice_queries@.take(i as int));
                assert(next.last() == self.cs.advice_queries@[i as int]);
            }
            let query = self.cs.advice_queries[i];
            let column = Column { kind: ColumnKind::Advice, index: query.column };
            let q = ColumnQuery { column, rotation: query.rotation };
            if !is_query_mentioned(q, &self.cs.gates) {
                let mut message = "unused column: ".to_owned();
                let shown = write_column(column);
                message.append(shown.as_str());
                proof {
                    lemma_names_push(self.log@, message);
                    assert(names(self.log@).push(message@) =~= names(old(self).log@)
                        + unused_column_findings(
                        self.cs.advice_queries@.take(i + 1),
                        self.cs.gates@,
                    ));
                }
                self.log.push(message);
            }
            i += 1;
        }
        assert(self.cs.advice_queries@.take(self.cs.advice_queries@.len() as int)
            =~= self.cs.advice_queries@);
        AnalyzerOutput { output_status: AnalyzerOutputStatus::UnusedColumns }
    }
    /// Appends one finding to the log for each cell of a region, region by
    /// region, that no gate polynomial constrains: none both mentions its
    /// column at its rotation and is other than zero under the region's
    /// selectors. Selector cells are passed over. The cells are taken as the
    /// region lists them; on a well-formed analyzer none is listed twice.
    pub fn analyze_unconstrained_cells(&mut self) -> (res: AnalyzerOutput)
        ensures
            final(self).cs == old(self).cs,
            final(self).layouter == old(self).layouter,
            final(self).counter == old(self).counter,
            names(final(self).log@) == names(old(self).log@) + unconstrained_cell_findings(
                old(self).layouter.regions@,
                old(self).cs.gates@,
            ),
            res.output_status == AnalyzerOutputStatus::UnconstrainedCells,
    {
        let mut i: usize = 0;
        assert(self.layouter.regions@.take(0) =~= Seq::<Region>::empty());
        assert(names(self.log@) =~= names(old(self).log@) + Seq::<Seq<char>>::empty());
        while i < self.layouter.regions.len()
            invariant
                i <= self.layouter.regions.len(),
                self.cs == old(self).cs,
                self.layouter == old(self).layouter,
                self.counter == old(self).counter,
                names(self.log@) == names(old(self).log@) + unconstrained_cell_findings(
                    self.layouter.regions@.take(i as int),
                    self.cs.gates@,
                ),
            decreases self.layouter.regions.len() - i,
        {
            proof {
                let next = self.layouter.regions@.take(i + 1);
                assert(next.drop_last() =~= self.layouter.regions@.take(i as int));
                assert(next.last() == self.layouter.regions@[i as int]);
            }
            let ghost before = names(self.log@);
            push_region_findings(&mut self.log, &self.layouter.regions[i], &self.cs.gates);
            proof {
                let added = region_cell_findings(
                    self.layouter.regions@[i as int].columns@,
                    self.layouter.regions@[i as int],
                    self.cs.gates@,
                );
                assert(names(self.log@) =~= names(old(self).log@) + (unconstrained_cell_findings(
                    self.layouter.regions@.take(i as int),
                    self.cs.gates@,
                ) + added));
            }
            i += 1;
        }
        assert(self.layouter.regions@.take(self.layouter.regions@.len() as int)
            =~= self.layouter.regions@);
        AnalyzerOutput { output_status: AnalyzerOutputStatus::UnconstrainedCells }
    }
}

} // verus!
