//! The analyzer: a constraint system, its layout, and the findings of the
//! analyses run on them.

use vstd::prelude::*;
use crate::analyzer_io_type::{
    AnalyzerOutput, AnalyzerOutputStatus, AnalyzerType, InstanceValue,
};
use crate::dead_code::{
    unconstrained_cell_findings, unused_column_findings, unused_gate_findings,
};
use crate::distinct::{
    distinct_cells, distinct_indices, distinct_lefts, distinct_names, left_names,
};
use crate::model::{AnalyticLayouter, CellEquality, ConstraintSystem, Region};
use crate::smt::names;
use crate::uniqueness::instance_names;

verus! {

/// What a dispatched analysis has come to.
#[derive(Debug, PartialEq, Eq)]
pub enum Dispatch {
    /// The analysis has run; its findings are in the log.
    Finished(AnalyzerOutput),
    /// The search for a second witness needs a value for each of these
    /// instance variables, or an iteration bound, before it can start.
    NeedsInput(Vec<InstanceValue>),
}

/// The names in `known`, then the left-hand cells of `table` that are not
/// among them yet, each once, in the order of the table.
pub open spec fn lefts_added(known: Seq<Seq<char>>, table: Seq<CellEquality>) -> Seq<Seq<char>>
    decreases table.len(),
{
    if table.len() == 0 {
        known
    } else {
        let before = lefts_added(known, table.drop_last());
        if before.contains(table.last().left@) {
            before
        } else {
            before.push(table.last().left@)
        }
    }
}

/// The names in `known`, then the left-hand cells of the copy constraints
/// of `regions` that are not among them yet, region by region.
pub open spec fn region_lefts_added(known: Seq<Seq<char>>, regions: Seq<Region>) -> Seq<Seq<char>>
    decreases regions.len(),
{
    if regions.len() == 0 {
        known
    } else {
        lefts_added(region_lefts_added(known, regions.drop_last()), regions.last().eq_table@)
    }
}

/// The names that adding the left-hand cells of a table gives hold no name
/// twice, and they are the names known before and the left-hand cells of the
/// table.
pub proof fn lemma_lefts_added(known: Seq<Seq<char>>, table: Seq<CellEquality>)
    requires
        known.no_duplicates(),
    ensures
        lefts_added(known, table).no_duplicates(),
        forall|name: Seq<char>|
            lefts_added(known, table).contains(name) <==> (known.contains(name) || exists|i: int|
                0 <= i < table.len() && (#[trigger] table[i]).left@ == name),
    decreases table.len(),
{
    if table.len() > 0 {
        let rest = table.drop_last();
        let last = table.last().left@;
        lemma_lefts_added(known, rest);
        let before = lefts_added(known, rest);
        let after = lefts_added(known, table);
        assert forall|name: Seq<char>|
            after.contains(name) <==> (known.contains(name) || exists|i: int|
                0 <= i < table.len() && (#[trigger] table[i]).left@ == name) by {
            if after.contains(name) {
                if before.contains(name) {
                    if !known.contains(name) {
                        let i = choose|i: int|
                            0 <= i < rest.len() && (#[trigger] rest[i]).left@ == name;
                        assert(table[i].left@ == name);
                    }
                } else {
                    let j = choose|j: int| 0 <= j < after.len() && after[j] == name;
                    assert(j == after.len() - 1);
                    assert(table[table.len() - 1].left@ == name);
                }
            }
            if known.contains(name) {
                assert(before.contains(name));
                let j = choose|j: int| 0 <= j < before.len() && before[j] == name;
                assert(after[j] == name);
            }
            if exists|i: int| 0 <= i < table.len() && (#[trigger] table[i]).left@ == name {
                let i = choose|i: int| 0 <= i < table.len() && (#[trigger] table[i]).left@ == name;
                if i < rest.len() {
                    assert(rest[i].left@ == name);
                    let j = choose|j: int| 0 <= j < before.len() && before[j] == name;
                    assert(after[j] == name);
                } else {
                    if before.contains(name) {
                        let j = choose|j: int| 0 <= j < before.len() && before[j] == name;
                        assert(after[j] == name);
                    } else {
                        assert(after[after.len() - 1] == name);
                    }
                }
            }
        }
    }
}

/// Adding the left-hand cells of the regions' copy constraints keeps the
/// names free of duplicates.
pub proof fn lemma_region_lefts_added(known: Seq<Seq<char>>, regions: Seq<Region>)
    requires
        known.no_duplicates(),
    ensures
        region_lefts_added(known, regions).no_duplicates(),
    decreases regions.len(),
{
    if regions.len() > 0 {
        lemma_region_lefts_added(known, regions.drop_last());
        lemma_lefts_added(region_lefts_added(known, regions.drop_last()), regions.last().eq_table@);
    }
}

/// Every instance variable has the value zero.
pub open spec fn all_zero(instances: Seq<InstanceValue>) -> bool {
    forall|i: int| 0 <= i < instances.len() ==> (#[trigger] instances[i]).value == 0
}

fn contains_instance(instances: &Vec<InstanceValue>, name: &String) -> (found: bool)
    ensures
        found == instance_names(instances@).contains(name@),
{
    let mut i: usize = 0;
    while i < instances.len()
        invariant
            i <= instances.len(),
            forall|j: int| 0 <= j < i ==> instance_names(instances@)[j] != name@,
        decreases instances.len() - i,
    {
        if instances[i].name == *name {
            assert(instance_names(instances@)[i as int] == name@);
            return true;
        }
        i += 1;
    }
    false
}

fn add_lefts(instances: &mut Vec<InstanceValue>, table: &Vec<CellEquality>)
    requires
        all_zero(old(instances)@),
    ensures
        all_zero(final(instances)@),
        instance_names(final(instances)@) == lefts_added(instance_names(old(instances)@), table@),
{
    let mut i: usize = 0;
    assert(table@.take(0) =~= Seq::<CellEquality>::empty());
    while i < table.len()
        invariant
            i <= table.len(),
            all_zero(instances@),
            instance_names(instances@) == lefts_added(
                instance_names(old(instances)@),
                table@.take(i as int),
            ),
        decreases table.len() - i,
    {
        proof {
            let next = table@.take(i + 1);
            assert(next.drop_last() =~= table@.take(i as int));
            assert(next.last() == table@[i as int]);
        }
        if !contains_instance(instances, &table[i].left) {
            let entry = InstanceValue { name: table[i].left.clone(), value: 0 };
            proof {
                assert(instance_names(instances@.push(entry)) =~= instance_names(instances@).push(
                    entry.name@,
                ));
            }
            instances.push(entry);
        }
        i += 1;
    }
    assert(table@.take(table.len() as int) =~= table@);
}

/// A region's lists stand for sets and maps, and its selectors are among the
/// `num_selectors` declared ones.
pub open spec fn region_well_formed(region: Region, num_selectors: usize) -> bool {
    &&& region.columns@.no_duplicates()
    &&& region.selectors@.no_duplicates()
    &&& names(region.enabled_selectors@).no_duplicates()
    &&& left_names(region.advice_eq_table@).no_duplicates()
    &&& left_names(region.eq_table@).no_duplicates()
    &&& forall|i: int|
        0 <= i < region.selectors@.len() ==> #[trigger] region.selectors@[i] < num_selectors
}

/// Whether a region is well-formed.
pub fn is_region_well_formed(region: &Region, num_selectors: usize) -> (res: bool)
    ensures
        res == region_well_formed(*region, num_selectors),
{
    if !distinct_cells(&region.columns) || !distinct_indices(&region.selectors) || !distinct_names(
        &region.enabled_selectors,
    ) || !distinct_lefts(&region.advice_eq_table) || !distinct_lefts(&region.eq_table) {
        return false;
    }
    let mut i: usize = 0;
    while i < region.selectors.len()
        invariant
            i <= region.selectors.len(),
            forall|k: int| 0 <= k < i ==> #[trigger] region.selectors@[k] < num_selectors,
        decreases region.selectors.len() - i,
    {
        if region.selectors[i] >= num_selectors {
            return false;
        }
        i += 1;
    }
    true
}

/// The state of one analysis run.
#[derive(Debug, PartialEq, Eq)]
pub struct Analyzer {
    pub cs: ConstraintSystem,
    pub layouter: AnalyticLayouter,
    /// The findings so far, one line each.
    pub log: Vec<String>,
    pub counter: u32,
}

impl Analyzer {
    /// An analyzer of `cs` as laid out by `layouter`, with no findings yet.
    pub fn new(cs: ConstraintSystem, layouter: AnalyticLayouter) -> (res: Analyzer)
        ensures
            res.cs == cs,
            res.layouter == layouter,
            res.log@.len() == 0,
            res.counter == 0,
    {
        Analyzer { cs, layouter, log: Vec::new(), counter: 0 }
    }

    /// The instance variables of an equality table: its left-hand cells,
    /// each once in the order of the table, each with the value zero.
    pub fn extract_instance_cols(&self, eq_table: &Vec<CellEquality>) -> (res: Vec<InstanceValue>)
        ensures
            instance_names(res@) == lefts_added(Seq::empty(), eq_table@),
            instance_names(res@).no_duplicates(),
            all_zero(res@),
    {
        proof {
            lemma_lefts_added(Seq::empty(), eq_table@);
        }
        let mut res: Vec<InstanceValue> = Vec::new();
        assert(instance_names(res@) =~= Seq::<Seq<char>>::empty());
        add_lefts(&mut res, eq_table);
        res
    }

    /// The instance variables of the regions: the left-hand cells of their
    /// copy constraints, each once, region by region, each with the value
    /// zero.
    pub fn extract_instance_cols_from_region(&self) -> (res: Vec<InstanceValue>)
        ensures
            instance_names(res@) == region_lefts_added(Seq::empty(), self.layouter.regions@),
            instance_names(res@).no_duplicates(),
            all_zero(res@),
    {
        proof {
            lemma_region_lefts_added(Seq::empty(), self.layouter.regions@);
        }
        let mut res: Vec<InstanceValue> = Vec::new();
        assert(instance_names(res@) =~= Seq::<Seq<char>>::empty());
        self.add_region_lefts(&mut res);
        res
    }

    fn add_region_lefts(&self, instances: &mut Vec<InstanceValue>)
        requires
            all_zero(old(instances)@),
        ensures
            all_zero(final(instances)@),
            instance_names(final(instances)@) == region_lefts_added(
                instance_names(old(instances)@),
                self.layouter.regions@,
            ),
    {
        let regions = &self.layouter.regions;
        let mut i: usize = 0;
        assert(regions@.take(0) =~= Seq::<Region>::empty());
        while i < regions.len()
            invariant
                i <= regions.len(),
                all_zero(instances@),
                instance_names(instances@) == region_lefts_added(
                    instance_names(old(instances)@),
                    regions@.take(i as int),
                ),
            decreases regions.len() - i,
        {
            proof {
                let next = regions@.take(i + 1);
                assert(next.drop_last() =~= regions@.take(i as int));
                assert(next.last() == regions@[i as int]);
            }
            add_lefts(instances, &regions[i].eq_table);
            i += 1;
        }
        assert(regions@.take(regions.len() as int) =~= regions@);
    }

    /// Runs the analysis of the given type, as far as it goes without a
    /// solver. The three liveness analyses run to their end and leave their
    /// findings in the log. The search for a second witness yields the
    /// instance variables that its input must speak of: the left-hand cells
    /// of the copy constraints made outside the regions, then those of the
    /// regions.
    pub fn dispatch_analysis(&mut self, analyzer_type: AnalyzerType) -> (res: Dispatch)
        ensures
            final(self).cs == old(self).cs,
            final(self).layouter == old(self).layouter,
            final(self).counter == old(self).counter,
            match analyzer_type {
                AnalyzerType::UnusedGates => res == Dispatch::Finished(
                    AnalyzerOutput {
                        output_status: AnalyzerOutputStatus::UnusedCustomGates,
                    },
                ) && names(final(self).log@) == names(old(self).log@) + unused_gate_findings(
                    old(self).cs.gates@,
                    old(self).layouter.regions@,
                ),
                AnalyzerType::UnconstrainedCells => res == Dispatch::Finished(
                    AnalyzerOutput {
                        output_status: AnalyzerOutputStatus::UnconstrainedCells,
                    },
                ) && names(final(self).log@) == names(old(self).log@)
                    + unconstrained_cell_findings(
                    old(self).layouter.regions@,
                    old(self).cs.gates@,
                ),
                AnalyzerType::UnusedColumns => res == Dispatch::Finished(
                    AnalyzerOutput {
                        output_status: AnalyzerOutputStatus::UnusedColumns,
                    },
                ) && names(final(self).log@) == names(old(self).log@) + unused_column_findings(
                    old(self).cs.advice_queries@,
                    old(self).cs.gates@,
                ),
                AnalyzerType::UnderconstrainedCircuit => final(self).log == old(self).log && (
                res matches Dispatch::NeedsInput(instances) && all_zero(instances@)
                    && instance_names(instances@).no_duplicates() && instance_names(instances@)
                    == region_lefts_added(
                    lefts_added(Seq::empty(), old(self).layouter.eq_table@),
                    old(self).layouter.regions@,
                )),
            },
    {
        match analyzer_type {
            AnalyzerType::UnusedGates => Dispatch::Finished(self.analyze_unused_custom_gates()),
            AnalyzerType::UnconstrainedCells => Dispatch::Finished(
                self.analyze_unconstrained_cells(),
            ),
            AnalyzerType::UnusedColumns => Dispatch::Finished(self.analyze_unused_columns()),
            AnalyzerType::UnderconstrainedCircuit => {
                proof {
                    lemma_lefts_added(Seq::empty(), self.layouter.eq_table@);
                    lemma_region_lefts_added(
                        lefts_added(Seq::empty(), self.layouter.eq_table@),
                        self.layouter.regions@,
                    );
                }
                let mut instances = self.extract_instance_cols(&self.layouter.eq_table);
                self.add_region_lefts(&mut instances);
                Dispatch::NeedsInput(instances)
            },
        }
    }

    /// The lists of the layout stand for sets and maps: no region holds a
    /// cell, a selector or the name of an enabled selector cell twice, no
    /// equality table holds a cell twice on its left, and every selector of a
    /// region is one that the constraint system declares. The analyses make
    /// one finding or assertion for each entry of a list, so on a well-formed
    /// analyzer none is made twice.
    pub open spec fn well_formed(&self) -> bool {
        &&& left_names(self.layouter.eq_table@).no_duplicates()
        &&& forall|r: int|
            0 <= r < self.layouter.regions@.len() ==> region_well_formed(
                #[trigger] self.layouter.regions@[r],
                self.cs.num_selectors,
            )
    }

    /// Whether the analyzer is well-formed.
    pub fn is_well_formed(&self) -> (res: bool)
        ensures
            res == self.well_formed(),
    {
        if !distinct_lefts(&self.layouter.eq_table) {
            return false;
        }
        let regions = &self.layouter.regions;
        let mut r: usize = 0;
        while r < regions.len()
            invariant
                r <= regions.len(),
                regions == &self.layouter.regions,
                forall|q: int|
                    0 <= q < r ==> region_well_formed(
                        #[trigger] regions@[q],
                        self.cs.num_selectors,
                    ),
            decreases regions.len() - r,
        {
            if !is_region_well_formed(&regions[r], self.cs.num_selectors) {
                return false;
            }
            r += 1;
        }
        true
    }

    /// The findings so far.
    pub fn log(&self) -> (res: &Vec<String>)
        ensures
            *res == self.log,
    {
        &self.log
    }
}

} // verus!
