//! Lists that stand for sets: whether a list holds nothing twice.

use vstd::prelude::*;
use crate::analyzer_io_type::InstanceValue;
use crate::model::{CellEquality, RegionCell};
use crate::smt::names;
use crate::uniqueness::instance_names;

verus! {

/// The left-hand cells of an equality table, in order.
pub open spec fn left_names(table: Seq<CellEquality>) -> Seq<Seq<char>> {
    Seq::new(table.len(), |i: int| table[i].left@)
}

/// Whether no index occurs twice in `v`.
pub fn distinct_indices(v: &Vec<usize>) -> (res: bool)
    ensures
        res == v@.no_duplicates(),
{
    let mut j: usize = 0;
    while j < v.len()
        invariant
            j <= v.len(),
            forall|a: int, b: int| 0 <= a < b < j ==> v@[a] != v@[b],
        decreases v.len() - j,
    {
        let mut i: usize = 0;
        while i < j
            invariant
                i <= j < v.len(),
                forall|a: int| 0 <= a < i ==> v@[a] != v@[j as int],
            decreases j - i,
        {
            if v[i] == v[j] {
                return false;
            }
            i += 1;
        }
        j += 1;
    }
    true
}

/// Whether no cell occurs twice in `v`.
pub fn distinct_cells(v: &Vec<RegionCell>) -> (res: bool)
    ensures
        res == v@.no_duplicates(),
{
    let mut j: usize = 0;
    while j < v.len()
        invariant
            j <= v.len(),
            forall|a: int, b: int| 0 <= a < b < j ==> v@[a] != v@[b],
        decreases v.len() - j,
    {
        let mut i: usize = 0;
        while i < j
            invariant
                i <= j < v.len(),
                forall|a: int| 0 <= a < i ==> v@[a] != v@[j as int],
            decreases j - i,
        {
            if v[i] == v[j] {
                return false;
            }
            i += 1;
        }
        j += 1;
    }
    true
}

/// Whether no string occurs twice in `v`.
pub fn distinct_names(v: &Vec<String>) -> (res: bool)
    ensures
        res == names(v@).no_duplicates(),
{
    let mut j: usize = 0;
    while j < v.len()
        invariant
            j <= v.len(),
            forall|a: int, b: int| 0 <= a < b < j ==> names(v@)[a] != names(v@)[b],
        decreases v.len() - j,
    {
        let mut i: usize = 0;
        while i < j
            invariant
                i <= j < v.len(),
                forall|a: int| 0 <= a < i ==> names(v@)[a] != names(v@)[j as int],
            decreases j - i,
        {
            if v[i] == v[j] {
                assert(names(v@)[i as int] == names(v@)[j as int]);
                return false;
            }
            i += 1;
        }
        j += 1;
    }
    true
}

/// Whether no cell stands twice on the left of `table`.
pub fn distinct_lefts(table: &Vec<CellEquality>) -> (res: bool)
    ensures
        res == left_names(table@).no_duplicates(),
{
    let mut j: usize = 0;
    while j < table.len()
        invariant
            j <= table.len(),
            forall|a: int, b: int|
                0 <= a < b < j ==> left_names(table@)[a] != left_names(table@)[b],
        decreases table.len() - j,
    {
        let mut i: usize = 0;
        while i < j
            invariant
                i <= j < table.len(),
                forall|a: int| 0 <= a < i ==> left_names(table@)[a] != left_names(table@)[j as int],
            decreases j - i,
        {
            if table[i].left == table[j].left {
                assert(left_names(table@)[i as int] == left_names(table@)[j as int]);
                return false;
            }
            i += 1;
        }
        j += 1;
    }
    true
}

/// Whether no instance variable is named twice in `instances`.
pub fn distinct_instances(instances: &Vec<InstanceValue>) -> (res: bool)
    ensures
        res == instance_names(instances@).no_duplicates(),
{
    let mut j: usize = 0;
    while j < instances.len()
        invariant
            j <= instances.len(),
            forall|a: int, b: int|
                0 <= a < b < j ==> instance_names(instances@)[a] != instance_names(instances@)[b],
        decreases instances.len() - j,
    {
        let mut i: usize = 0;
        while i < j
            invariant
                i <= j < instances.len(),
                forall|a: int|
                    0 <= a < i ==> instance_names(instances@)[a] != instance_names(
                        instances@,
                    )[j as int],
            decreases j - i,
        {
            if instances[i].name == instances[j].name {
                assert(instance_names(instances@)[i as int] == instance_names(
                    instances@,
                )[j as int]);
                return false;
            }
            i += 1;
        }
        j += 1;
    }
    true
}

} // verus!
