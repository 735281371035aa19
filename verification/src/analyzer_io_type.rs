//! What goes into an analysis and what comes out of it.

use vstd::prelude::*;
use crate::distinct::distinct_instances;
use crate::uniqueness::instance_names;

verus! {

/// How the uniqueness of the witness is checked.
#[derive(Debug, Clone, Copy, PartialEq, Eq, Structural)]
pub enum VerificationMethod {
    /// Against the one given assignment of the instance variables.
    Specific,
    /// Against as many assignments as the iteration bound allows, each chosen
    /// by the solver.
    Random,
}

/// An instance variable and the value it is given.
#[derive(Debug, PartialEq, Eq)]
pub struct InstanceValue {
    pub name: String,
    pub value: i64,
}

/// The instance variables, with their values, and the iteration bound.
#[derive(Debug, PartialEq, Eq)]
pub struct VerificationInput {
    pub instances_string: Vec<InstanceValue>,
    pub iterations: u128,
}

/// The input of the search for a second witness.
#[derive(Debug, PartialEq, Eq)]
pub struct AnalyzerInput {
    pub verification_method: VerificationMethod,
    pub verification_input: VerificationInput,
}

impl AnalyzerInput {
    /// No instance variable is named twice. The search pins and holds equal
    /// each entry of the list, so on a well-formed input none is pinned
    /// twice.
    pub open spec fn well_formed(&self) -> bool {
        instance_names(self.verification_input.instances_string@).no_duplicates()
    }

    /// Whether no instance variable is named twice.
    pub fn is_well_formed(&self) -> (res: bool)
        ensures
            res == self.well_formed(),
    {
        distinct_instances(&self.verification_input.instances_string)
    }
}

/// The analyses.
#[derive(Debug, Clone, Copy, PartialEq, Eq, Structural)]
pub enum AnalyzerType {
    UnusedGates,
    UnconstrainedCells,
    UnusedColumns,
    UnderconstrainedCircuit,
}

/// How an analysis ended.
#[derive(Debug, Clone, Copy, PartialEq, Eq, Structural)]
pub enum AnalyzerOutputStatus {
    Invalid,
    Underconstrained,
    Overconstrained,
    NotUnderconstrained,
    NotUnderconstrainedLocal,
    UnusedCustomGates,
    UnusedColumns,
    UnconstrainedCells,
}

/// The result of an analysis.
#[derive(Debug, Clone, Copy, PartialEq, Eq, Structural)]
pub struct AnalyzerOutput {
    pub output_status: AnalyzerOutputStatus,
}

} // verus!
