//! The ways an analysis can fail.

use vstd::prelude::*;

verus! {

/// A failure that ends the analysis. None is retried.
#[derive(Debug, Clone, Copy, PartialEq, Eq, Structural)]
pub enum AnalyzerError {
    /// The constraint system or the fixed columns have a shape that cannot be
    /// encoded.
    EncodingFailure,
    /// The solver could not be run, or its answer cannot be read.
    SolverInvocationFailure,
    /// A model lacks a variable whose value was asked for.
    ModelLookupFailure,
}

impl AnalyzerError {
    /// A line that says what failed.
    pub fn message(&self) -> (res: String)
        ensures
            res@ == match *self {
                AnalyzerError::EncodingFailure => "the constraints cannot be encoded"@,
                AnalyzerError::SolverInvocationFailure => "the solver's answer cannot be read"@,
                AnalyzerError::ModelLookupFailure => "the model lacks a variable"@,
            },
    {
        match self {
            AnalyzerError::EncodingFailure => "the constraints cannot be encoded".to_owned(),
            AnalyzerError::SolverInvocationFailure => {
                "the solver's answer cannot be read".to_owned()
            },
            AnalyzerError::ModelLookupFailure => "the model lacks a variable".to_owned(),
        }
    }
}

} // verus!
