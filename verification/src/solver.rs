//! The boundary to the solver process: where the working copy of a script
//! goes, and what the solver's output says.

use vstd::prelude::*;
use crate::analyzer::Analyzer;
use crate::error::AnalyzerError;
use crate::smt_parser::{bindings, extract_model_response, parse_response, ModelResult};

verus! {

/// The path of the working copy of a script whose file stem is `stem`.
pub open spec fn copy_path_text(stem: Seq<char>) -> Seq<char> {
    "src/output/"@ + stem + "_temp.smt2"@
}

/// Calls `std::path::Path::file_stem` on `path` and hands the stem back as a
/// string. Nothing is claimed of the stem: which part of a path is the file
/// name depends on the platform's separators.
#[verifier::external_body]
fn file_stem(path: &str) -> (res: Option<String>) {
    std::path::Path::new(path).file_stem().and_then(|stem| stem.to_str()).map(
        |stem| stem.to_owned(),
    )
}

/// Writes the path of the working copy of a script whose file stem is
/// `stem`.
pub fn copy_path_for(stem: &String) -> (res: String)
    ensures
        res@ == copy_path_text(stem@),
{
    let mut s = "src/output/".to_owned();
    s.append(stem.as_str());
    s.append("_temp.smt2");
    s
}

impl Analyzer {
    /// The path of the working copy of the script at `smt_file_path`: in the
    /// output directory, named by the script's file stem. `None` where the
    /// path has no file name.
    pub fn generate_copy_path(smt_file_path: &str) -> (res: Option<String>)
        ensures
            res matches Some(path) ==> exists|stem: Seq<char>| path@ == copy_path_text(stem),
    {
        let stem = file_stem(smt_file_path);
        copy_path_of_stem(&stem)
    }

    /// Reads what the solver printed into a verdict and a model.
    pub fn solve_and_get_model(output: &str) -> (res: Result<ModelResult, AnalyzerError>)
        ensures
            match res {
                Ok(model) => parse_response(output@) == Some((model.sat, bindings(model.result@))),
                Err(e) => e == AnalyzerError::SolverInvocationFailure && parse_response(output@)
                    is None,
            },
    {
        extract_model_response(output)
    }
}

/// The path of the working copy for whatever came of looking for a file
/// stem: the copy path of the stem where there is one, none where there is
/// none.
pub fn copy_path_of_stem(stem: &Option<String>) -> (res: Option<String>)
    ensures
        match *stem {
            Some(found) => res matches Some(path) && path@ == copy_path_text(found@),
            None => res is None,
        },
{
    match stem {
        Some(found) => Some(copy_path_for(found)),
        None => None,
    }
}

} // verus!
