//! Static analysis of PLONK-style arithmetic circuits.
//!
//! Three analyses need no solver and go by the selectors alone: gates that
//! are zero in every region, advice columns that no gate mentions, and cells
//! that no live gate polynomial constrains. The fourth encodes the circuit
//! over a prime field for an SMT solver and searches for two witnesses of one
//! public input. The library builds the script, reads the solver's answers and
//! decides each step; running the solver is left to the caller.

pub mod abstract_expr;
pub mod analyzer;
pub mod append_only;
pub mod analyzer_io_type;
pub mod dead_code;
pub mod distinct;
pub mod encoder;
pub mod error;
pub mod field_semantics;
pub mod lookup;
pub mod model;
pub mod naming;
pub mod runs;
pub mod semantics;
pub mod smt;
pub mod smt_parser;
pub mod solver;
pub mod text;
pub mod underconstrained;
pub mod uniqueness;

pub use analyzer::Analyzer;
pub use smt::{NodeType, Operation};
