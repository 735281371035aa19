//! The algebra that the analyses work on: expression trees, gates, lookups,
//! and the regions of a laid-out circuit.
//!
//! Field values are carried as unsigned 128-bit integers; the field's prime
//! is a parameter of the encoding and is not fixed here.

use vstd::prelude::*;

verus! {

/// The three kinds of concrete columns.
#[derive(Debug, Clone, Copy, PartialEq, Eq, Structural)]
pub enum ColumnKind {
    Advice,
    Fixed,
    Instance,
}

/// A concrete column: its kind and its index among the columns of that kind.
#[derive(Debug, Clone, Copy, PartialEq, Eq, Structural)]
pub struct Column {
    pub kind: ColumnKind,
    pub index: usize,
}

/// A column queried at a relative row.
#[derive(Debug, Clone, Copy, PartialEq, Eq, Structural)]
pub struct ColumnQuery {
    pub column: Column,
    pub rotation: i32,
}

/// An advice column queried at a relative row.
#[derive(Debug, Clone, Copy, PartialEq, Eq, Structural)]
pub struct AdviceQuery {
    pub column: usize,
    pub rotation: i32,
}

/// A polynomial over the cells of a circuit.
#[derive(Debug, PartialEq, Eq)]
pub enum Expression {
    /// A constant field value.
    Constant(u128),
    /// A selector, by index.
    Selector(usize),
    /// A fixed column at a relative row.
    Fixed { column: usize, rotation: i32 },
    /// An advice column at a relative row.
    Advice { column: usize, rotation: i32 },
    /// An instance column at a relative row.
    Instance { column: usize, rotation: i32 },
    Negated(Box<Expression>),
    Sum(Box<Expression>, Box<Expression>),
    Product(Box<Expression>, Box<Expression>),
    /// A polynomial times a constant field value.
    Scaled(Box<Expression>, u128),
}

impl Clone for Expression {
    fn clone(&self) -> (res: Self)
        ensures
            res == *self,
        decreases *self,
    {
        match self {
            Expression::Constant(v) => Expression::Constant(*v),
            Expression::Selector(s) => Expression::Selector(*s),
            Expression::Fixed { column, rotation } => Expression::Fixed {
                column: *column,
                rotation: *rotation,
            },
            Expression::Advice { column, rotation } => Expression::Advice {
                column: *column,
                rotation: *rotation,
            },
            Expression::Instance { column, rotation } => Expression::Instance {
                column: *column,
                rotation: *rotation,
            },
            Expression::Negated(a) => Expression::Negated(Box::new((&**a).clone())),
            Expression::Sum(a, b) => Expression::Sum(
                Box::new((&**a).clone()),
                Box::new((&**b).clone()),
            ),
            Expression::Product(a, b) => Expression::Product(
                Box::new((&**a).clone()),
                Box::new((&**b).clone()),
            ),
            Expression::Scaled(a, c) => Expression::Scaled(Box::new((&**a).clone()), *c),
        }
    }
}

/// A named list of polynomials, each required to be zero wherever its
/// selectors are active.
#[derive(Debug, Clone, PartialEq, Eq)]
pub struct Gate {
    pub name: String,
    pub polys: Vec<Expression>,
}

/// A lookup argument: at every row the tuple of input values must equal some
/// row of the table columns.
#[derive(Debug, Clone, PartialEq, Eq)]
pub struct Lookup {
    pub input_expressions: Vec<Expression>,
    pub table_expressions: Vec<Expression>,
}

/// The gates, lookups and advice queries of a circuit.
#[derive(Debug, Clone, PartialEq, Eq)]
pub struct ConstraintSystem {
    pub num_selectors: usize,
    pub gates: Vec<Gate>,
    pub lookups: Vec<Lookup>,
    pub advice_queries: Vec<AdviceQuery>,
}

/// A column as a region refers to it: a concrete column or a selector.
#[derive(Debug, Clone, Copy, PartialEq, Eq, Structural)]
pub enum RegionColumn {
    Column(Column),
    Selector(usize),
}

/// A cell of a region: a region column at a relative row.
#[derive(Debug, Clone, Copy, PartialEq, Eq, Structural)]
pub struct RegionCell {
    pub column: RegionColumn,
    pub rotation: i32,
}

/// One entry of an equality table: the cell named `left` must equal the cell
/// named `right`.
#[derive(Debug, Clone, PartialEq, Eq)]
pub struct CellEquality {
    pub left: String,
    pub right: String,
}

/// One region of the layout.
#[derive(Debug, Clone, PartialEq, Eq)]
pub struct Region {
    pub name: String,
    pub row_count: usize,
    /// The cells that the region refers to.
    pub columns: Vec<RegionCell>,
    /// The selectors enabled somewhere in the region.
    pub selectors: Vec<usize>,
    /// The names of the selector cells enabled in the region, one per
    /// selector and row.
    pub enabled_selectors: Vec<String>,
    /// Equalities between advice cells.
    pub advice_eq_table: Vec<CellEquality>,
    /// Copy constraints in general, instance cells included.
    pub eq_table: Vec<CellEquality>,
}

/// The layout of a synthesized circuit.
#[derive(Debug, Clone, PartialEq, Eq)]
pub struct AnalyticLayouter {
    pub regions: Vec<Region>,
    /// Copy constraints made outside any region.
    pub eq_table: Vec<CellEquality>,
}

/// The value of one cell of a fixed column.
#[derive(Debug, Clone, Copy, PartialEq, Eq, Structural)]
pub enum CellValue {
    Unassigned,
    Assigned(u128),
    /// A cell that must never be read as data.
    Poison(usize),
}

} // verus!
