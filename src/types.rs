//! Configuration and data shapes shared by the engine.
use vstd::prelude::*;

verus! {

/// Sort direction.
#[derive(Debug, Clone, Copy, PartialEq, Eq, Structural)]
pub enum SortDirection {
    Ascending,
    Descending,
}

/// One sort key: a column and a direction.
#[derive(Debug, Clone, Copy)]
pub struct SortConfig {
    pub column_index: usize,
    pub direction: SortDirection,
}

/// Filter comparison operator.
#[derive(Debug, Clone, Copy, PartialEq, Eq, Structural)]
pub enum FilterOp {
    Eq,
    Neq,
    Gt,
    Gte,
    Lt,
    Lte,
    Contains,
    StartsWith,
    EndsWith,
}

/// A numeric filter operand, as float bit patterns: the operand itself and
/// the edges of its tolerance window, `value - epsilon` and `value + epsilon`.
#[derive(Debug, Clone, Copy)]
pub struct NumOperand {
    pub value: u64,
    pub below: u64,
    pub above: u64,
}

/// A typed filter operand.
#[derive(Debug, Clone)]
pub enum FilterValue {
    Float64(NumOperand),
    String(String),
    Bool(bool),
}

/// A filter on one column.
#[derive(Debug, Clone)]
pub struct ColumnFilter {
    pub column_index: usize,
    pub op: FilterOp,
    pub value: FilterValue,
}

/// Case-insensitive text search across all string columns.
#[derive(Debug, Clone)]
pub struct GlobalFilter {
    pub query: String,
}

/// Column data type tag.
#[derive(Debug, Clone, Copy, PartialEq, Eq, Structural)]
pub enum ColumnType {
    Float64,
    String,
    Bool,
}

/// One cell of row-major input: a number is given by its float bit pattern.
#[derive(Debug, Clone)]
pub enum Cell {
    Null,
    Number(u64),
    Bool(bool),
    Text(String),
}

} // verus!
