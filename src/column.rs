//! Typed column storage.
use crate::intern::StringInternTable;
use crate::num::{FALSE_BITS, NULL_BITS, TRUE_BITS};
use crate::types::{Cell, ColumnType};
use vstd::prelude::*;
use vstd::utf8::encode_utf8;

verus! {

/// One column of the table.
pub enum ColumnData {
    /// Dense float bit patterns; a NaN pattern is a null cell.
    Float64(Vec<u64>),
    /// Intern IDs, one per row, resolved through the column's own table.
    Strings { ids: Vec<u32>, intern: StringInternTable },
    /// Bit patterns of `0.0` (false), `1.0` (true) or NaN (null).
    Bool(Vec<u64>),
}

impl ColumnData {
    pub open spec fn kind(&self) -> ColumnType {
        match self {
            ColumnData::Float64(_) => ColumnType::Float64,
            ColumnData::Strings { .. } => ColumnType::String,
            ColumnData::Bool(_) => ColumnType::Bool,
        }
    }

    /// Number of rows held.
    pub open spec fn len(&self) -> nat {
        match self {
            ColumnData::Float64(v) => v@.len(),
            ColumnData::Strings { ids, .. } => ids@.len(),
            ColumnData::Bool(v) => v@.len(),
        }
    }

    pub open spec fn wf(&self) -> bool {
        match self {
            ColumnData::Strings { ids, intern } => {
                &&& intern.wf()
                &&& forall|r: int| 0 <= r < ids@.len() ==> (#[trigger] ids@[r] as int) < intern.entries().len()
            },
            _ => true,
        }
    }

    /// The float bit pattern of a numeric or boolean cell.
    pub open spec fn num_cell(&self, r: int) -> u64 {
        match self {
            ColumnData::Float64(v) => v@[r],
            ColumnData::Bool(v) => v@[r],
            ColumnData::Strings { .. } => 0,
        }
    }

    /// The UTF-8 bytes of a text cell.
    pub open spec fn text_cell(&self, r: int) -> Seq<u8> {
        match self {
            ColumnData::Strings { ids, intern } => intern.entries()[ids@[r] as int],
            _ => Seq::empty(),
        }
    }

    pub open spec fn is_numeric(&self) -> bool {
        !(self is Strings)
    }
}

/// The cell of row `r` at column `col`; a row too short to hold it is null.
pub open spec fn cell_at(rows: Seq<Vec<Cell>>, r: int, col: int) -> Cell {
    if 0 <= col < rows[r]@.len() {
        rows[r]@[col]
    } else {
        Cell::Null
    }
}

/// Type of a column, from the first non-null cell at or after row `i`.
pub open spec fn detect_from(rows: Seq<Vec<Cell>>, col: int, i: int) -> ColumnType
    decreases rows.len() - i,
{
    if i < 0 || i >= rows.len() {
        ColumnType::String
    } else {
        match cell_at(rows, i, col) {
            Cell::Null => detect_from(rows, col, i + 1),
            Cell::Number(_) => ColumnType::Float64,
            Cell::Bool(_) => ColumnType::Bool,
            Cell::Text(_) => ColumnType::String,
        }
    }
}

/// Stored form of a cell in a Float64 column.
pub open spec fn float_of(c: Cell) -> u64 {
    match c {
        Cell::Number(b) => b,
        _ => NULL_BITS,
    }
}

/// Stored form of a cell in a Bool column.
pub open spec fn bool_of(c: Cell) -> u64 {
    match c {
        Cell::Bool(true) => TRUE_BITS,
        Cell::Bool(false) => FALSE_BITS,
        _ => NULL_BITS,
    }
}

/// Text of a cell in a String column; anything but text reads as empty.
pub open spec fn text_of(c: Cell) -> Seq<u8> {
    match c {
        Cell::Text(s) => encode_utf8(s@),
        _ => Seq::empty(),
    }
}

fn get_cell(rows: &[Vec<Cell>], r: usize, col: usize) -> (c: &Cell)
    requires
        r < rows@.len(),
    ensures
        *c == cell_at(rows@, r as int, col as int),
{
    let row = &rows[r];
    if col < row.len() {
        &row[col]
    } else {
        &Cell::Null
    }
}

/// Detects a column's type from its first non-null cell; an all-null column
/// is a String column.
pub fn detect_type(rows: &[Vec<Cell>], col: usize) -> (r: ColumnType)
    ensures
        r == detect_from(rows@, col as int, 0),
{
    let mut i: usize = 0;
    while i < rows.len()
        invariant
            i <= rows@.len(),
            detect_from(rows@, col as int, 0) == detect_from(rows@, col as int, i as int),
        decreases rows@.len() - i,
    {
        match get_cell(rows, i, col) {
            Cell::Null => {},
            Cell::Number(_) => return ColumnType::Float64,
            Cell::Bool(_) => return ColumnType::Bool,
            Cell::Text(_) => return ColumnType::String,
        }
        i = i + 1;
    }
    ColumnType::String
}

/// A column of `n` null numeric cells.
pub fn null_cells(n: usize) -> (r: Vec<u64>)
    ensures
        r@.len() == n,
        forall|k: int| 0 <= k < n ==> r@[k] == NULL_BITS,
{
    let mut v: Vec<u64> = Vec::with_capacity(n);
    let mut i: usize = 0;
    while i < n
        invariant
            i <= n,
            v@.len() == i,
            forall|k: int| 0 <= k < i ==> v@[k] == NULL_BITS,
        decreases n - i,
    {
        v.push(NULL_BITS);
        i = i + 1;
    }
    v
}

/// A copy of a slice of numeric cells.
pub fn copy_cells(values: &[u64]) -> (r: Vec<u64>)
    ensures
        r@ == values@,
{
    let mut v: Vec<u64> = Vec::with_capacity(values.len());
    let mut i: usize = 0;
    while i < values.len()
        invariant
            i <= values@.len(),
            v@ == values@.subrange(0, i as int),
        decreases values@.len() - i,
    {
        v.push(values[i]);
        i = i + 1;
    }
    assert(v@ =~= values@);
    v
}

/// Materialises column `col` of row-major input as a column of type `ty`.
pub fn build_column(rows: &[Vec<Cell>], col: usize, ty: ColumnType) -> (r: ColumnData)
    requires
        rows@.len() < u32::MAX,
    ensures
        r.wf(),
        r.kind() == ty,
        r.len() == rows@.len(),
        ty != ColumnType::String ==> forall|k: int|
            0 <= k < rows@.len() ==> (#[trigger] r.num_cell(k)) == if ty == ColumnType::Float64 {
                float_of(cell_at(rows@, k, col as int))
            } else {
                bool_of(cell_at(rows@, k, col as int))
            },
        ty == ColumnType::String ==> forall|k: int|
            0 <= k < rows@.len() ==> #[trigger] r.text_cell(k) == text_of(
                cell_at(rows@, k, col as int),
            ),
{
    let n = rows.len();
    match ty {
        ColumnType::String => {
            let mut intern = StringInternTable::new();
            intern.intern("");
            let mut ids: Vec<u32> = Vec::with_capacity(n);
            let mut i: usize = 0;
            while i < n
                invariant
                    n == rows@.len(),
                    n < u32::MAX,
                    i <= n,
                    intern.wf(),
                    intern.entries().len() <= i + 1,
                    ids@.len() == i,
                    forall|k: int| 0 <= k < i ==> (#[trigger] ids@[k] as int) < intern.entries().len(),
                    forall|k: int|
                        0 <= k < i ==> intern.entries()[#[trigger] ids@[k] as int] == text_of(
                            cell_at(rows@, k, col as int),
                        ),
                decreases n - i,
            {
                let ghost before = intern.entries();
                let id = match get_cell(rows, i, col) {
                    Cell::Text(s) => intern.intern(s.as_str()),
                    _ => {
                        proof {
                            reveal_strlit("");
                            assert(encode_utf8(""@) =~= Seq::<u8>::empty());
                        }
                        intern.intern("")
                    },
                };
                assert(intern.entries()[id as int] == text_of(cell_at(rows@, i as int, col as int)));
                proof {
                    assert forall|k: int| 0 <= k < i implies intern.entries()[ids@[k] as int]
                        == before[ids@[k] as int] by {
                        if !before.contains(intern.entries()[id as int]) {
                            assert(intern.entries() == before.push(intern.entries()[id as int]));
                        }
                    }
                }
                ids.push(id);
                i = i + 1;
            }
            ColumnData::Strings { ids, intern }
        },
        _ => {
            let mut v: Vec<u64> = Vec::with_capacity(n);
            let mut i: usize = 0;
            while i < n
                invariant
                    n == rows@.len(),
                    ty != ColumnType::String,
                    i <= n,
                    v@.len() == i,
                    forall|k: int|
                        0 <= k < i ==> v@[k] == if ty == ColumnType::Float64 {
                            float_of(cell_at(rows@, k, col as int))
                        } else {
                            bool_of(cell_at(rows@, k, col as int))
                        },
                decreases n - i,
            {
                let c = get_cell(rows, i, col);
                let b: u64 = match ty {
                    ColumnType::Float64 => match c {
                        Cell::Number(x) => *x,
                        _ => NULL_BITS,
                    },
                    _ => match c {
                        Cell::Bool(true) => TRUE_BITS,
                        Cell::Bool(false) => FALSE_BITS,
                        _ => NULL_BITS,
                    },
                };
                v.push(b);
                i = i + 1;
            }
            match ty {
                ColumnType::Float64 => ColumnData::Float64(v),
                _ => ColumnData::Bool(v),
            }
        },
    }
}

/// A String column from a list of strings and, per row, a position in it.
pub fn build_strings(unique: &[String], ids: &[u32]) -> (r: ColumnData)
    requires
        unique@.len() < u32::MAX,
        forall|k: int| 0 <= k < ids@.len() ==> (#[trigger] ids@[k] as int) < unique@.len(),
    ensures
        r.wf(),
        r.kind() == ColumnType::String,
        r.len() == ids@.len(),
        forall|k: int|
            0 <= k < ids@.len() ==> #[trigger] r.text_cell(k) == encode_utf8(
                unique@[ids@[k] as int]@,
            ),
{
    let mut intern = StringInternTable::new();
    let mut remap: Vec<u32> = Vec::with_capacity(unique.len());
    let mut j: usize = 0;
    while j < unique.len()
        invariant
            unique@.len() < u32::MAX,
            j <= unique@.len(),
            intern.wf(),
            intern.entries().len() <= j,
            remap@.len() == j,
            forall|k: int| 0 <= k < j ==> (#[trigger] remap@[k] as int) < intern.entries().len(),
            forall|k: int|
                0 <= k < j ==> intern.entries()[#[trigger] remap@[k] as int] == encode_utf8(
                    unique@[k]@,
                ),
        decreases unique@.len() - j,
    {
        let ghost before = intern.entries();
        let id = intern.intern(unique[j].as_str());
        proof {
            assert forall|k: int| 0 <= k < j implies intern.entries()[remap@[k] as int]
                == before[remap@[k] as int] by {
                if !before.contains(intern.entries()[id as int]) {
                    assert(intern.entries() == before.push(intern.entries()[id as int]));
                }
            }
        }
        remap.push(id);
        j = j + 1;
    }
    let mut out: Vec<u32> = Vec::with_capacity(ids.len());
    let mut i: usize = 0;
    while i < ids.len()
        invariant
            i <= ids@.len(),
            remap@.len() == unique@.len(),
            forall|k: int| 0 <= k < ids@.len() ==> (#[trigger] ids@[k] as int) < unique@.len(),
            intern.wf(),
            forall|k: int| 0 <= k < remap@.len() ==> (#[trigger] remap@[k] as int) < intern.entries().len(),
            forall|k: int|
                0 <= k < remap@.len() ==> intern.entries()[#[trigger] remap@[k] as int] == encode_utf8(
                    unique@[k]@,
                ),
            out@.len() == i,
            forall|k: int| 0 <= k < i ==> out@[k] == remap@[ids@[k] as int],
        decreases ids@.len() - i,
    {
        out.push(remap[ids[i] as usize]);
        i = i + 1;
    }
    ColumnData::Strings { ids: out, intern }
}

} // verus!
