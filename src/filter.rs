//! Column filters and the global text filter.
use std::cmp::Ordering;
use crate::column::ColumnData;
use crate::num::{compare_values, is_null, is_null_spec, num_key, FALSE_BITS, TRUE_BITS};
use crate::text::{
    bytes_contains, bytes_ends_with, bytes_order, bytes_starts_with, compare_bytes, fold, folded,
    lemma_bytes_order_equal, seq_contains, seq_ends_with, seq_starts_with,
};
use crate::types::{ColumnFilter, FilterOp, FilterValue, GlobalFilter, NumOperand};
use vstd::prelude::*;
use vstd::string::StringSliceAdditionalSpecFns;
use vstd::utf8::{decode_utf8, encode_utf8};

verus! {

broadcast use vstd::utf8::group_utf8_lib;

/// The cell equals the operand, or lies strictly inside its tolerance window.
pub open spec fn within_tolerance(cell: u64, v: NumOperand) -> bool {
    num_key(cell) == num_key(v.value) || (num_key(v.below) < num_key(cell) && num_key(cell)
        < num_key(v.above))
}

/// A numeric cell against a numeric operand. Nulls (in the cell or the
/// operand) satisfy no operator; equality means "equal, or strictly inside
/// the tolerance window", and `Gte` / `Lte` widen their bound to that window.
pub open spec fn num_filter_holds(cell: u64, op: FilterOp, v: NumOperand) -> bool {
    &&& !is_null_spec(cell)
    &&& !is_null_spec(v.value)
    &&& !is_null_spec(v.below)
    &&& !is_null_spec(v.above)
    &&& match op {
        FilterOp::Eq => within_tolerance(cell, v),
        FilterOp::Neq => !within_tolerance(cell, v),
        FilterOp::Gt => num_key(cell) > num_key(v.value),
        FilterOp::Gte => num_key(cell) >= num_key(v.below),
        FilterOp::Lt => num_key(cell) < num_key(v.value),
        FilterOp::Lte => num_key(cell) <= num_key(v.above),
        _ => false,
    }
}

pub open spec fn bool_bits(b: bool) -> u64 {
    if b {
        TRUE_BITS
    } else {
        FALSE_BITS
    }
}

/// A boolean cell against a boolean operand: only `Eq` and `Neq` apply.
pub open spec fn bool_filter_holds(cell: u64, op: FilterOp, b: bool) -> bool {
    &&& !is_null_spec(cell)
    &&& match op {
        FilterOp::Eq => num_key(cell) == num_key(bool_bits(b)),
        FilterOp::Neq => num_key(cell) != num_key(bool_bits(b)),
        _ => false,
    }
}

/// A text cell (UTF-8 bytes) against a text operand: ordinal comparisons,
/// and case-insensitive substring, prefix and suffix tests.
pub open spec fn text_filter_holds(cell: Seq<u8>, op: FilterOp, q: Seq<char>) -> bool {
    let qb = encode_utf8(q);
    match op {
        FilterOp::Eq => cell == qb,
        FilterOp::Neq => cell != qb,
        FilterOp::Gt => bytes_order(cell, qb) == Ordering::Greater,
        FilterOp::Gte => bytes_order(cell, qb) != Ordering::Less,
        FilterOp::Lt => bytes_order(cell, qb) == Ordering::Less,
        FilterOp::Lte => bytes_order(cell, qb) != Ordering::Greater,
        FilterOp::Contains => seq_contains(folded(decode_utf8(cell)), folded(q)),
        FilterOp::StartsWith => seq_starts_with(folded(decode_utf8(cell)), folded(q)),
        FilterOp::EndsWith => seq_ends_with(folded(decode_utf8(cell)), folded(q)),
    }
}

/// Row `r` satisfies filter `f`. A missing column, or an operand whose type
/// does not fit the column, excludes the row.
pub open spec fn filter_holds(cols: Seq<ColumnData>, r: int, f: ColumnFilter) -> bool {
    if f.column_index >= cols.len() {
        false
    } else {
        let col = cols[f.column_index as int];
        match col {
            ColumnData::Float64(_) => match f.value {
                FilterValue::Float64(v) => num_filter_holds(col.num_cell(r), f.op, v),
                _ => false,
            },
            ColumnData::Bool(_) => match f.value {
                FilterValue::Bool(b) => bool_filter_holds(col.num_cell(r), f.op, b),
                _ => false,
            },
            ColumnData::Strings { .. } => match f.value {
                FilterValue::String(q) => text_filter_holds(col.text_cell(r), f.op, q@),
                _ => false,
            },
        }
    }
}

pub open spec fn has_text_column(cols: Seq<ColumnData>) -> bool {
    exists|c: int| 0 <= c < cols.len() && (#[trigger] cols[c]) is Strings
}

/// Some String column of row `r` holds `needle` in its lower-case form.
pub open spec fn any_text_contains(cols: Seq<ColumnData>, r: int, needle: Seq<u8>) -> bool {
    exists|c: int|
        0 <= c < cols.len() && (#[trigger] cols[c]) is Strings && seq_contains(
            folded(decode_utf8(cols[c].text_cell(r))),
            needle,
        )
}

/// Row `r` passes the global filter: there is none, its query is empty, the
/// table has no String column, or some String column contains the query,
/// both sides lower-cased.
pub open spec fn global_holds(cols: Seq<ColumnData>, r: int, g: Option<GlobalFilter>) -> bool {
    match g {
        None => true,
        Some(g) => g.query@.len() == 0 || !has_text_column(cols) || any_text_contains(
            cols,
            r,
            folded(g.query@),
        ),
    }
}

/// Row `r` passes every column filter.
pub open spec fn filters_hold(cols: Seq<ColumnData>, filters: Seq<ColumnFilter>, r: int) -> bool {
    forall|i: int| 0 <= i < filters.len() ==> filter_holds(cols, r, #[trigger] filters[i])
}

/// Row `r` passes every column filter and the global filter.
pub open spec fn row_passes(
    cols: Seq<ColumnData>,
    filters: Seq<ColumnFilter>,
    g: Option<GlobalFilter>,
    r: int,
) -> bool {
    &&& filters_hold(cols, filters, r)
    &&& global_holds(cols, r, g)
}

/// Evaluates a numeric filter on one cell.
pub fn num_matches(cell: u64, op: FilterOp, v: &NumOperand) -> (r: bool)
    ensures
        r == num_filter_holds(cell, op, *v),
{
    if is_null(cell) || is_null(v.value) || is_null(v.below) || is_null(v.above) {
        return false;
    }
    let to_below = compare_values(cell, v.below);
    let to_above = compare_values(cell, v.above);
    let to_value = compare_values(cell, v.value);
    let inside = matches!(to_value, Ordering::Equal) || (matches!(to_below, Ordering::Greater)
        && matches!(to_above, Ordering::Less));
    match op {
        FilterOp::Eq => inside,
        FilterOp::Neq => !inside,
        FilterOp::Gt => matches!(to_value, Ordering::Greater),
        FilterOp::Gte => !matches!(to_below, Ordering::Less),
        FilterOp::Lt => matches!(to_value, Ordering::Less),
        FilterOp::Lte => !matches!(to_above, Ordering::Greater),
        _ => false,
    }
}

/// Evaluates a boolean filter on one cell.
pub fn bool_matches(cell: u64, op: FilterOp, b: bool) -> (r: bool)
    ensures
        r == bool_filter_holds(cell, op, b),
{
    if is_null(cell) {
        return false;
    }
    let target = if b {
        TRUE_BITS
    } else {
        FALSE_BITS
    };
    let same = matches!(compare_values(cell, target), Ordering::Equal);
    match op {
        FilterOp::Eq => same,
        FilterOp::Neq => !same,
        _ => false,
    }
}

/// Evaluates a text filter on one cell, given the cell's bytes and the
/// lower-cased bytes of the cell and of the operand.
pub fn text_matches_folded(
    cell: &[u8],
    cell_folded: &[u8],
    op: FilterOp,
    q: &[u8],
    q_folded: &[u8],
) -> (r: bool)
    ensures
        r == match op {
            FilterOp::Eq => cell@ == q@,
            FilterOp::Neq => cell@ != q@,
            FilterOp::Gt => bytes_order(cell@, q@) == Ordering::Greater,
            FilterOp::Gte => bytes_order(cell@, q@) != Ordering::Less,
            FilterOp::Lt => bytes_order(cell@, q@) == Ordering::Less,
            FilterOp::Lte => bytes_order(cell@, q@) != Ordering::Greater,
            FilterOp::Contains => seq_contains(cell_folded@, q_folded@),
            FilterOp::StartsWith => seq_starts_with(cell_folded@, q_folded@),
            FilterOp::EndsWith => seq_ends_with(cell_folded@, q_folded@),
        },
{
    match op {
        FilterOp::Contains => bytes_contains(cell_folded, q_folded),
        FilterOp::StartsWith => bytes_starts_with(cell_folded, q_folded),
        FilterOp::EndsWith => bytes_ends_with(cell_folded, q_folded),
        _ => {
            let o = compare_bytes(cell, q);
            proof {
                lemma_bytes_order_equal(cell@, q@);
            }
            match op {
                FilterOp::Eq => matches!(o, Ordering::Equal),
                FilterOp::Neq => !matches!(o, Ordering::Equal),
                FilterOp::Gt => matches!(o, Ordering::Greater),
                FilterOp::Gte => !matches!(o, Ordering::Less),
                FilterOp::Lt => matches!(o, Ordering::Less),
                _ => !matches!(o, Ordering::Greater),
            }
        },
    }
}

/// Evaluates column filter `f` on row `r`.
pub fn matches_filter(cols: &[ColumnData], r: usize, f: &ColumnFilter) -> (res: bool)
    requires
        forall|c: int| 0 <= c < cols@.len() ==> (#[trigger] cols@[c]).wf() && r < cols@[c].len(),
    ensures
        res == filter_holds(cols@, r as int, *f),
{
    if f.column_index >= cols.len() {
        return false;
    }
    let col = &cols[f.column_index];
    assert(col.wf() && r < col.len());
    match col {
        ColumnData::Float64(v) => match &f.value {
            FilterValue::Float64(x) => num_matches(v[r], f.op, x),
            _ => false,
        },
        ColumnData::Bool(v) => match &f.value {
            FilterValue::Bool(b) => bool_matches(v[r], f.op, *b),
            _ => false,
        },
        ColumnData::Strings { ids, intern } => match &f.value {
            FilterValue::String(q) => {
                let cell = intern.entry_bytes(ids[r]);
                match f.op {
                    FilterOp::Contains | FilterOp::StartsWith | FilterOp::EndsWith => {
                        let s = intern.resolve(ids[r]);
                        assert(s@ == decode_utf8(cell@));
                        let cell_folded = fold(s);
                        let q_folded = fold(q.as_str());
                        text_matches_folded(
                            cell,
                            cell_folded.as_slice(),
                            f.op,
                            q.as_str().as_bytes(),
                            q_folded.as_slice(),
                        )
                    },
                    _ => text_matches_folded(cell, &[], f.op, q.as_str().as_bytes(), &[]),
                }
            },
            _ => false,
        },
    }
}

/// Whether the table has a String column.
pub fn has_text_columns(cols: &[ColumnData]) -> (r: bool)
    ensures
        r == has_text_column(cols@),
{
    let mut c: usize = 0;
    while c < cols.len()
        invariant
            c <= cols@.len(),
            forall|k: int| 0 <= k < c ==> !((#[trigger] cols@[k]) is Strings),
        decreases cols@.len() - c,
    {
        if let ColumnData::Strings { .. } = &cols[c] {
            return true;
        }
        c = c + 1;
    }
    false
}

/// Whether some String column of row `r`, lower-cased, contains `needle`.
pub fn any_column_contains(cols: &[ColumnData], r: usize, needle: &[u8]) -> (res: bool)
    requires
        forall|c: int| 0 <= c < cols@.len() ==> (#[trigger] cols@[c]).wf() && r < cols@[c].len(),
    ensures
        res == any_text_contains(cols@, r as int, needle@),
{
    let mut c: usize = 0;
    while c < cols.len()
        invariant
            c <= cols@.len(),
            forall|k: int| 0 <= k < cols@.len() ==> (#[trigger] cols@[k]).wf() && r < cols@[k].len(),
            forall|k: int|
                0 <= k < c ==> !((#[trigger] cols@[k]) is Strings && seq_contains(
                    folded(decode_utf8(cols@[k].text_cell(r as int))),
                    needle@,
                )),
        decreases cols@.len() - c,
    {
        let col = &cols[c];
        assert(col.wf() && r < col.len());
        if let ColumnData::Strings { ids, intern } = col {
            let s = intern.resolve(ids[r]);
            let cell_folded = fold(s);
            if bytes_contains(cell_folded.as_slice(), needle) {
                return true;
            }
        }
        c = c + 1;
    }
    false
}

/// Whether row `r` satisfies every filter of `filters`.
pub fn passes_filters(cols: &[ColumnData], r: usize, filters: &[ColumnFilter]) -> (res: bool)
    requires
        forall|c: int| 0 <= c < cols@.len() ==> (#[trigger] cols@[c]).wf() && r < cols@[c].len(),
    ensures
        res == filters_hold(cols@, filters@, r as int),
{
    let mut i: usize = 0;
    while i < filters.len()
        invariant
            i <= filters@.len(),
            forall|c: int| 0 <= c < cols@.len() ==> (#[trigger] cols@[c]).wf() && r < cols@[c].len(),
            forall|k: int| 0 <= k < i ==> filter_holds(cols@, r as int, #[trigger] filters@[k]),
        decreases filters@.len() - i,
    {
        if !matches_filter(cols, r, &filters[i]) {
            return false;
        }
        i = i + 1;
    }
    true
}

/// The rows of `[0, n)` that pass every column filter and the global
/// filter, in increasing order.
pub fn filter_rows(
    cols: &[ColumnData],
    n: usize,
    filters: &[ColumnFilter],
    global: &Option<GlobalFilter>,
) -> (v: Vec<u32>)
    requires
        n <= u32::MAX as usize + 1,
        forall|c: int| 0 <= c < cols@.len() ==> (#[trigger] cols@[c]).wf() && cols@[c].len() == n,
    ensures
        forall|i: int, j: int| 0 <= i < j < v@.len() ==> v@[i] < v@[j],
        forall|i: int|
            0 <= i < v@.len() ==> v@[i] < n && row_passes(cols@, filters@, *global, v@[i] as int),
        forall|r: int| 0 <= r < n && row_passes(cols@, filters@, *global, r) ==> v@.contains(r as u32),
{
    let needle: Option<Vec<u8>> = match global {
        Some(g) => {
            if !g.query.as_str().is_empty() && has_text_columns(cols) {
                Some(fold(g.query.as_str()))
            } else {
                None
            }
        },
        None => None,
    };
    let mut v: Vec<u32> = Vec::new();
    let mut r: usize = 0;
    while r < n
        invariant
            r <= n,
            n <= u32::MAX as usize + 1,
            forall|c: int| 0 <= c < cols@.len() ==> (#[trigger] cols@[c]).wf() && cols@[c].len() == n,
            needle matches Some(nd) ==> (*global matches Some(g) && g.query@.len() > 0 && has_text_column(cols@) && nd@ == folded(g.query@)),
            needle is None ==> forall|x: int| #[trigger] global_holds(cols@, x, *global),
            forall|i: int, j: int| 0 <= i < j < v@.len() ==> v@[i] < v@[j],
            forall|i: int| 0 <= i < v@.len() ==> v@[i] < r,
            forall|i: int|
                0 <= i < v@.len() ==> row_passes(cols@, filters@, *global, v@[i] as int),
            forall|x: int| 0 <= x < r && row_passes(cols@, filters@, *global, x) ==> v@.contains(x as u32),
        decreases n - r,
    {
        let mut pass = passes_filters(cols, r, filters);
        if pass {
            if let Some(nd) = &needle {
                pass = any_column_contains(cols, r, nd.as_slice());
            }
        }
        assert(pass == row_passes(cols@, filters@, *global, r as int));
        if pass {
            let ghost before = v@;
            v.push(r as u32);
            proof {
                assert forall|x: int| 0 <= x < r && row_passes(cols@, filters@, *global, x) implies v@.contains(x as u32) by {
                    let k = choose|k: int| 0 <= k < before.len() && before[k] == x as u32;
                    assert(v@[k] == x as u32);
                }
                assert(v@[v@.len() - 1] == r as u32);
            }
        }
        r = r + 1;
    }
    v
}

} // verus!
