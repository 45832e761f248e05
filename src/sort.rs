//! Multi-key, type-aware row ordering.
use std::cmp::Ordering;
use crate::column::ColumnData;
use crate::num::{compare_cells, num_order};
use crate::text::{
    bytes_order, compare_bytes, lemma_bytes_order_equal, lemma_bytes_order_reverse,
    lemma_bytes_order_transitive, reverse_order,
};
use crate::types::{SortConfig, SortDirection};
use vstd::prelude::*;

verus! {

/// Order of rows `a` and `b` by column `c`: numbers null-first, text by its
/// bytes; a missing column ties.
pub open spec fn key_order(cols: Seq<ColumnData>, c: int, a: int, b: int) -> Ordering {
    if 0 <= c < cols.len() {
        match cols[c] {
            ColumnData::Strings { .. } => bytes_order(cols[c].text_cell(a), cols[c].text_cell(b)),
            _ => num_order(cols[c].num_cell(a), cols[c].num_cell(b)),
        }
    } else {
        Ordering::Equal
    }
}

pub open spec fn directed(o: Ordering, d: SortDirection) -> Ordering {
    match d {
        SortDirection::Ascending => o,
        SortDirection::Descending => reverse_order(o),
    }
}

/// Order of rows `a` and `b` under the sort keys: the first key that does
/// not tie decides; if all tie, the rows are equal.
pub open spec fn rows_order(cols: Seq<ColumnData>, keys: Seq<SortConfig>, a: int, b: int) -> Ordering
    decreases keys.len(),
{
    if keys.len() == 0 {
        Ordering::Equal
    } else {
        let o = directed(key_order(cols, keys[0].column_index as int, a, b), keys[0].direction);
        if o != Ordering::Equal {
            o
        } else {
            rows_order(cols, keys.drop_first(), a, b)
        }
    }
}

/// Row `r` exists in every column, and every column is well formed.
pub open spec fn row_in_all(cols: Seq<ColumnData>, r: int) -> bool {
    forall|k: int| 0 <= k < cols.len() ==> (#[trigger] cols[k]).wf() && 0 <= r < cols[k].len()
}

/// The laws of a total order for `o` at rows `a`, `b`, `c`: swapping two
/// rows reverses the result, "not after" is transitive, and rows that tie
/// compare alike with every other row.
pub open spec fn order_laws_at(o: spec_fn(int, int) -> Ordering, a: int, b: int, c: int) -> bool {
    &&& o(a, b) == reverse_order(o(b, a))
    &&& (o(a, b) != Ordering::Greater && o(b, c) != Ordering::Greater ==> o(a, c)
        != Ordering::Greater)
    &&& (o(a, b) == Ordering::Equal ==> o(a, c) == o(b, c))
}

pub open spec fn order_laws_all_at(o: spec_fn(int, int) -> Ordering, a: int, b: int, c: int) -> bool {
    &&& order_laws_at(o, a, b, c)
    &&& order_laws_at(o, a, c, b)
    &&& order_laws_at(o, b, a, c)
    &&& order_laws_at(o, b, c, a)
    &&& order_laws_at(o, c, a, b)
    &&& order_laws_at(o, c, b, a)
}

pub open spec fn key_fn(cols: Seq<ColumnData>, key: SortConfig) -> spec_fn(int, int) -> Ordering {
    |x: int, y: int| directed(key_order(cols, key.column_index as int, x, y), key.direction)
}

pub open spec fn rows_fn(cols: Seq<ColumnData>, keys: Seq<SortConfig>) -> spec_fn(int, int) -> Ordering {
    |x: int, y: int| rows_order(cols, keys, x, y)
}

/// The row order is a total order (over all rows, in every arrangement).
pub open spec fn is_total_order(cols: Seq<ColumnData>, keys: Seq<SortConfig>) -> bool {
    forall|a: int, b: int, c: int| #[trigger] order_laws_at(rows_fn(cols, keys), a, b, c)
}

proof fn lemma_key_laws(cols: Seq<ColumnData>, key: SortConfig, a: int, b: int, c: int)
    ensures
        order_laws_at(key_fn(cols, key), a, b, c),
{
    let ci = key.column_index as int;
    if 0 <= ci < cols.len() {
        if cols[ci] is Strings {
            let (ta, tb, tc) = (cols[ci].text_cell(a), cols[ci].text_cell(b), cols[ci].text_cell(c));
            lemma_bytes_order_reverse(ta, tb);
            lemma_bytes_order_reverse(tb, tc);
            lemma_bytes_order_reverse(ta, tc);
            lemma_bytes_order_equal(ta, tb);
            if bytes_order(ta, tb) != Ordering::Greater && bytes_order(tb, tc) != Ordering::Greater {
                lemma_bytes_order_transitive(ta, tb, tc);
            }
            if bytes_order(tc, tb) != Ordering::Greater && bytes_order(tb, ta) != Ordering::Greater {
                lemma_bytes_order_transitive(tc, tb, ta);
            }
        }
    }
}

proof fn lemma_key_laws_all(cols: Seq<ColumnData>, key: SortConfig, a: int, b: int, c: int)
    ensures
        order_laws_all_at(key_fn(cols, key), a, b, c),
{
    lemma_key_laws(cols, key, a, b, c);
    lemma_key_laws(cols, key, a, c, b);
    lemma_key_laws(cols, key, b, a, c);
    lemma_key_laws(cols, key, b, c, a);
    lemma_key_laws(cols, key, c, a, b);
    lemma_key_laws(cols, key, c, b, a);
}

/// The multi-key row order obeys the laws of a total order.
pub proof fn lemma_rows_order_laws(cols: Seq<ColumnData>, keys: Seq<SortConfig>, a: int, b: int, c: int)
    ensures
        order_laws_at(rows_fn(cols, keys), a, b, c),
    decreases keys.len(),
{
    if keys.len() > 0 {
        let rest = keys.drop_first();
        lemma_key_laws_all(cols, keys[0], a, b, c);
        lemma_rows_order_laws(cols, rest, a, b, c);
        let d = key_fn(cols, keys[0]);
        assert(rows_order(cols, keys, a, b) == if d(a, b) != Ordering::Equal { d(a, b) } else { rows_order(cols, rest, a, b) });
        assert(rows_order(cols, keys, b, a) == if d(b, a) != Ordering::Equal { d(b, a) } else { rows_order(cols, rest, b, a) });
        assert(rows_order(cols, keys, b, c) == if d(b, c) != Ordering::Equal { d(b, c) } else { rows_order(cols, rest, b, c) });
        assert(rows_order(cols, keys, a, c) == if d(a, c) != Ordering::Equal { d(a, c) } else { rows_order(cols, rest, a, c) });
    }
}

/// The multi-key row order is a total order.
pub proof fn lemma_rows_total_order(cols: Seq<ColumnData>, keys: Seq<SortConfig>)
    ensures
        is_total_order(cols, keys),
{
    assert forall|a: int, b: int, c: int| #[trigger] order_laws_at(rows_fn(cols, keys), a, b, c) by {
        lemma_rows_order_laws(cols, keys, a, b, c);
    }
}

/// Compares rows `a` and `b` by column `c`.
pub fn compare_key(cols: &[ColumnData], c: usize, a: usize, b: usize) -> (r: Ordering)
    requires
        forall|k: int| 0 <= k < cols@.len() ==> (#[trigger] cols@[k]).wf() && a < cols@[k].len() && b < cols@[k].len(),
    ensures
        r == key_order(cols@, c as int, a as int, b as int),
{
    if c >= cols.len() {
        return Ordering::Equal;
    }
    let col = &cols[c];
    assert(col.wf() && a < col.len() && b < col.len());
    match col {
        ColumnData::Float64(v) => compare_cells(v[a], v[b]),
        ColumnData::Bool(v) => compare_cells(v[a], v[b]),
        ColumnData::Strings { ids, intern } => compare_bytes(intern.entry_bytes(ids[a]), intern.entry_bytes(ids[b])),
    }
}

/// Compares rows `a` and `b` under the sort keys.
pub fn compare_rows(cols: &[ColumnData], keys: &[SortConfig], a: usize, b: usize) -> (r: Ordering)
    requires
        forall|k: int| 0 <= k < cols@.len() ==> (#[trigger] cols@[k]).wf() && a < cols@[k].len() && b < cols@[k].len(),
    ensures
        r == rows_order(cols@, keys@, a as int, b as int),
{
    let mut i: usize = 0;
    assert(keys@.subrange(0, keys@.len() as int) =~= keys@);
    while i < keys.len()
        invariant
            i <= keys@.len(),
            forall|k: int| 0 <= k < cols@.len() ==> (#[trigger] cols@[k]).wf() && a < cols@[k].len() && b < cols@[k].len(),
            rows_order(cols@, keys@, a as int, b as int) == rows_order(
                cols@,
                keys@.subrange(i as int, keys@.len() as int),
                a as int,
                b as int,
            ),
        decreases keys@.len() - i,
    {
        let key = keys[i];
        let o = compare_key(cols, key.column_index, a, b);
        let d = match key.direction {
            SortDirection::Ascending => o,
            SortDirection::Descending => match o {
                Ordering::Less => Ordering::Greater,
                Ordering::Greater => Ordering::Less,
                Ordering::Equal => Ordering::Equal,
            },
        };
        let ghost rest = keys@.subrange(i as int, keys@.len() as int);
        assert(rest[0] == key);
        assert(rest.drop_first() =~= keys@.subrange(i + 1, keys@.len() as int));
        match d {
            Ordering::Equal => {},
            _ => return d,
        }
        i = i + 1;
    }
    Ordering::Equal
}

/// Relies on std's slice::sort_by: a stable sort. Given a comparator that is
/// a total order, it leaves a permutation of the old contents, ordered by the
/// comparator, with equal elements in their old relative order.
#[verifier::external_body]
fn sort_by_rows(indices: &mut Vec<u32>, cols: &[ColumnData], keys: &[SortConfig])
    requires
        is_total_order(cols@, keys@),
        forall|i: int| 0 <= i < old(indices)@.len() ==> row_in_all(cols@, #[trigger] old(indices)@[i] as int),
    ensures
        final(indices)@.to_multiset() == old(indices)@.to_multiset(),
        final(indices)@.len() == old(indices)@.len(),
        forall|i: int, j: int|
            0 <= i < j < final(indices)@.len() ==> rows_order(
                cols@,
                keys@,
                final(indices)@[i] as int,
                final(indices)@[j] as int,
            ) != Ordering::Greater,
        old(indices)@.no_duplicates() ==> forall|i: int, j: int|
            0 <= i < j < final(indices)@.len() && rows_order(
                cols@,
                keys@,
                final(indices)@[i] as int,
                final(indices)@[j] as int,
            ) == Ordering::Equal ==> old(indices)@.index_of(final(indices)@[i]) < old(
                indices,
            )@.index_of(final(indices)@[j]),
{
    indices.sort_by(|a, b| compare_rows(cols, keys, *a as usize, *b as usize));
}

/// In a list without duplicates, the element at `i` is found at `i`.
pub proof fn lemma_index_of_distinct(s: Seq<u32>, i: int)
    requires
        s.no_duplicates(),
        0 <= i < s.len(),
    ensures
        s.index_of(s[i]) == i,
{
    assert(s.contains(s[i]));
}

/// Stable sort of row indices under the sort keys; with no keys the list is
/// left as it is.
pub fn sort_rows(indices: &mut Vec<u32>, cols: &[ColumnData], keys: &[SortConfig])
    requires
        forall|i: int| 0 <= i < old(indices)@.len() ==> row_in_all(cols@, #[trigger] old(indices)@[i] as int),
    ensures
        final(indices)@.to_multiset() == old(indices)@.to_multiset(),
        final(indices)@.len() == old(indices)@.len(),
        forall|i: int, j: int|
            0 <= i < j < final(indices)@.len() ==> rows_order(
                cols@,
                keys@,
                final(indices)@[i] as int,
                final(indices)@[j] as int,
            ) != Ordering::Greater,
        old(indices)@.no_duplicates() ==> forall|i: int, j: int|
            0 <= i < j < final(indices)@.len() && rows_order(
                cols@,
                keys@,
                final(indices)@[i] as int,
                final(indices)@[j] as int,
            ) == Ordering::Equal ==> old(indices)@.index_of(final(indices)@[i]) < old(
                indices,
            )@.index_of(final(indices)@[j]),
        keys@.len() == 0 ==> final(indices)@ == old(indices)@,
{
    if keys.len() == 0 {
        proof {
            assert forall|i: int, j: int| 0 <= i < j < indices@.len() implies rows_order(
                cols@,
                keys@,
                indices@[i] as int,
                indices@[j] as int,
            ) == Ordering::Equal && (indices@.no_duplicates() ==> indices@.index_of(indices@[i]) < indices@.index_of(indices@[j])) by {
                if indices@.no_duplicates() {
                    lemma_index_of_distinct(indices@, i);
                    lemma_index_of_distinct(indices@, j);
                }
            }
        }
        return;
    }
    proof {
        lemma_rows_total_order(cols@, keys@);
    }
    sort_by_rows(indices, cols, keys);
}

} // verus!
