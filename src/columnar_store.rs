//! The columnar table: ingestion, configuration and the cached view.
use std::cmp::Ordering;
use crate::column::{
    build_column, build_strings, bool_of, copy_cells, cell_at, detect_from, detect_type, float_of, null_cells,
    text_of, ColumnData,
};
use crate::filter::{filter_holds, filter_rows, filters_hold, passes_filters, row_passes};
use crate::num::{is_null_spec, NULL_BITS};
use crate::sort::{lemma_rows_order_laws, row_in_all, rows_order, sort_rows};
use crate::types::{Cell, ColumnFilter, ColumnType, GlobalFilter, SortConfig};
use vstd::prelude::*;
use vstd::utf8::encode_utf8;

verus! {

broadcast use vstd::seq_lib::group_seq_properties;

/// Bits of `36.0`, the default row height.
pub const DEFAULT_ROW_HEIGHT: u64 = 0x4042_0000_0000_0000;

/// Bits of `600.0`, the default viewport height.
pub const DEFAULT_VIEWPORT_HEIGHT: u64 = 0x4082_c000_0000_0000;

pub const DEFAULT_OVERSCAN: usize = 5;

/// Typed columns sharing one row count, the filter and sort configuration,
/// and the cached, filtered and sorted permutation of row indices.
pub struct ColumnarStore {
    data: Vec<ColumnData>,
    row_count: usize,
    generation: u64,
    view_indices: Vec<u32>,
    view_dirty: bool,
    sort_configs: Vec<SortConfig>,
    filters: Vec<ColumnFilter>,
    global_filter: Option<GlobalFilter>,
    row_height: u64,
    viewport_height: u64,
    overscan: usize,
}

/// `v` is the filtered and sorted view of `n` rows: exactly the rows that
/// pass the filters, each once, ordered by the sort keys and, among rows
/// that tie on every key, by row index.
pub open spec fn is_view_of(
    v: Seq<u32>,
    cols: Seq<ColumnData>,
    n: nat,
    filters: Seq<ColumnFilter>,
    g: Option<GlobalFilter>,
    keys: Seq<SortConfig>,
) -> bool {
    &&& v.no_duplicates()
    &&& forall|i: int| 0 <= i < v.len() ==> (#[trigger] v[i]) < n && row_passes(cols, filters, g, v[i] as int)
    &&& forall|r: int| 0 <= r < n && row_passes(cols, filters, g, r) ==> v.contains(r as u32)
    &&& forall|i: int, j: int|
        0 <= i < j < v.len() ==> rows_order(cols, keys, v[i] as int, v[j] as int) != Ordering::Greater
    &&& forall|i: int, j: int|
        0 <= i < j < v.len() && rows_order(cols, keys, v[i] as int, v[j] as int) == Ordering::Equal
            ==> v[i] < v[j]
}

impl ColumnarStore {
    pub closed spec fn columns(&self) -> Seq<ColumnData> {
        self.data@
    }

    pub closed spec fn rows(&self) -> nat {
        self.row_count as nat
    }

    pub closed spec fn spec_generation(&self) -> u64 {
        self.generation
    }

    pub closed spec fn is_dirty(&self) -> bool {
        self.view_dirty
    }

    pub closed spec fn view(&self) -> Seq<u32> {
        self.view_indices@
    }

    pub closed spec fn sort_keys(&self) -> Seq<SortConfig> {
        self.sort_configs@
    }

    pub closed spec fn column_filters(&self) -> Seq<ColumnFilter> {
        self.filters@
    }

    pub closed spec fn global(&self) -> Option<GlobalFilter> {
        self.global_filter
    }

    /// Scroll configuration: row height and viewport height as float bits,
    /// and the overscan.
    pub closed spec fn scroll(&self) -> (u64, u64, usize) {
        (self.row_height, self.viewport_height, self.overscan)
    }

    /// The cached view is current.
    pub open spec fn view_valid(&self) -> bool {
        is_view_of(
            self.view(),
            self.columns(),
            self.rows(),
            self.column_filters(),
            self.global(),
            self.sort_keys(),
        )
    }

    pub open spec fn wf(&self) -> bool {
        &&& self.rows() < u32::MAX
        &&& forall|c: int|
            0 <= c < self.columns().len() ==> (#[trigger] self.columns()[c]).wf()
                && self.columns()[c].len() == self.rows()
        &&& !self.is_dirty() ==> self.view_valid()
    }

    /// The configuration and data are those of `o`; only the view may differ.
    pub open spec fn same_content(&self, o: &Self) -> bool {
        &&& self.columns() == o.columns()
        &&& self.rows() == o.rows()
        &&& self.spec_generation() == o.spec_generation()
        &&& self.sort_keys() == o.sort_keys()
        &&& self.column_filters() == o.column_filters()
        &&& self.global() == o.global()
        &&& self.scroll() == o.scroll()
    }

    /// An empty table with default scroll settings.
    pub fn new() -> (r: Self)
        ensures
            r.wf(),
            r.columns().len() == 0,
            r.rows() == 0,
            r.spec_generation() == 0,
            r.is_dirty(),
            r.view().len() == 0,
            r.sort_keys().len() == 0,
            r.column_filters().len() == 0,
            r.global() is None,
            r.scroll() == (DEFAULT_ROW_HEIGHT, DEFAULT_VIEWPORT_HEIGHT, DEFAULT_OVERSCAN),
    {
        ColumnarStore {
            data: Vec::new(),
            row_count: 0,
            generation: 0,
            view_indices: Vec::new(),
            view_dirty: true,
            sort_configs: Vec::new(),
            filters: Vec::new(),
            global_filter: None,
            row_height: DEFAULT_ROW_HEIGHT,
            viewport_height: DEFAULT_VIEWPORT_HEIGHT,
            overscan: DEFAULT_OVERSCAN,
        }
    }

    /// Replaces all columns from row-major cells. Each column takes the type
    /// of its first non-null cell (a number, a boolean, else text; an
    /// all-null column is text). Bumps the generation and marks the view
    /// dirty.
    pub fn ingest_rows(&mut self, column_count: usize, rows: &[Vec<Cell>])
        requires
            old(self).wf(),
            rows@.len() < u32::MAX,
            old(self).spec_generation() < u64::MAX,
        ensures
            final(self).wf(),
            final(self).is_dirty(),
            final(self).rows() == rows@.len(),
            final(self).spec_generation() == old(self).spec_generation() + 1,
            final(self).columns().len() == column_count,
            forall|c: int|
                0 <= c < column_count ==> (#[trigger] final(self).columns()[c]).kind() == detect_from(
                    rows@,
                    c,
                    0,
                ),
            forall|c: int, r: int|
                0 <= c < column_count && 0 <= r < rows@.len() ==> #[trigger] cell_stored(
                    final(self).columns()[c],
                    r,
                    cell_at(rows@, r, c),
                ),
            final(self).sort_keys() == old(self).sort_keys(),
            final(self).column_filters() == old(self).column_filters(),
            final(self).global() == old(self).global(),
            final(self).scroll() == old(self).scroll(),
    {
        let n = rows.len();
        let mut data: Vec<ColumnData> = Vec::with_capacity(column_count);
        let mut c: usize = 0;
        while c < column_count
            invariant
                c <= column_count,
                n == rows@.len(),
                n < u32::MAX,
                data@.len() == c,
                forall|k: int| 0 <= k < c ==> (#[trigger] data@[k]).wf() && data@[k].len() == n,
                forall|k: int| 0 <= k < c ==> (#[trigger] data@[k]).kind() == detect_from(rows@, k, 0),
                forall|k: int, r: int|
                    0 <= k < c && 0 <= r < n ==> #[trigger] cell_stored(data@[k], r, cell_at(rows@, r, k)),
            decreases column_count - c,
        {
            let ty = detect_type(rows, c);
            let col = build_column(rows, c, ty);
            proof {
                assert forall|r: int| 0 <= r < n implies cell_stored(col, r, cell_at(rows@, r, c as int)) by {
                    if ty == ColumnType::String {
                        assert(col.text_cell(r) == text_of(cell_at(rows@, r, c as int)));
                    } else {
                        assert(col.num_cell(r) == if ty == ColumnType::Float64 {
                            float_of(cell_at(rows@, r, c as int))
                        } else {
                            bool_of(cell_at(rows@, r, c as int))
                        });
                    }
                }
            }
            data.push(col);
            c = c + 1;
        }
        self.data = data;
        self.row_count = n;
        self.generation = self.generation + 1;
        self.view_dirty = true;
    }

    /// Starts direct ingestion: `col_count` placeholder Float64 columns of
    /// `row_count` null cells. Bumps the generation and marks the view dirty.
    pub fn init(&mut self, col_count: usize, row_count: usize)
        requires
            old(self).wf(),
            row_count < u32::MAX,
            old(self).spec_generation() < u64::MAX,
        ensures
            final(self).wf(),
            final(self).is_dirty(),
            final(self).rows() == row_count,
            final(self).spec_generation() == old(self).spec_generation() + 1,
            final(self).columns().len() == col_count,
            forall|c: int|
                0 <= c < col_count ==> (#[trigger] final(self).columns()[c]).kind()
                    == ColumnType::Float64,
            forall|c: int, r: int|
                0 <= c < col_count && 0 <= r < row_count ==> #[trigger] final(self).columns()[c].num_cell(r)
                    == NULL_BITS,
            final(self).sort_keys() == old(self).sort_keys(),
            final(self).column_filters() == old(self).column_filters(),
            final(self).global() == old(self).global(),
            final(self).scroll() == old(self).scroll(),
    {
        let mut data: Vec<ColumnData> = Vec::with_capacity(col_count);
        let mut c: usize = 0;
        while c < col_count
            invariant
                c <= col_count,
                data@.len() == c,
                forall|k: int| 0 <= k < c ==> (#[trigger] data@[k]).wf() && data@[k].len() == row_count,
                forall|k: int| 0 <= k < c ==> (#[trigger] data@[k]).kind() == ColumnType::Float64,
                forall|k: int, r: int|
                    0 <= k < c && 0 <= r < row_count ==> #[trigger] data@[k].num_cell(r) == NULL_BITS,
            decreases col_count - c,
        {
            data.push(ColumnData::Float64(null_cells(row_count)));
            c = c + 1;
        }
        self.data = data;
        self.row_count = row_count;
        self.generation = self.generation + 1;
        self.view_dirty = true;
    }

    /// Sets a column to float cells (as bit patterns). An index past the
    /// last column is ignored. Marks the view dirty.
    pub fn set_column_float64(&mut self, col_idx: usize, values: &[u64])
        requires
            old(self).wf(),
            values@.len() == old(self).rows(),
        ensures
            final(self).wf(),
            final(self).is_dirty(),
            final(self).rows() == old(self).rows(),
            final(self).spec_generation() == old(self).spec_generation(),
            final(self).columns().len() == old(self).columns().len(),
            forall|c: int|
                0 <= c < old(self).columns().len() && c != col_idx ==> final(self).columns()[c]
                    == old(self).columns()[c],
            col_idx < old(self).columns().len() ==> final(self).columns()[col_idx as int].kind()
                == ColumnType::Float64 && forall|r: int|
                0 <= r < values@.len() ==> #[trigger] final(self).columns()[col_idx as int].num_cell(r)
                    == values@[r],
            final(self).sort_keys() == old(self).sort_keys(),
            final(self).column_filters() == old(self).column_filters(),
            final(self).global() == old(self).global(),
            final(self).scroll() == old(self).scroll(),
    {
        if col_idx < self.data.len() {
            self.data.set(col_idx, ColumnData::Float64(copy_cells(values)));
        }
        self.view_dirty = true;
    }

    /// Sets a column to boolean cells: bits of `0.0` (false), `1.0` (true)
    /// or NaN (null). An index past the last column is ignored. Marks the
    /// view dirty.
    pub fn set_column_bool(&mut self, col_idx: usize, values: &[u64])
        requires
            old(self).wf(),
            values@.len() == old(self).rows(),
        ensures
            final(self).wf(),
            final(self).is_dirty(),
            final(self).rows() == old(self).rows(),
            final(self).spec_generation() == old(self).spec_generation(),
            final(self).columns().len() == old(self).columns().len(),
            forall|c: int|
                0 <= c < old(self).columns().len() && c != col_idx ==> final(self).columns()[c]
                    == old(self).columns()[c],
            col_idx < old(self).columns().len() ==> final(self).columns()[col_idx as int].kind()
                == ColumnType::Bool && forall|r: int|
                0 <= r < values@.len() ==> #[trigger] final(self).columns()[col_idx as int].num_cell(r)
                    == values@[r],
            final(self).sort_keys() == old(self).sort_keys(),
            final(self).column_filters() == old(self).column_filters(),
            final(self).global() == old(self).global(),
            final(self).scroll() == old(self).scroll(),
    {
        if col_idx < self.data.len() {
            self.data.set(col_idx, ColumnData::Bool(copy_cells(values)));
        }
        self.view_dirty = true;
    }

    /// Sets a column to text: row `r` holds `unique[ids[r]]`, interned anew
    /// into the column's own table. An index past the last column is
    /// ignored. Marks the view dirty.
    pub fn set_column_strings(&mut self, col_idx: usize, unique: &[String], ids: &[u32])
        requires
            old(self).wf(),
            ids@.len() == old(self).rows(),
            unique@.len() < u32::MAX,
            forall|k: int| 0 <= k < ids@.len() ==> (#[trigger] ids@[k] as int) < unique@.len(),
        ensures
            final(self).wf(),
            final(self).is_dirty(),
            final(self).rows() == old(self).rows(),
            final(self).spec_generation() == old(self).spec_generation(),
            final(self).columns().len() == old(self).columns().len(),
            forall|c: int|
                0 <= c < old(self).columns().len() && c != col_idx ==> final(self).columns()[c]
                    == old(self).columns()[c],
            col_idx < old(self).columns().len() ==> final(self).columns()[col_idx as int].kind()
                == ColumnType::String && forall|r: int|
                0 <= r < ids@.len() ==> #[trigger] final(self).columns()[col_idx as int].text_cell(r)
                    == encode_utf8(unique@[ids@[r] as int]@),
            final(self).sort_keys() == old(self).sort_keys(),
            final(self).column_filters() == old(self).column_filters(),
            final(self).global() == old(self).global(),
            final(self).scroll() == old(self).scroll(),
    {
        if col_idx < self.data.len() {
            let col = build_strings(unique, ids);
            self.data.set(col_idx, col);
        }
        self.view_dirty = true;
    }

    /// Ends direct ingestion: marks the view dirty.
    pub fn finalize(&mut self)
        requires
            old(self).wf(),
        ensures
            final(self).wf(),
            final(self).is_dirty(),
            final(self).same_content(old(self)),
    {
        self.view_dirty = true;
    }

    /// Replaces the sort keys and marks the view dirty.
    pub fn set_sort(&mut self, configs: Vec<SortConfig>)
        requires
            old(self).wf(),
        ensures
            final(self).wf(),
            final(self).is_dirty(),
            final(self).sort_keys() == configs@,
            final(self).columns() == old(self).columns(),
            final(self).rows() == old(self).rows(),
            final(self).spec_generation() == old(self).spec_generation(),
            final(self).column_filters() == old(self).column_filters(),
            final(self).global() == old(self).global(),
            final(self).scroll() == old(self).scroll(),
    {
        self.sort_configs = configs;
        self.view_dirty = true;
    }

    /// Replaces the column filters and marks the view dirty.
    pub fn set_filters(&mut self, filters: Vec<ColumnFilter>)
        requires
            old(self).wf(),
        ensures
            final(self).wf(),
            final(self).is_dirty(),
            final(self).column_filters() == filters@,
            final(self).columns() == old(self).columns(),
            final(self).rows() == old(self).rows(),
            final(self).spec_generation() == old(self).spec_generation(),
            final(self).sort_keys() == old(self).sort_keys(),
            final(self).global() == old(self).global(),
            final(self).scroll() == old(self).scroll(),
    {
        self.filters = filters;
        self.view_dirty = true;
    }

    /// Replaces the global text filter and marks the view dirty.
    pub fn set_global_filter(&mut self, filter: Option<GlobalFilter>)
        requires
            old(self).wf(),
        ensures
            final(self).wf(),
            final(self).is_dirty(),
            final(self).global() == filter,
            final(self).columns() == old(self).columns(),
            final(self).rows() == old(self).rows(),
            final(self).spec_generation() == old(self).spec_generation(),
            final(self).sort_keys() == old(self).sort_keys(),
            final(self).column_filters() == old(self).column_filters(),
            final(self).scroll() == old(self).scroll(),
    {
        self.global_filter = filter;
        self.view_dirty = true;
    }

    /// Stores the scroll configuration (heights as float bits); the view is
    /// not affected.
    pub fn set_scroll_config(&mut self, row_height: u64, viewport_height: u64, overscan: usize)
        requires
            old(self).wf(),
        ensures
            final(self).wf(),
            final(self).scroll() == (row_height, viewport_height, overscan),
            final(self).is_dirty() == old(self).is_dirty(),
            final(self).view() == old(self).view(),
            final(self).columns() == old(self).columns(),
            final(self).rows() == old(self).rows(),
            final(self).spec_generation() == old(self).spec_generation(),
            final(self).sort_keys() == old(self).sort_keys(),
            final(self).column_filters() == old(self).column_filters(),
            final(self).global() == old(self).global(),
    {
        self.row_height = row_height;
        self.viewport_height = viewport_height;
        self.overscan = overscan;
    }

    /// Recomputes the view if it is dirty: the rows of `[0, row_count)` that
    /// pass the column filters and the global filter, stably sorted by the
    /// sort keys; then marks it clean. A clean view is left as it is.
    pub fn rebuild_view(&mut self)
        requires
            old(self).wf(),
        ensures
            rebuilt(*old(self), *final(self)),
    {
        if !self.view_dirty {
            return;
        }
        proof {
            assert forall|c: int| 0 <= c < self.data@.len() implies (#[trigger] self.data@[c]).wf()
                && self.data@[c].len() == self.row_count by {
                assert(self.columns()[c] == self.data@[c]);
            }
        }
        let mut indices = filter_rows(
            self.data.as_slice(),
            self.row_count,
            self.filters.as_slice(),
            &self.global_filter,
        );
        let ghost pre = indices@;
        proof {
            assert(pre.no_duplicates()) by {
                assert forall|i: int, j: int| 0 <= i < pre.len() && 0 <= j < pre.len() && i != j implies pre[i] != pre[j] by {
                    if i < j {
                        assert(pre[i] < pre[j]);
                    } else {
                        assert(pre[j] < pre[i]);
                    }
                }
            }
            assert forall|i: int| 0 <= i < pre.len() implies row_in_all(self.data@, #[trigger] pre[i] as int) by {
                assert(pre[i] < self.row_count);
                assert forall|k: int| 0 <= k < self.data@.len() implies (#[trigger] self.data@[k]).wf() && 0 <= pre[i] < self.data@[k].len() by {}
            }
        }
        sort_rows(&mut indices, self.data.as_slice(), self.sort_configs.as_slice());
        proof {
            lemma_sorted_view(
                pre,
                indices@,
                self.data@,
                self.row_count as nat,
                self.filters@,
                self.global_filter,
                self.sort_configs@,
            );
        }
        self.view_indices = indices;
        self.view_dirty = false;
    }

    /// The cached view: row indices in display order.
    pub fn view_indices(&self) -> (r: &[u32])
        ensures
            r@ == self.view(),
    {
        self.view_indices.as_slice()
    }

    /// Number of rows in every column.
    pub fn row_count(&self) -> (r: usize)
        ensures
            r == self.rows(),
    {
        self.row_count
    }

    /// Number of full data ingestions so far.
    pub fn generation(&self) -> (r: u64)
        ensures
            r == self.spec_generation(),
    {
        self.generation
    }

    /// Number of columns.
    pub fn column_count(&self) -> (r: usize)
        ensures
            r == self.columns().len(),
    {
        self.data.len()
    }

    /// Row height, as float bits.
    pub fn row_height(&self) -> (r: u64)
        ensures
            r == self.scroll().0,
    {
        self.row_height
    }

    /// Viewport height, as float bits.
    pub fn viewport_height(&self) -> (r: u64)
        ensures
            r == self.scroll().1,
    {
        self.viewport_height
    }

    pub fn overscan(&self) -> (r: usize)
        ensures
            r == self.scroll().2,
    {
        self.overscan
    }

    /// Type of column `col_idx`, if there is one.
    pub fn column_type(&self, col_idx: usize) -> (r: Option<ColumnType>)
        ensures
            col_idx < self.columns().len() ==> r == Some(self.columns()[col_idx as int].kind()),
            col_idx >= self.columns().len() ==> r is None,
    {
        if col_idx < self.data.len() {
            match &self.data[col_idx] {
                ColumnData::Float64(_) => Some(ColumnType::Float64),
                ColumnData::Strings { .. } => Some(ColumnType::String),
                ColumnData::Bool(_) => Some(ColumnType::Bool),
            }
        } else {
            None
        }
    }

    /// Read-only view of a Float64 or Bool column's cells (float bits); none
    /// for a String column or a missing one. It borrows the table, so it
    /// cannot outlive the next change to it.
    pub fn get_float64_ptr(&self, col_idx: usize) -> (r: Option<&[u64]>)
        ensures
            col_idx < self.columns().len() && self.columns()[col_idx as int].is_numeric() ==> (r matches Some(v) && v@.len() == self.columns()[col_idx as int].len()
                && forall|k: int| 0 <= k < v@.len() ==> v@[k] == self.columns()[col_idx as int].num_cell(k)),
            !(col_idx < self.columns().len() && self.columns()[col_idx as int].is_numeric()) ==> r is None,
    {
        if col_idx < self.data.len() {
            match &self.data[col_idx] {
                ColumnData::Float64(v) => Some(v.as_slice()),
                ColumnData::Bool(v) => Some(v.as_slice()),
                ColumnData::Strings { .. } => None,
            }
        } else {
            None
        }
    }
}

impl Default for ColumnarStore {
    fn default() -> (r: Self)
        ensures
            r.wf(),
            r.columns().len() == 0,
            r.rows() == 0,
            r.spec_generation() == 0,
            r.is_dirty(),
            r.view().len() == 0,
    {
        Self::new()
    }
}

/// The entries of `indices` whose rows pass every filter of `filters`, in
/// their order in `indices`.
pub fn filter_indices_columnar(indices: &[u32], store: &ColumnarStore, filters: &[ColumnFilter]) -> (r: Vec<u32>)
    requires
        store.wf(),
        forall|i: int| 0 <= i < indices@.len() ==> (#[trigger] indices@[i]) < store.rows(),
    ensures
        r@ == indices@.filter(|x: u32| filters_hold(store.columns(), filters@, x as int)),
{
    let ghost pred = |x: u32| filters_hold(store.columns(), filters@, x as int);
    let cols = store.data.as_slice();
    let mut out: Vec<u32> = Vec::new();
    let mut i: usize = 0;
    assert(indices@.subrange(0, 0).filter(pred) =~= Seq::<u32>::empty()) by {
        reveal(Seq::filter);
    }
    while i < indices.len()
        invariant
            store.wf(),
            cols@ == store.columns(),
            pred == (|x: u32| filters_hold(store.columns(), filters@, x as int)),
            forall|k: int| 0 <= k < indices@.len() ==> (#[trigger] indices@[k]) < store.rows(),
            i <= indices@.len(),
            out@ == indices@.subrange(0, i as int).filter(pred),
        decreases indices@.len() - i,
    {
        let row = indices[i];
        proof {
            assert forall|c: int| 0 <= c < cols@.len() implies (#[trigger] cols@[c]).wf() && (row as usize) < cols@[c].len() by {
                assert(store.columns()[c] == cols@[c]);
            }
        }
        let pass = passes_filters(cols, row as usize, filters);
        proof {
            let next = indices@.subrange(0, i + 1);
            assert(next.drop_last() =~= indices@.subrange(0, i as int));
            assert(next.last() == row);
            assert(pred(row) == pass);
            reveal(Seq::filter);
            assert(next.filter(pred) == if pass {
                indices@.subrange(0, i as int).filter(pred).push(row)
            } else {
                indices@.subrange(0, i as int).filter(pred)
            });
        }
        if pass {
            out.push(row);
        }
        i = i + 1;
    }
    assert(indices@.subrange(0, indices@.len() as int) =~= indices@);
    out
}

/// Stably sorts row indices under the sort keys `configs`.
pub fn sort_indices_columnar(indices: &mut Vec<u32>, store: &ColumnarStore, configs: &[SortConfig])
    requires
        store.wf(),
        forall|i: int| 0 <= i < old(indices)@.len() ==> (#[trigger] old(indices)@[i]) < store.rows(),
    ensures
        final(indices)@.to_multiset() == old(indices)@.to_multiset(),
        final(indices)@.len() == old(indices)@.len(),
        forall|i: int, j: int|
            0 <= i < j < final(indices)@.len() ==> rows_order(
                store.columns(),
                configs@,
                final(indices)@[i] as int,
                final(indices)@[j] as int,
            ) != Ordering::Greater,
        old(indices)@.no_duplicates() ==> forall|i: int, j: int|
            0 <= i < j < final(indices)@.len() && rows_order(
                store.columns(),
                configs@,
                final(indices)@[i] as int,
                final(indices)@[j] as int,
            ) == Ordering::Equal ==> old(indices)@.index_of(final(indices)@[i]) < old(
                indices,
            )@.index_of(final(indices)@[j]),
        configs@.len() == 0 ==> final(indices)@ == old(indices)@,
{
    let cols = store.data.as_slice();
    proof {
        assert forall|i: int| 0 <= i < indices@.len() implies row_in_all(cols@, #[trigger] indices@[i] as int) by {
            assert forall|k: int| 0 <= k < cols@.len() implies (#[trigger] cols@[k]).wf() && 0 <= indices@[i] < cols@[k].len() by {
                assert(store.columns()[k] == cols@[k]);
            }
        }
    }
    sort_rows(indices, cols, configs);
}

/// `after` is what `rebuild_view` leaves of `before`: a clean, current view
/// over the same data and configuration, untouched if it was already clean.
pub open spec fn rebuilt(before: ColumnarStore, after: ColumnarStore) -> bool {
    &&& after.wf()
    &&& !after.is_dirty()
    &&& after.view_valid()
    &&& after.same_content(&before)
    &&& !before.is_dirty() ==> after.view() == before.view()
}

/// Rebuilding twice with no change in between gives the same view as
/// rebuilding once.
pub proof fn lemma_rebuild_idempotent(s0: ColumnarStore, s1: ColumnarStore, s2: ColumnarStore)
    requires
        s0.wf(),
        rebuilt(s0, s1),
        rebuilt(s1, s2),
    ensures
        s2.view() == s1.view(),
        s2.same_content(&s1),
{
}

/// `x` comes before `y` in a view: earlier under the sort keys, or tied and
/// of a lower row index.
pub open spec fn view_before(cols: Seq<ColumnData>, keys: Seq<SortConfig>, x: u32, y: u32) -> bool {
    rows_order(cols, keys, x as int, y as int) == Ordering::Less || (rows_order(
        cols,
        keys,
        x as int,
        y as int,
    ) == Ordering::Equal && x < y)
}

/// Two duplicate-free lists with the same elements, each in view order, are
/// the same list.
proof fn lemma_view_order_unique(v: Seq<u32>, w: Seq<u32>, cols: Seq<ColumnData>, keys: Seq<SortConfig>)
    requires
        v.no_duplicates(),
        w.no_duplicates(),
        forall|x: u32| v.contains(x) <==> w.contains(x),
        forall|i: int, j: int| 0 <= i < j < v.len() ==> view_before(cols, keys, #[trigger] v[i], #[trigger] v[j]),
        forall|i: int, j: int| 0 <= i < j < w.len() ==> view_before(cols, keys, #[trigger] w[i], #[trigger] w[j]),
    ensures
        v == w,
    decreases v.len(),
{
    if v.len() == 0 {
        if w.len() > 0 {
            assert(w.contains(w[0]));
        }
        assert(v =~= w);
    } else {
        assert(v.contains(v[0]));
        assert(w.len() > 0);
        if v[0] != w[0] {
            assert(w.contains(w[0]));
            let i = choose|i: int| 0 <= i < v.len() && v[i] == w[0];
            let j = choose|j: int| 0 <= j < w.len() && w[j] == v[0];
            assert(view_before(cols, keys, v[0], v[i]));
            assert(view_before(cols, keys, w[0], w[j]));
            lemma_rows_order_laws(cols, keys, v[0] as int, w[0] as int, v[0] as int);
        }
        let v2 = v.drop_first();
        let w2 = w.drop_first();
        assert forall|x: u32| v2.contains(x) <==> w2.contains(x) by {
            if v2.contains(x) {
                let k = choose|k: int| 0 <= k < v2.len() && v2[k] == x;
                assert(v[k + 1] == x);
                assert(x != v[0]);
                assert(w.contains(x));
                let m = choose|m: int| 0 <= m < w.len() && w[m] == x;
                assert(m != 0);
                assert(w2[m - 1] == x);
            }
            if w2.contains(x) {
                let k = choose|k: int| 0 <= k < w2.len() && w2[k] == x;
                assert(w[k + 1] == x);
                assert(x != w[0]);
                assert(v.contains(x));
                let m = choose|m: int| 0 <= m < v.len() && v[m] == x;
                assert(m != 0);
                assert(v2[m - 1] == x);
            }
        }
        assert forall|i: int, j: int| 0 <= i < j < v2.len() implies view_before(cols, keys, #[trigger] v2[i], #[trigger] v2[j]) by {
            assert(v2[i] == v[i + 1] && v2[j] == v[j + 1]);
        }
        assert forall|i: int, j: int| 0 <= i < j < w2.len() implies view_before(cols, keys, #[trigger] w2[i], #[trigger] w2[j]) by {
            assert(w2[i] == w[i + 1] && w2[j] == w[j + 1]);
        }
        lemma_view_order_unique(v2, w2, cols, keys);
        assert(v =~= seq![v[0]] + v2);
        assert(w =~= seq![w[0]] + w2);
    }
}

/// The view is determined by the data, the filters and the sort keys: two
/// clean tables that agree on these have the same view, whatever happened
/// before.
pub proof fn lemma_view_determined(s1: ColumnarStore, s2: ColumnarStore)
    requires
        s1.wf(),
        s2.wf(),
        !s1.is_dirty(),
        !s2.is_dirty(),
        s1.columns() == s2.columns(),
        s1.rows() == s2.rows(),
        s1.column_filters() == s2.column_filters(),
        s1.global() == s2.global(),
        s1.sort_keys() == s2.sort_keys(),
    ensures
        s1.view() == s2.view(),
{
    let (v, w) = (s1.view(), s2.view());
    let (cols, keys) = (s1.columns(), s1.sort_keys());
    assert forall|x: u32| v.contains(x) <==> w.contains(x) by {
        if v.contains(x) {
            let i = choose|i: int| 0 <= i < v.len() && v[i] == x;
            assert(v[i] < s1.rows());
        }
        if w.contains(x) {
            let i = choose|i: int| 0 <= i < w.len() && w[i] == x;
            assert(w[i] < s2.rows());
        }
    }
    assert forall|i: int, j: int| 0 <= i < j < v.len() implies view_before(cols, keys, #[trigger] v[i], #[trigger] v[j]) by {}
    assert forall|i: int, j: int| 0 <= i < j < w.len() implies view_before(cols, keys, #[trigger] w[i], #[trigger] w[j]) by {}
    lemma_view_order_unique(v, w, cols, keys);
}

/// Every row of a clean view passes every column filter and the global
/// filter, and every row of the table left out of it fails one of them.
pub proof fn lemma_filter_soundness(s: ColumnarStore)
    requires
        s.wf(),
        !s.is_dirty(),
    ensures
        forall|i: int|
            0 <= i < s.view().len() ==> row_passes(
                s.columns(),
                s.column_filters(),
                s.global(),
                #[trigger] s.view()[i] as int,
            ),
        forall|r: int|
            0 <= r < s.rows() && !s.view().contains(r as u32) ==> !row_passes(
                s.columns(),
                s.column_filters(),
                s.global(),
                r,
            ),
{
}

/// Adjacent rows of a clean view are in order under the sort keys
/// (descending keys reversed, nulls lowest, text by its bytes).
pub proof fn lemma_view_sorted(s: ColumnarStore)
    requires
        s.wf(),
        !s.is_dirty(),
    ensures
        forall|i: int|
            0 <= i < s.view().len() - 1 ==> rows_order(
                s.columns(),
                s.sort_keys(),
                #[trigger] s.view()[i] as int,
                s.view()[i + 1] as int,
            ) != Ordering::Greater,
{
    let v = s.view();
    let cols = s.columns();
    let keys = s.sort_keys();
    assert(forall|i: int, j: int|
        0 <= i < j < v.len() ==> rows_order(cols, keys, v[i] as int, v[j] as int) != Ordering::Greater);
    assert forall|i: int| 0 <= i < v.len() - 1 implies rows_order(
        cols,
        keys,
        #[trigger] v[i] as int,
        v[i + 1] as int,
    ) != Ordering::Greater by {
        assert(0 <= i < i + 1 < v.len());
    }
}

/// A row whose cell is null in a numeric or boolean column that some
/// active filter reads is not in a clean view, whatever the operator.
pub proof fn lemma_null_excluded(s: ColumnarStore, f: int, r: int)
    requires
        s.wf(),
        !s.is_dirty(),
        0 <= f < s.column_filters().len(),
        0 <= r < s.rows(),
        s.column_filters()[f].column_index < s.columns().len(),
        s.columns()[s.column_filters()[f].column_index as int].is_numeric(),
        is_null_spec(s.columns()[s.column_filters()[f].column_index as int].num_cell(r)),
    ensures
        !s.view().contains(r as u32),
{
    if s.view().contains(r as u32) {
        let i = choose|i: int| 0 <= i < s.view().len() && s.view()[i] == r as u32;
        assert(row_passes(s.columns(), s.column_filters(), s.global(), s.view()[i] as int));
        assert(filter_holds(s.columns(), r, s.column_filters()[f]));
    }
}

/// A stable sort of the increasing list of passing rows is the view.
proof fn lemma_sorted_view(
    pre: Seq<u32>,
    fin: Seq<u32>,
    cols: Seq<ColumnData>,
    n: nat,
    filters: Seq<ColumnFilter>,
    g: Option<GlobalFilter>,
    keys: Seq<SortConfig>,
)
    requires
        forall|i: int, j: int| 0 <= i < j < pre.len() ==> pre[i] < pre[j],
        pre.no_duplicates(),
        forall|i: int| 0 <= i < pre.len() ==> (#[trigger] pre[i]) < n && row_passes(cols, filters, g, pre[i] as int),
        forall|r: int| 0 <= r < n && row_passes(cols, filters, g, r) ==> pre.contains(r as u32),
        fin.to_multiset() == pre.to_multiset(),
        forall|i: int, j: int|
            0 <= i < j < fin.len() ==> rows_order(cols, keys, fin[i] as int, fin[j] as int) != Ordering::Greater,
        forall|i: int, j: int|
            0 <= i < j < fin.len() && rows_order(cols, keys, fin[i] as int, fin[j] as int) == Ordering::Equal
                ==> pre.index_of(fin[i]) < pre.index_of(fin[j]),
    ensures
        is_view_of(fin, cols, n, filters, g, keys),
{
    broadcast use vstd::seq_lib::group_to_multiset_ensures;
    pre.lemma_multiset_has_no_duplicates();
    fin.lemma_multiset_has_no_duplicates_conv();
    assert forall|i: int| 0 <= i < fin.len() implies (#[trigger] fin[i]) < n && row_passes(cols, filters, g, fin[i] as int) by {
        assert(fin.to_multiset().count(fin[i]) > 0);
        assert(pre.contains(fin[i]));
    }
    assert forall|r: int| 0 <= r < n && row_passes(cols, filters, g, r) implies fin.contains(r as u32) by {
        assert(pre.to_multiset().count(r as u32) > 0);
    }
    assert forall|i: int, j: int|
        0 <= i < j < fin.len() && rows_order(cols, keys, fin[i] as int, fin[j] as int) == Ordering::Equal
        implies fin[i] < fin[j] by {
        assert(fin.to_multiset().count(fin[i]) > 0);
        assert(fin.to_multiset().count(fin[j]) > 0);
        assert(pre.contains(fin[i]));
        assert(pre.contains(fin[j]));
        let a = pre.index_of(fin[i]);
        let b = pre.index_of(fin[j]);
        assert(pre[a] == fin[i]);
        assert(pre[b] == fin[j]);
    }
}
/// Column `col` stores input cell `c` at row `r`, as its type dictates.
pub open spec fn cell_stored(col: ColumnData, r: int, c: Cell) -> bool {
    match col.kind() {
        ColumnType::Float64 => col.num_cell(r) == float_of(c),
        ColumnType::Bool => col.num_cell(r) == bool_of(c),
        ColumnType::String => col.text_cell(r) == text_of(c),
    }
}

} // verus!
