use table_core::column::ColumnData;
use table_core::num::{FALSE_BITS, NULL_BITS, TRUE_BITS};
use table_core::columnar_store::{filter_indices_columnar, sort_indices_columnar, ColumnarStore};
use table_core::types::{
    Cell, ColumnFilter, ColumnType, FilterOp, FilterValue, GlobalFilter, NumOperand, SortConfig,
    SortDirection,
};

fn text(s: &str) -> Cell {
    Cell::Text(s.to_string())
}

fn num(v: f64) -> Cell {
    Cell::Number(v.to_bits())
}

fn operand(v: f64) -> NumOperand {
    NumOperand {
        value: v.to_bits(),
        below: (v - f64::EPSILON).to_bits(),
        above: (v + f64::EPSILON).to_bits(),
    }
}

fn people() -> Vec<Vec<Cell>> {
    vec![
        vec![text("Alice"), num(30.0), Cell::Bool(true)],
        vec![text("Bob"), num(25.0), Cell::Bool(false)],
        vec![text("Charlie"), num(35.0), Cell::Bool(true)],
        vec![text("Alice Smith"), num(28.0), Cell::Null],
    ]
}

fn people_store() -> ColumnarStore {
    let mut store = ColumnarStore::new();
    store.ingest_rows(3, &people());
    store
}

fn filter(col: usize, op: FilterOp, value: FilterValue) -> ColumnFilter {
    ColumnFilter { column_index: col, op, value }
}

fn view_of(store: &mut ColumnarStore) -> Vec<u32> {
    store.rebuild_view();
    store.view_indices().to_vec()
}

#[test]
fn ingest_and_column_types() {
    let store = people_store();
    assert_eq!(store.row_count(), 4);
    assert_eq!(store.column_type(0), Some(ColumnType::String));
    assert_eq!(store.column_type(1), Some(ColumnType::Float64));
    assert_eq!(store.column_type(2), Some(ColumnType::Bool));
    assert_eq!(store.column_type(3), None);
}

#[test]
fn float64_values_correct() {
    let store = people_store();
    let v = store.get_float64_ptr(1).unwrap();
    let got: Vec<f64> = v.iter().map(|b| f64::from_bits(*b)).collect();
    assert_eq!(got, vec![30.0, 25.0, 35.0, 28.0]);
}

#[test]
fn bool_values_correct() {
    let store = people_store();
    let v = store.get_float64_ptr(2).unwrap();
    assert_eq!(v[0], TRUE_BITS);
    assert_eq!(v[1], FALSE_BITS);
    assert_eq!(v[2], TRUE_BITS);
    assert!(f64::from_bits(v[3]).is_nan());
}

#[test]
fn get_float64_ptr_returns_none_for_string_column() {
    let store = people_store();
    assert!(store.get_float64_ptr(0).is_none());
    assert!(store.get_float64_ptr(9).is_none());
}

#[test]
fn detect_type_null_first_then_number() {
    let rows = vec![vec![Cell::Null], vec![num(1.0)]];
    let mut store = ColumnarStore::new();
    store.ingest_rows(1, &rows);
    assert_eq!(store.column_type(0), Some(ColumnType::Float64));
    let v = store.get_float64_ptr(0).unwrap();
    assert!(f64::from_bits(v[0]).is_nan());
    assert_eq!(v[1], 1.0f64.to_bits());
}

#[test]
fn detect_type_all_null_defaults_to_string() {
    let rows = vec![vec![Cell::Null], vec![]];
    let mut store = ColumnarStore::new();
    store.ingest_rows(1, &rows);
    assert_eq!(store.column_type(0), Some(ColumnType::String));
}

#[test]
fn detect_type_empty_rows_defaults_to_string() {
    let mut store = ColumnarStore::new();
    store.ingest_rows(2, &[]);
    assert_eq!(store.column_type(0), Some(ColumnType::String));
    assert_eq!(store.row_count(), 0);
}

#[test]
fn string_intern_correct() {
    let rows = vec![vec![text("a")], vec![text("b")], vec![text("a")], vec![Cell::Null]];
    let mut store = ColumnarStore::new();
    store.ingest_rows(1, &rows);
    store.set_sort(vec![SortConfig { column_index: 0, direction: SortDirection::Ascending }]);
    // the null cell reads as the empty string and sorts first
    assert_eq!(view_of(&mut store), vec![3, 0, 2, 1]);
}

#[test]
fn generation_increments() {
    let mut store = ColumnarStore::new();
    assert_eq!(store.generation(), 0);
    store.ingest_rows(3, &people());
    assert_eq!(store.generation(), 1);
    store.init(2, 3);
    assert_eq!(store.generation(), 2);
    store.set_sort(vec![]);
    store.set_filters(vec![]);
    store.set_scroll_config(40.0f64.to_bits(), 800.0f64.to_bits(), 3);
    assert_eq!(store.generation(), 2);
}

#[test]
fn columnar_store_default() {
    let store = ColumnarStore::default();
    assert_eq!(store.row_count(), 0);
    assert_eq!(store.generation(), 0);
    assert_eq!(store.column_count(), 0);
    assert!(store.view_indices().is_empty());
}

#[test]
fn scroll_config_stored() {
    let mut store = ColumnarStore::new();
    assert_eq!(f64::from_bits(store.row_height()), 36.0);
    assert_eq!(f64::from_bits(store.viewport_height()), 600.0);
    assert_eq!(store.overscan(), 5);
    store.set_scroll_config(40.0f64.to_bits(), 800.0f64.to_bits(), 3);
    assert_eq!(f64::from_bits(store.row_height()), 40.0);
    assert_eq!(f64::from_bits(store.viewport_height()), 800.0);
    assert_eq!(store.overscan(), 3);
}

#[test]
fn init_and_set_columns_direct() {
    let mut store = ColumnarStore::new();
    store.init(3, 4);
    assert_eq!(store.row_count(), 4);
    assert_eq!(store.column_count(), 3);
    assert_eq!(store.column_type(0), Some(ColumnType::Float64));
    let v = store.get_float64_ptr(2).unwrap();
    assert_eq!(v.len(), 4);
    assert!(v.iter().all(|b| *b == NULL_BITS));
}

#[test]
fn set_column_float64_direct() {
    let mut store = ColumnarStore::new();
    store.init(1, 3);
    let vals: Vec<u64> = [1.5f64, -2.0, 3.0].iter().map(|v| v.to_bits()).collect();
    store.set_column_float64(0, &vals);
    store.set_column_float64(7, &vals);
    assert_eq!(store.get_float64_ptr(0).unwrap(), &vals[..]);
    assert_eq!(store.column_count(), 1);
}

#[test]
fn set_column_bool_direct() {
    let mut store = ColumnarStore::new();
    store.init(1, 3);
    store.set_column_bool(0, &[TRUE_BITS, FALSE_BITS, NULL_BITS]);
    assert_eq!(store.column_type(0), Some(ColumnType::Bool));
    let v = store.get_float64_ptr(0).unwrap();
    assert_eq!(v[0], TRUE_BITS);
    assert_eq!(v[1], FALSE_BITS);
}

#[test]
fn set_column_strings_direct() {
    let mut store = ColumnarStore::new();
    store.init(1, 4);
    let unique = vec!["x".to_string(), "y".to_string(), "x".to_string()];
    store.set_column_strings(0, &unique, &[2, 1, 0, 1]);
    assert_eq!(store.column_type(0), Some(ColumnType::String));
    store.set_filters(vec![filter(0, FilterOp::Eq, FilterValue::String("x".into()))]);
    assert_eq!(view_of(&mut store), vec![0, 2]);
}

#[test]
fn direct_ingestion_roundtrip_with_sort() {
    let mut store = ColumnarStore::new();
    store.init(2, 3);
    let unique = vec!["b".to_string(), "a".to_string(), "c".to_string()];
    store.set_column_strings(0, &unique, &[0, 1, 2]);
    let ages: Vec<u64> = [20.0f64, 10.0, 30.0].iter().map(|v| v.to_bits()).collect();
    store.set_column_float64(1, &ages);
    store.finalize();
    store.set_sort(vec![SortConfig { column_index: 0, direction: SortDirection::Ascending }]);
    assert_eq!(view_of(&mut store), vec![1, 0, 2]);
    store.set_sort(vec![SortConfig { column_index: 1, direction: SortDirection::Descending }]);
    assert_eq!(view_of(&mut store), vec![2, 0, 1]);
}

#[test]
fn rebuild_view_identity_without_config() {
    let mut store = people_store();
    assert_eq!(view_of(&mut store), vec![0, 1, 2, 3]);
}

#[test]
fn rebuild_view_idempotent() {
    let mut store = people_store();
    store.set_sort(vec![SortConfig { column_index: 1, direction: SortDirection::Ascending }]);
    let first = view_of(&mut store);
    let second = view_of(&mut store);
    assert_eq!(first, second);
    assert_eq!(first, vec![1, 3, 0, 2]);
}

#[test]
fn sort_columnar_ascending() {
    let mut store = people_store();
    store.set_sort(vec![SortConfig { column_index: 1, direction: SortDirection::Ascending }]);
    assert_eq!(view_of(&mut store), vec![1, 3, 0, 2]);
}

#[test]
fn sort_columnar_strings() {
    let mut store = people_store();
    store.set_sort(vec![SortConfig { column_index: 0, direction: SortDirection::Descending }]);
    assert_eq!(view_of(&mut store), vec![2, 1, 3, 0]);
}

#[test]
fn filter_columnar_gt() {
    let mut store = people_store();
    store.set_filters(vec![filter(1, FilterOp::Gt, FilterValue::Float64(operand(28.0)))]);
    assert_eq!(view_of(&mut store), vec![0, 2]);
}

#[test]
fn filter_numeric_operators() {
    let cases = [
        (FilterOp::Eq, vec![0]),
        (FilterOp::Neq, vec![1, 2, 3]),
        (FilterOp::Lt, vec![1, 3]),
        (FilterOp::Lte, vec![0, 1, 3]),
        (FilterOp::Gte, vec![0, 2]),
        (FilterOp::Contains, vec![]),
        (FilterOp::StartsWith, vec![]),
    ];
    for (op, expected) in cases {
        let mut store = people_store();
        store.set_filters(vec![filter(1, op, FilterValue::Float64(operand(30.0)))]);
        assert_eq!(view_of(&mut store), expected, "{:?}", op);
    }
}

#[test]
fn filter_numeric_epsilon_tolerance() {
    let rows = vec![vec![num(0.1 + 0.2)], vec![num(0.3)], vec![num(0.31)]];
    let mut store = ColumnarStore::new();
    store.ingest_rows(1, &rows);
    store.set_filters(vec![filter(0, FilterOp::Eq, FilterValue::Float64(operand(0.3)))]);
    assert_eq!(view_of(&mut store), vec![0, 1]);
}

#[test]
fn filter_numeric_operand_type_mismatch_excludes() {
    let mut store = people_store();
    store.set_filters(vec![filter(1, FilterOp::Eq, FilterValue::String("30".into()))]);
    assert!(view_of(&mut store).is_empty());
    store.set_filters(vec![filter(1, FilterOp::Neq, FilterValue::Bool(true))]);
    assert!(view_of(&mut store).is_empty());
}

#[test]
fn filter_missing_column_excludes_all() {
    let mut store = people_store();
    store.set_filters(vec![filter(9, FilterOp::Neq, FilterValue::Float64(operand(1.0)))]);
    assert!(view_of(&mut store).is_empty());
}

#[test]
fn filter_null_cell_never_matches() {
    let rows = vec![vec![num(f64::NAN)], vec![num(10.0)], vec![Cell::Null]];
    for op in [FilterOp::Eq, FilterOp::Neq, FilterOp::Gt, FilterOp::Gte, FilterOp::Lt, FilterOp::Lte] {
        let mut store = ColumnarStore::new();
        store.ingest_rows(1, &rows);
        store.set_filters(vec![filter(0, op, FilterValue::Float64(operand(10.0)))]);
        let v = view_of(&mut store);
        assert!(!v.contains(&0) && !v.contains(&2), "{:?}", op);
    }
}

#[test]
fn filter_bool_column() {
    let mut store = people_store();
    store.set_filters(vec![filter(2, FilterOp::Eq, FilterValue::Bool(true))]);
    assert_eq!(view_of(&mut store), vec![0, 2]);
    store.set_filters(vec![filter(2, FilterOp::Neq, FilterValue::Bool(true))]);
    assert_eq!(view_of(&mut store), vec![1]);
    store.set_filters(vec![filter(2, FilterOp::Gt, FilterValue::Bool(false))]);
    assert!(view_of(&mut store).is_empty());
    store.set_filters(vec![filter(2, FilterOp::Eq, FilterValue::Float64(operand(1.0)))]);
    assert!(view_of(&mut store).is_empty());
}

#[test]
fn filter_string_ordinal_operators() {
    let s = |v: &str| FilterValue::String(v.to_string());
    let cases = [
        (FilterOp::Eq, "Bob", vec![1]),
        (FilterOp::Neq, "Bob", vec![0, 2, 3]),
        (FilterOp::Gt, "Alice", vec![1, 2, 3]),
        (FilterOp::Gte, "Alice", vec![0, 1, 2, 3]),
        (FilterOp::Lt, "Bob", vec![0, 3]),
        (FilterOp::Lte, "Bob", vec![0, 1, 3]),
        (FilterOp::Eq, "bob", vec![]),
    ];
    for (op, q, expected) in cases {
        let mut store = people_store();
        store.set_filters(vec![filter(0, op, s(q))]);
        assert_eq!(view_of(&mut store), expected, "{:?} {}", op, q);
    }
}

#[test]
fn filter_columnar_contains() {
    let mut store = people_store();
    store.set_filters(vec![filter(0, FilterOp::Contains, FilterValue::String("ALI".into()))]);
    assert_eq!(view_of(&mut store), vec![0, 3]);
}

#[test]
fn filter_string_starts_and_ends_with() {
    let mut store = people_store();
    store.set_filters(vec![filter(0, FilterOp::StartsWith, FilterValue::String("aLiCe".into()))]);
    assert_eq!(view_of(&mut store), vec![0, 3]);
    store.set_filters(vec![filter(0, FilterOp::EndsWith, FilterValue::String("SMITH".into()))]);
    assert_eq!(view_of(&mut store), vec![3]);
    store.set_filters(vec![filter(0, FilterOp::EndsWith, FilterValue::String("e".into()))]);
    assert_eq!(view_of(&mut store), vec![0, 2]);
}

#[test]
fn filters_combine_by_intersection() {
    let mut store = people_store();
    store.set_filters(vec![
        filter(1, FilterOp::Gte, FilterValue::Float64(operand(28.0))),
        filter(0, FilterOp::Contains, FilterValue::String("alice".into())),
    ]);
    assert_eq!(view_of(&mut store), vec![0, 3]);
    store.set_global_filter(Some(GlobalFilter { query: "smith".into() }));
    assert_eq!(view_of(&mut store), vec![3]);
}

#[test]
fn global_filter_case_insensitive() {
    let rows: Vec<Vec<Cell>> = ["Alice", "Bob", "Charlie", "Dave"].iter().map(|n| vec![text(n)]).collect();
    let mut store = ColumnarStore::new();
    store.ingest_rows(1, &rows);
    store.set_global_filter(Some(GlobalFilter { query: "a".into() }));
    assert_eq!(view_of(&mut store), vec![0, 2, 3]);
    store.set_global_filter(Some(GlobalFilter { query: "A".into() }));
    assert_eq!(view_of(&mut store), vec![0, 2, 3]);
}

#[test]
fn global_filter_empty_query_is_identity() {
    let mut store = people_store();
    store.set_global_filter(Some(GlobalFilter { query: String::new() }));
    assert_eq!(view_of(&mut store), vec![0, 1, 2, 3]);
    store.set_global_filter(None);
    assert_eq!(view_of(&mut store), vec![0, 1, 2, 3]);
}

#[test]
fn global_filter_without_text_columns_passes_all() {
    let rows = vec![vec![num(1.0)], vec![num(2.0)]];
    let mut store = ColumnarStore::new();
    store.ingest_rows(1, &rows);
    store.set_global_filter(Some(GlobalFilter { query: "zzz".into() }));
    assert_eq!(view_of(&mut store), vec![0, 1]);
}

#[test]
fn global_filter_any_text_column() {
    let rows = vec![
        vec![text("red"), text("apple")],
        vec![text("green"), text("pear")],
        vec![text("blue"), text("plum")],
    ];
    let mut store = ColumnarStore::new();
    store.ingest_rows(2, &rows);
    store.set_global_filter(Some(GlobalFilter { query: "E".into() }));
    assert_eq!(view_of(&mut store), vec![0, 1, 2]);
    store.set_global_filter(Some(GlobalFilter { query: "PL".into() }));
    assert_eq!(view_of(&mut store), vec![0, 2]);
}

#[test]
fn sort_float_descending_nan_last() {
    let rows = vec![vec![num(f64::NAN)], vec![num(10.0)], vec![num(5.0)]];
    let mut store = ColumnarStore::new();
    store.ingest_rows(1, &rows);
    store.set_sort(vec![SortConfig { column_index: 0, direction: SortDirection::Descending }]);
    assert_eq!(view_of(&mut store), vec![1, 2, 0]);
    store.set_sort(vec![SortConfig { column_index: 0, direction: SortDirection::Ascending }]);
    assert_eq!(view_of(&mut store), vec![0, 2, 1]);
}

#[test]
fn sort_negative_and_zero_values() {
    let rows = vec![vec![num(0.0)], vec![num(-3.5)], vec![num(-0.0)], vec![num(2.0)], vec![num(f64::NEG_INFINITY)]];
    let mut store = ColumnarStore::new();
    store.ingest_rows(1, &rows);
    store.set_sort(vec![SortConfig { column_index: 0, direction: SortDirection::Ascending }]);
    // 0.0 and -0.0 tie and keep their order
    assert_eq!(view_of(&mut store), vec![4, 1, 0, 2, 3]);
}

#[test]
fn sort_multi_key_tie_break_and_stability() {
    let rows = vec![
        vec![text("b"), num(1.0)],
        vec![text("a"), num(2.0)],
        vec![text("b"), num(0.0)],
        vec![text("a"), num(2.0)],
    ];
    let mut store = ColumnarStore::new();
    store.ingest_rows(2, &rows);
    store.set_sort(vec![
        SortConfig { column_index: 0, direction: SortDirection::Ascending },
        SortConfig { column_index: 1, direction: SortDirection::Descending },
    ]);
    assert_eq!(view_of(&mut store), vec![1, 3, 0, 2]);
}

#[test]
fn sort_missing_column_key_is_neutral() {
    let mut store = people_store();
    store.set_sort(vec![
        SortConfig { column_index: 42, direction: SortDirection::Ascending },
        SortConfig { column_index: 1, direction: SortDirection::Descending },
    ]);
    assert_eq!(view_of(&mut store), vec![2, 0, 3, 1]);
}

#[test]
fn sort_all_equal_keeps_order() {
    let rows = vec![vec![num(1.0)], vec![num(1.0)], vec![num(1.0)]];
    let mut store = ColumnarStore::new();
    store.ingest_rows(1, &rows);
    store.set_sort(vec![SortConfig { column_index: 0, direction: SortDirection::Descending }]);
    assert_eq!(view_of(&mut store), vec![0, 1, 2]);
}

#[test]
fn sort_columnar_empty_configs_no_change() {
    let store = people_store();
    let mut idx = vec![3, 1, 2, 0];
    sort_indices_columnar(&mut idx, &store, &[]);
    assert_eq!(idx, vec![3, 1, 2, 0]);
}

#[test]
fn sort_indices_columnar_by_age() {
    let store = people_store();
    let mut idx = vec![0, 1, 2, 3];
    sort_indices_columnar(&mut idx, &store, &[SortConfig { column_index: 1, direction: SortDirection::Ascending }]);
    assert_eq!(idx, vec![1, 3, 0, 2]);
}

#[test]
fn filter_indices_columnar_keeps_given_order() {
    let store = people_store();
    let out = filter_indices_columnar(&[3, 2, 1, 0], &store, &[filter(1, FilterOp::Gte, FilterValue::Float64(operand(28.0)))]);
    assert_eq!(out, vec![3, 2, 0]);
    let all = filter_indices_columnar(&[2, 0], &store, &[]);
    assert_eq!(all, vec![2, 0]);
}

#[test]
fn rebuild_view_with_filter_and_sort() {
    let mut store = people_store();
    store.set_filters(vec![filter(1, FilterOp::Gt, FilterValue::Float64(operand(26.0)))]);
    store.set_sort(vec![SortConfig { column_index: 1, direction: SortDirection::Descending }]);
    assert_eq!(view_of(&mut store), vec![2, 0, 3]);
    store.ingest_rows(3, &people()[..2]);
    assert_eq!(view_of(&mut store), vec![0]);
}

#[test]
fn string_column_data_variant() {
    let store = people_store();
    assert!(store.get_float64_ptr(0).is_none());
    let col = ColumnData::Bool(vec![TRUE_BITS]);
    assert!(matches!(col, ColumnData::Bool(_)));
}
