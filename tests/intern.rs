use table_core::intern::StringInternTable;

#[test]
fn intern_cache_hit_returns_same_id() {
    let mut intern = StringInternTable::new();
    let id1 = intern.intern("hello");
    let id2 = intern.intern("hello");
    assert_eq!(id1, id2);
    assert_eq!(intern.len(), 1);
}

#[test]
fn intern_table_len_and_is_empty() {
    let mut intern = StringInternTable::new();
    assert!(intern.is_empty());
    assert_eq!(intern.len(), 0);

    intern.intern("a");
    assert!(!intern.is_empty());
    assert_eq!(intern.len(), 1);

    intern.intern("b");
    assert_eq!(intern.len(), 2);
}

#[test]
fn intern_table_default() {
    let intern = StringInternTable::default();
    assert!(intern.is_empty());
    assert_eq!(intern.len(), 0);
}

#[test]
fn intern_ids_dense_in_first_seen_order() {
    let mut intern = StringInternTable::new();
    assert_eq!(intern.intern("x"), 0);
    assert_eq!(intern.intern("y"), 1);
    assert_eq!(intern.intern("x"), 0);
    assert_eq!(intern.intern(""), 2);
    assert_eq!(intern.intern("z"), 3);
    assert_eq!(intern.len(), 4);
}

#[test]
fn intern_resolve_round_trip() {
    let mut intern = StringInternTable::new();
    let a = intern.intern("héllo");
    let b = intern.intern("wörld");
    let e = intern.intern("");
    assert_eq!(intern.resolve(a), "héllo");
    assert_eq!(intern.resolve(b), "wörld");
    assert_eq!(intern.resolve(e), "");
    assert_eq!(intern.entry_bytes(b), "wörld".as_bytes());
}
