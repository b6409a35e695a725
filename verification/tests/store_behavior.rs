use memcached::store::Store;

#[test]
fn get_on_empty_store_finds_nothing() {
    let store = Store::new();
    assert!(store.get(&b"missing".to_vec(), 100).is_none());
}

#[test]
fn set_then_get_returns_entry() {
    let mut store = Store::new();
    store.set(b"k".to_vec(), b"hello".to_vec(), 7, 0);
    let entry = store.get(&b"k".to_vec(), 100).expect("entry should be present");
    assert_eq!(entry.data, b"hello".to_vec());
    assert_eq!(entry.flags, 7);
    assert_eq!(entry.expire, 0);
}

#[test]
fn never_expiring_entry_outlives_any_clock() {
    let mut store = Store::new();
    store.set(b"k".to_vec(), b"v".to_vec(), 0, 0);
    assert!(store.get(&b"k".to_vec(), u64::MAX).is_some());
}

#[test]
fn entry_valid_through_expiry_instant_and_gone_after() {
    let mut store = Store::new();
    store.set(b"k".to_vec(), b"v".to_vec(), 0, 500);
    assert!(store.get(&b"k".to_vec(), 499).is_some());
    assert!(store.get(&b"k".to_vec(), 500).is_some());
    assert!(store.get(&b"k".to_vec(), 501).is_none());
}

#[test]
fn overwrite_replaces_entry_wholesale() {
    let mut store = Store::new();
    store.set(b"k".to_vec(), b"first".to_vec(), 1, 0);
    store.set(b"k".to_vec(), b"second".to_vec(), 2, 0);
    let entry = store.get(&b"k".to_vec(), 10).expect("entry should be present");
    assert_eq!(entry.data, b"second".to_vec());
    assert_eq!(entry.flags, 2);
}

#[test]
fn distinct_keys_are_independent() {
    let mut store = Store::new();
    store.set(b"a".to_vec(), b"1".to_vec(), 0, 0);
    store.set(b"b".to_vec(), b"2".to_vec(), 0, 0);
    assert_eq!(store.get(&b"a".to_vec(), 5).unwrap().data, b"1".to_vec());
    assert_eq!(store.get(&b"b".to_vec(), 5).unwrap().data, b"2".to_vec());
}

#[test]
fn keys_are_case_sensitive() {
    let mut store = Store::new();
    store.set(b"Key".to_vec(), b"v".to_vec(), 0, 0);
    assert!(store.get(&b"key".to_vec(), 5).is_none());
    assert!(store.get(&b"Key".to_vec(), 5).is_some());
}

#[test]
fn expired_entry_reads_as_absent_but_can_be_overwritten() {
    let mut store = Store::new();
    store.set(b"k".to_vec(), b"old".to_vec(), 1, 10);
    assert!(store.get(&b"k".to_vec(), 11).is_none());
    store.set(b"k".to_vec(), b"new".to_vec(), 2, 0);
    let entry = store.get(&b"k".to_vec(), 11).expect("overwritten entry is live");
    assert_eq!(entry.data, b"new".to_vec());
}
