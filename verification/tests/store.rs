//! Store tests: storing, reading, expiry, deletion and CAS numbers.

use memcrabd::store::{Item, Store, NANOS_PER_SEC};

/// Basic set/get without TTL — must return the stored value.
#[test]
fn store_set_get_no_ttl() {
    let mut store = Store::new();
    store.set("foo".into(), 0, 0, b"hello".to_vec());

    let item = store.get("foo").expect("item should exist");
    assert_eq!(item.value, b"hello");
    assert_eq!(item.flags, 0);
}

/// Item with TTL=0 must never expire.
#[test]
fn store_no_expiry_never_removed() {
    let mut store = Store::new();
    store.set("forever".into(), 42, 0, b"persists".to_vec());

    let item = store.get("forever").expect("item should exist");
    assert_eq!(item.value, b"persists");
    assert_eq!(item.flags, 42);
}

/// Expired item must be lazily removed by `get()` and return `None`:
/// stored with a TTL of one second, read 1100 ms later.
#[test]
fn store_expired_item_removed_on_get() {
    let mut store = Store::new();
    store.set_at("temp".into(), 0, 1, b"short-lived".to_vec(), 0);

    let later = 1_100 * 1_000_000;
    let result = store.get_at("temp", later);
    assert!(result.is_none(), "expired item should return None");

    // it was removed: even a read "before" the deadline finds nothing now
    assert!(store.get_at("temp", 0).is_none(), "expired item should be removed");
}

/// Non-expired item with TTL must still be returned by `get()`.
#[test]
fn store_unexpired_item_returned() {
    let mut store = Store::new();
    store.set("fresh".into(), 7, 60, b"still-good".to_vec());

    let item = store.get("fresh").expect("unexpired item should be returned");
    assert_eq!(item.value, b"still-good");
    assert_eq!(item.flags, 7);
}

/// `delete()` must return true for existing keys, false for missing ones.
#[test]
fn store_delete_existing_and_missing() {
    let mut store = Store::new();
    store.set("exists".into(), 0, 0, b"data".to_vec());

    assert!(store.delete("exists"), "deleting existing key should return true");
    assert!(!store.delete("exists"), "deleting missing key should return false");
    assert!(store.get("exists").is_none(), "deleted key should be gone");
}

/// CAS values must be monotonically increasing across sets.
#[test]
fn store_cas_increments() {
    let mut store = Store::new();
    store.set("a".into(), 0, 0, b"1".to_vec());
    store.set("b".into(), 0, 0, b"2".to_vec());
    store.set("c".into(), 0, 0, b"3".to_vec());

    let a = store.get("a").unwrap();
    let b = store.get("b").unwrap();
    let c = store.get("c").unwrap();

    assert!(a.cas < b.cas, "CAS must increase: {} < {}", a.cas, b.cas);
    assert!(b.cas < c.cas, "CAS must increase: {} < {}", b.cas, c.cas);
}

#[test]
fn store_first_cas_is_one_and_counts_up() {
    let mut store = Store::new();
    store.set_at("a".into(), 0, 0, b"x".to_vec(), 5);
    store.set_at("a".into(), 0, 0, b"y".to_vec(), 6);
    let item = store.get_at("a", 7).unwrap();
    assert_eq!(item.cas, 2);
    assert_eq!(item.value, b"y");
}

#[test]
fn store_deadline_is_exact() {
    let mut store = Store::new();
    store.set_at("k".into(), 3, 2, b"v".to_vec(), 10);
    let deadline = 10 + 2 * NANOS_PER_SEC;
    let item = store.get_at("k", deadline - 1).expect("alive just before the deadline");
    assert_eq!(item.expires_at, Some(deadline));
    assert_eq!(item.flags, 3);
    assert!(store.get_at("k", deadline).is_none(), "gone at the deadline");
}

#[test]
fn store_read_after_write_other_keys_untouched() {
    let mut store = Store::new();
    store.set_at("one".into(), 1, 0, b"first".to_vec(), 0);
    store.set_at("two".into(), 2, 0, b"second".to_vec(), 0);
    assert_eq!(store.get_at("one", 99).unwrap().value, b"first");
    assert_eq!(store.get_at("two", 99).unwrap().value, b"second");
    store.set_at("one".into(), 5, 0, b"third".to_vec(), 100);
    let one = store.get_at("one", 101).unwrap();
    assert_eq!(one.value, b"third");
    assert_eq!(one.flags, 5);
    assert_eq!(store.get_at("two", 101).unwrap().value, b"second");
}

#[test]
fn store_missing_key_is_none() {
    let mut store = Store::new();
    assert!(store.get("nothing").is_none());
    assert!(!store.delete("nothing"));
}

#[test]
fn store_default_starts_cas_at_zero() {
    let mut store = Store::default();
    store.set_at("k".into(), 0, 0, b"v".to_vec(), 0);
    assert_eq!(store.get_at("k", 0).unwrap().cas, 0);
}

#[test]
fn item_new_keeps_fields() {
    let item = Item::new(b"abc".to_vec(), 9, Some(17), 4);
    assert_eq!(item.value, b"abc");
    assert_eq!(item.flags, 9);
    assert_eq!(item.expires_at, Some(17));
    assert_eq!(item.cas, 4);
}
