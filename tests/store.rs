use resp_store::expiring_cache::ExpiringValue;
use resp_store::store::{KVStore, StoreCommand, StoreResponse};

fn set(s: &mut KVStore, k: &str, v: &str, ttl: Option<u64>, now: u64) -> StoreResponse {
    s.apply(StoreCommand::set_value(k.to_string(), v.to_string(), ttl), now)
}

fn get(s: &mut KVStore, k: &str, now: u64) -> StoreResponse {
    s.apply(StoreCommand::get_value(k.to_string()), now)
}

#[test]
fn set_then_get_returns_value() {
    let mut s = KVStore::new();
    assert_eq!(set(&mut s, "k", "v", None, 0), StoreResponse::Done);
    assert_eq!(get(&mut s, "k", 1_000_000), StoreResponse::Value("v".to_string()));
}

#[test]
fn value_expires_after_ttl() {
    let mut s = KVStore::new();
    set(&mut s, "k", "v", Some(50), 1000);
    assert_eq!(get(&mut s, "k", 1050), StoreResponse::Value("v".to_string()));
    assert_eq!(get(&mut s, "k", 1060), StoreResponse::Nil);
    assert_eq!(get(&mut s, "k", 1000), StoreResponse::Nil);
}

#[test]
fn get_of_unset_key_is_nil() {
    let mut s = KVStore::new();
    assert_eq!(get(&mut s, "never", 5), StoreResponse::Nil);
    set(&mut s, "other", "x", None, 5);
    assert_eq!(get(&mut s, "never", 6), StoreResponse::Nil);
}

#[test]
fn set_replaces_whole_entry() {
    let mut s = KVStore::new();
    set(&mut s, "k", "old", Some(10), 0);
    set(&mut s, "k", "new", None, 5);
    assert_eq!(get(&mut s, "k", 100), StoreResponse::Value("new".to_string()));
    set(&mut s, "a", "1", None, 0);
    set(&mut s, "b", "2", None, 0);
    assert_eq!(get(&mut s, "a", 1), StoreResponse::Value("1".to_string()));
    assert_eq!(get(&mut s, "b", 1), StoreResponse::Value("2".to_string()));
}

#[test]
fn expiring_value_constructors() {
    let v = ExpiringValue::create_non_expiring("x", 7);
    assert_eq!(v.value, "x");
    assert_eq!(v.added_at, 7);
    assert_eq!(v.expires_in_ms, None);
    assert!(!v.has_expired(u64::MAX));
    let e = ExpiringValue::create_expiring(3u8, 50, 100);
    assert_eq!(e.expires_in_ms, Some(50));
    assert!(!e.has_expired(150));
    assert!(e.has_expired(151));
    assert!(!e.has_expired(10));
    let n = ExpiringValue::new(1u8, Some(0), 4);
    assert!(n.has_expired(5));
    assert!(!n.has_expired(4));
}
