use rdapx::cache::{cache_key, cache_path, is_fresh, CacheStore};

#[test]
fn key_is_deterministic() {
    let a = cache_key("https://rdap.apnic.net/ip/1.1.1.1");
    let b = cache_key("https://rdap.apnic.net/ip/1.1.1.1");
    assert_eq!(a, b);
}

#[test]
fn key_exact_value_short() {
    // 64-bit FNV-1a of "abc"
    assert_eq!(cache_key("abc"), "e71fa2190541574b.json");
}

#[test]
fn key_exact_value_url() {
    assert_eq!(
        cache_key("https://rdap.arin.net/registry/autnum/13335"),
        "5d558e72f58de393.json"
    );
}

#[test]
fn key_shape() {
    let k = cache_key("https://rdap.apnic.net/ip/::1");
    assert_eq!(k.len(), 21);
    assert!(k.ends_with(".json"));
}

#[test]
fn keys_differ_for_different_urls() {
    assert_ne!(cache_key("https://a.example/x"), cache_key("https://a.example/y"));
}

#[test]
fn path_joins_dir_and_key() {
    assert_eq!(cache_path("/tmp/c", "abc"), "/tmp/c/e71fa2190541574b.json");
}

#[test]
fn freshness_boundaries() {
    assert!(is_fresh(100, 100, 0));
    assert!(is_fresh(100, 90, 10));
    assert!(!is_fresh(100, 89, 10));
    // an entry from the future is not fresh
    assert!(!is_fresh(100, 101, 10));
}

#[test]
fn store_then_fresh_lookup() {
    let mut c = CacheStore::new();
    c.store("https://a.example/x", b"{\"k\":1}", 1000);
    let got = c.lookup("https://a.example/x", 1500, 600).unwrap();
    assert_eq!(got, b"{\"k\":1}".to_vec());
}

#[test]
fn stale_lookup_misses_but_keeps_entry() {
    let mut c = CacheStore::new();
    c.store("https://a.example/x", b"old", 1000);
    assert!(c.lookup("https://a.example/x", 2000, 600).is_none());
    // the entry is bypassed, not removed
    assert_eq!(c.len(), 1);
}

#[test]
fn missing_key_misses() {
    let c = CacheStore::new();
    assert!(c.lookup("https://a.example/x", 0, 600).is_none());
}

#[test]
fn overwrite_is_last_writer_wins() {
    let mut c = CacheStore::new();
    c.store("https://a.example/x", b"first", 1000);
    c.store("https://a.example/x", b"second", 1100);
    assert_eq!(c.len(), 1);
    let got = c.lookup("https://a.example/x", 1200, 600).unwrap();
    assert_eq!(got, b"second".to_vec());
}

#[test]
fn list_names_every_entry() {
    let mut c = CacheStore::new();
    c.store("https://a.example/x", b"1", 0);
    c.store("https://a.example/y", b"2", 0);
    let keys = c.list();
    assert_eq!(keys.len(), 2);
    assert!(keys.contains(&"https://a.example/x".to_string()));
    assert!(keys.contains(&"https://a.example/y".to_string()));
}

#[test]
fn clear_removes_fresh_and_stale_alike() {
    let mut c = CacheStore::new();
    c.store("https://a.example/old", b"1", 0);
    c.store("https://a.example/new", b"2", 1000);
    // at time 1001 with ttl 600: "old" is long expired, "new" is fresh
    assert!(c.lookup("https://a.example/new", 1001, 600).is_some());
    let removed = c.clear();
    assert_eq!(removed, 2);
    assert_eq!(c.len(), 0);
    assert!(c.lookup("https://a.example/new", 1001, 600).is_none());
}

#[test]
fn clear_empty_store_removes_zero() {
    let mut c = CacheStore::new();
    assert_eq!(c.clear(), 0);
}

#[test]
fn key_of_empty_url_is_the_offset_basis() {
    // FNV-1a of no bytes is the offset basis
    assert_eq!(cache_key(""), "cbf29ce484222325.json");
}
