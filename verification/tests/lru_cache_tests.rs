use hayate_fileview::lru_cache::LruCache;

#[test]
fn basic_insert_and_get() {
    let mut c = LruCache::new(3);
    c.insert("a", 1);
    c.insert("b", 2);
    c.insert("c", 3);
    assert_eq!(c.get(&"a"), Some(&1));
    assert_eq!(c.get(&"b"), Some(&2));
    assert_eq!(c.get(&"c"), Some(&3));
    assert_eq!(c.len(), 3);
}

#[test]
fn evicts_lru_on_overflow() {
    let mut c = LruCache::new(2);
    c.insert("a", 1);
    c.insert("b", 2);
    // "a" is LRU
    c.insert("c", 3);
    assert_eq!(c.get(&"a"), None); // evicted
    assert_eq!(c.get(&"b"), Some(&2));
    assert_eq!(c.get(&"c"), Some(&3));
    assert_eq!(c.len(), 2);
}

#[test]
fn access_promotes_entry() {
    let mut c = LruCache::new(2);
    c.insert("a", 1);
    c.insert("b", 2);
    // Access "a" → now "b" is LRU
    c.get(&"a");
    c.insert("c", 3);
    assert_eq!(c.get(&"b"), None); // "b" was LRU, evicted
    assert_eq!(c.get(&"a"), Some(&1)); // promoted, survives
    assert_eq!(c.get(&"c"), Some(&3));
}

#[test]
fn get_or_insert_with_creates() {
    let mut c: LruCache<&str, i32> = LruCache::new(3);
    let v = c.get_or_insert_with("x", || 42);
    assert_eq!(*v, 42);
    // Second call returns cached value
    let v2 = c.get_or_insert_with("x", || 99);
    assert_eq!(*v2, 42);
}

#[test]
fn clear_empties_cache() {
    let mut c = LruCache::new(3);
    c.insert("a", 1);
    c.insert("b", 2);
    c.clear();
    assert_eq!(c.len(), 0);
    assert_eq!(c.get(&"a"), None);
}

#[test]
fn update_existing_key() {
    let mut c = LruCache::new(3);
    c.insert("a", 1);
    c.insert("a", 10);
    assert_eq!(c.get(&"a"), Some(&10));
    assert_eq!(c.len(), 1);
}

#[test]
fn string_keys_with_font_size() {
    let mut c: LruCache<(String, u32), &str> = LruCache::new(2);
    c.insert(("row".to_string(), 11), "small");
    c.insert(("row".to_string(), 16), "large");
    assert_eq!(c.get(&("row".to_string(), 11)), Some(&"small"));
    c.insert(("other".to_string(), 11), "x");
    // ("row", 16) was the least recently used.
    assert_eq!(c.get(&("row".to_string(), 16)), None);
    assert_eq!(c.len(), 2);
}

#[test]
fn zero_capacity_keeps_the_newest_entry() {
    let mut c = LruCache::new(0);
    c.insert("a", 1);
    c.insert("b", 2);
    assert_eq!(c.get(&"a"), None);
    assert_eq!(c.get(&"b"), Some(&2));
    assert_eq!(c.len(), 1);
}
