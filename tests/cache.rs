use music_backend::cache::{
    load_metadata_cache, CacheDocument, CacheError, CachedMetadata, MetadataCache,
};
use music_backend::tags::metadata_from_tag_fields;

fn entry(title: &str, size: u64) -> CachedMetadata {
    CachedMetadata {
        metadata: metadata_from_tag_fields(Some(title.to_string()), 1000, &vec![], None),
        file_name: format!("{}.mp3", title),
        file_size: size,
        last_modified: 1700000000000,
    }
}

#[test]
fn missing_document_is_empty_cache() {
    let cache = match load_metadata_cache(CacheDocument::Missing) {
        Ok(c) => c,
        Err(e) => panic!("not loaded: {:?}", e),
    };
    assert!(cache.entries().is_empty());
    assert!(cache.get("any").is_none());
}

#[test]
fn malformed_document_is_corrupt() {
    let r = load_metadata_cache(CacheDocument::Malformed("expected value".to_string()));
    assert_eq!(r.err(), Some(CacheError::Corrupt("expected value".to_string())));
}

#[test]
fn unreadable_document_is_io_failure() {
    let r = load_metadata_cache(CacheDocument::Unreadable("permission denied".to_string()));
    assert_eq!(r.err(), Some(CacheError::IoFailure("permission denied".to_string())));
}

#[test]
fn insert_then_get() {
    let mut cache = MetadataCache::new();
    cache.insert("a".to_string(), entry("alpha", 10));
    cache.insert("b".to_string(), entry("beta", 20));
    assert_eq!(cache.get("a"), Some(&entry("alpha", 10)));
    assert_eq!(cache.get("b"), Some(&entry("beta", 20)));
    assert_eq!(cache.get("c"), None);
    assert_eq!(cache.entries().len(), 2);
}

#[test]
fn insert_replaces_same_key() {
    let mut cache = MetadataCache::new();
    cache.insert("a".to_string(), entry("alpha", 10));
    cache.insert("a".to_string(), entry("again", 11));
    assert_eq!(cache.get("a"), Some(&entry("again", 11)));
    assert_eq!(cache.entries().len(), 1);
}

#[test]
fn later_duplicate_entry_counts() {
    let doc = CacheDocument::Parsed(vec![
        ("a".to_string(), entry("first", 1)),
        ("b".to_string(), entry("other", 2)),
        ("a".to_string(), entry("second", 3)),
    ]);
    let cache = match load_metadata_cache(doc) {
        Ok(c) => c,
        Err(e) => panic!("not loaded: {:?}", e),
    };
    assert_eq!(cache.get("a"), Some(&entry("second", 3)));
    assert_eq!(cache.get("b"), Some(&entry("other", 2)));
    assert_eq!(cache.entries().len(), 2);
}

#[test]
fn saved_entries_load_back_equal() {
    let mut cache = MetadataCache::new();
    cache.insert("x".to_string(), entry("ex", 5));
    cache.insert("y".to_string(), entry("why", 6));
    let saved = cache.entries().clone();
    let reloaded = MetadataCache::from_entries(saved);
    assert_eq!(reloaded.get("x"), cache.get("x"));
    assert_eq!(reloaded.get("y"), cache.get("y"));
    assert_eq!(reloaded.entries().len(), cache.entries().len());
}
