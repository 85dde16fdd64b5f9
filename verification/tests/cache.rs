use hallway::consts;
use hallway::rendering::RenderCache;

#[test]
fn miss_then_hit_returns_identical_markup() {
    let mut cache = RenderCache::new();
    assert_eq!(cache.lookup("a@x.com"), None);

    let now: u64 = 1_000_000;
    cache.store("a@x.com".to_string(), "<html>a</html>".to_string(), now);

    let first = cache.lookup("a@x.com");
    let second = cache.lookup("a@x.com");
    assert_eq!(first, Some("<html>a</html>".to_string()));
    assert_eq!(first, second);
}

#[test]
fn sweep_within_lifetime_keeps_entries() {
    let mut cache = RenderCache::new();
    let now: u64 = 1_000_000;
    cache.store("a@x.com".to_string(), "<html>a</html>".to_string(), now);

    cache.clean_old(now + consts::MAX_TIME - 1);
    assert_eq!(cache.lookup("a@x.com"), Some("<html>a</html>".to_string()));
}

#[test]
fn sweep_after_lifetime_evicts() {
    let mut cache = RenderCache::new();
    let now: u64 = 1_000_000;
    cache.store("a@x.com".to_string(), "<html>a</html>".to_string(), now);

    cache.clean_old(now + consts::MAX_TIME);
    assert_eq!(cache.lookup("a@x.com"), None);

    // A later store is a fresh miss turned into a fresh entry.
    cache.store("a@x.com".to_string(), "<html>new</html>".to_string(), now + consts::MAX_TIME);
    assert_eq!(cache.lookup("a@x.com"), Some("<html>new</html>".to_string()));
}

#[test]
fn entry_from_the_future_counts_as_expired() {
    let mut cache = RenderCache::new();
    cache.store("a@x.com".to_string(), "<html>a</html>".to_string(), 5_000);

    // The clock appears to have moved backward: treated as already expired.
    cache.clean_old(4_999);
    assert_eq!(cache.lookup("a@x.com"), None);
}

#[test]
fn store_replaces_older_entry_for_same_identity() {
    let mut cache = RenderCache::new();
    cache.store("a@x.com".to_string(), "<html>old</html>".to_string(), 1_000);
    cache.store("a@x.com".to_string(), "<html>new</html>".to_string(), 2_000);
    assert_eq!(cache.lookup("a@x.com"), Some("<html>new</html>".to_string()));

    cache.store("b@x.com".to_string(), "<html>b</html>".to_string(), 2_000);
    assert_eq!(cache.lookup("a@x.com"), Some("<html>new</html>".to_string()));
    assert_eq!(cache.lookup("b@x.com"), Some("<html>b</html>".to_string()));
}

#[test]
fn sweep_is_per_entry() {
    let mut cache = RenderCache::new();
    cache.store("old@x.com".to_string(), "<html>old</html>".to_string(), 0);
    cache.store("new@x.com".to_string(), "<html>new</html>".to_string(), consts::MAX_TIME);

    cache.clean_old(consts::MAX_TIME);
    assert_eq!(cache.lookup("old@x.com"), None);
    assert_eq!(cache.lookup("new@x.com"), Some("<html>new</html>".to_string()));
}
