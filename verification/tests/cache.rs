use z_play::path_cache::PathCache;
use z_play::path_cache::CACHE_SIZE;

#[test]
fn toggle_cycle() {
    let mut cache = PathCache::default();
    assert!(cache.insert_or_remove("/p".to_string()));
    assert!(cache.contains("/p"));
    assert!(!cache.insert_or_remove("/p".to_string()));
    assert!(!cache.contains("/p"));
    assert!(cache.insert_or_remove("/p".to_string()));
    assert!(cache.contains("/p"));
}

#[test]
fn toggle_cycle_with_others_between_states() {
    let mut cache = PathCache::with_capacity(4);
    assert!(cache.insert_or_remove("/a".to_string()));
    assert!(cache.insert_or_remove("/b".to_string()));
    assert!(cache.insert_or_remove("/p".to_string()));
    assert!(!cache.insert_or_remove("/p".to_string()));
    assert!(cache.insert_or_remove("/p".to_string()));
    assert!(cache.contains("/a"));
    assert!(cache.contains("/b"));
}

#[test]
fn default_capacity_evicts_the_oldest_at_one_more_than_capacity() {
    assert_eq!(CACHE_SIZE, 1000);
    let mut cache = PathCache::default();
    for i in 0..CACHE_SIZE {
        assert!(cache.insert_or_remove(format!("/f/{i}")));
    }
    // Exactly at capacity everything is still outstanding.
    for i in 0..CACHE_SIZE {
        assert!(cache.contains(&format!("/f/{i}")));
    }
    assert!(cache.insert_or_remove(format!("/f/{CACHE_SIZE}")));
    assert!(!cache.contains("/f/0"));
    for i in 1..=CACHE_SIZE {
        assert!(cache.contains(&format!("/f/{i}")));
    }
}

#[test]
fn small_capacity_keeps_the_newest() {
    let mut cache = PathCache::with_capacity(3);
    for name in ["/a", "/b", "/c"] {
        assert!(cache.insert_or_remove(name.to_string()));
    }
    assert!(cache.contains("/a") && cache.contains("/b") && cache.contains("/c"));
    assert!(cache.insert_or_remove("/d".to_string()));
    assert!(!cache.contains("/a"));
    assert!(cache.contains("/b") && cache.contains("/c") && cache.contains("/d"));
    assert!(cache.insert_or_remove("/e".to_string()));
    assert!(!cache.contains("/b"));
    // An evicted path passes again.
    assert!(cache.insert_or_remove("/a".to_string()));
}

#[test]
fn dropped_path_frees_its_place() {
    // "/a" is dropped and taken in again: it counts once, as the newest.
    let mut cache = PathCache::with_capacity(3);
    assert!(cache.insert_or_remove("/a".to_string()));
    assert!(!cache.insert_or_remove("/a".to_string()));
    assert!(cache.insert_or_remove("/a".to_string()));
    assert!(cache.insert_or_remove("/b".to_string()));
    assert!(cache.contains("/a"));
    assert!(cache.insert_or_remove("/c".to_string()));
    assert!(cache.contains("/a") && cache.contains("/b") && cache.contains("/c"));
    // The fourth path gives up the oldest, which is "/a".
    assert!(cache.insert_or_remove("/d".to_string()));
    assert!(!cache.contains("/a"));
    assert!(cache.contains("/b") && cache.contains("/c") && cache.contains("/d"));
}

#[test]
fn cache_of_one_toggles() {
    let mut cache = PathCache::with_capacity(1);
    assert!(cache.insert_or_remove("/p".to_string()));
    assert!(cache.contains("/p"));
    assert!(!cache.insert_or_remove("/p".to_string()));
    assert!(!cache.contains("/p"));
    assert!(cache.insert_or_remove("/p".to_string()));
    assert!(cache.contains("/p"));
    assert!(!cache.insert_or_remove("/p".to_string()));
}

#[test]
fn answer_tells_what_the_cache_holds() {
    let mut cache = PathCache::with_capacity(2);
    for name in ["/a", "/b", "/a", "/c", "/d", "/b", "/b", "/d", "/a", "/a", "/c"] {
        let fresh = cache.insert_or_remove(name.to_string());
        assert_eq!(cache.contains(name), fresh);
    }
}

#[test]
fn nothing_is_given_up_below_the_capacity() {
    // "/p" is offered three times and followed by 999 others: a thousand
    // paths are outstanding, "/p" among them.
    let mut cache = PathCache::default();
    assert!(cache.insert_or_remove("/p".to_string()));
    assert!(!cache.insert_or_remove("/p".to_string()));
    assert!(cache.insert_or_remove("/p".to_string()));
    for i in 1..CACHE_SIZE {
        assert!(cache.insert_or_remove(format!("/q/{i}")));
    }
    assert!(cache.contains("/p"));
    assert!(!cache.insert_or_remove("/p".to_string()));
}

#[test]
fn dropping_a_path_gives_up_nothing_else() {
    let mut cache = PathCache::with_capacity(3);
    for name in ["/a", "/b", "/c"] {
        assert!(cache.insert_or_remove(name.to_string()));
    }
    assert!(!cache.insert_or_remove("/b".to_string()));
    assert!(cache.contains("/a") && cache.contains("/c"));
    // There is room again: the next path gives up nothing.
    assert!(cache.insert_or_remove("/d".to_string()));
    assert!(cache.contains("/a") && cache.contains("/c") && cache.contains("/d"));
}

#[test]
fn copy_holds_the_same_paths() {
    let mut cache = PathCache::with_capacity(2);
    cache.insert_or_remove("/a".to_string());
    cache.insert_or_remove("/b".to_string());
    let mut copy = cache.clone();
    assert!(copy.contains("/a") && copy.contains("/b"));
    assert!(copy.insert_or_remove("/c".to_string()));
    assert!(!copy.contains("/a"));
    assert!(cache.contains("/a"));
}

#[test]
fn release_drops_a_path() {
    let mut cache = PathCache::with_capacity(2);
    assert!(cache.insert_or_remove("/a".to_string()));
    assert!(cache.remove("/a"));
    assert!(!cache.contains("/a"));
    assert!(!cache.remove("/a"));
    assert!(cache.insert_or_remove("/a".to_string()));
    // The released place is free: two more paths fit beside "/a" only
    // by giving it up.
    assert!(cache.insert_or_remove("/b".to_string()));
    assert!(cache.contains("/a") && cache.contains("/b"));
}
