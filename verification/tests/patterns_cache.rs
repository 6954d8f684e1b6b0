use patternhunt::patterns::cache::{
    clear_caches, get_or_compile_glob, get_or_compile_glob_at, get_or_compile_regex,
    get_or_compile_regex_at, glob_cache_metrics, regex_cache_metrics, set_ttl, ArtifactCache,
    CacheMetrics, PatternCaches, Ratio, DEFAULT_TTL, MAX_CACHE_SIZE,
};
use patternhunt::patterns::cache_metrics;
use patternhunt::store::{Cached, Lookup, TtlStore};
use patternhunt::GlobError;

#[test]
fn hit_ratio_is_hits_out_of_lookups() {
    let none = CacheMetrics { hits: 0, misses: 0, evictions: 3, size: 2 };
    assert_eq!(none.hit_ratio(), Ratio { part: 0, total: 1 });
    let some = CacheMetrics { hits: 3, misses: 1, evictions: 0, size: 0 };
    assert_eq!(some.hit_ratio(), Ratio { part: 3, total: 4 });
    let misses = CacheMetrics { hits: 0, misses: 9, evictions: 0, size: 0 };
    assert_eq!(misses.hit_ratio(), Ratio { part: 0, total: 9 });
    let full = CacheMetrics { hits: u64::MAX, misses: u64::MAX, evictions: 0, size: 0 };
    assert_eq!(
        full.hit_ratio(),
        Ratio { part: u64::MAX, total: 2 * (u64::MAX as u128) }
    );
    let ratio = some.hit_ratio();
    assert_eq!(ratio.part as f64 / ratio.total as f64, 0.75);
}

#[test]
fn new_caches_have_counted_nothing() {
    let caches = PatternCaches::new();
    let (globs, regexes) = cache_metrics(&caches);
    assert_eq!((globs.hits, globs.misses, globs.evictions, globs.size), (0, 0, 0, 0));
    assert_eq!(
        (regexes.hits, regexes.misses, regexes.evictions, regexes.size),
        (0, 0, 0, 0)
    );
}

#[test]
fn regex_is_compiled_once_and_then_served() {
    let mut caches = PatternCaches::new();
    let first = get_or_compile_regex_at(&mut caches, "^a+$", 10).unwrap();
    assert!(first.is_match("aaa"));
    assert!(!first.is_match("ab"));
    let m = regex_cache_metrics(&caches);
    assert_eq!((m.hits, m.misses, m.evictions, m.size), (0, 1, 0, 1));
    let second = get_or_compile_regex_at(&mut caches, "^a+$", 20).unwrap();
    assert_eq!(second.as_str(), "^a+$");
    let m = regex_cache_metrics(&caches);
    assert_eq!((m.hits, m.misses, m.evictions, m.size), (1, 1, 0, 1));
    let g = glob_cache_metrics(&caches);
    assert_eq!((g.hits, g.misses, g.evictions, g.size), (0, 0, 0, 0));
}

#[test]
fn entry_expires_at_its_time_and_not_before() {
    let mut caches = PatternCaches::new();
    get_or_compile_regex_at(&mut caches, "x", 100).unwrap();
    get_or_compile_regex_at(&mut caches, "x", 100 + DEFAULT_TTL - 1).unwrap();
    let m = regex_cache_metrics(&caches);
    assert_eq!((m.hits, m.misses, m.evictions, m.size), (1, 1, 0, 1));
    get_or_compile_regex_at(&mut caches, "x", 100 + DEFAULT_TTL).unwrap();
    let m = regex_cache_metrics(&caches);
    assert_eq!((m.hits, m.misses, m.evictions, m.size), (1, 2, 1, 1));
    get_or_compile_regex_at(&mut caches, "x", 100 + DEFAULT_TTL + 1).unwrap();
    let m = regex_cache_metrics(&caches);
    assert_eq!((m.hits, m.misses, m.evictions, m.size), (2, 2, 1, 1));
}

#[test]
fn hits_and_misses_add_up_to_the_lookups() {
    let mut caches = PatternCaches::new();
    let sources = ["a", "b", "a", "c", "b", "a", "d", "(", "("];
    let mut lookups = 0;
    for (i, s) in sources.iter().enumerate() {
        let _ = get_or_compile_regex_at(&mut caches, s, i as u128);
        lookups += 1;
        let m = regex_cache_metrics(&caches);
        assert_eq!(m.hits + m.misses, lookups);
    }
    let m = regex_cache_metrics(&caches);
    assert_eq!((m.hits, m.misses, m.size), (3, 6, 4));
}

#[test]
fn a_source_that_does_not_compile_is_not_cached() {
    let mut caches = PatternCaches::new();
    assert!(matches!(
        get_or_compile_regex_at(&mut caches, "(", 0),
        Err(GlobError::Regex(_))
    ));
    let m = regex_cache_metrics(&caches);
    assert_eq!((m.hits, m.misses, m.evictions, m.size), (0, 1, 0, 0));
}

#[test]
fn too_complex_a_source_is_refused_before_the_cache_is_asked() {
    let mut caches = PatternCaches::new();
    let long = "a".repeat(1001);
    assert!(matches!(
        get_or_compile_regex_at(&mut caches, &long, 0),
        Err(GlobError::RegexTooComplex)
    ));
    let m = regex_cache_metrics(&caches);
    assert_eq!((m.hits, m.misses, m.evictions, m.size), (0, 0, 0, 0));
    let fits = "a".repeat(1000);
    assert!(get_or_compile_regex_at(&mut caches, &fits, 0).is_ok());
    let wide = "é".repeat(1000);
    assert!(get_or_compile_regex_at(&mut caches, &wide, 0).is_ok());
}

#[test]
fn the_cache_never_grows_beyond_its_bound() {
    let mut caches = PatternCaches::new();
    for i in 0..(MAX_CACHE_SIZE + 1) {
        let source = format!("src{}", i);
        get_or_compile_regex_at(&mut caches, &source, 0).unwrap();
        assert!(regex_cache_metrics(&caches).size <= MAX_CACHE_SIZE);
    }
    let m = regex_cache_metrics(&caches);
    assert_eq!((m.hits, m.misses, m.size), (0, 1001, 1000));
    get_or_compile_regex_at(&mut caches, "src1000", 1).unwrap();
    assert_eq!(regex_cache_metrics(&caches).hits, 1);
    get_or_compile_regex_at(&mut caches, "src1", 1).unwrap();
    assert_eq!(regex_cache_metrics(&caches).hits, 2);
    get_or_compile_regex_at(&mut caches, "src0", 1).unwrap();
    let m = regex_cache_metrics(&caches);
    assert_eq!((m.hits, m.misses, m.size), (2, 1002, 1000));
}

#[test]
fn a_served_entry_is_the_last_to_leave() {
    let mut caches = PatternCaches::new();
    for i in 0..MAX_CACHE_SIZE {
        get_or_compile_regex_at(&mut caches, &format!("src{}", i), 0).unwrap();
    }
    get_or_compile_regex_at(&mut caches, "src0", 1).unwrap();
    get_or_compile_regex_at(&mut caches, "fresh", 1).unwrap();
    let before = regex_cache_metrics(&caches);
    get_or_compile_regex_at(&mut caches, "src0", 2).unwrap();
    assert_eq!(regex_cache_metrics(&caches).hits, before.hits + 1);
    get_or_compile_regex_at(&mut caches, "src1", 2).unwrap();
    assert_eq!(regex_cache_metrics(&caches).misses, before.misses + 1);
}

#[test]
fn clearing_counts_an_eviction_and_the_next_lookup_misses() {
    let mut caches = PatternCaches::new();
    get_or_compile_regex_at(&mut caches, "a", 0).unwrap();
    get_or_compile_glob_at(&mut caches, "*.rs", 0).unwrap();
    clear_caches(&mut caches);
    let (g, r) = cache_metrics(&caches);
    assert_eq!((g.hits, g.misses, g.evictions, g.size), (0, 1, 1, 0));
    assert_eq!((r.hits, r.misses, r.evictions, r.size), (0, 1, 1, 0));
    get_or_compile_regex_at(&mut caches, "a", 0).unwrap();
    get_or_compile_glob_at(&mut caches, "*.rs", 0).unwrap();
    let (g, r) = cache_metrics(&caches);
    assert_eq!((g.hits, g.misses, g.size), (0, 2, 1));
    assert_eq!((r.hits, r.misses, r.size), (0, 2, 1));
}

#[test]
fn glob_set_is_built_once_and_then_served() {
    let mut caches = PatternCaches::new();
    let set = get_or_compile_glob_at(&mut caches, "*.rs", 0).unwrap();
    assert_eq!(set.len(), 1);
    assert!(set.is_match("main.rs"));
    assert!(!set.is_match("main.c"));
    let again = get_or_compile_glob_at(&mut caches, "*.rs", 1).unwrap();
    assert!(again.is_match("lib.rs"));
    let g = glob_cache_metrics(&caches);
    assert_eq!((g.hits, g.misses, g.evictions, g.size), (1, 1, 0, 1));
    let r = regex_cache_metrics(&caches);
    assert_eq!((r.hits, r.misses, r.evictions, r.size), (0, 0, 0, 0));
}

#[test]
fn a_glob_that_does_not_parse_says_why() {
    let mut caches = PatternCaches::new();
    match get_or_compile_glob_at(&mut caches, "[a", 0) {
        Err(GlobError::InvalidPattern(m)) => assert!(m.contains("unclosed character class")),
        _ => panic!("an unclosed class is no glob"),
    }
    assert_eq!(glob_cache_metrics(&caches).size, 0);
}

#[test]
fn the_clock_of_the_caches_serves_a_second_request() {
    let mut caches = PatternCaches::new();
    get_or_compile_regex(&mut caches, "^b$").unwrap();
    let re = get_or_compile_regex(&mut caches, "^b$").unwrap();
    assert!(re.is_match("b"));
    let m = regex_cache_metrics(&caches);
    assert_eq!((m.hits, m.misses, m.size), (1, 1, 1));
    get_or_compile_glob(&mut caches, "*.md").unwrap();
    get_or_compile_glob(&mut caches, "*.md").unwrap();
    let g = glob_cache_metrics(&caches);
    assert_eq!((g.hits, g.misses, g.size), (1, 1, 1));
}

#[test]
fn set_ttl_changes_nothing() {
    let mut caches = PatternCaches::new();
    get_or_compile_regex_at(&mut caches, "x", 0).unwrap();
    set_ttl(&mut caches, 1);
    get_or_compile_regex_at(&mut caches, "x", 2).unwrap();
    let m = regex_cache_metrics(&caches);
    assert_eq!((m.hits, m.misses, m.evictions, m.size), (1, 1, 0, 1));
    get_or_compile_regex_at(&mut caches, "y", 2).unwrap();
    get_or_compile_regex_at(&mut caches, "y", 2 + DEFAULT_TTL - 1).unwrap();
    assert_eq!(regex_cache_metrics(&caches).hits, 2);
}

#[test]
fn artifact_cache_counts_each_kind_of_lookup() {
    let mut cache = ArtifactCache::new(5);
    assert!(cache.get("k", 0).is_none());
    let re = regex::Regex::new("a").unwrap();
    cache.put("k".to_string(), Cached::Pattern(re), 10);
    assert!(matches!(cache.get("k", 14), Some(Cached::Pattern(_))));
    assert!(cache.get("k", 15).is_none());
    let m = cache.metrics();
    assert_eq!((m.hits, m.misses, m.evictions, m.size), (1, 2, 1, 0));
    cache.clear();
    let m = cache.metrics();
    assert_eq!((m.hits, m.misses, m.evictions, m.size), (1, 2, 2, 0));
}

#[test]
fn store_replaces_by_key_and_drops_the_least_recently_used() {
    let mut store = TtlStore::new(2, 100);
    let value = |s: &str| Cached::Pattern(regex::Regex::new(s).unwrap());
    store.store("a".to_string(), value("1"), 0);
    store.store("b".to_string(), value("2"), 0);
    store.store("a".to_string(), value("3"), 0);
    assert_eq!(store.len(), 2);
    match store.lookup("a", 1) {
        Lookup::Fresh(Cached::Pattern(re)) => assert_eq!(re.as_str(), "3"),
        _ => panic!("the newer value is served"),
    }
    store.store("c".to_string(), value("4"), 0);
    assert_eq!(store.len(), 2);
    assert!(matches!(store.lookup("b", 1), Lookup::Absent));
    assert!(matches!(store.lookup("a", 1), Lookup::Fresh(_)));
    assert!(matches!(store.lookup("c", 100), Lookup::Expired));
    assert!(matches!(store.lookup("c", 100), Lookup::Absent));
    assert_eq!(store.len(), 1);
    store.clear();
    assert_eq!(store.len(), 0);
    let mut late = TtlStore::new(1, u128::MAX);
    late.store("z".to_string(), value("5"), 7);
    assert!(matches!(late.lookup("z", u128::MAX - 1), Lookup::Fresh(_)));
    assert!(matches!(late.lookup("z", u128::MAX), Lookup::Expired));
}
