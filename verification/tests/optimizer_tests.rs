use data_code::optimizer::cache::{CacheStats, ParseCache};
use data_code::parser::expression::Parser;

#[test]
fn test_cache_basic_operations() {
    let mut cache = ParseCache::new();
    let result1 = cache.get_or_parse("1 + 2", |s| Parser::new(s).parse_expression());
    assert!(result1.is_ok());
    assert_eq!(cache.get_miss_count(), 1);
    assert_eq!(cache.get_hit_count(), 0);
    let result2 = cache.get_or_parse("1 + 2", |s| Parser::new(s).parse_expression());
    assert!(result2.is_ok());
    assert_eq!(cache.get_miss_count(), 1);
    assert_eq!(cache.get_hit_count(), 1);
}

#[test]
fn test_cache_stats() {
    let mut cache = ParseCache::new();
    for i in 0..5 {
        let expr_str = format!("{} + {}", i, i + 1);
        let _ = cache.get_or_parse(&expr_str, |s| Parser::new(s).parse_expression());
    }
    for i in 0..3 {
        let expr_str = format!("{} + {}", i, i + 1);
        let _ = cache.get_or_parse(&expr_str, |s| Parser::new(s).parse_expression());
    }
    let stats = cache.get_stats();
    assert_eq!(stats.hits, 3);
    assert_eq!(stats.misses, 5);
    assert_eq!(stats.size, 5);
    let hit_ratio = stats.hits as f64 / (stats.hits + stats.misses) as f64;
    assert!(hit_ratio > 0.0);
}

#[test]
fn test_cache_key_normalization() {
    let cache = ParseCache::new();
    let key1 = cache.create_cache_key("  1 + 2  ");
    let key2 = cache.create_cache_key("1 + 2");
    let key3 = cache.create_cache_key("1  +  2");
    assert_eq!(key1, key2);
    assert_eq!(key2, key3);
}

#[test]
fn cache_long_keys_are_hashed() {
    let cache = ParseCache::new();
    let long = "x".repeat(101);
    let key = cache.create_cache_key(&long);
    assert!(key.starts_with("hash_"));
    assert!(key[5..].chars().all(|c| c.is_ascii_digit()));
    assert_eq!(cache.create_cache_key(&"y".repeat(100)), "y".repeat(100));
    assert_eq!(cache.create_cache_key("a   b"), "a  b");
}

#[test]
fn cache_eviction_and_clear() {
    let mut cache = ParseCache::with_capacity(2);
    let mut p = Parser::new("1");
    cache.insert("a", p.parse_expression().unwrap());
    let mut p = Parser::new("2");
    cache.insert("b", p.parse_expression().unwrap());
    assert!(cache.is_full());
    let mut p = Parser::new("3");
    cache.insert("c", p.parse_expression().unwrap());
    assert_eq!(cache.size(), 2);
    assert!(cache.get("a").is_none());
    assert!(cache.get("c").is_some());
    assert_eq!(cache.get_hit_count(), 1);
    assert_eq!(cache.get_miss_count(), 1);
    cache.clear();
    assert_eq!(cache.size(), 0);
    assert_eq!(cache.get_hit_count(), 0);
    assert_eq!(cache.max_size(), 2);
    let mut zero = ParseCache::with_capacity(0);
    let mut p = Parser::new("1");
    zero.insert("a", p.parse_expression().unwrap());
    assert_eq!(zero.size(), 0);
}

#[test]
fn cache_parse_errors_are_not_stored() {
    let mut cache = ParseCache::new();
    let r = cache.get_or_parse("(", |s| Parser::new(s).parse_expression());
    assert!(r.is_err());
    assert_eq!(cache.size(), 0);
    assert_eq!(cache.get_miss_count(), 1);
}

#[test]
fn cache_preload() {
    let mut cache = ParseCache::new();
    cache.preload_common_expressions();
    assert_eq!(cache.size(), 14);
    assert!(cache.get("age >= 18").is_some());
    assert!(cache.get("{}").is_none());
}

#[test]
fn cache_stats_effectiveness() {
    let good = CacheStats { hits: 11, misses: 20, size: 5, max_size: 10 };
    assert!(good.is_effective());
    let few = CacheStats { hits: 10, misses: 0, size: 5, max_size: 10 };
    assert!(!few.is_effective());
    let low = CacheStats { hits: 30, misses: 70, size: 5, max_size: 10 };
    assert!(!low.is_effective());
}
