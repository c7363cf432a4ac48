use soroscope::cache::SimulationCache;
use soroscope::resources::SorobanResources;
use soroscope::simulation::SimulationResult;

fn make_result() -> SimulationResult {
    SimulationResult {
        resources: SorobanResources {
            cpu_instructions: 1_000,
            ram_bytes: 2_000,
            ledger_read_bytes: 512,
            ledger_write_bytes: 256,
            transaction_size_bytes: 128,
        },
        transaction_hash: None,
        latest_ledger: 42,
        cost_stroops: 10,
        state_dependency: None,
    }
}

#[test]
fn test_cache_key_is_deterministic() {
    let k1 = SimulationCache::generate_key("CONTRACT_A", "fn_x", &["arg1".to_string()]);
    let k2 = SimulationCache::generate_key("CONTRACT_A", "fn_x", &["arg1".to_string()]);
    assert_eq!(k1, k2);
}

#[test]
fn test_cache_key_differs_on_contract_id() {
    let k1 = SimulationCache::generate_key("CONTRACT_A", "fn_x", &[]);
    let k2 = SimulationCache::generate_key("CONTRACT_B", "fn_x", &[]);
    assert_ne!(k1, k2);
}

#[test]
fn test_cache_key_differs_on_function_name() {
    let k1 = SimulationCache::generate_key("CONTRACT_A", "fn_x", &[]);
    let k2 = SimulationCache::generate_key("CONTRACT_A", "fn_y", &[]);
    assert_ne!(k1, k2);
}

#[test]
fn test_cache_key_differs_on_args() {
    let k1 = SimulationCache::generate_key("CONTRACT_A", "fn_x", &["1".to_string()]);
    let k2 = SimulationCache::generate_key("CONTRACT_A", "fn_x", &["2".to_string()]);
    assert_ne!(k1, k2);
}

#[test]
fn test_cache_key_is_hex_sha256() {
    let key = SimulationCache::generate_key("C", "f", &[]);
    assert_eq!(key.len(), 64);
    assert!(key.chars().all(|c| c.is_ascii_hexdigit()));
}

#[test]
fn test_cache_miss_on_empty() {
    let mut cache = SimulationCache::new();
    let result = cache.get("nonexistent_key");
    assert!(result.is_none());
    assert_eq!(cache.miss_count(), 1);
    assert_eq!(cache.hit_count(), 0);
}

#[test]
fn test_cache_hit_after_set() {
    let mut cache = SimulationCache::new();
    let key = "test_key".to_string();
    cache.set(key.clone(), make_result());
    let result = cache.get(&key);
    assert!(result.is_some());
    assert_eq!(result.unwrap().latest_ledger, 42);
    assert_eq!(cache.hit_count(), 1);
    assert_eq!(cache.miss_count(), 0);
}

#[test]
fn test_cache_aside_pattern() {
    let mut cache = SimulationCache::new();
    let key = SimulationCache::generate_key("CONTRACT_X", "do_thing", &[]);
    let first = cache.get(&key);
    assert!(first.is_none());
    cache.set(key.clone(), make_result());
    let second = cache.get(&key);
    assert!(second.is_some());
    assert_eq!(cache.miss_count(), 1);
    assert_eq!(cache.hit_count(), 1);
}

#[test]
fn test_different_keys_stored_independently() {
    let mut cache = SimulationCache::new();
    let k1 = SimulationCache::generate_key("CONTRACT_A", "fn_x", &[]);
    let k2 = SimulationCache::generate_key("CONTRACT_B", "fn_x", &[]);
    let mut r1 = make_result();
    let mut r2 = make_result();
    r1.latest_ledger = 1;
    r2.latest_ledger = 2;
    cache.set(k1.clone(), r1);
    cache.set(k2.clone(), r2);
    assert_eq!(cache.get(&k1).unwrap().latest_ledger, 1);
    assert_eq!(cache.get(&k2).unwrap().latest_ledger, 2);
}

// ── further cases ──────────────────────────────────────────────────────────

#[test]
fn key_is_lowercase_sha256_of_joined_request() {
    // sha256("Cf[]")
    let key = SimulationCache::generate_key("C", "f", &[]);
    assert!(key.chars().all(|c| c.is_ascii_digit() || ('a'..='f').contains(&c)));
    let again = SimulationCache::generate_key("C", "f[]", &[]);
    assert_ne!(key, again);
    assert_eq!(
        SimulationCache::generate_key("", "", &[]),
        "4f53cda18c2baa0c0354bb5f9a3ecbe5ed12ab4d8e11ba873c2f11161202b945"
    );
}

#[test]
fn hit_then_miss_on_other_function_and_stats() {
    let mut cache = SimulationCache::new();
    let k = SimulationCache::generate_key("CAAAAAAAAAAAAAAAAAAAAAAAAAAAAAAAAAAAAAAAAAAAAAAAAAAAD2KM", "hello", &[]);
    cache.set(k.clone(), make_result());
    assert_eq!(cache.get(&k).unwrap().cost_stroops, 10);
    assert_eq!(cache.hit_count(), 1);
    assert_eq!(cache.miss_count(), 0);
    let other = SimulationCache::generate_key("CAAAAAAAAAAAAAAAAAAAAAAAAAAAAAAAAAAAAAAAAAAAAAAAAAAAD2KM", "goodbye", &[]);
    assert!(cache.get(&other).is_none());
    assert_eq!(cache.miss_count(), 1);
    let s = cache.stats();
    assert_eq!(s.total, 2);
    assert_eq!(s.hit_rate_pct, 50);
    assert_eq!(SimulationCache::new().stats().hit_rate_pct, 0);
}
