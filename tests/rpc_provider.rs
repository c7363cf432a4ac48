use soroscope::rpc_provider::{choose_providers, ProviderRegistry, RpcProvider, CIRCUIT_BREAKER_COOLDOWN_MS, CIRCUIT_BREAKER_THRESHOLD};

fn make_provider(name: &str, url: &str) -> RpcProvider {
    RpcProvider { name: name.to_string(), url: url.to_string(), auth_header: None, auth_value: None }
}

fn make_provider_with_auth(name: &str, url: &str) -> RpcProvider {
    RpcProvider {
        name: name.to_string(),
        url: url.to_string(),
        auth_header: Some("X-API-Key".to_string()),
        auth_value: Some("secret-key-123".to_string()),
    }
}

#[test]
fn test_all_providers_healthy_initially() {
    let registry = ProviderRegistry::new(vec![make_provider("a", "http://a.test"), make_provider("b", "http://b.test")]);
    let healthy = registry.healthy_providers(0);
    assert_eq!(healthy.len(), 2);
    assert_eq!(healthy[0].url, "http://a.test");
    assert_eq!(healthy[1].url, "http://b.test");
}

#[test]
fn test_circuit_breaker_trips_after_threshold() {
    let mut registry =
        ProviderRegistry::new(vec![make_provider("a", "http://a.test"), make_provider("b", "http://b.test")]);
    for _ in 0..CIRCUIT_BREAKER_THRESHOLD {
        registry.report_failure("http://a.test", 0);
    }
    let healthy = registry.healthy_providers(0);
    assert_eq!(healthy.len(), 1);
    assert_eq!(healthy[0].url, "http://b.test");
}

#[test]
fn test_success_resets_failure_counter() {
    let mut registry = ProviderRegistry::new(vec![make_provider("a", "http://a.test")]);
    registry.report_failure("http://a.test", 0);
    registry.report_failure("http://a.test", 0);
    registry.report_success("http://a.test");
    let healthy = registry.healthy_providers(0);
    assert_eq!(healthy.len(), 1);
}

#[test]
fn test_success_clears_tripped_state() {
    let mut registry = ProviderRegistry::new(vec![make_provider("a", "http://a.test")]);
    for _ in 0..CIRCUIT_BREAKER_THRESHOLD {
        registry.report_failure("http://a.test", 0);
    }
    assert_eq!(registry.healthy_providers(0).len(), 0);
    registry.report_success("http://a.test");
    assert_eq!(registry.healthy_providers(0).len(), 1);
}

#[test]
fn test_is_retryable_status() {
    assert!(ProviderRegistry::is_retryable_status(429));
    assert!(ProviderRegistry::is_retryable_status(500));
    assert!(ProviderRegistry::is_retryable_status(502));
    assert!(ProviderRegistry::is_retryable_status(503));
    assert!(!ProviderRegistry::is_retryable_status(200));
    assert!(!ProviderRegistry::is_retryable_status(400));
    assert!(!ProviderRegistry::is_retryable_status(404));
}

#[test]
fn test_report_failure_unknown_url_is_noop() {
    let mut registry = ProviderRegistry::new(vec![make_provider("a", "http://a.test")]);
    registry.report_failure("http://unknown.test", 0);
    assert_eq!(registry.healthy_providers(0).len(), 1);
}

#[test]
fn test_provider_with_auth_headers() {
    let provider = make_provider_with_auth("authed", "http://authed.test");
    assert_eq!(provider.auth_header.as_deref(), Some("X-API-Key"));
    assert_eq!(provider.auth_value.as_deref(), Some("secret-key-123"));

    let registry = ProviderRegistry::new(vec![provider]);
    let healthy = registry.healthy_providers(0);
    assert_eq!(healthy.len(), 1);
    assert_eq!(healthy[0].auth_header.as_deref(), Some("X-API-Key"));
}

#[test]
fn test_priority_order_preserved() {
    let registry = ProviderRegistry::new(vec![
        make_provider("primary", "http://primary.test"),
        make_provider("secondary", "http://secondary.test"),
        make_provider("tertiary", "http://tertiary.test"),
    ]);
    let healthy = registry.healthy_providers(0);
    assert_eq!(healthy[0].name, "primary");
    assert_eq!(healthy[1].name, "secondary");
    assert_eq!(healthy[2].name, "tertiary");
}

// ── further cases ──────────────────────────────────────────────────────────

#[test]
fn tripped_provider_returns_after_cool_down() {
    let mut registry =
        ProviderRegistry::new(vec![make_provider("a", "http://a.test"), make_provider("b", "http://b.test")]);
    registry.report_failure("http://a.test", 1_000);
    registry.report_failure("http://a.test", 2_000);
    assert_eq!(registry.healthy_providers(2_000).len(), 2);
    registry.report_failure("http://a.test", 3_000);
    assert_eq!(registry.healthy_providers(3_000).len(), 1);
    assert_eq!(registry.healthy_providers(3_000 + CIRCUIT_BREAKER_COOLDOWN_MS - 1).len(), 1);
    let back = registry.healthy_providers(3_000 + CIRCUIT_BREAKER_COOLDOWN_MS);
    assert_eq!(back.len(), 2);
    assert_eq!(back[0].url, "http://a.test");
}

#[test]
fn health_checks_record_ledger_and_failures() {
    let mut registry = ProviderRegistry::new(vec![make_provider("a", "http://a.test")]);
    registry.record_health_check(0, Some(42), 10);
    assert_eq!(registry.latest_ledger(0), 42);
    for t in 0..3 {
        registry.record_health_check(0, None, 100 + t);
    }
    assert!(registry.healthy_providers(102).is_empty());
    assert_eq!(registry.latest_ledger(0), 42);
    registry.record_health_check(0, Some(43), 200);
    assert_eq!(registry.healthy_providers(200).len(), 1);
    assert_eq!(registry.latest_ledger(0), 43);
}

#[test]
fn duplicate_urls_touch_the_first_only() {
    let mut registry =
        ProviderRegistry::new(vec![make_provider("a", "http://same.test"), make_provider("b", "http://same.test")]);
    for _ in 0..3 {
        registry.report_failure("http://same.test", 5);
    }
    let healthy = registry.healthy_providers(5);
    assert_eq!(healthy.len(), 1);
    assert_eq!(healthy[0].name, "b");
    assert_eq!(registry.len(), 2);
    assert_eq!(registry.provider(0).name, "a");
}

#[test]
fn provider_pool_falls_back_to_the_default_url() {
    let pool = choose_providers(None, "http://fallback.test".to_string());
    assert_eq!(pool.len(), 1);
    assert_eq!(pool[0].name, "default");
    assert_eq!(pool[0].url, "http://fallback.test");
    assert_eq!(choose_providers(Some(vec![]), "http://fallback.test".to_string())[0].name, "default");
    let configured = choose_providers(Some(vec![make_provider("a", "http://a.test")]), "http://x".to_string());
    assert_eq!(configured[0].url, "http://a.test");
}
