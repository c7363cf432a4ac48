use soroscope::rpc_provider::{ProviderRegistry, RpcProvider};
use soroscope::simulation::{rpc_error, AttemptOutcome, Failover, FailoverAction, RpcCost, RpcSimulationResult, SimulationError};

fn provider(name: &str) -> RpcProvider {
    RpcProvider { name: name.to_string(), url: format!("http://{}.test", name), auth_header: None, auth_value: None }
}

fn pool() -> ProviderRegistry {
    ProviderRegistry::new(vec![provider("a"), provider("b"), provider("c")])
}

#[test]
fn non_retryable_rpc_error_stops_at_first_provider() {
    let mut registry = pool();
    let mut failover = Failover::new(registry.healthy_providers(0));
    assert!(matches!(failover.start(), FailoverAction::Call(0)));
    let action = failover.record(
        AttemptOutcome::RpcError { code: -32602, message: "bad arg".to_string() },
        &mut registry,
        0,
    );
    match action {
        FailoverAction::Finish(Err(SimulationError::NodeError(m))) => assert_eq!(m, "Invalid parameters: bad arg"),
        _ => panic!("Expected to stop with the node's error"),
    }
}

#[test]
fn retryable_failures_move_on_and_success_stops() {
    let mut registry = pool();
    let mut failover = Failover::new(registry.healthy_providers(0));
    assert!(matches!(failover.record(AttemptOutcome::Timeout, &mut registry, 0), FailoverAction::Call(1)));
    assert_eq!(failover.provider(1).name, "b");
    assert!(matches!(failover.record(AttemptOutcome::HttpStatus(503), &mut registry, 0), FailoverAction::Call(2)));
    let reply = RpcSimulationResult {
        transaction_data: String::new(),
        latest_ledger: 77,
        cost: Some(RpcCost { cpu_insns: "1000000".to_string(), mem_bytes: "oops".to_string() }),
    };
    match failover.record(AttemptOutcome::Success(reply), &mut registry, 0) {
        FailoverAction::Finish(Ok(result)) => {
            assert_eq!(result.latest_ledger, 77);
            assert_eq!(result.resources.cpu_instructions, 1_000_000);
            assert_eq!(result.resources.ram_bytes, 0);
            assert_eq!(result.cost_stroops, 100);
        }
        _ => panic!("Expected success"),
    }
}

#[test]
fn last_retryable_error_is_returned_when_all_fail() {
    let mut registry = ProviderRegistry::new(vec![provider("a"), provider("b")]);
    let mut failover = Failover::new(registry.healthy_providers(0));
    assert!(matches!(failover.record(AttemptOutcome::HttpStatus(429), &mut registry, 0), FailoverAction::Call(1)));
    match failover.record(AttemptOutcome::RpcError { code: -32603, message: "boom".to_string() }, &mut registry, 0) {
        FailoverAction::Finish(Err(SimulationError::RpcRequestFailed(m))) => assert_eq!(m, "Internal error: boom"),
        _ => panic!("Expected the last error"),
    }
}

#[test]
fn empty_pool_fails_at_once() {
    let failover = Failover::new(vec![]);
    match failover.start() {
        FailoverAction::Finish(Err(SimulationError::RpcRequestFailed(m))) => {
            assert_eq!(m, "All RPC providers are unavailable (circuit breaker tripped)")
        }
        _ => panic!("Expected failure"),
    }
}

#[test]
fn http_client_errors_are_not_retried() {
    let mut registry = pool();
    let mut failover = Failover::new(registry.healthy_providers(0));
    match failover.record(AttemptOutcome::HttpStatus(404), &mut registry, 0) {
        FailoverAction::Finish(Err(SimulationError::RpcRequestFailed(m))) => assert_eq!(m, "HTTP error: 404"),
        _ => panic!("Expected failure"),
    }
}

#[test]
fn failures_count_towards_the_breaker() {
    let mut registry = pool();
    for t in 0..3u64 {
        let mut failover = Failover::new(registry.healthy_providers(t));
        failover.record(AttemptOutcome::Transport("refused".to_string()), &mut registry, t);
    }
    let healthy = registry.healthy_providers(3);
    assert_eq!(healthy.len(), 2);
    assert_eq!(healthy[0].name, "b");
}

#[test]
fn rpc_error_codes_map_to_errors() {
    assert_eq!(rpc_error(-32600, &"x".to_string()).message(), "Node returned an error: Invalid request format");
    assert_eq!(rpc_error(-32601, &"x".to_string()).message(), "RPC request failed: Method not found");
    assert_eq!(rpc_error(-1, &"odd".to_string()).message(), "RPC request failed: RPC error -1: odd");
    assert_eq!(rpc_error(7, &"odd".to_string()).message(), "RPC request failed: RPC error 7: odd");
}
