use soroscope::api::{cache_status, default_health_check_interval, to_report};
use soroscope::errors::AppError;
use soroscope::profile::{profile_contract, ProfileError};
use soroscope::resources::SorobanResources;
use soroscope::simulation::{DataSource, SimulationResult, StateDependency};

#[test]
fn test_profile_contract_with_valid_wasm() {
    let wasm = b"\0asm\x01\0\0\0";
    let result = profile_contract(wasm);
    assert!(result.is_ok());
    let report = result.unwrap();
    assert_eq!(report.memory_usage, 8);
}

#[test]
fn test_profile_contract_with_empty_wasm() {
    let wasm = b"";
    let result = profile_contract(wasm);
    assert!(result.is_err());
    match result.unwrap_err() {
        ProfileError::InvalidWasm(msg) => {
            assert!(msg.contains("empty"));
        }
        _ => panic!("Expected InvalidWasm error"),
    }
}

#[test]
fn test_profile_contract_with_invalid_wasm() {
    let wasm = b"invalid";
    let result = profile_contract(wasm);
    assert!(result.is_err());
    match result.unwrap_err() {
        ProfileError::InvalidWasm(msg) => {
            assert!(msg.contains("magic number"));
        }
        _ => panic!("Expected InvalidWasm error"),
    }
}

// ── further cases ──────────────────────────────────────────────────────────

#[test]
fn short_bytecode_is_rejected_and_errors_read_well() {
    let e = profile_contract(b"\0as").unwrap_err();
    assert_eq!(e.message(), "Invalid WASM: Invalid WASM magic number");
    let ok = profile_contract(b"\0asm").unwrap();
    assert_eq!((ok.cpu_usage, ok.memory_usage, ok.ledger_footprint), (0, 4, 4));
}

#[test]
fn app_errors_map_to_statuses() {
    assert_eq!(AppError::Internal("x".to_string()).status_code(), 500);
    assert_eq!(AppError::NotFound("x".to_string()).status_code(), 404);
    assert_eq!(AppError::BadRequest("x".to_string()).status_code(), 400);
    assert_eq!(AppError::Unauthorized("x".to_string()).status_code(), 401);
    assert_eq!(AppError::Unauthorized("x".to_string()).error_type(), "UNAUTHORIZED");
    assert_eq!(AppError::Internal("secret".to_string()).message(), "Internal server error");
    assert_eq!(AppError::BadRequest("bad".to_string()).message(), "Bad request: bad");
}

#[test]
fn report_copies_metrics_and_sources() {
    let result = SimulationResult {
        resources: SorobanResources {
            cpu_instructions: 1,
            ram_bytes: 2,
            ledger_read_bytes: 3,
            ledger_write_bytes: 4,
            transaction_size_bytes: 5,
        },
        transaction_hash: None,
        latest_ledger: 9,
        cost_stroops: 0,
        state_dependency: Some(vec![
            StateDependency { key: "k1".to_string(), source: DataSource::Injected },
            StateDependency { key: "k2".to_string(), source: DataSource::Live },
        ]),
    };
    let report = to_report(&result);
    assert_eq!(report.ledger_write_bytes, 4);
    assert_eq!(report.transaction_size_bytes, 5);
    let deps = report.state_dependency.unwrap();
    assert_eq!(deps[0].source, "Injected");
    assert_eq!(deps[1].key, "k2");
    assert_eq!(deps[1].source, "Live");
    assert_eq!(cache_status(true), "HIT");
    assert_eq!(cache_status(false), "MISS");
    assert_eq!(default_health_check_interval(), 30);
}
