use soroscope::network_config::{compare, custom_private, protocol_21, protocol_22, resolve_preset};
use soroscope::resources::SorobanResources;

fn sample_resources() -> SorobanResources {
    SorobanResources {
        cpu_instructions: 1_000_000,
        ram_bytes: 2_048,
        ledger_read_bytes: 512,
        ledger_write_bytes: 256,
        transaction_size_bytes: 1_024,
    }
}

#[test]
fn test_protocol_21_cost_matches_legacy() {
    let r = sample_resources();
    let cfg = protocol_21();
    let legacy = r.cpu_instructions / 10_000
        + r.ram_bytes / 1_024
        + (r.ledger_read_bytes + r.ledger_write_bytes) / 1_024
        + r.transaction_size_bytes / 1_024;
    assert_eq!(cfg.calculate_cost(&r), legacy);
}

#[test]
fn test_protocol_22_cheaper_cpu() {
    let r = sample_resources();
    let p21 = protocol_21();
    let p22 = protocol_22();
    let p21_cpu = r.cpu_instructions / p21.cpu_insns_per_fee_unit;
    let p22_cpu = r.cpu_instructions / p22.cpu_insns_per_fee_unit;
    assert!(p22_cpu < p21_cpu, "P22 should have cheaper CPU fees");
}

#[test]
fn test_protocol_22_more_expensive_ledger() {
    let r = sample_resources();
    let p21 = protocol_21();
    let p22 = protocol_22();
    let p21_ledger = (r.ledger_read_bytes + r.ledger_write_bytes) / p21.ledger_bytes_per_fee_unit;
    let p22_ledger = (r.ledger_read_bytes + r.ledger_write_bytes) / p22.ledger_bytes_per_fee_unit;
    assert!(p22_ledger >= p21_ledger, "P22 should have same or higher ledger fees");
}

#[test]
fn test_compare_produces_correct_diff() {
    let r = sample_resources();
    let impact = compare(&r, &protocol_21(), &protocol_22());
    let expected_diff = impact.shadow.cost_stroops as i128 - impact.baseline.cost_stroops as i128;
    assert_eq!(impact.cost_difference_stroops, expected_diff);
}

#[test]
fn test_compare_percentage() {
    let r = sample_resources();
    let impact = compare(&r, &protocol_21(), &protocol_22());
    let expected_pct = (impact.cost_difference_stroops as f64 / impact.baseline.cost_stroops as f64) * 100.0;
    let pct = impact.cost_change_pct_numerator as f64 / impact.cost_change_pct_denominator as f64;
    assert!((pct - expected_pct).abs() < 0.001);
}

#[test]
fn test_check_limits_within_budget() {
    let r = sample_resources();
    assert!(protocol_21().check_limits(&r).is_empty());
    assert!(protocol_22().check_limits(&r).is_empty());
    assert!(custom_private().check_limits(&r).is_empty());
}

#[test]
fn test_check_limits_exceeded() {
    let r = SorobanResources {
        cpu_instructions: 500_000_000,
        ram_bytes: 2_048,
        ledger_read_bytes: 512,
        ledger_write_bytes: 512,
        transaction_size_bytes: 1_024,
    };
    let exceeded = protocol_21().check_limits(&r);
    assert_eq!(exceeded.len(), 1);
    assert_eq!(exceeded[0].resource, "cpu_instructions");
    assert_eq!(exceeded[0].used, 500_000_000);
    assert_eq!(exceeded[0].limit, 100_000_000);
}

#[test]
fn test_resolve_preset_case_insensitive() {
    assert!(resolve_preset("protocol_21").is_some());
    assert!(resolve_preset("P21").is_some());
    assert!(resolve_preset("CURRENT").is_some());
    assert!(resolve_preset("protocol_22").is_some());
    assert!(resolve_preset("Next").is_some());
    assert!(resolve_preset("custom").is_some());
    assert!(resolve_preset("unknown").is_none());
}

#[test]
fn test_resolve_preset_returns_correct_version() {
    let p21 = resolve_preset("p21").unwrap();
    assert_eq!(p21.protocol_version, 21);
    let p22 = resolve_preset("p22").unwrap();
    assert_eq!(p22.protocol_version, 22);
}

#[test]
fn test_custom_private_generous_limits() {
    let cfg = custom_private();
    assert!(cfg.tx_max_instructions > protocol_21().tx_max_instructions);
    assert!(cfg.tx_max_memory_bytes > protocol_21().tx_max_memory_bytes);
}

#[test]
fn test_zero_resources_zero_cost() {
    let r = SorobanResources::default();
    assert_eq!(protocol_21().calculate_cost(&r), 0);
    assert_eq!(protocol_22().calculate_cost(&r), 0);
}

#[test]
fn test_compare_identical_configs() {
    let r = sample_resources();
    let impact = compare(&r, &protocol_21(), &protocol_21());
    assert_eq!(impact.cost_difference_stroops, 0);
    assert_eq!(impact.cost_change_pct_numerator, 0);
}

// ── further cases ──────────────────────────────────────────────────────────

#[test]
fn exact_costs_under_each_schedule() {
    let r = sample_resources();
    // 100 + 2 + 0 + 1
    assert_eq!(protocol_21().calculate_cost(&r), 103);
    // 80 + 2 + 1 + 1
    assert_eq!(protocol_22().calculate_cost(&r), 84);
    assert_eq!(custom_private().calculate_cost(&r), 103);
    let zero = SorobanResources::default();
    assert_eq!(custom_private().calculate_cost(&zero), 0);
}

#[test]
fn comparison_of_two_schedules() {
    let r = sample_resources();
    let impact = compare(&r, &protocol_21(), &protocol_22());
    assert_eq!(impact.baseline.cost_stroops, 103);
    assert_eq!(impact.shadow.cost_stroops, 84);
    assert_eq!(impact.cost_difference_stroops, -19);
    assert_eq!(impact.cost_change_pct_numerator, -1900);
    assert_eq!(impact.cost_change_pct_denominator, 103);
    assert_eq!(impact.baseline.protocol_version, 21);
    assert_eq!(impact.shadow.config_name, "Protocol 22 (Upcoming/Next)");
}

#[test]
fn comparison_with_free_baseline_has_zero_change() {
    let r = SorobanResources { cpu_instructions: 9_999, ..Default::default() };
    let impact = compare(&r, &protocol_21(), &protocol_22());
    assert_eq!(impact.baseline.cost_stroops, 0);
    assert_eq!(impact.cost_change_pct_numerator, 0);
    assert_eq!(impact.cost_change_pct_denominator, 1);
}

#[test]
fn every_limit_can_be_exceeded_in_order() {
    let r = SorobanResources {
        cpu_instructions: 100_000_001,
        ram_bytes: 40 * 1024 * 1024 + 1,
        ledger_read_bytes: 200 * 1024 + 1,
        ledger_write_bytes: 65_537,
        transaction_size_bytes: 71_681,
    };
    let exceeded = protocol_21().check_limits(&r);
    let names: Vec<&str> = exceeded.iter().map(|l| l.resource.as_str()).collect();
    assert_eq!(names, vec!["cpu_instructions", "ram_bytes", "ledger_read_bytes", "ledger_write_bytes", "transaction_size_bytes"]);
    assert_eq!(exceeded[4].limit, 71_680);
    // the same record at the limits exceeds nothing
    let at = SorobanResources {
        cpu_instructions: 100_000_000,
        ram_bytes: 40 * 1024 * 1024,
        ledger_read_bytes: 200 * 1024,
        ledger_write_bytes: 65_536,
        transaction_size_bytes: 71_680,
    };
    assert!(protocol_21().check_limits(&at).is_empty());
}

#[test]
fn preset_aliases_and_case() {
    assert_eq!(resolve_preset("Upcoming").unwrap().protocol_version, 22);
    assert_eq!(resolve_preset("PRIVATE").unwrap().name, "Custom Private Network");
    assert_eq!(resolve_preset("Current").unwrap().name, "Protocol 21 (Current Testnet)");
    assert!(resolve_preset("p23").is_none());
    assert!(resolve_preset("").is_none());
}

#[test]
fn cost_grows_with_resources() {
    let small = sample_resources();
    let big = SorobanResources { cpu_instructions: 2_000_000, ledger_write_bytes: 10_000, ..small };
    for cfg in [protocol_21(), protocol_22(), custom_private()] {
        assert!(cfg.calculate_cost(&small) <= cfg.calculate_cost(&big));
    }
}
