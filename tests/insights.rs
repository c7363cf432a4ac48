use soroscope::insights::{
    FootprintBloatRule, Insight, InsightRule, InsightsEngine, InstructionDensityRule, MemoryPressureRule, Severity,
    StorageEfficiencyRule,
};
use soroscope::resources::SorobanResources;

fn minimal_resources() -> SorobanResources {
    SorobanResources {
        cpu_instructions: 100_000,
        ram_bytes: 1_024,
        ledger_read_bytes: 256,
        ledger_write_bytes: 128,
        transaction_size_bytes: 512,
    }
}

#[test]
fn test_perfect_score_for_minimal_resources() {
    let engine = InsightsEngine::new();
    let report = engine.analyze(&minimal_resources());
    assert_eq!(report.efficiency_score, 100);
    assert!(report.insights.is_empty());
}

#[test]
fn test_score_never_below_zero() {
    let engine = InsightsEngine::new();
    let r = SorobanResources {
        cpu_instructions: 500_000_000,
        ram_bytes: 50 * 1024 * 1024,
        ledger_read_bytes: 200 * 1024,
        ledger_write_bytes: 200 * 1024,
        transaction_size_bytes: 1_024,
    };
    let report = engine.analyze(&r);
    assert!(report.efficiency_score <= 100);
}

#[test]
fn test_score_capped_at_100() {
    let engine = InsightsEngine::new();
    let report = engine.analyze(&SorobanResources::default());
    assert!(report.efficiency_score <= 100);
}

#[test]
fn test_storage_efficiency_no_warning_when_balanced() {
    let rule = StorageEfficiencyRule;
    let r = SorobanResources { ledger_write_bytes: 400, transaction_size_bytes: 1_024, ..Default::default() };
    assert!(rule.evaluate(&r).is_empty());
}

#[test]
fn test_storage_efficiency_warning_when_writes_exceed_tx_size() {
    let rule = StorageEfficiencyRule;
    let r = SorobanResources { ledger_write_bytes: 2_000, transaction_size_bytes: 1_024, ..Default::default() };
    let insights = rule.evaluate(&r);
    assert_eq!(insights.len(), 1);
    assert_eq!(insights[0].severity, Severity::Warning);
    assert_eq!(insights[0].rule, "storage_efficiency");
}

#[test]
fn test_storage_efficiency_critical_when_writes_double_tx_size() {
    let rule = StorageEfficiencyRule;
    let r = SorobanResources { ledger_write_bytes: 5_000, transaction_size_bytes: 1_024, ..Default::default() };
    let insights = rule.evaluate(&r);
    assert_eq!(insights.len(), 1);
    assert_eq!(insights[0].severity, Severity::Critical);
}

#[test]
fn test_storage_efficiency_skips_zero_tx_size() {
    let rule = StorageEfficiencyRule;
    let r = SorobanResources { ledger_write_bytes: 5_000, transaction_size_bytes: 0, ..Default::default() };
    assert!(rule.evaluate(&r).is_empty());
}

#[test]
fn test_instruction_density_no_warning_when_balanced() {
    let rule = InstructionDensityRule;
    let r = SorobanResources {
        cpu_instructions: 5_000_000,
        ledger_read_bytes: 4_096,
        ledger_write_bytes: 2_048,
        ..Default::default()
    };
    assert!(rule.evaluate(&r).is_empty());
}

#[test]
fn test_instruction_density_warning_high_cpu_low_ledger() {
    let rule = InstructionDensityRule;
    let r = SorobanResources {
        cpu_instructions: 15_000_000,
        ledger_read_bytes: 512,
        ledger_write_bytes: 256,
        ..Default::default()
    };
    let insights = rule.evaluate(&r);
    assert_eq!(insights.len(), 1);
    assert_eq!(insights[0].severity, Severity::Warning);
    assert_eq!(insights[0].rule, "instruction_density");
}

#[test]
fn test_instruction_density_critical_very_high_cpu() {
    let rule = InstructionDensityRule;
    let r = SorobanResources {
        cpu_instructions: 80_000_000,
        ledger_read_bytes: 256,
        ledger_write_bytes: 128,
        ..Default::default()
    };
    let insights = rule.evaluate(&r);
    assert_eq!(insights.len(), 1);
    assert_eq!(insights[0].severity, Severity::Critical);
}

#[test]
fn test_footprint_bloat_no_warning_few_keys() {
    let rule = FootprintBloatRule;
    let r = SorobanResources { ledger_read_bytes: 256, ledger_write_bytes: 128, ..Default::default() };
    assert!(rule.evaluate(&r).is_empty());
}

#[test]
fn test_footprint_bloat_warning_above_10_keys() {
    let rule = FootprintBloatRule;
    let r = SorobanResources { ledger_read_bytes: 400, ledger_write_bytes: 300, ..Default::default() };
    let insights = rule.evaluate(&r);
    assert_eq!(insights.len(), 1);
    assert_eq!(insights[0].severity, Severity::Warning);
    assert_eq!(insights[0].rule, "footprint_bloat");
}

#[test]
fn test_footprint_bloat_critical_above_20_keys() {
    let rule = FootprintBloatRule;
    let r = SorobanResources { ledger_read_bytes: 1_000, ledger_write_bytes: 500, ..Default::default() };
    let insights = rule.evaluate(&r);
    assert_eq!(insights.len(), 1);
    assert_eq!(insights[0].severity, Severity::Critical);
}

#[test]
fn test_memory_pressure_no_warning_low_ram() {
    let rule = MemoryPressureRule;
    let r = SorobanResources { ram_bytes: 1_024 * 1_024, ..Default::default() };
    assert!(rule.evaluate(&r).is_empty());
}

#[test]
fn test_memory_pressure_warning_elevated_ram() {
    let rule = MemoryPressureRule;
    let r = SorobanResources { ram_bytes: 10 * 1024 * 1024, ..Default::default() };
    let insights = rule.evaluate(&r);
    assert_eq!(insights.len(), 1);
    assert_eq!(insights[0].severity, Severity::Warning);
    assert_eq!(insights[0].rule, "memory_pressure");
}

#[test]
fn test_memory_pressure_critical_very_high_ram() {
    let rule = MemoryPressureRule;
    let r = SorobanResources { ram_bytes: 30 * 1024 * 1024, ..Default::default() };
    let insights = rule.evaluate(&r);
    assert_eq!(insights.len(), 1);
    assert_eq!(insights[0].severity, Severity::Critical);
}

struct AlwaysWarnRule;

impl InsightRule for AlwaysWarnRule {
    fn name(&self) -> &str {
        "always_warn"
    }

    fn evaluate(&self, _resources: &SorobanResources) -> Vec<Insight> {
        vec![Insight {
            severity: Severity::Info,
            rule: self.name().to_string(),
            message: "Custom rule triggered".to_string(),
            suggested_fix: "No action needed".to_string(),
        }]
    }
}

#[test]
fn test_custom_rule_added_and_evaluated() {
    let mut engine = InsightsEngine::with_builtin_rules();
    engine.add_rule(AlwaysWarnRule);
    let report = engine.analyze(&minimal_resources());
    assert!(report.insights.iter().any(|i| i.rule == "always_warn"));
}

// ── further cases ──────────────────────────────────────────────────────────

#[test]
fn balanced_load_scores_full_marks() {
    let r = SorobanResources {
        cpu_instructions: 100_000,
        ram_bytes: 1_024,
        ledger_read_bytes: 256,
        ledger_write_bytes: 128,
        transaction_size_bytes: 512,
    };
    let report = InsightsEngine::new().analyze(&r);
    assert_eq!(report.efficiency_score, 100);
    assert!(report.insights.is_empty());
}

#[test]
fn write_heavy_load_gives_one_critical_storage_finding() {
    let r = SorobanResources { ledger_write_bytes: 5000, transaction_size_bytes: 1024, ..Default::default() };
    let findings = StorageEfficiencyRule.evaluate(&r);
    assert_eq!(findings.len(), 1);
    assert_eq!(findings[0].rule, "storage_efficiency");
    assert_eq!(findings[0].severity, Severity::Critical);
    assert_eq!(
        findings[0].message,
        "Ledger write bytes (5000) are 4.9x the transaction size (1024) \u{2014} extremely write-heavy"
    );
    // 5000 bytes of ledger I/O also come to about 83 keys, so the whole
    // engine adds a critical footprint finding.
    let report = InsightsEngine::new().analyze(&r);
    assert_eq!(report.insights.len(), 2);
    assert_eq!(report.insights[0].rule, "storage_efficiency");
    assert_eq!(report.insights[1].rule, "footprint_bloat");
    assert_eq!(report.efficiency_score, 60);
}

#[test]
fn worst_case_score_is_clamped_to_zero() {
    let r = SorobanResources {
        cpu_instructions: 500_000_000,
        ram_bytes: 50 * 1024 * 1024,
        ledger_read_bytes: 200 * 1024,
        ledger_write_bytes: 200 * 1024,
        transaction_size_bytes: 1,
    };
    let report = InsightsEngine::new().analyze(&r);
    // storage critical (20) + bloat critical (20) + memory critical (20) + 30 in penalties
    assert_eq!(report.insights.len(), 3);
    assert_eq!(report.efficiency_score, 10);
    let r2 = SorobanResources { transaction_size_bytes: 0, ..r };
    let many: Vec<Insight> = (0..20)
        .map(|_| Insight {
            severity: Severity::Critical,
            rule: "x".to_string(),
            message: String::new(),
            suggested_fix: String::new(),
        })
        .collect();
    assert_eq!(InsightsEngine::<soroscope::insights::BuiltinRule>::compute_efficiency_score(&r2, &many), 0);
}

#[test]
fn score_penalties_per_severity() {
    let one = |s: Severity| Insight { severity: s, rule: "x".to_string(), message: String::new(), suggested_fix: String::new() };
    let r = SorobanResources::default();
    let score = InsightsEngine::<soroscope::insights::BuiltinRule>::compute_efficiency_score(
        &r,
        &vec![one(Severity::Critical), one(Severity::Warning), one(Severity::Info)],
    );
    assert_eq!(score, 67);
    let heavy = SorobanResources {
        cpu_instructions: 20_000_000,
        ram_bytes: 6 * 1024 * 1024,
        ledger_read_bytes: 60 * 1024,
        ..Default::default()
    };
    assert_eq!(InsightsEngine::<soroscope::insights::BuiltinRule>::compute_efficiency_score(&heavy, &vec![]), 85);
}

#[test]
fn memory_message_shows_mebibytes() {
    let r = SorobanResources { ram_bytes: 10 * 1024 * 1024 + 512 * 1024, ..Default::default() };
    let insights = MemoryPressureRule.evaluate(&r);
    assert_eq!(insights[0].message, "RAM usage (11010048 bytes / 10.5 MiB) is elevated");
}

#[test]
fn findings_follow_rule_order() {
    let r = SorobanResources {
        cpu_instructions: 80_000_000,
        ram_bytes: 30 * 1024 * 1024,
        ledger_read_bytes: 0,
        ledger_write_bytes: 900,
        transaction_size_bytes: 100,
    };
    let report = InsightsEngine::new().analyze(&r);
    let rules: Vec<&str> = report.insights.iter().map(|i| i.rule.as_str()).collect();
    assert_eq!(rules, vec!["storage_efficiency", "instruction_density", "footprint_bloat", "memory_pressure"]);
}
