use vstd::prelude::*;
use vstd::string::StringExecFns;

use crate::resources::SorobanResources;
use crate::text::{decimal, decimal_string, one_decimal, one_decimal_string, tenths_rounded};

verus! {

/// How serious a finding is.
#[derive(Debug, Clone, Copy, PartialEq, Eq, Structural)]
pub enum Severity {
    Info,
    Warning,
    Critical,
}

/// One heuristic observation about a metrics record.
#[derive(Debug, Clone, PartialEq)]
pub struct Insight {
    pub severity: Severity,
    pub rule: String,
    pub message: String,
    pub suggested_fix: String,
}

pub struct InsightView {
    pub severity: Severity,
    pub rule: Seq<char>,
    pub message: Seq<char>,
    pub suggested_fix: Seq<char>,
}

impl View for Insight {
    type V = InsightView;

    open spec fn view(&self) -> InsightView {
        InsightView {
            severity: self.severity,
            rule: self.rule@,
            message: self.message@,
            suggested_fix: self.suggested_fix@,
        }
    }
}

/// The views of a list of findings.
pub open spec fn insights_view(v: Seq<Insight>) -> Seq<InsightView> {
    v.map_values(|i: Insight| i@)
}

/// The findings together with the efficiency score they lead to.
#[derive(Debug, Clone, PartialEq)]
pub struct InsightsReport {
    pub efficiency_score: u32,
    pub insights: Vec<Insight>,
}

/// A named heuristic over a metrics record; implement it to add rules.
pub trait InsightRule {
    /// The rule's identifier, e.g. `storage_efficiency`.
    fn name(&self) -> &str;

    /// The findings of the rule for a metrics record.
    fn evaluate(&self, resources: &SorobanResources) -> Vec<Insight>;
}

fn single(severity: Severity, rule: &str, message: String, fix: &str) -> (out: Vec<Insight>)
    ensures
        insights_view(out@) == seq![
            InsightView { severity, rule: rule@, message: message@, suggested_fix: fix@ },
        ],
{
    let mut out: Vec<Insight> = Vec::new();
    out.push(Insight { severity, rule: rule.to_owned(), message, suggested_fix: fix.to_owned() });
    assert(insights_view(out@) =~= seq![
        InsightView { severity, rule: rule@, message: message@, suggested_fix: fix@ },
    ]);
    out
}

fn none() -> (out: Vec<Insight>)
    ensures
        insights_view(out@) == Seq::<InsightView>::empty(),
{
    let out: Vec<Insight> = Vec::new();
    assert(insights_view(out@) =~= Seq::<InsightView>::empty());
    out
}

// ── storage efficiency ──────────────────────────────────────────────────────

pub open spec fn storage_critical_message(r: SorobanResources) -> Seq<char> {
    "Ledger write bytes ("@ + decimal(r.ledger_write_bytes as nat) + ") are "@
        + one_decimal(tenths_rounded(r.ledger_write_bytes as nat, r.transaction_size_bytes as nat))
        + "x the transaction size ("@ + decimal(r.transaction_size_bytes as nat)
        + ") \u{2014} extremely write-heavy"@
}

pub open spec fn storage_warning_message(r: SorobanResources) -> Seq<char> {
    "Ledger write bytes ("@ + decimal(r.ledger_write_bytes as nat) + ") exceed transaction size ("@
        + decimal(r.transaction_size_bytes as nat)
        + ") \u{2014} consider reviewing storage layout"@
}

/// Findings of the write-to-size ratio rule: critical above a ratio of 2,
/// warning above 1, nothing when the transaction size is zero.
pub open spec fn storage_efficiency_findings(r: SorobanResources) -> Seq<InsightView> {
    if r.transaction_size_bytes == 0 {
        Seq::empty()
    } else if r.ledger_write_bytes > 2 * r.transaction_size_bytes {
        seq![InsightView {
            severity: Severity::Critical,
            rule: "storage_efficiency"@,
            message: storage_critical_message(r),
            suggested_fix: "Use temporary storage (TTL entries) for ephemeral data and batch writes where possible."@,
        }]
    } else if r.ledger_write_bytes > r.transaction_size_bytes {
        seq![InsightView {
            severity: Severity::Warning,
            rule: "storage_efficiency"@,
            message: storage_warning_message(r),
            suggested_fix: "Consolidate writes into fewer ledger keys or use compact serialization."@,
        }]
    } else {
        Seq::empty()
    }
}

/// Ledger writes that are large compared with the transaction itself.
pub struct StorageEfficiencyRule;

impl StorageEfficiencyRule {
    /// The findings of this rule, as the trait's `evaluate` returns them.
    pub fn assess(&self, r: &SorobanResources) -> (out: Vec<Insight>)
        ensures
            insights_view(out@) == storage_efficiency_findings(*r),
    {
        if r.transaction_size_bytes == 0 {
            return none();
        }
        let w = r.ledger_write_bytes;
        let t = r.transaction_size_bytes;
        if w as u128 > 2 * (t as u128) {
            let m = "Ledger write bytes (".to_owned();
            let m = m.concat(decimal_string(w as u128).as_str());
            let m = m.concat(") are ");
            let m = m.concat(one_decimal_string(w, t).as_str());
            let m = m.concat("x the transaction size (");
            let m = m.concat(decimal_string(t as u128).as_str());
            let m = m.concat(") \u{2014} extremely write-heavy");
            single(
                Severity::Critical,
                "storage_efficiency",
                m,
                "Use temporary storage (TTL entries) for ephemeral data and batch writes where possible.",
            )
        } else if w > t {
            let m = "Ledger write bytes (".to_owned();
            let m = m.concat(decimal_string(w as u128).as_str());
            let m = m.concat(") exceed transaction size (");
            let m = m.concat(decimal_string(t as u128).as_str());
            let m = m.concat(") \u{2014} consider reviewing storage layout");
            single(
                Severity::Warning,
                "storage_efficiency",
                m,
                "Consolidate writes into fewer ledger keys or use compact serialization.",
            )
        } else {
            none()
        }
    }
}

impl InsightRule for StorageEfficiencyRule {
    fn name(&self) -> &str {
        "storage_efficiency"
    }

    fn evaluate(&self, r: &SorobanResources) -> (out: Vec<Insight>)
        ensures
            insights_view(out@) == storage_efficiency_findings(*r),
    {
        self.assess(r)
    }
}

// ── instruction density ─────────────────────────────────────────────────────

pub open spec fn density_critical_message(r: SorobanResources) -> Seq<char> {
    "Very high CPU ("@ + decimal(r.cpu_instructions as nat) + " instructions) with minimal ledger I/O ("@
        + decimal(r.ledger_total() as nat)
        + " bytes) \u{2014} heavy computation detected"@
}

pub open spec fn density_warning_message(r: SorobanResources) -> Seq<char> {
    "High CPU ("@ + decimal(r.cpu_instructions as nat) + " instructions) relative to ledger activity ("@
        + decimal(r.ledger_total() as nat)
        + " bytes) \u{2014} consider optimising hot loops"@
}

/// Findings of the CPU-versus-ledger-I/O rule.
pub open spec fn instruction_density_findings(r: SorobanResources) -> Seq<InsightView> {
    if r.cpu_instructions > 50_000_000 && r.ledger_total() < 1024 {
        seq![InsightView {
            severity: Severity::Critical,
            rule: "instruction_density"@,
            message: density_critical_message(r),
            suggested_fix: "Cache intermediate results in persistent storage or move complex calculations off-chain with on-chain verification."@,
        }]
    } else if r.cpu_instructions > 10_000_000 && r.ledger_total() < 2048 {
        seq![InsightView {
            severity: Severity::Warning,
            rule: "instruction_density"@,
            message: density_warning_message(r),
            suggested_fix: "Profile the contract to identify hot loops; consider lookup tables or pre-computed values."@,
        }]
    } else {
        Seq::empty()
    }
}

/// Heavy computation with little ledger activity.
pub struct InstructionDensityRule;

impl InstructionDensityRule {
    /// The findings of this rule, as the trait's `evaluate` returns them.
    pub fn assess(&self, r: &SorobanResources) -> (out: Vec<Insight>)
        ensures
            insights_view(out@) == instruction_density_findings(*r),
    {
        let total = r.ledger_total_bytes();
        if r.cpu_instructions > 50_000_000 && total < 1024 {
            let m = "Very high CPU (".to_owned();
            let m = m.concat(decimal_string(r.cpu_instructions as u128).as_str());
            let m = m.concat(" instructions) with minimal ledger I/O (");
            let m = m.concat(decimal_string(total).as_str());
            let m = m.concat(" bytes) \u{2014} heavy computation detected");
            single(
                Severity::Critical,
                "instruction_density",
                m,
                "Cache intermediate results in persistent storage or move complex calculations off-chain with on-chain verification.",
            )
        } else if r.cpu_instructions > 10_000_000 && total < 2048 {
            let m = "High CPU (".to_owned();
            let m = m.concat(decimal_string(r.cpu_instructions as u128).as_str());
            let m = m.concat(" instructions) relative to ledger activity (");
            let m = m.concat(decimal_string(total).as_str());
            let m = m.concat(" bytes) \u{2014} consider optimising hot loops");
            single(
                Severity::Warning,
                "instruction_density",
                m,
                "Profile the contract to identify hot loops; consider lookup tables or pre-computed values.",
            )
        } else {
            none()
        }
    }
}

impl InsightRule for InstructionDensityRule {
    fn name(&self) -> &str {
        "instruction_density"
    }

    fn evaluate(&self, r: &SorobanResources) -> (out: Vec<Insight>)
        ensures
            insights_view(out@) == instruction_density_findings(*r),
    {
        self.assess(r)
    }
}

// ── footprint bloat ─────────────────────────────────────────────────────────

/// Estimated number of ledger keys, at about sixty bytes a key.
pub open spec fn estimated_keys(r: SorobanResources) -> int {
    r.ledger_total() / 60
}

pub open spec fn bloat_critical_message(r: SorobanResources) -> Seq<char> {
    "Estimated footprint contains ~"@ + decimal(estimated_keys(r) as nat)
        + " ledger keys \u{2014} very large transaction"@
}

pub open spec fn bloat_warning_message(r: SorobanResources) -> Seq<char> {
    "Estimated footprint contains ~"@ + decimal(estimated_keys(r) as nat)
        + " ledger keys \u{2014} above recommended threshold"@
}

/// Findings of the footprint-size rule.
pub open spec fn footprint_bloat_findings(r: SorobanResources) -> Seq<InsightView> {
    if estimated_keys(r) > 20 {
        seq![InsightView {
            severity: Severity::Critical,
            rule: "footprint_bloat"@,
            message: bloat_critical_message(r),
            suggested_fix: "Split the operation into smaller batches or reduce the number of distinct storage keys accessed per invocation."@,
        }]
    } else if estimated_keys(r) > 10 {
        seq![InsightView {
            severity: Severity::Warning,
            rule: "footprint_bloat"@,
            message: bloat_warning_message(r),
            suggested_fix: "Consider consolidating related data into fewer keys (e.g., a single Map entry instead of many individual keys)."@,
        }]
    } else {
        Seq::empty()
    }
}

/// Transactions that touch many ledger keys.
pub struct FootprintBloatRule;

impl FootprintBloatRule {
    /// The findings of this rule, as the trait's `evaluate` returns them.
    pub fn assess(&self, r: &SorobanResources) -> (out: Vec<Insight>)
        ensures
            insights_view(out@) == footprint_bloat_findings(*r),
    {
        let keys = r.ledger_total_bytes() / 60;
        if keys > 20 {
            let m = "Estimated footprint contains ~".to_owned();
            let m = m.concat(decimal_string(keys).as_str());
            let m = m.concat(" ledger keys \u{2014} very large transaction");
            single(
                Severity::Critical,
                "footprint_bloat",
                m,
                "Split the operation into smaller batches or reduce the number of distinct storage keys accessed per invocation.",
            )
        } else if keys > 10 {
            let m = "Estimated footprint contains ~".to_owned();
            let m = m.concat(decimal_string(keys).as_str());
            let m = m.concat(" ledger keys \u{2014} above recommended threshold");
            single(
                Severity::Warning,
                "footprint_bloat",
                m,
                "Consider consolidating related data into fewer keys (e.g., a single Map entry instead of many individual keys).",
            )
        } else {
            none()
        }
    }
}

impl InsightRule for FootprintBloatRule {
    fn name(&self) -> &str {
        "footprint_bloat"
    }

    fn evaluate(&self, r: &SorobanResources) -> (out: Vec<Insight>)
        ensures
            insights_view(out@) == footprint_bloat_findings(*r),
    {
        self.assess(r)
    }
}

// ── memory pressure ─────────────────────────────────────────────────────────

pub const MIB: u64 = 1_048_576;

pub open spec fn memory_figures(r: SorobanResources) -> Seq<char> {
    "RAM usage ("@ + decimal(r.ram_bytes as nat) + " bytes / "@
        + one_decimal(tenths_rounded(r.ram_bytes as nat, MIB as nat)) + " MiB)"@
}

/// Findings of the memory rule: critical above 20 MiB, warning above 5 MiB.
pub open spec fn memory_pressure_findings(r: SorobanResources) -> Seq<InsightView> {
    if r.ram_bytes > 20 * MIB {
        seq![InsightView {
            severity: Severity::Critical,
            rule: "memory_pressure"@,
            message: memory_figures(r) + " is very high \u{2014} approaching protocol memory limits"@,
            suggested_fix: "Reduce in-memory data structures; process data in streaming fashion rather than loading everything at once."@,
        }]
    } else if r.ram_bytes > 5 * MIB {
        seq![InsightView {
            severity: Severity::Warning,
            rule: "memory_pressure"@,
            message: memory_figures(r) + " is elevated"@,
            suggested_fix: "Review large allocations; consider lazy initialization or smaller buffers."@,
        }]
    } else {
        Seq::empty()
    }
}

fn memory_figures_string(ram: u64) -> (s: String)
    ensures
        s@ == memory_figures(SorobanResources {
            cpu_instructions: 0,
            ram_bytes: ram,
            ledger_read_bytes: 0,
            ledger_write_bytes: 0,
            transaction_size_bytes: 0,
        }),
{
    let m = "RAM usage (".to_owned();
    let m = m.concat(decimal_string(ram as u128).as_str());
    let m = m.concat(" bytes / ");
    let m = m.concat(one_decimal_string(ram, MIB).as_str());
    m.concat(" MiB)")
}

/// Memory use close to the per-transaction limit.
pub struct MemoryPressureRule;

impl MemoryPressureRule {
    /// The findings of this rule, as the trait's `evaluate` returns them.
    pub fn assess(&self, r: &SorobanResources) -> (out: Vec<Insight>)
        ensures
            insights_view(out@) == memory_pressure_findings(*r),
    {
        if r.ram_bytes > 20 * MIB {
            let m = memory_figures_string(r.ram_bytes);
            let m = m.concat(" is very high \u{2014} approaching protocol memory limits");
            single(
                Severity::Critical,
                "memory_pressure",
                m,
                "Reduce in-memory data structures; process data in streaming fashion rather than loading everything at once.",
            )
        } else if r.ram_bytes > 5 * MIB {
            let m = memory_figures_string(r.ram_bytes);
            let m = m.concat(" is elevated");
            single(
                Severity::Warning,
                "memory_pressure",
                m,
                "Review large allocations; consider lazy initialization or smaller buffers.",
            )
        } else {
            none()
        }
    }
}

impl InsightRule for MemoryPressureRule {
    fn name(&self) -> &str {
        "memory_pressure"
    }

    fn evaluate(&self, r: &SorobanResources) -> (out: Vec<Insight>)
        ensures
            insights_view(out@) == memory_pressure_findings(*r),
    {
        self.assess(r)
    }
}

// ── engine ──────────────────────────────────────────────────────────────────

/// The four rules that every engine starts with.
#[derive(Debug, Clone, Copy, PartialEq, Eq, Structural)]
pub enum BuiltinRule {
    StorageEfficiency,
    InstructionDensity,
    FootprintBloat,
    MemoryPressure,
}

/// The findings of a built-in rule.
pub open spec fn builtin_findings(b: BuiltinRule, r: SorobanResources) -> Seq<InsightView> {
    match b {
        BuiltinRule::StorageEfficiency => storage_efficiency_findings(r),
        BuiltinRule::InstructionDensity => instruction_density_findings(r),
        BuiltinRule::FootprintBloat => footprint_bloat_findings(r),
        BuiltinRule::MemoryPressure => memory_pressure_findings(r),
    }
}

impl BuiltinRule {
    /// The findings of this rule, as the trait's `evaluate` returns them.
    pub fn assess(&self, r: &SorobanResources) -> (out: Vec<Insight>)
        ensures
            insights_view(out@) == builtin_findings(*self, *r),
    {
        match self {
            BuiltinRule::StorageEfficiency => StorageEfficiencyRule.assess(r),
            BuiltinRule::InstructionDensity => InstructionDensityRule.assess(r),
            BuiltinRule::FootprintBloat => FootprintBloatRule.assess(r),
            BuiltinRule::MemoryPressure => MemoryPressureRule.assess(r),
        }
    }
}

impl InsightRule for BuiltinRule {
    fn name(&self) -> &str {
        match self {
            BuiltinRule::StorageEfficiency => "storage_efficiency",
            BuiltinRule::InstructionDensity => "instruction_density",
            BuiltinRule::FootprintBloat => "footprint_bloat",
            BuiltinRule::MemoryPressure => "memory_pressure",
        }
    }

    fn evaluate(&self, r: &SorobanResources) -> (out: Vec<Insight>)
        ensures
            insights_view(out@) == builtin_findings(*self, *r),
    {
        self.assess(r)
    }
}

/// A rule held by an engine: one of the four built-in rules or one added
/// by the caller.
pub enum RuleSlot<C> {
    Builtin(BuiltinRule),
    Custom(C),
}

/// Every rule of the list is a built-in one.
pub open spec fn all_builtin<C>(rules: Seq<RuleSlot<C>>) -> bool {
    forall|i: int| 0 <= i < rules.len() ==> #[trigger] rules[i] is Builtin
}

/// The findings of a list of built-in rules, rule after rule in
/// registration order.
pub open spec fn all_findings<C>(rules: Seq<RuleSlot<C>>, r: SorobanResources) -> Seq<InsightView>
    decreases rules.len(),
{
    if rules.len() == 0 {
        Seq::empty()
    } else {
        all_findings(rules.drop_last(), r) + match rules.last() {
            RuleSlot::Builtin(b) => builtin_findings(b, r),
            RuleSlot::Custom(_) => Seq::empty(),
        }
    }
}

/// The outputs of successive rules, one after another.
pub open spec fn concat_outputs(outs: Seq<Seq<InsightView>>) -> Seq<InsightView>
    decreases outs.len(),
{
    if outs.len() == 0 {
        Seq::empty()
    } else {
        concat_outputs(outs.drop_last()) + outs.last()
    }
}

/// `outs` holds one output per rule, and each built-in rule's output is
/// its findings; what a caller's rule returns is its own business.
pub open spec fn outputs_of<C>(rules: Seq<RuleSlot<C>>, outs: Seq<Seq<InsightView>>, r: SorobanResources) -> bool {
    &&& outs.len() == rules.len()
    &&& forall|i: int| 0 <= i < rules.len() && #[trigger] rules[i] is Builtin
            ==> outs[i] == builtin_findings(rules[i]->Builtin_0, r)
}

/// The built-in rules in registration order.
pub open spec fn builtin_rules<C>() -> Seq<RuleSlot<C>> {
    seq![
        RuleSlot::Builtin(BuiltinRule::StorageEfficiency),
        RuleSlot::Builtin(BuiltinRule::InstructionDensity),
        RuleSlot::Builtin(BuiltinRule::FootprintBloat),
        RuleSlot::Builtin(BuiltinRule::MemoryPressure),
    ]
}

/// Points taken off the score for one finding.
pub open spec fn severity_penalty(s: Severity) -> int {
    match s {
        Severity::Critical => 20,
        Severity::Warning => 10,
        Severity::Info => 3,
    }
}

/// Points taken off for all findings.
pub open spec fn findings_penalty(f: Seq<InsightView>) -> int
    decreases f.len(),
{
    if f.len() == 0 {
        0
    } else {
        findings_penalty(f.drop_last()) + severity_penalty(f.last().severity)
    }
}

/// Points taken off for absolute CPU, memory and ledger I/O use.
pub open spec fn resource_penalty(r: SorobanResources) -> int {
    let cpu = if r.cpu_instructions > 50_000_000 { 10int } else if r.cpu_instructions > 10_000_000 { 5int } else { 0int };
    let ram = if r.ram_bytes > 20 * MIB { 10int } else if r.ram_bytes > 5 * MIB { 5int } else { 0int };
    let io = if r.ledger_total() > 100 * 1024 { 10int } else if r.ledger_total() > 50 * 1024 { 5int } else { 0int };
    cpu + ram + io
}

pub open spec fn clamp_score(x: int) -> int {
    if x < 0 { 0 } else if x > 100 { 100 } else { x }
}

/// The efficiency score: 100 less all penalties, kept within 0..=100.
pub open spec fn efficiency_score(r: SorobanResources, f: Seq<InsightView>) -> int {
    clamp_score(100 - findings_penalty(f) - resource_penalty(r))
}

proof fn lemma_penalty_bounds(f: Seq<InsightView>)
    ensures
        0 <= findings_penalty(f) <= 20 * f.len(),
    decreases f.len(),
{
    if f.len() > 0 {
        lemma_penalty_bounds(f.drop_last());
    }
}

/// Evaluates an ordered list of rules over metrics records.
pub struct InsightsEngine<C> {
    rules: Vec<RuleSlot<C>>,
}

impl<C> View for InsightsEngine<C> {
    type V = Seq<RuleSlot<C>>;

    closed spec fn view(&self) -> Seq<RuleSlot<C>> {
        self.rules@
    }
}

impl InsightsEngine<BuiltinRule> {
    /// An engine with the four built-in rules.
    pub fn new() -> (e: Self)
        ensures
            e@ == builtin_rules::<BuiltinRule>(),
    {
        Self::with_builtin_rules()
    }
}

impl Default for InsightsEngine<BuiltinRule> {
    fn default() -> (e: Self)
        ensures
            e@ == builtin_rules::<BuiltinRule>(),
    {
        Self::new()
    }
}

impl<C: InsightRule> InsightsEngine<C> {
    /// An engine with the four built-in rules, to which rules of type `C`
    /// can be added.
    pub fn with_builtin_rules() -> (e: Self)
        ensures
            e@ == builtin_rules::<C>(),
    {
        let mut rules: Vec<RuleSlot<C>> = Vec::new();
        rules.push(RuleSlot::Builtin(BuiltinRule::StorageEfficiency));
        rules.push(RuleSlot::Builtin(BuiltinRule::InstructionDensity));
        rules.push(RuleSlot::Builtin(BuiltinRule::FootprintBloat));
        rules.push(RuleSlot::Builtin(BuiltinRule::MemoryPressure));
        let e = InsightsEngine { rules };
        assert(e@ =~= builtin_rules::<C>());
        e
    }

    /// Appends a rule; it is evaluated after all earlier ones.
    pub fn add_rule(&mut self, rule: C)
        ensures
            final(self)@ == old(self)@.push(RuleSlot::Custom(rule)),
    {
        self.rules.push(RuleSlot::Custom(rule));
    }

    /// Runs every rule in order and scores the findings: they are the
    /// rules' outputs one after another, in registration order, each
    /// built-in rule contributing exactly its findings.
    pub fn analyze(&self, resources: &SorobanResources) -> (rep: InsightsReport)
        ensures
            exists|outs: Seq<Seq<InsightView>>| #[trigger] outputs_of(self@, outs, *resources)
                && insights_view(rep.insights@) == concat_outputs(outs),
            all_builtin(self@) ==> insights_view(rep.insights@) == all_findings(self@, *resources),
            rep.efficiency_score == efficiency_score(*resources, insights_view(rep.insights@)),
            rep.efficiency_score <= 100,
    {
        let mut insights: Vec<Insight> = Vec::new();
        let mut i: usize = 0;
        let ghost mut outs: Seq<Seq<InsightView>> = Seq::empty();
        while i < self.rules.len()
            invariant
                i <= self.rules@.len(),
                outputs_of(self.rules@.subrange(0, i as int), outs, *resources),
                insights_view(insights@) == concat_outputs(outs),
                all_builtin(self.rules@.subrange(0, i as int)) ==> insights_view(insights@) == all_findings(
                    self.rules@.subrange(0, i as int),
                    *resources,
                ),
            decreases self.rules@.len() - i,
        {
            let ghost before = insights@;
            let ghost prefix = self.rules@.subrange(0, i as int + 1);
            proof {
                assert(prefix.drop_last() =~= self.rules@.subrange(0, i as int));
                if all_builtin(prefix) {
                    assert forall|k: int| 0 <= k < i implies #[trigger] self.rules@.subrange(0, i as int)[k] is Builtin by {
                        assert(prefix[k] is Builtin);
                    }
                }
            }
            match &self.rules[i] {
                RuleSlot::Builtin(b) => {
                    let mut found = b.assess(resources);
                    let ghost f = found@;
                    insights.append(&mut found);
                    proof {
                        assert(insights_view(insights@) =~= insights_view(before) + insights_view(f));
                        let old_outs = outs;
                        outs = outs.push(insights_view(f));
                        assert(outs.drop_last() =~= old_outs);
                        assert forall|k: int| 0 <= k < prefix.len() && #[trigger] prefix[k] is Builtin
                            implies outs[k] == builtin_findings(prefix[k]->Builtin_0, *resources) by {
                            if k < i {
                                assert(prefix[k] == self.rules@.subrange(0, i as int)[k]);
                            }
                        }
                    }
                },
                RuleSlot::Custom(c) => {
                    let mut found = c.evaluate(resources);
                    let ghost f = found@;
                    insights.append(&mut found);
                    proof {
                        assert(insights_view(insights@) =~= insights_view(before) + insights_view(f));
                        let old_outs = outs;
                        outs = outs.push(insights_view(f));
                        assert(outs.drop_last() =~= old_outs);
                        assert forall|k: int| 0 <= k < prefix.len() && #[trigger] prefix[k] is Builtin
                            implies outs[k] == builtin_findings(prefix[k]->Builtin_0, *resources) by {
                            if k < i {
                                assert(prefix[k] == self.rules@.subrange(0, i as int)[k]);
                            }
                        }
                        assert(!all_builtin(prefix)) by {
                            assert(!(prefix[i as int] is Builtin));
                        }
                    }
                },
            }
            i = i + 1;
        }
        assert(self.rules@.subrange(0, self.rules@.len() as int) =~= self.rules@);
        assert(outputs_of(self@, outs, *resources));
        let efficiency_score = Self::compute_efficiency_score(resources, &insights);
        InsightsReport { efficiency_score, insights }
    }

    /// The score of a list of findings for a metrics record; always within
    /// 0..=100, whatever the findings.
    pub fn compute_efficiency_score(resources: &SorobanResources, insights: &Vec<Insight>) -> (score: u32)
        ensures
            score == efficiency_score(*resources, insights_view(insights@)),
            score <= 100,
    {
        let mut score: i128 = 100;
        let mut i: usize = 0;
        while i < insights.len()
            invariant
                i <= insights@.len(),
                score == 100 - findings_penalty(insights_view(insights@.subrange(0, i as int))),
                findings_penalty(insights_view(insights@.subrange(0, i as int))) <= 20 * i,
            decreases insights@.len() - i,
        {
            proof {
                let next = insights_view(insights@.subrange(0, i as int + 1));
                assert(next.drop_last() =~= insights_view(insights@.subrange(0, i as int)));
            }
            match insights[i].severity {
                Severity::Critical => score = score - 20,
                Severity::Warning => score = score - 10,
                Severity::Info => score = score - 3,
            }
            i = i + 1;
        }
        assert(insights@.subrange(0, insights@.len() as int) =~= insights@);
        if resources.cpu_instructions > 50_000_000 {
            score = score - 10;
        } else if resources.cpu_instructions > 10_000_000 {
            score = score - 5;
        }
        if resources.ram_bytes > 20 * MIB {
            score = score - 10;
        } else if resources.ram_bytes > 5 * MIB {
            score = score - 5;
        }
        let total = resources.ledger_total_bytes();
        if total > 100 * 1024 {
            score = score - 10;
        } else if total > 50 * 1024 {
            score = score - 5;
        }
        if score < 0 {
            0
        } else if score > 100 {
            100
        } else {
            score as u32
        }
    }
}

} // verus!
