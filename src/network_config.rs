use vstd::prelude::*;
use vstd::arithmetic::div_mod::lemma_div_is_ordered;

use crate::resources::SorobanResources;

verus! {

/// Fee rates and per-transaction limits of one protocol version.
#[derive(Debug, Clone, PartialEq)]
pub struct NetworkConfig {
    pub name: String,
    pub protocol_version: u32,
    pub cpu_insns_per_fee_unit: u64,
    pub mem_bytes_per_fee_unit: u64,
    pub ledger_bytes_per_fee_unit: u64,
    pub tx_size_bytes_per_fee_unit: u64,
    pub tx_max_instructions: u64,
    pub tx_max_memory_bytes: u64,
    pub tx_max_read_bytes: u64,
    pub tx_max_write_bytes: u64,
    pub tx_max_size_bytes: u64,
}

/// Mathematical form of a cost schedule.
pub struct NetworkConfigView {
    pub name: Seq<char>,
    pub protocol_version: u32,
    pub cpu_insns_per_fee_unit: u64,
    pub mem_bytes_per_fee_unit: u64,
    pub ledger_bytes_per_fee_unit: u64,
    pub tx_size_bytes_per_fee_unit: u64,
    pub tx_max_instructions: u64,
    pub tx_max_memory_bytes: u64,
    pub tx_max_read_bytes: u64,
    pub tx_max_write_bytes: u64,
    pub tx_max_size_bytes: u64,
}

impl View for NetworkConfig {
    type V = NetworkConfigView;

    open spec fn view(&self) -> NetworkConfigView {
        NetworkConfigView {
            name: self.name@,
            protocol_version: self.protocol_version,
            cpu_insns_per_fee_unit: self.cpu_insns_per_fee_unit,
            mem_bytes_per_fee_unit: self.mem_bytes_per_fee_unit,
            ledger_bytes_per_fee_unit: self.ledger_bytes_per_fee_unit,
            tx_size_bytes_per_fee_unit: self.tx_size_bytes_per_fee_unit,
            tx_max_instructions: self.tx_max_instructions,
            tx_max_memory_bytes: self.tx_max_memory_bytes,
            tx_max_read_bytes: self.tx_max_read_bytes,
            tx_max_write_bytes: self.tx_max_write_bytes,
            tx_max_size_bytes: self.tx_max_size_bytes,
        }
    }
}

impl NetworkConfigView {
    /// Every fee rate is a positive divisor.
    pub open spec fn wf(self) -> bool {
        &&& self.cpu_insns_per_fee_unit > 0
        &&& self.mem_bytes_per_fee_unit > 0
        &&& self.ledger_bytes_per_fee_unit > 0
        &&& self.tx_size_bytes_per_fee_unit > 0
    }

    /// Fee units charged for CPU instructions.
    pub open spec fn cpu_fee(self, r: SorobanResources) -> int {
        r.cpu_instructions as int / self.cpu_insns_per_fee_unit as int
    }

    /// Fee units charged for memory.
    pub open spec fn mem_fee(self, r: SorobanResources) -> int {
        r.ram_bytes as int / self.mem_bytes_per_fee_unit as int
    }

    /// Fee units charged for ledger reads and writes together.
    pub open spec fn ledger_fee(self, r: SorobanResources) -> int {
        r.ledger_total() / self.ledger_bytes_per_fee_unit as int
    }

    /// Fee units charged for the transaction size.
    pub open spec fn size_fee(self, r: SorobanResources) -> int {
        r.transaction_size_bytes as int / self.tx_size_bytes_per_fee_unit as int
    }

    /// The fee of a metrics record under this schedule.
    pub open spec fn cost(self, r: SorobanResources) -> int {
        self.cpu_fee(r) + self.mem_fee(r) + self.ledger_fee(r) + self.size_fee(r)
    }

    /// One entry per exceeded limit, in the order cpu, memory, read, write, size.
    pub open spec fn exceeded(self, r: SorobanResources) -> Seq<LimitExceededView> {
        let cpu = if r.cpu_instructions > self.tx_max_instructions {
            seq![LimitExceededView { resource: "cpu_instructions"@, used: r.cpu_instructions, limit: self.tx_max_instructions }]
        } else {
            Seq::empty()
        };
        let mem = if r.ram_bytes > self.tx_max_memory_bytes {
            seq![LimitExceededView { resource: "ram_bytes"@, used: r.ram_bytes, limit: self.tx_max_memory_bytes }]
        } else {
            Seq::empty()
        };
        let read = if r.ledger_read_bytes > self.tx_max_read_bytes {
            seq![LimitExceededView { resource: "ledger_read_bytes"@, used: r.ledger_read_bytes, limit: self.tx_max_read_bytes }]
        } else {
            Seq::empty()
        };
        let write = if r.ledger_write_bytes > self.tx_max_write_bytes {
            seq![LimitExceededView { resource: "ledger_write_bytes"@, used: r.ledger_write_bytes, limit: self.tx_max_write_bytes }]
        } else {
            Seq::empty()
        };
        let size = if r.transaction_size_bytes > self.tx_max_size_bytes {
            seq![LimitExceededView { resource: "transaction_size_bytes"@, used: r.transaction_size_bytes, limit: self.tx_max_size_bytes }]
        } else {
            Seq::empty()
        };
        cpu + mem + read + write + size
    }
}

/// A limit of a schedule that a metrics record goes beyond.
#[derive(Debug, Clone, PartialEq)]
pub struct LimitExceeded {
    pub resource: String,
    pub used: u64,
    pub limit: u64,
}

pub struct LimitExceededView {
    pub resource: Seq<char>,
    pub used: u64,
    pub limit: u64,
}

impl View for LimitExceeded {
    type V = LimitExceededView;

    open spec fn view(&self) -> LimitExceededView {
        LimitExceededView { resource: self.resource@, used: self.used, limit: self.limit }
    }
}

/// The views of a list of exceeded limits.
pub open spec fn limits_view(v: Seq<LimitExceeded>) -> Seq<LimitExceededView> {
    v.map_values(|l: LimitExceeded| l@)
}

fn push_limit(out: &mut Vec<LimitExceeded>, resource: &str, used: u64, limit: u64)
    ensures
        limits_view(final(out)@) == limits_view(old(out)@).push(
            LimitExceededView { resource: resource@, used, limit },
        ),
{
    out.push(LimitExceeded { resource: resource.to_owned(), used, limit });
    assert(limits_view(out@) =~= limits_view(old(out)@).push(
        LimitExceededView { resource: resource@, used, limit },
    ));
}

impl NetworkConfig {
    /// Fee (in stroops) of a metrics record under this schedule.
    pub fn calculate_cost(&self, resources: &SorobanResources) -> (r: u64)
        requires
            self@.wf(),
            self@.cost(*resources) <= u64::MAX,
        ensures
            r == self@.cost(*resources),
    {
        let cpu_fee = resources.cpu_instructions / self.cpu_insns_per_fee_unit;
        let mem_fee = resources.ram_bytes / self.mem_bytes_per_fee_unit;
        let ledger_fee = (resources.ledger_total_bytes() / (self.ledger_bytes_per_fee_unit as u128)) as u64;
        let size_fee = resources.transaction_size_bytes / self.tx_size_bytes_per_fee_unit;
        cpu_fee + mem_fee + ledger_fee + size_fee
    }

    /// The limits of this schedule that a metrics record exceeds.
    pub fn check_limits(&self, resources: &SorobanResources) -> (out: Vec<LimitExceeded>)
        ensures
            limits_view(out@) == self@.exceeded(*resources),
    {
        let mut exceeded: Vec<LimitExceeded> = Vec::new();
        if resources.cpu_instructions > self.tx_max_instructions {
            push_limit(&mut exceeded, "cpu_instructions", resources.cpu_instructions, self.tx_max_instructions);
        }
        if resources.ram_bytes > self.tx_max_memory_bytes {
            push_limit(&mut exceeded, "ram_bytes", resources.ram_bytes, self.tx_max_memory_bytes);
        }
        if resources.ledger_read_bytes > self.tx_max_read_bytes {
            push_limit(&mut exceeded, "ledger_read_bytes", resources.ledger_read_bytes, self.tx_max_read_bytes);
        }
        if resources.ledger_write_bytes > self.tx_max_write_bytes {
            push_limit(&mut exceeded, "ledger_write_bytes", resources.ledger_write_bytes, self.tx_max_write_bytes);
        }
        if resources.transaction_size_bytes > self.tx_max_size_bytes {
            push_limit(&mut exceeded, "transaction_size_bytes", resources.transaction_size_bytes, self.tx_max_size_bytes);
        }
        assert(limits_view(exceeded@) =~= self@.exceeded(*resources));
        exceeded
    }
}

/// The schedule named `protocol_21`: the current network's fees and limits.
pub open spec fn protocol_21_view() -> NetworkConfigView {
    NetworkConfigView {
        name: "Protocol 21 (Current Testnet)"@,
        protocol_version: 21,
        cpu_insns_per_fee_unit: 10_000,
        mem_bytes_per_fee_unit: 1_024,
        ledger_bytes_per_fee_unit: 1_024,
        tx_size_bytes_per_fee_unit: 1_024,
        tx_max_instructions: 100_000_000,
        tx_max_memory_bytes: 41_943_040,
        tx_max_read_bytes: 204_800,
        tx_max_write_bytes: 65_536,
        tx_max_size_bytes: 71_680,
    }
}

/// The schedule named `protocol_22`: cheaper CPU, dearer ledger I/O, larger
/// budgets.
pub open spec fn protocol_22_view() -> NetworkConfigView {
    NetworkConfigView {
        name: "Protocol 22 (Upcoming/Next)"@,
        protocol_version: 22,
        cpu_insns_per_fee_unit: 12_500,
        mem_bytes_per_fee_unit: 1_024,
        ledger_bytes_per_fee_unit: 768,
        tx_size_bytes_per_fee_unit: 1_024,
        tx_max_instructions: 200_000_000,
        tx_max_memory_bytes: 67_108_864,
        tx_max_read_bytes: 204_800,
        tx_max_write_bytes: 131_072,
        tx_max_size_bytes: 71_680,
    }
}

/// The schedule named `custom_private`: the current fees with generous limits.
pub open spec fn custom_private_view() -> NetworkConfigView {
    NetworkConfigView {
        name: "Custom Private Network"@,
        protocol_version: 21,
        cpu_insns_per_fee_unit: 10_000,
        mem_bytes_per_fee_unit: 1_024,
        ledger_bytes_per_fee_unit: 1_024,
        tx_size_bytes_per_fee_unit: 1_024,
        tx_max_instructions: 500_000_000,
        tx_max_memory_bytes: 134_217_728,
        tx_max_read_bytes: 1_048_576,
        tx_max_write_bytes: 524_288,
        tx_max_size_bytes: 262_144,
    }
}

pub fn protocol_21() -> (c: NetworkConfig)
    ensures
        c@ == protocol_21_view(),
{
    NetworkConfig {
        name: "Protocol 21 (Current Testnet)".to_owned(),
        protocol_version: 21,
        cpu_insns_per_fee_unit: 10_000,
        mem_bytes_per_fee_unit: 1_024,
        ledger_bytes_per_fee_unit: 1_024,
        tx_size_bytes_per_fee_unit: 1_024,
        tx_max_instructions: 100_000_000,
        tx_max_memory_bytes: 40 * 1024 * 1024,
        tx_max_read_bytes: 200 * 1024,
        tx_max_write_bytes: 65_536,
        tx_max_size_bytes: 71_680,
    }
}

pub fn protocol_22() -> (c: NetworkConfig)
    ensures
        c@ == protocol_22_view(),
{
    NetworkConfig {
        name: "Protocol 22 (Upcoming/Next)".to_owned(),
        protocol_version: 22,
        cpu_insns_per_fee_unit: 12_500,
        mem_bytes_per_fee_unit: 1_024,
        ledger_bytes_per_fee_unit: 768,
        tx_size_bytes_per_fee_unit: 1_024,
        tx_max_instructions: 200_000_000,
        tx_max_memory_bytes: 64 * 1024 * 1024,
        tx_max_read_bytes: 200 * 1024,
        tx_max_write_bytes: 131_072,
        tx_max_size_bytes: 71_680,
    }
}

pub fn custom_private() -> (c: NetworkConfig)
    ensures
        c@ == custom_private_view(),
{
    NetworkConfig {
        name: "Custom Private Network".to_owned(),
        protocol_version: 21,
        cpu_insns_per_fee_unit: 10_000,
        mem_bytes_per_fee_unit: 1_024,
        ledger_bytes_per_fee_unit: 1_024,
        tx_size_bytes_per_fee_unit: 1_024,
        tx_max_instructions: 500_000_000,
        tx_max_memory_bytes: 128 * 1024 * 1024,
        tx_max_read_bytes: 1024 * 1024,
        tx_max_write_bytes: 512 * 1024,
        tx_max_size_bytes: 256 * 1024,
    }
}

/// The schedule that a lower-case preset name stands for, if any.
pub open spec fn preset_view(lower: Seq<char>) -> Option<NetworkConfigView> {
    if lower == "protocol_21"@ || lower == "p21"@ || lower == "current"@ {
        Some(protocol_21_view())
    } else if lower == "protocol_22"@ || lower == "p22"@ || lower == "next"@ || lower == "upcoming"@ {
        Some(protocol_22_view())
    } else if lower == "custom"@ || lower == "private"@ {
        Some(custom_private_view())
    } else {
        None
    }
}

pub open spec fn config_opt_view(c: Option<NetworkConfig>) -> Option<NetworkConfigView> {
    match c {
        Some(c) => Some(c@),
        None => None,
    }
}

/// What `str::to_lowercase` returns for a string.
pub uninterp spec fn lower_of(s: Seq<char>) -> Seq<char>;

/// Relies on `str::to_lowercase`: Unicode lower-casing, which depends on
/// the characters alone.
#[verifier::external_body]
fn lowercase(s: &str) -> (r: String)
    ensures
        r@ == lower_of(s@),
{
    s.to_lowercase()
}

fn same(s: &String, lit: &str) -> (r: bool)
    ensures
        r == (s@ == lit@),
{
    *s == lit.to_owned()
}

/// The schedule of an already lower-cased preset name.
pub fn preset_for_lowercase(lower: &String) -> (c: Option<NetworkConfig>)
    ensures
        config_opt_view(c) == preset_view(lower@),
{
    if same(lower, "protocol_21") || same(lower, "p21") || same(lower, "current") {
        Some(protocol_21())
    } else if same(lower, "protocol_22") || same(lower, "p22") || same(lower, "next") || same(lower, "upcoming") {
        Some(protocol_22())
    } else if same(lower, "custom") || same(lower, "private") {
        Some(custom_private())
    } else {
        None
    }
}

/// The schedule of a preset name, compared without regard to case:
/// `protocol_21`/`p21`/`current`, `protocol_22`/`p22`/`next`/`upcoming`,
/// `custom`/`private`.
pub fn resolve_preset(name: &str) -> (c: Option<NetworkConfig>)
    ensures
        config_opt_view(c) == preset_view(lower_of(name@)),
{
    let lower = lowercase(name);
    preset_for_lowercase(&lower)
}

/// Cost of a metrics record under one schedule.
pub struct ProtocolCostSnapshot {
    pub config_name: String,
    pub protocol_version: u32,
    pub cost_stroops: u64,
    pub limits_exceeded: Vec<LimitExceeded>,
}

/// A metrics record costed under two schedules. The percentage change is
/// `cost_change_pct_numerator / cost_change_pct_denominator`, which is zero
/// when the baseline cost is zero.
pub struct ProtocolImpact {
    pub baseline: ProtocolCostSnapshot,
    pub shadow: ProtocolCostSnapshot,
    pub cost_difference_stroops: i128,
    pub cost_change_pct_numerator: i128,
    pub cost_change_pct_denominator: u64,
}

fn snapshot(resources: &SorobanResources, config: &NetworkConfig) -> (s: ProtocolCostSnapshot)
    requires
        config@.wf(),
        config@.cost(*resources) <= u64::MAX,
    ensures
        s.config_name@ == config.name@,
        s.protocol_version == config.protocol_version,
        s.cost_stroops == config@.cost(*resources),
        limits_view(s.limits_exceeded@) == config@.exceeded(*resources),
{
    ProtocolCostSnapshot {
        config_name: config.name.clone(),
        protocol_version: config.protocol_version,
        cost_stroops: config.calculate_cost(resources),
        limits_exceeded: config.check_limits(resources),
    }
}

/// Costs a metrics record under a baseline and a shadow schedule.
pub fn compare(resources: &SorobanResources, baseline: &NetworkConfig, shadow: &NetworkConfig) -> (p: ProtocolImpact)
    requires
        baseline@.wf(),
        shadow@.wf(),
        baseline@.cost(*resources) <= u64::MAX,
        shadow@.cost(*resources) <= u64::MAX,
    ensures
        p.baseline.config_name@ == baseline.name@,
        p.baseline.protocol_version == baseline.protocol_version,
        p.baseline.cost_stroops == baseline@.cost(*resources),
        limits_view(p.baseline.limits_exceeded@) == baseline@.exceeded(*resources),
        p.shadow.config_name@ == shadow.name@,
        p.shadow.protocol_version == shadow.protocol_version,
        p.shadow.cost_stroops == shadow@.cost(*resources),
        limits_view(p.shadow.limits_exceeded@) == shadow@.exceeded(*resources),
        p.cost_difference_stroops == shadow@.cost(*resources) - baseline@.cost(*resources),
        baseline@.cost(*resources) > 0 ==> p.cost_change_pct_numerator == 100 * p.cost_difference_stroops
            && p.cost_change_pct_denominator == baseline@.cost(*resources),
        baseline@.cost(*resources) == 0 ==> p.cost_change_pct_numerator == 0 && p.cost_change_pct_denominator == 1,
        baseline@ == shadow@ ==> p.cost_difference_stroops == 0 && p.cost_change_pct_numerator == 0,
{
    let b = snapshot(resources, baseline);
    let s = snapshot(resources, shadow);
    let diff: i128 = s.cost_stroops as i128 - b.cost_stroops as i128;
    let (num, den): (i128, u64) = if b.cost_stroops > 0 { (diff * 100, b.cost_stroops) } else { (0, 1) };
    ProtocolImpact {
        baseline: b,
        shadow: s,
        cost_difference_stroops: diff,
        cost_change_pct_numerator: num,
        cost_change_pct_denominator: den,
    }
}

/// Every schedule charges nothing for an all-zero metrics record, and a
/// fee is never negative.
pub proof fn lemma_zero_resources_cost_nothing(c: NetworkConfigView, r: SorobanResources)
    requires
        c.wf(),
    ensures
        c.cost(r) >= 0,
        r.is_zero() ==> c.cost(r) == 0,
{
    vstd::arithmetic::div_mod::lemma_div_pos_is_pos(r.cpu_instructions as int, c.cpu_insns_per_fee_unit as int);
    vstd::arithmetic::div_mod::lemma_div_pos_is_pos(r.ram_bytes as int, c.mem_bytes_per_fee_unit as int);
    vstd::arithmetic::div_mod::lemma_div_pos_is_pos(r.ledger_total(), c.ledger_bytes_per_fee_unit as int);
    vstd::arithmetic::div_mod::lemma_div_pos_is_pos(r.transaction_size_bytes as int, c.tx_size_bytes_per_fee_unit as int);
}

/// Within one schedule the fee is monotone: a record that uses no more of
/// any resource never costs more.
pub proof fn lemma_cost_monotone(c: NetworkConfigView, r1: SorobanResources, r2: SorobanResources)
    requires
        c.wf(),
        r1.le(r2),
    ensures
        c.cost(r1) <= c.cost(r2),
{
    lemma_div_is_ordered(r1.cpu_instructions as int, r2.cpu_instructions as int, c.cpu_insns_per_fee_unit as int);
    lemma_div_is_ordered(r1.ram_bytes as int, r2.ram_bytes as int, c.mem_bytes_per_fee_unit as int);
    lemma_div_is_ordered(r1.ledger_total(), r2.ledger_total(), c.ledger_bytes_per_fee_unit as int);
    lemma_div_is_ordered(r1.transaction_size_bytes as int, r2.transaction_size_bytes as int, c.tx_size_bytes_per_fee_unit as int);
}

} // verus!
