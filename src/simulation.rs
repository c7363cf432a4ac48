use vstd::prelude::*;
use vstd::string::StringExecFns;
use vstd::utf8::encode_utf8;
use vstd::arithmetic::div_mod::lemma_div_is_ordered;

use crate::codec::{
    base64_decoded, base64_of, check_ledger_entry, check_ledger_key, decode_base64, encode_base64, ledger_entry_error,
    ledger_key_error, trim, trimmed, XDR_DEPTH_LIMIT,
};
use crate::ledger::{
    calculate_ledger_keys_size, decode_footprint, footprint_at, keys_match_spans, keys_size, lemma_spans_total,
    ledger_key_wf, ledger_key_xdr, put_ledger_key, spans_total, LedgerKey,
};
use crate::network_config::protocol_21_view;
use crate::parser::{error_message, json_text_outcome, result_view, ArgParser, ParserError, ParserErrorView};
use crate::resources::SorobanResources;
use crate::rpc_provider::{
    after_failure, after_success, has_no_url, is_first_with_url, providers_view, ProviderRegistry, RpcProvider,
    RpcProviderView,
};
use crate::strkey::{decode_strkey, strkey_of};
use crate::text::{decimal, decimal_string};
use crate::value::{saturate, val_of, vals_of, ContractExecutable, ScAddress, ScMapEntry, ScVal, Val};
use crate::xdr::{
    all_encodable, encode_invoke_envelope, entries_encodable, envelope_xdr, invoke_contract_xdr, val_encodable,
};

verus! {

/// Why a simulation failed.
#[derive(Debug)]
pub enum SimulationError {
    Io(String),
    RpcRequestFailed(String),
    NodeTimeout,
    NodeError(String),
    SerializationError(String),
    NetworkError(String),
    Base64Error(String),
    XdrError(String),
    ParseError(ParserError),
}

pub enum SimulationErrorView {
    Io(Seq<char>),
    RpcRequestFailed(Seq<char>),
    NodeTimeout,
    NodeError(Seq<char>),
    SerializationError(Seq<char>),
    NetworkError(Seq<char>),
    Base64Error(Seq<char>),
    XdrError(Seq<char>),
    ParseError(ParserErrorView),
}

impl View for SimulationError {
    type V = SimulationErrorView;

    open spec fn view(&self) -> SimulationErrorView {
        match self {
            SimulationError::Io(m) => SimulationErrorView::Io(m@),
            SimulationError::RpcRequestFailed(m) => SimulationErrorView::RpcRequestFailed(m@),
            SimulationError::NodeTimeout => SimulationErrorView::NodeTimeout,
            SimulationError::NodeError(m) => SimulationErrorView::NodeError(m@),
            SimulationError::SerializationError(m) => SimulationErrorView::SerializationError(m@),
            SimulationError::NetworkError(m) => SimulationErrorView::NetworkError(m@),
            SimulationError::Base64Error(m) => SimulationErrorView::Base64Error(m@),
            SimulationError::XdrError(m) => SimulationErrorView::XdrError(m@),
            SimulationError::ParseError(e) => SimulationErrorView::ParseError(e@),
        }
    }
}

/// The text of an error as shown to a client.
pub open spec fn simulation_error_message(e: SimulationErrorView) -> Seq<char> {
    match e {
        SimulationErrorView::Io(m) => "IO error: "@ + m,
        SimulationErrorView::RpcRequestFailed(m) => "RPC request failed: "@ + m,
        SimulationErrorView::NodeTimeout => "RPC node timeout"@,
        SimulationErrorView::NodeError(m) => "Node returned an error: "@ + m,
        SimulationErrorView::SerializationError(m) => "Serialization error: "@ + m,
        SimulationErrorView::NetworkError(m) => "Network error: "@ + m,
        SimulationErrorView::Base64Error(m) => "Base64 decode error: "@ + m,
        SimulationErrorView::XdrError(m) => "XDR decode error: "@ + m,
        SimulationErrorView::ParseError(p) => "Parse error: "@ + error_message(p),
    }
}

impl SimulationError {
    /// The error as a sentence, e.g. `Node returned an error: ...`.
    pub fn message(&self) -> (m: String)
        ensures
            m@ == simulation_error_message(self@),
    {
        match self {
            SimulationError::Io(m) => "IO error: ".to_owned().concat(m.as_str()),
            SimulationError::RpcRequestFailed(m) => "RPC request failed: ".to_owned().concat(m.as_str()),
            SimulationError::NodeTimeout => "RPC node timeout".to_owned(),
            SimulationError::NodeError(m) => "Node returned an error: ".to_owned().concat(m.as_str()),
            SimulationError::SerializationError(m) => "Serialization error: ".to_owned().concat(m.as_str()),
            SimulationError::NetworkError(m) => "Network error: ".to_owned().concat(m.as_str()),
            SimulationError::Base64Error(m) => "Base64 decode error: ".to_owned().concat(m.as_str()),
            SimulationError::XdrError(m) => "XDR decode error: ".to_owned().concat(m.as_str()),
            SimulationError::ParseError(p) => "Parse error: ".to_owned().concat(p.message().as_str()),
        }
    }
}

/// Where the ledger data behind a footprint key came from.
#[derive(Debug, Clone, Copy, PartialEq, Eq, Structural)]
pub enum DataSource {
    Live,
    Injected,
}

/// One ledger key of a simulation and where its data came from.
#[derive(Debug, Clone, PartialEq)]
pub struct StateDependency {
    pub key: String,
    pub source: DataSource,
}

/// The outcome of one simulation.
#[derive(Debug, Clone, PartialEq)]
pub struct SimulationResult {
    pub resources: SorobanResources,
    pub transaction_hash: Option<String>,
    pub latest_ledger: u64,
    pub cost_stroops: u64,
    pub state_dependency: Option<Vec<StateDependency>>,
}

/// The `cost` member of a successful `simulateTransaction` reply.
pub struct RpcCost {
    pub cpu_insns: String,
    pub mem_bytes: String,
}

/// The `result` member of a successful `simulateTransaction` reply.
pub struct RpcSimulationResult {
    pub transaction_data: String,
    pub latest_ledger: u64,
    pub cost: Option<RpcCost>,
}

// ── costs ───────────────────────────────────────────────────────────────────

/// The baseline fee of a metrics record: the `protocol_21` schedule.
pub open spec fn baseline_cost(r: SorobanResources) -> int {
    protocol_21_view().cost(r)
}

proof fn lemma_baseline_cost_fits(r: SorobanResources)
    ensures
        0 <= baseline_cost(r) <= u64::MAX,
{
    let c = protocol_21_view();
    lemma_div_is_ordered(r.cpu_instructions as int, u64::MAX as int, 10_000);
    lemma_div_is_ordered(r.ram_bytes as int, u64::MAX as int, 1_024);
    lemma_div_is_ordered(r.ledger_total(), 2 * (u64::MAX as int), 1_024);
    lemma_div_is_ordered(r.transaction_size_bytes as int, u64::MAX as int, 1_024);
    crate::network_config::lemma_zero_resources_cost_nothing(c, r);
}

/// The fee of a metrics record under the baseline schedule; it always fits.
pub fn calculate_cost(resources: &SorobanResources) -> (r: u64)
    ensures
        r == baseline_cost(*resources),
{
    proof {
        lemma_baseline_cost_fits(*resources);
    }
    crate::network_config::protocol_21().calculate_cost(resources)
}

// ── decimal text ────────────────────────────────────────────────────────────

/// The value of a string of decimal digits.
pub open spec fn digits_value(d: Seq<u8>) -> nat
    decreases d.len(),
{
    if d.len() == 0 {
        0
    } else {
        digits_value(d.drop_last()) * 10 + (d.last() - 48) as nat
    }
}

pub open spec fn all_digits(d: Seq<u8>) -> bool {
    forall|i: int| 0 <= i < d.len() ==> 48 <= #[trigger] d[i] <= 57
}

/// The digits after an optional leading `+`.
pub open spec fn unsigned_digits(b: Seq<u8>) -> Seq<u8> {
    if b.len() > 0 && b[0] == 43 { b.drop_first() } else { b }
}

/// What `str::parse::<u64>` makes of a text: an optional `+`, then one or
/// more digits whose value fits.
pub open spec fn u64_text_value(b: Seq<u8>) -> Option<u64> {
    let d = unsigned_digits(b);
    if d.len() > 0 && all_digits(d) && digits_value(d) <= u64::MAX {
        Some(digits_value(d) as u64)
    } else {
        None
    }
}

/// A text that `str::parse` accepts as an `i64` or as a `u64`: an optional
/// sign, then one or more digits, at most 2^63 after a `-` and at most
/// `u64::MAX` otherwise.
pub open spec fn is_integer_text(b: Seq<u8>) -> bool {
    if b.len() > 0 && b[0] == 45 {
        let d = b.drop_first();
        d.len() > 0 && all_digits(d) && digits_value(d) <= 0x8000_0000_0000_0000
    } else {
        u64_text_value(b).is_some()
    }
}

proof fn lemma_digits_value_grows(d: Seq<u8>, k: int)
    requires
        0 <= k <= d.len(),
        all_digits(d),
    ensures
        digits_value(d.subrange(0, k)) <= digits_value(d),
    decreases d.len() - k,
{
    if k < d.len() {
        lemma_digits_value_grows(d, k + 1);
        assert(d.subrange(0, k + 1).drop_last() =~= d.subrange(0, k));
    } else {
        assert(d.subrange(0, k) =~= d);
    }
}

/// The value of the digits `b[from..]`, or `None` when one is not a digit,
/// there are none, or the value exceeds `limit`.
fn digits_at_most(b: &[u8], from: usize, limit: u64) -> (r: Option<u64>)
    requires
        from <= b@.len(),
    ensures
        ({
            let d = b@.subrange(from as int, b@.len() as int);
            match r {
                Some(v) => d.len() > 0 && all_digits(d) && v == digits_value(d) && v <= limit,
                None => !(d.len() > 0 && all_digits(d) && digits_value(d) <= limit),
            }
        }),
{
    let ghost d = b@.subrange(from as int, b@.len() as int);
    if from >= b.len() {
        return None;
    }
    let mut acc: u64 = 0;
    let mut i = from;
    while i < b.len()
        invariant
            from <= i <= b@.len(),
            d == b@.subrange(from as int, b@.len() as int),
            all_digits(b@.subrange(from as int, i as int)),
            acc == digits_value(b@.subrange(from as int, i as int)),
            acc <= limit,
        decreases b@.len() - i,
    {
        let c = b[i];
        proof {
            assert(b@.subrange(from as int, i as int + 1).drop_last() =~= b@.subrange(from as int, i as int));
        }
        if c < 48 || c > 57 {
            proof {
                assert(d[i - from] == c);
            }
            return None;
        }
        let digit: u64 = (c - 48) as u64;
        if digit > limit || acc > (limit - digit) / 10 {
            proof {
                assert(all_digits(b@.subrange(from as int, i as int + 1)));
                assert(digits_value(b@.subrange(from as int, i as int + 1)) == acc * 10 + digit);
                if digit <= limit {
                    vstd::arithmetic::div_mod::lemma_fundamental_div_mod((limit - digit) as int, 10);
                }
                assert(acc * 10 + digit > limit);
                if all_digits(d) {
                    assert(d.subrange(0, i - from + 1) =~= b@.subrange(from as int, i as int + 1));
                    lemma_digits_value_grows(d, i - from + 1);
                }
            }
            return None;
        }
        acc = acc * 10 + digit;
        i = i + 1;
        assert(all_digits(b@.subrange(from as int, i as int)));
    }
    assert(b@.subrange(from as int, i as int) =~= d);
    Some(acc)
}

/// Reads a text as `str::parse::<u64>` does.
pub fn parse_u64_text(s: &str) -> (r: Option<u64>)
    ensures
        r == u64_text_value(encode_utf8(s@)),
{
    let b = s.as_bytes();
    let from: usize = if b.len() > 0 && b[0] == 43 { 1 } else { 0 };
    proof {
        assert(b@.subrange(from as int, b@.len() as int) =~= unsigned_digits(b@));
    }
    digits_at_most(b, from, u64::MAX)
}

/// A text that `str::parse` accepts as an `i64` or a `u64`.
fn is_integer_arg(s: &str) -> (r: bool)
    ensures
        r == is_integer_text(encode_utf8(s@)),
{
    let b = s.as_bytes();
    if b.len() > 0 && b[0] == 45 {
        proof {
            assert(b@.subrange(1, b@.len() as int) =~= b@.drop_first());
        }
        digits_at_most(b, 1, 0x8000_0000_0000_0000).is_some()
    } else {
        parse_u64_text(s).is_some()
    }
}

// ── results ─────────────────────────────────────────────────────────────────

/// The estimated read and write bytes of a base-64 transaction-data
/// record: the budgets of its read-only and read-write keys, or both zero
/// when the text is empty, is not base 64, or is no such record.
pub open spec fn footprint_sizes(transaction_data: Seq<char>) -> (u64, u64) {
    if transaction_data.len() == 0 {
        (0, 0)
    } else {
        match base64_decoded(transaction_data) {
            Err(_) => (0, 0),
            Ok(b) => match footprint_at(b) {
                None => (0, 0),
                Some((ro, rw)) => (saturate(spans_total(ro)), saturate(spans_total(rw))),
            },
        }
    }
}

/// Estimated ledger read and write bytes of a base-64 transaction-data
/// record.
pub fn extract_footprint_from_xdr(transaction_data: &str) -> (r: (u64, u64))
    ensures
        r == footprint_sizes(transaction_data@),
{
    if transaction_data.is_empty() {
        return (0, 0);
    }
    let bytes = match decode_base64(transaction_data) {
        Ok(b) => b,
        Err(_) => return (0, 0),
    };
    match decode_footprint(&bytes) {
        Some((ro, rw)) => {
            let read = calculate_ledger_keys_size(&ro);
            let write = calculate_ledger_keys_size(&rw);
            proof {
                let (ro_s, rw_s) = footprint_at(bytes@)->Some_0;
                lemma_spans_total(bytes@, ro@, ro_s);
                lemma_spans_total(bytes@, rw@, rw_s);
            }
            (read, write)
        },
        None => (0, 0),
    }
}

/// A counter parsed from the reply, or zero when it is not a `u64`.
pub open spec fn counter_value(s: Seq<char>) -> u64 {
    match u64_text_value(encode_utf8(s)) {
        Some(v) => v,
        None => 0,
    }
}

/// `r` is what a successful reply turns into: counters from the cost
/// figures, ledger bytes estimated from the footprint, the size of the
/// transaction data as transmitted, and the baseline fee; all zero when the
/// reply has no cost figures.
pub open spec fn parsed_from(rpc: RpcSimulationResult, r: SimulationResult) -> bool {
    &&& r.latest_ledger == rpc.latest_ledger
    &&& r.transaction_hash.is_none()
    &&& r.state_dependency.is_none()
    &&& r.cost_stroops == baseline_cost(r.resources)
    &&& match rpc.cost {
        None => r.resources.is_zero(),
        Some(c) => {
            &&& r.resources.cpu_instructions == counter_value(c.cpu_insns@)
            &&& r.resources.ram_bytes == counter_value(c.mem_bytes@)
            &&& r.resources.transaction_size_bytes == encode_utf8(rpc.transaction_data@).len()
            &&& (r.resources.ledger_read_bytes, r.resources.ledger_write_bytes) == footprint_sizes(rpc.transaction_data@)
        },
    }
}

/// Turns a successful reply into a simulation result.
pub fn parse_simulation_result(rpc: &RpcSimulationResult) -> (r: SimulationResult)
    ensures
        parsed_from(*rpc, r),
{
    let resources = match &rpc.cost {
        Some(c) => {
            let cpu = match parse_u64_text(c.cpu_insns.as_str()) {
                Some(v) => v,
                None => 0,
            };
            let ram = match parse_u64_text(c.mem_bytes.as_str()) {
                Some(v) => v,
                None => 0,
            };
            let (read, write) = extract_footprint_from_xdr(rpc.transaction_data.as_str());
            SorobanResources {
                cpu_instructions: cpu,
                ram_bytes: ram,
                ledger_read_bytes: read,
                ledger_write_bytes: write,
                transaction_size_bytes: rpc.transaction_data.as_str().as_bytes().len() as u64,
            }
        },
        None => {
            let zero = SorobanResources {
                cpu_instructions: 0,
                ram_bytes: 0,
                ledger_read_bytes: 0,
                ledger_write_bytes: 0,
                transaction_size_bytes: 0,
            };
            assert(zero.is_zero());
            zero
        },
    };
    let cost_stroops = calculate_cost(&resources);
    SimulationResult {
        resources,
        transaction_hash: None,
        latest_ledger: rpc.latest_ledger,
        cost_stroops,
        state_dependency: None,
    }
}

/// A signed integer in decimal.
pub open spec fn signed_decimal(i: int) -> Seq<char> {
    if i < 0 { "-"@ + decimal((-i) as nat) } else { decimal(i as nat) }
}

/// The error for a JSON-RPC error reply.
pub open spec fn rpc_error_view(code: i32, message: Seq<char>) -> SimulationErrorView {
    if code == -32600 {
        SimulationErrorView::NodeError("Invalid request format"@)
    } else if code == -32601 {
        SimulationErrorView::RpcRequestFailed("Method not found"@)
    } else if code == -32602 {
        SimulationErrorView::NodeError("Invalid parameters: "@ + message)
    } else if code == -32603 {
        SimulationErrorView::RpcRequestFailed("Internal error: "@ + message)
    } else {
        SimulationErrorView::RpcRequestFailed("RPC error "@ + signed_decimal(code as int) + ": "@ + message)
    }
}

/// Maps a JSON-RPC error reply to an error: `-32600` a rejected request
/// format, `-32601` an unknown method, `-32602` rejected parameters,
/// `-32603` an internal node error, anything else a generic node error.
pub fn rpc_error(code: i32, message: &String) -> (e: SimulationError)
    ensures
        e@ == rpc_error_view(code, message@),
{
    if code == -32600 {
        SimulationError::NodeError("Invalid request format".to_owned())
    } else if code == -32601 {
        SimulationError::RpcRequestFailed("Method not found".to_owned())
    } else if code == -32602 {
        SimulationError::NodeError("Invalid parameters: ".to_owned().concat(message.as_str()))
    } else if code == -32603 {
        SimulationError::RpcRequestFailed("Internal error: ".to_owned().concat(message.as_str()))
    } else {
        let digits = if code < 0 {
            "-".to_owned().concat(decimal_string((-(code as i64)) as u128).as_str())
        } else {
            decimal_string(code as u128)
        };
        let m = "RPC error ".to_owned().concat(digits.as_str());
        let m = m.concat(": ");
        SimulationError::RpcRequestFailed(m.concat(message.as_str()))
    }
}

/// What one attempt against one provider came to.
pub enum AttemptOutcome {
    /// A `simulateTransaction` result.
    Success(RpcSimulationResult),
    /// The call ran past its deadline.
    Timeout,
    /// The connection failed (DNS, TLS, refused, reset).
    Transport(String),
    /// The endpoint answered with a non-2xx HTTP status.
    HttpStatus(u16),
    /// The reply body was not a JSON-RPC reply.
    BadResponse(String),
    /// A JSON-RPC error reply.
    RpcError { code: i32, message: String },
}

/// Whether an attempt's failure lets the next provider be tried: timeouts,
/// transport errors, HTTP 429 and 5xx, and the node-internal RPC error.
pub open spec fn outcome_retryable(o: AttemptOutcome) -> bool {
    match o {
        AttemptOutcome::Success(_) => false,
        AttemptOutcome::Timeout => true,
        AttemptOutcome::Transport(_) => true,
        AttemptOutcome::HttpStatus(s) => s == 429 || s >= 500,
        AttemptOutcome::BadResponse(_) => false,
        AttemptOutcome::RpcError { code, .. } => code == -32603,
    }
}

/// The error that a failed attempt reports.
pub open spec fn outcome_error(o: AttemptOutcome) -> SimulationErrorView {
    match o {
        AttemptOutcome::Timeout => SimulationErrorView::NodeTimeout,
        AttemptOutcome::Transport(m) => SimulationErrorView::NetworkError(m@),
        AttemptOutcome::HttpStatus(s) => SimulationErrorView::RpcRequestFailed("HTTP error: "@ + decimal(s as nat)),
        AttemptOutcome::BadResponse(m) => SimulationErrorView::RpcRequestFailed("Failed to parse response: "@ + m@),
        AttemptOutcome::RpcError { code, message } => rpc_error_view(code, message@),
        AttemptOutcome::Success(_) => SimulationErrorView::NodeTimeout,
    }
}

fn attempt_error(o: AttemptOutcome) -> (r: (SimulationError, bool))
    requires
        !(o is Success),
    ensures
        r.0@ == outcome_error(o),
        r.1 == outcome_retryable(o),
{
    match o {
        AttemptOutcome::Success(_) => (SimulationError::NodeTimeout, false),
        AttemptOutcome::Timeout => (SimulationError::NodeTimeout, true),
        AttemptOutcome::Transport(m) => (SimulationError::NetworkError(m), true),
        AttemptOutcome::HttpStatus(s) => (
            SimulationError::RpcRequestFailed("HTTP error: ".to_owned().concat(decimal_string(s as u128).as_str())),
            ProviderRegistry::is_retryable_status(s),
        ),
        AttemptOutcome::BadResponse(m) => (
            SimulationError::RpcRequestFailed("Failed to parse response: ".to_owned().concat(m.as_str())),
            false,
        ),
        AttemptOutcome::RpcError { code, message } => (rpc_error(code, &message), code == -32603),
    }
}

/// Failover over the providers that were healthy when a request started:
/// each is tried in priority order until one succeeds, one fails in a way
/// that retrying cannot mend, or none is left.
pub struct Failover {
    providers: Vec<RpcProvider>,
    next: usize,
}

/// What the caller does next.
pub enum FailoverAction {
    /// Send the request to the provider at this position.
    Call(usize),
    /// Stop with this outcome.
    Finish(Result<SimulationResult, SimulationError>),
}

impl Failover {
    pub closed spec fn providers(&self) -> Seq<RpcProviderView> {
        providers_view(self.providers@)
    }

    /// Position of the provider being tried.
    pub closed spec fn position(&self) -> nat {
        self.next as nat
    }

    /// Starts failover over `providers`, taken in their order.
    pub fn new(providers: Vec<RpcProvider>) -> (f: Failover)
        ensures
            f.providers() == providers_view(providers@),
            f.position() == 0,
    {
        Failover { providers, next: 0 }
    }

    /// The first step: call the first provider, or fail at once when there
    /// is none.
    pub fn start(&self) -> (a: FailoverAction)
        ensures
            self.providers().len() > 0 ==> a == FailoverAction::Call(0),
            self.providers().len() == 0 ==> match a {
                FailoverAction::Finish(Err(e)) => e@ == SimulationErrorView::RpcRequestFailed(
                    "All RPC providers are unavailable (circuit breaker tripped)"@,
                ),
                _ => false,
            },
    {
        if self.providers.len() > 0 {
            FailoverAction::Call(0)
        } else {
            FailoverAction::Finish(Err(SimulationError::RpcRequestFailed(
                "All RPC providers are unavailable (circuit breaker tripped)".to_owned(),
            )))
        }
    }

    /// Number of providers being tried.
    pub fn len(&self) -> (n: usize)
        ensures
            n == self.providers().len(),
    {
        self.providers.len()
    }

    /// Position of the provider being tried.
    pub fn current(&self) -> (i: usize)
        ensures
            i == self.position(),
    {
        self.next
    }

    /// The provider at position `i`.
    pub fn provider(&self, i: usize) -> (p: &RpcProvider)
        requires
            i < self.providers().len(),
        ensures
            p@ == self.providers()[i as int],
    {
        &self.providers[i]
    }

    /// Takes the outcome of the attempt on the current provider at time
    /// `now`: reports it to the registry, then finishes on success or on an
    /// error that cannot be retried, and otherwise moves to the next
    /// provider, finishing with the last error when none is left.
    pub fn record(&mut self, outcome: AttemptOutcome, registry: &mut ProviderRegistry, now: u64) -> (a: FailoverAction)
        requires
            old(self).position() < old(self).providers().len(),
        ensures
            final(self).providers() == old(self).providers(),
            ({
                let url = old(self).providers()[old(self).position() as int].url;
                &&& (outcome is Success ==> forall|j: int| is_first_with_url(old(registry)@, url, j)
                        ==> final(registry)@ == old(registry)@.update(j, after_success(old(registry)@[j])))
                &&& (!(outcome is Success) ==> forall|j: int| is_first_with_url(old(registry)@, url, j)
                        ==> final(registry)@ == old(registry)@.update(j, after_failure(old(registry)@[j], now)))
                &&& (has_no_url(old(registry)@, url) ==> final(registry)@ == old(registry)@)
            }),
            match outcome {
                AttemptOutcome::Success(rpc) => a is Finish && a->Finish_0 is Ok && parsed_from(rpc, a->Finish_0->Ok_0),
                _ => {
                    let more = old(self).position() + 1 < old(self).providers().len();
                    if outcome_retryable(outcome) && more {
                        a == FailoverAction::Call((old(self).position() + 1) as usize)
                            && final(self).position() == old(self).position() + 1
                    } else {
                        a is Finish && a->Finish_0 is Err && a->Finish_0->Err_0@ == outcome_error(outcome)
                    }
                },
            },
    {
        assert(self.providers@.len() == self.providers().len());
        let url = self.providers[self.next].url.as_str();
        match outcome {
            AttemptOutcome::Success(rpc) => {
                registry.report_success(url);
                FailoverAction::Finish(Ok(parse_simulation_result(&rpc)))
            },
            _ => {
                let (e, retry) = attempt_error(outcome);
                registry.report_failure(url, now);
                let n = self.providers.len();
                if retry && self.next + 1 < n {
                    self.next = self.next + 1;
                    FailoverAction::Call(self.next)
                } else {
                    FailoverAction::Finish(Err(e))
                }
            },
        }
    }
}

// ── requests ────────────────────────────────────────────────────────────────

pub open spec fn bytes_result_view(r: Result<Vec<u8>, SimulationError>) -> Result<Seq<u8>, SimulationErrorView> {
    match r {
        Ok(b) => Ok(b@),
        Err(e) => Err(e@),
    }
}

pub open spec fn val_result_view(r: Result<ScVal, SimulationError>) -> Result<Val, SimulationErrorView> {
    match r {
        Ok(v) => Ok(val_of(v)),
        Err(e) => Err(e@),
    }
}

/// The contract hash that a contract identifier stands for.
pub open spec fn contract_id_result(s: Seq<char>) -> Result<Seq<u8>, SimulationErrorView> {
    let b = encode_utf8(s);
    if !(b.len() > 0 && b[0] == 67) {
        Err(SimulationErrorView::NodeError("Contract ID must start with 'C'"@))
    } else {
        match strkey_of(s) {
            Err(m) => Err(SimulationErrorView::NodeError("Invalid contract ID format: "@ + m)),
            Ok(p) => if p.0 == 1 {
                Ok(p.1)
            } else {
                Err(SimulationErrorView::NodeError("Expected contract address"@))
            },
        }
    }
}

/// Decodes a `C…` contract identifier to its 32-byte hash.
pub fn parse_contract_id(contract_id: &str) -> (r: Result<Vec<u8>, SimulationError>)
    ensures
        bytes_result_view(r) == contract_id_result(contract_id@),
        r is Ok ==> r->Ok_0@.len() == 32,
{
    let b = contract_id.as_bytes();
    if !(b.len() > 0 && b[0] == 67) {
        return Err(SimulationError::NodeError("Contract ID must start with 'C'".to_owned()));
    }
    match decode_strkey(contract_id) {
        Err(m) => Err(SimulationError::NodeError("Invalid contract ID format: ".to_owned().concat(m.as_str()))),
        Ok((kind, hash)) => if kind == 1 {
            Ok(hash)
        } else {
            Err(SimulationError::NodeError("Expected contract address".to_owned()))
        },
    }
}

/// A text taken as a symbol, when nothing else reads it.
pub open spec fn symbol_fallback(t: Seq<char>) -> Result<Val, SimulationErrorView> {
    if encode_utf8(t).len() <= 32 {
        Ok(Val::Symbol(encode_utf8(t)))
    } else {
        Err(SimulationErrorView::NodeError("Cannot parse argument: "@ + t))
    }
}

/// The first byte opens a JSON object or array.
pub open spec fn opens_json(b: Seq<u8>) -> bool {
    b.len() > 0 && (b[0] == 123 || b[0] == 91)
}

/// The text starts like an address, a symbol or hex bytes.
pub open spec fn special_prefix(b: Seq<u8>) -> bool {
    b.len() > 0 && (b[0] == 71 || b[0] == 67 || b[0] == 58 || (b.len() >= 2 && b[0] == 48 && b[1] == 120))
}

fn same(s: &str, lit: &str) -> (r: bool)
    ensures
        r == (s@ == lit@),
{
    s.to_owned() == lit.to_owned()
}

fn bytes_of(s: &str) -> (r: Vec<u8>)
    ensures
        r@ == encode_utf8(s@),
{
    let b = s.as_bytes();
    let mut r: Vec<u8> = Vec::new();
    let mut i: usize = 0;
    while i < b.len()
        invariant
            i <= b@.len(),
            r@ == b@.subrange(0, i as int),
        decreases b@.len() - i,
    {
        r.push(b[i]);
        i = i + 1;
        assert(r@ =~= b@.subrange(0, i as int));
    }
    assert(b@.subrange(0, b@.len() as int) =~= b@);
    r
}

/// No quote, backslash or control character: wrapped in quotes, the
/// text is a JSON string whose value is the text itself.
pub open spec fn plain_json_text(b: Seq<u8>) -> bool {
    forall|i: int| 0 <= i < b.len() ==> #[trigger] b[i] != 34 && b[i] != 92 && b[i] >= 32
}

/// What serde_json makes of a JSON integer literal (an optional `-`, then
/// digits without a leading zero): an `i64` where it fits, else a `u64` for
/// non-negative values; `-0` and out-of-range values become floats, which
/// the parser rejects, so they give `None`.
pub open spec fn json_int_value(b: Seq<u8>) -> Option<Val> {
    let neg = b.len() > 0 && b[0] == 45;
    let d = if neg { b.drop_first() } else { b };
    if !(d.len() > 0 && all_digits(d) && (d.len() == 1 || d[0] != 48)) {
        None
    } else if !neg {
        if digits_value(d) <= i64::MAX {
            Some(Val::I64(digits_value(d) as i64))
        } else if digits_value(d) <= u64::MAX {
            Some(Val::U64(digits_value(d) as u64))
        } else {
            None
        }
    } else if 1 <= digits_value(d) <= 0x8000_0000_0000_0000 {
        Some(Val::I64((0 - digits_value(d)) as i64))
    } else {
        None
    }
}

/// What a trimmed argument reads as, for every text whose reading does not
/// depend on serde_json's handling of general JSON (objects, arrays, quoted
/// strings, escapes); `None` for those.
pub open spec fn arg_value(t: Seq<char>) -> Option<Result<Val, SimulationErrorView>> {
    let b = encode_utf8(t);
    if opens_json(b) {
        None
    } else if t == "true"@ {
        Some(Ok(Val::Bool(true)))
    } else if t == "false"@ {
        Some(Ok(Val::Bool(false)))
    } else if t == "void"@ || t == "()"@ {
        Some(Ok(Val::Void))
    } else if special_prefix(b) {
        if plain_json_text(b) {
            match crate::parser::string_arg(t, "$"@) {
                Ok(v) => Some(Ok(v)),
                Err(_) => Some(symbol_fallback(t)),
            }
        } else {
            None
        }
    } else if b.len() > 0 && b[0] == 34 {
        None
    } else if is_integer_text(b) {
        match json_int_value(b) {
            Some(v) => Some(Ok(v)),
            None => Some(symbol_fallback(t)),
        }
    } else {
        Some(symbol_fallback(t))
    }
}

/// An argument parser outcome where a failure is reported as a parse error.
pub open spec fn as_parse_error(p: Result<Val, ParserErrorView>) -> Result<Val, SimulationErrorView> {
    match p {
        Ok(v) => Ok(v),
        Err(e) => Err(SimulationErrorView::ParseError(e)),
    }
}

/// An argument parser outcome where a failure falls back to the symbol.
pub open spec fn or_symbol(p: Result<Val, ParserErrorView>, t: Seq<char>) -> Result<Val, SimulationErrorView> {
    match p {
        Ok(v) => Ok(v),
        Err(_) => symbol_fallback(t),
    }
}

/// `r` is the reading of argument text `arg`: `arg_value` where that is
/// defined; otherwise what the argument parser gives for the JSON text
/// (the argument itself, or the argument in quotes for an address,
/// `:symbol` or `0x` text with quotes or escapes in it), a failure being a
/// parse error for an object or array and the symbol fallback otherwise.
pub open spec fn arg_outcome(arg: Seq<char>, r: Result<Val, SimulationErrorView>) -> bool {
    let t = trimmed(arg);
    let b = encode_utf8(t);
    match arg_value(t) {
        Some(v) => r == v,
        None => if opens_json(b) {
            exists|p: Result<Val, ParserErrorView>| #[trigger] json_text_outcome(t, p) && r == as_parse_error(p)
        } else if special_prefix(b) {
            exists|p: Result<Val, ParserErrorView>| #[trigger] json_text_outcome("\""@ + t + "\""@, p) && r == or_symbol(p, t)
        } else {
            exists|p: Result<Val, ParserErrorView>| #[trigger] json_text_outcome(t, p) && r == or_symbol(p, t)
        },
    }
}

fn symbol_or_error(t: &str, b: &Vec<u8>, Ghost(p): Ghost<Result<Val, ParserErrorView>>) -> (r: Result<ScVal, SimulationError>)
    requires
        b@ == encode_utf8(t@),
        p is Err,
    ensures
        val_result_view(r) == symbol_fallback(t@),
        val_result_view(r) == or_symbol(p, t@),
{
    if b.len() <= 32 {
        Ok(ScVal::Symbol(copy_bytes(b)))
    } else {
        Err(SimulationError::NodeError("Cannot parse argument: ".to_owned().concat(t)))
    }
}

fn copy_bytes(b: &Vec<u8>) -> (r: Vec<u8>)
    ensures
        r@ == b@,
{
    let mut r: Vec<u8> = Vec::new();
    let mut i: usize = 0;
    while i < b.len()
        invariant
            i <= b@.len(),
            r@ == b@.subrange(0, i as int),
        decreases b@.len() - i,
    {
        r.push(b[i]);
        i = i + 1;
        assert(r@ =~= b@.subrange(0, i as int));
    }
    assert(b@.subrange(0, b@.len() as int) =~= b@);
    r
}

fn is_plain_json_text(b: &Vec<u8>) -> (r: bool)
    ensures
        r == plain_json_text(b@),
{
    let mut i: usize = 0;
    while i < b.len()
        invariant
            i <= b@.len(),
            forall|k: int| 0 <= k < i ==> #[trigger] b@[k] != 34 && b@[k] != 92 && b@[k] >= 32,
        decreases b@.len() - i,
    {
        if b[i] == 34 || b[i] == 92 || b[i] < 32 {
            return false;
        }
        i = i + 1;
    }
    true
}

/// The value of a JSON integer literal, as serde_json reads it.
fn json_integer(b: &Vec<u8>) -> (r: Option<ScVal>)
    ensures
        match r {
            Some(v) => json_int_value(b@) == Some(val_of(v)),
            None => json_int_value(b@).is_none(),
        },
{
    let neg = b.len() > 0 && b[0] == 45;
    let from: usize = if neg { 1 } else { 0 };
    proof {
        assert(b@.subrange(from as int, b@.len() as int) =~= if neg { b@.drop_first() } else { b@ });
    }
    if from >= b.len() || (b.len() - from > 1 && b[from] == 48) {
        return None;
    }
    if !neg {
        match digits_at_most(b.as_slice(), from, u64::MAX) {
            None => None,
            Some(v) => if v <= i64::MAX as u64 {
                Some(ScVal::I64(v as i64))
            } else {
                Some(ScVal::U64(v))
            },
        }
    } else {
        match digits_at_most(b.as_slice(), from, 0x8000_0000_0000_0000) {
            None => None,
            Some(v) => if v == 0 {
                None
            } else {
                Some(ScVal::I64((0i128 - v as i128) as i64))
            },
        }
    }
}

/// Reads one command-line argument, after trimming white space: a JSON
/// object or array through the argument parser; `true`, `false`, `void`
/// and `()`; an address, `:symbol` or `0x` bytes as a quoted JSON string;
/// a quoted string or an integer as JSON; and anything else (or what the
/// parser rejected in the last two cases) as a symbol of at most 32 bytes.
pub fn parse_sc_val_arg(arg: &str) -> (r: Result<ScVal, SimulationError>)
    ensures
        arg_outcome(arg@, val_result_view(r)),
{
    proof {
        reveal_strlit("true");
        reveal_strlit("false");
        reveal_strlit("void");
        reveal_strlit("()");
    }
    let t = trim(arg);
    let b = bytes_of(t);
    if b.len() > 0 && (b[0] == 123 || b[0] == 91) {
        let parsed = ArgParser::parse(t);
        let ghost p = result_view(parsed);
        let r = match parsed {
            Ok(v) => Ok(v),
            Err(e) => Err(SimulationError::ParseError(e)),
        };
        assert(json_text_outcome(t@, p) && val_result_view(r) == as_parse_error(p));
        return r;
    }
    if same(t, "true") {
        return Ok(ScVal::Bool(true));
    }
    if same(t, "false") {
        return Ok(ScVal::Bool(false));
    }
    if same(t, "void") || same(t, "()") {
        return Ok(ScVal::Void);
    }
    if b.len() > 0 && (b[0] == 71 || b[0] == 67 || b[0] == 58 || (b.len() >= 2 && b[0] == 48 && b[1] == 120)) {
        if is_plain_json_text(&b) {
            let tree = crate::json::JsonValue::String(t.to_owned());
            match ArgParser::parse_value(&tree, "$") {
                Ok(v) => return Ok(v),
                Err(_) => {},
            }
        } else {
            let quoted = "\"".to_owned().concat(t).concat("\"");
            let parsed = ArgParser::parse(quoted.as_str());
            let ghost p = result_view(parsed);
            match parsed {
                Ok(v) => {
                    assert(json_text_outcome(quoted@, p) && val_result_view(Ok::<ScVal, SimulationError>(v)) == or_symbol(p, t@));
                    return Ok(v);
                },
                Err(_) => {
                    assert(json_text_outcome(quoted@, p));
                    return symbol_or_error(t, &b, Ghost(p));
                },
            }
        }
    } else if b.len() > 0 && b[0] == 34 {
        let parsed = ArgParser::parse(t);
        let ghost p = result_view(parsed);
        match parsed {
            Ok(v) => {
                assert(json_text_outcome(t@, p) && val_result_view(Ok::<ScVal, SimulationError>(v)) == or_symbol(p, t@));
                return Ok(v);
            },
            Err(_) => {
                assert(json_text_outcome(t@, p));
                return symbol_or_error(t, &b, Ghost(p));
            },
        }
    } else if is_integer_arg(t) {
        match json_integer(&b) {
            Some(v) => return Ok(v),
            None => {},
        }
    }
    if b.len() <= 32 {
        Ok(ScVal::Symbol(b))
    } else {
        Err(SimulationError::NodeError("Cannot parse argument: ".to_owned().concat(t)))
    }
}

fn check_entries(es: &Vec<ScMapEntry>, Ghost(parent): Ghost<ScVal>) -> (r: bool)
    requires
        forall|i: int| 0 <= i < es@.len() ==> decreases_to!(parent => #[trigger] es@[i]),
    ensures
        r == (es@.len() < 0x1_0000_0000 && entries_encodable(es@)),
    decreases parent, 0nat,
{
    if es.len() as u64 >= 0x1_0000_0000 {
        return false;
    }
    let mut i: usize = 0;
    while i < es.len()
        invariant
            i <= es@.len(),
            forall|k: int| 0 <= k < es@.len() ==> decreases_to!(parent => #[trigger] es@[k]),
            entries_encodable(es@.subrange(0, i as int)),
        decreases es@.len() - i,
    {
        proof {
            assert(decreases_to!(parent => es@[i as int]));
            assert(decreases_to!(es@[i as int] => es@[i as int].key));
            assert(decreases_to!(es@[i as int] => es@[i as int].val));
            assert(es@.subrange(0, i as int + 1).drop_last() =~= es@.subrange(0, i as int));
        }
        if !check_encodable(&es[i].key) || !check_encodable(&es[i].val) {
            proof {
                lemma_entries_prefix(es@, i as int + 1);
            }
            return false;
        }
        i = i + 1;
    }
    assert(es@.subrange(0, es@.len() as int) =~= es@);
    true
}

proof fn lemma_entries_prefix(s: Seq<ScMapEntry>, k: int)
    requires
        0 <= k <= s.len(),
        !entries_encodable(s.subrange(0, k)),
    ensures
        !entries_encodable(s),
    decreases s.len() - k,
{
    if k < s.len() {
        assert(s.subrange(0, k + 1).drop_last() =~= s.subrange(0, k));
        lemma_entries_prefix(s, k + 1);
    } else {
        assert(s.subrange(0, k) =~= s);
    }
}

proof fn lemma_items_prefix(s: Seq<ScVal>, k: int)
    requires
        0 <= k <= s.len(),
        !all_encodable(s.subrange(0, k)),
    ensures
        !all_encodable(s),
    decreases s.len() - k,
{
    if k < s.len() {
        assert(s.subrange(0, k + 1).drop_last() =~= s.subrange(0, k));
        lemma_items_prefix(s, k + 1);
    } else {
        assert(s.subrange(0, k) =~= s);
    }
}

fn check_items(items: &Vec<ScVal>, Ghost(parent): Ghost<ScVal>) -> (r: bool)
    requires
        forall|i: int| 0 <= i < items@.len() ==> decreases_to!(parent => #[trigger] items@[i]),
    ensures
        r == all_encodable(items@),
    decreases parent, 0nat,
{
    let mut i: usize = 0;
    while i < items.len()
        invariant
            i <= items@.len(),
            forall|k: int| 0 <= k < items@.len() ==> decreases_to!(parent => #[trigger] items@[k]),
            all_encodable(items@.subrange(0, i as int)),
        decreases items@.len() - i,
    {
        proof {
            assert(decreases_to!(parent => items@[i as int]));
            assert(items@.subrange(0, i as int + 1).drop_last() =~= items@.subrange(0, i as int));
        }
        if !check_encodable(&items[i]) {
            proof {
                lemma_items_prefix(items@, i as int + 1);
            }
            return false;
        }
        i = i + 1;
    }
    assert(items@.subrange(0, items@.len() as int) =~= items@);
    true
}

/// Whether a value can be encoded: every length fits its 32-bit prefix and
/// every hash and key has 32 bytes.
pub fn check_encodable(v: &ScVal) -> (r: bool)
    ensures
        r == val_encodable(*v),
    decreases *v, 1nat,
{
    match v {
        ScVal::Bytes(b) => (b.len() as u64) < 0x1_0000_0000,
        ScVal::String(b) => (b.len() as u64) < 0x1_0000_0000,
        ScVal::Symbol(b) => (b.len() as u64) < 0x1_0000_0000,
        ScVal::Vec(Some(items)) => {
            proof {
                assert forall|i: int| 0 <= i < items@.len() implies decreases_to!(*v => #[trigger] items@[i]) by {
                    assert(decreases_to!(*v => (*v)->Vec_0));
                    assert(decreases_to!((*v)->Vec_0 => (*v)->Vec_0->0));
                    assert(decreases_to!(*items => items[i]));
                }
            }
            (items.len() as u64) < 0x1_0000_0000 && check_items(items, Ghost(*v))
        },
        ScVal::Mapping(Some(es)) => {
            proof {
                assert forall|i: int| 0 <= i < es@.len() implies decreases_to!(*v => #[trigger] es@[i]) by {
                    assert(decreases_to!(*v => (*v)->Mapping_0));
                    assert(decreases_to!((*v)->Mapping_0 => (*v)->Mapping_0->0));
                    assert(decreases_to!(*es => es[i]));
                }
            }
            check_entries(es, Ghost(*v))
        },
        ScVal::Address(a) => match a {
            ScAddress::Account(k) => k.len() == 32,
            ScAddress::Contract(h) => h.len() == 32,
        },
        ScVal::ContractInstance(ci) => {
            let exec_ok = match &ci.executable {
                ContractExecutable::Wasm(h) => h.len() == 32,
                ContractExecutable::StellarAsset => true,
            };
            exec_ok && match &ci.storage {
                None => true,
                Some(es) => {
                    proof {
                        assert forall|i: int| 0 <= i < es@.len() implies decreases_to!(*v => #[trigger] es@[i]) by {
                            assert(decreases_to!(*v => (*v)->ContractInstance_0));
                            assert(decreases_to!((*v)->ContractInstance_0 => (*v)->ContractInstance_0.storage));
                            assert(decreases_to!((*v)->ContractInstance_0.storage => (*v)->ContractInstance_0.storage->0));
                            assert(decreases_to!(*es => es[i]));
                        }
                    }
                    check_entries(es, Ghost(*v))
                },
            }
        },
        _ => true,
    }
}

/// The base-64 envelope that invokes `function` of contract `contract`
/// with already parsed arguments.
pub open spec fn invoke_envelope_result(contract: Seq<u8>, function: Seq<u8>, args: Seq<ScVal>) -> Result<Seq<char>, SimulationErrorView> {
    if function.len() > 32 {
        Err(SimulationErrorView::NodeError("Invalid function name"@))
    } else if args.len() as u64 >= 0x1_0000_0000 {
        Err(SimulationErrorView::NodeError("Too many arguments"@))
    } else if !all_encodable(args) {
        Err(SimulationErrorView::XdrError("Failed to encode XDR: value too large"@))
    } else {
        Ok(base64_of(envelope_xdr(invoke_contract_xdr(contract, function, vals_of(args)))))
    }
}

pub open spec fn string_result_view(r: Result<String, SimulationError>) -> Result<Seq<char>, SimulationErrorView> {
    match r {
        Ok(s) => Ok(s@),
        Err(e) => Err(e@),
    }
}

/// Builds and base-64 encodes the envelope that invokes a contract.
pub fn build_invoke_envelope(contract: &Vec<u8>, function: &Vec<u8>, args: &Vec<ScVal>) -> (r: Result<String, SimulationError>)
    requires
        contract@.len() == 32,
    ensures
        string_result_view(r) == invoke_envelope_result(contract@, function@, args@),
{
    if function.len() > 32 {
        return Err(SimulationError::NodeError("Invalid function name".to_owned()));
    }
    if args.len() as u64 >= 0x1_0000_0000 {
        return Err(SimulationError::NodeError("Too many arguments".to_owned()));
    }
    let mut i: usize = 0;
    while i < args.len()
        invariant
            i <= args@.len(),
            function@.len() <= 32,
            args@.len() < 0x1_0000_0000,
            all_encodable(args@.subrange(0, i as int)),
        decreases args@.len() - i,
    {
        proof {
            assert(args@.subrange(0, i as int + 1).drop_last() =~= args@.subrange(0, i as int));
        }
        if !check_encodable(&args[i]) {
            proof {
                assert(!val_encodable(args@[i as int]));
                assert(!all_encodable(args@.subrange(0, i as int + 1)));
                lemma_items_prefix(args@, i as int + 1);
                assert(!all_encodable(args@));
            }
            return Err(SimulationError::XdrError("Failed to encode XDR: value too large".to_owned()));
        }
        i = i + 1;
    }
    assert(args@.subrange(0, args@.len() as int) =~= args@);
    let bytes = encode_invoke_envelope(contract, function, args);
    Ok(encode_base64(&bytes))
}

/// `vals` are readings of the argument texts, one each, in order.
pub open spec fn args_read_as(args: Seq<Seq<char>>, vals: Seq<ScVal>) -> bool {
    &&& vals.len() == args.len()
    &&& forall|i: int| 0 <= i < args.len() ==> #[trigger] arg_outcome(args[i], Ok(val_of(vals[i])))
}

/// `e` is the error of reading one of the argument texts.
pub open spec fn args_fail_with(args: Seq<Seq<char>>, e: SimulationErrorView) -> bool {
    exists|i: int| 0 <= i < args.len() && #[trigger] arg_outcome(args[i], Err(e))
}

/// The outcome of building the envelope of a call: the contract identifier
/// is decoded first, then the function name checked, then the arguments
/// read in order; the envelope holds the readings.
pub open spec fn invoke_result(
    contract_id: Seq<char>,
    function_name: Seq<char>,
    args: Seq<Seq<char>>,
    r: Result<Seq<char>, SimulationErrorView>,
) -> bool {
    match contract_id_result(contract_id) {
        Err(e) => r == Err::<Seq<char>, SimulationErrorView>(e),
        Ok(hash) => if encode_utf8(function_name).len() > 32 {
            r == Err::<Seq<char>, SimulationErrorView>(SimulationErrorView::NodeError("Invalid function name"@))
        } else {
            ||| exists|vals: Seq<ScVal>| #[trigger] args_read_as(args, vals)
                    && r == invoke_envelope_result(hash, encode_utf8(function_name), vals)
            ||| r is Err && args_fail_with(args, r->Err_0)
        },
    }
}

pub open spec fn strings_view(v: Seq<String>) -> Seq<Seq<char>> {
    v.map_values(|s: String| s@)
}

/// Builds the base-64 envelope for a contract call from its textual
/// arguments.
pub fn create_invoke_transaction(contract_id: &str, function_name: &str, args: &Vec<String>) -> (r: Result<String, SimulationError>)
    ensures
        invoke_result(contract_id@, function_name@, strings_view(args@), string_result_view(r)),
{
    let contract = match parse_contract_id(contract_id) {
        Ok(c) => c,
        Err(e) => return Err(e),
    };
    let function = bytes_of(function_name);
    if function.len() > 32 {
        return Err(SimulationError::NodeError("Invalid function name".to_owned()));
    }
    let ghost texts = strings_view(args@);
    let mut parsed: Vec<ScVal> = Vec::new();
    let mut i: usize = 0;
    while i < args.len()
        invariant
            i <= args@.len(),
            texts == strings_view(args@),
            parsed@.len() == i,
            forall|k: int| 0 <= k < i ==> #[trigger] arg_outcome(texts[k], Ok(val_of(parsed@[k]))),
            contract_id_result(contract_id@) is Ok,
            contract@ == contract_id_result(contract_id@)->Ok_0,
            contract@.len() == 32,
            function@ == encode_utf8(function_name@),
            function@.len() <= 32,
        decreases args@.len() - i,
    {
        match parse_sc_val_arg(args[i].as_str()) {
            Ok(v) => {
                parsed.push(v);
            },
            Err(e) => {
                assert(arg_outcome(texts[i as int], Err(e@)));
                return Err(e);
            },
        }
        i = i + 1;
    }
    let r = build_invoke_envelope(&contract, &function, &parsed);
    assert(args_read_as(texts, parsed@));
    r
}

/// The keys of ledger overrides given in base 64, each checked to decode
/// as a ledger key and its entry as a ledger entry; the first failing pair
/// gives the error.
pub open spec fn overrides_result(s: Seq<(Seq<char>, Seq<char>)>) -> Result<Seq<Seq<char>>, SimulationErrorView>
    decreases s.len(),
{
    if s.len() == 0 {
        Ok(Seq::empty())
    } else {
        match overrides_result(s.drop_last()) {
            Err(e) => Err(e),
            Ok(keys) => {
                let (k, v) = s.last();
                match base64_decoded(k) {
                    Err(m) => Err(SimulationErrorView::Base64Error(m)),
                    Ok(kb) => match ledger_key_error(kb, XDR_DEPTH_LIMIT) {
                        Some(m) => Err(SimulationErrorView::XdrError("Invalid ledger key: "@ + m)),
                        None => match base64_decoded(v) {
                            Err(m) => Err(SimulationErrorView::Base64Error(m)),
                            Ok(vb) => match ledger_entry_error(vb, XDR_DEPTH_LIMIT) {
                                Some(m) => Err(SimulationErrorView::XdrError("Invalid ledger entry: "@ + m)),
                                None => Ok(keys.push(k)),
                            },
                        },
                    },
                }
            },
        }
    }
}

pub open spec fn pairs_view(s: Seq<(String, String)>) -> Seq<(Seq<char>, Seq<char>)> {
    s.map_values(|p: (String, String)| (p.0@, p.1@))
}

/// The keys of a dependency list, each with its source.
pub open spec fn dependencies_view(s: Seq<StateDependency>) -> Seq<(Seq<char>, DataSource)> {
    s.map_values(|d: StateDependency| (d.key@, d.source))
}

proof fn lemma_overrides_error_persists(s: Seq<(Seq<char>, Seq<char>)>, k: int, n: int)
    requires
        0 <= k <= n <= s.len(),
        overrides_result(s.subrange(0, k)) is Err,
    ensures
        overrides_result(s.subrange(0, n)) == overrides_result(s.subrange(0, k)),
    decreases n - k,
{
    if n > k {
        lemma_overrides_error_persists(s, k, n - 1);
        assert(s.subrange(0, n).drop_last() =~= s.subrange(0, n - 1));
    }
}

/// Checks ledger overrides and lists their keys as injected data.
pub fn decode_overrides(overrides: &Vec<(String, String)>) -> (r: Result<Vec<StateDependency>, SimulationError>)
    ensures
        match overrides_result(pairs_view(overrides@)) {
            Ok(keys) => r is Ok && dependencies_view(r->Ok_0@) == keys.map_values(|k: Seq<char>| (k, DataSource::Injected)),
            Err(e) => r is Err && r->Err_0@ == e,
        },
{
    let ghost all = pairs_view(overrides@);
    let mut deps: Vec<StateDependency> = Vec::new();
    let mut i: usize = 0;
    while i < overrides.len()
        invariant
            i <= overrides@.len(),
            all == pairs_view(overrides@),
            overrides_result(all.subrange(0, i as int)) is Ok,
            dependencies_view(deps@) == overrides_result(all.subrange(0, i as int))->Ok_0.map_values(
                |k: Seq<char>| (k, DataSource::Injected),
            ),
        decreases overrides@.len() - i,
    {
        let ghost prefix = all.subrange(0, i as int + 1);
        proof {
            assert(prefix.drop_last() =~= all.subrange(0, i as int));
            assert(prefix.last() == (overrides@[i as int].0@, overrides@[i as int].1@));
        }
        let key = &overrides[i].0;
        let value = &overrides[i].1;
        let failure: Option<SimulationError> = match decode_base64(key.as_str()) {
            Err(m) => Some(SimulationError::Base64Error(m)),
            Ok(kb) => match check_ledger_key(&kb, XDR_DEPTH_LIMIT) {
                Some(m) => Some(SimulationError::XdrError("Invalid ledger key: ".to_owned().concat(m.as_str()))),
                None => match decode_base64(value.as_str()) {
                    Err(m) => Some(SimulationError::Base64Error(m)),
                    Ok(vb) => match check_ledger_entry(&vb, XDR_DEPTH_LIMIT) {
                        Some(m) => Some(SimulationError::XdrError("Invalid ledger entry: ".to_owned().concat(m.as_str()))),
                        None => None,
                    },
                },
            },
        };
        match failure {
            Some(e) => {
                proof {
                    lemma_overrides_error_persists(all, i as int + 1, all.len() as int);
                    assert(all.subrange(0, all.len() as int) =~= all);
                }
                return Err(e);
            },
            None => {
                let ghost before = deps@;
                deps.push(StateDependency { key: key.clone(), source: DataSource::Injected });
                proof {
                    let keys = overrides_result(all.subrange(0, i as int))->Ok_0;
                    assert(dependencies_view(deps@) =~= dependencies_view(before).push((key@, DataSource::Injected)));
                    assert(keys.push(key@).map_values(|k: Seq<char>| (k, DataSource::Injected)) =~= keys.map_values(
                        |k: Seq<char>| (k, DataSource::Injected),
                    ).push((key@, DataSource::Injected)));
                }
            },
        }
        i = i + 1;
    }
    assert(all.subrange(0, all.len() as int) =~= all);
    Ok(deps)
}

/// What a request needs sent and what its result is annotated with.
pub struct SimulationPlan {
    /// The base-64 envelope to simulate.
    pub transaction: String,
    /// The injected keys, when ledger overrides were given.
    pub state_dependency: Option<Vec<StateDependency>>,
}

/// The envelope of a plan, or the error that stopped it.
pub open spec fn plan_view(r: Result<SimulationPlan, SimulationError>) -> Result<Seq<char>, SimulationErrorView> {
    match r {
        Ok(p) => Ok(p.transaction@),
        Err(e) => Err(e@),
    }
}

/// Validates a request and prepares its envelope. An empty contract
/// identifier is rejected first; non-empty overrides are checked before
/// the arguments are read.
pub fn plan_simulation(
    contract_id: &str,
    function_name: &str,
    args: &Vec<String>,
    ledger_overrides: &Option<Vec<(String, String)>>,
) -> (r: Result<SimulationPlan, SimulationError>)
    ensures
        contract_id@.len() == 0 ==> r is Err && r->Err_0@ == SimulationErrorView::NodeError("Contract ID cannot be empty"@),
        contract_id@.len() > 0 ==> match ledger_overrides {
            Some(o) if o@.len() > 0 => match overrides_result(pairs_view(o@)) {
                Err(e) => r is Err && r->Err_0@ == e,
                Ok(keys) => invoke_result(contract_id@, function_name@, strings_view(args@), plan_view(r))
                    && (r is Ok ==> r->Ok_0.state_dependency is Some
                    && dependencies_view(r->Ok_0.state_dependency->Some_0@) == keys.map_values(
                        |k: Seq<char>| (k, DataSource::Injected),
                    )),
            },
            _ => invoke_result(contract_id@, function_name@, strings_view(args@), plan_view(r))
                && (r is Ok ==> r->Ok_0.state_dependency is None),
        },
{
    if contract_id.is_empty() {
        return Err(SimulationError::NodeError("Contract ID cannot be empty".to_owned()));
    }
    let deps = match ledger_overrides {
        Some(o) => if o.len() > 0 {
            Some(decode_overrides(o)?)
        } else {
            None
        },
        None => None,
    };
    match create_invoke_transaction(contract_id, function_name, args) {
        Ok(transaction) => Ok(SimulationPlan { transaction, state_dependency: deps }),
        Err(e) => Err(e),
    }
}

/// The names of the keys at the given spans that were not injected, in
/// footprint order; a key's name is its encoding in base 64.
pub open spec fn live_names(b: Seq<u8>, spans: Seq<(int, int, nat)>, injected: Seq<Seq<char>>) -> Seq<Seq<char>>
    decreases spans.len(),
{
    if spans.len() == 0 {
        Seq::empty()
    } else {
        let rest = live_names(b, spans.drop_last(), injected);
        let name = base64_of(b.subrange(spans.last().0, spans.last().1));
        if injected.contains(name) { rest } else { rest.push(name) }
    }
}

pub open spec fn dependency_keys(s: Seq<StateDependency>) -> Seq<Seq<char>> {
    s.map_values(|d: StateDependency| d.key@)
}

/// The footprint keys of a base-64 transaction-data record (read-only keys
/// first) that are not among `injected`, as live data; none when the text
/// is no such record.
pub open spec fn live_dependencies_of(transaction_data: Seq<char>, injected: Seq<Seq<char>>) -> Seq<(Seq<char>, DataSource)> {
    match base64_decoded(transaction_data) {
        Ok(b) => match footprint_at(b) {
            Some((ro, rw)) => live_names(b, ro + rw, injected).map_values(|k: Seq<char>| (k, DataSource::Live)),
            None => Seq::empty(),
        },
        Err(_) => Seq::empty(),
    }
}

fn is_injected(key: &String, injected: &Vec<StateDependency>) -> (r: bool)
    ensures
        r == dependency_keys(injected@).contains(key@),
{
    let mut i: usize = 0;
    while i < injected.len()
        invariant
            i <= injected@.len(),
            forall|k: int| 0 <= k < i ==> injected@[k].key@ != key@,
        decreases injected@.len() - i,
    {
        if injected[i].key == *key {
            assert(dependency_keys(injected@)[i as int] == key@);
            return true;
        }
        i = i + 1;
    }
    proof {
        if dependency_keys(injected@).contains(key@) {
            let k = choose|k: int| 0 <= k < dependency_keys(injected@).len() && dependency_keys(injected@)[k] == key@;
            assert(injected@[k].key@ == key@);
        }
    }
    false
}

fn no_dependencies() -> (r: Vec<StateDependency>)
    ensures
        dependencies_view(r@) == Seq::<(Seq<char>, DataSource)>::empty(),
{
    let none: Vec<StateDependency> = Vec::new();
    assert(dependencies_view(none@) =~= Seq::<(Seq<char>, DataSource)>::empty());
    none
}

proof fn lemma_spans_concat(b: Seq<u8>, ro: Seq<LedgerKey>, rw: Seq<LedgerKey>, ro_s: Seq<(int, int, nat)>, rw_s: Seq<(int, int, nat)>)
    requires
        keys_match_spans(b, ro, ro_s),
        keys_match_spans(b, rw, rw_s),
    ensures
        keys_match_spans(b, ro + rw, ro_s + rw_s),
{
    let ks = ro + rw;
    let sp = ro_s + rw_s;
    assert forall|i: int| 0 <= i < ks.len() implies {
        &&& 0 <= (#[trigger] sp[i]).0 <= sp[i].1 <= b.len()
        &&& b.subrange(sp[i].0, sp[i].1) == ledger_key_xdr(ks[i])
        &&& sp[i].2 == crate::ledger::key_size(ks[i])
        &&& ledger_key_wf(ks[i])
    } by {
        if i < ro.len() {
            assert(sp[i] == ro_s[i] && ks[i] == ro[i]);
        } else {
            assert(sp[i] == rw_s[i - ro.len()] && ks[i] == rw[i - ro.len()]);
        }
    }
}

fn live_from_keys(bytes: &Vec<u8>, keys: &Vec<LedgerKey>, injected: &Vec<StateDependency>, Ghost(spans): Ghost<Seq<(int, int, nat)>>) -> (r: Vec<StateDependency>)
    requires
        keys_match_spans(bytes@, keys@, spans),
    ensures
        dependencies_view(r@) == live_names(bytes@, spans, dependency_keys(injected@)).map_values(
            |k: Seq<char>| (k, DataSource::Live),
        ),
{
    let ghost b = bytes@;
    let ghost names = dependency_keys(injected@);
    let mut out: Vec<StateDependency> = Vec::new();
    let mut i: usize = 0;
    assert(live_names(b, spans.subrange(0, 0), names).map_values(|k: Seq<char>| (k, DataSource::Live)) =~= dependencies_view(out@));
    while i < keys.len()
        invariant
            i <= keys@.len(),
            b == bytes@,
            keys_match_spans(b, keys@, spans),
            names == dependency_keys(injected@),
            dependencies_view(out@) == live_names(b, spans.subrange(0, i as int), names).map_values(
                |k: Seq<char>| (k, DataSource::Live),
            ),
        decreases keys@.len() - i,
    {
        let key = &keys[i];
        assert(spans[i as int].0 <= spans[i as int].1 && ledger_key_wf(keys@[i as int]));
        let mut encoded: Vec<u8> = Vec::new();
        put_ledger_key(&mut encoded, key);
        assert(encoded@ =~= b.subrange(spans[i as int].0, spans[i as int].1));
        let text = encode_base64(&encoded);
        let injected_here = is_injected(&text, injected);
        let ghost before = out@;
        if !injected_here {
            out.push(StateDependency { key: text, source: DataSource::Live });
        }
        proof {
            let prefix = spans.subrange(0, i as int + 1);
            assert(prefix.drop_last() =~= spans.subrange(0, i as int));
            assert(prefix.last() == spans[i as int]);
            let prev = live_names(b, spans.subrange(0, i as int), names);
            if !injected_here {
                assert(dependencies_view(out@) =~= dependencies_view(before).push((text@, DataSource::Live)));
                assert(prev.push(text@).map_values(|k: Seq<char>| (k, DataSource::Live)) =~= prev.map_values(
                    |k: Seq<char>| (k, DataSource::Live),
                ).push((text@, DataSource::Live)));
            }
        }
        i = i + 1;
    }
    assert(spans.subrange(0, spans.len() as int) =~= spans);
    out
}

/// The footprint keys of a base-64 transaction-data record that are not
/// among the injected ones, as live dependencies.
pub fn live_dependencies(transaction_data: &str, injected: &Vec<StateDependency>) -> (r: Vec<StateDependency>)
    ensures
        dependencies_view(r@) == live_dependencies_of(transaction_data@, dependency_keys(injected@)),
{
    let bytes = match decode_base64(transaction_data) {
        Ok(b) => b,
        Err(_) => return no_dependencies(),
    };
    let (ro, rw) = match decode_footprint(&bytes) {
        Some(lists) => lists,
        None => return no_dependencies(),
    };
    let ghost ro_s = footprint_at(bytes@)->Some_0.0;
    let ghost rw_s = footprint_at(bytes@)->Some_0.1;
    let ghost ro_view = ro@;
    let ghost rw_view = rw@;
    let mut keys = ro;
    let mut rest = rw;
    keys.append(&mut rest);
    proof {
        lemma_spans_concat(bytes@, ro_view, rw_view, ro_s, rw_s);
    }
    live_from_keys(&bytes, &keys, injected, Ghost(ro_s + rw_s))
}

/// Annotates a simulation result with the plan's injected keys followed by
/// the reply's other footprint keys as live data; without overrides the
/// result is left as it is.
pub fn finish_simulation(result: SimulationResult, plan: SimulationPlan, transaction_data: &str) -> (r: SimulationResult)
    ensures
        r.resources == result.resources,
        r.latest_ledger == result.latest_ledger,
        r.cost_stroops == result.cost_stroops,
        r.transaction_hash == result.transaction_hash,
        plan.state_dependency is None ==> r.state_dependency == result.state_dependency,
        plan.state_dependency is Some ==> r.state_dependency is Some && {
            let injected = plan.state_dependency->Some_0@;
            let all = dependencies_view(r.state_dependency->Some_0@);
            &&& all == dependencies_view(injected) + live_dependencies_of(transaction_data@, dependency_keys(injected))
        },
{
    match plan.state_dependency {
        None => result,
        Some(injected) => {
            let mut live = live_dependencies(transaction_data, &injected);
            let ghost inj = injected@;
            let ghost lv = live@;
            let mut all = injected;
            all.append(&mut live);
            proof {
                assert(dependencies_view(all@) =~= dependencies_view(inj) + dependencies_view(lv));
            }
            SimulationResult { state_dependency: Some(all), ..result }
        },
    }
}

} // verus!
