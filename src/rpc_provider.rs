use vstd::prelude::*;

verus! {

/// Consecutive failures after which a provider is taken out of the pool.
pub const CIRCUIT_BREAKER_THRESHOLD: u64 = 3;

/// How long a tripped provider stays out of the pool, in milliseconds.
pub const CIRCUIT_BREAKER_COOLDOWN_MS: u64 = 300_000;

/// Timeout of the `getLatestLedger` health probe, in seconds.
pub const HEALTH_CHECK_TIMEOUT_SECS: u64 = 10;

/// One JSON-RPC endpoint, with an optional authentication header.
#[derive(Debug, Clone, PartialEq)]
pub struct RpcProvider {
    pub name: String,
    pub url: String,
    pub auth_header: Option<String>,
    pub auth_value: Option<String>,
}

pub struct RpcProviderView {
    pub name: Seq<char>,
    pub url: Seq<char>,
    pub auth_header: Option<Seq<char>>,
    pub auth_value: Option<Seq<char>>,
}

pub open spec fn opt_view(o: Option<String>) -> Option<Seq<char>> {
    match o {
        Some(s) => Some(s@),
        None => None,
    }
}

impl View for RpcProvider {
    type V = RpcProviderView;

    open spec fn view(&self) -> RpcProviderView {
        RpcProviderView {
            name: self.name@,
            url: self.url@,
            auth_header: opt_view(self.auth_header),
            auth_value: opt_view(self.auth_value),
        }
    }
}

/// The views of a list of providers.
pub open spec fn providers_view(v: Seq<RpcProvider>) -> Seq<RpcProviderView> {
    v.map_values(|p: RpcProvider| p@)
}

fn clone_opt(o: &Option<String>) -> (r: Option<String>)
    ensures
        opt_view(r) == opt_view(*o),
{
    match o {
        Some(s) => Some(s.clone()),
        None => None,
    }
}

impl RpcProvider {
    /// A copy with the same view.
    pub fn duplicate(&self) -> (r: RpcProvider)
        ensures
            r@ == self@,
    {
        RpcProvider {
            name: self.name.clone(),
            url: self.url.clone(),
            auth_header: clone_opt(&self.auth_header),
            auth_value: clone_opt(&self.auth_value),
        }
    }
}

/// Health of one provider.
pub struct ProviderStateView {
    pub provider: RpcProviderView,
    pub consecutive_failures: u64,
    /// When the breaker tripped, in milliseconds; `None` while healthy.
    pub tripped_at: Option<u64>,
    pub latest_ledger: u64,
}

/// A provider as it stands right after registration.
pub open spec fn fresh_state(p: RpcProviderView) -> ProviderStateView {
    ProviderStateView { provider: p, consecutive_failures: 0, tripped_at: None, latest_ledger: 0 }
}

/// Whether a provider may be used at time `now`: it is not tripped, or its
/// cool-down has elapsed.
pub open spec fn is_available(s: ProviderStateView, now: u64) -> bool {
    match s.tripped_at {
        None => true,
        Some(t) => now >= t && now - t >= CIRCUIT_BREAKER_COOLDOWN_MS,
    }
}

/// The state after a reported success: counter cleared, breaker closed.
pub open spec fn after_success(s: ProviderStateView) -> ProviderStateView {
    ProviderStateView { consecutive_failures: 0, tripped_at: None, ..s }
}

/// The state after a reported failure at `now`: counter incremented, and the
/// breaker tripped at `now` once the counter reaches the threshold.
pub open spec fn after_failure(s: ProviderStateView, now: u64) -> ProviderStateView {
    let n = if s.consecutive_failures < u64::MAX { (s.consecutive_failures + 1) as u64 } else { s.consecutive_failures };
    ProviderStateView {
        consecutive_failures: n,
        tripped_at: if n >= CIRCUIT_BREAKER_THRESHOLD { Some(now) } else { s.tripped_at },
        ..s
    }
}

/// The state after a health probe at `now`: a ledger number on success,
/// `None` on failure.
pub open spec fn after_probe(s: ProviderStateView, outcome: Option<u64>, now: u64) -> ProviderStateView {
    match outcome {
        Some(ledger) => ProviderStateView { latest_ledger: ledger, ..after_success(s) },
        None => after_failure(s, now),
    }
}

/// The providers available at `now`, in priority order.
pub open spec fn healthy(states: Seq<ProviderStateView>, now: u64) -> Seq<RpcProviderView>
    decreases states.len(),
{
    if states.len() == 0 {
        Seq::empty()
    } else {
        let rest = healthy(states.drop_last(), now);
        if is_available(states.last(), now) {
            rest.push(states.last().provider)
        } else {
            rest
        }
    }
}

/// `j` is the first provider registered under `url`.
pub open spec fn is_first_with_url(states: Seq<ProviderStateView>, url: Seq<char>, j: int) -> bool {
    &&& 0 <= j < states.len()
    &&& states[j].provider.url == url
    &&& forall|k: int| 0 <= k < j ==> states[k].provider.url != url
}

/// No provider is registered under `url`.
pub open spec fn has_no_url(states: Seq<ProviderStateView>, url: Seq<char>) -> bool {
    forall|k: int| 0 <= k < states.len() ==> states[k].provider.url != url
}

struct ProviderState {
    provider: RpcProvider,
    consecutive_failures: u64,
    tripped_at: Option<u64>,
    latest_ledger: u64,
}

impl View for ProviderState {
    type V = ProviderStateView;

    closed spec fn view(&self) -> ProviderStateView {
        ProviderStateView {
            provider: self.provider@,
            consecutive_failures: self.consecutive_failures,
            tripped_at: self.tripped_at,
            latest_ledger: self.latest_ledger,
        }
    }
}

/// An ordered pool of providers with a circuit breaker on each.
pub struct ProviderRegistry {
    states: Vec<ProviderState>,
}

impl View for ProviderRegistry {
    type V = Seq<ProviderStateView>;

    closed spec fn view(&self) -> Seq<ProviderStateView> {
        self.states@.map_values(|s: ProviderState| s@)
    }
}

impl ProviderRegistry {
    /// A pool of the given providers, in that priority order, all healthy.
    pub fn new(providers: Vec<RpcProvider>) -> (reg: ProviderRegistry)
        ensures
            reg@ == providers_view(providers@).map_values(|p: RpcProviderView| fresh_state(p)),
    {
        let mut states: Vec<ProviderState> = Vec::new();
        let mut providers = providers;
        let ghost all = providers@;
        let mut taken: Vec<RpcProvider> = Vec::new();
        // Reverse once so that popping yields the providers in order.
        while providers.len() > 0
            invariant
                taken@.len() + providers@.len() == all.len(),
                forall|i: int| 0 <= i < providers@.len() ==> providers@[i] == all[i],
                forall|i: int| 0 <= i < taken@.len() ==> taken@[i] == all[all.len() - 1 - i],
            decreases providers@.len(),
        {
            let p = providers.pop().unwrap();
            taken.push(p);
        }
        while taken.len() > 0
            invariant
                states@.len() + taken@.len() == all.len(),
                forall|i: int| 0 <= i < taken@.len() ==> taken@[i] == all[all.len() - 1 - i],
                forall|i: int| 0 <= i < states@.len() ==> #[trigger] states@[i]@ == fresh_state(all[i]@),
            decreases taken@.len(),
        {
            let p = taken.pop().unwrap();
            states.push(ProviderState { provider: p, consecutive_failures: 0, tripped_at: None, latest_ledger: 0 });
        }
        let reg = ProviderRegistry { states };
        assert(reg@ =~= providers_view(all).map_values(|p: RpcProviderView| fresh_state(p)));
        reg
    }

    /// Number of providers in the pool.
    pub fn len(&self) -> (n: usize)
        ensures
            n == self@.len(),
    {
        self.states.len()
    }

    /// The provider at position `index` in priority order.
    pub fn provider(&self, index: usize) -> (p: RpcProvider)
        requires
            index < self@.len(),
        ensures
            p@ == self@[index as int].provider,
    {
        self.states[index].provider.duplicate()
    }

    /// Latest ledger number seen by the last successful probe of `index`.
    pub fn latest_ledger(&self, index: usize) -> (l: u64)
        requires
            index < self@.len(),
        ensures
            l == self@[index as int].latest_ledger,
    {
        self.states[index].latest_ledger
    }

    /// The providers that may be used at time `now`, in priority order;
    /// tripped providers whose cool-down has not elapsed are left out.
    pub fn healthy_providers(&self, now: u64) -> (out: Vec<RpcProvider>)
        ensures
            providers_view(out@) == healthy(self@, now),
    {
        let mut out: Vec<RpcProvider> = Vec::new();
        let mut i: usize = 0;
        while i < self.states.len()
            invariant
                i <= self.states@.len(),
                providers_view(out@) == healthy(self@.subrange(0, i as int), now),
            decreases self.states@.len() - i,
        {
            let st = &self.states[i];
            let available = match st.tripped_at {
                None => true,
                Some(t) => now >= t && now - t >= CIRCUIT_BREAKER_COOLDOWN_MS,
            };
            let ghost before = out@;
            if available {
                out.push(st.provider.duplicate());
            }
            proof {
                assert(self@.subrange(0, i as int + 1).drop_last() =~= self@.subrange(0, i as int));
                if available {
                    assert(providers_view(out@) =~= providers_view(before).push(self@[i as int].provider));
                } else {
                    assert(out@ == before);
                }
            }
            i = i + 1;
        }
        assert(self@.subrange(0, self@.len() as int) =~= self@);
        out
    }

    /// Index of the first provider registered under `url`.
    fn find_by_url(&self, url: &str) -> (r: Option<usize>)
        ensures
            match r {
                Some(j) => is_first_with_url(self@, url@, j as int),
                None => has_no_url(self@, url@),
            },
    {
        let target = url.to_owned();
        let mut i: usize = 0;
        while i < self.states.len()
            invariant
                i <= self.states@.len(),
                target@ == url@,
                forall|k: int| 0 <= k < i ==> self@[k].provider.url != url@,
            decreases self.states@.len() - i,
        {
            if self.states[i].provider.url == target {
                return Some(i);
            }
            i = i + 1;
        }
        None
    }

    /// Records a successful call to `url`: the first provider with that URL
    /// has its counter cleared and its breaker closed. Unknown URLs change
    /// nothing.
    pub fn report_success(&mut self, url: &str)
        ensures
            forall|j: int| is_first_with_url(old(self)@, url@, j)
                ==> final(self)@ == old(self)@.update(j, after_success(old(self)@[j])),
            has_no_url(old(self)@, url@) ==> final(self)@ == old(self)@,
    {
        match self.find_by_url(url) {
            Some(j) => {
                let ghost before = self@;
                self.states[j].consecutive_failures = 0;
                self.states[j].tripped_at = None;
                proof {
                    assert(self@ =~= before.update(j as int, after_success(before[j as int])));
                    assert forall|k: int| is_first_with_url(before, url@, k) implies k == j as int by {
                        if k < j as int {
                        } else if k > j as int {
                        }
                    }
                }
            },
            None => {},
        }
    }

    /// Records a failed call to `url` at time `now`: the first provider with
    /// that URL has its counter incremented, and its breaker trips once the
    /// counter reaches the threshold. Unknown URLs change nothing.
    pub fn report_failure(&mut self, url: &str, now: u64)
        ensures
            forall|j: int| is_first_with_url(old(self)@, url@, j)
                ==> final(self)@ == old(self)@.update(j, after_failure(old(self)@[j], now)),
            has_no_url(old(self)@, url@) ==> final(self)@ == old(self)@,
    {
        match self.find_by_url(url) {
            Some(j) => {
                let ghost before = self@;
                self.fail_at(j, now);
                proof {
                    assert forall|k: int| is_first_with_url(before, url@, k) implies k == j as int by {
                        if k < j as int {
                        } else if k > j as int {
                        }
                    }
                }
            },
            None => {},
        }
    }

    fn fail_at(&mut self, j: usize, now: u64)
        requires
            j < old(self)@.len(),
        ensures
            final(self)@ == old(self)@.update(j as int, after_failure(old(self)@[j as int], now)),
    {
        let ghost before = self@;
        let f = self.states[j].consecutive_failures;
        let n = if f < u64::MAX { f + 1 } else { f };
        self.states[j].consecutive_failures = n;
        if n >= CIRCUIT_BREAKER_THRESHOLD {
            self.states[j].tripped_at = Some(now);
        }
        assert(self@ =~= before.update(j as int, after_failure(before[j as int], now)));
    }

    /// Records the outcome of a health probe of the provider at `index`
    /// made at time `now`: a ledger number, or `None` when the probe failed.
    pub fn record_health_check(&mut self, index: usize, outcome: Option<u64>, now: u64)
        requires
            index < old(self)@.len(),
        ensures
            final(self)@ == old(self)@.update(index as int, after_probe(old(self)@[index as int], outcome, now)),
    {
        let ghost before = self@;
        match outcome {
            Some(ledger) => {
                self.states[index].latest_ledger = ledger;
                self.states[index].consecutive_failures = 0;
                self.states[index].tripped_at = None;
                assert(self@ =~= before.update(index as int, after_probe(before[index as int], outcome, now)));
            },
            None => {
                self.fail_at(index, now);
            },
        }
    }

    /// Whether a failed request with this HTTP status should be retried on
    /// the next provider: 429 and every 5xx status.
    pub fn is_retryable_status(status: u16) -> (r: bool)
        ensures
            r == (status == 429 || status >= 500),
    {
        status == 429 || status >= 500
    }
}

/// The provider pool to start with: the configured list when it was read
/// and is not empty, else a single provider named `default` at
/// `default_url`, without authentication.
pub fn choose_providers(configured: Option<Vec<RpcProvider>>, default_url: String) -> (r: Vec<RpcProvider>)
    ensures
        match configured {
            Some(list) if list@.len() > 0 => r@ == list@,
            _ => r@.len() == 1 && r@[0]@ == (RpcProviderView {
                name: "default"@,
                url: default_url@,
                auth_header: None,
                auth_value: None,
            }),
        },
{
    match configured {
        Some(list) => if list.len() > 0 {
            return list;
        },
        None => {},
    }
    let mut pool: Vec<RpcProvider> = Vec::new();
    pool.push(RpcProvider { name: "default".to_owned(), url: default_url, auth_header: None, auth_value: None });
    pool
}

proof fn lemma_healthy_from_states(states: Seq<ProviderStateView>, now: u64)
    ensures
        forall|i: int| 0 <= i < healthy(states, now).len() ==> exists|k: int|
            0 <= k < states.len() && #[trigger] healthy(states, now)[i] == states[k].provider && is_available(states[k], now),
    decreases states.len(),
{
    if states.len() > 0 {
        let rest = states.drop_last();
        lemma_healthy_from_states(rest, now);
        assert forall|i: int| 0 <= i < healthy(states, now).len() implies exists|k: int|
            0 <= k < states.len() && #[trigger] healthy(states, now)[i] == states[k].provider && is_available(states[k], now) by {
            if i < healthy(rest, now).len() {
                let k = choose|k: int| 0 <= k < rest.len() && healthy(rest, now)[i] == rest[k].provider && is_available(rest[k], now);
                assert(rest[k] == states[k]);
            } else {
                assert(healthy(states, now)[i] == states[states.len() - 1].provider);
            }
        }
    }
}

/// With distinct providers, a provider is offered at `now` exactly when
/// its state is available: a tripped provider is left out until its
/// cool-down has elapsed and offered again from then on, without any
/// further report.
pub proof fn lemma_offered_iff_available(states: Seq<ProviderStateView>, now: u64, j: int)
    requires
        0 <= j < states.len(),
        forall|a: int, b: int| 0 <= a < b < states.len() ==> #[trigger] states[a].provider != #[trigger] states[b].provider,
    ensures
        healthy(states, now).contains(states[j].provider) <==> is_available(states[j], now),
    decreases states.len(),
{
    let rest = states.drop_last();
    let last = states.len() - 1;
    lemma_healthy_from_states(rest, now);
    if j < last {
        assert forall|a: int, b: int| 0 <= a < b < rest.len() implies #[trigger] rest[a].provider != #[trigger] rest[b].provider by {
            assert(rest[a] == states[a] && rest[b] == states[b]);
        }
        lemma_offered_iff_available(rest, now, j);
        assert(rest[j] == states[j]);
        if is_available(states[last], now) {
            assert(states[last].provider != states[j].provider);
            if healthy(rest, now).contains(states[j].provider) {
                let i = choose|i: int| 0 <= i < healthy(rest, now).len() && healthy(rest, now)[i] == states[j].provider;
                assert(healthy(states, now)[i] == states[j].provider);
            }
            if healthy(states, now).contains(states[j].provider) {
                let i = choose|i: int| 0 <= i < healthy(states, now).len() && healthy(states, now)[i] == states[j].provider;
                assert(i < healthy(rest, now).len());
                assert(healthy(rest, now)[i] == states[j].provider);
            }
        }
    } else {
        if is_available(states[j], now) {
            assert(healthy(states, now)[healthy(rest, now).len() as int] == states[j].provider);
        } else {
            if healthy(states, now).contains(states[j].provider) {
                let i = choose|i: int| 0 <= i < healthy(states, now).len() && healthy(states, now)[i] == states[j].provider;
                let k = choose|k: int| 0 <= k < rest.len() && healthy(rest, now)[i] == rest[k].provider && is_available(rest[k], now);
                assert(rest[k] == states[k]);
            }
        }
    }
}

/// A newly built pool offers every provider, in the order given.
pub proof fn lemma_fresh_pool_is_healthy_in_order(providers: Seq<RpcProviderView>, now: u64)
    ensures
        healthy(providers.map_values(|p: RpcProviderView| fresh_state(p)), now) == providers,
    decreases providers.len(),
{
    let states = providers.map_values(|p: RpcProviderView| fresh_state(p));
    if providers.len() > 0 {
        assert(states.drop_last() =~= providers.drop_last().map_values(|p: RpcProviderView| fresh_state(p)));
        lemma_fresh_pool_is_healthy_in_order(providers.drop_last(), now);
        assert(providers.drop_last().push(providers.last()) =~= providers);
    }
}

/// Starting from a clear counter, the threshold-th consecutive failure trips
/// the breaker: the provider is left out until the cool-down has elapsed
/// after that failure, and is offered again from then on.
pub proof fn lemma_breaker_trips_then_recovers(s: ProviderStateView, t1: u64, t2: u64, t3: u64, now: u64)
    requires
        s.consecutive_failures == 0,
    ensures
        ({
            let tripped = after_failure(after_failure(after_failure(s, t1), t2), t3);
            &&& tripped.consecutive_failures == CIRCUIT_BREAKER_THRESHOLD
            &&& tripped.tripped_at == Some(t3)
            &&& (t3 <= now && now - t3 < CIRCUIT_BREAKER_COOLDOWN_MS ==> !is_available(tripped, now))
            &&& (now >= t3 && now - t3 >= CIRCUIT_BREAKER_COOLDOWN_MS ==> is_available(tripped, now))
        }),
{
}

/// Fewer failures than the threshold never trip a breaker that was closed.
pub proof fn lemma_below_threshold_stays_available(s: ProviderStateView, t1: u64, t2: u64, now: u64)
    requires
        s.consecutive_failures == 0,
        s.tripped_at.is_none(),
    ensures
        is_available(after_failure(s, t1), now),
        is_available(after_failure(after_failure(s, t1), t2), now),
{
}

/// A single reported success makes a provider available at once.
pub proof fn lemma_success_clears_trip(s: ProviderStateView, now: u64)
    ensures
        is_available(after_success(s), now),
        after_success(s).consecutive_failures == 0,
{
}

} // verus!
