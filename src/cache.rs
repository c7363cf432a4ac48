use vstd::prelude::*;
use vstd::string::StringExecFns;
use vstd::utf8::encode_utf8;

use crate::simulation::SimulationResult;

verus! {

/// Seconds an entry stays in the cache.
pub const CACHE_TTL_SECS: u64 = 3_600;

/// Entries the cache holds at most.
pub const CACHE_MAX_CAPACITY: u64 = 1_000;

/// `moka::sync::Cache`, carried through as an opaque value.
#[verifier::external_type_specification]
#[verifier::external_body]
#[verifier::reject_recursive_types(K)]
#[verifier::reject_recursive_types(V)]
#[verifier::reject_recursive_types(S)]
pub struct ExCache<K, V, S>(moka::sync::Cache<K, V, S>);

/// Longest time-to-live that moka accepts: a thousand years, in seconds.
pub const MAX_TTL_SECS: u64 = 31_536_000_000;

/// Relies on `moka::sync::Cache::builder` for a cache bounded to
/// `capacity` entries, each kept at most `ttl_secs` seconds; `build` panics
/// on a time-to-live beyond a thousand years. Entries may leave at any time
/// (expiry, eviction), so nothing is promised of what it holds.
#[verifier::external_body]
fn build_cache(capacity: u64, ttl_secs: u64) -> moka::sync::Cache<String, SimulationResult>
    requires
        ttl_secs <= MAX_TTL_SECS,
{
    moka::sync::Cache::builder()
        .max_capacity(capacity)
        .time_to_live(std::time::Duration::from_secs(ttl_secs))
        .build()
}

/// Relies on `moka::sync::Cache::get`: a copy of the value stored under
/// the key, if it is still there.
#[verifier::external_body]
fn cache_get(c: &moka::sync::Cache<String, SimulationResult>, key: &str) -> Option<SimulationResult> {
    c.get(key)
}

/// Relies on `moka::sync::Cache::insert`: stores the value under the key,
/// replacing an earlier one.
#[verifier::external_body]
fn cache_insert(c: &moka::sync::Cache<String, SimulationResult>, key: String, value: SimulationResult) {
    c.insert(key, value)
}

// ── fingerprints ────────────────────────────────────────────────────────────

/// The SHA-256 digest of a byte string.
pub uninterp spec fn sha256_of(b: Seq<u8>) -> Seq<u8>;

/// The JSON text that `serde_json::to_string` writes for a list of strings.
pub uninterp spec fn json_of_strings(s: Seq<Seq<char>>) -> Seq<char>;

/// Relies on `sha2::Sha256::digest`: a 32-byte digest that depends on the
/// bytes alone.
#[verifier::external_body]
fn sha256(b: &[u8]) -> (r: Vec<u8>)
    ensures
        r@ == sha256_of(b@),
        r@.len() == 32,
{
    <sha2::Sha256 as sha2::Digest>::digest(b).to_vec()
}

/// Relies on `serde_json::to_string` to write a list of strings as JSON.
/// Strings always serialize and the output is an in-memory buffer, so it
/// does not fail; an empty list is written `[]`.
#[verifier::external_body]
fn strings_to_json(args: &[String]) -> (r: Result<String, String>)
    ensures
        r is Ok,
        r->Ok_0@ == json_of_strings(args@.map_values(|s: String| s@)),
        args@.len() == 0 ==> r->Ok_0@ == "[]"@,
{
    serde_json::to_string(args).map_err(|e| e.to_string())
}

/// The lower-case hexadecimal digit of a value below sixteen.
pub open spec fn hex_char(d: u8) -> char {
    if d < 10 { ((d + 48) as u8) as char } else { ((d + 87) as u8) as char }
}

/// Lower-case hexadecimal, two digits a byte.
pub open spec fn hex_lower(b: Seq<u8>) -> Seq<char> {
    Seq::new(2 * b.len(), |i: int| if i % 2 == 0 { hex_char(b[i / 2] / 16) } else { hex_char(b[i / 2] % 16) })
}

/// Relies on `hex::encode`: lower-case hexadecimal, two digits a byte.
#[verifier::external_body]
fn hex_encode(b: &Vec<u8>) -> (r: String)
    ensures
        r@ == hex_lower(b@),
{
    hex::encode(b)
}

/// The cache key of a request: the hexadecimal SHA-256 of the contract
/// identifier, the function name and the arguments as JSON, run together.
pub open spec fn fingerprint(contract_id: Seq<char>, function_name: Seq<char>, args: Seq<Seq<char>>) -> Seq<char> {
    hex_lower(sha256_of(encode_utf8(contract_id + function_name + json_of_strings(args))))
}

/// A lower-case hexadecimal digit.
pub open spec fn is_lower_hex_char(c: char) -> bool {
    ('0' <= c && c <= '9') || ('a' <= c && c <= 'f')
}

/// The hexadecimal form of a 32-byte digest is 64 lower-case
/// hexadecimal digits.
pub proof fn lemma_hex_of_digest(digest: Seq<u8>)
    requires
        digest.len() == 32,
    ensures
        hex_lower(digest).len() == 64,
        forall|i: int| 0 <= i < 64 ==> #[trigger] is_lower_hex_char(hex_lower(digest)[i]),
{
    assert forall|i: int| 0 <= i < 64 implies #[trigger] is_lower_hex_char(hex_lower(digest)[i]) by {
        let d = if i % 2 == 0 { digest[i / 2] / 16 } else { digest[i / 2] % 16 };
        assert(d < 16);
    }
}

/// Cache statistics at one moment.
#[derive(Debug, Clone, Copy, PartialEq, Eq, Structural)]
pub struct CacheStats {
    pub hits: u64,
    pub misses: u64,
    pub total: u128,
    pub hit_rate_pct: u128,
}

/// Simulation results by request fingerprint, kept for an hour and at
/// most a thousand at a time, with hit and miss counters.
pub struct SimulationCache {
    inner: moka::sync::Cache<String, SimulationResult>,
    hits: u64,
    misses: u64,
}

impl SimulationCache {
    pub closed spec fn hits(&self) -> u64 {
        self.hits
    }

    pub closed spec fn misses(&self) -> u64 {
        self.misses
    }

    /// An empty cache with both counters at zero.
    pub fn new() -> (c: SimulationCache)
        ensures
            c.hits() == 0,
            c.misses() == 0,
    {
        SimulationCache { inner: build_cache(CACHE_MAX_CAPACITY, CACHE_TTL_SECS), hits: 0, misses: 0 }
    }

    /// The fingerprint of a request: 64 lower-case hexadecimal digits that
    /// depend on the request alone.
    pub fn generate_key(contract_id: &str, function_name: &str, args: &[String]) -> (k: String)
        ensures
            k@ == fingerprint(contract_id@, function_name@, args@.map_values(|s: String| s@)),
            args@.len() == 0 ==> k@ == hex_lower(sha256_of(encode_utf8(contract_id@ + function_name@ + "[]"@))),
            k@.len() == 64,
            forall|i: int| 0 <= i < 64 ==> #[trigger] is_lower_hex_char(k@[i]),
    {
        let args_json = match strings_to_json(args) {
            Ok(j) => j,
            Err(m) => m,
        };
        let input = contract_id.to_owned().concat(function_name).concat(args_json.as_str());
        let digest = sha256(input.as_str().as_bytes());
        proof {
            lemma_hex_of_digest(digest@);
        }
        hex_encode(&digest)
    }

    /// The cached result under `key`, if it is still there; counts a hit or
    /// a miss.
    pub fn get(&mut self, key: &str) -> (r: Option<SimulationResult>)
        ensures
            r is Some ==> final(self).hits() == sat_inc(old(self).hits()) && final(self).misses() == old(self).misses(),
            r is None ==> final(self).misses() == sat_inc(old(self).misses()) && final(self).hits() == old(self).hits(),
    {
        let value = cache_get(&self.inner, key);
        if value.is_some() {
            self.hits = if self.hits < u64::MAX { self.hits + 1 } else { self.hits };
        } else {
            self.misses = if self.misses < u64::MAX { self.misses + 1 } else { self.misses };
        }
        value
    }

    /// Stores a result under `key`; the last writer wins.
    pub fn set(&self, key: String, value: SimulationResult) {
        cache_insert(&self.inner, key, value)
    }

    pub fn hit_count(&self) -> (n: u64)
        ensures
            n == self.hits(),
    {
        self.hits
    }

    pub fn miss_count(&self) -> (n: u64)
        ensures
            n == self.misses(),
    {
        self.misses
    }

    /// Hits, misses, their total and the hit rate in whole percent (zero
    /// before any lookup).
    pub fn stats(&self) -> (s: CacheStats)
        ensures
            s.hits == self.hits(),
            s.misses == self.misses(),
            s.total == self.hits() + self.misses(),
            s.total > 0 ==> s.hit_rate_pct == (self.hits() as int * 100) / (s.total as int),
            s.total == 0 ==> s.hit_rate_pct == 0,
    {
        let total: u128 = self.hits as u128 + self.misses as u128;
        let hit_rate_pct: u128 = if total > 0 { (self.hits as u128 * 100) / total } else { 0 };
        CacheStats { hits: self.hits, misses: self.misses, total, hit_rate_pct }
    }
}

/// A counter after one more event; it stops at `u64::MAX`.
pub open spec fn sat_inc(n: u64) -> u64 {
    if n < u64::MAX { (n + 1) as u64 } else { n }
}

} // verus!
