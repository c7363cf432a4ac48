use vstd::prelude::*;

use crate::simulation::{DataSource, SimulationResult, StateDependency};

verus! {

/// Seconds between two rounds of provider health checks, unless configured.
pub fn default_health_check_interval() -> (s: u64)
    ensures
        s == 30,
{
    30
}

/// The body of an `/analyze` request.
#[derive(Debug, Clone, PartialEq)]
pub struct AnalyzeRequest {
    pub contract_id: String,
    pub function_name: String,
    pub args: Option<Vec<String>>,
    pub ledger_overrides: Option<Vec<(String, String)>>,
}

/// One ledger key of the report and where its data came from (`Live` or
/// `Injected`).
#[derive(Debug, Clone, PartialEq)]
pub struct StateDependencyReport {
    pub key: String,
    pub source: String,
}

/// The body of an `/analyze` response.
#[derive(Debug, Clone, PartialEq)]
pub struct ResourceReport {
    pub cpu_instructions: u64,
    pub ram_bytes: u64,
    pub ledger_read_bytes: u64,
    pub ledger_write_bytes: u64,
    pub transaction_size_bytes: u64,
    pub state_dependency: Option<Vec<StateDependencyReport>>,
}

/// The name of a data source as reported.
pub open spec fn source_name(s: DataSource) -> Seq<char> {
    match s {
        DataSource::Live => "Live"@,
        DataSource::Injected => "Injected"@,
    }
}

pub open spec fn report_deps_view(v: Seq<StateDependencyReport>) -> Seq<(Seq<char>, Seq<char>)> {
    v.map_values(|d: StateDependencyReport| (d.key@, d.source@))
}

pub open spec fn result_deps_view(v: Seq<StateDependency>) -> Seq<(Seq<char>, Seq<char>)> {
    v.map_values(|d: StateDependency| (d.key@, source_name(d.source)))
}

/// The value of the cache-status response header.
pub fn cache_status(hit: bool) -> (s: &'static str)
    ensures
        s@ == if hit { "HIT"@ } else { "MISS"@ },
{
    if hit { "HIT" } else { "MISS" }
}

/// The response body for a simulation result.
pub fn to_report(result: &SimulationResult) -> (r: ResourceReport)
    ensures
        r.cpu_instructions == result.resources.cpu_instructions,
        r.ram_bytes == result.resources.ram_bytes,
        r.ledger_read_bytes == result.resources.ledger_read_bytes,
        r.ledger_write_bytes == result.resources.ledger_write_bytes,
        r.transaction_size_bytes == result.resources.transaction_size_bytes,
        result.state_dependency is None ==> r.state_dependency is None,
        result.state_dependency is Some ==> r.state_dependency is Some
            && report_deps_view(r.state_dependency->Some_0@) == result_deps_view(result.state_dependency->Some_0@),
{
    let state_dependency = match &result.state_dependency {
        None => None,
        Some(deps) => {
            let mut out: Vec<StateDependencyReport> = Vec::new();
            let mut i: usize = 0;
            while i < deps.len()
                invariant
                    i <= deps@.len(),
                    report_deps_view(out@) == result_deps_view(deps@.subrange(0, i as int)),
                decreases deps@.len() - i,
            {
                let source = match deps[i].source {
                    DataSource::Live => "Live".to_owned(),
                    DataSource::Injected => "Injected".to_owned(),
                };
                let ghost before = out@;
                out.push(StateDependencyReport { key: deps[i].key.clone(), source });
                proof {
                    assert(report_deps_view(out@) =~= report_deps_view(before).push((deps@[i as int].key@, source_name(deps@[i as int].source))));
                    assert(result_deps_view(deps@.subrange(0, i as int + 1)) =~= result_deps_view(deps@.subrange(0, i as int)).push(
                        (deps@[i as int].key@, source_name(deps@[i as int].source)),
                    ));
                }
                i = i + 1;
            }
            assert(deps@.subrange(0, deps@.len() as int) =~= deps@);
            Some(out)
        },
    };
    ResourceReport {
        cpu_instructions: result.resources.cpu_instructions,
        ram_bytes: result.resources.ram_bytes,
        ledger_read_bytes: result.resources.ledger_read_bytes,
        ledger_write_bytes: result.resources.ledger_write_bytes,
        transaction_size_bytes: result.resources.transaction_size_bytes,
        state_dependency,
    }
}

} // verus!
