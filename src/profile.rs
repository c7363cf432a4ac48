use vstd::prelude::*;

verus! {

/// Profiling figures of a contract's bytecode.
#[derive(Debug, Clone, Copy, PartialEq, Eq, Structural)]
pub struct ResourceReport {
    pub cpu_usage: u64,
    pub memory_usage: u64,
    pub ledger_footprint: u64,
}

/// Why bytecode could not be profiled.
#[derive(Debug, Clone, PartialEq)]
pub enum ProfileError {
    InvalidWasm(String),
    SimulationFailed(String),
}

impl ProfileError {
    /// The error as a sentence, e.g. `Invalid WASM: ...`.
    pub fn message(&self) -> (m: String)
        ensures
            m@ == match self {
                ProfileError::InvalidWasm(s) => "Invalid WASM: "@ + s@,
                ProfileError::SimulationFailed(s) => "Simulation failed: "@ + s@,
            },
    {
        match self {
            ProfileError::InvalidWasm(s) => vstd::string::StringExecFns::concat("Invalid WASM: ".to_owned(), s.as_str()),
            ProfileError::SimulationFailed(s) => vstd::string::StringExecFns::concat("Simulation failed: ".to_owned(), s.as_str()),
        }
    }
}

/// The WebAssembly magic number `\0asm`.
pub open spec fn has_wasm_magic(b: Seq<u8>) -> bool {
    b.len() >= 4 && b[0] == 0 && b[1] == 97 && b[2] == 115 && b[3] == 109
}

/// Checks bytecode and reports its figures: empty bytecode and bytecode
/// without the WebAssembly magic number are rejected; otherwise memory and
/// footprint are the bytecode's length and CPU is zero.
pub fn profile_contract(wasm: &[u8]) -> (r: Result<ResourceReport, ProfileError>)
    ensures
        wasm@.len() == 0 ==> r == Err::<ResourceReport, ProfileError>(ProfileError::InvalidWasm(r->Err_0->InvalidWasm_0))
            && r->Err_0->InvalidWasm_0@ == "WASM bytecode is empty"@,
        wasm@.len() > 0 && !has_wasm_magic(wasm@) ==> r is Err && r->Err_0 is InvalidWasm
            && r->Err_0->InvalidWasm_0@ == "Invalid WASM magic number"@,
        has_wasm_magic(wasm@) ==> r == Ok::<ResourceReport, ProfileError>(
            ResourceReport { cpu_usage: 0, memory_usage: wasm@.len() as u64, ledger_footprint: wasm@.len() as u64 },
        ),
{
    if wasm.len() == 0 {
        return Err(ProfileError::InvalidWasm("WASM bytecode is empty".to_owned()));
    }
    if wasm.len() < 4 || wasm[0] != 0 || wasm[1] != 97 || wasm[2] != 115 || wasm[3] != 109 {
        return Err(ProfileError::InvalidWasm("Invalid WASM magic number".to_owned()));
    }
    Ok(ResourceReport { cpu_usage: 0, memory_usage: wasm.len() as u64, ledger_footprint: wasm.len() as u64 })
}

} // verus!
