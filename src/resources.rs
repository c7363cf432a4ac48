use vstd::prelude::*;

verus! {

/// Resource consumption of one simulated invocation.
#[derive(Debug, Clone, Copy, PartialEq, Eq, Structural)]
pub struct SorobanResources {
    pub cpu_instructions: u64,
    pub ram_bytes: u64,
    pub ledger_read_bytes: u64,
    pub ledger_write_bytes: u64,
    pub transaction_size_bytes: u64,
}

impl SorobanResources {
    /// Total ledger I/O (reads plus writes), as a mathematical integer.
    pub open spec fn ledger_total(self) -> int {
        self.ledger_read_bytes + self.ledger_write_bytes
    }

    /// All five metrics are zero.
    pub open spec fn is_zero(self) -> bool {
        &&& self.cpu_instructions == 0
        &&& self.ram_bytes == 0
        &&& self.ledger_read_bytes == 0
        &&& self.ledger_write_bytes == 0
        &&& self.transaction_size_bytes == 0
    }

    /// Component-wise order on metrics records.
    pub open spec fn le(self, other: SorobanResources) -> bool {
        &&& self.cpu_instructions <= other.cpu_instructions
        &&& self.ram_bytes <= other.ram_bytes
        &&& self.ledger_read_bytes <= other.ledger_read_bytes
        &&& self.ledger_write_bytes <= other.ledger_write_bytes
        &&& self.transaction_size_bytes <= other.transaction_size_bytes
    }

    /// Reads plus writes, computed without overflow.
    pub fn ledger_total_bytes(&self) -> (r: u128)
        ensures
            r == self.ledger_total(),
    {
        self.ledger_read_bytes as u128 + self.ledger_write_bytes as u128
    }
}

impl Default for SorobanResources {
    fn default() -> (r: Self)
        ensures
            r.is_zero(),
    {
        SorobanResources {
            cpu_instructions: 0,
            ram_bytes: 0,
            ledger_read_bytes: 0,
            ledger_write_bytes: 0,
            transaction_size_bytes: 0,
        }
    }
}

} // verus!
