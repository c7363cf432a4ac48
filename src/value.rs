use vstd::prelude::*;

verus! {

broadcast use vstd::std_specs::vec::axiom_vec_index_decreases, vstd::seq::axiom_seq_index_decreases;

/// A ledger address: an account key or a contract hash.
#[derive(Debug, Clone, PartialEq, Eq)]
pub enum ScAddress {
    Account(Vec<u8>),
    Contract(Vec<u8>),
}

/// An error value: its type code and its error code.
#[derive(Debug, Clone, Copy, PartialEq, Eq, Structural)]
pub struct ScErrorValue {
    pub kind: u32,
    pub code: u32,
}

/// The code a contract instance runs: uploaded bytecode or the built-in
/// asset contract.
#[derive(Debug, Clone, PartialEq, Eq)]
pub enum ContractExecutable {
    Wasm(Vec<u8>),
    StellarAsset,
}

/// One entry of a map value.
#[derive(Debug, PartialEq)]
pub struct ScMapEntry {
    pub key: ScVal,
    pub val: ScVal,
}

/// A contract instance: its executable and its optional instance storage.
#[derive(Debug, PartialEq)]
pub struct ScContractInstance {
    pub executable: ContractExecutable,
    pub storage: Option<Vec<ScMapEntry>>,
}

/// A typed blockchain value.
#[derive(Debug, PartialEq)]
pub enum ScVal {
    Bool(bool),
    Void,
    Error(ScErrorValue),
    U32(u32),
    I32(i32),
    U64(u64),
    I64(i64),
    Timepoint(u64),
    Duration(u64),
    U128 { hi: u64, lo: u64 },
    I128 { high: i64, low: u64 },
    U256 { hi_hi: u64, hi_lo: u64, lo_hi: u64, lo_lo: u64 },
    I256 { top: i64, upper: u64, lower: u64, bottom: u64 },
    Bytes(Vec<u8>),
    String(Vec<u8>),
    Symbol(Vec<u8>),
    Vec(Option<Vec<ScVal>>),
    Mapping(Option<Vec<ScMapEntry>>),
    Address(ScAddress),
    ContractInstance(ScContractInstance),
    LedgerKeyContractInstance,
    LedgerKeyNonce(i64),
}

/// The estimated storage size of a value, in bytes.
pub open spec fn value_size(v: ScVal) -> nat
    decreases v,
{
    match v {
        ScVal::Bool(_) => 1,
        ScVal::Void => 0,
        ScVal::Error(_) => 8,
        ScVal::U32(_) | ScVal::I32(_) => 4,
        ScVal::U64(_) | ScVal::I64(_) | ScVal::Timepoint(_) | ScVal::Duration(_) => 8,
        ScVal::U128 { .. } | ScVal::I128 { .. } => 16,
        ScVal::U256 { .. } | ScVal::I256 { .. } => 32,
        ScVal::Bytes(b) => b@.len(),
        ScVal::String(b) => b@.len(),
        ScVal::Symbol(b) => b@.len(),
        ScVal::Vec(Some(items)) => values_size(items@) + 4,
        ScVal::Vec(None) => 4,
        ScVal::Mapping(Some(entries)) => entries_size(entries@) + 4,
        ScVal::Mapping(None) => 4,
        ScVal::Address(_) => 32,
        ScVal::LedgerKeyContractInstance => 32,
        ScVal::LedgerKeyNonce(_) => 32,
        ScVal::ContractInstance(_) => 64,
    }
}

/// Sum of the estimated sizes of a list of values.
pub open spec fn values_size(s: Seq<ScVal>) -> nat
    decreases s,
{
    if s.len() == 0 {
        0
    } else {
        values_size(s.drop_last()) + value_size(s.last())
    }
}

/// Sum of the estimated sizes of the keys and values of map entries.
pub open spec fn entries_size(s: Seq<ScMapEntry>) -> nat
    decreases s,
{
    if s.len() == 0 {
        0
    } else {
        entries_size(s.drop_last()) + value_size(s.last().key) + value_size(s.last().val)
    }
}

/// `x`, or `u64::MAX` when `x` does not fit.
pub open spec fn saturate(x: nat) -> u64 {
    if x > u64::MAX { u64::MAX } else { x as u64 }
}

fn sat_add(a: u64, b: u64) -> (r: u64)
    ensures
        r == saturate((a + b) as nat),
{
    if a > u64::MAX - b { u64::MAX } else { a + b }
}

proof fn lemma_saturate_add(x: nat, y: nat)
    ensures
        saturate((saturate(x) + saturate(y)) as nat) == saturate(x + y),
{
}

/// The estimated size of a value in bytes, or `u64::MAX` where it is larger.
pub fn estimate_scval_size(v: &ScVal) -> (r: u64)
    ensures
        r == saturate(value_size(*v)),
    decreases v,
{
    match v {
        ScVal::Bool(_) => 1,
        ScVal::Void => 0,
        ScVal::Error(_) => 8,
        ScVal::U32(_) | ScVal::I32(_) => 4,
        ScVal::U64(_) | ScVal::I64(_) | ScVal::Timepoint(_) | ScVal::Duration(_) => 8,
        ScVal::U128 { .. } | ScVal::I128 { .. } => 16,
        ScVal::U256 { .. } | ScVal::I256 { .. } => 32,
        ScVal::Bytes(b) => b.len() as u64,
        ScVal::String(b) => b.len() as u64,
        ScVal::Symbol(b) => b.len() as u64,
        ScVal::Vec(Some(items)) => {
            let mut total: u64 = 0;
            let mut i: usize = 0;
            while i < items.len()
                invariant
                    *v == ScVal::Vec(Some(*items)),
                    i <= items@.len(),
                    total == saturate(values_size(items@.subrange(0, i as int))),
                decreases items@.len() - i,
            {
                proof {
                    assert(decreases_to!(*v => (*v)->Vec_0));
                    assert(decreases_to!((*v)->Vec_0 => (*v)->Vec_0->0));
                    assert(decreases_to!(*items => items[i as int]));
                    assert(decreases_to!(*v => items[i as int]));
                }
                let s = estimate_scval_size(&items[i]);
                proof {
                    assert(items@.subrange(0, i as int + 1).drop_last() =~= items@.subrange(0, i as int));
                    lemma_saturate_add(values_size(items@.subrange(0, i as int)), value_size(items@[i as int]));
                }
                total = sat_add(total, s);
                i = i + 1;
            }
            assert(items@.subrange(0, items@.len() as int) =~= items@);
            sat_add(total, 4)
        },
        ScVal::Vec(None) => 4,
        ScVal::Mapping(Some(entries)) => {
            let mut total: u64 = 0;
            let mut i: usize = 0;
            while i < entries.len()
                invariant
                    *v == ScVal::Mapping(Some(*entries)),
                    i <= entries@.len(),
                    total == saturate(entries_size(entries@.subrange(0, i as int))),
                decreases entries@.len() - i,
            {
                proof {
                    assert(decreases_to!(*v => (*v)->Mapping_0));
                    assert(decreases_to!((*v)->Mapping_0 => (*v)->Mapping_0->0));
                    assert(decreases_to!(*entries => entries[i as int]));
                    assert(decreases_to!(entries[i as int] => entries[i as int].key));
                    assert(decreases_to!(*v => entries[i as int].key));
                    assert(decreases_to!(*v => entries[i as int].val));
                }
                let k = estimate_scval_size(&entries[i].key);
                let x = estimate_scval_size(&entries[i].val);
                proof {
                    assert(entries@.subrange(0, i as int + 1).drop_last() =~= entries@.subrange(0, i as int));
                    lemma_saturate_add(entries_size(entries@.subrange(0, i as int)), value_size(entries@[i as int].key));
                    lemma_saturate_add(
                        entries_size(entries@.subrange(0, i as int)) + value_size(entries@[i as int].key),
                        value_size(entries@[i as int].val),
                    );
                    lemma_saturate_add(value_size(entries@[i as int].key), 0);
                }
                total = sat_add(sat_add(total, k), x);
                i = i + 1;
            }
            assert(entries@.subrange(0, entries@.len() as int) =~= entries@);
            sat_add(total, 4)
        },
        ScVal::Mapping(None) => 4,
        ScVal::Address(_) => 32,
        ScVal::LedgerKeyContractInstance => 32,
        ScVal::LedgerKeyNonce(_) => 32,
        ScVal::ContractInstance(_) => 64,
    }
}

/// Mathematical form of an address.
pub enum AddressView {
    Account(Seq<u8>),
    Contract(Seq<u8>),
}

/// Mathematical form of a contract executable.
pub enum ExecutableView {
    Wasm(Seq<u8>),
    StellarAsset,
}

/// Mathematical form of a value: the same tree with sequences in place of
/// vectors.
pub enum Val {
    Bool(bool),
    Void,
    Error(ScErrorValue),
    U32(u32),
    I32(i32),
    U64(u64),
    I64(i64),
    Timepoint(u64),
    Duration(u64),
    U128(u64, u64),
    I128(i64, u64),
    U256(u64, u64, u64, u64),
    I256(i64, u64, u64, u64),
    Bytes(Seq<u8>),
    String(Seq<u8>),
    Symbol(Seq<u8>),
    Vec(Option<Seq<Val>>),
    Mapping(Option<Seq<(Val, Val)>>),
    Address(AddressView),
    ContractInstance(ExecutableView, Option<Seq<(Val, Val)>>),
    LedgerKeyContractInstance,
    LedgerKeyNonce(i64),
}

pub open spec fn address_view(a: ScAddress) -> AddressView {
    match a {
        ScAddress::Account(k) => AddressView::Account(k@),
        ScAddress::Contract(h) => AddressView::Contract(h@),
    }
}

pub open spec fn executable_view(e: ContractExecutable) -> ExecutableView {
    match e {
        ContractExecutable::Wasm(h) => ExecutableView::Wasm(h@),
        ContractExecutable::StellarAsset => ExecutableView::StellarAsset,
    }
}

/// The view of a value.
pub open spec fn val_of(v: ScVal) -> Val
    decreases v,
{
    match v {
        ScVal::Bool(b) => Val::Bool(b),
        ScVal::Void => Val::Void,
        ScVal::Error(e) => Val::Error(e),
        ScVal::U32(x) => Val::U32(x),
        ScVal::I32(x) => Val::I32(x),
        ScVal::U64(x) => Val::U64(x),
        ScVal::I64(x) => Val::I64(x),
        ScVal::Timepoint(x) => Val::Timepoint(x),
        ScVal::Duration(x) => Val::Duration(x),
        ScVal::U128 { hi, lo } => Val::U128(hi, lo),
        ScVal::I128 { high, low } => Val::I128(high, low),
        ScVal::U256 { hi_hi, hi_lo, lo_hi, lo_lo } => Val::U256(hi_hi, hi_lo, lo_hi, lo_lo),
        ScVal::I256 { top, upper, lower, bottom } => Val::I256(top, upper, lower, bottom),
        ScVal::Bytes(b) => Val::Bytes(b@),
        ScVal::String(b) => Val::String(b@),
        ScVal::Symbol(b) => Val::Symbol(b@),
        ScVal::Vec(Some(items)) => Val::Vec(Some(vals_of(items@))),
        ScVal::Vec(None) => Val::Vec(None),
        ScVal::Mapping(Some(entries)) => Val::Mapping(Some(entries_of(entries@))),
        ScVal::Mapping(None) => Val::Mapping(None),
        ScVal::Address(a) => Val::Address(address_view(a)),
        ScVal::ContractInstance(ci) => Val::ContractInstance(
            executable_view(ci.executable),
            match ci.storage {
                Some(entries) => Some(entries_of(entries@)),
                None => None,
            },
        ),
        ScVal::LedgerKeyContractInstance => Val::LedgerKeyContractInstance,
        ScVal::LedgerKeyNonce(n) => Val::LedgerKeyNonce(n),
    }
}

/// The views of a list of values.
pub open spec fn vals_of(s: Seq<ScVal>) -> Seq<Val>
    decreases s,
{
    if s.len() == 0 {
        Seq::empty()
    } else {
        vals_of(s.drop_last()).push(val_of(s.last()))
    }
}

/// The views of a list of map entries, as key-value pairs.
pub open spec fn entries_of(s: Seq<ScMapEntry>) -> Seq<(Val, Val)>
    decreases s,
{
    if s.len() == 0 {
        Seq::empty()
    } else {
        entries_of(s.drop_last()).push((val_of(s.last().key), val_of(s.last().val)))
    }
}

impl View for ScVal {
    type V = Val;

    open spec fn view(&self) -> Val {
        val_of(*self)
    }
}

} // verus!
