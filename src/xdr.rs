use vstd::prelude::*;

use vstd::arithmetic::div_mod::lemma_fundamental_div_mod_converse;

use crate::value::{
    address_view, entries_of, executable_view, val_of, vals_of, AddressView, ContractExecutable,
    ExecutableView, ScAddress, ScMapEntry, ScVal, Val,
};

verus! {

broadcast use vstd::std_specs::vec::axiom_vec_index_decreases, vstd::seq::axiom_seq_index_decreases;

// ── primitive encodings ─────────────────────────────────────────────────────

/// Four bytes, most significant first.
pub open spec fn u32_be(x: u32) -> Seq<u8> {
    seq![(x / 0x1000000) as u8, ((x / 0x10000) % 256) as u8, ((x / 0x100) % 256) as u8, (x % 256) as u8]
}

/// Eight bytes, most significant first.
pub open spec fn u64_be(x: u64) -> Seq<u8> {
    u32_be((x / 0x1_0000_0000) as u32) + u32_be((x % 0x1_0000_0000) as u32)
}

/// Two's complement of a signed 32-bit integer.
pub open spec fn i32_bits(x: i32) -> u32 {
    if x < 0 { (x + 0x1_0000_0000) as u32 } else { x as u32 }
}

/// Two's complement of a signed 64-bit integer.
pub open spec fn i64_bits(x: i64) -> u64 {
    if x < 0 { (x + 0x1_0000_0000_0000_0000) as u64 } else { x as u64 }
}

pub open spec fn i64_be(x: i64) -> Seq<u8> {
    u64_be(i64_bits(x))
}

/// Zero bytes up to the next multiple of four.
pub open spec fn pad(n: nat) -> Seq<u8> {
    Seq::new(((4 - n % 4) % 4) as nat, |i: int| 0u8)
}

/// Variable-length opaque data or string: length, bytes, padding.
pub open spec fn var_opaque(b: Seq<u8>) -> Seq<u8> {
    u32_be(b.len() as u32) + b + pad(b.len())
}

pub open spec fn address_xdr(a: AddressView) -> Seq<u8> {
    match a {
        AddressView::Account(k) => u32_be(0) + u32_be(0) + k,
        AddressView::Contract(h) => u32_be(1) + h,
    }
}

pub open spec fn executable_xdr(e: ExecutableView) -> Seq<u8> {
    match e {
        ExecutableView::Wasm(h) => u32_be(0) + h,
        ExecutableView::StellarAsset => u32_be(1),
    }
}

// ── values ──────────────────────────────────────────────────────────────────

/// The canonical binary encoding of a value.
pub open spec fn val_xdr(v: Val) -> Seq<u8>
    decreases v,
{
    match v {
        Val::Bool(b) => u32_be(0) + u32_be(if b { 1 } else { 0 }),
        Val::Void => u32_be(1),
        Val::Error(e) => u32_be(2) + u32_be(e.kind) + u32_be(e.code),
        Val::U32(x) => u32_be(3) + u32_be(x),
        Val::I32(x) => u32_be(4) + u32_be(i32_bits(x)),
        Val::U64(x) => u32_be(5) + u64_be(x),
        Val::I64(x) => u32_be(6) + i64_be(x),
        Val::Timepoint(x) => u32_be(7) + u64_be(x),
        Val::Duration(x) => u32_be(8) + u64_be(x),
        Val::U128(hi, lo) => u32_be(9) + u64_be(hi) + u64_be(lo),
        Val::I128(hi, lo) => u32_be(10) + i64_be(hi) + u64_be(lo),
        Val::U256(a, b, c, d) => u32_be(11) + u64_be(a) + u64_be(b) + u64_be(c) + u64_be(d),
        Val::I256(a, b, c, d) => u32_be(12) + i64_be(a) + u64_be(b) + u64_be(c) + u64_be(d),
        Val::Bytes(b) => u32_be(13) + var_opaque(b),
        Val::String(b) => u32_be(14) + var_opaque(b),
        Val::Symbol(b) => u32_be(15) + var_opaque(b),
        Val::Vec(None) => u32_be(16) + u32_be(0),
        Val::Vec(Some(s)) => u32_be(16) + u32_be(1) + u32_be(s.len() as u32) + vals_xdr(s),
        Val::Mapping(None) => u32_be(17) + u32_be(0),
        Val::Mapping(Some(es)) => u32_be(17) + u32_be(1) + u32_be(es.len() as u32) + pairs_xdr(es),
        Val::Address(a) => u32_be(18) + address_xdr(a),
        Val::ContractInstance(e, None) => u32_be(19) + executable_xdr(e) + u32_be(0),
        Val::ContractInstance(e, Some(es)) => u32_be(19) + executable_xdr(e) + u32_be(1) + u32_be(es.len() as u32) + pairs_xdr(es),
        Val::LedgerKeyContractInstance => u32_be(20),
        Val::LedgerKeyNonce(n) => u32_be(21) + i64_be(n),
    }
}

/// The encodings of a list of values, one after another.
pub open spec fn vals_xdr(s: Seq<Val>) -> Seq<u8>
    decreases s,
{
    if s.len() == 0 {
        Seq::empty()
    } else {
        vals_xdr(s.drop_last()) + val_xdr(s.last())
    }
}

/// The encodings of a list of map entries, key before value.
pub open spec fn pairs_xdr(s: Seq<(Val, Val)>) -> Seq<u8>
    decreases s,
{
    if s.len() == 0 {
        Seq::empty()
    } else {
        pairs_xdr(s.drop_last()) + val_xdr(s.last().0) + val_xdr(s.last().1)
    }
}

/// Every byte string and list in a value has a length that fits the
/// 32-bit length prefix, and every hash and key is 32 bytes long.
pub open spec fn val_encodable(v: ScVal) -> bool
    decreases v,
{
    match v {
        ScVal::Bytes(b) => b@.len() < 0x1_0000_0000,
        ScVal::String(b) => b@.len() < 0x1_0000_0000,
        ScVal::Symbol(b) => b@.len() < 0x1_0000_0000,
        ScVal::Vec(Some(items)) => items@.len() < 0x1_0000_0000 && all_encodable(items@),
        ScVal::Mapping(Some(es)) => es@.len() < 0x1_0000_0000 && entries_encodable(es@),
        ScVal::Address(a) => address_encodable(a),
        ScVal::ContractInstance(ci) => executable_encodable(ci.executable) && match ci.storage {
            Some(es) => es@.len() < 0x1_0000_0000 && entries_encodable(es@),
            None => true,
        },
        _ => true,
    }
}

pub open spec fn all_encodable(s: Seq<ScVal>) -> bool
    decreases s,
{
    s.len() == 0 || (all_encodable(s.drop_last()) && val_encodable(s.last()))
}

pub open spec fn entries_encodable(s: Seq<ScMapEntry>) -> bool
    decreases s,
{
    s.len() == 0 || (entries_encodable(s.drop_last()) && val_encodable(s.last().key) && val_encodable(s.last().val))
}

proof fn lemma_all_encodable(s: Seq<ScVal>)
    requires
        all_encodable(s),
    ensures
        forall|i: int| 0 <= i < s.len() ==> #[trigger] val_encodable(s[i]),
    decreases s.len(),
{
    if s.len() > 0 {
        lemma_all_encodable(s.drop_last());
        assert forall|i: int| 0 <= i < s.len() implies #[trigger] val_encodable(s[i]) by {
            if i < s.len() - 1 {
                assert(s.drop_last()[i] == s[i]);
            }
        }
    }
}

proof fn lemma_entries_encodable(s: Seq<ScMapEntry>)
    requires
        entries_encodable(s),
    ensures
        forall|i: int| 0 <= i < s.len() ==> val_encodable(#[trigger] s[i].key) && val_encodable(s[i].val),
    decreases s.len(),
{
    if s.len() > 0 {
        lemma_entries_encodable(s.drop_last());
        assert forall|i: int| 0 <= i < s.len() implies val_encodable(#[trigger] s[i].key) && val_encodable(s[i].val) by {
            if i < s.len() - 1 {
                assert(s.drop_last()[i] == s[i]);
            }
        }
    }
}

pub open spec fn address_encodable(a: ScAddress) -> bool {
    match a {
        ScAddress::Account(k) => k@.len() == 32,
        ScAddress::Contract(h) => h@.len() == 32,
    }
}

pub open spec fn executable_encodable(e: ContractExecutable) -> bool {
    match e {
        ContractExecutable::Wasm(h) => h@.len() == 32,
        ContractExecutable::StellarAsset => true,
    }
}

// ── writers ─────────────────────────────────────────────────────────────────

pub fn put_u32(out: &mut Vec<u8>, x: u32)
    ensures
        final(out)@ == old(out)@ + u32_be(x),
{
    out.push((x / 0x1000000) as u8);
    out.push(((x / 0x10000) % 256) as u8);
    out.push(((x / 0x100) % 256) as u8);
    out.push((x % 256) as u8);
    assert(out@ =~= old(out)@ + u32_be(x));
}

pub fn put_u64(out: &mut Vec<u8>, x: u64)
    ensures
        final(out)@ == old(out)@ + u64_be(x),
{
    put_u32(out, (x / 0x1_0000_0000) as u32);
    put_u32(out, (x % 0x1_0000_0000) as u32);
    assert(out@ =~= old(out)@ + u64_be(x));
}

pub fn put_i32(out: &mut Vec<u8>, x: i32)
    ensures
        final(out)@ == old(out)@ + u32_be(i32_bits(x)),
{
    let bits: u32 = if x < 0 { (x as i64 + 0x1_0000_0000) as u32 } else { x as u32 };
    put_u32(out, bits);
}

pub fn put_i64(out: &mut Vec<u8>, x: i64)
    ensures
        final(out)@ == old(out)@ + i64_be(x),
{
    let bits: u64 = if x < 0 { (x as i128 + 0x1_0000_0000_0000_0000) as u64 } else { x as u64 };
    put_u64(out, bits);
}

/// Appends bytes as they are (fixed-length opaque data).
pub fn put_fixed(out: &mut Vec<u8>, b: &Vec<u8>)
    ensures
        final(out)@ == old(out)@ + b@,
{
    let mut i: usize = 0;
    while i < b.len()
        invariant
            i <= b@.len(),
            out@ == old(out)@ + b@.subrange(0, i as int),
        decreases b@.len() - i,
    {
        out.push(b[i]);
        i = i + 1;
        assert(out@ =~= old(out)@ + b@.subrange(0, i as int));
    }
    assert(b@.subrange(0, b@.len() as int) =~= b@);
}

pub fn put_var_opaque(out: &mut Vec<u8>, b: &Vec<u8>)
    requires
        b@.len() < 0x1_0000_0000,
    ensures
        final(out)@ == old(out)@ + var_opaque(b@),
{
    put_u32(out, b.len() as u32);
    put_fixed(out, b);
    let n: usize = (4 - b.len() % 4) % 4;
    let mut k: usize = 0;
    let ghost base = out@;
    while k < n
        invariant
            k <= n,
            n == (4 - b@.len() % 4) % 4,
            out@ == base + Seq::new(k as nat, |i: int| 0u8),
        decreases n - k,
    {
        out.push(0u8);
        k = k + 1;
        assert(out@ =~= base + Seq::new(k as nat, |i: int| 0u8));
    }
    assert(out@ =~= old(out)@ + var_opaque(b@));
}

fn put_address(out: &mut Vec<u8>, a: &ScAddress)
    requires
        address_encodable(*a),
    ensures
        final(out)@ == old(out)@ + address_xdr(address_view(*a)),
{
    match a {
        ScAddress::Account(k) => {
            put_u32(out, 0);
            put_u32(out, 0);
            put_fixed(out, k);
        },
        ScAddress::Contract(h) => {
            put_u32(out, 1);
            put_fixed(out, h);
        },
    }
    assert(out@ =~= old(out)@ + address_xdr(address_view(*a)));
}


fn put_items(out: &mut Vec<u8>, items: &Vec<ScVal>, Ghost(parent): Ghost<ScVal>)
    requires
        items@.len() < 0x1_0000_0000,
        forall|i: int| 0 <= i < items@.len() ==> #[trigger] val_encodable(items@[i]),
        forall|i: int| 0 <= i < items@.len() ==> decreases_to!(parent => #[trigger] items@[i]),
    ensures
        final(out)@ == old(out)@ + u32_be(items@.len() as u32) + vals_xdr(vals_of(items@)),
    decreases parent, 0nat,
{
    put_u32(out, items.len() as u32);
    let ghost base = out@;
    let mut i: usize = 0;
    while i < items.len()
        invariant
            i <= items@.len(),
            forall|k: int| 0 <= k < items@.len() ==> #[trigger] val_encodable(items@[k]),
            forall|k: int| 0 <= k < items@.len() ==> decreases_to!(parent => #[trigger] items@[k]),
            out@ == base + vals_xdr(vals_of(items@.subrange(0, i as int))),
        decreases items@.len() - i,
    {
        proof {
            assert(decreases_to!(parent => items@[i as int]));
        }
        let ghost prev = vals_of(items@.subrange(0, i as int));
        put_val(out, &items[i]);
        proof {
            let s = items@.subrange(0, i as int + 1);
            assert(s.drop_last() =~= items@.subrange(0, i as int));
            assert(vals_of(s) == prev.push(val_of(items@[i as int])));
            assert(prev.push(val_of(items@[i as int])).drop_last() =~= prev);
        }
        i = i + 1;
        assert(out@ =~= base + vals_xdr(vals_of(items@.subrange(0, i as int))));
    }
    assert(items@.subrange(0, items@.len() as int) =~= items@);
}

fn put_entries(out: &mut Vec<u8>, es: &Vec<ScMapEntry>, Ghost(parent): Ghost<ScVal>)
    requires
        es@.len() < 0x1_0000_0000,
        forall|i: int| 0 <= i < es@.len() ==> val_encodable(#[trigger] es@[i].key) && val_encodable(es@[i].val),
        forall|i: int| 0 <= i < es@.len() ==> decreases_to!(parent => #[trigger] es@[i]),
    ensures
        final(out)@ == old(out)@ + u32_be(es@.len() as u32) + pairs_xdr(entries_of(es@)),
    decreases parent, 0nat,
{
    put_u32(out, es.len() as u32);
    let ghost base = out@;
    let mut i: usize = 0;
    while i < es.len()
        invariant
            i <= es@.len(),
            forall|k: int| 0 <= k < es@.len() ==> val_encodable(#[trigger] es@[k].key) && val_encodable(es@[k].val),
            forall|k: int| 0 <= k < es@.len() ==> decreases_to!(parent => #[trigger] es@[k]),
            out@ == base + pairs_xdr(entries_of(es@.subrange(0, i as int))),
        decreases es@.len() - i,
    {
        proof {
            assert(decreases_to!(parent => es@[i as int]));
            assert(decreases_to!(es@[i as int] => es@[i as int].key));
            assert(decreases_to!(es@[i as int] => es@[i as int].val));
            assert(es@.subrange(0, i as int + 1).drop_last() =~= es@.subrange(0, i as int));
        }
        let ghost prev = entries_of(es@.subrange(0, i as int));
        put_val(out, &es[i].key);
        put_val(out, &es[i].val);
        proof {
            let s = es@.subrange(0, i as int + 1);
            let e = (val_of(es@[i as int].key), val_of(es@[i as int].val));
            assert(entries_of(s) == prev.push(e));
            assert(prev.push(e).drop_last() =~= prev);
        }
        i = i + 1;
        assert(out@ =~= base + pairs_xdr(entries_of(es@.subrange(0, i as int))));
    }
    assert(es@.subrange(0, es@.len() as int) =~= es@);
}

/// Appends the canonical encoding of a value.
#[verifier::spinoff_prover]
#[verifier::rlimit(60)]
pub fn put_val(out: &mut Vec<u8>, v: &ScVal)
    requires
        val_encodable(*v),
    ensures
        final(out)@ == old(out)@ + val_xdr(val_of(*v)),
    decreases *v, 1nat,
{
    match v {
        ScVal::Bool(b) => {
            put_u32(out, 0);
            put_u32(out, if *b { 1 } else { 0 });
        },
        ScVal::Void => put_u32(out, 1),
        ScVal::Error(e) => {
            put_u32(out, 2);
            put_u32(out, e.kind);
            put_u32(out, e.code);
        },
        ScVal::U32(x) => {
            put_u32(out, 3);
            put_u32(out, *x);
        },
        ScVal::I32(x) => {
            put_u32(out, 4);
            put_i32(out, *x);
        },
        ScVal::U64(x) => {
            put_u32(out, 5);
            put_u64(out, *x);
        },
        ScVal::I64(x) => {
            put_u32(out, 6);
            put_i64(out, *x);
        },
        ScVal::Timepoint(x) => {
            put_u32(out, 7);
            put_u64(out, *x);
        },
        ScVal::Duration(x) => {
            put_u32(out, 8);
            put_u64(out, *x);
        },
        ScVal::U128 { hi, lo } => {
            put_u32(out, 9);
            put_u64(out, *hi);
            put_u64(out, *lo);
        },
        ScVal::I128 { high, low } => {
            put_u32(out, 10);
            put_i64(out, *high);
            put_u64(out, *low);
        },
        ScVal::U256 { hi_hi, hi_lo, lo_hi, lo_lo } => {
            put_u32(out, 11);
            put_u64(out, *hi_hi);
            put_u64(out, *hi_lo);
            put_u64(out, *lo_hi);
            put_u64(out, *lo_lo);
        },
        ScVal::I256 { top, upper, lower, bottom } => {
            put_u32(out, 12);
            put_i64(out, *top);
            put_u64(out, *upper);
            put_u64(out, *lower);
            put_u64(out, *bottom);
        },
        ScVal::Bytes(b) => {
            put_u32(out, 13);
            put_var_opaque(out, b);
        },
        ScVal::String(b) => {
            put_u32(out, 14);
            put_var_opaque(out, b);
        },
        ScVal::Symbol(b) => {
            put_u32(out, 15);
            put_var_opaque(out, b);
        },
        ScVal::Vec(None) => {
            put_u32(out, 16);
            put_u32(out, 0);
        },
        ScVal::Vec(Some(items)) => {
            put_u32(out, 16);
            put_u32(out, 1);
            proof {
                assert forall|i: int| 0 <= i < items@.len() implies decreases_to!(*v => #[trigger] items@[i]) by {
                    assert(decreases_to!(*v => (*v)->Vec_0));
                    assert(decreases_to!((*v)->Vec_0 => (*v)->Vec_0->0));
                    assert(decreases_to!(*items => items[i]));
                }
                lemma_vals_of_len(items@);
                lemma_all_encodable(items@);
            }
            put_items(out, items, Ghost(*v));
        },
        ScVal::Mapping(None) => {
            put_u32(out, 17);
            put_u32(out, 0);
        },
        ScVal::Mapping(Some(es)) => {
            put_u32(out, 17);
            put_u32(out, 1);
            proof {
                assert forall|i: int| 0 <= i < es@.len() implies decreases_to!(*v => #[trigger] es@[i]) by {
                    assert(decreases_to!(*v => (*v)->Mapping_0));
                    assert(decreases_to!((*v)->Mapping_0 => (*v)->Mapping_0->0));
                    assert(decreases_to!(*es => es[i]));
                }
                lemma_entries_of_len(es@);
                lemma_entries_encodable(es@);
            }
            put_entries(out, es, Ghost(*v));
        },
        ScVal::Address(a) => {
            put_u32(out, 18);
            put_address(out, a);
        },
        ScVal::ContractInstance(ci) => {
            put_u32(out, 19);
            match &ci.executable {
                ContractExecutable::Wasm(h) => {
                    put_u32(out, 0);
                    put_fixed(out, h);
                },
                ContractExecutable::StellarAsset => put_u32(out, 1),
            }
            match &ci.storage {
                None => put_u32(out, 0),
                Some(es) => {
                    put_u32(out, 1);
                    proof {
                        assert forall|i: int| 0 <= i < es@.len() implies decreases_to!(*v => #[trigger] es@[i]) by {
                            assert(decreases_to!(*v => (*v)->ContractInstance_0));
                            assert(decreases_to!((*v)->ContractInstance_0 => (*v)->ContractInstance_0.storage));
                            assert(decreases_to!((*v)->ContractInstance_0.storage => (*v)->ContractInstance_0.storage->0));
                            assert(decreases_to!(*es => es[i]));
                        }
                        lemma_entries_of_len(es@);
                        lemma_entries_encodable(es@);
                    }
                    put_entries(out, es, Ghost(*v));
                },
            }
        },
        ScVal::LedgerKeyContractInstance => put_u32(out, 20),
        ScVal::LedgerKeyNonce(n) => {
            put_u32(out, 21);
            put_i64(out, *n);
        },
    }
    assert(out@ =~= old(out)@ + val_xdr(val_of(*v)));
}

// ── envelopes ───────────────────────────────────────────────────────────────

/// Thirty-two zero bytes: the source account of a simulation.
pub open spec fn zero_key() -> Seq<u8> {
    Seq::new(32, |i: int| 0u8)
}

/// An unsigned transaction envelope for simulation around one
/// invoke-host-function operation: zero source account, fee 100, sequence
/// number 0, no preconditions, no memo, empty authorisation list, no
/// signatures.
pub open spec fn envelope_xdr(host_function: Seq<u8>) -> Seq<u8> {
    u32_be(0) + zero_key() + u32_be(100) + u64_be(0) + u32_be(0) + u32_be(0)
        + u32_be(1) + u32_be(0) + u32_be(24) + host_function + u32_be(0)
        + u32_be(0) + u32_be(0)
}

/// The host function that invokes `function` of a contract with arguments.
pub open spec fn invoke_contract_xdr(contract: Seq<u8>, function: Seq<u8>, args: Seq<Val>) -> Seq<u8> {
    u32_be(0) + address_xdr(AddressView::Contract(contract)) + var_opaque(function)
        + u32_be(args.len() as u32) + vals_xdr(args)
}

/// The host function that uploads contract bytecode.
pub open spec fn upload_wasm_xdr(code: Seq<u8>) -> Seq<u8> {
    u32_be(2) + var_opaque(code)
}

fn put_envelope_head(out: &mut Vec<u8>)
    requires
        old(out)@.len() == 0,
    ensures
        final(out)@ == u32_be(0) + zero_key() + u32_be(100) + u64_be(0) + u32_be(0) + u32_be(0)
            + u32_be(1) + u32_be(0) + u32_be(24),
{
    put_u32(out, 0);
    let mut i: usize = 0;
    while i < 32
        invariant
            i <= 32,
            out@ == u32_be(0) + Seq::new(i as nat, |k: int| 0u8),
        decreases 32 - i,
    {
        out.push(0u8);
        i = i + 1;
        assert(out@ =~= u32_be(0) + Seq::new(i as nat, |k: int| 0u8));
    }
    put_u32(out, 100);
    put_u64(out, 0);
    put_u32(out, 0);
    put_u32(out, 0);
    put_u32(out, 1);
    put_u32(out, 0);
    put_u32(out, 24);
}

fn put_envelope_tail(out: &mut Vec<u8>)
    ensures
        final(out)@ == old(out)@ + u32_be(0) + u32_be(0) + u32_be(0),
{
    put_u32(out, 0);
    put_u32(out, 0);
    put_u32(out, 0);
}

/// The envelope that invokes `function` of contract `contract` with `args`.
pub fn encode_invoke_envelope(contract: &Vec<u8>, function: &Vec<u8>, args: &Vec<ScVal>) -> (r: Vec<u8>)
    requires
        contract@.len() == 32,
        function@.len() <= 32,
        args@.len() < 0x1_0000_0000,
        all_encodable(args@),
    ensures
        r@ == envelope_xdr(invoke_contract_xdr(contract@, function@, vals_of(args@))),
{
    let mut out: Vec<u8> = Vec::new();
    put_envelope_head(&mut out);
    put_u32(&mut out, 0);
    put_u32(&mut out, 1);
    put_fixed(&mut out, contract);
    put_var_opaque(&mut out, function);
    proof {
        lemma_all_encodable(args@);
        lemma_vals_of_len(args@);
    }
    put_list(&mut out, args);
    put_envelope_tail(&mut out);
    assert(out@ =~= envelope_xdr(invoke_contract_xdr(contract@, function@, vals_of(args@))));
    out
}

/// The envelope that uploads contract bytecode.
pub fn encode_upload_envelope(code: &Vec<u8>) -> (r: Vec<u8>)
    requires
        code@.len() < 0x1_0000_0000,
    ensures
        r@ == envelope_xdr(upload_wasm_xdr(code@)),
{
    let mut out: Vec<u8> = Vec::new();
    put_envelope_head(&mut out);
    put_u32(&mut out, 2);
    put_var_opaque(&mut out, code);
    put_envelope_tail(&mut out);
    assert(out@ =~= envelope_xdr(upload_wasm_xdr(code@)));
    out
}

fn put_list(out: &mut Vec<u8>, items: &Vec<ScVal>)
    requires
        items@.len() < 0x1_0000_0000,
        forall|i: int| 0 <= i < items@.len() ==> #[trigger] val_encodable(items@[i]),
    ensures
        final(out)@ == old(out)@ + u32_be(items@.len() as u32) + vals_xdr(vals_of(items@)),
{
    put_u32(out, items.len() as u32);
    let ghost base = out@;
    let mut i: usize = 0;
    while i < items.len()
        invariant
            i <= items@.len(),
            forall|k: int| 0 <= k < items@.len() ==> #[trigger] val_encodable(items@[k]),
            out@ == base + vals_xdr(vals_of(items@.subrange(0, i as int))),
        decreases items@.len() - i,
    {
        let ghost prev = vals_of(items@.subrange(0, i as int));
        put_val(out, &items[i]);
        proof {
            let s = items@.subrange(0, i as int + 1);
            assert(s.drop_last() =~= items@.subrange(0, i as int));
            assert(vals_of(s) == prev.push(val_of(items@[i as int])));
            assert(prev.push(val_of(items@[i as int])).drop_last() =~= prev);
        }
        i = i + 1;
        assert(out@ =~= base + vals_xdr(vals_of(items@.subrange(0, i as int))));
    }
    assert(items@.subrange(0, items@.len() as int) =~= items@);
}

// ── readers ─────────────────────────────────────────────────────────────────

proof fn lemma_u32_from_bytes(b0: u8, b1: u8, b2: u8, b3: u8)
    ensures
        u32_be((b0 as int * 0x1000000 + b1 as int * 0x10000 + b2 as int * 0x100 + b3 as int) as u32)
            == seq![b0, b1, b2, b3],
{
    let x = b0 as int * 0x1000000 + b1 as int * 0x10000 + b2 as int * 0x100 + b3 as int;
    lemma_fundamental_div_mod_converse(x, 0x1000000, b0 as int, b1 as int * 0x10000 + b2 as int * 0x100 + b3 as int);
    lemma_fundamental_div_mod_converse(x, 0x10000, b0 as int * 0x100 + b1 as int, b2 as int * 0x100 + b3 as int);
    lemma_fundamental_div_mod_converse(b0 as int * 0x100 + b1 as int, 0x100, b0 as int, b1 as int);
    lemma_fundamental_div_mod_converse(x, 0x100, b0 as int * 0x10000 + b1 as int * 0x100 + b2 as int, b3 as int);
    lemma_fundamental_div_mod_converse(b0 as int * 0x10000 + b1 as int * 0x100 + b2 as int, 0x100, b0 as int * 0x100 + b1 as int, b2 as int);
    assert(u32_be(x as u32) =~= seq![b0, b1, b2, b3]);
}

proof fn lemma_u64_from_halves(hi: u32, lo: u32)
    ensures
        u64_be((hi as int * 0x1_0000_0000 + lo as int) as u64) == u32_be(hi) + u32_be(lo),
{
    let x = hi as int * 0x1_0000_0000 + lo as int;
    lemma_fundamental_div_mod_converse(x, 0x1_0000_0000, hi as int, lo as int);
}

pub proof fn lemma_subrange_concat(s: Seq<u8>, a: int, b: int, c: int)
    requires
        0 <= a <= b <= c <= s.len(),
    ensures
        s.subrange(a, c) == s.subrange(a, b) + s.subrange(b, c),
{
    assert(s.subrange(a, c) =~= s.subrange(a, b) + s.subrange(b, c));
}

/// The big-endian 32-bit integer at `pos`, if four bytes are there.
pub open spec fn u32_at(b: Seq<u8>, pos: int) -> Option<u32> {
    if 0 <= pos && pos + 4 <= b.len() {
        Some((b[pos] as int * 0x1000000 + b[pos + 1] as int * 0x10000 + b[pos + 2] as int * 0x100 + b[pos + 3] as int) as u32)
    } else {
        None
    }
}

/// Reads a big-endian 32-bit integer at `pos`.
pub fn get_u32(b: &Vec<u8>, pos: usize) -> (r: Option<(u32, usize)>)
    ensures
        match r {
            Some((x, p)) => p == pos + 4 && p <= b@.len() && b@.subrange(pos as int, p as int) == u32_be(x)
                && u32_at(b@, pos as int) == Some(x),
            None => pos + 4 > b@.len() && u32_at(b@, pos as int) is None,
        },
{
    if b.len() < 4 || pos > b.len() - 4 {
        return None;
    }
    let b0 = b[pos];
    let b1 = b[pos + 1];
    let b2 = b[pos + 2];
    let b3 = b[pos + 3];
    let x: u32 = (b0 as u32) * 0x1000000 + (b1 as u32) * 0x10000 + (b2 as u32) * 0x100 + (b3 as u32);
    proof {
        lemma_u32_from_bytes(b0, b1, b2, b3);
        assert(b@.subrange(pos as int, pos + 4) =~= u32_be(x));
    }
    Some((x, pos + 4))
}

pub fn get_u64(b: &Vec<u8>, pos: usize) -> (r: Option<(u64, usize)>)
    ensures
        match r {
            Some((x, p)) => p == pos + 8 && p <= b@.len() && b@.subrange(pos as int, p as int) == u64_be(x),
            None => pos + 8 > b@.len(),
        },
{
    let (hi, p1) = get_u32(b, pos)?;
    let (lo, p2) = get_u32(b, p1)?;
    let x: u64 = (hi as u64) * 0x1_0000_0000 + (lo as u64);
    proof {
        lemma_u64_from_halves(hi, lo);
        lemma_subrange_concat(b@, pos as int, p1 as int, p2 as int);
    }
    Some((x, p2))
}

pub fn get_i64(b: &Vec<u8>, pos: usize) -> (r: Option<(i64, usize)>)
    ensures
        match r {
            Some((x, p)) => p == pos + 8 && p <= b@.len() && b@.subrange(pos as int, p as int) == i64_be(x),
            None => pos + 8 > b@.len(),
        },
{
    let (bits, p) = get_u64(b, pos)?;
    let x: i64 = if bits >= 0x8000_0000_0000_0000 {
        (bits as i128 - 0x1_0000_0000_0000_0000) as i64
    } else {
        bits as i64
    };
    Some((x, p))
}

/// Reads `n` bytes as they are.
pub fn get_fixed(b: &Vec<u8>, pos: usize, n: usize) -> (r: Option<(Vec<u8>, usize)>)
    ensures
        match r {
            Some((v, p)) => p == pos + n && p <= b@.len() && v@ == b@.subrange(pos as int, p as int) && v@.len() == n,
            None => pos + n > b@.len(),
        },
{
    if pos > b.len() || n > b.len() - pos {
        return None;
    }
    let mut v: Vec<u8> = Vec::new();
    let mut i: usize = 0;
    while i < n
        invariant
            i <= n,
            pos + n <= b@.len() <= usize::MAX,
            v@ == b@.subrange(pos as int, pos + i),
        decreases n - i,
    {
        v.push(b[pos + i]);
        i = i + 1;
        assert(v@ =~= b@.subrange(pos as int, pos + i));
    }
    Some((v, pos + n))
}

/// Where variable-length data of at most `max` bytes starting at `pos`
/// ends, with its length: a length word, the bytes, and zero padding.
pub open spec fn var_opaque_at(b: Seq<u8>, pos: int, max: u32) -> Option<(nat, int)> {
    match u32_at(b, pos) {
        None => None,
        Some(len) => {
            let data_end = pos + 4 + len;
            let end = data_end + (4 - len % 4) % 4;
            if len > max || end > b.len() {
                None
            } else if exists|k: int| data_end <= k < end && #[trigger] b[k] != 0 {
                None
            } else {
                Some((len as nat, end))
            }
        },
    }
}

/// Reads variable-length data of at most `max` bytes, with its length and
/// zero padding.
pub fn get_var_opaque(b: &Vec<u8>, pos: usize, max: u32) -> (r: Option<(Vec<u8>, usize)>)
    ensures
        match r {
            Some((v, p)) => pos < p <= b@.len() && b@.subrange(pos as int, p as int) == var_opaque(v@) && v@.len() <= max
                && var_opaque_at(b@, pos as int, max) == Some((v@.len(), p as int)),
            None => var_opaque_at(b@, pos as int, max) is None,
        },
{
    let (len, p1) = get_u32(b, pos)?;
    if len > max {
        return None;
    }
    let (v, p2) = get_fixed(b, p1, len as usize)?;
    let n: usize = (4 - (len as usize) % 4) % 4;
    if p2 > b.len() || n > b.len() - p2 {
        return None;
    }
    let mut k: usize = 0;
    while k < n
        invariant
            k <= n,
            p2 + n <= b@.len() <= usize::MAX,
            p2 == pos + 4 + len,
            n == (4 - len % 4) % 4,
            len <= max,
            u32_at(b@, pos as int) == Some(len),
            b@.subrange(p2 as int, p2 + k) == Seq::new(k as nat, |i: int| 0u8),
        decreases n - k,
    {
        if b[p2 + k] != 0 {
            assert(exists|j: int| p2 <= j < p2 + n && #[trigger] b@[j] != 0) by {
                assert(b@[p2 + k] != 0);
            }
            return None;
        }
        k = k + 1;
        assert(b@.subrange(p2 as int, p2 + k) =~= Seq::new(k as nat, |i: int| 0u8));
    }
    proof {
        lemma_subrange_concat(b@, pos as int, p1 as int, p2 as int);
        lemma_subrange_concat(b@, pos as int, p2 as int, p2 + n);
        assert(v@.len() == len);
        assert(b@.subrange(pos as int, p2 + n) =~= var_opaque(v@));
        assert forall|j: int| p2 <= j < p2 + n implies #[trigger] b@[j] == 0 by {
            assert(b@.subrange(p2 as int, p2 + n)[j - p2] == 0u8);
        }
    }
    Some((v, p2 + n))
}

/// Where an account identifier (key type 0 and a 32-byte key) starting at
/// `pos` ends.
pub open spec fn account_at(b: Seq<u8>, pos: int) -> Option<int> {
    if u32_at(b, pos) == Some(0u32) && pos + 36 <= b.len() { Some(pos + 36) } else { None }
}

/// Where an address (an account, or a 32-byte contract hash) starting at
/// `pos` ends.
pub open spec fn address_at(b: Seq<u8>, pos: int) -> Option<int> {
    match u32_at(b, pos) {
        Some(t) => if t == 0 {
            account_at(b, pos + 4)
        } else if t == 1 && pos + 36 <= b.len() {
            Some(pos + 36)
        } else {
            None
        },
        None => None,
    }
}

pub fn get_account_id(b: &Vec<u8>, pos: usize) -> (r: Option<(Vec<u8>, usize)>)
    ensures
        match r {
            Some((k, p)) => pos < p <= b@.len() && b@.subrange(pos as int, p as int) == u32_be(0) + k@ && k@.len() == 32
                && account_at(b@, pos as int) == Some(p as int),
            None => account_at(b@, pos as int) is None,
        },
{
    let (t, p1) = get_u32(b, pos)?;
    if t != 0 {
        return None;
    }
    let (k, p2) = get_fixed(b, p1, 32)?;
    proof {
        lemma_subrange_concat(b@, pos as int, p1 as int, p2 as int);
    }
    Some((k, p2))
}

pub fn get_address(b: &Vec<u8>, pos: usize) -> (r: Option<(ScAddress, usize)>)
    ensures
        match r {
            Some((a, p)) => pos < p <= b@.len() && b@.subrange(pos as int, p as int) == address_xdr(address_view(a))
                && address_encodable(a) && address_at(b@, pos as int) == Some(p as int),
            None => address_at(b@, pos as int) is None,
        },
{
    let (t, p1) = get_u32(b, pos)?;
    if t == 0 {
        let (k, p2) = get_account_id(b, p1)?;
        proof {
            lemma_subrange_concat(b@, pos as int, p1 as int, p2 as int);
            assert(b@.subrange(pos as int, p2 as int) =~= address_xdr(address_view(ScAddress::Account(k))));
        }
        Some((ScAddress::Account(k), p2))
    } else if t == 1 {
        let (h, p2) = get_fixed(b, p1, 32)?;
        proof {
            lemma_subrange_concat(b@, pos as int, p1 as int, p2 as int);
        }
        Some((ScAddress::Contract(h), p2))
    } else {
        None
    }
}

// ── where an encoded value ends ─────────────────────────────────────────────

/// A size added in front of a reading.
pub open spec fn add_size(a: nat, r: Option<(nat, int)>) -> Option<(nat, int)> {
    match r {
        Some((s, e)) => Some(((a + s) as nat, e)),
        None => None,
    }
}

/// The fixed-size values of a tag: their estimated size and end, or `None`
/// for a malformed body.
pub open spec fn scalar_at(b: Seq<u8>, t: u32, p1: int) -> Option<(nat, int)> {
    if t == 0 {
        match u32_at(b, p1) {
            Some(x) => if x > 1 { None } else { Some((1nat, p1 + 4)) },
            None => None,
        }
    } else if t == 1 {
        Some((0nat, p1))
    } else if t == 2 {
        match u32_at(b, p1) {
            Some(k) => match u32_at(b, p1 + 4) {
                Some(c) => if k > 9 || (k != 0 && c > 9) { None } else { Some((8nat, p1 + 8)) },
                None => None,
            },
            None => None,
        }
    } else if t == 3 || t == 4 {
        if p1 + 4 <= b.len() { Some((4nat, p1 + 4)) } else { None }
    } else if 5 <= t <= 8 {
        if p1 + 8 <= b.len() { Some((8nat, p1 + 8)) } else { None }
    } else if t == 9 || t == 10 {
        if p1 + 16 <= b.len() { Some((16nat, p1 + 16)) } else { None }
    } else if t == 20 {
        Some((32nat, p1))
    } else if t == 21 {
        if p1 + 8 <= b.len() { Some((32nat, p1 + 8)) } else { None }
    } else {
        None
    }
}

/// The estimated size and end of the value encoded at `pos`, nesting at
/// most `depth` levels; `None` where no such value is there.
pub open spec fn val_at(b: Seq<u8>, pos: int, depth: u32) -> Option<(nat, int)>
    decreases depth, 0nat, 0nat,
{
    if depth == 0 {
        None
    } else {
        match u32_at(b, pos) {
            None => None,
            Some(t) => {
                let p1 = pos + 4;
                if t <= 10 || t == 20 || t == 21 {
                    scalar_at(b, t, p1)
                } else if t == 11 || t == 12 {
                    if p1 + 32 <= b.len() { Some((32nat, p1 + 32)) } else { None }
                } else if t == 19 {
                    instance_at(b, p1, (depth - 1) as u32)
                } else if t == 13 || t == 14 {
                    var_opaque_at(b, p1, 0xffff_ffff)
                } else if t == 15 {
                    var_opaque_at(b, p1, 32)
                } else if t == 16 || t == 17 {
                    match u32_at(b, p1) {
                        Some(f) => if f == 0 {
                            Some((4nat, p1 + 4))
                        } else if f == 1 {
                            match u32_at(b, p1 + 4) {
                                Some(n) => if t == 16 {
                                    add_size(4, list_at(b, p1 + 8, n as nat, (depth - 1) as u32))
                                } else {
                                    add_size(4, pairs_at(b, p1 + 8, n as nat, (depth - 1) as u32))
                                },
                                None => None,
                            }
                        } else {
                            None
                        },
                        None => None,
                    }
                } else if t == 18 {
                    match address_at(b, p1) {
                        Some(e) => Some((32nat, e)),
                        None => None,
                    }
                } else {
                    None
                }
            },
        }
    }
}

/// `n` values one after another from `pos`: their total size and end.
pub open spec fn list_at(b: Seq<u8>, pos: int, n: nat, depth: u32) -> Option<(nat, int)>
    decreases depth, 1nat, n,
{
    if n == 0 {
        Some((0nat, pos))
    } else {
        match val_at(b, pos, depth) {
            Some((s, p)) => add_size(s, list_at(b, p, (n - 1) as nat, depth)),
            None => None,
        }
    }
}

/// `n` key-value pairs one after another from `pos`: their total size and
/// end.
pub open spec fn pairs_at(b: Seq<u8>, pos: int, n: nat, depth: u32) -> Option<(nat, int)>
    decreases depth, 1nat, n,
{
    if n == 0 {
        Some((0nat, pos))
    } else {
        match val_at(b, pos, depth) {
            Some((s1, p1)) => match val_at(b, p1, depth) {
                Some((s2, p2)) => add_size((s1 + s2) as nat, pairs_at(b, p2, (n - 1) as nat, depth)),
                None => None,
            },
            None => None,
        }
    }
}

/// A contract instance body at `p1`: its size (always 64) and end.
pub open spec fn instance_at(b: Seq<u8>, p1: int, depth: u32) -> Option<(nat, int)>
    decreases depth, 2nat, 0nat,
{
    match u32_at(b, p1) {
        None => None,
        Some(et) => {
            let p3 = if et == 0 { p1 + 36 } else { p1 + 4 };
            if et > 1 || p3 > b.len() {
                None
            } else {
                match u32_at(b, p3) {
                    None => None,
                    Some(f) => if f == 0 {
                        Some((64nat, p3 + 4))
                    } else if f == 1 {
                        match u32_at(b, p3 + 4) {
                            Some(n) => match pairs_at(b, p3 + 8, n as nat, depth) {
                                Some((_, e)) => Some((64nat, e)),
                                None => None,
                            },
                            None => None,
                        }
                    } else {
                        None
                    },
                }
            }
        },
    }
}

fn get_entries(b: &Vec<u8>, pos: usize, depth: u32) -> (r: Option<(Vec<ScMapEntry>, usize)>)
    ensures
        match r {
            Some((es, p)) => pos < p <= b@.len()
                && b@.subrange(pos as int, p as int) == u32_be(es@.len() as u32) + pairs_xdr(entries_of(es@))
                && es@.len() < 0x1_0000_0000 && entries_encodable(es@)
                && u32_at(b@, pos as int) == Some(es@.len() as u32)
                && pairs_at(b@, pos + 4, es@.len(), depth) == Some((crate::value::entries_size(es@), p as int)),
            None => match u32_at(b@, pos as int) {
                Some(n) => pairs_at(b@, pos + 4, n as nat, depth) is None,
                None => true,
            },
        },
    decreases b@.len() - pos, 2nat,
{
    let (n, start) = get_u32(b, pos)?;
    let mut es: Vec<ScMapEntry> = Vec::new();
    let mut cur = start;
    let mut i: u32 = 0;
    while i < n
        invariant
            pos < start <= cur <= b@.len(),
            i <= n,
            es@.len() == i,
            b@.subrange(start as int, cur as int) == pairs_xdr(entries_of(es@)),
            entries_encodable(es@),
            start == pos + 4,
            u32_at(b@, pos as int) == Some(n),
            pairs_at(b@, start as int, n as nat, depth) == add_size(
                crate::value::entries_size(es@),
                pairs_at(b@, cur as int, (n - i) as nat, depth),
            ),
        decreases n - i,
    {
        let (k, p1) = match get_val(b, cur, depth) {
            Some(found) => found,
            None => {
                return None;
            },
        };
        let (v, p2) = match get_val(b, p1, depth) {
            Some(found) => found,
            None => {
                return None;
            },
        };
        let ghost prev = es@;
        let entry = ScMapEntry { key: k, val: v };
        es.push(entry);
        proof {
            assert(es@.drop_last() =~= prev);
            assert(crate::value::entries_size(es@) == crate::value::entries_size(prev) + crate::value::value_size(k)
                + crate::value::value_size(v));
            let pe = (val_of(k), val_of(v));
            assert(entries_of(es@) == entries_of(prev).push(pe));
            assert(entries_of(prev).push(pe).drop_last() =~= entries_of(prev));
            lemma_subrange_concat(b@, start as int, cur as int, p1 as int);
            lemma_subrange_concat(b@, start as int, p1 as int, p2 as int);
        }
        cur = p2;
        i = i + 1;
    }
    proof {
        lemma_subrange_concat(b@, pos as int, start as int, cur as int);
        assert(pairs_at(b@, cur as int, 0, depth) == Some((0nat, cur as int)));
    }
    Some((es, cur))
}


/// Reads the body of a value whose tag is a number or a fixed-size record.
#[verifier::rlimit(40)]
fn get_scalar(b: &Vec<u8>, pos: usize, t: u32, p1: usize) -> (r: Option<(ScVal, usize)>)
    requires
        p1 == pos + 4,
        p1 <= b@.len(),
        b@.subrange(pos as int, p1 as int) == u32_be(t),
    ensures
        match r {
            Some((v, p)) => pos < p <= b@.len() && b@.subrange(pos as int, p as int) == val_xdr(val_of(v))
                && val_encodable(v) && scalar_at(b@, t, p1 as int) == Some((crate::value::value_size(v), p as int)),
            None => scalar_at(b@, t, p1 as int) is None,
        },
{
    let (v, p) = if t == 0 {
        let (x, p) = get_u32(b, p1)?;
        if x > 1 {
            return None;
        }
        (ScVal::Bool(x == 1), p)
    } else if t == 1 {
        (ScVal::Void, p1)
    } else if t == 2 {
        let (kind, p2) = get_u32(b, p1)?;
        let (code, p) = get_u32(b, p2)?;
        if kind > 9 || (kind != 0 && code > 9) {
            return None;
        }
        proof { lemma_subrange_concat(b@, p1 as int, p2 as int, p as int); }
        (ScVal::Error(crate::value::ScErrorValue { kind, code }), p)
    } else if t == 3 {
        let (x, p) = get_u32(b, p1)?;
        (ScVal::U32(x), p)
    } else if t == 4 {
        let (x, p) = get_u32(b, p1)?;
        let y: i32 = if x >= 0x8000_0000 { (x as i64 - 0x1_0000_0000) as i32 } else { x as i32 };
        (ScVal::I32(y), p)
    } else if t == 5 {
        let (x, p) = get_u64(b, p1)?;
        (ScVal::U64(x), p)
    } else if t == 6 {
        let (x, p) = get_i64(b, p1)?;
        (ScVal::I64(x), p)
    } else if t == 7 {
        let (x, p) = get_u64(b, p1)?;
        (ScVal::Timepoint(x), p)
    } else if t == 8 {
        let (x, p) = get_u64(b, p1)?;
        (ScVal::Duration(x), p)
    } else if t == 9 {
        let (hi, p2) = get_u64(b, p1)?;
        let (lo, p) = get_u64(b, p2)?;
        proof { lemma_subrange_concat(b@, p1 as int, p2 as int, p as int); }
        (ScVal::U128 { hi, lo }, p)
    } else if t == 10 {
        let (high, p2) = get_i64(b, p1)?;
        let (low, p) = get_u64(b, p2)?;
        proof { lemma_subrange_concat(b@, p1 as int, p2 as int, p as int); }
        (ScVal::I128 { high, low }, p)
    } else if t == 20 {
        (ScVal::LedgerKeyContractInstance, p1)
    } else if t == 21 {
        let (x, p) = get_i64(b, p1)?;
        (ScVal::LedgerKeyNonce(x), p)
    } else {
        return None;
    };
    proof {
        lemma_subrange_concat(b@, pos as int, p1 as int, p as int);
        assert(b@.subrange(pos as int, p as int) =~= val_xdr(val_of(v)));
    }
    Some((v, p))
}

fn get_wide(b: &Vec<u8>, pos: usize, t: u32, p1: usize) -> (r: Option<(ScVal, usize)>)
    requires
        t == 11 || t == 12,
        p1 == pos + 4,
        p1 <= b@.len(),
        b@.subrange(pos as int, p1 as int) == u32_be(t),
    ensures
        match r {
            Some((v, p)) => pos < p <= b@.len() && b@.subrange(pos as int, p as int) == val_xdr(val_of(v))
                && val_encodable(v) && (if p1 + 32 <= b@.len() { Some((32nat, p1 + 32)) } else { None::<(nat, int)> }) == Some((crate::value::value_size(v), p as int)),
            None => (if p1 + 32 <= b@.len() { Some((32nat, p1 + 32)) } else { None::<(nat, int)> }) is None,
        },
{
    if t == 11 {
        let (w0, p2) = get_u64(b, p1)?;
        let (w1, p3) = get_u64(b, p2)?;
        let (w2, p4) = get_u64(b, p3)?;
        let (w3, p) = get_u64(b, p4)?;
        let v = ScVal::U256 { hi_hi: w0, hi_lo: w1, lo_hi: w2, lo_lo: w3 };
        proof {
            lemma_subrange_concat(b@, pos as int, p1 as int, p2 as int);
            lemma_subrange_concat(b@, pos as int, p2 as int, p3 as int);
            lemma_subrange_concat(b@, pos as int, p3 as int, p4 as int);
            lemma_subrange_concat(b@, pos as int, p4 as int, p as int);
            assert(b@.subrange(pos as int, p as int) =~= val_xdr(val_of(v)));
        }
        Some((v, p))
    } else {
        let (w0, p2) = get_i64(b, p1)?;
        let (w1, p3) = get_u64(b, p2)?;
        let (w2, p4) = get_u64(b, p3)?;
        let (w3, p) = get_u64(b, p4)?;
        let v = ScVal::I256 { top: w0, upper: w1, lower: w2, bottom: w3 };
        proof {
            lemma_subrange_concat(b@, pos as int, p1 as int, p2 as int);
            lemma_subrange_concat(b@, pos as int, p2 as int, p3 as int);
            lemma_subrange_concat(b@, pos as int, p3 as int, p4 as int);
            lemma_subrange_concat(b@, pos as int, p4 as int, p as int);
            assert(b@.subrange(pos as int, p as int) =~= val_xdr(val_of(v)));
        }
        Some((v, p))
    }
}

fn get_items(b: &Vec<u8>, pos: usize, depth: u32) -> (r: Option<(Vec<ScVal>, usize)>)
    ensures
        match r {
            Some((items, p)) => pos < p <= b@.len()
                && b@.subrange(pos as int, p as int) == u32_be(items@.len() as u32) + vals_xdr(vals_of(items@))
                && items@.len() < 0x1_0000_0000 && all_encodable(items@)
                && u32_at(b@, pos as int) == Some(items@.len() as u32)
                && list_at(b@, pos + 4, items@.len(), depth) == Some((crate::value::values_size(items@), p as int)),
            None => match u32_at(b@, pos as int) {
                Some(n) => list_at(b@, pos + 4, n as nat, depth) is None,
                None => true,
            },
        },
    decreases b@.len() - pos, 2nat,
{
    let (n, start) = get_u32(b, pos)?;
    let mut items: Vec<ScVal> = Vec::new();
    let mut cur = start;
    let mut i: u32 = 0;
    while i < n
        invariant
            pos < start <= cur <= b@.len(),
            i <= n,
            items@.len() == i,
            b@.subrange(start as int, cur as int) == vals_xdr(vals_of(items@)),
            all_encodable(items@),
            start == pos + 4,
            u32_at(b@, pos as int) == Some(n),
            list_at(b@, start as int, n as nat, depth) == add_size(
                crate::value::values_size(items@),
                list_at(b@, cur as int, (n - i) as nat, depth),
            ),
        decreases n - i,
    {
        let (x, q) = match get_val(b, cur, depth) {
            Some(found) => found,
            None => {
                return None;
            },
        };
        let ghost prev = items@;
        items.push(x);
        proof {
            assert(items@.drop_last() =~= prev);
            assert(crate::value::values_size(items@) == crate::value::values_size(prev) + crate::value::value_size(x));
            assert(vals_of(items@) == vals_of(prev).push(val_of(x)));
            assert(vals_of(prev).push(val_of(x)).drop_last() =~= vals_of(prev));
            lemma_subrange_concat(b@, start as int, cur as int, q as int);
        }
        cur = q;
        i = i + 1;
    }
    proof {
        lemma_subrange_concat(b@, pos as int, start as int, cur as int);
        assert(list_at(b@, cur as int, 0, depth) == Some((0nat, cur as int)));
    }
    Some((items, cur))
}

fn get_instance(b: &Vec<u8>, pos: usize, p1: usize, depth: u32) -> (r: Option<(ScVal, usize)>)
    requires
        p1 == pos + 4,
        p1 <= b@.len(),
        b@.subrange(pos as int, p1 as int) == u32_be(19),
    ensures
        match r {
            Some((v, p)) => pos < p <= b@.len() && b@.subrange(pos as int, p as int) == val_xdr(val_of(v))
                && val_encodable(v) && instance_at(b@, p1 as int, depth) == Some((crate::value::value_size(v), p as int)),
            None => instance_at(b@, p1 as int, depth) is None,
        },
    decreases b@.len() - pos, 1nat,
{
    let (et, p2) = get_u32(b, p1)?;
    let (executable, p3) = if et == 0 {
        let (h, q) = get_fixed(b, p2, 32)?;
        (ContractExecutable::Wasm(h), q)
    } else if et == 1 {
        (ContractExecutable::StellarAsset, p2)
    } else {
        return None;
    };
    proof {
        lemma_subrange_concat(b@, p1 as int, p2 as int, p3 as int);
        assert(b@.subrange(p1 as int, p3 as int) =~= executable_xdr(executable_view(executable)));
    }
    let (flag, p4) = get_u32(b, p3)?;
    proof {
        lemma_subrange_concat(b@, p1 as int, p3 as int, p4 as int);
        lemma_subrange_concat(b@, pos as int, p1 as int, p4 as int);
    }
    if flag == 0 {
        let v = ScVal::ContractInstance(crate::value::ScContractInstance { executable, storage: None });
        assert(b@.subrange(pos as int, p4 as int) =~= val_xdr(val_of(v)));
        Some((v, p4))
    } else if flag == 1 {
        let (es, p) = get_entries(b, p4, depth)?;
        proof {
            lemma_entries_of_len(es@);
            lemma_subrange_concat(b@, pos as int, p4 as int, p as int);
        }
        let v = ScVal::ContractInstance(crate::value::ScContractInstance { executable, storage: Some(es) });
        assert(b@.subrange(pos as int, p as int) =~= val_xdr(val_of(v)));
        Some((v, p))
    } else {
        None
    }
}

/// Reads one value and says where it ends; values nested deeper than
/// `depth` levels are refused rather than recursed into.
pub fn get_val(b: &Vec<u8>, pos: usize, depth: u32) -> (r: Option<(ScVal, usize)>)
    ensures
        match r {
            Some((v, p)) => pos < p <= b@.len() && b@.subrange(pos as int, p as int) == val_xdr(val_of(v))
                && val_encodable(v) && val_at(b@, pos as int, depth) == Some((crate::value::value_size(v), p as int)),
            None => val_at(b@, pos as int, depth) is None,
        },
    decreases b@.len() - pos, 3nat,
{
    if depth == 0 {
        return None;
    }
    let inner = depth - 1;
    let (t, p1) = get_u32(b, pos)?;
    if t <= 10 || t == 20 || t == 21 {
        return get_scalar(b, pos, t, p1);
    }
    if t == 11 || t == 12 {
        return get_wide(b, pos, t, p1);
    }
    if t == 19 {
        return get_instance(b, pos, p1, inner);
    }
    let (v, p) = if t == 13 {
        let (x, p) = get_var_opaque(b, p1, 0xffff_ffff)?;
        (ScVal::Bytes(x), p)
    } else if t == 14 {
        let (x, p) = get_var_opaque(b, p1, 0xffff_ffff)?;
        (ScVal::String(x), p)
    } else if t == 15 {
        let (x, p) = get_var_opaque(b, p1, 32)?;
        (ScVal::Symbol(x), p)
    } else if t == 16 || t == 17 {
        let (flag, p2) = get_u32(b, p1)?;
        if flag == 0 {
            (if t == 16 { ScVal::Vec(None) } else { ScVal::Mapping(None) }, p2)
        } else if flag == 1 {
            if t == 16 {
                let (items, p) = get_items(b, p2, inner)?;
                proof {
                    lemma_vals_of_len(items@);
                    lemma_subrange_concat(b@, p1 as int, p2 as int, p as int);
                }
                (ScVal::Vec(Some(items)), p)
            } else {
                let (es, p) = get_entries(b, p2, inner)?;
                proof {
                    lemma_entries_of_len(es@);
                    lemma_subrange_concat(b@, p1 as int, p2 as int, p as int);
                }
                (ScVal::Mapping(Some(es)), p)
            }
        } else {
            return None;
        }
    } else if t == 18 {
        let (a, p) = get_address(b, p1)?;
        (ScVal::Address(a), p)
    } else {
        return None;
    };
    proof {
        lemma_subrange_concat(b@, pos as int, p1 as int, p as int);
        assert(b@.subrange(pos as int, p as int) =~= val_xdr(val_of(v)));
    }
    Some((v, p))
}

proof fn lemma_vals_of_len(s: Seq<ScVal>)
    ensures
        vals_of(s).len() == s.len(),
    decreases s.len(),
{
    if s.len() > 0 {
        lemma_vals_of_len(s.drop_last());
    }
}

proof fn lemma_entries_of_len(s: Seq<ScMapEntry>)
    ensures
        entries_of(s).len() == s.len(),
    decreases s.len(),
{
    if s.len() > 0 {
        lemma_entries_of_len(s.drop_last());
    }
}

} // verus!
