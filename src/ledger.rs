use vstd::prelude::*;

use crate::value::{address_view, estimate_scval_size, saturate, val_of, value_size, ScAddress, ScVal};
use crate::codec::XDR_DEPTH_LIMIT;
use crate::xdr::{
    account_at, address_at, u32_at, val_at, var_opaque_at,
    address_encodable, address_xdr, get_account_id, get_address, get_fixed, get_i64, get_u32, get_val,
    get_var_opaque, i64_be, lemma_subrange_concat, put_fixed, put_i64, put_u32, put_val, put_var_opaque, u32_be,
    val_encodable, val_xdr, var_opaque,
};

verus! {

/// The asset of a trust line.
#[derive(Debug, PartialEq)]
pub enum TrustLineAsset {
    Native,
    AlphaNum4 { code: Vec<u8>, issuer: Vec<u8> },
    AlphaNum12 { code: Vec<u8>, issuer: Vec<u8> },
    PoolShare(Vec<u8>),
}

/// The key of one ledger entry.
#[derive(Debug, PartialEq)]
pub enum LedgerKey {
    Account(Vec<u8>),
    Trustline(Vec<u8>, TrustLineAsset),
    Offer(Vec<u8>, i64),
    Data(Vec<u8>, Vec<u8>),
    ClaimableBalance(Vec<u8>),
    LiquidityPool(Vec<u8>),
    ContractData(ScAddress, ScVal, u32),
    ContractCode(Vec<u8>),
    ConfigSetting(u32),
    Ttl(Vec<u8>),
}

/// The storage budget assigned to one ledger key, in bytes.
pub open spec fn key_size(k: LedgerKey) -> nat {
    match k {
        LedgerKey::Account(_) => 56,
        LedgerKey::Trustline(..) => 72,
        LedgerKey::ContractData(_, key, _) => 36 + value_size(key),
        LedgerKey::ContractCode(_) => 32,
        LedgerKey::Offer(..) => 48,
        LedgerKey::Data(..) => 64,
        LedgerKey::ClaimableBalance(_) => 36,
        LedgerKey::LiquidityPool(_) => 32,
        LedgerKey::ConfigSetting(_) => 8,
        LedgerKey::Ttl(_) => 32,
    }
}

/// The budgets of a list of keys, added up.
pub open spec fn keys_size(s: Seq<LedgerKey>) -> nat
    decreases s.len(),
{
    if s.len() == 0 {
        0
    } else {
        keys_size(s.drop_last()) + key_size(s.last())
    }
}

fn sat_add(a: u64, b: u64) -> (r: u64)
    ensures
        r == saturate((a + b) as nat),
{
    if a > u64::MAX - b { u64::MAX } else { a + b }
}

/// The estimated size in bytes of the entries that a list of keys names,
/// or `u64::MAX` where it is larger.
pub fn calculate_ledger_keys_size(keys: &Vec<LedgerKey>) -> (r: u64)
    ensures
        r == saturate(keys_size(keys@)),
{
    let mut total: u64 = 0;
    let mut i: usize = 0;
    while i < keys.len()
        invariant
            i <= keys@.len(),
            total == saturate(keys_size(keys@.subrange(0, i as int))),
        decreases keys@.len() - i,
    {
        let size: u64 = match &keys[i] {
            LedgerKey::Account(_) => 56,
            LedgerKey::Trustline(..) => 72,
            LedgerKey::ContractData(_, key, _) => sat_add(36, estimate_scval_size(key)),
            LedgerKey::ContractCode(_) => 32,
            LedgerKey::Offer(..) => 48,
            LedgerKey::Data(..) => 64,
            LedgerKey::ClaimableBalance(_) => 36,
            LedgerKey::LiquidityPool(_) => 32,
            LedgerKey::ConfigSetting(_) => 8,
            LedgerKey::Ttl(_) => 32,
        };
        proof {
            assert(keys@.subrange(0, i as int + 1).drop_last() =~= keys@.subrange(0, i as int));
        }
        total = sat_add(total, size);
        i = i + 1;
    }
    assert(keys@.subrange(0, keys@.len() as int) =~= keys@);
    total
}

// ── encoding ────────────────────────────────────────────────────────────────

pub open spec fn account_id_xdr(k: Seq<u8>) -> Seq<u8> {
    u32_be(0) + k
}

pub open spec fn asset_xdr(a: TrustLineAsset) -> Seq<u8> {
    match a {
        TrustLineAsset::Native => u32_be(0),
        TrustLineAsset::AlphaNum4 { code, issuer } => u32_be(1) + code@ + account_id_xdr(issuer@),
        TrustLineAsset::AlphaNum12 { code, issuer } => u32_be(2) + code@ + account_id_xdr(issuer@),
        TrustLineAsset::PoolShare(p) => u32_be(3) + p@,
    }
}

/// The canonical binary encoding of a ledger key.
pub open spec fn ledger_key_xdr(k: LedgerKey) -> Seq<u8> {
    match k {
        LedgerKey::Account(id) => u32_be(0) + account_id_xdr(id@),
        LedgerKey::Trustline(id, asset) => u32_be(1) + account_id_xdr(id@) + asset_xdr(asset),
        LedgerKey::Offer(seller, offer) => u32_be(2) + account_id_xdr(seller@) + i64_be(offer),
        LedgerKey::Data(id, name) => u32_be(3) + account_id_xdr(id@) + var_opaque(name@),
        LedgerKey::ClaimableBalance(h) => u32_be(4) + u32_be(0) + h@,
        LedgerKey::LiquidityPool(p) => u32_be(5) + p@,
        LedgerKey::ContractData(a, key, durability) => u32_be(6) + address_xdr(address_view(a)) + val_xdr(val_of(key))
            + u32_be(durability),
        LedgerKey::ContractCode(h) => u32_be(7) + h@,
        LedgerKey::ConfigSetting(id) => u32_be(8) + u32_be(id),
        LedgerKey::Ttl(h) => u32_be(9) + h@,
    }
}

/// A count followed by the encodings of the keys.
pub open spec fn keys_xdr(s: Seq<LedgerKey>) -> Seq<u8>
    decreases s.len(),
{
    if s.len() == 0 {
        Seq::empty()
    } else {
        keys_xdr(s.drop_last()) + ledger_key_xdr(s.last())
    }
}

/// Every hash, key and code has its fixed length, a data name at most 64
/// bytes, and a contract-data key can be encoded.
pub open spec fn ledger_key_wf(k: LedgerKey) -> bool {
    match k {
        LedgerKey::Account(id) => id@.len() == 32,
        LedgerKey::Trustline(id, asset) => id@.len() == 32 && match asset {
            TrustLineAsset::Native => true,
            TrustLineAsset::AlphaNum4 { code, issuer } => code@.len() == 4 && issuer@.len() == 32,
            TrustLineAsset::AlphaNum12 { code, issuer } => code@.len() == 12 && issuer@.len() == 32,
            TrustLineAsset::PoolShare(p) => p@.len() == 32,
        },
        LedgerKey::Offer(seller, _) => seller@.len() == 32,
        LedgerKey::Data(id, name) => id@.len() == 32 && name@.len() <= 64,
        LedgerKey::ClaimableBalance(h) => h@.len() == 32,
        LedgerKey::LiquidityPool(p) => p@.len() == 32,
        LedgerKey::ContractData(a, key, _) => address_encodable(a) && val_encodable(key),
        LedgerKey::ContractCode(h) => h@.len() == 32,
        LedgerKey::ConfigSetting(_) => true,
        LedgerKey::Ttl(h) => h@.len() == 32,
    }
}

/// Appends the canonical encoding of a ledger key.
pub fn put_ledger_key(out: &mut Vec<u8>, k: &LedgerKey)
    requires
        ledger_key_wf(*k),
    ensures
        final(out)@ == old(out)@ + ledger_key_xdr(*k),
{
    match k {
        LedgerKey::Account(id) => {
            put_u32(out, 0);
            put_u32(out, 0);
            put_fixed(out, id);
        },
        LedgerKey::Trustline(id, asset) => {
            put_u32(out, 1);
            put_u32(out, 0);
            put_fixed(out, id);
            match asset {
                TrustLineAsset::Native => put_u32(out, 0),
                TrustLineAsset::AlphaNum4 { code, issuer } => {
                    put_u32(out, 1);
                    put_fixed(out, code);
                    put_u32(out, 0);
                    put_fixed(out, issuer);
                },
                TrustLineAsset::AlphaNum12 { code, issuer } => {
                    put_u32(out, 2);
                    put_fixed(out, code);
                    put_u32(out, 0);
                    put_fixed(out, issuer);
                },
                TrustLineAsset::PoolShare(p) => {
                    put_u32(out, 3);
                    put_fixed(out, p);
                },
            }
        },
        LedgerKey::Offer(seller, offer) => {
            put_u32(out, 2);
            put_u32(out, 0);
            put_fixed(out, seller);
            put_i64(out, *offer);
        },
        LedgerKey::Data(id, name) => {
            put_u32(out, 3);
            put_u32(out, 0);
            put_fixed(out, id);
            put_var_opaque(out, name);
        },
        LedgerKey::ClaimableBalance(h) => {
            put_u32(out, 4);
            put_u32(out, 0);
            put_fixed(out, h);
        },
        LedgerKey::LiquidityPool(p) => {
            put_u32(out, 5);
            put_fixed(out, p);
        },
        LedgerKey::ContractData(a, key, durability) => {
            put_u32(out, 6);
            match a {
                ScAddress::Account(id) => {
                    put_u32(out, 0);
                    put_u32(out, 0);
                    put_fixed(out, id);
                },
                ScAddress::Contract(h) => {
                    put_u32(out, 1);
                    put_fixed(out, h);
                },
            }
            put_val(out, key);
            put_u32(out, *durability);
        },
        LedgerKey::ContractCode(h) => {
            put_u32(out, 7);
            put_fixed(out, h);
        },
        LedgerKey::ConfigSetting(id) => {
            put_u32(out, 8);
            put_u32(out, *id);
        },
        LedgerKey::Ttl(h) => {
            put_u32(out, 9);
            put_fixed(out, h);
        },
    }
    assert(out@ =~= old(out)@ + ledger_key_xdr(*k));
}

// ── where an encoded key ends ───────────────────────────────────────────────

/// Where a trust-line asset starting at `pos` ends.
pub open spec fn asset_at(b: Seq<u8>, pos: int) -> Option<int> {
    match u32_at(b, pos) {
        None => None,
        Some(t) => if t == 0 {
            Some(pos + 4)
        } else if t == 1 || t == 2 {
            let c = pos + 4 + (if t == 1 { 4int } else { 12int });
            if c > b.len() { None } else { account_at(b, c) }
        } else if t == 3 {
            if pos + 36 <= b.len() { Some(pos + 36) } else { None }
        } else {
            None
        },
    }
}

/// The storage budget and end of the ledger key encoded at `pos`.
pub open spec fn key_at(b: Seq<u8>, pos: int) -> Option<(nat, int)> {
    match u32_at(b, pos) {
        None => None,
        Some(t) => {
            let p1 = pos + 4;
            if t == 0 {
                match account_at(b, p1) { Some(e) => Some((56nat, e)), None => None }
            } else if t == 1 {
                match account_at(b, p1) {
                    Some(e) => match asset_at(b, e) { Some(e2) => Some((72nat, e2)), None => None },
                    None => None,
                }
            } else if t == 2 {
                match account_at(b, p1) {
                    Some(e) => if e + 8 <= b.len() { Some((48nat, e + 8)) } else { None },
                    None => None,
                }
            } else if t == 3 {
                match account_at(b, p1) {
                    Some(e) => match var_opaque_at(b, e, 64) { Some((_, e2)) => Some((64nat, e2)), None => None },
                    None => None,
                }
            } else if t == 4 {
                if u32_at(b, p1) == Some(0u32) && p1 + 36 <= b.len() { Some((36nat, p1 + 36)) } else { None }
            } else if t == 5 || t == 7 || t == 9 {
                if p1 + 32 <= b.len() { Some((32nat, p1 + 32)) } else { None }
            } else if t == 6 {
                match address_at(b, p1) {
                    Some(e) => match val_at(b, e, XDR_DEPTH_LIMIT) {
                        Some((size, e2)) => match u32_at(b, e2) {
                            Some(d) => if d > 1 { None } else { Some(((36 + size) as nat, e2 + 4)) },
                            None => None,
                        },
                        None => None,
                    },
                    None => None,
                }
            } else if t == 8 {
                match u32_at(b, p1) {
                    Some(id) => if id > 20 { None } else { Some((8nat, p1 + 4)) },
                    None => None,
                }
            } else {
                None
            }
        },
    }
}

/// `n` keys one after another from `pos`: for each its start, end and
/// budget, and where the last ends.
pub open spec fn key_list_at(b: Seq<u8>, pos: int, n: nat) -> Option<(Seq<(int, int, nat)>, int)>
    decreases n,
{
    if n == 0 {
        Some((Seq::empty(), pos))
    } else {
        match key_at(b, pos) {
            Some((size, e)) => match key_list_at(b, e, (n - 1) as nat) {
                Some((rest, q)) => Some((seq![(pos, e, size)] + rest, q)),
                None => None,
            },
            None => None,
        }
    }
}

/// Spans read so far in front of the rest of a list.
pub open spec fn prepend_spans(done: Seq<(int, int, nat)>, r: Option<(Seq<(int, int, nat)>, int)>) -> Option<(Seq<(int, int, nat)>, int)> {
    match r {
        Some((rest, q)) => Some((done + rest, q)),
        None => None,
    }
}

/// A counted list of keys at `pos`.
pub open spec fn keys_at(b: Seq<u8>, pos: int) -> Option<(Seq<(int, int, nat)>, int)> {
    match u32_at(b, pos) {
        Some(n) => key_list_at(b, pos + 4, n as nat),
        None => None,
    }
}

/// Where the extension of a transaction-data record ends: nothing, or a
/// counted list of 32-bit indices.
pub open spec fn extension_end(b: Seq<u8>) -> Option<int> {
    match u32_at(b, 0) {
        Some(v) => if v == 0 {
            Some(4)
        } else if v == 1 {
            match u32_at(b, 4) {
                Some(n) => if 8 + 4 * n <= b.len() { Some(8 + 4 * n) } else { None },
                None => None,
            }
        } else {
            None
        },
        None => None,
    }
}

/// The read-only and read-write keys of a whole transaction-data record,
/// as spans (start, end, budget); `None` where the bytes are no such
/// record.
pub open spec fn footprint_at(b: Seq<u8>) -> Option<(Seq<(int, int, nat)>, Seq<(int, int, nat)>)> {
    match extension_end(b) {
        None => None,
        Some(c) => match keys_at(b, c) {
            None => None,
            Some((ro, p3)) => match keys_at(b, p3) {
                None => None,
                Some((rw, p4)) => if b.len() >= 20 && p4 == b.len() - 20 { Some((ro, rw)) } else { None },
            },
        },
    }
}

/// Total budget of a list of spans.
pub open spec fn spans_total(s: Seq<(int, int, nat)>) -> nat
    decreases s.len(),
{
    if s.len() == 0 { 0 } else { spans_total(s.drop_last()) + s.last().2 }
}

/// The keys read are the spans: each key is the bytes of its span and has
/// its budget.
pub open spec fn keys_match_spans(b: Seq<u8>, ks: Seq<LedgerKey>, spans: Seq<(int, int, nat)>) -> bool {
    &&& ks.len() == spans.len()
    &&& forall|i: int| 0 <= i < ks.len() ==> {
        &&& 0 <= (#[trigger] spans[i]).0 <= spans[i].1 <= b.len()
        &&& b.subrange(spans[i].0, spans[i].1) == ledger_key_xdr(ks[i])
        &&& spans[i].2 == key_size(ks[i])
        &&& ledger_key_wf(ks[i])
    }
}

pub proof fn lemma_spans_total(b: Seq<u8>, ks: Seq<LedgerKey>, spans: Seq<(int, int, nat)>)
    requires
        keys_match_spans(b, ks, spans),
    ensures
        keys_size(ks) == spans_total(spans),
    decreases ks.len(),
{
    if ks.len() > 0 {
        let ks1 = ks.drop_last();
        let sp1 = spans.drop_last();
        assert forall|i: int| 0 <= i < ks1.len() implies {
            &&& 0 <= (#[trigger] sp1[i]).0 <= sp1[i].1 <= b.len()
            &&& b.subrange(sp1[i].0, sp1[i].1) == ledger_key_xdr(ks1[i])
            &&& sp1[i].2 == key_size(ks1[i])
            &&& ledger_key_wf(ks1[i])
        } by {
            assert(sp1[i] == spans[i] && ks1[i] == ks[i]);
        }
        lemma_spans_total(b, ks1, sp1);
        assert(spans.last() == spans[spans.len() - 1]);
    }
}

fn get_asset(b: &Vec<u8>, pos: usize) -> (r: Option<(TrustLineAsset, usize)>)
    ensures
        match r {
            Some((a, p)) => pos < p <= b@.len() && b@.subrange(pos as int, p as int) == asset_xdr(a)
                && match a {
                    TrustLineAsset::Native => true,
                    TrustLineAsset::AlphaNum4 { code, issuer } => code@.len() == 4 && issuer@.len() == 32,
                    TrustLineAsset::AlphaNum12 { code, issuer } => code@.len() == 12 && issuer@.len() == 32,
                    TrustLineAsset::PoolShare(p) => p@.len() == 32,
                } && asset_at(b@, pos as int) == Some(p as int),
            None => asset_at(b@, pos as int) is None,
        },
{
    let (t, p1) = get_u32(b, pos)?;
    if t == 0 {
        Some((TrustLineAsset::Native, p1))
    } else if t == 1 || t == 2 {
        let n: usize = if t == 1 { 4 } else { 12 };
        let (code, p2) = get_fixed(b, p1, n)?;
        let (issuer, p) = get_account_id(b, p2)?;
        proof {
            lemma_subrange_concat(b@, pos as int, p1 as int, p2 as int);
            lemma_subrange_concat(b@, pos as int, p2 as int, p as int);
        }
        let a = if t == 1 {
            TrustLineAsset::AlphaNum4 { code, issuer }
        } else {
            TrustLineAsset::AlphaNum12 { code, issuer }
        };
        assert(b@.subrange(pos as int, p as int) =~= asset_xdr(a));
        Some((a, p))
    } else if t == 3 {
        let (h, p) = get_fixed(b, p1, 32)?;
        proof {
            lemma_subrange_concat(b@, pos as int, p1 as int, p as int);
        }
        Some((TrustLineAsset::PoolShare(h), p))
    } else {
        None
    }
}

/// Reads one ledger key and says where it ends.
#[verifier::rlimit(40)]
pub fn get_ledger_key(b: &Vec<u8>, pos: usize) -> (r: Option<(LedgerKey, usize)>)
    ensures
        match r {
            Some((k, p)) => pos < p <= b@.len() && b@.subrange(pos as int, p as int) == ledger_key_xdr(k)
                && ledger_key_wf(k) && key_at(b@, pos as int) == Some((key_size(k), p as int)),
            None => key_at(b@, pos as int) is None,
        },
{
    let (t, p1) = get_u32(b, pos)?;
    let (k, p) = if t == 0 {
        let (id, p) = get_account_id(b, p1)?;
        (LedgerKey::Account(id), p)
    } else if t == 1 {
        let (id, p2) = get_account_id(b, p1)?;
        let (asset, p) = get_asset(b, p2)?;
        proof { lemma_subrange_concat(b@, p1 as int, p2 as int, p as int); }
        (LedgerKey::Trustline(id, asset), p)
    } else if t == 2 {
        let (id, p2) = get_account_id(b, p1)?;
        let (offer, p) = get_i64(b, p2)?;
        proof { lemma_subrange_concat(b@, p1 as int, p2 as int, p as int); }
        (LedgerKey::Offer(id, offer), p)
    } else if t == 3 {
        let (id, p2) = get_account_id(b, p1)?;
        let (name, p) = get_var_opaque(b, p2, 64)?;
        proof { lemma_subrange_concat(b@, p1 as int, p2 as int, p as int); }
        (LedgerKey::Data(id, name), p)
    } else if t == 4 {
        let (kind, p2) = get_u32(b, p1)?;
        if kind != 0 {
            return None;
        }
        let (h, p) = get_fixed(b, p2, 32)?;
        proof { lemma_subrange_concat(b@, p1 as int, p2 as int, p as int); }
        (LedgerKey::ClaimableBalance(h), p)
    } else if t == 5 {
        let (h, p) = get_fixed(b, p1, 32)?;
        (LedgerKey::LiquidityPool(h), p)
    } else if t == 6 {
        let (a, p2) = get_address(b, p1)?;
        let (key, p3) = get_val(b, p2, crate::codec::XDR_DEPTH_LIMIT)?;
        let (durability, p) = get_u32(b, p3)?;
        if durability > 1 {
            return None;
        }
        proof {
            lemma_subrange_concat(b@, p1 as int, p2 as int, p3 as int);
            lemma_subrange_concat(b@, p1 as int, p3 as int, p as int);
        }
        (LedgerKey::ContractData(a, key, durability), p)
    } else if t == 7 {
        let (h, p) = get_fixed(b, p1, 32)?;
        (LedgerKey::ContractCode(h), p)
    } else if t == 8 {
        let (id, p) = get_u32(b, p1)?;
        if id > 20 {
            return None;
        }
        (LedgerKey::ConfigSetting(id), p)
    } else if t == 9 {
        let (h, p) = get_fixed(b, p1, 32)?;
        (LedgerKey::Ttl(h), p)
    } else {
        return None;
    };
    proof {
        lemma_subrange_concat(b@, pos as int, p1 as int, p as int);
        assert(b@.subrange(pos as int, p as int) =~= ledger_key_xdr(k));
    }
    Some((k, p))
}

/// Reads a counted list of ledger keys.
pub fn get_ledger_keys(b: &Vec<u8>, pos: usize) -> (r: Option<(Vec<LedgerKey>, usize)>)
    ensures
        match r {
            Some((ks, p)) => pos < p <= b@.len()
                && b@.subrange(pos as int, p as int) == u32_be(ks@.len() as u32) + keys_xdr(ks@)
                && ks@.len() < 0x1_0000_0000
                && (forall|k: int| 0 <= k < ks@.len() ==> #[trigger] ledger_key_wf(ks@[k]))
                && keys_at(b@, pos as int) is Some
                && keys_at(b@, pos as int)->Some_0.1 == p as int
                && keys_match_spans(b@, ks@, keys_at(b@, pos as int)->Some_0.0),
            None => keys_at(b@, pos as int) is None,
        },
{
    let (n, start) = get_u32(b, pos)?;
    let ghost mut spans: Seq<(int, int, nat)> = Seq::empty();
    let mut ks: Vec<LedgerKey> = Vec::new();
    let mut cur = start;
    let mut i: u32 = 0;
    while i < n
        invariant
            pos < start <= cur <= b@.len(),
            i <= n,
            ks@.len() == i,
            b@.subrange(start as int, cur as int) == keys_xdr(ks@),
            forall|k: int| 0 <= k < ks@.len() ==> #[trigger] ledger_key_wf(ks@[k]),
            start == pos + 4,
            u32_at(b@, pos as int) == Some(n),
            keys_match_spans(b@, ks@, spans),
            key_list_at(b@, start as int, n as nat) == prepend_spans(spans, key_list_at(b@, cur as int, (n - i) as nat)),
        decreases n - i,
    {
        let (k, q) = match get_ledger_key(b, cur) {
            Some(found) => found,
            None => {
                return None;
            },
        };
        let ghost prev = ks@;
        let ghost prev_spans = spans;
        ks.push(k);
        proof {
            assert(ks@.drop_last() =~= prev);
            lemma_subrange_concat(b@, start as int, cur as int, q as int);
            spans = spans.push((cur as int, q as int, key_size(k)));
            match key_list_at(b@, q as int, (n - i - 1) as nat) {
                Some((rest, e)) => {
                    assert(prev_spans + (seq![(cur as int, q as int, key_size(k))] + rest) =~= spans + rest);
                },
                None => {},
            }
            assert forall|j: int| 0 <= j < ks@.len() implies {
                &&& 0 <= (#[trigger] spans[j]).0 <= spans[j].1 <= b@.len()
                &&& b@.subrange(spans[j].0, spans[j].1) == ledger_key_xdr(ks@[j])
                &&& spans[j].2 == key_size(ks@[j])
                &&& ledger_key_wf(ks@[j])
            } by {
                if j < prev.len() {
                    assert(spans[j] == prev_spans[j] && ks@[j] == prev[j]);
                }
            }
        }
        cur = q;
        i = i + 1;
    }
    proof {
        lemma_subrange_concat(b@, pos as int, start as int, cur as int);
        assert(spans + Seq::<(int, int, nat)>::empty() =~= spans);
    }
    Some((ks, cur))
}

/// `b` is a whole transaction-data record whose footprint holds the keys
/// `ro` (read-only) and `rw` (read-write).
pub open spec fn is_footprint_record(b: Seq<u8>, ro: Seq<LedgerKey>, rw: Seq<LedgerKey>) -> bool {
    b.len() >= 20 && exists|n: int|
        0 <= n <= b.len() - 20 && b == #[trigger] b.subrange(0, n) + u32_be(ro.len() as u32) + keys_xdr(ro)
            + u32_be(rw.len() as u32) + keys_xdr(rw) + b.subrange(b.len() - 20, b.len() as int)
}

/// The two key lists of a footprint, read from a whole transaction-data
/// record: an extension (empty, or a list of archived entry indices), the
/// read-only and read-write key lists, then three 32-bit resource figures
/// and a 64-bit fee that end the record. `None` exactly when the bytes are
/// no such record.
#[verifier::spinoff_prover]
#[verifier::rlimit(100)]
pub fn decode_footprint(b: &Vec<u8>) -> (r: Option<(Vec<LedgerKey>, Vec<LedgerKey>)>)
    ensures
        match footprint_at(b@) {
            None => r is None,
            Some((ro_spans, rw_spans)) => r is Some && keys_match_spans(b@, r->Some_0.0@, ro_spans)
                && keys_match_spans(b@, r->Some_0.1@, rw_spans),
        },
        match r {
            Some((ro, rw)) => is_footprint_record(b@, ro@, rw@),
            None => true,
        },
{
    let cur = match extension_length(b) {
        Some(c) => c,
        None => return None,
    };
    let (ro, p3) = match get_ledger_keys(b, cur) {
        Some(found) => found,
        None => return None,
    };
    let (rw, p4) = match get_ledger_keys(b, p3) {
        Some(found) => found,
        None => return None,
    };
    if b.len() < 20 || p4 != b.len() - 20 {
        return None;
    }
    proof {
        lemma_record_layout(b@, cur as int, p3 as int, p4 as int, ro@, rw@);
    }
    Some((ro, rw))
}

proof fn lemma_record_layout(b: Seq<u8>, cur: int, p3: int, p4: int, ro: Seq<LedgerKey>, rw: Seq<LedgerKey>)
    requires
        0 <= cur <= p3 <= p4,
        b.len() >= 20,
        p4 == b.len() - 20,
        b.subrange(cur, p3) == u32_be(ro.len() as u32) + keys_xdr(ro),
        b.subrange(p3, p4) == u32_be(rw.len() as u32) + keys_xdr(rw),
    ensures
        is_footprint_record(b, ro, rw),
{
    assert(b =~= b.subrange(0, cur) + b.subrange(cur, p3) + b.subrange(p3, p4) + b.subrange(p4, b.len() as int));
    assert(b == b.subrange(0, cur) + u32_be(ro.len() as u32) + keys_xdr(ro) + u32_be(rw.len() as u32) + keys_xdr(rw)
        + b.subrange(b.len() - 20, b.len() as int));
}

/// Where the extension of a transaction-data record ends.
fn extension_length(b: &Vec<u8>) -> (r: Option<usize>)
    ensures
        match r {
            Some(c) => extension_end(b@) == Some(c as int) && 0 < c <= b@.len(),
            None => extension_end(b@) is None,
        },
{
    let (v, p1) = get_u32(b, 0)?;
    if v == 0 {
        return Some(p1);
    }
    if v != 1 {
        return None;
    }
    let (n, p2) = get_u32(b, p1)?;
    let mut cur = p2;
    let mut i: u32 = 0;
    while i < n
        invariant
            i <= n,
            cur == 8 + 4 * i,
            cur <= b@.len(),
            u32_at(b@, 0) == Some(1u32),
            u32_at(b@, 4) == Some(n),
        decreases n - i,
    {
        match get_u32(b, cur) {
            Some((_, q)) => {
                cur = q;
            },
            None => {
                assert(8 + 4 * (n as int) > b@.len());
                return None;
            },
        }
        i = i + 1;
    }
    Some(cur)
}

} // verus!
