use vstd::prelude::*;

verus! {

/// Standard base-64 text (with padding) of a byte string, as
/// `base64::engine::general_purpose::STANDARD` writes it.
pub uninterp spec fn base64_of(b: Seq<u8>) -> Seq<char>;

/// What the standard base-64 engine decodes a text to, or its error message.
pub uninterp spec fn base64_decoded(s: Seq<char>) -> Result<Seq<u8>, Seq<char>>;

/// Nesting depth allowed when the network's XDR types read untrusted bytes,
/// so that deep values fail instead of exhausting the stack.
pub const XDR_DEPTH_LIMIT: u32 = 500;

/// The error message of decoding bytes as a whole ledger key with the
/// network's XDR types, nesting at most `depth` levels; `None` when they
/// decode.
pub uninterp spec fn ledger_key_error(b: Seq<u8>, depth: u32) -> Option<Seq<char>>;

/// The error message of decoding bytes as a whole ledger entry with the
/// network's XDR types, nesting at most `depth` levels; `None` when they
/// decode.
pub uninterp spec fn ledger_entry_error(b: Seq<u8>, depth: u32) -> Option<Seq<char>>;

/// Relies on `base64`'s standard engine to encode bytes.
#[verifier::external_body]
pub(crate) fn encode_base64(b: &Vec<u8>) -> (r: String)
    ensures
        r@ == base64_of(b@),
{
    base64::Engine::encode(&base64::engine::general_purpose::STANDARD, b)
}

/// Relies on `base64`'s standard engine to decode a text.
#[verifier::external_body]
pub(crate) fn decode_base64(s: &str) -> (r: Result<Vec<u8>, String>)
    ensures
        match r {
            Ok(b) => base64_decoded(s@) == Ok::<Seq<u8>, Seq<char>>(b@),
            Err(m) => base64_decoded(s@) == Err::<Seq<u8>, Seq<char>>(m@),
        },
{
    base64::Engine::decode(&base64::engine::general_purpose::STANDARD, s).map_err(|e| e.to_string())
}

/// Relies on `LedgerKey::from_xdr` of the SDK's XDR types, with
/// `Limits::depth(depth)`, to check that bytes are exactly one ledger key;
/// deeper nesting is reported as an error rather than recursed into.
#[verifier::external_body]
pub(crate) fn check_ledger_key(b: &Vec<u8>, depth: u32) -> (r: Option<String>)
    ensures
        match r {
            None => ledger_key_error(b@, depth).is_none(),
            Some(m) => ledger_key_error(b@, depth) == Some(m@),
        },
{
    <soroban_sdk::xdr::LedgerKey as soroban_sdk::xdr::ReadXdr>::from_xdr(b, soroban_sdk::xdr::Limits::depth(depth))
        .err()
        .map(|e| e.to_string())
}

/// Relies on `LedgerEntry::from_xdr` of the SDK's XDR types, with
/// `Limits::depth(depth)`, to check that bytes are exactly one ledger entry;
/// deeper nesting is reported as an error rather than recursed into.
#[verifier::external_body]
pub(crate) fn check_ledger_entry(b: &Vec<u8>, depth: u32) -> (r: Option<String>)
    ensures
        match r {
            None => ledger_entry_error(b@, depth).is_none(),
            Some(m) => ledger_entry_error(b@, depth) == Some(m@),
        },
{
    <soroban_sdk::xdr::LedgerEntry as soroban_sdk::xdr::ReadXdr>::from_xdr(b, soroban_sdk::xdr::Limits::depth(depth))
        .err()
        .map(|e| e.to_string())
}

/// What `str::trim` leaves of a text: leading and trailing Unicode white
/// space removed.
pub uninterp spec fn trimmed(s: Seq<char>) -> Seq<char>;

/// Relies on `str::trim`.
#[verifier::external_body]
pub(crate) fn trim(s: &str) -> (r: &str)
    ensures
        r@ == trimmed(s@),
{
    s.trim()
}

} // verus!
