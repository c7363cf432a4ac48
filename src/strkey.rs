use vstd::prelude::*;

verus! {

/// What `stellar_strkey::Strkey::from_string` makes of a text: kind 0 and
/// the key for an ed25519 account, kind 1 and the hash for a contract, kind
/// 2 and no bytes for any other strkey; or the decode error's message.
pub uninterp spec fn strkey_of(s: Seq<char>) -> Result<(u8, Seq<u8>), Seq<char>>;

/// Relies on `stellar_strkey::Strkey::from_string` to decode a base32
/// account or contract identifier.
#[verifier::external_body]
pub(crate) fn decode_strkey(s: &str) -> (r: Result<(u8, Vec<u8>), String>)
    ensures
        match r {
            Ok((kind, bytes)) => strkey_of(s@) == Ok::<(u8, Seq<u8>), Seq<char>>((kind, bytes@))
                && kind <= 2 && (kind < 2 ==> bytes@.len() == 32),
            Err(m) => strkey_of(s@) == Err::<(u8, Seq<u8>), Seq<char>>(m@),
        },
{
    match stellar_strkey::Strkey::from_string(s) {
        Ok(stellar_strkey::Strkey::PublicKeyEd25519(k)) => Ok((0, k.0.to_vec())),
        Ok(stellar_strkey::Strkey::Contract(c)) => Ok((1, c.0.to_vec())),
        Ok(_) => Ok((2, Vec::new())),
        Err(e) => Err(e.to_string()),
    }
}

} // verus!
