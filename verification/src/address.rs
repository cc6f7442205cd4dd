//! Address Validator: checks that a claimed network prefix and an address
//! string are jointly well-formed under the checksummed bech32-family
//! encoding, and that the decoded prefix matches the claimed one.

use vstd::prelude::*;

use crate::error::ContractError;
use crate::order::str_eq;

verus! {

/// The human-readable prefix that the bech32-family decoder extracts from
/// `s`, or nothing when `s` is not a well-formed checksummed encoding. The
/// result depends on the characters of `s` alone.
pub uninterp spec fn bech32_hrp(s: Seq<char>) -> Option<Seq<char>>;

/// Relies on bech32::decode: verifies the checksum and splits off the
/// human-readable part, as a function of the input string alone.
#[verifier::external_body]
fn decode_prefix(address: &str) -> (r: Option<String>)
    ensures
        match r {
            Some(h) => bech32_hrp(address@) == Some(h@),
            None => bech32_hrp(address@) is None,
        },
{
    match bech32::decode(address) {
        Ok((hrp, _data)) => Some(hrp.as_str().to_string()),
        Err(_) => None,
    }
}

/// A (prefix, address) pair is valid when the address decodes and its
/// decoded prefix equals the claimed prefix.
pub open spec fn pair_valid(p: (Seq<char>, Seq<char>)) -> bool {
    bech32_hrp(p.1) == Some(p.0)
}

/// Decodes `address` and compares the decoded human-readable prefix with
/// `prefix`, case-sensitively. Pure; no storage access.
pub fn validate(prefix: &str, address: &str) -> (r: Result<(), ContractError>)
    ensures
        r is Ok <==> pair_valid((prefix@, address@)),
        r is Err ==> r == Result::<(), ContractError>::Err(ContractError::InvalidAddress),
{
    match decode_prefix(address) {
        Some(decoded) => {
            if str_eq(decoded.as_str(), prefix) {
                Ok(())
            } else {
                Err(ContractError::InvalidAddress)
            }
        },
        None => Err(ContractError::InvalidAddress),
    }
}

} // verus!
