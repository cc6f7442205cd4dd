//! Error taxonomy of the resolver core. Every error is terminal for the
//! request that raised it: the caller sees the error and durable state is
//! left exactly as it was.

use vstd::prelude::*;

verus! {

#[derive(Debug, PartialEq, Eq)]
pub enum ContractError {
    /// The caller fails an admin / owner / transferrable gate.
    Unauthorized,
    /// An address is malformed or its decoded prefix does not match the
    /// claimed network prefix.
    InvalidAddress,
    /// A record for this username already exists (write-once violation).
    AlreadyRegistered { username: String },
    /// A name contains the reserved separator character.
    InvalidName,
}

impl ContractError {
    /// A short human-readable label for the error kind.
    pub fn kind_label(&self) -> (r: &'static str)
        ensures
            r@ == match self {
                ContractError::Unauthorized => "unauthorized"@,
                ContractError::InvalidAddress => "invalid address"@,
                ContractError::AlreadyRegistered { .. } => "already registered"@,
                ContractError::InvalidName => "invalid name"@,
            },
    {
        match self {
            ContractError::Unauthorized => "unauthorized",
            ContractError::InvalidAddress => "invalid address",
            ContractError::AlreadyRegistered { .. } => "already registered",
            ContractError::InvalidName => "invalid name",
        }
    }
}

} // verus!
