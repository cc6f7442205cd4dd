//! Authorization and name-format gates: admin membership, the global
//! transferrable flag, and the reserved-separator rule for names.

use vstd::prelude::*;

use crate::error::ContractError;
use crate::order::str_eq;
use crate::state::Config;

verus! {

/// Whether `caller` is a member of the configured admin set.
pub open spec fn is_admin(config: Config, caller: Seq<char>) -> bool {
    exists|i: int| 0 <= i < config.admins@.len() && config.admins@[i]@ == caller
}

/// Fails with `Unauthorized` when the configuration's transfer flag is off,
/// independent of caller identity.
pub fn check_transferrable(config: &Config) -> (r: Result<(), ContractError>)
    ensures
        r is Ok <==> config.transferrable,
        r is Err ==> r == Result::<(), ContractError>::Err(ContractError::Unauthorized),
{
    if !config.transferrable {
        return Err(ContractError::Unauthorized);
    }
    Ok(())
}

/// Succeeds exactly when `sender` is in the admin set (a linear scan: admin
/// sets are small and order-insensitive).
pub fn check_admin(config: &Config, sender: &str) -> (r: Result<(), ContractError>)
    ensures
        r is Ok <==> is_admin(*config, sender@),
        r is Err ==> r == Result::<(), ContractError>::Err(ContractError::Unauthorized),
{
    let n = config.admins.len();
    let mut i: usize = 0;
    while i < n
        invariant
            i <= n,
            n == config.admins@.len(),
            forall|k: int| 0 <= k < i ==> config.admins@[k]@ != sender@,
        decreases n - i,
    {
        if str_eq(config.admins[i].as_str(), sender) {
            return Ok(());
        }
        i = i + 1;
    }
    Err(ContractError::Unauthorized)
}

/// Whether the ownership oracle reported `caller` as the name's owner.
pub open spec fn owner_matches(token_owner: Option<String>, caller: Seq<char>) -> bool {
    token_owner matches Some(o) && o@ == caller
}

/// Succeeds exactly when the name-ownership token contract reported
/// `sender` as the current owner of the name's token; `token_owner` is
/// that synchronous answer, absence included.
pub fn check_name_owner(token_owner: &Option<String>, sender: &str) -> (r: Result<
    (),
    ContractError,
>)
    ensures
        r is Ok <==> owner_matches(*token_owner, sender@),
        r is Err ==> r == Result::<(), ContractError>::Err(ContractError::Unauthorized),
{
    match token_owner {
        Some(o) => {
            if str_eq(o.as_str(), sender) {
                Ok(())
            } else {
                Err(ContractError::Unauthorized)
            }
        },
        None => Err(ContractError::Unauthorized),
    }
}

/// Rejects names that contain the reserved separator character `'.'`.
pub fn validate_name(name: &str) -> (r: Result<(), ContractError>)
    ensures
        r is Ok <==> !name@.contains('.'),
        r is Err ==> r == Result::<(), ContractError>::Err(ContractError::InvalidName),
{
    let n = name.unicode_len();
    let mut i: usize = 0;
    while i < n
        invariant
            i <= n,
            n == name@.len(),
            forall|k: int| 0 <= k < i ==> name@[k] != '.',
        decreases n - i,
    {
        if name.get_char(i) == '.' {
            assert(name@.contains('.'));
            return Err(ContractError::InvalidName);
        }
        i = i + 1;
    }
    assert(forall|k: int| 0 <= k < name@.len() ==> name@[k] != '.');
    Ok(())
}

} // verus!
