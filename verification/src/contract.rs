//! Resolver Service: the externally callable surface. State-changing
//! requests are authorized (admin or verified name-owner), their payload is
//! validated, and the result is committed to the store as a single atomic
//! transition; queries read the store directly.
//!
//! The cross-contract ownership lookup is a synchronous call of the host
//! environment: the host performs it and hands its answer in as
//! `token_owner`, so every decision below is verified for every possible
//! answer.

use vstd::prelude::*;

use crate::address::{pair_valid, validate};
use crate::canon::{canon, dedup_by_prefix, lemma_dedup_noop, lemma_dedup_rec_props};
use crate::checks::{check_admin, check_name_owner, is_admin, owner_matches};
use crate::error::ContractError;
use crate::state::{pairs_view, Config, Registry};

verus! {

/// The instantiation payload: the full configuration.
pub struct InstantiateMsg {
    pub admins: Vec<String>,
    pub registrar_addresses: Vec<String>,
    pub name_address: String,
    pub transferrable: bool,
}

/// State-changing requests.
pub enum ExecuteMsg {
    SetRecord { user_name: String, addresses: Vec<(String, String)> },
}

/// Read-only requests.
pub enum QueryMsg {
    GetAddresses { user_name: String },
    Config {},
}

/// Answers to read-only requests.
pub enum QueryAnswer {
    Addresses { addresses: Vec<(String, String)> },
    Config { config: Config },
}

/// Owner-or-admin: the authorization required to set a record.
pub open spec fn set_record_authorized(
    config: Config,
    caller: Seq<char>,
    token_owner: Option<String>,
) -> bool {
    is_admin(config, caller) || owner_matches(token_owner, caller)
}

/// Every submitted pair passes the address validator.
pub open spec fn all_pairs_valid(addrs: Seq<(Seq<char>, Seq<char>)>) -> bool {
    forall|k: int| 0 <= k < addrs.len() ==> pair_valid(#[trigger] addrs[k])
}

/// The exact condition under which a set-record request succeeds: the
/// username is unset, the caller is owner or admin, and every pair is
/// valid.
pub open spec fn set_record_allowed(
    s: Registry,
    caller: Seq<char>,
    token_owner: Option<String>,
    user_name: Seq<char>,
    addrs: Seq<(Seq<char>, Seq<char>)>,
) -> bool {
    &&& !s.has_record(user_name)
    &&& set_record_authorized(s.config, caller, token_owner)
    &&& all_pairs_valid(addrs)
}

/// The principal recorded as owner at write time: the oracle's answer
/// when it gave one, otherwise the (authorized) caller.
pub open spec fn stored_owner(token_owner: Option<String>, caller: Seq<char>) -> Seq<char> {
    match token_owner {
        Some(o) => o@,
        None => caller,
    }
}

/// Contract instantiation: records the configuration; no records exist.
pub fn instantiate(msg: InstantiateMsg) -> (r: Registry)
    ensures
        r.wf(),
        r.config == (Config {
            admins: msg.admins,
            registrar_addresses: msg.registrar_addresses,
            name_address: msg.name_address,
            transferrable: msg.transferrable,
        }),
        r.records@.len() == 0,
        r.addr_map() == Map::<Seq<char>, Seq<(Seq<char>, Seq<char>)>>::empty(),
        r.owner_map() == Map::<Seq<char>, Seq<char>>::empty(),
{
    let config = Config {
        admins: msg.admins,
        registrar_addresses: msg.registrar_addresses,
        name_address: msg.name_address,
        transferrable: msg.transferrable,
    };
    let r = Registry { config, records: Vec::new() };
    proof {
        assert(r.addr_map() =~= Map::<Seq<char>, Seq<(Seq<char>, Seq<char>)>>::empty());
        assert(r.owner_map() =~= Map::<Seq<char>, Seq<char>>::empty());
    }
    r
}

/// Sets the record for `user_name`: a single atomic `Unset -> Set`
/// transition. Fails with `AlreadyRegistered` when the name is bound,
/// `Unauthorized` when the caller is neither the reported owner nor an
/// admin, and `InvalidAddress` when any pair fails validation; every
/// failure leaves the state untouched.
pub fn execute_set_record(
    registry: &mut Registry,
    caller: &str,
    user_name: String,
    addresses: Vec<(String, String)>,
    token_owner: Option<String>,
) -> (r: Result<(), ContractError>)
    requires
        old(registry).wf(),
    ensures
        final(registry).wf(),
        final(registry).config == old(registry).config,
        r is Ok <==> set_record_allowed(
            *old(registry),
            caller@,
            token_owner,
            user_name@,
            pairs_view(addresses@),
        ),
        r is Err ==> *final(registry) == *old(registry),
        r matches Err(ContractError::AlreadyRegistered { username }) ==> username@ == user_name@,
        (r matches Err(ContractError::AlreadyRegistered { .. })) <==> old(registry).has_record(
            user_name@,
        ),
        (r == Result::<(), ContractError>::Err(ContractError::Unauthorized)) <==> (!old(
            registry,
        ).has_record(user_name@) && !set_record_authorized(
            old(registry).config,
            caller@,
            token_owner,
        )),
        (r == Result::<(), ContractError>::Err(ContractError::InvalidAddress)) <==> (!old(
            registry,
        ).has_record(user_name@) && set_record_authorized(
            old(registry).config,
            caller@,
            token_owner,
        ) && !all_pairs_valid(pairs_view(addresses@))),
        r is Ok ==> final(registry).addr_map() == old(registry).addr_map().insert(
            user_name@,
            canon(pairs_view(addresses@)),
        ) && final(registry).owner_map() == old(registry).owner_map().insert(
            user_name@,
            stored_owner(token_owner, caller@),
        ),
{
    // 1. Write-once precondition: the username must be unset.
    if registry.get_record(user_name.as_str()).is_some() {
        return Err(ContractError::AlreadyRegistered { username: user_name });
    }
    // 2. Authorization: verified name-owner, or admin.
    let authorized = match check_name_owner(&token_owner, caller) {
        Ok(()) => true,
        Err(_) => check_admin(&registry.config, caller).is_ok(),
    };
    if !authorized {
        return Err(ContractError::Unauthorized);
    }
    // 3. Validate every submitted pair; one bad pair aborts the request.
    let n = addresses.len();
    let mut k: usize = 0;
    while k < n
        invariant
            k <= n,
            n == addresses@.len(),
            forall|j: int| 0 <= j < k ==> pair_valid(#[trigger] pairs_view(addresses@)[j]),
            old(registry).wf(),
            *registry == *old(registry),
            !old(registry).has_record(user_name@),
            set_record_authorized(old(registry).config, caller@, token_owner),
        decreases n - k,
    {
        proof {
            assert(pairs_view(addresses@)[k as int] == (
                addresses@[k as int].0@,
                addresses@[k as int].1@,
            ));
        }
        match validate(addresses[k].0.as_str(), addresses[k].1.as_str()) {
            Ok(()) => {},
            Err(_) => {
                proof {
                    assert(!pair_valid(pairs_view(addresses@)[k as int]));
                }
                return Err(ContractError::InvalidAddress);
            },
        }
        k = k + 1;
    }
    // 4. Commit: deduplicate, canonicalize and store atomically.
    let owner = match token_owner {
        Some(o) => o,
        None => caller.to_owned(),
    };
    let deduped = dedup_by_prefix(&addresses);
    proof {
        let raw = pairs_view(addresses@);
        let dd = pairs_view(deduped@);
        lemma_dedup_rec_props(raw, Set::empty());
        assert forall|j: int| 0 <= j < dd.len() implies pair_valid(#[trigger] dd[j]) by {
            assert(raw.contains(dd[j]));
            let i = choose|i: int| 0 <= i < raw.len() && raw[i] == dd[j];
            assert(pair_valid(raw[i]));
        }
        lemma_dedup_noop(dd);
        assert(canon(dd) == canon(raw));
    }
    let put = registry.put_record(user_name, owner, deduped);
    proof {
        assert(put is Ok);
    }
    Ok(())
}

/// Routes a state-changing request.
pub fn execute(
    registry: &mut Registry,
    caller: &str,
    msg: ExecuteMsg,
    token_owner: Option<String>,
) -> (r: Result<(), ContractError>)
    requires
        old(registry).wf(),
    ensures
        final(registry).wf(),
        final(registry).config == old(registry).config,
        r is Err ==> *final(registry) == *old(registry),
        msg matches ExecuteMsg::SetRecord { user_name, addresses } ==> {
            &&& r is Ok <==> set_record_allowed(
                *old(registry),
                caller@,
                token_owner,
                user_name@,
                pairs_view(addresses@),
            )
            &&& (r matches Err(ContractError::AlreadyRegistered { username }) ==> username@
                == user_name@)
            &&& ((r matches Err(ContractError::AlreadyRegistered { .. })) <==> old(
                registry,
            ).has_record(user_name@))
            &&& ((r == Result::<(), ContractError>::Err(ContractError::Unauthorized)) <==> (!old(
                registry,
            ).has_record(user_name@) && !set_record_authorized(
                old(registry).config,
                caller@,
                token_owner,
            )))
            &&& ((r == Result::<(), ContractError>::Err(ContractError::InvalidAddress)) <==> (!old(
                registry,
            ).has_record(user_name@) && set_record_authorized(
                old(registry).config,
                caller@,
                token_owner,
            ) && !all_pairs_valid(pairs_view(addresses@))))
            &&& (r is Ok ==> final(registry).addr_map() == old(registry).addr_map().insert(
                user_name@,
                canon(pairs_view(addresses@)),
            ) && final(registry).owner_map() == old(registry).owner_map().insert(
                user_name@,
                stored_owner(token_owner, caller@),
            ))
        },
{
    match msg {
        ExecuteMsg::SetRecord { user_name, addresses } => execute_set_record(
            registry,
            caller,
            user_name,
            addresses,
            token_owner,
        ),
    }
}

/// A copy of a list of principals with the same character sequences.
fn clone_strings(v: &Vec<String>) -> (r: Vec<String>)
    ensures
        r@ == v@,
{
    let n = v.len();
    let mut out: Vec<String> = Vec::new();
    let mut i: usize = 0;
    while i < n
        invariant
            i <= n,
            n == v@.len(),
            out@ == v@.take(i as int),
        decreases n - i,
    {
        out.push(v[i].clone());
        proof {
            assert(out@ =~= v@.take(i as int + 1));
        }
        i = i + 1;
    }
    proof {
        assert(v@.take(n as int) =~= v@);
    }
    out
}

/// Answers a read-only request from the store. Absence of a record is a
/// valid response: it reads as an empty address list.
pub fn query(registry: &Registry, msg: QueryMsg) -> (r: QueryAnswer)
    ensures
        match msg {
            QueryMsg::GetAddresses { user_name } => r matches QueryAnswer::Addresses { addresses }
                && pairs_view(addresses@) == (if registry.has_record(user_name@) {
                registry.addr_map()[user_name@]
            } else {
                Seq::<(Seq<char>, Seq<char>)>::empty()
            }),
            QueryMsg::Config {  } => r matches QueryAnswer::Config { config } && config.admins@
                == registry.config.admins@ && config.registrar_addresses@
                == registry.config.registrar_addresses@ && config.name_address
                == registry.config.name_address && config.transferrable
                == registry.config.transferrable,
        },
{
    match msg {
        QueryMsg::GetAddresses { user_name } => {
            match registry.get_record(user_name.as_str()) {
                Some(addresses) => QueryAnswer::Addresses { addresses },
                None => {
                    let addresses: Vec<(String, String)> = Vec::new();
                    proof {
                        assert(pairs_view(addresses@) =~= Seq::<(Seq<char>, Seq<char>)>::empty());
                    }
                    QueryAnswer::Addresses { addresses }
                },
            }
        },
        QueryMsg::Config {  } => {
            let config = Config {
                admins: clone_strings(&registry.config.admins),
                registrar_addresses: clone_strings(&registry.config.registrar_addresses),
                name_address: registry.config.name_address.clone(),
                transferrable: registry.config.transferrable,
            };
            QueryAnswer::Config { config }
        },
    }
}

/// Write-once: once a username holds a record, no later set-record
/// request for it is allowed, whoever calls and whatever it submits; the
/// service then answers `AlreadyRegistered` and leaves the stored record
/// unchanged.
pub proof fn lemma_write_once(
    s: Registry,
    caller: Seq<char>,
    token_owner: Option<String>,
    user_name: Seq<char>,
    addrs: Seq<(Seq<char>, Seq<char>)>,
)
    requires
        s.has_record(user_name),
    ensures
        !set_record_allowed(s, caller, token_owner, user_name, addrs),
{
}

/// Validator soundness: a single pair whose decoded prefix is not the
/// claimed prefix (or which does not decode at all) forbids the whole
/// request.
pub proof fn lemma_validator_soundness(
    s: Registry,
    caller: Seq<char>,
    token_owner: Option<String>,
    user_name: Seq<char>,
    addrs: Seq<(Seq<char>, Seq<char>)>,
    k: int,
)
    requires
        0 <= k < addrs.len(),
        crate::address::bech32_hrp(addrs[k].1) != Some(addrs[k].0),
    ensures
        !set_record_allowed(s, caller, token_owner, user_name, addrs),
{
    assert(!pair_valid(addrs[k]));
}

/// Authorization: a caller that is neither an admin nor the reported
/// name-owner can never set a record, so no record is created for it.
pub proof fn lemma_authorization(
    s: Registry,
    caller: Seq<char>,
    token_owner: Option<String>,
    user_name: Seq<char>,
    addrs: Seq<(Seq<char>, Seq<char>)>,
)
    requires
        !is_admin(s.config, caller),
        !owner_matches(token_owner, caller),
    ensures
        !set_record_allowed(s, caller, token_owner, user_name, addrs),
{
}

} // verus!
