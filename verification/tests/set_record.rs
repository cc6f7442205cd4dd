use icns_resolver::contract::{execute, instantiate, query, ExecuteMsg, InstantiateMsg, QueryAnswer, QueryMsg};
use icns_resolver::error::ContractError;
use icns_resolver::state::Registry;

const JUNO_ADDR: &str = "juno1kn27c8fu9qjmcn9hqytdzlml55mcs7dl2wu2ts";
const COSMOS_ADDR: &str = "cosmos1gf3dm2mvqhymts6ksrstlyuu2m8pw6dhv43wpe";

fn default_registry() -> Registry {
    instantiate(InstantiateMsg {
        admins: vec![String::from("admin1"), String::from("admin2")],
        registrar_addresses: vec![String::from("default-registrar")],
        name_address: String::from("name-nft"),
        transferrable: true,
    })
}

fn set_record(
    registry: &mut Registry,
    caller: &str,
    user_name: &str,
    addresses: Vec<(String, String)>,
    token_owner: Option<&str>,
) -> Result<(), ContractError> {
    execute(
        registry,
        caller,
        ExecuteMsg::SetRecord {
            user_name: user_name.to_string(),
            addresses,
        },
        token_owner.map(|o| o.to_string()),
    )
}

fn get_addresses(registry: &Registry, name: &str) -> Vec<(String, String)> {
    match query(
        registry,
        QueryMsg::GetAddresses {
            user_name: name.to_string(),
        },
    ) {
        QueryAnswer::Addresses { addresses } => addresses,
        _ => panic!("expected an address answer"),
    }
}

#[test]
fn set_get_single_record() {
    let mut registry = default_registry();

    // name token "bob" is owned by bob; admin1 sets the record
    let res = set_record(
        &mut registry,
        "admin1",
        "bob",
        vec![
            ("juno".to_string(), JUNO_ADDR.to_string()),
            ("cosmos".to_string(), COSMOS_ADDR.to_string()),
        ],
        Some("bob"),
    );
    assert!(res.is_ok());

    let addresses = get_addresses(&registry, "bob");
    assert_eq!(addresses.len(), 2);
    assert_eq!(addresses[0].0, "cosmos");
    assert_eq!(addresses[0].1, "cosmos1gf3dm2mvqhymts6ksrstlyuu2m8pw6dhv43wpe");
    assert_eq!(addresses[1].0, "juno");
    assert_eq!(addresses[1].1, "juno1kn27c8fu9qjmcn9hqytdzlml55mcs7dl2wu2ts");
}

#[test]
fn set_duplicate_username() {
    let mut registry = default_registry();

    let res = set_record(
        &mut registry,
        "admin1",
        "bob",
        vec![
            ("juno".to_string(), JUNO_ADDR.to_string()),
            ("cosmos".to_string(), COSMOS_ADDR.to_string()),
        ],
        Some("bob"),
    );
    assert!(res.is_ok());

    // setting the same username again must error
    let err = set_record(
        &mut registry,
        "admin1",
        "bob",
        vec![
            ("juno".to_string(), JUNO_ADDR.to_string()),
            ("cosmos".to_string(), COSMOS_ADDR.to_string()),
        ],
        Some("bob"),
    )
    .is_err();
    assert_eq!(err, true);
}

#[test]
fn bech32_verification() {
    let mut registry = default_registry();

    // an invalid bech32 address is rejected
    let err = set_record(
        &mut registry,
        "admin1",
        "bob",
        vec![("cosmos".to_string(), "cosmos1dsfsfasdfknsfkndfknskdfns".to_string())],
        Some("bob"),
    )
    .is_err();
    assert_eq!(err, true);

    // an address whose prefix does not match the claimed prefix is rejected
    let err = set_record(
        &mut registry,
        "admin1",
        "bob",
        vec![("cosmos".to_string(), JUNO_ADDR.to_string())],
        Some("bob"),
    )
    .is_err();
    assert_eq!(err, true);

    // valid prefixes and addresses succeed
    let err = set_record(
        &mut registry,
        "admin1",
        "bob",
        vec![
            ("juno".to_string(), JUNO_ADDR.to_string()),
            ("cosmos".to_string(), COSMOS_ADDR.to_string()),
        ],
        Some("bob"),
    )
    .is_err();
    assert_eq!(err, false);
}

#[test]
fn write_once_keeps_first_record() {
    let mut registry = default_registry();

    let res = set_record(
        &mut registry,
        "bob",
        "bob",
        vec![("juno".to_string(), JUNO_ADDR.to_string())],
        Some("bob"),
    );
    assert!(res.is_ok());

    // a second write fails with AlreadyRegistered and changes nothing
    let res = set_record(
        &mut registry,
        "bob",
        "bob",
        vec![("cosmos".to_string(), COSMOS_ADDR.to_string())],
        Some("bob"),
    );
    assert_eq!(
        res,
        Err(ContractError::AlreadyRegistered {
            username: "bob".to_string()
        })
    );
    let addresses = get_addresses(&registry, "bob");
    assert_eq!(addresses, vec![("juno".to_string(), JUNO_ADDR.to_string())]);
}

#[test]
fn canonical_ordering_is_submission_order_independent() {
    let mut registry = default_registry();

    let res = set_record(
        &mut registry,
        "admin1",
        "alice",
        vec![
            ("cosmos".to_string(), COSMOS_ADDR.to_string()),
            ("juno".to_string(), JUNO_ADDR.to_string()),
        ],
        Some("alice"),
    );
    assert!(res.is_ok());
    let res = set_record(
        &mut registry,
        "admin1",
        "carol",
        vec![
            ("juno".to_string(), JUNO_ADDR.to_string()),
            ("cosmos".to_string(), COSMOS_ADDR.to_string()),
        ],
        Some("carol"),
    );
    assert!(res.is_ok());

    let alice = get_addresses(&registry, "alice");
    let carol = get_addresses(&registry, "carol");
    assert_eq!(alice, carol);
    assert_eq!(alice[0].0, "cosmos");
    assert_eq!(alice[1].0, "juno");
}

#[test]
fn unauthorized_caller_creates_no_record() {
    let mut registry = default_registry();

    // mallory is no admin and not the reported owner of "bob"
    let res = set_record(
        &mut registry,
        "mallory",
        "bob",
        vec![("juno".to_string(), JUNO_ADDR.to_string())],
        Some("bob"),
    );
    assert_eq!(res, Err(ContractError::Unauthorized));
    assert_eq!(get_addresses(&registry, "bob"), vec![]);

    // with no reported owner, a non-admin caller is rejected too
    let res = set_record(
        &mut registry,
        "mallory",
        "bob",
        vec![("juno".to_string(), JUNO_ADDR.to_string())],
        None,
    );
    assert_eq!(res, Err(ContractError::Unauthorized));
}

#[test]
fn owner_may_set_own_record() {
    let mut registry = default_registry();

    let res = set_record(
        &mut registry,
        "bob",
        "bob",
        vec![("juno".to_string(), JUNO_ADDR.to_string())],
        Some("bob"),
    );
    assert!(res.is_ok());
    let addresses = get_addresses(&registry, "bob");
    assert_eq!(addresses, vec![("juno".to_string(), JUNO_ADDR.to_string())]);
}

#[test]
fn duplicate_prefixes_keep_first_occurrence() {
    let mut registry = default_registry();

    let res = set_record(
        &mut registry,
        "admin1",
        "bob",
        vec![
            ("cosmos".to_string(), COSMOS_ADDR.to_string()),
            ("cosmos".to_string(), "cosmos1dsfsfasdfknsfkndfknskdfns".to_string()),
        ],
        Some("bob"),
    );
    // the duplicate pair is still validated: its bad checksum aborts the write
    assert_eq!(res, Err(ContractError::InvalidAddress));

    let res = set_record(
        &mut registry,
        "admin1",
        "bob",
        vec![
            ("juno".to_string(), JUNO_ADDR.to_string()),
            ("juno".to_string(), JUNO_ADDR.to_string()),
        ],
        Some("bob"),
    );
    assert!(res.is_ok());
    let addresses = get_addresses(&registry, "bob");
    assert_eq!(addresses, vec![("juno".to_string(), JUNO_ADDR.to_string())]);
}

#[test]
fn scenario_admin_sets_bob_record() {
    // admins {admin1, admin2}, registrar R, token "bob" minted by R to bob
    let mut registry = instantiate(InstantiateMsg {
        admins: vec![String::from("admin1"), String::from("admin2")],
        registrar_addresses: vec![String::from("default-registrar")],
        name_address: String::from("name-nft"),
        transferrable: true,
    });

    let res = set_record(
        &mut registry,
        "admin1",
        "bob",
        vec![
            ("juno".to_string(), JUNO_ADDR.to_string()),
            ("cosmos".to_string(), COSMOS_ADDR.to_string()),
        ],
        Some("bob"),
    );
    assert!(res.is_ok());

    let addresses = get_addresses(&registry, "bob");
    assert_eq!(
        addresses,
        vec![
            ("cosmos".to_string(), COSMOS_ADDR.to_string()),
            ("juno".to_string(), JUNO_ADDR.to_string()),
        ]
    );

    // a repeat write fails
    let res = set_record(
        &mut registry,
        "admin1",
        "bob",
        vec![("juno".to_string(), JUNO_ADDR.to_string())],
        Some("bob"),
    );
    assert!(res.is_err());

    // a bad checksum fails with InvalidAddress (for a fresh name)
    let res = set_record(
        &mut registry,
        "admin1",
        "dave",
        vec![("cosmos".to_string(), "cosmos1dsfsfasdfknsfkndfknskdfns".to_string())],
        Some("dave"),
    );
    assert_eq!(res, Err(ContractError::InvalidAddress));

    // a prefix mismatch fails with InvalidAddress
    let res = set_record(
        &mut registry,
        "admin1",
        "dave",
        vec![("cosmos".to_string(), JUNO_ADDR.to_string())],
        Some("dave"),
    );
    assert_eq!(res, Err(ContractError::InvalidAddress));
}
