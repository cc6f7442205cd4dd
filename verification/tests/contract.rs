use icns_resolver::address::validate;
use icns_resolver::checks::{check_admin, check_transferrable, validate_name};
use icns_resolver::contract::{execute, instantiate, query, ExecuteMsg, InstantiateMsg, QueryAnswer, QueryMsg};
use icns_resolver::error::ContractError;
use icns_resolver::state::Config;

const JUNO_ADDR: &str = "juno1kn27c8fu9qjmcn9hqytdzlml55mcs7dl2wu2ts";
const COSMOS_ADDR: &str = "cosmos1gf3dm2mvqhymts6ksrstlyuu2m8pw6dhv43wpe";

#[test]
fn proper_init_with_fees() {
    let registry = instantiate(InstantiateMsg {
        admins: vec![String::from("test_admin")],
        registrar_addresses: vec![],
        name_address: String::from("token"),
        transferrable: true,
    });

    match query(&registry, QueryMsg::Config {}) {
        QueryAnswer::Config { config } => {
            assert_ne!(config.admins, vec![String::from("invalid_resolvera")]);
            assert_eq!(config.admins, vec![String::from("test_admin")]);
            assert_eq!(config.registrar_addresses, Vec::<String>::new());
            assert_eq!(config.name_address, String::from("token"));
            assert!(config.transferrable);
        }
        _ => panic!("expected a config answer"),
    }
}

#[test]
fn validate_accepts_matching_prefix() {
    assert!(validate("juno", JUNO_ADDR).is_ok());
    assert!(validate("cosmos", COSMOS_ADDR).is_ok());
}

#[test]
fn validate_rejects_mismatched_prefix() {
    assert_eq!(validate("cosmos", JUNO_ADDR), Err(ContractError::InvalidAddress));
    assert_eq!(validate("juno", COSMOS_ADDR), Err(ContractError::InvalidAddress));
}

#[test]
fn validate_rejects_bad_checksum() {
    assert_eq!(
        validate("cosmos", "cosmos1dsfsfasdfknsfkndfknskdfns"),
        Err(ContractError::InvalidAddress)
    );
    assert_eq!(validate("", ""), Err(ContractError::InvalidAddress));
}

#[test]
fn validate_name_rejects_reserved_separator() {
    assert!(validate_name("bob").is_ok());
    assert_eq!(validate_name("bob.eth"), Err(ContractError::InvalidName));
    assert_eq!(validate_name("."), Err(ContractError::InvalidName));
    assert!(validate_name("").is_ok());
}

#[test]
fn check_admin_scans_admin_set() {
    let config = Config {
        admins: vec![String::from("admin1"), String::from("admin2")],
        registrar_addresses: vec![],
        name_address: String::from("name-nft"),
        transferrable: true,
    };
    assert!(check_admin(&config, "admin1").is_ok());
    assert!(check_admin(&config, "admin2").is_ok());
    assert_eq!(check_admin(&config, "mallory"), Err(ContractError::Unauthorized));
    assert_eq!(check_admin(&config, ""), Err(ContractError::Unauthorized));
}

#[test]
fn check_transferrable_gates_on_flag() {
    let frozen = Config {
        admins: vec![],
        registrar_addresses: vec![],
        name_address: String::from("name-nft"),
        transferrable: false,
    };
    assert_eq!(check_transferrable(&frozen), Err(ContractError::Unauthorized));
    let open = Config { transferrable: true, ..frozen };
    assert!(check_transferrable(&open).is_ok());
}

#[test]
fn error_kind_labels() {
    assert_eq!(ContractError::Unauthorized.kind_label(), "unauthorized");
    assert_eq!(ContractError::InvalidAddress.kind_label(), "invalid address");
    assert_eq!(
        ContractError::AlreadyRegistered { username: String::from("bob") }.kind_label(),
        "already registered"
    );
    assert_eq!(ContractError::InvalidName.kind_label(), "invalid name");
}

#[test]
fn empty_address_list_is_allowed_once() {
    let mut registry = instantiate(InstantiateMsg {
        admins: vec![String::from("admin1")],
        registrar_addresses: vec![],
        name_address: String::from("name-nft"),
        transferrable: true,
    });
    let res = execute(
        &mut registry,
        "admin1",
        ExecuteMsg::SetRecord { user_name: String::from("bob"), addresses: vec![] },
        Some(String::from("bob")),
    );
    assert!(res.is_ok());
    match query(&registry, QueryMsg::GetAddresses { user_name: String::from("bob") }) {
        QueryAnswer::Addresses { addresses } => assert_eq!(addresses, vec![]),
        _ => panic!("expected an address answer"),
    }
    // the name is bound even though its list is empty: write-once still holds
    let res = execute(
        &mut registry,
        "admin1",
        ExecuteMsg::SetRecord {
            user_name: String::from("bob"),
            addresses: vec![("juno".to_string(), JUNO_ADDR.to_string())],
        },
        Some(String::from("bob")),
    );
    assert_eq!(res, Err(ContractError::AlreadyRegistered { username: String::from("bob") }));
}
