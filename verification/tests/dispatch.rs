use std::sync::Arc;

use fvm_shared::address::Address;

use ipc_agent::config::{Config, FevmConfig, FvmConfig, Server, Subnet, SubnetConfig};
use ipc_agent::error::Error;
use ipc_agent::checkpoint::Direction;
use ipc_agent::handlers::{
    check_subnet, parse_from, FundHandler, FundParams, HasVotedHandler, HasVotedParams,
    ListCheckpointsHandler, ListCheckpointsParams, ReleaseHandler, ReleaseParams,
};
use ipc_agent::pool::{Connection, SubnetManagerPool};
use ipc_agent::subnet_id::SubnetIdentifier;

fn fevm_subnet(id: &str, accounts: Vec<Address>) -> Subnet {
    Subnet {
        id: SubnetIdentifier::parse(id).unwrap(),
        network_name: String::from("testnet"),
        config: SubnetConfig::Fevm(FevmConfig {
            gateway_addr: Address::new_id(64),
            registry_addr: Address::new_id(65),
            provider_http: String::from("http://127.0.0.1:1234/rpc/v1"),
            accounts,
        }),
    }
}

fn fvm_subnet(id: &str, auth_token: Option<String>, accounts: Vec<Address>) -> Subnet {
    Subnet {
        id: SubnetIdentifier::parse(id).unwrap(),
        network_name: String::from("testnet"),
        config: SubnetConfig::Fvm(FvmConfig {
            gateway_addr: Address::new_id(64),
            jsonrpc_api_http: String::from("http://127.0.0.1:1234/rpc/v1"),
            auth_token,
            accounts,
        }),
    }
}

#[test]
fn pool_get_after_insert_returns_that_connection() {
    let mut pool = SubnetManagerPool::new();
    pool.insert(Connection { subnet: fevm_subnet("/r314159", vec![]) });
    let id = SubnetIdentifier::parse("/r314159").unwrap();
    let conn = pool.get(&id).unwrap();
    assert_eq!(conn.subnet().network_name, "testnet");
    let other = SubnetIdentifier::parse("/r314159/t0100").unwrap();
    assert!(pool.get(&other).is_none());
}

#[test]
fn pool_insert_replaces_the_entry_for_the_same_identifier() {
    let mut pool = SubnetManagerPool::new();
    pool.insert(Connection { subnet: fevm_subnet("/r314159", vec![]) });
    let replacement = Subnet {
        network_name: String::from("renamed"),
        ..fevm_subnet("/r314159", vec![])
    };
    pool.insert(Connection { subnet: replacement });
    let id = SubnetIdentifier::parse("/r314159").unwrap();
    assert_eq!(pool.get(&id).unwrap().subnet().network_name, "renamed");
}

#[test]
fn pool_reload_that_omits_an_identifier_forgets_it() {
    let mut pool = SubnetManagerPool::new();
    pool.insert(Connection { subnet: fevm_subnet("/r314159", vec![]) });
    pool.insert(Connection { subnet: fevm_subnet("/r314159/t0100", vec![]) });

    let mut fresh = SubnetManagerPool::new();
    fresh.insert(Connection { subnet: fevm_subnet("/r314159", vec![]) });
    pool.reload(fresh);

    let kept = SubnetIdentifier::parse("/r314159").unwrap();
    let dropped = SubnetIdentifier::parse("/r314159/t0100").unwrap();
    assert!(pool.get(&kept).is_some());
    assert!(pool.get(&dropped).is_none());
}

#[test]
fn config_add_and_remove_subnet() {
    let server = Server { json_rpc_address: String::from("0.0.0.0:3030") };
    let mut config = Config::new(server);
    config.add_subnet(fevm_subnet("/r314159", vec![]));
    config.add_subnet(fevm_subnet("/r314159/t0100", vec![]));
    assert_eq!(config.subnets().len(), 2);

    // Adding for an identifier already present replaces, never duplicates.
    config.add_subnet(fevm_subnet("/r314159", vec![Address::new_id(7)]));
    assert_eq!(config.subnets().len(), 2);

    let id = SubnetIdentifier::parse("/r314159").unwrap();
    config.remove_subnet(&id);
    assert_eq!(config.subnets().len(), 1);
    assert_eq!(config.subnets()[0].id.to_string(), "/r314159/t0100");
}

#[test]
fn check_subnet_requires_the_auth_token() {
    let ready = fvm_subnet("/r314159", Some(String::from("SECRET-REDACTED")), vec![]);
    assert!(check_subnet(&ready).is_ok());
    let bare = fvm_subnet("/r314159", None, vec![]);
    assert!(matches!(check_subnet(&bare), Err(Error::Internal)));
    let evm = fevm_subnet("/r314159", vec![]);
    assert!(check_subnet(&evm).is_ok());
}

#[test]
fn parse_from_defaults_to_the_first_account() {
    let a = Address::new_id(1000);
    let subnet = fevm_subnet("/r314159", vec![a, Address::new_id(1001)]);
    assert_eq!(parse_from(&subnet, None).unwrap(), a);
}

#[test]
fn parse_from_without_accounts_is_a_configuration_error() {
    let subnet = fevm_subnet("/r314159", vec![]);
    assert!(matches!(parse_from(&subnet, None), Err(Error::NoAccountConfigured)));
}

#[test]
fn parse_from_rejects_a_bad_address() {
    let subnet = fevm_subnet("/r314159", vec![]);
    assert!(matches!(
        parse_from(&subnet, Some(String::from("not-an-address"))),
        Err(Error::InvalidAddress)
    ));
}

fn handler_with_parent(accounts: Vec<Address>) -> FundHandler {
    let mut pool = SubnetManagerPool::new();
    pool.insert(Connection { subnet: fevm_subnet("/r314159", accounts) });
    FundHandler::new(Arc::new(pool))
}

#[test]
fn fund_defaults_to_the_first_account_and_mirrors_it() {
    // Funding a child whose parent's first configured account is `a`
    // submits a transfer of `a` to `a` for 1.5 FIL in atto units.
    let a = Address::new_id(1000);
    let handler = handler_with_parent(vec![a, Address::new_id(1001)]);
    let ins = handler
        .handle(FundParams {
            subnet: String::from("/r314159/t0100"),
            from: None,
            to: None,
            amount: String::from("1.5"),
        })
        .unwrap();
    assert_eq!(ins.from, a);
    assert_eq!(ins.to, a);
    assert_eq!(ins.amount_atto, 1_500_000_000_000_000_000);
    assert_eq!(ins.parent.to_string(), "/r314159");
    assert_eq!(ins.subnet.to_string(), "/r314159/t0100");
    assert_eq!(ins.gateway_addr, Address::new_id(64));
}

#[test]
fn fund_on_the_root_fails_with_no_parent() {
    // The root has no parent to fund from; the request dies before any
    // node client is involved.
    let handler = handler_with_parent(vec![Address::new_id(1000)]);
    let r = handler.handle(FundParams {
        subnet: String::from("/r314159"),
        from: None,
        to: None,
        amount: String::from("1.5"),
    });
    assert!(matches!(r, Err(Error::NoParent)));
}

#[test]
fn fund_on_a_malformed_identifier_is_client_input() {
    let handler = handler_with_parent(vec![Address::new_id(1000)]);
    let r = handler.handle(FundParams {
        subnet: String::from("r314159/t0100"),
        from: None,
        to: None,
        amount: String::from("1"),
    });
    assert!(matches!(r, Err(Error::MalformedIdentifier)));
}

#[test]
fn fund_on_an_unconfigured_parent_is_unknown_subnet() {
    let handler = handler_with_parent(vec![Address::new_id(1000)]);
    let r = handler.handle(FundParams {
        subnet: String::from("/r999999/t0100"),
        from: None,
        to: None,
        amount: String::from("1"),
    });
    assert!(matches!(r, Err(Error::UnknownSubnet)));
}

#[test]
fn fund_without_any_account_is_a_configuration_error() {
    let handler = handler_with_parent(vec![]);
    let r = handler.handle(FundParams {
        subnet: String::from("/r314159/t0100"),
        from: None,
        to: None,
        amount: String::from("1"),
    });
    assert!(matches!(r, Err(Error::NoAccountConfigured)));
}

#[test]
fn fund_with_an_unrepresentable_amount_is_invalid() {
    let handler = handler_with_parent(vec![Address::new_id(1000)]);
    let r = handler.handle(FundParams {
        subnet: String::from("/r314159/t0100"),
        from: None,
        to: None,
        amount: String::from("1.0000000000000000001"),
    });
    assert!(matches!(r, Err(Error::InvalidAmount)));
}

#[test]
fn fund_through_a_tokenless_native_subnet_is_internal() {
    let mut pool = SubnetManagerPool::new();
    pool.insert(Connection { subnet: fvm_subnet("/r314159", None, vec![Address::new_id(1)]) });
    let handler = FundHandler::new(Arc::new(pool));
    let r = handler.handle(FundParams {
        subnet: String::from("/r314159/t0100"),
        from: None,
        to: None,
        amount: String::from("1"),
    });
    assert!(matches!(r, Err(Error::Internal)));
}

#[test]
fn release_resolves_the_child_connection_itself() {
    let a = Address::new_id(2000);
    let mut pool = SubnetManagerPool::new();
    pool.insert(Connection { subnet: fevm_subnet("/r314159/t0100", vec![a]) });
    let handler = ReleaseHandler::new(Arc::new(pool));
    let ins = handler
        .handle(ReleaseParams {
            subnet: String::from("/r314159/t0100"),
            from: None,
            to: None,
            amount: String::from("0.25"),
        })
        .unwrap();
    assert_eq!(ins.from, a);
    assert_eq!(ins.to, a);
    assert_eq!(ins.amount_atto, 250_000_000_000_000_000);
    assert_eq!(ins.subnet.to_string(), "/r314159/t0100");
    assert_eq!(ins.parent.to_string(), "/r314159");
}

#[test]
fn release_from_the_root_fails_with_no_parent() {
    let mut pool = SubnetManagerPool::new();
    pool.insert(Connection { subnet: fevm_subnet("/r314159", vec![Address::new_id(1)]) });
    let handler = ReleaseHandler::new(Arc::new(pool));
    let r = handler.handle(ReleaseParams {
        subnet: String::from("/r314159"),
        from: None,
        to: None,
        amount: String::from("1"),
    });
    assert!(matches!(r, Err(Error::NoParent)));
}

#[test]
fn list_checkpoints_resolves_the_parent_and_keeps_the_range() {
    let mut pool = SubnetManagerPool::new();
    pool.insert(Connection { subnet: fevm_subnet("/r314159", vec![]) });
    let handler = ListCheckpointsHandler::new(Arc::new(pool));
    let ins = handler
        .handle(ListCheckpointsParams {
            subnet: String::from("/r314159/t0100"),
            from_epoch: 10,
            to_epoch: 30,
        })
        .unwrap();
    assert_eq!(ins.parent.to_string(), "/r314159");
    assert_eq!(ins.subnet.to_string(), "/r314159/t0100");
    assert_eq!(ins.from_epoch, 10);
    assert_eq!(ins.to_epoch, 30);
}

#[test]
fn list_checkpoints_on_the_root_has_no_parent() {
    let mut pool = SubnetManagerPool::new();
    pool.insert(Connection { subnet: fevm_subnet("/r314159", vec![]) });
    let handler = ListCheckpointsHandler::new(Arc::new(pool));
    let r = handler.handle(ListCheckpointsParams {
        subnet: String::from("/r314159"),
        from_epoch: 0,
        to_epoch: 10,
    });
    assert!(matches!(r, Err(Error::NoParent)));
}

#[test]
fn has_voted_bottom_up_needs_the_parent_connection() {
    let mut pool = SubnetManagerPool::new();
    pool.insert(Connection { subnet: fevm_subnet("/r314159", vec![]) });
    let handler = HasVotedHandler::new(Arc::new(pool));
    let ins = handler
        .handle(HasVotedParams {
            subnet: String::from("/r314159/t0100"),
            epoch: 42,
            validator: String::from("f01001"),
            direction: Direction::BottomUp,
        })
        .unwrap();
    assert_eq!(ins.epoch, 42);
    assert_eq!(ins.direction, Direction::BottomUp);

    let root = handler.handle(HasVotedParams {
        subnet: String::from("/r314159"),
        epoch: 42,
        validator: String::from("f01001"),
        direction: Direction::BottomUp,
    });
    assert!(matches!(root, Err(Error::NoParent)));
}

#[test]
fn has_voted_top_down_uses_the_subnet_itself() {
    let mut pool = SubnetManagerPool::new();
    pool.insert(Connection { subnet: fevm_subnet("/r314159/t0100", vec![]) });
    let handler = HasVotedHandler::new(Arc::new(pool));
    let ins = handler
        .handle(HasVotedParams {
            subnet: String::from("/r314159/t0100"),
            epoch: 7,
            validator: String::from("f01001"),
            direction: Direction::TopDown,
        })
        .unwrap();
    assert_eq!(ins.direction, Direction::TopDown);
}

#[test]
fn has_voted_rejects_a_bad_validator_address() {
    let mut pool = SubnetManagerPool::new();
    pool.insert(Connection { subnet: fevm_subnet("/r314159", vec![]) });
    let handler = HasVotedHandler::new(Arc::new(pool));
    let r = handler.handle(HasVotedParams {
        subnet: String::from("/r314159/t0100"),
        epoch: 7,
        validator: String::from("not-a-validator"),
        direction: Direction::BottomUp,
    });
    assert!(matches!(r, Err(Error::InvalidAddress)));
}
