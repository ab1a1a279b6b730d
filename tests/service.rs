use ledger_rpc::config::Config;
use ledger_rpc::decode::{DecodeError, TYPE_FIELDS_UNNAMED, TYPE_STRUCT, TYPE_U8};
use ledger_rpc::entities::{address_to_signers, get_call_results, Receipt, SignerError};
use ledger_rpc::format::TYPE_VAULT_ID;
use ledger_rpc::handlers::{complete_transaction, decode_call_results, get_balance, get_vault_info, RequestError};
use ledger_rpc::ledger::{Address, AddressKind, Component, EntityId, Ledger, Vault};

fn len4(n: u32) -> Vec<u8> {
    n.to_le_bytes().to_vec()
}

fn address(kind: u8, fill: u8) -> Address {
    let mut b = vec![kind];
    b.extend(if kind == 0x04 { vec![fill; 33] } else { vec![fill; 26] });
    Address::from_bytes(&b).unwrap()
}

fn decimal_bytes(units: u128) -> Vec<u8> {
    let mut b = (units * 1_000_000_000_000_000_000u128).to_le_bytes().to_vec();
    b.extend([0u8; 8]);
    b
}

fn vault_value(fill: u8, index: u32) -> Vec<u8> {
    let mut b = vec![TYPE_VAULT_ID];
    b.extend(len4(36));
    b.extend(vec![fill; 32]);
    b.extend(index.to_le_bytes());
    b
}

fn ledger_with_two_vaults() -> (Ledger, Address, Address, Address) {
    let component = address(0x02, 7);
    let r1 = address(0x03, 1);
    let r2 = address(0x03, 2);
    let mut state = vec![TYPE_STRUCT, TYPE_FIELDS_UNNAMED];
    state.extend(len4(2));
    state.extend(vault_value(0xa1, 0));
    state.extend(vault_value(0xa2, 1));
    let mut ledger = Ledger::new();
    ledger.components.push(Component { address: component.clone_address(), state });
    ledger.vaults.push(Vault {
        id: EntityId { hash: vec![0xa1; 32], index: 0 },
        resource: r1.clone_address(),
        amount: decimal_bytes(3),
    });
    ledger.vaults.push(Vault {
        id: EntityId { hash: vec![0xa2; 32], index: 1 },
        resource: r2.clone_address(),
        amount: decimal_bytes(0),
    });
    (ledger, component, r1, r2)
}

#[test]
fn balance_of_component_with_two_vaults() {
    let (ledger, component, r1, r2) = ledger_with_two_vaults();
    let balances = get_balance(&ledger, &component).unwrap();
    assert_eq!(
        balances,
        vec![(hex::encode(&r1.bytes), "3".to_string()), (hex::encode(&r2.bytes), "0".to_string())]
    );
}

#[test]
fn balance_needs_a_component_address() {
    let (ledger, _, r1, _) = ledger_with_two_vaults();
    assert_eq!(get_balance(&ledger, &r1).unwrap_err(), RequestError::NotAComponent);
    let unknown = address(0x02, 9);
    assert_eq!(get_balance(&ledger, &unknown).unwrap_err(), RequestError::AmountsUnavailable);
}

#[test]
fn vault_info_of_unknown_vault_is_the_placeholder() {
    let (ledger, _, r1, _) = ledger_with_two_vaults();
    assert_eq!(
        get_vault_info(&ledger, &EntityId { hash: vec![0; 32], index: 5 }),
        ("deadb33f".to_string(), "-1".to_string())
    );
    let (resource, amount) = get_vault_info(&ledger, &EntityId { hash: vec![0xa1; 32], index: 0 });
    assert_eq!(amount, "3");
    assert_eq!(resource, hex::encode(&r1.bytes));
}

#[test]
fn balance_keeps_unresolved_vaults_as_placeholders() {
    let (mut ledger, component, r1, _) = ledger_with_two_vaults();
    ledger.vaults.pop();
    ledger.vaults[0].amount = vec![1, 2, 3];
    let balances = get_balance(&ledger, &component).unwrap();
    assert_eq!(
        balances,
        vec![("deadb33f".to_string(), "-1".to_string()), ("deadb33f".to_string(), "-1".to_string())]
    );
    let _ = r1;
}

#[test]
fn rejected_call_reports_a_transaction_error_and_commits_the_nonce() {
    let mut config = Config::new(Ledger::new());
    config.store_nonce(4);
    let r = complete_transaction(&mut config, 4, None);
    assert_eq!(r.err(), Some(RequestError::Transaction));
    assert_eq!(config.nonce, 5);
    assert!(config.updated);
}

#[test]
fn committed_nonces_strictly_increase() {
    let mut config = Config::new(Ledger::new());
    let mut seen = vec![];
    for observed in [3u64, 3, 1, 10, 10] {
        config.commit_nonce(observed);
        seen.push(config.nonce);
    }
    assert_eq!(seen, vec![3, 4, 5, 10, 11]);
    assert_eq!(config.epoch, 0);
}

#[test]
fn epoch_advances_only_by_ticks() {
    let mut config = Config::new(Ledger::new());
    config.increment_epoch();
    config.commit_nonce(8);
    config.increment_epoch();
    assert_eq!(config.epoch, 2);
    let (epoch, nonce, _) = config.load();
    assert_eq!((epoch, nonce), (2, 8));
}

#[test]
fn call_results_are_formatted_and_none_skipped() {
    let ledger = Ledger::new();
    let results = vec![Ok(Some(vec![TYPE_U8, 42])), Ok(None), Ok(Some(vec![TYPE_U8, 1]))];
    assert_eq!(decode_call_results(&results, &ledger).unwrap(), vec!["42".to_string(), "1".to_string()]);
    let failing = vec![Ok(Some(vec![TYPE_U8, 42])), Err("out of fuel".to_string()), Ok(Some(vec![0x0f]))];
    assert_eq!(decode_call_results(&failing, &ledger).unwrap_err(), RequestError::Engine("out of fuel".to_string()));
    let bad = vec![Ok(Some(vec![0x0f]))];
    assert_eq!(
        decode_call_results(&bad, &ledger).unwrap_err(),
        RequestError::Decode(DecodeError::InvalidType { expected: None, actual: 0x0f })
    );
}

#[test]
fn new_entities_are_partitioned_by_kind() {
    let receipt = Receipt {
        new_entities: vec![address(0x01, 1), address(0x03, 2), address(0x02, 3), address(0x03, 4)],
        results: vec![],
    };
    let (resources, components, packages) = get_call_results(receipt);
    assert_eq!(resources.iter().map(|a| a.bytes[1]).collect::<Vec<_>>(), vec![2, 4]);
    assert_eq!(components.iter().map(|a| a.bytes[1]).collect::<Vec<_>>(), vec![3]);
    assert_eq!(packages.iter().map(|a| a.bytes[1]).collect::<Vec<_>>(), vec![1]);
}

#[test]
fn only_public_keys_sign() {
    let key = address(0x04, 5);
    let signers = address_to_signers(key).unwrap();
    assert_eq!(signers.len(), 1);
    assert_eq!(signers[0].kind, AddressKind::PublicKey);
    assert_eq!(address_to_signers(address(0x02, 5)).unwrap_err(), SignerError::NotAPublicKey);
}

#[test]
fn addresses_parse_from_hex_text() {
    let text = format!("02{}", "ab".repeat(26));
    let a = Address::from_text(&text).unwrap();
    assert_eq!(a.kind, AddressKind::Component);
    assert_eq!(a.to_text(), text);
    assert!(Address::from_text(&format!("02{}", "AB".repeat(26))).is_some());
    assert!(Address::from_text("02ab").is_none());
    assert!(Address::from_text("zz").is_none());
}
