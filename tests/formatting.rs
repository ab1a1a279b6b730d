use ledger_rpc::decode::{
    DecodeError, TYPE_ARRAY, TYPE_FIELDS_NAMED, TYPE_I128, TYPE_I8, TYPE_STRING, TYPE_STRUCT,
    TYPE_TREE_MAP, TYPE_TUPLE, TYPE_U8, TYPE_UNIT, TYPE_VEC,
};
use ledger_rpc::format::{
    format_custom, format_data_with_ledger, TYPE_ADDRESS, TYPE_BIG_DECIMAL, TYPE_BUCKET_ID,
    TYPE_DECIMAL, TYPE_H256, TYPE_LAZY_MAP_ID, TYPE_RESOURCE_REF_ID, TYPE_VAULT_ID,
};
use ledger_rpc::ledger::{EntityId, LazyMap, Ledger};

fn len4(n: u32) -> Vec<u8> {
    n.to_le_bytes().to_vec()
}

fn custom(tag: u8, data: &[u8]) -> Vec<u8> {
    let mut b = vec![tag];
    b.extend(len4(data.len() as u32));
    b.extend(data);
    b
}

fn decimal_bytes(units: u128) -> Vec<u8> {
    let mut b = (units * 1_000_000_000_000_000_000u128).to_le_bytes().to_vec();
    b.extend([0u8; 8]);
    b
}

fn id_bytes(fill: u8, index: u32) -> Vec<u8> {
    let mut b = vec![fill; 32];
    b.extend(index.to_le_bytes());
    b
}

fn component_address() -> Vec<u8> {
    let mut b = vec![0x02];
    b.extend(1u8..=26);
    b
}

fn named_struct(fields: &[(&str, Vec<u8>)]) -> Vec<u8> {
    let mut b = vec![TYPE_STRUCT, TYPE_FIELDS_NAMED];
    b.extend(len4(fields.len() as u32));
    for (name, value) in fields {
        b.extend(len4(name.len() as u32));
        b.extend(name.as_bytes());
        b.extend(value);
    }
    b
}

fn format(data: &[u8], ledger: &Ledger) -> (Result<String, DecodeError>, Vec<EntityId>) {
    let mut vaults = Vec::new();
    let r = format_data_with_ledger(data, ledger, &mut vaults);
    (r, vaults)
}

#[test]
fn struct_with_amount_and_owner() {
    let address = component_address();
    let data = named_struct(&[
        ("amount", custom(TYPE_DECIMAL, &decimal_bytes(5))),
        ("owner", custom(TYPE_ADDRESS, &address)),
    ]);
    let (r, vaults) = format(&data, &Ledger::new());
    assert_eq!(r.unwrap(), format!("Struct {{ amount: 5, owner: {} }}", hex::encode(&address)));
    assert!(vaults.is_empty());
}

#[test]
fn primitives_render_naturally() {
    let ledger = Ledger::new();
    assert_eq!(format(&[TYPE_UNIT], &ledger).0.unwrap(), "()");
    assert_eq!(format(&[TYPE_I8, 0x80], &ledger).0.unwrap(), "-128");
    let mut b = vec![TYPE_I128];
    b.extend(i128::MIN.to_le_bytes());
    assert_eq!(format(&b, &ledger).0.unwrap(), "-170141183460469231731687303715884105728");
    let mut s = vec![TYPE_STRING];
    s.extend(len4(2));
    s.extend(b"hi");
    assert_eq!(format(&s, &ledger).0.unwrap(), "\"hi\"");
}

#[test]
fn collections_render_with_their_delimiters() {
    let ledger = Ledger::new();
    let mut b = vec![TYPE_ARRAY, TYPE_U8];
    b.extend(len4(3));
    b.extend([1, 2, 3]);
    assert_eq!(format(&b, &ledger).0.unwrap(), "[1, 2, 3]");
    let mut b = vec![TYPE_TUPLE];
    b.extend(len4(2));
    b.extend([TYPE_U8, 1, TYPE_UNIT]);
    assert_eq!(format(&b, &ledger).0.unwrap(), "(1, ())");
    let mut b = vec![TYPE_VEC, TYPE_U8];
    b.extend(len4(0));
    assert_eq!(format(&b, &ledger).0.unwrap(), "Vec {  }");
    let mut b = vec![TYPE_TREE_MAP, TYPE_U8, TYPE_U8];
    b.extend(len4(2));
    b.extend([1, 10, 2, 20]);
    assert_eq!(format(&b, &ledger).0.unwrap(), "TreeMap { 1 => 10, 2 => 20 }");
}

#[test]
fn vault_ids_are_collected_in_order() {
    let first = id_bytes(0xaa, 1);
    let second = id_bytes(0xbb, 2);
    let mut inner = vec![TYPE_TUPLE];
    inner.extend(len4(1));
    inner.extend(custom(TYPE_VAULT_ID, &second));
    let data = named_struct(&[("a", custom(TYPE_VAULT_ID, &first)), ("b", inner)]);
    let (r, vaults) = format(&data, &Ledger::new());
    let text = r.unwrap();
    assert_eq!(vaults.len(), 2);
    assert_eq!((vaults[0].hash.clone(), vaults[0].index), (vec![0xaa; 32], 1));
    assert_eq!((vaults[1].hash.clone(), vaults[1].index), (vec![0xbb; 32], 2));
    assert_eq!(
        text,
        format!("Struct {{ a: Vid({}, 1), b: (Vid({}, 2)) }}", "aa".repeat(32), "bb".repeat(32))
    );
}

#[test]
fn repeated_formatting_is_stable() {
    let data = named_struct(&[("v", custom(TYPE_VAULT_ID, &id_bytes(1, 7)))]);
    let ledger = Ledger::new();
    let (a, va) = format(&data, &ledger);
    let (b, vb) = format(&data, &ledger);
    assert_eq!(a.unwrap(), b.unwrap());
    assert_eq!(va.len(), vb.len());
    assert_eq!(va[0].index, vb[0].index);
}

#[test]
fn lazy_map_entries_are_decoded_from_the_ledger() {
    let id = id_bytes(0x11, 0);
    let mut ledger = Ledger::new();
    ledger.lazy_maps.push(LazyMap {
        id: EntityId { hash: vec![0x11; 32], index: 0 },
        entries: vec![(vec![TYPE_U8, 1], custom(TYPE_VAULT_ID, &id_bytes(0x22, 3)))],
    });
    let (r, vaults) = format(&custom(TYPE_LAZY_MAP_ID, &id), &ledger);
    assert_eq!(
        r.unwrap(),
        format!("Mid({}, 0) {{ 1 => Vid({}, 3) }}", "11".repeat(32), "22".repeat(32))
    );
    assert_eq!(vaults.len(), 1);
}

#[test]
fn absent_lazy_map_has_an_empty_body() {
    let (r, _) = format(&custom(TYPE_LAZY_MAP_ID, &id_bytes(0x33, 9)), &Ledger::new());
    assert_eq!(r.unwrap(), format!("Mid({}, 9) {{  }}", "33".repeat(32)));
}

#[test]
fn lazy_map_that_contains_itself_is_rejected() {
    let id = id_bytes(0x44, 1);
    let mut ledger = Ledger::new();
    ledger.lazy_maps.push(LazyMap {
        id: EntityId { hash: vec![0x44; 32], index: 1 },
        entries: vec![(vec![TYPE_U8, 1], custom(TYPE_LAZY_MAP_ID, &id))],
    });
    assert_eq!(format(&custom(TYPE_LAZY_MAP_ID, &id), &ledger).0.unwrap_err(), DecodeError::NestingTooDeep);
}

#[test]
fn other_custom_types_render_by_tag() {
    let ledger = Ledger::new();
    let mut vaults = Vec::new();
    assert_eq!(format_custom(TYPE_BUCKET_ID, &vec![5, 0, 0, 0], &ledger, &mut vaults).unwrap(), "Bid(5)");
    assert_eq!(format_custom(TYPE_RESOURCE_REF_ID, &vec![0, 1, 0, 0], &ledger, &mut vaults).unwrap(), "Rid(256)");
    assert_eq!(format_custom(TYPE_H256, &vec![0xab; 32], &ledger, &mut vaults).unwrap(), "ab".repeat(32));
    let mut half = (1_500_000_000_000_000_000u128).to_le_bytes().to_vec();
    half.extend([0u8; 8]);
    assert_eq!(format_custom(TYPE_DECIMAL, &half, &ledger, &mut vaults).unwrap(), "1.5");
    let mut big = (2_000_000_000_000_000_000_000_000_000_000_000_000u128).to_le_bytes().to_vec();
    big.extend([0u8; 16]);
    assert_eq!(format_custom(TYPE_BIG_DECIMAL, &big, &ledger, &mut vaults).unwrap(), "2");
    assert!(vaults.is_empty());
}

#[test]
fn malformed_or_unknown_custom_values_fail() {
    let ledger = Ledger::new();
    let mut vaults = Vec::new();
    assert_eq!(
        format_custom(TYPE_DECIMAL, &vec![1, 2, 3], &ledger, &mut vaults).unwrap_err(),
        DecodeError::InvalidCustomData(TYPE_DECIMAL)
    );
    assert_eq!(
        format_custom(TYPE_ADDRESS, &vec![0x09; 27], &ledger, &mut vaults).unwrap_err(),
        DecodeError::InvalidCustomData(TYPE_ADDRESS)
    );
    assert_eq!(
        format_custom(0x90, &vec![], &ledger, &mut vaults).unwrap_err(),
        DecodeError::InvalidType { expected: None, actual: 0x90 }
    );
    let data = named_struct(&[("x", custom(TYPE_VAULT_ID, &[1, 2]))]);
    assert_eq!(format(&data, &ledger).0.unwrap_err(), DecodeError::InvalidCustomData(TYPE_VAULT_ID));
}

#[test]
fn failure_keeps_only_the_vaults_met_before_it() {
    let data = named_struct(&[
        ("a", custom(TYPE_VAULT_ID, &id_bytes(0x55, 1))),
        ("b", custom(TYPE_DECIMAL, &[1, 2])),
        ("c", custom(TYPE_VAULT_ID, &id_bytes(0x66, 2))),
    ]);
    let mut vaults = vec![EntityId { hash: vec![0x77; 32], index: 9 }];
    let r = format_data_with_ledger(&data, &Ledger::new(), &mut vaults);
    assert_eq!(r.unwrap_err(), DecodeError::InvalidCustomData(TYPE_DECIMAL));
    assert_eq!(vaults.len(), 2);
    assert_eq!((vaults[0].index, vaults[1].index), (9, 1));
    assert_eq!(vaults[1].hash, vec![0x55; 32]);
}

#[test]
fn undecodable_bytes_leave_the_accumulator_alone() {
    let mut vaults = vec![EntityId { hash: vec![1; 32], index: 4 }];
    let r = format_data_with_ledger(&[0x0f, 9, 9], &Ledger::new(), &mut vaults);
    assert_eq!(r.unwrap_err(), DecodeError::InvalidType { expected: None, actual: 0x0f });
    assert_eq!(vaults.len(), 1);
    let r = format_data_with_ledger(&[], &Ledger::new(), &mut vaults);
    assert!(r.is_err());
    assert_eq!(vaults.len(), 1);
}

fn signed_decimal_bytes(subunits: i128) -> Vec<u8> {
    let mut b = subunits.to_le_bytes().to_vec();
    b.extend(if subunits < 0 { [0xffu8; 8] } else { [0u8; 8] });
    b
}

#[test]
fn negative_decimals_keep_their_sign() {
    let ledger = Ledger::new();
    let mut vaults = Vec::new();
    let tenth = signed_decimal_bytes(-100_000_000_000_000_000);
    assert_eq!(format_custom(TYPE_DECIMAL, &tenth, &ledger, &mut vaults).unwrap(), "-0.1");
    let one_and_half = signed_decimal_bytes(-1_500_000_000_000_000_000);
    assert_eq!(format_custom(TYPE_DECIMAL, &one_and_half, &ledger, &mut vaults).unwrap(), "-1.5");
    let small = signed_decimal_bytes(1);
    assert_eq!(format_custom(TYPE_DECIMAL, &small, &ledger, &mut vaults).unwrap(), "0.000000000000000001");
}
