use ledger_rpc::decode::{
    decode_any, decode_value, DecodeError, TYPE_BOOL, TYPE_BOX, TYPE_ENUM, TYPE_FIELDS_NAMED,
    TYPE_FIELDS_UNIT, TYPE_FIELDS_UNNAMED, TYPE_HASH_MAP, TYPE_I16, TYPE_I8, TYPE_OPTION,
    TYPE_RESULT, TYPE_STRING, TYPE_STRUCT, TYPE_TUPLE, TYPE_U32, TYPE_U8, TYPE_UNIT, TYPE_VEC,
};
use ledger_rpc::value::{DecodedValue, Fields};

fn len4(n: u32) -> Vec<u8> {
    n.to_le_bytes().to_vec()
}

fn string_bytes(s: &str) -> Vec<u8> {
    let mut b = vec![TYPE_STRING];
    b.extend(len4(s.len() as u32));
    b.extend(s.as_bytes());
    b
}

#[test]
fn decodes_unit_and_bool() {
    assert!(matches!(decode_any(&[TYPE_UNIT]), Ok(DecodedValue::Unit)));
    assert!(matches!(decode_any(&[TYPE_BOOL, 1]), Ok(DecodedValue::Bool(true))));
    assert!(matches!(decode_any(&[TYPE_BOOL, 0]), Ok(DecodedValue::Bool(false))));
}

#[test]
fn decodes_little_endian_integers() {
    assert!(matches!(decode_any(&[TYPE_U32, 0x78, 0x56, 0x34, 0x12]), Ok(DecodedValue::U32(0x12345678))));
    assert!(matches!(decode_any(&[TYPE_I16, 0xfe, 0xff]), Ok(DecodedValue::I16(-2))));
    assert!(matches!(decode_any(&[TYPE_I8, 0x80]), Ok(DecodedValue::I8(-128))));
}

#[test]
fn decodes_string() {
    match decode_any(&string_bytes("héllo")) {
        Ok(DecodedValue::String(s)) => assert_eq!(s, "héllo"),
        other => panic!("unexpected {:?}", other),
    }
}

#[test]
fn decodes_struct_with_named_fields() {
    let mut b = vec![TYPE_STRUCT, TYPE_FIELDS_NAMED];
    b.extend(len4(2));
    b.extend(len4(1));
    b.extend(b"a");
    b.extend([TYPE_U8, 7]);
    b.extend(len4(1));
    b.extend(b"b");
    b.extend([TYPE_BOOL, 1]);
    match decode_any(&b) {
        Ok(DecodedValue::Struct(Fields::Named(fs))) => {
            assert_eq!(fs.len(), 2);
            assert_eq!(fs[0].0, "a");
            assert!(matches!(fs[0].1, DecodedValue::U8(7)));
            assert_eq!(fs[1].0, "b");
            assert!(matches!(fs[1].1, DecodedValue::Bool(true)));
        }
        other => panic!("unexpected {:?}", other),
    }
}

#[test]
fn decodes_enum_option_box_result_tuple() {
    let b = [TYPE_ENUM, 3, TYPE_FIELDS_UNIT];
    assert!(matches!(decode_any(&b), Ok(DecodedValue::Enum(3, Fields::Unit))));
    let mut b = vec![TYPE_ENUM, 1, TYPE_FIELDS_UNNAMED];
    b.extend(len4(1));
    b.extend([TYPE_U8, 9]);
    match decode_any(&b) {
        Ok(DecodedValue::Enum(1, Fields::Unnamed(vs))) => assert!(matches!(vs[0], DecodedValue::U8(9))),
        other => panic!("unexpected {:?}", other),
    }
    match decode_any(&[TYPE_OPTION, 1, TYPE_BOX, TYPE_U8, 4]) {
        Ok(DecodedValue::Option(o)) => match *o {
            Some(DecodedValue::Box(x)) => assert!(matches!(*x, DecodedValue::U8(4))),
            other => panic!("unexpected {:?}", other),
        },
        other => panic!("unexpected {:?}", other),
    }
    match decode_any(&[TYPE_RESULT, 1, TYPE_UNIT]) {
        Ok(DecodedValue::Result(r)) => assert!(matches!(*r, Err(DecodedValue::Unit))),
        other => panic!("unexpected {:?}", other),
    }
    let mut b = vec![TYPE_TUPLE];
    b.extend(len4(2));
    b.extend([TYPE_UNIT, TYPE_BOOL, 0]);
    match decode_any(&b) {
        Ok(DecodedValue::Tuple(vs)) => assert_eq!(vs.len(), 2),
        other => panic!("unexpected {:?}", other),
    }
}

#[test]
fn collections_keep_element_tags_even_when_empty() {
    let mut b = vec![TYPE_VEC, TYPE_U32];
    b.extend(len4(0));
    assert!(matches!(decode_any(&b), Ok(DecodedValue::Vec(t, ref vs)) if t == TYPE_U32 && vs.is_empty()));
    let mut b = vec![TYPE_HASH_MAP, TYPE_U8, TYPE_BOOL];
    b.extend(len4(1));
    b.extend([5, 1]);
    match decode_any(&b) {
        Ok(DecodedValue::HashMap(kt, vt, es)) => {
            assert_eq!((kt, vt), (TYPE_U8, TYPE_BOOL));
            assert!(matches!(es[0], (DecodedValue::U8(5), DecodedValue::Bool(true))));
        }
        other => panic!("unexpected {:?}", other),
    }
}

#[test]
fn unknown_leading_tag_is_an_invalid_type() {
    assert_eq!(
        decode_any(&[0x0f, 1, 2, 3]).unwrap_err(),
        DecodeError::InvalidType { expected: None, actual: 0x0f }
    );
    assert_eq!(
        decode_any(&[0x40]).unwrap_err(),
        DecodeError::InvalidType { expected: None, actual: 0x40 }
    );
}

#[test]
fn truncated_input_underflows() {
    assert_eq!(
        decode_any(&[TYPE_U32, 1, 2]).unwrap_err(),
        DecodeError::Underflow { required: 4, remaining: 2 }
    );
    assert_eq!(decode_any(&[]).unwrap_err(), DecodeError::Underflow { required: 1, remaining: 0 });
}

#[test]
fn malformed_bytes_are_rejected() {
    assert_eq!(decode_any(&[TYPE_BOOL, 2]).unwrap_err(), DecodeError::InvalidBool(2));
    assert_eq!(decode_any(&[TYPE_OPTION, 7]).unwrap_err(), DecodeError::InvalidIndex(7));
    let mut b = vec![TYPE_STRING];
    b.extend(len4(1));
    b.push(0xff);
    assert_eq!(decode_any(&b).unwrap_err(), DecodeError::InvalidUtf8);
    assert_eq!(decode_any(&[TYPE_UNIT, 0, 0]).unwrap_err(), DecodeError::NotAllBytesUsed(2));
}

#[test]
fn decode_value_reports_position_after_value() {
    match decode_value(&[TYPE_U8, 1, TYPE_UNIT], 0) {
        Ok((DecodedValue::U8(1), p)) => assert_eq!(p, 2),
        other => panic!("unexpected {:?}", other),
    }
}
